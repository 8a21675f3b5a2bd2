//! Blocks and their signatures.

use crate::attestation::{
    bits_from_vec, bits_to_vec, set_indices, validator_indices, AggregatedAttestation,
    AggregatedAttestationView, AggregationBits, XmssSignature,
};
use crate::bindings::collections::{bits_clone, participation, MAX_AGGREGATION_BITS};
use crate::encoding::bits::{
    bits_enc, bits_fault_of, decode_bits, encode_bits, lemma_bits_injective,
};
use crate::encoding::container::{slice_views, views, width_from};
use crate::encoding::list::{
    bytes_fault_of, decode_list, encode_list, item_views, lemma_list_injective, list_enc,
    list_fault_of, list_valid,
};
use crate::encoding::{decode_field, fault_of, DecodeError, Ssz, SszContainer};
use crate::hash_root::{
    container_root, hash_container, hash_items, hash_list, hash_uint, item_roots, list_root,
    uint_root, TreeHash,
};
use crate::primitives::{lemma_h256_from_view, H256};
use crate::state::VALIDATOR_REGISTRY_LIMIT;
use vstd::prelude::*;
use vstd::slice::slice_to_vec;

verus! {

/// The most bytes of an aggregated proof.
pub const MAX_PROOF_SIZE: usize = 1_048_576;

/// A proof that a set of validators signed a message.
#[derive(Debug)]
pub struct AggregatedSignatureProof {
    pub participants: AggregationBits,
    pub proof_data: Vec<u8>,
}

#[verifier::ext_equal]
pub struct AggregatedSignatureProofView {
    pub participants: Seq<bool>,
    pub proof_data: Seq<u8>,
}

impl View for AggregatedSignatureProof {
    type V = AggregatedSignatureProofView;

    open spec fn view(&self) -> AggregatedSignatureProofView {
        AggregatedSignatureProofView {
            participants: participation(self.participants),
            proof_data: self.proof_data@,
        }
    }
}

impl Clone for AggregatedSignatureProof {
    fn clone(&self) -> (r: AggregatedSignatureProof)
        ensures
            r@ == self@,
    {
        AggregatedSignatureProof {
            participants: bits_clone(&self.participants),
            proof_data: slice_to_vec(self.proof_data.as_slice()),
        }
    }
}

impl AggregatedSignatureProof {
    pub fn new(participants: AggregationBits, proof_data: Vec<u8>) -> (r: AggregatedSignatureProof)
        ensures
            r.participants == participants,
            r.proof_data == proof_data,
    {
        AggregatedSignatureProof { participants, proof_data }
    }

    /// A proof without data.
    pub fn empty(participants: AggregationBits) -> (r: AggregatedSignatureProof)
        ensures
            r.participants == participants,
            r.proof_data@ == Seq::<u8>::empty(),
    {
        AggregatedSignatureProof { participants, proof_data: Vec::new() }
    }

    /// The validators that the proof covers, in ascending order.
    pub fn participant_indices(&self) -> (r: Vec<u64>)
        ensures
            r@ == set_indices(self@.participants),
    {
        validator_indices(&self.participants)
    }
}

impl SszContainer for AggregatedSignatureProof {
    open spec fn fixed() -> Option<usize> {
        None
    }

    open spec fn layout() -> Seq<Option<usize>> {
        seq![None, None]
    }

    open spec fn parts(v: AggregatedSignatureProofView) -> Seq<Seq<u8>> {
        seq![
            bits_enc(v.participants),
            v.proof_data,
        ]
    }

    open spec fn limits(v: AggregatedSignatureProofView) -> bool {
        &&& v.participants.len() <= MAX_AGGREGATION_BITS
        &&& v.proof_data.len() <= MAX_PROOF_SIZE
    }

    open spec fn part_fault(i: int, part: Seq<u8>) -> Option<DecodeError> {
        if i == 0 {
            bits_fault_of(part, MAX_AGGREGATION_BITS)
        } else if i == 1 {
            bytes_fault_of(part, MAX_PROOF_SIZE)
        } else {
            None
        }
    }

    proof fn layout_fits() {
        reveal_with_fuel(width_from, 3);
    }

    proof fn parts_conform(v: AggregatedSignatureProofView) {
    }

    proof fn parts_injective(a: AggregatedSignatureProofView, b: AggregatedSignatureProofView) {
        assert(Self::parts(a)[0] == Self::parts(b)[0]);
        lemma_bits_injective(a.participants, b.participants);
        assert(Self::parts(a)[1] == Self::parts(b)[1]);
    }

    fn fixed_size() -> (r: Option<usize>) {
        None
    }

    fn field_layout() -> (r: Vec<Option<usize>>) {
        let r: Vec<Option<usize>> = vec![None, None];
        proof {
            assert(r@ =~= Self::layout());
        }
        r
    }

    fn encode_parts(&self) -> (r: Vec<Vec<u8>>) {
        let mut r: Vec<Vec<u8>> = Vec::new();
        r.push(encode_bits(&bits_to_vec(&self.participants)));
        r.push(slice_to_vec(self.proof_data.as_slice()));
        proof {
            assert(views(r@) =~= Self::parts(self@));
        }
        r
    }

    fn decode_parts(parts: &Vec<&[u8]>) -> (r: Result<AggregatedSignatureProof, DecodeError>) {
        let ghost ps = slice_views(parts@);
        let participants = match decode_bits(parts[0], MAX_AGGREGATION_BITS) {
            Ok(x) => x,
            Err(e) => {
                proof {
                    assert forall|v: AggregatedSignatureProofView| Self::limits(v) implies #[trigger] Self::parts(v)
                        != ps by {
                        assert(Self::parts(v)[0] == bits_enc(v.participants));
                        assert(ps[0] == parts@[0]@);
                    }
                    assert(Self::part_fault(0, ps[0]) == Some(e));
                }
                return Err(e);
            },
        };
        proof {
            assert(ps[0] == parts@[0]@);
            assert(Self::part_fault(0, ps[0]) is None);
        }
        let participants = bits_from_vec(&participants);
        if parts[1].len() > MAX_PROOF_SIZE {
            proof {
                assert forall|v: AggregatedSignatureProofView| Self::limits(v) implies #[trigger] Self::parts(v) != ps by {
                    assert(Self::parts(v)[1] == v.proof_data);
                    assert(ps[1] == parts@[1]@);
                }
                assert(ps[1] == parts@[1]@);
            }
            return Err(DecodeError::TooManyItems { items: parts[1].len(), max: MAX_PROOF_SIZE });
        }
        proof {
            assert(ps[1] == parts@[1]@);
            assert(Self::part_fault(1, ps[1]) is None);
        }
        let proof_data = slice_to_vec(parts[1]);
        let r = AggregatedSignatureProof { participants, proof_data };
        proof {
            assert(Self::parts(r@) =~= ps);
        }
        Ok(r)
    }
}

/// What identifies a block: its fields with the body replaced by its root.
#[derive(Clone, Copy, Debug, PartialEq, Eq)]
pub struct BlockHeader {
    pub slot: u64,
    pub proposer_index: u64,
    pub parent_root: H256,
    pub state_root: H256,
    pub body_root: H256,
}

impl View for BlockHeader {
    type V = BlockHeader;

    open spec fn view(&self) -> BlockHeader {
        *self
    }
}

impl SszContainer for BlockHeader {
    open spec fn fixed() -> Option<usize> {
        Some(112)
    }

    open spec fn layout() -> Seq<Option<usize>> {
        seq![Some(8usize), Some(8usize), Some(32usize), Some(32usize), Some(32usize)]
    }

    open spec fn parts(v: BlockHeader) -> Seq<Seq<u8>> {
        seq![
            u64::enc(v.slot@),
            u64::enc(v.proposer_index@),
            H256::enc(v.parent_root@),
            H256::enc(v.state_root@),
            H256::enc(v.body_root@),
        ]
    }

    open spec fn limits(v: BlockHeader) -> bool {
        &&& u64::valid(v.slot@)
        &&& u64::valid(v.proposer_index@)
        &&& H256::valid(v.parent_root@)
        &&& H256::valid(v.state_root@)
        &&& H256::valid(v.body_root@)
    }

    open spec fn part_fault(i: int, part: Seq<u8>) -> Option<DecodeError> {
        if i == 0 {
            fault_of::<u64>(part)
        } else if i == 1 {
            fault_of::<u64>(part)
        } else if i == 2 {
            fault_of::<H256>(part)
        } else if i == 3 {
            fault_of::<H256>(part)
        } else if i == 4 {
            fault_of::<H256>(part)
        } else {
            None
        }
    }

    proof fn layout_fits() {
        reveal_with_fuel(width_from, 6);
    }

    proof fn parts_conform(v: BlockHeader) {
        u64::enc_size(v.slot@);
        u64::enc_size(v.proposer_index@);
        H256::enc_size(v.parent_root@);
        H256::enc_size(v.state_root@);
        H256::enc_size(v.body_root@);
    }

    proof fn parts_injective(a: BlockHeader, b: BlockHeader) {
        assert(Self::parts(a)[0] == Self::parts(b)[0]);
        u64::enc_injective(a.slot@, b.slot@);
        assert(Self::parts(a)[1] == Self::parts(b)[1]);
        u64::enc_injective(a.proposer_index@, b.proposer_index@);
        assert(Self::parts(a)[2] == Self::parts(b)[2]);
        H256::enc_injective(a.parent_root@, b.parent_root@);
        lemma_h256_from_view(a.parent_root, b.parent_root);
        assert(Self::parts(a)[3] == Self::parts(b)[3]);
        H256::enc_injective(a.state_root@, b.state_root@);
        lemma_h256_from_view(a.state_root, b.state_root);
        assert(Self::parts(a)[4] == Self::parts(b)[4]);
        H256::enc_injective(a.body_root@, b.body_root@);
        lemma_h256_from_view(a.body_root, b.body_root);
    }

    fn fixed_size() -> (r: Option<usize>) {
        Some(112)
    }

    fn field_layout() -> (r: Vec<Option<usize>>) {
        let r: Vec<Option<usize>> = vec![Some(8usize), Some(8usize), Some(32usize), Some(32usize), Some(32usize)];
        proof {
            assert(r@ =~= Self::layout());
        }
        r
    }

    fn encode_parts(&self) -> (r: Vec<Vec<u8>>) {
        let mut r: Vec<Vec<u8>> = Vec::new();
        r.push(self.slot.as_ssz_bytes());
        r.push(self.proposer_index.as_ssz_bytes());
        r.push(self.parent_root.as_ssz_bytes());
        r.push(self.state_root.as_ssz_bytes());
        r.push(self.body_root.as_ssz_bytes());
        proof {
            assert(views(r@) =~= Self::parts(self@));
        }
        r
    }

    fn decode_parts(parts: &Vec<&[u8]>) -> (r: Result<BlockHeader, DecodeError>) {
        let ghost ps = slice_views(parts@);
        let slot = match decode_field::<u64>(parts[0]) {
            Ok(x) => x,
            Err(e) => {
                proof {
                    assert forall|v: BlockHeader| Self::limits(v) implies #[trigger] Self::parts(v)
                        != ps by {
                        assert(Self::parts(v)[0] == u64::enc(v.slot@));
                        assert(ps[0] == parts@[0]@);
                    }
                    assert(Self::part_fault(0, ps[0]) == Some(e));
                }
                return Err(e);
            },
        };
        proof {
            assert(ps[0] == parts@[0]@);
            assert(Self::part_fault(0, ps[0]) is None);
        }
        let proposer_index = match decode_field::<u64>(parts[1]) {
            Ok(x) => x,
            Err(e) => {
                proof {
                    assert forall|v: BlockHeader| Self::limits(v) implies #[trigger] Self::parts(v)
                        != ps by {
                        assert(Self::parts(v)[1] == u64::enc(v.proposer_index@));
                        assert(ps[1] == parts@[1]@);
                    }
                    assert(Self::part_fault(1, ps[1]) == Some(e));
                }
                return Err(e);
            },
        };
        proof {
            assert(ps[1] == parts@[1]@);
            assert(Self::part_fault(1, ps[1]) is None);
        }
        let parent_root = match decode_field::<H256>(parts[2]) {
            Ok(x) => x,
            Err(e) => {
                proof {
                    assert forall|v: BlockHeader| Self::limits(v) implies #[trigger] Self::parts(v)
                        != ps by {
                        assert(Self::parts(v)[2] == H256::enc(v.parent_root@));
                        assert(ps[2] == parts@[2]@);
                    }
                    assert(Self::part_fault(2, ps[2]) == Some(e));
                }
                return Err(e);
            },
        };
        proof {
            assert(ps[2] == parts@[2]@);
            assert(Self::part_fault(2, ps[2]) is None);
        }
        let state_root = match decode_field::<H256>(parts[3]) {
            Ok(x) => x,
            Err(e) => {
                proof {
                    assert forall|v: BlockHeader| Self::limits(v) implies #[trigger] Self::parts(v)
                        != ps by {
                        assert(Self::parts(v)[3] == H256::enc(v.state_root@));
                        assert(ps[3] == parts@[3]@);
                    }
                    assert(Self::part_fault(3, ps[3]) == Some(e));
                }
                return Err(e);
            },
        };
        proof {
            assert(ps[3] == parts@[3]@);
            assert(Self::part_fault(3, ps[3]) is None);
        }
        let body_root = match decode_field::<H256>(parts[4]) {
            Ok(x) => x,
            Err(e) => {
                proof {
                    assert forall|v: BlockHeader| Self::limits(v) implies #[trigger] Self::parts(v)
                        != ps by {
                        assert(Self::parts(v)[4] == H256::enc(v.body_root@));
                        assert(ps[4] == parts@[4]@);
                    }
                    assert(Self::part_fault(4, ps[4]) == Some(e));
                }
                return Err(e);
            },
        };
        proof {
            assert(ps[4] == parts@[4]@);
            assert(Self::part_fault(4, ps[4]) is None);
        }
        let r = BlockHeader { slot, proposer_index, parent_root, state_root, body_root };
        proof {
            assert(Self::parts(r@) =~= ps);
        }
        Ok(r)
    }
}

impl TreeHash for BlockHeader {
    open spec fn hashable(v: BlockHeader) -> bool {
        true
    }

    open spec fn root(v: BlockHeader) -> Seq<u8> {
        container_root(
            seq![
                uint_root(v.slot as nat),
                uint_root(v.proposer_index as nat),
                v.parent_root@,
                v.state_root@,
                v.body_root@,
            ],
        )
    }

    fn tree_hash_root(&self) -> (r: H256) {
        let roots: Vec<H256> = vec![
            hash_uint(self.slot),
            hash_uint(self.proposer_index),
            self.parent_root,
            self.state_root,
            self.body_root,
        ];
        proof {
            assert(item_views(roots@) =~= seq![
                uint_root(self.slot as nat),
                uint_root(self.proposer_index as nat),
                self.parent_root@,
                self.state_root@,
                self.body_root@,
            ]);
        }
        hash_container(&roots)
    }
}

/// The attestations that a block carries.
#[derive(Debug)]
pub struct BlockBody {
    pub attestations: Vec<AggregatedAttestation>,
}

#[verifier::ext_equal]
pub struct BlockBodyView {
    pub attestations: Seq<AggregatedAttestationView>,
}

impl View for BlockBody {
    type V = BlockBodyView;

    open spec fn view(&self) -> BlockBodyView {
        BlockBodyView { attestations: item_views(self.attestations@) }
    }
}

/// A body without attestations.
pub open spec fn empty_body() -> BlockBodyView {
    BlockBodyView { attestations: Seq::empty() }
}

impl Default for BlockBody {
    fn default() -> (r: BlockBody)
        ensures
            r@ == empty_body(),
    {
        let r = BlockBody { attestations: Vec::new() };
        proof {
            assert(r@ =~= empty_body());
        }
        r
    }
}

impl Clone for BlockBody {
    fn clone(&self) -> (r: BlockBody)
        ensures
            r@ == self@,
    {
        let mut attestations: Vec<AggregatedAttestation> = Vec::new();
        let mut i: usize = 0;
        while i < self.attestations.len()
            invariant
                0 <= i <= self.attestations@.len(),
                attestations@.len() == i,
                forall|k: int|
                    0 <= k < i ==> (#[trigger] attestations@[k])@ == self.attestations@[k]@,
            decreases self.attestations@.len() - i,
        {
            let item = self.attestations[i].clone();
            attestations.push(item);
            i = i + 1;
        }
        let r = BlockBody { attestations };
        proof {
            assert(r@.attestations =~= self@.attestations);
        }
        r
    }
}

impl SszContainer for BlockBody {
    open spec fn fixed() -> Option<usize> {
        None
    }

    open spec fn layout() -> Seq<Option<usize>> {
        seq![None]
    }

    open spec fn parts(v: BlockBodyView) -> Seq<Seq<u8>> {
        seq![
            list_enc::<AggregatedAttestation>(v.attestations),
        ]
    }

    open spec fn limits(v: BlockBodyView) -> bool {
        &&& list_valid::<AggregatedAttestation>(v.attestations, VALIDATOR_REGISTRY_LIMIT as nat)
    }

    open spec fn part_fault(i: int, part: Seq<u8>) -> Option<DecodeError> {
        if i == 0 {
            list_fault_of::<AggregatedAttestation>(part, VALIDATOR_REGISTRY_LIMIT)
        } else {
            None
        }
    }

    proof fn layout_fits() {
        reveal_with_fuel(width_from, 2);
    }

    proof fn parts_conform(v: BlockBodyView) {
    }

    proof fn parts_injective(a: BlockBodyView, b: BlockBodyView) {
        assert(Self::parts(a)[0] == Self::parts(b)[0]);
        lemma_list_injective::<AggregatedAttestation>(a.attestations, b.attestations);
    }

    fn fixed_size() -> (r: Option<usize>) {
        None
    }

    fn field_layout() -> (r: Vec<Option<usize>>) {
        let r: Vec<Option<usize>> = vec![None];
        proof {
            assert(r@ =~= Self::layout());
        }
        r
    }

    fn encode_parts(&self) -> (r: Vec<Vec<u8>>) {
        let mut r: Vec<Vec<u8>> = Vec::new();
        r.push(encode_list(&self.attestations));
        proof {
            assert(views(r@) =~= Self::parts(self@));
        }
        r
    }

    fn decode_parts(parts: &Vec<&[u8]>) -> (r: Result<BlockBody, DecodeError>) {
        let ghost ps = slice_views(parts@);
        let attestations = match decode_list::<AggregatedAttestation>(parts[0], VALIDATOR_REGISTRY_LIMIT) {
            Ok(x) => x,
            Err(e) => {
                proof {
                    assert forall|v: BlockBodyView| Self::limits(v) implies #[trigger] Self::parts(v)
                        != ps by {
                        assert(Self::parts(v)[0] == list_enc::<AggregatedAttestation>(v.attestations));
                        assert(ps[0] == parts@[0]@);
                    }
                    assert(Self::part_fault(0, ps[0]) == Some(e));
                }
                return Err(e);
            },
        };
        proof {
            assert(ps[0] == parts@[0]@);
            assert(Self::part_fault(0, ps[0]) is None);
        }
        let r = BlockBody { attestations };
        proof {
            assert(Self::parts(r@) =~= ps);
        }
        Ok(r)
    }
}

impl TreeHash for BlockBody {
    open spec fn hashable(v: BlockBodyView) -> bool {
        v.attestations.len() <= VALIDATOR_REGISTRY_LIMIT
    }

    open spec fn root(v: BlockBodyView) -> Seq<u8> {
        container_root(
            seq![
                list_root(
                    item_roots::<AggregatedAttestation>(v.attestations),
                    VALIDATOR_REGISTRY_LIMIT as nat,
                ),
            ],
        )
    }

    fn tree_hash_root(&self) -> (r: H256) {
        let items = hash_items(&self.attestations);
        let roots: Vec<H256> = vec![hash_list(&items, VALIDATOR_REGISTRY_LIMIT)];
        proof {
            assert(item_views(roots@) =~= seq![
                list_root(
                    item_roots::<AggregatedAttestation>(self@.attestations),
                    VALIDATOR_REGISTRY_LIMIT as nat,
                ),
            ]);
        }
        hash_container(&roots)
    }
}

/// A block of the chain.
#[derive(Debug)]
pub struct Block {
    pub slot: u64,
    pub proposer_index: u64,
    pub parent_root: H256,
    pub state_root: H256,
    pub body: BlockBody,
}

#[verifier::ext_equal]
pub struct BlockView {
    pub slot: u64,
    pub proposer_index: u64,
    pub parent_root: Seq<u8>,
    pub state_root: Seq<u8>,
    pub body: BlockBodyView,
}

impl View for Block {
    type V = BlockView;

    open spec fn view(&self) -> BlockView {
        BlockView {
            slot: self.slot,
            proposer_index: self.proposer_index,
            parent_root: self.parent_root@,
            state_root: self.state_root@,
            body: self.body@,
        }
    }
}

impl Clone for Block {
    fn clone(&self) -> (r: Block)
        ensures
            r@ == self@,
    {
        Block {
            slot: self.slot,
            proposer_index: self.proposer_index,
            parent_root: self.parent_root,
            state_root: self.state_root,
            body: self.body.clone(),
        }
    }
}

impl SszContainer for Block {
    open spec fn fixed() -> Option<usize> {
        None
    }

    open spec fn layout() -> Seq<Option<usize>> {
        seq![Some(8usize), Some(8usize), Some(32usize), Some(32usize), None]
    }

    open spec fn parts(v: BlockView) -> Seq<Seq<u8>> {
        seq![
            u64::enc(v.slot),
            u64::enc(v.proposer_index),
            H256::enc(v.parent_root),
            H256::enc(v.state_root),
            BlockBody::enc(v.body),
        ]
    }

    open spec fn limits(v: BlockView) -> bool {
        &&& u64::valid(v.slot)
        &&& u64::valid(v.proposer_index)
        &&& H256::valid(v.parent_root)
        &&& H256::valid(v.state_root)
        &&& BlockBody::valid(v.body)
    }

    open spec fn part_fault(i: int, part: Seq<u8>) -> Option<DecodeError> {
        if i == 0 {
            fault_of::<u64>(part)
        } else if i == 1 {
            fault_of::<u64>(part)
        } else if i == 2 {
            fault_of::<H256>(part)
        } else if i == 3 {
            fault_of::<H256>(part)
        } else if i == 4 {
            fault_of::<BlockBody>(part)
        } else {
            None
        }
    }

    proof fn layout_fits() {
        reveal_with_fuel(width_from, 6);
    }

    proof fn parts_conform(v: BlockView) {
        u64::enc_size(v.slot);
        u64::enc_size(v.proposer_index);
        H256::enc_size(v.parent_root);
        H256::enc_size(v.state_root);
    }

    proof fn parts_injective(a: BlockView, b: BlockView) {
        assert(Self::parts(a)[0] == Self::parts(b)[0]);
        u64::enc_injective(a.slot, b.slot);
        assert(Self::parts(a)[1] == Self::parts(b)[1]);
        u64::enc_injective(a.proposer_index, b.proposer_index);
        assert(Self::parts(a)[2] == Self::parts(b)[2]);
        H256::enc_injective(a.parent_root, b.parent_root);
        assert(Self::parts(a)[3] == Self::parts(b)[3]);
        H256::enc_injective(a.state_root, b.state_root);
        assert(Self::parts(a)[4] == Self::parts(b)[4]);
        BlockBody::enc_injective(a.body, b.body);
    }

    fn fixed_size() -> (r: Option<usize>) {
        None
    }

    fn field_layout() -> (r: Vec<Option<usize>>) {
        let r: Vec<Option<usize>> = vec![Some(8usize), Some(8usize), Some(32usize), Some(32usize), None];
        proof {
            assert(r@ =~= Self::layout());
        }
        r
    }

    fn encode_parts(&self) -> (r: Vec<Vec<u8>>) {
        let mut r: Vec<Vec<u8>> = Vec::new();
        r.push(self.slot.as_ssz_bytes());
        r.push(self.proposer_index.as_ssz_bytes());
        r.push(self.parent_root.as_ssz_bytes());
        r.push(self.state_root.as_ssz_bytes());
        r.push(self.body.as_ssz_bytes());
        proof {
            assert(views(r@) =~= Self::parts(self@));
        }
        r
    }

    fn decode_parts(parts: &Vec<&[u8]>) -> (r: Result<Block, DecodeError>) {
        let ghost ps = slice_views(parts@);
        let slot = match decode_field::<u64>(parts[0]) {
            Ok(x) => x,
            Err(e) => {
                proof {
                    assert forall|v: BlockView| Self::limits(v) implies #[trigger] Self::parts(v)
                        != ps by {
                        assert(Self::parts(v)[0] == u64::enc(v.slot));
                        assert(ps[0] == parts@[0]@);
                    }
                    assert(Self::part_fault(0, ps[0]) == Some(e));
                }
                return Err(e);
            },
        };
        proof {
            assert(ps[0] == parts@[0]@);
            assert(Self::part_fault(0, ps[0]) is None);
        }
        let proposer_index = match decode_field::<u64>(parts[1]) {
            Ok(x) => x,
            Err(e) => {
                proof {
                    assert forall|v: BlockView| Self::limits(v) implies #[trigger] Self::parts(v)
                        != ps by {
                        assert(Self::parts(v)[1] == u64::enc(v.proposer_index));
                        assert(ps[1] == parts@[1]@);
                    }
                    assert(Self::part_fault(1, ps[1]) == Some(e));
                }
                return Err(e);
            },
        };
        proof {
            assert(ps[1] == parts@[1]@);
            assert(Self::part_fault(1, ps[1]) is None);
        }
        let parent_root = match decode_field::<H256>(parts[2]) {
            Ok(x) => x,
            Err(e) => {
                proof {
                    assert forall|v: BlockView| Self::limits(v) implies #[trigger] Self::parts(v)
                        != ps by {
                        assert(Self::parts(v)[2] == H256::enc(v.parent_root));
                        assert(ps[2] == parts@[2]@);
                    }
                    assert(Self::part_fault(2, ps[2]) == Some(e));
                }
                return Err(e);
            },
        };
        proof {
            assert(ps[2] == parts@[2]@);
            assert(Self::part_fault(2, ps[2]) is None);
        }
        let state_root = match decode_field::<H256>(parts[3]) {
            Ok(x) => x,
            Err(e) => {
                proof {
                    assert forall|v: BlockView| Self::limits(v) implies #[trigger] Self::parts(v)
                        != ps by {
                        assert(Self::parts(v)[3] == H256::enc(v.state_root));
                        assert(ps[3] == parts@[3]@);
                    }
                    assert(Self::part_fault(3, ps[3]) == Some(e));
                }
                return Err(e);
            },
        };
        proof {
            assert(ps[3] == parts@[3]@);
            assert(Self::part_fault(3, ps[3]) is None);
        }
        let body = match decode_field::<BlockBody>(parts[4]) {
            Ok(x) => x,
            Err(e) => {
                proof {
                    assert forall|v: BlockView| Self::limits(v) implies #[trigger] Self::parts(v)
                        != ps by {
                        assert(Self::parts(v)[4] == BlockBody::enc(v.body));
                        assert(ps[4] == parts@[4]@);
                    }
                    assert(Self::part_fault(4, ps[4]) == Some(e));
                }
                return Err(e);
            },
        };
        proof {
            assert(ps[4] == parts@[4]@);
            assert(Self::part_fault(4, ps[4]) is None);
        }
        let r = Block { slot, proposer_index, parent_root, state_root, body };
        proof {
            assert(Self::parts(r@) =~= ps);
        }
        Ok(r)
    }
}

impl TreeHash for Block {
    open spec fn hashable(v: BlockView) -> bool {
        BlockBody::hashable(v.body)
    }

    open spec fn root(v: BlockView) -> Seq<u8> {
        container_root(
            seq![
                uint_root(v.slot as nat),
                uint_root(v.proposer_index as nat),
                v.parent_root,
                v.state_root,
                BlockBody::root(v.body),
            ],
        )
    }

    fn tree_hash_root(&self) -> (r: H256) {
        let roots: Vec<H256> = vec![
            hash_uint(self.slot),
            hash_uint(self.proposer_index),
            self.parent_root,
            self.state_root,
            self.body.tree_hash_root(),
        ];
        proof {
            assert(item_views(roots@) =~= seq![
                uint_root(self.slot as nat),
                uint_root(self.proposer_index as nat),
                self.parent_root@,
                self.state_root@,
                BlockBody::root(self@.body),
            ]);
        }
        hash_container(&roots)
    }
}

/// Whether a header describes a block.
pub open spec fn is_header_of(header: BlockHeader, block: BlockView) -> bool {
    &&& header.slot == block.slot
    &&& header.proposer_index == block.proposer_index
    &&& header.parent_root@ == block.parent_root
    &&& header.state_root@ == block.state_root
    &&& header.body_root@ == BlockBody::root(block.body)
}

/// The block made of a header and a body.
pub open spec fn block_of(header: BlockHeader, body: BlockBodyView) -> BlockView {
    BlockView {
        slot: header.slot,
        proposer_index: header.proposer_index,
        parent_root: header.parent_root@,
        state_root: header.state_root@,
        body,
    }
}

impl Block {
    /// The header of the block.
    pub fn header(&self) -> (r: BlockHeader)
        requires
            Block::hashable(self@),
        ensures
            is_header_of(r, self@),
    {
        BlockHeader {
            slot: self.slot,
            proposer_index: self.proposer_index,
            parent_root: self.parent_root,
            state_root: self.state_root,
            body_root: self.body.tree_hash_root(),
        }
    }

    /// The block made of a header and the body that belongs to it.
    pub fn from_header_and_body(header: BlockHeader, body: BlockBody) -> (r: Block)
        ensures
            r@ == block_of(header, body@),
    {
        Block {
            slot: header.slot,
            proposer_index: header.proposer_index,
            parent_root: header.parent_root,
            state_root: header.state_root,
            body,
        }
    }
}

/// A block and its header have the same root.
pub proof fn header_root_is_block_root(header: BlockHeader, block: BlockView)
    requires
        is_header_of(header, block),
    ensures
        BlockHeader::root(header) == Block::root(block),
{
}

/// A block is put together again from its header and its body.
pub proof fn header_and_body_make_the_block(header: BlockHeader, block: BlockView)
    requires
        is_header_of(header, block),
    ensures
        block_of(header, block.body) == block,
{
}

/// The signatures that come with a block.
#[derive(Debug)]
pub struct BlockSignatures {
    /// One aggregated proof for each attestation in the body.
    pub attestation_signatures: Vec<AggregatedSignatureProof>,
    /// The proposer's signature over the root of the block, by the proposal key.
    pub proposer_signature: XmssSignature,
}

#[verifier::ext_equal]
pub struct BlockSignaturesView {
    pub attestation_signatures: Seq<AggregatedSignatureProofView>,
    pub proposer_signature: Seq<u8>,
}

impl View for BlockSignatures {
    type V = BlockSignaturesView;

    open spec fn view(&self) -> BlockSignaturesView {
        BlockSignaturesView {
            attestation_signatures: item_views(self.attestation_signatures@),
            proposer_signature: self.proposer_signature@,
        }
    }
}

impl Clone for BlockSignatures {
    fn clone(&self) -> (r: BlockSignatures)
        ensures
            r@ == self@,
    {
        let mut attestation_signatures: Vec<AggregatedSignatureProof> = Vec::new();
        let mut i: usize = 0;
        while i < self.attestation_signatures.len()
            invariant
                0 <= i <= self.attestation_signatures@.len(),
                attestation_signatures@.len() == i,
                forall|k: int|
                    0 <= k < i ==> (#[trigger] attestation_signatures@[k])@
                        == self.attestation_signatures@[k]@,
            decreases self.attestation_signatures@.len() - i,
        {
            let item = self.attestation_signatures[i].clone();
            attestation_signatures.push(item);
            i = i + 1;
        }
        let r = BlockSignatures {
            attestation_signatures,
            proposer_signature: self.proposer_signature.clone(),
        };
        proof {
            assert(r@.attestation_signatures =~= self@.attestation_signatures);
        }
        r
    }
}

impl SszContainer for BlockSignatures {
    open spec fn fixed() -> Option<usize> {
        None
    }

    open spec fn layout() -> Seq<Option<usize>> {
        seq![None, Some(3112usize)]
    }

    open spec fn parts(v: BlockSignaturesView) -> Seq<Seq<u8>> {
        seq![
            list_enc::<AggregatedSignatureProof>(v.attestation_signatures),
            XmssSignature::enc(v.proposer_signature),
        ]
    }

    open spec fn limits(v: BlockSignaturesView) -> bool {
        &&& list_valid::<AggregatedSignatureProof>(v.attestation_signatures, VALIDATOR_REGISTRY_LIMIT as nat)
        &&& XmssSignature::valid(v.proposer_signature)
    }

    open spec fn part_fault(i: int, part: Seq<u8>) -> Option<DecodeError> {
        if i == 0 {
            list_fault_of::<AggregatedSignatureProof>(part, VALIDATOR_REGISTRY_LIMIT)
        } else if i == 1 {
            fault_of::<XmssSignature>(part)
        } else {
            None
        }
    }

    proof fn layout_fits() {
        reveal_with_fuel(width_from, 3);
    }

    proof fn parts_conform(v: BlockSignaturesView) {
        XmssSignature::enc_size(v.proposer_signature);
    }

    proof fn parts_injective(a: BlockSignaturesView, b: BlockSignaturesView) {
        assert(Self::parts(a)[0] == Self::parts(b)[0]);
        lemma_list_injective::<AggregatedSignatureProof>(a.attestation_signatures, b.attestation_signatures);
        assert(Self::parts(a)[1] == Self::parts(b)[1]);
        XmssSignature::enc_injective(a.proposer_signature, b.proposer_signature);
    }

    fn fixed_size() -> (r: Option<usize>) {
        None
    }

    fn field_layout() -> (r: Vec<Option<usize>>) {
        let r: Vec<Option<usize>> = vec![None, Some(3112usize)];
        proof {
            assert(r@ =~= Self::layout());
        }
        r
    }

    fn encode_parts(&self) -> (r: Vec<Vec<u8>>) {
        let mut r: Vec<Vec<u8>> = Vec::new();
        r.push(encode_list(&self.attestation_signatures));
        r.push(self.proposer_signature.as_ssz_bytes());
        proof {
            assert(views(r@) =~= Self::parts(self@));
        }
        r
    }

    fn decode_parts(parts: &Vec<&[u8]>) -> (r: Result<BlockSignatures, DecodeError>) {
        let ghost ps = slice_views(parts@);
        let attestation_signatures = match decode_list::<AggregatedSignatureProof>(parts[0], VALIDATOR_REGISTRY_LIMIT) {
            Ok(x) => x,
            Err(e) => {
                proof {
                    assert forall|v: BlockSignaturesView| Self::limits(v) implies #[trigger] Self::parts(v)
                        != ps by {
                        assert(Self::parts(v)[0] == list_enc::<AggregatedSignatureProof>(v.attestation_signatures));
                        assert(ps[0] == parts@[0]@);
                    }
                    assert(Self::part_fault(0, ps[0]) == Some(e));
                }
                return Err(e);
            },
        };
        proof {
            assert(ps[0] == parts@[0]@);
            assert(Self::part_fault(0, ps[0]) is None);
        }
        let proposer_signature = match decode_field::<XmssSignature>(parts[1]) {
            Ok(x) => x,
            Err(e) => {
                proof {
                    assert forall|v: BlockSignaturesView| Self::limits(v) implies #[trigger] Self::parts(v)
                        != ps by {
                        assert(Self::parts(v)[1] == XmssSignature::enc(v.proposer_signature));
                        assert(ps[1] == parts@[1]@);
                    }
                    assert(Self::part_fault(1, ps[1]) == Some(e));
                }
                return Err(e);
            },
        };
        proof {
            assert(ps[1] == parts@[1]@);
            assert(Self::part_fault(1, ps[1]) is None);
        }
        let r = BlockSignatures { attestation_signatures, proposer_signature };
        proof {
            assert(Self::parts(r@) =~= ps);
        }
        Ok(r)
    }
}

/// A block with its signatures.
#[derive(Debug)]
pub struct SignedBlock {
    pub message: Block,
    pub signature: BlockSignatures,
}

#[verifier::ext_equal]
pub struct SignedBlockView {
    pub message: BlockView,
    pub signature: BlockSignaturesView,
}

impl View for SignedBlock {
    type V = SignedBlockView;

    open spec fn view(&self) -> SignedBlockView {
        SignedBlockView { message: self.message@, signature: self.signature@ }
    }
}

impl Clone for SignedBlock {
    fn clone(&self) -> (r: SignedBlock)
        ensures
            r@ == self@,
    {
        SignedBlock { message: self.message.clone(), signature: self.signature.clone() }
    }
}

impl SszContainer for SignedBlock {
    open spec fn fixed() -> Option<usize> {
        None
    }

    open spec fn layout() -> Seq<Option<usize>> {
        seq![None, None]
    }

    open spec fn parts(v: SignedBlockView) -> Seq<Seq<u8>> {
        seq![
            Block::enc(v.message),
            BlockSignatures::enc(v.signature),
        ]
    }

    open spec fn limits(v: SignedBlockView) -> bool {
        &&& Block::valid(v.message)
        &&& BlockSignatures::valid(v.signature)
    }

    open spec fn part_fault(i: int, part: Seq<u8>) -> Option<DecodeError> {
        if i == 0 {
            fault_of::<Block>(part)
        } else if i == 1 {
            fault_of::<BlockSignatures>(part)
        } else {
            None
        }
    }

    proof fn layout_fits() {
        reveal_with_fuel(width_from, 3);
    }

    proof fn parts_conform(v: SignedBlockView) {
    }

    proof fn parts_injective(a: SignedBlockView, b: SignedBlockView) {
        assert(Self::parts(a)[0] == Self::parts(b)[0]);
        Block::enc_injective(a.message, b.message);
        assert(Self::parts(a)[1] == Self::parts(b)[1]);
        BlockSignatures::enc_injective(a.signature, b.signature);
    }

    fn fixed_size() -> (r: Option<usize>) {
        None
    }

    fn field_layout() -> (r: Vec<Option<usize>>) {
        let r: Vec<Option<usize>> = vec![None, None];
        proof {
            assert(r@ =~= Self::layout());
        }
        r
    }

    fn encode_parts(&self) -> (r: Vec<Vec<u8>>) {
        let mut r: Vec<Vec<u8>> = Vec::new();
        r.push(self.message.as_ssz_bytes());
        r.push(self.signature.as_ssz_bytes());
        proof {
            assert(views(r@) =~= Self::parts(self@));
        }
        r
    }

    fn decode_parts(parts: &Vec<&[u8]>) -> (r: Result<SignedBlock, DecodeError>) {
        let ghost ps = slice_views(parts@);
        let message = match decode_field::<Block>(parts[0]) {
            Ok(x) => x,
            Err(e) => {
                proof {
                    assert forall|v: SignedBlockView| Self::limits(v) implies #[trigger] Self::parts(v)
                        != ps by {
                        assert(Self::parts(v)[0] == Block::enc(v.message));
                        assert(ps[0] == parts@[0]@);
                    }
                    assert(Self::part_fault(0, ps[0]) == Some(e));
                }
                return Err(e);
            },
        };
        proof {
            assert(ps[0] == parts@[0]@);
            assert(Self::part_fault(0, ps[0]) is None);
        }
        let signature = match decode_field::<BlockSignatures>(parts[1]) {
            Ok(x) => x,
            Err(e) => {
                proof {
                    assert forall|v: SignedBlockView| Self::limits(v) implies #[trigger] Self::parts(v)
                        != ps by {
                        assert(Self::parts(v)[1] == BlockSignatures::enc(v.signature));
                        assert(ps[1] == parts@[1]@);
                    }
                    assert(Self::part_fault(1, ps[1]) == Some(e));
                }
                return Err(e);
            },
        };
        proof {
            assert(ps[1] == parts@[1]@);
            assert(Self::part_fault(1, ps[1]) is None);
        }
        let r = SignedBlock { message, signature };
        proof {
            assert(Self::parts(r@) =~= ps);
        }
        Ok(r)
    }
}

} // verus!
