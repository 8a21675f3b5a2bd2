//! Attestations: votes of validators on the head of the chain.

use crate::bindings::collections::{
    bits_clone, bits_get, bits_len, bits_set, bits_with_capacity, participation,
    MAX_AGGREGATION_BITS,
};
use crate::block::{AggregatedSignatureProof, AggregatedSignatureProofView};
use crate::checkpoint::Checkpoint;
use crate::encoding::bits::{
    bits_enc, bits_fault_of, decode_bits, encode_bits, lemma_bits_injective,
};
use crate::encoding::container::{slice_views, views, width_from};
use crate::encoding::list::item_views;
use crate::encoding::{decode_field, fault_of, DecodeError, Ssz, SszContainer};
use crate::hash_root::{
    bits_root, container_root, hash_bits, hash_container, hash_uint, uint_root, TreeHash,
};
use crate::primitives::H256;
use vstd::prelude::*;
use vstd::slice::slice_to_vec;

pub use crate::bindings::collections::AggregationBits;

verus! {

/// Bytes of an XMSS signature.
pub const XMSS_SIGNATURE_SIZE: usize = 3112;

/// An XMSS signature: 3112 bytes.
#[derive(Debug)]
pub struct XmssSignature {
    pub bytes: Vec<u8>,
}

impl View for XmssSignature {
    type V = Seq<u8>;

    open spec fn view(&self) -> Seq<u8> {
        self.bytes@
    }
}

impl Clone for XmssSignature {
    fn clone(&self) -> (r: XmssSignature)
        ensures
            r@ == self@,
    {
        XmssSignature { bytes: slice_to_vec(self.bytes.as_slice()) }
    }
}

impl Default for XmssSignature {
    /// A signature of zero bytes.
    fn default() -> (r: XmssSignature)
        ensures
            r@ == Seq::new(XMSS_SIGNATURE_SIZE as nat, |i: int| 0u8),
    {
        let mut bytes: Vec<u8> = Vec::new();
        let mut i: usize = 0;
        while i < XMSS_SIGNATURE_SIZE
            invariant
                0 <= i <= XMSS_SIGNATURE_SIZE,
                bytes@ == Seq::new(i as nat, |j: int| 0u8),
            decreases XMSS_SIGNATURE_SIZE - i,
        {
            bytes.push(0);
            i = i + 1;
            proof {
                assert(bytes@ =~= Seq::new(i as nat, |j: int| 0u8));
            }
        }
        XmssSignature { bytes }
    }
}

impl XmssSignature {
    /// The signature made of the given bytes; hands them back if their number is wrong.
    pub fn new(bytes: Vec<u8>) -> (r: Result<XmssSignature, Vec<u8>>)
        ensures
            match r {
                Ok(signature) => bytes@.len() == XMSS_SIGNATURE_SIZE && signature@ == bytes@,
                Err(b) => bytes@.len() != XMSS_SIGNATURE_SIZE && b == bytes,
            },
    {
        if bytes.len() == XMSS_SIGNATURE_SIZE {
            Ok(XmssSignature { bytes })
        } else {
            Err(bytes)
        }
    }
}

impl Ssz for XmssSignature {
    open spec fn size() -> Option<usize> {
        Some(XMSS_SIGNATURE_SIZE)
    }

    open spec fn valid(v: Seq<u8>) -> bool {
        v.len() == XMSS_SIGNATURE_SIZE
    }

    open spec fn enc(v: Seq<u8>) -> Seq<u8> {
        v
    }

    open spec fn fault(bytes: Seq<u8>) -> DecodeError {
        if bytes.len() == 0 {
            DecodeError::InvalidByteLength { len: 0, expected: 1 }
        } else {
            DecodeError::WrongVectorLength {
                expected: XMSS_SIGNATURE_SIZE,
                items: bytes.len() as usize,
            }
        }
    }

    proof fn enc_injective(a: Seq<u8>, b: Seq<u8>) {
    }

    proof fn enc_size(v: Seq<u8>) {
    }

    fn ssz_size() -> (r: Option<usize>) {
        Some(XMSS_SIGNATURE_SIZE)
    }

    fn as_ssz_bytes(&self) -> (r: Vec<u8>) {
        slice_to_vec(self.bytes.as_slice())
    }

    fn from_ssz_bytes(bytes: &[u8]) -> (r: Result<XmssSignature, DecodeError>) {
        if bytes.len() == 0 {
            return Err(DecodeError::InvalidByteLength { len: 0, expected: 1 });
        }
        if bytes.len() != XMSS_SIGNATURE_SIZE {
            return Err(
                DecodeError::WrongVectorLength {
                    expected: XMSS_SIGNATURE_SIZE,
                    items: bytes.len(),
                },
            );
        }
        Ok(XmssSignature { bytes: slice_to_vec(bytes) })
    }
}

/// The bits of a bit list.
pub fn bits_to_vec(bits: &AggregationBits) -> (r: Vec<bool>)
    ensures
        r@ == participation(*bits),
        r@.len() <= MAX_AGGREGATION_BITS,
{
    let n: usize = bits_len(bits);
    let mut out: Vec<bool> = Vec::new();
    let mut i: usize = 0;
    while i < n
        invariant
            0 <= i <= n,
            n == participation(*bits).len(),
            out@ == participation(*bits).take(i as int),
        decreases n - i,
    {
        let bit = bits_get(bits, i).expect("the bit exists");
        out.push(bit);
        i = i + 1;
        proof {
            assert(out@ =~= participation(*bits).take(i as int));
        }
    }
    proof {
        assert(participation(*bits).take(n as int) =~= participation(*bits));
    }
    out
}

/// The bit list of the given bits.
pub fn bits_from_vec(bits: &Vec<bool>) -> (r: AggregationBits)
    requires
        bits@.len() <= MAX_AGGREGATION_BITS,
    ensures
        participation(r) == bits@,
{
    let mut out = bits_with_capacity(bits.len()).expect("within the limit");
    let mut i: usize = 0;
    while i < bits.len()
        invariant
            0 <= i <= bits@.len(),
            participation(out).len() == bits@.len(),
            forall|k: int| 0 <= k < i ==> #[trigger] participation(out)[k] == bits@[k],
        decreases bits@.len() - i,
    {
        bits_set(&mut out, i, bits[i]).expect("the bit exists");
        i = i + 1;
    }
    proof {
        assert(participation(out) =~= bits@);
    }
    out
}

/// The validators whose bits are set, in ascending order.
pub open spec fn set_indices(bits: Seq<bool>) -> Seq<u64>
    decreases bits.len(),
{
    if bits.len() == 0 {
        Seq::empty()
    } else if bits.last() {
        set_indices(bits.drop_last()).push((bits.len() - 1) as u64)
    } else {
        set_indices(bits.drop_last())
    }
}

/// A validator is listed exactly if its bit is set, and the list ascends.
pub proof fn set_indices_are_the_set_bits(bits: Seq<bool>)
    requires
        bits.len() <= MAX_AGGREGATION_BITS,
    ensures
        forall|v: u64| #[trigger] set_indices(bits).contains(v) <==> v < bits.len() && bits[v as int],
        forall|i: int, j: int|
            0 <= i < j < set_indices(bits).len() ==> set_indices(bits)[i] < set_indices(bits)[j],
    decreases bits.len(),
{
    if bits.len() > 0 {
        let prev = bits.drop_last();
        set_indices_are_the_set_bits(prev);
        let s = set_indices(bits);
        let p = set_indices(prev);
        let top = (bits.len() - 1) as u64;
        assert forall|i: int| 0 <= i < p.len() implies #[trigger] p[i] < top by {
            assert(p.contains(p[i]));
        }
        assert forall|v: u64| #[trigger] s.contains(v) <==> v < bits.len() && bits[v as int] by {
            if bits.last() {
                assert(s == p.push(top));
                if s.contains(v) {
                    let k = choose|k: int| 0 <= k < s.len() && s[k] == v;
                    if k < p.len() {
                        assert(p[k] == v);
                        assert(p.contains(v));
                    }
                }
                if v == top {
                    assert(s[p.len() as int] == v);
                } else if p.contains(v) {
                    let k = choose|k: int| 0 <= k < p.len() && p[k] == v;
                    assert(s[k] == v);
                }
            }
            assert(p.contains(v) <==> v < prev.len() && prev[v as int]);
        }
    }
}

/// The validators whose bits are set, in ascending order.
pub fn validator_indices(bits: &AggregationBits) -> (r: Vec<u64>)
    ensures
        r@ == set_indices(participation(*bits)),
{
    let all = bits_to_vec(bits);
    let mut out: Vec<u64> = Vec::new();
    let mut i: usize = 0;
    proof {
        assert(all@.take(0) =~= Seq::<bool>::empty());
    }
    while i < all.len()
        invariant
            0 <= i <= all@.len(),
            out@ == set_indices(all@.take(i as int)),
        decreases all@.len() - i,
    {
        proof {
            assert(all@.take(i + 1).drop_last() =~= all@.take(i as int));
        }
        if all[i] {
            out.push(i as u64);
        }
        i = i + 1;
    }
    proof {
        assert(all@.take(i as int) =~= all@);
    }
    out
}

/// What a validator votes for: the head, target and source checkpoints at a slot.
#[derive(Clone, Copy, Debug, PartialEq, Eq)]
pub struct AttestationData {
    pub slot: u64,
    pub head: Checkpoint,
    pub target: Checkpoint,
    pub source: Checkpoint,
}

impl View for AttestationData {
    type V = AttestationData;

    open spec fn view(&self) -> AttestationData {
        *self
    }
}

impl SszContainer for AttestationData {
    open spec fn fixed() -> Option<usize> {
        Some(128)
    }

    open spec fn layout() -> Seq<Option<usize>> {
        seq![Some(8usize), Some(40usize), Some(40usize), Some(40usize)]
    }

    open spec fn parts(v: AttestationData) -> Seq<Seq<u8>> {
        seq![
            u64::enc(v.slot@),
            Checkpoint::enc(v.head@),
            Checkpoint::enc(v.target@),
            Checkpoint::enc(v.source@),
        ]
    }

    open spec fn limits(v: AttestationData) -> bool {
        &&& u64::valid(v.slot@)
        &&& Checkpoint::valid(v.head@)
        &&& Checkpoint::valid(v.target@)
        &&& Checkpoint::valid(v.source@)
    }

    open spec fn part_fault(i: int, part: Seq<u8>) -> Option<DecodeError> {
        if i == 0 {
            fault_of::<u64>(part)
        } else if i == 1 {
            fault_of::<Checkpoint>(part)
        } else if i == 2 {
            fault_of::<Checkpoint>(part)
        } else if i == 3 {
            fault_of::<Checkpoint>(part)
        } else {
            None
        }
    }

    proof fn layout_fits() {
        reveal_with_fuel(width_from, 5);
    }

    proof fn parts_conform(v: AttestationData) {
        u64::enc_size(v.slot@);
        Checkpoint::enc_size(v.head@);
        Checkpoint::enc_size(v.target@);
        Checkpoint::enc_size(v.source@);
    }

    proof fn parts_injective(a: AttestationData, b: AttestationData) {
        assert(Self::parts(a)[0] == Self::parts(b)[0]);
        u64::enc_injective(a.slot@, b.slot@);
        assert(Self::parts(a)[1] == Self::parts(b)[1]);
        Checkpoint::enc_injective(a.head@, b.head@);
        assert(Self::parts(a)[2] == Self::parts(b)[2]);
        Checkpoint::enc_injective(a.target@, b.target@);
        assert(Self::parts(a)[3] == Self::parts(b)[3]);
        Checkpoint::enc_injective(a.source@, b.source@);
    }

    fn fixed_size() -> (r: Option<usize>) {
        Some(128)
    }

    fn field_layout() -> (r: Vec<Option<usize>>) {
        let r: Vec<Option<usize>> = vec![Some(8usize), Some(40usize), Some(40usize), Some(40usize)];
        proof {
            assert(r@ =~= Self::layout());
        }
        r
    }

    fn encode_parts(&self) -> (r: Vec<Vec<u8>>) {
        let mut r: Vec<Vec<u8>> = Vec::new();
        r.push(self.slot.as_ssz_bytes());
        r.push(self.head.as_ssz_bytes());
        r.push(self.target.as_ssz_bytes());
        r.push(self.source.as_ssz_bytes());
        proof {
            assert(views(r@) =~= Self::parts(self@));
        }
        r
    }

    fn decode_parts(parts: &Vec<&[u8]>) -> (r: Result<AttestationData, DecodeError>) {
        let ghost ps = slice_views(parts@);
        let slot = match decode_field::<u64>(parts[0]) {
            Ok(x) => x,
            Err(e) => {
                proof {
                    assert forall|v: AttestationData| Self::limits(v) implies #[trigger] Self::parts(v)
                        != ps by {
                        assert(Self::parts(v)[0] == u64::enc(v.slot@));
                        assert(ps[0] == parts@[0]@);
                    }
                    assert(Self::part_fault(0, ps[0]) == Some(e));
                }
                return Err(e);
            },
        };
        proof {
            assert(ps[0] == parts@[0]@);
            assert(Self::part_fault(0, ps[0]) is None);
        }
        let head = match decode_field::<Checkpoint>(parts[1]) {
            Ok(x) => x,
            Err(e) => {
                proof {
                    assert forall|v: AttestationData| Self::limits(v) implies #[trigger] Self::parts(v)
                        != ps by {
                        assert(Self::parts(v)[1] == Checkpoint::enc(v.head@));
                        assert(ps[1] == parts@[1]@);
                    }
                    assert(Self::part_fault(1, ps[1]) == Some(e));
                }
                return Err(e);
            },
        };
        proof {
            assert(ps[1] == parts@[1]@);
            assert(Self::part_fault(1, ps[1]) is None);
        }
        let target = match decode_field::<Checkpoint>(parts[2]) {
            Ok(x) => x,
            Err(e) => {
                proof {
                    assert forall|v: AttestationData| Self::limits(v) implies #[trigger] Self::parts(v)
                        != ps by {
                        assert(Self::parts(v)[2] == Checkpoint::enc(v.target@));
                        assert(ps[2] == parts@[2]@);
                    }
                    assert(Self::part_fault(2, ps[2]) == Some(e));
                }
                return Err(e);
            },
        };
        proof {
            assert(ps[2] == parts@[2]@);
            assert(Self::part_fault(2, ps[2]) is None);
        }
        let source = match decode_field::<Checkpoint>(parts[3]) {
            Ok(x) => x,
            Err(e) => {
                proof {
                    assert forall|v: AttestationData| Self::limits(v) implies #[trigger] Self::parts(v)
                        != ps by {
                        assert(Self::parts(v)[3] == Checkpoint::enc(v.source@));
                        assert(ps[3] == parts@[3]@);
                    }
                    assert(Self::part_fault(3, ps[3]) == Some(e));
                }
                return Err(e);
            },
        };
        proof {
            assert(ps[3] == parts@[3]@);
            assert(Self::part_fault(3, ps[3]) is None);
        }
        let r = AttestationData { slot, head, target, source };
        proof {
            assert(Self::parts(r@) =~= ps);
        }
        Ok(r)
    }
}

impl TreeHash for AttestationData {
    open spec fn hashable(v: AttestationData) -> bool {
        true
    }

    open spec fn root(v: AttestationData) -> Seq<u8> {
        container_root(
            seq![
                uint_root(v.slot as nat),
                Checkpoint::root(v.head),
                Checkpoint::root(v.target),
                Checkpoint::root(v.source),
            ],
        )
    }

    fn tree_hash_root(&self) -> (r: H256) {
        let roots: Vec<H256> = vec![
            hash_uint(self.slot),
            self.head.tree_hash_root(),
            self.target.tree_hash_root(),
            self.source.tree_hash_root(),
        ];
        proof {
            assert(item_views(roots@) =~= seq![
                uint_root(self.slot as nat),
                Checkpoint::root(self.head),
                Checkpoint::root(self.target),
                Checkpoint::root(self.source),
            ]);
        }
        hash_container(&roots)
    }
}

/// One vote with the validators that cast it.
#[derive(Debug)]
pub struct AggregatedAttestation {
    pub aggregation_bits: AggregationBits,
    pub data: AttestationData,
}

#[verifier::ext_equal]
pub struct AggregatedAttestationView {
    pub aggregation_bits: Seq<bool>,
    pub data: AttestationData,
}

impl View for AggregatedAttestation {
    type V = AggregatedAttestationView;

    open spec fn view(&self) -> AggregatedAttestationView {
        AggregatedAttestationView {
            aggregation_bits: participation(self.aggregation_bits),
            data: self.data,
        }
    }
}

impl Clone for AggregatedAttestation {
    fn clone(&self) -> (r: AggregatedAttestation)
        ensures
            r@ == self@,
    {
        AggregatedAttestation {
            aggregation_bits: bits_clone(&self.aggregation_bits),
            data: self.data,
        }
    }
}

impl SszContainer for AggregatedAttestation {
    open spec fn fixed() -> Option<usize> {
        None
    }

    open spec fn layout() -> Seq<Option<usize>> {
        seq![None, Some(128usize)]
    }

    open spec fn parts(v: AggregatedAttestationView) -> Seq<Seq<u8>> {
        seq![
            bits_enc(v.aggregation_bits),
            AttestationData::enc(v.data),
        ]
    }

    open spec fn limits(v: AggregatedAttestationView) -> bool {
        &&& v.aggregation_bits.len() <= MAX_AGGREGATION_BITS
        &&& AttestationData::valid(v.data)
    }

    open spec fn part_fault(i: int, part: Seq<u8>) -> Option<DecodeError> {
        if i == 0 {
            bits_fault_of(part, MAX_AGGREGATION_BITS)
        } else if i == 1 {
            fault_of::<AttestationData>(part)
        } else {
            None
        }
    }

    proof fn layout_fits() {
        reveal_with_fuel(width_from, 3);
    }

    proof fn parts_conform(v: AggregatedAttestationView) {
        AttestationData::enc_size(v.data);
    }

    proof fn parts_injective(a: AggregatedAttestationView, b: AggregatedAttestationView) {
        assert(Self::parts(a)[0] == Self::parts(b)[0]);
        lemma_bits_injective(a.aggregation_bits, b.aggregation_bits);
        assert(Self::parts(a)[1] == Self::parts(b)[1]);
        AttestationData::enc_injective(a.data, b.data);
    }

    fn fixed_size() -> (r: Option<usize>) {
        None
    }

    fn field_layout() -> (r: Vec<Option<usize>>) {
        let r: Vec<Option<usize>> = vec![None, Some(128usize)];
        proof {
            assert(r@ =~= Self::layout());
        }
        r
    }

    fn encode_parts(&self) -> (r: Vec<Vec<u8>>) {
        let mut r: Vec<Vec<u8>> = Vec::new();
        r.push(encode_bits(&bits_to_vec(&self.aggregation_bits)));
        r.push(self.data.as_ssz_bytes());
        proof {
            assert(views(r@) =~= Self::parts(self@));
        }
        r
    }

    fn decode_parts(parts: &Vec<&[u8]>) -> (r: Result<AggregatedAttestation, DecodeError>) {
        let ghost ps = slice_views(parts@);
        let aggregation_bits = match decode_bits(parts[0], MAX_AGGREGATION_BITS) {
            Ok(x) => x,
            Err(e) => {
                proof {
                    assert forall|v: AggregatedAttestationView| Self::limits(v) implies #[trigger] Self::parts(v)
                        != ps by {
                        assert(Self::parts(v)[0] == bits_enc(v.aggregation_bits));
                        assert(ps[0] == parts@[0]@);
                    }
                    assert(Self::part_fault(0, ps[0]) == Some(e));
                }
                return Err(e);
            },
        };
        proof {
            assert(ps[0] == parts@[0]@);
            assert(Self::part_fault(0, ps[0]) is None);
        }
        let aggregation_bits = bits_from_vec(&aggregation_bits);
        let data = match decode_field::<AttestationData>(parts[1]) {
            Ok(x) => x,
            Err(e) => {
                proof {
                    assert forall|v: AggregatedAttestationView| Self::limits(v) implies #[trigger] Self::parts(v)
                        != ps by {
                        assert(Self::parts(v)[1] == AttestationData::enc(v.data));
                        assert(ps[1] == parts@[1]@);
                    }
                    assert(Self::part_fault(1, ps[1]) == Some(e));
                }
                return Err(e);
            },
        };
        proof {
            assert(ps[1] == parts@[1]@);
            assert(Self::part_fault(1, ps[1]) is None);
        }
        let r = AggregatedAttestation { aggregation_bits, data };
        proof {
            assert(Self::parts(r@) =~= ps);
        }
        Ok(r)
    }
}

impl TreeHash for AggregatedAttestation {
    open spec fn hashable(v: AggregatedAttestationView) -> bool {
        true
    }

    open spec fn root(v: AggregatedAttestationView) -> Seq<u8> {
        container_root(
            seq![
                bits_root(v.aggregation_bits, MAX_AGGREGATION_BITS as nat),
                AttestationData::root(v.data),
            ],
        )
    }

    fn tree_hash_root(&self) -> (r: H256) {
        let bits = bits_to_vec(&self.aggregation_bits);
        let roots: Vec<H256> = vec![
            hash_bits(&bits, MAX_AGGREGATION_BITS),
            self.data.tree_hash_root(),
        ];
        proof {
            assert(item_views(roots@) =~= seq![
                bits_root(self@.aggregation_bits, MAX_AGGREGATION_BITS as nat),
                AttestationData::root(self@.data),
            ]);
        }
        hash_container(&roots)
    }
}

/// A vote of one validator with its signature.
#[derive(Debug)]
pub struct SignedAttestation {
    pub validator_id: u64,
    pub data: AttestationData,
    pub signature: XmssSignature,
}

#[verifier::ext_equal]
pub struct SignedAttestationView {
    pub validator_id: u64,
    pub data: AttestationData,
    pub signature: Seq<u8>,
}

impl View for SignedAttestation {
    type V = SignedAttestationView;

    open spec fn view(&self) -> SignedAttestationView {
        SignedAttestationView {
            validator_id: self.validator_id,
            data: self.data,
            signature: self.signature@,
        }
    }
}

impl SszContainer for SignedAttestation {
    open spec fn fixed() -> Option<usize> {
        Some(3248)
    }

    open spec fn layout() -> Seq<Option<usize>> {
        seq![Some(8usize), Some(128usize), Some(3112usize)]
    }

    open spec fn parts(v: SignedAttestationView) -> Seq<Seq<u8>> {
        seq![
            u64::enc(v.validator_id),
            AttestationData::enc(v.data),
            XmssSignature::enc(v.signature),
        ]
    }

    open spec fn limits(v: SignedAttestationView) -> bool {
        &&& u64::valid(v.validator_id)
        &&& AttestationData::valid(v.data)
        &&& XmssSignature::valid(v.signature)
    }

    open spec fn part_fault(i: int, part: Seq<u8>) -> Option<DecodeError> {
        if i == 0 {
            fault_of::<u64>(part)
        } else if i == 1 {
            fault_of::<AttestationData>(part)
        } else if i == 2 {
            fault_of::<XmssSignature>(part)
        } else {
            None
        }
    }

    proof fn layout_fits() {
        reveal_with_fuel(width_from, 4);
    }

    proof fn parts_conform(v: SignedAttestationView) {
        u64::enc_size(v.validator_id);
        AttestationData::enc_size(v.data);
        XmssSignature::enc_size(v.signature);
    }

    proof fn parts_injective(a: SignedAttestationView, b: SignedAttestationView) {
        assert(Self::parts(a)[0] == Self::parts(b)[0]);
        u64::enc_injective(a.validator_id, b.validator_id);
        assert(Self::parts(a)[1] == Self::parts(b)[1]);
        AttestationData::enc_injective(a.data, b.data);
        assert(Self::parts(a)[2] == Self::parts(b)[2]);
        XmssSignature::enc_injective(a.signature, b.signature);
    }

    fn fixed_size() -> (r: Option<usize>) {
        Some(3248)
    }

    fn field_layout() -> (r: Vec<Option<usize>>) {
        let r: Vec<Option<usize>> = vec![Some(8usize), Some(128usize), Some(3112usize)];
        proof {
            assert(r@ =~= Self::layout());
        }
        r
    }

    fn encode_parts(&self) -> (r: Vec<Vec<u8>>) {
        let mut r: Vec<Vec<u8>> = Vec::new();
        r.push(self.validator_id.as_ssz_bytes());
        r.push(self.data.as_ssz_bytes());
        r.push(self.signature.as_ssz_bytes());
        proof {
            assert(views(r@) =~= Self::parts(self@));
        }
        r
    }

    fn decode_parts(parts: &Vec<&[u8]>) -> (r: Result<SignedAttestation, DecodeError>) {
        let ghost ps = slice_views(parts@);
        let validator_id = match decode_field::<u64>(parts[0]) {
            Ok(x) => x,
            Err(e) => {
                proof {
                    assert forall|v: SignedAttestationView| Self::limits(v) implies #[trigger] Self::parts(v)
                        != ps by {
                        assert(Self::parts(v)[0] == u64::enc(v.validator_id));
                        assert(ps[0] == parts@[0]@);
                    }
                    assert(Self::part_fault(0, ps[0]) == Some(e));
                }
                return Err(e);
            },
        };
        proof {
            assert(ps[0] == parts@[0]@);
            assert(Self::part_fault(0, ps[0]) is None);
        }
        let data = match decode_field::<AttestationData>(parts[1]) {
            Ok(x) => x,
            Err(e) => {
                proof {
                    assert forall|v: SignedAttestationView| Self::limits(v) implies #[trigger] Self::parts(v)
                        != ps by {
                        assert(Self::parts(v)[1] == AttestationData::enc(v.data));
                        assert(ps[1] == parts@[1]@);
                    }
                    assert(Self::part_fault(1, ps[1]) == Some(e));
                }
                return Err(e);
            },
        };
        proof {
            assert(ps[1] == parts@[1]@);
            assert(Self::part_fault(1, ps[1]) is None);
        }
        let signature = match decode_field::<XmssSignature>(parts[2]) {
            Ok(x) => x,
            Err(e) => {
                proof {
                    assert forall|v: SignedAttestationView| Self::limits(v) implies #[trigger] Self::parts(v)
                        != ps by {
                        assert(Self::parts(v)[2] == XmssSignature::enc(v.signature));
                        assert(ps[2] == parts@[2]@);
                    }
                    assert(Self::part_fault(2, ps[2]) == Some(e));
                }
                return Err(e);
            },
        };
        proof {
            assert(ps[2] == parts@[2]@);
            assert(Self::part_fault(2, ps[2]) is None);
        }
        let r = SignedAttestation { validator_id, data, signature };
        proof {
            assert(Self::parts(r@) =~= ps);
        }
        Ok(r)
    }
}

/// A vote with a proof that a set of validators signed it.
#[derive(Debug)]
pub struct SignedAggregatedAttestation {
    pub data: AttestationData,
    pub proof: AggregatedSignatureProof,
}

#[verifier::ext_equal]
pub struct SignedAggregatedAttestationView {
    pub data: AttestationData,
    pub proof: AggregatedSignatureProofView,
}

impl View for SignedAggregatedAttestation {
    type V = SignedAggregatedAttestationView;

    open spec fn view(&self) -> SignedAggregatedAttestationView {
        SignedAggregatedAttestationView { data: self.data, proof: self.proof@ }
    }
}

impl SszContainer for SignedAggregatedAttestation {
    open spec fn fixed() -> Option<usize> {
        None
    }

    open spec fn layout() -> Seq<Option<usize>> {
        seq![Some(128usize), None]
    }

    open spec fn parts(v: SignedAggregatedAttestationView) -> Seq<Seq<u8>> {
        seq![
            AttestationData::enc(v.data),
            AggregatedSignatureProof::enc(v.proof),
        ]
    }

    open spec fn limits(v: SignedAggregatedAttestationView) -> bool {
        &&& AttestationData::valid(v.data)
        &&& AggregatedSignatureProof::valid(v.proof)
    }

    open spec fn part_fault(i: int, part: Seq<u8>) -> Option<DecodeError> {
        if i == 0 {
            fault_of::<AttestationData>(part)
        } else if i == 1 {
            fault_of::<AggregatedSignatureProof>(part)
        } else {
            None
        }
    }

    proof fn layout_fits() {
        reveal_with_fuel(width_from, 3);
    }

    proof fn parts_conform(v: SignedAggregatedAttestationView) {
        AttestationData::enc_size(v.data);
    }

    proof fn parts_injective(a: SignedAggregatedAttestationView, b: SignedAggregatedAttestationView) {
        assert(Self::parts(a)[0] == Self::parts(b)[0]);
        AttestationData::enc_injective(a.data, b.data);
        assert(Self::parts(a)[1] == Self::parts(b)[1]);
        AggregatedSignatureProof::enc_injective(a.proof, b.proof);
    }

    fn fixed_size() -> (r: Option<usize>) {
        None
    }

    fn field_layout() -> (r: Vec<Option<usize>>) {
        let r: Vec<Option<usize>> = vec![Some(128usize), None];
        proof {
            assert(r@ =~= Self::layout());
        }
        r
    }

    fn encode_parts(&self) -> (r: Vec<Vec<u8>>) {
        let mut r: Vec<Vec<u8>> = Vec::new();
        r.push(self.data.as_ssz_bytes());
        r.push(self.proof.as_ssz_bytes());
        proof {
            assert(views(r@) =~= Self::parts(self@));
        }
        r
    }

    fn decode_parts(parts: &Vec<&[u8]>) -> (r: Result<SignedAggregatedAttestation, DecodeError>) {
        let ghost ps = slice_views(parts@);
        let data = match decode_field::<AttestationData>(parts[0]) {
            Ok(x) => x,
            Err(e) => {
                proof {
                    assert forall|v: SignedAggregatedAttestationView| Self::limits(v) implies #[trigger] Self::parts(v)
                        != ps by {
                        assert(Self::parts(v)[0] == AttestationData::enc(v.data));
                        assert(ps[0] == parts@[0]@);
                    }
                    assert(Self::part_fault(0, ps[0]) == Some(e));
                }
                return Err(e);
            },
        };
        proof {
            assert(ps[0] == parts@[0]@);
            assert(Self::part_fault(0, ps[0]) is None);
        }
        let proof = match decode_field::<AggregatedSignatureProof>(parts[1]) {
            Ok(x) => x,
            Err(e) => {
                proof {
                    assert forall|v: SignedAggregatedAttestationView| Self::limits(v) implies #[trigger] Self::parts(v)
                        != ps by {
                        assert(Self::parts(v)[1] == AggregatedSignatureProof::enc(v.proof));
                        assert(ps[1] == parts@[1]@);
                    }
                    assert(Self::part_fault(1, ps[1]) == Some(e));
                }
                return Err(e);
            },
        };
        proof {
            assert(ps[1] == parts@[1]@);
            assert(Self::part_fault(1, ps[1]) is None);
        }
        let r = SignedAggregatedAttestation { data, proof };
        proof {
            assert(Self::parts(r@) =~= ps);
        }
        Ok(r)
    }
}

} // verus!
