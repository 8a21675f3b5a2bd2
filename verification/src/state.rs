//! The consensus state and its genesis value.

use crate::block::{empty_body, BlockBody, BlockHeader};
use crate::checkpoint::Checkpoint;
use crate::encoding::bits::{
    bits_enc, bits_fault_of, decode_bits, encode_bits, lemma_bits_injective, lemma_enc_len,
};
use crate::encoding::container::{lemma_head_len, slice_views, tail_from, views, width_from};
use crate::encoding::list::{
    decode_list, encode_list, item_views, lemma_list_injective, lemma_uniform_list_len, list_enc,
    list_fault_of, list_valid,
};
use crate::encoding::{decode_field, fault_of, lemma_fixed_valid, DecodeError, Ssz, SszContainer};
use crate::hash_root::{
    bits_root, bytes_root, container_root, hash_bits, hash_bytes, hash_container, hash_items,
    hash_list, hash_uint, item_roots, list_root, uint_root, TreeHash,
};
use crate::primitives::{zero_root, H256};
use vstd::prelude::*;
use vstd::slice::slice_to_vec;

verus! {

/// The most validators that the registry can hold.
pub const VALIDATOR_REGISTRY_LIMIT: usize = 4096;

/// The most historical block roots that the state can hold.
///
/// With a 4-second slot, this corresponds to a history of approximately 12.1 days.
pub const HISTORICAL_ROOTS_LIMIT: usize = 262_144;

/// The most justification votes: one for each validator and historical root.
pub const JUSTIFICATION_VALIDATORS_LIMIT: usize = 1_073_741_824;

/// Bytes of a validator's public key.
pub type ValidatorPubkeyBytes = [u8; 52];

/// The chain's configuration.
#[derive(Clone, Copy, Debug, PartialEq, Eq)]
pub struct ChainConfig {
    pub genesis_time: u64,
}

impl View for ChainConfig {
    type V = ChainConfig;

    open spec fn view(&self) -> ChainConfig {
        *self
    }
}

impl SszContainer for ChainConfig {
    open spec fn fixed() -> Option<usize> {
        Some(8)
    }

    open spec fn layout() -> Seq<Option<usize>> {
        seq![Some(8usize)]
    }

    open spec fn parts(v: ChainConfig) -> Seq<Seq<u8>> {
        seq![
            u64::enc(v.genesis_time@),
        ]
    }

    open spec fn limits(v: ChainConfig) -> bool {
        &&& u64::valid(v.genesis_time@)
    }

    open spec fn part_fault(i: int, part: Seq<u8>) -> Option<DecodeError> {
        if i == 0 {
            fault_of::<u64>(part)
        } else {
            None
        }
    }

    proof fn layout_fits() {
        reveal_with_fuel(width_from, 2);
    }

    proof fn parts_conform(v: ChainConfig) {
        u64::enc_size(v.genesis_time@);
    }

    proof fn parts_injective(a: ChainConfig, b: ChainConfig) {
        assert(Self::parts(a)[0] == Self::parts(b)[0]);
        u64::enc_injective(a.genesis_time@, b.genesis_time@);
    }

    fn fixed_size() -> (r: Option<usize>) {
        Some(8)
    }

    fn field_layout() -> (r: Vec<Option<usize>>) {
        let r: Vec<Option<usize>> = vec![Some(8usize)];
        proof {
            assert(r@ =~= Self::layout());
        }
        r
    }

    fn encode_parts(&self) -> (r: Vec<Vec<u8>>) {
        let mut r: Vec<Vec<u8>> = Vec::new();
        r.push(self.genesis_time.as_ssz_bytes());
        proof {
            assert(views(r@) =~= Self::parts(self@));
        }
        r
    }

    fn decode_parts(parts: &Vec<&[u8]>) -> (r: Result<ChainConfig, DecodeError>) {
        let ghost ps = slice_views(parts@);
        let genesis_time = match decode_field::<u64>(parts[0]) {
            Ok(x) => x,
            Err(e) => {
                proof {
                    assert forall|v: ChainConfig| Self::limits(v) implies #[trigger] Self::parts(v)
                        != ps by {
                        assert(Self::parts(v)[0] == u64::enc(v.genesis_time@));
                        assert(ps[0] == parts@[0]@);
                    }
                    assert(Self::part_fault(0, ps[0]) == Some(e));
                }
                return Err(e);
            },
        };
        proof {
            assert(ps[0] == parts@[0]@);
            assert(Self::part_fault(0, ps[0]) is None);
        }
        let r = ChainConfig { genesis_time };
        proof {
            assert(Self::parts(r@) =~= ps);
        }
        Ok(r)
    }
}

impl TreeHash for ChainConfig {
    open spec fn hashable(v: ChainConfig) -> bool {
        true
    }

    open spec fn root(v: ChainConfig) -> Seq<u8> {
        container_root(seq![uint_root(v.genesis_time as nat)])
    }

    fn tree_hash_root(&self) -> (r: H256) {
        let roots: Vec<H256> = vec![hash_uint(self.genesis_time)];
        proof {
            assert(item_views(roots@) =~= seq![uint_root(self.genesis_time as nat)]);
        }
        hash_container(&roots)
    }
}

/// A validator's public keys and its index in the registry.
///
/// Each validator has two independent keys: one for signing attestations and one for
/// signing block proposals. This allows signing both in the same slot without using a
/// one-time signature twice.
#[derive(Clone, Copy, Debug)]
pub struct Validator {
    /// Public key used for attestation signing.
    pub attestation_pubkey: ValidatorPubkeyBytes,
    /// Public key used for block proposal signing.
    pub proposal_pubkey: ValidatorPubkeyBytes,
    /// Validator index in the registry.
    pub index: u64,
}

impl View for Validator {
    type V = Validator;

    open spec fn view(&self) -> Validator {
        *self
    }
}

/// The array made of 52 bytes.
pub fn array52(bytes: &[u8]) -> (r: [u8; 52])
    requires
        bytes@.len() == 52,
    ensures
        r@ == bytes@,
{
    let mut out: [u8; 52] = [0u8; 52];
    let mut i: usize = 0;
    while i < 52
        invariant
            0 <= i <= 52,
            bytes@.len() == 52,
            forall|j: int| 0 <= j < i ==> out@[j] == bytes@[j],
        decreases 52 - i,
    {
        out[i] = bytes[i];
        i = i + 1;
    }
    proof {
        assert(out@ =~= bytes@);
    }
    out
}

impl SszContainer for Validator {
    open spec fn fixed() -> Option<usize> {
        Some(112)
    }

    open spec fn layout() -> Seq<Option<usize>> {
        seq![Some(52usize), Some(52usize), Some(8usize)]
    }

    open spec fn parts(v: Validator) -> Seq<Seq<u8>> {
        seq![
            v.attestation_pubkey@,
            v.proposal_pubkey@,
            u64::enc(v.index@),
        ]
    }

    open spec fn limits(v: Validator) -> bool {
        &&& u64::valid(v.index@)
    }

    open spec fn part_fault(i: int, part: Seq<u8>) -> Option<DecodeError> {
        if i == 2 {
            fault_of::<u64>(part)
        } else {
            None
        }
    }

    proof fn layout_fits() {
        reveal_with_fuel(width_from, 4);
    }

    proof fn parts_conform(v: Validator) {
        u64::enc_size(v.index@);
    }

    proof fn parts_injective(a: Validator, b: Validator) {
        assert(Self::parts(a)[0] == Self::parts(b)[0]);
        assert(a.attestation_pubkey =~= b.attestation_pubkey);
        assert(Self::parts(a)[1] == Self::parts(b)[1]);
        assert(a.proposal_pubkey =~= b.proposal_pubkey);
        assert(Self::parts(a)[2] == Self::parts(b)[2]);
        u64::enc_injective(a.index@, b.index@);
    }

    fn fixed_size() -> (r: Option<usize>) {
        Some(112)
    }

    fn field_layout() -> (r: Vec<Option<usize>>) {
        let r: Vec<Option<usize>> = vec![Some(52usize), Some(52usize), Some(8usize)];
        proof {
            assert(r@ =~= Self::layout());
        }
        r
    }

    fn encode_parts(&self) -> (r: Vec<Vec<u8>>) {
        let mut r: Vec<Vec<u8>> = Vec::new();
        r.push(slice_to_vec(self.attestation_pubkey.as_slice()));
        r.push(slice_to_vec(self.proposal_pubkey.as_slice()));
        r.push(self.index.as_ssz_bytes());
        proof {
            assert(views(r@) =~= Self::parts(self@));
        }
        r
    }

    fn decode_parts(parts: &Vec<&[u8]>) -> (r: Result<Validator, DecodeError>) {
        let ghost ps = slice_views(parts@);
        let attestation_pubkey = array52(parts[0]);
        let proposal_pubkey = array52(parts[1]);
        let index = match decode_field::<u64>(parts[2]) {
            Ok(x) => x,
            Err(e) => {
                proof {
                    assert forall|v: Validator| Self::limits(v) implies #[trigger] Self::parts(v)
                        != ps by {
                        assert(Self::parts(v)[2] == u64::enc(v.index@));
                        assert(ps[2] == parts@[2]@);
                    }
                    assert(Self::part_fault(2, ps[2]) == Some(e));
                }
                return Err(e);
            },
        };
        proof {
            assert(ps[2] == parts@[2]@);
            assert(Self::part_fault(2, ps[2]) is None);
        }
        let r = Validator { attestation_pubkey, proposal_pubkey, index };
        proof {
            assert(Self::parts(r@) =~= ps);
        }
        Ok(r)
    }
}

impl TreeHash for Validator {
    open spec fn hashable(v: Validator) -> bool {
        true
    }

    open spec fn root(v: Validator) -> Seq<u8> {
        container_root(
            seq![
                bytes_root(v.attestation_pubkey@),
                bytes_root(v.proposal_pubkey@),
                uint_root(v.index as nat),
            ],
        )
    }

    fn tree_hash_root(&self) -> (r: H256) {
        let roots: Vec<H256> = vec![
            hash_bytes(self.attestation_pubkey.as_slice()),
            hash_bytes(self.proposal_pubkey.as_slice()),
            hash_uint(self.index),
        ];
        proof {
            assert(item_views(roots@) =~= seq![
                bytes_root(self.attestation_pubkey@),
                bytes_root(self.proposal_pubkey@),
                uint_root(self.index as nat),
            ]);
        }
        hash_container(&roots)
    }
}

impl TreeHash for H256 {
    open spec fn hashable(v: Seq<u8>) -> bool {
        true
    }

    open spec fn root(v: Seq<u8>) -> Seq<u8> {
        v
    }

    fn tree_hash_root(&self) -> (r: H256) {
        *self
    }
}

/// The main consensus state object.
#[derive(Debug)]
pub struct State {
    /// The chain's configuration parameters
    pub config: ChainConfig,
    /// The current slot number
    pub slot: u64,
    /// The header of the most recent block
    pub latest_block_header: BlockHeader,
    /// The latest justified checkpoint
    pub latest_justified: Checkpoint,
    /// The latest finalized checkpoint
    pub latest_finalized: Checkpoint,
    /// A list of historical block root hashes
    pub historical_block_hashes: Vec<H256>,
    /// A bitfield indicating which historical slots were justified
    pub justified_slots: Vec<bool>,
    /// Registry of validators tracked by the state
    pub validators: Vec<Validator>,
    /// Roots of justified blocks
    pub justifications_roots: Vec<H256>,
    /// A bitlist of validators who participated in justifications
    pub justifications_validators: Vec<bool>,
}

#[verifier::ext_equal]
pub struct StateView {
    pub config: ChainConfig,
    pub slot: u64,
    pub latest_block_header: BlockHeader,
    pub latest_justified: Checkpoint,
    pub latest_finalized: Checkpoint,
    pub historical_block_hashes: Seq<Seq<u8>>,
    pub justified_slots: Seq<bool>,
    pub validators: Seq<Validator>,
    pub justifications_roots: Seq<Seq<u8>>,
    pub justifications_validators: Seq<bool>,
}

impl View for State {
    type V = StateView;

    open spec fn view(&self) -> StateView {
        StateView {
            config: self.config,
            slot: self.slot,
            latest_block_header: self.latest_block_header,
            latest_justified: self.latest_justified,
            latest_finalized: self.latest_finalized,
            historical_block_hashes: item_views(self.historical_block_hashes@),
            justified_slots: self.justified_slots@,
            validators: item_views(self.validators@),
            justifications_roots: item_views(self.justifications_roots@),
            justifications_validators: self.justifications_validators@,
        }
    }
}

impl SszContainer for State {
    open spec fn fixed() -> Option<usize> {
        None
    }

    open spec fn layout() -> Seq<Option<usize>> {
        seq![Some(8usize), Some(8usize), Some(112usize), Some(40usize), Some(40usize), None, None, None, None, None]
    }

    open spec fn parts(v: StateView) -> Seq<Seq<u8>> {
        seq![
            ChainConfig::enc(v.config),
            u64::enc(v.slot),
            BlockHeader::enc(v.latest_block_header),
            Checkpoint::enc(v.latest_justified),
            Checkpoint::enc(v.latest_finalized),
            list_enc::<H256>(v.historical_block_hashes),
            bits_enc(v.justified_slots),
            list_enc::<Validator>(v.validators),
            list_enc::<H256>(v.justifications_roots),
            bits_enc(v.justifications_validators),
        ]
    }

    open spec fn limits(v: StateView) -> bool {
        &&& ChainConfig::valid(v.config)
        &&& u64::valid(v.slot)
        &&& BlockHeader::valid(v.latest_block_header)
        &&& Checkpoint::valid(v.latest_justified)
        &&& Checkpoint::valid(v.latest_finalized)
        &&& list_valid::<H256>(v.historical_block_hashes, HISTORICAL_ROOTS_LIMIT as nat)
        &&& v.justified_slots.len() <= HISTORICAL_ROOTS_LIMIT
        &&& list_valid::<Validator>(v.validators, VALIDATOR_REGISTRY_LIMIT as nat)
        &&& list_valid::<H256>(v.justifications_roots, HISTORICAL_ROOTS_LIMIT as nat)
        &&& v.justifications_validators.len() <= JUSTIFICATION_VALIDATORS_LIMIT
    }

    open spec fn part_fault(i: int, part: Seq<u8>) -> Option<DecodeError> {
        if i == 0 {
            fault_of::<ChainConfig>(part)
        } else if i == 1 {
            fault_of::<u64>(part)
        } else if i == 2 {
            fault_of::<BlockHeader>(part)
        } else if i == 3 {
            fault_of::<Checkpoint>(part)
        } else if i == 4 {
            fault_of::<Checkpoint>(part)
        } else if i == 5 {
            list_fault_of::<H256>(part, HISTORICAL_ROOTS_LIMIT)
        } else if i == 6 {
            bits_fault_of(part, HISTORICAL_ROOTS_LIMIT)
        } else if i == 7 {
            list_fault_of::<Validator>(part, VALIDATOR_REGISTRY_LIMIT)
        } else if i == 8 {
            list_fault_of::<H256>(part, HISTORICAL_ROOTS_LIMIT)
        } else if i == 9 {
            bits_fault_of(part, JUSTIFICATION_VALIDATORS_LIMIT)
        } else {
            None
        }
    }

    proof fn layout_fits() {
        reveal_with_fuel(width_from, 11);
    }

    proof fn parts_conform(v: StateView) {
        ChainConfig::enc_size(v.config);
        u64::enc_size(v.slot);
        BlockHeader::enc_size(v.latest_block_header);
        Checkpoint::enc_size(v.latest_justified);
        Checkpoint::enc_size(v.latest_finalized);
    }

    proof fn parts_injective(a: StateView, b: StateView) {
        assert(Self::parts(a)[0] == Self::parts(b)[0]);
        ChainConfig::enc_injective(a.config, b.config);
        assert(Self::parts(a)[1] == Self::parts(b)[1]);
        u64::enc_injective(a.slot, b.slot);
        assert(Self::parts(a)[2] == Self::parts(b)[2]);
        BlockHeader::enc_injective(a.latest_block_header, b.latest_block_header);
        assert(Self::parts(a)[3] == Self::parts(b)[3]);
        Checkpoint::enc_injective(a.latest_justified, b.latest_justified);
        assert(Self::parts(a)[4] == Self::parts(b)[4]);
        Checkpoint::enc_injective(a.latest_finalized, b.latest_finalized);
        assert(Self::parts(a)[5] == Self::parts(b)[5]);
        lemma_list_injective::<H256>(a.historical_block_hashes, b.historical_block_hashes);
        assert(Self::parts(a)[6] == Self::parts(b)[6]);
        lemma_bits_injective(a.justified_slots, b.justified_slots);
        assert(Self::parts(a)[7] == Self::parts(b)[7]);
        lemma_list_injective::<Validator>(a.validators, b.validators);
        assert(Self::parts(a)[8] == Self::parts(b)[8]);
        lemma_list_injective::<H256>(a.justifications_roots, b.justifications_roots);
        assert(Self::parts(a)[9] == Self::parts(b)[9]);
        lemma_bits_injective(a.justifications_validators, b.justifications_validators);
    }

    fn fixed_size() -> (r: Option<usize>) {
        None
    }

    fn field_layout() -> (r: Vec<Option<usize>>) {
        let r: Vec<Option<usize>> = vec![Some(8usize), Some(8usize), Some(112usize), Some(40usize), Some(40usize), None, None, None, None, None];
        proof {
            assert(r@ =~= Self::layout());
        }
        r
    }

    fn encode_parts(&self) -> (r: Vec<Vec<u8>>) {
        let mut r: Vec<Vec<u8>> = Vec::new();
        r.push(self.config.as_ssz_bytes());
        r.push(self.slot.as_ssz_bytes());
        r.push(self.latest_block_header.as_ssz_bytes());
        r.push(self.latest_justified.as_ssz_bytes());
        r.push(self.latest_finalized.as_ssz_bytes());
        r.push(encode_list(&self.historical_block_hashes));
        r.push(encode_bits(&self.justified_slots));
        r.push(encode_list(&self.validators));
        r.push(encode_list(&self.justifications_roots));
        r.push(encode_bits(&self.justifications_validators));
        proof {
            assert(views(r@) =~= Self::parts(self@));
        }
        r
    }

    fn decode_parts(parts: &Vec<&[u8]>) -> (r: Result<State, DecodeError>) {
        let ghost ps = slice_views(parts@);
        let config = match decode_field::<ChainConfig>(parts[0]) {
            Ok(x) => x,
            Err(e) => {
                proof {
                    assert forall|v: StateView| Self::limits(v) implies #[trigger] Self::parts(v)
                        != ps by {
                        assert(Self::parts(v)[0] == ChainConfig::enc(v.config));
                        assert(ps[0] == parts@[0]@);
                    }
                    assert(Self::part_fault(0, ps[0]) == Some(e));
                }
                return Err(e);
            },
        };
        proof {
            assert(ps[0] == parts@[0]@);
            assert(Self::part_fault(0, ps[0]) is None);
        }
        let slot = match decode_field::<u64>(parts[1]) {
            Ok(x) => x,
            Err(e) => {
                proof {
                    assert forall|v: StateView| Self::limits(v) implies #[trigger] Self::parts(v)
                        != ps by {
                        assert(Self::parts(v)[1] == u64::enc(v.slot));
                        assert(ps[1] == parts@[1]@);
                    }
                    assert(Self::part_fault(1, ps[1]) == Some(e));
                }
                return Err(e);
            },
        };
        proof {
            assert(ps[1] == parts@[1]@);
            assert(Self::part_fault(1, ps[1]) is None);
        }
        let latest_block_header = match decode_field::<BlockHeader>(parts[2]) {
            Ok(x) => x,
            Err(e) => {
                proof {
                    assert forall|v: StateView| Self::limits(v) implies #[trigger] Self::parts(v)
                        != ps by {
                        assert(Self::parts(v)[2] == BlockHeader::enc(v.latest_block_header));
                        assert(ps[2] == parts@[2]@);
                    }
                    assert(Self::part_fault(2, ps[2]) == Some(e));
                }
                return Err(e);
            },
        };
        proof {
            assert(ps[2] == parts@[2]@);
            assert(Self::part_fault(2, ps[2]) is None);
        }
        let latest_justified = match decode_field::<Checkpoint>(parts[3]) {
            Ok(x) => x,
            Err(e) => {
                proof {
                    assert forall|v: StateView| Self::limits(v) implies #[trigger] Self::parts(v)
                        != ps by {
                        assert(Self::parts(v)[3] == Checkpoint::enc(v.latest_justified));
                        assert(ps[3] == parts@[3]@);
                    }
                    assert(Self::part_fault(3, ps[3]) == Some(e));
                }
                return Err(e);
            },
        };
        proof {
            assert(ps[3] == parts@[3]@);
            assert(Self::part_fault(3, ps[3]) is None);
        }
        let latest_finalized = match decode_field::<Checkpoint>(parts[4]) {
            Ok(x) => x,
            Err(e) => {
                proof {
                    assert forall|v: StateView| Self::limits(v) implies #[trigger] Self::parts(v)
                        != ps by {
                        assert(Self::parts(v)[4] == Checkpoint::enc(v.latest_finalized));
                        assert(ps[4] == parts@[4]@);
                    }
                    assert(Self::part_fault(4, ps[4]) == Some(e));
                }
                return Err(e);
            },
        };
        proof {
            assert(ps[4] == parts@[4]@);
            assert(Self::part_fault(4, ps[4]) is None);
        }
        let historical_block_hashes = match decode_list::<H256>(parts[5], HISTORICAL_ROOTS_LIMIT) {
            Ok(x) => x,
            Err(e) => {
                proof {
                    assert forall|v: StateView| Self::limits(v) implies #[trigger] Self::parts(v)
                        != ps by {
                        assert(Self::parts(v)[5] == list_enc::<H256>(v.historical_block_hashes));
                        assert(ps[5] == parts@[5]@);
                    }
                    assert(Self::part_fault(5, ps[5]) == Some(e));
                }
                return Err(e);
            },
        };
        proof {
            assert(ps[5] == parts@[5]@);
            assert(Self::part_fault(5, ps[5]) is None);
        }
        let justified_slots = match decode_bits(parts[6], HISTORICAL_ROOTS_LIMIT) {
            Ok(x) => x,
            Err(e) => {
                proof {
                    assert forall|v: StateView| Self::limits(v) implies #[trigger] Self::parts(v)
                        != ps by {
                        assert(Self::parts(v)[6] == bits_enc(v.justified_slots));
                        assert(ps[6] == parts@[6]@);
                    }
                    assert(Self::part_fault(6, ps[6]) == Some(e));
                }
                return Err(e);
            },
        };
        proof {
            assert(ps[6] == parts@[6]@);
            assert(Self::part_fault(6, ps[6]) is None);
        }
        let validators = match decode_list::<Validator>(parts[7], VALIDATOR_REGISTRY_LIMIT) {
            Ok(x) => x,
            Err(e) => {
                proof {
                    assert forall|v: StateView| Self::limits(v) implies #[trigger] Self::parts(v)
                        != ps by {
                        assert(Self::parts(v)[7] == list_enc::<Validator>(v.validators));
                        assert(ps[7] == parts@[7]@);
                    }
                    assert(Self::part_fault(7, ps[7]) == Some(e));
                }
                return Err(e);
            },
        };
        proof {
            assert(ps[7] == parts@[7]@);
            assert(Self::part_fault(7, ps[7]) is None);
        }
        let justifications_roots = match decode_list::<H256>(parts[8], HISTORICAL_ROOTS_LIMIT) {
            Ok(x) => x,
            Err(e) => {
                proof {
                    assert forall|v: StateView| Self::limits(v) implies #[trigger] Self::parts(v)
                        != ps by {
                        assert(Self::parts(v)[8] == list_enc::<H256>(v.justifications_roots));
                        assert(ps[8] == parts@[8]@);
                    }
                    assert(Self::part_fault(8, ps[8]) == Some(e));
                }
                return Err(e);
            },
        };
        proof {
            assert(ps[8] == parts@[8]@);
            assert(Self::part_fault(8, ps[8]) is None);
        }
        let justifications_validators = match decode_bits(parts[9], JUSTIFICATION_VALIDATORS_LIMIT) {
            Ok(x) => x,
            Err(e) => {
                proof {
                    assert forall|v: StateView| Self::limits(v) implies #[trigger] Self::parts(v)
                        != ps by {
                        assert(Self::parts(v)[9] == bits_enc(v.justifications_validators));
                        assert(ps[9] == parts@[9]@);
                    }
                    assert(Self::part_fault(9, ps[9]) == Some(e));
                }
                return Err(e);
            },
        };
        proof {
            assert(ps[9] == parts@[9]@);
            assert(Self::part_fault(9, ps[9]) is None);
        }
        let r = State { config, slot, latest_block_header, latest_justified, latest_finalized, historical_block_hashes, justified_slots, validators, justifications_roots, justifications_validators };
        proof {
            assert(Self::parts(r@) =~= ps);
        }
        Ok(r)
    }
}

impl TreeHash for State {
    open spec fn hashable(v: StateView) -> bool {
        &&& v.historical_block_hashes.len() <= HISTORICAL_ROOTS_LIMIT
        &&& v.justified_slots.len() <= HISTORICAL_ROOTS_LIMIT
        &&& v.validators.len() <= VALIDATOR_REGISTRY_LIMIT
        &&& v.justifications_roots.len() <= HISTORICAL_ROOTS_LIMIT
        &&& v.justifications_validators.len() <= JUSTIFICATION_VALIDATORS_LIMIT
    }

    open spec fn root(v: StateView) -> Seq<u8> {
        container_root(
            seq![
                ChainConfig::root(v.config),
                uint_root(v.slot as nat),
                BlockHeader::root(v.latest_block_header),
                Checkpoint::root(v.latest_justified),
                Checkpoint::root(v.latest_finalized),
                list_root(item_roots::<H256>(v.historical_block_hashes), HISTORICAL_ROOTS_LIMIT as nat),
                bits_root(v.justified_slots, HISTORICAL_ROOTS_LIMIT as nat),
                list_root(item_roots::<Validator>(v.validators), VALIDATOR_REGISTRY_LIMIT as nat),
                list_root(item_roots::<H256>(v.justifications_roots), HISTORICAL_ROOTS_LIMIT as nat),
                bits_root(v.justifications_validators, JUSTIFICATION_VALIDATORS_LIMIT as nat),
            ],
        )
    }

    fn tree_hash_root(&self) -> (r: H256) {
        let history = hash_items(&self.historical_block_hashes);
        let validators = hash_items(&self.validators);
        let justified = hash_items(&self.justifications_roots);
        let roots: Vec<H256> = vec![
            self.config.tree_hash_root(),
            hash_uint(self.slot),
            self.latest_block_header.tree_hash_root(),
            self.latest_justified.tree_hash_root(),
            self.latest_finalized.tree_hash_root(),
            hash_list(&history, HISTORICAL_ROOTS_LIMIT),
            hash_bits(&self.justified_slots, HISTORICAL_ROOTS_LIMIT),
            hash_list(&validators, VALIDATOR_REGISTRY_LIMIT),
            hash_list(&justified, HISTORICAL_ROOTS_LIMIT),
            hash_bits(&self.justifications_validators, JUSTIFICATION_VALIDATORS_LIMIT),
        ];
        proof {
            let v = self@;
            assert(item_views(roots@) =~= seq![
                ChainConfig::root(v.config),
                uint_root(v.slot as nat),
                BlockHeader::root(v.latest_block_header),
                Checkpoint::root(v.latest_justified),
                Checkpoint::root(v.latest_finalized),
                list_root(item_roots::<H256>(v.historical_block_hashes), HISTORICAL_ROOTS_LIMIT as nat),
                bits_root(v.justified_slots, HISTORICAL_ROOTS_LIMIT as nat),
                list_root(item_roots::<Validator>(v.validators), VALIDATOR_REGISTRY_LIMIT as nat),
                list_root(item_roots::<H256>(v.justifications_roots), HISTORICAL_ROOTS_LIMIT as nat),
                bits_root(v.justifications_validators, JUSTIFICATION_VALIDATORS_LIMIT as nat),
            ]);
        }
        hash_container(&roots)
    }
}

/// Whether a state is the genesis state of a validator set.
pub open spec fn is_genesis(s: StateView, genesis_time: u64, validators: Seq<Validator>) -> bool {
    &&& s.config.genesis_time == genesis_time
    &&& s.slot == 0
    &&& s.latest_block_header.slot == 0
    &&& s.latest_block_header.proposer_index == 0
    &&& s.latest_block_header.parent_root@ == zero_root()
    &&& s.latest_block_header.state_root@ == zero_root()
    &&& s.latest_block_header.body_root@ == BlockBody::root(empty_body())
    &&& s.latest_justified.root@ == zero_root()
    &&& s.latest_justified.slot == 0
    &&& s.latest_finalized.root@ == zero_root()
    &&& s.latest_finalized.slot == 0
    &&& s.historical_block_hashes.len() == 0
    &&& s.justified_slots.len() == 0
    &&& s.validators == validators
    &&& s.justifications_roots.len() == 0
    &&& s.justifications_validators.len() == 0
}

impl State {
    /// The genesis state of a validator set.
    pub fn from_genesis(genesis_time: u64, validators: Vec<Validator>) -> (r: State)
        requires
            validators@.len() <= VALIDATOR_REGISTRY_LIMIT,
        ensures
            is_genesis(r@, genesis_time, validators@),
            State::hashable(r@),
    {
        let body = BlockBody::default();
        let genesis_header = BlockHeader {
            slot: 0,
            proposer_index: 0,
            parent_root: H256::zero(),
            state_root: H256::zero(),
            body_root: body.tree_hash_root(),
        };
        let ghost vs = validators@;
        let r = State {
            config: ChainConfig { genesis_time },
            slot: 0,
            latest_block_header: genesis_header,
            latest_justified: Checkpoint::default(),
            latest_finalized: Checkpoint::default(),
            historical_block_hashes: Vec::new(),
            justified_slots: Vec::new(),
            validators,
            justifications_roots: Vec::new(),
            justifications_validators: Vec::new(),
        };
        proof {
            assert(item_views(vs) =~= vs);
        }
        r
    }
}

/// A state within the limits of its lists can be encoded.
pub proof fn lemma_state_valid(s: State)
    requires
        State::hashable(s@),
    ensures
        State::valid(s@),
{
    let v = s@;
    lemma_fixed_valid::<ChainConfig>(v.config);
    lemma_fixed_valid::<BlockHeader>(v.latest_block_header);
    lemma_fixed_valid::<Checkpoint>(v.latest_justified);
    lemma_fixed_valid::<Checkpoint>(v.latest_finalized);
    lemma_roots_fit(s.historical_block_hashes@);
    lemma_roots_fit(s.justifications_roots@);
    lemma_validators_fit(s.validators@);
    lemma_enc_len(v.justified_slots);
    lemma_enc_len(v.justifications_validators);
    State::parts_conform(v);
    State::layout_fits();
    let layout = State::layout();
    let parts = State::parts(v);
    lemma_head_len(layout, parts, 0, width_from(layout, 0));
    reveal_with_fuel(tail_from, 11);
    reveal_with_fuel(width_from, 11);
}

proof fn lemma_roots_fit(roots: Seq<H256>)
    requires
        roots.len() <= HISTORICAL_ROOTS_LIMIT,
    ensures
        list_valid::<H256>(item_views(roots), HISTORICAL_ROOTS_LIMIT as nat),
        list_enc::<H256>(item_views(roots)).len() <= 32 * HISTORICAL_ROOTS_LIMIT,
{
    lemma_uniform_list_len::<H256>(item_views(roots));
}

proof fn lemma_validators_fit(validators: Seq<Validator>)
    requires
        validators.len() <= VALIDATOR_REGISTRY_LIMIT,
    ensures
        list_valid::<Validator>(item_views(validators), VALIDATOR_REGISTRY_LIMIT as nat),
        list_enc::<Validator>(item_views(validators)).len() <= 112 * VALIDATOR_REGISTRY_LIMIT,
{
    assert forall|i: int| 0 <= i < validators.len() implies Validator::valid(
        #[trigger] item_views(validators)[i],
    ) by {
        lemma_fixed_valid::<Validator>(item_views(validators)[i]);
    }
    lemma_uniform_list_len::<Validator>(item_views(validators));
}

} // verus!
