//! Test fixtures in the form in which they are written, and their domain values.

use crate::attestation::bits_from_vec;
use crate::bindings::collections::{
    participation, AggregationBits as DomainAggregationBits, MAX_AGGREGATION_BITS,
};
use crate::block::{BlockBodyView, BlockView};
use crate::primitives::H256;
use crate::state::{
    ChainConfig, HISTORICAL_ROOTS_LIMIT, State, VALIDATOR_REGISTRY_LIMIT, ValidatorPubkeyBytes,
};
use vstd::prelude::*;

verus! {

/// A list in a fixture.
#[derive(Debug, Clone)]
pub struct Container<T> {
    pub data: Vec<T>,
}

/// The chain configuration in a fixture.
#[derive(Debug, Clone, Copy)]
pub struct Config {
    pub genesis_time: u64,
}

impl From<Config> for ChainConfig {
    fn from(value: Config) -> (r: ChainConfig) {
        ChainConfig { genesis_time: value.genesis_time }
    }
}

impl vstd::std_specs::convert::FromSpecImpl<Config> for ChainConfig {
    open spec fn obeys_from_spec() -> bool {
        true
    }

    open spec fn from_spec(value: Config) -> ChainConfig {
        ChainConfig { genesis_time: value.genesis_time }
    }
}

/// A checkpoint in a fixture.
#[derive(Debug, Clone, Copy)]
pub struct Checkpoint {
    pub root: H256,
    pub slot: u64,
}

impl From<Checkpoint> for crate::checkpoint::Checkpoint {
    fn from(value: Checkpoint) -> (r: crate::checkpoint::Checkpoint) {
        crate::checkpoint::Checkpoint { root: value.root, slot: value.slot }
    }
}

impl vstd::std_specs::convert::FromSpecImpl<Checkpoint> for crate::checkpoint::Checkpoint {
    open spec fn obeys_from_spec() -> bool {
        true
    }

    open spec fn from_spec(value: Checkpoint) -> crate::checkpoint::Checkpoint {
        crate::checkpoint::Checkpoint { root: value.root, slot: value.slot }
    }
}

/// A block header in a fixture.
#[derive(Debug, Clone, Copy)]
pub struct BlockHeader {
    pub slot: u64,
    pub proposer_index: u64,
    pub parent_root: H256,
    pub state_root: H256,
    pub body_root: H256,
}

impl From<BlockHeader> for crate::block::BlockHeader {
    fn from(value: BlockHeader) -> (r: crate::block::BlockHeader) {
        crate::block::BlockHeader {
            slot: value.slot,
            proposer_index: value.proposer_index,
            parent_root: value.parent_root,
            state_root: value.state_root,
            body_root: value.body_root,
        }
    }
}

impl vstd::std_specs::convert::FromSpecImpl<BlockHeader> for crate::block::BlockHeader {
    open spec fn obeys_from_spec() -> bool {
        true
    }

    open spec fn from_spec(value: BlockHeader) -> crate::block::BlockHeader {
        crate::block::BlockHeader {
            slot: value.slot,
            proposer_index: value.proposer_index,
            parent_root: value.parent_root,
            state_root: value.state_root,
            body_root: value.body_root,
        }
    }
}

/// A validator in a fixture.
#[derive(Debug, Clone, Copy)]
pub struct Validator {
    pub index: u64,
    pub attestation_pubkey: ValidatorPubkeyBytes,
    pub proposal_pubkey: ValidatorPubkeyBytes,
}

impl From<Validator> for crate::state::Validator {
    fn from(value: Validator) -> (r: crate::state::Validator) {
        crate::state::Validator {
            index: value.index,
            attestation_pubkey: value.attestation_pubkey,
            proposal_pubkey: value.proposal_pubkey,
        }
    }
}

impl vstd::std_specs::convert::FromSpecImpl<Validator> for crate::state::Validator {
    open spec fn obeys_from_spec() -> bool {
        true
    }

    open spec fn from_spec(value: Validator) -> crate::state::Validator {
        crate::state::Validator {
            index: value.index,
            attestation_pubkey: value.attestation_pubkey,
            proposal_pubkey: value.proposal_pubkey,
        }
    }
}

/// The domain values of validators.
pub open spec fn domain_validators(validators: Seq<Validator>) -> Seq<crate::state::Validator> {
    validators.map_values(
        |v: Validator|
            crate::state::Validator {
                index: v.index,
                attestation_pubkey: v.attestation_pubkey,
                proposal_pubkey: v.proposal_pubkey,
            },
    )
}

/// A state in a fixture.
#[derive(Debug, Clone)]
pub struct TestState {
    pub config: Config,
    pub slot: u64,
    pub latest_block_header: BlockHeader,
    pub latest_justified: Checkpoint,
    pub latest_finalized: Checkpoint,
    pub historical_block_hashes: Container<H256>,
    pub justified_slots: Container<u64>,
    pub validators: Container<Validator>,
    pub justifications_roots: Container<H256>,
    pub justifications_validators: Container<bool>,
}

impl TestState {
    /// Whether the lists fit into a state.
    pub open spec fn fits(&self) -> bool {
        &&& self.historical_block_hashes.data@.len() <= HISTORICAL_ROOTS_LIMIT
        &&& self.validators.data@.len() <= VALIDATOR_REGISTRY_LIMIT
        &&& self.justifications_roots.data@.len() <= HISTORICAL_ROOTS_LIMIT
    }

    /// The state that the fixture stands for. The justification bits are left empty.
    pub fn into_state(self) -> (r: State)
        requires
            self.fits(),
        ensures
            r.config == (ChainConfig { genesis_time: self.config.genesis_time }),
            r.slot == self.slot,
            r.latest_block_header.slot == self.latest_block_header.slot,
            r.latest_block_header.proposer_index == self.latest_block_header.proposer_index,
            r.latest_block_header.parent_root == self.latest_block_header.parent_root,
            r.latest_block_header.state_root == self.latest_block_header.state_root,
            r.latest_block_header.body_root == self.latest_block_header.body_root,
            r.latest_justified.root == self.latest_justified.root,
            r.latest_justified.slot == self.latest_justified.slot,
            r.latest_finalized.root == self.latest_finalized.root,
            r.latest_finalized.slot == self.latest_finalized.slot,
            r.historical_block_hashes@ == self.historical_block_hashes.data@,
            r.justified_slots@ == Seq::<bool>::empty(),
            r.validators@ == domain_validators(self.validators.data@),
            r.justifications_roots@ == self.justifications_roots.data@,
            r.justifications_validators@ == Seq::<bool>::empty(),
    {
        let mut validators: Vec<crate::state::Validator> = Vec::new();
        let mut i: usize = 0;
        while i < self.validators.data.len()
            invariant
                0 <= i <= self.validators.data@.len(),
                validators@ == domain_validators(self.validators.data@).take(i as int),
            decreases self.validators.data@.len() - i,
        {
            validators.push(crate::state::Validator::from(self.validators.data[i]));
            i = i + 1;
            proof {
                assert(validators@ =~= domain_validators(self.validators.data@).take(i as int));
            }
        }
        proof {
            assert(domain_validators(self.validators.data@).take(i as int) =~= domain_validators(
                self.validators.data@,
            ));
        }
        State {
            config: ChainConfig::from(self.config),
            slot: self.slot,
            latest_block_header: crate::block::BlockHeader::from(self.latest_block_header),
            latest_justified: crate::checkpoint::Checkpoint::from(self.latest_justified),
            latest_finalized: crate::checkpoint::Checkpoint::from(self.latest_finalized),
            historical_block_hashes: self.historical_block_hashes.data,
            justified_slots: Vec::new(),
            validators,
            justifications_roots: self.justifications_roots.data,
            justifications_validators: Vec::new(),
        }
    }
}

/// A block in a fixture.
#[derive(Debug, Clone)]
pub struct Block {
    pub slot: u64,
    pub proposer_index: u64,
    pub parent_root: H256,
    pub state_root: H256,
    pub body: BlockBody,
}

impl Block {
    /// The block that the fixture stands for.
    pub fn into_block(self) -> (r: crate::block::Block)
        requires
            self.body.fits(),
        ensures
            r@ == (BlockView {
                slot: self.slot,
                proposer_index: self.proposer_index,
                parent_root: self.parent_root@,
                state_root: self.state_root@,
                body: self.body.domain(),
            }),
    {
        crate::block::Block {
            slot: self.slot,
            proposer_index: self.proposer_index,
            parent_root: self.parent_root,
            state_root: self.state_root,
            body: self.body.into_body(),
        }
    }
}

/// A block body in a fixture.
#[derive(Debug, Clone)]
pub struct BlockBody {
    pub attestations: Container<AggregatedAttestation>,
}

impl BlockBody {
    /// Whether the attestations fit into a body.
    pub open spec fn fits(&self) -> bool {
        &&& self.attestations.data@.len() <= VALIDATOR_REGISTRY_LIMIT
        &&& forall|i: int|
            0 <= i < self.attestations.data@.len() ==> (
            #[trigger] self.attestations.data@[i]).aggregation_bits.data@.len()
                <= MAX_AGGREGATION_BITS
    }

    /// What the fixture stands for.
    pub open spec fn domain(&self) -> BlockBodyView {
        BlockBodyView {
            attestations: self.attestations.data@.map_values(
                |a: AggregatedAttestation| a.domain(),
            ),
        }
    }

    /// The body that the fixture stands for.
    pub fn into_body(self) -> (r: crate::block::BlockBody)
        requires
            self.fits(),
        ensures
            r@ == self.domain(),
    {
        let mut attestations: Vec<crate::attestation::AggregatedAttestation> = Vec::new();
        let mut i: usize = 0;
        while i < self.attestations.data.len()
            invariant
                0 <= i <= self.attestations.data@.len(),
                self.fits(),
                attestations@.len() == i,
                forall|k: int|
                    0 <= k < i ==> (#[trigger] attestations@[k])@
                        == self.attestations.data@[k].domain(),
            decreases self.attestations.data@.len() - i,
        {
            let attestation = self.attestations.data[i].to_attestation();
            attestations.push(attestation);
            i = i + 1;
        }
        let r = crate::block::BlockBody { attestations };
        proof {
            assert(r@.attestations =~= self.domain().attestations);
        }
        r
    }
}

/// An aggregated attestation in a fixture.
#[derive(Debug, Clone)]
pub struct AggregatedAttestation {
    pub aggregation_bits: AggregationBits,
    pub data: AttestationData,
}

impl AggregatedAttestation {
    /// What the fixture stands for.
    pub open spec fn domain(&self) -> crate::attestation::AggregatedAttestationView {
        crate::attestation::AggregatedAttestationView {
            aggregation_bits: self.aggregation_bits.data@,
            data: self.data.domain(),
        }
    }

    /// The attestation that the fixture stands for.
    pub fn to_attestation(&self) -> (r: crate::attestation::AggregatedAttestation)
        requires
            self.aggregation_bits.data@.len() <= MAX_AGGREGATION_BITS,
        ensures
            r@ == self.domain(),
    {
        crate::attestation::AggregatedAttestation {
            aggregation_bits: self.aggregation_bits.to_bits(),
            data: crate::attestation::AttestationData::from(self.data),
        }
    }
}

/// Aggregation bits in a fixture.
#[derive(Debug, Clone)]
pub struct AggregationBits {
    pub data: Vec<bool>,
}

impl AggregationBits {
    /// The bits that the fixture stands for.
    pub fn to_bits(&self) -> (r: DomainAggregationBits)
        requires
            self.data@.len() <= MAX_AGGREGATION_BITS,
        ensures
            participation(r) == self.data@,
    {
        bits_from_vec(&self.data)
    }
}

/// Attestation data in a fixture.
#[derive(Debug, Clone, Copy)]
pub struct AttestationData {
    pub slot: u64,
    pub head: Checkpoint,
    pub target: Checkpoint,
    pub source: Checkpoint,
}

impl AttestationData {
    /// What the fixture stands for.
    pub open spec fn domain(&self) -> crate::attestation::AttestationData {
        crate::attestation::AttestationData {
            slot: self.slot,
            head: crate::checkpoint::Checkpoint { root: self.head.root, slot: self.head.slot },
            target: crate::checkpoint::Checkpoint {
                root: self.target.root,
                slot: self.target.slot,
            },
            source: crate::checkpoint::Checkpoint {
                root: self.source.root,
                slot: self.source.slot,
            },
        }
    }
}

impl From<AttestationData> for crate::attestation::AttestationData {
    fn from(value: AttestationData) -> (r: crate::attestation::AttestationData) {
        crate::attestation::AttestationData {
            slot: value.slot,
            head: crate::checkpoint::Checkpoint::from(value.head),
            target: crate::checkpoint::Checkpoint::from(value.target),
            source: crate::checkpoint::Checkpoint::from(value.source),
        }
    }
}

impl vstd::std_specs::convert::FromSpecImpl<AttestationData> for crate::attestation::AttestationData {
    open spec fn obeys_from_spec() -> bool {
        true
    }

    open spec fn from_spec(value: AttestationData) -> crate::attestation::AttestationData {
        value.domain()
    }
}

/// What a fixture tests.
#[derive(Debug, Clone)]
pub struct TestInfo {
    pub hash: String,
    pub comment: String,
    pub test_id: String,
    pub description: String,
    pub fixture_format: String,
}

} // verus!
