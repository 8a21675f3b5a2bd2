//! How much values may hold.

use crate::attestation::{
    AggregatedAttestation, AggregatedAttestationView, AttestationData, SignedAttestation,
    SignedAttestationView,
};
use crate::block::{
    AggregatedSignatureProof, AggregatedSignatureProofView, Block, BlockBody, BlockBodyView,
    BlockHeader, BlockSignatures, BlockSignaturesView, BlockView, SignedBlock, SignedBlockView,
};
use crate::checkpoint::Checkpoint;
use crate::encoding::list::list_enc;
use crate::encoding::{lemma_fixed_valid, Ssz};
use crate::net::messages::{BlocksByRootRequest, BlocksByRootRequestView};
use crate::primitives::H256;
use crate::state::{ChainConfig, State, StateView, Validator};
use crate::storage::payloads::{StoredSignature, StoredSignatureView};
use vstd::prelude::*;

verus! {

/// A state can be written if it has at most 262144 historical roots, justified slots and
/// justified roots, at most 4096 validators and at most 2^30 votes, and offsets reach its end.
pub proof fn states_are_limited(v: StateView)
    ensures
        State::valid(v) ==> {
            &&& v.historical_block_hashes.len() <= 262_144
            &&& v.justified_slots.len() <= 262_144
            &&& v.validators.len() <= 4096
            &&& v.justifications_roots.len() <= 262_144
            &&& v.justifications_validators.len() <= 1_073_741_824
            &&& State::enc(v).len() <= 0xffff_ffff
        },
        v.historical_block_hashes.len() <= 262_144 && v.justified_slots.len() <= 262_144
            && v.validators.len() <= 4096 && v.justifications_roots.len() <= 262_144
            && v.justifications_validators.len() <= 1_073_741_824 && State::enc(v).len()
            <= 0xffff_ffff && list_enc::<H256>(v.historical_block_hashes).len() <= 0xffff_ffff
            && list_enc::<H256>(v.justifications_roots).len() <= 0xffff_ffff && list_enc::<
            Validator,
        >(v.validators).len() <= 0xffff_ffff && (forall|i: int|
            0 <= i < v.historical_block_hashes.len() ==> (
            #[trigger] v.historical_block_hashes[i]).len() == 32) && (forall|i: int|
            0 <= i < v.justifications_roots.len() ==> (#[trigger] v.justifications_roots[i]).len()
                == 32) ==> State::valid(v),
{
    lemma_fixed_valid::<ChainConfig>(v.config);
    lemma_fixed_valid::<BlockHeader>(v.latest_block_header);
    lemma_fixed_valid::<Checkpoint>(v.latest_justified);
    lemma_fixed_valid::<Checkpoint>(v.latest_finalized);
    assert forall|i: int| 0 <= i < v.validators.len() implies Validator::valid(
        #[trigger] v.validators[i],
    ) by {
        lemma_fixed_valid::<Validator>(v.validators[i]);
    }
}

/// An aggregated attestation has at most 4096 bits, and so has a proof, whose data take at most
/// one MiB.
pub proof fn attestations_are_limited(
    a: AggregatedAttestationView,
    p: AggregatedSignatureProofView,
    s: StoredSignatureView,
)
    ensures
        AggregatedAttestation::valid(a) <==> a.aggregation_bits.len() <= 4096
            && AggregatedAttestation::enc(a).len() <= 0xffff_ffff,
        AggregatedSignatureProof::valid(p) <==> p.participants.len() <= 4096 && p.proof_data.len()
            <= 1024 * 1024 && AggregatedSignatureProof::enc(p).len() <= 0xffff_ffff,
        StoredSignature::valid(s) <==> s.signature_bytes.len() <= 3112 && StoredSignature::enc(
            s,
        ).len() <= 0xffff_ffff,
{
    lemma_fixed_valid::<Checkpoint>(a.data.head);
    lemma_fixed_valid::<Checkpoint>(a.data.target);
    lemma_fixed_valid::<Checkpoint>(a.data.source);
    lemma_fixed_valid::<AttestationData>(a.data);
}

/// A signed attestation has a signature of 3112 bytes.
pub proof fn signed_attestations_are_limited(v: SignedAttestationView)
    ensures
        SignedAttestation::valid(v) ==> v.signature.len() == 3112,
        v.signature.len() == 3112 && SignedAttestation::enc(v).len() <= 0xffff_ffff
            ==> SignedAttestation::valid(v),
{
    lemma_fixed_valid::<Checkpoint>(v.data.head);
    lemma_fixed_valid::<Checkpoint>(v.data.target);
    lemma_fixed_valid::<Checkpoint>(v.data.source);
    lemma_fixed_valid::<AttestationData>(v.data);
}

/// A block has at most 4096 attestations and as many proofs.
pub proof fn blocks_are_limited(b: BlockBodyView, s: BlockSignaturesView)
    ensures
        BlockBody::valid(b) ==> b.attestations.len() <= 4096,
        BlockSignatures::valid(s) ==> s.attestation_signatures.len() <= 4096
            && s.proposer_signature.len() == 3112,
        b.attestations.len() <= 4096 && (forall|i: int|
            0 <= i < b.attestations.len() ==> AggregatedAttestation::valid(
                #[trigger] b.attestations[i],
            )) && list_enc::<AggregatedAttestation>(b.attestations).len() <= 0xffff_ffff
            && BlockBody::enc(b).len() <= 0xffff_ffff ==> BlockBody::valid(b),
        s.attestation_signatures.len() <= 4096 && (forall|i: int|
            0 <= i < s.attestation_signatures.len() ==> AggregatedSignatureProof::valid(
                #[trigger] s.attestation_signatures[i],
            )) && list_enc::<AggregatedSignatureProof>(s.attestation_signatures).len()
            <= 0xffff_ffff && s.proposer_signature.len() == 3112 && BlockSignatures::enc(s).len()
            <= 0xffff_ffff ==> BlockSignatures::valid(s),
{
}

/// A signed block is limited by its parts and the reach of offsets.
pub proof fn signed_blocks_are_limited(b: BlockView, s: SignedBlockView)
    ensures
        Block::valid(b) <==> BlockBody::valid(b.body) && b.parent_root.len() == 32
            && b.state_root.len() == 32 && Block::enc(b).len() <= 0xffff_ffff,
        SignedBlock::valid(s) <==> Block::valid(s.message) && BlockSignatures::valid(s.signature)
            && SignedBlock::enc(s).len() <= 0xffff_ffff,
{
}

/// A request for blocks names at most 1024 roots.
pub proof fn requests_are_limited(v: BlocksByRootRequestView)
    ensures
        BlocksByRootRequest::valid(v) ==> v.roots.len() <= 1024,
        v.roots.len() <= 1024 && (forall|i: int|
            0 <= i < v.roots.len() ==> (#[trigger] v.roots[i]).len() == 32) && list_enc::<H256>(
            v.roots,
        ).len() <= 0xffff_ffff && BlocksByRootRequest::enc(v).len() <= 0xffff_ffff
            ==> BlocksByRootRequest::valid(v),
{
}

/// A signed block is said to fit if it can be written.
pub proof fn fitting_blocks_can_be_written(block: SignedBlock, r: bool)
    requires
        call_ensures(SignedBlock::fits, (&block,), r),
    ensures
        r <==> SignedBlock::valid(block@),
{
}

} // verus!
