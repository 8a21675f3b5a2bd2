//! How long encodings are, and so what can be encoded.

use crate::attestation::{
    AggregatedAttestation, AggregatedAttestationView, AttestationData, SignedAggregatedAttestation,
    SignedAggregatedAttestationView, XMSS_SIGNATURE_SIZE,
};
use crate::bindings::collections::{bits_len, MAX_AGGREGATION_BITS, MAX_REQUEST_BLOCKS};
use crate::block::{
    AggregatedSignatureProof, AggregatedSignatureProofView, Block, BlockBody, BlockSignatures,
    BlockSignaturesView, BlockView, MAX_PROOF_SIZE, SignedBlock, SignedBlockView,
};
use crate::checkpoint::Checkpoint;
use crate::encoding::bits::lemma_enc_len;
use crate::encoding::container::{
    conforms, lemma_head_len, tail_from, width, width_from, MAX_ENCODING,
};
use crate::encoding::list::{
    item_encs, item_views, lemma_uniform_list_len, lemma_uniform_width, list_enc, list_valid,
    uniform,
};
use crate::encoding::{lemma_fixed_valid, Ssz, SszContainer};
use crate::net::messages::{BlocksByRootRequest, BlocksByRootRequestView, Status};
use crate::primitives::H256;
use crate::state::VALIDATOR_REGISTRY_LIMIT;
use vstd::prelude::*;

verus! {

/// The length of the byte strings from the `i`-th on.
pub open spec fn total_from(parts: Seq<Seq<u8>>, i: int) -> nat
    decreases parts.len() - i,
{
    if i < 0 || i >= parts.len() {
        0
    } else {
        parts[i].len() + total_from(parts, i + 1)
    }
}

proof fn lemma_tail_len(n: nat, parts: Seq<Seq<u8>>, i: int)
    requires
        parts.len() == n,
        0 <= i <= n,
    ensures
        tail_from(uniform(None, n), parts, i).len() == total_from(parts, i),
    decreases n - i,
{
    if i < n {
        lemma_tail_len(n, parts, i + 1);
    }
}

/// The length of a list of items of varying size.
proof fn lemma_list_len<T: Ssz>(items: Seq<T::V>)
    requires
        T::size() is None,
    ensures
        list_enc::<T>(items).len() == 4 * items.len() + total_from(item_encs::<T>(items), 0),
{
    let layout = uniform(T::size(), items.len());
    let parts = item_encs::<T>(items);
    assert(conforms(layout, parts));
    lemma_uniform_width(T::size(), items.len(), 0);
    let n = items.len() as int;
    assert((n - 0) * width(T::size()) == 4 * n) by (nonlinear_arith)
        requires
            width(T::size()) == 4,
    ;
    lemma_head_len(layout, parts, 0, width_from(layout, 0));
    lemma_tail_len(items.len(), parts, 0);
}

proof fn lemma_container_len<T: SszContainer>(v: T::V)
    requires
        T::limits(v),
    ensures
        T::enc(v).len() == width_from(T::layout(), 0) + tail_from(
            T::layout(),
            T::parts(v),
            0,
        ).len(),
{
    T::parts_conform(v);
    lemma_head_len(T::layout(), T::parts(v), 0, width_from(T::layout(), 0));
}

/// Attestation data can always be encoded.
proof fn lemma_data(v: AttestationData)
    ensures
        AttestationData::valid(v),
{
    lemma_fixed_valid::<Checkpoint>(v.head);
    lemma_fixed_valid::<Checkpoint>(v.target);
    lemma_fixed_valid::<Checkpoint>(v.source);
    lemma_fixed_valid::<AttestationData>(v);
}

/// The encoding of an attestation is its data, an offset and its bits.
proof fn lemma_attestation(v: AggregatedAttestationView)
    requires
        v.aggregation_bits.len() <= MAX_AGGREGATION_BITS,
    ensures
        AggregatedAttestation::valid(v),
        AggregatedAttestation::enc(v).len() == 133 + v.aggregation_bits.len() / 8,
{
    lemma_data(v.data);
    lemma_enc_len(v.aggregation_bits);
    lemma_container_len::<AggregatedAttestation>(v);
    reveal_with_fuel(tail_from, 3);
    reveal_with_fuel(width_from, 3);
}

/// The encoding of a proof is two offsets, its bits and its data.
proof fn lemma_proof(v: AggregatedSignatureProofView)
    requires
        v.participants.len() <= MAX_AGGREGATION_BITS,
        v.proof_data.len() <= MAX_PROOF_SIZE,
    ensures
        AggregatedSignatureProof::valid(v),
        AggregatedSignatureProof::enc(v).len() == 9 + v.participants.len() / 8
            + v.proof_data.len(),
{
    lemma_enc_len(v.participants);
    lemma_container_len::<AggregatedSignatureProof>(v);
    reveal_with_fuel(tail_from, 3);
    reveal_with_fuel(width_from, 3);
}

/// The encoding of an aggregated attestation is its data, an offset and its proof.
pub proof fn lemma_aggregation(v: SignedAggregatedAttestationView)
    requires
        v.proof.participants.len() <= MAX_AGGREGATION_BITS,
        v.proof.proof_data.len() <= MAX_PROOF_SIZE,
    ensures
        SignedAggregatedAttestation::valid(v),
        SignedAggregatedAttestation::enc(v).len() == 141 + v.proof.participants.len() / 8
            + v.proof.proof_data.len(),
{
    lemma_data(v.data);
    lemma_proof(v.proof);
    lemma_container_len::<SignedAggregatedAttestation>(v);
    reveal_with_fuel(tail_from, 3);
    reveal_with_fuel(width_from, 3);
}

/// The length of a signed block within the limits of its lists: its fixed parts, its
/// offsets, its attestations and its proofs.
pub open spec fn signed_block_len(v: SignedBlockView) -> nat {
    3212 + 4 * v.message.body.attestations.len() + total_from(
        item_encs::<AggregatedAttestation>(v.message.body.attestations),
        0,
    ) + 4 * v.signature.attestation_signatures.len() + total_from(
        item_encs::<AggregatedSignatureProof>(v.signature.attestation_signatures),
        0,
    )
}

proof fn lemma_block_len(v: BlockView)
    requires
        v.parent_root.len() == 32,
        v.state_root.len() == 32,
        list_valid::<AggregatedAttestation>(
            v.body.attestations,
            VALIDATOR_REGISTRY_LIMIT as nat,
        ),
    ensures
        Block::valid(v) <==> 88 + list_enc::<AggregatedAttestation>(v.body.attestations).len()
            <= MAX_ENCODING,
        Block::valid(v) ==> Block::enc(v).len() == 88 + list_enc::<AggregatedAttestation>(
            v.body.attestations,
        ).len(),
{
    reveal_with_fuel(tail_from, 6);
    reveal_with_fuel(width_from, 6);
    lemma_container_len::<BlockBody>(v.body);
    if BlockBody::valid(v.body) {
        lemma_container_len::<Block>(v);
    }
}

proof fn lemma_signatures_len(v: BlockSignaturesView)
    requires
        list_valid::<AggregatedSignatureProof>(
            v.attestation_signatures,
            VALIDATOR_REGISTRY_LIMIT as nat,
        ),
        v.proposer_signature.len() == XMSS_SIGNATURE_SIZE,
    ensures
        BlockSignatures::valid(v) <==> 3116 + list_enc::<AggregatedSignatureProof>(
            v.attestation_signatures,
        ).len() <= MAX_ENCODING,
        BlockSignatures::enc(v).len() == 3116 + list_enc::<AggregatedSignatureProof>(
            v.attestation_signatures,
        ).len(),
{
    reveal_with_fuel(tail_from, 3);
    reveal_with_fuel(width_from, 3);
    lemma_container_len::<BlockSignatures>(v);
}

/// A block within the limits of its lists can be encoded exactly if it is not too long.
proof fn lemma_signed_block(v: SignedBlockView)
    requires
        v.message.parent_root.len() == 32,
        v.message.state_root.len() == 32,
        v.message.body.attestations.len() <= VALIDATOR_REGISTRY_LIMIT,
        forall|i: int|
            0 <= i < v.message.body.attestations.len() ==> AggregatedAttestation::valid(
                #[trigger] v.message.body.attestations[i],
            ),
        v.signature.attestation_signatures.len() <= VALIDATOR_REGISTRY_LIMIT,
        forall|i: int|
            0 <= i < v.signature.attestation_signatures.len() ==> AggregatedSignatureProof::valid(
                #[trigger] v.signature.attestation_signatures[i],
            ),
        v.signature.proposer_signature.len() == XMSS_SIGNATURE_SIZE,
    ensures
        SignedBlock::valid(v) <==> signed_block_len(v) <= MAX_ENCODING,
{
    lemma_list_len::<AggregatedAttestation>(v.message.body.attestations);
    lemma_list_len::<AggregatedSignatureProof>(v.signature.attestation_signatures);
    if SignedBlock::valid(v) || signed_block_len(v) <= MAX_ENCODING {
        lemma_block_len(v.message);
        lemma_signatures_len(v.signature);
        if SignedBlock::limits(v) {
            lemma_container_len::<SignedBlock>(v);
        }
        reveal_with_fuel(tail_from, 3);
        reveal_with_fuel(width_from, 3);
    }
}

/// A request for roots can always be encoded.
pub proof fn lemma_request(roots: Seq<H256>)
    requires
        roots.len() <= MAX_REQUEST_BLOCKS,
    ensures
        BlocksByRootRequest::valid(BlocksByRootRequestView { roots: item_views(roots) }),
{
    let v = BlocksByRootRequestView { roots: item_views(roots) };
    lemma_uniform_list_len::<H256>(v.roots);
    lemma_container_len::<BlocksByRootRequest>(v);
    reveal_with_fuel(tail_from, 2);
    reveal_with_fuel(width_from, 2);
}

/// A status can always be encoded.
pub proof fn lemma_status(v: Status)
    ensures
        Status::valid(v),
{
    lemma_fixed_valid::<Checkpoint>(v.finalized);
    lemma_fixed_valid::<Checkpoint>(v.head);
    lemma_fixed_valid::<Status>(v);
}

impl SignedBlock {
    /// Whether the block can be encoded: its lists are within their limits, and its
    /// encoding is not too long.
    pub fn fits(&self) -> (r: bool)
        ensures
            r == SignedBlock::valid(self@),
    {
        let attestations = &self.message.body.attestations;
        let proofs = &self.signature.attestation_signatures;
        let ghost v = self@;
        let ghost atts = item_views(attestations@);
        let ghost prfs = item_views(proofs@);
        if attestations.len() > VALIDATOR_REGISTRY_LIMIT || proofs.len() > VALIDATOR_REGISTRY_LIMIT
            || self.signature.proposer_signature.bytes.len() != XMSS_SIGNATURE_SIZE {
            return false;
        }
        let mut bytes: u64 = 0;
        let mut i: usize = attestations.len();
        while i > 0
            invariant
                0 <= i <= attestations@.len() <= VALIDATOR_REGISTRY_LIMIT,
                atts == item_views(attestations@),
                bytes <= (attestations@.len() - i) * 645,
                bytes == total_from(item_encs::<AggregatedAttestation>(atts), i as int),
                forall|k: int|
                    i <= k < atts.len() ==> AggregatedAttestation::valid(#[trigger] atts[k]),
            decreases i,
        {
            i = i - 1;
            let bits: usize = bits_len(&attestations[i].aggregation_bits);
            proof {
                lemma_attestation(atts[i as int]);
            }
            bytes = bytes + (133 + bits as u64 / 8);
        }
        let ghost attestation_bytes = bytes;
        let mut j: usize = proofs.len();
        while j > 0
            invariant
                0 <= j <= proofs@.len() <= VALIDATOR_REGISTRY_LIMIT,
                v == self@,
                *proofs == self.signature.attestation_signatures,
                prfs == item_views(proofs@),
                attestation_bytes <= 2_641_920,
                bytes <= attestation_bytes + (proofs@.len() - j) * 1_049_097,
                bytes == attestation_bytes + total_from(
                    item_encs::<AggregatedSignatureProof>(prfs),
                    j as int,
                ),
                forall|k: int|
                    j <= k < prfs.len() ==> AggregatedSignatureProof::valid(#[trigger] prfs[k]),
            decreases j,
        {
            j = j - 1;
            let bits: usize = bits_len(&proofs[j].participants);
            let data: usize = proofs[j].proof_data.len();
            if data > MAX_PROOF_SIZE {
                proof {
                    assert(v.signature.attestation_signatures[j as int] == proofs@[j as int]@);
                }
                return false;
            }
            proof {
                lemma_proof(prfs[j as int]);
            }
            bytes = bytes + (9 + bits as u64 / 8 + data as u64);
        }
        proof {
            assert(v.message.body.attestations == atts);
            assert(v.signature.attestation_signatures == prfs);
            lemma_signed_block(v);
        }
        3212 + 4 * (attestations.len() as u64) + 4 * (proofs.len() as u64) + bytes
            <= MAX_ENCODING as u64
    }
}

} // verus!
