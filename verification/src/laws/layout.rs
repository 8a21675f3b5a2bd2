//! Where each field of a value stands in its encoding.

use crate::attestation::{
    AggregatedAttestation, AggregatedAttestationView, AttestationData, SignedAggregatedAttestation,
    SignedAggregatedAttestationView, SignedAttestation, SignedAttestationView,
};
use crate::bindings::collections::{message_bytes, participation, requested_roots};
use crate::block::{
    AggregatedSignatureProof, AggregatedSignatureProofView, Block, BlockBody, BlockBodyView,
    BlockHeader, BlockSignatures, BlockSignaturesView, BlockView, SignedBlock, SignedBlockView,
};
use crate::checkpoint::Checkpoint;
use crate::encoding::{Ssz, SszContainer};
use crate::encoding::bits::{bits_enc, byte_bit, lemma_enc_bit, lemma_enc_len};
use crate::encoding::container::{
    container, head_from, lemma_field_at, lemma_offset_end, offset_at, position_at, tail_from,
    width, width_from, MAX_ENCODING,
};
use crate::encoding::list::{item_encs, lemma_list_conforms, lemma_uniform_width, list_enc, uniform};
use crate::net::messages::{
    BlocksByRootRequest, BlocksByRootRequestView, Request, RequestView, Response, ResponsePayload,
    ResponseView, Status,
};
use crate::primitives::{
    be_bytes, le_bytes, le_value, lemma_be_is_reversed_le, lemma_le_bytes_len,
    lemma_le_value_of_bytes, lemma_pow256_values, pow256, H256,
};
use crate::state::{ChainConfig, State, StateView, Validator};
use crate::storage::payloads::{
    StoredAggregatedPayload, StoredAggregatedPayloadView, StoredSignature, StoredSignatureView,
};
use vstd::prelude::*;

verus! {

/// What a value stands for shows its fields, each under its own name.
pub proof fn states_show_their_fields(s: State)
    ensures
        s@.config == s.config,
        s@.slot == s.slot,
        s@.latest_block_header == s.latest_block_header,
        s@.latest_justified == s.latest_justified,
        s@.latest_finalized == s.latest_finalized,
        s@.historical_block_hashes.len() == s.historical_block_hashes@.len(),
        forall|i: int|
            0 <= i < s.historical_block_hashes@.len() ==> #[trigger] s@.historical_block_hashes[i]
                == s.historical_block_hashes@[i]@,
        s@.justified_slots == s.justified_slots@,
        s@.validators == s.validators@,
        s@.justifications_roots.len() == s.justifications_roots@.len(),
        forall|i: int|
            0 <= i < s.justifications_roots@.len() ==> #[trigger] s@.justifications_roots[i]
                == s.justifications_roots@[i]@,
        s@.justifications_validators == s.justifications_validators@,
{
    assert(s@.validators =~= s.validators@);
}

/// What a block stands for shows its fields, each under its own name.
pub proof fn blocks_show_their_fields(b: SignedBlock, i: int)
    ensures
        b@.message.slot == b.message.slot,
        b@.message.proposer_index == b.message.proposer_index,
        b@.message.parent_root == b.message.parent_root@,
        b@.message.state_root == b.message.state_root@,
        b@.message.body.attestations.len() == b.message.body.attestations@.len(),
        0 <= i < b.message.body.attestations@.len() ==> b@.message.body.attestations[i].data
            == b.message.body.attestations@[i].data
            && b@.message.body.attestations[i].aggregation_bits == participation(
            b.message.body.attestations@[i].aggregation_bits,
        ),
        b@.signature.proposer_signature == b.signature.proposer_signature.bytes@,
        b@.signature.attestation_signatures.len() == b.signature.attestation_signatures@.len(),
        0 <= i < b.signature.attestation_signatures@.len()
            ==> b@.signature.attestation_signatures[i].proof_data
            == b.signature.attestation_signatures@[i].proof_data@
            && b@.signature.attestation_signatures[i].participants == participation(
            b.signature.attestation_signatures@[i].participants,
        ),
{
}

/// What an attestation stands for shows its fields, each under its own name.
pub proof fn attestations_show_their_fields(
    a: SignedAttestation,
    b: SignedAggregatedAttestation,
    c: StoredSignature,
    d: StoredAggregatedPayload,
)
    ensures
        a@.validator_id == a.validator_id,
        a@.data == a.data,
        a@.signature == a.signature.bytes@,
        b@.data == b.data,
        b@.proof.proof_data == b.proof.proof_data@,
        b@.proof.participants == participation(b.proof.participants),
        c@.slot == c.slot,
        c@.signature_bytes == c.signature_bytes@,
        d@.slot == d.slot,
        d@.proof.proof_data == d.proof.proof_data@,
        d@.proof.participants == participation(d.proof.participants),
{
}

/// What requests and responses stand for shows what they hold.
pub proof fn messages_show_what_they_hold(request: Request, response: Response, i: int)
    ensures
        request matches Request::Status(s) ==> request@ == RequestView::Status(s),
        request matches Request::BlocksByRoot(r) ==> request@ is BlocksByRoot
            && request@->BlocksByRoot_0.roots.len() == requested_roots(r.roots).len() && (0 <= i
            < requested_roots(r.roots).len() ==> request@->BlocksByRoot_0.roots[i]
            == requested_roots(r.roots)[i]@),
        response matches Response::Success { payload: ResponsePayload::Status(s) } ==> response@
            == ResponseView::Status(s),
        response matches Response::Success { payload: ResponsePayload::BlocksByRoot(blocks) }
            ==> response@ is BlocksByRoot && response@->BlocksByRoot_0.len() == blocks@.len() && (0
            <= i < blocks@.len() ==> response@->BlocksByRoot_0[i] == blocks@[i]@),
        response matches Response::Error { code, message } ==> response@ == (ResponseView::Error {
            code,
            message: message_bytes(message),
        }),
{
}

/// Values of one size stand for themselves.
pub proof fn plain_values_stand_for_themselves(
    a: Checkpoint,
    b: AttestationData,
    c: BlockHeader,
    d: Validator,
    e: ChainConfig,
    f: Status,
)
    ensures
        a@ == a,
        b@ == b,
        c@ == c,
        d@ == d,
        e@ == e,
        f@ == f,
{
}

/// Integers are written with the lowest byte first: byte `i` counts powers of 256.
pub proof fn integers_are_little_endian(x: nat, n: nat, i: int)
    requires
        0 <= i < n,
    ensures
        le_bytes(x, n).len() == n,
        le_bytes(x, n)[i] == (x / pow256(i as nat)) % 256,
    decreases n,
{
    lemma_le_bytes_len(x, n);
    lemma_le_bytes_len(x / 256, (n - 1) as nat);
    if i > 0 {
        integers_are_little_endian(x / 256, (n - 1) as nat, i - 1);
        let p = pow256((i - 1) as nat);
        lemma_pow256_positive((i - 1) as nat);
        vstd::arithmetic::div_mod::lemma_div_denominator(x as int, 256, p as int);
        assert(le_bytes(x, n)[i] == le_bytes(x / 256, (n - 1) as nat)[i - 1]);
    } else {
        assert(pow256(0) == 1);
        assert(x / 1 == x);
    }
}

proof fn lemma_pow256_positive(n: nat)
    ensures
        pow256(n) > 0,
    decreases n,
{
    if n > 0 {
        lemma_pow256_positive((n - 1) as nat);
    }
}

/// Keys hold integers with the highest byte first.
pub proof fn keys_are_big_endian(x: nat, n: nat, i: int)
    requires
        0 <= i < n,
    ensures
        be_bytes(x, n).len() == n,
        be_bytes(x, n)[i] == (x / pow256((n - 1 - i) as nat)) % 256,
{
    lemma_be_is_reversed_le(x, n);
    integers_are_little_endian(x, n, n - 1 - i);
}

/// A checkpoint is its root and its slot.
pub proof fn checkpoint_layout(v: Checkpoint)
    ensures
        Checkpoint::enc(v) == v.root@ + le_bytes(v.slot as nat, 8),
{
    reveal_with_fuel(head_from, 3);
    reveal_with_fuel(tail_from, 3);
    assert(Checkpoint::enc(v) =~= v.root@ + le_bytes(v.slot as nat, 8));
}

/// Attestation data is its slot, and the roots and slots of the head, the target and the
/// source.
pub proof fn attestation_data_layout(v: AttestationData)
    ensures
        AttestationData::enc(v) == le_bytes(v.slot as nat, 8) + (v.head.root@ + le_bytes(
            v.head.slot as nat,
            8,
        )) + (v.target.root@ + le_bytes(v.target.slot as nat, 8)) + (v.source.root@ + le_bytes(
            v.source.slot as nat,
            8,
        )),
{
    reveal_with_fuel(head_from, 5);
    reveal_with_fuel(tail_from, 5);
    checkpoint_layout(v.head);
    checkpoint_layout(v.target);
    checkpoint_layout(v.source);
    let (a, b, c, d) = (
        le_bytes(v.slot as nat, 8),
        Checkpoint::enc(v.head),
        Checkpoint::enc(v.target),
        Checkpoint::enc(v.source),
    );
    assert(AttestationData::enc(v) =~= a + (b + (c + d)));
    assert(a + (b + (c + d)) =~= a + b + c + d);
}

/// A header is its slot, its proposer, and the roots of the parent, the state and the body.
pub proof fn header_layout(v: BlockHeader)
    ensures
        BlockHeader::enc(v) == le_bytes(v.slot as nat, 8) + le_bytes(v.proposer_index as nat, 8)
            + v.parent_root@ + v.state_root@ + v.body_root@,
{
    reveal_with_fuel(head_from, 6);
    reveal_with_fuel(tail_from, 6);
    let (a, b, c, d, e) = (
        le_bytes(v.slot as nat, 8),
        le_bytes(v.proposer_index as nat, 8),
        v.parent_root@,
        v.state_root@,
        v.body_root@,
    );
    assert(BlockHeader::enc(v) =~= a + (b + (c + (d + e))));
    assert(a + (b + (c + (d + e))) =~= a + b + c + d + e);
}

/// A configuration is its genesis time.
pub proof fn config_layout(v: ChainConfig)
    ensures
        ChainConfig::enc(v) == le_bytes(v.genesis_time as nat, 8),
{
    reveal_with_fuel(head_from, 2);
    reveal_with_fuel(tail_from, 2);
    assert(ChainConfig::enc(v) =~= le_bytes(v.genesis_time as nat, 8));
}

/// A validator is its attestation key, its proposal key and its index.
pub proof fn validator_layout(v: Validator)
    ensures
        Validator::enc(v) == v.attestation_pubkey@ + v.proposal_pubkey@ + le_bytes(
            v.index as nat,
            8,
        ),
{
    reveal_with_fuel(head_from, 4);
    reveal_with_fuel(tail_from, 4);
    let (a, b, c) = (v.attestation_pubkey@, v.proposal_pubkey@, le_bytes(v.index as nat, 8));
    assert(Validator::enc(v) =~= a + (b + c));
    assert(a + (b + c) =~= a + b + c);
}

/// A status is the finalized checkpoint and the head.
pub proof fn status_layout(v: Status)
    ensures
        Status::enc(v) == (v.finalized.root@ + le_bytes(v.finalized.slot as nat, 8)) + (v.head.root@
            + le_bytes(v.head.slot as nat, 8)),
{
    reveal_with_fuel(head_from, 3);
    reveal_with_fuel(tail_from, 3);
    checkpoint_layout(v.finalized);
    checkpoint_layout(v.head);
    assert(Status::enc(v) =~= Checkpoint::enc(v.finalized) + Checkpoint::enc(v.head));
}

/// A signed attestation is its validator, its data and its signature.
pub proof fn signed_attestation_layout(v: SignedAttestationView)
    ensures
        SignedAttestation::enc(v) == le_bytes(v.validator_id as nat, 8) + AttestationData::enc(
            v.data,
        ) + v.signature,
{
    reveal_with_fuel(head_from, 4);
    reveal_with_fuel(tail_from, 4);
    let (a, b, c) = (
        le_bytes(v.validator_id as nat, 8),
        AttestationData::enc(v.data),
        v.signature,
    );
    assert(SignedAttestation::enc(v) =~= a + (b + c));
    assert(a + (b + c) =~= a + b + c);
}

/// An aggregated attestation is the offset of its bits, its data, and its bits.
pub proof fn aggregated_attestation_layout(v: AggregatedAttestationView)
    ensures
        AggregatedAttestation::enc(v) == le_bytes(132, 4) + AttestationData::enc(v.data) + bits_enc(
            v.aggregation_bits,
        ),
{
    reveal_with_fuel(head_from, 3);
    reveal_with_fuel(tail_from, 3);
    reveal_with_fuel(width_from, 3);
    assert(AggregatedAttestation::enc(v) =~= le_bytes(132, 4) + AttestationData::enc(v.data)
        + bits_enc(v.aggregation_bits));
}

/// A proof is the offsets of its bits and its data, and these.
pub proof fn proof_layout(v: AggregatedSignatureProofView)
    ensures
        AggregatedSignatureProof::enc(v) == le_bytes(8, 4) + le_bytes(
            8 + bits_enc(v.participants).len(),
            4,
        ) + bits_enc(v.participants) + v.proof_data,
{
    reveal_with_fuel(head_from, 3);
    reveal_with_fuel(tail_from, 3);
    reveal_with_fuel(width_from, 3);
    assert(AggregatedSignatureProof::enc(v) =~= le_bytes(8, 4) + le_bytes(
        8 + bits_enc(v.participants).len(),
        4,
    ) + bits_enc(v.participants) + v.proof_data);
}

/// A signed aggregated attestation is its data, the offset of its proof, and its proof.
pub proof fn signed_aggregation_layout(v: SignedAggregatedAttestationView)
    ensures
        SignedAggregatedAttestation::enc(v) == AttestationData::enc(v.data) + le_bytes(132, 4)
            + AggregatedSignatureProof::enc(v.proof),
{
    reveal_with_fuel(head_from, 3);
    reveal_with_fuel(tail_from, 3);
    reveal_with_fuel(width_from, 3);
    assert(SignedAggregatedAttestation::enc(v) =~= AttestationData::enc(v.data) + le_bytes(132, 4)
        + AggregatedSignatureProof::enc(v.proof));
}

/// A body is the offset of its attestations, and these.
pub proof fn body_layout(v: BlockBodyView)
    ensures
        BlockBody::enc(v) == le_bytes(4, 4) + list_enc::<AggregatedAttestation>(v.attestations),
{
    reveal_with_fuel(head_from, 2);
    reveal_with_fuel(tail_from, 2);
    reveal_with_fuel(width_from, 2);
    assert(BlockBody::enc(v) =~= le_bytes(4, 4) + list_enc::<AggregatedAttestation>(
        v.attestations,
    ));
}

/// A block is its slot, its proposer, the roots of its parent and its state, the offset of
/// its body, and its body.
pub proof fn block_layout(v: BlockView)
    ensures
        Block::enc(v) == le_bytes(v.slot as nat, 8) + le_bytes(v.proposer_index as nat, 8)
            + v.parent_root + v.state_root + le_bytes(84, 4) + BlockBody::enc(v.body),
{
    reveal_with_fuel(head_from, 6);
    reveal_with_fuel(tail_from, 6);
    reveal_with_fuel(width_from, 6);
    let (a, b, c, d, e) = (
        le_bytes(v.slot as nat, 8),
        le_bytes(v.proposer_index as nat, 8),
        v.parent_root,
        v.state_root,
        le_bytes(84, 4),
    );
    let f = BlockBody::enc(v.body);
    assert(Block::enc(v) =~= (a + (b + (c + (d + e)))) + f);
    assert(a + (b + (c + (d + e))) =~= a + b + c + d + e);
}

/// The signatures of a block are the offset of its proofs, the signature of the proposer, and
/// the proofs.
pub proof fn signatures_layout(v: BlockSignaturesView)
    ensures
        BlockSignatures::enc(v) == le_bytes(3116, 4) + v.proposer_signature + list_enc::<
            AggregatedSignatureProof,
        >(v.attestation_signatures),
{
    reveal_with_fuel(head_from, 3);
    reveal_with_fuel(tail_from, 3);
    reveal_with_fuel(width_from, 3);
    assert(BlockSignatures::enc(v) =~= le_bytes(3116, 4) + v.proposer_signature + list_enc::<
        AggregatedSignatureProof,
    >(v.attestation_signatures));
}

/// Two parts of varying size stand behind their two offsets.
pub proof fn lemma_two_parts(m: Seq<u8>, s: Seq<u8>)
    ensures
        container(seq![None, None], seq![m, s]) == le_bytes(8, 4) + le_bytes(8 + m.len(), 4) + m
            + s,
{
    reveal_with_fuel(head_from, 3);
    reveal_with_fuel(tail_from, 3);
    reveal_with_fuel(width_from, 3);
    assert(container(seq![None, None], seq![m, s]) =~= le_bytes(8, 4) + le_bytes(8 + m.len(), 4)
        + m + s);
}

/// A signed block is the offsets of its block and its signatures, and these.
pub proof fn signed_block_layout(v: SignedBlockView)
    ensures
        SignedBlock::enc(v) == le_bytes(8, 4) + le_bytes(8 + Block::enc(v.message).len(), 4)
            + Block::enc(v.message) + BlockSignatures::enc(v.signature),
{
    lemma_two_parts(Block::enc(v.message), BlockSignatures::enc(v.signature));
}

/// A request for blocks is the offset of its roots, and these.
pub proof fn request_layout(v: BlocksByRootRequestView)
    ensures
        BlocksByRootRequest::enc(v) == le_bytes(4, 4) + list_enc::<H256>(v.roots),
{
    reveal_with_fuel(head_from, 2);
    reveal_with_fuel(tail_from, 2);
    reveal_with_fuel(width_from, 2);
    assert(BlocksByRootRequest::enc(v) =~= le_bytes(4, 4) + list_enc::<H256>(v.roots));
}

/// A stored signature is its slot, the offset of its bytes, and these.
pub proof fn stored_signature_layout(v: StoredSignatureView)
    ensures
        StoredSignature::enc(v) == le_bytes(v.slot as nat, 8) + le_bytes(12, 4) + v.signature_bytes,
{
    reveal_with_fuel(head_from, 3);
    reveal_with_fuel(tail_from, 3);
    reveal_with_fuel(width_from, 3);
    assert(StoredSignature::enc(v) =~= le_bytes(v.slot as nat, 8) + le_bytes(12, 4)
        + v.signature_bytes);
}

/// A stored payload is its slot, the offset of its proof, and its proof.
pub proof fn stored_payload_layout(v: StoredAggregatedPayloadView)
    ensures
        StoredAggregatedPayload::enc(v) == le_bytes(v.slot as nat, 8) + le_bytes(12, 4)
            + AggregatedSignatureProof::enc(v.proof),
{
    reveal_with_fuel(head_from, 3);
    reveal_with_fuel(tail_from, 3);
    reveal_with_fuel(width_from, 3);
    assert(StoredAggregatedPayload::enc(v) =~= le_bytes(v.slot as nat, 8) + le_bytes(12, 4)
        + AggregatedSignatureProof::enc(v.proof));
}

/// What a field of a container looks like.
proof fn lemma_field<T: SszContainer>(v: T::V, i: int)
    requires
        T::limits(v),
        0 <= i < T::layout().len(),
    ensures
        T::layout()[i] is Some ==> T::enc(v).subrange(
            position_at(T::layout(), i),
            position_at(T::layout(), i + 1),
        ) == T::parts(v)[i],
        T::layout()[i] is None ==> T::enc(v).subrange(
            position_at(T::layout(), i),
            position_at(T::layout(), i + 1),
        ) == le_bytes(offset_at(T::layout(), T::parts(v), i), 4) && T::enc(v).subrange(
            offset_at(T::layout(), T::parts(v), i) as int,
            offset_at(T::layout(), T::parts(v), i + 1) as int,
        ) == T::parts(v)[i],
{
    T::parts_conform(v);
    lemma_field_at(T::layout(), T::parts(v), i);
}

/// The fields of a state with a size of their own stand in the first 208 bytes: the genesis
/// time, the slot, the header of the latest block, the latest justified checkpoint and the
/// latest finalized one.
pub proof fn state_layout(v: StateView)
    requires
        State::valid(v),
    ensures
        State::enc(v).subrange(0, 8) == le_bytes(v.config.genesis_time as nat, 8),
        State::enc(v).subrange(8, 16) == le_bytes(v.slot as nat, 8),
        State::enc(v).subrange(16, 128) == le_bytes(v.latest_block_header.slot as nat, 8)
            + le_bytes(v.latest_block_header.proposer_index as nat, 8)
            + v.latest_block_header.parent_root@ + v.latest_block_header.state_root@
            + v.latest_block_header.body_root@,
        State::enc(v).subrange(128, 168) == v.latest_justified.root@ + le_bytes(
            v.latest_justified.slot as nat,
            8,
        ),
        State::enc(v).subrange(168, 208) == v.latest_finalized.root@ + le_bytes(
            v.latest_finalized.slot as nat,
            8,
        ),
{
    reveal_with_fuel(width_from, 11);
    lemma_field::<State>(v, 0);
    lemma_field::<State>(v, 1);
    lemma_field::<State>(v, 2);
    lemma_field::<State>(v, 3);
    lemma_field::<State>(v, 4);
    config_layout(v.config);
    header_layout(v.latest_block_header);
    checkpoint_layout(v.latest_justified);
    checkpoint_layout(v.latest_finalized);
}

/// The lists of a state follow its first 228 bytes in the order of the historical block
/// hashes, the justified slots, the validators, the justified roots and the justifying
/// validators, and the offset of each stands before them in the same order.
pub proof fn state_lists_layout(v: StateView)
    requires
        State::valid(v),
    ensures
        ({
            let e = State::enc(v);
            let a: int = 228;
            let b = a + list_enc::<H256>(v.historical_block_hashes).len();
            let c = b + bits_enc(v.justified_slots).len();
            let d = c + list_enc::<Validator>(v.validators).len();
            let f = d + list_enc::<H256>(v.justifications_roots).len();
            let end = f + bits_enc(v.justifications_validators).len();
            &&& e.subrange(208, 212) == le_bytes(a as nat, 4)
            &&& e.subrange(212, 216) == le_bytes(b as nat, 4)
            &&& e.subrange(216, 220) == le_bytes(c as nat, 4)
            &&& e.subrange(220, 224) == le_bytes(d as nat, 4)
            &&& e.subrange(224, 228) == le_bytes(f as nat, 4)
            &&& e.subrange(a as int, b as int) == list_enc::<H256>(v.historical_block_hashes)
            &&& e.subrange(b as int, c as int) == bits_enc(v.justified_slots)
            &&& e.subrange(c as int, d as int) == list_enc::<Validator>(v.validators)
            &&& e.subrange(d as int, f as int) == list_enc::<H256>(v.justifications_roots)
            &&& e.subrange(f as int, end as int) == bits_enc(v.justifications_validators)
            &&& e.len() == end
        }),
{
    reveal_with_fuel(width_from, 11);
    reveal_with_fuel(offset_at, 11);
    lemma_field::<State>(v, 5);
    lemma_field::<State>(v, 6);
    lemma_field::<State>(v, 7);
    lemma_field::<State>(v, 8);
    lemma_field::<State>(v, 9);
    State::parts_conform(v);
    lemma_offset_end(State::layout(), State::parts(v));
}

/// The items of a list with a size of their own follow each other.
pub proof fn items_follow_each_other<T: Ssz>(items: Seq<T::V>, i: int)
    requires
        T::size() is Some,
        forall|k: int| 0 <= k < items.len() ==> T::valid(#[trigger] items[k]),
        0 <= i < items.len(),
    ensures
        list_enc::<T>(items).subrange(i * T::size()->0, i * T::size()->0 + T::size()->0) == T::enc(
            items[i],
        ),
{
    let n = items.len();
    let w = T::size()->0 as int;
    let layout = uniform(T::size(), n);
    lemma_list_conforms::<T>(items);
    lemma_field_at(layout, item_encs::<T>(items), i);
    lemma_uniform_width(T::size(), n, 0);
    lemma_uniform_width(T::size(), n, i);
    lemma_uniform_width(T::size(), n, i + 1);
    assert((n - 0) * w - (n - i) * w == i * w && (n - 0) * w - (n - (i + 1)) * w == i * w + w)
        by (nonlinear_arith);
}

/// The items of a list with varying sizes stand behind a table of their offsets: the first
/// item follows the table, and each further one the item before.
pub proof fn items_are_reached_by_offsets<T: Ssz>(items: Seq<T::V>, i: int)
    requires
        T::size() is None,
        forall|k: int| 0 <= k < items.len() ==> T::valid(#[trigger] items[k]),
        list_enc::<T>(items).len() <= MAX_ENCODING,
        0 <= i < items.len(),
    ensures
        ({
            let bytes = list_enc::<T>(items);
            let start = le_value(bytes.subrange(4 * i, 4 * i + 4)) as int;
            let end = start + T::enc(items[i]).len();
            &&& i == 0 ==> start == 4 * items.len()
            &&& bytes.subrange(start, end) == T::enc(items[i])
            &&& i + 1 < items.len() ==> le_value(bytes.subrange(4 * i + 4, 4 * i + 8)) == end
            &&& i + 1 == items.len() ==> bytes.len() == end
        }),
{
    let n = items.len();
    let layout = uniform(T::size(), n);
    let parts = item_encs::<T>(items);
    lemma_list_conforms::<T>(items);
    lemma_field_at(layout, parts, i);
    lemma_offset_end(layout, parts);
    lemma_uniform_width(T::size(), n, 0);
    lemma_uniform_width(T::size(), n, i);
    lemma_uniform_width(T::size(), n, i + 1);
    lemma_pow256_values();
    lemma_le_value_of_bytes(offset_at(layout, parts, i), 4);
    let w = width(T::size()) as int;
    let m = n as int;
    assert((m - 0) * w == 4 * m && (m - i) * w == 4 * (m - i) && (m - (i + 1)) * w == 4 * (m - i
        - 1) && (m - (i + 2)) * w == 4 * (m - i - 2)) by (nonlinear_arith)
        requires
            w == 4,
    ;
    assert(parts[i] == T::enc(items[i]));
    assert(layout[i] is None);
    assert(offset_at(layout, parts, i + 1) == offset_at(layout, parts, i) + parts[i].len());
    if i + 1 < n {
        lemma_field_at(layout, parts, i + 1);
        lemma_uniform_width(T::size(), n, i + 2);
        assert(layout[i + 1] is None);
        lemma_le_value_of_bytes(offset_at(layout, parts, i + 1), 4);
    }
}

/// A list without items has no bytes.
pub proof fn empty_lists_have_no_bytes<T: Ssz>()
    ensures
        list_enc::<T>(Seq::<T::V>::empty()) == Seq::<u8>::empty(),
{
    reveal_with_fuel(head_from, 1);
    reveal_with_fuel(tail_from, 1);
    assert(list_enc::<T>(Seq::<T::V>::empty()) =~= Seq::<u8>::empty());
}

/// Whether bit `j` of a byte is set.
pub open spec fn has_bit(b: u8, j: int) -> bool {
    if j == 0 {
        b % 2 == 1
    } else if j == 1 {
        (b / 2) % 2 == 1
    } else if j == 2 {
        (b / 4) % 2 == 1
    } else if j == 3 {
        (b / 8) % 2 == 1
    } else if j == 4 {
        (b / 16) % 2 == 1
    } else if j == 5 {
        (b / 32) % 2 == 1
    } else if j == 6 {
        (b / 64) % 2 == 1
    } else {
        b / 128 == 1
    }
}

/// Bit `i` of a bit list is bit `i % 8` of byte `i / 8`. One more set bit follows the last
/// one, and no further.
pub proof fn bits_are_packed(bits: Seq<bool>, i: int)
    requires
        0 <= i < 8 * bits_enc(bits).len(),
    ensures
        bits_enc(bits).len() == bits.len() / 8 + 1,
        has_bit(bits_enc(bits)[i / 8], i % 8) <==> i < bits.len() && bits[i] || i == bits.len(),
{
    lemma_enc_len(bits);
    lemma_enc_bit(bits, i);
    let b = bits_enc(bits)[i / 8];
    assert(byte_bit(b, i % 8) == has_bit(b, i % 8));
}

} // verus!
