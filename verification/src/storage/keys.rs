//! The keys of the tables.

use crate::ordered_map::ascending;
use crate::primitives::{
    be_bytes, be_value, from_be, from_le, le_bytes, le_value, lemma_be_bytes_len,
    lemma_be_bytes_of_value, lemma_be_bytes_ordered, lemma_be_value_of_bytes, lemma_le_bytes_len,
    lemma_le_bytes_of_value, lemma_le_value_of_bytes, lemma_lex_append, lemma_lex_irreflexive,
    lemma_lex_transitive, lemma_pow256_values, lex_lt, to_be, to_le, H256,
};
use vstd::prelude::*;
use vstd::slice::slice_subrange;

verus! {

/// A validator and the root of the attestation data that it signed.
pub type SignatureKey = (u64, H256);

/// The fields of the store that are kept as metadata.
#[derive(Clone, Copy, PartialEq, Eq, Debug, Structural)]
pub enum MetadataKey {
    /// The store's time, a `u64`.
    Time,
    /// The chain's configuration, a `ChainConfig`.
    Config,
    /// The root of the head block.
    Head,
    /// The root of the safe target block.
    SafeTarget,
    /// The latest justified checkpoint.
    LatestJustified,
    /// The latest finalized checkpoint.
    LatestFinalized,
}

/// The bytes of a metadata key: its name in ASCII.
pub open spec fn metadata_key(key: MetadataKey) -> Seq<u8> {
    match key {
        // "time"
        MetadataKey::Time => seq![0x74u8, 0x69, 0x6d, 0x65],
        // "config"
        MetadataKey::Config => seq![0x63u8, 0x6f, 0x6e, 0x66, 0x69, 0x67],
        // "head"
        MetadataKey::Head => seq![0x68u8, 0x65, 0x61, 0x64],
        // "safe_target"
        MetadataKey::SafeTarget => seq![
            0x73u8, 0x61, 0x66, 0x65, 0x5f, 0x74, 0x61, 0x72, 0x67, 0x65, 0x74,
        ],
        // "latest_justified"
        MetadataKey::LatestJustified => seq![
            0x6cu8, 0x61, 0x74, 0x65, 0x73, 0x74, 0x5f, 0x6a, 0x75, 0x73, 0x74, 0x69, 0x66, 0x69,
            0x65, 0x64,
        ],
        // "latest_finalized"
        MetadataKey::LatestFinalized => seq![
            0x6cu8, 0x61, 0x74, 0x65, 0x73, 0x74, 0x5f, 0x66, 0x69, 0x6e, 0x61, 0x6c, 0x69, 0x7a,
            0x65, 0x64,
        ],
    }
}

impl MetadataKey {
    /// The bytes of the key.
    pub fn bytes(&self) -> (r: Vec<u8>)
        ensures
            r@ == metadata_key(*self),
    {
        let r: Vec<u8> = match *self {
            MetadataKey::Time => vec![0x74u8, 0x69, 0x6d, 0x65],
            MetadataKey::Config => vec![0x63u8, 0x6f, 0x6e, 0x66, 0x69, 0x67],
            MetadataKey::Head => vec![0x68u8, 0x65, 0x61, 0x64],
            MetadataKey::SafeTarget => vec![
                0x73u8, 0x61, 0x66, 0x65, 0x5f, 0x74, 0x61, 0x72, 0x67, 0x65, 0x74,
            ],
            MetadataKey::LatestJustified => vec![
                0x6cu8, 0x61, 0x74, 0x65, 0x73, 0x74, 0x5f, 0x6a, 0x75, 0x73, 0x74, 0x69, 0x66,
                0x69, 0x65, 0x64,
            ],
            MetadataKey::LatestFinalized => vec![
                0x6cu8, 0x61, 0x74, 0x65, 0x73, 0x74, 0x5f, 0x66, 0x69, 0x6e, 0x61, 0x6c, 0x69,
                0x7a, 0x65, 0x64,
            ],
        };
        proof {
            assert(r@ =~= metadata_key(*self));
        }
        r
    }
}

/// Different metadata fields have different keys.
pub proof fn metadata_keys_differ(a: MetadataKey, b: MetadataKey)
    requires
        metadata_key(a) == metadata_key(b),
    ensures
        a == b,
{
    let x = metadata_key(a);
    let y = metadata_key(b);
    assert(x.len() == y.len());
    assert(x[0] == y[0]);
    if x.len() == 16 {
        assert(x[7] == y[7]);
    }
}

/// The bytes of a signature key: the validator in eight little-endian bytes, the root.
pub open spec fn signature_key(validator: u64, root: Seq<u8>) -> Seq<u8> {
    le_bytes(validator as nat, 8) + root
}

/// The bytes of a live chain key: the slot in eight big-endian bytes, the root.
pub open spec fn live_chain_key(slot: u64, root: Seq<u8>) -> Seq<u8> {
    be_bytes(slot as nat, 8) + root
}

/// The slot in a live chain key.
pub open spec fn live_slot(key: Seq<u8>) -> u64 {
    be_value(key.take(8)) as u64
}

/// The root in a live chain key.
pub open spec fn live_root(key: Seq<u8>) -> Seq<u8> {
    key.skip(8)
}

/// The validator in a signature key.
pub open spec fn signer(key: Seq<u8>) -> u64 {
    le_value(key.take(8)) as u64
}

/// The root in a signature key.
pub open spec fn signed_root(key: Seq<u8>) -> Seq<u8> {
    key.skip(8)
}

/// A signature key that is written is read as the same key.
pub proof fn signature_key_reads_back(validator: u64, root: Seq<u8>)
    ensures
        signature_key(validator, root).len() == 8 + root.len(),
        signer(signature_key(validator, root)) == validator,
        signed_root(signature_key(validator, root)) == root,
{
    let k = signature_key(validator, root);
    lemma_le_bytes_len(validator as nat, 8);
    lemma_pow256_values();
    lemma_le_value_of_bytes(validator as nat, 8);
    assert(k.take(8) =~= le_bytes(validator as nat, 8));
    assert(k.skip(8) =~= root);
}

/// Every key of the right size is the signature key of what is read from it.
pub proof fn signature_key_writes_back(key: Seq<u8>)
    requires
        key.len() == 40,
    ensures
        signature_key(signer(key), signed_root(key)) == key,
{
    lemma_le_bytes_of_value(key.take(8));
    lemma_pow256_values();
    assert(key =~= key.take(8) + key.skip(8));
}

/// A live chain key that is written is read as the same key.
pub proof fn live_chain_key_reads_back(slot: u64, root: Seq<u8>)
    ensures
        live_chain_key(slot, root).len() == 8 + root.len(),
        live_slot(live_chain_key(slot, root)) == slot,
        live_root(live_chain_key(slot, root)) == root,
{
    let k = live_chain_key(slot, root);
    lemma_be_bytes_len(slot as nat, 8);
    lemma_pow256_values();
    lemma_be_value_of_bytes(slot as nat, 8);
    assert(k.take(8) =~= be_bytes(slot as nat, 8));
    assert(k.skip(8) =~= root);
}

/// Every key of the right size is the live chain key of what is read from it.
pub proof fn live_chain_key_writes_back(key: Seq<u8>)
    requires
        key.len() == 40,
    ensures
        live_chain_key(live_slot(key), live_root(key)) == key,
{
    lemma_be_bytes_of_value(key.take(8));
    lemma_pow256_values();
    assert(key =~= key.take(8) + key.skip(8));
}

/// Live chain keys stand in the order of their slots.
pub proof fn live_chain_keys_are_ordered_by_slot(
    slot_a: u64,
    root_a: Seq<u8>,
    slot_b: u64,
    root_b: Seq<u8>,
)
    requires
        slot_a < slot_b,
    ensures
        lex_lt(live_chain_key(slot_a, root_a), live_chain_key(slot_b, root_b)),
{
    lemma_pow256_values();
    lemma_be_bytes_len(slot_a as nat, 8);
    lemma_be_bytes_len(slot_b as nat, 8);
    lemma_be_bytes_ordered(slot_a as nat, slot_b as nat, 8);
    lemma_lex_append(
        be_bytes(slot_a as nat, 8),
        be_bytes(slot_b as nat, 8),
        root_a,
        root_b,
    );
}

/// In ascending live chain keys no slot is below an earlier one.
pub proof fn lemma_slots_ascend(keys: Seq<Seq<u8>>, i: int, j: int)
    requires
        ascending(keys),
        0 <= i < j < keys.len(),
        keys[i].len() == 40,
        keys[j].len() == 40,
    ensures
        live_slot(keys[i]) <= live_slot(keys[j]),
{
    live_chain_key_writes_back(keys[i]);
    live_chain_key_writes_back(keys[j]);
    if live_slot(keys[j]) < live_slot(keys[i]) {
        live_chain_keys_are_ordered_by_slot(
            live_slot(keys[j]),
            live_root(keys[j]),
            live_slot(keys[i]),
            live_root(keys[i]),
        );
        assert(lex_lt(keys[i], keys[j]));
        lemma_lex_transitive(keys[i], keys[j], keys[i]);
        lemma_lex_irreflexive(keys[i]);
    }
}

/// Encodes a signature key.
pub fn encode_signature_key(key: &SignatureKey) -> (r: Vec<u8>)
    ensures
        r@ == signature_key(key.0, key.1@),
{
    let mut result: Vec<u8> = to_le(key.0, 8);
    result.extend_from_slice(key.1.as_slice());
    result
}

/// Decodes a signature key.
pub fn decode_signature_key(bytes: &[u8]) -> (r: SignatureKey)
    requires
        bytes@.len() == 40,
    ensures
        r.0 == signer(bytes@),
        r.1@ == signed_root(bytes@),
        signature_key(r.0, r.1@) == bytes@,
{
    let head = slice_subrange(bytes, 0, 8);
    let tail = slice_subrange(bytes, 8, 40);
    proof {
        signature_key_writes_back(bytes@);
        assert(head@ =~= bytes@.take(8));
        assert(tail@ =~= bytes@.skip(8));
        lemma_le_bytes_of_value(bytes@.take(8));
        lemma_pow256_values();
    }
    (from_le(head), H256::from_slice(tail))
}

/// Encodes a live chain key.
///
/// Big-endian slots make the order of the bytes the order of the slots.
pub fn encode_live_chain_key(slot: u64, root: &H256) -> (r: Vec<u8>)
    ensures
        r@ == live_chain_key(slot, root@),
{
    let mut result: Vec<u8> = to_be(slot);
    result.extend_from_slice(root.as_slice());
    result
}

/// Decodes a live chain key.
pub fn decode_live_chain_key(bytes: &[u8]) -> (r: (u64, H256))
    requires
        bytes@.len() == 40,
    ensures
        r.0 == live_slot(bytes@),
        r.1@ == live_root(bytes@),
        live_chain_key(r.0, r.1@) == bytes@,
{
    let head = slice_subrange(bytes, 0, 8);
    let tail = slice_subrange(bytes, 8, 40);
    proof {
        live_chain_key_writes_back(bytes@);
        assert(head@ =~= bytes@.take(8));
        assert(tail@ =~= bytes@.skip(8));
        lemma_be_bytes_of_value(bytes@.take(8));
        lemma_pow256_values();
    }
    (from_be(head), H256::from_slice(tail))
}

} // verus!
