//! Ordered maps, buffers, batches and keys.

use crate::bindings::sorting::by_descending_slot;
use crate::block::{empty_body, Block, BlockBody, BlockHeader, BlockSignatures, SignedBlock};
use crate::blockchain::server::block_views;
use crate::encoding::Ssz;
use crate::encoding::list::item_views;
use crate::hash_root::TreeHash;
use crate::laws::store::{is_end_of, lemma_payloads_filter, of_key, payload_part};
use crate::ordered_map::{lists, ByteKey, OrderedMap, OrderedSet};
use crate::primitives::{be_bytes, le_bytes, lemma_h256_of_view, lex_lt, H256};
use crate::storage::backend::{
    apply_ops, key_views, lemma_apply_push, pair_views, put_all, InMemoryBackend, StorageBackend,
    WriteBatch, WriteOpView,
};
use crate::storage::keys::{
    decode_live_chain_key, decode_signature_key, encode_live_chain_key, encode_signature_key,
    live_chain_key_reads_back, signature_key_reads_back, SignatureKey,
};
use crate::storage::model::{lemma_header_of, with_signed_block};
use crate::storage::payloads::{
    distinct_keys_are_the_keys, entry_views, PayloadBuffer, PayloadEntry, StoredAggregatedPayload,
};
use crate::storage::store::write_signed_block;
use crate::storage::tables::{Db, Entries, Table};
use std::cmp::Ordering;
use vstd::prelude::*;

verus! {

/// A map gives back what was inserted last under a key, until it is removed. Other keys are
/// not touched.
pub proof fn maps_keep_what_is_inserted<K: ByteKey, V: View>(
    map: &mut OrderedMap<K, V>,
    key: K,
    value: V,
    other: &[u8],
    r: Option<V>,
    k: Seq<u8>,
)
    ensures
        call_ensures(OrderedMap::<K, V>::insert, (map, key, value), ()) ==> {
            &&& final(map)@.dom().contains(key.key())
            &&& final(map)@[key.key()] == value@
            &&& k != key.key() ==> (final(map)@.dom().contains(k) <==> old(map)@.dom().contains(k))
                && (old(map)@.dom().contains(k) ==> final(map)@[k] == old(map)@[k])
        },
        call_ensures(OrderedMap::<K, V>::remove, (map, other), r) ==> {
            &&& !final(map)@.dom().contains(other@)
            &&& r is Some <==> old(map)@.dom().contains(other@)
            &&& r matches Some(v) ==> v@ == old(map)@[other@]
            &&& k != other@ ==> (final(map)@.dom().contains(k) <==> old(map)@.dom().contains(k))
                && (old(map)@.dom().contains(k) ==> final(map)@[k] == old(map)@[k])
        },
{
}

/// What a map has under a key is what is read.
pub proof fn maps_are_read<K: ByteKey, V: View>(
    map: OrderedMap<K, V>,
    empty: OrderedMap<K, V>,
    key: &[u8],
    r: Option<&V>,
    there: bool,
    n: usize,
)
    ensures
        call_ensures(OrderedMap::<K, V>::get, (&map, key), r) ==> (r is Some
            <==> map@.dom().contains(key@)) && (r matches Some(v) ==> v@ == map@[key@]),
        call_ensures(OrderedMap::<K, V>::contains, (&map, key), there) ==> (there
            <==> map@.dom().contains(key@)),
        call_ensures(OrderedMap::<K, V>::len, (&map,), n) ==> n == map@.dom().len(),
        call_ensures(OrderedMap::<K, V>::new, (), empty) ==> forall|k: Seq<u8>|
            !#[trigger] empty@.dom().contains(k),
{
}

/// The same of sets.
pub proof fn sets_keep_their_members<K: ByteKey>(
    set: &mut OrderedSet<K>,
    key: K,
    other: &[u8],
    k: Seq<u8>,
)
    ensures
        call_ensures(OrderedSet::<K>::insert, (set, key), ()) ==> (final(set)@.contains(k) <==> k
            == key.key() || old(set)@.contains(k)),
        call_ensures(OrderedSet::<K>::remove, (set, other), ()) ==> (final(set)@.contains(k)
            <==> k != other@ && old(set)@.contains(k)),
{
}

/// Members of a set are found.
pub proof fn sets_are_read<K: ByteKey>(
    set: OrderedSet<K>,
    empty: OrderedSet<K>,
    key: &[u8],
    there: bool,
    n: usize,
)
    ensures
        call_ensures(OrderedSet::<K>::contains, (&set, key), there) ==> (there <==> set@.contains(
            key@,
        )),
        call_ensures(OrderedSet::<K>::len, (&set,), n) ==> n == set@.len(),
        call_ensures(OrderedSet::<K>::new, (), empty) ==> forall|k: Seq<u8>|
            !#[trigger] empty@.contains(k),
{
}

/// A buffer keeps the newest entries that it has room for, hands all of them out once when it
/// is drained, and has room for at least one.
pub proof fn buffers_keep_the_newest(
    buffer: &mut PayloadBuffer,
    key: SignatureKey,
    payload: StoredAggregatedPayload,
    entries: Vec<PayloadEntry>,
    drained: Vec<PayloadEntry>,
    i: int,
)
    ensures
        call_ensures(PayloadBuffer::push, (buffer, key, payload), ()) ==> is_end_of(
            final(buffer)@,
            old(buffer)@.push((key, payload@)),
            old(buffer).room(),
        ) && final(buffer).room() == old(buffer).room(),
        call_ensures(PayloadBuffer::push_batch, (buffer, entries), ()) ==> is_end_of(
            final(buffer)@,
            old(buffer)@ + entries@.map_values(|e: PayloadEntry| (e.0, e.1@)),
            old(buffer).room(),
        ) && final(buffer).room() == old(buffer).room(),
        call_ensures(PayloadBuffer::drain, (buffer,), drained) ==> {
            &&& final(buffer)@.len() == 0
            &&& drained@.len() == old(buffer)@.len()
            &&& 0 <= i < drained@.len() ==> drained@[i].0 == old(buffer)@[i].0 && drained@[i].1@
                == old(buffer)@[i].1
        },
{
    assert(entries@.map_values(|e: PayloadEntry| (e.0, e.1@)) =~= entry_views(entries@));
    if call_ensures(PayloadBuffer::drain, (buffer,), drained) && 0 <= i < drained@.len() {
        assert(entry_views(drained@)[i] == (drained@[i].0, drained@[i].1@));
    }
}

/// A buffer is made with room for as many entries as asked, or one.
pub proof fn buffers_have_room(capacity: usize, buffer: PayloadBuffer)
    requires
        call_ensures(PayloadBuffer::new, (capacity,), buffer),
    ensures
        capacity > 0 ==> buffer.room() == capacity,
        capacity == 0 ==> buffer.room() == 1,
        buffer@.len() == 0,
{
}

/// What a buffer tells of its entries: their number, their slots, their keys and the payloads
/// of a key.
pub proof fn buffers_are_read(
    buffer: PayloadBuffer,
    key: SignatureKey,
    n: usize,
    slots: Vec<u64>,
    keys: Vec<SignatureKey>,
    payloads: Vec<StoredAggregatedPayload>,
    groups: Vec<(SignatureKey, Vec<StoredAggregatedPayload>)>,
    i: int,
)
    ensures
        call_ensures(PayloadBuffer::len, (&buffer,), n) ==> n == buffer@.len(),
        call_ensures(PayloadBuffer::slots, (&buffer,), slots) ==> slots@.len() == buffer@.len() && (
        0 <= i < slots@.len() ==> slots@[i] == buffer@[i].1.slot),
        call_ensures(PayloadBuffer::unique_keys, (&buffer,), keys) ==> keys@.no_duplicates() && (
        keys@.contains(key) <==> exists|k: int|
            0 <= k < buffer@.len() && (#[trigger] buffer@[k]).0 == key),
        call_ensures(PayloadBuffer::payloads, (&buffer, &key), payloads) ==> item_views(payloads@)
            == buffer@.filter(of_key(key)).map_values(payload_part()),
        call_ensures(PayloadBuffer::unique_keys, (&buffer,), keys) && call_ensures(
            PayloadBuffer::grouped,
            (&buffer,),
            groups,
        ) ==> groups@.len() == keys@.len() && (0 <= i < groups@.len() ==> groups@[i].0 == keys@[i]
            && item_views(groups@[i].1@) == buffer@.filter(of_key(keys@[i])).map_values(
            payload_part(),
        )),
{
    distinct_keys_are_the_keys(buffer@);
    lemma_payloads_filter(buffer@, key);
    let names = groups@.map_values(|g: (SignatureKey, Vec<StoredAggregatedPayload>)| g.0);
    assert(names.len() == groups@.len());
    if 0 <= i < groups@.len() {
        assert(names[i] == groups@[i].0);
        lemma_payloads_filter(buffer@, groups@[i].0);
    }
}

/// What a batch puts is there once it is written, unless a later change of the batch concerns
/// it; what it deletes is not. The rest stays.
pub proof fn batches_change_what_they_name(
    batch: &mut WriteBatch,
    table: Table,
    key: Vec<u8>,
    value: Vec<u8>,
    keys: Vec<Vec<u8>>,
    db: Db,
    t: Table,
    k: Seq<u8>,
)
    ensures
        call_ensures(WriteBatch::put, (batch, table, key, value), ()) ==> {
            let before = apply_ops(db, old(batch)@);
            let after = apply_ops(db, final(batch)@);
            &&& after[table].dom().contains(key@) && after[table][key@] == value@
            &&& t != table || k != key@ ==> (after[t].dom().contains(k)
                <==> before[t].dom().contains(k)) && (before[t].dom().contains(k) ==> after[t][k]
                == before[t][k])
        },
        call_ensures(WriteBatch::delete_batch, (batch, table, keys), ()) ==> {
            let before = apply_ops(db, old(batch)@);
            let after = apply_ops(db, final(batch)@);
            &&& key_views(keys@).contains(k) ==> !after[table].dom().contains(k)
            &&& t != table || !key_views(keys@).contains(k) ==> (after[t].dom().contains(k)
                <==> before[t].dom().contains(k)) && (before[t].dom().contains(k) ==> after[t][k]
                == before[t][k])
        },
        apply_ops(db, Seq::<WriteOpView>::empty()) == db,
{
    assert(key_views(keys@).to_set().contains(k) <==> key_views(keys@).contains(k));
}

/// Of several entries that are put at once the last one for a key stays.
pub proof fn batches_put_in_order(
    batch: &mut WriteBatch,
    table: Table,
    entries: Vec<(Vec<u8>, Vec<u8>)>,
    db: Db,
    i: int,
    t: Table,
    k: Seq<u8>,
)
    requires
        call_ensures(WriteBatch::put_batch, (batch, table, entries), ()),
    ensures
        ({
            let before = apply_ops(db, old(batch)@);
            let after = apply_ops(db, final(batch)@);
            &&& 0 <= i < entries@.len() && (forall|j: int|
                i < j < entries@.len() ==> (#[trigger] entries@[j]).0@ != entries@[i].0@)
                ==> after[table].dom().contains(entries@[i].0@) && after[table][entries@[i].0@]
                == entries@[i].1@
            &&& t != table || (forall|j: int|
                0 <= j < entries@.len() ==> (#[trigger] entries@[j]).0@ != k) ==> (
            after[t].dom().contains(k) <==> before[t].dom().contains(k)) && (
            before[t].dom().contains(k) ==> after[t][k] == before[t][k])
        }),
{
    let pairs = pair_views(entries@);
    lemma_apply_push(db, old(batch)@, WriteOpView::Put { table, entries: pairs });
    assert forall|j: int| 0 <= j < entries@.len() implies (#[trigger] pairs[j]) == (
        entries@[j].0@,
        entries@[j].1@,
    ) by {}
    lemma_put_all(apply_ops(db, old(batch)@)[table], pairs, i, k);
    if 0 <= i < entries@.len() && (forall|j: int|
        i < j < entries@.len() ==> (#[trigger] entries@[j]).0@ != entries@[i].0@) {
        assert forall|j: int| i < j < pairs.len() implies (#[trigger] pairs[j]).0 != pairs[i].0 by {
            assert(entries@[j].0@ != entries@[i].0@);
        }
    }
    if forall|j: int| 0 <= j < entries@.len() ==> (#[trigger] entries@[j]).0@ != k {
        assert forall|j: int| 0 <= j < pairs.len() implies (#[trigger] pairs[j]).0 != k by {
            assert(entries@[j].0@ != k);
        }
    }
}

proof fn lemma_put_all(m: Entries, entries: Seq<(Seq<u8>, Seq<u8>)>, i: int, k: Seq<u8>)
    ensures
        ({
            let after = put_all(m, entries);
            &&& 0 <= i < entries.len() && (forall|j: int|
                i < j < entries.len() ==> (#[trigger] entries[j]).0 != entries[i].0)
                ==> after.dom().contains(entries[i].0) && after[entries[i].0] == entries[i].1
            &&& (forall|j: int| 0 <= j < entries.len() ==> (#[trigger] entries[j]).0 != k) ==> (
            after.dom().contains(k) <==> m.dom().contains(k)) && (m.dom().contains(k) ==> after[k]
                == m[k])
        }),
    decreases entries.len(),
{
    if entries.len() > 0 {
        let rest = entries.drop_last();
        let last = entries.len() - 1;
        lemma_put_all(m, rest, i, k);
        if 0 <= i < last && (forall|j: int|
            i < j < entries.len() ==> (#[trigger] entries[j]).0 != entries[i].0) {
            assert(entries[last].0 != entries[i].0);
            assert forall|j: int| i < j < rest.len() implies (#[trigger] rest[j]).0
                != rest[i].0 by {
                assert(entries[j].0 != entries[i].0);
            }
        }
        if forall|j: int| 0 <= j < entries.len() ==> (#[trigger] entries[j]).0 != k {
            assert(entries[last].0 != k);
            assert forall|j: int| 0 <= j < rest.len() implies (#[trigger] rest[j]).0 != k by {
                assert(entries[j].0 != k);
            }
        }
    }
}

/// A backend has after a commit what the batch makes of what it had, and an entry of it is
/// read as it is.
pub proof fn backends_keep_what_is_committed<B: StorageBackend>(
    backend: &mut B,
    batch: WriteBatch,
)
    requires
        call_ensures(B::commit, (backend, batch), ()),
    ensures
        final(backend).db() == apply_ops(old(backend).db(), batch@),
{
}

/// Keys of signatures and of the live chain are made of their parts and read back.
pub proof fn keys_are_read_back(
    key: SignatureKey,
    slot: u64,
    root: H256,
    a: Vec<u8>,
    b: Vec<u8>,
    bytes: &[u8],
    c: SignatureKey,
    d: (u64, H256),
)
    ensures
        call_ensures(encode_signature_key, (&key,), a) ==> a@ == le_bytes(key.0 as nat, 8)
            + key.1@,
        call_ensures(encode_live_chain_key, (slot, &root), b) ==> b@ == be_bytes(slot as nat, 8)
            + root@,
        call_ensures(encode_signature_key, (&key,), a) && bytes@ == a@ && call_ensures(
            decode_signature_key,
            (bytes,),
            c,
        ) ==> c == key,
        call_ensures(encode_live_chain_key, (slot, &root), b) && bytes@ == b@ && call_ensures(
            decode_live_chain_key,
            (bytes,),
            d,
        ) ==> d == (slot, root),
{
    signature_key_reads_back(key.0, key.1@);
    live_chain_key_reads_back(slot, root@);
    lemma_h256_of_view(key.1);
    lemma_h256_of_view(root);
    lemma_h256_of_view(c.1);
    lemma_h256_of_view(d.1);
}

/// The entries of a map are listed in the order of their keys, each with its value.
pub proof fn maps_are_listed_in_order<K: ByteKey, V: View>(
    map: OrderedMap<K, V>,
    i: usize,
    j: usize,
    a: &K,
    b: &K,
    value: &V,
)
    requires
        map.wf(),
        i < j < map.keys().len(),
        call_ensures(OrderedMap::<K, V>::key_at, (&map, i), a),
        call_ensures(OrderedMap::<K, V>::key_at, (&map, j), b),
        call_ensures(OrderedMap::<K, V>::value_at, (&map, i), value),
    ensures
        map@.dom().contains(a.key()),
        map@[a.key()] == value@,
        lex_lt(a.key(), b.key()),
{
    map.lemma_lists();
    assert(lex_lt(map.keys()[i as int], map.keys()[j as int]));
}

/// Newer slots are sorted before older ones.
pub proof fn newer_slots_come_first(a: (Vec<u8>, u64), b: (Vec<u8>, u64), r: Ordering)
    requires
        call_ensures(by_descending_slot, (&a, &b), r),
    ensures
        r == Ordering::Less <==> a.1 > b.1,
        r == Ordering::Equal <==> a.1 == b.1,
        r == Ordering::Greater <==> a.1 < b.1,
{
}

/// Writing the parts of a signed block adds them to the batch, and hands the block back.
pub proof fn batches_take_signed_blocks(
    batch: &mut WriteBatch,
    root: H256,
    signed: SignedBlock,
    block: Block,
    db: Db,
    header: BlockHeader,
)
    requires
        call_ensures(write_signed_block, (batch, &root, signed), block),
        header.slot == signed@.message.slot,
        header.proposer_index == signed@.message.proposer_index,
        header.parent_root@ == signed@.message.parent_root,
        header.state_root@ == signed@.message.state_root,
    ensures
        block == signed.message,
        header.body_root@ == BlockBody::root(signed@.message.body) ==> ({
            let before = apply_ops(db, old(batch)@);
            let after = apply_ops(db, final(batch)@);
            &&& after[Table::BlockHeaders] == before[Table::BlockHeaders].insert(
                root@,
                BlockHeader::enc(header),
            )
            &&& after[Table::BlockSignatures] == before[Table::BlockSignatures].insert(
                root@,
                BlockSignatures::enc(signed@.signature),
            )
            &&& after[Table::BlockBodies] == if BlockBody::root(signed@.message.body)
                == BlockBody::root(empty_body()) {
                before[Table::BlockBodies]
            } else {
                before[Table::BlockBodies].insert(root@, BlockBody::enc(signed@.message.body))
            }
            &&& after[Table::States] == before[Table::States]
            &&& after[Table::LiveChain] == before[Table::LiveChain]
            &&& after[Table::Metadata] == before[Table::Metadata]
        }),
{
    if header.body_root@ == BlockBody::root(signed@.message.body) {
        lemma_header_of(header, signed@.message);
    }
    let before = apply_ops(db, old(batch)@);
    assert(apply_ops(db, final(batch)@) == with_signed_block(before, root@, signed@));
}

/// Lists are looked at item by item.
pub proof fn lists_are_looked_at_item_by_item<T: View>(items: Seq<T>, blocks: Seq<SignedBlock>, i: int)
    ensures
        item_views(items).len() == items.len(),
        0 <= i < items.len() ==> item_views(items)[i] == items[i]@,
        block_views(blocks).len() == blocks.len(),
        0 <= i < blocks.len() ==> block_views(blocks)[i] == blocks[i]@,
{
}

/// A backend reads each entry from its own table, counts them, and lists them by key.
pub proof fn backends_are_read<B: StorageBackend>(
    backend: B,
    table: Table,
    key: &[u8],
    r: Option<Vec<u8>>,
    n: usize,
    entries: Vec<(Vec<u8>, Vec<u8>)>,
    i: int,
    j: int,
)
    ensures
        call_ensures(B::get, (&backend, table, key), r) ==> (r is Some
            <==> backend.db()[table].dom().contains(key@)) && (r matches Some(v) ==> v@
            == backend.db()[table][key@]),
        call_ensures(B::count, (&backend, table), n) ==> n == backend.db()[table].dom().len(),
        call_ensures(B::entries, (&backend, table), entries) ==> {
            &&& 0 <= i < entries@.len() ==> backend.db()[table].dom().contains(entries@[i].0@)
                && backend.db()[table][entries@[i].0@] == entries@[i].1@
            &&& 0 <= i < j < entries@.len() ==> lex_lt(entries@[i].0@, entries@[j].0@)
            &&& backend.db()[table].dom().contains(key@) ==> exists|k: int|
                0 <= k < entries@.len() && (#[trigger] entries@[k]).0@ == key@
        },
{
    if call_ensures(B::entries, (&backend, table), entries) {
        let keys = entries@.map_values(|e: (Vec<u8>, Vec<u8>)| e.0@);
        let values = entries@.map_values(|e: (Vec<u8>, Vec<u8>)| e.1@);
        assert(lists(keys, values, backend.db()[table]));
        if 0 <= i < entries@.len() {
            assert(keys[i] == entries@[i].0@ && values[i] == entries@[i].1@);
        }
        if 0 <= i < j < entries@.len() {
            assert(keys[j] == entries@[j].0@);
            assert(lex_lt(keys[i], keys[j]));
        }
        if backend.db()[table].dom().contains(key@) {
            assert(keys.contains(key@));
            let k = choose|k: int| 0 <= k < keys.len() && keys[k] == key@;
            assert(entries@[k].0@ == key@);
        }
    }
}

/// A backend in memory starts empty.
pub proof fn memory_starts_empty(backend: InMemoryBackend, table: Table, key: Seq<u8>)
    requires
        call_ensures(InMemoryBackend::new, (), backend),
    ensures
        !backend.db()[table].dom().contains(key),
{
}

} // verus!
