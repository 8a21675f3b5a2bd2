//! What the operations of the store read and write.

use crate::attestation::{AttestationData, XmssSignature};
use crate::block::{
    empty_body, Block, BlockBody, BlockBodyView, BlockHeader, BlockSignatures, BlockSignaturesView,
    SignedBlock,
};
use crate::checkpoint::Checkpoint;
use crate::encoding::list::item_views;
use crate::encoding::{
    decode_inverts_encode, decoded, lemma_fixed_valid, read_gives_back_written, Ssz,
};
use crate::hash_root::TreeHash;
use crate::laws::layout::config_layout;
use crate::laws::storing::{
    anchors_hold_their_own_root, blocks_are_read_from_their_parts, blocks_are_stored_in_parts,
    checkpoints_are_written_under_their_names, final_votes_are_dropped,
    history_is_pruned_block_by_block, only_voters_have_a_latest_vote, processed_blocks_are_listed,
    the_latest_vote_counts, the_live_chain_lists_its_blocks, the_window_is_filled,
};
use crate::ordered_map::{OrderedMap, OrderedSet};
use crate::primitives::{be_bytes, h256, le_bytes, lemma_h256_of_view, zero_root, H256};
use crate::state::{ChainConfig, State, StateView};
use crate::storage::backend::StorageBackend;
use crate::storage::keys::{
    live_chain_key, live_chain_key_reads_back, metadata_key, metadata_keys_differ, signature_key,
    signature_key_reads_back, MetadataKey, SignatureKey,
};
use crate::storage::model::{
    expired_keys, header_at, headers_in, history_pruned, leaves, live_at, live_before, metadata,
    with_checkpoints, without_blocks, without_finalized, without_states,
};
use crate::storage::payloads::{
    distinct_keys, distinct_keys_are_the_keys, entry_views, payloads_of, PayloadEntry,
    PayloadEntryView, StoredAggregatedPayload, StoredAggregatedPayloadView, StoredSignature,
    StoredSignatureView,
};
use crate::storage::retention::{root_set, BLOCKS_TO_KEEP, STATES_TO_KEEP};
use crate::storage::store::{
    encoded_keys, listed_keys, with_attestation_data, ForkCheckpoints, Store,
};
use crate::storage::tables::{Db, Entries, Table};
use std::collections::HashMap;
use vstd::prelude::*;

verus! {

/// Whether nothing but one table changed.
pub open spec fn only_changed(before: Db, after: Db, table: Table) -> bool {
    forall|t: Table| t != table ==> #[trigger] after[t] == before[t]
}

/// Whether a table changed by one written entry.
pub open spec fn entry_written(
    before: Db,
    after: Db,
    table: Table,
    key: Seq<u8>,
    value: Seq<u8>,
) -> bool {
    &&& only_changed(before, after, table)
    &&& after[table].dom().contains(key)
    &&& after[table][key] == value
    &&& forall|k: Seq<u8>|
        k != key ==> (#[trigger] after[table].dom().contains(k) <==> before[table].dom().contains(
            k,
        ))
    &&& forall|k: Seq<u8>|
        k != key && before[table].dom().contains(k) ==> #[trigger] after[table][k]
            == before[table][k]
}

/// The metadata stand under their names.
pub proof fn metadata_have_names()
    ensures
        metadata_key(MetadataKey::Time) == "time"@.map_values(|c: char| c as u8),
        metadata_key(MetadataKey::Config) == "config"@.map_values(|c: char| c as u8),
        metadata_key(MetadataKey::Head) == "head"@.map_values(|c: char| c as u8),
        metadata_key(MetadataKey::SafeTarget) == "safe_target"@.map_values(|c: char| c as u8),
        metadata_key(MetadataKey::LatestJustified) == "latest_justified"@.map_values(
            |c: char| c as u8,
        ),
        metadata_key(MetadataKey::LatestFinalized) == "latest_finalized"@.map_values(
            |c: char| c as u8,
        ),
{
    reveal_strlit("time");
    reveal_strlit("config");
    reveal_strlit("head");
    reveal_strlit("safe_target");
    reveal_strlit("latest_justified");
    reveal_strlit("latest_finalized");
    assert(metadata_key(MetadataKey::Time) =~= "time"@.map_values(|c: char| c as u8));
    assert(metadata_key(MetadataKey::Config) =~= "config"@.map_values(|c: char| c as u8));
    assert(metadata_key(MetadataKey::Head) =~= "head"@.map_values(|c: char| c as u8));
    assert(metadata_key(MetadataKey::SafeTarget) =~= "safe_target"@.map_values(
        |c: char| c as u8,
    ));
    assert(metadata_key(MetadataKey::LatestJustified) =~= "latest_justified"@.map_values(
        |c: char| c as u8,
    ));
    assert(metadata_key(MetadataKey::LatestFinalized) =~= "latest_finalized"@.map_values(
        |c: char| c as u8,
    ));
}

/// Whether an entry of the metadata holds these bytes.
pub open spec fn holds(db: Db, key: MetadataKey, value: Seq<u8>) -> bool {
    db[Table::Metadata].dom().contains(metadata_key(key))
        && db[Table::Metadata][metadata_key(key)] == value
}

/// Each value of the metadata is read from its own entry.
pub proof fn metadata_are_read<B: StorageBackend>(
    store: Store<B>,
    time: u64,
    config: ChainConfig,
    root: H256,
    checkpoint: Checkpoint,
    a: u64,
    b: ChainConfig,
    c: H256,
    d: Checkpoint,
)
    ensures
        holds(store.db(), MetadataKey::Time, le_bytes(time as nat, 8)) && call_ensures(
            Store::<B>::time,
            (&store,),
            a,
        ) ==> a == time,
        holds(store.db(), MetadataKey::Config, ChainConfig::enc(config)) && call_ensures(
            Store::<B>::config,
            (&store,),
            b,
        ) ==> b == config,
        holds(store.db(), MetadataKey::Head, root@) && call_ensures(Store::<B>::head, (&store,), c)
            ==> c == root,
        holds(store.db(), MetadataKey::SafeTarget, root@) && call_ensures(
            Store::<B>::safe_target,
            (&store,),
            c,
        ) ==> c == root,
        holds(store.db(), MetadataKey::LatestJustified, Checkpoint::enc(checkpoint))
            && call_ensures(Store::<B>::latest_justified, (&store,), d) ==> d == checkpoint,
        holds(store.db(), MetadataKey::LatestFinalized, Checkpoint::enc(checkpoint))
            && call_ensures(Store::<B>::latest_finalized, (&store,), d) ==> d == checkpoint,
{
    read_gives_back_written::<u64>(time);
    assert(u64::enc(time) == le_bytes(time as nat, 8));
    lemma_fixed_valid::<ChainConfig>(config);
    read_gives_back_written::<ChainConfig>(config);
    read_gives_back_written::<H256>(root@);
    assert(H256::enc(root@) == root@);
    lemma_fixed_valid::<Checkpoint>(checkpoint);
    read_gives_back_written::<Checkpoint>(checkpoint);
    lemma_h256_of_view(c);
    lemma_h256_of_view(root);
}

/// The time and the safe target are written to their own entries, and nothing else changes.
pub proof fn metadata_are_written<B: StorageBackend>(
    store: &mut Store<B>,
    time: u64,
    root: H256,
)
    ensures
        call_ensures(Store::<B>::set_time, (store, time), ()) ==> entry_written(
            old(store).db(),
            final(store).db(),
            Table::Metadata,
            metadata_key(MetadataKey::Time),
            le_bytes(time as nat, 8),
        ),
        call_ensures(Store::<B>::set_safe_target, (store, root), ()) ==> entry_written(
            old(store).db(),
            final(store).db(),
            Table::Metadata,
            metadata_key(MetadataKey::SafeTarget),
            root@,
        ),
{
    assert(u64::enc(time) == le_bytes(time as nat, 8));
    assert(H256::enc(root@) == root@);
}

/// The slots of the head and of the safe target are those of their headers, and the head state
/// is the state stored for the head.
pub proof fn the_head_is_looked_up<B: StorageBackend>(
    store: Store<B>,
    root: H256,
    header: BlockHeader,
    state: StateView,
    slot: u64,
    r: State,
)
    ensures
        holds(store.db(), MetadataKey::Head, root@) && store.db()[
            Table::BlockHeaders
        ].dom().contains(root@) && store.db()[Table::BlockHeaders][root@] == BlockHeader::enc(
            header,
        ) && call_ensures(Store::<B>::head_slot, (&store,), slot) ==> slot == header.slot,
        holds(store.db(), MetadataKey::SafeTarget, root@) && store.db()[
            Table::BlockHeaders
        ].dom().contains(root@) && store.db()[Table::BlockHeaders][root@] == BlockHeader::enc(
            header,
        ) && call_ensures(Store::<B>::safe_target_slot, (&store,), slot) ==> slot == header.slot,
        holds(store.db(), MetadataKey::Head, root@) && State::valid(state)
            && store.db()[Table::States][root@] == State::enc(state) && call_ensures(
            Store::<B>::head_state,
            (&store,),
            r,
        ) ==> r@ == state,
{
    read_gives_back_written::<H256>(root@);
    assert(H256::enc(root@) == root@);
    lemma_fixed_valid::<BlockHeader>(header);
    read_gives_back_written::<BlockHeader>(header);
    if State::valid(state) {
        read_gives_back_written::<State>(state);
    }
}

/// Headers, states and attestation data are read from their own tables under their root, and
/// absent where there is no entry.
pub proof fn entries_are_read<B: StorageBackend>(
    store: Store<B>,
    root: H256,
    header: BlockHeader,
    state: StateView,
    data: AttestationData,
    a: Option<BlockHeader>,
    b: Option<State>,
    c: Option<AttestationData>,
    d: bool,
)
    ensures
        call_ensures(Store::<B>::get_block_header, (&store, &root), a) ==> (a is Some
            <==> store.db()[Table::BlockHeaders].dom().contains(root@)) && (store.db()[
            Table::BlockHeaders
        ].dom().contains(root@) && store.db()[Table::BlockHeaders][root@] == BlockHeader::enc(
            header,
        ) ==> a == Some(header)),
        call_ensures(Store::<B>::get_state, (&store, &root), b) ==> (b is Some <==> store.db()[
            Table::States
        ].dom().contains(root@)) && (b matches Some(x) ==> State::enc(x@)
            == store.db()[Table::States][root@]),
        call_ensures(Store::<B>::get_attestation_data_by_root, (&store, &root), c) ==> (c is Some
            <==> store.db()[Table::AttestationDataByRoot].dom().contains(root@)) && (
        c matches Some(x) ==> AttestationData::enc(x)
            == store.db()[Table::AttestationDataByRoot][root@]),
        call_ensures(Store::<B>::has_state, (&store, &root), d) ==> (d <==> store.db()[
            Table::States
        ].dom().contains(root@)),
{
    lemma_fixed_valid::<BlockHeader>(header);
    read_gives_back_written::<BlockHeader>(header);
    if call_ensures(Store::<B>::get_state, (&store, &root), b) {
        if let Some(x) = b {
            decode_inverts_encode::<State>(store.db()[Table::States][root@], x@);
        }
    }
    if call_ensures(Store::<B>::get_attestation_data_by_root, (&store, &root), c) {
        if let Some(x) = c {
            decode_inverts_encode::<AttestationData>(
                store.db()[Table::AttestationDataByRoot][root@],
                x,
            );
        }
    }
}

/// States and attestation data are written to their own tables under their root.
pub proof fn entries_are_written<B: StorageBackend>(
    store: &mut Store<B>,
    root: H256,
    state: State,
    data: AttestationData,
)
    ensures
        call_ensures(Store::<B>::insert_state, (store, root, state), ()) ==> entry_written(
            old(store).db(),
            final(store).db(),
            Table::States,
            root@,
            State::enc(state@),
        ),
        call_ensures(Store::<B>::insert_attestation_data_by_root, (store, root, data), ())
            ==> entry_written(
            old(store).db(),
            final(store).db(),
            Table::AttestationDataByRoot,
            root@,
            AttestationData::enc(data),
        ),
{
}

/// A batch of attestation data is written entry by entry: the last one for a root stays, and
/// other roots keep what they had.
pub proof fn attestation_data_are_written_in_order<B: StorageBackend>(
    store: &mut Store<B>,
    entries: Vec<(H256, AttestationData)>,
    i: int,
    root: H256,
)
    requires
        call_ensures(
            Store::<B>::insert_attestation_data_by_root_batch,
            (store, entries),
            (),
        ),
    ensures
        only_changed(old(store).db(), final(store).db(), Table::AttestationDataByRoot),
        0 <= i < entries@.len() && (forall|j: int|
            i < j < entries@.len() ==> (#[trigger] entries@[j]).0@ != entries@[i].0@) ==> final(
            store
        ).db()[Table::AttestationDataByRoot].dom().contains(entries@[i].0@) && final(store).db()[
            Table::AttestationDataByRoot
        ][entries@[i].0@] == AttestationData::enc(entries@[i].1),
        (forall|j: int| 0 <= j < entries@.len() ==> (#[trigger] entries@[j]).0@ != root@) ==> (
        final(store).db()[Table::AttestationDataByRoot].dom().contains(root@) <==> old(
            store
        ).db()[Table::AttestationDataByRoot].dom().contains(root@)) && (old(store).db()[
            Table::AttestationDataByRoot
        ].dom().contains(root@) ==> final(store).db()[Table::AttestationDataByRoot][root@] ==
            old(store).db()[Table::AttestationDataByRoot][root@]),
{
    lemma_batch(old(store).db(), entries@, i, root@);
}

proof fn lemma_batch(db: Db, entries: Seq<(H256, AttestationData)>, i: int, root: Seq<u8>)
    ensures
        ({
            let after = with_attestation_data(db, entries);
            let table = Table::AttestationDataByRoot;
            &&& only_changed(db, after, table)
            &&& 0 <= i < entries.len() && (forall|j: int|
                i < j < entries.len() ==> (#[trigger] entries[j]).0@ != entries[i].0@)
                ==> after[table].dom().contains(entries[i].0@) && after[table][entries[i].0@]
                == AttestationData::enc(entries[i].1)
            &&& (forall|j: int| 0 <= j < entries.len() ==> (#[trigger] entries[j]).0@ != root) ==> (
            after[table].dom().contains(root) <==> db[table].dom().contains(root)) && (
            db[table].dom().contains(root) ==> after[table][root] == db[table][root])
        }),
    decreases entries.len(),
{
    if entries.len() > 0 {
        let rest = entries.drop_last();
        let last = entries.len() - 1;
        lemma_batch(db, rest, i, root);
        if 0 <= i < last && (forall|j: int|
            i < j < entries.len() ==> (#[trigger] entries[j]).0@ != entries[i].0@) {
            assert(entries[last].0@ != entries[i].0@);
            assert forall|j: int| i < j < rest.len() implies (#[trigger] rest[j]).0@
                != rest[i].0@ by {
                assert(entries[j].0@ != entries[i].0@);
            }
        }
        if forall|j: int| 0 <= j < entries.len() ==> (#[trigger] entries[j]).0@ != root {
            assert(entries[last].0@ != root);
            assert forall|j: int| 0 <= j < rest.len() implies (#[trigger] rest[j]).0@ != root by {
                assert(entries[j].0@ != root);
            }
        }
    }
}

/// Storing a block, pending or processed, writes its header, its signatures and its body,
/// unless that has the root of the empty one, under its root. A processed block is listed in
/// the live chain as well, and a pending one is not.
pub proof fn blocks_are_written<B: StorageBackend>(
    store: &mut Store<B>,
    root: H256,
    signed: SignedBlock,
    header: BlockHeader,
    empty: BlockBodyView,
    table: Table,
    key: Seq<u8>,
)
    requires
        header.slot == signed@.message.slot,
        header.proposer_index == signed@.message.proposer_index,
        header.parent_root@ == signed@.message.parent_root,
        header.state_root@ == signed@.message.state_root,
        empty.attestations.len() == 0,
    ensures
        header.body_root@ == BlockBody::root(signed@.message.body) && (call_ensures(
            Store::<B>::insert_pending_block,
            (store, root, signed),
            (),
        ) || call_ensures(Store::<B>::insert_signed_block, (store, root, signed), ())) ==> {
            let before = old(store).db();
            let after = final(store).db();
            &&& after[Table::BlockHeaders].dom().contains(root@)
            &&& after[Table::BlockHeaders][root@] == BlockHeader::enc(header)
            &&& after[Table::BlockSignatures].dom().contains(root@)
            &&& after[Table::BlockSignatures][root@] == BlockSignatures::enc(signed@.signature)
            &&& BlockBody::root(signed@.message.body) != BlockBody::root(empty)
                ==> after[Table::BlockBodies].dom().contains(root@)
                && after[Table::BlockBodies][root@] == BlockBody::enc(signed@.message.body)
            &&& BlockBody::root(signed@.message.body) == BlockBody::root(empty)
                ==> after[Table::BlockBodies] == before[Table::BlockBodies]
            &&& !(table is LiveChain) && (key != root@ || !(table is BlockHeaders
                || table is BlockBodies || table is BlockSignatures)) ==> (
            after[table].dom().contains(key) <==> before[table].dom().contains(key)) && (
            before[table].dom().contains(key) ==> after[table][key] == before[table][key])
        },
        call_ensures(Store::<B>::insert_pending_block, (store, root, signed), ()) ==>
            final(store).db()[Table::LiveChain] == old(store).db()[Table::LiveChain],
        call_ensures(Store::<B>::insert_signed_block, (store, root, signed), ()) ==> {
            let entry = be_bytes(signed@.message.slot as nat, 8) + root@;
            let before = old(store).db()[Table::LiveChain];
            let after = final(store).db()[Table::LiveChain];
            &&& after.dom().contains(entry) && after[entry] == signed@.message.parent_root
            &&& key != entry ==> (after.dom().contains(key) <==> before.dom().contains(key)) && (
            before.dom().contains(key) ==> after[key] == before[key])
        },
{
    blocks_are_stored_in_parts(old(store).db(), root@, signed@, header, empty, table, key);
    processed_blocks_are_listed(old(store).db(), root@, signed@, table, key);
    processed_blocks_are_listed(
        old(store).db(),
        root@,
        signed@,
        Table::BlockHeaders,
        key,
    );
    processed_blocks_are_listed(old(store).db(), root@, signed@, Table::BlockBodies, key);
    processed_blocks_are_listed(
        old(store).db(),
        root@,
        signed@,
        Table::BlockSignatures,
        key,
    );
}

/// A block is read if its header and its signatures are stored, and its body unless the header
/// says that it is empty; it is then made of these.
pub proof fn blocks_are_read<B: StorageBackend>(
    store: Store<B>,
    root: H256,
    r: Option<SignedBlock>,
    header: BlockHeader,
    empty: BlockBodyView,
)
    requires
        call_ensures(Store::<B>::get_signed_block, (&store, &root), r),
        empty.attestations.len() == 0,
        store.db()[Table::BlockHeaders].dom().contains(root@) ==> store.db()[
            Table::BlockHeaders
        ][root@] == BlockHeader::enc(header),
    ensures
        r matches Some(block) ==> {
            &&& store.db()[Table::BlockHeaders].dom().contains(root@)
            &&& store.db()[Table::BlockSignatures].dom().contains(root@)
            &&& BlockSignatures::enc(block@.signature)
                == store.db()[Table::BlockSignatures][root@]
            &&& block@.message.slot == header.slot
            &&& block@.message.proposer_index == header.proposer_index
            &&& block@.message.parent_root == header.parent_root@
            &&& block@.message.state_root == header.state_root@
            &&& header.body_root@ == BlockBody::root(empty) ==> block@.message.body == empty
            &&& header.body_root@ != BlockBody::root(empty)
                ==> store.db()[Table::BlockBodies].dom().contains(root@) && BlockBody::enc(
                block@.message.body,
            ) == store.db()[Table::BlockBodies][root@]
        },
        !store.db()[Table::BlockHeaders].dom().contains(root@) ==> r is None,
        !store.db()[Table::BlockSignatures].dom().contains(root@) ==> r is None,
        store.db()[Table::BlockHeaders].dom().contains(root@) && !store.db()[
            Table::BlockBodies
        ].dom().contains(root@) && header.body_root@ != BlockBody::root(empty) ==> r is None,
{
    if let Some(block) = r {
        blocks_are_read_from_their_parts(
            store.db(),
            root@,
            block@,
            empty,
        );
        lemma_fixed_valid::<BlockHeader>(header);
        read_gives_back_written::<BlockHeader>(header);
        let h = header_at(store.db(), root@)->0;
        assert(h == header);
    }
}

/// A block all of whose parts are stored is read.
pub proof fn whole_blocks_are_read<B: StorageBackend>(
    store: Store<B>,
    root: H256,
    r: Option<SignedBlock>,
    header: BlockHeader,
    body: BlockBodyView,
    signatures: BlockSignaturesView,
)
    requires
        call_ensures(Store::<B>::get_signed_block, (&store, &root), r),
        BlockBody::valid(body),
        BlockSignatures::valid(signatures),
        store.db()[Table::BlockHeaders].dom().contains(root@),
        store.db()[Table::BlockHeaders][root@] == BlockHeader::enc(header),
        store.db()[Table::BlockSignatures].dom().contains(root@),
        store.db()[Table::BlockSignatures][root@] == BlockSignatures::enc(signatures),
        body.attestations.len() > 0 ==> store.db()[Table::BlockBodies].dom().contains(root@)
            && store.db()[Table::BlockBodies][root@] == BlockBody::enc(body),
    ensures
        header.body_root@ == BlockBody::root(body) && (body.attestations.len() > 0
            ==> BlockBody::root(body) != BlockBody::root(empty_body())) ==> (r matches Some(block)
            && block@.message.body == body && block@.signature == signatures && block@.message.slot
            == header.slot && block@.message.proposer_index == header.proposer_index
            && block@.message.parent_root == header.parent_root@ && block@.message.state_root
            == header.state_root@),
{
    lemma_fixed_valid::<BlockHeader>(header);
    read_gives_back_written::<BlockHeader>(header);
    read_gives_back_written::<BlockBody>(body);
    read_gives_back_written::<BlockSignatures>(signatures);
    if body.attestations.len() == 0 {
        assert(body.attestations =~= empty_body().attestations);
        assert(body == empty_body());
    }
}

/// A store that starts from a state has one block: the latest header of the state, with the
/// root of the state in it. It is the head, the safe target, justified and finalized, is
/// listed in the live chain, and its state is stored with that header. The clock is at zero.
pub proof fn a_store_starts_from_its_anchor<B: StorageBackend>(
    backend: B,
    state: State,
    blank: StateView,
    zero: H256,
    root: H256,
    store: Store<B>,
    body: Option<BlockBodyView>,
    table: Table,
    key: Seq<u8>,
)
    requires
        zero@ == zero_root(),
        blank == (StateView {
            latest_block_header: BlockHeader { state_root: zero, ..state@.latest_block_header },
            ..state@
        }),
        store.starts_at(backend.db(), state@, body),
    ensures
        ({
            let header = BlockHeader {
                state_root: h256(State::root(blank)),
                ..state@.latest_block_header
            };
            let stored = StateView { latest_block_header: header, ..state@ };
            let db = store.db();
            let checkpoint = Checkpoint { root, slot: header.slot };
            root@ == BlockHeader::root(header) ==> {
                &&& holds(db, MetadataKey::Time, le_bytes(0, 8))
                &&& holds(db, MetadataKey::Config, le_bytes(state@.config.genesis_time as nat, 8))
                &&& holds(db, MetadataKey::Head, root@)
                &&& holds(db, MetadataKey::SafeTarget, root@)
                &&& holds(db, MetadataKey::LatestJustified, Checkpoint::enc(checkpoint))
                &&& holds(db, MetadataKey::LatestFinalized, Checkpoint::enc(checkpoint))
                &&& db[Table::BlockHeaders].dom().contains(root@)
                &&& db[Table::BlockHeaders][root@] == BlockHeader::enc(header)
                &&& db[Table::States].dom().contains(root@)
                &&& db[Table::States][root@] == State::enc(stored)
                &&& db[Table::LiveChain].dom().contains(
                    be_bytes(header.slot as nat, 8) + root@,
                )
                &&& db[Table::LiveChain][be_bytes(header.slot as nat, 8) + root@]
                    == header.parent_root@
                &&& body matches Some(b) ==> db[Table::BlockBodies].dom().contains(root@)
                    && db[Table::BlockBodies][root@] == BlockBody::enc(b)
                &&& body is None ==> db[Table::BlockBodies] == backend.db()[Table::BlockBodies]
                &&& !(table is Metadata) && key != root@ && key != be_bytes(header.slot as nat, 8)
                    + root@ ==> (db[table].dom().contains(key) <==> backend.db()[
                    table
                ].dom().contains(key)) && (db[table].dom().contains(key) ==> db[table][key]
                    == backend.db()[table][key])
            }
        }),
        store.new_entries().len() == 0,
        store.known_entries().len() == 0,
{
    anchors_hold_their_own_root(state@, blank, zero);
    lemma_names_differ();
    let header = BlockHeader { state_root: h256(State::root(blank)), ..state@.latest_block_header };
    lemma_h256_of_view(root);
    assert(u64::enc(0) == le_bytes(0, 8));
    config_layout(state@.config);
    assert(H256::enc(root@) == root@);
}

proof fn lemma_names_differ()
    ensures
        forall|a: MetadataKey, b: MetadataKey| #[trigger]
            metadata_key(a) == #[trigger] metadata_key(b) ==> a == b,
{
    assert forall|a: MetadataKey, b: MetadataKey| #[trigger]
        metadata_key(a) == #[trigger] metadata_key(b) implies a == b by {
        metadata_keys_differ(a, b);
    }
}

/// A state is accepted as an anchor if the state root in its header is missing or its own, and
/// with a block if that also agrees with the header in all but the state root. What is refused
/// is handed back.
pub proof fn anchors_are_checked<B: StorageBackend>(
    backend: B,
    state: State,
    block: Block,
    blank: StateView,
    zero: H256,
    a: Result<Store<B>, (B, State)>,
    b: Result<Store<B>, (B, State, Block)>,
    c: Store<B>,
)
    requires
        zero@ == zero_root(),
        blank == (StateView {
            latest_block_header: BlockHeader { state_root: zero, ..state@.latest_block_header },
            ..state@
        }),
    ensures
        ({
            let header = state@.latest_block_header;
            let own = header.state_root@ == zero@ || header.state_root@ == State::root(blank);
            let same = header.slot == block@.slot && header.proposer_index == block@.proposer_index
                && header.parent_root@ == block@.parent_root && header.body_root@
                == BlockBody::root(block@.body);
            &&& call_ensures(Store::<B>::try_from_anchor_state, (backend, state), a) ==> (a is Ok
                <==> own) && (a matches Ok(store) ==> store.starts_at(
                backend.db(),
                state@,
                None,
            )) && (a matches Err((x, s)) ==> x == backend && s@ == state@)
            &&& call_ensures(Store::<B>::try_get_forkchoice_store, (backend, state, block), b) ==> (
            b is Ok <==> own && same) && (b matches Ok(store) ==> store.starts_at(
                backend.db(),
                state@,
                Some(block@.body),
            )) && (b matches Err((x, s, k)) ==> x == backend && s@ == state@ && k == block)
            &&& call_ensures(Store::<B>::from_anchor_state, (backend, state), c) ==> c.starts_at(
                backend.db(),
                state@,
                None,
            )
            &&& call_ensures(Store::<B>::get_forkchoice_store, (backend, state, block), c)
                ==> c.starts_at(backend.db(), state@, Some(block@.body))
        }),
{
    anchors_hold_their_own_root(state@, blank, zero);
}

/// A store that is opened has what its backend has, and empty buffers.
pub proof fn opened_stores_hold_what_is_there<B: StorageBackend>(backend: B, store: Store<B>)
    requires
        call_ensures(Store::<B>::open, (backend,), store),
    ensures
        store.db() == backend.db(),
        store.new_entries().len() == 0,
        store.known_entries().len() == 0,
        store.gossip_count() == store.db()[Table::GossipSignatures].dom().len(),
{
}

/// Pruning the live chain drops the entries before the finalized slot and no others, and
/// counts them.
pub proof fn the_live_chain_is_pruned<B: StorageBackend>(
    store: &mut Store<B>,
    finalized: u64,
    r: usize,
    slot: u64,
    root: Seq<u8>,
)
    requires
        call_ensures(Store::<B>::prune_live_chain, (store, finalized), r),
    ensures
        ({
            let before = old(store).db()[Table::LiveChain];
            let after = final(store).db()[Table::LiveChain];
            let key = be_bytes(slot as nat, 8) + root;
            &&& slot < finalized ==> !after.dom().contains(key)
            &&& slot >= finalized ==> (after.dom().contains(key) <==> before.dom().contains(key))
            &&& after.dom().contains(key) ==> after[key] == before[key]
            &&& before.dom().finite() ==> r == before.dom().len() - after.dom().len()
        }),
        only_changed(old(store).db(), final(store).db(), Table::LiveChain),
{
    live_chain_key_reads_back(slot, root);
    assert(live_chain_key(slot, root) == be_bytes(slot as nat, 8) + root);
    let before = old(store).db()[Table::LiveChain];
    let after = final(store).db()[Table::LiveChain];
    if before.dom().finite() {
        lemma_counted(before, live_before(before, finalized));
    }
}

proof fn lemma_counted(entries: Entries, gone: Set<Seq<u8>>)
    requires
        entries.dom().finite(),
        gone.subset_of(entries.dom()),
    ensures
        gone.len() == entries.dom().len() - entries.remove_keys(gone).dom().len(),
{
    let left = entries.remove_keys(gone).dom();
    assert(left =~= entries.dom().difference(gone));
    vstd::set_lib::lemma_len_subset(gone, entries.dom());
    vstd::set_lib::lemma_set_disjoint_lens(left, gone);
    assert(left + gone =~= entries.dom());
}

/// Pruning gossip signatures drops those of the finalized slot and earlier ones, keeps later
/// ones, and counts what it dropped.
pub proof fn old_signatures_are_pruned<B: StorageBackend>(
    store: &mut Store<B>,
    finalized: u64,
    r: usize,
    key: Seq<u8>,
    signature: StoredSignatureView,
)
    requires
        call_ensures(Store::<B>::prune_gossip_signatures, (store, finalized), r),
        StoredSignature::valid(signature),
    ensures
        ({
            let before = old(store).db()[Table::GossipSignatures];
            let after = final(store).db()[Table::GossipSignatures];
            &&& before.dom().contains(key) && before[key] == StoredSignature::enc(signature) ==> (
            after.dom().contains(key) <==> signature.slot > finalized)
            &&& after.dom().contains(key) ==> before.dom().contains(key) && after[key]
                == before[key]
            &&& before.dom().finite() ==> r == before.dom().len() - after.dom().len()
            &&& before.dom().finite() && old(store).gossip_count() == before.dom().len() ==>
                final(store).gossip_count() == after.dom().len()
        }),
        only_changed(old(store).db(), final(store).db(), Table::GossipSignatures),
{
    read_gives_back_written::<StoredSignature>(signature);
    let before = old(store).db()[Table::GossipSignatures];
    if before.dom().finite() {
        lemma_counted(before, expired_keys::<StoredSignature>(before, finalized));
    }
}

/// Pruning attestation data drops those of the finalized slot and earlier ones and keeps later
/// ones.
pub proof fn old_attestation_data_are_pruned<B: StorageBackend>(
    store: &mut Store<B>,
    finalized: u64,
    r: usize,
    key: Seq<u8>,
    data: AttestationData,
)
    requires
        call_ensures(Store::<B>::prune_attestation_data_by_root, (store, finalized), r),
    ensures
        ({
            let before = old(store).db()[Table::AttestationDataByRoot];
            let after = final(store).db()[Table::AttestationDataByRoot];
            &&& before.dom().contains(key) && before[key] == AttestationData::enc(data) ==> (
            after.dom().contains(key) <==> data.slot > finalized)
            &&& after.dom().contains(key) ==> before.dom().contains(key) && after[key]
                == before[key]
            &&& before.dom().finite() ==> r == before.dom().len() - after.dom().len()
        }),
        only_changed(old(store).db(), final(store).db(), Table::AttestationDataByRoot),
{
    lemma_data_read(data);
    let before = old(store).db()[Table::AttestationDataByRoot];
    if before.dom().finite() {
        lemma_counted(before, expired_keys::<AttestationData>(before, finalized));
    }
}

proof fn lemma_data_read(data: AttestationData)
    ensures
        decoded::<AttestationData>(AttestationData::enc(data)) == Some(data),
{
    lemma_fixed_valid::<Checkpoint>(data.head);
    lemma_fixed_valid::<Checkpoint>(data.target);
    lemma_fixed_valid::<Checkpoint>(data.source);
    lemma_fixed_valid::<AttestationData>(data);
    read_gives_back_written::<AttestationData>(data);
}

/// Old blocks are pruned from all their tables at once. The newest 21600 stay, and so do
/// protected ones.
pub proof fn old_blocks_are_pruned<B: StorageBackend>(
    store: &mut Store<B>,
    protected: &[H256],
    r: usize,
    key: Seq<u8>,
    table: Table,
    i: int,
)
    requires
        call_ensures(Store::<B>::prune_old_blocks, (store, protected), r),
        old(store).db()[Table::BlockHeaders].dom().finite(),
    ensures
        ({
            let before = old(store).db();
            let after = final(store).db();
            let headers = before[Table::BlockHeaders];
            &&& headers.dom().len() <= 21_600 ==> after[table] == before[table] && r == 0
            &&& headers.dom().len() > 21_600 ==> exists|window: Set<Seq<u8>>|
                {
                    &&& window.len() == 21_600 && window.subset_of(headers.dom())
                    &&& #[trigger] is_newest(headers, window)
                    &&& headers.dom().contains(key) ==> (after[
                        Table::BlockHeaders
                    ].dom().contains(key) <==> window.contains(key) || root_set(
                        protected@,
                    ).contains(key))
                }
            &&& 0 <= i < protected@.len() && before[table].dom().contains(protected@[i]@)
                ==> after[table].dom().contains(protected@[i]@)
            &&& headers.dom().contains(key) && !after[Table::BlockHeaders].dom().contains(key)
                ==> !after[Table::BlockBodies].dom().contains(key)
                && !after[Table::BlockSignatures].dom().contains(key)
            &&& !headers.dom().contains(key) || after[Table::BlockHeaders].dom().contains(key) ==> (
            after[table].dom().contains(key) <==> before[table].dom().contains(key))
            &&& after[table].dom().contains(key) ==> after[table][key] == before[table][key]
            &&& !(table is BlockHeaders || table is BlockBodies || table is BlockSignatures)
                ==> after[table] == before[table]
            &&& r == headers.dom().len() - after[Table::BlockHeaders].dom().len()
        }),
{
    let before = old(store).db();
    let after = final(store).db();
    let headers = before[Table::BlockHeaders];
    let gone = choose|gone: Set<Seq<u8>>| #[trigger]
        leaves(headers, BLOCKS_TO_KEEP as nat, root_set(protected@), gone) && gone.finite() && r
            == gone.len() && after == without_blocks(before, gone);
    the_window_is_filled(headers, 21_600, root_set(protected@), gone);
    lemma_counted(headers, gone);
    if headers.dom().len() <= 21_600 {
        assert(gone =~= Set::<Seq<u8>>::empty());
        assert(before[Table::BlockHeaders].remove_keys(gone) =~= before[Table::BlockHeaders]);
        assert(before[Table::BlockBodies].remove_keys(gone) =~= before[Table::BlockBodies]);
        assert(before[Table::BlockSignatures].remove_keys(gone)
            =~= before[Table::BlockSignatures]);
    } else {
        let window = lemma_window(headers, 21_600, root_set(protected@), gone);
        assert(is_newest(headers, window));
        if headers.dom().contains(key) {
            assert(gone.contains(key) <==> !window.contains(key) && !root_set(
                protected@,
            ).contains(key));
        }
    }
    if 0 <= i < protected@.len() {
        assert(root_set(protected@).contains(protected@[i]@));
    }
}

/// Whether no header beside a window is newer than one in it.
pub open spec fn is_newest(headers: Entries, window: Set<Seq<u8>>) -> bool {
    forall|a: Seq<u8>, b: Seq<u8>|
        window.contains(a) && headers.dom().contains(b) && !window.contains(b)
            ==> #[trigger] decoded::<BlockHeader>(headers[a])->0.slot
            >= #[trigger] decoded::<BlockHeader>(headers[b])->0.slot
}

proof fn lemma_window(
    headers: Entries,
    keep: nat,
    protected: Set<Seq<u8>>,
    gone: Set<Seq<u8>>,
) -> (window: Set<Seq<u8>>)
    requires
        leaves(headers, keep, protected, gone),
        headers.dom().finite(),
        headers.dom().len() > keep,
    ensures
        window.len() == keep,
        window.subset_of(headers.dom()),
        is_newest(headers, window),
        forall|k: Seq<u8>|
            headers.dom().contains(k) ==> (#[trigger] gone.contains(k) <==> !window.contains(k)
                && !protected.contains(k)),
{
    the_window_is_filled(headers, keep, protected, gone);
    let window = choose|window: Set<Seq<u8>>|
        window.len() == keep && window.subset_of(headers.dom()) && #[trigger] gone.disjoint(window)
            && (forall|k: Seq<u8>|
            headers.dom().contains(k) && !window.contains(k) && !protected.contains(k)
                ==> #[trigger] gone.contains(k)) && (forall|a: Seq<u8>, b: Seq<u8>|
            window.contains(a) && headers.dom().contains(b) && !window.contains(b)
                ==> #[trigger] decoded::<BlockHeader>(headers[a])->0.slot
                >= #[trigger] decoded::<BlockHeader>(headers[b])->0.slot);
    assert forall|k: Seq<u8>| headers.dom().contains(k) implies (#[trigger] gone.contains(k)
        <==> !window.contains(k) && !protected.contains(k)) by {
        assert(gone.disjoint(window));
        assert(gone.disjoint(protected));
    }
    window
}

/// Old states are pruned like old blocks: of the blocks with a header and a state, the newest
/// 900 keep their state, and so do protected ones and those without a header.
pub proof fn old_states_are_pruned<B: StorageBackend>(
    store: &mut Store<B>,
    protected: &[H256],
    r: usize,
    key: Seq<u8>,
    i: int,
)
    requires
        call_ensures(Store::<B>::prune_old_states, (store, protected), r),
        old(store).db()[Table::BlockHeaders].dom().finite(),
        old(store).db()[Table::States].dom().finite(),
    ensures
        ({
            let before = old(store).db();
            let states = before[Table::States];
            let after = final(store).db()[Table::States];
            let both = before[Table::BlockHeaders].dom().intersect(states.dom());
            &&& both.len() <= 900 ==> after == states && r == 0
            &&& both.len() > 900 ==> exists|window: Set<Seq<u8>>|
                {
                    &&& window.len() == 900 && window.subset_of(both)
                    &&& #[trigger] is_newest(headers_in(before, Table::States), window)
                    &&& both.contains(key) ==> (after.dom().contains(key) <==> window.contains(key)
                        || root_set(protected@).contains(key))
                }
            &&& 0 <= i < protected@.len() && states.dom().contains(protected@[i]@)
                ==> after.dom().contains(protected@[i]@)
            &&& !both.contains(key) ==> (after.dom().contains(key) <==> states.dom().contains(key))
            &&& after.dom().contains(key) ==> after[key] == states[key]
            &&& r == states.dom().len() - after.dom().len()
        }),
        only_changed(old(store).db(), final(store).db(), Table::States),
{
    let before = old(store).db();
    let states = before[Table::States];
    let headers = headers_in(before, Table::States);
    let both = before[Table::BlockHeaders].dom().intersect(states.dom());
    assert(headers.dom() =~= both);
    let gone = choose|gone: Set<Seq<u8>>| #[trigger]
        leaves(headers, STATES_TO_KEEP as nat, root_set(protected@), gone) && gone.finite()
            && gone.subset_of(states.dom()) && r == gone.len() && final(store).db()
            == without_states(before, gone);
    the_window_is_filled(headers, 900, root_set(protected@), gone);
    lemma_counted(states, gone);
    if both.len() <= 900 {
        assert(gone =~= Set::<Seq<u8>>::empty());
        assert(states.remove_keys(gone) =~= states);
    } else {
        let window = lemma_window(headers, 900, root_set(protected@), gone);
        assert(is_newest(headers, window));
        if both.contains(key) {
            assert(gone.contains(key) <==> !window.contains(key) && !root_set(
                protected@,
            ).contains(key));
        }
    }
    if 0 <= i < protected@.len() {
        assert(root_set(protected@).contains(protected@[i]@));
    }
}

/// Updating the checkpoints writes the new head and the given checkpoints. Where the finalized
/// slot goes forward, the live chain starts there, and votes up to it are dropped; otherwise
/// both stay. The blocks and states of the finalized and the justified checkpoint are never
/// dropped, nor is anything while there are at most 900 blocks.
pub proof fn checkpoints_are_updated<B: StorageBackend>(
    store: &mut Store<B>,
    checkpoints: ForkCheckpoints,
    old_finalized: Checkpoint,
    old_justified: Checkpoint,
    finalized: Checkpoint,
    justified: Checkpoint,
    signature: StoredSignatureView,
    data: AttestationData,
    key: Seq<u8>,
    slot: u64,
    table: Table,
)
    requires
        call_ensures(Store::<B>::update_checkpoints, (store, checkpoints), ()),
        holds(old(store).db(), MetadataKey::LatestFinalized, Checkpoint::enc(old_finalized)),
        holds(old(store).db(), MetadataKey::LatestJustified, Checkpoint::enc(old_justified)),
        finalized == match checkpoints.finalized {
            Some(c) => c,
            None => old_finalized,
        },
        justified == match checkpoints.justified {
            Some(c) => c,
            None => old_justified,
        },
        old(store).db()[Table::BlockHeaders].dom().finite(),
        StoredSignature::valid(signature),
    ensures
        ({
            let before = old(store).db();
            let after = final(store).db();
            let entry = be_bytes(slot as nat, 8) + key;
            &&& metadata::<H256>(after, MetadataKey::Head) == Some(checkpoints.head@)
            &&& metadata::<Checkpoint>(after, MetadataKey::LatestFinalized) == Some(finalized)
            &&& metadata::<Checkpoint>(after, MetadataKey::LatestJustified) == Some(justified)
            &&& metadata::<u64>(after, MetadataKey::Time) == metadata::<u64>(
                before,
                MetadataKey::Time,
            )
            &&& metadata::<ChainConfig>(after, MetadataKey::Config) == metadata::<ChainConfig>(
                before,
                MetadataKey::Config,
            )
            &&& metadata::<H256>(after, MetadataKey::SafeTarget) == metadata::<H256>(
                before,
                MetadataKey::SafeTarget,
            )
            &&& finalized.slot <= old_finalized.slot ==> after[Table::LiveChain]
                == before[Table::LiveChain] && after[Table::GossipSignatures]
                == before[Table::GossipSignatures] && after[Table::AttestationDataByRoot]
                == before[Table::AttestationDataByRoot]
            &&& finalized.slot > old_finalized.slot ==> {
                &&& slot < finalized.slot ==> !after[Table::LiveChain].dom().contains(entry)
                &&& slot >= finalized.slot ==> (after[Table::LiveChain].dom().contains(entry)
                    <==> before[Table::LiveChain].dom().contains(entry))
                &&& before[Table::GossipSignatures].dom().contains(key)
                    && before[Table::GossipSignatures][key] == StoredSignature::enc(signature) ==> (
                after[Table::GossipSignatures].dom().contains(key) <==> signature.slot
                    > finalized.slot)
                &&& before[Table::AttestationDataByRoot].dom().contains(key)
                    && before[Table::AttestationDataByRoot][key] == AttestationData::enc(data) ==> (
                after[Table::AttestationDataByRoot].dom().contains(key) <==> data.slot
                    > finalized.slot)
            }
            &&& before[Table::GossipSignatures].dom().finite() && old(store).gossip_count()
                == before[Table::GossipSignatures].dom().len() ==> final(store).gossip_count()
                == after[Table::GossipSignatures].dom().len()
            &&& table is BlockHeaders || table is BlockBodies || table is BlockSignatures
                || table is States ==> {
                &&& key == finalized.root@ || key == justified.root@ ==> (
                after[table].dom().contains(key) <==> before[table].dom().contains(key))
                &&& before[Table::BlockHeaders].dom().len() <= 900 ==> (
                after[table].dom().contains(key) <==> before[table].dom().contains(key))
                &&& after[table].dom().contains(key) ==> before[table].dom().contains(key)
                    && after[table][key] == before[table][key]
            }
        }),
{
    let before = old(store).db();
    let after = final(store).db();
    lemma_fixed_valid::<Checkpoint>(old_finalized);
    read_gives_back_written::<Checkpoint>(old_finalized);
    lemma_fixed_valid::<Checkpoint>(old_justified);
    read_gives_back_written::<Checkpoint>(old_justified);
    let written = with_checkpoints(
        before,
        checkpoints.head@,
        checkpoints.justified,
        checkpoints.finalized,
    );
    checkpoints_are_written_under_their_names(
        before,
        checkpoints.head@,
        checkpoints.justified,
        checkpoints.finalized,
        MetadataKey::Head,
    );
    let middle = if finalized.slot > old_finalized.slot {
        without_finalized(written, finalized.slot)
    } else {
        written
    };
    let protected = root_set(seq![finalized.root, justified.root]);
    assert(seq![finalized.root, justified.root][0]@ == finalized.root@);
    assert(seq![finalized.root, justified.root][1]@ == justified.root@);
    assert(protected.contains(finalized.root@) && protected.contains(justified.root@));
    assert(written[Table::BlockHeaders] == before[Table::BlockHeaders]);
    assert(middle[Table::BlockHeaders] == before[Table::BlockHeaders]);
    assert(history_pruned(middle, after, protected));
    history_is_pruned_block_by_block(middle, after, protected, key, table);
    history_is_pruned_block_by_block(middle, after, protected, key, Table::Metadata);
    history_is_pruned_block_by_block(middle, after, protected, key, Table::LiveChain);
    history_is_pruned_block_by_block(middle, after, protected, key, Table::GossipSignatures);
    history_is_pruned_block_by_block(
        middle,
        after,
        protected,
        key,
        Table::AttestationDataByRoot,
    );
    assert(after[Table::Metadata] == written[Table::Metadata]);
    live_chain_key_reads_back(slot, key);
    assert(live_chain_key(slot, key) == be_bytes(slot as nat, 8) + key);
    final_votes_are_dropped(written, finalized.slot, key, signature, data, table);
}

/// Whether the live chain has an entry for a slot and a root: the slot, highest byte first,
/// and then the root.
pub open spec fn is_listed(index: Entries, slot: u64, root: Seq<u8>) -> bool {
    index.dom().contains(be_bytes(slot as nat, 8) + root)
}

/// The live chain is listed by root, each with its latest slot and its parent there.
pub proof fn the_live_chain_is_listed<B: StorageBackend>(
    store: Store<B>,
    chain: OrderedMap<H256, (u64, H256)>,
    root: Seq<u8>,
    slot: u64,
)
    requires
        root.len() == 32,
    ensures
        call_ensures(Store::<B>::get_live_chain, (&store,), chain) ==> {
            let index = store.db()[Table::LiveChain];
            &&& index.dom().contains(be_bytes(slot as nat, 8) + root) ==> chain@.dom().contains(
                root,
            ) && chain@[root].0 >= slot
            &&& chain@.dom().contains(root) ==> index.dom().contains(
                be_bytes(chain@[root].0 as nat, 8) + root,
            ) && chain@[root].1 == index[be_bytes(chain@[root].0 as nat, 8) + root]
        },
{
    let index = store.db()[Table::LiveChain];
    if call_ensures(Store::<B>::get_live_chain, (&store,), chain) {
        the_live_chain_lists_its_blocks(index, chain@, root, slot);
    }
}

/// The block roots are those that are listed in the live chain under some slot.
pub proof fn block_roots_are_listed<B: StorageBackend>(
    store: Store<B>,
    roots: OrderedSet<H256>,
    root: H256,
)
    requires
        call_ensures(Store::<B>::get_block_roots, (&store,), roots),
    ensures
        roots@.contains(root@) <==> exists|s: u64| #[trigger]
            is_listed(store.db()[Table::LiveChain], s, root@),
{
    let index = store.db()[Table::LiveChain];
    assert(root@.len() == 32);
    if roots@.contains(root@) {
        let s = choose|s: u64| #[trigger] live_at(index, root@, s);
        assert(live_at(index, root@, s));
        assert(is_listed(index, s, root@));
    }
    if exists|s: u64| #[trigger] is_listed(index, s, root@) {
        let s = choose|s: u64| #[trigger] is_listed(index, s, root@);
        assert(live_at(index, root@, s));
        assert(forall|x: Seq<u8>| #[trigger]
            roots@.contains(x) <==> x.len() == 32 && exists|slot: u64| #[trigger]
                live_at(index, x, slot));
        assert(roots@.contains(root@));
    }
}

/// The latest attestation of each validator is extracted from the given keys.
pub proof fn latest_votes_are_extracted<B: StorageBackend>(
    store: Store<B>,
    keys: &[SignatureKey],
    latest: HashMap<u64, AttestationData>,
    i: int,
    data: AttestationData,
    v: u64,
)
    requires
        call_ensures(Store::<B>::extract_latest_attestations, (&store, keys), latest),
    ensures
        0 <= i < keys@.len() && store.db()[Table::AttestationDataByRoot].dom().contains(
            keys@[i].1@,
        ) && store.db()[Table::AttestationDataByRoot][keys@[i].1@] == AttestationData::enc(data)
            ==> latest@.dom().contains(keys@[i].0) && latest@[keys@[i].0].slot >= data.slot
            && exists|j: int|
            0 <= j < keys@.len() && (#[trigger] keys@[j]).0 == keys@[i].0 && AttestationData::enc(
                latest@[keys@[i].0],
            ) == store.db()[Table::AttestationDataByRoot][keys@[j].1@] && (latest@[
                keys@[i].0
            ].slot == data.slot ==> j <= i),
        latest@.dom().contains(v) ==> exists|j: int|
            0 <= j < keys@.len() && (#[trigger] keys@[j]).0 == v
                && store.db()[Table::AttestationDataByRoot].dom().contains(keys@[j].1@),
{
    if 0 <= i < keys@.len() && store.db()[Table::AttestationDataByRoot].dom().contains(
        keys@[i].1@,
    ) && store.db()[Table::AttestationDataByRoot][keys@[i].1@] == AttestationData::enc(data) {
        the_latest_vote_counts(store.db(), keys@, latest@, i, data);
    }
    if latest@.dom().contains(v) {
        only_voters_have_a_latest_vote(store.db(), keys@, latest@, v);
    }
}

/// The known payloads decide which latest attestations are known: a validator has one if a
/// known payload is for it and its data are stored.
pub proof fn known_votes_are_extracted<B: StorageBackend>(
    store: Store<B>,
    latest: HashMap<u64, AttestationData>,
    i: int,
    data: AttestationData,
)
    requires
        call_ensures(Store::<B>::extract_latest_known_attestations, (&store,), latest),
        0 <= i < store.known_entries().len(),
        store.db()[Table::AttestationDataByRoot].dom().contains(store.known_entries()[i].0.1@),
        store.db()[Table::AttestationDataByRoot][store.known_entries()[i].0.1@]
            == AttestationData::enc(data),
    ensures
        latest@.dom().contains(store.known_entries()[i].0.0),
        latest@[store.known_entries()[i].0.0].slot >= data.slot,
{
    let entries = store.known_entries();
    distinct_keys_are_the_keys(entries);
    let keys = distinct_keys(entries);
    let key = entries[i].0;
    assert(keys.contains(key));
    let k = choose|k: int| 0 <= k < keys.len() && keys[k] == key;
    the_latest_vote_counts(store.db(), keys, latest@, k, data);
}

/// The end of a sequence, as much as there is room for.
pub open spec fn is_end_of(kept: Seq<PayloadEntryView>, all: Seq<PayloadEntryView>, room: nat) -> bool {
    &&& kept.len() == if all.len() < room {
        all.len()
    } else {
        room
    }
    &&& forall|i: int|
        0 <= i < kept.len() ==> #[trigger] kept[i] == all[all.len() - kept.len() + i]
}

/// Payloads join their own buffer at its end. A full buffer drops its oldest entries: 4096
/// known and 512 new ones are kept. New payloads that are promoted become known ones, behind
/// those that were.
pub proof fn payloads_are_buffered<B: StorageBackend>(
    store: &mut Store<B>,
    key: SignatureKey,
    payload: StoredAggregatedPayload,
    entries: Vec<PayloadEntry>,
)
    ensures
        call_ensures(Store::<B>::insert_known_aggregated_payload, (store, key, payload), ()) ==> {
            &&& is_end_of(
                final(store).known_entries(),
                old(store).known_entries().push((key, payload@)),
                4096,
            )
            &&& final(store).new_entries() == old(store).new_entries()
            &&& final(store).db() == old(store).db()
        },
        call_ensures(Store::<B>::insert_new_aggregated_payload, (store, key, payload), ()) ==> {
            &&& is_end_of(
                final(store).new_entries(),
                old(store).new_entries().push((key, payload@)),
                512,
            )
            &&& final(store).known_entries() == old(store).known_entries()
            &&& final(store).db() == old(store).db()
        },
        call_ensures(Store::<B>::insert_known_aggregated_payloads_batch, (store, entries), ()) ==> {
            &&& is_end_of(
                final(store).known_entries(),
                old(store).known_entries() + entries@.map_values(
                    |e: PayloadEntry| (e.0, e.1@),
                ),
                4096,
            )
            &&& final(store).new_entries() == old(store).new_entries()
        },
        call_ensures(Store::<B>::insert_new_aggregated_payloads_batch, (store, entries), ()) ==> {
            &&& is_end_of(
                final(store).new_entries(),
                old(store).new_entries() + entries@.map_values(|e: PayloadEntry| (e.0, e.1@)),
                512,
            )
            &&& final(store).known_entries() == old(store).known_entries()
        },
        call_ensures(Store::<B>::promote_new_aggregated_payloads, (store,), ()) ==> {
            &&& is_end_of(
                final(store).known_entries(),
                old(store).known_entries() + old(store).new_entries(),
                4096,
            )
            &&& final(store).new_entries().len() == 0
            &&& final(store).db() == old(store).db()
        },
{
    assert(entries@.map_values(|e: PayloadEntry| (e.0, e.1@)) =~= entry_views(entries@));
}

/// Known payloads are listed by key: each key once, with its payloads in their order.
pub proof fn known_payloads_are_listed<B: StorageBackend>(
    store: Store<B>,
    keys: Vec<SignatureKey>,
    groups: Vec<(SignatureKey, Vec<StoredAggregatedPayload>)>,
    key: SignatureKey,
    i: int,
)
    requires
        call_ensures(Store::<B>::iter_known_aggregated_payload_keys, (&store,), keys),
        call_ensures(Store::<B>::iter_known_aggregated_payloads, (&store,), groups),
    ensures
        keys@.no_duplicates(),
        keys@.contains(key) <==> exists|k: int|
            0 <= k < store.known_entries().len() && (#[trigger] store.known_entries()[k]).0 == key,
        groups@.len() == keys@.len(),
        0 <= i < groups@.len() ==> groups@[i].0 == keys@[i] && item_views(groups@[i].1@)
            == store.known_entries().filter(of_key(keys@[i])).map_values(payload_part()),
{
    let entries = store.known_entries();
    distinct_keys_are_the_keys(entries);
    let names = groups@.map_values(|g: (SignatureKey, Vec<StoredAggregatedPayload>)| g.0);
    assert(names.len() == groups@.len());
    if 0 <= i < groups@.len() {
        assert(names[i] == groups@[i].0);
        lemma_payloads_filter(entries, groups@[i].0);
    }
}

/// New payloads are listed by key: each key once, with its payloads in their order.
pub proof fn new_payloads_are_listed<B: StorageBackend>(
    store: Store<B>,
    keys: Vec<SignatureKey>,
    groups: Vec<(SignatureKey, Vec<StoredAggregatedPayload>)>,
    key: SignatureKey,
    i: int,
)
    requires
        call_ensures(Store::<B>::iter_new_aggregated_payload_keys, (&store,), keys),
        call_ensures(Store::<B>::iter_new_aggregated_payloads, (&store,), groups),
    ensures
        keys@.no_duplicates(),
        keys@.contains(key) <==> exists|k: int|
            0 <= k < store.new_entries().len() && (#[trigger] store.new_entries()[k]).0 == key,
        groups@.len() == keys@.len(),
        0 <= i < groups@.len() ==> groups@[i].0 == keys@[i] && item_views(groups@[i].1@)
            == store.new_entries().filter(of_key(keys@[i])).map_values(payload_part()),
{
    let entries = store.new_entries();
    distinct_keys_are_the_keys(entries);
    let names = groups@.map_values(|g: (SignatureKey, Vec<StoredAggregatedPayload>)| g.0);
    assert(names.len() == groups@.len());
    if 0 <= i < groups@.len() {
        assert(names[i] == groups@[i].0);
        lemma_payloads_filter(entries, groups@[i].0);
    }
}

/// Whether an entry belongs to a key.
pub open spec fn of_key(key: SignatureKey) -> spec_fn(PayloadEntryView) -> bool {
    |e: PayloadEntryView| e.0 == key
}

/// The payload of an entry.
pub open spec fn payload_part() -> spec_fn(PayloadEntryView) -> StoredAggregatedPayloadView {
    |e: PayloadEntryView| e.1
}

pub proof fn lemma_payloads_filter(entries: Seq<PayloadEntryView>, key: SignatureKey)
    ensures
        payloads_of(entries, key) == entries.filter(of_key(key)).map_values(
            payload_part(),
        ),
    decreases entries.len(),
{
    reveal(Seq::filter);
    if entries.len() > 0 {
        lemma_payloads_filter(entries.drop_last(), key);
        assert(payloads_of(entries, key) =~= entries.filter(of_key(key)).map_values(
            payload_part(),
        ));
    } else {
        assert(payloads_of(entries, key) =~= entries.filter(of_key(key)).map_values(
            payload_part(),
        ));
    }
}

/// The counts of the buffers are their lengths.
pub proof fn buffers_are_counted<B: StorageBackend>(store: Store<B>, r: usize)
    ensures
        call_ensures(Store::<B>::new_aggregated_payloads_count, (&store,), r) ==> r
            == store.new_entries().len(),
        call_ensures(Store::<B>::known_aggregated_payloads_count, (&store,), r) ==> r
            == store.known_entries().len(),
        call_ensures(Store::<B>::gossip_signatures_count, (&store,), r) && store.db()[
            Table::GossipSignatures
        ].dom().len() == store.gossip_count() ==> r == store.db()[
            Table::GossipSignatures
        ].dom().len(),
        call_ensures(Store::<B>::block_count, (&store,), r) ==> r == store.db()[
            Table::BlockHeaders
        ].dom().len(),
{
}

/// A gossip signature is stored under its validator and the root of its data, with its slot.
/// One more is counted unless there was one.
pub proof fn gossip_signatures_are_stored<B: StorageBackend>(
    store: &mut Store<B>,
    root: H256,
    slot: u64,
    validator: u64,
    signature: XmssSignature,
)
    requires
        call_ensures(
            Store::<B>::insert_gossip_signature,
            (store, root, slot, validator, signature),
            (),
        ),
    ensures
        ({
            let key = le_bytes(validator as nat, 8) + root@;
            &&& entry_written(
                old(store).db(),
                final(store).db(),
                Table::GossipSignatures,
                key,
                StoredSignature::enc(StoredSignatureView { slot, signature_bytes: signature@ }),
            )
            &&& old(store).gossip_count() < usize::MAX ==> final(store).gossip_count() == old(
                store
            ).gossip_count() + if old(store).db()[Table::GossipSignatures].dom().contains(key) {
                0int
            } else {
                1int
            }
        }),
{
}

/// Deleting gossip signatures drops those of the given keys and no others.
pub proof fn gossip_signatures_are_deleted<B: StorageBackend>(
    store: &mut Store<B>,
    keys: &[SignatureKey],
    validator: u64,
    root: H256,
)
    requires
        call_ensures(Store::<B>::delete_gossip_signatures, (store, keys), ()),
    ensures
        ({
            let before = old(store).db()[Table::GossipSignatures];
            let after = final(store).db()[Table::GossipSignatures];
            let key = le_bytes(validator as nat, 8) + root@;
            &&& keys@.contains((validator, root)) ==> !after.dom().contains(key)
            &&& !keys@.contains((validator, root)) ==> (after.dom().contains(key)
                <==> before.dom().contains(key))
            &&& after.dom().contains(key) ==> after[key] == before[key]
            &&& before.dom().finite() && old(store).gossip_count() == before.dom().len() ==>
                final(store).gossip_count() == after.dom().len()
        }),
        only_changed(old(store).db(), final(store).db(), Table::GossipSignatures),
{
    let before = old(store).db()[Table::GossipSignatures];
    let after = final(store).db()[Table::GossipSignatures];
    let coded = encoded_keys(keys@);
    let key = le_bytes(validator as nat, 8) + root@;
    assert(signature_key(validator, root@) == key);
    signature_key_reads_back(validator, root@);
    lemma_h256_of_view(root);
    if keys@.contains((validator, root)) {
        let k = choose|k: int| 0 <= k < keys@.len() && keys@[k] == (validator, root);
        assert(coded[k] == key);
        assert(coded.to_set().contains(key));
    } else if coded.to_set().contains(key) {
        let k = choose|k: int| 0 <= k < coded.len() && coded[k] == key;
        assert(coded[k] == signature_key(keys@[k].0, keys@[k].1@));
        signature_key_reads_back(keys@[k].0, keys@[k].1@);
        lemma_h256_of_view(keys@[k].1);
        assert(keys@[k] == (validator, root));
    }
    if before.dom().finite() {
        let gone = coded.to_set().intersect(before.dom());
        lemma_counted(before, gone);
        assert(before.remove_keys(gone) =~= before.remove_keys(coded.to_set()));
    }
}

/// The gossip signatures that are listed are the stored ones, each with its key.
pub proof fn gossip_signatures_are_listed<B: StorageBackend>(
    store: Store<B>,
    r: Vec<(SignatureKey, StoredSignature)>,
    i: int,
    key: Seq<u8>,
    signature: StoredSignatureView,
)
    requires
        call_ensures(Store::<B>::iter_gossip_signatures, (&store,), r),
    ensures
        0 <= i < r@.len() ==> ({
            let k = le_bytes(r@[i].0.0 as nat, 8) + r@[i].0.1@;
            store.db()[Table::GossipSignatures].dom().contains(k) && StoredSignature::enc(
                r@[i].1@,
            ) == store.db()[Table::GossipSignatures][k]
        }),
        store.db()[Table::GossipSignatures].dom().contains(key) && StoredSignature::valid(
            signature,
        ) && store.db()[Table::GossipSignatures][key] == StoredSignature::enc(signature)
            ==> exists|j: int|
            0 <= j < r@.len() && key == le_bytes((#[trigger] r@[j]).0.0 as nat, 8) + r@[j].0.1@
                && r@[j].1@ == signature,
{
    let table = store.db()[Table::GossipSignatures];
    let listed = listed_keys(r@);
    if 0 <= i < r@.len() {
        assert(listed[i] == signature_key(r@[i].0.0, r@[i].0.1@));
        decode_inverts_encode::<StoredSignature>(table[listed[i]], r@[i].1@);
    }
    if table.dom().contains(key) && StoredSignature::valid(signature) && table[key]
        == StoredSignature::enc(signature) {
        read_gives_back_written::<StoredSignature>(signature);
        assert(listed.contains(key));
        let j = choose|j: int| 0 <= j < listed.len() && listed[j] == key;
        assert(listed[j] == signature_key(r@[j].0.0, r@[j].0.1@));
        assert(key == le_bytes(r@[j].0.0 as nat, 8) + r@[j].0.1@);
    }
}

/// Checkpoints to update are those that are named.
pub proof fn named_checkpoints_are_updated(
    head: H256,
    justified: Option<Checkpoint>,
    finalized: Option<Checkpoint>,
    a: ForkCheckpoints,
    b: ForkCheckpoints,
)
    ensures
        call_ensures(ForkCheckpoints::head_only, (head,), a) ==> a.head == head
            && a.justified is None && a.finalized is None,
        call_ensures(ForkCheckpoints::new, (head, justified, finalized), b) ==> b.head == head
            && b.justified == justified && b.finalized == finalized,
{
}

/// Operations on tables leave the buffered payloads alone.
pub proof fn buffers_are_left_alone<B: StorageBackend>(
    store: &mut Store<B>,
    time: u64,
    root: H256,
    signed: SignedBlock,
    state: State,
    checkpoints: ForkCheckpoints,
    data: AttestationData,
    batch: Vec<(H256, AttestationData)>,
    keys: &[SignatureKey],
    roots: &[H256],
    validator: u64,
    signature: XmssSignature,
    r: usize,
)
    ensures
        ({
            ||| call_ensures(Store::<B>::set_time, (store, time), ())
            ||| call_ensures(Store::<B>::set_safe_target, (store, root), ())
            ||| call_ensures(Store::<B>::insert_pending_block, (store, root, signed), ())
            ||| call_ensures(Store::<B>::insert_signed_block, (store, root, signed), ())
            ||| call_ensures(Store::<B>::insert_state, (store, root, state), ())
            ||| call_ensures(Store::<B>::update_checkpoints, (store, checkpoints), ())
            ||| call_ensures(Store::<B>::insert_attestation_data_by_root, (store, root, data), ())
            ||| call_ensures(Store::<B>::insert_attestation_data_by_root_batch, (store, batch), ())
            ||| call_ensures(Store::<B>::delete_gossip_signatures, (store, keys), ())
            ||| call_ensures(Store::<B>::insert_gossip_signature, (store, root, time, validator, signature), ())
            ||| call_ensures(Store::<B>::prune_live_chain, (store, time), r)
            ||| call_ensures(Store::<B>::prune_gossip_signatures, (store, time), r)
            ||| call_ensures(Store::<B>::prune_attestation_data_by_root, (store, time), r)
            ||| call_ensures(Store::<B>::prune_old_states, (store, roots), r)
            ||| call_ensures(Store::<B>::prune_old_blocks, (store, roots), r)
        }) ==> final(store).new_entries() == old(store).new_entries() &&
            final(store).known_entries() == old(store).known_entries(),
        ({
            ||| call_ensures(Store::<B>::set_time, (store, time), ())
            ||| call_ensures(Store::<B>::set_safe_target, (store, root), ())
            ||| call_ensures(Store::<B>::insert_pending_block, (store, root, signed), ())
            ||| call_ensures(Store::<B>::insert_signed_block, (store, root, signed), ())
            ||| call_ensures(Store::<B>::insert_state, (store, root, state), ())
            ||| call_ensures(Store::<B>::insert_attestation_data_by_root, (store, root, data), ())
            ||| call_ensures(Store::<B>::insert_attestation_data_by_root_batch, (store, batch), ())
            ||| call_ensures(Store::<B>::prune_live_chain, (store, time), r)
            ||| call_ensures(Store::<B>::prune_attestation_data_by_root, (store, time), r)
            ||| call_ensures(Store::<B>::prune_old_states, (store, roots), r)
            ||| call_ensures(Store::<B>::prune_old_blocks, (store, roots), r)
        }) ==> final(store).gossip_count() == old(store).gossip_count(),
{
}

/// Operations on buffered payloads leave the tables alone.
pub proof fn tables_are_left_alone<B: StorageBackend>(
    store: &mut Store<B>,
    key: SignatureKey,
    payload: StoredAggregatedPayload,
    entries: Vec<PayloadEntry>,
)
    ensures
        ({
            ||| call_ensures(Store::<B>::insert_known_aggregated_payload, (store, key, payload), ())
            ||| call_ensures(Store::<B>::insert_new_aggregated_payload, (store, key, payload), ())
            ||| call_ensures(
                Store::<B>::insert_known_aggregated_payloads_batch,
                (store, entries),
                (),
            )
            ||| call_ensures(
                Store::<B>::insert_new_aggregated_payloads_batch,
                (store, entries),
                (),
            )
            ||| call_ensures(Store::<B>::promote_new_aggregated_payloads, (store,), ())
        }) ==> final(store).db() == old(store).db() && final(store).gossip_count() ==
            old(store).gossip_count(),
{
}

} // verus!
