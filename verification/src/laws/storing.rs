//! What the store keeps and what it drops.

use crate::attestation::AttestationData;
use crate::block::{
    empty_body, BlockBody, BlockBodyView, BlockHeader, BlockSignatures, SignedBlockView,
};
use crate::checkpoint::Checkpoint;
use crate::encoding::{
    decode_inverts_encode, decoded, lemma_fixed_valid, read_gives_back_written, Ssz,
};
use crate::hash_root::TreeHash;
use crate::primitives::{be_bytes, h256, le_bytes, lemma_h256_of_view, zero_root, H256};
use crate::state::{ChainConfig, State, StateView};
use crate::storage::keys::{
    live_chain_key, live_chain_key_reads_back, metadata_key, metadata_keys_differ, signature_key,
    MetadataKey, SignatureKey,
};
use crate::storage::model::{
    anchor_consistent, anchored, are_latest, erase, header_at, header_slots, headers_in,
    history_pruned, is_live_chain, latest_at, leaves, lemma_header_of, live_at, live_before,
    metadata, signed_block_at, vote_data, votes_at, with_checkpoints, with_live_block,
    with_signed_block, without_finalized,
};
use crate::storage::payloads::{
    last_n, payloads_of, PayloadEntryView, StoredSignature, StoredSignatureView,
};
use crate::storage::retention::{outdated, retains, BLOCKS_TO_KEEP, STATES_TO_KEEP};
use crate::storage::store::{header_matches, AGGREGATED_PAYLOAD_CAP, NEW_PAYLOAD_CAP};
use crate::storage::tables::{Db, Entries, Table};
use vstd::prelude::*;

verus! {

/// A day of blocks and an hour of states are kept, at four seconds a slot.
pub proof fn a_day_of_blocks_is_kept()
    ensures
        BLOCKS_TO_KEEP * 4 == 24 * 60 * 60,
        STATES_TO_KEEP * 4 == 60 * 60,
        AGGREGATED_PAYLOAD_CAP == 4096,
        NEW_PAYLOAD_CAP == 512,
{
}

/// Storing a block writes its header, its signatures, and its body unless it has the root of
/// the empty one, all under its root, and nothing else.
pub proof fn blocks_are_stored_in_parts(
    db: Db,
    root: Seq<u8>,
    block: SignedBlockView,
    header: BlockHeader,
    empty: BlockBodyView,
    table: Table,
    key: Seq<u8>,
)
    requires
        header.slot == block.message.slot,
        header.proposer_index == block.message.proposer_index,
        header.parent_root@ == block.message.parent_root,
        header.state_root@ == block.message.state_root,
        empty.attestations.len() == 0,
    ensures
        header.body_root@ == BlockBody::root(block.message.body) ==> ({
            let after = with_signed_block(db, root, block);
            &&& after[Table::BlockHeaders].dom().contains(root)
            &&& after[Table::BlockHeaders][root] == BlockHeader::enc(header)
            &&& after[Table::BlockSignatures].dom().contains(root)
            &&& after[Table::BlockSignatures][root] == BlockSignatures::enc(block.signature)
            &&& BlockBody::root(block.message.body) != BlockBody::root(empty)
                ==> after[Table::BlockBodies].dom().contains(root)
                && after[Table::BlockBodies][root] == BlockBody::enc(block.message.body)
            &&& BlockBody::root(block.message.body) == BlockBody::root(empty)
                ==> after[Table::BlockBodies] == db[Table::BlockBodies]
            &&& key != root || !(table is BlockHeaders || table is BlockBodies
                || table is BlockSignatures) ==> (after[table].dom().contains(key)
                <==> db[table].dom().contains(key)) && (db[table].dom().contains(key)
                ==> after[table][key] == db[table][key])
        }),
{
    if header.body_root@ == BlockBody::root(block.message.body) {
        lemma_header_of(header, block.message);
        assert(empty.attestations =~= empty_body().attestations);
        assert(empty == empty_body());
    }
}

/// A processed block is stored like a pending one, and moreover listed in the live chain under
/// its slot and its root, with its parent.
pub proof fn processed_blocks_are_listed(
    db: Db,
    root: Seq<u8>,
    block: SignedBlockView,
    table: Table,
    key: Seq<u8>,
)
    ensures
        ({
            let after = with_live_block(db, root, block);
            let pending = with_signed_block(db, root, block);
            let entry = be_bytes(block.message.slot as nat, 8) + root;
            &&& after[Table::LiveChain].dom().contains(entry)
            &&& after[Table::LiveChain][entry] == block.message.parent_root
            &&& key != entry ==> (after[Table::LiveChain].dom().contains(key)
                <==> db[Table::LiveChain].dom().contains(key)) && (
            db[Table::LiveChain].dom().contains(key) ==> after[Table::LiveChain][key]
                == db[Table::LiveChain][key])
            &&& !(table is LiveChain) ==> after[table] == pending[table]
        }),
{
}

/// A block that is read is the stored header with the stored body, or the empty body where
/// the header says so, and the stored signatures; without one of these nothing is read.
pub proof fn blocks_are_read_from_their_parts(
    db: Db,
    root: Seq<u8>,
    block: SignedBlockView,
    empty: BlockBodyView,
)
    requires
        empty.attestations.len() == 0,
        signed_block_at(db, root) == Some(block),
    ensures
        db[Table::BlockHeaders].dom().contains(root),
        db[Table::BlockSignatures].dom().contains(root),
        BlockSignatures::enc(block.signature) == db[Table::BlockSignatures][root],
        exists|header: BlockHeader|
            #[trigger] BlockHeader::enc(header) == db[Table::BlockHeaders][root] && header.slot
                == block.message.slot && header.proposer_index == block.message.proposer_index
                && header.parent_root@ == block.message.parent_root && header.state_root@
                == block.message.state_root && (header.body_root@ == BlockBody::root(empty)
                ==> block.message.body == empty) && (header.body_root@ != BlockBody::root(empty)
                ==> db[Table::BlockBodies].dom().contains(root) && BlockBody::enc(
                block.message.body,
            ) == db[Table::BlockBodies][root]),
{
    assert(empty.attestations =~= empty_body().attestations);
    assert(empty == empty_body());
    let header = header_at(db, root)->0;
    decode_inverts_encode::<BlockHeader>(db[Table::BlockHeaders][root], header);
    decode_inverts_encode::<BlockSignatures>(db[Table::BlockSignatures][root], block.signature);
    assert(BlockHeader::enc(header) == db[Table::BlockHeaders][root]);
    if header.body_root@ != BlockBody::root(empty) {
        decode_inverts_encode::<BlockBody>(db[Table::BlockBodies][root], block.message.body);
    }
}

/// Pruning the live chain drops the entries of slots before the finalized one and keeps the
/// others, the finalized block among them.
pub proof fn the_live_chain_starts_at_the_finalized_slot(
    db: Db,
    finalized: u64,
    slot: u64,
    root: Seq<u8>,
)
    ensures
        ({
            let before = db[Table::LiveChain];
            let after = erase(db, Table::LiveChain, live_before(before, finalized))[Table::LiveChain];
            let key = be_bytes(slot as nat, 8) + root;
            &&& slot < finalized ==> !after.dom().contains(key)
            &&& slot >= finalized ==> (after.dom().contains(key) <==> before.dom().contains(key))
                && (before.dom().contains(key) ==> after[key] == before[key])
        }),
{
    live_chain_key_reads_back(slot, root);
    assert(live_chain_key(slot, root) == be_bytes(slot as nat, 8) + root);
}

/// Once a slot is final, the gossip signatures and the attestation data of that slot and
/// earlier ones are dropped, and later ones are kept. Headers, bodies, signatures of blocks,
/// states and metadata stay.
pub proof fn final_votes_are_dropped(
    db: Db,
    slot: u64,
    key: Seq<u8>,
    signature: StoredSignatureView,
    data: AttestationData,
    table: Table,
)
    requires
        StoredSignature::valid(signature),
    ensures
        ({
            let after = without_finalized(db, slot);
            let signatures = db[Table::GossipSignatures];
            let votes = db[Table::AttestationDataByRoot];
            &&& signatures.dom().contains(key) && signatures[key] == StoredSignature::enc(signature)
                ==> (after[Table::GossipSignatures].dom().contains(key) <==> signature.slot > slot)
            &&& votes.dom().contains(key) && votes[key] == AttestationData::enc(data) ==> (
            after[Table::AttestationDataByRoot].dom().contains(key) <==> data.slot > slot)
            &&& after[Table::GossipSignatures].dom().contains(key) ==> signatures.dom().contains(key)
                && after[Table::GossipSignatures][key] == signatures[key]
            &&& after[Table::AttestationDataByRoot].dom().contains(key) ==> votes.dom().contains(key)
                && after[Table::AttestationDataByRoot][key] == votes[key]
            &&& !(table is LiveChain) && !(table is GossipSignatures)
                && !(table is AttestationDataByRoot) ==> after[table] == db[table]
        }),
{
    read_gives_back_written::<StoredSignature>(signature);
    lemma_fixed_valid::<Checkpoint>(data.head);
    lemma_fixed_valid::<Checkpoint>(data.target);
    lemma_fixed_valid::<Checkpoint>(data.source);
    lemma_fixed_valid::<AttestationData>(data);
    read_gives_back_written::<AttestationData>(data);
}

/// What pruning leaves of the headers: as many as the window holds if there are more, and
/// besides only protected ones. A header that goes is not newer than one that stays in the
/// window, and never a protected one.
pub proof fn the_window_is_filled(
    headers: Entries,
    keep: nat,
    protected: Set<Seq<u8>>,
    gone: Set<Seq<u8>>,
)
    requires
        leaves(headers, keep, protected, gone),
        headers.dom().finite(),
    ensures
        gone.subset_of(headers.dom()),
        gone.disjoint(protected),
        headers.dom().len() <= keep ==> gone =~= Set::<Seq<u8>>::empty(),
        headers.dom().len() > keep ==> exists|window: Set<Seq<u8>>|
            window.len() == keep && window.subset_of(headers.dom()) && #[trigger] gone.disjoint(window)
                && (forall|k: Seq<u8>|
                headers.dom().contains(k) && !window.contains(k) && !protected.contains(k)
                    ==> #[trigger] gone.contains(k)) && (forall|a: Seq<u8>, b: Seq<u8>|
                window.contains(a) && headers.dom().contains(b) && !window.contains(b)
                    ==> #[trigger] decoded::<BlockHeader>(headers[a])->0.slot
                    >= #[trigger] decoded::<BlockHeader>(headers[b])->0.slot),
{
    let slots = header_slots(headers);
    assert(slots.dom() =~= headers.dom());
    if headers.dom().len() > keep {
        let window = choose|w: Set<Seq<u8>>| #[trigger]
            retains(slots, keep, w) && gone == outdated(slots, w, protected);
        assert(gone.disjoint(window));
        assert forall|a: Seq<u8>, b: Seq<u8>|
            window.contains(a) && headers.dom().contains(b) && !window.contains(b) implies
            #[trigger] decoded::<BlockHeader>(headers[a])->0.slot
            >= #[trigger] decoded::<BlockHeader>(headers[b])->0.slot by {
            assert(slots.dom().contains(b));
            assert(slots[a] >= slots[b]);
        }
        assert forall|k: Seq<u8>|
            headers.dom().contains(k) && !window.contains(k) && !protected.contains(
                k,
            ) implies #[trigger] gone.contains(k) by {
        }
    }
}

/// Pruning old history drops headers, bodies and signatures of the same blocks, and states of
/// blocks that are in the headers; everything else stays.
pub proof fn history_is_pruned_block_by_block(
    before: Db,
    after: Db,
    protected: Set<Seq<u8>>,
    key: Seq<u8>,
    table: Table,
)
    requires
        history_pruned(before, after, protected),
        before[Table::BlockHeaders].dom().finite(),
    ensures
        protected.contains(key) && before[table].dom().contains(key) ==> after[table].dom().contains(
            key,
        ),
        before[Table::BlockHeaders].dom().contains(key) && !after[
            Table::BlockHeaders
        ].dom().contains(key) ==> !after[Table::BlockBodies].dom().contains(key)
            && !after[Table::BlockSignatures].dom().contains(key),
        after[table].dom().contains(key) ==> before[table].dom().contains(key) && after[table][key]
            == before[table][key],
        table is Metadata || table is LiveChain || table is GossipSignatures
            || table is AttestationDataByRoot ==> after[table] == before[table],
        before[Table::BlockHeaders].dom().len() <= STATES_TO_KEEP ==> after[table].dom().contains(
            key,
        ) == before[table].dom().contains(key),
        before[Table::States].dom().contains(key) && !before[
            Table::BlockHeaders
        ].dom().contains(key) ==> after[Table::States].dom().contains(key),
{
    let (states, blocks) = choose|states: Set<Seq<u8>>, blocks: Set<Seq<u8>>|
        #[trigger] leaves(
            headers_in(before, Table::States),
            STATES_TO_KEEP as nat,
            protected,
            states,
        ) && #[trigger] leaves(
            before[Table::BlockHeaders],
            BLOCKS_TO_KEEP as nat,
            protected,
            blocks,
        ) && after == crate::storage::model::without_blocks(
            crate::storage::model::without_states(before, states),
            blocks,
        );
    let chosen = headers_in(before, Table::States);
    assert(chosen.dom().subset_of(before[Table::BlockHeaders].dom()));
    vstd::set_lib::lemma_len_subset(chosen.dom(), before[Table::BlockHeaders].dom());
    the_window_is_filled(chosen, STATES_TO_KEEP as nat, protected, states);
    the_window_is_filled(before[Table::BlockHeaders], BLOCKS_TO_KEEP as nat, protected, blocks);
}

/// The latest attestation of a validator is one that its votes name, none of them is later,
/// and of several in one slot it is the first.
pub proof fn the_latest_vote_counts(
    db: Db,
    keys: Seq<SignatureKey>,
    latest: Map<u64, AttestationData>,
    i: int,
    data: AttestationData,
)
    requires
        are_latest(db, keys, latest),
        0 <= i < keys.len(),
        db[Table::AttestationDataByRoot].dom().contains(keys[i].1@),
        db[Table::AttestationDataByRoot][keys[i].1@] == AttestationData::enc(data),
    ensures
        latest.dom().contains(keys[i].0),
        latest[keys[i].0].slot >= data.slot,
        exists|j: int|
            0 <= j < keys.len() && (#[trigger] keys[j]).0 == keys[i].0 && AttestationData::enc(
                latest[keys[i].0],
            ) == db[Table::AttestationDataByRoot][keys[j].1@] && (latest[keys[i].0].slot
                == data.slot ==> j <= i),
{
    lemma_fixed_valid::<Checkpoint>(data.head);
    lemma_fixed_valid::<Checkpoint>(data.target);
    lemma_fixed_valid::<Checkpoint>(data.source);
    lemma_fixed_valid::<AttestationData>(data);
    read_gives_back_written::<AttestationData>(data);
    let v = keys[i].0;
    assert(votes_at(db, keys, v, i));
    let j = choose|j: int| #[trigger]
        latest_at(db, keys, v, j) && latest[v] == vote_data(db, keys[j])->0;
    decode_inverts_encode::<AttestationData>(
        db[Table::AttestationDataByRoot][keys[j].1@],
        latest[v],
    );
    assert(keys[j].0 == v);
}

/// Only validators with a stored vote have a latest attestation.
pub proof fn only_voters_have_a_latest_vote(
    db: Db,
    keys: Seq<SignatureKey>,
    latest: Map<u64, AttestationData>,
    v: u64,
)
    requires
        are_latest(db, keys, latest),
        latest.dom().contains(v),
    ensures
        exists|j: int|
            0 <= j < keys.len() && (#[trigger] keys[j]).0 == v
                && db[Table::AttestationDataByRoot].dom().contains(keys[j].1@),
{
    let j = choose|j: int| #[trigger]
        latest_at(db, keys, v, j) && latest[v] == vote_data(db, keys[j])->0;
    assert(keys[j].0 == v);
}

/// A full buffer drops its oldest entries and nothing else: what it holds is the end of all
/// that came, and as much of it as there is room for.
pub proof fn buffers_drop_the_oldest<A>(all: Seq<A>, room: nat, i: int)
    ensures
        last_n(all, room).len() == if all.len() < room {
            all.len()
        } else {
            room
        },
        0 <= i < last_n(all, room).len() ==> last_n(all, room)[i] == all[all.len() - last_n(
            all,
            room,
        ).len() + i],
{
}

/// The payloads of a key are all that came under it, in their order.
pub proof fn payloads_are_grouped_by_key(
    a: Seq<PayloadEntryView>,
    b: Seq<PayloadEntryView>,
    one: PayloadEntryView,
    key: SignatureKey,
)
    ensures
        payloads_of(a + b, key) == payloads_of(a, key) + payloads_of(b, key),
        payloads_of(seq![one], key) == if one.0 == key {
            seq![one.1]
        } else {
            Seq::empty()
        },
    decreases b.len(),
{
    reveal_with_fuel(payloads_of, 2);
    assert(seq![one].drop_last() =~= Seq::<PayloadEntryView>::empty());
    assert(seq![one].last() == one);
    assert(payloads_of(seq![one], key) =~= if one.0 == key {
        seq![one.1]
    } else {
        Seq::empty()
    });
    if b.len() == 0 {
        assert(a + b =~= a);
        assert(payloads_of(a, key) + payloads_of(b, key) =~= payloads_of(a, key));
    } else {
        payloads_are_grouped_by_key(a, b.drop_last(), one, key);
        assert((a + b).drop_last() =~= a + b.drop_last());
        assert((a + b).last() == b.last());
        assert(payloads_of(a + b, key) =~= payloads_of(a, key) + payloads_of(b, key));
    }
}

/// The live chain gives for each root that is listed its latest slot and the parent noted
/// there.
pub proof fn the_live_chain_lists_its_blocks(
    index: Entries,
    chain: Map<Seq<u8>, (u64, Seq<u8>)>,
    root: Seq<u8>,
    slot: u64,
)
    requires
        is_live_chain(index, chain),
        root.len() == 32,
    ensures
        index.dom().contains(be_bytes(slot as nat, 8) + root) ==> chain.dom().contains(root)
            && chain[root].0 >= slot,
        chain.dom().contains(root) ==> index.dom().contains(
            be_bytes(chain[root].0 as nat, 8) + root,
        ) && chain[root].1 == index[be_bytes(chain[root].0 as nat, 8) + root],
{
    if index.dom().contains(be_bytes(slot as nat, 8) + root) {
        assert(live_at(index, root, slot));
    }
}

/// The head, and the checkpoints that are given, are written under their names, and the other
/// metadata stays.
pub proof fn checkpoints_are_written_under_their_names(
    db: Db,
    head: Seq<u8>,
    justified: Option<Checkpoint>,
    finalized: Option<Checkpoint>,
    key: MetadataKey,
)
    requires
        head.len() == 32,
    ensures
        ({
            let after = with_checkpoints(db, head, justified, finalized);
            &&& metadata::<H256>(after, MetadataKey::Head) == Some(head)
            &&& justified matches Some(c) ==> metadata::<Checkpoint>(
                after,
                MetadataKey::LatestJustified,
            ) == Some(c)
            &&& finalized matches Some(c) ==> metadata::<Checkpoint>(
                after,
                MetadataKey::LatestFinalized,
            ) == Some(c)
            &&& justified is None ==> metadata::<Checkpoint>(after, MetadataKey::LatestJustified)
                == metadata::<Checkpoint>(db, MetadataKey::LatestJustified)
            &&& finalized is None ==> metadata::<Checkpoint>(after, MetadataKey::LatestFinalized)
                == metadata::<Checkpoint>(db, MetadataKey::LatestFinalized)
            &&& metadata::<u64>(after, MetadataKey::Time) == metadata::<u64>(db, MetadataKey::Time)
            &&& metadata::<ChainConfig>(after, MetadataKey::Config) == metadata::<ChainConfig>(
                db,
                MetadataKey::Config,
            )
            &&& metadata::<H256>(after, MetadataKey::SafeTarget) == metadata::<H256>(
                db,
                MetadataKey::SafeTarget,
            )
        }),
{
    assert forall|a: MetadataKey, b: MetadataKey| #[trigger] metadata_key(a) == #[trigger] metadata_key(
        b,
    ) implies a == b by {
        metadata_keys_differ(a, b);
    }
    read_gives_back_written::<H256>(head);
    match justified {
        Some(c) => {
            lemma_fixed_valid::<Checkpoint>(c);
            read_gives_back_written::<Checkpoint>(c);
        },
        None => {},
    }
    match finalized {
        Some(c) => {
            lemma_fixed_valid::<Checkpoint>(c);
            read_gives_back_written::<Checkpoint>(c);
        },
        None => {},
    }
}

/// An anchor is consistent if the state root in its header is zero or the root of the state
/// with a zero state root in its header, and it is stored with that root.
pub proof fn anchors_hold_their_own_root(state: StateView, blank: StateView, zero: H256)
    requires
        zero@ == zero_root(),
        blank == (StateView {
            latest_block_header: BlockHeader { state_root: zero, ..state.latest_block_header },
            ..state
        }),
    ensures
        anchor_consistent(state) <==> state.latest_block_header.state_root@ == zero_root()
            || state.latest_block_header.state_root@ == State::root(blank),
        anchored(state) == (StateView {
            latest_block_header: BlockHeader {
                state_root: h256(State::root(blank)),
                ..state.latest_block_header
            },
            ..state
        }),
{
    lemma_h256_of_view(zero);
}

/// An anchor block matches the header of the anchor state in everything but the state root.
pub proof fn anchor_blocks_match_their_header(
    header: BlockHeader,
    block: crate::block::BlockView,
)
    ensures
        header_matches(header, block) <==> header.slot == block.slot && header.proposer_index
            == block.proposer_index && header.parent_root@ == block.parent_root
            && header.body_root@ == BlockBody::root(block.body),
{
}

/// A signature is stored under its validator, lowest byte first, and the root of its data.
pub proof fn signatures_are_stored_by_validator(validator: u64, root: Seq<u8>)
    ensures
        signature_key(validator, root) == le_bytes(validator as nat, 8) + root,
{
}

} // verus!
