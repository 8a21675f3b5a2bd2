//! What the tables of a store mean.

use crate::attestation::{AggregatedAttestation, AggregatedAttestationView, AttestationData};
use crate::block::{
    block_of, empty_body, is_header_of, BlockBody, BlockHeader, BlockSignatures, BlockView,
    SignedBlock, SignedBlockView,
};
use crate::checkpoint::Checkpoint;
use crate::encoding::container::{head_from, lemma_head_len, tail_from, width_from};
use crate::encoding::list::{item_encs, list_enc, uniform};
use crate::encoding::{decoded, lemma_fixed_valid, read_gives_back_written, Ssz, SszContainer};
use crate::hash_root::TreeHash;
use crate::primitives::{h256, lemma_h256_of_view, zero_root, H256};
use crate::state::{ChainConfig, State, StateView};
use crate::storage::backend::{put_op, WriteOpView};
use crate::storage::keys::{
    live_chain_key, live_slot, metadata_key, metadata_keys_differ, MetadataKey, SignatureKey,
};
use crate::storage::payloads::StoredSignature;
use crate::storage::retention::{outdated, retains, BLOCKS_TO_KEEP, STATES_TO_KEEP};
use crate::storage::tables::{complete, Db, Entries, Table};
use vstd::prelude::*;

verus! {

/// The metadata field of a database, if it is there and of the right form.
pub open spec fn metadata<T: Ssz>(db: Db, key: MetadataKey) -> Option<T::V> {
    if db[Table::Metadata].dom().contains(metadata_key(key)) {
        decoded::<T>(db[Table::Metadata][metadata_key(key)])
    } else {
        None
    }
}

/// A database with an entry put into a table.
pub open spec fn put(db: Db, table: Table, key: Seq<u8>, value: Seq<u8>) -> Db {
    db.insert(table, db[table].insert(key, value))
}

/// A database with keys removed from a table.
pub open spec fn erase(db: Db, table: Table, keys: Set<Seq<u8>>) -> Db {
    db.insert(table, db[table].remove_keys(keys))
}

/// A database with a metadata field.
pub open spec fn with_metadata<T: Ssz>(db: Db, key: MetadataKey, value: T::V) -> Db {
    put(db, Table::Metadata, metadata_key(key), T::enc(value))
}

/// A metadata field that is written is read back, and no other field changes.
pub proof fn metadata_reads_back<T: Ssz, U: Ssz>(
    db: Db,
    key: MetadataKey,
    value: T::V,
    other: MetadataKey,
)
    requires
        T::valid(value),
        other != key,
    ensures
        metadata::<T>(with_metadata::<T>(db, key, value), key) == Some(value),
        metadata::<U>(with_metadata::<T>(db, key, value), other) == metadata::<U>(db, other),
{
    read_gives_back_written::<T>(value);
    if metadata_key(key) == metadata_key(other) {
        metadata_keys_differ(key, other);
    }
}

/// Whether the bytes of a metadata field have the field's form.
pub open spec fn metadata_ok(key: MetadataKey, value: Seq<u8>) -> bool {
    match key {
        MetadataKey::Time => decoded::<u64>(value) is Some,
        MetadataKey::Config => decoded::<ChainConfig>(value) is Some,
        MetadataKey::Head => decoded::<H256>(value) is Some,
        MetadataKey::SafeTarget => decoded::<H256>(value) is Some,
        MetadataKey::LatestJustified => decoded::<Checkpoint>(value) is Some,
        MetadataKey::LatestFinalized => decoded::<Checkpoint>(value) is Some,
    }
}

/// Whether an entry has the form that its table asks for.
pub open spec fn entry_ok(table: Table, key: Seq<u8>, value: Seq<u8>) -> bool {
    match table {
        Table::BlockHeaders => decoded::<BlockHeader>(value) is Some,
        Table::BlockBodies => decoded::<BlockBody>(value) is Some,
        Table::BlockSignatures => decoded::<BlockSignatures>(value) is Some,
        Table::States => decoded::<State>(value) is Some,
        Table::GossipSignatures => key.len() == 40,
        Table::AttestationDataByRoot => decoded::<AttestationData>(value) is Some,
        Table::Metadata => true,
        Table::LiveChain => key.len() == 40 && value.len() == 32,
    }
}

/// Whether what a table holds of a root, if anything, can be decoded.
pub open spec fn readable(db: Db, table: Table, root: Seq<u8>) -> bool {
    db[table].dom().contains(root) ==> entry_ok(table, root, db[table][root])
}

/// Whether the parts of a signed block that are read can be decoded: none if its header or
/// its signatures are not stored, and otherwise the header, the body unless it is the empty
/// one, and the signatures unless the body is not stored.
pub open spec fn block_readable(db: Db, root: Seq<u8>) -> bool {
    db[Table::BlockHeaders].dom().contains(root) && db[Table::BlockSignatures].dom().contains(root)
        ==> match decoded::<BlockHeader>(db[Table::BlockHeaders][root]) {
        None => false,
        Some(header) => header.body_root@ == empty_body_root() && readable(
            db,
            Table::BlockSignatures,
            root,
        ) || header.body_root@ != empty_body_root() && (db[Table::BlockBodies].dom().contains(root)
            ==> readable(db, Table::BlockBodies, root) && readable(
            db,
            Table::BlockSignatures,
            root,
        )),
    }
}

/// Where all entries can be decoded, every block can be read.
pub proof fn lemma_blocks_readable(db: Db, root: Seq<u8>)
    requires
        table_ok(db, Table::BlockHeaders),
        table_ok(db, Table::BlockBodies),
        table_ok(db, Table::BlockSignatures),
    ensures
        block_readable(db, root),
{
}

/// Whether all entries of a table have the form that it asks for.
pub open spec fn table_ok(db: Db, table: Table) -> bool {
    forall|k: Seq<u8>| #[trigger] db[table].dom().contains(k) ==> entry_ok(table, k, db[table][k])
}

/// Whether the metadata is there and all entries have the form that their tables ask for.
pub open spec fn sound(db: Db) -> bool {
    &&& complete(db)
    &&& forall|t: Table| #[trigger] table_ok(db, t)
    &&& forall|key: MetadataKey|
        db[Table::Metadata].dom().contains(#[trigger] metadata_key(key)) && metadata_ok(
            key,
            db[Table::Metadata][metadata_key(key)],
        )
}

pub proof fn lemma_sound_put(db: Db, table: Table, key: Seq<u8>, value: Seq<u8>)
    requires
        sound(db),
        table != Table::Metadata,
        entry_ok(table, key, value),
    ensures
        sound(put(db, table, key, value)),
{
    let after = put(db, table, key, value);
    assert forall|t: Table| #[trigger] table_ok(after, t) by {
        assert(table_ok(db, t));
    }
    assert(after[Table::Metadata] == db[Table::Metadata]);
}

pub proof fn lemma_sound_metadata(db: Db, key: MetadataKey, value: Seq<u8>)
    requires
        sound(db),
        metadata_ok(key, value),
    ensures
        sound(put(db, Table::Metadata, metadata_key(key), value)),
{
    let after = put(db, Table::Metadata, metadata_key(key), value);
    assert forall|t: Table| #[trigger] table_ok(after, t) by {
        assert(table_ok(db, t));
    }
    assert forall|other: MetadataKey|
        after[Table::Metadata].dom().contains(#[trigger] metadata_key(other)) && metadata_ok(
            other,
            after[Table::Metadata][metadata_key(other)],
        ) by {
        if metadata_key(other) == metadata_key(key) {
            metadata_keys_differ(other, key);
        }
        assert(db[Table::Metadata].dom().contains(metadata_key(other)));
    }
}

pub proof fn lemma_sound_erase(db: Db, table: Table, keys: Set<Seq<u8>>)
    requires
        sound(db),
        table != Table::Metadata,
    ensures
        sound(erase(db, table, keys)),
{
    let after = erase(db, table, keys);
    assert forall|t: Table| #[trigger] table_ok(after, t) by {
        assert(table_ok(db, t));
    }
    assert(after[Table::Metadata] == db[Table::Metadata]);
}

/// The header that describes a block.
pub open spec fn header_of(block: BlockView) -> BlockHeader {
    BlockHeader {
        slot: block.slot,
        proposer_index: block.proposer_index,
        parent_root: h256(block.parent_root),
        state_root: h256(block.state_root),
        body_root: h256(BlockBody::root(block.body)),
    }
}

pub proof fn lemma_header_of(header: BlockHeader, block: BlockView)
    requires
        is_header_of(header, block),
    ensures
        header_of(block) == header,
{
    lemma_h256_of_view(header.parent_root);
    lemma_h256_of_view(header.state_root);
    lemma_h256_of_view(header.body_root);
}

/// The root of a body without attestations.
pub open spec fn empty_body_root() -> Seq<u8> {
    BlockBody::root(empty_body())
}

/// Whether the parts of a signed block can be stored.
pub open spec fn storable(block: SignedBlockView) -> bool {
    BlockBody::valid(block.message.body) && BlockSignatures::valid(block.signature)
}

/// A signed block that can be encoded can be stored.
pub proof fn lemma_valid_storable(block: SignedBlockView)
    requires
        SignedBlock::valid(block),
    ensures
        storable(block),
{
}

/// A body without attestations can be stored.
pub proof fn lemma_empty_body_valid()
    ensures
        BlockBody::valid(empty_body()),
{
    let v = empty_body();
    lemma_list_of_nothing();
    BlockBody::parts_conform(v);
    BlockBody::layout_fits();
    lemma_head_len(
        BlockBody::layout(),
        BlockBody::parts(v),
        0,
        width_from(BlockBody::layout(), 0),
    );
    reveal_with_fuel(tail_from, 2);
}

proof fn lemma_list_of_nothing()
    ensures
        list_enc::<AggregatedAttestation>(Seq::<AggregatedAttestationView>::empty()).len() == 0,
{
    let none = Seq::<AggregatedAttestationView>::empty();
    let layout = uniform(AggregatedAttestation::size(), 0);
    let parts = item_encs::<AggregatedAttestation>(none);
    assert(head_from(layout, parts, 0, width_from(layout, 0)).len() == 0);
    assert(tail_from(layout, parts, 0).len() == 0);
}

/// A database with a signed block: its header, its body unless that is empty, and its
/// signatures.
pub open spec fn with_signed_block(db: Db, root: Seq<u8>, block: SignedBlockView) -> Db {
    let db1 = put(
        db,
        Table::BlockHeaders,
        root,
        BlockHeader::enc(header_of(block.message)),
    );
    let db2 = if BlockBody::root(block.message.body) != empty_body_root() {
        put(db1, Table::BlockBodies, root, BlockBody::enc(block.message.body))
    } else {
        db1
    };
    put(db2, Table::BlockSignatures, root, BlockSignatures::enc(block.signature))
}

/// The changes that store a signed block: one entry for the header, one for the body unless
/// it has the root of the empty body, and one for the signatures.
pub open spec fn signed_block_ops(root: Seq<u8>, block: SignedBlockView) -> Seq<WriteOpView> {
    let header = put_op(Table::BlockHeaders, root, BlockHeader::enc(header_of(block.message)));
    let body = put_op(Table::BlockBodies, root, BlockBody::enc(block.message.body));
    let signatures = put_op(Table::BlockSignatures, root, BlockSignatures::enc(block.signature));
    if BlockBody::root(block.message.body) != empty_body_root() {
        seq![header, body, signatures]
    } else {
        seq![header, signatures]
    }
}

/// The header of a root, if there is one.
pub open spec fn header_at(db: Db, root: Seq<u8>) -> Option<BlockHeader> {
    if db[Table::BlockHeaders].dom().contains(root) {
        decoded::<BlockHeader>(db[Table::BlockHeaders][root])
    } else {
        None
    }
}

/// The body that belongs to a header, if there is one.
pub open spec fn body_at(
    db: Db,
    root: Seq<u8>,
    header: BlockHeader,
) -> Option<crate::block::BlockBodyView> {
    if header.body_root@ == empty_body_root() {
        Some(empty_body())
    } else if db[Table::BlockBodies].dom().contains(root) {
        decoded::<BlockBody>(db[Table::BlockBodies][root])
    } else {
        None
    }
}

/// The signed block of a root, if all of its parts are there.
pub open spec fn signed_block_at(db: Db, root: Seq<u8>) -> Option<SignedBlockView> {
    match header_at(db, root) {
        None => None,
        Some(header) => if !db[Table::BlockSignatures].dom().contains(root) {
            None
        } else {
            match (
                body_at(db, root, header),
                decoded::<BlockSignatures>(db[Table::BlockSignatures][root]),
            ) {
                (Some(body), Some(signature)) => Some(
                    SignedBlockView { message: block_of(header, body), signature },
                ),
                _ => None,
            }
        },
    }
}

/// A signed block that is stored is read back, and no other block changes.
///
/// `header` is the block's header. A body that is not empty but has the root of the empty
/// body is read as the empty body.
pub proof fn signed_block_reads_back(
    db: Db,
    root: Seq<u8>,
    header: BlockHeader,
    block: SignedBlockView,
    other: Seq<u8>,
)
    requires
        storable(block),
        other != root,
    ensures
        is_header_of(header, block.message) && body_told_by_root(block.message.body)
            ==> signed_block_at(with_signed_block(db, root, block), root) == Some(block),
        signed_block_at(with_signed_block(db, root, block), other) == signed_block_at(db, other),
{
    if is_header_of(header, block.message) {
        lemma_header_of(header, block.message);
    }
    let stored = header_of(block.message);
    lemma_fixed_valid::<BlockHeader>(stored);
    read_gives_back_written::<BlockHeader>(stored);
    read_gives_back_written::<BlockBody>(block.message.body);
    read_gives_back_written::<BlockSignatures>(block.signature);
}

/// Storing a signed block twice is storing it once.
pub proof fn storing_a_block_is_idempotent(db: Db, root: Seq<u8>, block: SignedBlockView)
    ensures
        with_signed_block(with_signed_block(db, root, block), root, block) == with_signed_block(
            db,
            root,
            block,
        ),
{
    let once = with_signed_block(db, root, block);
    assert(with_signed_block(once, root, block) =~~= once);
}

/// Whether a body can be told from its root: it is not one that has the root of the empty
/// body without being empty.
pub open spec fn body_told_by_root(body: crate::block::BlockBodyView) -> bool {
    BlockBody::root(body) == empty_body_root() ==> body == empty_body()
}

/// A database with a signed block that fork choice sees.
pub open spec fn with_live_block(db: Db, root: Seq<u8>, block: SignedBlockView) -> Db {
    put(
        with_signed_block(db, root, block),
        Table::LiveChain,
        live_chain_key(block.message.slot, root),
        block.message.parent_root,
    )
}

/// Processing a block after it was pending leaves the same database as processing it at once.
pub proof fn pending_leaves_no_trace(db: Db, root: Seq<u8>, block: SignedBlockView)
    ensures
        with_live_block(with_signed_block(db, root, block), root, block) == with_live_block(
            db,
            root,
            block,
        ),
{
    storing_a_block_is_idempotent(db, root, block);
}

/// Fork choice does not see a pending block: the live chain, the states and the metadata
/// stay as they are.
pub proof fn pending_blocks_are_invisible(db: Db, root: Seq<u8>, block: SignedBlockView)
    ensures
        with_signed_block(db, root, block)[Table::LiveChain] == db[Table::LiveChain],
        with_signed_block(db, root, block)[Table::States] == db[Table::States],
        with_signed_block(db, root, block)[Table::Metadata] == db[Table::Metadata],
{
}

pub proof fn lemma_signed_block_sound(db: Db, root: Seq<u8>, block: SignedBlockView)
    requires
        sound(db),
        storable(block),
    ensures
        sound(with_signed_block(db, root, block)),
{
    let header = header_of(block.message);
    lemma_fixed_valid::<BlockHeader>(header);
    read_gives_back_written::<BlockHeader>(header);
    read_gives_back_written::<BlockBody>(block.message.body);
    read_gives_back_written::<BlockSignatures>(block.signature);
    lemma_sound_put(db, Table::BlockHeaders, root, BlockHeader::enc(header));
    let db1 = put(db, Table::BlockHeaders, root, BlockHeader::enc(header));
    let db2 = if BlockBody::root(block.message.body) != empty_body_root() {
        lemma_sound_put(db1, Table::BlockBodies, root, BlockBody::enc(block.message.body));
        put(db1, Table::BlockBodies, root, BlockBody::enc(block.message.body))
    } else {
        db1
    };
    lemma_sound_put(db2, Table::BlockSignatures, root, BlockSignatures::enc(block.signature));
}

/// Whether every key of the live chain index is that of a slot and a root.
pub open spec fn live_keys_ok(db: Db) -> bool {
    forall|k: Seq<u8>| #[trigger] db[Table::LiveChain].dom().contains(k) ==> k.len() == 40
}

/// Whether the live chain index lists a root at a slot.
pub open spec fn live_at(index: Entries, root: Seq<u8>, slot: u64) -> bool {
    index.dom().contains(live_chain_key(slot, root))
}

/// Whether `chain` gives every root of the live chain index its slot and parent; a root
/// that is listed at several slots has the highest.
pub open spec fn is_live_chain(index: Entries, chain: Map<Seq<u8>, (u64, Seq<u8>)>) -> bool {
    &&& forall|root: Seq<u8>| #[trigger]
        chain.dom().contains(root) ==> live_at(index, root, chain[root].0) && chain[root].1
            == index[live_chain_key(chain[root].0, root)]
    &&& forall|root: Seq<u8>, slot: u64|
        root.len() == 32 && #[trigger] live_at(index, root, slot) ==> chain.dom().contains(root)
            && slot <= chain[root].0
}

/// Live chain entries below a slot.
pub open spec fn live_before(index: Entries, slot: u64) -> Set<Seq<u8>> {
    Set::new(|k: Seq<u8>| index.dom().contains(k) && live_slot(k) < slot)
}

/// A value that belongs to a slot.
pub trait HasSlot: Ssz {
    spec fn slot_of(v: Self::V) -> u64;

    fn slot(&self) -> (r: u64)
        ensures
            r == Self::slot_of(self@),
    ;
}

impl HasSlot for StoredSignature {
    open spec fn slot_of(v: crate::storage::payloads::StoredSignatureView) -> u64 {
        v.slot
    }

    fn slot(&self) -> (r: u64) {
        self.slot
    }
}

impl HasSlot for AttestationData {
    open spec fn slot_of(v: AttestationData) -> u64 {
        v.slot
    }

    fn slot(&self) -> (r: u64) {
        self.slot
    }
}

/// Whether an entry decodes to a value whose slot is at most `slot`.
pub open spec fn expired<T: HasSlot>(value: Seq<u8>, slot: u64) -> bool {
    match decoded::<T>(value) {
        Some(v) => T::slot_of(v) <= slot,
        None => false,
    }
}

/// The keys of the entries whose slot is at most `slot`. Entries that do not decode are
/// not among them.
pub open spec fn expired_keys<T: HasSlot>(entries: Entries, slot: u64) -> Set<Seq<u8>> {
    Set::new(|k: Seq<u8>| entries.dom().contains(k) && expired::<T>(entries[k], slot))
}

/// The slot of each header.
pub open spec fn header_slots(headers: Entries) -> Map<Seq<u8>, u64> {
    Map::new(
        |k: Seq<u8>| headers.dom().contains(k),
        |k: Seq<u8>| decoded::<BlockHeader>(headers[k])->0.slot,
    )
}

/// The headers of the blocks that have an entry in a table.
pub open spec fn headers_in(db: Db, table: Table) -> Entries {
    db[Table::BlockHeaders].restrict(db[table].dom())
}

/// Whether `gone` are the roots that leave when all but `keep` of the newest headers and
/// the protected roots are pruned.
pub open spec fn leaves(
    headers: Entries,
    keep: nat,
    protected: Set<Seq<u8>>,
    gone: Set<Seq<u8>>,
) -> bool {
    if headers.dom().len() <= keep {
        gone == Set::<Seq<u8>>::empty()
    } else {
        exists|retained: Set<Seq<u8>>| #[trigger]
            retains(header_slots(headers), keep, retained) && gone == outdated(
                header_slots(headers),
                retained,
                protected,
            )
    }
}

/// A database without the states of some roots.
pub open spec fn without_states(db: Db, gone: Set<Seq<u8>>) -> Db {
    erase(db, Table::States, gone)
}

/// A database without the blocks of some roots.
pub open spec fn without_blocks(db: Db, gone: Set<Seq<u8>>) -> Db {
    erase(
        erase(erase(db, Table::BlockHeaders, gone), Table::BlockBodies, gone),
        Table::BlockSignatures,
        gone,
    )
}

/// Removing nothing changes nothing.
pub proof fn lemma_erase_nothing(db: Db, table: Table)
    requires
        complete(db),
    ensures
        erase(db, table, Set::<Seq<u8>>::empty()) == db,
{
    assert(db[table].remove_keys(Set::<Seq<u8>>::empty()) =~= db[table]);
    assert(erase(db, table, Set::<Seq<u8>>::empty()) =~= db);
}

/// Whatever is pruned, protected roots stay, as do all headers within the window.
pub proof fn pruning_keeps_window_and_protected(
    headers: Entries,
    keep: nat,
    protected: Set<Seq<u8>>,
    gone: Set<Seq<u8>>,
)
    requires
        leaves(headers, keep, protected, gone),
        headers.dom().finite(),
    ensures
        gone.subset_of(headers.dom()),
        gone.disjoint(protected),
        headers.dom().len() <= keep ==> gone.len() == 0,
        headers.dom().len() > keep ==> gone.len() <= headers.dom().len() - keep,
        forall|a: Seq<u8>, b: Seq<u8>|
            gone.contains(a) && headers.dom().contains(b) && !gone.contains(b) && !protected.contains(
                b,
            ) ==> #[trigger] header_slots(headers)[a] <= #[trigger] header_slots(headers)[b],
{
    let slots = header_slots(headers);
    assert(slots.dom() =~= headers.dom());
    if headers.dom().len() > keep {
        let retained = choose|retained: Set<Seq<u8>>| #[trigger]
            retains(slots, keep, retained) && gone == outdated(slots, retained, protected);
        let rest = slots.dom().difference(retained);
        vstd::set_lib::lemma_set_difference_len(slots.dom(), retained);
        assert(slots.dom().intersect(retained) =~= retained);
        assert(gone.subset_of(rest));
        vstd::set_lib::lemma_len_subset(gone, rest);
    }
}

/// Pruning bounds what is stored: of what belongs to a header, no more than the window and
/// the protected roots is left.
pub proof fn pruning_bounds_history(
    headers: Entries,
    stored: Entries,
    keep: nat,
    protected: Set<Seq<u8>>,
    gone: Set<Seq<u8>>,
)
    requires
        leaves(headers, keep, protected, gone),
        headers.dom().finite(),
        protected.finite(),
        stored.dom().subset_of(headers.dom()),
    ensures
        stored.remove_keys(gone).dom().finite(),
        stored.remove_keys(gone).dom().len() <= keep + protected.len(),
{
    let slots = header_slots(headers);
    let left = stored.remove_keys(gone).dom();
    assert(slots.dom() =~= headers.dom());
    vstd::set_lib::lemma_len_subset(left, headers.dom());
    if headers.dom().len() > keep {
        let retained = choose|retained: Set<Seq<u8>>| #[trigger]
            retains(slots, keep, retained) && gone == outdated(slots, retained, protected);
        let allowed = retained.union(protected);
        vstd::set_lib::lemma_len_union(retained, protected);
        assert(left.subset_of(allowed));
        vstd::set_lib::lemma_len_subset(left, allowed);
    }
}

/// Where a key votes for a validator: the data that its root stands for.
pub open spec fn vote_data(db: Db, key: SignatureKey) -> Option<AttestationData> {
    if db[Table::AttestationDataByRoot].dom().contains(key.1@) {
        decoded::<AttestationData>(db[Table::AttestationDataByRoot][key.1@])
    } else {
        None
    }
}

/// Whether the attestation data that votes name can be decoded, as far as it is stored.
pub open spec fn votes_readable(db: Db, keys: Seq<SignatureKey>) -> bool {
    forall|i: int|
        0 <= i < keys.len() ==> readable(
            db,
            Table::AttestationDataByRoot,
            (#[trigger] keys[i]).1@,
        )
}

/// Whether the key at `i` is a vote of a validator whose data is known.
pub open spec fn votes_at(db: Db, keys: Seq<SignatureKey>, validator: u64, i: int) -> bool {
    0 <= i < keys.len() && keys[i].0 == validator && vote_data(db, keys[i]) is Some
}

/// Whether the key at `i` is the first of the votes of a validator with the highest slot.
pub open spec fn latest_at(db: Db, keys: Seq<SignatureKey>, validator: u64, i: int) -> bool {
    &&& votes_at(db, keys, validator, i)
    &&& forall|j: int| #[trigger]
        votes_at(db, keys, validator, j) ==> vote_data(db, keys[j])->0.slot <= vote_data(
            db,
            keys[i],
        )->0.slot && (j < i ==> vote_data(db, keys[j])->0.slot < vote_data(db, keys[i])->0.slot)
}

/// Whether `latest` gives every validator with a known vote its latest one.
pub open spec fn are_latest(
    db: Db,
    keys: Seq<SignatureKey>,
    latest: Map<u64, AttestationData>,
) -> bool {
    &&& forall|v: u64| #[trigger]
        latest.dom().contains(v) ==> exists|i: int| #[trigger]
            latest_at(db, keys, v, i) && latest[v] == vote_data(db, keys[i])->0
    &&& forall|v: u64, i: int| #[trigger]
        votes_at(db, keys, v, i) ==> latest.dom().contains(v)
}

/// The latest votes are decided by the keys and the known data.
pub proof fn latest_votes_are_unique(
    db: Db,
    keys: Seq<SignatureKey>,
    a: Map<u64, AttestationData>,
    b: Map<u64, AttestationData>,
)
    requires
        are_latest(db, keys, a),
        are_latest(db, keys, b),
    ensures
        a == b,
{
    assert forall|v: u64| a.dom().contains(v) <==> b.dom().contains(v) by {
        if a.dom().contains(v) {
            let i = choose|i: int| #[trigger]
                latest_at(db, keys, v, i) && a[v] == vote_data(db, keys[i])->0;
            assert(votes_at(db, keys, v, i));
        }
        if b.dom().contains(v) {
            let i = choose|i: int| #[trigger]
                latest_at(db, keys, v, i) && b[v] == vote_data(db, keys[i])->0;
            assert(votes_at(db, keys, v, i));
        }
    }
    assert forall|v: u64| a.dom().contains(v) implies a[v] == b[v] by {
        let i = choose|i: int| #[trigger]
            latest_at(db, keys, v, i) && a[v] == vote_data(db, keys[i])->0;
        let j = choose|j: int| #[trigger]
            latest_at(db, keys, v, j) && b[v] == vote_data(db, keys[j])->0;
        assert(votes_at(db, keys, v, i));
        assert(votes_at(db, keys, v, j));
    }
    assert(a =~= b);
}

/// A state with another state root in its latest block header.
pub open spec fn with_state_root(state: StateView, root: Seq<u8>) -> StateView {
    StateView {
        latest_block_header: BlockHeader { state_root: h256(root), ..state.latest_block_header },
        ..state
    }
}

/// The root of an anchor state, computed with a zero state root in its header.
pub open spec fn anchor_state_root(state: StateView) -> Seq<u8> {
    State::root(with_state_root(state, zero_root()))
}

/// Whether the state root in the header is zero (genesis) or the computed one
/// (checkpoint sync).
pub open spec fn anchor_consistent(state: StateView) -> bool {
    state.latest_block_header.state_root@ == zero_root() || state.latest_block_header.state_root@
        == anchor_state_root(state)
}

/// An anchor state with its own root in its header.
pub open spec fn anchored(state: StateView) -> StateView {
    with_state_root(state, anchor_state_root(state))
}

/// A database with the metadata of a store that starts at an anchor.
pub open spec fn with_anchor_metadata(
    db: Db,
    config: ChainConfig,
    root: Seq<u8>,
    slot: u64,
) -> Db {
    let checkpoint = Checkpoint { root: h256(root), slot };
    let db1 = with_metadata::<u64>(db, MetadataKey::Time, 0);
    let db2 = with_metadata::<ChainConfig>(db1, MetadataKey::Config, config);
    let db3 = with_metadata::<H256>(db2, MetadataKey::Head, root);
    let db4 = with_metadata::<H256>(db3, MetadataKey::SafeTarget, root);
    let db5 = with_metadata::<Checkpoint>(db4, MetadataKey::LatestJustified, checkpoint);
    with_metadata::<Checkpoint>(db5, MetadataKey::LatestFinalized, checkpoint)
}

/// A database that starts at an anchor: the metadata, the header, the body if there is
/// one, the state and the entry of the live chain index. `state` is the anchored state.
pub open spec fn with_anchor(
    db: Db,
    state: StateView,
    body: Option<crate::block::BlockBodyView>,
) -> Db {
    let header = state.latest_block_header;
    let root = BlockHeader::root(header);
    let db1 = with_anchor_metadata(db, state.config, root, header.slot);
    let db2 = put(db1, Table::BlockHeaders, root, BlockHeader::enc(header));
    let db3 = match body {
        Some(b) => put(db2, Table::BlockBodies, root, BlockBody::enc(b)),
        None => db2,
    };
    let db4 = put(db3, Table::States, root, State::enc(state));
    put(db4, Table::LiveChain, live_chain_key(header.slot, root), header.parent_root@)
}

/// Updates of the head and, where given, of the justified and finalized checkpoints.
pub open spec fn with_checkpoints(
    db: Db,
    head: Seq<u8>,
    justified: Option<Checkpoint>,
    finalized: Option<Checkpoint>,
) -> Db {
    let db1 = with_metadata::<H256>(db, MetadataKey::Head, head);
    let db2 = match justified {
        Some(c) => with_metadata::<Checkpoint>(db1, MetadataKey::LatestJustified, c),
        None => db1,
    };
    match finalized {
        Some(c) => with_metadata::<Checkpoint>(db2, MetadataKey::LatestFinalized, c),
        None => db2,
    }
}

/// A database without what is final at a slot: older entries of the live chain index,
/// gossip signatures and attestation data up to the slot.
pub open spec fn without_finalized(db: Db, slot: u64) -> Db {
    let db1 = erase(db, Table::LiveChain, live_before(db[Table::LiveChain], slot));
    let db2 = erase(
        db1,
        Table::GossipSignatures,
        expired_keys::<StoredSignature>(db1[Table::GossipSignatures], slot),
    );
    erase(
        db2,
        Table::AttestationDataByRoot,
        expired_keys::<AttestationData>(db2[Table::AttestationDataByRoot], slot),
    )
}

/// Whether `after` is `before` with old states, and then old blocks, pruned.
pub open spec fn history_pruned(before: Db, after: Db, protected: Set<Seq<u8>>) -> bool {
    exists|states: Set<Seq<u8>>, blocks: Set<Seq<u8>>|
        #[trigger] leaves(
            headers_in(before, Table::States),
            STATES_TO_KEEP as nat,
            protected,
            states,
        ) && #[trigger] leaves(
            before[Table::BlockHeaders],
            BLOCKS_TO_KEEP as nat,
            protected,
            blocks,
        ) && after == without_blocks(without_states(before, states), blocks)
}

/// Whether a checkpoint in the metadata is that of a header.
pub open spec fn checkpoint_is(db: Db, key: MetadataKey, header: BlockHeader) -> bool {
    metadata::<Checkpoint>(db, key) matches Some(c) && c.root@ == BlockHeader::root(header)
        && c.slot == header.slot
}

/// Whether a database stands at an anchor: time zero, the anchor's configuration, the
/// anchor as head, safe target and both checkpoints, its header and its state.
pub open spec fn stands_at(db: Db, state: StateView) -> bool {
    let header = state.latest_block_header;
    let root = BlockHeader::root(header);
    &&& metadata::<u64>(db, MetadataKey::Time) == Some(0u64)
    &&& metadata::<ChainConfig>(db, MetadataKey::Config) == Some(state.config)
    &&& metadata::<H256>(db, MetadataKey::Head) == Some(root)
    &&& metadata::<H256>(db, MetadataKey::SafeTarget) == Some(root)
    &&& checkpoint_is(db, MetadataKey::LatestJustified, header)
    &&& checkpoint_is(db, MetadataKey::LatestFinalized, header)
    &&& header_at(db, root) == Some(header)
    &&& db[Table::States].dom().contains(root)
    &&& decoded::<State>(db[Table::States][root]) == Some(state)
    &&& live_at(db[Table::LiveChain], root, header.slot)
}

/// A store that starts at an anchor stands at it.
pub proof fn anchor_reads_back(
    db: Db,
    state: StateView,
    body: Option<crate::block::BlockBodyView>,
    root: H256,
)
    requires
        State::valid(state),
    ensures
        root@ == BlockHeader::root(state.latest_block_header) ==> stands_at(
            with_anchor(db, state, body),
            state,
        ),
{
    if root@ == BlockHeader::root(state.latest_block_header) {
        let header = state.latest_block_header;
        let checkpoint = Checkpoint { root, slot: header.slot };
        lemma_h256_of_view(root);
        lemma_fixed_valid::<Checkpoint>(checkpoint);
        lemma_fixed_valid::<BlockHeader>(header);
        lemma_fixed_valid::<ChainConfig>(state.config);
        read_gives_back_written::<u64>(0);
        read_gives_back_written::<ChainConfig>(state.config);
        read_gives_back_written::<H256>(root@);
        read_gives_back_written::<Checkpoint>(checkpoint);
        read_gives_back_written::<BlockHeader>(header);
        read_gives_back_written::<State>(state);
        assert forall|a: MetadataKey, b: MetadataKey| #[trigger]
            metadata_key(a) == #[trigger] metadata_key(b) implies a == b by {
            metadata_keys_differ(a, b);
        }
    }
}

} // verus!
