//! The fork choice store.

use crate::attestation::{AttestationData, XmssSignature};
use crate::block::{Block, BlockBody, BlockHeader, BlockSignatures, SignedBlock};
use crate::checkpoint::Checkpoint;
use crate::encoding::container::{lemma_head_len, tail_from, width_from};
use crate::encoding::{
    decode_inverts_encode, decoded, lemma_fixed_valid, read_gives_back_written, Ssz, SszContainer,
};
use crate::hash_root::TreeHash;
use crate::ordered_map::{ascending, lemma_ascending_distinct, lists, OrderedMap, OrderedSet};
use crate::primitives::{lemma_h256_from_view, lemma_h256_of_view, lex_lt, zero_root, H256};
use crate::state::{lemma_state_valid, ChainConfig, State, StateView};
use crate::storage::backend::{apply_ops, key_views, StorageBackend, WriteBatch, WriteOpView};
use crate::storage::keys::{
    decode_live_chain_key, decode_signature_key, encode_live_chain_key, encode_signature_key,
    lemma_slots_ascend, live_chain_key, live_chain_key_reads_back, live_root, live_slot,
    metadata_key, metadata_keys_differ, signature_key, signature_key_reads_back, MetadataKey,
    SignatureKey,
};
use crate::storage::model::{
    anchor_consistent, anchor_reads_back, anchor_state_root, anchored, are_latest, block_readable,
    body_told_by_root, empty_body_root, entry_ok, erase, expired, expired_keys, header_at,
    header_slots, headers_in, history_pruned, is_live_chain, latest_at, leaves,
    lemma_empty_body_valid, lemma_erase_nothing, lemma_header_of, lemma_signed_block_sound,
    lemma_sound_erase, lemma_sound_metadata, lemma_sound_put, live_at, live_before, live_keys_ok,
    metadata, metadata_ok, put, readable, signed_block_at, signed_block_ops,
    signed_block_reads_back, sound, stands_at, storable, table_ok, vote_data, votes_at,
    votes_readable, with_anchor, with_anchor_metadata, with_checkpoints, with_live_block,
    with_metadata, with_signed_block, with_state_root, without_blocks, without_finalized,
    without_states, HasSlot,
};
use crate::storage::payloads::{
    distinct_keys, entry_views, last_n, payloads_of, PayloadBuffer, PayloadEntry, PayloadEntryView,
    StoredAggregatedPayload, StoredSignature, StoredSignatureView,
};
use crate::storage::retention::{
    entry_keys, lemma_listed_slots, lists_slots, outdated_keys, root_set, BLOCKS_TO_KEEP,
    STATES_TO_KEEP,
};
use crate::storage::tables::{complete, Db, Entries, Table};
use std::collections::HashMap;
use vstd::prelude::*;
use vstd::slice::slice_to_vec;

verus! {

broadcast use vstd::std_specs::hash::group_hash_axioms;

/// Most entries of the buffer of known aggregated payloads.
///
/// With 9 validators, this holds ~455 unique attestation messages (~30 min at 1/slot).
pub const AGGREGATED_PAYLOAD_CAP: usize = 4096;

/// Most entries of the buffer of new (pending) aggregated payloads.
///
/// Smaller than known since new payloads are drained every interval (~4s).
pub const NEW_PAYLOAD_CAP: usize = 512;

/// Checkpoints to update in the store.
///
/// Used with [`Store::update_checkpoints`] to update the head and, where given, the
/// justified and finalized checkpoints.
#[derive(Clone, Copy, Debug)]
pub struct ForkCheckpoints {
    pub head: H256,
    pub justified: Option<Checkpoint>,
    pub finalized: Option<Checkpoint>,
}

impl ForkCheckpoints {
    /// An update of the head alone.
    pub fn head_only(head: H256) -> (r: ForkCheckpoints)
        ensures
            r.head == head,
            r.justified is None,
            r.finalized is None,
    {
        ForkCheckpoints { head, justified: None, finalized: None }
    }

    /// An update of the head with optional justified and finalized checkpoints.
    pub fn new(
        head: H256,
        justified: Option<Checkpoint>,
        finalized: Option<Checkpoint>,
    ) -> (r: ForkCheckpoints)
        ensures
            r.head == head,
            r.justified == justified,
            r.finalized == finalized,
    {
        ForkCheckpoints { head, justified, finalized }
    }
}

/// Fork choice store over a storage backend.
///
/// The store maintains all state required for fork choice and block processing:
///
/// - **Metadata**: time, config, head, safe target, justified and finalized checkpoints
/// - **Blocks**: headers and bodies stored separately for header-only queries
/// - **States**: states indexed by block root
/// - **Attestations**: known and pending ("new") aggregated payloads
/// - **Signatures**: gossip signatures
/// - **LiveChain**: slot index for fork choice traversal (pruned on finalization)
pub struct Store<B> {
    backend: B,
    new_payloads: PayloadBuffer,
    known_payloads: PayloadBuffer,
    gossip_signatures_count: usize,
}

impl<B: StorageBackend> Store<B> {
    /// The contents of the tables.
    pub closed spec fn db(&self) -> Db {
        self.backend.db()
    }

    /// The new (pending) aggregated payloads, the oldest first.
    pub closed spec fn new_entries(&self) -> Seq<PayloadEntryView> {
        self.new_payloads@
    }

    /// The known aggregated payloads, the oldest first.
    pub closed spec fn known_entries(&self) -> Seq<PayloadEntryView> {
        self.known_payloads@
    }

    /// The counter of gossip signatures.
    pub closed spec fn gossip_count(&self) -> usize {
        self.gossip_signatures_count
    }

    /// Whether the backend is in order and the buffers hold no more than they may.
    pub closed spec fn wf(&self) -> bool {
        &&& self.backend.valid()
        &&& complete(self.backend.db())
        &&& self.new_payloads.wf()
        &&& self.new_payloads.room() == NEW_PAYLOAD_CAP
        &&& self.known_payloads.wf()
        &&& self.known_payloads.room() == AGGREGATED_PAYLOAD_CAP
    }

    /// Whether the store starts at a state, with nothing but that added to what the
    /// backend held.
    pub open spec fn starts_at(
        &self,
        held: Db,
        state: StateView,
        body: Option<crate::block::BlockBodyView>,
    ) -> bool {
        &&& self.wf()
        &&& self.db() == with_anchor(held, anchored(state), body)
        &&& self.new_entries() == Seq::<PayloadEntryView>::empty()
        &&& self.known_entries() == Seq::<PayloadEntryView>::empty()
        &&& self.counts_gossip()
        &&& stands_at(self.db(), anchored(state))
        &&& (forall|t: Table| #[trigger] table_ok(held, t)) ==> sound(self.db())
    }

    /// Whether only the tables may differ from another store.
    pub open spec fn same_buffers(&self, other: &Self) -> bool {
        self.new_entries() == other.new_entries() && self.known_entries() == other.known_entries()
    }

    /// Whether the counter of gossip signatures is the number of stored ones.
    pub open spec fn counts_gossip(&self) -> bool {
        &&& self.db()[Table::GossipSignatures].dom().finite()
        &&& self.gossip_count() == self.db()[Table::GossipSignatures].dom().len()
    }

    /// The buffers of a store in order are within their capacities.
    pub proof fn buffers_are_bounded(&self)
        requires
            self.wf(),
        ensures
            self.new_entries().len() <= NEW_PAYLOAD_CAP,
            self.known_entries().len() <= AGGREGATED_PAYLOAD_CAP,
            complete(self.db()),
    {
    }

    /// A store over the present contents of a backend, with empty buffers.
    pub fn open(backend: B) -> (r: Store<B>)
        requires
            backend.valid(),
        ensures
            r.wf(),
            r.db() == backend.db(),
            r.new_entries() == Seq::<PayloadEntryView>::empty(),
            r.known_entries() == Seq::<PayloadEntryView>::empty(),
            r.counts_gossip(),
    {
        let count: usize = Self::count_gossip_signatures(&backend);
        Store {
            backend,
            new_payloads: PayloadBuffer::new(NEW_PAYLOAD_CAP),
            known_payloads: PayloadBuffer::new(AGGREGATED_PAYLOAD_CAP),
            gossip_signatures_count: count,
        }
    }

    /// The backend.
    pub fn backend(&self) -> (r: &B)
        requires
            self.wf(),
        ensures
            r.valid(),
            r.db() == self.db(),
    {
        &self.backend
    }

    /// The number of stored block headers.
    pub fn block_count(&self) -> (r: usize)
        requires
            self.wf(),
        ensures
            self.db()[Table::BlockHeaders].dom().finite(),
            r == self.db()[Table::BlockHeaders].dom().len(),
    {
        self.backend.count(Table::BlockHeaders)
    }

    /// Counts the stored gossip signatures.
    fn count_gossip_signatures(backend: &B) -> (r: usize)
        requires
            backend.valid(),
        ensures
            complete(backend.db()),
            backend.db()[Table::GossipSignatures].dom().finite(),
            r == backend.db()[Table::GossipSignatures].dom().len(),
    {
        backend.count(Table::GossipSignatures)
    }

    /// Writes a batch.
    fn write(&mut self, batch: WriteBatch)
        requires
            old(self).wf(),
        ensures
            final(self).wf(),
            final(self).db() == apply_ops(old(self).db(), batch@),
            final(self).same_buffers(old(self)),
            final(self).gossip_count() == old(self).gossip_count(),
    {
        proof {
            lemma_apply_complete(self.backend.db(), batch@);
        }
        self.backend.commit(batch);
    }

    /// Puts one entry into a table.
    fn put_entry(&mut self, table: Table, key: Vec<u8>, value: Vec<u8>)
        requires
            old(self).wf(),
        ensures
            final(self).wf(),
            final(self).db() == put(old(self).db(), table, key@, value@),
            final(self).same_buffers(old(self)),
            final(self).gossip_count() == old(self).gossip_count(),
    {
        let mut batch = WriteBatch::new();
        batch.put(table, key, value);
        self.write(batch);
    }

    /// Removes keys from a table.
    fn erase_keys(&mut self, table: Table, keys: Vec<Vec<u8>>)
        requires
            old(self).wf(),
        ensures
            final(self).wf(),
            final(self).db() == erase(old(self).db(), table, key_views(keys@).to_set()),
            final(self).same_buffers(old(self)),
            final(self).gossip_count() == old(self).gossip_count(),
    {
        let mut batch = WriteBatch::new();
        batch.delete_batch(table, keys);
        self.write(batch);
    }

    // ============ Metadata Helpers ============

    fn get_metadata<T: Ssz>(&self, key: MetadataKey) -> (r: T)
        requires
            self.wf(),
            metadata::<T>(self.db(), key) is Some,
        ensures
            Some(r@) == metadata::<T>(self.db(), key),
    {
        let name = key.bytes();
        let bytes = self.backend.get(Table::Metadata, name.as_slice()).expect(
            "metadata key exists",
        );
        let value = T::from_ssz_bytes(bytes.as_slice());
        proof {
            let expected = metadata::<T>(self.db(), key)->0;
            decode_inverts_encode::<T>(bytes@, expected);
            assert(T::enc(expected) == bytes@);
            if value is Ok {
                decode_inverts_encode::<T>(bytes@, value->Ok_0@);
            }
        }
        value.expect("valid encoding")
    }

    fn set_metadata<T: Ssz>(&mut self, key: MetadataKey, value: &T)
        requires
            old(self).wf(),
            T::valid(value@),
        ensures
            final(self).wf(),
            final(self).db() == with_metadata::<T>(old(self).db(), key, value@),
            final(self).same_buffers(old(self)),
            final(self).gossip_count() == old(self).gossip_count(),
    {
        self.put_entry(Table::Metadata, key.bytes(), value.as_ssz_bytes());
    }

    // ============ Time ============

    /// Returns the current store time in interval counts since genesis.
    ///
    /// Each increment represents one 800ms interval. Derive slot and interval as the
    /// quotient and the remainder by the number of intervals in a slot.
    pub fn time(&self) -> (r: u64)
        requires
            self.wf(),
            metadata::<u64>(self.db(), MetadataKey::Time) is Some,
        ensures
            Some(r) == metadata::<u64>(self.db(), MetadataKey::Time),
    {
        self.get_metadata::<u64>(MetadataKey::Time)
    }

    /// Sets the current store time.
    pub fn set_time(&mut self, time: u64)
        requires
            old(self).wf(),
        ensures
            final(self).wf(),
            final(self).db() == with_metadata::<u64>(old(self).db(), MetadataKey::Time, time),
            metadata::<u64>(final(self).db(), MetadataKey::Time) == Some(time),
            final(self).same_buffers(old(self)),
            final(self).gossip_count() == old(self).gossip_count(),
            sound(old(self).db()) ==> sound(final(self).db()),
    {
        self.set_metadata(MetadataKey::Time, &time);
        proof {
            read_gives_back_written::<u64>(time);
            if sound(old(self).db()) {
                lemma_sound_metadata(old(self).db(), MetadataKey::Time, u64::enc(time));
            }
        }
    }

    // ============ Config ============

    /// Returns the chain configuration.
    pub fn config(&self) -> (r: ChainConfig)
        requires
            self.wf(),
            metadata::<ChainConfig>(self.db(), MetadataKey::Config) is Some,
        ensures
            Some(r) == metadata::<ChainConfig>(self.db(), MetadataKey::Config),
    {
        self.get_metadata::<ChainConfig>(MetadataKey::Config)
    }

    // ============ Head ============

    /// Returns the current head block root.
    pub fn head(&self) -> (r: H256)
        requires
            self.wf(),
            metadata::<H256>(self.db(), MetadataKey::Head) is Some,
        ensures
            Some(r@) == metadata::<H256>(self.db(), MetadataKey::Head),
    {
        self.get_metadata::<H256>(MetadataKey::Head)
    }

    // ============ Safe Target ============

    /// Returns the safe target block root for attestations.
    pub fn safe_target(&self) -> (r: H256)
        requires
            self.wf(),
            metadata::<H256>(self.db(), MetadataKey::SafeTarget) is Some,
        ensures
            Some(r@) == metadata::<H256>(self.db(), MetadataKey::SafeTarget),
    {
        self.get_metadata::<H256>(MetadataKey::SafeTarget)
    }

    /// Sets the safe target block root.
    pub fn set_safe_target(&mut self, safe_target: H256)
        requires
            old(self).wf(),
        ensures
            final(self).wf(),
            final(self).db() == with_metadata::<H256>(
                old(self).db(),
                MetadataKey::SafeTarget,
                safe_target@,
            ),
            metadata::<H256>(final(self).db(), MetadataKey::SafeTarget) == Some(safe_target@),
            final(self).same_buffers(old(self)),
            final(self).gossip_count() == old(self).gossip_count(),
            sound(old(self).db()) ==> sound(final(self).db()),
    {
        self.set_metadata(MetadataKey::SafeTarget, &safe_target);
        proof {
            read_gives_back_written::<H256>(safe_target@);
            if sound(old(self).db()) {
                lemma_sound_metadata(
                    old(self).db(),
                    MetadataKey::SafeTarget,
                    H256::enc(safe_target@),
                );
            }
        }
    }

    // ============ Checkpoints ============

    /// Returns the latest justified checkpoint.
    pub fn latest_justified(&self) -> (r: Checkpoint)
        requires
            self.wf(),
            metadata::<Checkpoint>(self.db(), MetadataKey::LatestJustified) is Some,
        ensures
            Some(r) == metadata::<Checkpoint>(self.db(), MetadataKey::LatestJustified),
    {
        self.get_metadata::<Checkpoint>(MetadataKey::LatestJustified)
    }

    /// Returns the latest finalized checkpoint.
    pub fn latest_finalized(&self) -> (r: Checkpoint)
        requires
            self.wf(),
            metadata::<Checkpoint>(self.db(), MetadataKey::LatestFinalized) is Some,
        ensures
            Some(r) == metadata::<Checkpoint>(self.db(), MetadataKey::LatestFinalized),
    {
        self.get_metadata::<Checkpoint>(MetadataKey::LatestFinalized)
    }

    // ============ Constructors ============

    /// Initializes a store from an anchor state only.
    ///
    /// The state's latest block header is the header of the anchor block. No block body is
    /// stored since it is not available.
    pub fn from_anchor_state(backend: B, anchor_state: State) -> (r: Store<B>)
        requires
            backend.valid(),
            State::hashable(anchor_state@),
            anchor_consistent(anchor_state@),
        ensures
            r.starts_at(backend.db(), anchor_state@, None),
    {
        Self::init_store(backend, anchor_state, None)
    }

    /// Initializes a store from an anchor state, or hands the backend and the state back if
    /// the state root in the header of the state is neither zero nor the computed one.
    pub fn try_from_anchor_state(backend: B, anchor_state: State) -> (r: Result<
        Store<B>,
        (B, State),
    >)
        requires
            backend.valid(),
            State::hashable(anchor_state@),
        ensures
            match r {
                Ok(store) => anchor_consistent(anchor_state@) && store.starts_at(
                    backend.db(),
                    anchor_state@,
                    None,
                ),
                Err((b, s)) => !anchor_consistent(anchor_state@) && b == backend && s@
                    == anchor_state@,
            },
    {
        let mut state = anchor_state;
        if Self::is_consistent(&mut state) {
            Ok(Self::from_anchor_state(backend, state))
        } else {
            Err((backend, state))
        }
    }

    /// Whether the state root in the header is zero or the computed one.
    fn is_consistent(state: &mut State) -> (r: bool)
        requires
            State::hashable(old(state)@),
        ensures
            r == anchor_consistent(old(state)@),
            final(state)@ == old(state)@,
    {
        let original = state.latest_block_header.state_root;
        let ghost before = state@;
        let zero = H256::zero();
        state.latest_block_header.state_root = zero;
        proof {
            lemma_h256_of_view(zero);
            assert(state@ =~= with_state_root(before, zero_root()));
        }
        let computed = state.tree_hash_root();
        state.latest_block_header.state_root = original;
        proof {
            assert(state@ =~= before);
            if original@ == computed@ {
                lemma_h256_from_view(original, computed);
            }
        }
        original.is_zero() || original == computed
    }

    /// Initializes a store from an anchor state and its block.
    ///
    /// The block must match the state's latest block header in all fields but the state
    /// root.
    pub fn get_forkchoice_store(backend: B, anchor_state: State, anchor_block: Block) -> (r: Store<
        B,
    >)
        requires
            backend.valid(),
            State::hashable(anchor_state@),
            Block::valid(anchor_block@),
            header_matches(anchor_state@.latest_block_header, anchor_block@),
            anchor_consistent(anchor_state@),
        ensures
            r.starts_at(backend.db(), anchor_state@, Some(anchor_block@.body)),
    {
        Self::init_store(backend, anchor_state, Some(anchor_block.body))
    }

    /// Initializes a store from an anchor state and its block, or hands all back if they do
    /// not fit together or the state root in the header of the state is wrong.
    pub fn try_get_forkchoice_store(
        backend: B,
        anchor_state: State,
        anchor_block: Block,
    ) -> (r: Result<Store<B>, (B, State, Block)>)
        requires
            backend.valid(),
            State::hashable(anchor_state@),
            Block::valid(anchor_block@),
        ensures
            match r {
                Ok(store) => header_matches(anchor_state@.latest_block_header, anchor_block@)
                    && anchor_consistent(anchor_state@) && store.starts_at(
                    backend.db(),
                    anchor_state@,
                    Some(anchor_block@.body),
                ),
                Err((b, s, k)) => !(header_matches(
                    anchor_state@.latest_block_header,
                    anchor_block@,
                ) && anchor_consistent(anchor_state@)) && b == backend && s@ == anchor_state@
                    && k == anchor_block,
            },
    {
        let mut state = anchor_state;
        let header = anchor_block.header();
        let own = state.latest_block_header;
        proof {
            if own.parent_root@ == header.parent_root@ {
                lemma_h256_from_view(own.parent_root, header.parent_root);
            }
            if own.body_root@ == header.body_root@ {
                lemma_h256_from_view(own.body_root, header.body_root);
            }
        }
        let matching: bool = own.slot == header.slot && own.proposer_index == header.proposer_index
            && own.parent_root == header.parent_root && own.body_root == header.body_root;
        if matching && Self::is_consistent(&mut state) {
            Ok(Self::get_forkchoice_store(backend, state, anchor_block))
        } else {
            Err((backend, state, anchor_block))
        }
    }

    /// Initializes the store with anchor data. The header is that of the state.
    fn init_store(backend: B, anchor_state: State, anchor_body: Option<BlockBody>) -> (r: Store<B>)
        requires
            backend.valid(),
            State::hashable(anchor_state@),
            anchor_consistent(anchor_state@),
            anchor_body matches Some(body) ==> BlockBody::valid(body@),
        ensures
            r.starts_at(backend.db(), anchor_state@, body_view(anchor_body)),
    {
        let mut backend = backend;
        let mut anchor_state = anchor_state;
        let ghost given = anchor_state@;
        let ghost given_body = body_view(anchor_body);
        // Zero out the state root before computing (the state contains the header, and the
        // header contains the state root)
        let zero = H256::zero();
        anchor_state.latest_block_header.state_root = zero;
        proof {
            lemma_h256_of_view(zero);
            assert(anchor_state@ =~= with_state_root(given, zero_root()));
        }
        let anchor_state_root = anchor_state.tree_hash_root();
        // Populate the correct state root
        anchor_state.latest_block_header.state_root = anchor_state_root;
        proof {
            lemma_h256_of_view(anchor_state_root);
            assert(anchor_state@ =~= anchored(given));
            lemma_state_valid(anchor_state);
        }
        let header = anchor_state.latest_block_header;
        let anchor_block_root = header.tree_hash_root();
        let anchor_checkpoint = Checkpoint { root: anchor_block_root, slot: header.slot };
        proof {
            lemma_h256_of_view(anchor_block_root);
            lemma_fixed_valid::<Checkpoint>(anchor_checkpoint);
            lemma_fixed_valid::<BlockHeader>(header);
            lemma_fixed_valid::<ChainConfig>(anchor_state.config);
        }
        let ghost db0 = backend.db();
        let time: u64 = 0;
        let mut batch = WriteBatch::new();
        // Metadata
        batch.put(Table::Metadata, MetadataKey::Time.bytes(), time.as_ssz_bytes());
        batch.put(
            Table::Metadata,
            MetadataKey::Config.bytes(),
            anchor_state.config.as_ssz_bytes(),
        );
        batch.put(
            Table::Metadata,
            MetadataKey::Head.bytes(),
            anchor_block_root.as_ssz_bytes(),
        );
        batch.put(
            Table::Metadata,
            MetadataKey::SafeTarget.bytes(),
            anchor_block_root.as_ssz_bytes(),
        );
        batch.put(
            Table::Metadata,
            MetadataKey::LatestJustified.bytes(),
            anchor_checkpoint.as_ssz_bytes(),
        );
        batch.put(
            Table::Metadata,
            MetadataKey::LatestFinalized.bytes(),
            anchor_checkpoint.as_ssz_bytes(),
        );
        proof {
            assert(apply_ops(db0, batch@) == with_anchor_metadata(
                db0,
                anchor_state.config,
                anchor_block_root@,
                header.slot,
            ));
        }
        // Block header
        batch.put(Table::BlockHeaders, anchor_block_root.to_vec(), header.as_ssz_bytes());
        // Block body (if provided)
        if let Some(body) = anchor_body {
            batch.put(Table::BlockBodies, anchor_block_root.to_vec(), body.as_ssz_bytes());
        }
        // State
        batch.put(Table::States, anchor_block_root.to_vec(), anchor_state.as_ssz_bytes());
        // Live chain index
        batch.put(
            Table::LiveChain,
            encode_live_chain_key(header.slot, &anchor_block_root),
            header.parent_root.as_ssz_bytes(),
        );
        proof {
            assert(apply_ops(db0, batch@) == with_anchor(db0, anchored(given), given_body));
        }
        backend.commit(batch);
        proof {
            anchor_reads_back(db0, anchor_state@, given_body, anchor_block_root);
            if forall|t: Table| #[trigger] table_ok(db0, t) {
                lemma_anchor_sound(db0, anchor_state@, given_body, anchor_block_root);
            }
        }
        Self::open(backend)
    }

    // ============ Blocks ============

    /// Get the block header by root.
    pub fn get_block_header(&self, root: &H256) -> (r: Option<BlockHeader>)
        requires
            self.wf(),
            readable(self.db(), Table::BlockHeaders, root@),
        ensures
            r == header_at(self.db(), root@),
            r is Some <==> self.db()[Table::BlockHeaders].dom().contains(root@),
    {
        self.get_value::<BlockHeader>(Table::BlockHeaders, root)
    }

    /// Reads and decodes the value of a root.
    fn get_value<T: Ssz>(&self, table: Table, root: &H256) -> (r: Option<T>)
        requires
            self.wf(),
            self.db()[table].dom().contains(root@) ==> decoded::<T>(
                self.db()[table][root@],
            ) is Some,
        ensures
            match r {
                Some(x) => self.db()[table].dom().contains(root@) && decoded::<T>(
                    self.db()[table][root@],
                ) == Some(x@),
                None => !self.db()[table].dom().contains(root@),
            },
    {
        match self.backend.get(table, root.as_slice()) {
            Some(bytes) => {
                let value = T::from_ssz_bytes(bytes.as_slice());
                proof {
                    let expected = decoded::<T>(bytes@)->0;
                    decode_inverts_encode::<T>(bytes@, expected);
                    assert(T::enc(expected) == bytes@);
                    if value is Ok {
                        decode_inverts_encode::<T>(bytes@, value->Ok_0@);
                    }
                }
                Some(value.expect("valid encoding"))
            },
            None => None,
        }
    }

    /// Insert a block as pending (parent state not yet available).
    ///
    /// Stores block data without an entry in the live chain index. This persists the heavy
    /// signature data while keeping the block invisible to fork choice.
    ///
    /// When the block is later inserted with [`Store::insert_signed_block`], the same keys
    /// are overwritten and the entry of the live chain index is added.
    pub fn insert_pending_block(&mut self, root: H256, signed_block: SignedBlock)
        requires
            old(self).wf(),
            storable(signed_block@),
        ensures
            final(self).wf(),
            final(self).db() == with_signed_block(old(self).db(), root@, signed_block@),
            body_told_by_root(signed_block@.message.body) ==> signed_block_at(
                final(self).db(),
                root@,
            ) == Some(signed_block@),
            final(self).same_buffers(old(self)),
            final(self).gossip_count() == old(self).gossip_count(),
            sound(old(self).db()) ==> sound(final(self).db()),
    {
        let mut batch = WriteBatch::new();
        let _ = write_signed_block(&mut batch, &root, signed_block);
        self.write(batch);
        proof {
            if sound(old(self).db()) {
                lemma_signed_block_sound(old(self).db(), root@, signed_block@);
            }
        }
    }

    /// Insert a signed block, storing the block and signatures separately.
    ///
    /// Blocks and signatures are stored in separate tables because the genesis block has no
    /// signatures. This allows uniform storage of all blocks while only storing signatures
    /// for non-genesis blocks.
    pub fn insert_signed_block(&mut self, root: H256, signed_block: SignedBlock)
        requires
            old(self).wf(),
            storable(signed_block@),
        ensures
            final(self).wf(),
            final(self).db() == with_live_block(old(self).db(), root@, signed_block@),
            body_told_by_root(signed_block@.message.body) ==> signed_block_at(
                final(self).db(),
                root@,
            ) == Some(signed_block@),
            final(self).same_buffers(old(self)),
            final(self).gossip_count() == old(self).gossip_count(),
            sound(old(self).db()) ==> sound(final(self).db()),
    {
        let mut batch = WriteBatch::new();
        let block = write_signed_block(&mut batch, &root, signed_block);
        batch.put(
            Table::LiveChain,
            encode_live_chain_key(block.slot, &root),
            block.parent_root.as_ssz_bytes(),
        );
        self.write(batch);
        proof {
            let stored = with_signed_block(old(self).db(), root@, signed_block@);
            assert(signed_block_at(self.db(), root@) == signed_block_at(stored, root@));
            if sound(old(self).db()) {
                lemma_signed_block_sound(old(self).db(), root@, signed_block@);
                live_chain_key_reads_back(signed_block@.message.slot, root@);
                lemma_sound_put(
                    with_signed_block(old(self).db(), root@, signed_block@),
                    Table::LiveChain,
                    live_chain_key(signed_block@.message.slot, root@),
                    signed_block@.message.parent_root,
                );
            }
        }
    }

    /// Get a signed block by combining header, body, and signatures.
    ///
    /// Returns `None` if any of the components are not found.
    /// Note: the genesis block has no signatures.
    pub fn get_signed_block(&self, root: &H256) -> (r: Option<SignedBlock>)
        requires
            self.wf(),
            block_readable(self.db(), root@),
        ensures
            match r {
                Some(block) => signed_block_at(self.db(), root@) == Some(block@) && storable(
                    block@,
                ),
                None => signed_block_at(self.db(), root@) is None,
            },
    {
        if self.backend.get(Table::BlockHeaders, root.as_slice()).is_none() {
            return None;
        }
        if self.backend.get(Table::BlockSignatures, root.as_slice()).is_none() {
            return None;
        }
        let header = match self.get_block_header(root) {
            Some(header) => header,
            None => {
                return None;
            },
        };
        // Use empty body if header indicates empty, otherwise fetch it
        let empty = BlockBody::default();
        let empty_root = empty.tree_hash_root();
        proof {
            if header.body_root@ == empty_root@ {
                lemma_h256_from_view(header.body_root, empty_root);
            }
        }
        let body = if header.body_root == empty_root {
            empty
        } else {
            match self.get_value::<BlockBody>(Table::BlockBodies, root) {
                Some(body) => body,
                None => {
                    return None;
                },
            }
        };
        let signature = match self.get_value::<BlockSignatures>(Table::BlockSignatures, root) {
            Some(signature) => signature,
            None => {
                return None;
            },
        };
        proof {
            lemma_empty_body_valid();
            if header.body_root@ != empty_body_root() {
                decode_inverts_encode::<BlockBody>(self.db()[Table::BlockBodies][root@], body@);
            }
            decode_inverts_encode::<BlockSignatures>(
                self.db()[Table::BlockSignatures][root@],
                signature@,
            );
        }
        let message = Block::from_header_and_body(header, body);
        Some(SignedBlock { message, signature })
    }

    // ============ States ============

    /// Returns the state for the given block root.
    pub fn get_state(&self, root: &H256) -> (r: Option<State>)
        requires
            self.wf(),
            readable(self.db(), Table::States, root@),
        ensures
            match r {
                Some(state) => self.db()[Table::States].dom().contains(root@) && decoded::<State>(
                    self.db()[Table::States][root@],
                ) == Some(state@),
                None => !self.db()[Table::States].dom().contains(root@),
            },
    {
        self.get_value::<State>(Table::States, root)
    }

    /// Returns whether a state exists for the given block root.
    pub fn has_state(&self, root: &H256) -> (r: bool)
        requires
            self.wf(),
        ensures
            r == self.db()[Table::States].dom().contains(root@),
    {
        self.backend.get(Table::States, root.as_slice()).is_some()
    }

    /// Stores a state indexed by block root.
    pub fn insert_state(&mut self, root: H256, state: State)
        requires
            old(self).wf(),
            State::hashable(state@),
        ensures
            final(self).wf(),
            final(self).db() == put(old(self).db(), Table::States, root@, State::enc(state@)),
            decoded::<State>(final(self).db()[Table::States][root@]) == Some(state@),
            final(self).same_buffers(old(self)),
            final(self).gossip_count() == old(self).gossip_count(),
            sound(old(self).db()) ==> sound(final(self).db()),
    {
        proof {
            lemma_state_valid(state);
            read_gives_back_written::<State>(state@);
        }
        self.put_entry(Table::States, root.to_vec(), state.as_ssz_bytes());
        proof {
            if sound(old(self).db()) {
                lemma_sound_put(old(self).db(), Table::States, root@, State::enc(state@));
            }
        }
    }

    // ============ Derived Accessors ============

    /// Returns the slot of the current head block.
    pub fn head_slot(&self) -> (r: u64)
        requires
            self.wf(),
            metadata::<H256>(self.db(), MetadataKey::Head) is Some,
            header_at(self.db(), metadata::<H256>(self.db(), MetadataKey::Head)->0) is Some,
        ensures
            header_at(self.db(), metadata::<H256>(self.db(), MetadataKey::Head)->0) matches Some(h)
                && r == h.slot,
    {
        self.get_block_header(&self.head()).expect("head block exists").slot
    }

    /// Returns the slot of the current safe target block.
    pub fn safe_target_slot(&self) -> (r: u64)
        requires
            self.wf(),
            metadata::<H256>(self.db(), MetadataKey::SafeTarget) is Some,
            header_at(self.db(), metadata::<H256>(self.db(), MetadataKey::SafeTarget)->0) is Some,
        ensures
            header_at(
                self.db(),
                metadata::<H256>(self.db(), MetadataKey::SafeTarget)->0,
            ) matches Some(h) && r == h.slot,
    {
        self.get_block_header(&self.safe_target()).expect("safe target exists").slot
    }

    /// Returns a clone of the head state.
    pub fn head_state(&self) -> (r: State)
        requires
            self.wf(),
            metadata::<H256>(self.db(), MetadataKey::Head) is Some,
            readable(
                self.db(),
                Table::States,
                metadata::<H256>(self.db(), MetadataKey::Head)->0,
            ),
            self.db()[Table::States].dom().contains(
                metadata::<H256>(self.db(), MetadataKey::Head)->0,
            ),
        ensures
            decoded::<State>(
                self.db()[Table::States][metadata::<H256>(self.db(), MetadataKey::Head)->0],
            ) == Some(r@),
    {
        self.get_state(&self.head()).expect("head state is always available")
    }

    // ============ Pruning ============

    /// Prune live chain entries with a slot below `finalized_slot`.
    ///
    /// Blocks and states are retained for historical queries, only the live chain index is
    /// pruned.
    ///
    /// Returns the number of entries pruned.
    pub fn prune_live_chain(&mut self, finalized_slot: u64) -> (r: usize)
        requires
            old(self).wf(),
            live_keys_ok(old(self).db()),
        ensures
            final(self).wf(),
            final(self).db() == erase(
                old(self).db(),
                Table::LiveChain,
                live_before(old(self).db()[Table::LiveChain], finalized_slot),
            ),
            live_before(old(self).db()[Table::LiveChain], finalized_slot).finite(),
            r == live_before(old(self).db()[Table::LiveChain], finalized_slot).len(),
            final(self).same_buffers(old(self)),
            final(self).gossip_count() == old(self).gossip_count(),
            sound(old(self).db()) ==> sound(final(self).db()),
    {
        let ghost db0 = self.db();
        let ghost index = db0[Table::LiveChain];
        let ghost old_keys = live_before(index, finalized_slot);
        let entries = self.backend.entries(Table::LiveChain);
        let ghost keys = entries@.map_values(|e: (Vec<u8>, Vec<u8>)| e.0@);
        let mut keys_to_delete: Vec<Vec<u8>> = Vec::new();
        let mut i: usize = 0;
        // Keys are sorted by slot (big-endian encoding) so we can stop early
        while i < entries.len()
            invariant_except_break
                0 <= i <= entries@.len(),
                key_views(keys_to_delete@) == keys.take(i as int),
                forall|k: int| 0 <= k < i ==> live_slot(#[trigger] keys[k]) < finalized_slot,
            invariant
                keys == entries@.map_values(|e: (Vec<u8>, Vec<u8>)| e.0@),
                forall|k: int| 0 <= k < keys.len() ==> (#[trigger] keys[k]).len() == 40,
            ensures
                i <= entries@.len(),
                key_views(keys_to_delete@) == keys.take(i as int),
                forall|k: int| 0 <= k < i ==> live_slot(#[trigger] keys[k]) < finalized_slot,
                i < entries@.len() ==> live_slot(keys[i as int]) >= finalized_slot,
            decreases entries@.len() - i,
        {
            proof {
                assert(keys[i as int] == entries@[i as int].0@);
            }
            let (slot, _) = decode_live_chain_key(entries[i].0.as_slice());
            if slot >= finalized_slot {
                break;
            }
            let ghost had = key_views(keys_to_delete@);
            keys_to_delete.push(slice_to_vec(entries[i].0.as_slice()));
            proof {
                assert(key_views(keys_to_delete@) =~= had.push(keys[i as int]));
                assert(keys.take(i + 1) =~= keys.take(i as int).push(keys[i as int]));
            }
            i = i + 1;
        }
        let count: usize = keys_to_delete.len();
        proof {
            let taken = keys.take(i as int);
            lemma_ascending_distinct(keys);
            assert(taken.no_duplicates());
            taken.unique_seq_to_set();
            assert forall|k: Seq<u8>| old_keys.contains(k) <==> taken.contains(k) by {
                if old_keys.contains(k) {
                    let p = choose|p: int| 0 <= p < keys.len() && keys[p] == k;
                    if p >= i {
                        if p > i {
                            lemma_slots_ascend(keys, i as int, p);
                        }
                        assert(false);
                    }
                    assert(taken[p] == k);
                }
                if taken.contains(k) {
                    let p = choose|p: int| 0 <= p < taken.len() && taken[p] == k;
                    assert(keys[p] == k);
                }
            }
            assert(old_keys =~= taken.to_set());
        }
        if count == 0 {
            proof {
                assert(old_keys =~= Set::<Seq<u8>>::empty());
                lemma_erase_nothing(db0, Table::LiveChain);
            }
            return 0;
        }
        self.erase_keys(Table::LiveChain, keys_to_delete);
        proof {
            if sound(db0) {
                lemma_sound_erase(db0, Table::LiveChain, old_keys);
            }
        }
        count
    }

    /// Prune the entries of a table whose slot is at most `finalized_slot`. Entries that do
    /// not decode are kept.
    ///
    /// Returns the number of entries pruned.
    fn prune_by_slot<T: HasSlot>(&mut self, table: Table, finalized_slot: u64) -> (r: usize)
        requires
            old(self).wf(),
        ensures
            final(self).wf(),
            final(self).db() == erase(
                old(self).db(),
                table,
                expired_keys::<T>(old(self).db()[table], finalized_slot),
            ),
            expired_keys::<T>(old(self).db()[table], finalized_slot).finite(),
            r == expired_keys::<T>(old(self).db()[table], finalized_slot).len(),
            final(self).same_buffers(old(self)),
            final(self).gossip_count() == old(self).gossip_count(),
    {
        let ghost db0 = self.db();
        let ghost old_keys = expired_keys::<T>(db0[table], finalized_slot);
        let entries = self.backend.entries(table);
        let ghost keys = entries@.map_values(|e: (Vec<u8>, Vec<u8>)| e.0@);
        let ghost values = entries@.map_values(|e: (Vec<u8>, Vec<u8>)| e.1@);
        proof {
            lemma_ascending_distinct(keys);
        }
        let mut to_delete: Vec<Vec<u8>> = Vec::new();
        let mut i: usize = 0;
        proof {
            assert(key_views(to_delete@) =~= Seq::<Seq<u8>>::empty());
        }
        while i < entries.len()
            invariant
                0 <= i <= entries@.len(),
                keys == entries@.map_values(|e: (Vec<u8>, Vec<u8>)| e.0@),
                values == entries@.map_values(|e: (Vec<u8>, Vec<u8>)| e.1@),
                keys.no_duplicates(),
                key_views(to_delete@).no_duplicates(),
                forall|k: Seq<u8>| #[trigger]
                    key_views(to_delete@).contains(k) <==> exists|j: int|
                        0 <= j < i && #[trigger] keys[j] == k && expired::<T>(
                            values[j],
                            finalized_slot,
                        ),
            decreases entries@.len() - i,
        {
            let ghost had = key_views(to_delete@);
            let ghost key = keys[i as int];
            let bytes = entries[i].1.as_slice();
            let old_entry: bool = match T::from_ssz_bytes(bytes) {
                Ok(x) => {
                    proof {
                        decode_inverts_encode::<T>(bytes@, x@);
                    }
                    x.slot() <= finalized_slot
                },
                Err(_) => {
                    proof {
                        if decoded::<T>(bytes@) is Some {
                            decode_inverts_encode::<T>(bytes@, decoded::<T>(bytes@)->0);
                            assert(T::enc(decoded::<T>(bytes@)->0) == bytes@);
                        }
                    }
                    false
                },
            };
            proof {
                assert(values[i as int] == bytes@);
                assert(old_entry == expired::<T>(values[i as int], finalized_slot));
                if had.contains(key) {
                    let j = choose|j: int|
                        0 <= j < i && #[trigger] keys[j] == key && expired::<T>(
                            values[j],
                            finalized_slot,
                        );
                    assert(keys[j] == keys[i as int]);
                }
            }
            if old_entry {
                to_delete.push(slice_to_vec(entries[i].0.as_slice()));
            }
            proof {
                let now = key_views(to_delete@);
                assert(now =~= if old_entry {
                    had.push(key)
                } else {
                    had
                });
                assert forall|a: int, b: int|
                    0 <= a < now.len() && 0 <= b < now.len() && a != b implies now[a]
                    != now[b] by {
                    if a == had.len() {
                        assert(had.contains(now[b]));
                    } else if b == had.len() {
                        assert(had.contains(now[a]));
                    }
                }
                assert forall|k: Seq<u8>| #[trigger]
                    now.contains(k) <==> exists|j: int|
                        0 <= j < i + 1 && #[trigger] keys[j] == k && expired::<T>(
                            values[j],
                            finalized_slot,
                        ) by {
                    if now.contains(k) {
                        let a = choose|a: int| 0 <= a < now.len() && now[a] == k;
                        if a < had.len() {
                            assert(had[a] == k);
                            assert(had.contains(k));
                        } else {
                            assert(keys[i as int] == k);
                        }
                    }
                    if exists|j: int|
                        0 <= j < i + 1 && #[trigger] keys[j] == k && expired::<T>(
                            values[j],
                            finalized_slot,
                        ) {
                        let j = choose|j: int|
                            0 <= j < i + 1 && #[trigger] keys[j] == k && expired::<T>(
                                values[j],
                                finalized_slot,
                            );
                        if j < i {
                            assert(had.contains(k));
                            let a = choose|a: int| 0 <= a < had.len() && had[a] == k;
                            assert(now[a] == k);
                        } else {
                            assert(now[had.len() as int] == k);
                        }
                    }
                }
            }
            i = i + 1;
        }
        let count: usize = to_delete.len();
        proof {
            let found = key_views(to_delete@);
            found.unique_seq_to_set();
            assert forall|k: Seq<u8>| old_keys.contains(k) <==> found.contains(k) by {
                if old_keys.contains(k) {
                    let p = choose|p: int| 0 <= p < keys.len() && keys[p] == k;
                    assert(values[p] == db0[table][keys[p]]);
                }
                if found.contains(k) {
                    let j = choose|j: int|
                        0 <= j < i && #[trigger] keys[j] == k && expired::<T>(
                            values[j],
                            finalized_slot,
                        );
                    assert(values[j] == db0[table][keys[j]]);
                }
            }
            assert(old_keys =~= found.to_set());
        }
        if count > 0 {
            self.erase_keys(table, to_delete);
        } else {
            proof {
                assert(old_keys =~= Set::<Seq<u8>>::empty());
                lemma_erase_nothing(db0, table);
            }
        }
        count
    }

    /// Prune gossip signatures for slots <= `finalized_slot`.
    ///
    /// Returns the number of signatures pruned.
    pub fn prune_gossip_signatures(&mut self, finalized_slot: u64) -> (r: usize)
        requires
            old(self).wf(),
        ensures
            final(self).wf(),
            final(self).db() == erase(
                old(self).db(),
                Table::GossipSignatures,
                expired_keys::<StoredSignature>(
                    old(self).db()[Table::GossipSignatures],
                    finalized_slot,
                ),
            ),
            r == expired_keys::<StoredSignature>(
                old(self).db()[Table::GossipSignatures],
                finalized_slot,
            ).len(),
            final(self).gossip_count() == less(old(self).gossip_count(), r as nat),
            final(self).same_buffers(old(self)),
            sound(old(self).db()) ==> sound(final(self).db()),
            old(self).counts_gossip() ==> final(self).counts_gossip(),
    {
        let ghost db0 = self.db();
        let ghost gone = expired_keys::<StoredSignature>(
            db0[Table::GossipSignatures],
            finalized_slot,
        );
        let pruned: usize = self.prune_by_slot::<StoredSignature>(
            Table::GossipSignatures,
            finalized_slot,
        );
        self.gossip_signatures_count = if self.gossip_signatures_count < pruned {
            0
        } else {
            self.gossip_signatures_count - pruned
        };
        proof {
            if sound(db0) {
                lemma_sound_erase(db0, Table::GossipSignatures, gone);
            }
            if old(self).counts_gossip() {
                lemma_removed_len(db0[Table::GossipSignatures], gone);
            }
        }
        pruned
    }

    /// Prune attestation data by root for slots <= `finalized_slot`.
    ///
    /// Returns the number of entries pruned.
    pub fn prune_attestation_data_by_root(&mut self, finalized_slot: u64) -> (r: usize)
        requires
            old(self).wf(),
        ensures
            final(self).wf(),
            final(self).db() == erase(
                old(self).db(),
                Table::AttestationDataByRoot,
                expired_keys::<AttestationData>(
                    old(self).db()[Table::AttestationDataByRoot],
                    finalized_slot,
                ),
            ),
            r == expired_keys::<AttestationData>(
                old(self).db()[Table::AttestationDataByRoot],
                finalized_slot,
            ).len(),
            final(self).same_buffers(old(self)),
            final(self).gossip_count() == old(self).gossip_count(),
            sound(old(self).db()) ==> sound(final(self).db()),
    {
        let r: usize = self.prune_by_slot::<AttestationData>(
            Table::AttestationDataByRoot,
            finalized_slot,
        );
        proof {
            if sound(old(self).db()) {
                lemma_sound_erase(
                    old(self).db(),
                    Table::AttestationDataByRoot,
                    expired_keys::<AttestationData>(
                        old(self).db()[Table::AttestationDataByRoot],
                        finalized_slot,
                    ),
                );
            }
        }
        r
    }

    /// The roots that leave when all but `keep` of the newest blocks with an entry in a table
    /// and the protected roots are pruned.
    fn old_roots(&self, table: Table, keep: usize, protected_roots: &[H256]) -> (r: Vec<Vec<u8>>)
        requires
            self.wf(),
            table_ok(self.db(), Table::BlockHeaders),
        ensures
            key_views(r@).no_duplicates(),
            leaves(
                headers_in(self.db(), table),
                keep as nat,
                root_set(protected_roots@),
                key_views(r@).to_set(),
            ),
    {
        let ghost headers = self.db()[Table::BlockHeaders];
        let ghost chosen = headers_in(self.db(), table);
        let ghost slots = header_slots(chosen);
        let entries = self.backend.entries(Table::BlockHeaders);
        let ghost keys = entries@.map_values(|e: (Vec<u8>, Vec<u8>)| e.0@);
        let ghost values = entries@.map_values(|e: (Vec<u8>, Vec<u8>)| e.1@);
        proof {
            lemma_ascending_distinct(keys);
        }
        // Collect roots and slots to determine age
        let mut aged: Vec<(Vec<u8>, u64)> = Vec::new();
        let mut i: usize = 0;
        while i < entries.len()
            invariant
                0 <= i <= entries@.len(),
                self.wf(),
                headers == self.db()[Table::BlockHeaders],
                chosen == headers_in(self.db(), table),
                table_ok(self.db(), Table::BlockHeaders),
                slots == header_slots(chosen),
                keys == entries@.map_values(|e: (Vec<u8>, Vec<u8>)| e.0@),
                values == entries@.map_values(|e: (Vec<u8>, Vec<u8>)| e.1@),
                lists(keys, values, headers),
                keys.no_duplicates(),
                entry_keys(aged@).no_duplicates(),
                forall|j: int|
                    0 <= j < aged@.len() ==> slots.dom().contains((#[trigger] aged@[j]).0@)
                        && slots[aged@[j].0@] == aged@[j].1 && keys.take(i as int).contains(
                        aged@[j].0@,
                    ),
                forall|k: int|
                    0 <= k < i && chosen.dom().contains(#[trigger] keys[k]) ==> entry_keys(
                        aged@,
                    ).contains(keys[k]),
            decreases entries@.len() - i,
        {
            let bytes = entries[i].1.as_slice();
            let header = BlockHeader::from_ssz_bytes(bytes);
            proof {
                assert(headers[keys[i as int]] == values[i as int]);
                let expected = decoded::<BlockHeader>(bytes@)->0;
                decode_inverts_encode::<BlockHeader>(bytes@, expected);
                assert(BlockHeader::enc(expected) == bytes@);
                if header is Ok {
                    decode_inverts_encode::<BlockHeader>(bytes@, header->Ok_0@);
                }
            }
            let slot: u64 = header.expect("valid header").slot;
            let ghost had = aged@;
            let kept: bool = self.backend.get(table, entries[i].0.as_slice()).is_some();
            if kept {
                aged.push((slice_to_vec(entries[i].0.as_slice()), slot));
            }
            proof {
                let key = keys[i as int];
                let before = keys.take(i as int);
                let now = keys.take(i + 1);
                assert(now =~= before.push(key));
                assert forall|k: Seq<u8>| before.contains(k) implies now.contains(k) && k != key by {
                    let m = choose|m: int| 0 <= m < before.len() && before[m] == k;
                    assert(now[m] == k);
                    assert(keys[m] == k);
                }
                assert(now[i as int] == key);
                if kept {
                    assert(entry_keys(aged@) =~= entry_keys(had).push(key));
                    assert forall|k: Seq<u8>| entry_keys(had).contains(k) implies entry_keys(
                        aged@,
                    ).contains(k) && k != key by {
                        let m = choose|m: int| 0 <= m < had.len() && entry_keys(had)[m] == k;
                        assert(had[m].0@ == k);
                        assert(entry_keys(aged@)[m] == k);
                    }
                    assert(entry_keys(aged@)[had.len() as int] == key);
                }
            }
            i = i + 1;
        }
        proof {
            assert forall|k: Seq<u8>| #[trigger] slots.dom().contains(k) implies entry_keys(
                aged@,
            ).contains(k) by {
                assert(chosen.dom().contains(k));
                assert(headers.dom().contains(k));
                let m = choose|m: int| 0 <= m < keys.len() && keys[m] == k;
                assert(chosen.dom().contains(keys[m]));
            }
            assert(lists_slots(aged@, slots));
            lemma_listed_slots(aged@, slots);
            assert(slots.dom() =~= chosen.dom());
        }
        if aged.len() <= keep {
            let none: Vec<Vec<u8>> = Vec::new();
            proof {
                assert(key_views(none@).to_set() =~= Set::<Seq<u8>>::empty());
            }
            return none;
        }
        outdated_keys(aged, keep, protected_roots, Ghost(slots))
    }

    /// Prune old states beyond the retention window.
    ///
    /// Keeps the most recent [`STATES_TO_KEEP`] states (by slot of their blocks), plus any
    /// states whose roots appear in `protected_roots` (finalized, justified).
    ///
    /// Returns the number of states pruned.
    pub fn prune_old_states(&mut self, protected_roots: &[H256]) -> (r: usize)
        requires
            old(self).wf(),
            table_ok(old(self).db(), Table::BlockHeaders),
        ensures
            final(self).wf(),
            exists|gone: Set<Seq<u8>>| #[trigger]
                leaves(
                    headers_in(old(self).db(), Table::States),
                    STATES_TO_KEEP as nat,
                    root_set(protected_roots@),
                    gone,
                ) && gone.finite() && gone.subset_of(old(self).db()[Table::States].dom()) && r
                    == gone.len() && final(self).db() == without_states(
                    old(self).db(),
                    gone,
                ),
            final(self).same_buffers(old(self)),
            final(self).gossip_count() == old(self).gossip_count(),
            sound(old(self).db()) ==> sound(final(self).db()),
    {
        let keys_to_delete = self.old_roots(Table::States, STATES_TO_KEEP, protected_roots);
        let count: usize = keys_to_delete.len();
        let ghost gone = key_views(keys_to_delete@).to_set();
        proof {
            key_views(keys_to_delete@).unique_seq_to_set();
            assert(gone.subset_of(headers_in(self.db(), Table::States).dom()));
        }
        if count > 0 {
            self.erase_keys(Table::States, keys_to_delete);
        } else {
            proof {
                assert(gone =~= Set::<Seq<u8>>::empty());
                lemma_erase_nothing(self.db(), Table::States);
            }
        }
        proof {
            if sound(old(self).db()) {
                lemma_sound_erase(old(self).db(), Table::States, gone);
            }
        }
        count
    }

    /// Prune old blocks beyond the retention window.
    ///
    /// Keeps the most recent [`BLOCKS_TO_KEEP`] blocks (by slot), plus any blocks whose
    /// roots appear in `protected_roots` (finalized, justified). Deletes their headers,
    /// bodies and signatures.
    ///
    /// Returns the number of blocks pruned.
    pub fn prune_old_blocks(&mut self, protected_roots: &[H256]) -> (r: usize)
        requires
            old(self).wf(),
            table_ok(old(self).db(), Table::BlockHeaders),
        ensures
            final(self).wf(),
            exists|gone: Set<Seq<u8>>| #[trigger]
                leaves(
                    old(self).db()[Table::BlockHeaders],
                    BLOCKS_TO_KEEP as nat,
                    root_set(protected_roots@),
                    gone,
                ) && gone.finite() && r == gone.len() && final(self).db() == without_blocks(
                    old(self).db(),
                    gone,
                ),
            final(self).same_buffers(old(self)),
            final(self).gossip_count() == old(self).gossip_count(),
            sound(old(self).db()) ==> sound(final(self).db()),
    {
        let keys_to_delete = self.old_roots(Table::BlockHeaders, BLOCKS_TO_KEEP, protected_roots);
        proof {
            assert(headers_in(self.db(), Table::BlockHeaders) =~= self.db()[Table::BlockHeaders]);
        }
        let count: usize = keys_to_delete.len();
        let ghost gone = key_views(keys_to_delete@).to_set();
        proof {
            key_views(keys_to_delete@).unique_seq_to_set();
        }
        if count > 0 {
            let bodies = copy_keys(&keys_to_delete);
            let signatures = copy_keys(&keys_to_delete);
            let mut batch = WriteBatch::new();
            batch.delete_batch(Table::BlockHeaders, keys_to_delete);
            batch.delete_batch(Table::BlockBodies, bodies);
            batch.delete_batch(Table::BlockSignatures, signatures);
            self.write(batch);
        } else {
            proof {
                assert(gone =~= Set::<Seq<u8>>::empty());
                lemma_erase_nothing(self.db(), Table::BlockHeaders);
                lemma_erase_nothing(self.db(), Table::BlockBodies);
                lemma_erase_nothing(self.db(), Table::BlockSignatures);
            }
        }
        proof {
            let db0 = old(self).db();
            if sound(db0) {
                lemma_sound_erase(db0, Table::BlockHeaders, gone);
                let db1 = erase(db0, Table::BlockHeaders, gone);
                lemma_sound_erase(db1, Table::BlockBodies, gone);
                let db2 = erase(db1, Table::BlockBodies, gone);
                lemma_sound_erase(db2, Table::BlockSignatures, gone);
            }
        }
        count
    }

    // ============ Checkpoint Updates ============

    /// Updates head, justified, and finalized checkpoints.
    ///
    /// - Head is always updated to the new value.
    /// - Justified is updated if provided.
    /// - Finalized is updated if provided.
    ///
    /// When finalization advances, prunes the live chain index, and the gossip signatures
    /// and attestation data of finalized slots. Old states and blocks are pruned in any
    /// case, which keeps storage bounded when finalization stalls.
    pub fn update_checkpoints(&mut self, checkpoints: ForkCheckpoints)
        requires
            old(self).wf(),
            table_ok(old(self).db(), Table::BlockHeaders),
            metadata::<Checkpoint>(old(self).db(), MetadataKey::LatestFinalized) is Some,
            checkpoints.finalized matches Some(c) && c.slot > metadata::<Checkpoint>(
                old(self).db(),
                MetadataKey::LatestFinalized,
            )->0.slot ==> live_keys_ok(old(self).db()),
            checkpoints.justified is None ==> metadata::<Checkpoint>(
                old(self).db(),
                MetadataKey::LatestJustified,
            ) is Some,
        ensures
            final(self).wf(),
            ({
                let before = metadata::<Checkpoint>(
                    old(self).db(),
                    MetadataKey::LatestFinalized,
                )->0;
                let written = with_checkpoints(
                    old(self).db(),
                    checkpoints.head@,
                    checkpoints.justified,
                    checkpoints.finalized,
                );
                let finalized = new_or(checkpoints.finalized, before);
                let justified = new_or(
                    checkpoints.justified,
                    metadata::<Checkpoint>(old(self).db(), MetadataKey::LatestJustified)->0,
                );
                history_pruned(
                    if finalized.slot > before.slot {
                        without_finalized(written, finalized.slot)
                    } else {
                        written
                    },
                    final(self).db(),
                    root_set(seq![finalized.root, justified.root]),
                ) && final(self).gossip_count() == if finalized.slot > before.slot {
                    less(
                        old(self).gossip_count(),
                        expired_keys::<StoredSignature>(
                            old(self).db()[Table::GossipSignatures],
                            finalized.slot,
                        ).len(),
                    )
                } else {
                    old(self).gossip_count()
                } && metadata::<H256>(final(self).db(), MetadataKey::Head) == Some(
                    checkpoints.head@,
                ) && metadata::<Checkpoint>(final(self).db(), MetadataKey::LatestFinalized) == Some(
                    finalized,
                ) && metadata::<Checkpoint>(final(self).db(), MetadataKey::LatestJustified) == Some(
                    justified,
                )
            }),
            final(self).same_buffers(old(self)),
            sound(old(self).db()) ==> sound(final(self).db()),
            old(self).counts_gossip() ==> final(self).counts_gossip(),
    {
        let ghost db0 = self.db();
        // Read old finalized slot before updating metadata
        let old_finalized = self.latest_finalized();
        let head = checkpoints.head;
        let mut batch = WriteBatch::new();
        batch.put(Table::Metadata, MetadataKey::Head.bytes(), head.as_ssz_bytes());
        if let Some(justified) = checkpoints.justified {
            proof {
                lemma_fixed_valid::<Checkpoint>(justified);
            }
            batch.put(
                Table::Metadata,
                MetadataKey::LatestJustified.bytes(),
                justified.as_ssz_bytes(),
            );
        }
        if let Some(finalized) = checkpoints.finalized {
            proof {
                lemma_fixed_valid::<Checkpoint>(finalized);
            }
            batch.put(
                Table::Metadata,
                MetadataKey::LatestFinalized.bytes(),
                finalized.as_ssz_bytes(),
            );
        }
        self.write(batch);
        let ghost written = self.db();
        proof {
            assert(written == with_checkpoints(
                db0,
                checkpoints.head@,
                checkpoints.justified,
                checkpoints.finalized,
            ));
            lemma_checkpoints_written(db0, checkpoints);
        }
        // Prune after successful checkpoint update
        match checkpoints.finalized {
            Some(finalized) => {
                if finalized.slot > old_finalized.slot {
                    let _ = self.prune_live_chain(finalized.slot);
                    // Prune signatures and attestation data for finalized slots
                    let _ = self.prune_gossip_signatures(finalized.slot);
                    let _ = self.prune_attestation_data_by_root(finalized.slot);
                    proof {
                        assert(self.db() == without_finalized(written, finalized.slot));
                    }
                }
            },
            None => {},
        }
        let ghost trimmed = self.db();
        proof {
            assert(trimmed[Table::Metadata] == written[Table::Metadata]);
            assert(trimmed[Table::BlockHeaders] == db0[Table::BlockHeaders]);
            assert(table_ok(trimmed, Table::BlockHeaders));
        }
        let finalized = self.latest_finalized();
        let justified = self.latest_justified();
        let protected_roots: Vec<H256> = vec![finalized.root, justified.root];
        // Prune old states before blocks: state pruning uses headers for slot lookup
        let _ = self.prune_old_states(protected_roots.as_slice());
        let ghost without = self.db();
        proof {
            assert(without[Table::BlockHeaders] == db0[Table::BlockHeaders]);
            assert(table_ok(without, Table::BlockHeaders));
        }
        let _ = self.prune_old_blocks(protected_roots.as_slice());
        proof {
            let protected = root_set(protected_roots@);
            let states = choose|gone: Set<Seq<u8>>| #[trigger]
                leaves(
                    headers_in(trimmed, Table::States),
                    STATES_TO_KEEP as nat,
                    protected,
                    gone,
                ) && without == without_states(trimmed, gone);
            let blocks = choose|gone: Set<Seq<u8>>| #[trigger]
                leaves(
                    without[Table::BlockHeaders],
                    BLOCKS_TO_KEEP as nat,
                    protected,
                    gone,
                ) && self.db() == without_blocks(without, gone);
            assert(leaves(
                headers_in(trimmed, Table::States),
                STATES_TO_KEEP as nat,
                protected,
                states,
            ));
            assert(leaves(trimmed[Table::BlockHeaders], BLOCKS_TO_KEEP as nat, protected, blocks));
            assert(history_pruned(trimmed, self.db(), protected));
            assert(protected_roots@ =~= seq![finalized.root, justified.root]);
            assert(self.db()[Table::GossipSignatures] == trimmed[Table::GossipSignatures]);
            assert(self.db()[Table::Metadata] == written[Table::Metadata]);
        }
    }

    // ============ Live Chain ============

    /// Get block data for fork choice: root -> (slot, parent_root).
    ///
    /// Reads only the live chain index. Returns only non-finalized blocks and the anchor,
    /// since the index is pruned on finalization.
    pub fn get_live_chain(&self) -> (r: OrderedMap<H256, (u64, H256)>)
        requires
            self.wf(),
            table_ok(self.db(), Table::LiveChain),
        ensures
            r.wf(),
            is_live_chain(self.db()[Table::LiveChain], r@),
    {
        let ghost index = self.db()[Table::LiveChain];
        let entries = self.backend.entries(Table::LiveChain);
        let ghost keys = entries@.map_values(|e: (Vec<u8>, Vec<u8>)| e.0@);
        let ghost values = entries@.map_values(|e: (Vec<u8>, Vec<u8>)| e.1@);
        let mut chain: OrderedMap<H256, (u64, H256)> = OrderedMap::new();
        let mut i: usize = 0;
        while i < entries.len()
            invariant
                0 <= i <= entries@.len(),
                keys == entries@.map_values(|e: (Vec<u8>, Vec<u8>)| e.0@),
                values == entries@.map_values(|e: (Vec<u8>, Vec<u8>)| e.1@),
                lists(keys, values, index),
                index == self.db()[Table::LiveChain],
                table_ok(self.db(), Table::LiveChain),
                chain.wf(),
                forall|root: Seq<u8>| #[trigger]
                    chain@.dom().contains(root) ==> live_at(index, root, chain@[root].0)
                        && chain@[root].1 == index[live_chain_key(chain@[root].0, root)] && exists|
                        j: int,
                    | 0 <= j < i && #[trigger] keys[j] == live_chain_key(chain@[root].0, root),
                forall|j: int|
                    0 <= j < i ==> chain@.dom().contains(live_root(#[trigger] keys[j]))
                        && live_slot(keys[j]) <= chain@[live_root(keys[j])].0,
            decreases entries@.len() - i,
        {
            let ghost key = keys[i as int];
            proof {
                assert(index.dom().contains(keys[i as int]));
                assert(index[keys[i as int]] == values[i as int]);
                assert(entry_ok(Table::LiveChain, key, index[key]));
            }
            let (slot, root) = decode_live_chain_key(entries[i].0.as_slice());
            let parent_root = H256::from_slice(entries[i].1.as_slice());
            let ghost had = chain@;
            chain.insert(root, (slot, parent_root));
            proof {
                assert(chain@ == had.insert(root@, (slot, parent_root@)));
                assert forall|x: Seq<u8>| #[trigger]
                    chain@.dom().contains(x) implies live_at(index, x, chain@[x].0)
                    && chain@[x].1 == index[live_chain_key(chain@[x].0, x)] && exists|j: int|
                    0 <= j < i + 1 && #[trigger] keys[j] == live_chain_key(chain@[x].0, x) by {
                    if x == root@ {
                        assert(keys[i as int] == live_chain_key(slot, root@));
                    } else {
                        assert(had.dom().contains(x));
                        let j = choose|j: int|
                            0 <= j < i && #[trigger] keys[j] == live_chain_key(had[x].0, x);
                        assert(keys[j] == live_chain_key(chain@[x].0, x));
                    }
                }
                assert forall|j: int| 0 <= j < i + 1 implies chain@.dom().contains(
                    live_root(#[trigger] keys[j]),
                ) && live_slot(keys[j]) <= chain@[live_root(keys[j])].0 by {
                    if j < i {
                        assert(index.dom().contains(keys[j]));
                        assert(entry_ok(Table::LiveChain, keys[j], index[keys[j]]));
                        lemma_slots_ascend(keys, j, i as int);
                    }
                }
            }
            i = i + 1;
        }
        proof {
            assert forall|root: Seq<u8>, slot: u64|
                root.len() == 32 && #[trigger] live_at(index, root, slot) implies chain@.dom().contains(
                root,
            ) && slot <= chain@[root].0 by {
                live_chain_key_reads_back(slot, root);
                let k = live_chain_key(slot, root);
                let j = choose|j: int| 0 <= j < keys.len() && keys[j] == k;
                assert(chain@.dom().contains(live_root(keys[j])));
            }
        }
        chain
    }

    /// Get all block roots of the live chain index.
    ///
    /// Useful for checking block existence without deserializing.
    pub fn get_block_roots(&self) -> (r: OrderedSet<H256>)
        requires
            self.wf(),
            live_keys_ok(self.db()),
        ensures
            r.wf(),
            forall|root: Seq<u8>| #[trigger]
                r@.contains(root) <==> root.len() == 32 && exists|slot: u64| #[trigger]
                    live_at(self.db()[Table::LiveChain], root, slot),
    {
        let ghost index = self.db()[Table::LiveChain];
        let entries = self.backend.entries(Table::LiveChain);
        let ghost keys = entries@.map_values(|e: (Vec<u8>, Vec<u8>)| e.0@);
        let ghost values = entries@.map_values(|e: (Vec<u8>, Vec<u8>)| e.1@);
        let mut roots: OrderedSet<H256> = OrderedSet::new();
        let mut i: usize = 0;
        while i < entries.len()
            invariant
                0 <= i <= entries@.len(),
                keys == entries@.map_values(|e: (Vec<u8>, Vec<u8>)| e.0@),
                values == entries@.map_values(|e: (Vec<u8>, Vec<u8>)| e.1@),
                lists(keys, values, index),
                index == self.db()[Table::LiveChain],
                live_keys_ok(self.db()),
                roots.wf(),
                forall|root: Seq<u8>| #[trigger]
                    roots@.contains(root) ==> root.len() == 32 && exists|slot: u64| #[trigger]
                        live_at(index, root, slot),
                forall|j: int| 0 <= j < i ==> roots@.contains(live_root(#[trigger] keys[j])),
            decreases entries@.len() - i,
        {
            let ghost key = keys[i as int];
            proof {
                assert(index.dom().contains(keys[i as int]));
            }
            let (slot, root) = decode_live_chain_key(entries[i].0.as_slice());
            let ghost had = roots@;
            roots.insert(root);
            proof {
                assert(live_at(index, root@, slot));
                assert forall|j: int| 0 <= j < i + 1 implies roots@.contains(
                    live_root(#[trigger] keys[j]),
                ) by {
                    if j < i {
                        assert(had.contains(live_root(keys[j])));
                    }
                }
            }
            i = i + 1;
        }
        proof {
            assert forall|root: Seq<u8>, slot: u64|
                root.len() == 32 && #[trigger] live_at(index, root, slot) implies roots@.contains(
                root,
            ) by {
                live_chain_key_reads_back(slot, root);
                let k = live_chain_key(slot, root);
                let j = choose|j: int| 0 <= j < keys.len() && keys[j] == k;
                assert(roots@.contains(live_root(keys[j])));
            }
        }
        roots
    }

    // ============ Attestation Data By Root ============
    //
    // Content-addressed attestation data storage. Used to reconstruct per-validator
    // attestation maps from aggregated payloads.

    /// Stores attestation data indexed by its tree hash root.
    pub fn insert_attestation_data_by_root(&mut self, root: H256, data: AttestationData)
        requires
            old(self).wf(),
        ensures
            final(self).wf(),
            final(self).db() == put(
                old(self).db(),
                Table::AttestationDataByRoot,
                root@,
                AttestationData::enc(data),
            ),
            decoded::<AttestationData>(final(self).db()[Table::AttestationDataByRoot][root@])
                == Some(data),
            final(self).same_buffers(old(self)),
            final(self).gossip_count() == old(self).gossip_count(),
            sound(old(self).db()) ==> sound(final(self).db()),
    {
        proof {
            lemma_data_valid(data);
        }
        self.put_entry(Table::AttestationDataByRoot, root.to_vec(), data.as_ssz_bytes());
        proof {
            if sound(old(self).db()) {
                lemma_sound_put(
                    old(self).db(),
                    Table::AttestationDataByRoot,
                    root@,
                    AttestationData::enc(data),
                );
            }
        }
    }

    /// Stores multiple attestation data entries in a single commit.
    pub fn insert_attestation_data_by_root_batch(
        &mut self,
        entries: Vec<(H256, AttestationData)>,
    )
        requires
            old(self).wf(),
        ensures
            final(self).wf(),
            final(self).db() == with_attestation_data(old(self).db(), entries@),
            final(self).same_buffers(old(self)),
            final(self).gossip_count() == old(self).gossip_count(),
            sound(old(self).db()) ==> sound(final(self).db()),
    {
        let ghost db0 = self.db();
        if entries.len() == 0 {
            return;
        }
        let mut batch = WriteBatch::new();
        let mut i: usize = 0;
        proof {
            assert(entries@.take(0) =~= Seq::<(H256, AttestationData)>::empty());
        }
        while i < entries.len()
            invariant
                0 <= i <= entries@.len(),
                apply_ops(db0, batch@) == with_attestation_data(db0, entries@.take(i as int)),
                sound(db0) ==> sound(with_attestation_data(db0, entries@.take(i as int))),
            decreases entries@.len() - i,
        {
            let (root, data) = entries[i];
            proof {
                lemma_data_valid(data);
                assert(entries@.take(i + 1).drop_last() =~= entries@.take(i as int));
                assert(entries@.take(i + 1).last() == (root, data));
                if sound(db0) {
                    lemma_sound_put(
                        with_attestation_data(db0, entries@.take(i as int)),
                        Table::AttestationDataByRoot,
                        root@,
                        AttestationData::enc(data),
                    );
                }
            }
            batch.put(Table::AttestationDataByRoot, root.to_vec(), data.as_ssz_bytes());
            i = i + 1;
        }
        proof {
            assert(entries@.take(i as int) =~= entries@);
        }
        self.write(batch);
    }

    /// Returns attestation data for the given root hash.
    pub fn get_attestation_data_by_root(&self, root: &H256) -> (r: Option<AttestationData>)
        requires
            self.wf(),
            readable(self.db(), Table::AttestationDataByRoot, root@),
        ensures
            r is Some <==> self.db()[Table::AttestationDataByRoot].dom().contains(root@),
            r matches Some(data) ==> decoded::<AttestationData>(
                self.db()[Table::AttestationDataByRoot][root@],
            ) == Some(data),
    {
        self.get_value::<AttestationData>(Table::AttestationDataByRoot, root)
    }

    /// Reconstruct per-validator attestation data from aggregated payloads.
    ///
    /// For each key in the payloads, looks up the attestation data by root. Returns the
    /// latest attestation per validator (by slot); of several at one slot, the first.
    pub fn extract_latest_attestations(&self, keys: &[SignatureKey]) -> (r: HashMap<
        u64,
        AttestationData,
    >)
        requires
            self.wf(),
            votes_readable(self.db(), keys@),
        ensures
            are_latest(self.db(), keys@, r@),
    {
        let mut result: HashMap<u64, AttestationData> = HashMap::new();
        let ghost db = self.db();
        let mut i: usize = 0;
        proof {
            assert(are_latest(db, keys@.take(0), result@));
        }
        while i < keys.len()
            invariant
                0 <= i <= keys@.len(),
                self.wf(),
                db == self.db(),
                votes_readable(db, keys@),
                are_latest(db, keys@.take(i as int), result@),
            decreases keys@.len() - i,
        {
            let (validator_id, data_root) = keys[i];
            let ghost had = result@;
            match self.get_attestation_data_by_root(&data_root) {
                Some(data) => {
                    let should_update: bool = match result.get(&validator_id) {
                        Some(existing) => existing.slot < data.slot,
                        None => true,
                    };
                    if should_update {
                        result.insert(validator_id, data);
                    }
                    proof {
                        lemma_latest_step(db, keys@, i as int, had, result@);
                    }
                },
                None => {
                    proof {
                        lemma_latest_step(db, keys@, i as int, had, result@);
                    }
                },
            }
            i = i + 1;
        }
        proof {
            assert(keys@.take(i as int) =~= keys@);
        }
        result
    }

    /// The latest attestation per validator from known (fork-choice-active) aggregated
    /// payloads only.
    pub fn extract_latest_known_attestations(&self) -> (r: HashMap<u64, AttestationData>)
        requires
            self.wf(),
            votes_readable(self.db(), distinct_keys(self.known_entries())),
        ensures
            are_latest(self.db(), distinct_keys(self.known_entries()), r@),
    {
        let keys = self.known_payloads.unique_keys();
        self.extract_latest_attestations(keys.as_slice())
    }

    // ============ Known Aggregated Payloads ============
    //
    // "Known" aggregated payloads are active in fork choice weight calculations.
    // Promoted from "new" payloads at specific intervals (0 with proposal, 4).

    /// All known aggregated payloads, grouped by key.
    pub fn iter_known_aggregated_payloads(&self) -> (r: Vec<
        (SignatureKey, Vec<StoredAggregatedPayload>),
    >)
        ensures
            is_grouped(self.known_entries(), r@),
    {
        self.known_payloads.grouped()
    }

    /// The deduplicated keys of the known aggregated payloads.
    pub fn iter_known_aggregated_payload_keys(&self) -> (r: Vec<SignatureKey>)
        ensures
            r@ == distinct_keys(self.known_entries()),
    {
        self.known_payloads.unique_keys()
    }

    /// Insert an aggregated payload into the known (fork-choice-active) buffer.
    pub fn insert_known_aggregated_payload(
        &mut self,
        key: SignatureKey,
        payload: StoredAggregatedPayload,
    )
        requires
            old(self).wf(),
        ensures
            final(self).wf(),
            final(self).known_entries() == last_n(
                old(self).known_entries().push((key, payload@)),
                AGGREGATED_PAYLOAD_CAP as nat,
            ),
            final(self).new_entries() == old(self).new_entries(),
            final(self).db() == old(self).db(),
            final(self).gossip_count() == old(self).gossip_count(),
    {
        self.known_payloads.push(key, payload);
    }

    /// Insert multiple aggregated payloads into the known buffer.
    pub fn insert_known_aggregated_payloads_batch(&mut self, entries: Vec<PayloadEntry>)
        requires
            old(self).wf(),
        ensures
            final(self).wf(),
            final(self).known_entries() == last_n(
                old(self).known_entries() + entry_views(entries@),
                AGGREGATED_PAYLOAD_CAP as nat,
            ),
            final(self).new_entries() == old(self).new_entries(),
            final(self).db() == old(self).db(),
            final(self).gossip_count() == old(self).gossip_count(),
    {
        self.known_payloads.push_batch(entries);
    }

    // ============ New Aggregated Payloads ============
    //
    // "New" aggregated payloads are pending: not yet counted in fork choice.
    // Promoted to "known" via `promote_new_aggregated_payloads`.

    /// All new (pending) aggregated payloads, grouped by key.
    pub fn iter_new_aggregated_payloads(&self) -> (r: Vec<
        (SignatureKey, Vec<StoredAggregatedPayload>),
    >)
        ensures
            is_grouped(self.new_entries(), r@),
    {
        self.new_payloads.grouped()
    }

    /// The deduplicated keys of the new aggregated payloads.
    pub fn iter_new_aggregated_payload_keys(&self) -> (r: Vec<SignatureKey>)
        ensures
            r@ == distinct_keys(self.new_entries()),
    {
        self.new_payloads.unique_keys()
    }

    /// Insert an aggregated payload into the new (pending) buffer.
    pub fn insert_new_aggregated_payload(
        &mut self,
        key: SignatureKey,
        payload: StoredAggregatedPayload,
    )
        requires
            old(self).wf(),
        ensures
            final(self).wf(),
            final(self).new_entries() == last_n(
                old(self).new_entries().push((key, payload@)),
                NEW_PAYLOAD_CAP as nat,
            ),
            final(self).known_entries() == old(self).known_entries(),
            final(self).db() == old(self).db(),
            final(self).gossip_count() == old(self).gossip_count(),
    {
        self.new_payloads.push(key, payload);
    }

    /// Insert multiple aggregated payloads into the new buffer.
    pub fn insert_new_aggregated_payloads_batch(&mut self, entries: Vec<PayloadEntry>)
        requires
            old(self).wf(),
        ensures
            final(self).wf(),
            final(self).new_entries() == last_n(
                old(self).new_entries() + entry_views(entries@),
                NEW_PAYLOAD_CAP as nat,
            ),
            final(self).known_entries() == old(self).known_entries(),
            final(self).db() == old(self).db(),
            final(self).gossip_count() == old(self).gossip_count(),
    {
        self.new_payloads.push_batch(entries);
    }

    /// Promotes all new aggregated payloads to known, making them active in fork choice.
    ///
    /// Empties the new buffer and pushes all of its entries into the known buffer.
    pub fn promote_new_aggregated_payloads(&mut self)
        requires
            old(self).wf(),
        ensures
            final(self).wf(),
            final(self).new_entries() == Seq::<PayloadEntryView>::empty(),
            final(self).known_entries() == last_n(
                old(self).known_entries() + old(self).new_entries(),
                AGGREGATED_PAYLOAD_CAP as nat,
            ),
            final(self).db() == old(self).db(),
            final(self).gossip_count() == old(self).gossip_count(),
    {
        let drained = self.new_payloads.drain();
        self.known_payloads.push_batch(drained);
    }

    /// Returns the number of entries in the new (pending) aggregated payloads buffer.
    pub fn new_aggregated_payloads_count(&self) -> (r: usize)
        ensures
            r == self.new_entries().len(),
    {
        self.new_payloads.len()
    }

    /// Returns the number of entries in the known (fork-choice-active) buffer.
    pub fn known_aggregated_payloads_count(&self) -> (r: usize)
        ensures
            r == self.known_entries().len(),
    {
        self.known_payloads.len()
    }

    // ============ Gossip Signatures ============
    //
    // Gossip signatures are individual validator signatures received via P2P.
    // They're aggregated into proofs for block signature verification.

    /// Returns the number of gossip signatures stored.
    pub fn gossip_signatures_count(&self) -> (r: usize)
        ensures
            r == self.gossip_count(),
    {
        self.gossip_signatures_count
    }

    /// Delete specific gossip signatures by key.
    ///
    /// The counter goes down by the number of stored keys among them, each counted once, so
    /// that it stays the number of stored signatures.
    pub fn delete_gossip_signatures(&mut self, keys: &[SignatureKey])
        requires
            old(self).wf(),
        ensures
            final(self).wf(),
            final(self).db() == erase(
                old(self).db(),
                Table::GossipSignatures,
                encoded_keys(keys@).to_set(),
            ),
            final(self).gossip_count() == less(
                old(self).gossip_count(),
                encoded_keys(keys@).to_set().intersect(
                    old(self).db()[Table::GossipSignatures].dom(),
                ).len(),
            ),
            final(self).same_buffers(old(self)),
            sound(old(self).db()) ==> sound(final(self).db()),
            old(self).counts_gossip() ==> final(self).counts_gossip(),
    {
        let ghost db0 = self.db();
        let ghost table = db0[Table::GossipSignatures];
        let ghost names = encoded_keys(keys@);
        if keys.len() == 0 {
            proof {
                assert(names.to_set() =~= Set::<Seq<u8>>::empty());
                assert(names.to_set().intersect(table.dom()) =~= Set::<Seq<u8>>::empty());
                lemma_erase_nothing(db0, Table::GossipSignatures);
            }
            return;
        }
        let mut encoded: Vec<Vec<u8>> = Vec::new();
        // The keys that are stored, each once, so that the counter stays right
        let mut stored: OrderedSet<Vec<u8>> = OrderedSet::new();
        let mut i: usize = 0;
        proof {
            assert(names.take(0).to_set().intersect(table.dom()) =~= Set::<Seq<u8>>::empty());
        }
        while i < keys.len()
            invariant
                0 <= i <= keys@.len(),
                self.wf(),
                table == self.db()[Table::GossipSignatures],
                names == encoded_keys(keys@),
                stored.wf(),
                stored@ == names.take(i as int).to_set().intersect(table.dom()),
                encoded@.len() == i,
                forall|k: int|
                    0 <= k < i ==> (#[trigger] encoded@[k])@ == signature_key(
                        keys@[k].0,
                        keys@[k].1@,
                    ),
            decreases keys@.len() - i,
        {
            let key = encode_signature_key(&keys[i]);
            let ghost name = key@;
            let ghost before = stored@;
            if self.backend.get(Table::GossipSignatures, key.as_slice()).is_some() {
                stored.insert(slice_to_vec(key.as_slice()));
            }
            encoded.push(key);
            proof {
                assert(names[i as int] == name);
                let had = names.take(i as int);
                let now = names.take(i + 1);
                assert(now =~= had.push(name));
                assert forall|k: Seq<u8>| now.to_set().contains(k) <==> had.to_set().insert(
                    name,
                ).contains(k) by {
                    if had.contains(k) {
                        let m = choose|m: int| 0 <= m < had.len() && had[m] == k;
                        assert(now[m] == k);
                    }
                    if k == name {
                        assert(now[i as int] == k);
                    }
                    if now.contains(k) && k != name {
                        let m = choose|m: int| 0 <= m < now.len() && now[m] == k;
                        assert(had[m] == k);
                    }
                }
                assert(stored@ =~= now.to_set().intersect(table.dom()));
            }
            i = i + 1;
        }
        proof {
            assert(names.take(i as int) =~= names);
            assert(key_views(encoded@) =~= names);
        }
        let count: usize = stored.len();
        self.erase_keys(Table::GossipSignatures, encoded);
        self.gossip_signatures_count = if self.gossip_signatures_count < count {
            0
        } else {
            self.gossip_signatures_count - count
        };
        proof {
            if sound(db0) {
                lemma_sound_erase(db0, Table::GossipSignatures, names.to_set());
            }
            if old(self).counts_gossip() {
                let gone = names.to_set().intersect(table.dom());
                lemma_removed_len(table, gone);
                assert(table.remove_keys(names.to_set()) =~= table.remove_keys(gone));
            }
        }
    }

    /// All gossip signatures, in the order of their encoded keys. Entries that do not
    /// decode are left out.
    pub fn iter_gossip_signatures(&self) -> (r: Vec<(SignatureKey, StoredSignature)>)
        requires
            self.wf(),
            table_ok(self.db(), Table::GossipSignatures),
        ensures
            lists_signatures(self.db()[Table::GossipSignatures], r@),
    {
        let ghost table = self.db()[Table::GossipSignatures];
        let entries = self.backend.entries(Table::GossipSignatures);
        let ghost keys = entries@.map_values(|e: (Vec<u8>, Vec<u8>)| e.0@);
        let ghost values = entries@.map_values(|e: (Vec<u8>, Vec<u8>)| e.1@);
        let mut out: Vec<(SignatureKey, StoredSignature)> = Vec::new();
        let mut i: usize = 0;
        while i < entries.len()
            invariant
                0 <= i <= entries@.len(),
                keys == entries@.map_values(|e: (Vec<u8>, Vec<u8>)| e.0@),
                values == entries@.map_values(|e: (Vec<u8>, Vec<u8>)| e.1@),
                lists(keys, values, table),
                table == self.db()[Table::GossipSignatures],
                table_ok(self.db(), Table::GossipSignatures),
                ascending(listed_keys(out@)),
                forall|k: int|
                    0 <= k < out@.len() ==> table.dom().contains(#[trigger] listed_keys(out@)[k])
                        && decoded::<StoredSignature>(table[listed_keys(out@)[k]]) == Some(
                        out@[k].1@,
                    ) && exists|j: int|
                        0 <= j < i && #[trigger] keys[j] == listed_keys(out@)[k],
                forall|j: int|
                    0 <= j < i && decoded::<StoredSignature>(#[trigger] values[j]) is Some
                        ==> listed_keys(out@).contains(keys[j]),
            decreases entries@.len() - i,
        {
            let ghost had = out@;
            let ghost key = keys[i as int];
            proof {
                assert(table.dom().contains(keys[i as int]));
                assert(table[keys[i as int]] == values[i as int]);
                assert(entry_ok(Table::GossipSignatures, key, table[key]));
                assert(values[i as int] == entries@[i as int].1@);
            }
            let bytes = entries[i].1.as_slice();
            match StoredSignature::from_ssz_bytes(bytes) {
                Ok(stored) => {
                    let signature_id = decode_signature_key(entries[i].0.as_slice());
                    proof {
                        decode_inverts_encode::<StoredSignature>(bytes@, stored@);
                    }
                    out.push((signature_id, stored));
                    proof {
                        let before = listed_keys(had);
                        let now = listed_keys(out@);
                        assert(now =~= before.push(key));
                        assert forall|a: int, b: int| 0 <= a < b < now.len() implies #[trigger] lex_lt(
                            now[a],
                            now[b],
                        ) by {
                            if b == before.len() {
                                assert(table.dom().contains(before[a]));
                                let j = choose|j: int|
                                    0 <= j < i && #[trigger] keys[j] == before[a];
                                assert(lex_lt(keys[j], keys[i as int]));
                            } else {
                                assert(lex_lt(before[a], before[b]));
                            }
                        }
                        assert forall|k: int| 0 <= k < out@.len() implies table.dom().contains(
                            #[trigger] now[k],
                        ) && decoded::<StoredSignature>(table[now[k]]) == Some(out@[k].1@)
                            && exists|j: int| 0 <= j < i + 1 && #[trigger] keys[j] == now[k] by {
                            if k < before.len() {
                                assert(table.dom().contains(before[k]));
                                let j = choose|j: int|
                                    0 <= j < i && #[trigger] keys[j] == before[k];
                                assert(keys[j] == now[k]);
                            } else {
                                assert(keys[i as int] == now[k]);
                            }
                        }
                        assert forall|j: int|
                            0 <= j < i + 1 && decoded::<StoredSignature>(
                                #[trigger] values[j],
                            ) is Some implies now.contains(keys[j]) by {
                            if j < i {
                                assert(before.contains(keys[j]));
                                let k = choose|k: int| 0 <= k < before.len() && before[k] == keys[j];
                                assert(now[k] == keys[j]);
                            } else {
                                assert(now[before.len() as int] == key);
                            }
                        }
                    }
                },
                Err(_) => {
                    proof {
                        if decoded::<StoredSignature>(bytes@) is Some {
                            let v = decoded::<StoredSignature>(bytes@)->0;
                            decode_inverts_encode::<StoredSignature>(bytes@, v);
                            assert(StoredSignature::enc(v) == bytes@);
                        }
                        assert forall|k: int| 0 <= k < out@.len() implies table.dom().contains(
                            #[trigger] listed_keys(out@)[k],
                        ) && decoded::<StoredSignature>(table[listed_keys(out@)[k]]) == Some(
                            out@[k].1@,
                        ) && exists|j: int|
                            0 <= j < i + 1 && #[trigger] keys[j] == listed_keys(out@)[k] by {
                            let j = choose|j: int|
                                0 <= j < i && #[trigger] keys[j] == listed_keys(out@)[k];
                            assert(keys[j] == listed_keys(out@)[k]);
                        }
                    }
                },
            }
            i = i + 1;
        }
        proof {
            assert forall|k: Seq<u8>| #[trigger]
                table.dom().contains(k) && decoded::<StoredSignature>(
                    table[k],
                ) is Some implies listed_keys(out@).contains(k) by {
                let j = choose|j: int| 0 <= j < keys.len() && keys[j] == k;
                assert(table[keys[j]] == values[j]);
            }
        }
        out
    }

    /// Stores a gossip signature for later aggregation.
    pub fn insert_gossip_signature(
        &mut self,
        data_root: H256,
        slot: u64,
        validator_id: u64,
        signature: XmssSignature,
    )
        requires
            old(self).wf(),
            XmssSignature::valid(signature@),
        ensures
            final(self).wf(),
            final(self).db() == put(
                old(self).db(),
                Table::GossipSignatures,
                signature_key(validator_id, data_root@),
                StoredSignature::enc(
                    StoredSignatureView { slot, signature_bytes: signature@ },
                ),
            ),
            final(self).gossip_count() == if old(self).db()[Table::GossipSignatures].dom().contains(
                signature_key(validator_id, data_root@),
            ) {
                old(self).gossip_count()
            } else if old(self).gossip_count() == usize::MAX {
                0
            } else {
                (old(self).gossip_count() + 1) as usize
            },
            final(self).same_buffers(old(self)),
            sound(old(self).db()) ==> sound(final(self).db()),
            old(self).counts_gossip() && old(self).gossip_count() < usize::MAX
                ==> final(self).counts_gossip(),
    {
        let ghost db0 = self.db();
        let key: SignatureKey = (validator_id, data_root);
        let encoded_key = encode_signature_key(&key);
        // Check if key already exists to avoid inflating the counter on upsert
        let is_new: bool = self.backend.get(
            Table::GossipSignatures,
            encoded_key.as_slice(),
        ).is_none();
        let stored = StoredSignature::new(slot, signature);
        proof {
            lemma_stored_signature_valid(stored@);
            signature_key_reads_back(validator_id, data_root@);
        }
        let value = stored.as_ssz_bytes();
        self.put_entry(Table::GossipSignatures, encoded_key, value);
        if is_new {
            self.gossip_signatures_count = if self.gossip_signatures_count == usize::MAX {
                0
            } else {
                self.gossip_signatures_count + 1
            };
        }
        proof {
            if sound(db0) {
                lemma_sound_put(
                    db0,
                    Table::GossipSignatures,
                    signature_key(validator_id, data_root@),
                    StoredSignature::enc(stored@),
                );
            }
            let table = db0[Table::GossipSignatures];
            let name = signature_key(validator_id, data_root@);
            assert(table.insert(name, StoredSignature::enc(stored@)).dom() =~= table.dom().insert(
                name,
            ));
        }
    }
}

/// The body in an option.
pub open spec fn body_view(body: Option<BlockBody>) -> Option<crate::block::BlockBodyView> {
    match body {
        Some(b) => Some(b@),
        None => None,
    }
}

/// Whether a header describes a block in all fields but the state root.
pub open spec fn header_matches(header: BlockHeader, block: crate::block::BlockView) -> bool {
    &&& header.slot == block.slot
    &&& header.proposer_index == block.proposer_index
    &&& header.parent_root@ == block.parent_root
    &&& header.body_root@ == BlockBody::root(block.body)
}

/// Write block header, body, and signatures onto an existing batch.
///
/// Returns the block so that callers can access fields like `slot` and `parent_root`.
pub fn write_signed_block(batch: &mut WriteBatch, root: &H256, signed_block: SignedBlock) -> (r:
    Block)
    requires
        storable(signed_block@),
    ensures
        r == signed_block.message,
        final(batch)@ == old(batch)@ + signed_block_ops(root@, signed_block@),
        forall|db: Db| #[trigger]
            apply_ops(db, final(batch)@) == with_signed_block(
                apply_ops(db, old(batch)@),
                root@,
                signed_block@,
            ),
        forall|db: Db|
            body_told_by_root(signed_block@.message.body) ==> #[trigger] signed_block_at(
                with_signed_block(db, root@, signed_block@),
                root@,
            ) == Some(signed_block@),
{
    let ghost before = batch@;
    let ghost v = signed_block@;
    let SignedBlock { message: block, signature } = signed_block;
    let header = block.header();
    proof {
        lemma_header_of(header, v.message);
        lemma_fixed_valid::<BlockHeader>(header);
        assert(root@.push(0).len() != root@.len());
        assert forall|db: Db| body_told_by_root(v.message.body) implies #[trigger] signed_block_at(
            with_signed_block(db, root@, v),
            root@,
        ) == Some(v) by {
            signed_block_reads_back(db, root@, header, v, root@.push(0));
        }
    }
    batch.put(Table::BlockHeaders, root.to_vec(), header.as_ssz_bytes());
    // Skip storing empty bodies - they can be reconstructed from the header's body root
    let empty = BlockBody::default();
    let empty_root = empty.tree_hash_root();
    proof {
        if header.body_root@ == empty_root@ {
            lemma_h256_from_view(header.body_root, empty_root);
        }
    }
    if header.body_root != empty_root {
        batch.put(Table::BlockBodies, root.to_vec(), block.body.as_ssz_bytes());
    }
    batch.put(Table::BlockSignatures, root.to_vec(), signature.as_ssz_bytes());
    proof {
        assert(batch@ =~= before + signed_block_ops(root@, v));
    }
    block
}

/// A database whose entries are in order is sound once it has an anchor.
proof fn lemma_anchor_sound(
    db: Db,
    state: StateView,
    body: Option<crate::block::BlockBodyView>,
    root: H256,
)
    requires
        complete(db),
        forall|t: Table| #[trigger] table_ok(db, t),
        State::valid(state),
        body matches Some(b) ==> BlockBody::valid(b),
        root@ == BlockHeader::root(state.latest_block_header),
    ensures
        sound(with_anchor(db, state, body)),
{
    let header = state.latest_block_header;
    let checkpoint = Checkpoint { root, slot: header.slot };
    lemma_h256_of_view(root);
    lemma_fixed_valid::<Checkpoint>(checkpoint);
    lemma_fixed_valid::<BlockHeader>(header);
    lemma_fixed_valid::<ChainConfig>(state.config);
    read_gives_back_written::<u64>(0);
    read_gives_back_written::<ChainConfig>(state.config);
    read_gives_back_written::<H256>(root@);
    read_gives_back_written::<Checkpoint>(checkpoint);
    read_gives_back_written::<BlockHeader>(header);
    read_gives_back_written::<State>(state);
    let db1 = with_anchor_metadata(db, state.config, root@, header.slot);
    assert(sound(db1)) by {
        assert forall|t: Table| #[trigger] table_ok(db1, t) by {
            assert(table_ok(db, t));
        }
        assert forall|key: MetadataKey|
            db1[Table::Metadata].dom().contains(#[trigger] metadata_key(key)) && metadata_ok(
                key,
                db1[Table::Metadata][metadata_key(key)],
            ) by {
            lemma_six_keys();
        }
    }
    lemma_sound_put(db1, Table::BlockHeaders, root@, BlockHeader::enc(header));
    let db2 = put(db1, Table::BlockHeaders, root@, BlockHeader::enc(header));
    let db3 = match body {
        Some(b) => {
            read_gives_back_written::<BlockBody>(b);
            lemma_sound_put(db2, Table::BlockBodies, root@, BlockBody::enc(b));
            put(db2, Table::BlockBodies, root@, BlockBody::enc(b))
        },
        None => db2,
    };
    lemma_sound_put(db3, Table::States, root@, State::enc(state));
    let db4 = put(db3, Table::States, root@, State::enc(state));
    live_chain_key_reads_back(header.slot, root@);
    lemma_sound_put(
        db4,
        Table::LiveChain,
        live_chain_key(header.slot, root@),
        header.parent_root@,
    );
}

/// The six metadata keys differ from each other.
proof fn lemma_six_keys()
    ensures
        forall|a: MetadataKey, b: MetadataKey| #[trigger]
            metadata_key(a) == #[trigger] metadata_key(b) ==> a == b,
{
    assert forall|a: MetadataKey, b: MetadataKey| #[trigger]
        metadata_key(a) == #[trigger] metadata_key(b) implies a == b by {
        metadata_keys_differ(a, b);
    }
}

/// Payloads grouped by key: each key once, with its payloads in order.
pub open spec fn is_grouped(
    entries: Seq<PayloadEntryView>,
    groups: Seq<(SignatureKey, Vec<StoredAggregatedPayload>)>,
) -> bool {
    &&& groups.map_values(|g: (SignatureKey, Vec<StoredAggregatedPayload>)| g.0) == distinct_keys(
        entries,
    )
    &&& forall|i: int|
        0 <= i < groups.len() ==> crate::encoding::list::item_views((#[trigger] groups[i]).1@)
            == payloads_of(entries, groups[i].0)
}

/// A database with attestation data put into it in turn.
pub open spec fn with_attestation_data(db: Db, entries: Seq<(H256, AttestationData)>) -> Db
    decreases entries.len(),
{
    if entries.len() == 0 {
        db
    } else {
        put(
            with_attestation_data(db, entries.drop_last()),
            Table::AttestationDataByRoot,
            entries.last().0@,
            AttestationData::enc(entries.last().1),
        )
    }
}

/// The encoded forms of signature keys.
pub open spec fn encoded_keys(keys: Seq<SignatureKey>) -> Seq<Seq<u8>> {
    keys.map_values(|k: SignatureKey| signature_key(k.0, k.1@))
}

/// The encoded keys of listed signatures.
pub open spec fn listed_keys(list: Seq<(SignatureKey, StoredSignature)>) -> Seq<Seq<u8>> {
    list.map_values(|e: (SignatureKey, StoredSignature)| signature_key(e.0.0, e.0.1@))
}

/// Whether a list gives all entries of the table that decode, in the order of their keys.
pub open spec fn lists_signatures(
    table: Entries,
    list: Seq<(SignatureKey, StoredSignature)>,
) -> bool {
    &&& ascending(listed_keys(list))
    &&& forall|k: int|
        0 <= k < list.len() ==> table.dom().contains(#[trigger] listed_keys(list)[k]) && decoded::<
            StoredSignature,
        >(table[listed_keys(list)[k]]) == Some(list[k].1@)
    &&& forall|k: Seq<u8>| #[trigger]
        table.dom().contains(k) && decoded::<StoredSignature>(table[k]) is Some ==> listed_keys(
            list,
        ).contains(k)
}

proof fn lemma_data_valid(data: AttestationData)
    ensures
        AttestationData::valid(data),
        decoded::<AttestationData>(AttestationData::enc(data)) == Some(data),
{
    lemma_fixed_valid::<Checkpoint>(data.head);
    lemma_fixed_valid::<Checkpoint>(data.target);
    lemma_fixed_valid::<Checkpoint>(data.source);
    lemma_fixed_valid::<AttestationData>(data);
    read_gives_back_written::<AttestationData>(data);
}

proof fn lemma_stored_signature_valid(v: StoredSignatureView)
    requires
        XmssSignature::valid(v.signature_bytes),
    ensures
        StoredSignature::valid(v),
{
    let layout = StoredSignature::layout();
    let parts = StoredSignature::parts(v);
    StoredSignature::parts_conform(v);
    lemma_head_len(layout, parts, 0, width_from(layout, 0));
    reveal_with_fuel(tail_from, 3);
    reveal_with_fuel(width_from, 3);
}

/// One more key keeps the latest votes latest.
#[verifier::spinoff_prover]
#[verifier::rlimit(40)]
proof fn lemma_latest_step(
    db: Db,
    keys: Seq<SignatureKey>,
    i: int,
    before: Map<u64, AttestationData>,
    after: Map<u64, AttestationData>,
)
    requires
        0 <= i < keys.len(),
        are_latest(db, keys.take(i), before),
        match vote_data(db, keys[i]) {
            None => after == before,
            Some(data) => after == if !before.dom().contains(keys[i].0)
                || before[keys[i].0].slot < data.slot {
                before.insert(keys[i].0, data)
            } else {
                before
            },
        },
    ensures
        are_latest(db, keys.take(i + 1), after),
{
    let old_keys = keys.take(i);
    let new_keys = keys.take(i + 1);
    let voter = keys[i].0;
    assert forall|v: u64, j: int| #[trigger] votes_at(db, new_keys, v, j) && j < i implies votes_at(
        db,
        old_keys,
        v,
        j,
    ) by {
        assert(old_keys[j] == new_keys[j]);
    }
    assert forall|v: u64, j: int| #[trigger] votes_at(db, old_keys, v, j) implies votes_at(
        db,
        new_keys,
        v,
        j,
    ) by {
        assert(old_keys[j] == new_keys[j]);
    }
    assert forall|v: u64| #[trigger] after.dom().contains(v) implies exists|j: int| #[trigger]
        latest_at(db, new_keys, v, j) && after[v] == vote_data(db, new_keys[j])->0 by {
        if before.dom().contains(v) {
            let j = choose|j: int| #[trigger]
                latest_at(db, old_keys, v, j) && before[v] == vote_data(db, old_keys[j])->0;
            assert(votes_at(db, old_keys, v, j));
            assert(old_keys[j] == new_keys[j]);
            if after[v] == before[v] && !(v == voter && vote_data(db, keys[i]) is Some
                && before[v].slot < vote_data(db, keys[i])->0.slot) {
                assert forall|k: int| #[trigger] votes_at(db, new_keys, v, k) implies vote_data(
                    db,
                    new_keys[k],
                )->0.slot <= vote_data(db, new_keys[j])->0.slot && (k < j ==> vote_data(
                    db,
                    new_keys[k],
                )->0.slot < vote_data(db, new_keys[j])->0.slot) by {
                    if k < i {
                        assert(votes_at(db, old_keys, v, k));
                        assert(old_keys[k] == new_keys[k]);
                    }
                }
                assert(latest_at(db, new_keys, v, j));
            } else {
                assert(v == voter);
                assert(votes_at(db, new_keys, v, i));
                assert forall|k: int| #[trigger] votes_at(db, new_keys, v, k) implies vote_data(
                    db,
                    new_keys[k],
                )->0.slot <= vote_data(db, new_keys[i])->0.slot && (k < i ==> vote_data(
                    db,
                    new_keys[k],
                )->0.slot < vote_data(db, new_keys[i])->0.slot) by {
                    if k < i {
                        assert(votes_at(db, old_keys, v, k));
                        assert(old_keys[k] == new_keys[k]);
                    }
                }
                assert(latest_at(db, new_keys, v, i));
            }
        } else {
            assert(v == voter);
            assert(votes_at(db, new_keys, v, i));
            assert forall|k: int| #[trigger] votes_at(db, new_keys, v, k) implies k == i by {
                if k < i {
                    assert(votes_at(db, old_keys, v, k));
                }
            }
            assert(latest_at(db, new_keys, v, i));
        }
    }
    assert forall|v: u64, j: int| #[trigger] votes_at(db, new_keys, v, j) implies after.dom().contains(
        v,
    ) by {
        if j < i {
            assert(votes_at(db, old_keys, v, j));
        }
    }
}

/// A counter after a decrease that stops at zero.
pub open spec fn less(count: usize, n: nat) -> usize {
    if count < n {
        0
    } else {
        (count - n) as usize
    }
}

/// A new checkpoint where one is given, else the old one.
pub open spec fn new_or(new: Option<Checkpoint>, old_value: Checkpoint) -> Checkpoint {
    match new {
        Some(c) => c,
        None => old_value,
    }
}

/// What is read after an update of the checkpoints.
proof fn lemma_checkpoints_written(db: Db, checkpoints: ForkCheckpoints)
    requires
        complete(db),
        metadata::<Checkpoint>(db, MetadataKey::LatestFinalized) is Some,
        checkpoints.justified is None ==> metadata::<Checkpoint>(
            db,
            MetadataKey::LatestJustified,
        ) is Some,
    ensures
        ({
            let written = with_checkpoints(
                db,
                checkpoints.head@,
                checkpoints.justified,
                checkpoints.finalized,
            );
            &&& metadata::<H256>(written, MetadataKey::Head) == Some(checkpoints.head@)
            &&& metadata::<Checkpoint>(written, MetadataKey::LatestFinalized) == Some(
                new_or(
                    checkpoints.finalized,
                    metadata::<Checkpoint>(db, MetadataKey::LatestFinalized)->0,
                ),
            )
            &&& metadata::<Checkpoint>(written, MetadataKey::LatestJustified) == Some(
                new_or(
                    checkpoints.justified,
                    metadata::<Checkpoint>(db, MetadataKey::LatestJustified)->0,
                ),
            )
            &&& forall|t: Table| t != Table::Metadata ==> #[trigger] written[t] == db[t]
            &&& sound(db) ==> sound(written)
        }),
{
    let head = checkpoints.head@;
    read_gives_back_written::<H256>(head);
    lemma_six_keys();
    let db1 = with_metadata::<H256>(db, MetadataKey::Head, head);
    if sound(db) {
        lemma_sound_metadata(db, MetadataKey::Head, H256::enc(head));
    }
    let db2 = match checkpoints.justified {
        Some(c) => {
            lemma_fixed_valid::<Checkpoint>(c);
            read_gives_back_written::<Checkpoint>(c);
            if sound(db) {
                lemma_sound_metadata(db1, MetadataKey::LatestJustified, Checkpoint::enc(c));
            }
            with_metadata::<Checkpoint>(db1, MetadataKey::LatestJustified, c)
        },
        None => db1,
    };
    match checkpoints.finalized {
        Some(c) => {
            lemma_fixed_valid::<Checkpoint>(c);
            read_gives_back_written::<Checkpoint>(c);
            if sound(db) {
                lemma_sound_metadata(db2, MetadataKey::LatestFinalized, Checkpoint::enc(c));
            }
        },
        None => {},
    }
}

/// The size of a table after keys of it are removed.
proof fn lemma_removed_len(entries: Entries, gone: Set<Seq<u8>>)
    requires
        entries.dom().finite(),
        gone.subset_of(entries.dom()),
    ensures
        entries.remove_keys(gone).dom().finite(),
        entries.remove_keys(gone).dom().len() == entries.dom().len() - gone.len(),
        gone.finite(),
{
    vstd::set_lib::lemma_len_subset(gone, entries.dom());
    vstd::set_lib::lemma_set_difference_len(entries.dom(), gone);
    assert(entries.dom().intersect(gone) =~= gone);
    assert(entries.remove_keys(gone).dom() =~= entries.dom().difference(gone));
}

/// Copies keys.
fn copy_keys(keys: &Vec<Vec<u8>>) -> (r: Vec<Vec<u8>>)
    ensures
        key_views(r@) == key_views(keys@),
{
    let mut out: Vec<Vec<u8>> = Vec::new();
    let mut i: usize = 0;
    while i < keys.len()
        invariant
            0 <= i <= keys@.len(),
            out@.len() == i,
            forall|k: int| 0 <= k < i ==> (#[trigger] out@[k])@ == keys@[k]@,
        decreases keys@.len() - i,
    {
        out.push(slice_to_vec(keys[i].as_slice()));
        i = i + 1;
    }
    proof {
        assert(key_views(out@) =~= key_views(keys@));
    }
    out
}

/// Changes keep every table.
proof fn lemma_apply_complete(db: Db, ops: Seq<WriteOpView>)
    requires
        complete(db),
    ensures
        complete(apply_ops(db, ops)),
    decreases ops.len(),
{
    if ops.len() > 0 {
        lemma_apply_complete(db, ops.drop_last());
    }
}

} // verus!
