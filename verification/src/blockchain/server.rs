//! The server that sequences all updates of the chain.

use crate::attestation::{AttestationData, SignedAttestation, XmssSignature};
use crate::block::{AggregatedSignatureProof, Block, BlockSignatures, SignedBlock, SignedBlockView};
use crate::blockchain::key_manager::{
    attestation_signed, may_sign, proposal_signed, signature_of, signing_slot, truncate_slot,
    KeyManager, KeyManagerError, SecretKey, ValidatorKeyPair,
};
use crate::blockchain::pending::{
    chase, climb, noted, waiting, with_child, ClimbEnd, PendingBlocks, PendingView,
};
use crate::blockchain::ticks::{interval_at, is_proposer, proposes, slot_and_interval, slot_at};
use crate::encoding::decoded;
use crate::hash_root::TreeHash;
use crate::primitives::{h256, lemma_h256_of_view, H256};
use crate::state::{ChainConfig, State, StateView, VALIDATOR_REGISTRY_LIMIT};
use crate::storage::backend::StorageBackend;
use crate::storage::keys::MetadataKey;
use crate::storage::model::{
    header_at, lemma_blocks_readable, metadata, signed_block_at, sound, storable, table_ok,
    with_signed_block,
};
use crate::storage::store::Store;
use crate::storage::tables::{Db, Table};
use std::collections::VecDeque;
use vstd::prelude::*;

verus! {

/// What to do next with a block.
pub enum BlockAction {
    /// The state of the block's parent is there: import the block, and then report the
    /// outcome to [`BlockChainServer::block_imported`].
    Import { root: H256, block: SignedBlock },
    /// The block waits; this ancestor is to be fetched from the network.
    Fetch { root: H256 },
    /// The block waits; an ancestor that is stored and can be processed was put into the
    /// queue.
    Queued,
    /// The block's ancestors go round in a circle.
    Endless,
    /// This stored ancestor could be processed, but parts of it are not stored.
    Incomplete { root: H256 },
}

/// What a queue of blocks stands for.
pub open spec fn block_views(blocks: Seq<SignedBlock>) -> Seq<SignedBlockView> {
    blocks.map_values(|b: SignedBlock| b@)
}

/// Whether all blocks of a queue can be stored.
pub open spec fn all_storable(blocks: Seq<SignedBlock>) -> bool {
    forall|i: int| 0 <= i < blocks.len() ==> storable((#[trigger] blocks[i])@)
}

/// The root of a block.
pub open spec fn root_of(block: SignedBlockView) -> H256 {
    h256(Block::root(block.message))
}

/// What waits after a block is stored as waiting for `missing`.
pub open spec fn pended(p: PendingView, block: SignedBlockView, missing: Seq<u8>) -> PendingView {
    PendingView {
        children: with_child(p.children, block.message.parent_root, root_of(block)),
        parents: p.parents.insert(root_of(block)@, missing),
    }
}

/// The signed blocks of roots, as far as all of their parts are stored.
pub open spec fn stored_blocks(db: Db, roots: Seq<H256>) -> Seq<SignedBlockView>
    decreases roots.len(),
{
    if roots.len() == 0 {
        Seq::empty()
    } else {
        let before = stored_blocks(db, roots.drop_last());
        match signed_block_at(db, roots.last()@) {
            Some(block) => before.push(block),
            None => before,
        }
    }
}

/// The duties of a tick.
#[derive(Clone, Copy, PartialEq, Eq, Debug)]
pub struct TickPlan {
    pub slot: u64,
    pub interval: u64,
    /// The validator of this node that proposes a block now, if any. The store is ticked
    /// first, so that the block is built on freshly accepted attestations.
    pub proposer: Option<u64>,
    /// Whether all validators of this node attest now.
    pub attest: bool,
}

/// The server that sequences all updates of the chain.
///
/// Any head or finalization updates are done through this server.
pub struct BlockChainServer<B, K> {
    pub store: Store<B>,
    pub key_manager: KeyManager<K>,
    pub pending: PendingBlocks,
    pub is_aggregator: bool,
}

impl<B: StorageBackend, K: SecretKey> BlockChainServer<B, K> {
    /// Whether the store is in order and sound.
    pub open spec fn wf(&self) -> bool {
        self.store.wf() && sound(self.store.db()) && self.pending.wf()
    }

    /// Which blocks wait.
    pub open spec fn waiting(&self) -> PendingView {
        self.pending@
    }

    /// Whether this node acts as a committee aggregator.
    pub open spec fn aggregates(&self) -> bool {
        self.is_aggregator
    }

    /// Whether everything but the waiting blocks and the tables is as in another server.
    pub open spec fn same_duties(&self, other: &Self) -> bool {
        &&& self.key_manager == other.key_manager
        &&& self.aggregates() == other.aggregates()
        &&& self.store.same_buffers(&other.store)
        &&& self.store.gossip_count() == other.store.gossip_count()
    }

    /// A server without waiting blocks.
    pub fn new(store: Store<B>, key_manager: KeyManager<K>, is_aggregator: bool) -> (r: Self)
        requires
            store.wf(),
            sound(store.db()),
        ensures
            r.wf(),
            r.store == store,
            r.key_manager == key_manager,
            r.aggregates() == is_aggregator,
            r.waiting().children == Map::<Seq<u8>, Seq<H256>>::empty(),
            r.waiting().parents == Map::<Seq<u8>, Seq<u8>>::empty(),
    {
        BlockChainServer { store, key_manager, pending: PendingBlocks::new(), is_aggregator }
    }

    // ============ Blocks ============

    /// Takes the next block out of the queue and says what to do with it.
    pub fn next_action(&mut self, queue: &mut VecDeque<SignedBlock>) -> (r: Option<BlockAction>)
        requires
            old(self).wf(),
            all_storable(old(queue)@),
        ensures
            final(self).wf(),
            all_storable(final(queue)@),
            match r {
                None => old(queue)@.len() == 0 && final(queue)@ == old(queue)@ && *final(self)
                    == *old(self),
                Some(action) => old(queue)@.len() > 0 && sequenced(
                    old(queue)@[0]@,
                    old(self).store.db(),
                    old(self).waiting(),
                    block_views(old(queue)@.drop_first()),
                    final(self).store.db(),
                    final(self).waiting(),
                    block_views(final(queue)@),
                    action,
                ) && final(self).same_duties(old(self)),
            },
    {
        match queue.pop_front() {
            Some(block) => {
                proof {
                    assert(queue@ =~= old(queue)@.drop_first());
                }
                Some(self.process_or_pend_block(block, queue))
            },
            None => None,
        }
    }

    /// Try to process a single block. If its parent state is missing, store it as pending
    /// and find out which ancestor is missing.
    ///
    /// An ancestor that was missing when a block came may have come since, and wait for a
    /// parent of its own. So the noted ancestors are followed to their end, and from there
    /// the stored headers upwards: a block that is stored from an earlier session is not to
    /// be fetched again.
    pub fn process_or_pend_block(
        &mut self,
        signed_block: SignedBlock,
        queue: &mut VecDeque<SignedBlock>,
    ) -> (r: BlockAction)
        requires
            old(self).wf(),
            storable(signed_block@),
            all_storable(old(queue)@),
        ensures
            final(self).wf(),
            all_storable(final(queue)@),
            final(self).same_duties(old(self)),
            sequenced(
                signed_block@,
                old(self).store.db(),
                old(self).waiting(),
                block_views(old(queue)@),
                final(self).store.db(),
                final(self).waiting(),
                block_views(final(queue)@),
                r,
            ),
    {
        let ghost block = signed_block@;
        let ghost db0 = self.store.db();
        let ghost p0 = self.pending@;
        let block_root = signed_block.message.tree_hash_root();
        proof {
            lemma_h256_of_view(block_root);
        }
        let parent_root = signed_block.message.parent_root;
        // Check if parent state exists before attempting to process
        if self.store.has_state(&parent_root) {
            return BlockAction::Import { root: block_root, block: signed_block };
        }
        // Resolve the actual missing ancestor by following the noted ones
        let missing_root: H256 = match self.pending.resolve(&parent_root) {
            Some(root) => root,
            None => {
                return BlockAction::Endless;
            },
        };
        self.pending.set_parent(&block_root, missing_root);
        // Persist block data (no live chain entry: invisible to fork choice)
        self.store.insert_pending_block(block_root, signed_block);
        self.pending.add_child(&parent_root, block_root);
        let ghost db1 = self.store.db();
        let ghost p1 = self.pending@;
        proof {
            assert(p1 =~= pended(p0, block, missing_root@));
        }
        // Walk up through the stored headers
        let mut current: H256 = missing_root;
        let mut fuel: usize = self.store.block_count();
        let ghost all = fuel as nat;
        loop
            invariant
                self.wf(),
                self.store.db() == db1,
                all == db1[Table::BlockHeaders].dom().len(),
                climb(db1, p1, missing_root, all) == climb(
                    db1,
                    self.pending@,
                    current,
                    fuel as nat,
                ),
                self.same_duties(old(self)),
                queue@ == old(queue)@,
                all_storable(queue@),
                block == signed_block@,
                db0 == old(self).store.db(),
                p0 == old(self).waiting(),
                db1 == with_signed_block(db0, root_of(block)@, block),
                p1 == pended(p0, block, missing_root@),
                !db0[Table::States].dom().contains(block.message.parent_root),
                chase(p0.parents, block.message.parent_root, p0.parents.dom().len()) == Some(
                    missing_root@,
                ),
            decreases fuel,
        {
            proof {
                assert(table_ok(db1, Table::BlockHeaders));
                assert(table_ok(db1, Table::BlockBodies));
                assert(table_ok(db1, Table::BlockSignatures));
                lemma_blocks_readable(db1, current@);
                lemma_h256_of_view(missing_root);
            }
            match self.store.get_block_header(&current) {
                None => {
                    // Request the actual missing block from network
                    return BlockAction::Fetch { root: current };
                },
                Some(header) => {
                    if self.store.has_state(&header.parent_root) {
                        // Parent state available: the stored block can be processed
                        match self.store.get_signed_block(&current) {
                            Some(ready) => {
                                let ghost had = queue@;
                                queue.push_back(ready);
                                proof {
                                    assert(block_views(queue@) =~= block_views(had).push(ready@));
                                }
                                return BlockAction::Queued;
                            },
                            None => {
                                return BlockAction::Incomplete { root: current };
                            },
                        }
                    }
                    if fuel == 0 {
                        return BlockAction::Endless;
                    }
                    fuel = fuel - 1;
                    // Block exists but its parent has no state: register it as pending so
                    // that the cascade works when the true ancestor arrives
                    let ghost before = self.pending@;
                    self.pending.add_child(&header.parent_root, current);
                    self.pending.set_parent(&current, header.parent_root);
                    proof {
                        assert(self.pending@ =~= noted(before, current, header.parent_root));
                    }
                    current = header.parent_root;
                },
            }
        }
    }

    /// Reports the outcome of an import. Blocks that waited for an imported block are put
    /// into the queue.
    pub fn block_imported(
        &mut self,
        root: &H256,
        imported: bool,
        queue: &mut VecDeque<SignedBlock>,
    )
        requires
            old(self).wf(),
            all_storable(old(queue)@),
        ensures
            final(self).wf(),
            all_storable(final(queue)@),
            final(self).same_duties(old(self)),
            final(self).store.db() == old(self).store.db(),
            imported ==> collected(
                *root,
                old(self).store.db(),
                old(self).waiting(),
                block_views(old(queue)@),
                final(self).waiting(),
                block_views(final(queue)@),
            ),
            !imported ==> final(self).waiting() == old(self).waiting() && final(queue)@
                == old(queue)@,
    {
        if imported {
            self.collect_pending_children(root, queue);
        }
    }

    /// Move pending children of a block into the queue.
    pub fn collect_pending_children(
        &mut self,
        parent_root: &H256,
        queue: &mut VecDeque<SignedBlock>,
    )
        requires
            old(self).wf(),
            all_storable(old(queue)@),
        ensures
            final(self).wf(),
            all_storable(final(queue)@),
            final(self).same_duties(old(self)),
            final(self).store.db() == old(self).store.db(),
            collected(
                *parent_root,
                old(self).store.db(),
                old(self).waiting(),
                block_views(old(queue)@),
                final(self).waiting(),
                block_views(final(queue)@),
            ),
    {
        let ghost db = self.store.db();
        let ghost had = block_views(queue@);
        let child_roots = self.pending.take_children(parent_root);
        let mut i: usize = 0;
        proof {
            assert(child_roots@.take(0) =~= Seq::<H256>::empty());
            assert(had + stored_blocks(db, child_roots@.take(0)) =~= had);
        }
        while i < child_roots.len()
            invariant
                0 <= i <= child_roots@.len(),
                self.wf(),
                self.store.db() == db,
                all_storable(queue@),
                block_views(queue@) == had + stored_blocks(db, child_roots@.take(i as int)),
            decreases child_roots@.len() - i,
        {
            proof {
                assert(table_ok(db, Table::BlockHeaders));
                assert(table_ok(db, Table::BlockBodies));
                assert(table_ok(db, Table::BlockSignatures));
                lemma_blocks_readable(db, child_roots@[i as int]@);
                assert(child_roots@.take(i + 1).drop_last() =~= child_roots@.take(i as int));
                assert(child_roots@.take(i + 1).last() == child_roots@[i as int]);
            }
            match self.store.get_signed_block(&child_roots[i]) {
                Some(child) => {
                    let ghost before = queue@;
                    queue.push_back(child);
                    proof {
                        assert(block_views(queue@) =~= block_views(before).push(child@));
                        assert(block_views(queue@) =~= had + stored_blocks(
                            db,
                            child_roots@.take(i + 1),
                        ));
                    }
                },
                None => {},
            }
            i = i + 1;
        }
        proof {
            assert(child_roots@.take(i as int) =~= child_roots@);
        }
    }

    // ============ Ticks ============

    /// The duties of a tick; `None` if the head state has no validators, since proposers
    /// and attestations make no sense then.
    pub fn on_tick(&self, timestamp_ms: u64) -> (r: Option<TickPlan>)
        requires
            self.wf(),
            has_head_state(self.store.db()),
            genesis_time(self.store.db()) * 1000 <= u64::MAX,
        ensures
            match r {
                None => head_state(self.store.db()).validators.len() == 0,
                Some(plan) => head_state(self.store.db()).validators.len() > 0 && is_plan(
                    plan,
                    genesis_time(self.store.db()),
                    timestamp_ms,
                    head_state(self.store.db()).validators.len() as u64,
                    self.key_manager.pairs().dom(),
                ),
            },
    {
        let genesis: u64 = self.config_of_store().genesis_time;
        let (slot, interval) = slot_and_interval(genesis, timestamp_ms);
        // Fail fast: a state with zero validators is invalid
        proof {
            assert(table_ok(self.store.db(), Table::States));
        }
        let state = self.store.head_state();
        if state.validators.len() == 0 {
            return None;
        }
        // At interval 0, check if we will propose
        let proposer: Option<u64> = if interval == 0 && slot > 0 {
            self.get_our_proposer(slot)
        } else {
            None
        };
        Some(TickPlan { slot, interval, proposer, attest: interval == 1 })
    }

    fn config_of_store(&self) -> (r: ChainConfig)
        requires
            self.wf(),
        ensures
            r.genesis_time == genesis_time(self.store.db()),
    {
        proof {
            lemma_sound_config(self.store.db());
        }
        self.store.config()
    }

    /// The validator of this node that is the proposer of a slot, if any.
    pub fn get_our_proposer(&self, slot: u64) -> (r: Option<u64>)
        requires
            self.wf(),
            has_head_state(self.store.db()),
            head_state(self.store.db()).validators.len() > 0,
        ensures
            r == our_proposer(
                slot,
                head_state(self.store.db()).validators.len() as u64,
                self.key_manager.pairs().dom(),
            ),
    {
        proof {
            assert(table_ok(self.store.db(), Table::States));
        }
        let state = self.store.head_state();
        let num_validators: u64 = state.validators.len() as u64;
        let ids = self.key_manager.validator_ids();
        let mut i: usize = 0;
        while i < ids.len()
            invariant
                0 <= i <= ids@.len(),
                ids@.to_set() == self.key_manager.pairs().dom(),
                num_validators == head_state(self.store.db()).validators.len(),
                num_validators > 0,
                forall|k: int| 0 <= k < i ==> !proposes(#[trigger] ids@[k], slot, num_validators),
            decreases ids@.len() - i,
        {
            if is_proposer(ids[i], slot, num_validators) {
                proof {
                    assert(ids@.to_set().contains(ids@[i as int]));
                }
                return Some(ids[i]);
            }
            i = i + 1;
        }
        proof {
            let p = (slot % num_validators) as u64;
            if self.key_manager.pairs().dom().contains(p) {
                assert(ids@.contains(p));
                let k = choose|k: int| 0 <= k < ids@.len() && ids@[k] == p;
                assert(!proposes(ids@[k], slot, num_validators));
            }
        }
        None
    }

    // ============ Attestations ============

    /// Asks the attestation key of every registered validator for a signature.
    pub fn sign_attestations(&mut self, data: &AttestationData) -> (r: Vec<
        (u64, Result<XmssSignature, KeyManagerError>),
    >)
        ensures
            asked_all(old(self).key_manager.pairs(), final(self).key_manager.pairs(), *data, r@),
            final(self).store == old(self).store,
            final(self).pending == old(self).pending,
            final(self).is_aggregator == old(self).is_aggregator,
    {
        let ids = self.key_manager.validator_ids();
        let ghost before = self.key_manager.pairs();
        let ghost message = h256(AttestationData::root(*data));
        let mut out: Vec<(u64, Result<XmssSignature, KeyManagerError>)> = Vec::new();
        let mut i: usize = 0;
        while i < ids.len()
            invariant
                0 <= i <= ids@.len(),
                ids@.no_duplicates(),
                ids@.to_set() == before.dom(),
                message == h256(AttestationData::root(*data)),
                out@.len() == i,
                self.store == old(self).store,
                self.pending == old(self).pending,
                self.is_aggregator == old(self).is_aggregator,
                self.key_manager.pairs().dom() == before.dom(),
                forall|k: int| 0 <= k < i ==> (#[trigger] out@[k]).0 == ids@[k],
                forall|k: int|
                    i <= k < ids@.len() ==> self.key_manager.pairs()[#[trigger] ids@[k]]
                        == before[ids@[k]],
                forall|k: int|
                    0 <= k < i ==> asked(
                        before[(#[trigger] out@[k]).0],
                        self.key_manager.pairs()[out@[k].0],
                        signing_slot(data.slot),
                        message,
                        out@[k].1,
                    ),
            decreases ids@.len() - i,
        {
            let id: u64 = ids[i];
            let ghost now = self.key_manager.pairs();
            proof {
                assert(ids@.to_set().contains(ids@[i as int]));
            }
            let result = self.key_manager.sign_attestation(id, data);
            let ghost then_pairs = self.key_manager.pairs();
            proof {
                let m = choose|m: H256|
                    m@ == AttestationData::root(*data) && #[trigger] attestation_signed(
                        now,
                        then_pairs,
                        id,
                        signing_slot(data.slot),
                        m,
                        result,
                    );
                lemma_h256_of_view(m);
                assert(now.dom().contains(id));
                let (key, reply) = choose|key: K, reply: Result<Vec<u8>, String>|
                    #[trigger] may_sign(
                        now[id].attestation_key,
                        signing_slot(data.slot),
                        m,
                        key,
                        reply,
                    ) && signature_of(reply, result) && then_pairs == now.insert(
                        id,
                        ValidatorKeyPair {
                            attestation_key: key,
                            proposal_key: now[id].proposal_key,
                        },
                    );
                assert(may_sign(
                    before[id].attestation_key,
                    signing_slot(data.slot),
                    message,
                    then_pairs[id].attestation_key,
                    reply,
                ));
                assert(then_pairs.dom() =~= before.dom());
                assert(asked(
                    before[id],
                    then_pairs[id],
                    signing_slot(data.slot),
                    message,
                    result,
                ));
            }
            let ghost had = out@;
            out.push((id, result));
            proof {
                assert forall|k: int| 0 <= k < i + 1 implies asked(
                    before[(#[trigger] out@[k]).0],
                    self.key_manager.pairs()[out@[k].0],
                    signing_slot(data.slot),
                    message,
                    out@[k].1,
                ) by {
                    if k < i {
                        assert(out@[k] == had[k]);
                        assert(had[k].0 == ids@[k]);
                        assert(ids@[k] != ids@[i as int]);
                    }
                }
            }
            i = i + 1;
        }
        proof {
            assert(asked_ids(out@) =~= ids@);
        }
        out
    }

    /// Signs attestation data for every registered validator. Validators whose key does
    /// not sign are left out.
    pub fn produce_attestations(&mut self, data: &AttestationData) -> (r: Vec<SignedAttestation>)
        ensures
            exists|replies: Seq<(u64, Result<XmssSignature, KeyManagerError>)>| #[trigger]
                asked_all(
                    old(self).key_manager.pairs(),
                    final(self).key_manager.pairs(),
                    *data,
                    replies,
                ) && are_attestations(*data, replies, r@),
            final(self).store == old(self).store,
            final(self).pending == old(self).pending,
            final(self).is_aggregator == old(self).is_aggregator,
    {
        let replies = self.sign_attestations(data);
        assemble_attestations(data, replies)
    }

    /// Takes an attestation of one validator from gossip; only aggregators do.
    pub fn on_gossip_attestation(&self, attestation: SignedAttestation) -> (r: Option<
        SignedAttestation,
    >)
        ensures
            r == if self.aggregates() {
                Some(attestation)
            } else {
                None
            },
    {
        if self.is_aggregator {
            Some(attestation)
        } else {
            None
        }
    }

    // ============ Proposals ============

    /// Signs a block that was built for a slot, with the proposal key of a validator, and
    /// puts the signed block together.
    pub fn propose_block(
        &mut self,
        slot: u64,
        validator_id: u64,
        block: Block,
        attestation_signatures: Vec<AggregatedSignatureProof>,
    ) -> (r: Result<SignedBlock, KeyManagerError>)
        requires
            Block::hashable(block@),
            attestation_signatures@.len() <= VALIDATOR_REGISTRY_LIMIT,
        ensures
            exists|signature: Result<XmssSignature, KeyManagerError>| #[trigger]
                proposal_signed(
                    old(self).key_manager.pairs(),
                    final(self).key_manager.pairs(),
                    validator_id,
                    signing_slot(slot),
                    h256(Block::root(block@)),
                    signature,
                ) && is_proposal(block, attestation_signatures, signature, r),
            final(self).store == old(self).store,
            final(self).pending == old(self).pending,
            final(self).is_aggregator == old(self).is_aggregator,
    {
        // Sign the block root with the proposal key
        let block_root = block.tree_hash_root();
        proof {
            lemma_h256_of_view(block_root);
        }
        let signature = self.key_manager.sign_block_root(
            validator_id,
            truncate_slot(slot),
            &block_root,
        );
        let ghost made = signature;
        let r = assemble_proposal(block, attestation_signatures, signature);
        proof {
            assert(proposal_signed(
                old(self).key_manager.pairs(),
                self.key_manager.pairs(),
                validator_id,
                signing_slot(slot),
                h256(Block::root(block@)),
                made,
            ));
        }
        r
    }
}

/// What becomes of a block that comes, of the tables, the waiting blocks and the queue.
pub open spec fn sequenced(
    block: SignedBlockView,
    db: Db,
    p: PendingView,
    queue: Seq<SignedBlockView>,
    new_db: Db,
    new_p: PendingView,
    new_queue: Seq<SignedBlockView>,
    action: BlockAction,
) -> bool {
    let parent = block.message.parent_root;
    if db[Table::States].dom().contains(parent) {
        // the parent's state is there: nothing changes, and the block is to be imported
        &&& new_db == db && new_p == p && new_queue == queue
        &&& action matches BlockAction::Import { root, block: b } && root == root_of(block) && b@
            == block
    } else {
        match chase(p.parents, parent, p.parents.dom().len()) {
            None => {
                &&& new_db == db && new_p == p && new_queue == queue
                &&& action is Endless
            },
            Some(missing) => {
                let stored = with_signed_block(db, root_of(block)@, block);
                let way = climb(
                    stored,
                    pended(p, block, missing),
                    h256(missing),
                    stored[Table::BlockHeaders].dom().len(),
                );
                &&& new_db == stored
                &&& new_p == way.0
                &&& match way.1 {
                    ClimbEnd::Missing(m) => new_queue == queue && (action matches BlockAction::Fetch {
                        root,
                    } && root == m),
                    ClimbEnd::Ready(m) => match signed_block_at(stored, m@) {
                        Some(b) => new_queue == queue.push(b) && action is Queued,
                        None => new_queue == queue && (action matches BlockAction::Incomplete { root }
                            && root == m),
                    },
                    ClimbEnd::Endless => new_queue == queue && action is Endless,
                }
            },
        }
    }
}

/// What becomes of the waiting blocks and the queue when a block was imported: no block
/// waited twice, and those that can be read follow in the queue.
pub open spec fn collected(
    root: H256,
    db: Db,
    p: PendingView,
    queue: Seq<SignedBlockView>,
    new_p: PendingView,
    new_queue: Seq<SignedBlockView>,
) -> bool {
    let children = waiting(p.children, root@);
    &&& children.no_duplicates()
    &&& new_p.children == p.children.remove(root@)
    &&& new_p.parents == p.parents.remove_keys(
        Set::new(
            |k: Seq<u8>| exists|i: int| 0 <= i < children.len() && (#[trigger] children[i])@ == k,
        ),
    )
    &&& new_queue == queue + stored_blocks(db, children)
}

/// The genesis time of a store.
pub open spec fn genesis_time(db: Db) -> u64 {
    metadata::<ChainConfig>(db, MetadataKey::Config)->0.genesis_time
}

/// The root of the head of a store.
pub open spec fn head_root(db: Db) -> Seq<u8> {
    metadata::<H256>(db, MetadataKey::Head)->0
}

/// Whether the state of the head is stored.
pub open spec fn has_head_state(db: Db) -> bool {
    metadata::<H256>(db, MetadataKey::Head) is Some && db[Table::States].dom().contains(
        head_root(db),
    )
}

/// The state of the head.
pub open spec fn head_state(db: Db) -> StateView {
    decoded::<State>(db[Table::States][head_root(db)])->0
}

proof fn lemma_sound_config(db: Db)
    requires
        sound(db),
    ensures
        metadata::<ChainConfig>(db, MetadataKey::Config) is Some,
{
    assert(db[Table::Metadata].dom().contains(
        crate::storage::keys::metadata_key(MetadataKey::Config),
    ));
}

/// The proposer of a slot, if it is one of ours.
pub open spec fn our_proposer(slot: u64, num_validators: u64, ours: Set<u64>) -> Option<u64> {
    if ours.contains((slot % num_validators) as u64) {
        Some((slot % num_validators) as u64)
    } else {
        None
    }
}

/// Whether a plan gives the duties of a moment: to propose at the first interval of each
/// slot but the first, and to attest at the second.
pub open spec fn is_plan(
    plan: TickPlan,
    genesis: u64,
    timestamp_ms: u64,
    num_validators: u64,
    ours: Set<u64>,
) -> bool {
    &&& plan.slot == slot_at(genesis, timestamp_ms)
    &&& plan.interval == interval_at(genesis, timestamp_ms)
    &&& plan.proposer == if plan.interval == 0 && plan.slot > 0 {
        our_proposer(plan.slot, num_validators, ours)
    } else {
        None
    }
    &&& plan.attest == (plan.interval == 1)
}

/// Whether an attestation key was asked once, with this outcome.
pub open spec fn asked<K: SecretKey>(
    before: ValidatorKeyPair<K>,
    after: ValidatorKeyPair<K>,
    slot: u32,
    message: H256,
    r: Result<XmssSignature, KeyManagerError>,
) -> bool {
    exists|reply: Result<Vec<u8>, String>| #[trigger]
        may_sign(before.attestation_key, slot, message, after.attestation_key, reply)
            && signature_of(reply, r) && after.proposal_key == before.proposal_key
}

/// The validators that were asked.
pub open spec fn asked_ids(replies: Seq<(u64, Result<XmssSignature, KeyManagerError>)>) -> Seq<
    u64,
> {
    replies.map_values(|e: (u64, Result<XmssSignature, KeyManagerError>)| e.0)
}

/// Whether every registered validator's attestation key was asked once to sign the root of
/// the data at its slot, with these outcomes.
pub open spec fn asked_all<K: SecretKey>(
    before: Map<u64, ValidatorKeyPair<K>>,
    after: Map<u64, ValidatorKeyPair<K>>,
    data: AttestationData,
    replies: Seq<(u64, Result<XmssSignature, KeyManagerError>)>,
) -> bool {
    &&& after.dom() == before.dom()
    &&& asked_ids(replies).no_duplicates()
    &&& asked_ids(replies).to_set() == before.dom()
    &&& forall|k: int|
        0 <= k < replies.len() ==> asked(
            before[(#[trigger] replies[k]).0],
            after[replies[k].0],
            signing_slot(data.slot),
            h256(AttestationData::root(data)),
            replies[k].1,
        )
}

/// The attestations of the validators whose keys signed, as values.
pub open spec fn attestation_views(
    data: AttestationData,
    replies: Seq<(u64, Result<XmssSignature, KeyManagerError>)>,
) -> Seq<crate::attestation::SignedAttestationView>
    decreases replies.len(),
{
    if replies.len() == 0 {
        Seq::empty()
    } else {
        let before = attestation_views(data, replies.drop_last());
        match replies.last().1 {
            Ok(signature) => before.push(
                crate::attestation::SignedAttestationView {
                    validator_id: replies.last().0,
                    data,
                    signature: signature@,
                },
            ),
            Err(_) => before,
        }
    }
}

/// Whether attestations are those of the validators whose keys signed.
pub open spec fn are_attestations(
    data: AttestationData,
    replies: Seq<(u64, Result<XmssSignature, KeyManagerError>)>,
    attestations: Seq<SignedAttestation>,
) -> bool {
    crate::encoding::list::item_views(attestations) == attestation_views(data, replies)
}

/// Puts the signatures that keys made into attestations.
pub fn assemble_attestations(
    data: &AttestationData,
    replies: Vec<(u64, Result<XmssSignature, KeyManagerError>)>,
) -> (r: Vec<SignedAttestation>)
    ensures
        are_attestations(*data, replies@, r@),
{
    let mut out: Vec<SignedAttestation> = Vec::new();
    let mut i: usize = 0;
    proof {
        assert(replies@.take(0) =~= Seq::<(u64, Result<XmssSignature, KeyManagerError>)>::empty());
        assert(crate::encoding::list::item_views(out@) =~= attestation_views(
            *data,
            replies@.take(0),
        ));
    }
    while i < replies.len()
        invariant
            0 <= i <= replies@.len(),
            are_attestations(*data, replies@.take(i as int), out@),
        decreases replies@.len() - i,
    {
        proof {
            assert(replies@.take(i + 1).drop_last() =~= replies@.take(i as int));
            assert(replies@.take(i + 1).last() == replies@[i as int]);
        }
        match &replies[i].1 {
            Ok(signature) => {
                let ghost had = crate::encoding::list::item_views(out@);
                let attestation = SignedAttestation {
                    validator_id: replies[i].0,
                    data: *data,
                    signature: signature.clone(),
                };
                out.push(attestation);
                proof {
                    assert(crate::encoding::list::item_views(out@) =~= had.push(attestation@));
                }
            },
            Err(_) => {},
        }
        i = i + 1;
    }
    proof {
        assert(replies@.take(i as int) =~= replies@);
    }
    out
}

/// Whether a proposal is the block with its signatures, or the reason why there is none.
pub open spec fn is_proposal(
    block: Block,
    attestation_signatures: Vec<AggregatedSignatureProof>,
    signature: Result<XmssSignature, KeyManagerError>,
    r: Result<SignedBlock, KeyManagerError>,
) -> bool {
    match signature {
        Ok(s) => r matches Ok(signed) && signed.message == block
            && signed.signature.attestation_signatures == attestation_signatures
            && signed.signature.proposer_signature == s,
        Err(e) => r matches Err(f) && f == e,
    }
}

/// Puts a block and its signatures together.
pub fn assemble_proposal(
    block: Block,
    attestation_signatures: Vec<AggregatedSignatureProof>,
    signature: Result<XmssSignature, KeyManagerError>,
) -> (r: Result<SignedBlock, KeyManagerError>)
    ensures
        is_proposal(block, attestation_signatures, signature, r),
{
    match signature {
        Ok(proposer_signature) => Ok(
            SignedBlock {
                message: block,
                signature: BlockSignatures { attestation_signatures, proposer_signature },
            },
        ),
        Err(e) => Err(e),
    }
}

/// What to publish of an own block once its local import has ended: the block if it was
/// imported, and nothing otherwise.
pub fn proposal_imported(signed: SignedBlock, imported: bool) -> (r: Option<SignedBlock>)
    ensures
        imported ==> r == Some(signed),
        !imported ==> r is None,
{
    if imported {
        Some(signed)
    } else {
        None
    }
}

/// Attesting never touches a proposal key: a validator can attest and propose in one slot.
pub proof fn attesting_spares_proposal_keys<K: SecretKey>(
    before: Map<u64, ValidatorKeyPair<K>>,
    after: Map<u64, ValidatorKeyPair<K>>,
    data: AttestationData,
    replies: Seq<(u64, Result<XmssSignature, KeyManagerError>)>,
    validator: u64,
)
    requires
        asked_all(before, after, data, replies),
        before.dom().contains(validator),
    ensures
        after.dom().contains(validator),
        after[validator].proposal_key == before[validator].proposal_key,
{
    assert(asked_ids(replies).to_set().contains(validator));
    let k = choose|k: int| 0 <= k < asked_ids(replies).len() && asked_ids(replies)[k] == validator;
    assert(replies[k].0 == validator);
}

/// Climbing never forgets a waiting block.
pub proof fn lemma_climb_keeps(db: Db, p: PendingView, root: H256, fuel: nat, parent: Seq<u8>, child: H256)
    requires
        waiting(p.children, parent).contains(child),
    ensures
        waiting(climb(db, p, root, fuel).0.children, parent).contains(child),
    decreases fuel,
{
    match header_at(db, root@) {
        None => {},
        Some(header) => if !db[Table::States].dom().contains(header.parent_root@) && fuel > 0 {
            let next = noted(p, root, header.parent_root);
            let had = waiting(p.children, parent);
            let k = choose|k: int| 0 <= k < had.len() && had[k] == child;
            assert(waiting(next.children, parent)[k] == child);
            lemma_climb_keeps(
                db,
                next,
                header.parent_root,
                (fuel - 1) as nat,
                parent,
                child,
            );
        },
    }
}

/// The way up ends at a block that is not stored, or at one whose parent's state is there.
proof fn lemma_climb_end(db: Db, p: PendingView, root: H256, fuel: nat)
    ensures
        match climb(db, p, root, fuel).1 {
            ClimbEnd::Missing(m) => header_at(db, m@) is None,
            ClimbEnd::Ready(m) => header_at(db, m@) matches Some(h) && db[Table::States].dom().contains(
                h.parent_root@,
            ),
            ClimbEnd::Endless => true,
        },
    decreases fuel,
{
    match header_at(db, root@) {
        None => {},
        Some(header) => if !db[Table::States].dom().contains(header.parent_root@) && fuel > 0 {
            lemma_climb_end(
                db,
                noted(p, root, header.parent_root),
                header.parent_root,
                (fuel - 1) as nat,
            );
        },
    }
}

/// A block is asked for only if it is not stored, and a stored block is put into the queue
/// only if its parent's state is there.
pub proof fn only_missing_blocks_are_fetched(
    block: SignedBlockView,
    db: Db,
    p: PendingView,
    queue: Seq<SignedBlockView>,
    new_db: Db,
    new_p: PendingView,
    new_queue: Seq<SignedBlockView>,
    action: BlockAction,
)
    requires
        sequenced(block, db, p, queue, new_db, new_p, new_queue, action),
    ensures
        action matches BlockAction::Fetch { root } ==> header_at(new_db, root@) is None,
        action is Queued ==> new_queue.len() == queue.len() + 1
            && new_db[Table::States].dom().contains(new_queue.last().message.parent_root),
{
    let parent = block.message.parent_root;
    if !db[Table::States].dom().contains(parent) {
        match chase(p.parents, parent, p.parents.dom().len()) {
            None => {},
            Some(missing) => {
                let stored = with_signed_block(db, root_of(block)@, block);
                lemma_climb_end(
                    stored,
                    pended(p, block, missing),
                    h256(missing),
                    stored[Table::BlockHeaders].dom().len(),
                );
            },
        }
    }
}

pub proof fn lemma_stored_blocks_has(db: Db, roots: Seq<H256>, root: H256, block: SignedBlockView)
    requires
        roots.contains(root),
        signed_block_at(db, root@) == Some(block),
    ensures
        stored_blocks(db, roots).contains(block),
    decreases roots.len(),
{
    let rest = roots.drop_last();
    let before = stored_blocks(db, rest);
    let now = stored_blocks(db, roots);
    if roots.last() == root {
        assert(now[before.len() as int] == block);
    } else {
        let k = choose|k: int| 0 <= k < roots.len() && roots[k] == root;
        assert(rest[k] == root);
        lemma_stored_blocks_has(db, rest, root, block);
        let j = choose|j: int| 0 <= j < before.len() && before[j] == block;
        assert(now[j] == block);
    }
}

/// The roots whose blocks can be read.
pub open spec fn stored_roots(db: Db, roots: Seq<H256>) -> Seq<H256>
    decreases roots.len(),
{
    if roots.len() == 0 {
        Seq::empty()
    } else {
        let before = stored_roots(db, roots.drop_last());
        match signed_block_at(db, roots.last()@) {
            Some(_) => before.push(roots.last()),
            None => before,
        }
    }
}

/// When a block was imported, each block that waited for it and can be read is put into the
/// queue once.
pub proof fn waiting_blocks_are_queued_once(db: Db, children: Seq<H256>)
    requires
        children.no_duplicates(),
    ensures
        stored_roots(db, children).no_duplicates(),
        forall|root: H256| #[trigger]
            stored_roots(db, children).contains(root) <==> children.contains(root)
                && signed_block_at(db, root@) is Some,
        stored_blocks(db, children).len() == stored_roots(db, children).len(),
        forall|i: int|
            0 <= i < stored_roots(db, children).len() ==> signed_block_at(
                db,
                (#[trigger] stored_roots(db, children)[i])@,
            ) == Some(stored_blocks(db, children)[i]),
    decreases children.len(),
{
    if children.len() > 0 {
        let rest = children.drop_last();
        let last = children.last();
        waiting_blocks_are_queued_once(db, rest);
        let before = stored_roots(db, rest);
        let now = stored_roots(db, children);
        assert(!rest.contains(last)) by {
            if rest.contains(last) {
                let k = choose|k: int| 0 <= k < rest.len() && rest[k] == last;
                assert(children[k] == children[children.len() - 1]);
            }
        }
        assert forall|root: H256| #[trigger] now.contains(root) <==> children.contains(root)
            && signed_block_at(db, root@) is Some by {
            if now.contains(root) {
                let k = choose|k: int| 0 <= k < now.len() && now[k] == root;
                if k < before.len() {
                    assert(before[k] == root);
                    assert(before.contains(root));
                    let m = choose|m: int| 0 <= m < rest.len() && rest[m] == root;
                    assert(children[m] == root);
                } else {
                    assert(children[children.len() - 1] == root);
                }
            }
            if children.contains(root) && signed_block_at(db, root@) is Some {
                let m = choose|m: int| 0 <= m < children.len() && children[m] == root;
                if m < rest.len() {
                    assert(rest[m] == root);
                    assert(before.contains(root));
                    let k = choose|k: int| 0 <= k < before.len() && before[k] == root;
                    assert(now[k] == root);
                } else {
                    assert(now[before.len() as int] == root);
                }
            }
        }
        assert(!before.contains(last));
        assert forall|a: int, b: int|
            0 <= a < now.len() && 0 <= b < now.len() && a != b implies now[a] != now[b] by {
            if a == before.len() {
                assert(before[b] == now[b]);
                assert(before.contains(now[b]));
            } else if b == before.len() {
                assert(before[a] == now[a]);
                assert(before.contains(now[a]));
            } else {
                assert(before[a] == now[a] && before[b] == now[b]);
            }
        }
        assert forall|i: int| 0 <= i < now.len() implies signed_block_at(
            db,
            (#[trigger] now[i])@,
        ) == Some(stored_blocks(db, children)[i]) by {
            if i < before.len() {
                assert(before[i] == now[i]);
            }
        }
    }
}

/// A block that waits for its parent comes back: once it was stored as waiting, it is
/// among those that wait for its parent, and when the parent is imported and the block can
/// still be read, it is in the queue.
pub proof fn waiting_block_comes_back(
    block: SignedBlockView,
    db: Db,
    p: PendingView,
    queue: Seq<SignedBlockView>,
    new_db: Db,
    new_p: PendingView,
    new_queue: Seq<SignedBlockView>,
    action: BlockAction,
    parent: H256,
    later_db: Db,
    later_queue: Seq<SignedBlockView>,
    end_p: PendingView,
    end_queue: Seq<SignedBlockView>,
)
    requires
        sequenced(block, db, p, queue, new_db, new_p, new_queue, action),
        !(action is Import) && !(action is Endless),
        parent@ == block.message.parent_root,
        collected(parent, later_db, new_p, later_queue, end_p, end_queue),
    ensures
        waiting(new_p.children, parent@).contains(root_of(block)),
        signed_block_at(later_db, root_of(block)@) == Some(block) ==> end_queue.contains(block),
{
    let missing = chase(p.parents, parent@, p.parents.dom().len())->0;
    let stored = with_signed_block(db, root_of(block)@, block);
    let start = pended(p, block, missing);
    let had = waiting(p.children, parent@);
    let now = waiting(start.children, parent@);
    assert(now == crate::blockchain::pending::with_root(had, root_of(block)));
    assert(now.contains(root_of(block))) by {
        if !had.contains(root_of(block)) {
            assert(now[had.len() as int] == root_of(block));
        }
    }
    lemma_climb_keeps(
        stored,
        start,
        h256(missing),
        stored[Table::BlockHeaders].dom().len(),
        parent@,
        root_of(block),
    );
    if signed_block_at(later_db, root_of(block)@) == Some(block) {
        let children = waiting(new_p.children, parent@);
        lemma_stored_blocks_has(later_db, children, root_of(block), block);
        let extra = stored_blocks(later_db, children);
        let j = choose|j: int| 0 <= j < extra.len() && extra[j] == block;
        assert(end_queue[later_queue.len() + j] == block);
    }
}

} // verus!
