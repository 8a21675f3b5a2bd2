//! Fetching missing blocks from peers.

use crate::bindings::collections::{requested_roots, roots_empty, roots_push};
use crate::bindings::random::choose_item;
use crate::block::{Block, SignedBlock, SignedBlockView};
use crate::encoding::list::item_views;
use crate::hash_root::TreeHash;
use crate::net::messages::{BlocksByRootRequest, Request};
use crate::ordered_map::{ByteKey, OrderedMap, OrderedSet};
use crate::primitives::{same_bytes, H256};
use std::collections::HashMap;
use vstd::prelude::*;
use vstd::slice::slice_to_vec;

verus! {

broadcast use vstd::std_specs::hash::group_hash_axioms;

/// The identity of a peer.
#[derive(Debug)]
pub struct PeerId {
    pub bytes: Vec<u8>,
}

impl View for PeerId {
    type V = Seq<u8>;

    open spec fn view(&self) -> Seq<u8> {
        self.bytes@
    }
}

impl Clone for PeerId {
    fn clone(&self) -> (r: PeerId)
        ensures
            r@ == self@,
    {
        PeerId { bytes: slice_to_vec(self.bytes.as_slice()) }
    }
}

impl ByteKey for PeerId {
    open spec fn key(&self) -> Seq<u8> {
        self@
    }

    fn key_bytes(&self) -> (r: &[u8]) {
        self.bytes.as_slice()
    }
}

/// How often and how fast fetching a block is tried again.
#[derive(Clone, Copy, Debug)]
pub struct RetryPolicy {
    /// Attempts before giving up.
    pub max_fetch_retries: u32,
    /// Milliseconds before the second attempt.
    pub initial_backoff_ms: u64,
    /// By what the wait grows with each further attempt.
    pub backoff_multiplier: u64,
}

/// `base` to the power `n`.
pub open spec fn power(base: nat, n: nat) -> nat
    decreases n,
{
    if n == 0 {
        1
    } else {
        power(base, (n - 1) as nat) * base
    }
}

impl RetryPolicy {
    /// The wait after a number of attempts.
    pub open spec fn backoff(&self, attempts: nat) -> nat {
        self.initial_backoff_ms as nat * power(
            self.backoff_multiplier as nat,
            (attempts - 1) as nat,
        )
    }

    /// Whether every wait that can come up fits.
    pub open spec fn fits(&self) -> bool {
        forall|n: nat|
            1 <= n < self.max_fetch_retries ==> #[trigger] self.backoff(n) <= u64::MAX
                && power(self.backoff_multiplier as nat, (n - 1) as nat) <= u64::MAX
    }

    /// The wait after a number of attempts.
    fn wait(&self, attempts: u32) -> (r: u64)
        requires
            self.fits(),
            1 <= attempts < self.max_fetch_retries,
        ensures
            r == self.backoff(attempts as nat),
    {
        let mut factor: u64 = 1;
        let mut i: u32 = 1;
        while i < attempts
            invariant
                1 <= i <= attempts < self.max_fetch_retries,
                self.fits(),
                factor == power(self.backoff_multiplier as nat, (i - 1) as nat),
            decreases attempts - i,
        {
            proof {
                assert(self.backoff((i + 1) as nat) <= u64::MAX);
            }
            factor = factor * self.backoff_multiplier;
            i = i + 1;
        }
        proof {
            assert(self.backoff(attempts as nat) <= u64::MAX);
        }
        self.initial_backoff_ms * factor
    }
}

/// A block that is being fetched.
pub struct PendingRequest {
    pub attempts: u32,
    /// The peers that did not have it, each once.
    pub failed_peers: Vec<PeerId>,
}

#[verifier::ext_equal]
pub struct PendingRequestView {
    pub attempts: u32,
    pub failed: Set<Seq<u8>>,
}

impl View for PendingRequest {
    type V = PendingRequestView;

    open spec fn view(&self) -> PendingRequestView {
        PendingRequestView {
            attempts: self.attempts,
            failed: item_views(self.failed_peers@).to_set(),
        }
    }
}

/// Whether a peer is in a list.
fn has_peer(peers: &Vec<PeerId>, peer: &PeerId) -> (r: bool)
    ensures
        r == item_views(peers@).to_set().contains(peer@),
{
    let ghost vs = item_views(peers@);
    let mut i: usize = 0;
    while i < peers.len()
        invariant
            0 <= i <= peers@.len(),
            vs == item_views(peers@),
            forall|k: int| 0 <= k < i ==> #[trigger] vs[k] != peer@,
        decreases peers@.len() - i,
    {
        if same_bytes(peers[i].bytes.as_slice(), peer.bytes.as_slice()) {
            proof {
                assert(vs[i as int] == peer@);
            }
            return true;
        }
        i = i + 1;
    }
    false
}

/// What is asked of a peer.
pub struct FetchPlan {
    pub peer: PeerId,
    pub request: Request,
    /// How many connected peers are left out.
    pub excluded: usize,
}

/// What to do after a fetch failed.
#[derive(Clone, Copy, PartialEq, Eq, Debug, Structural)]
pub enum FailureAction {
    /// The block is not being fetched.
    Ignored,
    /// The last attempt failed.
    GaveUp,
    /// Try again after a while.
    Retry { backoff_ms: u64 },
}

/// What to do with a response with blocks.
pub enum BlocksAction {
    /// Nothing was asked under this number.
    UnknownRequest,
    /// The peer does not have the block with this root.
    Failed { root: H256, action: FailureAction },
    /// Hand these blocks to the chain.
    Forward(Vec<SignedBlock>),
}

/// What the fetcher knows.
#[verifier::ext_equal]
pub struct FetcherView {
    pub connected: Set<Seq<u8>>,
    pub pending: Map<Seq<u8>, PendingRequestView>,
    pub requests: Map<u64, H256>,
}

/// The peers that failed for a root.
pub open spec fn failed_for(v: FetcherView, root: Seq<u8>) -> Set<Seq<u8>> {
    if v.pending.dom().contains(root) {
        v.pending[root].failed
    } else {
        Set::empty()
    }
}

/// Whether all connected peers failed for a root.
pub open spec fn all_failed(v: FetcherView, root: Seq<u8>) -> bool {
    v.connected.subset_of(failed_for(v, root))
}

/// The peers to choose from: those connected that have not failed, or all if all have.
pub open spec fn pool_for(v: FetcherView, root: Seq<u8>) -> Set<Seq<u8>> {
    if all_failed(v, root) {
        v.connected
    } else {
        v.connected.difference(failed_for(v, root))
    }
}

/// What the fetcher knows once the pool was made: where all peers had failed, a new round
/// starts.
pub open spec fn round_started(v: FetcherView, root: Seq<u8>) -> FetcherView {
    if all_failed(v, root) && v.pending.dom().contains(root) {
        FetcherView {
            pending: v.pending.insert(
                root,
                PendingRequestView { attempts: v.pending[root].attempts, failed: Set::empty() },
            ),
            ..v
        }
    } else {
        v
    }
}

/// What the fetcher knows once a request was sent.
pub open spec fn sent(v: FetcherView, root: H256, request_id: u64) -> FetcherView {
    FetcherView {
        pending: if v.pending.dom().contains(root@) {
            v.pending
        } else {
            v.pending.insert(root@, PendingRequestView { attempts: 1, failed: Set::empty() })
        },
        requests: v.requests.insert(request_id, root),
        ..v
    }
}

/// What the fetcher knows, and does, once a fetch failed.
pub open spec fn failure(
    v: FetcherView,
    root: Seq<u8>,
    peer: Seq<u8>,
    policy: RetryPolicy,
) -> (FetcherView, FailureAction) {
    if !v.pending.dom().contains(root) {
        (v, FailureAction::Ignored)
    } else {
        let p = v.pending[root];
        if p.attempts >= policy.max_fetch_retries {
            (FetcherView { pending: v.pending.remove(root), ..v }, FailureAction::GaveUp)
        } else {
            (
                FetcherView {
                    pending: v.pending.insert(
                        root,
                        PendingRequestView {
                            attempts: (p.attempts + 1) as u32,
                            failed: p.failed.insert(peer),
                        },
                    ),
                    ..v
                },
                FailureAction::Retry { backoff_ms: policy.backoff(p.attempts as nat) as u64 },
            )
        }
    }
}

/// The blocks with a root.
pub open spec fn matching(blocks: Seq<SignedBlockView>, root: Seq<u8>) -> Seq<SignedBlockView>
    decreases blocks.len(),
{
    if blocks.len() == 0 {
        Seq::empty()
    } else if Block::root(blocks.last().message) == root {
        matching(blocks.drop_last(), root).push(blocks.last())
    } else {
        matching(blocks.drop_last(), root)
    }
}

/// Tracks which blocks are being fetched from which peers.
pub struct BlockFetcher {
    connected_peers: OrderedSet<PeerId>,
    pending_requests: OrderedMap<H256, PendingRequest>,
    request_id_map: HashMap<u64, H256>,
    policy: RetryPolicy,
}

impl View for BlockFetcher {
    type V = FetcherView;

    closed spec fn view(&self) -> FetcherView {
        FetcherView {
            connected: self.connected_peers@,
            pending: self.pending_requests@,
            requests: self.request_id_map@,
        }
    }
}

impl BlockFetcher {
    /// The policy for retries.
    pub closed spec fn retry_policy(&self) -> RetryPolicy {
        self.policy
    }

    /// Whether the maps are in order, every fetch had an attempt and every wait fits.
    pub closed spec fn wf(&self) -> bool {
        &&& self.connected_peers.wf()
        &&& self.connected_peers@.finite()
        &&& self.pending_requests.wf()
        &&& self.policy.fits()
        &&& forall|k: Seq<u8>| #[trigger]
            self.pending_requests@.dom().contains(k) ==> self.pending_requests@[k].attempts >= 1
    }

    /// Nothing is being fetched, and nobody is connected.
    pub fn new(policy: RetryPolicy) -> (r: BlockFetcher)
        requires
            policy.fits(),
        ensures
            r.wf(),
            r.retry_policy() == policy,
            r@.connected == Set::<Seq<u8>>::empty(),
            r@.pending == Map::<Seq<u8>, PendingRequestView>::empty(),
            r@.requests == Map::<u64, H256>::empty(),
    {
        BlockFetcher {
            connected_peers: OrderedSet::new(),
            pending_requests: OrderedMap::new(),
            request_id_map: HashMap::new(),
            policy,
        }
    }

    /// A peer connected.
    pub fn connect(&mut self, peer: PeerId)
        requires
            old(self).wf(),
        ensures
            final(self).wf(),
            final(self).retry_policy() == old(self).retry_policy(),
            final(self)@ == (FetcherView {
                connected: old(self)@.connected.insert(peer@),
                ..old(self)@
            }),
    {
        self.connected_peers.insert(peer);
    }

    /// A peer disconnected.
    pub fn disconnect(&mut self, peer: &PeerId)
        requires
            old(self).wf(),
        ensures
            final(self).wf(),
            final(self).retry_policy() == old(self).retry_policy(),
            final(self)@ == (FetcherView {
                connected: old(self)@.connected.remove(peer@),
                ..old(self)@
            }),
    {
        self.connected_peers.remove(peer.bytes.as_slice());
    }

    /// The connected peers that are not in a list.
    fn peers_without(&self, failed: &Vec<PeerId>) -> (r: Vec<PeerId>)
        requires
            self.wf(),
        ensures
            item_views(r@).no_duplicates(),
            item_views(r@).to_set() == self@.connected.difference(
                item_views(failed@).to_set(),
            ),
    {
        let ghost items = self.connected_peers.items();
        let ghost gone = item_views(failed@).to_set();
        proof {
            self.connected_peers.lemma_items();
        }
        let n: usize = self.connected_peers.len();
        let mut out: Vec<PeerId> = Vec::new();
        let mut i: usize = 0;
        proof {
            assert(item_views(out@) =~= Seq::<Seq<u8>>::empty());
        }
        while i < n
            invariant
                0 <= i <= n,
                n == items.len(),
                items == self.connected_peers.items(),
                items.no_duplicates(),
                gone == item_views(failed@).to_set(),
                item_views(out@).no_duplicates(),
                forall|k: Seq<u8>| #[trigger]
                    item_views(out@).contains(k) <==> !gone.contains(k) && exists|j: int|
                        0 <= j < i && #[trigger] items[j] == k,
            decreases n - i,
        {
            let peer = self.connected_peers.at(i);
            let ghost had = item_views(out@);
            let ghost key = items[i as int];
            proof {
                if had.contains(key) {
                    let j = choose|j: int| 0 <= j < i && #[trigger] items[j] == key;
                    assert(items[j] == items[i as int]);
                }
            }
            let skip: bool = has_peer(failed, peer);
            if !skip {
                out.push(peer.clone());
            }
            proof {
                let now = item_views(out@);
                assert(now =~= if skip {
                    had
                } else {
                    had.push(key)
                });
                assert forall|a: int, b: int|
                    0 <= a < now.len() && 0 <= b < now.len() && a != b implies now[a]
                    != now[b] by {
                    if a == had.len() {
                        assert(had.contains(now[b]));
                    } else if b == had.len() {
                        assert(had.contains(now[a]));
                    }
                }
                assert forall|k: Seq<u8>| #[trigger]
                    now.contains(k) <==> !gone.contains(k) && exists|j: int|
                        0 <= j < i + 1 && #[trigger] items[j] == k by {
                    if now.contains(k) {
                        let a = choose|a: int| 0 <= a < now.len() && now[a] == k;
                        if a < had.len() {
                            assert(had[a] == k);
                            assert(had.contains(k));
                        } else {
                            assert(items[i as int] == k);
                        }
                    }
                    if !gone.contains(k) && exists|j: int|
                        0 <= j < i + 1 && #[trigger] items[j] == k {
                        let j = choose|j: int| 0 <= j < i + 1 && #[trigger] items[j] == k;
                        if j < i {
                            assert(had.contains(k));
                            let a = choose|a: int| 0 <= a < had.len() && had[a] == k;
                            assert(now[a] == k);
                        } else {
                            assert(now[had.len() as int] == k);
                        }
                    }
                }
            }
            i = i + 1;
        }
        proof {
            self.connected_peers.lemma_items();
            let now = item_views(out@);
            assert forall|k: Seq<u8>| now.to_set().contains(k) <==> self@.connected.difference(
                gone,
            ).contains(k) by {
                assert(now.contains(k) <==> !gone.contains(k) && exists|j: int|
                    0 <= j < n && #[trigger] items[j] == k);
                if self@.connected.contains(k) {
                    assert(items.contains(k));
                }
            }
            assert(now.to_set() =~= self@.connected.difference(gone));
        }
        out
    }

    /// The peers to choose from for a root: connected ones that have not failed for it. If
    /// all have failed, all connected ones, and their failures are forgotten, so that
    /// further attempts start a fresh round.
    pub fn fetch_pool(&mut self, root: &H256) -> (r: Vec<PeerId>)
        requires
            old(self).wf(),
        ensures
            final(self).wf(),
            final(self).retry_policy() == old(self).retry_policy(),
            item_views(r@).no_duplicates(),
            item_views(r@).to_set() == pool_for(old(self)@, root@),
            final(self)@ == round_started(old(self)@, root@),
    {
        let ghost before = self@;
        let none: Vec<PeerId> = Vec::new();
        proof {
            assert(item_views(none@).to_set() =~= Set::<Seq<u8>>::empty());
        }
        let pool = match self.pending_requests.get(root.as_slice()) {
            Some(pending) => self.peers_without(&pending.failed_peers),
            None => self.peers_without(&none),
        };
        proof {
            assert(item_views(pool@).to_set() =~= before.connected.difference(
                failed_for(before, root@),
            ));
        }
        if pool.len() > 0 {
            proof {
                let first = item_views(pool@)[0];
                assert(item_views(pool@).to_set().contains(first));
            }
            return pool;
        }
        proof {
            assert(all_failed(before, root@)) by {
                assert forall|k: Seq<u8>| before.connected.contains(k) implies failed_for(
                    before,
                    root@,
                ).contains(k) by {
                    if !failed_for(before, root@).contains(k) {
                        assert(item_views(pool@).to_set().contains(k));
                        assert(item_views(pool@).contains(k));
                    }
                }
            }
        }
        match self.pending_requests.remove(root.as_slice()) {
            Some(pending) => {
                let cleared = PendingRequest {
                    attempts: pending.attempts,
                    failed_peers: Vec::new(),
                };
                proof {
                    assert(cleared@.failed =~= Set::<Seq<u8>>::empty());
                    assert(cleared@ =~= PendingRequestView {
                        attempts: before.pending[root@].attempts,
                        failed: Set::empty(),
                    });
                }
                self.pending_requests.insert(*root, cleared);
            },
            None => {},
        }
        proof {
            assert(self@ =~= round_started(before, root@));
        }
        let all = self.peers_without(&none);
        proof {
            assert(self@.connected.difference(Set::<Seq<u8>>::empty()) =~= before.connected);
        }
        all
    }

    /// Plans to fetch a missing block from a random connected peer; `None` if nobody is
    /// connected.
    pub fn fetch_block_from_peer(&mut self, root: H256) -> (r: Option<FetchPlan>)
        requires
            old(self).wf(),
        ensures
            final(self).wf(),
            final(self).retry_policy() == old(self).retry_policy(),
            r is None <==> old(self)@.connected =~= Set::<Seq<u8>>::empty(),
            r is None ==> final(self)@ == old(self)@,
            r matches Some(plan) ==> pool_for(old(self)@, root@).contains(plan.peer@)
                && asks_for(plan.request, root) && plan.excluded == old(self)@.connected.len()
                - pool_for(old(self)@, root@).len() && final(self)@ == round_started(
                old(self)@,
                root@,
            ),
    {
        let ghost before = self@;
        if self.connected_peers.len() == 0 {
            proof {
                assert(before.connected =~= Set::<Seq<u8>>::empty());
            }
            return None;
        }
        proof {
            assert(before.connected.len() > 0);
        }
        let pool = self.fetch_pool(&root);
        proof {
            let p = pool_for(before, root@);
            item_views(pool@).unique_seq_to_set();
            assert(p.subset_of(before.connected));
            vstd::set_lib::lemma_len_subset(p, before.connected);
        }
        let peer = match choose_item(pool.as_slice()) {
            Some(p) => p.clone(),
            None => {
                proof {
                    // the pool is empty only if nobody is connected
                    assert(item_views(pool@) =~= Seq::<Seq<u8>>::empty());
                    let k = before.connected.choose();
                    assert(before.connected.contains(k));
                    if all_failed(before, root@) {
                        assert(item_views(pool@).to_set().contains(k));
                    } else {
                        let j = choose|j: Seq<u8>|
                            before.connected.contains(j) && !failed_for(before, root@).contains(j);
                        assert(item_views(pool@).to_set().contains(j));
                    }
                }
                return None;
            },
        };
        proof {
            let i = choose|i: int| 0 <= i < pool@.len() && pool@[i]@ == peer@;
            assert(item_views(pool@)[i] == peer@);
            assert(item_views(pool@).to_set().contains(peer@));
        }
        let excluded: usize = self.connected_peers.len() - pool.len();
        Some(FetchPlan { peer, request: block_request(root), excluded })
    }

    /// A request for a block was sent.
    pub fn request_sent(&mut self, root: H256, request_id: u64)
        requires
            old(self).wf(),
        ensures
            final(self).wf(),
            final(self).retry_policy() == old(self).retry_policy(),
            final(self)@ == sent(old(self)@, root, request_id),
    {
        let ghost before = self@;
        // Track the request if not already tracked (new request)
        if !self.pending_requests.contains(root.as_slice()) {
            let fresh = PendingRequest { attempts: 1, failed_peers: Vec::new() };
            proof {
                assert(fresh@.failed =~= Set::<Seq<u8>>::empty());
            }
            self.pending_requests.insert(root, fresh);
        }
        // Map the number to the root for failure handling
        self.request_id_map.insert(request_id, root);
        proof {
            assert(self@ =~= sent(before, root, request_id));
        }
    }

    /// Forgets which root a request was for, and says it.
    pub fn forget_request(&mut self, request_id: u64) -> (r: Option<H256>)
        requires
            old(self).wf(),
        ensures
            final(self).wf(),
            final(self).retry_policy() == old(self).retry_policy(),
            final(self)@ == (FetcherView {
                requests: old(self)@.requests.remove(request_id),
                ..old(self)@
            }),
            r == if old(self)@.requests.dom().contains(request_id) {
                Some(old(self)@.requests[request_id])
            } else {
                None
            },
    {
        let r = self.request_id_map.remove(&request_id);
        proof {
            assert(self.request_id_map@ =~= old(self).request_id_map@.remove(request_id));
        }
        r
    }

    /// A fetch of a block from a peer failed.
    pub fn handle_fetch_failure(&mut self, root: &H256, peer: &PeerId) -> (r: FailureAction)
        requires
            old(self).wf(),
        ensures
            final(self).wf(),
            final(self).retry_policy() == old(self).retry_policy(),
            (final(self)@, r) == failure(old(self)@, root@, peer@, old(self).retry_policy()),
    {
        let ghost before = self@;
        match self.pending_requests.remove(root.as_slice()) {
            None => {
                proof {
                    assert(self@ =~= before);
                }
                FailureAction::Ignored
            },
            Some(pending) => {
                if pending.attempts >= self.policy.max_fetch_retries {
                    return FailureAction::GaveUp;
                }
                let mut failed_peers = pending.failed_peers;
                let ghost had = item_views(failed_peers@);
                if !has_peer(&failed_peers, peer) {
                    failed_peers.push(peer.clone());
                    proof {
                        assert(item_views(failed_peers@) =~= had.push(peer@));
                        assert(had.push(peer@).to_set() =~= had.to_set().insert(peer@)) by {
                            broadcast use vstd::seq_lib::group_seq_properties;

                        }
                    }
                } else {
                    proof {
                        assert(had.to_set().insert(peer@) =~= had.to_set());
                    }
                }
                let backoff_ms: u64 = self.policy.wait(pending.attempts);
                let next = PendingRequest { attempts: pending.attempts + 1, failed_peers };
                self.pending_requests.insert(*root, next);
                proof {
                    let expected = failure(before, root@, peer@, self.policy);
                    assert(next@ =~= PendingRequestView {
                        attempts: (before.pending[root@].attempts + 1) as u32,
                        failed: before.pending[root@].failed.insert(peer@),
                    });
                    assert(self@ =~= expected.0);
                }
                FailureAction::Retry { backoff_ms }
            },
        }
    }

    /// Blocks came as an answer to a request. Blocks with another root than the requested
    /// one are left out.
    pub fn handle_blocks_by_root_response(
        &mut self,
        blocks: Vec<SignedBlock>,
        peer: &PeerId,
        request_id: u64,
    ) -> (r: BlocksAction)
        requires
            old(self).wf(),
            forall|i: int| 0 <= i < blocks@.len() ==> Block::hashable((#[trigger] blocks@[i])@.message),
        ensures
            final(self).wf(),
            final(self).retry_policy() == old(self).retry_policy(),
            answered(
                old(self)@,
                item_views(blocks@),
                peer@,
                request_id,
                old(self).retry_policy(),
                final(self)@,
                r,
            ),
    {
        let ghost before = self@;
        let ghost vs = item_views(blocks@);
        // Look up which root was requested for this specific request
        let requested_root: H256 = match self.forget_request(request_id) {
            Some(root) => root,
            None => {
                proof {
                    assert(self@ =~= before);
                }
                return BlocksAction::UnknownRequest;
            },
        };
        if blocks.len() == 0 {
            self.request_id_map.insert(request_id, requested_root);
            proof {
                assert(self@ =~= before);
            }
            let action = self.handle_fetch_failure(&requested_root, peer);
            return BlocksAction::Failed { root: requested_root, action };
        }
        let mut forward: Vec<SignedBlock> = Vec::new();
        let mut i: usize = 0;
        proof {
            assert(vs.take(0) =~= Seq::<SignedBlockView>::empty());
            assert(item_views(forward@) =~= Seq::<SignedBlockView>::empty());
        }
        while i < blocks.len()
            invariant
                0 <= i <= blocks@.len(),
                vs == item_views(blocks@),
                forall|k: int|
                    0 <= k < blocks@.len() ==> Block::hashable((#[trigger] blocks@[k])@.message),
                item_views(forward@) == matching(vs.take(i as int), requested_root@),
            decreases blocks@.len() - i,
        {
            proof {
                assert(vs.take(i + 1).drop_last() =~= vs.take(i as int));
                assert(vs.take(i + 1).last() == blocks@[i as int]@);
            }
            let root = blocks[i].message.tree_hash_root();
            // Validate that this block matches what we requested
            if same_bytes(root.as_slice(), requested_root.as_slice()) {
                let ghost had = item_views(forward@);
                let block = blocks[i].clone();
                forward.push(block);
                proof {
                    assert(item_views(forward@) =~= had.push(block@));
                }
            }
            i = i + 1;
        }
        proof {
            assert(vs.take(i as int) =~= vs);
            assert(item_views(forward@).len() == forward@.len());
        }
        if forward.len() > 0 {
            // Clean up tracking for this root
            let _ = self.pending_requests.remove(requested_root.as_slice());
        }
        proof {
            let found = matching(vs, requested_root@).len() > 0;
            assert(self@ =~= FetcherView {
                pending: if found {
                    before.pending.remove(requested_root@)
                } else {
                    before.pending
                },
                requests: before.requests.remove(request_id),
                ..before
            });
        }
        BlocksAction::Forward(forward)
    }
}

/// Whether a request asks for one block.
pub open spec fn asks_for(request: Request, root: H256) -> bool {
    request matches Request::BlocksByRoot(r) && requested_roots(r.roots) == seq![root]
}

/// A request for one block.
pub fn block_request(root: H256) -> (r: Request)
    ensures
        asks_for(r, root),
{
    let mut roots = roots_empty();
    roots_push(&mut roots, root).expect("one root is within the limit");
    proof {
        assert(requested_roots(roots) =~= seq![root]);
    }
    Request::BlocksByRoot(BlocksByRootRequest { roots })
}

/// What the fetcher knows, and does, once blocks came as an answer.
pub open spec fn answered(
    v: FetcherView,
    blocks: Seq<SignedBlockView>,
    peer: Seq<u8>,
    request_id: u64,
    policy: RetryPolicy,
    new_v: FetcherView,
    action: BlocksAction,
) -> bool {
    if !v.requests.dom().contains(request_id) {
        new_v == v && action is UnknownRequest
    } else {
        let root = v.requests[request_id];
        if blocks.len() == 0 {
            // the number stays known, and the peer has failed
            action matches BlocksAction::Failed { root: r, action: f } && r == root && (
                new_v,
                f,
            ) == failure(v, root@, peer, policy)
        } else {
            let found = matching(blocks, root@);
            &&& action matches BlocksAction::Forward(bs) && item_views(bs@) == found
            &&& new_v == (FetcherView {
                pending: if found.len() > 0 {
                    v.pending.remove(root@)
                } else {
                    v.pending
                },
                requests: v.requests.remove(request_id),
                ..v
            })
        }
    }
}

/// Only blocks with the requested root are handed on.
pub proof fn only_requested_blocks_are_forwarded(
    blocks: Seq<SignedBlockView>,
    root: Seq<u8>,
    i: int,
)
    requires
        0 <= i < matching(blocks, root).len(),
    ensures
        Block::root(matching(blocks, root)[i].message) == root,
        blocks.contains(matching(blocks, root)[i]),
    decreases blocks.len(),
{
    let rest = blocks.drop_last();
    let before = matching(rest, root);
    if i < before.len() {
        only_requested_blocks_are_forwarded(rest, root, i);
        let k = choose|k: int| 0 <= k < rest.len() && rest[k] == before[i];
        assert(blocks[k] == before[i]);
    } else {
        assert(blocks[blocks.len() - 1] == matching(blocks, root)[i]);
    }
}

/// A peer that failed for a block is not asked for it again while another connected peer
/// has not failed.
pub proof fn failed_peers_are_spared(
    v: FetcherView,
    root: Seq<u8>,
    peer: Seq<u8>,
    policy: RetryPolicy,
    other: Seq<u8>,
)
    requires
        v.pending.dom().contains(root),
        v.pending[root].attempts < policy.max_fetch_retries,
        v.connected.contains(other),
        other != peer,
        !v.pending[root].failed.contains(other),
    ensures
        !pool_for(failure(v, root, peer, policy).0, root).contains(peer),
        pool_for(failure(v, root, peer, policy).0, root).contains(other),
{
}

/// Every failure is counted, so a fetch is given up after the allowed number of attempts.
pub proof fn attempts_run_out(v: FetcherView, root: Seq<u8>, peer: Seq<u8>, policy: RetryPolicy)
    requires
        v.pending.dom().contains(root),
        v.pending[root].attempts <= policy.max_fetch_retries,
    ensures
        ({
            let after = failure(v, root, peer, policy);
            match after.1 {
                FailureAction::Retry { .. } => after.0.pending.dom().contains(root)
                    && after.0.pending[root].attempts == v.pending[root].attempts + 1
                    && after.0.pending[root].attempts <= policy.max_fetch_retries,
                FailureAction::GaveUp => !after.0.pending.dom().contains(root)
                    && v.pending[root].attempts == policy.max_fetch_retries,
                FailureAction::Ignored => false,
            }
        }),
{
}

} // verus!
