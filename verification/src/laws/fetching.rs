//! How missing blocks are fetched.

use crate::bindings::collections::requested_roots;
use crate::block::{Block, SignedBlock, SignedBlockView};
use crate::encoding::list::item_views;
use crate::hash_root::TreeHash;
use crate::net::fetch::{
    answered, failure, matching, only_requested_blocks_are_forwarded, pool_for, power,
    round_started, sent, BlockFetcher, BlocksAction, FailureAction, FetchPlan, FetcherView, PeerId,
    RetryPolicy,
};
use crate::net::handlers::{handle_req_resp_message, ReqRespAction, ReqRespEvent};
use crate::net::messages::Request;
use crate::primitives::H256;
use crate::storage::backend::StorageBackend;
use crate::storage::store::Store;
use vstd::arithmetic::power::pow;
use vstd::prelude::*;

verus! {

/// Whether a block has a root.
pub open spec fn with_root(root: Seq<u8>) -> spec_fn(SignedBlockView) -> bool {
    |block: SignedBlockView| Block::root(block.message) == root
}

/// The blocks with a root are all of them, in their order and as often as they occur.
proof fn lemma_matching_filters(blocks: Seq<SignedBlockView>, root: Seq<u8>)
    ensures
        matching(blocks, root) == blocks.filter(with_root(root)),
    decreases blocks.len(),
{
    reveal(Seq::filter);
    if blocks.len() > 0 {
        lemma_matching_filters(blocks.drop_last(), root);
    }
}

/// Of the blocks of a response exactly those with the requested root are handed on: all of
/// them, in the order of the response and as often as they occur. If there is one, the root is
/// no longer tracked, and otherwise it is tracked as before. The number of the request is
/// forgotten, and nothing else changes.
pub proof fn requested_blocks_are_forwarded(
    v: FetcherView,
    blocks: Seq<SignedBlockView>,
    peer: Seq<u8>,
    request_id: u64,
    policy: RetryPolicy,
    new_v: FetcherView,
    action: BlocksAction,
    root: H256,
)
    requires
        v.requests.dom().contains(request_id),
        v.requests[request_id] == root,
        blocks.len() > 0,
    ensures
        answered(v, blocks, peer, request_id, policy, new_v, action) ==> {
            &&& action matches BlocksAction::Forward(forwarded) && item_views(forwarded@)
                == blocks.filter(with_root(root@))
            &&& (exists|i: int|
                0 <= i < blocks.len() && Block::root((#[trigger] blocks[i]).message) == root@)
                ==> new_v.pending == v.pending.remove(root@)
            &&& (forall|i: int|
                0 <= i < blocks.len() ==> Block::root((#[trigger] blocks[i]).message) != root@)
                ==> new_v.pending == v.pending
            &&& new_v.requests == v.requests.remove(request_id)
            &&& new_v.connected == v.connected
        },
{
    let wanted = with_root(root@);
    lemma_matching_filters(blocks, root@);
    let kept = blocks.filter(wanted);
    blocks.filter_lemma(wanted);
    if exists|i: int| 0 <= i < blocks.len() && Block::root((#[trigger] blocks[i]).message) == root@ {
        let i = choose|i: int|
            0 <= i < blocks.len() && Block::root((#[trigger] blocks[i]).message) == root@;
        assert(wanted(blocks[i]));
        assert(kept.contains(blocks[i]));
        assert(kept.len() > 0);
    }
    if forall|i: int| 0 <= i < blocks.len() ==> Block::root((#[trigger] blocks[i]).message) != root@ {
        if kept.len() > 0 {
            only_requested_blocks_are_forwarded(blocks, root@, 0);
        }
        assert(kept.len() == 0);
    }
}

/// A response with just the requested block is handed on whole, and the root is no longer
/// tracked.
pub proof fn the_requested_block_arrives(
    v: FetcherView,
    block: SignedBlockView,
    peer: Seq<u8>,
    request_id: u64,
    policy: RetryPolicy,
    new_v: FetcherView,
    action: BlocksAction,
    root: H256,
)
    requires
        root@ == Block::root(block.message),
    ensures
        answered(
            sent(v, root, request_id),
            seq![block],
            peer,
            request_id,
            policy,
            new_v,
            action,
        ) ==> (action matches BlocksAction::Forward(forwarded) && item_views(forwarded@)
            == seq![block] && !new_v.pending.dom().contains(root@)),
{
    let before = sent(v, root, request_id);
    let blocks = seq![block];
    if answered(before, blocks, peer, request_id, policy, new_v, action) {
        requested_blocks_are_forwarded(
            before,
            blocks,
            peer,
            request_id,
            policy,
            new_v,
            action,
            root,
        );
        assert(Block::root(blocks[0].message) == root@);
        reveal(Seq::filter);
        let wanted = with_root(root@);
        assert(blocks.drop_last() =~= Seq::<SignedBlockView>::empty());
        assert(blocks.last() == block);
        assert(blocks.drop_last().filter(wanted) =~= Seq::<SignedBlockView>::empty());
        assert(blocks.filter(wanted) =~= blocks);
    }
}

/// A response to a number that was not asked under changes nothing. An empty response leaves
/// the request known and counts as a failure of the peer for the root.
pub proof fn other_responses_forward_nothing(
    v: FetcherView,
    blocks: Seq<SignedBlockView>,
    peer: Seq<u8>,
    request_id: u64,
    policy: RetryPolicy,
    new_v: FetcherView,
    action: BlocksAction,
)
    ensures
        answered(v, blocks, peer, request_id, policy, new_v, action) ==> {
            &&& !v.requests.dom().contains(request_id) ==> new_v == v && !(action is Forward)
                && !(action is Failed)
            &&& v.requests.dom().contains(request_id) && blocks.len() == 0 ==> new_v.requests
                == v.requests && new_v.connected == v.connected && (
            action matches BlocksAction::Failed { root, action: a } && root
                == v.requests[request_id] && (a is Ignored <==> !v.pending.dom().contains(root@)))
        },
{
}

/// Sending a request makes its number known for the root, and the root tracked: a new one
/// with its first attempt and no failed peer, a tracked one as it was.
pub proof fn sent_requests_are_tracked(v: FetcherView, root: H256, request_id: u64, other: Seq<u8>, id: u64)
    ensures
        sent(v, root, request_id).requests.dom().contains(request_id),
        sent(v, root, request_id).requests[request_id] == root,
        id != request_id ==> (sent(v, root, request_id).requests.dom().contains(id)
            <==> v.requests.dom().contains(id)) && (v.requests.dom().contains(id) ==> sent(
            v,
            root,
            request_id,
        ).requests[id] == v.requests[id]),
        sent(v, root, request_id).pending.dom().contains(root@),
        v.pending.dom().contains(root@) ==> sent(v, root, request_id).pending == v.pending,
        !v.pending.dom().contains(root@) ==> sent(v, root, request_id).pending[root@].attempts == 1
            && sent(v, root, request_id).pending[root@].failed == Set::<Seq<u8>>::empty(),
        other != root@ ==> (sent(v, root, request_id).pending.dom().contains(other)
            <==> v.pending.dom().contains(other)) && (v.pending.dom().contains(other) ==> sent(
            v,
            root,
            request_id,
        ).pending[other] == v.pending[other]),
        sent(v, root, request_id).connected == v.connected,
{
}

/// A block is asked for from a connected peer: one that has not failed for it if there is
/// one, and any connected one otherwise. When all have failed, their failures are forgotten,
/// and the attempts are not.
pub proof fn peers_are_chosen_fairly(v: FetcherView, root: Seq<u8>, peer: Seq<u8>, other: Seq<u8>)
    requires
        v.pending.dom().contains(root),
    ensures
        pool_for(v, root).contains(peer) ==> v.connected.contains(peer),
        v.connected.contains(peer) && !v.pending[root].failed.contains(peer) ==> pool_for(
            v,
            root,
        ).contains(peer) && round_started(v, root) == v,
        v.connected.contains(other) && !v.pending[root].failed.contains(other)
            && v.pending[root].failed.contains(peer) ==> !pool_for(v, root).contains(peer),
        (forall|p: Seq<u8>| v.connected.contains(p) ==> #[trigger] v.pending[root].failed.contains(p))
            ==> pool_for(v, root) == v.connected && round_started(v, root).pending[root].failed
            == Set::<Seq<u8>>::empty(),
        round_started(v, root).pending.dom() == v.pending.dom(),
        round_started(v, root).pending[root].attempts == v.pending[root].attempts,
        v.pending.dom().contains(other) && other != root ==> round_started(v, root).pending[other]
            == v.pending[other],
        round_started(v, root).connected == v.connected,
        round_started(v, root).requests == v.requests,
{
    assert(round_started(v, root).pending.dom() =~= v.pending.dom());
    if forall|p: Seq<u8>| v.connected.contains(p) ==> #[trigger] v.pending[root].failed.contains(p) {
        assert(v.connected.subset_of(v.pending[root].failed));
    }
}

/// For a root that is not tracked every connected peer may be asked, and nothing changes.
pub proof fn new_roots_may_be_asked_of_all(v: FetcherView, root: Seq<u8>)
    requires
        !v.pending.dom().contains(root),
    ensures
        pool_for(v, root) == v.connected,
        round_started(v, root) == v,
{
    assert(v.connected.difference(Set::<Seq<u8>>::empty()) =~= v.connected);
}

/// A failure is held against the peer and counted. The last allowed attempt ends the
/// tracking, every earlier one is followed by another, and other roots are not touched.
pub proof fn failures_are_counted(
    v: FetcherView,
    root: Seq<u8>,
    peer: Seq<u8>,
    policy: RetryPolicy,
    other: Seq<u8>,
)
    requires
        v.pending.dom().contains(root),
        other != root,
    ensures
        ({
            let attempts = v.pending[root].attempts;
            let (after, action) = failure(v, root, peer, policy);
            &&& attempts >= policy.max_fetch_retries ==> action is GaveUp
                && !after.pending.dom().contains(root)
            &&& attempts < policy.max_fetch_retries ==> action is Retry && after.pending.dom().contains(
                root,
            ) && after.pending[root].attempts == attempts + 1
            &&& attempts < policy.max_fetch_retries ==> forall|p: Seq<u8>| #[trigger]
                after.pending[root].failed.contains(p) <==> p == peer
                    || v.pending[root].failed.contains(p)
            &&& after.pending.dom().contains(other) <==> v.pending.dom().contains(other)
            &&& v.pending.dom().contains(other) ==> after.pending[other] == v.pending[other]
            &&& after.requests == v.requests
            &&& after.connected == v.connected
        }),
{
}

/// The waits grow by the same factor: the first is the initial one, and after each further
/// failure it is multiplied.
pub proof fn waits_are_multiplied(
    v: FetcherView,
    w: FetcherView,
    root: Seq<u8>,
    peer: Seq<u8>,
    policy: RetryPolicy,
)
    requires
        policy.fits(),
        v.pending.dom().contains(root),
        w.pending.dom().contains(root),
        v.pending[root].attempts >= 1,
        w.pending[root].attempts == v.pending[root].attempts + 1,
        w.pending[root].attempts < policy.max_fetch_retries,
    ensures
        v.pending[root].attempts == 1 ==> failure(v, root, peer, policy).1
            == (FailureAction::Retry { backoff_ms: policy.initial_backoff_ms }),
        failure(v, root, peer, policy).1 matches FailureAction::Retry { backoff_ms: a } && failure(
            w,
            root,
            peer,
            policy,
        ).1 matches FailureAction::Retry { backoff_ms: b } && b == a * policy.backoff_multiplier,
{
    let n = v.pending[root].attempts as nat;
    let m = policy.backoff_multiplier as nat;
    let i = policy.initial_backoff_ms as nat;
    assert(policy.backoff(n) <= u64::MAX);
    assert(policy.backoff(n + 1) <= u64::MAX);
    let p = crate::net::fetch::power(m, (n - 1) as nat);
    assert(crate::net::fetch::power(m, n) == p * m);
    assert(i * (p * m) == (i * p) * m) by (nonlinear_arith);
    if n == 1 {
        assert(p == 1);
        assert(i * 1 == i);
    }
}

/// A response to a request of ours hands on the blocks with the requested root, all of them and
/// no others, in their order, and ends the request. An empty one counts as a failure, and one
/// that answers no request is ignored.
pub proof fn responses_hand_on_what_was_requested(
    fetcher: &mut BlockFetcher,
    blocks: Vec<SignedBlock>,
    peer: PeerId,
    request_id: u64,
    action: BlocksAction,
    root: H256,
)
    requires
        call_ensures(
            BlockFetcher::handle_blocks_by_root_response,
            (fetcher, blocks, &peer, request_id),
            action,
        ),
    ensures
        old(fetcher)@.requests.dom().contains(request_id) && old(fetcher)@.requests[request_id]
            == root && blocks@.len() > 0 ==> {
            &&& action matches BlocksAction::Forward(forwarded) && item_views(forwarded@)
                == item_views(blocks@).filter(with_root(root@))
            &&& final(fetcher)@.pending == if exists|i: int|
                0 <= i < blocks@.len() && Block::root((#[trigger] blocks@[i])@.message) == root@ {
                old(fetcher)@.pending.remove(root@)
            } else {
                old(fetcher)@.pending
            }
            &&& final(fetcher)@.requests == old(fetcher)@.requests.remove(request_id)
            &&& final(fetcher)@.connected == old(fetcher)@.connected
        },
        old(fetcher)@.requests.dom().contains(request_id) && old(fetcher)@.requests[request_id]
            == root && blocks@.len() == 0 ==> {
            &&& action matches BlocksAction::Failed { root: r, action: a } && r == root && (
            a is Ignored <==> !old(fetcher)@.pending.dom().contains(root@)) && (a is GaveUp
                <==> old(fetcher)@.pending.dom().contains(root@) && old(
                fetcher
            )@.pending[root@].attempts >= old(fetcher).retry_policy().max_fetch_retries)
            &&& final(fetcher)@.requests == old(fetcher)@.requests
            &&& final(fetcher)@.connected == old(fetcher)@.connected
        },
        !old(fetcher)@.requests.dom().contains(request_id) ==> action is UnknownRequest &&
            final(fetcher)@ == old(fetcher)@,
{
    let v = old(fetcher)@;
    let views = item_views(blocks@);
    assert forall|i: int| 0 <= i < blocks@.len() implies (#[trigger] blocks@[i])@ == views[i] by {}
    if v.requests.dom().contains(request_id) && v.requests[request_id] == root && blocks@.len()
        > 0 {
        requested_blocks_are_forwarded(
            v,
            views,
            peer@,
            request_id,
            old(fetcher).retry_policy(),
            final(fetcher)@,
            action,
            root,
        );
        if exists|i: int|
            0 <= i < blocks@.len() && Block::root((#[trigger] blocks@[i])@.message) == root@ {
            let i = choose|i: int|
                0 <= i < blocks@.len() && Block::root((#[trigger] blocks@[i])@.message) == root@;
            assert(Block::root(views[i].message) == root@);
        } else {
            assert forall|i: int| 0 <= i < views.len() implies Block::root(
                (#[trigger] views[i]).message,
            ) != root@ by {
                assert(views[i] == blocks@[i]@);
            }
        }
    }
}

/// A failed peer is counted against the block it was asked for: it is remembered, the attempts
/// go up by one, and the wait before the next is the first wait times the multiplier for each
/// attempt after the first. After the last attempt the block is given up.
pub proof fn failed_peers_are_remembered(
    fetcher: &mut BlockFetcher,
    root: H256,
    peer: PeerId,
    action: FailureAction,
    p: Seq<u8>,
)
    requires
        call_ensures(BlockFetcher::handle_fetch_failure, (fetcher, &root, &peer), action),
    ensures
        final(fetcher)@.requests == old(fetcher)@.requests,
        final(fetcher)@.connected == old(fetcher)@.connected,
        !old(fetcher)@.pending.dom().contains(root@) ==> action is Ignored && final(fetcher)@
            == old(fetcher)@,
        old(fetcher)@.pending.dom().contains(root@) ==> ({
            let before = old(fetcher)@.pending[root@];
            let policy = old(fetcher).retry_policy();
            if before.attempts >= policy.max_fetch_retries {
                action is GaveUp && final(fetcher)@.pending == old(fetcher)@.pending.remove(root@)
            } else {
                let after = final(fetcher)@.pending[root@];
                &&& action is Retry
                &&& final(fetcher)@.pending.dom() == old(fetcher)@.pending.dom()
                &&& p != root@ && old(fetcher)@.pending.dom().contains(p) ==>
                    final(fetcher)@.pending[p] == old(fetcher)@.pending[p]
                &&& after.attempts == before.attempts + 1
                &&& after.failed.contains(p) <==> p == peer@ || before.failed.contains(p)
                &&& policy.fits() && before.attempts >= 1 ==> action->Retry_backoff_ms
                    == policy.initial_backoff_ms * pow(
                    policy.backoff_multiplier as int,
                    (before.attempts - 1) as nat,
                )
            }
        }),
{
    let v = old(fetcher)@;
    let policy = old(fetcher).retry_policy();
    if v.pending.dom().contains(root@) && v.pending[root@].attempts < policy.max_fetch_retries {
        assert(final(fetcher)@.pending.dom() =~= v.pending.dom());
        if policy.fits() {
            let n = v.pending[root@].attempts as nat;
            if n >= 1 {
                assert(policy.backoff(n) <= u64::MAX);
                lemma_power_is_pow(policy.backoff_multiplier as nat, (n - 1) as nat);
            }
        }
    }
}

proof fn lemma_power_is_pow(base: nat, n: nat)
    ensures
        power(base, n) == pow(base as int, n),
    decreases n,
{
    reveal(pow);
    if n > 0 {
        lemma_power_is_pow(base, (n - 1) as nat);
        assert(power(base, (n - 1) as nat) * base == base * power(base, (n - 1) as nat))
            by (nonlinear_arith);
    }
}

/// Asking for a block picks a connected peer, one that has not failed on it if there is one,
/// and asks it for that block alone. Once all have failed, all are tried anew.
pub proof fn asked_peers_are_connected(
    fetcher: &mut BlockFetcher,
    root: H256,
    r: Option<FetchPlan>,
    other: Seq<u8>,
)
    requires
        call_ensures(BlockFetcher::fetch_block_from_peer, (fetcher, root), r),
    ensures
        r is None <==> forall|p: Seq<u8>| !#[trigger] old(fetcher)@.connected.contains(p),
        r matches Some(plan) ==> {
            &&& old(fetcher)@.connected.contains(plan.peer@)
            &&& old(fetcher)@.pending.dom().contains(root@) && old(fetcher)@.connected.contains(
                other,
            ) && !old(fetcher)@.pending[root@].failed.contains(other) ==> !old(
                fetcher
            )@.pending[root@].failed.contains(plan.peer@) && final(fetcher)@ == old(fetcher)@
            &&& old(fetcher)@.pending.dom().contains(root@) && (forall|p: Seq<u8>|
                old(fetcher)@.connected.contains(p) ==> #[trigger]
                    old(fetcher)@.pending[root@].failed.contains(p)) ==>
                        final(fetcher)@.pending[root@].failed == Set::<Seq<u8>>::empty() && final(
                fetcher
            )@.pending[root@].attempts == old(fetcher)@.pending[root@].attempts
            &&& plan.request matches Request::BlocksByRoot(request) && requested_roots(
                request.roots,
            ) == seq![root]
        },
        final(fetcher)@.connected == old(fetcher)@.connected,
        final(fetcher)@.requests == old(fetcher)@.requests,
        final(fetcher)@.pending.dom() == old(fetcher)@.pending.dom(),
{
    let v = old(fetcher)@;
    assert(final(fetcher)@.pending.dom() =~= v.pending.dom());
    if r is Some {
        let peer = r->0.peer@;
        if v.pending.dom().contains(root@) {
            peers_are_chosen_fairly(v, root@, peer, other);
            peers_are_chosen_fairly(v, root@, other, peer);
        } else {
            new_roots_may_be_asked_of_all(v, root@);
        }
    }
}

/// A request that is sent is known by its number, until it is forgotten. The first request for
/// a block counts as the first attempt.
pub proof fn sent_requests_are_known(
    fetcher: &mut BlockFetcher,
    root: H256,
    request_id: u64,
    other: u64,
    r: Option<H256>,
)
    ensures
        call_ensures(BlockFetcher::request_sent, (fetcher, root, request_id), ()) ==> {
            &&& final(fetcher)@.requests.dom().contains(request_id)
            &&& final(fetcher)@.requests[request_id] == root
            &&& final(fetcher)@.requests.remove(request_id) == old(fetcher)@.requests.remove(
                request_id,
            )
            &&& final(fetcher)@.connected == old(fetcher)@.connected
            &&& old(fetcher)@.pending.dom().contains(root@) ==> final(fetcher)@.pending ==
                old(fetcher)@.pending
            &&& !old(fetcher)@.pending.dom().contains(root@) ==> final(
                fetcher
            )@.pending.dom().contains(root@) && final(fetcher)@.pending[root@].attempts == 1
                && final(fetcher)@.pending[root@].failed == Set::<Seq<u8>>::empty() &&
                    final(fetcher)@.pending.remove(root@) == old(fetcher)@.pending
        },
        call_ensures(BlockFetcher::forget_request, (fetcher, request_id), r) ==> {
            &&& r is Some <==> old(fetcher)@.requests.dom().contains(request_id)
            &&& r matches Some(x) ==> x == old(fetcher)@.requests[request_id]
            &&& !final(fetcher)@.requests.dom().contains(request_id)
            &&& other != request_id ==> (final(fetcher)@.requests.dom().contains(other) <==> old(
                fetcher
            )@.requests.dom().contains(other)) && (old(fetcher)@.requests.dom().contains(other)
                ==> final(fetcher)@.requests[other] == old(fetcher)@.requests[other])
            &&& final(fetcher)@.pending == old(fetcher)@.pending
            &&& final(fetcher)@.connected == old(fetcher)@.connected
        },
{
    if call_ensures(BlockFetcher::request_sent, (fetcher, root, request_id), ()) {
        assert(final(fetcher)@.requests.remove(request_id) =~= old(fetcher)@.requests.remove(
            request_id,
        ));
        if !old(fetcher)@.pending.dom().contains(root@) {
            assert(final(fetcher)@.pending.remove(root@) =~= old(fetcher)@.pending);
        }
    }
}

/// Peers are connected from when they connect until they disconnect.
pub proof fn peers_come_and_go(fetcher: &mut BlockFetcher, peer: PeerId, other: Seq<u8>)
    ensures
        call_ensures(BlockFetcher::connect, (fetcher, peer), ()) ==> (final(
            fetcher
        )@.connected.contains(other) <==> other == peer@ || old(fetcher)@.connected.contains(
            other,
        )) && final(fetcher)@.pending == old(fetcher)@.pending && final(fetcher)@.requests ==
            old(fetcher)@.requests,
        call_ensures(BlockFetcher::disconnect, (fetcher, &peer), ()) ==> (final(
            fetcher
        )@.connected.contains(other) <==> other != peer@ && old(fetcher)@.connected.contains(
            other,
        )) && final(fetcher)@.pending == old(fetcher)@.pending && final(fetcher)@.requests ==
            old(fetcher)@.requests,
{
}

/// The pool for a block has each candidate once.
pub proof fn the_pool_has_all_candidates(
    fetcher: &mut BlockFetcher,
    root: H256,
    r: Vec<PeerId>,
    peer: Seq<u8>,
    other: Seq<u8>,
)
    requires
        call_ensures(BlockFetcher::fetch_pool, (fetcher, &root), r),
    ensures
        item_views(r@).no_duplicates(),
        item_views(r@).contains(peer) ==> old(fetcher)@.connected.contains(peer),
        !old(fetcher)@.pending.dom().contains(root@) ==> (item_views(r@).contains(peer) <==>
            old(fetcher)@.connected.contains(peer)),
        old(fetcher)@.pending.dom().contains(root@) && old(fetcher)@.connected.contains(other)
            && !old(fetcher)@.pending[root@].failed.contains(other) ==> (item_views(r@).contains(
            peer,
        ) <==> old(fetcher)@.connected.contains(peer) && !old(
            fetcher
        )@.pending[root@].failed.contains(peer)),
        old(fetcher)@.pending.dom().contains(root@) && (forall|p: Seq<u8>|
            old(fetcher)@.connected.contains(p) ==> #[trigger] old(
                fetcher
            )@.pending[root@].failed.contains(p)) ==> (item_views(r@).contains(peer) <==>
                old(fetcher)@.connected.contains(peer)),
{
    let v = old(fetcher)@;
    assert(item_views(r@).to_set().contains(peer) <==> item_views(r@).contains(peer));
    if v.pending.dom().contains(root@) {
        peers_are_chosen_fairly(v, root@, peer, other);
    } else {
        new_roots_may_be_asked_of_all(v, root@);
    }
}

/// What a failure leaves of the blocks that are waited for: one attempt more, and the peer among
/// those that failed; or nothing after the last attempt. Others are not touched.
pub open spec fn failure_noted(
    before: FetcherView,
    after: FetcherView,
    root: Seq<u8>,
    peer: Seq<u8>,
    most: u32,
    other: Seq<u8>,
) -> bool {
    &&& other != root ==> (after.pending.dom().contains(other) <==> before.pending.dom().contains(
        other,
    )) && (before.pending.dom().contains(other) ==> after.pending[other] == before.pending[other])
    &&& after.pending.dom().contains(root) <==> before.pending.dom().contains(root)
        && before.pending[root].attempts < most
    &&& after.pending.dom().contains(root) ==> after.pending[root].attempts
        == before.pending[root].attempts + 1 && (after.pending[root].failed.contains(other)
        <==> other == peer || before.pending[root].failed.contains(other))
}

/// An empty response and a request that could not be sent count as failures of the peer.
pub proof fn failures_are_noted<B: StorageBackend>(
    store: Store<B>,
    fetcher: &mut BlockFetcher,
    blocks: Vec<SignedBlock>,
    peer: PeerId,
    request_id: u64,
    a: BlocksAction,
    b: ReqRespAction,
    other: Seq<u8>,
)
    requires
        old(fetcher)@.requests.dom().contains(request_id),
    ensures
        call_ensures(
            BlockFetcher::handle_blocks_by_root_response,
            (fetcher, blocks, &peer, request_id),
            a,
        ) && blocks@.len() == 0 ==> failure_noted(
            old(fetcher)@,
            final(fetcher)@,
            old(fetcher)@.requests[request_id]@,
            peer@,
            old(fetcher).retry_policy().max_fetch_retries,
            other,
        ),
        call_ensures(
            handle_req_resp_message::<B>,
            (&store, fetcher, &peer, ReqRespEvent::OutboundFailure { request_id }),
            b,
        ) ==> failure_noted(
            old(fetcher)@,
            final(fetcher)@,
            old(fetcher)@.requests[request_id]@,
            peer@,
            old(fetcher).retry_policy().max_fetch_retries,
            other,
        ) && final(fetcher)@.requests == old(fetcher)@.requests.remove(request_id) &&
            final(fetcher)@.connected == old(fetcher)@.connected,
{
}

/// A plan tells how many connected peers were left out because they failed.
pub proof fn left_out_peers_are_counted(
    fetcher: &mut BlockFetcher,
    root: H256,
    r: Option<FetchPlan>,
    other: Seq<u8>,
)
    requires
        call_ensures(BlockFetcher::fetch_block_from_peer, (fetcher, root), r),
        old(fetcher)@.connected.finite(),
        r is Some,
    ensures
        !old(fetcher)@.pending.dom().contains(root@) ==> r->0.excluded == 0,
        old(fetcher)@.pending.dom().contains(root@) && old(fetcher)@.connected.contains(other)
            && !old(fetcher)@.pending[root@].failed.contains(other) ==> r->0.excluded ==
                old(fetcher)@.connected.intersect(old(fetcher)@.pending[root@].failed).len(),
        old(fetcher)@.pending.dom().contains(root@) && (forall|p: Seq<u8>|
            old(fetcher)@.connected.contains(p) ==> #[trigger]
                old(fetcher)@.pending[root@].failed.contains(p)) ==> r->0.excluded == 0,
{
    let v = old(fetcher)@;
    if v.pending.dom().contains(root@) {
        let failed = v.pending[root@].failed;
        let left = v.connected.difference(failed);
        let out = v.connected.intersect(failed);
        vstd::set_lib::lemma_len_subset(left, v.connected);
        vstd::set_lib::lemma_len_subset(out, v.connected);
        vstd::set_lib::lemma_set_disjoint_lens(left, out);
        assert(left + out =~= v.connected);
        if v.connected.contains(other) && !failed.contains(other) {
            assert(pool_for(v, root@) == left);
        }
    } else {
        new_roots_may_be_asked_of_all(v, root@);
    }
}

/// A fetcher starts without peers, requests and blocks to wait for.
pub proof fn fetchers_start_empty(policy: RetryPolicy, r: BlockFetcher, k: Seq<u8>, id: u64)
    requires
        call_ensures(BlockFetcher::new, (policy,), r),
    ensures
        r.retry_policy() == policy,
        !r@.connected.contains(k),
        !r@.pending.dom().contains(k),
        !r@.requests.dom().contains(id),
{
}

} // verus!
