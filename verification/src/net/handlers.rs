//! What a node does with requests, responses and failures.

use crate::bindings::collections::requested_roots;
use crate::block::{Block, SignedBlock, SignedBlockView};
use crate::blockchain::server::stored_blocks;
use crate::checkpoint::Checkpoint;
use crate::encoding::list::item_views;
use crate::hash_root::TreeHash;
use crate::net::fetch::{
    answered, failure, BlockFetcher, BlocksAction, FailureAction, FetcherView, PeerId, RetryPolicy,
};
use crate::net::messages::{
    BlocksByRootRequest, Request, Response, ResponsePayload, ResponseView, Status,
};
use crate::primitives::H256;
use crate::storage::backend::StorageBackend;
use crate::storage::keys::MetadataKey;
use crate::storage::model::{block_readable, header_at, metadata};
use crate::storage::store::Store;
use crate::storage::tables::Db;
use vstd::prelude::*;

verus! {

/// Whether a store has all that a status tells.
pub open spec fn has_status(db: Db) -> bool {
    &&& metadata::<Checkpoint>(db, MetadataKey::LatestFinalized) is Some
    &&& metadata::<H256>(db, MetadataKey::Head) is Some
    &&& header_at(db, metadata::<H256>(db, MetadataKey::Head)->0) is Some
}

/// Whether a status tells where a store stands.
pub open spec fn is_status_of(status: Status, db: Db) -> bool {
    &&& metadata::<Checkpoint>(db, MetadataKey::LatestFinalized) == Some(status.finalized)
    &&& metadata::<H256>(db, MetadataKey::Head) == Some(status.head.root@)
    &&& header_at(db, status.head.root@) matches Some(h) && h.slot == status.head.slot
}

/// Build a status message from the current state of a store.
pub fn build_status<B: StorageBackend>(store: &Store<B>) -> (r: Status)
    requires
        store.wf(),
        has_status(store.db()),
    ensures
        is_status_of(r, store.db()),
{
    let finalized = store.latest_finalized();
    let head_root = store.head();
    let head_slot: u64 = store.get_block_header(&head_root).expect("head block exists").slot;
    Status { finalized, head: Checkpoint { root: head_root, slot: head_slot } }
}

/// Whether the blocks of roots can be read, as far as they are stored.
pub open spec fn all_readable(db: Db, roots: Seq<H256>) -> bool {
    forall|i: int| 0 <= i < roots.len() ==> block_readable(db, (#[trigger] roots[i])@)
}

/// The stored blocks of a request, in the order of the request. Missing blocks are silently
/// skipped.
pub fn find_requested_blocks<B: StorageBackend>(
    store: &Store<B>,
    request: &BlocksByRootRequest,
) -> (r: Vec<SignedBlock>)
    requires
        store.wf(),
        all_readable(store.db(), requested_roots(request.roots)),
    ensures
        item_views(r@) == stored_blocks(store.db(), requested_roots(request.roots)),
{
    let roots = request.roots_vec();
    let mut blocks: Vec<SignedBlock> = Vec::new();
    let mut i: usize = 0;
    proof {
        assert(roots@.take(0) =~= Seq::<H256>::empty());
        assert(item_views(blocks@) =~= Seq::<SignedBlockView>::empty());
    }
    while i < roots.len()
        invariant
            0 <= i <= roots@.len(),
            store.wf(),
            all_readable(store.db(), roots@),
            item_views(blocks@) == stored_blocks(store.db(), roots@.take(i as int)),
        decreases roots@.len() - i,
    {
        proof {
            assert(roots@.take(i + 1).drop_last() =~= roots@.take(i as int));
            assert(roots@.take(i + 1).last() == roots@[i as int]);
        }
        match store.get_signed_block(&roots[i]) {
            Some(block) => {
                let ghost had = item_views(blocks@);
                blocks.push(block);
                proof {
                    assert(item_views(blocks@) =~= had.push(block@));
                }
            },
            None => {},
        }
        i = i + 1;
    }
    proof {
        assert(roots@.take(i as int) =~= roots@);
    }
    blocks
}

/// What happens on the request and response protocols.
pub enum ReqRespEvent {
    /// A peer asks for something.
    Request(Request),
    /// A peer answers.
    Response { request_id: u64, response: Response },
    /// A request of ours failed.
    OutboundFailure { request_id: u64 },
    /// A request of a peer failed.
    InboundFailure,
    /// Our answer was sent.
    ResponseSent,
}

/// What a node does about it.
pub enum ReqRespAction {
    /// Answer the peer.
    Respond(Response),
    /// Deal with blocks that came.
    Blocks(BlocksAction),
    /// Deal with a fetch that failed.
    FetchFailed { root: H256, action: FailureAction },
    /// Nothing.
    Nothing,
}

/// Whether the blocks of an event can be hashed.
pub open spec fn event_hashable(event: ReqRespEvent) -> bool {
    event matches ReqRespEvent::Response {
        request_id,
        response: Response::Success { payload: ResponsePayload::BlocksByRoot(blocks) },
    } ==> forall|i: int| 0 <= i < blocks@.len() ==> Block::hashable((#[trigger] blocks@[i])@.message)
}

/// Whether a store holds what the answer to a request is made of.
pub open spec fn can_answer(db: Db, request: Request) -> bool {
    match request {
        Request::Status(_) => has_status(db),
        Request::BlocksByRoot(r) => all_readable(db, requested_roots(r.roots)),
    }
}

/// What a node knows and does once something happened on the request and response
/// protocols.
pub open spec fn reacts(
    db: Db,
    v: FetcherView,
    policy: RetryPolicy,
    peer: Seq<u8>,
    event: ReqRespEvent,
    new_v: FetcherView,
    action: ReqRespAction,
) -> bool {
    match event {
        // a status is answered with ours
        ReqRespEvent::Request(Request::Status(_)) => new_v == v && (
        action matches ReqRespAction::Respond(r) && (r@ matches ResponseView::Status(s)
            && is_status_of(s, db))),
        // a request for blocks is answered with those that are stored
        ReqRespEvent::Request(Request::BlocksByRoot(request)) => new_v == v && (
        action matches ReqRespAction::Respond(r) && r@ == ResponseView::BlocksByRoot(
            stored_blocks(db, requested_roots(request.roots)),
        )),
        ReqRespEvent::Response {
            request_id,
            response: Response::Success { payload: ResponsePayload::BlocksByRoot(blocks) },
        } => action matches ReqRespAction::Blocks(a) && answered(
            v,
            item_views(blocks@),
            peer,
            request_id,
            policy,
            new_v,
            a,
        ),
        ReqRespEvent::OutboundFailure { request_id } => if v.requests.dom().contains(request_id) {
            // it was a request for a block
            let root = v.requests[request_id];
            let forgotten = FetcherView { requests: v.requests.remove(request_id), ..v };
            action matches ReqRespAction::FetchFailed { root: r, action: f } && r == root && (
                new_v,
                f,
            ) == failure(forgotten, root@, peer, policy)
        } else {
            new_v == v && action is Nothing
        },
        // statuses, refusals and notices change nothing
        _ => new_v == v && action is Nothing,
    }
}

/// Deals with what happened on the request and response protocols.
pub fn handle_req_resp_message<B: StorageBackend>(
    store: &Store<B>,
    fetcher: &mut BlockFetcher,
    peer: &PeerId,
    event: ReqRespEvent,
) -> (r: ReqRespAction)
    requires
        store.wf(),
        old(fetcher).wf(),
        event is Request ==> can_answer(store.db(), event->Request_0),
        event_hashable(event),
    ensures
        final(fetcher).wf(),
        final(fetcher).retry_policy() == old(fetcher).retry_policy(),
        reacts(
            store.db(),
            old(fetcher)@,
            old(fetcher).retry_policy(),
            peer@,
            event,
            final(fetcher)@,
            r,
        ),
{
    let ghost v = fetcher@;
    match event {
        ReqRespEvent::Request(Request::Status(_)) => ReqRespAction::Respond(
            handle_status_request(store),
        ),
        ReqRespEvent::Request(Request::BlocksByRoot(request)) => ReqRespAction::Respond(
            handle_blocks_by_root_request(store, &request),
        ),
        ReqRespEvent::Response { request_id, response } => match response {
            Response::Success { payload: ResponsePayload::BlocksByRoot(blocks) } => {
                ReqRespAction::Blocks(
                    fetcher.handle_blocks_by_root_response(blocks, peer, request_id),
                )
            },
            Response::Success { payload: ResponsePayload::Status(_) } => ReqRespAction::Nothing,
            Response::Error { .. } => ReqRespAction::Nothing,
        },
        ReqRespEvent::OutboundFailure { request_id } => {
            // Check if this was a block fetch request
            match fetcher.forget_request(request_id) {
                Some(root) => {
                    let action = fetcher.handle_fetch_failure(&root, peer);
                    ReqRespAction::FetchFailed { root, action }
                },
                None => {
                    proof {
                        assert(fetcher@ =~= v);
                    }
                    ReqRespAction::Nothing
                },
            }
        },
        ReqRespEvent::InboundFailure => ReqRespAction::Nothing,
        ReqRespEvent::ResponseSent => ReqRespAction::Nothing,
    }
}

/// The answer to a status request.
pub fn handle_status_request<B: StorageBackend>(store: &Store<B>) -> (r: Response)
    requires
        store.wf(),
        has_status(store.db()),
    ensures
        r@ matches ResponseView::Status(s) && is_status_of(s, store.db()),
{
    Response::success(ResponsePayload::Status(build_status(store)))
}

/// The answer to a request for blocks.
pub fn handle_blocks_by_root_request<B: StorageBackend>(
    store: &Store<B>,
    request: &BlocksByRootRequest,
) -> (r: Response)
    requires
        store.wf(),
        all_readable(store.db(), requested_roots(request.roots)),
    ensures
        r@ == ResponseView::BlocksByRoot(
            stored_blocks(store.db(), requested_roots(request.roots)),
        ),
{
    Response::success(ResponsePayload::BlocksByRoot(find_requested_blocks(store, request)))
}

} // verus!
