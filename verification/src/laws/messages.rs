//! What peers send each other.

use crate::attestation::{SignedAggregatedAttestation, SignedAttestation};
use crate::bindings::collections::{
    message_bytes, requested_roots, ErrorMessage, MAX_ERROR_MESSAGE_LENGTH, MAX_REQUEST_BLOCKS,
};
use crate::block::{BlockHeader, SignedBlock, SignedBlockView};
use crate::blockchain::server::stored_blocks;
use crate::checkpoint::Checkpoint;
use crate::encoding::{
    decode_inverts_encode, decoded, lemma_fixed_valid, read_gives_back_written, Ssz,
};
use crate::encoding::error::DecodeError;
use crate::encoding::list::item_views;
use crate::laws::fetching::{requested_blocks_are_forwarded, with_root};
use crate::laws::layout::status_layout;
use crate::net::codec::{
    blocks_read_back, chunk_blocks, chunk_views, decode_block_chunk, decode_blocks_by_root_response,
    decode_status_response, failed_chunks_are_skipped, find_protocol, protocols_differ,
    request_reads_back, response_chunks, status_of_chunk, Chunk, Codec, CodecError, Protocol,
};
use crate::net::fetch::{
    block_request, BlockFetcher, BlocksAction, FetcherView, PeerId, RetryPolicy,
};
use crate::net::gossip::{
    classify_topic, component, compress_message, decode_gossip, decompress_message,
    handle_gossipsub_message, handles, publish_aggregated_attestation, publish_attestation,
    publish_block, slash, topic_of, DecompressError, GossipAction, MAX_PAYLOAD_SIZE, Topic,
    TopicKinds,
};
use crate::net::handlers::{
    build_status, find_requested_blocks, handle_blocks_by_root_request, handle_req_resp_message,
    handle_status_request, is_status_of, reacts, ReqRespAction, ReqRespEvent,
};
use crate::net::messages::{
    decode_message, encode_message, error_message, BLOCKS_BY_ROOT_PROTOCOL_V1, BlocksByRootRequest,
    BlocksByRootRequestView, Request, RequestView, Response, ResponseCode, ResponsePayload,
    ResponseView, STATUS_PROTOCOL_V1, Status,
};
use crate::primitives::{lemma_h256_of_view, lemma_le_bytes_len, H256};
use crate::storage::backend::StorageBackend;
use crate::storage::keys::{metadata_key, MetadataKey};
use crate::storage::model::{header_at, metadata, signed_block_at};
use crate::storage::store::Store;
use crate::storage::tables::{Db, Table};
use vstd::prelude::*;

verus! {

/// Whether a text has no slash.
pub open spec fn no_slash(text: Seq<u8>) -> bool {
    forall|i: int| 0 <= i < text.len() ==> #[trigger] text[i] != 0x2f
}

proof fn lemma_slash_after(text: Seq<u8>, rest: Seq<u8>)
    requires
        no_slash(text),
        rest.len() == 0 || rest[0] == 0x2f,
    ensures
        slash(text + rest) == text.len(),
    decreases text.len(),
{
    if text.len() == 0 {
        assert(text + rest =~= rest);
    } else {
        let tail = text.drop_first();
        assert forall|i: int| 0 <= i < tail.len() implies #[trigger] tail[i] != 0x2f by {
            assert(tail[i] == text[i + 1]);
        }
        lemma_slash_after(tail, rest);
        assert((text + rest).drop_first() =~= tail + rest);
        assert((text + rest)[0] == text[0]);
    }
}

/// The kind of a topic is what stands between its third slash and the next one, or its end.
/// A topic with fewer slashes has none.
pub proof fn topics_are_told_by_their_kind(
    kinds: TopicKinds,
    a: Seq<u8>,
    b: Seq<u8>,
    c: Seq<u8>,
    kind: Seq<u8>,
    rest: Seq<u8>,
)
    requires
        no_slash(a),
        no_slash(b),
        no_slash(c),
        no_slash(kind),
        rest.len() == 0 || rest[0] == 0x2f,
    ensures
        ({
            let s = seq![0x2fu8];
            topic_of(kinds, a + s + b + s + c + s + kind + rest) == if kind == kinds.block@ {
                Some(Topic::Block)
            } else if kind == kinds.aggregation@ {
                Some(Topic::Aggregation)
            } else if kinds.attestation_prefix@.len() <= kind.len() && kind.take(
                kinds.attestation_prefix@.len() as int,
            ) == kinds.attestation_prefix@ {
                Some(Topic::Attestation)
            } else {
                None
            }
        }),
        topic_of(kinds, a) is None,
        topic_of(kinds, a + seq![0x2fu8] + b) is None,
        topic_of(kinds, a + seq![0x2fu8] + b + seq![0x2fu8] + c) is None,
{
    let s = seq![0x2fu8];
    reveal_with_fuel(component, 5);
    let empty = Seq::<u8>::empty();
    // four parts
    let t3 = kind + rest;
    let t2 = c + s + t3;
    let t1 = b + s + t2;
    let t0 = a + s + t1;
    assert(a + s + b + s + c + s + kind + rest =~= t0);
    lemma_slash_after(kind, rest);
    lemma_step(c, t3);
    lemma_step(b, t2);
    lemma_step(a, t1);
    assert(t3.take(kind.len() as int) =~= kind);
    assert(component(t3, 0) == Some(kind));
    assert(component(t0, 3) == Some(kind));
    // fewer
    lemma_slash_after(a, empty);
    lemma_slash_after(b, empty);
    lemma_slash_after(c, empty);
    assert(a + empty =~= a);
    assert(b + empty =~= b);
    assert(c + empty =~= c);
    lemma_step(a, b);
    lemma_step(b, c);
    lemma_step(a, b + s + c);
    assert(a + s + b + s + c =~= a + s + (b + s + c));
}

proof fn lemma_step(first: Seq<u8>, next: Seq<u8>)
    requires
        no_slash(first),
    ensures
        slash(first + seq![0x2fu8] + next) == first.len(),
        (first + seq![0x2fu8] + next).skip(first.len() as int + 1) == next,
{
    let rest = seq![0x2fu8] + next;
    lemma_slash_after(first, rest);
    assert(first + seq![0x2fu8] + next =~= first + rest);
    assert((first + seq![0x2fu8] + next).skip(first.len() as int + 1) =~= next);
}

/// Stored blocks are found for each root in turn, and roots without one are skipped.
pub proof fn stored_blocks_are_found_in_order(db: Db, a: Seq<H256>, b: Seq<H256>, one: H256)
    ensures
        stored_blocks(db, a + b) == stored_blocks(db, a) + stored_blocks(db, b),
        stored_blocks(db, seq![one]) == match signed_block_at(db, one@) {
            Some(block) => seq![block],
            None => Seq::empty(),
        },
    decreases b.len(),
{
    reveal_with_fuel(stored_blocks, 2);
    assert(seq![one].drop_last() =~= Seq::<H256>::empty());
    assert(seq![one].last() == one);
    assert(stored_blocks(db, seq![one]) =~= match signed_block_at(db, one@) {
        Some(block) => seq![block],
        None => Seq::empty(),
    });
    if b.len() == 0 {
        assert(a + b =~= a);
        assert(stored_blocks(db, a) + stored_blocks(db, b) =~= stored_blocks(db, a));
    } else {
        stored_blocks_are_found_in_order(db, a, b.drop_last(), one);
        assert((a + b).drop_last() =~= a + b.drop_last());
        assert((a + b).last() == b.last());
        assert(stored_blocks(db, a + b) =~= stored_blocks(db, a) + stored_blocks(db, b));
    }
}

/// A request is answered from the store: a status with our finalized checkpoint and our head
/// at the slot of its header, a request for blocks with those that are stored, in the order of
/// the request. Nothing is noted of it.
pub proof fn requests_are_answered_from_the_store(
    db: Db,
    v: FetcherView,
    policy: RetryPolicy,
    peer: Seq<u8>,
    request: Request,
    new_v: FetcherView,
    action: ReqRespAction,
)
    requires
        reacts(db, v, policy, peer, ReqRespEvent::Request(request), new_v, action),
    ensures
        new_v == v,
        action is Respond,
        request is Status ==> (action->Respond_0 matches Response::Success {
            payload: ResponsePayload::Status(ours),
        } && metadata::<Checkpoint>(db, MetadataKey::LatestFinalized) == Some(ours.finalized)
            && metadata::<H256>(db, MetadataKey::Head) == Some(ours.head.root@) && (header_at(
            db,
            ours.head.root@,
        ) matches Some(header) && header.slot == ours.head.slot)),
        request matches Request::BlocksByRoot(r) ==> (action->Respond_0 matches Response::Success {
            payload: ResponsePayload::BlocksByRoot(blocks),
        } && item_views(blocks@) == stored_blocks(db, requested_roots(r.roots))),
{
}

/// Statuses, refusals and notices of peers are only looked at. A failed request of ours is
/// forgotten, and answered by a retry only if it was one for a block.
pub proof fn notices_change_nothing(
    db: Db,
    v: FetcherView,
    policy: RetryPolicy,
    peer: Seq<u8>,
    event: ReqRespEvent,
    new_v: FetcherView,
    action: ReqRespAction,
)
    requires
        reacts(db, v, policy, peer, event, new_v, action),
    ensures
        event is InboundFailure || event is ResponseSent ==> new_v == v && action is Nothing,
        event matches ReqRespEvent::Response {
            request_id: _,
            response: Response::Error { code: _, message: _ },
        } ==> new_v == v && action is Nothing,
        event matches ReqRespEvent::Response {
            request_id: _,
            response: Response::Success { payload: ResponsePayload::Status(_) },
        } ==> new_v == v && action is Nothing,
        event matches ReqRespEvent::OutboundFailure { request_id } ==> {
            &&& !v.requests.dom().contains(request_id) ==> new_v == v && action is Nothing
            &&& v.requests.dom().contains(request_id) ==> new_v.requests == v.requests.remove(
                request_id,
            ) && (action matches ReqRespAction::FetchFailed { root, action: _ } && root
                == v.requests[request_id])
        },
{
}

/// The blocks of a response are those of its successful chunks, in their order; a successful
/// chunk that is no block spoils the response.
pub proof fn blocks_are_read_chunk_by_chunk(
    before: Seq<(u8, Seq<u8>)>,
    code: u8,
    payload: Seq<u8>,
    block: SignedBlockView,
)
    ensures
        chunk_blocks(Seq::<(u8, Seq<u8>)>::empty()) == Some(Seq::<SignedBlockView>::empty()),
        code != 0 ==> chunk_blocks(before.push((code, payload))) == chunk_blocks(before),
        SignedBlock::valid(block) && chunk_blocks(before) is Some ==> chunk_blocks(
            before.push((0u8, SignedBlock::enc(block))),
        ) == Some(chunk_blocks(before)->0.push(block)),
        code == 0 && decoded::<SignedBlock>(payload) is None ==> chunk_blocks(
            before.push((code, payload)),
        ) is None,
        chunk_blocks(before) is None ==> chunk_blocks(before.push((code, payload))) is None,
{
    let a = before.push((code, payload));
    assert(a.drop_last() =~= before && a.last() == (code, payload));
    let b = before.push((0u8, SignedBlock::enc(block)));
    assert(b.drop_last() =~= before && b.last() == (0u8, SignedBlock::enc(block)));
    if SignedBlock::valid(block) {
        read_gives_back_written::<SignedBlock>(block);
    }
}

/// A gossiped message is what it was published as, of the kind of its topic, or refused: it
/// is never taken for a message of another kind.
pub proof fn gossip_keeps_its_kind(topic: Topic, message: Seq<u8>, action: GossipAction)
    requires
        handles(topic, message, action),
    ensures
        action is Block ==> topic == Topic::Block && SignedBlock::enc(action->Block_0@) == message,
        action is Aggregation ==> topic == Topic::Aggregation && SignedAggregatedAttestation::enc(
            action->Aggregation_0@,
        ) == message,
        action is Attestation ==> topic == Topic::Attestation && SignedAttestation::enc(
            action->Attestation_0@,
        ) == message,
        !(action is Unknown) && !(action is BadCompression),
{
    match action {
        GossipAction::Block(x) => {
            crate::encoding::decode_inverts_encode::<SignedBlock>(message, x@);
        },
        GossipAction::Aggregation(x) => {
            crate::encoding::decode_inverts_encode::<SignedAggregatedAttestation>(message, x@);
        },
        GossipAction::Attestation(x) => {
            crate::encoding::decode_inverts_encode::<SignedAttestation>(message, x@);
        },
        _ => {},
    }
}

/// A status response is read as the status it holds, and an error response as its code and
/// its message.
pub proof fn status_responses_are_told_by_their_code(code: u8, payload: Seq<u8>)
    ensures
        status_of_chunk(code, payload) matches Some(ResponseView::Status(s)) ==> code == 0
            && Status::enc(s) == payload,
        status_of_chunk(code, payload) matches Some(ResponseView::Error { code: c, message })
            ==> code != 0 && c.0 == code && message == payload && payload.len() <= 256,
        code != 0 && payload.len() <= 256 ==> status_of_chunk(code, payload) is Some,
        !(status_of_chunk(code, payload) matches Some(ResponseView::BlocksByRoot(_))),
{
    if code == 0 && decoded::<Status>(payload) is Some {
        crate::encoding::decode_inverts_encode::<Status>(payload, decoded::<Status>(payload)->0);
    }
}

/// The limits of what peers exchange: ten MiB for a message, 1024 roots in a request and 256
/// bytes in an error.
pub proof fn exchanges_are_limited()
    ensures
        MAX_PAYLOAD_SIZE == 10 * 1024 * 1024,
        MAX_REQUEST_BLOCKS == 1024,
        MAX_ERROR_MESSAGE_LENGTH == 256,
{
}

/// A request that was written is read back as the same request under its own protocol, and
/// under no unknown one.
pub proof fn requests_are_read_back(
    codec: Codec,
    request: Request,
    written: Vec<u8>,
    protocol: &str,
    payload: &[u8],
    r: Result<Request, CodecError>,
)
    requires
        call_ensures(Codec::write_request, (&codec, &request), written),
        call_ensures(Codec::read_request, (&codec, protocol, payload), r),
        payload@ == written@,
    ensures
        request is Status && protocol@ == STATUS_PROTOCOL_V1@ ==> (r matches Ok(x) && x@
            == request@),
        request is BlocksByRoot && protocol@ == BLOCKS_BY_ROOT_PROTOCOL_V1@ ==> (r matches Ok(x)
            && x@ == request@),
        protocol@ != STATUS_PROTOCOL_V1@ && protocol@ != BLOCKS_BY_ROOT_PROTOCOL_V1@ ==> (
        r matches Err(CodecError::UnknownProtocol)),
        request matches Request::Status(s) ==> written@ == Status::enc(s),
        request matches Request::BlocksByRoot(x) ==> written@ == BlocksByRootRequest::enc(x@),
{
    protocols_differ();
    request_reads_back(request@);
}

/// What is read as a request is what its payload encodes, of the protocol's kind.
pub proof fn requests_are_what_was_encoded(
    codec: Codec,
    protocol: &str,
    payload: &[u8],
    r: Result<Request, CodecError>,
    status: Status,
    request: BlocksByRootRequestView,
)
    requires
        call_ensures(Codec::read_request, (&codec, protocol, payload), r),
    ensures
        protocol@ == STATUS_PROTOCOL_V1@ && payload@ == Status::enc(status) ==> (r matches Ok(
            Request::Status(s),
        ) && s == status),
        protocol@ == BLOCKS_BY_ROOT_PROTOCOL_V1@ && BlocksByRootRequest::valid(request) && payload@
            == BlocksByRootRequest::enc(request) ==> (r matches Ok(Request::BlocksByRoot(x)) && x@
            == request),
        r matches Ok(Request::Status(s)) ==> protocol@ == STATUS_PROTOCOL_V1@ && Status::enc(s)
            == payload@,
        r matches Ok(Request::BlocksByRoot(x)) ==> protocol@ == BLOCKS_BY_ROOT_PROTOCOL_V1@
            && BlocksByRootRequest::enc(x@) == payload@,
{
    protocols_differ();
    lemma_fixed_valid::<Checkpoint>(status.finalized);
    lemma_fixed_valid::<Checkpoint>(status.head);
    lemma_fixed_valid::<Status>(status);
    read_gives_back_written::<Status>(status);
    if BlocksByRootRequest::valid(request) {
        read_gives_back_written::<BlocksByRootRequest>(request);
    }
    if let Ok(x) = r {
        match x@ {
            RequestView::Status(s) => {
                decode_inverts_encode::<Status>(payload@, s);
            },
            RequestView::BlocksByRoot(b) => {
                decode_inverts_encode::<BlocksByRootRequest>(payload@, b);
            },
        }
    }
}

/// A response is written as one chunk for a status or an error, with its code, and one chunk
/// of code zero for each block. It is read back as it was written.
pub proof fn responses_are_read_back(
    codec: Codec,
    response: Response,
    chunks: Vec<Chunk>,
    protocol: &str,
    r: Result<Response, CodecError>,
    i: int,
)
    requires
        call_ensures(Codec::write_response, (&codec, &response), chunks),
        call_ensures(Codec::read_response, (&codec, protocol, &chunks), r),
    ensures
        response matches Response::Success { payload: ResponsePayload::Status(s) } ==> {
            &&& chunks@.len() == 1 && chunks@[0].0 == 0 && chunks@[0].1@ == Status::enc(s)
            &&& protocol@ == STATUS_PROTOCOL_V1@ ==> (r matches Ok(x) && x@ == response@)
        },
        response matches Response::Success { payload: ResponsePayload::BlocksByRoot(blocks) } ==> {
            &&& chunks@.len() == blocks@.len()
            &&& 0 <= i < blocks@.len() ==> chunks@[i].0 == 0 && chunks@[i].1@ == SignedBlock::enc(
                blocks@[i]@,
            )
            &&& protocol@ == BLOCKS_BY_ROOT_PROTOCOL_V1@ ==> (r matches Ok(x) && x@ == response@)
        },
        response matches Response::Error { code, message } ==> {
            &&& chunks@.len() == 1 && chunks@[0].0 == code.0 && chunks@[0].1@ == message_bytes(
                message,
            )
            &&& protocol@ == STATUS_PROTOCOL_V1@ && code.0 != 0 ==> (r matches Ok(x) && x@
                == response@)
            &&& protocol@ == BLOCKS_BY_ROOT_PROTOCOL_V1@ && code.0 != 0 ==> (r matches Ok(x) && x@
                == ResponseView::BlocksByRoot(Seq::empty()))
        },
{
    protocols_differ();
    let views = chunk_views(chunks@);
    assert(views == response_chunks(response@));
    assert forall|k: int| 0 <= k < chunks@.len() implies (#[trigger] views[k]) == (
        chunks@[k].0,
        chunks@[k].1@,
    ) by {}
    match response@ {
        ResponseView::Status(s) => {
            assert(views[0] == (0u8, Status::enc(s)));
            read_gives_back_written::<Status>(s);
        },
        ResponseView::BlocksByRoot(blocks) => {
            blocks_read_back(blocks);
            if 0 <= i < blocks.len() {
                assert(views[i] == (0u8, SignedBlock::enc(blocks[i])));
            }
        },
        ResponseView::Error { code, message } => {
            assert(views[0] == (code.0, message));
            if code.0 != 0 {
                let none = Seq::<(u8, Seq<u8>)>::empty();
                failed_chunks_are_skipped(none, code.0, message);
                assert(views =~= none.push((code.0, message)));
            }
        },
    }
}

/// A chunk of a response for blocks is a block where its code is zero, and passed over
/// otherwise.
pub proof fn block_chunks_are_read(
    code: u8,
    payload: &[u8],
    r: Result<Option<SignedBlock>, CodecError>,
    block: SignedBlockView,
)
    requires
        call_ensures(decode_block_chunk, (code, payload), r),
    ensures
        code != 0 ==> (r matches Ok(x) && x is None),
        code == 0 && SignedBlock::valid(block) && payload@ == SignedBlock::enc(block) ==> (
        r matches Ok(Some(b)) && b@ == block),
        r matches Ok(Some(b)) ==> code == 0 && payload@ == SignedBlock::enc(b@),
        code == 0 ==> !(r matches Ok(None)),
{
    if SignedBlock::valid(block) {
        read_gives_back_written::<SignedBlock>(block);
    }
    if code == 0 && decoded::<SignedBlock>(payload@) is Some {
        decode_inverts_encode::<SignedBlock>(
            payload@,
            decoded::<SignedBlock>(payload@)->0,
        );
    }
}

/// A status response is read by its code, and an error that is too long is refused.
pub proof fn status_chunks_are_read(
    code: u8,
    payload: &[u8],
    r: Result<Response, CodecError>,
    status: Status,
)
    requires
        call_ensures(decode_status_response, (code, payload), r),
    ensures
        code == 0 && payload@ == Status::enc(status) ==> (r matches Ok(x) && x@
            == ResponseView::Status(status)),
        code != 0 && payload@.len() <= 256 ==> (r matches Ok(x) && x@ == (ResponseView::Error {
            code: ResponseCode(code),
            message: payload@,
        })),
        code != 0 && payload@.len() > 256 ==> (r matches Err(CodecError::InvalidMessage(_))),
        code == 0 && payload@.len() != 80 ==> (r matches Err(CodecError::InvalidData(_))),
{
    lemma_fixed_valid::<Checkpoint>(status.finalized);
    lemma_fixed_valid::<Checkpoint>(status.head);
    lemma_fixed_valid::<Status>(status);
    read_gives_back_written::<Status>(status);
    if code == 0 && decoded::<Status>(payload@) is Some {
        let s = decoded::<Status>(payload@)->0;
        decode_inverts_encode::<Status>(payload@, s);
        status_layout(s);
        lemma_le_bytes_len(s.finalized.slot as nat, 8);
        lemma_le_bytes_len(s.head.slot as nat, 8);
    }
}

/// An error message holds the text, cut after 256 bytes.
pub proof fn error_messages_are_cut(msg: &str, r: ErrorMessage, i: int)
    requires
        call_ensures(error_message, (msg,), r),
    ensures
        vstd::utf8::encode_utf8(msg@).len() <= 256 ==> message_bytes(r) == vstd::utf8::encode_utf8(
            msg@,
        ),
        vstd::utf8::encode_utf8(msg@).len() > 256 ==> message_bytes(r).len() == 256,
        0 <= i < message_bytes(r).len() ==> message_bytes(r)[i] == vstd::utf8::encode_utf8(msg@)[i],
{
}

/// Our status is the stored finalized checkpoint, and the stored head at the slot of its
/// header.
pub proof fn the_status_is_what_is_stored<B: StorageBackend>(
    store: Store<B>,
    r: Status,
    response: Response,
    finalized: Checkpoint,
    head: H256,
    header: BlockHeader,
)
    requires
        store.db()[Table::Metadata].dom().contains(metadata_key(MetadataKey::LatestFinalized)),
        store.db()[Table::Metadata][metadata_key(MetadataKey::LatestFinalized)]
            == Checkpoint::enc(finalized),
        store.db()[Table::Metadata].dom().contains(metadata_key(MetadataKey::Head)),
        store.db()[Table::Metadata][metadata_key(MetadataKey::Head)] == head@,
        store.db()[Table::BlockHeaders].dom().contains(head@),
        store.db()[Table::BlockHeaders][head@] == BlockHeader::enc(header),
    ensures
        call_ensures(build_status::<B>, (&store,), r) ==> r.finalized == finalized && r.head.root
            == head && r.head.slot == header.slot,
        call_ensures(handle_status_request::<B>, (&store,), response) ==> (
        response matches Response::Success { payload: ResponsePayload::Status(s) } && s.finalized
            == finalized && s.head.root == head && s.head.slot == header.slot),
{
    lemma_fixed_valid::<Checkpoint>(finalized);
    read_gives_back_written::<Checkpoint>(finalized);
    read_gives_back_written::<H256>(head@);
    assert(H256::enc(head@) == head@);
    lemma_fixed_valid::<BlockHeader>(header);
    read_gives_back_written::<BlockHeader>(header);
    lemma_h256_of_view(head);
    if call_ensures(build_status::<B>, (&store,), r) {
        lemma_h256_of_view(r.head.root);
    }
    if call_ensures(handle_status_request::<B>, (&store,), response) {
        if let ResponseView::Status(s) = response@ {
            lemma_h256_of_view(s.head.root);
        }
    }
}

/// Requested blocks are answered in the order of the request: every one that is stored, and
/// nothing for the others.
pub proof fn requested_blocks_are_found<B: StorageBackend>(
    store: Store<B>,
    request: BlocksByRootRequest,
    r: Vec<SignedBlock>,
    response: Response,
    i: int,
)
    requires
        0 <= i < requested_roots(request.roots).len(),
    ensures
        call_ensures(find_requested_blocks::<B>, (&store, &request), r) ==> ({
            let root = requested_roots(request.roots)[i]@;
            let earlier = stored_blocks(store.db(), requested_roots(request.roots).take(i));
            &&& earlier.len() <= r@.len()
            &&& signed_block_at(store.db(), root) matches Some(block) ==> earlier.len() < r@.len()
                && r@[earlier.len() as int]@ == block
            &&& r@.len() <= requested_roots(request.roots).len()
        }),
        call_ensures(find_requested_blocks::<B>, (&store, &request), r) && call_ensures(
            handle_blocks_by_root_request::<B>,
            (&store, &request),
            response,
        ) ==> (response matches Response::Success {
            payload: ResponsePayload::BlocksByRoot(blocks),
        } && item_views(blocks@) == item_views(r@)),
{
    let db = store.db();
    let roots = requested_roots(request.roots);
    let one = roots[i];
    stored_blocks_are_found_in_order(db, roots.take(i), seq![one], one);
    stored_blocks_are_found_in_order(db, roots.take(i) + seq![one], roots.skip(i + 1), one);
    assert(roots =~= roots.take(i) + seq![one] + roots.skip(i + 1));
    lemma_found_at_most(db, roots);
    if call_ensures(find_requested_blocks::<B>, (&store, &request), r) {
        assert(item_views(r@) == stored_blocks(db, roots));
        if signed_block_at(db, one@) is Some {
            let n = stored_blocks(db, roots.take(i)).len() as int;
            assert(stored_blocks(db, seq![one]).len() == 1);
            assert(item_views(r@)[n] == stored_blocks(db, seq![one])[0]);
            assert(item_views(r@)[n] == r@[n]@);
        }
    }
}

proof fn lemma_found_at_most(db: Db, roots: Seq<H256>)
    ensures
        stored_blocks(db, roots).len() <= roots.len(),
    decreases roots.len(),
{
    if roots.len() > 0 {
        lemma_found_at_most(db, roots.drop_last());
    }
}

/// What is done on an event of the request protocol: requests are answered from the store, our
/// failed requests are forgotten, and blocks go to the fetcher.
pub proof fn events_are_handled<B: StorageBackend>(
    store: Store<B>,
    fetcher: &mut BlockFetcher,
    peer: PeerId,
    event: ReqRespEvent,
    action: ReqRespAction,
)
    requires
        call_ensures(
            handle_req_resp_message::<B>,
            (&store, fetcher, &peer, event),
            action,
        ),
    ensures
        event is Request || event is InboundFailure || event is ResponseSent ==> final(fetcher)@
            == old(fetcher)@,
        event is InboundFailure || event is ResponseSent ==> action is Nothing,
        event matches ReqRespEvent::Request(Request::Status(_)) ==> (
        action matches ReqRespAction::Respond(
            Response::Success { payload: ResponsePayload::Status(s) },
        ) && is_status_of(s, store.db())),
        event matches ReqRespEvent::Request(Request::BlocksByRoot(q)) ==> (
        action matches ReqRespAction::Respond(
            Response::Success { payload: ResponsePayload::BlocksByRoot(blocks) },
        ) && item_views(blocks@) == stored_blocks(store.db(), requested_roots(q.roots))),
        event matches ReqRespEvent::OutboundFailure { request_id } ==> {
            &&& final(fetcher)@.requests == old(fetcher)@.requests.remove(request_id)
            &&& action is FetchFailed <==> old(fetcher)@.requests.dom().contains(request_id)
            &&& action matches ReqRespAction::FetchFailed { root, action: _ } ==> root ==
                old(fetcher)@.requests[request_id]
        },
        event matches ReqRespEvent::Response {
            request_id,
            response: Response::Success { payload: ResponsePayload::BlocksByRoot(blocks) },
        } ==> {
            &&& action is Blocks
            &&& action->Blocks_0 is Forward <==> old(fetcher)@.requests.dom().contains(request_id)
                && blocks@.len() > 0
            &&& action->Blocks_0 matches BlocksAction::Forward(forwarded) ==> item_views(
                forwarded@,
            ) == item_views(blocks@).filter(
                with_root(old(fetcher)@.requests[request_id]@),
            )
        },
{
    let v = old(fetcher)@;
    match event {
        ReqRespEvent::OutboundFailure { request_id } => {
            if !v.requests.dom().contains(request_id) {
                assert(v.requests.remove(request_id) =~= v.requests);
            }
        },
        ReqRespEvent::Response {
            request_id,
            response: Response::Success { payload: ResponsePayload::BlocksByRoot(blocks) },
        } => {
            if v.requests.dom().contains(request_id) && blocks@.len() > 0 {
                requested_blocks_are_forwarded(
                    v,
                    item_views(blocks@),
                    peer@,
                    request_id,
                    old(fetcher).retry_policy(),
                    final(fetcher)@,
                    action->Blocks_0,
                    v.requests[request_id],
                );
            }
        },
        _ => {},
    }
}

/// What was published on a topic of its kind is received as it was, up to the limit on the
/// size of messages.
pub proof fn published_messages_arrive(
    kinds: TopicKinds,
    topic: &[u8],
    data: &[u8],
    action: GossipAction,
    block: SignedBlock,
    attestation: SignedAttestation,
    aggregation: SignedAggregatedAttestation,
    published: Vec<u8>,
)
    requires
        call_ensures(handle_gossipsub_message, (&kinds, topic, data), action),
        data@ == published@,
    ensures
        topic_of(kinds, topic@) == Some(Topic::Block) && SignedBlock::valid(block@)
            && SignedBlock::enc(block@).len() <= 10 * 1024 * 1024 && call_ensures(
            publish_block,
            (&block,),
            published,
        ) ==> (action matches GossipAction::Block(x) && x@ == block@),
        topic_of(kinds, topic@) == Some(Topic::Block) && SignedBlock::valid(block@)
            && SignedBlock::enc(block@).len() > 10 * 1024 * 1024 && call_ensures(
            publish_block,
            (&block,),
            published,
        ) ==> (action matches GossipAction::BadCompression(DecompressError::TooLarge { size, max })
            && size == SignedBlock::enc(block@).len() && max == 10 * 1024 * 1024),
        topic_of(kinds, topic@) == Some(Topic::Attestation) && SignedAttestation::valid(
            attestation@,
        ) && call_ensures(publish_attestation, (&attestation,), published) ==> (
        action matches GossipAction::Attestation(x) && x@ == attestation@),
        topic_of(kinds, topic@) == Some(Topic::Aggregation) && SignedAggregatedAttestation::valid(
            aggregation@,
        ) && call_ensures(publish_aggregated_attestation, (&aggregation,), published) ==> (
        action matches GossipAction::Aggregation(x) && x@ == aggregation@),
        topic_of(kinds, topic@) is None ==> action is Unknown,
{
    if SignedBlock::valid(block@) {
        read_gives_back_written::<SignedBlock>(block@);
    }
    if SignedAttestation::valid(attestation@) {
        read_gives_back_written::<SignedAttestation>(attestation@);
    }
    if SignedAggregatedAttestation::valid(aggregation@) {
        read_gives_back_written::<SignedAggregatedAttestation>(aggregation@);
    }
}

/// A topic is classified by its fourth part.
pub proof fn topics_are_classified(
    kinds: TopicKinds,
    topic: &[u8],
    r: Option<Topic>,
    a: Seq<u8>,
    b: Seq<u8>,
    c: Seq<u8>,
    kind: Seq<u8>,
    rest: Seq<u8>,
)
    requires
        call_ensures(classify_topic, (&kinds, topic), r),
        no_slash(a),
        no_slash(b),
        no_slash(c),
        no_slash(kind),
        rest.len() == 0 || rest[0] == 0x2f,
        topic@ == a + seq![0x2fu8] + b + seq![0x2fu8] + c + seq![0x2fu8] + kind + rest,
    ensures
        kind == kinds.block@ ==> r == Some(Topic::Block),
        kind == kinds.aggregation@ && kind != kinds.block@ ==> r == Some(Topic::Aggregation),
        r == Some(Topic::Attestation) <==> kind != kinds.block@ && kind != kinds.aggregation@
            && kinds.attestation_prefix@.is_prefix_of(kind),
        r is None <==> kind != kinds.block@ && kind != kinds.aggregation@
            && !kinds.attestation_prefix@.is_prefix_of(kind),
{
    topics_are_told_by_their_kind(kinds, a, b, c, kind, rest);
    let prefix = kinds.attestation_prefix@;
    assert(prefix.is_prefix_of(kind) <==> prefix.len() <= kind.len() && kind.take(
        prefix.len() as int,
    ) == prefix) by {
        if prefix.len() <= kind.len() {
            assert(kind.take(prefix.len() as int) =~= kind.subrange(0, prefix.len() as int));
        }
    }
}

/// Compression is undone by decompression up to the limit, and refused beyond it.
pub proof fn compression_is_undone(
    data: &[u8],
    written: Vec<u8>,
    received: &[u8],
    r: Result<Vec<u8>, DecompressError>,
)
    requires
        call_ensures(compress_message, (data,), written),
        call_ensures(decompress_message, (received,), r),
        received@ == written@,
    ensures
        r is Ok <==> data@.len() <= 10 * 1024 * 1024,
        r matches Ok(out) ==> out@ == data@,
        r matches Err(e) ==> (e matches DecompressError::TooLarge { size, max } && size
            == data@.len() && max == 10 * 1024 * 1024),
{
}

/// Each protocol is found by its name, and no other name is one.
pub proof fn protocols_are_found_by_name(name: &str, r: Option<Protocol>)
    requires
        call_ensures(find_protocol, (name,), r),
    ensures
        r == Some(Protocol::Status) <==> name@ == "/leanconsensus/req/status/1/ssz_snappy"@,
        r == Some(Protocol::BlocksByRoot) <==> name@
            == "/leanconsensus/req/blocks_by_root/1/ssz_snappy"@,
{
    protocols_differ();
    assert(STATUS_PROTOCOL_V1@ == "/leanconsensus/req/status/1/ssz_snappy"@);
    assert(BLOCKS_BY_ROOT_PROTOCOL_V1@ == "/leanconsensus/req/blocks_by_root/1/ssz_snappy"@);
}

/// A response for blocks is read from its chunks: blocks where the code is zero, and nothing
/// from other chunks.
pub proof fn block_responses_are_read(
    chunks: Vec<Chunk>,
    r: Result<Response, CodecError>,
    k: int,
    block: SignedBlockView,
)
    requires
        call_ensures(decode_blocks_by_root_response, (&chunks,), r),
        0 <= k < chunks@.len(),
        chunks@[k].0 == 0,
    ensures
        r matches Ok(x) ==> x@ is BlocksByRoot,
        SignedBlock::valid(block) && chunks@[k].1@ == SignedBlock::enc(block) ==> (r matches Ok(x)
            ==> x@->BlocksByRoot_0.contains(block)),
        decoded::<SignedBlock>(chunks@[k].1@) is None ==> r is Err,
{
    let views = chunk_views(chunks@);
    assert(views[k] == (chunks@[k].0, chunks@[k].1@));
    lemma_chunk_is_read(views, k, block);
}

proof fn lemma_chunk_is_read(chunks: Seq<(u8, Seq<u8>)>, k: int, block: SignedBlockView)
    requires
        0 <= k < chunks.len(),
        chunks[k].0 == 0,
    ensures
        SignedBlock::valid(block) && chunks[k].1 == SignedBlock::enc(block) && chunk_blocks(
            chunks,
        ) is Some ==> chunk_blocks(chunks)->0.contains(block),
        decoded::<SignedBlock>(chunks[k].1) is None ==> chunk_blocks(chunks) is None,
    decreases chunks.len(),
{
    let rest = chunks.drop_last();
    if k < rest.len() {
        lemma_chunk_is_read(rest, k, block);
        if chunk_blocks(chunks) is Some && chunk_blocks(rest)->0.contains(block) {
            let had = chunk_blocks(rest)->0;
            let now = chunk_blocks(chunks)->0;
            let i = choose|i: int| 0 <= i < had.len() && had[i] == block;
            assert(now[i] == block);
        }
    } else if SignedBlock::valid(block) {
        read_gives_back_written::<SignedBlock>(block);
        if chunk_blocks(chunks) is Some && chunks[k].1 == SignedBlock::enc(block) {
            let now = chunk_blocks(chunks)->0;
            assert(now[now.len() - 1] == block);
        }
    }
}

/// A message of a kind is decoded as a value of that kind, or refused.
pub proof fn messages_are_decoded_by_kind(
    topic: Topic,
    message: &[u8],
    r: GossipAction,
    block: SignedBlockView,
)
    requires
        call_ensures(decode_gossip, (topic, message), r),
    ensures
        r is Block ==> topic == Topic::Block && SignedBlock::enc(r->Block_0@) == message@,
        r is Aggregation ==> topic == Topic::Aggregation && SignedAggregatedAttestation::enc(
            r->Aggregation_0@,
        ) == message@,
        r is Attestation ==> topic == Topic::Attestation && SignedAttestation::enc(
            r->Attestation_0@,
        ) == message@,
        topic == Topic::Block && SignedBlock::valid(block) && message@ == SignedBlock::enc(block)
            ==> r is Block,
        !(r is Unknown) && !(r is BadCompression),
{
    gossip_keeps_its_kind(topic, message@, r);
    if SignedBlock::valid(block) {
        read_gives_back_written::<SignedBlock>(block);
    }
}

/// Error messages and requests hold what they are made of.
pub proof fn small_messages_are_kept(
    message: ErrorMessage,
    a: Vec<u8>,
    bytes: &[u8],
    b: Result<ErrorMessage, DecodeError>,
    request: BlocksByRootRequest,
    roots: Vec<H256>,
    root: H256,
    c: Request,
)
    ensures
        call_ensures(encode_message, (&message,), a) ==> a@ == message_bytes(message),
        call_ensures(decode_message, (bytes,), b) ==> (b is Ok <==> bytes@.len() <= 256) && (
        b matches Ok(x) ==> message_bytes(x) == bytes@),
        call_ensures(BlocksByRootRequest::roots_vec, (&request,), roots) ==> roots@
            == requested_roots(request.roots),
        call_ensures(block_request, (root,), c) ==> (c matches Request::BlocksByRoot(x)
            && requested_roots(x.roots) == seq![root]),
{
}

} // verus!
