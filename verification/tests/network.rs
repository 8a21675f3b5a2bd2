use ethlambda::attestation::{
    bits_from_vec, AttestationData, SignedAggregatedAttestation, SignedAttestation, XmssSignature,
};
use ethlambda::block::{AggregatedSignatureProof, Block, BlockBody, BlockSignatures, SignedBlock};
use ethlambda::checkpoint::Checkpoint;
use ethlambda::encoding::{DecodeError, Ssz};
use ethlambda::hash_root::TreeHash;
use ethlambda::net::codec::{
    decode_block_chunk, decode_blocks_by_root_response, decode_status_response, Codec, CodecError,
};
use ethlambda::net::fetch::{
    block_request, BlockFetcher, BlocksAction, FailureAction, PeerId, RetryPolicy,
};
use ethlambda::net::gossip::{
    classify_topic, compress_message, decode_gossip, decompress_message, handle_gossipsub_message,
    publish_aggregated_attestation, publish_attestation, publish_block, DecompressError,
    GossipAction, Topic, TopicKinds, MAX_PAYLOAD_SIZE,
};
use ethlambda::net::handlers::{
    build_status, find_requested_blocks, handle_blocks_by_root_request, handle_req_resp_message,
    handle_status_request, ReqRespAction, ReqRespEvent,
};
use ethlambda::net::messages::{
    decode_message, encode_message, error_message, BlocksByRootRequest, Request, Response,
    ResponseCode, ResponsePayload, Status, BLOCKS_BY_ROOT_PROTOCOL_V1, STATUS_PROTOCOL_V1,
};
use ethlambda::primitives::H256;
use ethlambda::state::State;
use ethlambda::storage::backend::InMemoryBackend;
use ethlambda::storage::store::Store;

fn checkpoint(n: u8) -> Checkpoint {
    Checkpoint { root: H256([n; 32]), slot: n as u64 }
}

fn status() -> Status {
    Status { finalized: checkpoint(1), head: checkpoint(2) }
}

fn block(slot: u64) -> SignedBlock {
    SignedBlock {
        message: Block {
            slot,
            proposer_index: 0,
            parent_root: H256([3; 32]),
            state_root: H256([4; 32]),
            body: BlockBody::default(),
        },
        signature: BlockSignatures {
            attestation_signatures: vec![],
            proposer_signature: XmssSignature::default(),
        },
    }
}

fn roots_of(request: &Request) -> Vec<H256> {
    match request {
        Request::BlocksByRoot(r) => r.roots_vec(),
        Request::Status(_) => panic!("not a request for blocks"),
    }
}

// ============ Messages ============

#[test]
fn codes_have_names_by_range() {
    let text = |code: u8| ResponseCode::from(code).text();
    assert_eq!(text(0), "SUCCESS(0)");
    assert_eq!(text(1), "INVALID_REQUEST(1)");
    assert_eq!(text(2), "SERVER_ERROR(2)");
    assert_eq!(text(3), "RESOURCE_UNAVAILABLE(3)");
    assert_eq!(text(4), "SERVER_ERROR(4)");
    assert_eq!(text(127), "SERVER_ERROR(127)");
    assert_eq!(text(128), "INVALID_REQUEST(128)");
    assert_eq!(text(255), "INVALID_REQUEST(255)");
    assert_eq!(ResponseCode::success(), ResponseCode(0));
    assert_eq!(ResponseCode::invalid_request(), ResponseCode(1));
    assert_eq!(ResponseCode::server_error(), ResponseCode(2));
    assert_eq!(ResponseCode::resource_unavailable(), ResponseCode(3));
    assert_eq!(u8::from(ResponseCode(77)), 77);
}

#[test]
fn error_messages_are_cut() {
    assert_eq!(encode_message(&error_message("busy")), b"busy");
    let long = "x".repeat(300);
    assert_eq!(encode_message(&error_message(&long)), vec![b'x'; 256]);
    assert!(decode_message(&[0; 257]).is_err());
    assert_eq!(encode_message(&decode_message(&[7; 256]).unwrap()), vec![7; 256]);
}

#[test]
fn requests_are_read_back() {
    let codec = Codec;
    let request = Request::Status(status());
    let bytes = codec.write_request(&request);
    assert_eq!(bytes, status().as_ssz_bytes());
    match codec.read_request(STATUS_PROTOCOL_V1, &bytes).unwrap() {
        Request::Status(read) => assert_eq!(read, status()),
        Request::BlocksByRoot(_) => panic!("wrong request"),
    }
    let request = block_request(H256([9; 32]));
    let bytes = codec.write_request(&request);
    assert_eq!(bytes, [&[4, 0, 0, 0][..], &[9; 32]].concat());
    let read = codec.read_request(BLOCKS_BY_ROOT_PROTOCOL_V1, &bytes).unwrap();
    assert_eq!(roots_of(&read), vec![H256([9; 32])]);

    assert!(matches!(codec.read_request("/other", &bytes), Err(CodecError::UnknownProtocol)));
    assert!(matches!(
        codec.read_request(STATUS_PROTOCOL_V1, &bytes),
        Err(CodecError::InvalidData(_))
    ));
    // more roots than a request may hold
    let many = [&[4, 0, 0, 0][..], &vec![1; 32 * 1025]].concat();
    assert!(matches!(
        codec.read_request(BLOCKS_BY_ROOT_PROTOCOL_V1, &many),
        Err(CodecError::InvalidData(_))
    ));
}

#[test]
fn responses_are_read_back() {
    let codec = Codec;
    let response = Response::success(ResponsePayload::Status(status()));
    let chunks = codec.write_response(&response);
    assert_eq!(chunks, vec![(0, status().as_ssz_bytes())]);
    match codec.read_response(STATUS_PROTOCOL_V1, &chunks).unwrap() {
        Response::Success { payload: ResponsePayload::Status(read) } => assert_eq!(read, status()),
        _ => panic!("wrong response"),
    }

    let response = Response::success(ResponsePayload::BlocksByRoot(vec![block(1), block(2)]));
    let chunks = codec.write_response(&response);
    assert_eq!(chunks.len(), 2);
    assert_eq!(chunks[1], (0, block(2).as_ssz_bytes()));
    match codec.read_response(BLOCKS_BY_ROOT_PROTOCOL_V1, &chunks).unwrap() {
        Response::Success { payload: ResponsePayload::BlocksByRoot(read) } => {
            assert_eq!(read.len(), 2);
            assert_eq!(read[0].as_ssz_bytes(), block(1).as_ssz_bytes());
        }
        _ => panic!("wrong response"),
    }

    let response = Response::error(ResponseCode::resource_unavailable(), error_message("no"));
    let chunks = codec.write_response(&response);
    assert_eq!(chunks, vec![(3, b"no".to_vec())]);
    match codec.read_response(STATUS_PROTOCOL_V1, &chunks).unwrap() {
        Response::Error { code, message } => {
            assert_eq!(code, ResponseCode(3));
            assert_eq!(encode_message(&message), b"no");
        }
        _ => panic!("wrong response"),
    }
    assert!(matches!(codec.read_response("/x", &chunks), Err(CodecError::UnknownProtocol)));
    assert!(matches!(
        codec.read_response(STATUS_PROTOCOL_V1, &vec![]),
        Err(CodecError::UnexpectedEof)
    ));
    assert!(matches!(decode_status_response(0, &[1]), Err(CodecError::InvalidData(_))));
    let bad = decode_status_response(1, &[1; 257]).unwrap_err();
    assert!(matches!(bad, CodecError::InvalidMessage(_)));
    assert_eq!(
        bad.text(STATUS_PROTOCOL_V1),
        "Invalid error message: \
         BytesInvalid(\"VariableList of 257 items exceeds maximum of 256\")"
    );
    let bad = decode_status_response(0, &[1]).unwrap_err();
    assert_eq!(bad.text(STATUS_PROTOCOL_V1), "InvalidByteLength { len: 1, expected: 80 }");
    assert_eq!(CodecError::UnknownProtocol.text("/x"), "unknown protocol: /x");
    assert_eq!(CodecError::UnexpectedEof.text("/x"), "unexpected end of file");
}

#[test]
fn failed_chunks_are_left_out() {
    let chunks = vec![
        (3, b"missing".to_vec()),
        (0, block(2).as_ssz_bytes()),
        (1, vec![0; 999]),
    ];
    match decode_blocks_by_root_response(&chunks).unwrap() {
        Response::Success { payload: ResponsePayload::BlocksByRoot(read) } => {
            assert_eq!(read.len(), 1);
            assert_eq!(read[0].message.slot, 2);
        }
        _ => panic!("wrong response"),
    }
    assert!(matches!(decode_block_chunk(2, &[]), Ok(None)));
    assert!(matches!(decode_block_chunk(0, &[]), Err(CodecError::InvalidData(_))));
    assert!(decode_blocks_by_root_response(&vec![(0, vec![1])]).is_err());
    match decode_blocks_by_root_response(&vec![]).unwrap() {
        Response::Success { payload: ResponsePayload::BlocksByRoot(read) } => {
            assert!(read.is_empty())
        }
        _ => panic!("wrong response"),
    }
}

// ============ Gossip ============

fn kinds() -> TopicKinds {
    TopicKinds {
        block: b"block".to_vec(),
        aggregation: b"aggregation".to_vec(),
        attestation_prefix: b"attestation".to_vec(),
    }
}

#[test]
fn topics_are_told_apart() {
    let class = |topic: &str| classify_topic(&kinds(), topic.as_bytes());
    assert!(matches!(class("/leanconsensus/devnet0/block/ssz_snappy"), Some(Topic::Block)));
    assert!(matches!(class("/leanconsensus/devnet0/aggregation/x"), Some(Topic::Aggregation)));
    assert!(matches!(class("/a/b/attestation_3/x"), Some(Topic::Attestation)));
    assert!(matches!(class("/a/b/attestation"), Some(Topic::Attestation)));
    assert!(class("/a/b/blocks/x").is_none());
    assert!(class("/a/b").is_none());
    assert!(class("").is_none());
}

#[test]
fn compression_is_undone() {
    let data = vec![5u8; 1000];
    let small = compress_message(&data);
    assert!(small.len() < 100);
    assert_eq!(small, snap::raw::Encoder::new().compress_vec(&data).unwrap());
    assert_eq!(decompress_message(&small).unwrap(), data);
    assert_eq!(decompress_message(&compress_message(&[])).unwrap(), Vec::<u8>::new());

    let e = decompress_message(&[]).unwrap_err();
    assert!(matches!(e, DecompressError::Snap(_)));
    assert_eq!(e.text(), snap::Error::Empty.to_string());
    assert!(matches!(decompress_message(&[10, 0]), Err(DecompressError::Snap(_))));
    // a size that is claimed and never met
    let mut large = vec![0x81, 0x80, 0x80, 0x05];
    assert!(matches!(
        decompress_message(&large),
        Err(DecompressError::TooLarge { size: 10_485_761, max: MAX_PAYLOAD_SIZE })
    ));
    assert_eq!(
        decompress_message(&large).unwrap_err().text(),
        "uncompressed size 10485761 exceeds maximum 10485760"
    );
    large[0] = 0x80;
    assert!(matches!(decompress_message(&large), Err(DecompressError::Snap(_))));
    // data above the limit is refused with its size, data at the limit is not
    let mut long = vec![7u8; MAX_PAYLOAD_SIZE];
    assert_eq!(decompress_message(&compress_message(&long)).unwrap().len(), MAX_PAYLOAD_SIZE);
    long.push(7);
    assert!(matches!(
        decompress_message(&compress_message(&long)),
        Err(DecompressError::TooLarge { size: 10_485_761, max: MAX_PAYLOAD_SIZE })
    ));
}

#[test]
fn published_messages_come_back() {
    let data = AttestationData {
        slot: 1,
        head: checkpoint(1),
        target: checkpoint(2),
        source: checkpoint(3),
    };
    let b = block(5);
    let sent = publish_block(&b);
    match handle_gossipsub_message(&kinds(), b"/l/d/block/s", &sent) {
        GossipAction::Block(read) => assert_eq!(read.as_ssz_bytes(), b.as_ssz_bytes()),
        _ => panic!("no block"),
    }
    let vote = SignedAttestation { validator_id: 3, data, signature: XmssSignature::default() };
    let sent = publish_attestation(&vote);
    match handle_gossipsub_message(&kinds(), b"/l/d/attestation_0/s", &sent) {
        GossipAction::Attestation(read) => assert_eq!(read.as_ssz_bytes(), vote.as_ssz_bytes()),
        _ => panic!("no attestation"),
    }
    let votes = SignedAggregatedAttestation {
        data,
        proof: AggregatedSignatureProof::new(bits_from_vec(&vec![true]), vec![1, 2]),
    };
    let sent = publish_aggregated_attestation(&votes);
    match handle_gossipsub_message(&kinds(), b"/l/d/aggregation/s", &sent) {
        GossipAction::Aggregation(read) => assert_eq!(read.as_ssz_bytes(), votes.as_ssz_bytes()),
        _ => panic!("no aggregation"),
    }
    assert!(matches!(
        handle_gossipsub_message(&kinds(), b"/l/d/other/s", &sent),
        GossipAction::Unknown
    ));
    assert!(matches!(
        handle_gossipsub_message(&kinds(), b"/l/d/block/s", &[]),
        GossipAction::BadCompression(_)
    ));
    assert!(matches!(
        handle_gossipsub_message(&kinds(), b"/l/d/block/s", &compress_message(&[1])),
        GossipAction::BadEncoding(DecodeError::InvalidLengthPrefix { len: 1, expected: 4 })
    ));
    assert!(matches!(
        decode_gossip(Topic::Attestation, &[]),
        GossipAction::BadEncoding(DecodeError::InvalidByteLength { len: 0, expected: 3248 })
    ));
    match handle_gossipsub_message(&kinds(), b"/l/d/block/s", &[0x81, 0x80, 0x80, 0x05]) {
        GossipAction::BadCompression(e) => assert_eq!(
            e.text(),
            "uncompressed size 10485761 exceeds maximum 10485760"
        ),
        _ => panic!("not refused"),
    }
}

// ============ Fetching ============

fn peer(n: u8) -> PeerId {
    PeerId { bytes: vec![n] }
}

fn fetcher() -> BlockFetcher {
    BlockFetcher::new(RetryPolicy {
        max_fetch_retries: 4,
        initial_backoff_ms: 5,
        backoff_multiplier: 2,
    })
}

fn pool(fetcher: &mut BlockFetcher, root: &H256) -> Vec<Vec<u8>> {
    let mut peers: Vec<Vec<u8>> =
        fetcher.fetch_pool(root).into_iter().map(|p| p.bytes).collect();
    peers.sort();
    peers
}

#[test]
fn blocks_are_fetched_from_connected_peers() {
    let root = H256([1; 32]);
    let mut f = fetcher();
    assert!(f.fetch_block_from_peer(root).is_none());
    f.connect(peer(1));
    f.connect(peer(2));
    f.disconnect(&peer(1));
    let plan = f.fetch_block_from_peer(root).unwrap();
    assert_eq!(plan.peer.bytes, vec![2]);
    assert_eq!(plan.excluded, 0);
    assert_eq!(roots_of(&plan.request), vec![root]);
}

#[test]
fn failed_peers_are_asked_last() {
    let root = H256([1; 32]);
    let mut f = fetcher();
    for n in 1..=3 {
        f.connect(peer(n));
    }
    f.request_sent(root, 10);
    assert!(matches!(
        f.handle_fetch_failure(&root, &peer(2)),
        FailureAction::Retry { backoff_ms: 5 }
    ));
    assert_eq!(pool(&mut f, &root), vec![vec![1], vec![3]]);
    for _ in 0..20 {
        let plan = f.fetch_block_from_peer(root).unwrap();
        assert!(plan.peer.bytes != vec![2]);
        assert_eq!(plan.excluded, 1);
    }
    assert!(matches!(
        f.handle_fetch_failure(&root, &peer(1)),
        FailureAction::Retry { backoff_ms: 10 }
    ));
    assert!(matches!(
        f.handle_fetch_failure(&root, &peer(3)),
        FailureAction::Retry { backoff_ms: 20 }
    ));
    // all have failed: every one is in the pool again, and the next failure counts anew
    assert_eq!(pool(&mut f, &root), vec![vec![1], vec![2], vec![3]]);
    assert_eq!(pool(&mut f, &root), vec![vec![1], vec![2], vec![3]]);
    assert!(matches!(f.handle_fetch_failure(&root, &peer(1)), FailureAction::GaveUp));
    assert!(matches!(f.handle_fetch_failure(&root, &peer(1)), FailureAction::Ignored));
}

#[test]
fn only_the_requested_block_is_forwarded() {
    let wanted = block(1);
    let root = wanted.message.tree_hash_root();
    let mut f = fetcher();
    f.connect(peer(1));
    f.request_sent(root, 10);
    assert!(matches!(
        f.handle_blocks_by_root_response(vec![wanted.clone()], &peer(1), 11),
        BlocksAction::UnknownRequest
    ));
    // an empty response counts as a failure, and the request stays known
    assert!(matches!(
        f.handle_blocks_by_root_response(vec![], &peer(1), 10),
        BlocksAction::Failed { action: FailureAction::Retry { backoff_ms: 5 }, root: r } if r == root
    ));
    match f.handle_blocks_by_root_response(vec![block(2), wanted], &peer(1), 10) {
        BlocksAction::Forward(blocks) => {
            assert_eq!(blocks.len(), 1);
            assert_eq!(blocks[0].message.slot, 1);
        }
        _ => panic!("nothing forwarded"),
    }
    assert!(matches!(f.handle_fetch_failure(&root, &peer(1)), FailureAction::Ignored));
    assert_eq!(f.forget_request(10), None);
    f.request_sent(root, 12);
    assert_eq!(f.forget_request(12), Some(root));
    assert_eq!(f.forget_request(12), None);
}

// ============ Handlers ============

fn store() -> Store<InMemoryBackend> {
    Store::from_anchor_state(InMemoryBackend::new(), State::from_genesis(1000, vec![]))
}

fn request(roots: Vec<H256>) -> BlocksByRootRequest {
    let mut bytes = vec![4, 0, 0, 0];
    for root in roots {
        bytes.extend_from_slice(&root.0);
    }
    BlocksByRootRequest::from_ssz_bytes(&bytes).unwrap()
}

#[test]
fn requests_are_answered_from_the_store() {
    let mut store = store();
    let anchor = Checkpoint { root: store.head(), slot: 0 };
    let b = block(1);
    let root = b.message.tree_hash_root();
    store.insert_signed_block(root, b);

    assert_eq!(build_status(&store), Status { finalized: anchor, head: anchor });
    let wanted = request(vec![H256([8; 32]), root, root]);
    let found = find_requested_blocks(&store, &wanted);
    assert_eq!(found.len(), 2);
    assert_eq!(found[0].message.slot, 1);

    match handle_status_request(&store) {
        Response::Success { payload: ResponsePayload::Status(s) } => {
            assert_eq!(s, build_status(&store))
        }
        _ => panic!("no status"),
    }
    match handle_blocks_by_root_request(&store, &wanted) {
        Response::Success { payload: ResponsePayload::BlocksByRoot(blocks) } => {
            assert_eq!(blocks.len(), 2)
        }
        _ => panic!("no blocks"),
    }

    let mut f = fetcher();
    let mut handle = |event| handle_req_resp_message(&store, &mut f, &peer(1), event);
    assert!(matches!(
        handle(ReqRespEvent::Request(Request::Status(status()))),
        ReqRespAction::Respond(Response::Success { payload: ResponsePayload::Status(_) })
    ));
    assert!(matches!(
        handle(ReqRespEvent::Request(Request::BlocksByRoot(wanted))),
        ReqRespAction::Respond(Response::Success { payload: ResponsePayload::BlocksByRoot(_) })
    ));
    let response = Response::success(ResponsePayload::Status(status()));
    assert!(matches!(
        handle(ReqRespEvent::Response { request_id: 1, response }),
        ReqRespAction::Nothing
    ));
    let response = Response::error(ResponseCode::server_error(), error_message(""));
    assert!(matches!(
        handle(ReqRespEvent::Response { request_id: 1, response }),
        ReqRespAction::Nothing
    ));
    assert!(matches!(handle(ReqRespEvent::InboundFailure), ReqRespAction::Nothing));
    assert!(matches!(handle(ReqRespEvent::ResponseSent), ReqRespAction::Nothing));
    assert!(matches!(
        handle(ReqRespEvent::OutboundFailure { request_id: 5 }),
        ReqRespAction::Nothing
    ));
}

#[test]
fn outbound_failures_lead_to_retries() {
    let store = store();
    let root = H256([1; 32]);
    let mut f = fetcher();
    f.connect(peer(1));
    f.request_sent(root, 5);
    match handle_req_resp_message(
        &store,
        &mut f,
        &peer(1),
        ReqRespEvent::OutboundFailure { request_id: 5 },
    ) {
        ReqRespAction::FetchFailed { root: failed, action } => {
            assert_eq!(failed, root);
            assert!(matches!(action, FailureAction::Retry { backoff_ms: 5 }));
        }
        _ => panic!("no failure"),
    }
    f.request_sent(root, 6);
    let response = Response::success(ResponsePayload::BlocksByRoot(vec![]));
    assert!(matches!(
        handle_req_resp_message(
            &store,
            &mut f,
            &peer(1),
            ReqRespEvent::Response { request_id: 6, response },
        ),
        ReqRespAction::Blocks(BlocksAction::Failed {
            root: r,
            action: FailureAction::Retry { backoff_ms: 10 }
        }) if r == root
    ));
}
