//! Encoding of requests and responses.
//!
//! A request is one payload. A response is a sequence of chunks, each a response code and
//! a payload.

use crate::bindings::collections::{requested_roots, roots_slice};
use crate::block::{SignedBlock, SignedBlockView};
use crate::encoding::list::item_views;
use crate::encoding::{
    decode_field, decode_inverts_encode, decoded, fault_of, read_gives_back_written, DecodeError,
    Ssz,
};
use crate::net::messages::{
    decode_message, encode_message, message_fault, message_valid, BLOCKS_BY_ROOT_PROTOCOL_V1,
    BlocksByRootRequest, Request, RequestView, Response, ResponseCode, ResponsePayload,
    ResponseView, STATUS_PROTOCOL_V1, Status,
};
use crate::primitives::same_bytes;
use crate::sizes::{lemma_request, lemma_status};
use vstd::prelude::*;
use vstd::string::StringExecFns;
use vstd::utf8::encode_utf8_decode_utf8;

verus! {

/// Why a message cannot be read.
#[derive(Clone, Copy, PartialEq, Eq, Debug, Structural)]
pub enum CodecError {
    /// There is no protocol of this name.
    UnknownProtocol,
    /// The stream ended before the response did.
    UnexpectedEof,
    /// The payload is not the encoding of what the protocol asks for.
    InvalidData(DecodeError),
    /// The payload is not an error message.
    InvalidMessage(DecodeError),
}

impl CodecError {
    /// The text of the error on a protocol.
    pub open spec fn message(&self, protocol: Seq<char>) -> Seq<char> {
        match self {
            CodecError::UnknownProtocol => "unknown protocol: "@ + protocol,
            CodecError::UnexpectedEof => "unexpected end of file"@,
            CodecError::InvalidData(e) => e.message(),
            CodecError::InvalidMessage(e) => "Invalid error message: "@ + e.message(),
        }
    }

    /// The text of the error on a protocol.
    pub fn text(&self, protocol: &str) -> (r: String)
        ensures
            r@ == self.message(protocol@),
    {
        match self {
            CodecError::UnknownProtocol => {
                let mut s = "unknown protocol: ".to_owned();
                s.append(protocol);
                s
            },
            CodecError::UnexpectedEof => "unexpected end of file".to_owned(),
            CodecError::InvalidData(e) => e.text(),
            CodecError::InvalidMessage(e) => e.text_after("Invalid error message: "),
        }
    }
}

/// The protocols of the codec.
pub enum Protocol {
    Status,
    BlocksByRoot,
}

/// The protocol with a name, if there is one.
pub open spec fn protocol_of(name: Seq<char>) -> Option<Protocol> {
    if name == STATUS_PROTOCOL_V1@ {
        Some(Protocol::Status)
    } else if name == BLOCKS_BY_ROOT_PROTOCOL_V1@ {
        Some(Protocol::BlocksByRoot)
    } else {
        None
    }
}

/// The two protocols have different names.
pub proof fn protocols_differ()
    ensures
        protocol_of(STATUS_PROTOCOL_V1@) == Some(Protocol::Status),
        protocol_of(BLOCKS_BY_ROOT_PROTOCOL_V1@) == Some(Protocol::BlocksByRoot),
{
    reveal_strlit("/leanconsensus/req/status/1/ssz_snappy");
    reveal_strlit("/leanconsensus/req/blocks_by_root/1/ssz_snappy");
    assert(STATUS_PROTOCOL_V1@.len() != BLOCKS_BY_ROOT_PROTOCOL_V1@.len());
}

/// The protocol with a name.
pub fn find_protocol(name: &str) -> (r: Option<Protocol>)
    ensures
        r == protocol_of(name@),
{
    proof {
        encode_utf8_decode_utf8(name@);
        encode_utf8_decode_utf8(STATUS_PROTOCOL_V1@);
        encode_utf8_decode_utf8(BLOCKS_BY_ROOT_PROTOCOL_V1@);
    }
    if same_bytes(name.as_bytes(), STATUS_PROTOCOL_V1.as_bytes()) {
        Some(Protocol::Status)
    } else if same_bytes(name.as_bytes(), BLOCKS_BY_ROOT_PROTOCOL_V1.as_bytes()) {
        Some(Protocol::BlocksByRoot)
    } else {
        None
    }
}

/// What a payload of a protocol asks for.
pub open spec fn request_of(protocol: Protocol, payload: Seq<u8>) -> Option<RequestView> {
    match protocol {
        Protocol::Status => match decoded::<Status>(payload) {
            Some(s) => Some(RequestView::Status(s)),
            None => None,
        },
        Protocol::BlocksByRoot => match decoded::<BlocksByRootRequest>(payload) {
            Some(r) => Some(RequestView::BlocksByRoot(r)),
            None => None,
        },
    }
}

/// Why a payload is no request of a protocol.
pub open spec fn request_fault(protocol: Protocol, payload: Seq<u8>) -> DecodeError {
    match protocol {
        Protocol::Status => Status::fault(payload),
        Protocol::BlocksByRoot => BlocksByRootRequest::fault(payload),
    }
}

/// The protocol of a request.
pub open spec fn request_protocol(request: RequestView) -> Protocol {
    match request {
        RequestView::Status(_) => Protocol::Status,
        RequestView::BlocksByRoot(_) => Protocol::BlocksByRoot,
    }
}

/// The payload of a request.
pub open spec fn request_payload(request: RequestView) -> Seq<u8> {
    match request {
        RequestView::Status(s) => Status::enc(s),
        RequestView::BlocksByRoot(r) => BlocksByRootRequest::enc(r),
    }
}

/// The requests that can be written.
pub open spec fn request_valid(request: RequestView) -> bool {
    match request {
        RequestView::Status(s) => Status::valid(s),
        RequestView::BlocksByRoot(r) => BlocksByRootRequest::valid(r),
    }
}

/// A request that is written is read as the same request.
pub proof fn request_reads_back(request: RequestView)
    requires
        request_valid(request),
    ensures
        request_of(request_protocol(request), request_payload(request)) == Some(request),
{
    match request {
        RequestView::Status(s) => read_gives_back_written::<Status>(s),
        RequestView::BlocksByRoot(r) => read_gives_back_written::<BlocksByRootRequest>(r),
    }
}

/// A chunk of a response: its code and its payload.
pub type Chunk = (u8, Vec<u8>);

/// What chunks stand for.
pub open spec fn chunk_views(chunks: Seq<Chunk>) -> Seq<(u8, Seq<u8>)> {
    chunks.map_values(|c: Chunk| (c.0, c.1@))
}

/// The chunks of a response.
pub open spec fn response_chunks(response: ResponseView) -> Seq<(u8, Seq<u8>)> {
    match response {
        ResponseView::Status(s) => seq![(0u8, Status::enc(s))],
        ResponseView::BlocksByRoot(blocks) => blocks.map_values(
            |b: SignedBlockView| (0u8, SignedBlock::enc(b)),
        ),
        ResponseView::Error { code, message } => seq![(code.0, message)],
    }
}

/// The responses that can be written.
pub open spec fn response_valid(response: ResponseView) -> bool {
    match response {
        ResponseView::Status(s) => Status::valid(s),
        ResponseView::BlocksByRoot(blocks) => forall|i: int|
            0 <= i < blocks.len() ==> SignedBlock::valid(#[trigger] blocks[i]),
        ResponseView::Error { code, message } => message_valid(message),
    }
}

/// The blocks in chunks; chunks with another code than success are skipped. `None` if a
/// successful chunk is not a block.
pub open spec fn chunk_blocks(chunks: Seq<(u8, Seq<u8>)>) -> Option<Seq<SignedBlockView>>
    decreases chunks.len(),
{
    if chunks.len() == 0 {
        Some(Seq::empty())
    } else {
        match chunk_blocks(chunks.drop_last()) {
            None => None,
            Some(blocks) => if chunks.last().0 != 0 {
                Some(blocks)
            } else {
                match decoded::<SignedBlock>(chunks.last().1) {
                    Some(block) => Some(blocks.push(block)),
                    None => None,
                }
            },
        }
    }
}

/// Why chunks are no answer with blocks, if a successful chunk is not a block.
pub open spec fn chunks_fault(chunks: Seq<(u8, Seq<u8>)>) -> Option<DecodeError>
    decreases chunks.len(),
{
    if chunks.len() == 0 {
        None
    } else {
        match chunks_fault(chunks.drop_last()) {
            Some(e) => Some(e),
            None => if chunks.last().0 != 0 {
                None
            } else {
                fault_of::<SignedBlock>(chunks.last().1)
            },
        }
    }
}

/// Why a chunk is no status response.
pub open spec fn status_fault(code: u8, payload: Seq<u8>) -> CodecError {
    if code != 0 {
        CodecError::InvalidMessage(message_fault(payload))
    } else {
        CodecError::InvalidData(Status::fault(payload))
    }
}

/// The answer to a status request that a chunk stands for.
pub open spec fn status_of_chunk(code: u8, payload: Seq<u8>) -> Option<ResponseView> {
    if code != 0 {
        if message_valid(payload) {
            Some(ResponseView::Error { code: ResponseCode(code), message: payload })
        } else {
            None
        }
    } else {
        match decoded::<Status>(payload) {
            Some(s) => Some(ResponseView::Status(s)),
            None => None,
        }
    }
}

/// Blocks that are written in chunks are read back, in order.
pub proof fn blocks_read_back(blocks: Seq<SignedBlockView>)
    requires
        response_valid(ResponseView::BlocksByRoot(blocks)),
    ensures
        chunk_blocks(response_chunks(ResponseView::BlocksByRoot(blocks))) == Some(blocks),
    decreases blocks.len(),
{
    let chunks = response_chunks(ResponseView::BlocksByRoot(blocks));
    if blocks.len() > 0 {
        let rest = blocks.drop_last();
        assert forall|i: int| 0 <= i < rest.len() implies SignedBlock::valid(
            #[trigger] rest[i],
        ) by {
            assert(SignedBlock::valid(blocks[i]));
        }
        blocks_read_back(rest);
        assert(chunks.drop_last() =~= response_chunks(ResponseView::BlocksByRoot(rest)));
        assert(SignedBlock::valid(blocks[blocks.len() - 1]));
        read_gives_back_written::<SignedBlock>(blocks.last());
        assert(rest.push(blocks.last()) =~= blocks);
    } else {
        assert(blocks =~= Seq::<SignedBlockView>::empty());
    }
}

/// A status, and a refusal of one, are read back from their chunk.
pub proof fn status_reads_back(status: Status, code: ResponseCode, message: Seq<u8>)
    requires
        Status::valid(status),
        message_valid(message),
        code.0 != 0,
    ensures
        status_of_chunk(0, Status::enc(status)) == Some(ResponseView::Status(status)),
        status_of_chunk(code.0, message) == Some(ResponseView::Error { code, message }),
{
    read_gives_back_written::<Status>(status);
}

/// Chunks that carry no success leave what the other chunks hold.
pub proof fn failed_chunks_are_skipped(
    before: Seq<(u8, Seq<u8>)>,
    code: u8,
    payload: Seq<u8>,
)
    requires
        code != 0,
    ensures
        chunk_blocks(before.push((code, payload))) == chunk_blocks(before),
{
    assert(before.push((code, payload)).drop_last() =~= before);
}

/// Reads and writes the messages of the request and response protocols.
#[derive(Debug, Clone, Copy, Default)]
pub struct Codec;

impl Codec {
    /// Reads a request from its payload.
    pub fn read_request(&self, protocol: &str, payload: &[u8]) -> (r: Result<Request, CodecError>)
        ensures
            match protocol_of(protocol@) {
                None => r matches Err(CodecError::UnknownProtocol),
                Some(p) => match request_of(p, payload@) {
                    Some(request) => r matches Ok(x) && x@ == request,
                    None => r matches Err(CodecError::InvalidData(e)) && e == request_fault(
                        p,
                        payload@,
                    ),
                },
            },
    {
        match find_protocol(protocol) {
            Some(Protocol::Status) => match decode::<Status>(payload) {
                Ok(status) => Ok(Request::Status(status)),
                Err(e) => Err(CodecError::InvalidData(e)),
            },
            Some(Protocol::BlocksByRoot) => match decode::<BlocksByRootRequest>(payload) {
                Ok(request) => Ok(Request::BlocksByRoot(request)),
                Err(e) => Err(CodecError::InvalidData(e)),
            },
            None => Err(CodecError::UnknownProtocol),
        }
    }

    /// Reads a response from its chunks.
    ///
    /// A status response is one chunk, and what follows it is not read.
    pub fn read_response(&self, protocol: &str, chunks: &Vec<Chunk>) -> (r: Result<
        Response,
        CodecError,
    >)
        ensures
            match protocol_of(protocol@) {
                None => r matches Err(CodecError::UnknownProtocol),
                Some(Protocol::Status) => if chunks@.len() == 0 {
                    r matches Err(CodecError::UnexpectedEof)
                } else {
                    match status_of_chunk(chunks@[0].0, chunks@[0].1@) {
                        Some(response) => r matches Ok(x) && x@ == response,
                        None => r matches Err(e) && e == status_fault(
                            chunks@[0].0,
                            chunks@[0].1@,
                        ),
                    }
                },
                Some(Protocol::BlocksByRoot) => match chunk_blocks(chunk_views(chunks@)) {
                    Some(blocks) => r matches Ok(x) && x@ == ResponseView::BlocksByRoot(blocks),
                    None => r matches Err(CodecError::InvalidData(e)) && Some(e) == chunks_fault(
                        chunk_views(chunks@),
                    ),
                },
            },
    {
        match find_protocol(protocol) {
            Some(Protocol::Status) => {
                if chunks.len() == 0 {
                    return Err(CodecError::UnexpectedEof);
                }
                decode_status_response(chunks[0].0, chunks[0].1.as_slice())
            },
            Some(Protocol::BlocksByRoot) => decode_blocks_by_root_response(chunks),
            None => Err(CodecError::UnknownProtocol),
        }
    }

    /// Writes the payload of a request.
    pub fn write_request(&self, request: &Request) -> (r: Vec<u8>)
        ensures
            request_valid(request@),
            r@ == request_payload(request@),
            request_of(request_protocol(request@), r@) == Some(request@),
    {
        let bytes = match request {
            Request::Status(status) => {
                proof {
                    lemma_status(*status);
                }
                status.as_ssz_bytes()
            },
            Request::BlocksByRoot(request) => {
                // There are no more roots than a request may have
                let _ = roots_slice(&request.roots);
                proof {
                    lemma_request(requested_roots(request.roots));
                }
                request.as_ssz_bytes()
            },
        };
        proof {
            request_reads_back(request@);
        }
        bytes
    }

    /// Writes the chunks of a response.
    ///
    /// Each block is a chunk of its own; without blocks there is no chunk.
    pub fn write_response(&self, response: &Response) -> (r: Vec<Chunk>)
        requires
            response@ matches ResponseView::BlocksByRoot(blocks) ==> forall|i: int|
                0 <= i < blocks.len() ==> SignedBlock::valid(#[trigger] blocks[i]),
        ensures
            response_valid(response@),
            chunk_views(r@) == response_chunks(response@),
    {
        let mut out: Vec<Chunk> = Vec::new();
        let success: u8 = u8::from(ResponseCode::success());
        match response {
            Response::Success { payload: ResponsePayload::Status(status) } => {
                proof {
                    lemma_status(*status);
                }
                out.push((success, status.as_ssz_bytes()));
                proof {
                    assert(chunk_views(out@) =~= response_chunks(response@));
                }
            },
            Response::Success { payload: ResponsePayload::BlocksByRoot(blocks) } => {
                let ghost vs = item_views(blocks@);
                let ghost want = response_chunks(response@);
                let mut i: usize = 0;
                while i < blocks.len()
                    invariant
                        0 <= i <= blocks@.len(),
                        success == 0,
                        vs == item_views(blocks@),
                        forall|k: int| 0 <= k < vs.len() ==> SignedBlock::valid(#[trigger] vs[k]),
                        out@.len() == i,
                        forall|k: int|
                            0 <= k < i ==> (#[trigger] out@[k]).0 == 0 && out@[k].1@
                                == SignedBlock::enc(vs[k]),
                    decreases blocks@.len() - i,
                {
                    proof {
                        assert(vs[i as int] == blocks@[i as int]@);
                    }
                    out.push((success, blocks[i].as_ssz_bytes()));
                    i = i + 1;
                }
                proof {
                    assert(chunk_views(out@) =~= want);
                }
            },
            Response::Error { code, message } => {
                out.push((u8::from(*code), encode_message(message)));
                proof {
                    assert(chunk_views(out@) =~= response_chunks(response@));
                }
            },
        }
        out
    }
}

/// Decodes a value.
fn decode<T: Ssz>(payload: &[u8]) -> (r: Result<T, DecodeError>)
    ensures
        match r {
            Ok(x) => decoded::<T>(payload@) == Some(x@) && fault_of::<T>(payload@) is None,
            Err(e) => decoded::<T>(payload@) is None && e == T::fault(payload@) && fault_of::<T>(
                payload@,
            ) == Some(e),
        },
{
    let r = decode_field::<T>(payload);
    proof {
        reveal(fault_of);
        if r is Ok {
            decode_inverts_encode::<T>(payload@, r->Ok_0@);
        }
    }
    r
}

/// Decodes a status response from its chunk.
///
/// Any error code from the peer is a valid response rather than a failure.
pub fn decode_status_response(code: u8, payload: &[u8]) -> (r: Result<Response, CodecError>)
    ensures
        match status_of_chunk(code, payload@) {
            Some(response) => r matches Ok(x) && x@ == response,
            None => r matches Err(e) && e == status_fault(code, payload@),
        },
{
    let code = ResponseCode::from(code);
    if code != ResponseCode::success() {
        return match decode_message(payload) {
            Ok(message) => Ok(Response::error(code, message)),
            Err(e) => Err(CodecError::InvalidMessage(e)),
        };
    }
    match decode::<Status>(payload) {
        Ok(status) => Ok(Response::success(ResponsePayload::Status(status))),
        Err(e) => Err(CodecError::InvalidData(e)),
    }
}

/// Decodes one chunk of a response with blocks: nothing if its code is not success.
pub fn decode_block_chunk(code: u8, payload: &[u8]) -> (r: Result<Option<SignedBlock>, CodecError>)
    ensures
        code != 0 ==> r matches Ok(None),
        code == 0 ==> match decoded::<SignedBlock>(payload@) {
            Some(block) => r matches Ok(Some(b)) && b@ == block,
            None => r matches Err(CodecError::InvalidData(e)) && e == SignedBlock::fault(payload@),
        },
        code == 0 ==> match r {
            Ok(_) => fault_of::<SignedBlock>(payload@) is None,
            Err(CodecError::InvalidData(e)) => fault_of::<SignedBlock>(payload@) == Some(e),
            Err(_) => false,
        },
{
    if ResponseCode::from(code) != ResponseCode::success() {
        return Ok(None);
    }
    match decode::<SignedBlock>(payload) {
        Ok(block) => Ok(Some(block)),
        Err(e) => Err(CodecError::InvalidData(e)),
    }
}

/// Decodes a response with blocks from its chunks.
///
/// Chunks with error codes are skipped. This allows partial success when some requested
/// blocks are unavailable.
pub fn decode_blocks_by_root_response(chunks: &Vec<Chunk>) -> (r: Result<Response, CodecError>)
    ensures
        match chunk_blocks(chunk_views(chunks@)) {
            Some(blocks) => r matches Ok(x) && x@ == ResponseView::BlocksByRoot(blocks),
            None => r matches Err(CodecError::InvalidData(e)) && Some(e) == chunks_fault(
                chunk_views(chunks@),
            ),
        },
{
    let ghost cs = chunk_views(chunks@);
    let mut blocks: Vec<SignedBlock> = Vec::new();
    let mut i: usize = 0;
    proof {
        assert(cs.take(0) =~= Seq::<(u8, Seq<u8>)>::empty());
        assert(item_views(blocks@) =~= Seq::<SignedBlockView>::empty());
    }
    while i < chunks.len()
        invariant
            0 <= i <= chunks@.len(),
            cs == chunk_views(chunks@),
            chunk_blocks(cs.take(i as int)) == Some(item_views(blocks@)),
            chunks_fault(cs.take(i as int)) is None,
        decreases chunks@.len() - i,
    {
        proof {
            assert(cs.take(i + 1).drop_last() =~= cs.take(i as int));
            assert(cs.take(i + 1).last() == (chunks@[i as int].0, chunks@[i as int].1@));
        }
        match decode_block_chunk(chunks[i].0, chunks[i].1.as_slice()) {
            Ok(Some(block)) => {
                let ghost had = item_views(blocks@);
                blocks.push(block);
                proof {
                    assert(item_views(blocks@) =~= had.push(block@));
                }
            },
            Ok(None) => {},
            Err(e) => {
                proof {
                    assert(chunk_blocks(cs.take(i + 1)) is None);
                    assert(chunks_fault(cs.take(i + 1)) == fault_of::<SignedBlock>(
                        chunks@[i as int].1@,
                    ));
                    lemma_stays_invalid(cs, i + 1);
                }
                return Err(e);
            },
        }
        i = i + 1;
    }
    proof {
        assert(cs.take(i as int) =~= cs);
    }
    Ok(Response::success(ResponsePayload::BlocksByRoot(blocks)))
}

/// What follows an invalid chunk does not matter.
proof fn lemma_stays_invalid(chunks: Seq<(u8, Seq<u8>)>, i: int)
    requires
        0 <= i <= chunks.len(),
        chunk_blocks(chunks.take(i)) is None,
        chunks_fault(chunks.take(i)) is Some,
    ensures
        chunk_blocks(chunks) is None,
        chunks_fault(chunks) == chunks_fault(chunks.take(i)),
    decreases chunks.len() - i,
{
    if i < chunks.len() {
        assert(chunks.take(i + 1).drop_last() =~= chunks.take(i));
        lemma_stays_invalid(chunks, i + 1);
    } else {
        assert(chunks.take(i) =~= chunks);
    }
}

} // verus!
