//! Requests and responses.

use crate::bindings::collections::{
    message_bytes, message_new, message_slice, requested_roots, roots_new, roots_slice,
    MAX_ERROR_MESSAGE_LENGTH, MAX_REQUEST_BLOCKS,
};
use crate::block::{SignedBlock, SignedBlockView};
use crate::checkpoint::Checkpoint;
use crate::encoding::container::{slice_views, views, width_from};
use crate::encoding::list::{
    decode_list, encode_list, item_views, lemma_list_injective, list_enc, list_fault_of, list_valid,
};
use crate::encoding::{decode_field, fault_of, DecodeError, Ssz, SszContainer};
use crate::primitives::H256;
use crate::text::{around, join_around};
use vstd::prelude::*;
use vstd::slice::{slice_subrange, slice_to_vec};

pub use crate::bindings::collections::{ErrorMessage, RequestedBlockRoots};

verus! {

/// The name of the status protocol.
pub const STATUS_PROTOCOL_V1: &'static str = "/leanconsensus/req/status/1/ssz_snappy";

/// The name of the protocol that asks for blocks by their roots.
pub const BLOCKS_BY_ROOT_PROTOCOL_V1: &'static str =
    "/leanconsensus/req/blocks_by_root/1/ssz_snappy";

/// What a peer asks for.
#[derive(Debug)]
pub enum Request {
    Status(Status),
    BlocksByRoot(BlocksByRootRequest),
}

/// What a peer answers.
#[derive(Debug)]
pub enum Response {
    Success { payload: ResponsePayload },
    Error { code: ResponseCode, message: ErrorMessage },
}

impl Response {
    /// Create a success response with the given payload.
    pub fn success(payload: ResponsePayload) -> (r: Response)
        ensures
            r == (Response::Success { payload }),
    {
        Response::Success { payload }
    }

    /// Create an error response with the given code and message.
    pub fn error(code: ResponseCode, message: ErrorMessage) -> (r: Response)
        ensures
            r == (Response::Error { code, message }),
    {
        Response::Error { code, message }
    }
}

/// Response codes for req/resp protocol messages.
///
/// The first byte of every response indicates success or failure:
/// - On success (code 0), the payload contains the requested data.
/// - On failure (codes 1-3), the payload contains an error message.
///
/// Unknown codes are handled gracefully:
/// - Codes 4-127: Reserved for future use, treat as SERVER_ERROR.
/// - Codes 128-255: Invalid range, treat as INVALID_REQUEST.
#[derive(Debug, Clone, Copy, PartialEq, Eq, Structural)]
pub struct ResponseCode(pub u8);

impl ResponseCode {
    /// Request completed successfully. Payload contains the response data.
    pub fn success() -> (r: ResponseCode)
        ensures
            r == ResponseCode(0),
    {
        ResponseCode(0)
    }

    /// Request was malformed or violated protocol rules.
    pub fn invalid_request() -> (r: ResponseCode)
        ensures
            r == ResponseCode(1),
    {
        ResponseCode(1)
    }

    /// Server encountered an internal error processing the request.
    pub fn server_error() -> (r: ResponseCode)
        ensures
            r == ResponseCode(2),
    {
        ResponseCode(2)
    }

    /// Requested resource (block, blob, etc.) is not available.
    pub fn resource_unavailable() -> (r: ResponseCode)
        ensures
            r == ResponseCode(3),
    {
        ResponseCode(3)
    }

    /// The name and number of a code.
    pub open spec fn name(&self) -> Seq<char> {
        let code = self.0;
        if code == 0 {
            "SUCCESS(0)"@
        } else if code == 1 {
            "INVALID_REQUEST(1)"@
        } else if code == 2 {
            "SERVER_ERROR(2)"@
        } else if code == 3 {
            "RESOURCE_UNAVAILABLE(3)"@
        } else if code < 128 {
            around("SERVER_ERROR("@, code as nat, ")"@)
        } else {
            around("INVALID_REQUEST("@, code as nat, ")"@)
        }
    }

    /// The name and number of the code.
    pub fn text(&self) -> (r: String)
        ensures
            r@ == self.name(),
    {
        let code: u8 = self.0;
        if code == 0 {
            "SUCCESS(0)".to_owned()
        } else if code == 1 {
            "INVALID_REQUEST(1)".to_owned()
        } else if code == 2 {
            "SERVER_ERROR(2)".to_owned()
        } else if code == 3 {
            "RESOURCE_UNAVAILABLE(3)".to_owned()
        } else if code < 128 {
            join_around("SERVER_ERROR(", code as u64, ")")
        } else {
            join_around("INVALID_REQUEST(", code as u64, ")")
        }
    }
}

impl From<u8> for ResponseCode {
    fn from(code: u8) -> (r: ResponseCode) {
        ResponseCode(code)
    }
}

impl vstd::std_specs::convert::FromSpecImpl<u8> for ResponseCode {
    open spec fn obeys_from_spec() -> bool {
        true
    }

    open spec fn from_spec(code: u8) -> ResponseCode {
        ResponseCode(code)
    }
}

impl From<ResponseCode> for u8 {
    fn from(code: ResponseCode) -> (r: u8) {
        code.0
    }
}

impl vstd::std_specs::convert::FromSpecImpl<ResponseCode> for u8 {
    open spec fn obeys_from_spec() -> bool {
        true
    }

    open spec fn from_spec(code: ResponseCode) -> u8 {
        code.0
    }
}

/// The data of a successful response.
#[derive(Debug)]
pub enum ResponsePayload {
    Status(Status),
    BlocksByRoot(Vec<SignedBlock>),
}

/// Where a peer stands.
#[derive(Debug, Clone, Copy, PartialEq, Eq)]
pub struct Status {
    pub finalized: Checkpoint,
    pub head: Checkpoint,
}

impl View for Status {
    type V = Status;

    open spec fn view(&self) -> Status {
        *self
    }
}

impl SszContainer for Status {
    open spec fn fixed() -> Option<usize> {
        Some(80)
    }

    open spec fn layout() -> Seq<Option<usize>> {
        seq![Some(40usize), Some(40usize)]
    }

    open spec fn parts(v: Status) -> Seq<Seq<u8>> {
        seq![
            Checkpoint::enc(v.finalized@),
            Checkpoint::enc(v.head@),
        ]
    }

    open spec fn limits(v: Status) -> bool {
        &&& Checkpoint::valid(v.finalized@)
        &&& Checkpoint::valid(v.head@)
    }

    open spec fn part_fault(i: int, part: Seq<u8>) -> Option<DecodeError> {
        if i == 0 {
            fault_of::<Checkpoint>(part)
        } else if i == 1 {
            fault_of::<Checkpoint>(part)
        } else {
            None
        }
    }

    proof fn layout_fits() {
        reveal_with_fuel(width_from, 3);
    }

    proof fn parts_conform(v: Status) {
        Checkpoint::enc_size(v.finalized@);
        Checkpoint::enc_size(v.head@);
    }

    proof fn parts_injective(a: Status, b: Status) {
        assert(Self::parts(a)[0] == Self::parts(b)[0]);
        Checkpoint::enc_injective(a.finalized@, b.finalized@);
        assert(Self::parts(a)[1] == Self::parts(b)[1]);
        Checkpoint::enc_injective(a.head@, b.head@);
    }

    fn fixed_size() -> (r: Option<usize>) {
        Some(80)
    }

    fn field_layout() -> (r: Vec<Option<usize>>) {
        let r: Vec<Option<usize>> = vec![Some(40usize), Some(40usize)];
        proof {
            assert(r@ =~= Self::layout());
        }
        r
    }

    fn encode_parts(&self) -> (r: Vec<Vec<u8>>) {
        let mut r: Vec<Vec<u8>> = Vec::new();
        r.push(self.finalized.as_ssz_bytes());
        r.push(self.head.as_ssz_bytes());
        proof {
            assert(views(r@) =~= Self::parts(self@));
        }
        r
    }

    fn decode_parts(parts: &Vec<&[u8]>) -> (r: Result<Status, DecodeError>) {
        let ghost ps = slice_views(parts@);
        let finalized = match decode_field::<Checkpoint>(parts[0]) {
            Ok(x) => x,
            Err(e) => {
                proof {
                    assert forall|v: Status| Self::limits(v) implies #[trigger] Self::parts(v)
                        != ps by {
                        assert(Self::parts(v)[0] == Checkpoint::enc(v.finalized@));
                        assert(ps[0] == parts@[0]@);
                    }
                    assert(Self::part_fault(0, ps[0]) == Some(e));
                }
                return Err(e);
            },
        };
        proof {
            assert(ps[0] == parts@[0]@);
            assert(Self::part_fault(0, ps[0]) is None);
        }
        let head = match decode_field::<Checkpoint>(parts[1]) {
            Ok(x) => x,
            Err(e) => {
                proof {
                    assert forall|v: Status| Self::limits(v) implies #[trigger] Self::parts(v)
                        != ps by {
                        assert(Self::parts(v)[1] == Checkpoint::enc(v.head@));
                        assert(ps[1] == parts@[1]@);
                    }
                    assert(Self::part_fault(1, ps[1]) == Some(e));
                }
                return Err(e);
            },
        };
        proof {
            assert(ps[1] == parts@[1]@);
            assert(Self::part_fault(1, ps[1]) is None);
        }
        let r = Status { finalized, head };
        proof {
            assert(Self::parts(r@) =~= ps);
        }
        Ok(r)
    }
}

/// Whether an error message encodes to bytes: it is its bytes.
pub open spec fn message_valid(bytes: Seq<u8>) -> bool {
    bytes.len() <= MAX_ERROR_MESSAGE_LENGTH
}

/// Why bytes are no error message.
pub open spec fn message_fault(bytes: Seq<u8>) -> DecodeError {
    DecodeError::TooManyItems { items: bytes.len() as usize, max: MAX_ERROR_MESSAGE_LENGTH }
}

/// Encodes an error message.
pub fn encode_message(message: &ErrorMessage) -> (r: Vec<u8>)
    ensures
        r@ == message_bytes(*message),
        message_valid(r@),
{
    slice_to_vec(message_slice(message))
}

/// Decodes an error message; fails on more bytes than it can hold.
pub fn decode_message(bytes: &[u8]) -> (r: Result<ErrorMessage, DecodeError>)
    ensures
        r is Ok <==> message_valid(bytes@),
        r matches Ok(message) ==> message_bytes(message) == bytes@,
        r matches Err(e) ==> e == message_fault(bytes@),
{
    match message_new(slice_to_vec(bytes)) {
        Ok(message) => Ok(message),
        Err(_) => Err(
            DecodeError::TooManyItems { items: bytes.len(), max: MAX_ERROR_MESSAGE_LENGTH },
        ),
    }
}

/// Helper to create an [`ErrorMessage`] from the bytes of a string.
///
/// Only the first 256 bytes are kept.
pub fn error_message(msg: &str) -> (r: ErrorMessage)
    ensures
        message_bytes(r) == if vstd::utf8::encode_utf8(msg@).len() > MAX_ERROR_MESSAGE_LENGTH {
            vstd::utf8::encode_utf8(msg@).take(MAX_ERROR_MESSAGE_LENGTH as int)
        } else {
            vstd::utf8::encode_utf8(msg@)
        },
{
    let bytes = msg.as_bytes();
    let truncated = if bytes.len() > MAX_ERROR_MESSAGE_LENGTH {
        slice_subrange(bytes, 0, MAX_ERROR_MESSAGE_LENGTH)
    } else {
        bytes
    };
    message_new(slice_to_vec(truncated)).expect("error message fits in 256 bytes")
}

/// A request for the blocks with some roots.
#[derive(Debug)]
pub struct BlocksByRootRequest {
    pub roots: RequestedBlockRoots,
}

#[verifier::ext_equal]
pub struct BlocksByRootRequestView {
    pub roots: Seq<Seq<u8>>,
}

impl View for BlocksByRootRequest {
    type V = BlocksByRootRequestView;

    open spec fn view(&self) -> BlocksByRootRequestView {
        BlocksByRootRequestView { roots: item_views(requested_roots(self.roots)) }
    }
}

impl BlocksByRootRequest {
    /// The roots, in order.
    pub fn roots_vec(&self) -> (r: Vec<H256>)
        ensures
            r@ == requested_roots(self.roots),
            r@.len() <= MAX_REQUEST_BLOCKS,
    {
        slice_to_vec(roots_slice(&self.roots))
    }
}

impl SszContainer for BlocksByRootRequest {
    open spec fn fixed() -> Option<usize> {
        None
    }

    open spec fn layout() -> Seq<Option<usize>> {
        seq![None]
    }

    open spec fn parts(v: BlocksByRootRequestView) -> Seq<Seq<u8>> {
        seq![
            list_enc::<H256>(v.roots),
        ]
    }

    open spec fn limits(v: BlocksByRootRequestView) -> bool {
        &&& list_valid::<H256>(v.roots, MAX_REQUEST_BLOCKS as nat)
    }

    open spec fn part_fault(i: int, part: Seq<u8>) -> Option<DecodeError> {
        if i == 0 {
            list_fault_of::<H256>(part, MAX_REQUEST_BLOCKS)
        } else {
            None
        }
    }

    proof fn layout_fits() {
        reveal_with_fuel(width_from, 2);
    }

    proof fn parts_conform(v: BlocksByRootRequestView) {
    }

    proof fn parts_injective(a: BlocksByRootRequestView, b: BlocksByRootRequestView) {
        assert(Self::parts(a)[0] == Self::parts(b)[0]);
        lemma_list_injective::<H256>(a.roots, b.roots);
    }

    fn fixed_size() -> (r: Option<usize>) {
        None
    }

    fn field_layout() -> (r: Vec<Option<usize>>) {
        let r: Vec<Option<usize>> = vec![None];
        proof {
            assert(r@ =~= Self::layout());
        }
        r
    }

    fn encode_parts(&self) -> (r: Vec<Vec<u8>>) {
        let mut r: Vec<Vec<u8>> = Vec::new();
        r.push(encode_list(&self.roots_vec()));
        proof {
            assert(views(r@) =~= Self::parts(self@));
        }
        r
    }

    fn decode_parts(parts: &Vec<&[u8]>) -> (r: Result<BlocksByRootRequest, DecodeError>) {
        let ghost ps = slice_views(parts@);
        let roots = match decode_list::<H256>(parts[0], MAX_REQUEST_BLOCKS) {
            Ok(x) => x,
            Err(e) => {
                proof {
                    assert forall|v: BlocksByRootRequestView| Self::limits(v) implies #[trigger] Self::parts(v)
                        != ps by {
                        assert(Self::parts(v)[0] == list_enc::<H256>(v.roots));
                        assert(ps[0] == parts@[0]@);
                    }
                    assert(Self::part_fault(0, ps[0]) == Some(e));
                }
                return Err(e);
            },
        };
        proof {
            assert(ps[0] == parts@[0]@);
            assert(Self::part_fault(0, ps[0]) is None);
        }
        let roots = roots_new(roots).expect("within the limit");
        let r = BlocksByRootRequest { roots };
        proof {
            assert(Self::parts(r@) =~= ps);
        }
        Ok(r)
    }
}

/// What a request stands for.
#[verifier::ext_equal]
pub enum RequestView {
    Status(Status),
    BlocksByRoot(BlocksByRootRequestView),
}

impl View for Request {
    type V = RequestView;

    open spec fn view(&self) -> RequestView {
        match self {
            Request::Status(s) => RequestView::Status(*s),
            Request::BlocksByRoot(r) => RequestView::BlocksByRoot(r@),
        }
    }
}

/// What a response stands for.
#[verifier::ext_equal]
pub enum ResponseView {
    Status(Status),
    BlocksByRoot(Seq<SignedBlockView>),
    Error { code: ResponseCode, message: Seq<u8> },
}

impl View for Response {
    type V = ResponseView;

    open spec fn view(&self) -> ResponseView {
        match self {
            Response::Success { payload: ResponsePayload::Status(s) } => ResponseView::Status(*s),
            Response::Success { payload: ResponsePayload::BlocksByRoot(blocks) } => {
                ResponseView::BlocksByRoot(item_views(blocks@))
            },
            Response::Error { code, message } => ResponseView::Error {
                code: *code,
                message: message_bytes(*message),
            },
        }
    }
}

} // verus!
