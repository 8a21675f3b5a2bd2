//! Gossip messages: compressed encodings of blocks and attestations.

use crate::attestation::{
    SignedAggregatedAttestation, SignedAggregatedAttestationView, SignedAttestation,
    SignedAttestationView,
};
use crate::bindings::snappy::{
    claimed_size, compress, compress_bound, compressed, decompress, decompress_len, decompressed,
    error_text, max_compress_len,
};
use crate::bindings::collections::bits_len;
use crate::block::{MAX_PROOF_SIZE, SignedBlock, SignedBlockView};
use crate::encoding::{decode_inverts_encode, decoded, read_gives_back_written, DecodeError, Ssz};
use crate::primitives::same_bytes;
use crate::sizes::lemma_aggregation;
use crate::text::{around, join_around};
use vstd::prelude::*;
use vstd::slice::slice_subrange;

verus! {

/// The most bytes that a message may decompress to: 10 MiB.
pub const MAX_PAYLOAD_SIZE: usize = 10_485_760;

/// Why a message cannot be decompressed.
#[derive(Debug)]
pub enum DecompressError {
    /// The data is not valid.
    Snap(snap::Error),
    /// The data claims to be larger than allowed.
    TooLarge { size: usize, max: usize },
}

impl From<snap::Error> for DecompressError {
    fn from(e: snap::Error) -> (r: DecompressError) {
        DecompressError::Snap(e)
    }
}

impl vstd::std_specs::convert::FromSpecImpl<snap::Error> for DecompressError {
    open spec fn obeys_from_spec() -> bool {
        true
    }

    open spec fn from_spec(e: snap::Error) -> DecompressError {
        DecompressError::Snap(e)
    }
}

impl DecompressError {
    /// The text of the error. How the compressor words its own errors is left to it.
    pub fn text(&self) -> (r: String)
        ensures
            self matches DecompressError::TooLarge { size, max } ==> r@ == around(
                "uncompressed size "@,
                *size as nat,
                around(" exceeds maximum "@, *max as nat, ""@),
            ),
    {
        match self {
            DecompressError::Snap(e) => error_text(e),
            DecompressError::TooLarge { size, max } => {
                let limit = join_around(" exceeds maximum ", *max as u64, "");
                join_around("uncompressed size ", *size as u64, limit.as_str())
            },
        }
    }
}

/// What a compressed message decompresses to, if it may.
pub open spec fn message_of(data: Seq<u8>) -> Option<Seq<u8>> {
    match claimed_size(data) {
        Some(n) => if n > MAX_PAYLOAD_SIZE {
            None
        } else {
            decompressed(data)
        },
        None => None,
    }
}

/// A vector of zero bytes.
fn zeroed(n: usize) -> (r: Vec<u8>)
    ensures
        r@.len() == n,
{
    let mut out: Vec<u8> = Vec::with_capacity(n);
    let mut i: usize = 0;
    while i < n
        invariant
            0 <= i <= n,
            out@.len() == i,
        decreases n - i,
    {
        out.push(0);
        i = i + 1;
    }
    out
}

/// Whether a result is what decompressing data gives: what the data stands for, unless the
/// data is invalid or claims to stand for too much.
pub open spec fn decompresses(data: Seq<u8>, r: Result<Vec<u8>, DecompressError>) -> bool {
    match claimed_size(data) {
        None => r matches Err(DecompressError::Snap(_)),
        Some(n) => if n > MAX_PAYLOAD_SIZE {
            r matches Err(DecompressError::TooLarge { size, max }) && size == n && max
                == MAX_PAYLOAD_SIZE
        } else {
            match decompressed(data) {
                Some(message) => r matches Ok(bytes) && bytes@ == message,
                None => r matches Err(DecompressError::Snap(_)),
            }
        },
    }
}

/// Decompress data using raw snappy format (for gossip messages).
///
/// Rejects payloads whose claimed uncompressed size exceeds [`MAX_PAYLOAD_SIZE`], before
/// anything is decompressed.
pub fn decompress_message(data: &[u8]) -> (r: Result<Vec<u8>, DecompressError>)
    ensures
        decompresses(data@, r),
        r is Ok <==> message_of(data@) is Some,
        r matches Ok(bytes) ==> message_of(data@) == Some(bytes@) && bytes@.len()
            <= MAX_PAYLOAD_SIZE,
{
    let uncompressed_size: usize = match decompress_len(data) {
        Ok(n) => n,
        Err(e) => {
            return Err(DecompressError::from(e));
        },
    };
    if uncompressed_size > MAX_PAYLOAD_SIZE {
        return Err(
            DecompressError::TooLarge { size: uncompressed_size, max: MAX_PAYLOAD_SIZE },
        );
    }
    let mut uncompressed_data: Vec<u8> = zeroed(uncompressed_size);
    match decompress(data, &mut uncompressed_data) {
        Ok(_) => {
            proof {
                assert(uncompressed_data@.take(uncompressed_size as int) =~= uncompressed_data@);
            }
            Ok(uncompressed_data)
        },
        Err(e) => Err(DecompressError::from(e)),
    }
}

/// Whether data is small enough to be compressed.
pub open spec fn compressible(len: nat) -> bool {
    compress_bound(len) > 0
}

/// Whether bytes are what data compresses to: they claim its size and stand for it.
pub open spec fn compresses(data: Seq<u8>, bytes: Seq<u8>) -> bool {
    &&& bytes == compressed(data)
    &&& claimed_size(bytes) == Some(data.len())
    &&& decompressed(bytes) == Some(data)
}

/// Compress data using raw snappy format (for gossip messages).
pub fn compress_message(data: &[u8]) -> (r: Vec<u8>)
    requires
        compressible(data@.len()),
    ensures
        compresses(data@, r@),
        data@.len() <= MAX_PAYLOAD_SIZE ==> message_of(r@) == Some(data@),
{
    let max_compressed_len: usize = max_compress_len(data.len());
    let mut out: Vec<u8> = zeroed(max_compressed_len);
    let compressed_len: usize = match compress(data, &mut out) {
        Ok(n) => n,
        Err(_) => 0,
    };
    out.truncate(compressed_len);
    out
}

/// Everything within the size limit can be compressed.
pub proof fn messages_can_be_compressed(len: nat)
    requires
        len <= MAX_PAYLOAD_SIZE,
    ensures
        compressible(len),
{
}

/// Decompressing undoes compressing up to the size limit. Compressed data above it is
/// refused with its size, and nothing above it ever comes out.
pub proof fn compression_is_undone_up_to_the_limit(
    data: Seq<u8>,
    bytes: Seq<u8>,
    r: Result<Vec<u8>, DecompressError>,
)
    ensures
        compresses(data, bytes) && decompresses(bytes, r) ==> {
            &&& data.len() <= MAX_PAYLOAD_SIZE ==> (r matches Ok(out) && out@ == data)
            &&& data.len() > MAX_PAYLOAD_SIZE ==> (r matches Err(
                DecompressError::TooLarge { size, max },
            ) && size == data.len() && max == MAX_PAYLOAD_SIZE)
            &&& r matches Ok(out) ==> out@.len() <= MAX_PAYLOAD_SIZE
        },
{
}

/// The names that tell gossip topics apart.
pub struct TopicKinds {
    /// The kind of topics with blocks.
    pub block: Vec<u8>,
    /// The kind of topics with aggregated attestations.
    pub aggregation: Vec<u8>,
    /// How the kinds of topics with attestations of a subnet start.
    pub attestation_prefix: Vec<u8>,
}

/// What a topic carries.
#[derive(Clone, Copy, PartialEq, Eq, Debug, Structural)]
pub enum Topic {
    Block,
    Aggregation,
    Attestation,
}

/// Where the first `/` stands in a text, or its length if there is none.
pub open spec fn slash(text: Seq<u8>) -> int
    decreases text.len(),
{
    if text.len() == 0 || text[0] == 0x2f {
        0
    } else {
        1 + slash(text.drop_first())
    }
}

/// The part of a text after `n` slashes, up to the next one.
pub open spec fn component(text: Seq<u8>, n: nat) -> Option<Seq<u8>>
    decreases n,
{
    let i = slash(text);
    if n == 0 {
        Some(text.take(i))
    } else if i >= text.len() {
        None
    } else {
        component(text.skip(i + 1), (n - 1) as nat)
    }
}

/// Whether a text starts with another.
pub open spec fn starts_with(text: Seq<u8>, prefix: Seq<u8>) -> bool {
    prefix.len() <= text.len() && text.take(prefix.len() as int) == prefix
}

/// What a topic carries: its kind is the part after three slashes.
pub open spec fn topic_of(kinds: TopicKinds, topic: Seq<u8>) -> Option<Topic> {
    match component(topic, 3) {
        None => None,
        Some(kind) => if kind == kinds.block@ {
            Some(Topic::Block)
        } else if kind == kinds.aggregation@ {
            Some(Topic::Aggregation)
        } else if starts_with(kind, kinds.attestation_prefix@) {
            Some(Topic::Attestation)
        } else {
            None
        },
    }
}

proof fn lemma_slash(text: Seq<u8>, i: int)
    requires
        0 <= i <= text.len(),
        forall|k: int| 0 <= k < i ==> text[k] != 0x2f,
    ensures
        slash(text) == i + slash(text.skip(i)),
        0 <= slash(text) <= text.len(),
    decreases text.len(),
{
    if text.len() == 0 {
        assert(text.skip(i) =~= text);
    } else if i == 0 {
        assert(text.skip(0) =~= text);
        if text[0] != 0x2f {
            lemma_slash(text.drop_first(), 0);
        }
    } else {
        lemma_slash(text.drop_first(), i - 1);
        assert(text.drop_first().skip(i - 1) =~= text.skip(i));
    }
}

/// Where the next `/` stands at or after a position.
fn find_slash(text: &[u8], start: usize) -> (r: usize)
    requires
        start <= text@.len(),
    ensures
        start <= r <= text@.len(),
        r - start == slash(text@.skip(start as int)),
{
    let mut i: usize = start;
    while i < text.len() && text[i] != 0x2f
        invariant
            start <= i <= text@.len(),
            forall|k: int| start <= k < i ==> text@[k] != 0x2f,
        decreases text@.len() - i,
    {
        i = i + 1;
    }
    proof {
        let rest = text@.skip(start as int);
        assert forall|k: int| 0 <= k < i - start implies rest[k] != 0x2f by {
            assert(rest[k] == text@[start + k]);
        }
        lemma_slash(rest, i - start);
        assert(rest.skip(i - start) =~= text@.skip(i as int));
    }
    i
}

/// The part of a topic after three slashes.
fn topic_kind(topic: &[u8]) -> (r: Option<&[u8]>)
    ensures
        match r {
            Some(kind) => component(topic@, 3) == Some(kind@),
            None => component(topic@, 3) is None,
        },
{
    let mut start: usize = 0;
    let mut n: usize = 3;
    proof {
        assert(topic@.skip(0) =~= topic@);
    }
    while n > 0
        invariant
            0 <= start <= topic@.len(),
            n <= 3,
            component(topic@, 3) == component(topic@.skip(start as int), n as nat),
        decreases n,
    {
        let end: usize = find_slash(topic, start);
        if end >= topic.len() {
            return None;
        }
        proof {
            assert(topic@.skip(start as int).skip(end - start + 1) =~= topic@.skip(end + 1));
        }
        start = end + 1;
        n = n - 1;
    }
    let end: usize = find_slash(topic, start);
    let kind = slice_subrange(topic, start, end);
    proof {
        assert(topic@.skip(start as int).take(end - start) =~= kind@);
    }
    Some(kind)
}

/// What a topic carries.
pub fn classify_topic(kinds: &TopicKinds, topic: &[u8]) -> (r: Option<Topic>)
    ensures
        r == topic_of(*kinds, topic@),
{
    let kind = match topic_kind(topic) {
        Some(kind) => kind,
        None => {
            return None;
        },
    };
    if same_bytes(kind, kinds.block.as_slice()) {
        Some(Topic::Block)
    } else if same_bytes(kind, kinds.aggregation.as_slice()) {
        Some(Topic::Aggregation)
    } else {
        let n: usize = kinds.attestation_prefix.len();
        if n <= kind.len() {
            let start = slice_subrange(kind, 0, n);
            proof {
                assert(start@ =~= kind@.take(n as int));
            }
            if same_bytes(start, kinds.attestation_prefix.as_slice()) {
                return Some(Topic::Attestation);
            }
        }
        None
    }
}

/// What to do with a gossip message.
pub enum GossipAction {
    /// Hand a block to the chain.
    Block(SignedBlock),
    /// Hand an aggregated attestation to the chain.
    Aggregation(SignedAggregatedAttestation),
    /// Hand an attestation to the chain.
    Attestation(SignedAttestation),
    /// The message cannot be decompressed.
    BadCompression(DecompressError),
    /// The message is not the encoding of what its topic carries.
    BadEncoding(DecodeError),
    /// The topic is unknown.
    Unknown,
}

/// Whether an action is the right one for a message that decompresses to `message`.
pub open spec fn handles(topic: Topic, message: Seq<u8>, action: GossipAction) -> bool {
    match topic {
        Topic::Block => match decoded::<SignedBlock>(message) {
            Some(b) => action matches GossipAction::Block(x) && x@ == b,
            None => action == GossipAction::BadEncoding(SignedBlock::fault(message)),
        },
        Topic::Aggregation => match decoded::<SignedAggregatedAttestation>(message) {
            Some(a) => action matches GossipAction::Aggregation(x) && x@ == a,
            None => action == GossipAction::BadEncoding(
                SignedAggregatedAttestation::fault(message),
            ),
        },
        Topic::Attestation => match decoded::<SignedAttestation>(message) {
            Some(a) => action matches GossipAction::Attestation(x) && x@ == a,
            None => action == GossipAction::BadEncoding(SignedAttestation::fault(message)),
        },
    }
}

/// Decodes a decompressed message of a topic.
pub fn decode_gossip(topic: Topic, message: &[u8]) -> (r: GossipAction)
    ensures
        handles(topic, message@, r),
{
    match topic {
        Topic::Block => match SignedBlock::from_ssz_bytes(message) {
            Ok(block) => {
                proof {
                    decode_inverts_encode::<SignedBlock>(message@, block@);
                }
                GossipAction::Block(block)
            },
            Err(e) => GossipAction::BadEncoding(e),
        },
        Topic::Aggregation => match SignedAggregatedAttestation::from_ssz_bytes(message) {
            Ok(aggregation) => {
                proof {
                    decode_inverts_encode::<SignedAggregatedAttestation>(message@, aggregation@);
                }
                GossipAction::Aggregation(aggregation)
            },
            Err(e) => GossipAction::BadEncoding(e),
        },
        Topic::Attestation => match SignedAttestation::from_ssz_bytes(message) {
            Ok(attestation) => {
                proof {
                    decode_inverts_encode::<SignedAttestation>(message@, attestation@);
                }
                GossipAction::Attestation(attestation)
            },
            Err(e) => GossipAction::BadEncoding(e),
        },
    }
}

/// Reads a gossip message: what it carries is told by its topic.
pub fn handle_gossipsub_message(kinds: &TopicKinds, topic: &[u8], data: &[u8]) -> (r: GossipAction)
    ensures
        match topic_of(*kinds, topic@) {
            None => r is Unknown,
            Some(t) => match message_of(data@) {
                None => r matches GossipAction::BadCompression(e) && decompresses(data@, Err(e)),
                Some(message) => handles(t, message, r),
            },
        },
{
    match classify_topic(kinds, topic) {
        None => GossipAction::Unknown,
        Some(t) => match decompress_message(data) {
            Ok(message) => decode_gossip(t, message.as_slice()),
            Err(e) => GossipAction::BadCompression(e),
        },
    }
}

/// The message that publishes a block.
pub fn publish_block(block: &SignedBlock) -> (r: Vec<u8>)
    requires
        SignedBlock::valid(block@),
        compressible(SignedBlock::enc(block@).len()),
    ensures
        compresses(SignedBlock::enc(block@), r@),
        SignedBlock::enc(block@).len() <= MAX_PAYLOAD_SIZE ==> message_of(r@) == Some(
            SignedBlock::enc(block@),
        ),
{
    let bytes = block.as_ssz_bytes();
    compress_message(bytes.as_slice())
}

/// The message that publishes an attestation.
pub fn publish_attestation(attestation: &SignedAttestation) -> (r: Vec<u8>)
    requires
        SignedAttestation::valid(attestation@),
    ensures
        compresses(SignedAttestation::enc(attestation@), r@),
        message_of(r@) == Some(SignedAttestation::enc(attestation@)),
{
    proof {
        SignedAttestation::enc_size(attestation@);
    }
    let bytes = attestation.as_ssz_bytes();
    compress_message(bytes.as_slice())
}

/// The message that publishes an aggregated attestation.
pub fn publish_aggregated_attestation(attestation: &SignedAggregatedAttestation) -> (r: Vec<u8>)
    requires
        attestation.proof.proof_data@.len() <= MAX_PROOF_SIZE,
    ensures
        compresses(SignedAggregatedAttestation::enc(attestation@), r@),
        message_of(r@) == Some(SignedAggregatedAttestation::enc(attestation@)),
{
    // The bits are within their limit
    let _ = bits_len(&attestation.proof.participants);
    proof {
        lemma_aggregation(attestation@);
    }
    let bytes = attestation.as_ssz_bytes();
    compress_message(bytes.as_slice())
}

/// What is published is what a peer reads: a message that decompresses to the encoding of a
/// value is handled as that value, on the topic of its kind.
pub proof fn published_messages_are_read_back(
    block: SignedBlockView,
    aggregation: SignedAggregatedAttestationView,
    attestation: SignedAttestationView,
    action: GossipAction,
)
    requires
        SignedBlock::valid(block),
        SignedAggregatedAttestation::valid(aggregation),
        SignedAttestation::valid(attestation),
    ensures
        handles(Topic::Block, SignedBlock::enc(block), action) ==> (action matches GossipAction::Block(
            x,
        ) && x@ == block),
        handles(Topic::Aggregation, SignedAggregatedAttestation::enc(aggregation), action) ==> (
        action matches GossipAction::Aggregation(x) && x@ == aggregation),
        handles(Topic::Attestation, SignedAttestation::enc(attestation), action) ==> (
        action matches GossipAction::Attestation(x) && x@ == attestation),
{
    read_gives_back_written::<SignedBlock>(block);
    read_gives_back_written::<SignedAggregatedAttestation>(aggregation);
    read_gives_back_written::<SignedAttestation>(attestation);
}

} // verus!
