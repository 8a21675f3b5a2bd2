//! Raw snappy compression by the `snap` crate.

use vstd::prelude::*;

verus! {

/// `snap::Error`: why compressing or decompressing failed.
#[verifier::external_type_specification]
#[verifier::external_body]
pub struct ExSnapError(snap::Error);

/// The size that the header of compressed data claims, if the header is valid.
pub uninterp spec fn claimed_size(input: Seq<u8>) -> Option<nat>;

/// What compressed data decompresses to, if it is valid.
pub uninterp spec fn decompressed(input: Seq<u8>) -> Option<Seq<u8>>;

/// What data compresses to.
pub uninterp spec fn compressed(input: Seq<u8>) -> Seq<u8>;

/// The most bytes that data of `n` bytes can compress to, or zero if there are too many.
pub open spec fn compress_bound(n: nat) -> nat {
    if n > 0xffff_ffff || 32 + n + n / 6 > 0xffff_ffff {
        0
    } else {
        32 + n + n / 6
    }
}

/// `snap::raw::decompress_len`: the size that the header claims. It depends on the
/// input alone. Which headers are valid stays unsaid.
#[verifier::external_body]
pub(crate) fn decompress_len(input: &[u8]) -> (r: Result<usize, snap::Error>)
    ensures
        match r {
            Ok(n) => claimed_size(input@) == Some(n as nat),
            Err(_) => claimed_size(input@) is None,
        },
{
    snap::raw::decompress_len(input)
}

/// `snap::raw::Decoder::decompress`: writes what the input decompresses to, which has
/// the size that the header claims, to the front of the buffer. It fails on invalid
/// input and on a buffer that is smaller than that size. Which input is valid, and what
/// it decompresses to, stays unsaid.
#[verifier::external_body]
pub(crate) fn decompress(input: &[u8], output: &mut Vec<u8>) -> (r: Result<usize, snap::Error>)
    ensures
        final(output)@.len() == old(output)@.len(),
        match r {
            Ok(n) => n <= final(output)@.len() && claimed_size(input@) == Some(n as nat)
                && decompressed(input@) == Some(final(output)@.take(n as int)),
            Err(_) => decompressed(input@) is None || (claimed_size(input@) matches Some(n)
                && n > old(output)@.len()),
        },
{
    snap::raw::Decoder::new().decompress(input, output)
}

/// `snap::raw::max_compress_len`: the most bytes that data of a size can compress to.
#[verifier::external_body]
pub(crate) fn max_compress_len(n: usize) -> (r: usize)
    ensures
        r == compress_bound(n as nat),
{
    snap::raw::max_compress_len(n)
}

/// `snap::raw::Encoder::compress`: writes what the input compresses to to the front of
/// the buffer. It fails on too much data and on a buffer below the bound. Decompressing
/// gives the input back. What else the compressed data is stays unsaid.
#[verifier::external_body]
pub(crate) fn compress(input: &[u8], output: &mut Vec<u8>) -> (r: Result<usize, snap::Error>)
    ensures
        final(output)@.len() == old(output)@.len(),
        r is Ok <==> 0 < compress_bound(input@.len()) <= old(output)@.len(),
        r matches Ok(n) ==> n <= final(output)@.len() && final(output)@.take(n as int) == compressed(
            input@,
        ) && decompressed(final(output)@.take(n as int)) == Some(input@) && claimed_size(
            final(output)@.take(n as int),
        ) == Some(input@.len()),
{
    snap::raw::Encoder::new().compress(input, output)
}

/// `snap::Error`'s own text. How it words its errors stays unsaid.
#[verifier::external_body]
pub(crate) fn error_text(e: &snap::Error) -> (r: String) {
    format!("{}", e)
}

} // verus!
