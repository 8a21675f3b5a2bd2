//! Public keys and other byte strings written in hexadecimal.

use crate::bindings::hexadecimal::{
    decode, encode, hex_bytes, hex_char, hex_digit, hex_text, is_hex, is_hex_digit,
};
use crate::state::{array52, ValidatorPubkeyBytes};
use vstd::prelude::*;
use vstd::slice::slice_subrange;

verus! {

/// Why a text is not a public key.
#[derive(Clone, Copy, PartialEq, Eq, Debug, Structural)]
pub enum PubkeyError {
    /// The text is not hexadecimal.
    NotHex,
    /// The text stands for this many bytes instead of 52.
    WrongLength(usize),
}

/// Whether a text starts with `0x`.
pub open spec fn has_prefix(text: Seq<u8>) -> bool {
    text.len() >= 2 && text[0] == 0x30 && text[1] == 0x78
}

/// The text without one leading `0x`.
pub open spec fn without_prefix(text: Seq<u8>) -> Seq<u8> {
    if has_prefix(text) {
        text.skip(2)
    } else {
        text
    }
}

/// The text without any leading `0x`.
pub open spec fn without_prefixes(text: Seq<u8>) -> Seq<u8>
    decreases text.len(),
{
    if has_prefix(text) {
        without_prefixes(text.skip(2))
    } else {
        text
    }
}

/// The public key that a hexadecimal text stands for.
pub open spec fn parsed_pubkey(text: Seq<u8>) -> Result<Seq<u8>, PubkeyError> {
    if !is_hex(text) {
        Err(PubkeyError::NotHex)
    } else if hex_bytes(text).len() != 52 {
        Err(PubkeyError::WrongLength(hex_bytes(text).len() as usize))
    } else {
        Ok(hex_bytes(text))
    }
}

/// Whether a parse result is the expected one.
pub open spec fn is_parsed(
    r: Result<ValidatorPubkeyBytes, PubkeyError>,
    expected: Result<Seq<u8>, PubkeyError>,
) -> bool {
    match (r, expected) {
        (Ok(key), Ok(bytes)) => key@ == bytes,
        (Err(a), Err(b)) => a == b,
        _ => false,
    }
}

/// Removes one leading `0x`.
pub fn strip_prefix(text: &[u8]) -> (r: &[u8])
    ensures
        r@ == without_prefix(text@),
{
    if text.len() >= 2 && text[0] == 0x30 && text[1] == 0x78 {
        let rest = slice_subrange(text, 2, text.len());
        proof {
            assert(rest@ =~= text@.skip(2));
        }
        rest
    } else {
        text
    }
}

/// Parses a public key from hexadecimal text without a prefix.
pub fn parse_pubkey(text: &[u8]) -> (r: Result<ValidatorPubkeyBytes, PubkeyError>)
    ensures
        is_parsed(r, parsed_pubkey(text@)),
{
    match decode(text) {
        Ok(bytes) => {
            if bytes.len() != 52 {
                Err(PubkeyError::WrongLength(bytes.len()))
            } else {
                Ok(array52(bytes.as_slice()))
            }
        },
        Err(_) => Err(PubkeyError::NotHex),
    }
}

/// Parses a public key from hexadecimal text that may start with `0x`.
pub fn parse_prefixed_pubkey(text: &[u8]) -> (r: Result<ValidatorPubkeyBytes, PubkeyError>)
    ensures
        is_parsed(r, parsed_pubkey(without_prefix(text@))),
{
    parse_pubkey(strip_prefix(text))
}

/// Writes a public key in lower-case hexadecimal.
pub fn pubkey_to_hex(pubkey: &ValidatorPubkeyBytes) -> (r: String)
    ensures
        r@ == hex_text(pubkey@),
{
    encode(pubkey.as_slice())
}

/// Decodes hexadecimal text after any number of leading `0x`; `None` if it is not hexadecimal.
pub fn decode_hex_text(text: &[u8]) -> (r: Option<Vec<u8>>)
    ensures
        match r {
            Some(bytes) => is_hex(without_prefixes(text@)) && bytes@ == hex_bytes(
                without_prefixes(text@),
            ),
            None => !is_hex(without_prefixes(text@)),
        },
{
    let mut start: usize = 0;
    proof {
        assert(text@.skip(0) =~= text@);
    }
    while text.len() - start >= 2 && text[start] == 0x30 && text[start + 1] == 0x78
        invariant
            0 <= start <= text@.len(),
            without_prefixes(text@) == without_prefixes(text@.skip(start as int)),
        decreases text@.len() - start,
    {
        proof {
            let s = text@.skip(start as int);
            assert(has_prefix(s));
            assert(s.skip(2) =~= text@.skip(start + 2));
        }
        start = start + 2;
    }
    let rest = slice_subrange(text, start, text.len());
    proof {
        assert(rest@ =~= text@.skip(start as int));
        assert(!has_prefix(rest@));
    }
    match decode(rest) {
        Ok(bytes) => Some(bytes),
        Err(_) => None,
    }
}

/// The characters of a hexadecimal text as bytes.
pub open spec fn ascii(text: Seq<char>) -> Seq<u8> {
    text.map_values(|c: char| c as u8)
}

/// A digit that is written is read as the same value.
proof fn lemma_hex_char(v: int)
    requires
        0 <= v < 16,
    ensures
        is_hex_digit(hex_char(v) as u8),
        hex_digit(hex_char(v) as u8) == v,
{
    if v < 10 {
        assert(hex_char(v) as int == 0x30 + v);
        assert(hex_char(v) as u8 as int == 0x30 + v);
    } else {
        assert(hex_char(v) as int == 0x57 + v);
        assert(hex_char(v) as u8 as int == 0x57 + v);
    }
}

/// A public key that is written and parsed again is the same key, with and without `0x`
/// in front of it.
pub proof fn written_pubkey_parses_back(key: ValidatorPubkeyBytes)
    ensures
        parsed_pubkey(ascii(hex_text(key@))) == Ok::<Seq<u8>, PubkeyError>(key@),
        parsed_pubkey(without_prefix(seq![0x30u8, 0x78u8] + ascii(hex_text(key@)))) == Ok::<
            Seq<u8>,
            PubkeyError,
        >(key@),
{
    let t = ascii(hex_text(key@));
    assert forall|i: int| 0 <= i < t.len() implies is_hex_digit(#[trigger] t[i]) by {
        lemma_hex_char(key@[i / 2] as int / 16);
        lemma_hex_char(key@[i / 2] as int % 16);
    }
    assert forall|i: int| 0 <= i < 52 implies hex_bytes(t)[i] == key@[i] by {
        let b = key@[i] as int;
        lemma_hex_char(b / 16);
        lemma_hex_char(b % 16);
        assert((2 * i) / 2 == i && (2 * i + 1) / 2 == i);
        assert(hex_digit(t[2 * i]) == b / 16);
        assert(hex_digit(t[2 * i + 1]) == b % 16);
    }
    assert(hex_bytes(t) =~= key@);
    assert((seq![0x30u8, 0x78u8] + t).skip(2) =~= t);
}

} // verus!
