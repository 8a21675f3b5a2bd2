//! Lists of bits, eight to a byte, the lowest bit first.

use crate::encoding::DecodeError;
use vstd::prelude::*;

verus! {

/// The most bits that any bit list here may hold.
pub const MAX_BITS: usize = 0x4000_0000;

/// What the `j`-th bit of a byte counts.
pub open spec fn weight(j: int) -> int {
    if j == 0 {
        1
    } else if j == 1 {
        2
    } else if j == 2 {
        4
    } else if j == 3 {
        8
    } else if j == 4 {
        16
    } else if j == 5 {
        32
    } else if j == 6 {
        64
    } else {
        128
    }
}

/// The `j`-th bit of a byte, the lowest first.
pub open spec fn byte_bit(b: u8, j: int) -> bool {
    (b as int / weight(j)) % 2 == 1
}

/// What bit `j` adds to its byte.
pub open spec fn bit_value(f: spec_fn(int) -> bool, j: int) -> int {
    if f(j) {
        weight(j)
    } else {
        0
    }
}

/// The byte whose `j`-th bit is `f(j)`.
pub open spec fn byte_of(f: spec_fn(int) -> bool) -> u8 {
    (bit_value(f, 0) + bit_value(f, 1) + bit_value(f, 2) + bit_value(f, 3) + bit_value(f, 4)
        + bit_value(f, 5) + bit_value(f, 6) + bit_value(f, 7)) as u8
}

/// The bits of the `k`-th byte of a bit string; those past its end are clear.
pub open spec fn bits_at(s: Seq<bool>, k: int) -> spec_fn(int) -> bool {
    |j: int| 8 * k + j < s.len() && s[8 * k + j]
}

/// The first `n` bytes of a bit string.
pub open spec fn bit_bytes(s: Seq<bool>, n: nat) -> Seq<u8> {
    Seq::new(n, |k: int| byte_of(bits_at(s, k)))
}

/// The encoding of a bit list: its bits and a set bit that marks the end.
pub open spec fn bits_enc(s: Seq<bool>) -> Seq<u8> {
    bit_bytes(s.push(true), s.len() / 8 + 1)
}

/// Halving a byte again and again.
proof fn lemma_halves(x: int)
    requires
        0 <= x < 256,
    ensures
        x / 4 == (x / 2) / 2,
        x / 8 == (x / 4) / 2,
        x / 16 == (x / 8) / 2,
        x / 32 == (x / 16) / 2,
        x / 64 == (x / 32) / 2,
        x / 128 == (x / 64) / 2,
        x / 128 == 0 || x / 128 == 1,
{
    assert(x / 4 == (x / 2) / 2);
    assert(x / 8 == (x / 4) / 2);
    assert(x / 16 == (x / 8) / 2);
    assert(x / 32 == (x / 16) / 2);
    assert(x / 64 == (x / 32) / 2);
    assert(x / 128 == (x / 64) / 2);
}

pub proof fn lemma_byte_of(f: spec_fn(int) -> bool, j: int)
    requires
        0 <= j < 8,
    ensures
        byte_bit(byte_of(f), j) == f(j),
{
    let d = |i: int|
        if f(i) {
            1int
        } else {
            0int
        };
    let r7 = d(7);
    let r6 = d(6) + 2 * r7;
    let r5 = d(5) + 2 * r6;
    let r4 = d(4) + 2 * r5;
    let r3 = d(3) + 2 * r4;
    let r2 = d(2) + 2 * r3;
    let r1 = d(1) + 2 * r2;
    let r0 = d(0) + 2 * r1;
    let b = byte_of(f) as int;
    assert(0 <= r0 < 256);
    assert(b == r0);
    lemma_halves(b);
    assert(r0 / 2 == r1 && r0 % 2 == d(0));
    assert(r1 / 2 == r2 && r1 % 2 == d(1));
    assert(r2 / 2 == r3 && r2 % 2 == d(2));
    assert(r3 / 2 == r4 && r3 % 2 == d(3));
    assert(r4 / 2 == r5 && r4 % 2 == d(4));
    assert(r5 / 2 == r6 && r5 % 2 == d(5));
    assert(r6 / 2 == r7 && r6 % 2 == d(6));
}

proof fn lemma_from_half(x: int, y: int)
    requires
        x / 2 == y / 2,
        x % 2 == y % 2,
    ensures
        x == y,
{
}

/// Bytes with the same bits are the same byte.
proof fn lemma_same_byte(a: u8, b: u8)
    requires
        forall|j: int| 0 <= j < 8 ==> #[trigger] byte_bit(a, j) == byte_bit(b, j),
    ensures
        a == b,
{
    let x = a as int;
    let y = b as int;
    lemma_halves(x);
    lemma_halves(y);
    assert(byte_bit(a, 7) == byte_bit(b, 7));
    assert(x / 128 == y / 128);
    assert(byte_bit(a, 6) == byte_bit(b, 6));
    lemma_from_half(x / 64, y / 64);
    assert(byte_bit(a, 5) == byte_bit(b, 5));
    lemma_from_half(x / 32, y / 32);
    assert(byte_bit(a, 4) == byte_bit(b, 4));
    lemma_from_half(x / 16, y / 16);
    assert(byte_bit(a, 3) == byte_bit(b, 3));
    lemma_from_half(x / 8, y / 8);
    assert(byte_bit(a, 2) == byte_bit(b, 2));
    lemma_from_half(x / 4, y / 4);
    assert(byte_bit(a, 1) == byte_bit(b, 1));
    lemma_from_half(x / 2, y / 2);
    assert(byte_bit(a, 0) == byte_bit(b, 0));
    lemma_from_half(x, y);
}

/// A byte is decided by its bits.
pub proof fn lemma_byte_from_bits(b: u8, f: spec_fn(int) -> bool)
    requires
        forall|j: int| 0 <= j < 8 ==> #[trigger] byte_bit(b, j) == f(j),
    ensures
        byte_of(f) == b,
{
    assert forall|j: int| 0 <= j < 8 implies #[trigger] byte_bit(byte_of(f), j) == byte_bit(b, j) by {
        lemma_byte_of(f, j);
    }
    lemma_same_byte(byte_of(f), b);
}

/// The `i`-th bit of the encoding of a bit list.
pub proof fn lemma_enc_bit(s: Seq<bool>, i: int)
    requires
        0 <= i < 8 * (s.len() / 8 + 1),
    ensures
        byte_bit(bits_enc(s)[i / 8], i % 8) == (i < s.len() && s[i] || i == s.len()),
{
    let t = s.push(true);
    lemma_byte_of(bits_at(t, i / 8), i % 8);
    assert(8 * (i / 8) + i % 8 == i);
}

/// The length of a bit list is where the highest set bit of its encoding stands.
pub proof fn lemma_enc_len(s: Seq<bool>)
    ensures
        bits_enc(s).len() == s.len() / 8 + 1,
        byte_bit(bits_enc(s).last(), s.len() as int % 8),
        forall|j: int| s.len() as int % 8 < j < 8 ==> !#[trigger] byte_bit(bits_enc(s).last(), j),
{
    let n = s.len() as int;
    lemma_enc_bit(s, n);
    assert forall|j: int| n % 8 < j < 8 implies !#[trigger] byte_bit(bits_enc(s).last(), j) by {
        let i = 8 * (n / 8) + j;
        assert(i / 8 == n / 8 && i % 8 == j);
        lemma_enc_bit(s, i);
    }
}

/// Different bit lists have different encodings.
pub proof fn lemma_bits_injective(a: Seq<bool>, b: Seq<bool>)
    requires
        bits_enc(a) == bits_enc(b),
    ensures
        a == b,
{
    lemma_enc_len(a);
    lemma_enc_len(b);
    let ja = a.len() as int % 8;
    let jb = b.len() as int % 8;
    assert(!(ja < jb && jb < 8)) by {
        if ja < jb {
            assert(!byte_bit(bits_enc(a).last(), jb));
        }
    }
    assert(!(jb < ja && ja < 8)) by {
        if jb < ja {
            assert(!byte_bit(bits_enc(b).last(), ja));
        }
    }
    assert(a.len() == b.len());
    assert forall|i: int| 0 <= i < a.len() implies a[i] == b[i] by {
        lemma_enc_bit(a, i);
        lemma_enc_bit(b, i);
    }
    assert(a =~= b);
}

/// What the `j`-th bit of a byte counts.
fn bit_weight(j: usize) -> (r: u8)
    requires
        j < 8,
    ensures
        r == weight(j as int),
{
    if j == 0 {
        1
    } else if j == 1 {
        2
    } else if j == 2 {
        4
    } else if j == 3 {
        8
    } else if j == 4 {
        16
    } else if j == 5 {
        32
    } else if j == 6 {
        64
    } else {
        128
    }
}

fn read_bit(b: u8, j: usize) -> (r: bool)
    requires
        j < 8,
    ensures
        r == byte_bit(b, j as int),
{
    (b / bit_weight(j)) % 2 == 1
}

/// The bit at `i` of a bit string that may be followed by one set bit.
fn stream_bit(bits: &Vec<bool>, marked: bool, i: usize) -> (r: bool)
    ensures
        r == ({
            let s = if marked {
                bits@.push(true)
            } else {
                bits@
            };
            i < s.len() && s[i as int]
        }),
{
    if i < bits.len() {
        bits[i]
    } else {
        marked && i == bits.len()
    }
}

/// The first `n` bytes of a bit string that may be followed by one set bit.
fn pack_bits(bits: &Vec<bool>, marked: bool, n: usize) -> (r: Vec<u8>)
    requires
        n <= MAX_BITS / 8 + 1,
    ensures
        r@ == bit_bytes(
            if marked {
                bits@.push(true)
            } else {
                bits@
            },
            n as nat,
        ),
{
    let ghost s = if marked {
        bits@.push(true)
    } else {
        bits@
    };
    let mut out: Vec<u8> = Vec::new();
    let mut k: usize = 0;
    while k < n
        invariant
            0 <= k <= n <= MAX_BITS / 8 + 1,
            s == (if marked {
                bits@.push(true)
            } else {
                bits@
            }),
            out@ == bit_bytes(s, k as nat),
        decreases n - k,
    {
        let mut byte: u8 = 0;
        let mut j: usize = 0;
        let ghost f = bits_at(s, k as int);
        while j < 8
            invariant
                0 <= j <= 8,
                k <= MAX_BITS / 8 + 1,
                f == bits_at(s, k as int),
                s == (if marked {
                    bits@.push(true)
                } else {
                    bits@
                }),
                byte == (if j > 0 {
                    bit_value(f, 0)
                } else {
                    0
                }) + (if j > 1 {
                    bit_value(f, 1)
                } else {
                    0
                }) + (if j > 2 {
                    bit_value(f, 2)
                } else {
                    0
                }) + (if j > 3 {
                    bit_value(f, 3)
                } else {
                    0
                }) + (if j > 4 {
                    bit_value(f, 4)
                } else {
                    0
                }) + (if j > 5 {
                    bit_value(f, 5)
                } else {
                    0
                }) + (if j > 6 {
                    bit_value(f, 6)
                } else {
                    0
                }) + (if j > 7 {
                    bit_value(f, 7)
                } else {
                    0
                }),
            decreases 8 - j,
        {
            proof {
                assert(f(j as int) == (8 * k + j < s.len() && s[8 * k + j]));
            }
            if stream_bit(bits, marked, 8 * k + j) {
                byte = byte + bit_weight(j);
            }
            j = j + 1;
        }
        out.push(byte);
        k = k + 1;
        proof {
            assert(out@ =~= bit_bytes(s, k as nat));
        }
    }
    out
}

/// Encodes a bit list.
pub fn encode_bits(bits: &Vec<bool>) -> (r: Vec<u8>)
    requires
        bits@.len() <= MAX_BITS,
    ensures
        r@ == bits_enc(bits@),
{
    pack_bits(bits, true, bits.len() / 8 + 1)
}

/// The bytes of a bit list without the mark of its end.
pub fn raw_bits(bits: &Vec<bool>) -> (r: Vec<u8>)
    requires
        bits@.len() <= MAX_BITS,
    ensures
        r@ == bit_bytes(bits@, (bits@.len() + 7) / 8),
{
    pack_bits(bits, false, (bits.len() + 7) / 8)
}

/// The bits that bytes encode, if they are at most `limit`.
fn read_bits(bytes: &[u8], limit: usize) -> (r: Option<Vec<bool>>)
    requires
        limit <= MAX_BITS,
    ensures
        match r {
            Some(bits) => bits@.len() <= limit && bits_enc(bits@) == bytes@,
            None => forall|s: Seq<bool>|
                s.len() <= limit ==> #[trigger] bits_enc(s) != bytes@,
        },
{
    proof {
        assert forall|s: Seq<bool>| #[trigger] bits_enc(s) == bytes@ implies bytes@.len()
            == s.len() / 8 + 1 && byte_bit(bytes@.last(), s.len() as int % 8) by {
            lemma_enc_len(s);
        }
    }
    if bytes.len() == 0 || bytes.len() > limit / 8 + 1 {
        return None;
    }
    let last: u8 = bytes[bytes.len() - 1];
    let mut top: usize = 8;
    while top > 0 && !read_bit(last, top - 1)
        invariant
            0 <= top <= 8,
            forall|j: int| top <= j < 8 ==> !#[trigger] byte_bit(last, j),
        decreases top,
    {
        top = top - 1;
    }
    if top == 0 {
        return None;
    }
    let len: usize = 8 * (bytes.len() - 1) + (top - 1);
    proof {
        assert forall|s: Seq<bool>| #[trigger] bits_enc(s) == bytes@ implies s.len() == len by {
            lemma_enc_len(s);
            let j = s.len() as int % 8;
            assert(byte_bit(last, j));
            if j < top - 1 {
                assert(byte_bit(last, top - 1));
                assert(!byte_bit(bits_enc(s).last(), top - 1));
            }
        }
    }
    if len > limit {
        return None;
    }
    let mut bits: Vec<bool> = Vec::new();
    let mut i: usize = 0;
    while i < len
        invariant
            0 <= i <= len,
            len < 8 * bytes@.len(),
            bits@.len() == i,
            forall|k: int| 0 <= k < i ==> bits@[k] == #[trigger] byte_bit(bytes@[k / 8], k % 8),
        decreases len - i,
    {
        let bit: bool = read_bit(bytes[i / 8], i % 8);
        bits.push(bit);
        i = i + 1;
    }
    proof {
        let s = bits@.push(true);
        assert forall|k: int| 0 <= k < bytes@.len() implies byte_of(bits_at(s, k)) == bytes@[k] by {
            let f = bits_at(s, k);
            assert forall|j: int| 0 <= j < 8 implies #[trigger] byte_bit(bytes@[k], j) == f(j) by {
                let p = 8 * k + j;
                assert(p / 8 == k && p % 8 == j);
                if p < len {
                    assert(bits@[p] == byte_bit(bytes@[p / 8], p % 8));
                } else {
                    assert(k == bytes@.len() - 1);
                }
            }
            lemma_byte_from_bits(bytes@[k], f);
        }
        assert(bits_enc(bits@) =~= bytes@);
    }
    Some(bits)
}

/// The number of bytes up to the last one that is not zero.
pub open spec fn used_bytes(bytes: Seq<u8>) -> nat
    decreases bytes.len(),
{
    if bytes.len() == 0 {
        0
    } else if bytes.last() != 0 {
        bytes.len()
    } else {
        used_bytes(bytes.drop_last())
    }
}

/// Why bytes are no encoding of at most `limit` bits. The highest set bit tells the length,
/// and it must stand in the last byte.
pub open spec fn bits_fault(bytes: Seq<u8>, limit: usize) -> DecodeError {
    if bytes.len() == 0 {
        DecodeError::NoBits
    } else if used_bytes(bytes) == 0 {
        DecodeError::BitLengthMissing
    } else if used_bytes(bytes) != bytes.len() {
        DecodeError::ExcessBitBytes {
            given: bytes.len() as usize,
            expected: used_bytes(bytes) as usize,
        }
    } else {
        DecodeError::TooManyBits { max: limit }
    }
}

/// Why bytes are no encoding of at most `limit` bits, if they are none.
#[verifier::opaque]
pub open spec fn bits_fault_of(bytes: Seq<u8>, limit: usize) -> Option<DecodeError> {
    if exists|s: Seq<bool>| s.len() <= limit && #[trigger] bits_enc(s) == bytes {
        None
    } else {
        Some(bits_fault(bytes, limit))
    }
}

fn find_bits_fault(bytes: &[u8], limit: usize) -> (r: DecodeError)
    ensures
        r == bits_fault(bytes@, limit),
{
    if bytes.len() == 0 {
        return DecodeError::NoBits;
    }
    let mut used: usize = bytes.len();
    proof {
        assert(bytes@.take(used as int) =~= bytes@);
    }
    while used > 0 && bytes[used - 1] == 0
        invariant
            0 <= used <= bytes@.len(),
            used_bytes(bytes@) == used_bytes(bytes@.take(used as int)),
        decreases used,
    {
        proof {
            assert(bytes@.take(used as int).drop_last() =~= bytes@.take(used - 1));
        }
        used = used - 1;
    }
    if used == 0 {
        DecodeError::BitLengthMissing
    } else if used != bytes.len() {
        DecodeError::ExcessBitBytes { given: bytes.len(), expected: used }
    } else {
        DecodeError::TooManyBits { max: limit }
    }
}

/// Decodes at most `limit` bits; fails on bytes that are no such bits' encoding.
pub fn decode_bits(bytes: &[u8], limit: usize) -> (r: Result<Vec<bool>, DecodeError>)
    requires
        limit <= MAX_BITS,
    ensures
        match r {
            Ok(bits) => bits@.len() <= limit && bits_enc(bits@) == bytes@ && bits_fault_of(
                bytes@,
                limit,
            ) is None,
            Err(e) => bits_fault_of(bytes@, limit) == Some(e) && forall|s: Seq<bool>|
                s.len() <= limit ==> #[trigger] bits_enc(s) != bytes@,
        },
{
    proof {
        reveal(bits_fault_of);
    }
    match read_bits(bytes, limit) {
        Some(bits) => Ok(bits),
        None => Err(find_bits_fault(bytes, limit)),
    }
}

} // verus!
