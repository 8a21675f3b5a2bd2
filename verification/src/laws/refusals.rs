//! Which bytes are refused, and why.

use crate::attestation::{AttestationData, SignedAttestation};
use crate::block::{BlockHeader, SignedBlock};
use crate::checkpoint::Checkpoint;
use crate::encoding::bits::{bits_fault_of, decode_bits, used_bytes};
use crate::encoding::container::{layout_fault, lemma_head_len, width_from};
use crate::encoding::error::DecodeError;
use crate::encoding::list::{
    decode_list, item_views, lemma_uniform_list_len, list_enc, list_fault_of, list_valid,
};
use crate::encoding::{
    container_fault, is_split, lemma_fixed_len, lemma_fixed_valid, Ssz, SszContainer,
};
use crate::laws::layout::{items_follow_each_other, lemma_two_parts};
use crate::net::messages::Status;
use crate::primitives::{
    le_bytes, le_value, lemma_le_bytes_len, lemma_le_bytes_of_value, lemma_le_value_of_bytes,
    lemma_pow256_values, H256,
};
use crate::state::{ChainConfig, Validator};
use vstd::prelude::*;

verus! {

proof fn lemma_wrong_length<T: SszContainer>(bytes: Seq<u8>)
    requires
        T::fixed() is Some,
        bytes.len() != T::fixed()->0,
    ensures
        T::fault(bytes) == (DecodeError::InvalidByteLength {
            len: bytes.len() as usize,
            expected: T::fixed()->0,
        }),
{
    reveal(container_fault);
    T::layout_fits();
    if exists|parts: Seq<Seq<u8>>| is_split(T::layout(), bytes, parts) {
        let parts = choose|parts: Seq<Seq<u8>>| is_split(T::layout(), bytes, parts);
        lemma_fixed_len(T::layout(), parts, 0);
        lemma_head_len(T::layout(), parts, 0, width_from(T::layout(), 0));
    }
}

/// Values of one size are refused on other lengths, which are told.
pub proof fn wrong_lengths_are_told<T: SszContainer>(bytes: &[u8], r: Result<T, DecodeError>)
    requires
        call_ensures(T::from_ssz_bytes, (bytes,), r),
        T::size() is Some,
        bytes@.len() != T::size()->0,
    ensures
        r matches Err(e) && e == (DecodeError::InvalidByteLength {
            len: bytes@.len() as usize,
            expected: T::size()->0,
        }),
{
    if r is Ok {
        T::enc_size(r->Ok_0@);
    }
    lemma_wrong_length::<T>(bytes@);
}

/// The same of integers and roots.
pub proof fn wrong_lengths_of_numbers_are_told(
    bytes: &[u8],
    a: Result<u64, DecodeError>,
    b: Result<H256, DecodeError>,
)
    ensures
        call_ensures(u64::from_ssz_bytes, (bytes,), a) && bytes@.len() != 8 ==> (a matches Err(e)
            && e == (DecodeError::InvalidByteLength { len: bytes@.len() as usize, expected: 8 })),
        call_ensures(H256::from_ssz_bytes, (bytes,), b) && bytes@.len() != 32 ==> (b matches Err(e)
            && e == (DecodeError::InvalidByteLength { len: bytes@.len() as usize, expected: 32 })),
        call_ensures(u64::from_ssz_bytes, (bytes,), a) && bytes@.len() == 8 ==> a is Ok,
        call_ensures(H256::from_ssz_bytes, (bytes,), b) && bytes@.len() == 32 ==> b is Ok,
{
    if call_ensures(u64::from_ssz_bytes, (bytes,), a) {
        if a is Ok {
            u64::enc_size(a->Ok_0@);
        } else if bytes@.len() == 8 {
            let v = le_value(bytes@);
            lemma_pow256_values();
            lemma_le_bytes_of_value(bytes@);
            assert(u64::valid(v as u64) && u64::enc(v as u64) == bytes@);
        }
    }
    if call_ensures(H256::from_ssz_bytes, (bytes,), b) {
        if b is Err && bytes@.len() == 32 {
            assert(H256::valid(bytes@) && H256::enc(bytes@) == bytes@);
        }
    }
}

/// The sizes of values of one size.
pub proof fn sizes_are_fixed(
    a: ChainConfig,
    b: Checkpoint,
    c: AttestationData,
    d: BlockHeader,
    e: Validator,
    f: Status,
)
    ensures
        ChainConfig::size() == Some(8usize) && ChainConfig::enc(a).len() == 8,
        Checkpoint::size() == Some(40usize) && Checkpoint::enc(b).len() == 40,
        AttestationData::size() == Some(128usize) && AttestationData::enc(c).len() == 128,
        BlockHeader::size() == Some(112usize) && BlockHeader::enc(d).len() == 112,
        Validator::size() == Some(112usize) && Validator::enc(e).len() == 112,
        Status::size() == Some(80usize) && Status::enc(f).len() == 80,
        SignedAttestation::size() == Some(3248usize),
{
    lemma_fixed_valid::<ChainConfig>(a);
    lemma_fixed_valid::<Checkpoint>(b);
    lemma_fixed_valid::<Checkpoint>(c.head);
    lemma_fixed_valid::<Checkpoint>(c.target);
    lemma_fixed_valid::<Checkpoint>(c.source);
    lemma_fixed_valid::<AttestationData>(c);
    lemma_fixed_valid::<BlockHeader>(d);
    lemma_fixed_valid::<Validator>(e);
    lemma_fixed_valid::<Checkpoint>(f.finalized);
    lemma_fixed_valid::<Checkpoint>(f.head);
    lemma_fixed_valid::<Status>(f);
}

proof fn lemma_used(bytes: Seq<u8>, n: nat)
    requires
        n <= bytes.len(),
        n > 0 ==> bytes[n - 1] != 0,
        forall|i: int| n <= i < bytes.len() ==> bytes[i] == 0,
    ensures
        used_bytes(bytes) == n,
    decreases bytes.len(),
{
    if bytes.len() > n {
        assert(bytes.last() == 0);
        lemma_used(bytes.drop_last(), n);
    }
}

/// Bits are refused if there is no byte, if all bytes are zero, if the last byte is zero, or if
/// there are too many; and the reason is told.
pub proof fn bad_bits_are_told(
    bytes: &[u8],
    limit: usize,
    r: Result<Vec<bool>, DecodeError>,
    n: nat,
)
    requires
        call_ensures(decode_bits, (bytes, limit), r),
        r is Err,
        n <= bytes@.len(),
        n > 0 ==> bytes@[n - 1] != 0,
        forall|i: int| n <= i < bytes@.len() ==> bytes@[i] == 0,
    ensures
        bytes@.len() == 0 ==> r->Err_0 == DecodeError::NoBits,
        bytes@.len() > 0 && n == 0 ==> r->Err_0 == DecodeError::BitLengthMissing,
        0 < n < bytes@.len() ==> r->Err_0 == (DecodeError::ExcessBitBytes {
            given: bytes@.len() as usize,
            expected: n as usize,
        }),
        n == bytes@.len() && n > 0 ==> r->Err_0 == (DecodeError::TooManyBits { max: limit }),
{
    reveal(bits_fault_of);
    lemma_used(bytes@, n);
}

/// A list of roots is refused if it has too many roots or a part of one, and the reason is
/// told.
pub proof fn bad_root_lists_are_told(
    bytes: &[u8],
    limit: usize,
    r: Result<Vec<H256>, DecodeError>,
)
    requires
        call_ensures(decode_list::<H256>, (bytes, limit), r),
        bytes@.len() <= 0xffff_ffff,
    ensures
        r is Ok <==> bytes@.len() % 32 == 0 && bytes@.len() / 32 <= limit,
        bytes@.len() / 32 > limit ==> (r matches Err(e) && e == (DecodeError::TooManyItems {
            items: (bytes@.len() / 32) as usize,
            max: limit,
        })),
        bytes@.len() / 32 <= limit && bytes@.len() % 32 != 0 ==> (r matches Err(e) && e == (
        DecodeError::PartialItem {
            items: (bytes@.len() / 32) as usize,
            bytes: bytes@.len() as usize,
        })),
        r matches Ok(roots) ==> roots@.len() == bytes@.len() / 32,
{
    if let Ok(roots) = r {
        lemma_uniform_list_len::<H256>(item_views(roots@));
        assert(item_views(roots@).len() == roots@.len());
    } else {
        reveal(list_fault_of);
        if bytes@.len() % 32 == 0 && bytes@.len() / 32 <= limit {
            let n = bytes@.len() / 32;
            let v = Seq::new(n, |i: int| bytes@.subrange(32 * i, 32 * i + 32));
            lemma_roots_joined(v, bytes@);
            assert(list_valid::<H256>(v, limit as nat));
        }
    }
}

proof fn lemma_roots_joined(v: Seq<Seq<u8>>, bytes: Seq<u8>)
    requires
        bytes.len() == 32 * v.len(),
        forall|i: int|
            0 <= i < v.len() ==> #[trigger] v[i] == bytes.subrange(32 * i, 32 * i + 32),
    ensures
        list_enc::<H256>(v) == bytes,
{
    let joined = list_enc::<H256>(v);
    assert forall|i: int| 0 <= i < v.len() implies H256::valid(#[trigger] v[i]) by {}
    lemma_uniform_list_len::<H256>(v);
    assert forall|k: int| 0 <= k < bytes.len() implies joined[k] == bytes[k] by {
        let i = k / 32;
        items_follow_each_other::<H256>(v, i);
        assert(joined.subrange(32 * i, 32 * i + 32)[k - 32 * i] == joined[k]);
        assert(v[i][k - 32 * i] == bytes[k]);
    }
    assert(joined =~= bytes);
}

proof fn lemma_no_block_parts(bytes: Seq<u8>, parts: Seq<Seq<u8>>)
    requires
        is_split(seq![None, None], bytes, parts),
    ensures
        bytes.len() >= 8,
        le_value(bytes.subrange(0, 4)) == 8,
        8 <= le_value(bytes.subrange(4, 8)) <= bytes.len(),
{
    let (m, s) = (parts[0], parts[1]);
    assert(parts =~= seq![m, s]);
    lemma_two_parts(m, s);
    lemma_le_bytes_len(8, 4);
    lemma_le_bytes_len(8 + m.len(), 4);
    lemma_pow256_values();
    lemma_le_value_of_bytes(8, 4);
    assert(bytes.subrange(0, 4) =~= le_bytes(8, 4));
    assert(bytes.subrange(4, 8) =~= le_bytes(8 + m.len(), 4));
    lemma_le_value_of_bytes(8 + m.len(), 4);
}

proof fn lemma_block_fault(bytes: Seq<u8>)
    requires
        bytes.len() <= 0xffff_ffff,
    ensures
        ({
            let len = bytes.len();
            let first = le_value(bytes.subrange(0, 4));
            let second = le_value(bytes.subrange(4, 8));
            let fault = layout_fault(seq![None, None], bytes, 0, None, None);
            if len < 4 {
                fault == Some(
                    DecodeError::InvalidLengthPrefix { len: len as usize, expected: 4 },
                )
            } else if first > len {
                fault == Some(DecodeError::OffsetOutOfBounds(first as usize))
            } else if len < 8 {
                fault == Some(
                    DecodeError::InvalidLengthPrefix { len: (len - 4) as usize, expected: 4 },
                )
            } else if second > len {
                fault == Some(DecodeError::OffsetOutOfBounds(second as usize))
            } else if second < first {
                fault == Some(DecodeError::OffsetsAreDecreasing(second as usize))
            } else if first < 8 {
                fault == Some(DecodeError::OffsetIntoFixedPortion(first as usize))
            } else if first > 8 {
                fault == Some(DecodeError::OffsetSkipsVariableBytes(first as usize))
            } else {
                true
            }
        }),
{
    let layout = seq![None::<usize>, None::<usize>];
    reveal_with_fuel(width_from, 3);
    assert(width_from(layout, 2) == 0 && width_from(layout, 1) == 4 && width_from(layout, 0) == 8);
    lemma_pow256_values();
    if bytes.len() >= 4 {
        lemma_le_bytes_of_value(bytes.subrange(0, 4));
    }
    if bytes.len() >= 8 {
        lemma_le_bytes_of_value(bytes.subrange(4, 8));
    }
    reveal_with_fuel(layout_fault, 3);
}

/// A signed block starts with two offsets. Bytes are refused if one is missing, points behind
/// the end or before the other, or if the first does not point behind both; and the reason is
/// told, in this order.
pub proof fn bad_offsets_are_told(
    bytes: &[u8],
    r: Result<SignedBlock, DecodeError>,
)
    requires
        call_ensures(SignedBlock::from_ssz_bytes, (bytes,), r),
        bytes@.len() <= 0xffff_ffff,
    ensures
        ({
            let len = bytes@.len();
            let first = le_value(bytes@.subrange(0, 4));
            let second = le_value(bytes@.subrange(4, 8));
            if len < 4 {
                r matches Err(e) && e == (DecodeError::InvalidLengthPrefix {
                    len: len as usize,
                    expected: 4,
                })
            } else if first > len {
                r matches Err(e) && e == DecodeError::OffsetOutOfBounds(first as usize)
            } else if len < 8 {
                r matches Err(e) && e == (DecodeError::InvalidLengthPrefix {
                    len: (len - 4) as usize,
                    expected: 4,
                })
            } else if second > len {
                r matches Err(e) && e == DecodeError::OffsetOutOfBounds(second as usize)
            } else if second < first {
                r matches Err(e) && e == DecodeError::OffsetsAreDecreasing(second as usize)
            } else if first < 8 {
                r matches Err(e) && e == DecodeError::OffsetIntoFixedPortion(first as usize)
            } else if first > 8 {
                r matches Err(e) && e == DecodeError::OffsetSkipsVariableBytes(first as usize)
            } else {
                true
            }
        }),
{
    let len = bytes@.len();
    let first = le_value(bytes@.subrange(0, 4));
    let second = le_value(bytes@.subrange(4, 8));
    let layout = SignedBlock::layout();
    assert(layout =~= seq![None, None]);
    if len < 8 || first != 8 || second > len || second < first {
        if exists|parts: Seq<Seq<u8>>| is_split(layout, bytes@, parts) {
            let parts = choose|parts: Seq<Seq<u8>>| is_split(layout, bytes@, parts);
            lemma_no_block_parts(bytes@, parts);
        }
        if let Ok(block) = r {
            SignedBlock::parts_conform(block@);
            assert(is_split(layout, bytes@, SignedBlock::parts(block@)));
        }
        lemma_block_fault(bytes@);
        reveal(container_fault);
    }
}

} // verus!
