//! Lists of encoded items.

use crate::primitives::{from_le, le_bytes, le_value, lemma_le_value_of_bytes, lemma_pow256_values};
use crate::encoding::container::{
    conforms, container, cut, join, layout_fault, lemma_container_injective, lemma_cut,
    lemma_field_at, lemma_head_len, lemma_offset_end, next_offset, position_at, read_offset,
    slice_views, split, views, width, width_from, MAX_ENCODING,
};
use crate::encoding::{
    decode_field, decode_inverts_encode, decoded, fault_of, lemma_fixed_len, DecodeError, Ssz,
};
use vstd::prelude::*;
use vstd::slice::slice_subrange;

verus! {

/// The layout of `n` items of one kind.
pub open spec fn uniform(size: Option<usize>, n: nat) -> Seq<Option<usize>> {
    Seq::new(n, |i: int| size)
}

/// The values that a sequence of items stands for.
pub open spec fn item_views<T: View>(items: Seq<T>) -> Seq<T::V> {
    items.map_values(|x: T| x@)
}

/// The encoding of each item.
pub open spec fn item_encs<T: Ssz>(items: Seq<T::V>) -> Seq<Seq<u8>> {
    items.map_values(|x: T::V| T::enc(x))
}

/// The encoding of a list: items of one size follow each other, items of varying
/// size stand behind a table of their offsets.
pub open spec fn list_enc<T: Ssz>(items: Seq<T::V>) -> Seq<u8> {
    container(uniform(T::size(), items.len()), item_encs::<T>(items))
}

/// The lists of at most `limit` items that can be encoded.
pub open spec fn list_valid<T: Ssz>(items: Seq<T::V>, limit: nat) -> bool {
    &&& items.len() <= limit
    &&& forall|i: int| 0 <= i < items.len() ==> T::valid(#[trigger] items[i])
    &&& list_enc::<T>(items).len() <= MAX_ENCODING
}

pub proof fn lemma_uniform_width(size: Option<usize>, n: nat, i: int)
    requires
        0 <= i <= n,
    ensures
        width_from(uniform(size, n), i) == (n - i) * width(size),
    decreases n - i,
{
    let w = width(size) as int;
    if i < n {
        lemma_uniform_width(size, n, i + 1);
        assert((n - i) * w == (n - i - 1) * w + w) by (nonlinear_arith);
    } else {
        assert((n - i) * w == 0) by (nonlinear_arith)
            requires
                n == i,
        ;
    }
}

pub proof fn lemma_list_conforms<T: Ssz>(items: Seq<T::V>)
    requires
        forall|i: int| 0 <= i < items.len() ==> T::valid(#[trigger] items[i]),
    ensures
        conforms(uniform(T::size(), items.len()), item_encs::<T>(items)),
{
    assert forall|i: int| 0 <= i < items.len() && T::size() is Some implies (
    #[trigger] item_encs::<T>(items)[i]).len() == T::size()->0 by {
        T::enc_size(items[i]);
    }
    let layout = uniform(T::size(), items.len());
    let parts = item_encs::<T>(items);
    assert forall|i: int|
        0 <= i < layout.len() && (#[trigger] layout[i]) is Some implies parts[i].len()
        == layout[i]->0 by {
        assert(item_encs::<T>(items)[i].len() == T::size()->0);
    }
}

/// The length of a list of items of one size.
pub proof fn lemma_uniform_list_len<T: Ssz>(items: Seq<T::V>)
    requires
        T::size() is Some,
        forall|i: int| 0 <= i < items.len() ==> T::valid(#[trigger] items[i]),
    ensures
        list_enc::<T>(items).len() == items.len() * T::size()->0,
{
    let layout = uniform(T::size(), items.len());
    let parts = item_encs::<T>(items);
    lemma_list_conforms::<T>(items);
    lemma_uniform_width(T::size(), items.len(), 0);
    lemma_head_len(layout, parts, 0, width_from(layout, 0));
    lemma_fixed_len(layout, parts, 0);
}

/// The encoding of a list tells how many items it has.
pub proof fn lemma_list_count<T: Ssz>(items: Seq<T::V>)
    requires
        forall|i: int| 0 <= i < items.len() ==> T::valid(#[trigger] items[i]),
        list_enc::<T>(items).len() <= MAX_ENCODING,
    ensures
        items.len() == 0 <==> list_enc::<T>(items).len() == 0,
        T::size() is Some ==> list_enc::<T>(items).len() == items.len() * T::size()->0,
        T::size() is None && items.len() > 0 ==> list_enc::<T>(items).len() >= 4 && le_value(
            list_enc::<T>(items).subrange(0, 4),
        ) == 4 * items.len(),
{
    let n = items.len();
    let layout = uniform(T::size(), n);
    let parts = item_encs::<T>(items);
    lemma_list_conforms::<T>(items);
    lemma_uniform_width(T::size(), n, 0);
    lemma_offset_end(layout, parts);
    lemma_head_len(layout, parts, 0, width_from(layout, 0));
    let bytes = list_enc::<T>(items);
    if n > 0 {
        T::enc_size(items[0]);
        let w = width(T::size()) as int;
        assert(n * w > 0) by (nonlinear_arith)
            requires
                n > 0,
                w > 0,
        ;
    } else {
        assert(bytes =~= Seq::<u8>::empty());
    }
    if T::size() is Some {
        lemma_fixed_len(layout, parts, 0);
    } else if n > 0 {
        lemma_field_at(layout, parts, 0);
        lemma_uniform_width(T::size(), n, 1);
        assert(position_at(layout, 1) == 4);
        assert(bytes.subrange(0, 4) == le_bytes((4 * n) as nat, 4));
        lemma_pow256_values();
        lemma_le_value_of_bytes((4 * n) as nat, 4);
    }
}

/// Different lists have different encodings.
pub proof fn lemma_list_injective<T: Ssz>(a: Seq<T::V>, b: Seq<T::V>)
    requires
        forall|i: int| 0 <= i < a.len() ==> T::valid(#[trigger] a[i]),
        forall|i: int| 0 <= i < b.len() ==> T::valid(#[trigger] b[i]),
        list_enc::<T>(a) == list_enc::<T>(b),
        list_enc::<T>(a).len() <= MAX_ENCODING,
    ensures
        a == b,
{
    lemma_list_count::<T>(a);
    lemma_list_count::<T>(b);
    if T::size() is Some && a.len() > 0 {
        T::enc_size(a[0]);
        let w = T::size()->0 as int;
        let la = a.len() as int;
        let lb = b.len() as int;
        assert(la == lb) by (nonlinear_arith)
            requires
                la * w == lb * w,
                w > 0,
        ;
    }
    assert(a.len() == b.len());
    lemma_list_conforms::<T>(a);
    lemma_list_conforms::<T>(b);
    lemma_container_injective(
        uniform(T::size(), a.len()),
        item_encs::<T>(a),
        item_encs::<T>(b),
    );
    assert forall|i: int| 0 <= i < a.len() implies a[i] == b[i] by {
        assert(item_encs::<T>(a)[i] == item_encs::<T>(b)[i]);
        T::enc_injective(a[i], b[i]);
    }
    assert(a =~= b);
}

fn uniform_layout(size: Option<usize>, n: usize) -> (r: Vec<Option<usize>>)
    ensures
        r@ == uniform(size, n as nat),
{
    let mut r: Vec<Option<usize>> = Vec::new();
    let mut i: usize = 0;
    while i < n
        invariant
            0 <= i <= n,
            r@ == uniform(size, i as nat),
        decreases n - i,
    {
        r.push(size);
        i = i + 1;
        proof {
            assert(r@ =~= uniform(size, i as nat));
        }
    }
    r
}

/// Encodes a list.
pub fn encode_list<T: Ssz>(items: &Vec<T>) -> (r: Vec<u8>)
    requires
        forall|i: int| 0 <= i < items@.len() ==> T::valid(#[trigger] item_views(items@)[i]),
        list_enc::<T>(item_views(items@)).len() <= MAX_ENCODING,
    ensures
        r@ == list_enc::<T>(item_views(items@)),
{
    let ghost vs = item_views(items@);
    let mut parts: Vec<Vec<u8>> = Vec::new();
    let mut i: usize = 0;
    while i < items.len()
        invariant
            0 <= i <= items@.len(),
            vs == item_views(items@),
            forall|k: int| 0 <= k < items@.len() ==> T::valid(#[trigger] vs[k]),
            parts@.len() == i,
            forall|k: int| 0 <= k < i ==> #[trigger] parts@[k]@ == T::enc(vs[k]),
        decreases items@.len() - i,
    {
        proof {
            assert(vs[i as int] == items@[i as int]@);
        }
        let part = items[i].as_ssz_bytes();
        parts.push(part);
        i = i + 1;
    }
    let size = T::ssz_size();
    let layout = uniform_layout(size, items.len());
    proof {
        assert(views(parts@) =~= item_encs::<T>(vs));
        lemma_list_conforms::<T>(vs);
    }
    join(&layout, &parts)
}

/// How many items the bytes claim to hold; `None` where no list has such bytes.
fn count_items(size: Option<usize>, bytes: &[u8]) -> (r: Option<usize>)
    requires
        size is Some ==> 0 < size->0,
    ensures
        size is Some ==> match r {
            Some(n) => n * size->0 == bytes@.len(),
            None => forall|n: nat| #[trigger] (n * size->0) != bytes@.len(),
        },
        size is None ==> match r {
            Some(n) => n <= MAX_ENCODING && (bytes@.len() == 0 && n == 0 || bytes@.len() >= 4 && n > 0
                && le_value(bytes@.subrange(0, 4)) == 4 * n),
            None => bytes@.len() > 0 && (bytes@.len() < 4 || forall|n: nat|
                n > 0 ==> #[trigger] (4 * n) != le_value(bytes@.subrange(0, 4))),
        },
{
    match size {
        Some(s) => {
            let n: usize = bytes.len() / s;
            let rest: usize = bytes.len() % s;
            let ghost len = bytes@.len() as int;
            let ghost w = s as int;
            if rest == 0 {
                proof {
                    vstd::arithmetic::div_mod::lemma_fundamental_div_mod(len, w);
                    assert(n * w == w * n) by (nonlinear_arith);
                }
                Some(n)
            } else {
                proof {
                    assert forall|k: nat| #[trigger] (k * s) != bytes@.len() by {
                        if k * s == len {
                            vstd::arithmetic::div_mod::lemma_mod_multiples_basic(k as int, w);
                        }
                    }
                }
                None
            }
        },
        None => {
            if bytes.len() == 0 {
                return Some(0);
            }
            if bytes.len() < 4 {
                return None;
            }
            let first: u64 = from_le(slice_subrange(bytes, 0, 4));
            proof {
                crate::primitives::lemma_le_bytes_of_value(bytes@.subrange(0, 4));
                lemma_pow256_values();
            }
            if first % 4 != 0 || first == 0 {
                return None;
            }
            Some((first / 4) as usize)
        },
    }
}

/// The items that bytes encode, if they are at most `limit`.
fn read_list<T: Ssz>(bytes: &[u8], limit: usize) -> (r: Option<Vec<T>>)
    requires
        bytes@.len() <= MAX_ENCODING,
    ensures
        match r {
            Some(items) => list_valid::<T>(item_views(items@), limit as nat) && list_enc::<T>(
                item_views(items@),
            ) == bytes@,
            None => forall|v: Seq<T::V>|
                list_valid::<T>(v, limit as nat) ==> #[trigger] list_enc::<T>(v) != bytes@,
        },
{
    let size = T::ssz_size();
    let n: usize = match count_items(size, bytes) {
        Some(n) => n,
        None => {
            proof {
                assert forall|v: Seq<T::V>|
                    list_valid::<T>(v, limit as nat) implies #[trigger] list_enc::<T>(v)
                    != bytes@ by {
                    lemma_list_count::<T>(v);
                    if size is Some {
                        assert(v.len() * size->0 != bytes@.len());
                    } else if v.len() > 0 {
                        assert(list_enc::<T>(v) == bytes@ ==> 4 * v.len() != le_value(
                            bytes@.subrange(0, 4),
                        ));
                    }
                }
            }
            return None;
        },
    };
    proof {
        assert forall|v: Seq<T::V>|
            list_valid::<T>(v, limit as nat) && #[trigger] list_enc::<T>(v)
                == bytes@ implies v.len() == n by {
            lemma_list_count::<T>(v);
            if size is Some {
                let a = v.len() as int;
                let b = n as int;
                let w = size->0 as int;
                assert(a == b) by (nonlinear_arith)
                    requires
                        a * w == b * w,
                        w > 0,
                ;
            }
        }
    }
    if n > limit {
        return None;
    }
    let layout = uniform_layout(size, n);
    proof {
        lemma_uniform_width(size, n as nat, 0);
        if size is None && n > 0 {
            crate::primitives::lemma_le_bytes_of_value(bytes@.subrange(0, 4));
            lemma_pow256_values();
        }
        if size is None {
            let k = n as int;
            assert((k - 0) * width(size) == 4 * k) by (nonlinear_arith)
                requires
                    width(size) == 4,
            ;
        }
    }
    let parts = match split(&layout, bytes) {
        Ok(parts) => parts,
        Err(_) => {
            proof {
                assert forall|v: Seq<T::V>|
                    list_valid::<T>(v, limit as nat) implies #[trigger] list_enc::<T>(v)
                    != bytes@ by {
                    if list_enc::<T>(v) == bytes@ {
                        lemma_list_conforms::<T>(v);
                        assert(container(layout@, item_encs::<T>(v)) == bytes@);
                    }
                }
            }
            return None;
        },
    };
    let ghost ps = slice_views(parts@);
    let mut items: Vec<T> = Vec::new();
    let mut i: usize = 0;
    while i < n
        invariant
            0 <= i <= n <= limit,
            layout@ == uniform(size, n as nat),
            size == T::size(),
            ps == slice_views(parts@),
            parts@.len() == n,
            conforms(layout@, ps),
            container(layout@, ps) == bytes@,
            bytes@.len() <= MAX_ENCODING,
            items@.len() == i,
            forall|k: int|
                0 <= k < i ==> T::valid(#[trigger] item_views(items@)[k]) && T::enc(
                    item_views(items@)[k],
                ) == ps[k],
            forall|v: Seq<T::V>|
                list_valid::<T>(v, limit as nat) && #[trigger] list_enc::<T>(v) == bytes@
                    ==> v.len() == n,
        decreases n - i,
    {
        match T::from_ssz_bytes(parts[i]) {
            Ok(item) => {
                let ghost before = item_views(items@);
                items.push(item);
                proof {
                    assert(ps[i as int] == parts@[i as int]@);
                    assert(item_views(items@) =~= before.push(item@));
                }
            },
            Err(_) => {
                proof {
                    assert forall|v: Seq<T::V>|
                        list_valid::<T>(v, limit as nat) implies #[trigger] list_enc::<T>(v)
                        != bytes@ by {
                        if list_enc::<T>(v) == bytes@ {
                            lemma_list_conforms::<T>(v);
                            lemma_container_injective(layout@, item_encs::<T>(v), ps);
                            assert(item_encs::<T>(v)[i as int] == ps[i as int]);
                            assert(T::enc(v[i as int]) == parts@[i as int]@);
                        }
                    }
                }
                return None;
            },
        }
        i = i + 1;
    }
    proof {
        assert(item_encs::<T>(item_views(items@)) =~= ps);
    }
    Some(items)
}

/// The offset of the `i`-th item of a list of items of varying size.
pub open spec fn item_offset(bytes: Seq<u8>, i: int) -> nat {
    le_value(bytes.subrange(4 * i, 4 * i + 4))
}

/// Where the `i`-th of `n` items of varying size ends.
pub open spec fn item_end(bytes: Seq<u8>, n: nat, i: int) -> nat {
    if i + 1 < n {
        item_offset(bytes, i + 1)
    } else {
        bytes.len()
    }
}

/// What is wrong with the items of varying size from the `i`-th of `n` on. Of each item
/// first its end is looked at, and then its bytes.
pub open spec fn items_fault<T: Ssz>(bytes: Seq<u8>, n: nat, i: int) -> Option<DecodeError>
    decreases n - i,
{
    let start = item_offset(bytes, i);
    let end = item_end(bytes, n, i);
    if i < 0 || i >= n {
        None
    } else if end < 4 * n {
        Some(DecodeError::OffsetIntoFixedPortion(end as usize))
    } else if end > bytes.len() {
        Some(DecodeError::OffsetOutOfBounds(end as usize))
    } else if start > end {
        Some(DecodeError::OffsetsAreDecreasing(end as usize))
    } else if fault_of::<T>(bytes.subrange(start as int, end as int)) is Some {
        fault_of::<T>(bytes.subrange(start as int, end as int))
    } else {
        items_fault::<T>(bytes, n, i + 1)
    }
}

/// What is wrong with the items of `w` bytes from the `i`-th of `n` on.
pub open spec fn chunks_fault<T: Ssz>(bytes: Seq<u8>, w: nat, n: nat, i: int) -> Option<
    DecodeError,
>
    decreases n - i,
{
    let chunk = bytes.subrange(i * w, i * w + w);
    if i < 0 || i >= n {
        None
    } else if fault_of::<T>(chunk) is Some {
        fault_of::<T>(chunk)
    } else {
        chunks_fault::<T>(bytes, w, n, i + 1)
    }
}

/// Why bytes are no list of at most `limit` items, where something is wrong with them.
pub open spec fn scan_list<T: Ssz>(bytes: Seq<u8>, limit: usize) -> Option<DecodeError> {
    let len = bytes.len();
    if len > MAX_ENCODING {
        Some(DecodeError::TooLong { len: len as usize })
    } else if len == 0 {
        None
    } else {
        match T::size() {
            Some(w) => {
                let n = len / w as nat;
                if n > limit {
                    Some(DecodeError::TooManyItems { items: n as usize, max: limit })
                } else if len % w as nat != 0 {
                    Some(DecodeError::PartialItem { items: n as usize, bytes: len as usize })
                } else {
                    chunks_fault::<T>(bytes, w as nat, n, 0)
                }
            },
            None => {
                let first = item_offset(bytes, 0);
                if len < 4 {
                    Some(DecodeError::InvalidLengthPrefix { len: len as usize, expected: 4 })
                } else if first > len {
                    Some(DecodeError::OffsetOutOfBounds(first as usize))
                } else if first % 4 != 0 || first < 4 {
                    Some(DecodeError::InvalidListFixedBytesLen(first as usize))
                } else if first / 4 > limit {
                    Some(
                        DecodeError::TooManyVariableItems {
                            items: (first / 4) as usize,
                            max: limit,
                        },
                    )
                } else {
                    items_fault::<T>(bytes, first / 4, 0)
                }
            },
        }
    }
}

/// Why bytes are no list of at most `limit` items, if they are none.
#[verifier::opaque]
pub open spec fn list_fault_of<T: Ssz>(bytes: Seq<u8>, limit: usize) -> Option<DecodeError> {
    if exists|v: Seq<T::V>| list_valid::<T>(v, limit as nat) && #[trigger] list_enc::<T>(v) == bytes {
        None
    } else {
        Some(scan_list::<T>(bytes, limit)->0)
    }
}

/// Why bytes are no list of at most `limit` bytes, if they are none.
pub open spec fn bytes_fault_of(bytes: Seq<u8>, limit: usize) -> Option<DecodeError> {
    if bytes.len() <= limit {
        None
    } else {
        Some(DecodeError::TooManyItems { items: bytes.len() as usize, max: limit })
    }
}

/// Parts that all decode are a list.
proof fn lemma_parts_make_list<T: Ssz>(bytes: Seq<u8>, limit: usize, n: nat)
    requires
        bytes.len() <= MAX_ENCODING,
        n <= limit,
        layout_fault(uniform(T::size(), n), bytes, 0, None, None) is None,
        forall|i: int|
            0 <= i < n ==> decoded::<T>(#[trigger] cut(uniform(T::size(), n), bytes)[i]) is Some,
    ensures
        exists|v: Seq<T::V>|
            list_valid::<T>(v, limit as nat) && #[trigger] list_enc::<T>(v) == bytes,
{
    let layout = uniform(T::size(), n);
    let parts = cut(layout, bytes);
    lemma_cut(layout, bytes);
    let v = Seq::new(n, |i: int| decoded::<T>(parts[i])->0);
    assert forall|i: int| 0 <= i < n implies T::valid(#[trigger] v[i]) && T::enc(v[i]) == parts[i] by {
        decode_inverts_encode::<T>(parts[i], v[i]);
    }
    assert(item_encs::<T>(v) =~= parts);
    assert(list_enc::<T>(v) == bytes);
    assert(list_valid::<T>(v, limit as nat));
}

proof fn lemma_uniform_position(size: Option<usize>, n: nat, i: int)
    requires
        0 <= i <= n,
    ensures
        position_at(uniform(size, n), i) == i * width(size),
{
    lemma_uniform_width(size, n, 0);
    lemma_uniform_width(size, n, i);
    let w = width(size) as int;
    assert((n - 0) * w - (n - i) * w == i * w) by (nonlinear_arith);
}

/// Where nothing is wrong with the items of one size, the layout is that of a list.
proof fn lemma_chunks_layout(w: usize, n: nat, bytes: Seq<u8>, i: int)
    requires
        0 <= i <= n,
        n * w == bytes.len(),
    ensures
        layout_fault(uniform(Some(w), n), bytes, i, None, None) is None,
    decreases n - i,
{
    lemma_uniform_position(Some(w), n, i);
    if i < n {
        lemma_chunks_layout(w, n, bytes, i + 1);
        let ww = w as int;
        assert(i * ww + ww <= n * ww) by (nonlinear_arith)
            requires
                i + 1 <= n,
                ww >= 0,
        ;
    }
}

proof fn lemma_no_chunk_fault<T: Ssz>(bytes: Seq<u8>, w: nat, n: nat, k: int, i: int)
    requires
        0 <= k <= i < n,
        chunks_fault::<T>(bytes, w, n, k) is None,
    ensures
        fault_of::<T>(bytes.subrange(i * w, i * w + w)) is None,
    decreases i - k,
{
    if k < i {
        lemma_no_chunk_fault::<T>(bytes, w, n, k + 1, i);
    }
}

/// What holds of an item where nothing is wrong with the items of varying size.
proof fn lemma_no_item_fault<T: Ssz>(bytes: Seq<u8>, n: nat, k: int, i: int)
    requires
        0 <= k <= i < n,
        items_fault::<T>(bytes, n, k) is None,
    ensures
        item_end(bytes, n, i) <= bytes.len(),
        item_offset(bytes, i) <= item_end(bytes, n, i),
        fault_of::<T>(
            bytes.subrange(item_offset(bytes, i) as int, item_end(bytes, n, i) as int),
        ) is None,
    decreases i - k,
{
    if k < i {
        lemma_no_item_fault::<T>(bytes, n, k + 1, i);
    }
}

/// Where nothing is wrong with the items of varying size, the layout is that of a list.
proof fn lemma_items_layout<T: Ssz>(
    bytes: Seq<u8>,
    n: nat,
    i: int,
    first: Option<usize>,
    last: Option<usize>,
)
    requires
        0 <= i <= n,
        n > 0,
        4 * n <= bytes.len() <= MAX_ENCODING,
        item_offset(bytes, 0) == 4 * n,
        items_fault::<T>(bytes, n, 0) is None,
        i == 0 ==> first is None && last is None,
        i > 0 ==> first == Some((4 * n) as usize) && last == Some(
            item_offset(bytes, i - 1) as usize,
        ),
    ensures
        layout_fault(uniform(None, n), bytes, i, first, last) is None,
    decreases n - i,
{
    let layout = uniform(None, n);
    lemma_uniform_position(None, n, i);
    if i < n {
        let offset = item_offset(bytes, i);
        assert(read_offset(layout, bytes, i) == offset);
        if i > 0 {
            lemma_no_item_fault::<T>(bytes, n, 0, i - 1);
        }
        lemma_no_item_fault::<T>(bytes, n, 0, i);
        lemma_items_layout::<T>(
            bytes,
            n,
            i + 1,
            Some((4 * n) as usize),
            Some(offset as usize),
        );
    }
}

/// Bytes with which nothing is wrong are a list.
proof fn lemma_scanned_list<T: Ssz>(bytes: Seq<u8>, limit: usize)
    requires
        scan_list::<T>(bytes, limit) is None,
        T::size() is Some ==> T::size()->0 > 0,
    ensures
        exists|v: Seq<T::V>|
            list_valid::<T>(v, limit as nat) && #[trigger] list_enc::<T>(v) == bytes,
{
    reveal(fault_of);
    let len = bytes.len() as int;
    if len == 0 {
        let v = Seq::<T::V>::empty();
        lemma_list_count::<T>(v);
        assert(list_enc::<T>(v) =~= bytes);
        assert(list_valid::<T>(v, limit as nat));
    } else {
        match T::size() {
            Some(w) => {
                let ww = w as int;
                let n = (len / ww) as nat;
                vstd::arithmetic::div_mod::lemma_fundamental_div_mod(len, ww);
                assert(n * ww == ww * n) by (nonlinear_arith);
                let layout = uniform(T::size(), n);
                lemma_chunks_layout(w, n, bytes, 0);
                assert forall|i: int| 0 <= i < n implies decoded::<T>(
                    #[trigger] cut(layout, bytes)[i],
                ) is Some by {
                    lemma_uniform_position(T::size(), n, i);
                    lemma_no_chunk_fault::<T>(bytes, w as nat, n, 0, i);
                }
                lemma_parts_make_list::<T>(bytes, limit, n);
            },
            None => {
                let n = item_offset(bytes, 0) / 4;
                let layout = uniform(T::size(), n);
                lemma_items_layout::<T>(bytes, n, 0, None, None);
                assert forall|i: int| 0 <= i < n implies decoded::<T>(
                    #[trigger] cut(layout, bytes)[i],
                ) is Some by {
                    lemma_uniform_position(None, n, i);
                    lemma_no_item_fault::<T>(bytes, n, 0, i);
                    assert(read_offset(layout, bytes, i) == item_offset(bytes, i));
                    if i + 1 < n {
                        lemma_uniform_position(None, n, i + 1);
                        assert(read_offset(layout, bytes, i + 1) == item_offset(bytes, i + 1));
                    }
                    assert(next_offset(layout, bytes, i + 1) == item_end(bytes, n, i));
                }
                lemma_parts_make_list::<T>(bytes, limit, n);
            },
        }
    }
}

fn find_chunks_fault<T: Ssz>(bytes: &[u8], w: usize, n: usize) -> (r: Option<DecodeError>)
    requires
        n * w == bytes@.len(),
    ensures
        r == chunks_fault::<T>(bytes@, w as nat, n as nat, 0),
{
    let len: usize = bytes.len();
    let mut i: usize = 0;
    let mut start: usize = 0;
    while i < n
        invariant
            0 <= i <= n,
            len == bytes@.len(),
            n * w == bytes@.len(),
            start == i * w,
            start <= bytes@.len(),
            chunks_fault::<T>(bytes@, w as nat, n as nat, 0) == chunks_fault::<T>(
                bytes@,
                w as nat,
                n as nat,
                i as int,
            ),
        decreases n - i,
    {
        proof {
            let (a, b, c) = (i as int, n as int, w as int);
            assert(a * c + c <= b * c && (a + 1) * c == a * c + c) by (nonlinear_arith)
                requires
                    a + 1 <= b,
                    c >= 0,
            ;
        }
        let end: usize = start + w;
        match decode_field::<T>(slice_subrange(bytes, start, end)) {
            Err(e) => {
                return Some(e);
            },
            Ok(_) => {},
        }
        start = end;
        i = i + 1;
    }
    None
}

fn read_item_offset(bytes: &[u8], i: usize) -> (r: usize)
    requires
        4 * i + 4 <= bytes@.len(),
    ensures
        r == item_offset(bytes@, i as int),
{
    let len: usize = bytes.len();
    assert(4 * i + 4 <= len);
    let field = slice_subrange(bytes, 4 * i, 4 * i + 4);
    proof {
        crate::primitives::lemma_le_bytes_of_value(field@);
        lemma_pow256_values();
    }
    from_le(field) as usize
}

fn find_items_fault<T: Ssz>(bytes: &[u8], n: usize) -> (r: Option<DecodeError>)
    requires
        0 < n,
        4 * n <= bytes@.len(),
        item_offset(bytes@, 0) == 4 * n,
    ensures
        r == items_fault::<T>(bytes@, n as nat, 0),
{
    let len: usize = bytes.len();
    let mut i: usize = 0;
    let mut start: usize = 4 * n;
    while i < n
        invariant
            0 <= i <= n,
            len == bytes@.len(),
            4 * n <= len,
            i < n ==> start == item_offset(bytes@, i as int),
            items_fault::<T>(bytes@, n as nat, 0) == items_fault::<T>(
                bytes@,
                n as nat,
                i as int,
            ),
        decreases n - i,
    {
        let end: usize = if i + 1 < n {
            read_item_offset(bytes, i + 1)
        } else {
            len
        };
        if end < 4 * n {
            return Some(DecodeError::OffsetIntoFixedPortion(end));
        }
        if end > len {
            return Some(DecodeError::OffsetOutOfBounds(end));
        }
        if start > end {
            return Some(DecodeError::OffsetsAreDecreasing(end));
        }
        match decode_field::<T>(slice_subrange(bytes, start, end)) {
            Err(e) => {
                return Some(e);
            },
            Ok(_) => {},
        }
        start = end;
        i = i + 1;
    }
    None
}

fn find_list_fault<T: Ssz>(bytes: &[u8], limit: usize) -> (r: Option<DecodeError>)
    ensures
        r == scan_list::<T>(bytes@, limit),
{
    let len: usize = bytes.len();
    if len > MAX_ENCODING {
        return Some(DecodeError::TooLong { len });
    }
    if len == 0 {
        return None;
    }
    match T::ssz_size() {
        Some(w) => {
            let n: usize = len / w;
            if n > limit {
                return Some(DecodeError::TooManyItems { items: n, max: limit });
            }
            if len % w != 0 {
                return Some(DecodeError::PartialItem { items: n, bytes: len });
            }
            proof {
                vstd::arithmetic::div_mod::lemma_fundamental_div_mod(len as int, w as int);
                assert(n * w == w * n) by (nonlinear_arith);
            }
            find_chunks_fault::<T>(bytes, w, n)
        },
        None => {
            if len < 4 {
                return Some(DecodeError::InvalidLengthPrefix { len, expected: 4 });
            }
            let first: usize = read_item_offset(bytes, 0);
            if first > len {
                return Some(DecodeError::OffsetOutOfBounds(first));
            }
            if first % 4 != 0 || first < 4 {
                return Some(DecodeError::InvalidListFixedBytesLen(first));
            }
            let n: usize = first / 4;
            if n > limit {
                return Some(DecodeError::TooManyVariableItems { items: n, max: limit });
            }
            find_items_fault::<T>(bytes, n)
        },
    }
}

/// Decodes a list of at most `limit` items; fails on bytes that are no such list's encoding.
pub fn decode_list<T: Ssz>(bytes: &[u8], limit: usize) -> (r: Result<Vec<T>, DecodeError>)
    ensures
        match r {
            Ok(items) => list_valid::<T>(item_views(items@), limit as nat) && list_enc::<T>(
                item_views(items@),
            ) == bytes@ && list_fault_of::<T>(bytes@, limit) is None,
            Err(e) => Some(e) == list_fault_of::<T>(bytes@, limit) && forall|v: Seq<T::V>|
                list_valid::<T>(v, limit as nat) ==> #[trigger] list_enc::<T>(v) != bytes@,
        },
{
    proof {
        reveal(list_fault_of);
    }
    if bytes.len() > MAX_ENCODING {
        return Err(DecodeError::TooLong { len: bytes.len() });
    }
    match read_list::<T>(bytes, limit) {
        Some(items) => Ok(items),
        None => {
            let _ = T::ssz_size();
            let fault = find_list_fault::<T>(bytes, limit);
            proof {
                if fault is None {
                    lemma_scanned_list::<T>(bytes@, limit);
                }
            }
            Err(fault.unwrap())
        },
    }
}

} // verus!
