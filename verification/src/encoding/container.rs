//! The layout of a container: fixed-size fields and four-byte offsets first, the
//! variable-size fields after them.

use crate::primitives::{
    from_le, le_bytes, le_value, lemma_le_bytes_len, lemma_le_bytes_of_value,
    lemma_le_value_of_bytes, lemma_pow256_values, to_le,
};
use crate::encoding::DecodeError;
use vstd::prelude::*;
use vstd::slice::slice_subrange;

verus! {

/// The longest encoding that four-byte offsets can address.
pub const MAX_ENCODING: usize = 0xffff_ffff;

/// Bytes that a field takes in the fixed part: its size, or an offset of four bytes.
pub open spec fn width(field: Option<usize>) -> nat {
    match field {
        Some(n) => n as nat,
        None => 4,
    }
}

/// Bytes that the fields from the `i`-th on take in the fixed part.
pub open spec fn width_from(layout: Seq<Option<usize>>, i: int) -> nat
    decreases layout.len() - i,
{
    if i < 0 || i >= layout.len() {
        0
    } else {
        width(layout[i]) + width_from(layout, i + 1)
    }
}

/// One part per field, each fixed-size field with a part of its size.
pub open spec fn conforms(layout: Seq<Option<usize>>, parts: Seq<Seq<u8>>) -> bool {
    &&& parts.len() == layout.len()
    &&& forall|i: int|
        0 <= i < layout.len() && (#[trigger] layout[i]) is Some ==> parts[i].len() == layout[i]->0
}

/// The fixed part from the `i`-th field on, when the next variable-size field is at `offset`.
pub open spec fn head_from(
    layout: Seq<Option<usize>>,
    parts: Seq<Seq<u8>>,
    i: int,
    offset: nat,
) -> Seq<u8>
    decreases layout.len() - i,
{
    if i < 0 || i >= layout.len() {
        Seq::empty()
    } else {
        match layout[i] {
            Some(_) => parts[i] + head_from(layout, parts, i + 1, offset),
            None => le_bytes(offset, 4) + head_from(
                layout,
                parts,
                i + 1,
                offset + parts[i].len(),
            ),
        }
    }
}

/// The variable-size fields from the `i`-th field on, one after the other.
pub open spec fn tail_from(layout: Seq<Option<usize>>, parts: Seq<Seq<u8>>, i: int) -> Seq<u8>
    decreases layout.len() - i,
{
    if i < 0 || i >= layout.len() {
        Seq::empty()
    } else {
        match layout[i] {
            Some(_) => tail_from(layout, parts, i + 1),
            None => parts[i] + tail_from(layout, parts, i + 1),
        }
    }
}

/// The encoding of a container whose fields are encoded as `parts`.
pub open spec fn container(layout: Seq<Option<usize>>, parts: Seq<Seq<u8>>) -> Seq<u8> {
    head_from(layout, parts, 0, width_from(layout, 0)) + tail_from(layout, parts, 0)
}

/// Where the first variable-size field at or after the `i`-th field starts.
pub open spec fn offset_at(layout: Seq<Option<usize>>, parts: Seq<Seq<u8>>, i: int) -> nat
    decreases i,
{
    if i <= 0 {
        width_from(layout, 0)
    } else {
        match layout[i - 1] {
            Some(_) => offset_at(layout, parts, i - 1),
            None => offset_at(layout, parts, i - 1) + parts[i - 1].len(),
        }
    }
}

/// Where the `i`-th field stands in the fixed part.
pub open spec fn position_at(layout: Seq<Option<usize>>, i: int) -> int {
    width_from(layout, 0) - width_from(layout, i)
}

pub proof fn lemma_width_decreases(layout: Seq<Option<usize>>, i: int)
    requires
        0 <= i <= layout.len(),
    ensures
        width_from(layout, i) <= width_from(layout, 0),
    decreases i,
{
    if i > 0 {
        lemma_width_decreases(layout, i - 1);
    }
}

pub proof fn lemma_head_len(
    layout: Seq<Option<usize>>,
    parts: Seq<Seq<u8>>,
    i: int,
    offset: nat,
)
    requires
        conforms(layout, parts),
        0 <= i <= layout.len(),
    ensures
        head_from(layout, parts, i, offset).len() == width_from(layout, i),
    decreases layout.len() - i,
{
    if i < layout.len() {
        match layout[i] {
            Some(_) => lemma_head_len(layout, parts, i + 1, offset),
            None => {
                lemma_head_len(layout, parts, i + 1, offset + parts[i].len());
                lemma_le_bytes_len(offset, 4);
            },
        }
    }
}

/// The bytes of a container, read from the `i`-th field on.
pub proof fn lemma_read_at(layout: Seq<Option<usize>>, parts: Seq<Seq<u8>>, i: int)
    requires
        conforms(layout, parts),
        0 <= i <= layout.len(),
    ensures
        offset_at(layout, parts, i) <= container(layout, parts).len(),
        width_from(layout, 0) <= offset_at(layout, parts, i),
        0 <= position_at(layout, i) <= width_from(layout, 0),
        head_from(layout, parts, i, offset_at(layout, parts, i)) == container(
            layout,
            parts,
        ).subrange(position_at(layout, i), width_from(layout, 0) as int),
        tail_from(layout, parts, i) == container(layout, parts).subrange(
            offset_at(layout, parts, i) as int,
            container(layout, parts).len() as int,
        ),
    decreases i,
{
    let base = width_from(layout, 0);
    let bytes = container(layout, parts);
    let n = bytes.len() as int;
    lemma_head_len(layout, parts, 0, base);
    if i == 0 {
        assert(head_from(layout, parts, 0, base) =~= bytes.subrange(0, base as int));
        assert(tail_from(layout, parts, 0) =~= bytes.subrange(base as int, n));
    } else {
        let j = i - 1;
        lemma_read_at(layout, parts, j);
        lemma_width_decreases(layout, i);
        let off = offset_at(layout, parts, j);
        let pos = position_at(layout, j);
        let whole = head_from(layout, parts, j, off);
        let rest_tail = tail_from(layout, parts, i);
        let next = offset_at(layout, parts, i);
        let first = match layout[j] {
            Some(_) => parts[j],
            None => le_bytes(off, 4),
        };
        lemma_le_bytes_len(off, 4);
        lemma_head_len(layout, parts, i, next);
        let rest = head_from(layout, parts, i, next);
        assert(whole == first + rest);
        assert(rest =~= whole.subrange(first.len() as int, whole.len() as int));
        assert(rest =~= bytes.subrange(position_at(layout, i), base as int));
        match layout[j] {
            Some(_) => {},
            None => {
                let tail = tail_from(layout, parts, j);
                assert(tail =~= parts[j] + rest_tail);
                assert(tail.len() == n - off);
                assert(rest_tail =~= tail.subrange(parts[j].len() as int, tail.len() as int));
                assert(rest_tail =~= bytes.subrange(next as int, n));
            },
        }
    }
}

/// What the `i`-th field looks like in the bytes of a container.
pub proof fn lemma_field_at(layout: Seq<Option<usize>>, parts: Seq<Seq<u8>>, i: int)
    requires
        conforms(layout, parts),
        0 <= i < layout.len(),
    ensures
        0 <= position_at(layout, i) <= position_at(layout, i + 1) <= container(
            layout,
            parts,
        ).len(),
        layout[i] is Some ==> container(layout, parts).subrange(
            position_at(layout, i),
            position_at(layout, i + 1),
        ) == parts[i],
        layout[i] is None ==> container(layout, parts).subrange(
            position_at(layout, i),
            position_at(layout, i + 1),
        ) == le_bytes(offset_at(layout, parts, i), 4) && offset_at(layout, parts, i) <= offset_at(
            layout,
            parts,
            i + 1,
        ) <= container(layout, parts).len() && container(layout, parts).subrange(
            offset_at(layout, parts, i) as int,
            offset_at(layout, parts, i + 1) as int,
        ) == parts[i],
{
    let bytes = container(layout, parts);
    let base = width_from(layout, 0);
    let off = offset_at(layout, parts, i);
    let next = offset_at(layout, parts, i + 1);
    lemma_head_len(layout, parts, 0, base);
    lemma_read_at(layout, parts, i);
    lemma_read_at(layout, parts, i + 1);
    lemma_le_bytes_len(off, 4);
    let whole = head_from(layout, parts, i, off);
    let first = match layout[i] {
        Some(_) => parts[i],
        None => le_bytes(off, 4),
    };
    assert(whole =~= first + head_from(layout, parts, i + 1, next));
    assert(first =~= whole.subrange(0, first.len() as int));
    assert(bytes.subrange(position_at(layout, i), position_at(layout, i + 1)) =~= first);
    if layout[i] is None {
        let tail = tail_from(layout, parts, i);
        assert(tail =~= parts[i] + tail_from(layout, parts, i + 1));
        assert(parts[i] =~= tail.subrange(0, parts[i].len() as int));
        assert(bytes.subrange(off as int, next as int) =~= parts[i]);
    }
}

/// After the last field the container ends.
pub proof fn lemma_offset_end(layout: Seq<Option<usize>>, parts: Seq<Seq<u8>>)
    requires
        conforms(layout, parts),
    ensures
        offset_at(layout, parts, layout.len() as int) == container(layout, parts).len(),
        width_from(layout, 0) <= container(layout, parts).len(),
{
    let n = layout.len() as int;
    lemma_read_at(layout, parts, n);
    assert(tail_from(layout, parts, n) =~= Seq::<u8>::empty());
    lemma_head_len(layout, parts, 0, width_from(layout, 0));
}

/// Containers of one layout with the same bytes have the same fields.
pub proof fn lemma_container_injective(
    layout: Seq<Option<usize>>,
    a: Seq<Seq<u8>>,
    b: Seq<Seq<u8>>,
)
    requires
        conforms(layout, a),
        conforms(layout, b),
        container(layout, a) == container(layout, b),
        container(layout, a).len() <= MAX_ENCODING,
    ensures
        a == b,
{
    lemma_same_from(layout, a, b, 0);
    assert(a =~= b);
}

proof fn lemma_same_from(
    layout: Seq<Option<usize>>,
    a: Seq<Seq<u8>>,
    b: Seq<Seq<u8>>,
    i: int,
)
    requires
        conforms(layout, a),
        conforms(layout, b),
        container(layout, a) == container(layout, b),
        container(layout, a).len() <= MAX_ENCODING,
        0 <= i <= layout.len(),
    ensures
        offset_at(layout, a, i) == offset_at(layout, b, i),
        forall|j: int| i <= j < layout.len() ==> a[j] == b[j],
    decreases layout.len() - i,
{
    if i == layout.len() {
        lemma_offset_end(layout, a);
        lemma_offset_end(layout, b);
    } else {
        lemma_same_from(layout, a, b, i + 1);
        lemma_field_at(layout, a, i);
        lemma_field_at(layout, b, i);
        if layout[i] is None {
            lemma_pow256_values();
            lemma_le_value_of_bytes(offset_at(layout, a, i), 4);
            lemma_le_value_of_bytes(offset_at(layout, b, i), 4);
        }
    }
}

/// The fields from the `i`-th on decide the rest of the encoding.
proof fn lemma_agree_from(
    layout: Seq<Option<usize>>,
    a: Seq<Seq<u8>>,
    b: Seq<Seq<u8>>,
    i: int,
    offset: nat,
)
    requires
        a.len() == layout.len(),
        b.len() == layout.len(),
        0 <= i <= layout.len(),
        forall|j: int| i <= j < layout.len() ==> a[j] == b[j],
    ensures
        head_from(layout, a, i, offset) == head_from(layout, b, i, offset),
        tail_from(layout, a, i) == tail_from(layout, b, i),
    decreases layout.len() - i,
{
    if i < layout.len() {
        match layout[i] {
            Some(_) => lemma_agree_from(layout, a, b, i + 1, offset),
            None => lemma_agree_from(layout, a, b, i + 1, offset + a[i].len()),
        }
    }
}

/// The offset that stands in the fixed part for the `i`-th field.
pub open spec fn read_offset(layout: Seq<Option<usize>>, bytes: Seq<u8>, i: int) -> nat {
    le_value(bytes.subrange(position_at(layout, i), position_at(layout, i) + 4))
}

/// Where the fields from the `i`-th on start behind the fixed part.
pub open spec fn next_offset(layout: Seq<Option<usize>>, bytes: Seq<u8>, i: int) -> nat
    decreases layout.len() - i,
{
    if i < 0 || i >= layout.len() {
        bytes.len()
    } else {
        match layout[i] {
            Some(_) => next_offset(layout, bytes, i + 1),
            None => read_offset(layout, bytes, i),
        }
    }
}

/// What is wrong with the fixed part from the `i`-th field on, when `first` is the first
/// offset before it and `last` the last one. The fields are looked at in turn, and the first
/// offset last.
pub open spec fn layout_fault(
    layout: Seq<Option<usize>>,
    bytes: Seq<u8>,
    i: int,
    first: Option<usize>,
    last: Option<usize>,
) -> Option<DecodeError>
    decreases layout.len() - i,
{
    let at = position_at(layout, i);
    if i < 0 || i >= layout.len() {
        match first {
            Some(f) => if f < at {
                Some(DecodeError::OffsetIntoFixedPortion(f))
            } else if f > at {
                Some(DecodeError::OffsetSkipsVariableBytes(f))
            } else {
                None
            },
            None => if at != bytes.len() {
                Some(
                    DecodeError::InvalidByteLength {
                        len: bytes.len() as usize,
                        expected: at as usize,
                    },
                )
            } else {
                None
            },
        }
    } else {
        match layout[i] {
            Some(w) => if at + w > bytes.len() {
                Some(
                    DecodeError::InvalidByteLength {
                        len: bytes.len() as usize,
                        expected: (at + w) as usize,
                    },
                )
            } else {
                layout_fault(layout, bytes, i + 1, first, last)
            },
            None => {
                let offset = read_offset(layout, bytes, i) as usize;
                if at + 4 > bytes.len() {
                    Some(
                        DecodeError::InvalidLengthPrefix {
                            len: (bytes.len() - at) as usize,
                            expected: 4,
                        },
                    )
                } else if offset > bytes.len() {
                    Some(DecodeError::OffsetOutOfBounds(offset))
                } else if last matches Some(l) && l > offset {
                    Some(DecodeError::OffsetsAreDecreasing(offset))
                } else {
                    layout_fault(
                        layout,
                        bytes,
                        i + 1,
                        if first is Some {
                            first
                        } else {
                            Some(offset)
                        },
                        Some(offset),
                    )
                }
            },
        }
    }
}

/// Why bytes are no container of a layout.
pub open spec fn split_fault(layout: Seq<Option<usize>>, bytes: Seq<u8>) -> DecodeError {
    if bytes.len() > MAX_ENCODING {
        DecodeError::TooLong { len: bytes.len() as usize }
    } else {
        layout_fault(layout, bytes, 0, None, None)->0
    }
}

proof fn lemma_position_step(layout: Seq<Option<usize>>, i: int)
    requires
        0 <= i < layout.len(),
    ensures
        position_at(layout, i + 1) == position_at(layout, i) + width(layout[i]),
        0 <= position_at(layout, i),
        position_at(layout, layout.len() as int) == width_from(layout, 0),
{
    lemma_width_decreases(layout, i);
}

/// What holds of the offsets where nothing is wrong with the fixed part.
proof fn lemma_offsets(
    layout: Seq<Option<usize>>,
    bytes: Seq<u8>,
    i: int,
    first: Option<usize>,
    last: Option<usize>,
)
    requires
        0 <= i <= layout.len(),
        bytes.len() <= MAX_ENCODING,
        position_at(layout, i) <= bytes.len(),
        layout_fault(layout, bytes, i, first, last) is None,
        first is Some <==> last is Some,
        last matches Some(l) ==> l <= bytes.len(),
    ensures
        width_from(layout, 0) <= bytes.len(),
        next_offset(layout, bytes, i) <= bytes.len(),
        last matches Some(l) ==> l <= next_offset(layout, bytes, i),
        first matches Some(f) ==> f == width_from(layout, 0),
        first is None ==> next_offset(layout, bytes, i) == width_from(layout, 0),
        forall|k: int|
            i <= k < layout.len() && (#[trigger] layout[k]) is None ==> read_offset(
                layout,
                bytes,
                k,
            ) <= next_offset(layout, bytes, k + 1),
    decreases layout.len() - i,
{
    if i == layout.len() {
    } else {
        lemma_position_step(layout, i);
        match layout[i] {
            Some(_) => lemma_offsets(layout, bytes, i + 1, first, last),
            None => {
                lemma_le_bytes_of_value(
                    bytes.subrange(position_at(layout, i), position_at(layout, i) + 4),
                );
                lemma_pow256_values();
                let offset = read_offset(layout, bytes, i) as usize;
                lemma_offsets(
                    layout,
                    bytes,
                    i + 1,
                    if first is Some {
                        first
                    } else {
                        Some(offset)
                    },
                    Some(offset),
                );
            },
        }
    }
}

/// The parts of a container: fixed-size fields where they stand, the others from their
/// offset to the next one.
pub open spec fn cut(layout: Seq<Option<usize>>, bytes: Seq<u8>) -> Seq<Seq<u8>> {
    Seq::new(
        layout.len(),
        |i: int|
            match layout[i] {
                Some(w) => bytes.subrange(position_at(layout, i), position_at(layout, i) + w),
                None => bytes.subrange(
                    read_offset(layout, bytes, i) as int,
                    next_offset(layout, bytes, i + 1) as int,
                ),
            },
    )
}

#[verifier::spinoff_prover]
#[verifier::rlimit(40)]
proof fn lemma_cut_from(layout: Seq<Option<usize>>, bytes: Seq<u8>, i: int)
    requires
        0 <= i <= layout.len(),
        bytes.len() <= MAX_ENCODING,
        width_from(layout, 0) <= bytes.len(),
        forall|k: int|
            0 <= k < layout.len() && (#[trigger] layout[k]) is None ==> read_offset(
                layout,
                bytes,
                k,
            ) <= next_offset(layout, bytes, k + 1),
    ensures
        next_offset(layout, bytes, i) <= bytes.len(),
        head_from(layout, cut(layout, bytes), i, next_offset(layout, bytes, i)) == bytes.subrange(
            position_at(layout, i),
            width_from(layout, 0) as int,
        ),
        tail_from(layout, cut(layout, bytes), i) == bytes.subrange(
            next_offset(layout, bytes, i) as int,
            bytes.len() as int,
        ),
    decreases layout.len() - i,
{
    let parts = cut(layout, bytes);
    let base = width_from(layout, 0) as int;
    let len = bytes.len() as int;
    let off = next_offset(layout, bytes, i);
    if i == layout.len() {
        assert(bytes.subrange(base, base) =~= Seq::<u8>::empty());
        assert(bytes.subrange(len, len) =~= Seq::<u8>::empty());
    } else {
        lemma_position_step(layout, i);
        lemma_width_decreases(layout, i + 1);
        lemma_cut_from(layout, bytes, i + 1);
        let at = position_at(layout, i);
        let next = position_at(layout, i + 1);
        match layout[i] {
            Some(w) => {
                assert(parts[i] == bytes.subrange(at, at + w));
                assert(next == at + w);
                assert(bytes.subrange(at, base) =~= parts[i] + bytes.subrange(next, base));
            },
            None => {
                let field = bytes.subrange(at, at + 4);
                lemma_le_bytes_of_value(field);
                assert(le_bytes(off, 4) == field);
                let end = next_offset(layout, bytes, i + 1);
                assert(parts[i] == bytes.subrange(off as int, end as int));
                assert(off + parts[i].len() == end);
                assert(next == at + 4);
                assert(bytes.subrange(at, base) =~= field + bytes.subrange(next, base));
                assert(bytes.subrange(off as int, len) =~= parts[i] + bytes.subrange(
                    end as int,
                    len,
                ));
            },
        }
    }
}

/// Where nothing is wrong with the fixed part, the parts make up the container.
pub proof fn lemma_cut(layout: Seq<Option<usize>>, bytes: Seq<u8>)
    requires
        bytes.len() <= MAX_ENCODING,
        layout_fault(layout, bytes, 0, None, None) is None,
    ensures
        conforms(layout, cut(layout, bytes)),
        container(layout, cut(layout, bytes)) == bytes,
{
    lemma_offsets(layout, bytes, 0, None, None);
    lemma_cut_from(layout, bytes, 0);
    let parts = cut(layout, bytes);
    let base = width_from(layout, 0) as int;
    assert forall|i: int|
        0 <= i < layout.len() && (#[trigger] layout[i]) is Some implies parts[i].len()
        == layout[i]->0 by {
        lemma_position_step(layout, i);
        lemma_width_decreases(layout, i + 1);
    }
    assert(bytes.subrange(0, base) + bytes.subrange(base, bytes.len() as int) =~= bytes);
}

/// What is wrong with the fixed part.
fn find_layout_fault(layout: &Vec<Option<usize>>, bytes: &[u8]) -> (r: Option<DecodeError>)
    requires
        bytes@.len() <= MAX_ENCODING,
        width_from(layout@, 0) <= MAX_ENCODING,
    ensures
        r == layout_fault(layout@, bytes@, 0, None, None),
{
    let len: usize = bytes.len();
    let mut i: usize = 0;
    let mut at: usize = 0;
    let mut first: Option<usize> = None;
    let mut last: Option<usize> = None;
    while i < layout.len()
        invariant
            0 <= i <= layout@.len(),
            len == bytes@.len() <= MAX_ENCODING,
            width_from(layout@, 0) <= MAX_ENCODING,
            at == position_at(layout@, i as int),
            at <= len,
            layout_fault(layout@, bytes@, 0, None, None) == layout_fault(
                layout@,
                bytes@,
                i as int,
                first,
                last,
            ),
        decreases layout@.len() - i,
    {
        proof {
            lemma_position_step(layout@, i as int);
        }
        match layout[i] {
            Some(w) => {
                proof {
                    lemma_width_decreases(layout@, i + 1);
                }
                if w > len - at {
                    return Some(DecodeError::InvalidByteLength { len, expected: at + w });
                }
                at = at + w;
            },
            None => {
                if len - at < 4 {
                    return Some(DecodeError::InvalidLengthPrefix { len: len - at, expected: 4 });
                }
                let field = slice_subrange(bytes, at, at + 4);
                let offset: usize = from_le(field) as usize;
                proof {
                    lemma_le_bytes_of_value(field@);
                    lemma_pow256_values();
                }
                if offset > len {
                    return Some(DecodeError::OffsetOutOfBounds(offset));
                }
                if let Some(l) = last {
                    if l > offset {
                        return Some(DecodeError::OffsetsAreDecreasing(offset));
                    }
                }
                if first.is_none() {
                    first = Some(offset);
                }
                last = Some(offset);
                at = at + 4;
            },
        }
        i = i + 1;
    }
    match first {
        Some(f) => if f < at {
            Some(DecodeError::OffsetIntoFixedPortion(f))
        } else if f > at {
            Some(DecodeError::OffsetSkipsVariableBytes(f))
        } else {
            None
        },
        None => if at != len {
            Some(DecodeError::InvalidByteLength { len, expected: at })
        } else {
            None
        },
    }
}

/// The byte strings that a vector of vectors or slices holds.
pub open spec fn views(parts: Seq<Vec<u8>>) -> Seq<Seq<u8>> {
    parts.map_values(|p: Vec<u8>| p@)
}

/// The byte strings that a sequence of slices holds.
pub open spec fn slice_views(parts: Seq<&[u8]>) -> Seq<Seq<u8>> {
    parts.map_values(|p: &[u8]| p@)
}

/// Bytes that the fixed part takes.
fn fixed_width(layout: &Vec<Option<usize>>, limit: usize) -> (r: Option<usize>)
    requires
        limit <= MAX_ENCODING,
    ensures
        match r {
            Some(w) => w == width_from(layout@, 0) && w <= limit,
            None => width_from(layout@, 0) > limit,
        },
{
    let mut total: usize = 0;
    let mut i: usize = layout.len();
    while i > 0
        invariant
            0 <= i <= layout@.len(),
            total == width_from(layout@, i as int),
            total <= limit <= MAX_ENCODING,
        decreases i,
    {
        i = i - 1;
        let w: usize = match layout[i] {
            Some(n) => n,
            None => 4,
        };
        if w > limit - total {
            proof {
                lemma_width_decreases(layout@, i as int);
            }
            return None;
        }
        total = total + w;
    }
    Some(total)
}

/// Joins encoded fields into a container.
pub fn join(layout: &Vec<Option<usize>>, parts: &Vec<Vec<u8>>) -> (r: Vec<u8>)
    requires
        conforms(layout@, views(parts@)),
        container(layout@, views(parts@)).len() <= MAX_ENCODING,
    ensures
        r@ == container(layout@, views(parts@)),
{
    let ghost ps = views(parts@);
    proof {
        lemma_offset_end(layout@, ps);
    }
    let base: usize = match fixed_width(layout, MAX_ENCODING) {
        Some(w) => w,
        None => 0,
    };
    let mut head: Vec<u8> = Vec::new();
    let mut tail: Vec<u8> = Vec::new();
    let mut i: usize = 0;
    proof {
        assert(head@ + head_from(layout@, ps, 0, base as nat) =~= head_from(
            layout@,
            ps,
            0,
            base as nat,
        ));
        assert(tail@ + tail_from(layout@, ps, 0) =~= tail_from(layout@, ps, 0));
    }
    while i < layout.len()
        invariant
            0 <= i <= layout@.len(),
            ps == views(parts@),
            conforms(layout@, ps),
            container(layout@, ps).len() <= MAX_ENCODING,
            base == width_from(layout@, 0),
            base <= MAX_ENCODING,
            base + tail@.len() == offset_at(layout@, ps, i as int),
            head_from(layout@, ps, 0, base as nat) == head@ + head_from(
                layout@,
                ps,
                i as int,
                (base + tail@.len()) as nat,
            ),
            tail_from(layout@, ps, 0) == tail@ + tail_from(layout@, ps, i as int),
        decreases layout@.len() - i,
    {
        let ghost old_head = head@;
        let ghost old_tail = tail@;
        proof {
            lemma_read_at(layout@, ps, i as int);
            lemma_read_at(layout@, ps, i + 1);
            assert(ps[i as int] == parts@[i as int]@);
        }
        match layout[i] {
            Some(_) => {
                head.extend_from_slice(parts[i].as_slice());
                proof {
                    assert(old_head + head_from(
                        layout@,
                        ps,
                        i as int,
                        (base + tail@.len()) as nat,
                    ) =~= head@ + head_from(
                        layout@,
                        ps,
                        i + 1,
                        (base + tail@.len()) as nat,
                    ));
                }
            },
            None => {
                let offset: usize = base + tail.len();
                let mut digits: Vec<u8> = to_le(offset as u64, 4);
                head.append(&mut digits);
                tail.extend_from_slice(parts[i].as_slice());
                proof {
                    assert(old_head + head_from(layout@, ps, i as int, offset as nat) =~= head@
                        + head_from(layout@, ps, i + 1, (base + tail@.len()) as nat));
                    assert(old_tail + tail_from(layout@, ps, i as int) =~= tail@ + tail_from(
                        layout@,
                        ps,
                        i + 1,
                    ));
                }
            },
        }
        i = i + 1;
    }
    proof {
        assert(head@ + head_from(
            layout@,
            ps,
            i as int,
            (base + tail@.len()) as nat,
        ) =~= head@);
        assert(tail@ + tail_from(layout@, ps, i as int) =~= tail@);
    }
    head.append(&mut tail);
    head
}

/// The parts of a container, if the bytes are one.
fn cut_up<'a>(layout: &Vec<Option<usize>>, bytes: &'a [u8]) -> (r: Option<Vec<&'a [u8]>>)
    ensures
        match r {
            Some(parts) => conforms(layout@, slice_views(parts@)) && bytes@.len() <= MAX_ENCODING
                && container(layout@, slice_views(parts@)) == bytes@,
            None => bytes@.len() > MAX_ENCODING || forall|ps: Seq<Seq<u8>>|
                conforms(layout@, ps) ==> #[trigger] container(layout@, ps) != bytes@,
        },
{
    if bytes.len() > MAX_ENCODING {
        return None;
    }
    let base: usize = match fixed_width(layout, bytes.len()) {
        Some(w) => w,
        None => {
            proof {
                assert forall|ps: Seq<Seq<u8>>| conforms(layout@, ps) implies #[trigger] container(
                    layout@,
                    ps,
                ) != bytes@ by {
                    lemma_offset_end(layout@, ps);
                }
            }
            return None;
        },
    };
    let n: usize = layout.len();
    let mut out: Vec<&'a [u8]> = Vec::new();
    let mut k: usize = 0;
    while k < n
        invariant
            0 <= k <= n,
            out@.len() == k,
        decreases n - k,
    {
        out.push(slice_subrange(bytes, 0, 0));
        k = k + 1;
    }
    let mut i: usize = n;
    let mut pos: usize = base;
    let mut end: usize = bytes.len();
    let ghost mut ps = slice_views(out@);
    proof {
        assert(tail_from(layout@, ps, n as int) =~= bytes@.subrange(end as int, end as int));
        assert(head_from(layout@, ps, n as int, end as nat) =~= bytes@.subrange(
            pos as int,
            base as int,
        ));
        assert forall|qs: Seq<Seq<u8>>|
            conforms(layout@, qs) && #[trigger] container(layout@, qs) == bytes@ implies offset_at(
            layout@,
            qs,
            i as int,
        ) == end by {
            lemma_offset_end(layout@, qs);
        }
    }
    while i > 0
        invariant
            0 <= i <= n,
            n == layout@.len() == out@.len(),
            ps == slice_views(out@),
            pos == position_at(layout@, i as int),
            base == width_from(layout@, 0),
            base <= bytes@.len() <= MAX_ENCODING,
            pos <= base,
            end <= bytes@.len(),
            head_from(layout@, ps, i as int, end as nat) == bytes@.subrange(
                pos as int,
                base as int,
            ),
            tail_from(layout@, ps, i as int) == bytes@.subrange(end as int, bytes@.len() as int),
            forall|j: int|
                i <= j < n && (#[trigger] layout@[j]) is Some ==> ps[j].len() == layout@[j]->0,
            forall|qs: Seq<Seq<u8>>|
                conforms(layout@, qs) && #[trigger] container(layout@, qs) == bytes@ ==> offset_at(
                    layout@,
                    qs,
                    i as int,
                ) == end,
        decreases i,
    {
        let ghost before = ps;
        let ghost old_end = end;
        let ghost old_pos = pos;
        i = i - 1;
        proof {
            lemma_width_decreases(layout@, i as int);
        }
        match layout[i] {
            Some(w) => {
                pos = pos - w;
                out[i] = slice_subrange(bytes, pos, pos + w);
                proof {
                    ps = slice_views(out@);
                    assert(ps[i as int] == bytes@.subrange(pos as int, old_pos as int));
                    assert(ps =~= before.update(i as int, ps[i as int]));
                    lemma_agree_from(layout@, before, ps, i + 1, end as nat);
                    assert(head_from(layout@, ps, i as int, end as nat) =~= bytes@.subrange(
                        pos as int,
                        base as int,
                    ));
                    assert forall|qs: Seq<Seq<u8>>|
                        conforms(layout@, qs) && #[trigger] container(layout@, qs)
                            == bytes@ implies offset_at(layout@, qs, i as int) == end by {
                        assert(offset_at(layout@, qs, i + 1) == end);
                    }
                }
            },
            None => {
                pos = pos - 4;
                let field = slice_subrange(bytes, pos, pos + 4);
                let start64: u64 = from_le(field);
                proof {
                    assert forall|qs: Seq<Seq<u8>>|
                        conforms(layout@, qs) && #[trigger] container(layout@, qs)
                            == bytes@ implies offset_at(layout@, qs, i as int) == start64
                        && start64 <= end by {
                        assert(offset_at(layout@, qs, i + 1) == end);
                        lemma_field_at(layout@, qs, i as int);
                        lemma_pow256_values();
                        lemma_le_value_of_bytes(offset_at(layout@, qs, i as int), 4);
                    }
                }
                if start64 > end as u64 {
                    return None;
                }
                let start: usize = start64 as usize;
                out[i] = slice_subrange(bytes, start, end);
                end = start;
                proof {
                    ps = slice_views(out@);
                    assert(ps[i as int] == bytes@.subrange(start as int, old_end as int));
                    assert(ps =~= before.update(i as int, ps[i as int]));
                    lemma_agree_from(layout@, before, ps, i + 1, old_end as nat);
                    lemma_le_bytes_of_value(field@);
                    assert(head_from(layout@, ps, i as int, end as nat) =~= bytes@.subrange(
                        pos as int,
                        base as int,
                    ));
                    assert(tail_from(layout@, ps, i as int) =~= bytes@.subrange(
                        end as int,
                        bytes@.len() as int,
                    ));
                }
            },
        }
    }
    if end != base {
        return None;
    }
    proof {
        assert(container(layout@, ps) =~= bytes@);
    }
    Some(out)
}

/// Splits a container into the parts of its fields; fails on bytes that are no container of
/// the layout.
pub fn split<'a>(layout: &Vec<Option<usize>>, bytes: &'a [u8]) -> (r: Result<
    Vec<&'a [u8]>,
    DecodeError,
>)
    requires
        width_from(layout@, 0) <= MAX_ENCODING,
    ensures
        match r {
            Ok(parts) => conforms(layout@, slice_views(parts@)) && bytes@.len() <= MAX_ENCODING
                && container(layout@, slice_views(parts@)) == bytes@,
            Err(e) => e == split_fault(layout@, bytes@) && (bytes@.len() > MAX_ENCODING || forall|
                ps: Seq<Seq<u8>>,
            |
                conforms(layout@, ps) ==> #[trigger] container(layout@, ps) != bytes@),
        },
{
    match cut_up(layout, bytes) {
        Some(parts) => Ok(parts),
        None => {
            if bytes.len() > MAX_ENCODING {
                return Err(DecodeError::TooLong { len: bytes.len() });
            }
            proof {
                if layout_fault(layout@, bytes@, 0, None, None) is None {
                    lemma_cut(layout@, bytes@);
                }
            }
            Err(find_layout_fault(layout, bytes).unwrap())
        },
    }
}

} // verus!
