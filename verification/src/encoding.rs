//! Simple serialize (SSZ): the byte encoding of chain objects.
//!
//! A type says by [`Ssz`] which bytes stand for each of its values. A type with
//! named fields says by [`SszContainer`] how its fields are encoded, and gets
//! [`Ssz`] from that.

use crate::primitives::{
    from_le, le_bytes, lemma_le_bytes_len, lemma_le_bytes_of_value, lemma_le_value_of_bytes,
    lemma_pow256_values, to_le, H256,
};
use crate::encoding::container::{
    conforms, container, join, lemma_container_injective, lemma_head_len, slice_views, split,
    split_fault, tail_from, views, width_from, MAX_ENCODING,
};
use vstd::prelude::*;

pub mod bits;
pub mod container;
pub mod error;
pub mod list;

pub use crate::encoding::error::DecodeError;

verus! {

/// A type with an SSZ encoding.
pub trait Ssz: View + Sized {
    /// The size of every encoding, where all have one size.
    spec fn size() -> Option<usize>;

    /// The values that can be encoded.
    spec fn valid(v: Self::V) -> bool;

    /// The encoding of a value.
    spec fn enc(v: Self::V) -> Seq<u8>;

    /// Why bytes that are no value's encoding cannot be decoded.
    spec fn fault(bytes: Seq<u8>) -> DecodeError;

    /// Different values have different encodings.
    proof fn enc_injective(a: Self::V, b: Self::V)
        requires
            Self::valid(a),
            Self::valid(b),
            Self::enc(a) == Self::enc(b),
        ensures
            a == b,
    ;

    /// Every encoding fits four-byte offsets, and has the type's size where there is one.
    proof fn enc_size(v: Self::V)
        requires
            Self::valid(v),
        ensures
            Self::enc(v).len() <= MAX_ENCODING,
            Self::size() is Some ==> Self::enc(v).len() == Self::size()->0 && Self::size()->0 > 0,
    ;

    fn ssz_size() -> (r: Option<usize>)
        ensures
            r == Self::size(),
            r is Some ==> 0 < r->0 <= MAX_ENCODING,
    ;

    /// Encodes a value.
    fn as_ssz_bytes(&self) -> (r: Vec<u8>)
        requires
            Self::valid(self@),
        ensures
            r@ == Self::enc(self@),
    ;

    /// Decodes a value; fails on bytes that are no value's encoding.
    fn from_ssz_bytes(bytes: &[u8]) -> (r: Result<Self, DecodeError>)
        ensures
            match r {
                Ok(x) => Self::valid(x@) && Self::enc(x@) == bytes@,
                Err(e) => e == Self::fault(bytes@) && forall|v: Self::V|
                    Self::valid(v) ==> #[trigger] Self::enc(v) != bytes@,
            },
    ;
}

/// Whether `bytes` encode `v`.
pub open spec fn decodes_to<T: Ssz>(bytes: Seq<u8>, v: T::V) -> bool {
    T::valid(v) && T::enc(v) == bytes
}

/// The value that `bytes` encode, if any.
pub open spec fn decoded<T: Ssz>(bytes: Seq<u8>) -> Option<T::V> {
    if exists|v: T::V| decodes_to::<T>(bytes, v) {
        Some(choose|v: T::V| decodes_to::<T>(bytes, v))
    } else {
        None
    }
}

/// Why bytes cannot be decoded, if they cannot.
#[verifier::opaque]
pub open spec fn fault_of<T: Ssz>(bytes: Seq<u8>) -> Option<DecodeError> {
    if decoded::<T>(bytes) is Some {
        None
    } else {
        Some(T::fault(bytes))
    }
}

/// Decoding is the inverse of encoding: bytes decode to `v` exactly if they are the
/// encoding of `v`.
pub proof fn decode_inverts_encode<T: Ssz>(bytes: Seq<u8>, v: T::V)
    ensures
        decodes_to::<T>(bytes, v) <==> decoded::<T>(bytes) == Some(v),
{
    if decodes_to::<T>(bytes, v) {
        let w = choose|w: T::V| decodes_to::<T>(bytes, w);
        T::enc_injective(v, w);
    }
}

/// Decodes a field.
pub fn decode_field<T: Ssz>(part: &[u8]) -> (r: Result<T, DecodeError>)
    ensures
        match r {
            Ok(x) => T::valid(x@) && T::enc(x@) == part@ && fault_of::<T>(part@) is None,
            Err(e) => fault_of::<T>(part@) == Some(e) && forall|v: T::V|
                T::valid(v) ==> #[trigger] T::enc(v) != part@,
        },
{
    proof {
        reveal(fault_of);
    }
    match T::from_ssz_bytes(part) {
        Ok(x) => {
            proof {
                decode_inverts_encode::<T>(part@, x@);
            }
            Ok(x)
        },
        Err(e) => {
            proof {
                assert forall|v: T::V| !decodes_to::<T>(part@, v) by {
                    if T::valid(v) {
                        assert(T::enc(v) != part@);
                    }
                }
            }
            Err(e)
        },
    }
}

/// What is read from the encoding of a value is that value.
pub proof fn read_gives_back_written<T: Ssz>(v: T::V)
    requires
        T::valid(v),
    ensures
        decoded::<T>(T::enc(v)) == Some(v),
{
    decode_inverts_encode::<T>(T::enc(v), v);
}

/// A type that is encoded field by field.
pub trait SszContainer: View + Sized {
    /// The size of every encoding, where all fields have one.
    spec fn fixed() -> Option<usize>;

    /// The size of each field's encoding, where it has one.
    spec fn layout() -> Seq<Option<usize>>;

    /// The encoding of each field.
    spec fn parts(v: Self::V) -> Seq<Seq<u8>>;

    /// The values whose fields can be encoded.
    spec fn limits(v: Self::V) -> bool;

    /// Why a part cannot be decoded as the `i`-th field, if it cannot.
    spec fn part_fault(i: int, part: Seq<u8>) -> Option<DecodeError>;

    proof fn layout_fits()
        ensures
            width_from(Self::layout(), 0) <= MAX_ENCODING,
            Self::fixed() is Some ==> Self::fixed()->0 > 0 && Self::fixed()->0 == width_from(
                Self::layout(),
                0,
            ) && forall|i: int|
                0 <= i < Self::layout().len() ==> (#[trigger] Self::layout()[i]) is Some,
    ;

    proof fn parts_conform(v: Self::V)
        requires
            Self::limits(v),
        ensures
            conforms(Self::layout(), Self::parts(v)),
    ;

    proof fn parts_injective(a: Self::V, b: Self::V)
        requires
            Self::limits(a),
            Self::limits(b),
            Self::parts(a) == Self::parts(b),
        ensures
            a == b,
    ;

    fn fixed_size() -> (r: Option<usize>)
        ensures
            r == Self::fixed(),
    ;

    fn field_layout() -> (r: Vec<Option<usize>>)
        ensures
            r@ == Self::layout(),
    ;

    fn encode_parts(&self) -> (r: Vec<Vec<u8>>)
        requires
            Self::limits(self@),
        ensures
            views(r@) == Self::parts(self@),
    ;

    fn decode_parts(parts: &Vec<&[u8]>) -> (r: Result<Self, DecodeError>)
        requires
            conforms(Self::layout(), slice_views(parts@)),
        ensures
            match r {
                Ok(x) => Self::limits(x@) && Self::parts(x@) == slice_views(parts@),
                Err(e) => (forall|v: Self::V|
                    Self::limits(v) ==> #[trigger] Self::parts(v) != slice_views(parts@))
                    && exists|i: int|
                    0 <= i < parts@.len() && #[trigger] Self::part_fault(i, slice_views(parts@)[i])
                        == Some(e) && forall|j: int|
                        0 <= j < i ==> #[trigger] Self::part_fault(j, slice_views(parts@)[j]) is None,
            },
    ;
}

/// Why the parts from the `i`-th on cannot be decoded as fields, if one cannot.
pub open spec fn first_fault<T: SszContainer>(parts: Seq<Seq<u8>>, i: int) -> Option<DecodeError>
    decreases parts.len() - i,
{
    if i < 0 || i >= parts.len() {
        None
    } else if T::part_fault(i, parts[i]) is Some {
        T::part_fault(i, parts[i])
    } else {
        first_fault::<T>(parts, i + 1)
    }
}

proof fn lemma_first_fault<T: SszContainer>(parts: Seq<Seq<u8>>, k: int, i: int)
    requires
        0 <= k <= i < parts.len(),
        T::part_fault(i, parts[i]) is Some,
        forall|j: int| 0 <= j < i ==> #[trigger] T::part_fault(j, parts[j]) is None,
    ensures
        first_fault::<T>(parts, k) == T::part_fault(i, parts[i]),
    decreases i - k,
{
    if k < i {
        lemma_first_fault::<T>(parts, k + 1, i);
    }
}

/// Whether parts make up a container.
pub open spec fn is_split(
    layout: Seq<Option<usize>>,
    bytes: Seq<u8>,
    parts: Seq<Seq<u8>>,
) -> bool {
    bytes.len() <= MAX_ENCODING && conforms(layout, parts) && container(layout, parts) == bytes
}

/// Why bytes cannot be decoded as a container: what is wrong with its layout, and otherwise
/// what is wrong with the first field that cannot be decoded.
#[verifier::opaque]
pub open spec fn container_fault<T: SszContainer>(bytes: Seq<u8>) -> DecodeError {
    if exists|parts: Seq<Seq<u8>>| is_split(T::layout(), bytes, parts) {
        first_fault::<T>(
            choose|parts: Seq<Seq<u8>>| is_split(T::layout(), bytes, parts),
            0,
        )->0
    } else {
        match T::fixed() {
            Some(n) => DecodeError::InvalidByteLength { len: bytes.len() as usize, expected: n },
            None => split_fault(T::layout(), bytes),
        }
    }
}

impl<T: SszContainer> Ssz for T {
    open spec fn size() -> Option<usize> {
        Self::fixed()
    }

    open spec fn valid(v: Self::V) -> bool {
        Self::limits(v) && container(Self::layout(), Self::parts(v)).len() <= MAX_ENCODING
    }

    open spec fn enc(v: Self::V) -> Seq<u8> {
        container(Self::layout(), Self::parts(v))
    }

    open spec fn fault(bytes: Seq<u8>) -> DecodeError {
        container_fault::<T>(bytes)
    }

    proof fn enc_injective(a: Self::V, b: Self::V) {
        Self::parts_conform(a);
        Self::parts_conform(b);
        lemma_container_injective(Self::layout(), Self::parts(a), Self::parts(b));
        Self::parts_injective(a, b);
    }

    proof fn enc_size(v: Self::V) {
        Self::layout_fits();
        Self::parts_conform(v);
        if Self::fixed() is Some {
            lemma_fixed_len(Self::layout(), Self::parts(v), 0);
            lemma_head_len(
                Self::layout(),
                Self::parts(v),
                0,
                width_from(Self::layout(), 0),
            );
        }
    }

    fn ssz_size() -> (r: Option<usize>) {
        proof {
            Self::layout_fits();
        }
        Self::fixed_size()
    }

    fn as_ssz_bytes(&self) -> (r: Vec<u8>) {
        proof {
            Self::parts_conform(self@);
        }
        let layout = Self::field_layout();
        let parts = self.encode_parts();
        join(&layout, &parts)
    }

    fn from_ssz_bytes(bytes: &[u8]) -> (r: Result<Self, DecodeError>) {
        let layout = Self::field_layout();
        proof {
            reveal(container_fault);
            Self::layout_fits();
        }
        match split(&layout, bytes) {
            Ok(parts) => {
                let ghost ps = slice_views(parts@);
                match Self::decode_parts(&parts) {
                    Ok(x) => Ok(x),
                    Err(e) => {
                        proof {
                            assert forall|v: Self::V| Self::valid(v) implies #[trigger] Self::enc(
                                v,
                            ) != bytes@ by {
                                if Self::enc(v) == bytes@ {
                                    Self::parts_conform(v);
                                    lemma_container_injective(
                                        Self::layout(),
                                        Self::parts(v),
                                        ps,
                                    );
                                }
                            }
                            assert(is_split(Self::layout(), bytes@, ps));
                            let chosen = choose|parts: Seq<Seq<u8>>|
                                is_split(Self::layout(), bytes@, parts);
                            lemma_container_injective(Self::layout(), chosen, ps);
                            let i = choose|i: int|
                                0 <= i < ps.len() && #[trigger] Self::part_fault(i, ps[i]) == Some(e)
                                    && forall|j: int|
                                    0 <= j < i ==> #[trigger] Self::part_fault(j, ps[j]) is None;
                            lemma_first_fault::<T>(ps, 0, i);
                        }
                        Err(e)
                    },
                }
            },
            Err(e) => {
                proof {
                    assert forall|v: Self::V| Self::valid(v) implies #[trigger] Self::enc(v)
                        != bytes@ by {
                        Self::parts_conform(v);
                        assert(container(Self::layout(), Self::parts(v)) != bytes@
                            || bytes@.len() > MAX_ENCODING);
                    }
                    assert(!exists|parts: Seq<Seq<u8>>| is_split(Self::layout(), bytes@, parts));
                }
                match Self::fixed_size() {
                    Some(n) => Err(
                        DecodeError::InvalidByteLength { len: bytes.len(), expected: n },
                    ),
                    None => Err(e),
                }
            },
        }
    }
}

/// Without variable-size fields nothing follows the fixed part.
pub proof fn lemma_fixed_len(layout: Seq<Option<usize>>, parts: Seq<Seq<u8>>, i: int)
    requires
        0 <= i <= layout.len(),
        forall|j: int| 0 <= j < layout.len() ==> (#[trigger] layout[j]) is Some,
    ensures
        tail_from(layout, parts, i).len() == 0,
    decreases layout.len() - i,
{
    if i < layout.len() {
        lemma_fixed_len(layout, parts, i + 1);
    }
}

/// Values of a type whose encodings have one size can always be encoded.
pub proof fn lemma_fixed_valid<T: SszContainer>(v: T::V)
    requires
        T::fixed() is Some,
        T::limits(v),
    ensures
        T::valid(v),
        T::enc(v).len() == T::fixed()->0,
{
    T::layout_fits();
    T::parts_conform(v);
    lemma_fixed_len(T::layout(), T::parts(v), 0);
    lemma_head_len(T::layout(), T::parts(v), 0, width_from(T::layout(), 0));
}

impl Ssz for u64 {
    open spec fn size() -> Option<usize> {
        Some(8)
    }

    open spec fn valid(v: u64) -> bool {
        true
    }

    open spec fn enc(v: u64) -> Seq<u8> {
        le_bytes(v as nat, 8)
    }

    open spec fn fault(bytes: Seq<u8>) -> DecodeError {
        DecodeError::InvalidByteLength { len: bytes.len() as usize, expected: 8 }
    }

    proof fn enc_injective(a: u64, b: u64) {
        lemma_pow256_values();
        lemma_le_value_of_bytes(a as nat, 8);
        lemma_le_value_of_bytes(b as nat, 8);
    }

    proof fn enc_size(v: u64) {
        lemma_le_bytes_len(v as nat, 8);
    }

    fn ssz_size() -> (r: Option<usize>) {
        Some(8)
    }

    fn as_ssz_bytes(&self) -> (r: Vec<u8>) {
        to_le(*self, 8)
    }

    fn from_ssz_bytes(bytes: &[u8]) -> (r: Result<u64, DecodeError>) {
        if bytes.len() != 8 {
            proof {
                assert forall|v: u64| #[trigger] Self::enc(v) != bytes@ by {
                    lemma_le_bytes_len(v as nat, 8);
                }
            }
            return Err(DecodeError::InvalidByteLength { len: bytes.len(), expected: 8 });
        }
        proof {
            lemma_le_bytes_of_value(bytes@);
        }
        Ok(from_le(bytes))
    }
}

impl Ssz for H256 {
    open spec fn size() -> Option<usize> {
        Some(32)
    }

    open spec fn valid(v: Seq<u8>) -> bool {
        v.len() == 32
    }

    open spec fn enc(v: Seq<u8>) -> Seq<u8> {
        v
    }

    open spec fn fault(bytes: Seq<u8>) -> DecodeError {
        DecodeError::InvalidByteLength { len: bytes.len() as usize, expected: 32 }
    }

    proof fn enc_injective(a: Seq<u8>, b: Seq<u8>) {
    }

    proof fn enc_size(v: Seq<u8>) {
    }

    fn ssz_size() -> (r: Option<usize>) {
        Some(32)
    }

    fn as_ssz_bytes(&self) -> (r: Vec<u8>) {
        self.to_vec()
    }

    fn from_ssz_bytes(bytes: &[u8]) -> (r: Result<H256, DecodeError>) {
        if bytes.len() != 32 {
            return Err(DecodeError::InvalidByteLength { len: bytes.len(), expected: 32 });
        }
        Ok(H256::from_slice(bytes))
    }
}

} // verus!
