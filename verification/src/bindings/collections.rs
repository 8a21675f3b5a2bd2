//! Bounded lists and bit lists of the `ssz_types` crate.

use crate::primitives::H256;
use ssz::BitfieldError;
use ssz_types::length::Variable;
use ssz_types::typenum::{B0, B1, U1024, U256, U4096, UInt, UTerm};
use ssz_types::{BitList, Bitfield, VariableList};
use vstd::prelude::*;

verus! {

/// `ssz_types::VariableList`: a list with a maximum length in its type.
#[verifier::external_type_specification]
#[verifier::external_body]
#[verifier::reject_recursive_types(T)]
#[verifier::reject_recursive_types(N)]
pub struct ExVariableList<T, N>(VariableList<T, N>);

/// `ssz::Bitfield`: a string of bits.
#[verifier::external_type_specification]
#[verifier::external_body]
#[verifier::reject_recursive_types(T)]
pub struct ExBitfield<T>(Bitfield<T>);

/// `ssz::Variable`: marks a bit string with a maximum length.
#[verifier::external_type_specification]
#[verifier::external_body]
#[verifier::reject_recursive_types(N)]
pub struct ExVariable<N>(Variable<N>);

/// `typenum::UInt`: a binary digit behind a type-level number.
#[verifier::external_type_specification]
#[verifier::external_body]
#[verifier::reject_recursive_types(U)]
#[verifier::reject_recursive_types(B)]
pub struct ExUInt<U, B>(UInt<U, B>);

/// `typenum::UTerm`: the type-level zero.
#[verifier::external_type_specification]
#[verifier::external_body]
pub struct ExUTerm(UTerm);

/// `typenum::B0`: the type-level digit zero.
#[verifier::external_type_specification]
#[verifier::external_body]
pub struct ExB0(B0);

/// `typenum::B1`: the type-level digit one.
#[verifier::external_type_specification]
#[verifier::external_body]
pub struct ExB1(B1);

/// `ssz_types::Error`: why a list operation failed.
#[verifier::external_type_specification]
#[verifier::external_body]
pub struct ExListError(ssz_types::Error);

/// `ssz::BitfieldError`: why a bit list operation failed.
#[verifier::external_type_specification]
#[verifier::external_body]
pub struct ExBitfieldError(BitfieldError);

/// At most 1024 block roots.
pub type RequestedBlockRoots = VariableList<H256, U1024>;

/// At most 256 bytes.
pub type ErrorMessage = VariableList<u8, U256>;

/// At most 4096 bits, one for each validator.
pub type AggregationBits = BitList<U4096>;

/// The most roots that a [`RequestedBlockRoots`] can hold.
pub const MAX_REQUEST_BLOCKS: usize = 1024;

/// The most bytes that an [`ErrorMessage`] can hold.
pub const MAX_ERROR_MESSAGE_LENGTH: usize = 256;

/// The most bits that an [`AggregationBits`] can hold.
pub const MAX_AGGREGATION_BITS: usize = 4096;

/// The roots in a list of requested roots.
pub uninterp spec fn requested_roots(list: RequestedBlockRoots) -> Seq<H256>;

/// The bytes of an error message.
pub uninterp spec fn message_bytes(message: ErrorMessage) -> Seq<u8>;

/// The bits of an aggregation bit list.
pub uninterp spec fn participation(bits: AggregationBits) -> Seq<bool>;

/// `VariableList::empty`: a list without items.
#[verifier::external_body]
pub(crate) fn roots_empty() -> (r: RequestedBlockRoots)
    ensures
        requested_roots(r) == Seq::<H256>::empty(),
{
    VariableList::empty()
}

/// `VariableList::push`: appends an item unless the list is full, and leaves a full
/// list as it is.
#[verifier::external_body]
pub(crate) fn roots_push(list: &mut RequestedBlockRoots, root: H256) -> (r: Result<
    (),
    ssz_types::Error,
>)
    ensures
        requested_roots(*old(list)).len() < MAX_REQUEST_BLOCKS ==> r is Ok && requested_roots(
            *final(list),
        ) == requested_roots(*old(list)).push(root),
        requested_roots(*old(list)).len() >= MAX_REQUEST_BLOCKS ==> r is Err && requested_roots(
            *final(list),
        ) == requested_roots(*old(list)),
{
    list.push(root)
}

/// `VariableList::new`: the list of the given items, unless there are too many.
#[verifier::external_body]
pub(crate) fn roots_new(roots: Vec<H256>) -> (r: Result<RequestedBlockRoots, ssz_types::Error>)
    ensures
        r is Ok <==> roots@.len() <= MAX_REQUEST_BLOCKS,
        r matches Ok(list) ==> requested_roots(list) == roots@,
{
    VariableList::new(roots)
}

/// `VariableList::index` over the whole range: the items as a slice; there are never more
/// than the maximum.
#[verifier::external_body]
pub(crate) fn roots_slice(list: &RequestedBlockRoots) -> (r: &[H256])
    ensures
        r@ == requested_roots(*list),
        r@.len() <= MAX_REQUEST_BLOCKS,
{
    &list[..]
}

/// `VariableList::new`: the message of the given bytes, unless there are too many.
#[verifier::external_body]
pub(crate) fn message_new(bytes: Vec<u8>) -> (r: Result<ErrorMessage, ssz_types::Error>)
    ensures
        r is Ok <==> bytes@.len() <= MAX_ERROR_MESSAGE_LENGTH,
        r matches Ok(message) ==> message_bytes(message) == bytes@,
{
    VariableList::new(bytes)
}

/// `VariableList::index` over the whole range: the bytes as a slice; there are never more
/// than the maximum.
#[verifier::external_body]
pub(crate) fn message_slice(message: &ErrorMessage) -> (r: &[u8])
    ensures
        r@ == message_bytes(*message),
        r@.len() <= MAX_ERROR_MESSAGE_LENGTH,
{
    &message[..]
}

/// `Bitfield::with_capacity`: a list of clear bits, unless there are too many.
#[verifier::external_body]
pub(crate) fn bits_with_capacity(n: usize) -> (r: Result<AggregationBits, BitfieldError>)
    ensures
        r is Ok <==> n <= MAX_AGGREGATION_BITS,
        r matches Ok(bits) ==> participation(bits) == Seq::new(n as nat, |i: int| false),
{
    AggregationBits::with_capacity(n)
}

/// `Bitfield::set`: changes one bit, and nothing where there is no such bit.
#[verifier::external_body]
pub(crate) fn bits_set(bits: &mut AggregationBits, i: usize, value: bool) -> (r: Result<
    (),
    BitfieldError,
>)
    ensures
        i < participation(*old(bits)).len() ==> r is Ok && participation(*final(bits))
            == participation(*old(bits)).update(i as int, value),
        i >= participation(*old(bits)).len() ==> r is Err && participation(*final(bits))
            == participation(*old(bits)),
{
    bits.set(i, value)
}

/// `Bitfield::get`: one bit, if there is such a bit.
#[verifier::external_body]
pub(crate) fn bits_get(bits: &AggregationBits, i: usize) -> (r: Result<bool, BitfieldError>)
    ensures
        r is Ok <==> i < participation(*bits).len(),
        r matches Ok(bit) ==> bit == participation(*bits)[i as int],
{
    bits.get(i)
}

/// `Bitfield::len`: how many bits there are; never more than the maximum.
#[verifier::external_body]
pub(crate) fn bits_len(bits: &AggregationBits) -> (r: usize)
    ensures
        r == participation(*bits).len(),
        r <= MAX_AGGREGATION_BITS,
{
    bits.len()
}

/// `Bitfield::clone`: a list with the same bits.
#[verifier::external_body]
pub(crate) fn bits_clone(bits: &AggregationBits) -> (r: AggregationBits)
    ensures
        participation(r) == participation(*bits),
{
    bits.clone()
}

} // verus!
