//! Roots of chain objects: Merkle trees over the roots of their fields.

use crate::bindings::hashing::{merkle_root, merkle_root_of, mix_in_length, with_length, MAX_LEAVES};
use crate::encoding::bits::{bit_bytes, raw_bits, MAX_BITS};
use crate::encoding::list::item_views;
use crate::primitives::{le_bytes, lemma_le_bytes_len, to_le, H256};
use vstd::prelude::*;

verus! {

/// A type whose values have a root.
pub trait TreeHash: View + Sized {
    /// The values that respect the limits of their lists.
    spec fn hashable(v: Self::V) -> bool;

    /// The root of a value.
    spec fn root(v: Self::V) -> Seq<u8>;

    fn tree_hash_root(&self) -> (r: H256)
        requires
            Self::hashable(self@),
        ensures
            r@ == Self::root(self@),
    ;
}

/// Roots one after the other.
pub open spec fn concat(roots: Seq<Seq<u8>>) -> Seq<u8>
    decreases roots.len(),
{
    if roots.len() == 0 {
        Seq::empty()
    } else {
        concat(roots.drop_last()) + roots.last()
    }
}

/// The root of an integer: its bytes, the lowest first, padded with zero bytes.
pub open spec fn uint_root(x: nat) -> Seq<u8> {
    le_bytes(x, 8) + Seq::new(24, |i: int| 0u8)
}

/// The root of an object from the roots of its fields.
pub open spec fn container_root(roots: Seq<Seq<u8>>) -> Seq<u8> {
    merkle_root_of(concat(roots), roots.len())
}

/// The root of a list of at most `limit` items from the roots of the items.
pub open spec fn list_root(roots: Seq<Seq<u8>>, limit: nat) -> Seq<u8> {
    with_length(merkle_root_of(concat(roots), limit), roots.len())
}

/// The root of a list of at most `limit` bits.
pub open spec fn bits_root(bits: Seq<bool>, limit: nat) -> Seq<u8> {
    with_length(
        merkle_root_of(bit_bytes(bits, (bits.len() + 7) / 8), (limit + 255) / 256),
        bits.len(),
    )
}

/// The root of a byte string of fixed size.
pub open spec fn bytes_root(bytes: Seq<u8>) -> Seq<u8> {
    merkle_root_of(bytes, (bytes.len() + 31) / 32)
}

/// Joins roots.
fn join_roots(roots: &Vec<H256>) -> (r: Vec<u8>)
    ensures
        r@ == concat(item_views(roots@)),
        r@.len() == 32 * roots@.len(),
{
    let mut out: Vec<u8> = Vec::new();
    let ghost vs = item_views(roots@);
    let mut i: usize = 0;
    proof {
        assert(vs.take(0) =~= Seq::<Seq<u8>>::empty());
    }
    while i < roots.len()
        invariant
            0 <= i <= roots@.len(),
            vs == item_views(roots@),
            out@ == concat(vs.take(i as int)),
            out@.len() == 32 * i,
        decreases roots@.len() - i,
    {
        proof {
            assert(vs.take(i + 1).drop_last() =~= vs.take(i as int));
            assert(vs.take(i + 1).last() == roots@[i as int]@);
        }
        out.extend_from_slice(roots[i].as_slice());
        i = i + 1;
    }
    proof {
        assert(vs.take(i as int) =~= vs);
    }
    out
}

/// The root of an object from the roots of its fields.
pub fn hash_container(roots: &Vec<H256>) -> (r: H256)
    requires
        roots@.len() <= MAX_LEAVES,
    ensures
        r@ == container_root(item_views(roots@)),
{
    let bytes = join_roots(roots);
    merkle_root(bytes.as_slice(), roots.len())
}

/// The root of a list of at most `limit` items from the roots of the items.
pub fn hash_list(roots: &Vec<H256>, limit: usize) -> (r: H256)
    requires
        roots@.len() <= limit <= MAX_LEAVES,
    ensures
        r@ == list_root(item_views(roots@), limit as nat),
{
    let bytes = join_roots(roots);
    let root = merkle_root(bytes.as_slice(), limit);
    mix_in_length(&root, roots.len())
}

/// The root of a list of at most `limit` bits.
pub fn hash_bits(bits: &Vec<bool>, limit: usize) -> (r: H256)
    requires
        bits@.len() <= limit <= MAX_BITS,
    ensures
        r@ == bits_root(bits@, limit as nat),
{
    let bytes = raw_bits(bits);
    let root = merkle_root(bytes.as_slice(), (limit + 255) / 256);
    mix_in_length(&root, bits.len())
}

/// The root of a byte string of fixed size.
pub fn hash_bytes(bytes: &[u8]) -> (r: H256)
    requires
        bytes@.len() <= MAX_LEAVES,
    ensures
        r@ == bytes_root(bytes@),
{
    merkle_root(bytes, (bytes.len() + 31) / 32)
}

/// The root of an integer.
pub fn hash_uint(x: u64) -> (r: H256)
    ensures
        r@ == uint_root(x as nat),
{
    let mut bytes: Vec<u8> = to_le(x, 8);
    proof {
        lemma_le_bytes_len(x as nat, 8);
    }
    let mut i: usize = 0;
    while i < 24
        invariant
            0 <= i <= 24,
            bytes@ == le_bytes(x as nat, 8) + Seq::new(i as nat, |j: int| 0u8),
            le_bytes(x as nat, 8).len() == 8,
        decreases 24 - i,
    {
        bytes.push(0);
        i = i + 1;
        proof {
            assert(bytes@ =~= le_bytes(x as nat, 8) + Seq::new(i as nat, |j: int| 0u8));
        }
    }
    H256::from_slice(bytes.as_slice())
}

/// The roots of the items of a list.
pub open spec fn item_roots<T: TreeHash>(items: Seq<T::V>) -> Seq<Seq<u8>> {
    items.map_values(|x: T::V| T::root(x))
}

/// The roots of the items of a list.
pub fn hash_items<T: TreeHash>(items: &Vec<T>) -> (r: Vec<H256>)
    requires
        forall|i: int| 0 <= i < items@.len() ==> T::hashable(#[trigger] item_views(items@)[i]),
    ensures
        item_views(r@) == item_roots::<T>(item_views(items@)),
        r@.len() == items@.len(),
{
    let ghost vs = item_views(items@);
    let mut out: Vec<H256> = Vec::new();
    let mut i: usize = 0;
    while i < items.len()
        invariant
            0 <= i <= items@.len(),
            vs == item_views(items@),
            forall|k: int| 0 <= k < items@.len() ==> T::hashable(#[trigger] vs[k]),
            out@.len() == i,
            forall|k: int| 0 <= k < i ==> (#[trigger] out@[k])@ == T::root(vs[k]),
        decreases items@.len() - i,
    {
        proof {
            assert(vs[i as int] == items@[i as int]@);
        }
        let root = items[i].tree_hash_root();
        out.push(root);
        i = i + 1;
    }
    proof {
        assert(item_views(out@) =~= item_roots::<T>(vs));
    }
    out
}

} // verus!
