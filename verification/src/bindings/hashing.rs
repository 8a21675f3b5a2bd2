//! Merkle roots of the `tree_hash` crate.

use crate::primitives::H256;
use vstd::prelude::*;

verus! {

/// The most leaves that a tree here may have.
pub const MAX_LEAVES: usize = 0x2000_0000;

/// The root of the Merkle tree over `bytes`, padded with zero bytes to `leaves` chunks.
pub uninterp spec fn merkle_root_of(bytes: Seq<u8>, leaves: nat) -> Seq<u8>;

/// The hash of a root and a length.
pub uninterp spec fn with_length(root: Seq<u8>, length: nat) -> Seq<u8>;

/// `tree_hash::merkle_root`: the root of the tree over `bytes` with at least `leaves`
/// leaves. It depends on these two values alone. A tree of one leaf, or none, has the bytes
/// themselves as its root, filled up with zeros. What the hash is stays unsaid.
///
/// The function panics on trees of more than 49 levels, and of more than 30 levels where
/// `usize` has 32 bits. The bounds leave both out.
#[verifier::external_body]
pub(crate) fn merkle_root(bytes: &[u8], leaves: usize) -> (r: H256)
    requires
        leaves <= MAX_LEAVES,
        bytes@.len() <= 32 * leaves,
    ensures
        r@ == merkle_root_of(bytes@, leaves as nat),
        leaves <= 1 ==> r@ == bytes@ + Seq::new((32 - bytes@.len()) as nat, |i: int| 0u8),
{
    H256(tree_hash::merkle_root(bytes, leaves).0)
}

/// `tree_hash::mix_in_length`: the hash of a root and the length of the list below it.
/// It depends on these two values alone. What the hash is stays unsaid.
#[verifier::external_body]
pub(crate) fn mix_in_length(root: &H256, length: usize) -> (r: H256)
    ensures
        r@ == with_length(root@, length as nat),
{
    H256(tree_hash::mix_in_length(&tree_hash::Hash256::from(root.0), length).0)
}

} // verus!
