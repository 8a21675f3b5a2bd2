//! Sorting by the standard library.

use std::cmp::Ordering;
use vstd::prelude::*;

verus! {

/// Whether entries stand in order of descending slot.
pub open spec fn newest_first(entries: Seq<(Vec<u8>, u64)>) -> bool {
    forall|i: int, j: int| 0 <= i <= j < entries.len() ==> entries[i].1 >= entries[j].1
}

/// The order of descending slots.
pub fn by_descending_slot(a: &(Vec<u8>, u64), b: &(Vec<u8>, u64)) -> (r: Ordering)
    ensures
        r == Ordering::Less <==> a.1 > b.1,
        r == Ordering::Equal <==> a.1 == b.1,
        r == Ordering::Greater <==> a.1 < b.1,
{
    if a.1 > b.1 {
        Ordering::Less
    } else if a.1 < b.1 {
        Ordering::Greater
    } else {
        Ordering::Equal
    }
}

/// `slice::sort_unstable_by`, by [`by_descending_slot`]: the same entries in that order.
/// In which order entries of one slot come stays unsaid.
#[verifier::external_body]
pub(crate) fn sort_newest_first(entries: &mut Vec<(Vec<u8>, u64)>)
    ensures
        final(entries)@.to_multiset() == old(entries)@.to_multiset(),
        newest_first(final(entries)@),
{
    entries.sort_unstable_by(|a, b| by_descending_slot(a, b))
}

} // verus!
