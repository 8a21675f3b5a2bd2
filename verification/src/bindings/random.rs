//! Random choice by the `rand` crate.

use rand::seq::SliceRandom;
use vstd::prelude::*;

verus! {

/// `SliceRandom::choose`, with the thread's generator: some item of the slice, or
/// nothing where there is none. Which item it is, is left to chance.
#[verifier::external_body]
pub(crate) fn choose_item<T>(items: &[T]) -> (r: Option<&T>)
    ensures
        r is None <==> items@.len() == 0,
        r matches Some(item) ==> items@.contains(*item),
{
    items.choose(&mut rand::thread_rng())
}

} // verus!
