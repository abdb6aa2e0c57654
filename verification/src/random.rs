//! Chance: the order in which addresses are tried, and the choice among equals.
//!
//! The thread's generator is seeded by the operating system when it is first used;
//! where that fails, the generator panics.

use rand::seq::SliceRandom;
use rand::Rng;
use vstd::prelude::*;

verus! {

/// `rand::seq::SliceRandom::shuffle`, with the thread's generator: the items
/// change places, and none is lost, added or altered. Any order may result.
#[verifier::external_body]
pub(crate) fn shuffle<T>(items: &mut Vec<T>)
    ensures
        final(items)@.to_multiset() == old(items)@.to_multiset(),
{
    items.shuffle(&mut rand::thread_rng());
}

/// `rand::Rng::gen_range` on `0..n`, with the thread's generator: some number
/// below `n`. There is none below zero, where it would panic.
#[verifier::external_body]
pub(crate) fn index_below(n: usize) -> (r: usize)
    requires
        n > 0,
    ensures
        r < n,
{
    rand::thread_rng().gen_range(0..n)
}

} // verus!
