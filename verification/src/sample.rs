//! Random sampling of distinct slot indices, through the `rand` crate.

use vstd::prelude::*;

use rand::rngs::ThreadRng;
use rand::seq::IteratorRandom;

verus! {

#[verifier::external_type_specification]
#[verifier::external_body]
pub struct ExThreadRng(ThreadRng);

/// Relies on rand::thread_rng: a fresh handle to the thread-local generator.
/// Nothing is assumed of the numbers it will yield.
#[verifier::external_body]
pub(crate) fn fresh_rng() -> ThreadRng {
    rand::thread_rng()
}

/// Relies on rand's IteratorRandom::choose_multiple: sampling without
/// replacement over the range `lo..hi` yields values drawn from distinct
/// positions of the range, so with `amount` at most the range's length the
/// result holds exactly `amount` distinct values, each in `[lo, hi)`.  Which
/// values come out is random, and nothing is assumed of that.  The bound on
/// `amount` also keeps the call's eager buffer allocation within what the
/// range itself bounds, so the call returns.
#[verifier::external_body]
pub(crate) fn sample_indices(rng: &mut ThreadRng, lo: usize, hi: usize, amount: usize) -> (r: Vec<
    usize,
>)
    requires
        lo <= hi,
        amount <= hi - lo,
    ensures
        r@.len() == amount,
        forall|j: int| 0 <= j < r@.len() ==> lo <= #[trigger] r@[j] < hi,
        r@.no_duplicates(),
{
    (lo..hi).choose_multiple(rng, amount)
}

} // verus!
