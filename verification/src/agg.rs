//! Aggregation over all trials of one configuration.

use vstd::prelude::*;

verus! {

/// What the reported round `v` says of a tally over `num_trials` trials:
/// `v == 0` exactly when no round's count reaches `num_trials`; otherwise `v`
/// is the first round whose count does, reported 1-based.
pub open spec fn reported_round(v: usize, ta: Seq<usize>, num_trials: usize) -> bool {
    &&& (v == 0 <==> (forall|t: int| 0 <= t < ta.len() ==> #[trigger] ta[t] != num_trials))
    &&& (v != 0 ==> 1 <= v <= ta.len() && ta[v - 1] == num_trials && (forall|t: int|
        0 <= t < v - 1 ==> #[trigger] ta[t] != num_trials))
}

/// The first round (reported 1-based) by which every trial had succeeded, or
/// `0` if no round within the budget did.
///
/// `tally[t]` counts, over all trials, the trials whose hiding criterion held
/// in round `t`.  The scan runs in increasing round order and returns `t + 1`
/// for the first round index `t` whose count equals `num_trials`; `0` stands
/// for "never achieved".
pub fn get_success_round(tally: &Vec<usize>, num_trials: usize) -> (r: usize)
    requires
        tally@.len() < usize::MAX,
    ensures
        reported_round(r, tally@, num_trials),
{
    let mut t: usize = 0;
    while t < tally.len()
        invariant
            0 <= t <= tally@.len(),
            tally@.len() < usize::MAX,
            forall|t2: int| 0 <= t2 < t ==> #[trigger] tally@[t2] != num_trials,
        decreases tally@.len() - t,
    {
        if tally[t] == num_trials {
            return t + 1;
        }
        t += 1;
    }
    0
}

} // verus!
