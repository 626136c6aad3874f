//! The mass ("water") mapping over the slot universe, and one round of
//! redistribution over it.
//!
//! A mapping holds one exact rational value per slot: the slot `i` holds
//! `nums[i] / den`, with the denominator shared by every slot.  Keeping the
//! arithmetic exact lets the round's guarantees be stated and proved as
//! equations, with no rounding to speak of.

use vstd::prelude::*;

use crate::subset::{contains_idx, honest_of, honest_subset, lemma_honest_of_bounds,
    lemma_honest_of_membership, lemma_honest_of_no_duplicates};

verus! {

/// The mass held by the slot universe: slot `i` holds `nums[i] / den`.
pub struct Masses {
    /// Numerator of each slot's mass, over the shared denominator.
    pub nums: Vec<u64>,
    /// Shared positive denominator.
    pub den: u64,
}

/// What one round does (see `distribute_water_batch`).
#[derive(Clone, Copy, PartialEq, Eq, Structural, Debug)]
pub enum RoundOutcome {
    /// The honest part of the batch was non-empty and its mass was averaged.
    Distributed,
    /// The honest part of the batch was empty; nothing moved.
    Degenerate,
}

/// The one failure the exact engine can meet: a numerator or the shared
/// denominator would no longer fit in its word.
#[derive(Clone, Copy, PartialEq, Eq, Structural, Debug)]
pub enum SimError {
    MassOverflow,
}

impl Masses {
    /// A well-formed mapping over a universe of `n` slots.
    pub open spec fn wf(self, n: nat) -> bool {
        &&& self.den >= 1
        &&& self.nums@.len() == n
    }
}

/// The sum of the numerators of `nums` at the positions listed in `idxs`.
pub open spec fn sum_at(nums: Seq<u64>, idxs: Seq<usize>) -> int
    decreases idxs.len(),
{
    if idxs.len() == 0 {
        0
    } else {
        sum_at(nums, idxs.drop_last()) + nums[idxs.last() as int]
    }
}

/// A prefix of the listed positions never sums to more than the whole.
pub proof fn lemma_sum_take_le(nums: Seq<u64>, idxs: Seq<usize>, j: int)
    requires
        0 <= j <= idxs.len(),
    ensures
        sum_at(nums, idxs.take(j)) <= sum_at(nums, idxs),
    decreases idxs.len(),
{
    if j == idxs.len() {
        assert(idxs.take(j) =~= idxs);
    } else {
        assert(idxs.drop_last().take(j) =~= idxs.take(j));
        lemma_sum_take_le(nums, idxs.drop_last(), j);
    }
}

/// Extending the listed positions by one adds that position's numerator.
pub proof fn lemma_sum_take_step(nums: Seq<u64>, idxs: Seq<usize>, j: int)
    requires
        0 <= j < idxs.len(),
    ensures
        sum_at(nums, idxs.take(j + 1)) == sum_at(nums, idxs.take(j)) + nums[idxs[j] as int],
{
    assert(idxs.take(j + 1).drop_last() =~= idxs.take(j));
    assert(idxs.take(j + 1).last() == idxs[j]);
}

/// Summing a constant `c` over `k` listed positions gives `k * c`.
pub proof fn lemma_sum_const(nums: Seq<u64>, idxs: Seq<usize>, c: int)
    requires
        forall|j: int| 0 <= j < idxs.len() ==> nums[#[trigger] idxs[j] as int] == c,
    ensures
        sum_at(nums, idxs) == idxs.len() * c,
    decreases idxs.len(),
{
    if idxs.len() == 0 {
    } else {
        let prefix = idxs.drop_last();
        assert forall|j: int| 0 <= j < prefix.len() implies nums[#[trigger] prefix[j] as int]
            == c by {
            assert(prefix[j] == idxs[j]);
        }
        lemma_sum_const(nums, prefix, c);
        assert(nums[idxs[idxs.len() - 1] as int] == c);
        assert((idxs.len() - 1) * c + c == idxs.len() * c) by (nonlinear_arith);
    }
}

/// How one successful round relates the mapping after to the mapping before,
/// given the honest part of the batch: the shared denominator is scaled by the
/// honest count, every honest slot's numerator becomes the honest sum, and
/// every other slot's numerator is scaled along with the denominator, so its
/// value does not move.
pub open spec fn distribute_rel(pre: Masses, post: Masses, honest: Seq<usize>) -> bool {
    let k = honest.len() as int;
    let s = sum_at(pre.nums@, honest);
    &&& post.nums@.len() == pre.nums@.len()
    &&& post.den == pre.den * k
    &&& forall|i: int|
        0 <= i < pre.nums@.len() && honest.contains(i as usize) ==> post.nums@[i] == s
    &&& forall|i: int|
        0 <= i < pre.nums@.len() && !honest.contains(i as usize)
            ==> post.nums@[i] == pre.nums@[i] * k
}

/// When the exact numbers of a round no longer fit in a 64-bit word.
pub open spec fn distribute_overflows(pre: Masses, honest: Seq<usize>) -> bool {
    let k = honest.len() as int;
    ||| sum_at(pre.nums@, honest) > u64::MAX
    ||| pre.den * k > u64::MAX
    ||| exists|i: int|
        0 <= i < pre.nums@.len() && !honest.contains(i as usize) && #[trigger] (pre.nums@[i]
            * k) > u64::MAX
}

/// Mass conservation: a round that follows the redistribution relation with a
/// non-empty honest part keeps the mass summed over that part unchanged — the
/// sums over the honest slots before and after are equal as rationals, stated
/// here with the denominators cross-multiplied.
pub proof fn lemma_mass_conservation(pre: Masses, post: Masses, honest: Seq<usize>)
    requires
        honest.len() > 0,
        forall|j: int| 0 <= j < honest.len() ==> #[trigger] honest[j] < pre.nums@.len(),
        distribute_rel(pre, post, honest),
    ensures
        sum_at(post.nums@, honest) * pre.den == sum_at(pre.nums@, honest) * post.den,
{
    let s = sum_at(pre.nums@, honest);
    assert forall|j: int| 0 <= j < honest.len() implies post.nums@[#[trigger] honest[j] as int]
        == s by {
        assert(honest.contains(honest[j]));
    }
    lemma_sum_const(post.nums@, honest, s);
    assert((honest.len() as int) * s * (pre.den as int) == s * ((pre.den as int) * (
    honest.len() as int))) by (nonlinear_arith);
}

/// The excluded invariant, one round at a time: whatever batch a round draws,
/// a corrupted slot that holds no mass before the round holds none after it,
/// because a corrupted slot never stands in the honest part.
pub proof fn lemma_excluded_stays_zero(
    pre: Masses,
    post: Masses,
    corrupted: Seq<usize>,
    batch: Seq<usize>,
)
    requires
        distribute_rel(pre, post, honest_of(batch, corrupted)),
    ensures
        forall|i: int|
            0 <= i < pre.nums@.len() && corrupted.contains(i as usize) && pre.nums@[i] == 0
                ==> post.nums@[i] == 0,
{
    lemma_honest_of_membership(batch, corrupted);
    let honest = honest_of(batch, corrupted);
    assert forall|i: int|
        0 <= i < pre.nums@.len() && corrupted.contains(i as usize) && pre.nums@[i] == 0
        implies post.nums@[i] == 0 by {
        assert(!honest.contains(i as usize));
        assert(post.nums@[i] == pre.nums@[i] * (honest.len() as int));
    }
}

/// One round of redistribution over a given batch.
///
/// The honest part of the batch is the batch minus the corrupted slots.  If it
/// is empty the round is a degenerate no-op.  Otherwise the mass held by the
/// honest slots is summed and every honest slot is overwritten with the
/// average, while every other slot — the corrupted ones among them — keeps
/// exactly the value it had.
///
/// The postcondition carries the guarantees of one round:
/// - the mass summed over the honest part is the same before and after
///   (stated with denominators cross-multiplied);
/// - every honest slot holds the identical value afterwards;
/// - an empty honest part leaves the mapping unchanged;
/// - a corrupted slot holding no mass still holds none afterwards.
#[verifier::loop_isolation(false)]
pub fn distribute_water_batch(cups: &mut Masses, corrupted: &Vec<usize>, batch: &Vec<usize>) -> (r:
    Result<RoundOutcome, SimError>)
    requires
        old(cups).den >= 1,
        batch@.no_duplicates(),
        forall|i: int| 0 <= i < batch@.len() ==> #[trigger] batch@[i] < old(cups).nums@.len(),
    ensures
        final(cups).nums@.len() == old(cups).nums@.len(),
        final(cups).den >= 1,
        honest_of(batch@, corrupted@).len() == 0 ==> r == Ok::<RoundOutcome, SimError>(
            RoundOutcome::Degenerate,
        ) && final(cups).nums@ == old(cups).nums@ && final(cups).den == old(cups).den,
        honest_of(batch@, corrupted@).len() > 0 && distribute_overflows(
            *old(cups),
            honest_of(batch@, corrupted@),
        ) ==> r == Err::<RoundOutcome, SimError>(SimError::MassOverflow) && final(cups).nums@
            == old(cups).nums@ && final(cups).den == old(cups).den,
        honest_of(batch@, corrupted@).len() > 0 && !distribute_overflows(
            *old(cups),
            honest_of(batch@, corrupted@),
        ) ==> r == Ok::<RoundOutcome, SimError>(RoundOutcome::Distributed) && distribute_rel(
            *old(cups),
            *final(cups),
            honest_of(batch@, corrupted@),
        ),
        r is Ok && honest_of(batch@, corrupted@).len() > 0 ==> sum_at(
            final(cups).nums@,
            honest_of(batch@, corrupted@),
        ) * old(cups).den == sum_at(old(cups).nums@, honest_of(batch@, corrupted@))
            * final(cups).den,
        r is Ok && honest_of(batch@, corrupted@).len() > 0 ==> forall|i: int, j: int|
            0 <= i < final(cups).nums@.len() && 0 <= j < final(cups).nums@.len()
                && honest_of(batch@, corrupted@).contains(i as usize) && honest_of(
                batch@,
                corrupted@,
            ).contains(j as usize) ==> final(cups).nums@[i] == final(cups).nums@[j],
        forall|i: int|
            0 <= i < old(cups).nums@.len() && corrupted@.contains(i as usize) && old(
                cups,
            ).nums@[i] == 0 ==> final(cups).nums@[i] == 0,
{
    let ghost pre = *cups;
    let n = cups.nums.len();
    let honest = honest_subset(batch, corrupted);
    let ghost h = honest_of(batch@, corrupted@);
    proof {
        lemma_honest_of_membership(batch@, corrupted@);
        lemma_honest_of_no_duplicates(batch@, corrupted@);
        lemma_honest_of_bounds(batch@, corrupted@, n);
    }
    let k = honest.len();
    if k == 0 {
        return Ok(RoundOutcome::Degenerate);
    }
    // Sum the numerators of the honest slots.
    let mut s: u64 = 0;
    let mut j: usize = 0;
    while j < k
        invariant
            0 <= j <= k,
            s == sum_at(cups.nums@, h.take(j as int)),
        decreases k - j,
    {
        proof {
            lemma_sum_take_step(cups.nums@, h, j as int);
        }
        match s.checked_add(cups.nums[honest[j]]) {
            Some(v) => {
                s = v;
            },
            None => {
                proof {
                    lemma_sum_take_le(cups.nums@, h, j + 1);
                }
                return Err(SimError::MassOverflow);
            },
        }
        j += 1;
    }
    proof {
        assert(h.take(k as int) =~= h);
    }
    // Scale the shared denominator by the honest count.
    let den2 = match cups.den.checked_mul(k as u64) {
        Some(v) => v,
        None => {
            return Err(SimError::MassOverflow);
        },
    };
    // Build the numerators after the round: the honest sum on every honest
    // slot, and the old numerator scaled by the honest count elsewhere.
    let mut new_nums: Vec<u64> = Vec::new();
    let mut i: usize = 0;
    while i < n
        invariant
            0 <= i <= n,
            new_nums@.len() == i,
            forall|i2: int|
                0 <= i2 < i && h.contains(i2 as usize) ==> #[trigger] new_nums@[i2] == s,
            forall|i2: int|
                0 <= i2 < i && !h.contains(i2 as usize) ==> #[trigger] new_nums@[i2]
                    == cups.nums@[i2] * k,
        decreases n - i,
    {
        if contains_idx(&honest, i) {
            new_nums.push(s);
        } else {
            match cups.nums[i].checked_mul(k as u64) {
                Some(v) => {
                    new_nums.push(v);
                },
                None => {
                    return Err(SimError::MassOverflow);
                },
            }
        }
        i += 1;
    }
    proof {
        assert(sum_at(pre.nums@, h) == s);
        assert forall|i2: int|
            0 <= i2 < pre.nums@.len() && !h.contains(i2 as usize) implies #[trigger] (pre.nums@[i2]
            * (h.len() as int)) <= u64::MAX by {
            assert(new_nums@[i2] == pre.nums@[i2] * k);
        }
        assert(!distribute_overflows(pre, h));
        assert(den2 >= 1) by (nonlinear_arith)
            requires
                den2 == pre.den * (h.len() as int),
                pre.den >= 1,
                h.len() >= 1,
        ;
    }
    cups.nums = new_nums;
    cups.den = den2;
    assert(distribute_rel(pre, *cups, h));
    proof {
        lemma_mass_conservation(pre, *cups, h);
    }
    Ok(RoundOutcome::Distributed)
}

/// The largest numerator in `nums`, `0` for an empty mapping.
pub open spec fn max_num(nums: Seq<u64>) -> int
    decreases nums.len(),
{
    if nums.len() == 0 {
        0
    } else {
        let rest = max_num(nums.drop_last());
        if nums.last() as int > rest {
            nums.last() as int
        } else {
            rest
        }
    }
}

/// The largest numerator held by any slot; over the shared denominator this is
/// the largest mass.
pub fn max_water(cups: &Masses) -> (r: u64)
    requires
        cups.nums@.len() >= 1,
    ensures
        r == max_num(cups.nums@),
        forall|i: int| 0 <= i < cups.nums@.len() ==> #[trigger] cups.nums@[i] <= r,
        exists|i: int| 0 <= i < cups.nums@.len() && #[trigger] cups.nums@[i] == r,
{
    let mut r: u64 = cups.nums[0];
    let mut i: usize = 1;
    proof {
        assert(max_num(Seq::<u64>::empty()) == 0);
        assert(cups.nums@.take(1).drop_last() =~= Seq::<u64>::empty());
        assert(cups.nums@.take(1).last() == cups.nums@[0]);
        assert(max_num(cups.nums@.take(1)) == cups.nums@[0] as int);
    }
    while i < cups.nums.len()
        invariant
            1 <= i <= cups.nums@.len(),
            r == max_num(cups.nums@.take(i as int)),
            forall|j: int| 0 <= j < i ==> #[trigger] cups.nums@[j] <= r,
            exists|j: int| 0 <= j < i && #[trigger] cups.nums@[j] == r,
        decreases cups.nums@.len() - i,
    {
        proof {
            assert(cups.nums@.take(i + 1).drop_last() =~= cups.nums@.take(i as int));
            assert(cups.nums@.take(i + 1).last() == cups.nums@[i as int]);
        }
        if cups.nums[i] > r {
            r = cups.nums[i];
        }
        i += 1;
    }
    proof {
        assert(cups.nums@.take(cups.nums@.len() as int) =~= cups.nums@);
    }
    r
}

/// The mapping a trial starts from: the tracked slot `0` holds the full mass
/// `1/1`, and every other slot holds none.
pub fn init_cups(n: usize) -> (r: Masses)
    requires
        n >= 1,
    ensures
        r.wf(n as nat),
        r.den == 1,
        r.nums@[0] == 1,
        forall|i: int| 1 <= i < n ==> #[trigger] r.nums@[i] == 0,
{
    let mut nums: Vec<u64> = Vec::new();
    nums.push(1);
    let mut i: usize = 1;
    while i < n
        invariant
            1 <= i <= n,
            nums@.len() == i,
            nums@[0] == 1,
            forall|j: int| 1 <= j < i ==> #[trigger] nums@[j] == 0,
        decreases n - i,
    {
        nums.push(0);
        i += 1;
    }
    Masses { nums, den: 1 }
}

} // verus!

