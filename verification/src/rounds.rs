//! The trial runner: rounds of redistribution over randomly drawn batches,
//! trials over randomly drawn corrupted sets, and the threshold they are
//! measured against.

use vstd::prelude::*;

use rand::rngs::ThreadRng;

use crate::agg::{get_success_round, reported_round};
use crate::masses::{distribute_overflows, distribute_rel, init_cups, max_num, max_water,
    sum_at, distribute_water_batch, Masses, RoundOutcome, SimError};
use crate::sample::{fresh_rng, sample_indices};
use crate::subset::{honest_of, lemma_honest_of_bounds, lemma_honest_of_len};

verus! {

/// `a_num / a_den < b_num / b_den`, for positive denominators, with the
/// denominators cross-multiplied.
pub open spec fn rat_lt(a_num: int, a_den: int, b_num: int, b_den: int) -> bool {
    a_num * b_den < b_num * a_den
}

/// Denominator of the target threshold `4 / (n * (1 - p/100))`, written as the
/// exact rational `400 / (n * (100 - p))` for a corruption share of `p`
/// percent.
pub open spec fn threshold_den(n: int, p: int) -> int {
    n * (100 - p)
}

/// The target threshold for a universe of `n` slots under a corruption share
/// of `p` percent, as the exact rational `400 / (n * (100 - p))`, returned as
/// (numerator, denominator).
pub fn target_threshold(n: usize, p: usize) -> (r: (u64, u64))
    requires
        1 <= n,
        1 <= p < 100,
        n * (100 - p) <= u64::MAX,
    ensures
        r.0 == 400,
        r.1 == threshold_den(n as int, p as int),
        r.1 >= 1,
{
    proof {
        assert(n * (100 - p) >= 1) by (nonlinear_arith)
            requires
                n >= 1,
                1 <= p < 100,
        ;
    }
    let den = (n as u64) * ((100 - p) as u64);
    (400, den)
}

/// How many slots a corruption share of `p` percent excludes:
/// `floor(n * p / 100)`, never the whole universe.
pub fn corrupted_count(n: usize, p: usize) -> (r: usize)
    requires
        1 <= n,
        p < 100,
        n * p <= usize::MAX,
    ensures
        r == (n as int * p as int) / 100,
        r < n,
{
    proof {
        let np = n as int * p as int;
        vstd::arithmetic::div_mod::lemma_fundamental_div_mod(np, 100);
        assert(np < 100 * n) by (nonlinear_arith)
            requires
                p < 100,
                n >= 1,
                np == n as int * p as int,
        ;
    }
    (n * p) / 100
}

/// Raising the corruption share raises the bar: for one universe size, the
/// target threshold at `p1` percent lies strictly below the one at `p2 > p1`
/// percent.
pub proof fn lemma_threshold_strictly_increases(n: int, p1: int, p2: int)
    requires
        1 <= n,
        1 <= p1 < p2 < 100,
    ensures
        threshold_den(n, p2) < threshold_den(n, p1),
        threshold_den(n, p2) >= 1,
        rat_lt(400, threshold_den(n, p1), 400, threshold_den(n, p2)),
{
    assert(n * (100 - p2) < n * (100 - p1) && n * (100 - p2) >= 1) by (nonlinear_arith)
        requires
            1 <= n,
            1 <= p1 < p2 < 100,
    ;
    assert(400 * threshold_den(n, p2) < 400 * threshold_den(n, p1));
}

/// The hiding criterion of one observation: the largest mass of the mapping
/// lies strictly below the threshold `t_num / t_den`.
pub open spec fn round_success(m: Masses, t_num: u64, t_den: u64) -> bool {
    rat_lt(max_num(m.nums@), m.den as int, t_num as int, t_den as int)
}

/// What one round over the drawn batch `b` does to the mapping: `b` is a
/// well-formed draw of `batch_size` distinct slots of the universe, and the
/// mapping after stands to the one before as `distribute_water_batch` leaves
/// it for that batch — untouched when the honest part is empty, redistributed
/// otherwise, the exact arithmetic fitting.
pub open spec fn round_rel(
    pre: Masses,
    post: Masses,
    corrupted: Seq<usize>,
    b: Seq<usize>,
    n: int,
    batch_size: int,
) -> bool {
    let h = honest_of(b, corrupted);
    &&& b.no_duplicates()
    &&& b.len() == batch_size
    &&& (forall|i: int| 0 <= i < b.len() ==> #[trigger] b[i] < n)
    &&& if h.len() == 0 {
        post.nums@ == pre.nums@ && post.den == pre.den
    } else {
        !distribute_overflows(pre, h) && distribute_rel(pre, post, h)
    }
}

/// What round `t_idx` does to the tally: its entry rises by one exactly when
/// the hiding criterion holds of the post-round mapping, and no other entry
/// moves.
pub open spec fn tally_rel(
    pre_t: Seq<usize>,
    post_t: Seq<usize>,
    post: Masses,
    t_idx: int,
    t_num: u64,
    t_den: u64,
) -> bool {
    &&& 0 <= t_idx < pre_t.len()
    &&& if round_success(post, t_num, t_den) {
        post_t == pre_t.update(t_idx, (pre_t[t_idx] + 1) as usize)
    } else {
        post_t == pre_t
    }
}

/// The mapping standing before round `t` of a recorded trial: the starting
/// one for `t == 0`, else what round `t - 1` left.
pub open spec fn state_before(pre: Masses, states: Seq<Masses>, t: int) -> Masses {
    if t == 0 {
        pre
    } else {
        states[t - 1]
    }
}

/// The tally standing before round `t` of a recorded trial.
pub open spec fn tally_before(tally_pre: Seq<usize>, tallies: Seq<Seq<usize>>, t: int) -> Seq<
    usize,
> {
    if t == 0 {
        tally_pre
    } else {
        tallies[t - 1]
    }
}

/// The rounds of one trial, chained through their record: `batches[t]` is the
/// draw of round `t`, `states[t]` the mapping that round leaves, `tallies[t]`
/// the tally after it.  Every round redistributes as `round_rel` says and
/// raises its own tally entry exactly when its post-round mapping meets the
/// hiding criterion (`tally_rel`); the last state and tally of the record are
/// the ones handed back.
pub open spec fn rounds_chain(
    pre: Masses,
    post: Masses,
    tally_pre: Seq<usize>,
    tally_post: Seq<usize>,
    corrupted: Seq<usize>,
    batches: Seq<Seq<usize>>,
    states: Seq<Masses>,
    tallies: Seq<Seq<usize>>,
    t_num: u64,
    t_den: u64,
    n: int,
    batch_size: int,
) -> bool {
    &&& states.len() == batches.len()
    &&& tallies.len() == batches.len()
    &&& (forall|t: int|
        0 <= t < batches.len() ==> #[trigger] round_rel(
            state_before(pre, states, t),
            states[t],
            corrupted,
            batches[t],
            n,
            batch_size,
        ))
    &&& (forall|t: int|
        0 <= t < batches.len() ==> #[trigger] tally_rel(
            tally_before(tally_pre, tallies, t),
            tallies[t],
            states[t],
            t,
            t_num,
            t_den,
        ))
    &&& post == state_before(pre, states, batches.len() as int)
    &&& tally_post == tally_before(tally_pre, tallies, batches.len() as int)
}

/// What a configuration's reported round `v` says of the tally `ta` that its
/// trials built: one count per round, no count above `num_trials`, and `v` is
/// the aggregator's reading of it — `0` exactly when no count reached
/// `num_trials`, else the first (1-based) round whose count did.
pub open spec fn sim_report(v: usize, ta: Seq<usize>, max_rounds: usize, num_trials: usize) -> bool {
    &&& ta.len() == max_rounds
    &&& forall|t: int| 0 <= t < ta.len() ==> #[trigger] ta[t] <= num_trials
    &&& reported_round(v, ta, num_trials)
}

/// Whether the mass `num / den` lies strictly below the threshold
/// `t_num / t_den`.
pub fn below_threshold(num: u64, den: u64, t_num: u64, t_den: u64) -> (r: bool)
    requires
        den >= 1,
        t_den >= 1,
    ensures
        r == rat_lt(num as int, den as int, t_num as int, t_den as int),
{
    proof {
        assert(num * t_den <= u64::MAX * u64::MAX && t_num * den <= u64::MAX * u64::MAX)
            by (nonlinear_arith)
            requires
                num <= u64::MAX,
                t_den <= u64::MAX,
                t_num <= u64::MAX,
                den <= u64::MAX,
        ;
    }
    (num as u128) * (t_den as u128) < (t_num as u128) * (den as u128)
}

/// One round of redistribution: draw a batch of `batch_size` distinct slots
/// from the universe `[0, n)`, and average the mass of the batch's honest
/// part.
///
/// The batch is random, so the contract states what holds of every draw:
/// some batch of the right size was drawn, and the mapping after the call
/// stands to the one before as `distribute_water_batch` leaves it for that
/// batch.  In particular a corrupted slot holding no mass still holds none,
/// whatever was drawn.
pub fn distribute_water(
    cups: &mut Masses,
    corrupted: &Vec<usize>,
    rng: &mut ThreadRng,
    n: usize,
    batch_size: usize,
) -> (r: Result<RoundOutcome, SimError>)
    requires
        old(cups).den >= 1,
        old(cups).nums@.len() == n,
        batch_size <= n,
    ensures
        final(cups).nums@.len() == n,
        final(cups).den >= 1,
        forall|i: int|
            0 <= i < n && corrupted@.contains(i as usize) && old(cups).nums@[i] == 0
                ==> final(cups).nums@[i] == 0,
        r is Err ==> final(cups).nums@ == old(cups).nums@ && final(cups).den == old(cups).den,
        exists|batch: Seq<usize>|
            {
                &&& batch.no_duplicates()
                &&& batch.len() == batch_size
                &&& (forall|i: int| 0 <= i < batch.len() ==> #[trigger] batch[i] < n)
                &&& (honest_of(batch, corrupted@).len() == 0 ==> r == Ok::<
                    RoundOutcome,
                    SimError,
                >(RoundOutcome::Degenerate) && final(cups).nums@ == old(cups).nums@
                    && final(cups).den == old(cups).den)
                &&& (honest_of(batch, corrupted@).len() > 0 && !distribute_overflows(
                    *old(cups),
                    honest_of(batch, corrupted@),
                ) ==> r == Ok::<RoundOutcome, SimError>(RoundOutcome::Distributed)
                    && distribute_rel(*old(cups), *final(cups), honest_of(batch, corrupted@)))
                &&& (honest_of(batch, corrupted@).len() > 0 && distribute_overflows(
                    *old(cups),
                    honest_of(batch, corrupted@),
                ) ==> r == Err::<RoundOutcome, SimError>(SimError::MassOverflow))
            },
{
    let batch = sample_indices(rng, 0, n, batch_size);
    let r = distribute_water_batch(cups, corrupted, &batch);
    proof {
        assert(batch@.no_duplicates());
        assert(forall|i: int| 0 <= i < batch@.len() ==> #[trigger] batch@[i] < n);
    }
    r
}

/// Run up to `max_rounds` rounds of one trial, recording in `tally[t]` whether
/// the largest mass lay strictly below the threshold after round `t`.
///
/// The excluded invariant is carried through every round: corrupted slots hold
/// no mass when the rounds start, and still hold none after each round, the
/// last included.  On success the returned ghost record — the drawn batches,
/// the mapping each round left, and the tally after each round — chains the
/// final mapping and tally to the starting ones, round by round: each entry
/// rose by one exactly when that round's post-state met the hiding criterion.
/// Where no draw can overflow — no rounds at all, or batches of at most one
/// slot — success is promised.
#[verifier::loop_isolation(false)]
pub fn run_rounds(
    cups: &mut Masses,
    corrupted: &Vec<usize>,
    t_num: u64,
    t_den: u64,
    rng: &mut ThreadRng,
    tally: &mut Vec<usize>,
    n: usize,
    batch_size: usize,
    max_rounds: usize,
) -> (r: (Result<(), SimError>, Ghost<(Seq<Seq<usize>>, Seq<Masses>, Seq<Seq<usize>>)>))
    requires
        old(cups).den >= 1,
        old(cups).nums@.len() == n,
        n >= 1,
        batch_size <= n,
        t_den >= 1,
        forall|i: int|
            0 <= i < n && corrupted@.contains(i as usize) ==> old(cups).nums@[i] == 0,
        old(tally)@.len() == max_rounds,
        forall|t: int| 0 <= t < max_rounds ==> #[trigger] old(tally)@[t] < usize::MAX,
    ensures
        final(cups).den >= 1,
        final(cups).nums@.len() == n,
        forall|i: int|
            0 <= i < n && corrupted@.contains(i as usize) ==> final(cups).nums@[i] == 0,
        final(tally)@.len() == max_rounds,
        forall|t: int|
            0 <= t < max_rounds ==> old(tally)@[t] <= #[trigger] final(tally)@[t]
                <= old(tally)@[t] + 1,
        r.0 is Ok ==> r.1@.0.len() == max_rounds && rounds_chain(
            *old(cups),
            *final(cups),
            old(tally)@,
            final(tally)@,
            corrupted@,
            r.1@.0,
            r.1@.1,
            r.1@.2,
            t_num,
            t_den,
            n as int,
            batch_size as int,
        ),
        max_rounds == 0 ==> r.0 == Ok::<(), SimError>(()),
        batch_size <= 1 ==> r.0 is Ok,
{
    let ghost mut batches: Seq<Seq<usize>> = Seq::empty();
    let ghost mut states: Seq<Masses> = Seq::empty();
    let ghost mut tallies: Seq<Seq<usize>> = Seq::empty();
    let mut t: usize = 0;
    while t < max_rounds
        invariant
            0 <= t <= max_rounds,
            cups.den >= 1,
            cups.nums@.len() == n,
            forall|i: int| 0 <= i < n && corrupted@.contains(i as usize) ==> cups.nums@[i] == 0,
            tally@.len() == max_rounds,
            forall|t2: int|
                0 <= t2 < t ==> old(tally)@[t2] <= #[trigger] tally@[t2] <= old(tally)@[t2] + 1,
            forall|t2: int| t <= t2 < max_rounds ==> #[trigger] tally@[t2] == old(tally)@[t2],
            batches.len() == t,
            rounds_chain(
                *old(cups),
                *cups,
                old(tally)@,
                tally@,
                corrupted@,
                batches,
                states,
                tallies,
                t_num,
                t_den,
                n as int,
                batch_size as int,
            ),
        decreases max_rounds - t,
    {
        let ghost pre_round = *cups;
        let ghost tally_pre = tally@;
        let batch = sample_indices(rng, 0, n, batch_size);
        match distribute_water_batch(cups, corrupted, &batch) {
            Ok(_) => {},
            Err(e) => {
                proof {
                    if batch_size <= 1 {
                        // An overflow needs a non-empty honest part, and a
                        // single honest slot leaves every number as it was.
                        lemma_honest_of_len(batch@, corrupted@);
                        lemma_honest_of_bounds(batch@, corrupted@, n);
                        let h = honest_of(batch@, corrupted@);
                        assert(h.len() == 1);
                        assert(sum_at(pre_round.nums@, h.drop_last()) == 0);
                        assert(sum_at(pre_round.nums@, h) == pre_round.nums@[h[0] as int]);
                        assert forall|i: int|
                            0 <= i < pre_round.nums@.len() && !h.contains(i as usize)
                            implies #[trigger] (pre_round.nums@[i] * (h.len() as int))
                            <= u64::MAX by {}
                        assert(!distribute_overflows(pre_round, h));
                        assert(false);
                    }
                }
                return (Err(e), Ghost((batches, states, tallies)));
            },
        }
        let mx = max_water(cups);
        if below_threshold(mx, cups.den, t_num, t_den) {
            let cur = tally[t];
            tally.set(t, cur + 1);
        }
        proof {
            let bs2 = batches.push(batch@);
            let ss2 = states.push(*cups);
            let ts2 = tallies.push(tally@);
            assert(round_rel(pre_round, *cups, corrupted@, batch@, n as int, batch_size as int));
            assert(tally_rel(tally_pre, tally@, *cups, t as int, t_num, t_den));
            assert(pre_round == state_before(*old(cups), states, t as int));
            assert(tally_pre == tally_before(old(tally)@, tallies, t as int));
            assert forall|t2: int| 0 <= t2 < bs2.len() implies #[trigger] round_rel(
                state_before(*old(cups), ss2, t2),
                ss2[t2],
                corrupted@,
                bs2[t2],
                n as int,
                batch_size as int,
            ) by {
                if t2 < t {
                    assert(round_rel(
                        state_before(*old(cups), states, t2),
                        states[t2],
                        corrupted@,
                        batches[t2],
                        n as int,
                        batch_size as int,
                    ));
                    assert(state_before(*old(cups), ss2, t2) == state_before(
                        *old(cups),
                        states,
                        t2,
                    ));
                } else {
                    assert(state_before(*old(cups), ss2, t2) == pre_round);
                }
            }
            assert forall|t2: int| 0 <= t2 < bs2.len() implies #[trigger] tally_rel(
                tally_before(old(tally)@, ts2, t2),
                ts2[t2],
                ss2[t2],
                t2,
                t_num,
                t_den,
            ) by {
                if t2 < t {
                    assert(tally_rel(
                        tally_before(old(tally)@, tallies, t2),
                        tallies[t2],
                        states[t2],
                        t2,
                        t_num,
                        t_den,
                    ));
                    assert(tally_before(old(tally)@, ts2, t2) == tally_before(
                        old(tally)@,
                        tallies,
                        t2,
                    ));
                } else {
                    assert(tally_before(old(tally)@, ts2, t2) == tally_pre);
                }
            }
            batches = bs2;
            states = ss2;
            tallies = ts2;
        }
        t += 1;
    }
    (Ok(()), Ghost((batches, states, tallies)))
}

/// One full configuration: run `num_trials` independent trials, each from a
/// freshly drawn corrupted set (never the tracked slot `0`) and a fresh
/// mapping holding the full mass in the tracked slot, then report the first
/// round by which every trial had succeeded.
///
/// The per-round success counts are left in `tally`, one entry per round and
/// none above `num_trials`, and the result, when the exact arithmetic fits,
/// is exactly the aggregator's reading of that tally: `0` ("never") when no
/// count reached `num_trials`, else the first (1-based) round whose count
/// did.  Which tally the random draws build is open, but where no draw
/// decides — no rounds, no trials, batches of at most one slot — success is
/// promised, and with no trials every count is trivially full, so the report
/// is round `1` (or `0` with no rounds at all).
pub fn run_sim(
    n: usize,
    batch_size: usize,
    max_rounds: usize,
    num_trials: usize,
    bad_count: usize,
    t_num: u64,
    t_den: u64,
    tally: &mut Vec<usize>,
) -> (r: Result<usize, SimError>)
    requires
        2 <= n,
        batch_size <= n,
        bad_count < n,
        t_den >= 1,
        max_rounds < usize::MAX,
        num_trials < usize::MAX,
    ensures
        final(tally)@.len() == max_rounds,
        forall|t: int| 0 <= t < max_rounds ==> #[trigger] final(tally)@[t] <= num_trials,
        r matches Ok(v) ==> sim_report(v, final(tally)@, max_rounds, num_trials),
        r matches Ok(v) ==> v <= max_rounds,
        max_rounds == 0 ==> r == Ok::<usize, SimError>(0),
        num_trials == 0 && max_rounds >= 1 ==> r == Ok::<usize, SimError>(1),
        batch_size <= 1 ==> r is Ok,
{
    let mut rng = fresh_rng();
    let mut zeros: Vec<usize> = Vec::new();
    let mut t: usize = 0;
    while t < max_rounds
        invariant
            0 <= t <= max_rounds,
            zeros@.len() == t,
            forall|t2: int| 0 <= t2 < t ==> #[trigger] zeros@[t2] == 0,
        decreases max_rounds - t,
    {
        zeros.push(0);
        t += 1;
    }
    *tally = zeros;
    let mut trial: usize = 0;
    while trial < num_trials
        invariant
            0 <= trial <= num_trials,
            num_trials < usize::MAX,
            max_rounds < usize::MAX,
            2 <= n,
            batch_size <= n,
            bad_count < n,
            t_den >= 1,
            tally@.len() == max_rounds,
            forall|t2: int| 0 <= t2 < max_rounds ==> #[trigger] tally@[t2] <= trial,
        decreases num_trials - trial,
    {
        let bad = sample_indices(&mut rng, 1, n, bad_count);
        let mut cups = init_cups(n);
        proof {
            assert forall|i: int|
                0 <= i < n && bad@.contains(i as usize) implies cups.nums@[i] == 0 by {
                let j = choose|j: int| 0 <= j < bad@.len() && bad@[j] == i as usize;
                assert(bad@[j] >= 1);
            }
        }
        let rr = run_rounds(
            &mut cups,
            &bad,
            t_num,
            t_den,
            &mut rng,
            tally,
            n,
            batch_size,
            max_rounds,
        );
        match rr.0 {
            Ok(()) => {},
            Err(e) => {
                return Err(e);
            },
        }
        trial += 1;
    }
    let res = get_success_round(tally, num_trials);
    proof {
        if max_rounds == 0 {
            assert(res == 0);
        }
        if num_trials == 0 && max_rounds >= 1 {
            // Every count is 0 == num_trials, so the scan stops at round 0.
            assert(tally@[0] == num_trials);
            assert(res != 0);
            if res >= 2 {
                assert(tally@[0] != num_trials);
            }
            assert(res == 1);
        }
        assert(forall|t2: int| 0 <= t2 < max_rounds ==> #[trigger] tally@[t2] <= num_trials);
        assert(sim_report(res, tally@, max_rounds, num_trials));
        if res != 0 {
            assert(res <= max_rounds);
        }
    }
    Ok(res)
}

} // verus!

