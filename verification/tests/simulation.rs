use water_shuffle::agg::get_success_round;
use water_shuffle::masses::{distribute_water_batch, init_cups, max_water, Masses, RoundOutcome,
    SimError};
use water_shuffle::rounds::{below_threshold, corrupted_count, distribute_water, run_rounds,
    run_sim, target_threshold};
use water_shuffle::subset::{contains_idx, honest_subset};

#[test]
fn honest_subset_is_batch_minus_corrupted() {
    let batch: Vec<usize> = vec![3, 1, 5];
    let corrupted: Vec<usize> = vec![1, 9];
    assert_eq!(honest_subset(&batch, &corrupted), vec![3, 5]);
    assert!(contains_idx(&corrupted, 9));
    assert!(!contains_idx(&corrupted, 3));
}

#[test]
fn init_cups_tracks_slot_zero() {
    let cups = init_cups(4);
    assert_eq!(cups.nums, vec![1, 0, 0, 0]);
    assert_eq!(cups.den, 1);
}

#[test]
fn max_water_picks_largest_numerator() {
    let cups = Masses { nums: vec![2, 9, 4], den: 1 };
    assert_eq!(max_water(&cups), 9);
}

#[test]
fn mass_conservation() {
    // Slots 0 and 3 are the honest part of the batch; their mass before is
    // 5/2 + 9/2 and must equal the mass after, 14/4 + 14/4.
    let mut cups = Masses { nums: vec![5, 7, 0, 9, 4], den: 2 };
    let corrupted: Vec<usize> = vec![1];
    let batch: Vec<usize> = vec![0, 3, 1];
    let r = distribute_water_batch(&mut cups, &corrupted, &batch);
    assert_eq!(r, Ok(RoundOutcome::Distributed));
    assert_eq!(cups.den, 4);
    let sum_before: u64 = 5 + 9;
    let sum_after: u64 = cups.nums[0] + cups.nums[3];
    assert_eq!(sum_after * 2, sum_before * 4);
}

#[test]
fn uniform_post_round_value() {
    let mut cups = Masses { nums: vec![5, 7, 0, 9, 4], den: 2 };
    let corrupted: Vec<usize> = vec![1];
    let batch: Vec<usize> = vec![0, 3, 1];
    let r = distribute_water_batch(&mut cups, &corrupted, &batch);
    assert_eq!(r, Ok(RoundOutcome::Distributed));
    // Both honest slots hold the identical averaged value; untouched and
    // corrupted slots keep their old value over the scaled denominator.
    assert_eq!(cups.nums, vec![14, 14, 0, 14, 8]);
    assert_eq!(cups.nums[0], cups.nums[3]);
}

#[test]
fn degenerate_no_op() {
    // The whole batch is corrupted: the round must change nothing at all.
    let mut cups = Masses { nums: vec![5, 7], den: 3 };
    let corrupted: Vec<usize> = vec![1];
    let batch: Vec<usize> = vec![1];
    let r = distribute_water_batch(&mut cups, &corrupted, &batch);
    assert_eq!(r, Ok(RoundOutcome::Degenerate));
    assert_eq!(cups.nums, vec![5, 7]);
    assert_eq!(cups.den, 3);
}

#[test]
fn excluded_invariant_over_rounds() {
    // Over several random rounds, corrupted slots must hold no mass at any
    // observation point.
    let mut rng = rand::thread_rng();
    let n: usize = 16;
    let corrupted: Vec<usize> = vec![3, 5, 9];
    let mut cups = init_cups(n);
    for b in &corrupted {
        assert_eq!(cups.nums[*b], 0);
    }
    for _ in 0..5 {
        let r = distribute_water(&mut cups, &corrupted, &mut rng, n, 4);
        assert!(r.is_ok());
        for b in &corrupted {
            assert_eq!(cups.nums[*b], 0);
        }
    }
}

#[test]
fn overflow_reported_and_state_kept() {
    // Numerators that cannot be summed in a 64-bit word: the round reports
    // the overflow and leaves the mapping untouched.
    let mut cups = Masses { nums: vec![u64::MAX, u64::MAX], den: 1 };
    let corrupted: Vec<usize> = vec![];
    let batch: Vec<usize> = vec![0, 1];
    let r = distribute_water_batch(&mut cups, &corrupted, &batch);
    assert_eq!(r, Err(SimError::MassOverflow));
    assert_eq!(cups.nums, vec![u64::MAX, u64::MAX]);
    assert_eq!(cups.den, 1);
}

#[test]
fn sampled_batch_drives_the_round() {
    // With nothing corrupted, the drawn batch is the honest part, so the
    // shared denominator must be scaled by exactly the batch size, and the
    // global mass 1 is kept: the numerators sum to the new denominator.
    let mut rng = rand::thread_rng();
    let mut cups = init_cups(8);
    let corrupted: Vec<usize> = vec![];
    let r = distribute_water(&mut cups, &corrupted, &mut rng, 8, 4);
    assert_eq!(r, Ok(RoundOutcome::Distributed));
    assert_eq!(cups.den, 4);
    let total: u64 = cups.nums.iter().sum();
    assert_eq!(total, 4);
}

#[test]
fn aggregator_first_universal_round() {
    // Tally {0: 3, 1: 5, 2: 5} over 5 trials: round index 1 is the first to
    // reach 5/5, reported 1-based as 2.
    let tally: Vec<usize> = vec![3, 5, 5];
    assert_eq!(get_success_round(&tally, 5), 2);
}

#[test]
fn aggregator_never_sentinel() {
    let tally: Vec<usize> = vec![3, 4, 4];
    assert_eq!(get_success_round(&tally, 5), 0);
    let empty: Vec<usize> = vec![];
    assert_eq!(get_success_round(&empty, 5), 0);
}

#[test]
fn threshold_formula_exact() {
    // 4 / (1024 * (1 - 0.25)) as the exact rational 400 / 76800.
    assert_eq!(target_threshold(1024, 25), (400, 76800));
    assert_eq!(target_threshold(16384, 25), (400, 1228800));
    assert_eq!(corrupted_count(1024, 25), 256);
    assert_eq!(corrupted_count(16384, 25), 4096);
    // floor(16384 * 0.01) = 163
    assert_eq!(corrupted_count(16384, 1), 163);
}

#[test]
fn threshold_sensitivity() {
    // A larger corruption share gives a strictly larger threshold:
    // compare the rationals with denominators cross-multiplied.
    let (n1, d1) = target_threshold(16384, 10);
    let (n2, d2) = target_threshold(16384, 20);
    assert!((n1 as u128) * (d2 as u128) < (n2 as u128) * (d1 as u128));
}

#[test]
fn below_threshold_compares_rationals() {
    assert!(below_threshold(1, 3, 1, 2));
    assert!(!below_threshold(1, 2, 1, 2));
    assert!(!below_threshold(3, 4, 1, 2));
}

#[test]
fn run_sim_succeeds_immediately_under_lax_threshold() {
    // Threshold 2/1: every mass lies below it from the first round on, so all
    // trials succeed in round 0 and the reported round is 1.
    let mut tally: Vec<usize> = Vec::new();
    let r = run_sim(8, 4, 3, 2, 2, 2, 1, &mut tally);
    assert_eq!(r, Ok(1));
    assert_eq!(tally, vec![2, 2, 2]);
}

#[test]
fn run_sim_never_succeeds_under_tiny_threshold() {
    // Threshold 1/1000000: the total mass 1 over 8 slots keeps the largest
    // mass at 1/8 at least, so no round ever succeeds.
    let mut tally: Vec<usize> = Vec::new();
    let r = run_sim(8, 4, 3, 2, 2, 1, 1000000, &mut tally);
    assert_eq!(r, Ok(0));
    assert_eq!(tally, vec![0, 0, 0]);
}

#[test]
fn fully_corrupted_universe_is_always_degenerate() {
    // Every slot is corrupted, so whatever batch is drawn its honest part is
    // empty and nothing ever moves.
    let mut rng = rand::thread_rng();
    let corrupted: Vec<usize> = (0..8).collect();
    let mut cups = init_cups(8);
    for _ in 0..3 {
        let r = distribute_water(&mut cups, &corrupted, &mut rng, 8, 4);
        assert_eq!(r, Ok(RoundOutcome::Degenerate));
        assert_eq!(cups.den, 1);
        assert_eq!(cups.nums[0], 1);
    }
}

#[test]
fn run_rounds_tallies_by_threshold() {
    // Threshold 2/1: no mass can exceed the total of 1, so every round of
    // every trial succeeds and each round's tally entry rises by one.
    let mut rng = rand::thread_rng();
    let corrupted: Vec<usize> = vec![];
    let mut cups = init_cups(8);
    let mut tally: Vec<usize> = vec![0; 3];
    let r = run_rounds(&mut cups, &corrupted, 2, 1, &mut rng, &mut tally, 8, 4, 3);
    assert_eq!(r.0, Ok(()));
    assert_eq!(tally, vec![1, 1, 1]);
    // Threshold 1/1000000: the largest of 8 slots holds at least 1/8 of the
    // conserved total, so no round ever succeeds.
    let mut cups2 = init_cups(8);
    let mut tally2: Vec<usize> = vec![0; 3];
    let r2 = run_rounds(&mut cups2, &corrupted, 1, 1000000, &mut rng, &mut tally2, 8, 4, 3);
    assert_eq!(r2.0, Ok(()));
    assert_eq!(tally2, vec![0, 0, 0]);
}
