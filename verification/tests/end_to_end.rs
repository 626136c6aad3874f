use rand::seq::IteratorRandom;

use water_shuffle::agg::get_success_round;
use water_shuffle::rounds::{corrupted_count, target_threshold};
use water_shuffle::subset::honest_subset;

#[test]
fn end_to_end_scenario() {
    // A full configuration at a quarter corruption: N = 1024, batches of 16,
    // 50 trials of up to 500 rounds.  The mass arithmetic runs on f64 here,
    // as the full-scale simulation does; the batch bookkeeping, the threshold
    // and the aggregation come from the library.
    let n: usize = 1024;
    let batch_size: usize = 16;
    let max_rounds: usize = 500;
    let trials: usize = 50;
    let bad_k = corrupted_count(n, 25);
    assert_eq!(bad_k, 256);
    let (t_num, t_den) = target_threshold(n, 25);
    let threshold = t_num as f64 / t_den as f64;
    assert!((threshold - 0.0052083).abs() < 1e-6);

    let mut rng = rand::thread_rng();
    let mut tally: Vec<usize> = vec![0; max_rounds];
    for _ in 0..trials {
        let bad: Vec<usize> = (1..n).choose_multiple(&mut rng, bad_k);
        let mut water: Vec<f64> = vec![0.0; n];
        water[0] = 1.0;
        for t in 0..max_rounds {
            let batch: Vec<usize> = (0..n).choose_multiple(&mut rng, batch_size);
            let honest = honest_subset(&batch, &bad);
            if !honest.is_empty() {
                let mut total: f64 = 0.0;
                for i in &honest {
                    total += water[*i];
                }
                let avg = total / honest.len() as f64;
                for i in &honest {
                    water[*i] = avg;
                }
            }
            let mut max_w: f64 = 0.0;
            for w in &water {
                if *w > max_w {
                    max_w = *w;
                }
            }
            if max_w < threshold {
                tally[t] += 1;
            }
            // The excluded invariant, checked at every observation point:
            // a corrupted slot holds exactly no mass.
            for b in &bad {
                assert_eq!(water[*b], 0.0);
            }
        }
    }
    let r = get_success_round(&tally, trials);
    assert!(r <= max_rounds);
}
