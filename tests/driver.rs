use prime_bench::bench::{fill_sample, run_trial, worker};
use prime_bench::primes::count_primes_trial;

#[test]
fn tiny_run_over_one_size() {
    let mut rng = rand::thread_rng();
    let run = worker(&vec![40], &mut rng, 50, 1);
    assert_eq!(run.result.sizes, vec![40]);
    assert_eq!(run.result.simple_totals.len(), 1);
    assert_eq!(run.result.sieve_totals.len(), 1);
    assert_eq!(run.simple_count, run.sieve_count);
}

#[test]
fn run_over_several_sizes_and_repetitions() {
    let mut rng = rand::thread_rng();
    let run = worker(&vec![20, 40, 60], &mut rng, 1000, 3);
    assert_eq!(run.result.sizes, vec![20, 40, 60]);
    assert_eq!(run.result.simple_totals.len(), 3);
    assert_eq!(run.result.sieve_totals.len(), 3);
    assert_eq!(run.simple_count, run.sieve_count);
    assert!(run.simple_count <= 3 * 120);
}

#[test]
fn empty_sweep_gives_empty_result() {
    let mut rng = rand::thread_rng();
    let run = worker(&Vec::new(), &mut rng, 10, 2);
    assert!(run.result.sizes.is_empty());
    assert_eq!(run.simple_count, 0);
    assert_eq!(run.sieve_count, 0);
}

#[test]
fn samples_stay_within_bound() {
    let mut rng = rand::thread_rng();
    let mut sample = vec![u32::MAX; 500];
    fill_sample(&mut sample, &mut rng, 7);
    assert_eq!(sample.len(), 500);
    assert!(sample.iter().all(|&v| v <= 7));
    assert!(sample.iter().any(|&v| v != sample[0]));
}

#[test]
fn samples_with_zero_bound_are_zero() {
    let mut rng = rand::thread_rng();
    let mut sample = vec![9u32; 20];
    fill_sample(&mut sample, &mut rng, 0);
    assert_eq!(sample, vec![0u32; 20]);
}

#[test]
fn one_trial_counts_alike() {
    let sample: Vec<u32> = vec![2, 3, 4, 5, 49, 50, 47];
    let trial = run_trial(&sample, 50);
    assert_eq!(trial.simple_primes, 4);
    assert_eq!(trial.sieve_primes, 4);
    assert_eq!(count_primes_trial(&sample), 4);
}
