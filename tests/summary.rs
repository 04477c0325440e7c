use prime_bench::bench::{summarize_trials, worker, BenchmarkRun, Trial};

fn trial(simple_nanos: u128, sieve_nanos: u128, primes: usize) -> Trial {
    Trial { simple_nanos, sieve_nanos, simple_primes: primes, sieve_primes: primes }
}

#[test]
fn means_are_floored() {
    let trials = vec![trial(10, 100, 1), trial(11, 200, 2), trial(12, 301, 0)];
    let summary = summarize_trials(&trials);
    assert_eq!(summary.simple_mean, 11);
    assert_eq!(summary.sieve_mean, 200);
    assert_eq!(summary.simple_primes, 3);
    assert_eq!(summary.sieve_primes, 3);
}

#[test]
fn floor_mean_truncates_downward() {
    let trials = vec![trial(1, 0, 0), trial(2, 1, 0)];
    let summary = summarize_trials(&trials);
    assert_eq!(summary.simple_mean, 1);
    assert_eq!(summary.sieve_mean, 0);
}

#[test]
fn mean_of_one_trial_is_its_time() {
    let summary = summarize_trials(&vec![trial(987_654_321, 5, 4)]);
    assert_eq!(summary.simple_mean, 987_654_321);
    assert_eq!(summary.sieve_mean, 5);
    assert_eq!(summary.simple_primes, 4);
}

#[test]
fn mean_of_huge_times_does_not_overflow() {
    let trials = vec![trial(u128::MAX, u128::MAX - 1, 0), trial(u128::MAX, u128::MAX, 0)];
    let summary = summarize_trials(&trials);
    assert_eq!(summary.simple_mean, u128::MAX);
    assert_eq!(summary.sieve_mean, u128::MAX - 1);
}

#[test]
fn prime_totals_of_large_counts() {
    let trials = vec![trial(0, 0, usize::MAX), trial(0, 0, usize::MAX)];
    let summary = summarize_trials(&trials);
    assert_eq!(summary.simple_primes, 2 * usize::MAX as u128);
    assert_eq!(summary.sieve_primes, 2 * usize::MAX as u128);
}

#[test]
fn measuring_sizes_one_at_a_time() {
    let mut rng = rand::thread_rng();
    let mut run = BenchmarkRun::new();
    assert!(run.result.sizes.is_empty());
    assert_eq!(run.simple_count, 0);
    run.measure_size(&mut rng, 50, 30, 2);
    run.measure_size(&mut rng, 50, 60, 2);
    assert_eq!(run.result.sizes, vec![30, 60]);
    assert_eq!(run.result.simple_totals.len(), 2);
    assert_eq!(run.result.sieve_totals.len(), 2);
    assert_eq!(run.simple_count, run.sieve_count);
    assert!(run.simple_count <= 2 * 90);
}

#[test]
fn bound_of_one_finds_no_primes() {
    let mut rng = rand::thread_rng();
    let run = worker(&vec![100, 200], &mut rng, 1, 3);
    assert_eq!(run.simple_count, 0);
    assert_eq!(run.sieve_count, 0);
}

#[test]
fn bound_of_two_counts_every_two() {
    let mut rng = rand::thread_rng();
    let run = worker(&vec![300], &mut rng, 2, 2);
    assert_eq!(run.simple_count, run.sieve_count);
    assert!(run.simple_count > 0);
    assert!(run.simple_count < 600);
}

#[test]
fn each_run_counts_only_its_own_samples() {
    let mut rng = rand::thread_rng();
    let first = worker(&vec![500], &mut rng, 1000, 2);
    let second = worker(&vec![20], &mut rng, 1, 1);
    assert!(first.simple_count > 0);
    assert_eq!(second.simple_count, 0);
    assert_eq!(second.sieve_count, 0);
}
