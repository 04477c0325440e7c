use prime_bench::primes::{count_primes_sieve, count_primes_trial, gen_sieve_of_eratosthenes, is_prime};

#[test]
fn known_primes_and_non_primes() {
    assert!(is_prime(2));
    assert!(is_prime(3));
    assert!(!is_prime(4));
    assert!(is_prime(17));
    assert!(!is_prime(1));
    assert!(!is_prime(0));
}

#[test]
fn squares_of_primes_are_composite() {
    assert!(!is_prime(9));
    assert!(!is_prime(25));
    assert!(!is_prime(49));
    assert!(!is_prime(4_293_001_441));
}

#[test]
fn extreme_u32_values() {
    assert!(is_prime(4_294_967_291));
    assert!(!is_prime(u32::MAX));
    assert!(is_prime(65_521));
}

#[test]
fn sieve_of_thirty() {
    let sieve = gen_sieve_of_eratosthenes(30);
    assert_eq!(sieve.len(), 31);
    let primes = [2usize, 3, 5, 7, 11, 13, 17, 19, 23, 29];
    for k in 0..=30usize {
        assert_eq!(sieve[k], primes.contains(&k), "index {}", k);
    }
}

#[test]
fn sieve_marks_zero_and_one_composite() {
    for n in 1..=60u32 {
        let sieve = gen_sieve_of_eratosthenes(n);
        assert_eq!(sieve.len(), n as usize + 1);
        assert!(!sieve[0]);
        assert!(!sieve[1]);
    }
}

#[test]
fn sieve_of_one() {
    assert_eq!(gen_sieve_of_eratosthenes(1), vec![false, false]);
}

#[test]
fn trial_division_agrees_with_sieve_lookup() {
    for n in [2u32, 3, 4, 10, 97, 100, 1000] {
        let sieve = gen_sieve_of_eratosthenes(n);
        for k in 0..=n {
            assert_eq!(is_prime(k), sieve[k as usize], "n = {}, k = {}", n, k);
        }
    }
}

#[test]
fn both_counts_on_a_fixed_sample() {
    let sample: Vec<u32> = vec![0, 1, 2, 3, 4, 17, 17, 30, 29, 25];
    let sieve = gen_sieve_of_eratosthenes(30);
    assert_eq!(count_primes_trial(&sample), 5);
    assert_eq!(count_primes_sieve(&sieve, &sample), 5);
    assert_eq!(count_primes_trial(&Vec::new()), 0);
}
