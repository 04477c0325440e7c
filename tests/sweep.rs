use prime_bench::sizes::{gen_sizes, size_sequence, MAX, MIN, STEP};

#[test]
fn sweep_from_twenty_to_one_hundred() {
    assert_eq!(size_sequence(20, 100, 20), vec![20, 40, 60, 80, 100]);
}

#[test]
fn sweep_from_zero_starts_at_step() {
    let sizes = size_sequence(0, 100, 20);
    assert_eq!(sizes[0], 20);
    assert_eq!(sizes, vec![20, 40, 60, 80, 100]);
}

#[test]
fn sweep_stops_at_or_before_max() {
    assert_eq!(size_sequence(20, 95, 20), vec![20, 40, 60, 80]);
    assert_eq!(size_sequence(5, 5, 3), vec![5]);
}

#[test]
fn sweep_with_min_above_max_is_empty() {
    assert!(size_sequence(30, 20, 5).is_empty());
    assert!(size_sequence(0, 10, 20).is_empty());
}

#[test]
fn sweep_near_the_top_of_usize() {
    assert_eq!(size_sequence(usize::MAX - 2, usize::MAX, 2), vec![usize::MAX - 2, usize::MAX]);
}

#[test]
fn standard_sweep() {
    let sizes = gen_sizes();
    assert_eq!(MIN, 20);
    assert_eq!(STEP, 20);
    assert_eq!(MAX, 4000);
    assert_eq!(sizes.len(), 200);
    assert_eq!(sizes[0], 20);
    assert_eq!(sizes[199], 4000);
    assert!(sizes.windows(2).all(|w| w[1] == w[0] + 20));
}
