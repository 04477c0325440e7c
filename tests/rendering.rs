use prime_bench::report::{render_line, BenchmarkResult};

#[test]
fn line_of_numbers() {
    assert_eq!(render_line(&vec![0, 7, 1234567890123]), b"0 7 1234567890123\n".to_vec());
}

#[test]
fn line_of_nothing() {
    assert_eq!(render_line(&Vec::new()), b"\n".to_vec());
}

#[test]
fn line_of_largest_value() {
    let expected = format!("{} 10\n", u128::MAX);
    assert_eq!(render_line(&vec![u128::MAX, 10]), expected.into_bytes());
}

#[test]
fn result_lines() {
    let mut result = BenchmarkResult::new();
    result.record(20, 1500, 900);
    result.record(40, 3100, 1000);
    assert_eq!(result.sizes_line(), b"20 40\n".to_vec());
    assert_eq!(result.simple_totals_line(), b"1500 3100\n".to_vec());
    assert_eq!(result.sieve_totals_line(), b"900 1000\n".to_vec());
}

#[test]
fn rendering_twice_gives_the_same_bytes() {
    let mut result = BenchmarkResult::new();
    result.record(usize::MAX, 5, 0);
    let first = (result.sizes_line(), result.simple_totals_line(), result.sieve_totals_line());
    let second = (result.sizes_line(), result.simple_totals_line(), result.sieve_totals_line());
    assert_eq!(first, second);
    assert_eq!(first.0, format!("{}\n", usize::MAX).into_bytes());
}
