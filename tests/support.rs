use fibrust_core::digits::{carry_propagate, digits_to_ubig, ubig_to_digits, ubig_to_digits_sequential};
use fibrust_core::fft::{choose_base_bits, transform_length};
use fibrust_core::format::format_number;
use fibrust_core::memo::{fib_doubling, LruCache};
use fibrust_core::{fibonacci_fast_doubling, run_all_parallel, FibNumber};

#[test]
fn ubig_to_digits_zero() {
    let zero = FibNumber::from(0u32);
    let digits = ubig_to_digits(&zero, 14);
    assert_eq!(digits, vec![0]);
}

#[test]
fn ubig_to_digits_small_values() {
    let one = FibNumber::from(1u32);
    let digits = ubig_to_digits(&one, 14);
    assert_eq!(digits, vec![1]);
    let hundred = FibNumber::from(100u32);
    let digits = ubig_to_digits(&hundred, 14);
    assert_eq!(digits, vec![100]);
}

#[test]
fn ubig_to_digits_large_value() {
    let val = FibNumber::from(16384u32);
    let digits = ubig_to_digits(&val, 14);
    assert_eq!(digits, vec![0, 1]);
}

#[test]
fn digits_to_ubig_empty() {
    let digits: Vec<u64> = vec![];
    let result = digits_to_ubig(&digits, 14);
    assert_eq!(result, FibNumber::from(0u32));
}

#[test]
fn digits_to_ubig_single() {
    let digits = vec![42u64];
    let result = digits_to_ubig(&digits, 14);
    assert_eq!(result, FibNumber::from(42u32));
}

#[test]
fn digits_to_ubig_multiple() {
    let digits = vec![0u64, 1];
    let result = digits_to_ubig(&digits, 14);
    assert_eq!(result, FibNumber::from(16384u32));
}

#[test]
fn ubig_digits_round_trip() {
    let test_values = [
        FibNumber::from(0u32),
        FibNumber::from(1u32),
        FibNumber::from(12345u32),
        FibNumber::from(u64::MAX),
        FibNumber::from(u128::MAX),
    ];
    for val in test_values {
        let digits = ubig_to_digits(&val, 14);
        let digits_u64: Vec<u64> = digits.iter().map(|&d| d as u64).collect();
        let recovered = digits_to_ubig(&digits_u64, 14);
        assert_eq!(recovered, val, "Round-trip failed for {:?}", val);
    }
}

#[test]
fn digits_of_bytes_trim_high_zeros() {
    assert_eq!(ubig_to_digits_sequential(&[0xff, 0x01, 0, 0], 13), vec![0x1ff]);
    assert_eq!(ubig_to_digits_sequential(&[], 13), vec![0]);
    let f = fibonacci_fast_doubling(3000);
    for bits in [1usize, 7, 12, 13, 32] {
        let d: Vec<u64> = ubig_to_digits(&f, bits).iter().map(|&x| x as u64).collect();
        assert!(d.iter().all(|&x| x < (1u64 << bits)));
        assert_eq!(digits_to_ubig(&d, bits), f);
    }
}

#[test]
fn carry_pass_normalizes_coefficients() {
    // 5 + 20·8 − 3·64 + 4·512 = 2021 in base 8.
    let digits = carry_propagate(&vec![5, 20, -3, 4], 3);
    assert!(digits.iter().all(|&d| d < 8));
    assert_eq!(digits_to_ubig(&digits, 3), FibNumber::from(2021u32));
    // A carry that runs past the last coefficient.
    let digits = carry_propagate(&vec![1000], 4);
    assert_eq!(digits_to_ubig(&digits, 4), FibNumber::from(1000u32));
    assert_eq!(digits, vec![8, 14, 3]);
}

#[test]
fn digit_size_and_transform_length() {
    assert_eq!(choose_base_bits(10, 20), 13);
    assert_eq!(choose_base_bits(50_000_000, 50_000_000), 13);
    assert_eq!(choose_base_bits(50_000_001, 50_000_000), 12);
    assert_eq!(choose_base_bits(usize::MAX, usize::MAX), 12);
    assert_eq!(transform_length(0), 1);
    assert_eq!(transform_length(1), 1);
    assert_eq!(transform_length(5), 8);
    assert_eq!(transform_length(8), 8);
    assert_eq!(transform_length(1025), 2048);
}

#[test]
fn thousands_separators() {
    assert_eq!(format_number(0), "0");
    assert_eq!(format_number(999), "999");
    assert_eq!(format_number(1000), "1,000");
    assert_eq!(format_number(1_000_000), "1,000,000");
    assert_eq!(format_number(1234567), "1,234,567");
}

#[test]
fn cached_doubling_limits_and_values() {
    let mut cache = LruCache::new();
    assert_eq!(fib_doubling(&mut cache, 0), Ok(FibNumber::from(0u32)));
    assert_eq!(fib_doubling(&mut cache, 1), Ok(FibNumber::from(1u32)));
    assert_eq!(fib_doubling(&mut cache, 90), Ok(FibNumber::from(2880067194370816120u64)));
    assert_eq!(fib_doubling(&mut cache, 90), Ok(FibNumber::from(2880067194370816120u64)));
    assert!(cache.get(90).is_some());
    assert_eq!(fib_doubling(&mut cache, 500_000_002), Err("n est trop grand pour cette implémentation"));
}

#[test]
fn run_all_parallel_returns_three_results() {
    let results = run_all_parallel(10);
    assert_eq!(results.len(), 3, "Should return 3 algorithm results");
}

#[test]
fn run_all_parallel_consistent_results() {
    let results = run_all_parallel(100);
    let first_result = &results[0].2;
    for (name, _, result) in &results {
        assert_eq!(result, first_result, "Algorithm {} produced different result", name);
    }
}

#[test]
fn run_all_parallel_has_all_algorithms() {
    let results = run_all_parallel(50);
    let names: Vec<&str> = results.iter().map(|(n, _, _)| n.as_str()).collect();
    assert!(names.iter().any(|n| n.contains("Fast") || n.contains("Doubling")));
    assert!(names.iter().any(|n| n.contains("Parallel")));
    assert!(names.iter().any(|n| n.contains("FFT")));
}

#[test]
fn run_all_parallel_known_value() {
    let results = run_all_parallel(10);
    let expected = FibNumber::from(55u32);
    for (name, _, result) in &results {
        assert_eq!(result, &expected, "Algorithm {} produced wrong value", name);
    }
}
