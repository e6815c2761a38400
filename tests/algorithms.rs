use fibrust_core::fft::unified_doubling_step;
use fibrust_core::{
    calibrate_parallel_threshold, fib_range_parallel, fibonacci_adaptive, fibonacci_fast_doubling,
    fibonacci_fft, fibonacci_matrix, fibonacci_parallel, get_parallel_threshold, FibNumber, FibRange,
    ThresholdCache,
};

#[test]
fn calibrate_parallel_threshold_returns_valid_value() {
    let threshold = calibrate_parallel_threshold();
    assert!(threshold >= 20_000, "Threshold {} too low", threshold);
    assert!(threshold <= 80_000, "Threshold {} too high", threshold);
}

#[test]
fn get_parallel_threshold_memoized() {
    let mut cache = ThresholdCache::new();
    let threshold1 = get_parallel_threshold(&mut cache);
    let threshold2 = get_parallel_threshold(&mut cache);
    assert_eq!(threshold1, threshold2, "Threshold not memoized");
}

#[test]
fn get_parallel_threshold_consistent() {
    let mut cache = ThresholdCache::new();
    let values: Vec<usize> = (0..5).map(|_| get_parallel_threshold(&mut cache)).collect();
    let first = values[0];
    assert!(values.iter().all(|&v| v == first), "Threshold values inconsistent");
}

#[test]
fn fibonacci_parallel_base_cases() {
    assert_eq!(fibonacci_parallel(0), FibNumber::from(0u32));
    assert_eq!(fibonacci_parallel(1), FibNumber::from(1u32));
    assert_eq!(fibonacci_parallel(2), FibNumber::from(1u32));
}

#[test]
fn fibonacci_parallel_known_values() {
    assert_eq!(fibonacci_parallel(10), FibNumber::from(55u32));
    assert_eq!(fibonacci_parallel(20), FibNumber::from(6765u32));
    assert_eq!(fibonacci_parallel(50), FibNumber::from(12586269025u64));
}

#[test]
fn fibonacci_parallel_consistency_with_fast_doubling() {
    for n in [0, 1, 2, 10, 100, 500, 1000] {
        let parallel_result = fibonacci_parallel(n);
        let fd_result = fibonacci_fast_doubling(n);
        assert_eq!(parallel_result, fd_result, "Mismatch at n={}", n);
    }
}

#[test]
fn fibonacci_parallel_recurrence() {
    for n in [0, 1, 10, 100, 500] {
        let fn_val = fibonacci_parallel(n);
        let fn1_val = fibonacci_parallel(n + 1);
        let fn2_val = fibonacci_parallel(n + 2);
        assert_eq!(fn_val.add(&fn1_val), fn2_val, "Recurrence failed at n={}", n);
    }
}

#[test]
fn fibonacci_parallel_medium_value() {
    let f1000 = fibonacci_parallel(1000);
    assert_eq!(f1000.decimal().len(), 209);
}

#[test]
fn fibonacci_matrix_alias_works() {
    assert_eq!(fibonacci_matrix(10), fibonacci_parallel(10));
    assert_eq!(fibonacci_matrix(100), fibonacci_parallel(100));
}

#[test]
fn unified_fft_step_zero_a() {
    let a = FibNumber::from(0u32);
    let b = FibNumber::from(5u32);
    let (c, d) = unified_doubling_step(&a, &b);
    assert_eq!(c, FibNumber::from(0u32));
    assert_eq!(d, FibNumber::from(25u32));
}

#[test]
fn unified_fft_step_known_values() {
    let a = FibNumber::from(0u32);
    let b = FibNumber::from(1u32);
    let (c, d) = unified_doubling_step(&a, &b);
    assert_eq!(c, FibNumber::from(0u32));
    assert_eq!(d, FibNumber::from(1u32));
}

#[test]
fn fibonacci_fft_base_cases() {
    assert_eq!(fibonacci_fft(0), FibNumber::from(0u32));
    assert_eq!(fibonacci_fft(1), FibNumber::from(1u32));
    assert_eq!(fibonacci_fft(2), FibNumber::from(1u32));
}

#[test]
fn fibonacci_fft_known_values() {
    assert_eq!(fibonacci_fft(10), FibNumber::from(55u32));
    assert_eq!(fibonacci_fft(20), FibNumber::from(6765u32));
    assert_eq!(fibonacci_fft(50), FibNumber::from(12586269025u64));
}

#[test]
fn fibonacci_fft_consistency_with_fast_doubling() {
    for n in [0, 1, 10, 100, 500, 1000] {
        let fft_result = fibonacci_fft(n);
        let fd_result = fibonacci_fast_doubling(n);
        assert_eq!(fft_result, fd_result, "Mismatch at n={}", n);
    }
}

#[test]
fn fibonacci_fft_medium_value() {
    let f1000 = fibonacci_fft(1000);
    assert_eq!(f1000.decimal().len(), 209);
}

#[test]
fn fibonacci_adaptive_base_cases() {
    assert_eq!(fibonacci_adaptive(0), FibNumber::from(0u32));
    assert_eq!(fibonacci_adaptive(1), FibNumber::from(1u32));
    assert_eq!(fibonacci_adaptive(2), FibNumber::from(1u32));
}

#[test]
fn fibonacci_adaptive_known_values() {
    assert_eq!(fibonacci_adaptive(10), FibNumber::from(55u32));
    assert_eq!(fibonacci_adaptive(20), FibNumber::from(6765u32));
}

#[test]
fn fibonacci_adaptive_fast_doubling_range() {
    let n = 39_999;
    let result = fibonacci_adaptive(n);
    let expected = fibonacci_fast_doubling(n);
    assert_eq!(result, expected, "Fast Doubling range mismatch");
}

#[test]
fn fibonacci_adaptive_parallel_range() {
    let n = 40_000;
    let adaptive_result = fibonacci_adaptive(n);
    let parallel_result = fibonacci_parallel(n);
    assert_eq!(adaptive_result, parallel_result, "Parallel crossover mismatch");
    let n2 = 100_000;
    let adaptive_result2 = fibonacci_adaptive(n2);
    let parallel_result2 = fibonacci_parallel(n2);
    assert_eq!(adaptive_result2, parallel_result2, "Parallel range mismatch");
}

#[test]
fn fibonacci_adaptive_fft_range() {
    let n = 200_000;
    let adaptive_result = fibonacci_adaptive(n);
    let fft_result = fibonacci_fft(n);
    assert_eq!(adaptive_result, fft_result, "FFT crossover mismatch");
}

#[test]
fn fibonacci_adaptive_consistency() {
    for n in [0, 1, 100, 1000, 10_000, 39_999] {
        let adaptive = fibonacci_adaptive(n);
        let fd = fibonacci_fast_doubling(n);
        assert_eq!(adaptive, fd, "Consistency check failed at n={}", n);
    }
}

#[test]
fn fib_range_parallel_empty_when_start_equals_end() {
    let results = fib_range_parallel(10, 10, 0);
    assert!(results.is_empty());
}

#[test]
fn fib_range_parallel_empty_when_start_greater() {
    let results = fib_range_parallel(100, 50, 0);
    assert!(results.is_empty());
}

#[test]
fn fib_range_parallel_single_element() {
    let results = fib_range_parallel(10, 11, 0);
    assert_eq!(results.len(), 1);
    assert_eq!(results[0], FibNumber::from(55u32));
}

#[test]
fn fib_range_parallel_auto_chunk_size() {
    let results = fib_range_parallel(0, 100, 0);
    assert_eq!(results.len(), 100);
    assert_eq!(results[0], FibNumber::from(0u32));
    assert_eq!(results[10], FibNumber::from(55u32));
}

#[test]
fn fib_range_parallel_explicit_chunk_size() {
    let results = fib_range_parallel(0, 50, 10);
    assert_eq!(results.len(), 50);
}

#[test]
fn fib_range_parallel_matches_sequential() {
    let parallel_results = fib_range_parallel(0, 50, 0);
    let sequential_results: Vec<FibNumber> = FibRange::new(0, 50).collect();
    assert_eq!(parallel_results.len(), sequential_results.len());
    for (i, (par, seq)) in parallel_results.iter().zip(sequential_results.iter()).enumerate() {
        assert_eq!(par, seq, "Mismatch at index {}", i);
    }
}

#[test]
fn fib_range_parallel_larger_range() {
    let results = fib_range_parallel(1000, 1100, 0);
    assert_eq!(results.len(), 100);
    assert_eq!(results[0], fibonacci_fast_doubling(1000));
    assert_eq!(results[99], fibonacci_fast_doubling(1099));
}
