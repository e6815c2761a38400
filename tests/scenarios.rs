use fibrust_core::{
    estimate_memory_bytes, fib_range, fibonacci_adaptive, fibonacci_fast_doubling, fibonacci_fft,
    fibonacci_parallel, try_fibonacci_adaptive, Algorithm, FibError, FibNumber, FibOps,
};

#[test]
fn adaptive_scenario_small_values() {
    assert_eq!(fibonacci_adaptive(10), FibNumber::from(55u32));
    assert_eq!(fibonacci_adaptive(20), FibNumber::from(6765u32));
    assert_eq!(fibonacci_adaptive(50), FibNumber::from(12_586_269_025u64));
}

#[test]
fn adaptive_scenario_decimal_of_f100() {
    let s = fibonacci_adaptive(100).decimal();
    assert_eq!(s, "354224848179261915075");
    assert_eq!(s.len(), 21);
}

#[test]
fn adaptive_scenario_f1000_has_209_digits() {
    assert_eq!(fibonacci_adaptive(1000).decimal().len(), 209);
}

#[test]
fn range_scenario_forward_and_reverse() {
    let forward = fib_range(10, 15).collect();
    let expected: Vec<FibNumber> = [55u32, 89, 144, 233, 377].iter().map(|&v| FibNumber::from(v)).collect();
    assert_eq!(forward, expected);
    let mut range = fib_range(10, 15);
    let mut backward: Vec<FibNumber> = Vec::new();
    while let Some(v) = range.next_back() {
        backward.push(v);
    }
    let expected_back: Vec<FibNumber> = [377u32, 233, 144, 89, 55].iter().map(|&v| FibNumber::from(v)).collect();
    assert_eq!(backward, expected_back);
}

#[test]
fn range_scenario_empty_ranges() {
    assert!(fib_range(0, 0).collect().is_empty());
    assert!(fib_range(100, 50).collect().is_empty());
}

#[test]
fn adaptive_rejects_index_above_limit() {
    let r = try_fibonacci_adaptive(10_000_000_000_000);
    assert_eq!(r.err(), Some(FibError::InputTooLarge { n: 10_000_000_000_000, max: 1_000_000_000_000 }));
}

#[test]
fn adaptive_rejects_estimated_memory_above_limit() {
    let n = 100_000_000_000u64;
    let r = try_fibonacci_adaptive(n);
    assert_eq!(
        r.err(),
        Some(FibError::MemoryLimitExceeded { required_bytes: 9_500_000_000, limit_bytes: 8 * 1024 * 1024 * 1024 })
    );
}

#[test]
fn adaptive_accepts_limit_edge() {
    let r = try_fibonacci_adaptive(1000);
    assert_eq!(r.ok().map(|v| v.decimal().len()), Some(209));
}

#[test]
fn memory_estimate_formula() {
    assert_eq!(estimate_memory_bytes(0), 0);
    assert_eq!(estimate_memory_bytes(1000), 95);
    assert_eq!(estimate_memory_bytes(999), 94);
    assert_eq!(estimate_memory_bytes(u64::MAX), ((u64::MAX as u128) * 95 / 1000) as u64);
}

#[test]
fn recurrence_holds_for_every_algorithm() {
    for n in 0u64..120 {
        for f in [fibonacci_fast_doubling, fibonacci_parallel, fibonacci_fft, fibonacci_adaptive] {
            assert_eq!(f(n).add(&f(n + 1)), f(n + 2), "n={}", n);
        }
    }
}

#[test]
fn fibonacci_strictly_increases_from_two() {
    for n in 2u64..400 {
        let a = fibonacci_fast_doubling(n);
        let b = fibonacci_fast_doubling(n + 1);
        assert!(b > a, "n={}", n);
        assert!(!b.sub(&a).is_zero(), "n={}", n);
    }
    assert_eq!(fibonacci_fast_doubling(1), fibonacci_fast_doubling(2));
}

#[test]
fn range_matches_pointwise() {
    let start = 517u64;
    let values = fib_range(start, start + 37).collect();
    assert_eq!(values.len(), 37);
    for (i, v) in values.iter().enumerate() {
        assert_eq!(v, &fibonacci_fast_doubling(start + i as u64));
    }
}

#[test]
fn bytes_round_trip() {
    for n in [0u64, 1, 7, 186, 187, 1000, 5000] {
        let b = fibonacci_fast_doubling(n);
        let bytes = b.to_le_bytes();
        assert!(bytes.last() != Some(&0));
        assert_eq!(FibNumber::from_le_bytes(&bytes), b);
    }
    assert!(FibNumber::from(0u32).to_le_bytes().is_empty());
    assert_eq!(FibNumber::from_le_bytes(&[1, 0, 0]), FibNumber::from(1u32));
    assert_eq!(FibNumber::from_le_bytes(&[1, 0, 0]).to_le_bytes(), vec![1]);
    assert_eq!(FibNumber::from(0x0102u32).to_le_bytes(), vec![2, 1]);
}

#[test]
fn arithmetic_through_the_big_integer_engine() {
    let a = FibNumber::from(10u32);
    let b = FibNumber::from(3u32);
    assert_eq!(a.add(&b), FibNumber::from(13u32));
    assert_eq!(a.sub(&b), FibNumber::from(7u32));
    assert_eq!(a.mul(&b), FibNumber::from(30u32));
    assert_eq!(b.square(), FibNumber::from(9u32));
    assert_eq!(FibOps::pow(&b, 4), FibNumber::from(81u32));
    assert_eq!(FibNumber::from(5u32).shl(3), FibNumber::from(40u32));
    assert_eq!(FibNumber::from(55u32).bit_len(), 6);
    assert_eq!(FibNumber::from(0u32).bit_len(), 0);
    assert!(FibNumber::from(0u32).is_zero());
    assert!(!FibNumber::from(1u32).is_zero());
    assert_eq!(FibNumber::from(0u32).decimal(), "0");
    assert_eq!(FibNumber::from(u128::MAX).decimal(), u128::MAX.to_string());
    assert_ne!(a, b);
}

#[test]
fn algorithm_short_names() {
    assert_eq!(Algorithm::from_short_name("fd"), Some(Algorithm::FastDoubling));
    assert_eq!(Algorithm::from_short_name("fast-doubling"), Some(Algorithm::FastDoubling));
    assert_eq!(Algorithm::from_short_name("par"), Some(Algorithm::Parallel));
    assert_eq!(Algorithm::from_short_name("parallel"), Some(Algorithm::Parallel));
    assert_eq!(Algorithm::from_short_name("mx"), Some(Algorithm::Parallel));
    assert_eq!(Algorithm::from_short_name("fft"), Some(Algorithm::Fft));
    assert_eq!(Algorithm::from_short_name("adaptive"), Some(Algorithm::Adaptive));
    assert_eq!(Algorithm::from_short_name("matrix"), None);
    for a in [Algorithm::FastDoubling, Algorithm::Parallel, Algorithm::Fft, Algorithm::Adaptive] {
        assert_eq!(Algorithm::from_short_name(a.short_name()), Some(a));
    }
    assert_eq!(Algorithm::default(), Algorithm::Adaptive);
    assert_eq!(Algorithm::Parallel.display_name(), "Parallel Fast Doubling");
}

#[test]
fn numbers_compare_by_value() {
    let small = FibNumber::from(255u32);
    let large = FibNumber::from(256u32);
    assert!(small < large);
    assert!(large > small);
    assert!(fibonacci_fast_doubling(300) > FibNumber::from(u128::MAX));
    assert_eq!(small.partial_cmp(&FibNumber::from_le_bytes(&[255, 0])), Some(std::cmp::Ordering::Equal));
}

#[test]
fn adaptive_limit_boundaries() {
    let limit = 8 * 1024 * 1024 * 1024u64;
    assert_eq!(estimate_memory_bytes(90_420_364_136), limit);
    assert_eq!(
        try_fibonacci_adaptive(90_420_364_137).err(),
        Some(FibError::MemoryLimitExceeded { required_bytes: limit + 1, limit_bytes: limit })
    );
    assert_eq!(
        try_fibonacci_adaptive(1_000_000_000_000).err(),
        Some(FibError::MemoryLimitExceeded { required_bytes: 95_000_000_000, limit_bytes: limit })
    );
    assert_eq!(
        try_fibonacci_adaptive(1_000_000_000_001).err(),
        Some(FibError::InputTooLarge { n: 1_000_000_000_001, max: 1_000_000_000_000 })
    );
}
