use fibrust_core::{fib_pair, fib_pair_u128, fibonacci, fibonacci_fast_doubling, fibonacci_u128, FibNumber};

#[test]
fn fibonacci_u128_base_cases() {
    assert_eq!(fibonacci_u128(0), 0);
    assert_eq!(fibonacci_u128(1), 1);
    assert_eq!(fibonacci_u128(2), 1);
}

#[test]
fn fibonacci_u128_known_values() {
    assert_eq!(fibonacci_u128(10), 55);
    assert_eq!(fibonacci_u128(20), 6765);
    assert_eq!(fibonacci_u128(50), 12586269025);
}

#[test]
fn fibonacci_u128_max_boundary() {
    let f185 = fibonacci_u128(185);
    let f186 = fibonacci_u128(186);
    assert!(f186 > f185);
    let f186_str = f186.to_string();
    assert_eq!(f186_str.len(), 39, "F(186) should have 39 digits");
}

#[test]
fn fib_pair_u128_base_cases() {
    assert_eq!(fib_pair_u128(0), (0, 1));
    assert_eq!(fib_pair_u128(1), (1, 1));
    assert_eq!(fib_pair_u128(2), (1, 2));
}

#[test]
fn fib_pair_u128_consistency() {
    for n in 0..100 {
        let (fn_val, fn1_val) = fib_pair_u128(n);
        let (fn1_check, fn2_val) = fib_pair_u128(n + 1);
        assert_eq!(fn1_val, fn1_check, "F(n+1) mismatch at n={}", n);
        assert_eq!(fn_val + fn1_val, fn2_val, "Recurrence failed at n={}", n);
    }
}

#[test]
fn fib_pair_u128_boundary() {
    let (f185, f186) = fib_pair_u128(185);
    assert!(f186 > f185);
    assert_eq!(f185, fibonacci_u128(185));
    assert_eq!(f186, fibonacci_u128(186));
}

#[test]
fn fib_pair_base_cases() {
    assert_eq!(fib_pair(0), (FibNumber::from(0u32), FibNumber::from(1u32)));
    assert_eq!(fib_pair(1), (FibNumber::from(1u32), FibNumber::from(1u32)));
    assert_eq!(fib_pair(2), (FibNumber::from(1u32), FibNumber::from(2u32)));
}

#[test]
fn fib_pair_transition_boundary() {
    let (f185_small, f186_small) = fib_pair(185);
    let (f186_big, f187_big) = fib_pair(186);
    assert_eq!(f186_small, f186_big, "F(186) mismatch between paths");
    assert_eq!(f185_small.add(&f186_small), f187_big);
}

#[test]
fn fib_pair_recurrence_large() {
    for n in [200u64, 500, 1000] {
        let (fn_val, fn1_val) = fib_pair(n);
        let (fn1_check, fn2_val) = fib_pair(n + 1);
        assert_eq!(fn1_val, fn1_check, "F(n+1) mismatch at n={}", n);
        assert_eq!(fn_val.add(&fn1_val), fn2_val, "Recurrence failed at n={}", n);
    }
}

#[test]
fn fibonacci_uses_u128_for_small() {
    let f100 = fibonacci(100);
    assert_eq!(f100, FibNumber::from(fibonacci_u128(100)));
}

#[test]
fn fibonacci_handles_large() {
    let f200 = fibonacci(200);
    let (f200_pair, _) = fib_pair(200);
    assert_eq!(f200, f200_pair);
}

#[test]
fn fibonacci_fast_doubling_alias() {
    for n in [0, 1, 100, 200, 500] {
        assert_eq!(fibonacci(n), fibonacci_fast_doubling(n));
    }
}
