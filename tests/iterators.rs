use fibrust_core::{fib_pair, FibIter, FibNumber, FibRange};

#[test]
fn fib_range_empty_when_start_equals_end() {
    let range: Vec<FibNumber> = FibRange::new(10, 10).collect();
    assert!(range.is_empty());
}

#[test]
fn fib_range_empty_when_start_greater_than_end() {
    let range: Vec<FibNumber> = FibRange::new(100, 50).collect();
    assert!(range.is_empty());
}

#[test]
fn fib_range_single_element() {
    let range: Vec<FibNumber> = FibRange::new(10, 11).collect();
    assert_eq!(range.len(), 1);
    assert_eq!(range[0], FibNumber::from(55u32));
}

#[test]
fn fib_range_position_tracking() {
    let mut range = FibRange::new(100, 105);
    assert_eq!(range.position(), 100);
    range.next();
    assert_eq!(range.position(), 101);
    range.next();
    assert_eq!(range.position(), 102);
}

#[test]
fn fib_range_size_hint_accurate() {
    let range = FibRange::new(0, 100);
    assert_eq!(range.size_hint(), (100, Some(100)));
    let mut range = FibRange::new(0, 10);
    assert_eq!(range.size_hint(), (10, Some(10)));
    range.next();
    assert_eq!(range.size_hint(), (9, Some(9)));
}

#[test]
fn fib_range_exact_size_iterator() {
    let range = FibRange::new(0, 50);
    assert_eq!(range.len(), 50);
}

#[test]
fn fib_range_next_back_single() {
    let mut range = FibRange::new(10, 15);
    let last = range.next_back().expect("Should have last element");
    assert_eq!(last, fib_pair(14).0);
}

#[test]
fn fib_range_next_back_all() {
    let mut range = FibRange::new(0, 5);
    let mut backward: Vec<FibNumber> = Vec::new();
    while let Some(val) = range.next_back() {
        backward.push(val);
    }
    assert_eq!(backward.len(), 5);
    assert_eq!(backward[0], FibNumber::from(3u32));
    assert_eq!(backward[4], FibNumber::from(0u32));
}

#[test]
fn fib_range_mixed_forward_backward() {
    let mut range = FibRange::new(0, 10);
    let f0 = range.next().expect("F(0)");
    let f1 = range.next().expect("F(1)");
    let f9 = range.next_back().expect("F(9)");
    let f8 = range.next_back().expect("F(8)");
    assert_eq!(f0, FibNumber::from(0u32));
    assert_eq!(f1, FibNumber::from(1u32));
    assert_eq!(f9, FibNumber::from(34u32));
    assert_eq!(f8, FibNumber::from(21u32));
    assert_eq!(range.len(), 6);
}

#[test]
fn fib_range_next_back_empty() {
    let mut range = FibRange::new(5, 5);
    assert!(range.next_back().is_none());
}

#[test]
fn par_fib_range_matches_sequential() {
    let seq_range: Vec<FibNumber> = FibRange::new(100, 200).collect();
    let par_range: Vec<FibNumber> = FibRange::new(100, 200).into_par_iter().collect();
    assert_eq!(seq_range, par_range);
}

#[test]
fn par_fib_range_large() {
    let count = FibRange::new(0, 1000).into_par_iter().collect().len();
    assert_eq!(count, 1000);
}

#[test]
fn par_fib_range_sum() {
    let parts = FibRange::new(0, 10).into_par_iter().collect();
    let mut sum = FibNumber::from(0u32);
    for x in &parts {
        sum = sum.add(x);
    }
    assert_eq!(sum, FibNumber::from(88u32));
}

#[test]
fn fib_iter_new_starts_at_zero() {
    let mut iter = FibIter::new();
    assert_eq!(iter.position(), 0);
    assert_eq!(iter.next(), Some(FibNumber::from(0u32)));
    assert_eq!(iter.next(), Some(FibNumber::from(1u32)));
    assert_eq!(iter.next(), Some(FibNumber::from(1u32)));
}

#[test]
fn fib_iter_from_starts_at_index() {
    let mut iter = FibIter::from(10);
    assert_eq!(iter.position(), 10);
    let f10 = iter.next().expect("F(10)");
    assert_eq!(f10, FibNumber::from(55u32));
    assert_eq!(iter.position(), 11);
}

#[test]
fn fib_iter_default() {
    let iter = FibIter::default();
    assert_eq!(iter.position(), 0);
}

#[test]
fn fib_iter_position_tracking() {
    let mut iter = FibIter::from(100);
    assert_eq!(iter.position(), 100);
    iter.next();
    assert_eq!(iter.position(), 101);
    for _ in 0..10 {
        iter.next();
    }
    assert_eq!(iter.position(), 111);
}

#[test]
fn fib_iter_infinite_take() {
    let vals: Vec<FibNumber> = FibIter::new().take(100);
    assert_eq!(vals.len(), 100);
    assert_eq!(vals[0], FibNumber::from(0u32));
    assert_eq!(vals[10], FibNumber::from(55u32));
}

#[test]
fn fib_iter_always_returns_some() {
    let mut iter = FibIter::new();
    for _ in 0..1000 {
        assert!(iter.next().is_some());
    }
}
