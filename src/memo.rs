//! Doubling with a cache of computed values, refusing indices above a fixed
//! limit.
use vstd::hash_map::HashMapWithView;
use vstd::prelude::*;

use crate::bignum::FibNumber;
use crate::fast_doubling::fibonacci_fast_doubling;
use crate::fib_math::fib;

verus! {

/// Largest index that [`fib_doubling`] computes.
pub const MAX_FIB_VALUE: u64 = 500_000_001;

/// Computed Fibonacci numbers by index.
pub struct LruCache {
    cache: HashMapWithView<u64, FibNumber>,
}

impl LruCache {
    /// Every stored number is the Fibonacci number of its index.
    pub closed spec fn valid(&self) -> bool {
        forall|k: u64| #[trigger] self.cache@.contains_key(k) ==> self.cache@[k]@ == fib(k as nat)
    }

    /// An empty cache.
    pub fn new() -> (r: LruCache)
        ensures
            r.valid(),
    {
        proof {
            broadcast use vstd::std_specs::hash::axiom_u64_obeys_hash_table_key_model;
        }
        LruCache { cache: HashMapWithView::new() }
    }

    /// The stored F(n), if any.
    pub fn get(&self, n: u64) -> (r: Option<FibNumber>)
        requires
            self.valid(),
        ensures
            r is Some ==> r->Some_0@ == fib(n as nat),
    {
        match self.cache.get(&n) {
            Some(v) => Some(v.clone()),
            None => None,
        }
    }

    /// Stores `value` as F(n).
    pub fn add(&mut self, n: u64, value: FibNumber)
        requires
            old(self).valid(),
            value@ == fib(n as nat),
        ensures
            final(self).valid(),
    {
        self.cache.insert(n, value);
    }
}

/// F(n): directly for n < 2, refused above `MAX_FIB_VALUE`, otherwise from
/// the cache or computed by fast doubling and stored.
pub fn fib_doubling(cache: &mut LruCache, n: u64) -> (r: Result<FibNumber, &'static str>)
    requires
        old(cache).valid(),
    ensures
        final(cache).valid(),
        n < 2 ==> r is Ok && r->Ok_0@ == n,
        n >= 2 && n > MAX_FIB_VALUE ==> r is Err && r->Err_0@
            == "n est trop grand pour cette implémentation"@,
        2 <= n <= MAX_FIB_VALUE ==> r is Ok && r->Ok_0@ == fib(n as nat),
{
    if n < 2 {
        proof {
            assert(fib(0) == 0 && fib(1) == 1);
        }
        return Ok(FibNumber::from_u128(n as u128));
    } else if n > MAX_FIB_VALUE {
        return Err("n est trop grand pour cette implémentation");
    }
    if let Some(value) = cache.get(n) {
        return Ok(value);
    }
    let result = fibonacci_fast_doubling(n);
    cache.add(n, result.clone());
    Ok(result)
}

} // verus!
