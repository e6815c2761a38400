//! Fast doubling whose three multiplications per step run on worker threads
//! once the operands are long enough, and the calibration of that length.
use vstd::arithmetic::power2::pow2;
use vstd::prelude::*;

use crate::bignum::{fits, FibNumber};
use crate::fast_doubling::{
    fibonacci_fast_doubling, highest_bit, index_supported, lemma_doubling_step_fits,
};
use crate::fib_math::{fib, lemma_fib_step};

verus! {

/// Relies on `rayon::join`: it runs both closures, possibly on two threads,
/// and returns their results as a pair.
pub assume_specification<A, B, RA, RB>[ rayon::join::<A, B, RA, RB> ](oper_a: A, oper_b: B) -> (r: (
    RA,
    RB,
)) where A: FnOnce() -> RA + Send, B: FnOnce() -> RB + Send, RA: Send, RB: Send
    requires
        oper_a.requires(()),
        oper_b.requires(()),
    ensures
        oper_a.ensures((), r.0),
        oper_b.ensures((), r.1),
;

/// Relies on `rayon::current_num_threads`: the size of the worker pool.
pub assume_specification[ rayon::current_num_threads ]() -> usize;

#[verifier::external_type_specification]
#[verifier::external_body]
pub struct ExInstant(std::time::Instant);

/// Relies on `std::time::Instant::now`: the current time.
pub assume_specification[ std::time::Instant::now ]() -> std::time::Instant;

/// Relies on `std::time::Instant::elapsed`: the time passed since `start`.
pub assume_specification[ std::time::Instant::elapsed ](start: &std::time::Instant) -> std::time::Duration;

/// Relies on `std::time::Duration::as_micros`: the whole microseconds.
pub assume_specification[ std::time::Duration::as_micros ](d: &std::time::Duration) -> u128;

/// Smallest threshold that calibration returns.
pub const PARALLEL_THRESHOLD_MIN: usize = 20_000;

/// Largest threshold that calibration returns.
pub const PARALLEL_THRESHOLD_MAX: usize = 70_000;

/// The calibrated bit length above which the parallel step is used: a base
/// from the core count (25 000 from 8 cores, 40 000 from 4, else 60 000),
/// raised by 10 000 when the probe took under 200 µs, lowered by 5 000 when
/// it took over 1 000 µs.
pub open spec fn calibrated_threshold(cores: nat, micros: nat) -> nat {
    let base: nat = if cores >= 8 {
        25_000
    } else if cores >= 4 {
        40_000
    } else {
        60_000
    };
    if micros < 200 {
        base + 10_000
    } else if micros > 1000 {
        (base - 5_000) as nat
    } else {
        base
    }
}

/// The threshold for `cores` worker threads and a probe that took
/// `elapsed_micros` microseconds.
pub fn threshold_for(cores: usize, elapsed_micros: u128) -> (r: usize)
    ensures
        r == calibrated_threshold(cores as nat, elapsed_micros as nat),
        PARALLEL_THRESHOLD_MIN <= r <= PARALLEL_THRESHOLD_MAX,
{
    let base: usize = if cores >= 8 {
        25_000
    } else if cores >= 4 {
        40_000
    } else {
        60_000
    };
    if elapsed_micros < 200 {
        base + 10_000
    } else if elapsed_micros > 1000 {
        base - 5_000
    } else {
        base
    }
}

/// Times F(10 000) on this thread and derives the threshold from that time
/// and the size of the worker pool.
pub fn calibrate_parallel_threshold() -> (r: usize)
    ensures
        PARALLEL_THRESHOLD_MIN <= r <= PARALLEL_THRESHOLD_MAX,
        exists|cores: nat, micros: nat| r == calibrated_threshold(cores, micros),
{
    let start = std::time::Instant::now();
    let _ = fibonacci_fast_doubling(10_000);
    let micros = start.elapsed().as_micros();
    let cores = rayon::current_num_threads();
    threshold_for(cores, micros)
}

/// A threshold computed at most once: the first request calibrates, every
/// later one returns the stored value.
pub struct ThresholdCache {
    value: Option<usize>,
}

impl View for ThresholdCache {
    type V = Option<usize>;

    closed spec fn view(&self) -> Option<usize> {
        self.value
    }
}

impl ThresholdCache {
    #[verifier::type_invariant]
    spec fn stored_in_range(self) -> bool {
        match self.value {
            Some(v) => PARALLEL_THRESHOLD_MIN <= v <= PARALLEL_THRESHOLD_MAX,
            None => true,
        }
    }

    /// A cache that holds nothing yet.
    pub fn new() -> (r: ThresholdCache)
        ensures
            r@ is None,
    {
        ThresholdCache { value: None }
    }
}

/// One request for the threshold through a cache that held `before` and holds
/// `after` afterwards, answered with `r`.
pub open spec fn threshold_request(before: Option<usize>, after: Option<usize>, r: usize) -> bool {
    &&& before is Some ==> r == before.unwrap()
    &&& after == Some(r)
    &&& PARALLEL_THRESHOLD_MIN <= r <= PARALLEL_THRESHOLD_MAX
}

/// The parallel threshold, calibrated on the first request through `cache`
/// and returned unchanged on every later one.
pub fn get_parallel_threshold(cache: &mut ThresholdCache) -> (r: usize)
    ensures
        threshold_request(old(cache)@, final(cache)@, r),
{
    proof {
        use_type_invariant(&*cache);
    }
    match cache.value {
        Some(v) => v,
        None => {
            let v = calibrate_parallel_threshold();
            cache.value = Some(v);
            v
        },
    }
}

/// Asking the same cache twice gives the same threshold, and it lies in
/// [20 000, 80 000].
pub proof fn law_threshold_memoized(
    c0: Option<usize>,
    c1: Option<usize>,
    c2: Option<usize>,
    r1: usize,
    r2: usize,
)
    requires
        threshold_request(c0, c1, r1),
        threshold_request(c1, c2, r2),
    ensures
        r1 == r2,
        c1 == c2,
        20_000 <= r2 <= 80_000,
{
}

/// F(n) by fast doubling, with each step's multiplications a·(2b − a), a²
/// and b² run on worker threads while a has more than `threshold` bits.
pub fn fibonacci_parallel_with(n: u64, threshold: usize) -> (r: FibNumber)
    requires
        index_supported(n as nat),
    ensures
        r@ == fib(n as nat),
{
    if n == 0 {
        return FibNumber::zero();
    }
    if n <= 2 {
        proof {
            lemma_fib_step(0);
        }
        return FibNumber::from_u128(1);
    }
    let h = highest_bit(n);
    let mut a = FibNumber::from_u128(1);
    let mut b = FibNumber::from_u128(1);
    let mut i: u64 = h;
    let ghost mut k: nat = 1;
    proof {
        lemma_fib_step(0);
    }
    while i > 0
        invariant
            i <= h < 64,
            k == (n >> i) as nat,
            k >= 1,
            k <= n,
            a@ == fib(k),
            b@ == fib(k + 1),
            index_supported(n as nat),
        decreases i,
    {
        i = i - 1;
        let ghost ka = k;
        let bit = (n >> i) & 1;
        proof {
            lemma_doubling_step_fits(n, i, ka, a@, b@);
        }
        let (c, d) = if a.bit_len() > threshold {
            let product = || -> (r: FibNumber)
                requires
                    a@ <= 2 * b@,
                    fits(b@ * pow2(1)),
                    fits((a@ * (2 * b@ - a@)) as nat),
                ensures
                    r@ == a@ * (2 * b@ - a@),
                { doubled_difference_product(&a, &b) };
            let squares = || -> (r: (FibNumber, FibNumber))
                requires
                    fits(a@ * a@),
                    fits(b@ * b@),
                ensures
                    r.0@ == a@ * a@,
                    r.1@ == b@ * b@,
                { rayon::join(|| -> (r: FibNumber) requires fits(a@ * a@) ensures r@ == a@ * a@ { a.square() }, || -> (r: FibNumber) requires fits(b@ * b@) ensures r@ == b@ * b@ { b.square() }) };
            let (c, squares) = rayon::join(product, squares);
            let d = squares.0.add(&squares.1);
            (c, d)
        } else {
            let c = doubled_difference_product(&a, &b);
            let a_sq = a.square();
            let b_sq = b.square();
            let d = a_sq.add(&b_sq);
            (c, d)
        };
        if bit == 0 {
            a = c;
            b = d;
            proof {
                k = 2 * ka;
            }
        } else {
            b = c.add(&d);
            a = d;
            proof {
                k = 2 * ka + 1;
            }
        }
    }
    assert(n >> 0u64 == n) by (bit_vector);
    a
}

/// a·(2b − a).
fn doubled_difference_product(a: &FibNumber, b: &FibNumber) -> (r: FibNumber)
    requires
        a@ <= 2 * b@,
        fits(b@ * pow2(1)),
        fits((a@ * (2 * b@ - a@)) as nat),
    ensures
        r@ == a@ * (2 * b@ - a@),
{
    proof {
        vstd::arithmetic::power2::lemma2_to64();
    }
    let two_b = b.shl(1);
    let diff = two_b.sub(a);
    a.mul(&diff)
}

/// F(n) by parallel fast doubling, with a freshly calibrated threshold.
pub fn fibonacci_parallel(n: u64) -> (r: FibNumber)
    requires
        index_supported(n as nat),
    ensures
        r@ == fib(n as nat),
{
    let threshold = calibrate_parallel_threshold();
    fibonacci_parallel_with(n, threshold)
}

/// Former name of [`fibonacci_parallel`], which never used matrix powers.
pub fn fibonacci_matrix(n: u64) -> (r: FibNumber)
    requires
        index_supported(n as nat),
    ensures
        r@ == fib(n as nat),
{
    fibonacci_parallel(n)
}

} // verus!
