//! Sequential fast doubling, with a native `u128` path for small indices.
use vstd::prelude::*;

use vstd::arithmetic::power2::{lemma_pow2_strictly_increases, pow2};

use crate::bignum::{fits, max_bits, FibNumber};
use crate::fib_math::{fib, lemma_fib_doubling, lemma_fib_fits_u128, lemma_fib_le_next, lemma_fib_step};

verus! {

/// Indices whose Fibonacci numbers, and the intermediate values of the
/// doubling steps that lead to them, a `FibNumber` can hold.
pub open spec fn index_supported(n: nat) -> bool {
    n + 2 <= max_bits()
}

/// F(m) < 2^m.
pub proof fn lemma_fib_lt_pow2(m: nat)
    ensures
        fib(m) < pow2(m),
    decreases m,
{
    vstd::arithmetic::power2::lemma2_to64();
    if m >= 2 {
        lemma_fib_lt_pow2((m - 2) as nat);
        lemma_fib_lt_pow2((m - 1) as nat);
        lemma_fib_step((m - 2) as nat);
        vstd::arithmetic::power2::lemma_pow2_unfold(m);
        vstd::arithmetic::power2::lemma_pow2_unfold((m - 1) as nat);
    }
}

/// Values below 2^m fit when m <= max_bits().
pub proof fn lemma_fits_below(x: nat, m: nat)
    requires
        x < pow2(m),
        m <= max_bits(),
    ensures
        fits(x),
{
    if m < max_bits() {
        lemma_pow2_strictly_increases(m, max_bits());
    }
}

/// F(m) fits when m <= max_bits().
pub proof fn lemma_fib_fits(m: nat)
    requires
        m <= max_bits(),
    ensures
        fits(fib(m)),
{
    lemma_fib_lt_pow2(m);
    lemma_fits_below(fib(m), m);
}

/// The index seen through the top bits of `n` doubles, plus the next bit.
proof fn lemma_shift_step(n: u64, i: u64)
    requires
        i < 63,
    ensures
        (n >> i) == 2 * (n >> ((i + 1) as u64)) + ((n >> i) & 1),
        (n >> i) & 1 <= 1,
{
    assert((n >> i) == 2 * (n >> ((i + 1) as u64)) + ((n >> i) & 1)) by (bit_vector)
        requires
            i < 63,
    ;
    assert((n >> i) & 1 <= 1) by (bit_vector);
}

/// Facts that one doubling step from (F(k), F(k + 1)) needs: the next index
/// 2k + bit stays within `n`, the doubling identities, and every intermediate
/// value fits.
pub proof fn lemma_doubling_step_fits(n: u64, i: u64, k: nat, a: nat, b: nat)
    requires
        i < 63,
        k == (n >> ((i + 1) as u64)) as nat,
        k >= 1,
        a == fib(k),
        b == fib(k + 1),
        index_supported(n as nat),
    ensures
        (n >> i) == 2 * k + ((n >> i) & 1),
        (n >> i) & 1 <= 1,
        (n >> i) as nat <= n,
        a <= 2 * b,
        b >= 1,
        fib(2 * k) == a * (2 * b - a),
        fib(2 * k + 1) == a * a + b * b,
        fib(2 * k + 2) == b * (2 * a + b),
        fits(a * a),
        fits(b * b),
        fits(a * a + b * b),
        fits((a * (2 * b - a)) as nat),
        fits(b * pow2(1)),
        fits(a * pow2(1)),
        fits(2 * a + b),
        fits(b * (2 * a + b)),
        fits((a * (2 * b - a) + (a * a + b * b)) as nat),
{
    lemma_shift_step(n, i);
    assert((n >> i) as nat <= n) by (bit_vector);
    lemma_fib_doubling(k);
    lemma_fib_le_next(k + 1);
    lemma_fib_lt_pow2(k + 1);
    lemma_fib_fits(2 * k + 1);
    lemma_fib_fits(2 * k);
    lemma_fib_fits(2 * k + 2);
    lemma_fib_lt_pow2(2 * k + 1);
    lemma_fits_below(a * a, 2 * k + 1);
    lemma_fits_below(b * b, 2 * k + 1);
    vstd::arithmetic::power2::lemma_pow2_unfold(k + 2);
    vstd::arithmetic::power2::lemma2_to64();
    lemma_fits_below(b * pow2(1), k + 2);
    lemma_fits_below(a * pow2(1), k + 2);
    crate::fib_math::lemma_fib_monotone(1, k + 1);
    assert(b * (2 * a + b) >= 2 * a + b) by (nonlinear_arith)
        requires
            b >= 1,
    ;
    lemma_fib_step(2 * k);
}

/// The position of the highest set bit of a non-zero `n`.
pub fn highest_bit(n: u64) -> (h: u64)
    requires
        n != 0,
    ensures
        h < 64,
        n >> h == 1,
{
    let mut h: u64 = 0;
    assert(n >> 0u64 == n) by (bit_vector);
    while h < 63 && (n >> (h + 1)) != 0
        invariant
            h <= 63,
            n >> h != 0,
        decreases 63 - h,
    {
        h = h + 1;
    }
    if h < 63 {
        proof {
            lemma_shift_step(n, h);
        }
    } else {
        assert(n >> 63u64 <= 1) by (bit_vector);
    }
    h
}

/// F(n) for n <= 186 in native arithmetic (F(186) is the largest Fibonacci
/// number below 2^128).
pub fn fibonacci_u128(n: u64) -> (r: u128)
    requires
        n <= 186,
    ensures
        r == fib(n as nat),
{
    if n == 0 {
        return 0;
    }
    let mut a: u128 = 0;
    let mut b: u128 = 1;
    let mut i: u64 = 1;
    while i < n
        invariant
            1 <= i <= n <= 186,
            a == fib((i - 1) as nat),
            b == fib(i as nat),
        decreases n - i,
    {
        proof {
            lemma_fib_step((i - 1) as nat);
            lemma_fib_fits_u128(i as nat + 1);
        }
        let next = a + b;
        a = b;
        b = next;
        i = i + 1;
    }
    b
}

/// (F(n), F(n + 1)) for n <= 185 in native arithmetic.
pub fn fib_pair_u128(n: u64) -> (r: (u128, u128))
    requires
        n <= 185,
    ensures
        r.0 == fib(n as nat),
        r.1 == fib(n as nat + 1),
{
    let mut a: u128 = 0;
    let mut b: u128 = 1;
    let mut i: u64 = 0;
    while i < n
        invariant
            0 <= i <= n <= 185,
            a == fib(i as nat),
            b == fib(i as nat + 1),
        decreases n - i,
    {
        proof {
            lemma_fib_step(i as nat);
            lemma_fib_fits_u128(i as nat + 2);
        }
        let next = a + b;
        a = b;
        b = next;
        i = i + 1;
    }
    (a, b)
}

/// (F(n), F(n + 1)) by fast doubling: from the most significant bit of `n`
/// down, the state (F(k), F(k + 1)) moves to (F(2k), F(2k + 1)) on a zero bit
/// and to (F(2k + 1), F(2k + 2)) on a one bit.
pub fn fib_pair(n: u64) -> (r: (FibNumber, FibNumber))
    requires
        index_supported(n as nat),
    ensures
        r.0@ == fib(n as nat),
        r.1@ == fib(n as nat + 1),
{
    if n <= 185 {
        let (a, b) = fib_pair_u128(n);
        return (FibNumber::from_u128(a), FibNumber::from_u128(b));
    }
    let h = highest_bit(n);
    // The leading one bit is consumed by starting at k = 1: (F(1), F(2)) = (1, 1).
    let mut a = FibNumber::from_u128(1);
    let mut b = FibNumber::from_u128(1);
    let mut i: u64 = h;
    let ghost mut k: nat = 1;
    proof {
        assert(fib(2) == 1) by {
            lemma_fib_step(0);
        }
    }
    while i > 0
        invariant
            i <= h < 64,
            k == (n >> i) as nat,
            k >= 1,
            k <= n,
            a@ == fib(k),
            b@ == fib(k + 1),
            index_supported(n as nat),
        decreases i,
    {
        i = i - 1;
        let ghost ka = k;
        proof {
            lemma_doubling_step_fits(n, i, ka, a@, b@);
            vstd::arithmetic::power2::lemma2_to64();
        }
        let a_sq = a.square();
        let b_sq = b.square();
        let d = a_sq.add(&b_sq);
        if (n >> i) & 1 == 0 {
            // (F(2k), F(2k + 1)) with F(2k) = a·(2b − a)
            let mut two_b_minus_a = b.shl(1);
            two_b_minus_a.sub_assign(&a);
            let mut c = a;
            c.mul_assign(&two_b_minus_a);
            a = c;
            b = d;
            proof {
                k = 2 * ka;
            }
        } else {
            // (F(2k + 1), F(2k + 2)) with F(2k + 2) = b·(2a + b)
            let mut two_a_plus_b = a.shl(1);
            two_a_plus_b.add_assign(&b);
            let mut e = b;
            e.mul_assign(&two_a_plus_b);
            a = d;
            b = e;
            proof {
                k = 2 * ka + 1;
            }
        }
    }
    assert(n >> 0u64 == n) by (bit_vector);
    (a, b)
}

/// F(n).
pub fn fibonacci(n: u64) -> (r: FibNumber)
    requires
        index_supported(n as nat),
    ensures
        r@ == fib(n as nat),
{
    if n <= 186 {
        return FibNumber::from_u128(fibonacci_u128(n));
    }
    let (a, _) = fib_pair(n);
    a
}

/// F(n); the same as [`fibonacci`].
pub fn fibonacci_fast_doubling(n: u64) -> (r: FibNumber)
    requires
        index_supported(n as nat),
    ensures
        r@ == fib(n as nat),
{
    fibonacci(n)
}

} // verus!
