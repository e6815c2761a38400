//! Transform-based doubling: the same recurrence, where each step for long
//! operands computes both products (F(2k), F(2k + 1)) in one unified step,
//! together with the digit bookkeeping around the transform.
use vstd::arithmetic::power2::pow2;
use vstd::prelude::*;

use crate::bignum::{fits, FibNumber};
use crate::config::fft::{BASE_BITS_DEFAULT, BASE_BITS_MASSIVE, MASSIVE_THRESHOLD};
use crate::config::thresholds::FFT_BIT_THRESHOLD;
use crate::fast_doubling::{highest_bit, index_supported, lemma_doubling_step_fits};
use crate::fib_math::{fib, lemma_fib_step};

verus! {

/// The digit size for operands of `a_bits` and `b_bits` bits: the massive
/// size once their sum exceeds the massive threshold.
pub fn choose_base_bits(a_bits: usize, b_bits: usize) -> (r: usize)
    ensures
        r == (if a_bits + b_bits > MASSIVE_THRESHOLD {
            BASE_BITS_MASSIVE
        } else {
            BASE_BITS_DEFAULT
        }),
{
    if (a_bits as u128) + (b_bits as u128) > MASSIVE_THRESHOLD as u128 {
        BASE_BITS_MASSIVE
    } else {
        BASE_BITS_DEFAULT
    }
}

/// The transform length for a product of `result_len` digits: the smallest
/// power of two that is at least `result_len`.
pub fn transform_length(result_len: usize) -> (r: usize)
    requires
        result_len <= usize::MAX / 2,
    ensures
        exists|e: nat| r == pow2(e),
        r >= result_len,
        r == 1 || r < 2 * result_len,
{
    let mut p: usize = 1;
    let ghost mut e: nat = 0;
    proof {
        vstd::arithmetic::power2::lemma2_to64();
    }
    while p < result_len
        invariant
            p == pow2(e),
            1 <= p,
            p == 1 || p < 2 * result_len,
            result_len <= usize::MAX / 2,
        decreases 2 * (result_len as int) - p,
    {
        proof {
            vstd::arithmetic::power2::lemma_pow2_unfold(e + 1);
        }
        p = p * 2;
        proof {
            e = e + 1;
        }
    }
    p
}

/// The unified doubling step: from a = F(k) and b = F(k + 1), both products
/// a·(2b − a) = F(2k) and a² + b² = F(2k + 1) together, computed exactly with
/// big-integer products; for a = 0 the first is zero and the second b².
pub fn unified_doubling_step(a: &FibNumber, b: &FibNumber) -> (r: (FibNumber, FibNumber))
    requires
        a@ <= 2 * b@,
        fits(b@ * pow2(1)),
        fits((a@ * (2 * b@ - a@)) as nat),
        fits(a@ * a@),
        fits(b@ * b@),
        fits(a@ * a@ + b@ * b@),
    ensures
        r.0@ == a@ * (2 * b@ - a@),
        r.1@ == a@ * a@ + b@ * b@,
{
    if a.is_zero() {
        proof {
            assert(a@ * (2 * b@ - a@) == 0) by (nonlinear_arith)
                requires
                    a@ == 0,
            ;
        }
        return (FibNumber::zero(), b.square());
    }
    proof {
        vstd::arithmetic::power2::lemma2_to64();
    }
    let two_b = b.shl(1);
    let diff = two_b.sub(a);
    let c = a.mul(&diff);
    let a_sq = a.square();
    let b_sq = b.square();
    let d = a_sq.add(&b_sq);
    (c, d)
}

/// F(n) by doubling, with the unified step whenever an operand has more than
/// `FFT_BIT_THRESHOLD` bits.
pub fn fibonacci_fft(n: u64) -> (r: FibNumber)
    requires
        index_supported(n as nat),
    ensures
        r@ == fib(n as nat),
{
    if n == 0 {
        return FibNumber::zero();
    }
    if n == 1 {
        return FibNumber::from_u128(1);
    }
    let h = highest_bit(n);
    let mut a = FibNumber::from_u128(1);
    let mut b = FibNumber::from_u128(1);
    let mut i: u64 = h;
    let ghost mut k: nat = 1;
    proof {
        lemma_fib_step(0);
    }
    while i > 0
        invariant
            i <= h < 64,
            k == (n >> i) as nat,
            k >= 1,
            k <= n,
            a@ == fib(k),
            b@ == fib(k + 1),
            index_supported(n as nat),
        decreases i,
    {
        i = i - 1;
        let ghost ka = k;
        proof {
            lemma_doubling_step_fits(n, i, ka, a@, b@);
            vstd::arithmetic::power2::lemma2_to64();
        }
        let a_bits = a.bit_len();
        let b_bits = b.bit_len();
        let (c, d) = if a_bits > FFT_BIT_THRESHOLD || b_bits > FFT_BIT_THRESHOLD {
            unified_doubling_step(&a, &b)
        } else {
            let two_b = b.shl(1);
            let diff = two_b.sub(&a);
            let c = a.mul(&diff);
            let a_sq = a.square();
            let b_sq = b.square();
            (c, a_sq.add(&b_sq))
        };
        if (n >> i) & 1 == 0 {
            a = c;
            b = d;
            proof {
                k = 2 * ka;
            }
        } else {
            b = c.add(&d);
            a = d;
            proof {
                k = 2 * ka + 1;
            }
        }
    }
    assert(n >> 0u64 == n) by (bit_vector);
    a
}

} // verus!
