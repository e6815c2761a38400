//! The Fibonacci sequence as a mathematical function, and the identities
//! that the doubling algorithms rest on.
use vstd::prelude::*;

verus! {

/// F(0) = 0, F(1) = 1, F(k + 2) = F(k) + F(k + 1).
pub open spec fn fib(n: nat) -> nat
    decreases n,
{
    if n == 0 {
        0
    } else if n == 1 {
        1
    } else {
        fib((n - 2) as nat) + fib((n - 1) as nat)
    }
}

/// The largest value of a `u128`.
pub open spec fn u128_max() -> nat {
    0xffff_ffff_ffff_ffff_ffff_ffff_ffff_ffffnat
}

pub proof fn lemma_fib_step(n: nat)
    ensures
        fib(n + 2) == fib(n) + fib(n + 1),
{
    assert(fib(n + 2) == fib((n + 2 - 2) as nat) + fib((n + 2 - 1) as nat));
}

/// F is non-decreasing.
pub proof fn lemma_fib_le_next(n: nat)
    ensures
        fib(n) <= fib(n + 1),
    decreases n,
{
    if n > 0 {
        lemma_fib_step((n - 1) as nat);
    }
}

pub proof fn lemma_fib_monotone(m: nat, n: nat)
    requires
        m <= n,
    ensures
        fib(m) <= fib(n),
    decreases n - m,
{
    if m < n {
        lemma_fib_monotone(m, (n - 1) as nat);
        lemma_fib_le_next((n - 1) as nat);
    }
}

/// F(186) is the largest Fibonacci number that a `u128` holds.
pub proof fn lemma_fib_186_fits_u128()
    ensures
        fib(186) == 332825110087067562321196029789634457848nat,
        fib(186) <= u128_max(),
        fib(187) > u128_max(),
{
    reveal_with_fuel(fib, 7);
    assert(fib(5) == 5 && fib(6) == 8);
    lemma_fib_doubling_values(5, 5, 8);
    lemma_fib_doubling_values(11, 89, 144);
    lemma_fib_doubling_values(23, 28657, 46368);
    lemma_fib_doubling_values(46, 1836311903, 2971215073);
    lemma_fib_doubling_values(93, 12200160415121876738, 19740274219868223167);
    assert(fib(187) == 538522340430300790495419781092981030533nat);
}

/// The doubling identities at concrete values.
proof fn lemma_fib_doubling_values(k: nat, a: nat, b: nat)
    requires
        fib(k) == a,
        fib(k + 1) == b,
    ensures
        fib(2 * k) == a * (2 * b - a),
        fib(2 * k + 1) == a * a + b * b,
        fib(2 * k + 2) == b * (2 * a + b),
{
    lemma_fib_doubling(k);
}

/// Every F(k) with k <= 186 fits in a `u128`.
pub proof fn lemma_fib_fits_u128(k: nat)
    requires
        k <= 186,
    ensures
        fib(k) <= u128_max(),
{
    lemma_fib_186_fits_u128();
    lemma_fib_monotone(k, 186);
}

/// The addition formula F(m + n + 1) = F(m + 1)·F(n + 1) + F(m)·F(n).
pub proof fn lemma_fib_add(m: nat, n: nat)
    ensures
        fib(m + n + 1) == fib(m + 1) * fib(n + 1) + fib(m) * fib(n),
    decreases n,
{
    if n == 0 {
        assert(fib(m + 1) == fib(m + 1) * fib(1) + fib(m) * fib(0)) by (nonlinear_arith)
            requires
                fib(1) == 1,
                fib(0) == 0,
        ;
    } else if n == 1 {
        lemma_fib_step(m);
        lemma_fib_step(0);
        assert(fib(m + 2) == fib(m + 1) * fib(2) + fib(m) * fib(1)) by (nonlinear_arith)
            requires
                fib(m + 2) == fib(m) + fib(m + 1),
                fib(1) == 1,
                fib(2) == 1,
        ;
    } else {
        let k = (n - 1) as nat;
        let j = (n - 2) as nat;
        lemma_fib_add(m, k);
        lemma_fib_add(m, j);
        lemma_fib_step(m + j + 1);
        lemma_fib_step(k);
        lemma_fib_step(j);
        let a = fib(m + 1);
        let b = fib(m);
        assert(fib(m + n + 1) == fib(m + j + 1) + fib(m + k + 1)) by {
            assert(m + n + 1 == (m + j + 1) + 2);
            assert(m + k + 1 == (m + j + 1) + 1);
        }
        assert(fib(m + n + 1) == a * fib(n + 1) + b * fib(n)) by (nonlinear_arith)
            requires
                fib(m + n + 1) == fib(m + j + 1) + fib(m + k + 1),
                fib(m + k + 1) == a * fib(k + 1) + b * fib(k),
                fib(m + j + 1) == a * fib(j + 1) + b * fib(j),
                fib(n + 1) == fib(k + 1) + fib(j + 1),
                fib(n) == fib(k) + fib(j),
        ;
    }
}

/// The doubling identities:
/// F(2k) = F(k)·(2·F(k+1) − F(k)), F(2k+1) = F(k)² + F(k+1)²,
/// F(2k+2) = F(k+1)·(2·F(k) + F(k+1)).
pub proof fn lemma_fib_doubling(k: nat)
    ensures
        fib(k) <= 2 * fib(k + 1),
        fib(2 * k) == fib(k) * (2 * fib(k + 1) - fib(k)),
        fib(2 * k + 1) == fib(k) * fib(k) + fib(k + 1) * fib(k + 1),
        fib(2 * k + 2) == fib(k + 1) * (2 * fib(k) + fib(k + 1)),
{
    let a = fib(k);
    let b = fib(k + 1);
    lemma_fib_le_next(k);
    lemma_fib_add(k, k);
    assert(fib(2 * k + 1) == a * a + b * b) by (nonlinear_arith)
        requires
            fib(k + k + 1) == b * b + a * a,
    ;
    if k == 0 {
        assert(fib(2 * k) == a * (2 * b - a)) by (nonlinear_arith)
            requires
                a == 0,
                fib(2 * k) == 0,
        ;
    } else {
        let p = (k - 1) as nat;
        lemma_fib_add(k, p);
        lemma_fib_step(p);
        assert(fib(2 * k) == a * (2 * b - a)) by (nonlinear_arith)
            requires
                fib(k + p + 1) == b * a + a * fib(p),
                k + p + 1 == 2 * k,
                b == fib(p) + a,
        ;
    }
    lemma_fib_step(2 * k);
    assert(fib(2 * k + 2) == b * (2 * a + b)) by (nonlinear_arith)
        requires
            fib(2 * k + 2) == fib(2 * k) + fib(2 * k + 1),
            fib(2 * k) == a * (2 * b - a),
            fib(2 * k + 1) == a * a + b * b,
    ;
}

} // verus!
