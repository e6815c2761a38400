//! Base-2^w digit vectors: the polynomial form of a number that the
//! transform-based multiplication works on.
use vstd::arithmetic::power2::{lemma_pow2_adds, lemma_pow2_pos, pow2};
use vstd::bits::{lemma_u64_low_bits_mask_is_mod, lemma_u64_shl_is_mul, lemma_u64_shr_is_div, low_bits_mask};
use vstd::prelude::*;

use crate::bignum::{fits, le_value, FibNumber};

verus! {

/// The value of little-endian digits of `w` bits each.
pub open spec fn digits_value(d: Seq<u64>, w: nat) -> nat
    decreases d.len(),
{
    if d.len() == 0 {
        0
    } else {
        d[0] as nat + pow2(w) * digits_value(d.subrange(1, d.len() as int), w)
    }
}

/// Every digit is below 2^w.
pub open spec fn digits_below(d: Seq<u64>, w: nat) -> bool {
    forall|j: int| 0 <= j < d.len() ==> #[trigger] d[j] < pow2(w)
}

/// Bytes as digits of eight bits.
pub open spec fn bytes_as_digits(b: Seq<u8>) -> Seq<u64> {
    b.map_values(|x: u8| x as u64)
}

/// Digits of at most 32 bits, widened.
pub open spec fn widen(d: Seq<u32>) -> Seq<u64> {
    d.map_values(|x: u32| x as u64)
}

/// Appending a digit adds it at the next power.
pub proof fn lemma_digits_push(d: Seq<u64>, x: u64, w: nat)
    ensures
        digits_value(d.push(x), w) == digits_value(d, w) + x * pow2(w * d.len()),
    decreases d.len(),
{
    let e = d.push(x);
    if d.len() == 0 {
        assert(e.subrange(1, e.len() as int) =~= Seq::<u64>::empty());
        vstd::arithmetic::power2::lemma2_to64();
        assert(digits_value(Seq::<u64>::empty(), w) == 0);
        assert(digits_value(e, w) == x as nat + pow2(w) * 0);
        assert(w * d.len() == 0);
        assert(x * pow2(0) == x) by (nonlinear_arith)
            requires
                pow2(0) == 1,
        ;
        assert(pow2(w) * 0 == 0) by (nonlinear_arith);
    } else {
        let t = d.subrange(1, d.len() as int);
        lemma_digits_push(t, x, w);
        assert(e.subrange(1, e.len() as int) =~= t.push(x));
        lemma_pow2_adds(w, w * t.len());
        let p = pow2(w);
        let q = pow2(w * t.len());
        assert(w + w * t.len() == w * d.len()) by (nonlinear_arith)
            requires
                d.len() == t.len() + 1,
        ;
        assert(p * (digits_value(t, w) + x * q) == p * digits_value(t, w) + x * (p * q))
            by (nonlinear_arith);
        assert(digits_value(e, w) == e[0] as nat + p * digits_value(t.push(x), w));
        assert(digits_value(d, w) == d[0] as nat + p * digits_value(t, w));
        assert(e[0] == d[0]);
    }
}

/// Dropping a zero digit at the most significant end keeps the value.
pub proof fn lemma_digits_drop_last_zero(d: Seq<u64>, w: nat)
    requires
        d.len() > 0,
        d.last() == 0,
    ensures
        digits_value(d.subrange(0, d.len() - 1), w) == digits_value(d, w),
{
    let s = d.subrange(0, d.len() - 1);
    assert(d =~= s.push(0));
    lemma_digits_push(s, 0, w);
}

/// Bytes read as eight-bit digits have their little-endian value.
pub proof fn lemma_bytes_as_digits(b: Seq<u8>)
    ensures
        digits_value(bytes_as_digits(b), 8) == le_value(b),
    decreases b.len(),
{
    vstd::arithmetic::power2::lemma2_to64();
    if b.len() > 0 {
        let t = b.subrange(1, b.len() as int);
        lemma_bytes_as_digits(t);
        assert(bytes_as_digits(b).subrange(1, b.len() as int) =~= bytes_as_digits(t));
    }
}

/// Regroups digits of `in_bits` bits into digits of `out_bits` bits, least
/// significant first; a partial last group is kept.
pub fn repack_digits(input: &Vec<u64>, in_bits: u64, out_bits: u64) -> (r: Vec<u64>)
    requires
        1 <= in_bits <= 32,
        1 <= out_bits <= 32,
        digits_below(input@, in_bits as nat),
    ensures
        digits_value(r@, out_bits as nat) == digits_value(input@, in_bits as nat),
        digits_below(r@, out_bits as nat),
{
    let w = out_bits;
    proof {
        vstd::arithmetic::power2::lemma2_to64();
        vstd::arithmetic::power2::lemma_pow2_strictly_increases(w as nat, 64);
        lemma_pow2_pos(w as nat);
        lemma_u64_shl_is_mul(1, w);
    }
    let mask: u64 = (1u64 << w) - 1;
    proof {
        assert(mask == low_bits_mask(w as nat));
    }
    let mut out: Vec<u64> = Vec::new();
    let mut bits: u64 = 0;
    let mut bit_count: u64 = 0;
    let mut i: usize = 0;
    proof {
        assert(input@.subrange(0, 0) =~= Seq::<u64>::empty());
    }
    while i < input.len()
        invariant
            0 <= i <= input.len(),
            1 <= in_bits <= 32,
            1 <= w <= 32,
            mask == low_bits_mask(w as nat),
            digits_below(input@, in_bits as nat),
            in_bits * i == (w * out@.len()) as nat + bit_count,
            bit_count < w,
            bits < pow2(bit_count as nat),
            digits_value(input@.subrange(0, i as int), in_bits as nat) == digits_value(
                out@,
                w as nat,
            ) + bits * pow2((w * out@.len()) as nat),
            digits_below(out@, w as nat),
        decreases input.len() - i,
    {
        let d = input[i];
        proof {
            assert(input@.subrange(0, i + 1) =~= input@.subrange(0, i as int).push(d));
            lemma_digits_push(input@.subrange(0, i as int), d, in_bits as nat);
            lemma_pow2_adds(bit_count as nat, in_bits as nat);
            lemma_pow2_adds((w * out@.len()) as nat, bit_count as nat);
            vstd::arithmetic::power2::lemma_pow2_strictly_increases(
                (bit_count + in_bits) as nat,
                63,
            );
            assert(d * pow2(bit_count as nat) < pow2((bit_count + in_bits) as nat)) by (
            nonlinear_arith)
                requires
                    d < pow2(in_bits as nat),
                    pow2((bit_count + in_bits) as nat) == pow2(bit_count as nat) * pow2(
                        in_bits as nat,
                    ),
                    pow2(bit_count as nat) > 0,
            ;
            vstd::arithmetic::power2::lemma2_to64_rest();
            lemma_pow2_pos(bit_count as nat);
            lemma_u64_shl_is_mul(d, bit_count);
            assert(bits + d * pow2(bit_count as nat) < pow2((bit_count + in_bits) as nat))
                by (nonlinear_arith)
                requires
                    bits < pow2(bit_count as nat),
                    d < pow2(in_bits as nat),
                    pow2((bit_count + in_bits) as nat) == pow2(bit_count as nat) * pow2(
                        in_bits as nat,
                    ),
            ;
            assert((bits + d * pow2(bit_count as nat)) * pow2((w * out@.len()) as nat) == bits * pow2(
                (w * out@.len()) as nat,
            ) + d * pow2((in_bits * i) as nat)) by (nonlinear_arith)
                requires
                    pow2((in_bits * i) as nat) == pow2((w * out@.len()) as nat) * pow2(bit_count as nat),
            ;
        }
        bits = bits + (d << bit_count);
        proof {
            assert(in_bits * (i + 1) == in_bits * i + in_bits) by (nonlinear_arith);
        }
        bit_count = bit_count + in_bits;
        while bit_count >= w
            invariant
                1 <= in_bits <= 32,
                1 <= w <= 32,
                mask == low_bits_mask(w as nat),
                bit_count < w + in_bits,
                in_bits * (i + 1) == (w * out@.len()) as nat + bit_count,
                bits < pow2(bit_count as nat),
                digits_value(input@.subrange(0, i + 1), in_bits as nat) == digits_value(
                    out@,
                    w as nat,
                ) + bits * pow2((w * out@.len()) as nat),
                digits_below(out@, w as nat),
            decreases bit_count,
        {
            let digit = bits & mask;
            proof {
                lemma_u64_low_bits_mask_is_mod(bits, w as nat);
                lemma_u64_shr_is_div(bits, w);
                vstd::arithmetic::power2::lemma2_to64();
                vstd::arithmetic::power2::lemma_pow2_strictly_increases(w as nat, 64);
                assert(mask == (low_bits_mask(w as nat) as u64));
                assert(digit == bits % (pow2(w as nat) as u64));
                assert((pow2(w as nat) as u64) as nat == pow2(w as nat));
                lemma_pow2_pos(w as nat);
                lemma_digits_push(out@, digit, w as nat);
                lemma_pow2_adds((w * out@.len()) as nat, w as nat);
                lemma_pow2_adds(w as nat, (bit_count - w) as nat);
                let p = pow2(w as nat);
                let big = pow2((w * out@.len()) as nat);
                assert(w * out@.len() + w == w * (out@.len() + 1)) by (nonlinear_arith);
                assert(((w * out@.len()) as nat + w) as nat == (w * (out@.len() + 1)) as nat);
                assert((bits as nat) * big == ((bits as nat) % p) * big + ((bits as nat) / p) * (big * p)) by (
                nonlinear_arith)
                    requires
                        p > 0,
                ;
                assert((bits as nat) / p < pow2((bit_count - w) as nat)) by (nonlinear_arith)
                    requires
                        p > 0,
                        (bits as nat) < p * pow2((bit_count - w) as nat),
                ;
                assert((bits as nat) % p < p) by (nonlinear_arith)
                    requires
                        p > 0,
                ;
            }
            let ghost old_out = out@;
            let ghost old_bits = bits as nat;
            let ghost p = pow2(w as nat);
            let ghost big = pow2((w * out@.len()) as nat);
            out.push(digit);
            bits = bits >> w;
            bit_count = bit_count - w;
            proof {
                assert(digits_value(out@, w as nat) == digits_value(old_out, w as nat) + (
                digit as nat) * big);
                assert(pow2((w * out@.len()) as nat) == big * p);
                assert(bits as nat == old_bits / p);
                assert(digit as nat == old_bits % p);
                assert(old_bits * big == (old_bits % p) * big + (old_bits / p) * (big * p));
            }
        }
        i = i + 1;
    }
    proof {
        assert(input@.subrange(0, input@.len() as int) =~= input@);
    }
    if bit_count > 0 {
        proof {
            lemma_digits_push(out@, bits, w as nat);
            vstd::arithmetic::power2::lemma_pow2_strictly_increases(bit_count as nat, w as nat);
        }
        out.push(bits);
    } else {
        proof {
            vstd::arithmetic::power2::lemma2_to64();
        }
    }
    out
}

/// The digits of `w` bits of the number that little-endian `bytes` denote,
/// least significant first: at least one digit, and no zero digit at the
/// most significant end unless the number is zero.
pub fn ubig_to_digits_sequential(bytes: &[u8], base_bits: usize) -> (r: Vec<u32>)
    requires
        1 <= base_bits <= 32,
    ensures
        digits_value(widen(r@), base_bits as nat) == le_value(bytes@),
        digits_below(widen(r@), base_bits as nat),
        r@.len() >= 1,
        r@.len() == 1 || r@.last() != 0,
{
    let mut wide: Vec<u64> = Vec::new();
    let mut i: usize = 0;
    while i < bytes.len()
        invariant
            0 <= i <= bytes@.len(),
            wide@ =~= bytes_as_digits(bytes@.subrange(0, i as int)),
        decreases bytes@.len() - i,
    {
        wide.push(bytes[i] as u64);
        i = i + 1;
    }
    proof {
        assert(bytes@.subrange(0, bytes@.len() as int) =~= bytes@);
        lemma_bytes_as_digits(bytes@);
        vstd::arithmetic::power2::lemma2_to64();
        assert forall|j: int| 0 <= j < wide@.len() implies #[trigger] wide@[j] < pow2(8) by {
            assert(wide@[j] == bytes@[j] as u64);
        }
    }
    let mut digits = repack_digits(&wide, 8, base_bits as u64);
    if digits.len() == 0 {
        proof {
            lemma_digits_push(digits@, 0, base_bits as nat);
            lemma_pow2_pos(base_bits as nat);
        }
        digits.push(0);
    }
    while digits.len() > 1 && digits[digits.len() - 1] == 0
        invariant
            digits@.len() >= 1,
            digits_value(digits@, base_bits as nat) == le_value(bytes@),
            digits_below(digits@, base_bits as nat),
        decreases digits@.len(),
    {
        proof {
            lemma_digits_drop_last_zero(digits@, base_bits as nat);
        }
        digits.pop();
    }
    let mut r: Vec<u32> = Vec::new();
    let mut j: usize = 0;
    proof {
        if base_bits < 32 {
            vstd::arithmetic::power2::lemma_pow2_strictly_increases(base_bits as nat, 32);
        }
        vstd::arithmetic::power2::lemma2_to64();
    }
    while j < digits.len()
        invariant
            0 <= j <= digits@.len(),
            digits_below(digits@, base_bits as nat),
            base_bits <= 32,
            pow2(base_bits as nat) <= 0x1_0000_0000,
            widen(r@) =~= digits@.subrange(0, j as int),
        decreases digits@.len() - j,
    {
        proof {
            assert(digits@[j as int] < pow2(base_bits as nat));
        }
        let ghost prev = r@;
        r.push(digits[j] as u32);
        proof {
            assert(widen(r@) =~= widen(prev).push(digits@[j as int]));
            assert(digits@.subrange(0, j + 1) =~= digits@.subrange(0, j as int).push(
                digits@[j as int],
            ));
        }
        j = j + 1;
    }
    proof {
        assert(widen(r@) =~= digits@);
    }
    r
}

/// The digits of `w` bits of `n`, least significant first.
pub fn ubig_to_digits(n: &FibNumber, base_bits: usize) -> (r: Vec<u32>)
    requires
        1 <= base_bits <= 32,
    ensures
        digits_value(widen(r@), base_bits as nat) == n@,
        digits_below(widen(r@), base_bits as nat),
{
    let bytes = n.to_le_bytes();
    ubig_to_digits_sequential(bytes.as_slice(), base_bits)
}

/// The number that little-endian digits of `base_bits` bits denote.
pub fn digits_to_ubig_sequential(digits: &[u64], base_bits: usize) -> (r: FibNumber)
    requires
        1 <= base_bits <= 32,
        digits_below(digits@, base_bits as nat),
        fits(digits_value(digits@, base_bits as nat)),
    ensures
        r@ == digits_value(digits@, base_bits as nat),
{
    let mut wide: Vec<u64> = Vec::new();
    let mut i: usize = 0;
    while i < digits.len()
        invariant
            0 <= i <= digits@.len(),
            wide@ == digits@.subrange(0, i as int),
        decreases digits@.len() - i,
    {
        wide.push(digits[i]);
        i = i + 1;
    }
    proof {
        assert(digits@.subrange(0, digits@.len() as int) =~= digits@);
    }
    let packed = repack_digits(&wide, base_bits as u64, 8);
    let mut bytes: Vec<u8> = Vec::new();
    let mut j: usize = 0;
    proof {
        vstd::arithmetic::power2::lemma2_to64();
    }
    while j < packed.len()
        invariant
            0 <= j <= packed@.len(),
            digits_below(packed@, 8),
            pow2(8) == 256,
            bytes_as_digits(bytes@) =~= packed@.subrange(0, j as int),
        decreases packed@.len() - j,
    {
        proof {
            assert(packed@[j as int] < 256);
        }
        let ghost prev = bytes@;
        bytes.push(packed[j] as u8);
        proof {
            assert(bytes_as_digits(bytes@) =~= bytes_as_digits(prev).push(packed@[j as int]));
            assert(packed@.subrange(0, j + 1) =~= packed@.subrange(0, j as int).push(
                packed@[j as int],
            ));
        }
        j = j + 1;
    }
    proof {
        assert(bytes_as_digits(bytes@) =~= packed@);
        lemma_bytes_as_digits(bytes@);
    }
    FibNumber::from_le_bytes(bytes.as_slice())
}

/// The number that little-endian digits of `base_bits` bits denote; zero for
/// no digits.
pub fn digits_to_ubig(digits: &[u64], base_bits: usize) -> (r: FibNumber)
    requires
        1 <= base_bits <= 32,
        digits_below(digits@, base_bits as nat),
        fits(digits_value(digits@, base_bits as nat)),
    ensures
        r@ == digits_value(digits@, base_bits as nat),
{
    if digits.len() == 0 {
        return FibNumber::zero();
    }
    digits_to_ubig_sequential(digits, base_bits)
}

/// The value of little-endian signed coefficients at powers of 2^w.
pub open spec fn coefficients_value(c: Seq<i64>, w: nat) -> int
    decreases c.len(),
{
    if c.len() == 0 {
        0
    } else {
        c[0] as int + pow2(w) * coefficients_value(c.subrange(1, c.len() as int), w)
    }
}

/// Appending a coefficient adds it at the next power.
pub proof fn lemma_coefficients_push(c: Seq<i64>, x: i64, w: nat)
    ensures
        coefficients_value(c.push(x), w) == coefficients_value(c, w) + x * pow2(w * c.len()),
    decreases c.len(),
{
    let e = c.push(x);
    if c.len() == 0 {
        assert(e.subrange(1, e.len() as int) =~= Seq::<i64>::empty());
        vstd::arithmetic::power2::lemma2_to64();
        assert(coefficients_value(Seq::<i64>::empty(), w) == 0);
        assert(coefficients_value(e, w) == x as int + pow2(w) * 0);
        assert(w * c.len() == 0);
        assert(x * pow2(0) == x) by (nonlinear_arith)
            requires
                pow2(0) == 1,
        ;
        assert(pow2(w) * 0 == 0) by (nonlinear_arith);
    } else {
        let t = c.subrange(1, c.len() as int);
        lemma_coefficients_push(t, x, w);
        assert(e.subrange(1, e.len() as int) =~= t.push(x));
        lemma_pow2_adds(w, w * t.len());
        let p = pow2(w);
        let q = pow2(w * t.len());
        assert(w + w * t.len() == w * c.len()) by (nonlinear_arith)
            requires
                c.len() == t.len() + 1,
        ;
        assert(p * (coefficients_value(t, w) + x * q) == p * coefficients_value(t, w) + x * (p
            * q)) by (nonlinear_arith);
        assert(coefficients_value(e, w) == e[0] as int + p * coefficients_value(t.push(x), w));
        assert(coefficients_value(c, w) == c[0] as int + p * coefficients_value(t, w));
        assert(e[0] == c[0]);
    }
}

/// Floor division and remainder of `v` by `b > 0`.
fn floor_div_mod(v: i64, b: i64) -> (r: (i64, i64))
    requires
        0 < b <= 0x1_0000_0000,
        -0x4000_0000_0000_0000 < v < 0x4000_0000_0000_0000,
    ensures
        v == r.0 * b + r.1,
        0 <= r.1 < b,
        v >= 0 ==> 0 <= r.0 <= v,
        v < 0 ==> v <= r.0 < 0,
{
    if v >= 0 {
        let q = v / b;
        let m = v % b;
        proof {
            vstd::arithmetic::div_mod::lemma_fundamental_div_mod(v as int, b as int);
            assert(v == q * b + m) by (nonlinear_arith)
                requires
                    v == b * q + m,
            ;
            assert(q * b <= v && q >= 0) by (nonlinear_arith)
                requires
                    b > 0,
                    v >= 0,
                    q == v / b,
            ;
            assert(q <= v) by (nonlinear_arith)
                requires
                    b >= 1,
                    q * b <= v,
                    q >= 0,
            ;
        }
        (q, m)
    } else {
        let mag = -v;
        let q = (mag + b - 1) / b;
        proof {
            assert(q * b >= mag && q * b < mag + b && q >= 1) by (nonlinear_arith)
                requires
                    b > 0,
                    mag > 0,
                    q == (mag + b - 1) as int / (b as int),
            ;
            assert(q <= mag) by (nonlinear_arith)
                requires
                    b >= 1,
                    q * b < mag + b,
                    q >= 1,
            ;
            assert(q * b <= 0x4000_0000_0000_0000 + b);
        }
        let m = q * b - mag;
        proof {
            assert((-q) * b == -(q * b)) by (nonlinear_arith);
        }
        (-q, m)
    }
}

/// The carry pass of the transform step: turns rounded coefficients, which
/// may be negative or exceed the digit range, into digits below 2^base_bits
/// with the same value whenever that value is not negative.
pub fn carry_propagate(rounded: &Vec<i64>, base_bits: usize) -> (r: Vec<u64>)
    requires
        1 <= base_bits <= 32,
        forall|j: int|
            0 <= j < rounded@.len() ==> -0x2000_0000_0000_0000 < #[trigger] rounded@[j]
                < 0x2000_0000_0000_0000,
    ensures
        digits_below(r@, base_bits as nat),
        coefficients_value(rounded@, base_bits as nat) >= 0 ==> digits_value(
            r@,
            base_bits as nat,
        ) == coefficients_value(rounded@, base_bits as nat),
{
    let w: u64 = base_bits as u64;
    proof {
        vstd::arithmetic::power2::lemma2_to64();
        if w < 32 {
            vstd::arithmetic::power2::lemma_pow2_strictly_increases(w as nat, 32);
        }
        lemma_pow2_pos(w as nat);
        lemma_u64_shl_is_mul(1, w);
    }
    let base: i64 = (1u64 << w) as i64;
    let ghost p = pow2(w as nat);
    let mut out: Vec<u64> = Vec::new();
    let mut carry: i64 = 0;
    let mut i: usize = 0;
    proof {
        assert(rounded@.subrange(0, 0) =~= Seq::<i64>::empty());
    }
    while i < rounded.len()
        invariant
            0 <= i <= rounded@.len(),
            out@.len() == i,
            base as int == p,
            2 <= p <= 0x1_0000_0000,
            p == pow2(w as nat),
            w == base_bits,
            forall|j: int|
                0 <= j < rounded@.len() ==> -0x2000_0000_0000_0000 < #[trigger] rounded@[j]
                    < 0x2000_0000_0000_0000,
            -0x2000_0000_0000_0000 <= carry <= 0x2000_0000_0000_0000,
            digits_below(out@, w as nat),
            coefficients_value(rounded@.subrange(0, i as int), w as nat) == digits_value(
                out@,
                w as nat,
            ) + carry * pow2((w * i) as nat),
        decreases rounded@.len() - i,
    {
        let x = rounded[i];
        let ghost old_carry = carry;
        let val = x + carry;
        let (q, m) = floor_div_mod(val, base);
        let ghost big = pow2((w * i) as nat);
        let ghost old_out = out@;
        proof {
            assert(rounded@.subrange(0, i + 1) =~= rounded@.subrange(0, i as int).push(x));
            lemma_coefficients_push(rounded@.subrange(0, i as int), x, w as nat);
            lemma_digits_push(out@, m as u64, w as nat);
            lemma_pow2_adds((w * i) as nat, w as nat);
            assert(w * i + w == w * (i + 1)) by (nonlinear_arith);
            assert(val * big == m * big + q * (big * p)) by (nonlinear_arith)
                requires
                    val == q * p + m,
            ;
            assert(val * big == x * big + old_carry * big) by (nonlinear_arith)
                requires
                    val == x + old_carry,
            ;
            assert(-0x2000_0000_0000_0000 <= q <= 0x2000_0000_0000_0000) by (nonlinear_arith)
                requires
                    val == q * p + m,
                    0 <= m < p,
                    p >= 2,
                    -0x4000_0000_0000_0000 < val < 0x4000_0000_0000_0000,
            ;
        }
        out.push(m as u64);
        carry = q;
        i = i + 1;
        proof {
            assert(pow2((w * i) as nat) == big * p);
            assert(digits_value(out@, w as nat) == digits_value(old_out, w as nat) + m * big);
        }
    }
    proof {
        assert(rounded@.subrange(0, rounded@.len() as int) =~= rounded@);
    }
    let ghost total = coefficients_value(rounded@, w as nat);
    while carry > 0
        invariant
            base as int == p,
            2 <= p <= 0x1_0000_0000,
            p == pow2(w as nat),
            w == base_bits,
            0 <= carry <= 0x2000_0000_0000_0000 || carry < 0,
            digits_below(out@, w as nat),
            total == digits_value(out@, w as nat) + carry * pow2((w * out@.len()) as nat),
        decreases carry,
    {
        let (q, m) = floor_div_mod(carry, base);
        let ghost big = pow2((w * out@.len()) as nat);
        let ghost old_out = out@;
        proof {
            lemma_digits_push(out@, m as u64, w as nat);
            lemma_pow2_adds((w * out@.len()) as nat, w as nat);
            assert(w * out@.len() + w == w * (out@.len() + 1)) by (nonlinear_arith);
            assert(carry * big == m * big + q * (big * p)) by (nonlinear_arith)
                requires
                    carry == q * p + m,
            ;
            assert(q < carry) by (nonlinear_arith)
                requires
                    carry == q * p + m,
                    p >= 2,
                    m >= 0,
                    carry > 0,
                    q >= 0,
            ;
        }
        out.push(m as u64);
        carry = q;
        proof {
            assert(pow2((w * out@.len()) as nat) == big * p);
            assert(digits_value(out@, w as nat) == digits_value(old_out, w as nat) + m * big);
        }
    }
    proof {
        if total >= 0 && carry < 0 {
            lemma_pow2_pos((w * out@.len()) as nat);
            lemma_digits_below_bound(out@, w as nat);
            assert(carry * pow2((w * out@.len()) as nat) <= -pow2((w * out@.len()) as nat))
                by (nonlinear_arith)
                requires
                    carry <= -1,
                    pow2((w * out@.len()) as nat) > 0,
            ;
        }
    }
    out
}

/// Digits below 2^w have a value below 2^(w · length).
pub proof fn lemma_digits_below_bound(d: Seq<u64>, w: nat)
    requires
        digits_below(d, w),
    ensures
        digits_value(d, w) < pow2((w * d.len()) as nat),
    decreases d.len(),
{
    if d.len() == 0 {
        vstd::arithmetic::power2::lemma2_to64();
        assert(w * d.len() == 0);
    } else {
        let t = d.subrange(1, d.len() as int);
        assert(digits_below(t, w)) by {
            assert forall|j: int| 0 <= j < t.len() implies #[trigger] t[j] < pow2(w) by {
                assert(t[j] == d[j + 1]);
            }
        }
        lemma_digits_below_bound(t, w);
        lemma_pow2_adds(w, (w * t.len()) as nat);
        assert(w + w * t.len() == w * d.len()) by (nonlinear_arith)
            requires
                d.len() == t.len() + 1,
        ;
        let p = pow2(w);
        let q = pow2((w * t.len()) as nat);
        assert(d[0] < p);
        assert(d[0] + p * digits_value(t, w) < p * q) by (nonlinear_arith)
            requires
                d[0] < p,
                digits_value(t, w) < q,
                digits_value(t, w) >= 0,
        ;
    }
}

} // verus!
