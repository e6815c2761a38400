//! The arbitrary-precision natural number that every algorithm works on.
//!
//! A `FibNumber` holds its value as little-endian bytes with no zero byte at
//! the most significant end; the arithmetic itself is ibig's. Every ibig
//! wrapper below reads its operands with `UBig::from_le_bytes` and writes its
//! result with `UBig::to_le_bytes`, which writes the shortest little-endian
//! bytes (none for zero). ibig supports numbers of up to `UBig::MAX_BIT_LEN`
//! bits, a bound that fits in `usize`; `fits` keeps every value below
//! 2^(usize::MAX / 2), within that bound on 32- and 64-bit targets.
use vstd::arithmetic::power::pow;
use vstd::arithmetic::power2::pow2;
use vstd::prelude::*;

verus! {

/// The value of little-endian bytes.
pub open spec fn le_value(bytes: Seq<u8>) -> nat
    decreases bytes.len(),
{
    if bytes.len() == 0 {
        0
    } else {
        bytes[0] as nat + 256 * le_value(bytes.subrange(1, bytes.len() as int))
    }
}

/// No zero byte at the most significant end (zero is the empty sequence).
pub open spec fn is_trimmed(bytes: Seq<u8>) -> bool {
    bytes.len() == 0 || bytes.last() != 0
}

/// The shortest little-endian encoding of `v`.
pub open spec fn le_encode(v: nat) -> Seq<u8>
    decreases v,
{
    if v == 0 {
        Seq::empty()
    } else {
        seq![(v % 256) as u8] + le_encode(v / 256)
    }
}

/// Number of bits needed to write `v` (zero for zero).
pub open spec fn bit_length(v: nat) -> nat
    decreases v,
{
    if v == 0 {
        0
    } else {
        1 + bit_length(v / 2)
    }
}

/// Bit lengths that ibig represents on every platform.
pub open spec fn max_bits() -> nat {
    (usize::MAX / 2) as nat
}

/// `v` is small enough to be held by a `FibNumber`.
pub open spec fn fits(v: nat) -> bool {
    v < pow2(max_bits())
}

/// The character of a decimal digit.
pub open spec fn digit_char(d: nat) -> char {
    if d == 0 {
        '0'
    } else if d == 1 {
        '1'
    } else if d == 2 {
        '2'
    } else if d == 3 {
        '3'
    } else if d == 4 {
        '4'
    } else if d == 5 {
        '5'
    } else if d == 6 {
        '6'
    } else if d == 7 {
        '7'
    } else if d == 8 {
        '8'
    } else {
        '9'
    }
}

/// The decimal numeral of `v`, most significant digit first.
pub open spec fn decimal_digits(v: nat) -> Seq<char>
    decreases v,
{
    if v < 10 {
        seq![digit_char(v)]
    } else {
        decimal_digits(v / 10).push(digit_char(v % 10))
    }
}

/// Relies on ibig's `+` on `UBig` (read and written with `UBig::from_le_bytes`
/// and `UBig::to_le_bytes`, which writes no trailing zero byte).
#[verifier::external_body]
fn ubig_add(a: &Vec<u8>, b: &Vec<u8>) -> (r: Vec<u8>)
    requires
        fits(le_value(a@) + le_value(b@)),
    ensures
        le_value(r@) == le_value(a@) + le_value(b@),
        is_trimmed(r@),
{
    (ibig::UBig::from_le_bytes(a) + ibig::UBig::from_le_bytes(b)).to_le_bytes()
}

/// Relies on ibig's `-` on `UBig`, which panics when the result would be negative.
#[verifier::external_body]
fn ubig_sub(a: &Vec<u8>, b: &Vec<u8>) -> (r: Vec<u8>)
    requires
        le_value(a@) >= le_value(b@),
        fits(le_value(a@)),
    ensures
        le_value(r@) == le_value(a@) - le_value(b@),
        is_trimmed(r@),
{
    (ibig::UBig::from_le_bytes(a) - ibig::UBig::from_le_bytes(b)).to_le_bytes()
}

/// Relies on ibig's `*` on `UBig`.
#[verifier::external_body]
fn ubig_mul(a: &Vec<u8>, b: &Vec<u8>) -> (r: Vec<u8>)
    requires
        fits(le_value(a@) * le_value(b@)),
        fits(le_value(a@)),
        fits(le_value(b@)),
    ensures
        le_value(r@) == le_value(a@) * le_value(b@),
        is_trimmed(r@),
{
    (&ibig::UBig::from_le_bytes(a) * &ibig::UBig::from_le_bytes(b)).to_le_bytes()
}

/// Relies on ibig's `UBig::pow`.
#[verifier::external_body]
fn ubig_pow(a: &Vec<u8>, exp: usize) -> (r: Vec<u8>)
    requires
        fits(pow(le_value(a@) as int, exp as nat) as nat),
        fits(le_value(a@)),
    ensures
        le_value(r@) == pow(le_value(a@) as int, exp as nat),
        is_trimmed(r@),
{
    ibig::UBig::from_le_bytes(a).pow(exp).to_le_bytes()
}

/// Relies on ibig's `<<` on `UBig` (multiplication by a power of two).
#[verifier::external_body]
fn ubig_shl(a: &Vec<u8>, bits: usize) -> (r: Vec<u8>)
    requires
        fits(le_value(a@) * pow2(bits as nat)),
        fits(le_value(a@)),
    ensures
        le_value(r@) == le_value(a@) * pow2(bits as nat),
        is_trimmed(r@),
{
    (ibig::UBig::from_le_bytes(a) << bits).to_le_bytes()
}

/// Relies on ibig's `UBig::bit_len`.
#[verifier::external_body]
fn ubig_bit_len(a: &Vec<u8>) -> (r: usize)
    requires
        fits(le_value(a@)),
    ensures
        r == bit_length(le_value(a@)),
{
    ibig::UBig::from_le_bytes(a).bit_len()
}

/// Relies on ibig's `==` on `UBig` (equality of the values).
#[verifier::external_body]
fn ubig_eq(a: &Vec<u8>, b: &Vec<u8>) -> (r: bool)
    requires
        fits(le_value(a@)),
        fits(le_value(b@)),
    ensures
        r == (le_value(a@) == le_value(b@)),
{
    ibig::UBig::from_le_bytes(a) == ibig::UBig::from_le_bytes(b)
}

/// The order of two naturals.
pub open spec fn compare(a: nat, b: nat) -> core::cmp::Ordering {
    if a < b {
        core::cmp::Ordering::Less
    } else if a == b {
        core::cmp::Ordering::Equal
    } else {
        core::cmp::Ordering::Greater
    }
}

/// Relies on ibig's `Ord::cmp` on `UBig` (the order of the values).
#[verifier::external_body]
fn ubig_cmp(a: &Vec<u8>, b: &Vec<u8>) -> (r: core::cmp::Ordering)
    requires
        fits(le_value(a@)),
        fits(le_value(b@)),
    ensures
        r == compare(le_value(a@), le_value(b@)),
{
    ibig::UBig::from_le_bytes(a).cmp(&ibig::UBig::from_le_bytes(b))
}

/// Relies on ibig's `From<u128>` for `UBig`.
#[verifier::external_body]
fn ubig_from_u128(v: u128) -> (r: Vec<u8>)
    ensures
        le_value(r@) == v,
        is_trimmed(r@),
{
    ibig::UBig::from(v).to_le_bytes()
}

/// Relies on ibig's `Display` for `UBig`, which writes the value in decimal.
#[verifier::external_body]
fn ubig_decimal(a: &Vec<u8>) -> (r: String)
    requires
        fits(le_value(a@)),
    ensures
        r@ == decimal_digits(le_value(a@)),
{
    ibig::UBig::from_le_bytes(a).to_string()
}

/// An arbitrary-precision natural number.
#[derive(Debug)]
pub struct FibNumber {
    bytes: Vec<u8>,
}

impl View for FibNumber {
    type V = nat;

    closed spec fn view(&self) -> nat {
        le_value(self.bytes@)
    }
}

pub proof fn lemma_u128_fits(v: nat)
    requires
        v <= 0xffff_ffff_ffff_ffff_ffff_ffff_ffff_ffffnat,
    ensures
        fits(v),
{
    vstd::arithmetic::power2::lemma2_to64_rest();
    assert(pow2(128) == 0x1_0000_0000_0000_0000_0000_0000_0000_0000nat) by {
        vstd::arithmetic::power2::lemma_pow2_adds(64, 64);
    }
    vstd::arithmetic::power2::lemma_pow2_strictly_increases(128, max_bits());
}

impl FibNumber {
    #[verifier::type_invariant]
    spec fn well_formed(self) -> bool {
        is_trimmed(self.bytes@) && fits(le_value(self.bytes@))
    }

    /// Zero.
    pub fn zero() -> (r: FibNumber)
        ensures
            r@ == 0,
    {
        proof {
            lemma_u128_fits(0);
        }
        FibNumber { bytes: Vec::new() }
    }

    /// The value of a `u128`.
    pub fn from_u128(v: u128) -> (r: FibNumber)
        ensures
            r@ == v,
    {
        let bytes = ubig_from_u128(v);
        proof {
            lemma_u128_fits(v as nat);
        }
        FibNumber { bytes }
    }

    /// `self + rhs`.
    pub fn add(&self, rhs: &FibNumber) -> (r: FibNumber)
        requires
            fits(self@ + rhs@),
        ensures
            r@ == self@ + rhs@,
    {
        let bytes = ubig_add(&self.bytes, &rhs.bytes);
        FibNumber { bytes }
    }

    /// `self - rhs`, for `rhs <= self`.
    pub fn sub(&self, rhs: &FibNumber) -> (r: FibNumber)
        requires
            rhs@ <= self@,
        ensures
            r@ == self@ - rhs@,
    {
        proof {
            use_type_invariant(self);
            vstd::arithmetic::power2::lemma_pow2_pos(max_bits());
        }
        let bytes = ubig_sub(&self.bytes, &rhs.bytes);
        FibNumber { bytes }
    }

    /// `self * rhs`.
    pub fn mul(&self, rhs: &FibNumber) -> (r: FibNumber)
        requires
            fits(self@ * rhs@),
        ensures
            r@ == self@ * rhs@,
    {
        proof {
            use_type_invariant(self);
            use_type_invariant(rhs);
        }
        let bytes = ubig_mul(&self.bytes, &rhs.bytes);
        FibNumber { bytes }
    }

    /// `self * self`.
    pub fn square(&self) -> (r: FibNumber)
        requires
            fits(self@ * self@),
        ensures
            r@ == self@ * self@,
    {
        self.mul(self)
    }

    /// `self * 2^bits`.
    pub fn shl(&self, bits: usize) -> (r: FibNumber)
        requires
            fits(self@ * pow2(bits as nat)),
        ensures
            r@ == self@ * pow2(bits as nat),
    {
        proof {
            use_type_invariant(self);
        }
        let bytes = ubig_shl(&self.bytes, bits);
        FibNumber { bytes }
    }

    /// `self^exp`.
    pub fn pow(&self, exp: u32) -> (r: FibNumber)
        requires
            fits(pow(self@ as int, exp as nat) as nat),
        ensures
            r@ == pow(self@ as int, exp as nat),
    {
        proof {
            use_type_invariant(self);
        }
        let bytes = ubig_pow(&self.bytes, exp as usize);
        FibNumber { bytes }
    }

    /// In-place `self += rhs`.
    pub fn add_assign(&mut self, rhs: &FibNumber)
        requires
            fits(old(self)@ + rhs@),
        ensures
            final(self)@ == old(self)@ + rhs@,
    {
        let bytes = ubig_add(&self.bytes, &rhs.bytes);
        *self = FibNumber { bytes };
    }

    /// In-place `self -= rhs`, for `rhs <= self`.
    pub fn sub_assign(&mut self, rhs: &FibNumber)
        requires
            rhs@ <= old(self)@,
        ensures
            final(self)@ == old(self)@ - rhs@,
    {
        *self = self.sub(rhs);
    }

    /// In-place `self *= rhs`.
    pub fn mul_assign(&mut self, rhs: &FibNumber)
        requires
            fits(old(self)@ * rhs@),
        ensures
            final(self)@ == old(self)@ * rhs@,
    {
        *self = self.mul(rhs);
    }

    /// In-place `self <<= bits`.
    pub fn shl_assign(&mut self, bits: usize)
        requires
            fits(old(self)@ * pow2(bits as nat)),
        ensures
            final(self)@ == old(self)@ * pow2(bits as nat),
    {
        *self = self.shl(bits);
    }

    /// Number of bits needed to write the value (zero for zero).
    pub fn bit_len(&self) -> (r: usize)
        ensures
            r == bit_length(self@),
    {
        proof {
            use_type_invariant(self);
        }
        ubig_bit_len(&self.bytes)
    }

    /// The value is zero.
    pub fn is_zero(&self) -> (r: bool)
        ensures
            r == (self@ == 0),
    {
        proof {
            use_type_invariant(self);
            lemma_trimmed_value_positive(self.bytes@);
        }
        self.bytes.len() == 0
    }

    /// Equality of values.
    pub fn equals(&self, other: &FibNumber) -> (r: bool)
        ensures
            r == (self@ == other@),
    {
        proof {
            use_type_invariant(self);
            use_type_invariant(other);
        }
        ubig_eq(&self.bytes, &other.bytes)
    }

    /// The little-endian bytes of the value, with no zero byte at the most
    /// significant end (none at all for zero).
    pub fn to_le_bytes(&self) -> (r: Vec<u8>)
        ensures
            r@ == le_encode(self@),
            le_value(r@) == self@,
            is_trimmed(r@),
    {
        proof {
            use_type_invariant(self);
            lemma_trimmed_is_encoding(self.bytes@);
            lemma_le_encode(self@);
        }
        let mut r: Vec<u8> = Vec::new();
        let mut i: usize = 0;
        while i < self.bytes.len()
            invariant
                0 <= i <= self.bytes.len(),
                r@ == self.bytes@.subrange(0, i as int),
            decreases self.bytes.len() - i,
        {
            r.push(self.bytes[i]);
            i = i + 1;
        }
        assert(r@ == self.bytes@);
        r
    }

    /// The number that little-endian `bytes` denote; missing high bytes count
    /// as zero, and zero bytes at the high end are ignored.
    pub fn from_le_bytes(bytes: &[u8]) -> (r: FibNumber)
        requires
            fits(le_value(bytes@)),
        ensures
            r@ == le_value(bytes@),
    {
        let mut len: usize = bytes.len();
        assert(bytes@.subrange(0, len as int) == bytes@);
        while len > 0 && bytes[len - 1] == 0
            invariant
                0 <= len <= bytes@.len(),
                le_value(bytes@.subrange(0, len as int)) == le_value(bytes@),
            decreases len,
        {
            proof {
                lemma_le_value_drop_last_zero(bytes@.subrange(0, len as int));
                assert(bytes@.subrange(0, len as int).subrange(0, len - 1) == bytes@.subrange(
                    0,
                    len - 1,
                ));
            }
            len = len - 1;
        }
        let mut out: Vec<u8> = Vec::new();
        let mut i: usize = 0;
        while i < len
            invariant
                0 <= i <= len <= bytes@.len(),
                out@ == bytes@.subrange(0, i as int),
            decreases len - i,
        {
            out.push(bytes[i]);
            i = i + 1;
        }
        assert(out@ == bytes@.subrange(0, len as int));
        FibNumber { bytes: out }
    }

    /// The value in decimal.
    pub fn decimal(&self) -> (r: String)
        ensures
            r@ == decimal_digits(self@),
    {
        proof {
            use_type_invariant(self);
        }
        ubig_decimal(&self.bytes)
    }
}

impl Clone for FibNumber {
    fn clone(&self) -> (r: FibNumber)
        ensures
            r@ == self@,
    {
        proof {
            use_type_invariant(self);
        }
        let mut bytes: Vec<u8> = Vec::new();
        let mut i: usize = 0;
        while i < self.bytes.len()
            invariant
                0 <= i <= self.bytes.len(),
                bytes@ == self.bytes@.subrange(0, i as int),
            decreases self.bytes.len() - i,
        {
            bytes.push(self.bytes[i]);
            i = i + 1;
        }
        assert(bytes@ == self.bytes@);
        FibNumber { bytes }
    }
}

impl From<u32> for FibNumber {
    fn from(v: u32) -> (r: FibNumber)
        ensures
            r@ == v,
    {
        FibNumber::from_u128(v as u128)
    }
}

impl vstd::std_specs::convert::FromSpecImpl<u32> for FibNumber {
    open spec fn obeys_from_spec() -> bool {
        false
    }

    open spec fn from_spec(v: u32) -> FibNumber {
        arbitrary()
    }
}

impl From<u64> for FibNumber {
    fn from(v: u64) -> (r: FibNumber)
        ensures
            r@ == v,
    {
        FibNumber::from_u128(v as u128)
    }
}

impl vstd::std_specs::convert::FromSpecImpl<u64> for FibNumber {
    open spec fn obeys_from_spec() -> bool {
        false
    }

    open spec fn from_spec(v: u64) -> FibNumber {
        arbitrary()
    }
}

impl From<u128> for FibNumber {
    fn from(v: u128) -> (r: FibNumber)
        ensures
            r@ == v,
    {
        FibNumber::from_u128(v as u128)
    }
}

impl vstd::std_specs::convert::FromSpecImpl<u128> for FibNumber {
    open spec fn obeys_from_spec() -> bool {
        false
    }

    open spec fn from_spec(v: u128) -> FibNumber {
        arbitrary()
    }
}

impl PartialEq for FibNumber {
    fn eq(&self, other: &FibNumber) -> (r: bool) {
        self.equals(other)
    }
}

impl vstd::std_specs::cmp::PartialEqSpecImpl for FibNumber {
    open spec fn obeys_eq_spec() -> bool {
        true
    }

    open spec fn eq_spec(&self, other: &FibNumber) -> bool {
        self@ == other@
    }
}

impl PartialOrd for FibNumber {
    fn partial_cmp(&self, other: &FibNumber) -> (r: Option<core::cmp::Ordering>) {
        proof {
            use_type_invariant(self);
            use_type_invariant(other);
        }
        Some(ubig_cmp(&self.bytes, &other.bytes))
    }
}

impl vstd::std_specs::cmp::PartialOrdSpecImpl for FibNumber {
    open spec fn obeys_partial_cmp_spec() -> bool {
        true
    }

    open spec fn partial_cmp_spec(&self, other: &FibNumber) -> Option<core::cmp::Ordering> {
        Some(compare(self@, other@))
    }
}

impl Eq for FibNumber {

}

/// The operations that the algorithms need of a big natural number.
pub trait FibOps: Sized + View<V = nat> {
    /// Number of bits needed to write the value (zero for zero).
    fn bit_len(&self) -> (r: usize)
        ensures
            r == bit_length(self@),
    ;

    /// `self^exp`.
    fn pow(&self, exp: u32) -> (r: Self)
        requires
            fits(pow(self@ as int, exp as nat) as nat),
        ensures
            r@ == pow(self@ as int, exp as nat),
    ;

    /// The value is zero.
    fn is_zero(&self) -> (r: bool)
        ensures
            r == (self@ == 0),
    ;

    /// The shortest little-endian bytes of the value.
    fn to_le_bytes(&self) -> (r: Vec<u8>)
        ensures
            r@ == le_encode(self@),
    ;

    /// The number that little-endian `bytes` denote.
    fn from_le_bytes(bytes: &[u8]) -> (r: Self)
        requires
            fits(le_value(bytes@)),
        ensures
            r@ == le_value(bytes@),
    ;
}

impl FibOps for FibNumber {
    fn bit_len(&self) -> (r: usize) {
        FibNumber::bit_len(self)
    }

    fn pow(&self, exp: u32) -> (r: FibNumber) {
        FibNumber::pow(self, exp)
    }

    fn is_zero(&self) -> (r: bool) {
        FibNumber::is_zero(self)
    }

    fn to_le_bytes(&self) -> (r: Vec<u8>) {
        FibNumber::to_le_bytes(self)
    }

    fn from_le_bytes(bytes: &[u8]) -> (r: FibNumber) {
        FibNumber::from_le_bytes(bytes)
    }
}

/// `le_encode(v)` denotes `v` and is trimmed.
pub proof fn lemma_le_encode(v: nat)
    ensures
        le_value(le_encode(v)) == v,
        is_trimmed(le_encode(v)),
    decreases v,
{
    if v > 0 {
        let s = le_encode(v);
        lemma_le_encode(v / 256);
        let t = le_encode(v / 256);
        assert(s.subrange(1, s.len() as int) =~= t);
        if v / 256 > 0 {
            assert(t.len() > 0);
            assert(s.last() == t.last());
        }
    }
}

/// A trimmed sequence is the encoding of its own value: trimmed encodings
/// are unique.
pub proof fn lemma_trimmed_is_encoding(s: Seq<u8>)
    requires
        is_trimmed(s),
    ensures
        s == le_encode(le_value(s)),
    decreases s.len(),
{
    if s.len() > 0 {
        let t = s.subrange(1, s.len() as int);
        if t.len() > 0 {
            assert(t.last() == s.last());
        }
        lemma_trimmed_is_encoding(t);
        lemma_trimmed_value_positive(s);
        let v = le_value(s);
        let tv = le_value(t);
        assert(v == s[0] as nat + 256 * tv);
        vstd::arithmetic::div_mod::lemma_fundamental_div_mod_converse(
            v as int,
            256,
            tv as int,
            s[0] as int,
        );
        assert(le_encode(v) =~= seq![s[0]] + le_encode(tv));
        assert(s =~= seq![s[0]] + t);
    }
}

/// A trimmed, non-empty encoding denotes a positive number.
pub proof fn lemma_trimmed_value_positive(s: Seq<u8>)
    requires
        is_trimmed(s),
    ensures
        (s.len() > 0) == (le_value(s) > 0),
    decreases s.len(),
{
    if s.len() > 1 {
        let t = s.subrange(1, s.len() as int);
        assert(t.last() == s.last());
        lemma_trimmed_value_positive(t);
    }
}

/// Dropping a zero byte at the most significant end keeps the value.
pub proof fn lemma_le_value_drop_last_zero(s: Seq<u8>)
    requires
        s.len() > 0,
        s.last() == 0,
    ensures
        le_value(s.subrange(0, s.len() - 1)) == le_value(s),
    decreases s.len(),
{
    let t = s.subrange(1, s.len() as int);
    let u = s.subrange(0, s.len() - 1);
    if s.len() == 1 {
        assert(le_value(t) == 0);
        assert(le_value(u) == 0);
    } else {
        lemma_le_value_drop_last_zero(t);
        assert(u.subrange(1, u.len() as int) == t.subrange(0, t.len() - 1));
        assert(le_value(u) == u[0] as nat + 256 * le_value(u.subrange(1, u.len() as int)));
    }
}

} // verus!
