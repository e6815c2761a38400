//! Decimal formatting with thousands separators.
use vstd::prelude::*;

use crate::bignum::{decimal_digits, digit_char};

verus! {

/// Digits with a comma before every group of three, counted from the right.
pub open spec fn grouped(ds: Seq<char>) -> Seq<char>
    decreases ds.len(),
{
    if ds.len() <= 3 {
        ds
    } else {
        grouped(ds.subrange(0, ds.len() - 3)) + seq![','] + ds.subrange(
            ds.len() - 3,
            ds.len() as int,
        )
    }
}

/// Relies on `String`'s `FromIterator<char>`: the characters in order.
#[verifier::external_body]
fn string_from_chars(chars: &Vec<char>) -> (r: String)
    ensures
        r@ == chars@,
{
    chars.iter().collect()
}

fn digit(d: usize) -> (r: char)
    requires
        d < 10,
    ensures
        r == digit_char(d as nat),
{
    if d == 0 {
        '0'
    } else if d == 1 {
        '1'
    } else if d == 2 {
        '2'
    } else if d == 3 {
        '3'
    } else if d == 4 {
        '4'
    } else if d == 5 {
        '5'
    } else if d == 6 {
        '6'
    } else if d == 7 {
        '7'
    } else if d == 8 {
        '8'
    } else {
        '9'
    }
}

/// The decimal digits of `n`.
fn decimal_chars(n: usize) -> (r: Vec<char>)
    ensures
        r@ == decimal_digits(n as nat),
    decreases n,
{
    if n < 10 {
        let mut r: Vec<char> = Vec::new();
        r.push(digit(n));
        proof {
            assert(r@ =~= seq![digit_char(n as nat)]);
        }
        r
    } else {
        let mut r = decimal_chars(n / 10);
        r.push(digit(n % 10));
        r
    }
}

/// `grouped` of the first `end` characters of `ds`.
fn group_prefix(ds: &Vec<char>, end: usize) -> (r: Vec<char>)
    requires
        end <= ds@.len(),
    ensures
        r@ == grouped(ds@.subrange(0, end as int)),
    decreases end,
{
    let prefix = Ghost(ds@.subrange(0, end as int));
    if end <= 3 {
        let mut r: Vec<char> = Vec::new();
        let mut i: usize = 0;
        while i < end
            invariant
                i <= end <= ds@.len(),
                r@ == ds@.subrange(0, i as int),
            decreases end - i,
        {
            r.push(ds[i]);
            i = i + 1;
        }
        r
    } else {
        let mut r = group_prefix(ds, end - 3);
        r.push(',');
        r.push(ds[end - 3]);
        r.push(ds[end - 2]);
        r.push(ds[end - 1]);
        proof {
            assert(prefix@.subrange(0, prefix@.len() - 3) =~= ds@.subrange(0, end - 3));
            assert(r@ =~= grouped(ds@.subrange(0, end - 3)) + seq![','] + prefix@.subrange(
                prefix@.len() - 3,
                prefix@.len() as int,
            ));
        }
        r
    }
}

/// `n` in decimal with a comma between groups of three digits ("1,000,000").
pub fn format_number(n: usize) -> (r: String)
    ensures
        r@ == grouped(decimal_digits(n as nat)),
{
    let ds = decimal_chars(n);
    let g = group_prefix(&ds, ds.len());
    proof {
        assert(ds@.subrange(0, ds@.len() as int) =~= ds@);
    }
    string_from_chars(&g)
}

} // verus!
