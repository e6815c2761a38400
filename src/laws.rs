//! Properties that relate several calls or hold of every input, stated over
//! the spec functions that the functions' own contracts use.
use vstd::prelude::*;

use crate::bignum::{is_trimmed, le_encode, le_value, lemma_le_encode, lemma_trimmed_is_encoding, FibNumber};
use crate::fib_math::{fib, lemma_fib_monotone, lemma_fib_step};
use crate::iterators::{fib_seq, values};

verus! {

/// Base cases: F(0) = 0, F(1) = 1, F(2) = 1; every algorithm returns `fib(n)`.
pub proof fn law_base_cases()
    ensures
        fib(0) == 0,
        fib(1) == 1,
        fib(2) == 1,
{
    lemma_fib_step(0);
}

/// Recurrence: the results for n and n + 1 add up to the result for n + 2.
pub proof fn law_recurrence(n: nat)
    ensures
        fib(n) + fib(n + 1) == fib(n + 2),
{
    lemma_fib_step(n);
}

/// Agreement: fast doubling, the parallel variant, the transform-based
/// variant and the adaptive selector return equal values for the same index.
pub proof fn law_algorithms_agree(
    n: nat,
    fast_doubling: FibNumber,
    parallel: FibNumber,
    transform: FibNumber,
    adaptive: FibNumber,
)
    requires
        fast_doubling@ == fib(n),
        parallel@ == fib(n),
        transform@ == fib(n),
        adaptive@ == fib(n),
    ensures
        fast_doubling@ == parallel@,
        fast_doubling@ == transform@,
        fast_doubling@ == adaptive@,
{
}

/// Monotonicity: F(n + 1) > F(n) from n = 2 on (F(2) = F(1) = 1).
pub proof fn law_strictly_increasing(n: nat)
    requires
        n >= 2,
    ensures
        fib(n + 1) > fib(n),
{
    lemma_fib_step((n - 1) as nat);
    lemma_fib_monotone(1, (n - 1) as nat);
}

/// Range against pointwise: the i-th number that a range from `start`
/// produces is F(start + i).
pub proof fn law_range_pointwise(start: nat, len: nat, produced: Seq<FibNumber>)
    requires
        values(produced) == fib_seq(start, start + len),
    ensures
        produced.len() == len,
        forall|i: int| 0 <= i < len ==> #[trigger] produced[i]@ == fib((start + i) as nat),
{
    assert(values(produced).len() == produced.len());
    assert(fib_seq(start, start + len).len() == len);
    assert forall|i: int| 0 <= i < len implies #[trigger] produced[i]@ == fib(
        (start + i) as nat,
    ) by {
        assert(values(produced)[i] == produced[i]@);
    }
}

/// Round trip: the bytes written for a number read back as that number, and
/// a number read from trimmed bytes writes them back unchanged.
pub proof fn law_le_bytes_round_trip(v: nat, bytes: Seq<u8>)
    ensures
        le_value(le_encode(v)) == v,
        is_trimmed(bytes) ==> le_encode(le_value(bytes)) == bytes,
{
    lemma_le_encode(v);
    if is_trimmed(bytes) {
        lemma_trimmed_is_encoding(bytes);
    }
}

} // verus!
