//! Lazy iteration over F(start..end), from both ends, its parallel split, and
//! an endless iterator.
use vstd::prelude::*;

use crate::bignum::FibNumber;
use crate::fast_doubling::{fib_pair, index_supported, lemma_fib_fits};
use crate::fib_math::{fib, lemma_fib_le_next, lemma_fib_step};

verus! {

/// The numbers F(start), F(start + 1), …, F(end − 1).
pub open spec fn fib_seq(start: nat, end: nat) -> Seq<nat> {
    Seq::new((if start < end { end - start } else { 0 }) as nat, |i: int| fib((start + i) as nat))
}

/// The values of a sequence of numbers.
pub open spec fn values(v: Seq<FibNumber>) -> Seq<nat> {
    v.map_values(|x: FibNumber| x@)
}

/// Lazy iterator over F(start..end): F(k) for k from the front index up to,
/// not including, the back index, taken from either end.
pub struct FibRange {
    current: FibNumber,
    next: FibNumber,
    position: u64,
    end: u64,
    back_current: FibNumber,
    back_next: FibNumber,
}

impl FibRange {
    /// While the ends have not met, the front pair is (F(front), F(front + 1))
    /// and the back pair is (F(back − 1), F(back)).
    pub closed spec fn wf(&self) -> bool {
        self.position < self.end ==> {
            &&& self.current@ == fib(self.position as nat)
            &&& self.next@ == fib(self.position as nat + 1)
            &&& self.back_current@ == fib((self.end - 1) as nat)
            &&& self.back_next@ == fib(self.end as nat)
            &&& index_supported(self.end as nat)
        }
    }

    /// Index of the next number from the front.
    pub closed spec fn front(&self) -> u64 {
        self.position
    }

    /// One past the index of the next number from the back.
    pub closed spec fn back(&self) -> u64 {
        self.end
    }

    /// How many numbers are left.
    pub open spec fn remaining(&self) -> nat {
        if self.front() < self.back() {
            (self.back() - self.front()) as nat
        } else {
            0
        }
    }

    /// The numbers left, in order.
    pub open spec fn remaining_values(&self) -> Seq<nat> {
        fib_seq(self.front() as nat, self.back() as nat)
    }

    /// The range F(start..end); empty when `start >= end`.
    pub fn new(start: u64, end: u64) -> (r: FibRange)
        requires
            start < end ==> index_supported(end as nat),
        ensures
            r.wf(),
            start < end ==> r.front() == start && r.back() == end,
            start >= end ==> r.front() == 0 && r.back() == 0,
            r.remaining_values() == fib_seq(start as nat, end as nat),
    {
        if start >= end {
            return FibRange {
                current: FibNumber::zero(),
                next: FibNumber::zero(),
                position: 0,
                end: 0,
                back_current: FibNumber::zero(),
                back_next: FibNumber::zero(),
            };
        }
        let (current, next) = fib_pair(start);
        let (back_current, back_next) = fib_pair(end - 1);
        FibRange { current, next, position: start, end, back_current, back_next }
    }

    /// Index of the next number from the front (zero for a range made empty).
    pub fn position(&self) -> (r: u64)
        ensures
            r == self.front(),
    {
        self.position
    }

    /// F(front) and the front moved by one, or `None` once the ends have met.
    pub fn next(&mut self) -> (r: Option<FibNumber>)
        requires
            old(self).wf(),
        ensures
            final(self).wf(),
            old(self).front() < old(self).back() ==> {
                &&& r is Some
                &&& r->Some_0@ == fib(old(self).front() as nat)
                &&& final(self).front() == old(self).front() + 1
                &&& final(self).back() == old(self).back()
            },
            old(self).front() >= old(self).back() ==> r is None && final(self).front() == old(
                self,
            ).front() && final(self).back() == old(self).back(),
            old(self).remaining() > 0 ==> final(self).remaining_values() == old(
                self,
            ).remaining_values().drop_first(),
            old(self).remaining() == 0 ==> final(self).remaining() == 0,
    {
        if self.position >= self.end {
            return None;
        }
        let result = self.current.clone();
        proof {
            lemma_fib_step(self.position as nat);
            lemma_fib_fits(self.position as nat + 2);
        }
        let mut moving = self.current.add(&self.next);
        std::mem::swap(&mut moving, &mut self.next);
        std::mem::swap(&mut moving, &mut self.current);
        self.position = self.position + 1;
        proof {
            let old_seq = fib_seq(old(self).position as nat, self.end as nat);
            let new_seq = fib_seq(self.position as nat, self.end as nat);
            assert(new_seq == old_seq.drop_first());
        }
        Some(result)
    }

    /// F(back − 1) and the back moved by one, or `None` once the ends have met.
    pub fn next_back(&mut self) -> (r: Option<FibNumber>)
        requires
            old(self).wf(),
        ensures
            final(self).wf(),
            old(self).front() < old(self).back() ==> {
                &&& r is Some
                &&& r->Some_0@ == fib((old(self).back() - 1) as nat)
                &&& final(self).front() == old(self).front()
                &&& final(self).back() == old(self).back() - 1
            },
            old(self).front() >= old(self).back() ==> r is None && final(self).front() == old(
                self,
            ).front() && final(self).back() == old(self).back(),
            old(self).remaining() > 0 ==> final(self).remaining_values() == old(
                self,
            ).remaining_values().drop_last(),
            old(self).remaining() == 0 ==> final(self).remaining() == 0,
    {
        if self.position >= self.end {
            return None;
        }
        self.end = self.end - 1;
        let result = self.back_current.clone();
        proof {
            if self.end >= 1 {
                lemma_fib_step((self.end - 1) as nat);
            } else {
                assert(fib(1) == 1);
            }
            lemma_fib_le_next(self.end as nat);
        }
        // F(end − 1) = F(end + 1) − F(end), one step back.
        let mut moving = self.back_next.sub(&self.back_current);
        std::mem::swap(&mut moving, &mut self.back_current);
        std::mem::swap(&mut moving, &mut self.back_next);
        proof {
            let old_seq = fib_seq(self.position as nat, old(self).end as nat);
            let new_seq = fib_seq(self.position as nat, self.end as nat);
            assert(new_seq == old_seq.drop_last());
            if self.position < self.end {
                assert(self.end >= 1);
            }
        }
        Some(result)
    }

    /// (remaining, Some(remaining)).
    pub fn size_hint(&self) -> (r: (usize, Option<usize>))
        ensures
            self.remaining() <= usize::MAX ==> r.0 == self.remaining() && r.1 == Some(
                self.remaining() as usize,
            ),
    {
        let remaining = self.len();
        (remaining, Some(remaining))
    }

    /// How many numbers are left.
    pub fn len(&self) -> (r: usize)
        ensures
            self.remaining() <= usize::MAX ==> r == self.remaining(),
    {
        let remaining: u64 = if self.position < self.end {
            self.end - self.position
        } else {
            0
        };
        if remaining as u128 > usize::MAX as u128 {
            usize::MAX
        } else {
            remaining as usize
        }
    }

    /// All numbers left, front to back.
    pub fn collect(self) -> (r: Vec<FibNumber>)
        requires
            self.wf(),
        ensures
            values(r@) == self.remaining_values(),
    {
        let mut range = self;
        let ghost all = range.remaining_values();
        assert(values(Seq::<FibNumber>::empty()) + all =~= all);
        let mut out: Vec<FibNumber> = Vec::new();
        loop
            invariant
                values(out@) + range.remaining_values() == all,
                range.wf(),
            ensures
                values(out@) == all,
            decreases range.remaining(),
        {
            let ghost before = range.remaining_values();
            match range.next() {
                Some(x) => {
                    proof {
                        assert(before.len() > 0);
                        assert(x@ == before[0]);
                        assert(range.remaining_values() == before.drop_first());
                    }
                    let ghost prev = out@;
                    out.push(x);
                    proof {
                        assert(values(out@) =~= values(prev).push(x@));
                        assert(values(out@) + range.remaining_values() =~= values(prev)
                            + before);
                    }
                },
                None => {
                    assert(values(out@) + range.remaining_values() =~= values(out@));
                    break;
                },
            }
        }
        out
    }

    /// The parallel form of the numbers left.
    pub fn into_par_iter(self) -> (r: ParFibRange)
        ensures
            r.start == self.front(),
            r.end == self.back(),
    {
        ParFibRange { start: self.position, end: self.end }
    }
}

/// F(start..end) as a lazy range.
pub fn fib_range(start: u64, end: u64) -> (r: FibRange)
    requires
        start < end ==> index_supported(end as nat),
    ensures
        r.wf(),
        start < end ==> r.front() == start && r.back() == end,
        start >= end ==> r.front() == 0 && r.back() == 0,
        r.remaining_values() == fib_seq(start as nat, end as nat),
{
    FibRange::new(start, end)
}

/// A range F(start..end) that splits at any index into two independent
/// ranges, each seeded on its own.
pub struct ParFibRange {
    pub start: u64,
    pub end: u64,
}

/// Ranges at most this long are produced on one thread.
pub const PAR_RANGE_MIN_CHUNK: u64 = 64;

/// Two adjacent stretches of the sequence make the whole.
pub proof fn lemma_fib_seq_concat(start: nat, mid: nat, end: nat)
    requires
        start <= mid <= end,
    ensures
        fib_seq(start, mid) + fib_seq(mid, end) == fib_seq(start, end),
{
    assert(fib_seq(start, mid) + fib_seq(mid, end) =~= fib_seq(start, end));
}

/// Values of a concatenation.
proof fn lemma_values_concat(a: Seq<FibNumber>, b: Seq<FibNumber>)
    ensures
        values(a + b) == values(a) + values(b),
{
    assert(values(a + b) =~= values(a) + values(b));
}

impl ParFibRange {
    /// How many numbers the range holds.
    pub fn len(&self) -> (r: u64)
        ensures
            r == (if self.start < self.end {
                self.end - self.start
            } else {
                0
            }),
    {
        if self.start < self.end {
            self.end - self.start
        } else {
            0
        }
    }

    /// The ranges [start, start + index) and [start + index, end).
    pub fn split_at(self, index: u64) -> (r: (ParFibRange, ParFibRange))
        requires
            self.start <= self.end,
            index <= self.end - self.start,
        ensures
            r.0.start == self.start,
            r.0.end == self.start + index,
            r.1.start == self.start + index,
            r.1.end == self.end,
    {
        let mid = self.start + index;
        (ParFibRange { start: self.start, end: mid }, ParFibRange { start: mid, end: self.end })
    }

    /// The sequential range over the same indices.
    pub fn into_iter(self) -> (r: FibRange)
        requires
            self.start < self.end ==> index_supported(self.end as nat),
        ensures
            r.wf(),
            r.remaining_values() == fib_seq(self.start as nat, self.end as nat),
    {
        FibRange::new(self.start, self.end)
    }

    /// All numbers of the range in index order, halves produced in parallel.
    pub fn collect(self) -> (r: Vec<FibNumber>)
        requires
            self.start < self.end ==> index_supported(self.end as nat),
        ensures
            values(r@) == fib_seq(self.start as nat, self.end as nat),
    {
        collect_split(self.start, self.end)
    }
}

/// F(start..end) in order: short ranges directly, longer ones split in half
/// with both halves produced in parallel.
fn collect_split(start: u64, end: u64) -> (r: Vec<FibNumber>)
    requires
        start < end ==> index_supported(end as nat),
    ensures
        values(r@) == fib_seq(start as nat, end as nat),
    decreases end - start,
{
    if start >= end || end - start <= PAR_RANGE_MIN_CHUNK {
        return FibRange::new(start, end).collect();
    }
    let mid = start + (end - start) / 2;
    let lower = move || -> (r: Vec<FibNumber>)
        requires
            start < mid ==> index_supported(mid as nat),
        ensures
            values(r@) == fib_seq(start as nat, mid as nat),
        { collect_split(start, mid) };
    let upper = move || -> (r: Vec<FibNumber>)
        requires
            mid < end ==> index_supported(end as nat),
        ensures
            values(r@) == fib_seq(mid as nat, end as nat),
        { collect_split(mid, end) };
    let (mut left, mut right) = rayon::join(lower, upper);
    let ghost l = left@;
    let ghost rr = right@;
    left.append(&mut right);
    proof {
        lemma_values_concat(l, rr);
        lemma_fib_seq_concat(start as nat, mid as nat, end as nat);
    }
    left
}

/// F(start..end) collected in index order, sub-ranges produced in parallel.
/// `_chunk_size` is accepted for compatibility; splitting is automatic.
pub fn fib_range_parallel(start: u64, end: u64, _chunk_size: usize) -> (r: Vec<FibNumber>)
    requires
        start < end ==> index_supported(end as nat),
    ensures
        values(r@) == fib_seq(start as nat, end as nat),
{
    if start >= end {
        return Vec::new();
    }
    FibRange::new(start, end).into_par_iter().collect()
}

/// Endless lazy iterator F(start), F(start + 1), …
pub struct FibIter {
    current: FibNumber,
    next: FibNumber,
    position: u64,
}

impl FibIter {
    /// The state is (F(position), F(position + 1)).
    pub closed spec fn wf(&self) -> bool {
        &&& self.current@ == fib(self.position as nat)
        &&& self.next@ == fib(self.position as nat + 1)
    }

    /// Index of the next number.
    pub closed spec fn at(&self) -> u64 {
        self.position
    }

    /// The iterator from F(start).
    pub fn from(start: u64) -> (r: FibIter)
        requires
            index_supported(start as nat),
        ensures
            r.wf(),
            r.at() == start,
    {
        let (current, next) = fib_pair(start);
        FibIter { current, next, position: start }
    }

    /// The iterator from F(0).
    pub fn new() -> (r: FibIter)
        ensures
            r.wf(),
            r.at() == 0,
    {
        proof {
            vstd::arithmetic::power2::lemma2_to64();
        }
        FibIter::from(0)
    }

    /// Index of the next number.
    pub fn position(&self) -> (r: u64)
        ensures
            r == self.at(),
    {
        self.position
    }

    /// F(position), moving on by one; never `None`.
    pub fn next(&mut self) -> (r: Option<FibNumber>)
        requires
            old(self).wf(),
            index_supported(old(self).at() as nat + 1),
        ensures
            final(self).wf(),
            final(self).at() == old(self).at() + 1,
            r is Some,
            r->Some_0@ == fib(old(self).at() as nat),
    {
        let result = self.current.clone();
        proof {
            lemma_fib_step(self.position as nat);
            lemma_fib_fits(self.position as nat + 2);
        }
        let mut moving = self.current.add(&self.next);
        std::mem::swap(&mut moving, &mut self.next);
        std::mem::swap(&mut moving, &mut self.current);
        self.position = self.position + 1;
        Some(result)
    }

    /// The next `count` numbers.
    pub fn take(&mut self, count: usize) -> (r: Vec<FibNumber>)
        requires
            old(self).wf(),
            index_supported((old(self).at() + count + 1) as nat),
        ensures
            final(self).wf(),
            final(self).at() == old(self).at() + count,
            values(r@) == fib_seq(old(self).at() as nat, (old(self).at() + count) as nat),
    {
        let ghost start = self.position as nat;
        let mut out: Vec<FibNumber> = Vec::new();
        let mut i: usize = 0;
        while i < count
            invariant
                self.wf(),
                0 <= i <= count,
                self.at() == start + i,
                index_supported((start + count + 1) as nat),
                values(out@) == fib_seq(start, (start + i) as nat),
            decreases count - i,
        {
            let ghost prev = out@;
            match self.next() {
                Some(x) => {
                    out.push(x);
                    proof {
                        assert(values(out@) =~= values(prev).push(x@));
                        assert(fib_seq(start, (start + i + 1) as nat) =~= fib_seq(start, (start + i) as nat).push(
                            fib((start + i) as nat),
                        ));
                    }
                },
                None => {},
            }
            i = i + 1;
        }
        out
    }
}

impl Default for FibIter {
    fn default() -> (r: FibIter)
        ensures
            r.wf(),
            r.at() == 0,
    {
        FibIter::new()
    }
}

} // verus!
