//! The error taxonomy and the algorithm tag.
use vstd::prelude::*;
use vstd::string::StrSliceExecFns;

verus! {

/// Why an adaptive computation was refused.
#[derive(Debug, Clone, Copy, PartialEq, Eq, Structural)]
pub enum FibError {
    /// The index is above the largest one accepted.
    InputTooLarge { n: u64, max: u64 },
    /// The estimated size of the result is above the memory limit.
    MemoryLimitExceeded { required_bytes: u64, limit_bytes: u64 },
}

/// The algorithms, with the short names used at external interfaces.
#[derive(Debug, Clone, Copy, PartialEq, Eq, Structural, Hash, Default)]
pub enum Algorithm {
    /// Sequential fast doubling (`fd`, also `fast-doubling`).
    FastDoubling,
    /// Parallel fast doubling (`par`, also `parallel` and `mx`).
    Parallel,
    /// Transform-based doubling (`fft`).
    Fft,
    /// Choice by the size of the index (`adaptive`).
    #[default]
    Adaptive,
}

/// The algorithm that a short name designates.
pub open spec fn algorithm_named(s: Seq<char>) -> Option<Algorithm> {
    if s == "fd"@ || s == "fast-doubling"@ {
        Some(Algorithm::FastDoubling)
    } else if s == "par"@ || s == "parallel"@ || s == "mx"@ {
        Some(Algorithm::Parallel)
    } else if s == "fft"@ {
        Some(Algorithm::Fft)
    } else if s == "adaptive"@ {
        Some(Algorithm::Adaptive)
    } else {
        None
    }
}

/// Character-by-character equality of two strings.
fn same_text(s: &str, t: &str) -> (r: bool)
    ensures
        r == (s@ == t@),
{
    let n = s.unicode_len();
    if n != t.unicode_len() {
        return false;
    }
    let mut i: usize = 0;
    while i < n
        invariant
            n == s@.len() == t@.len(),
            0 <= i <= n,
            s@.subrange(0, i as int) == t@.subrange(0, i as int),
        decreases n - i,
    {
        if s.get_char(i) != t.get_char(i) {
            return false;
        }
        assert(s@.subrange(0, i + 1) == s@.subrange(0, i as int).push(s@[i as int]));
        assert(t@.subrange(0, i + 1) == t@.subrange(0, i as int).push(t@[i as int]));
        i = i + 1;
    }
    assert(s@ == s@.subrange(0, n as int));
    assert(t@ == t@.subrange(0, n as int));
    true
}

impl Algorithm {
    /// The canonical short name: `fd`, `par`, `fft` or `adaptive`.
    pub fn short_name(&self) -> (r: &'static str)
        ensures
            algorithm_named(r@) == Some(*self),
    {
        proof {
            reveal_strlit("fd");
            reveal_strlit("fast-doubling");
            reveal_strlit("par");
            reveal_strlit("parallel");
            reveal_strlit("mx");
            reveal_strlit("fft");
            reveal_strlit("adaptive");
            assert("fd"@.len() == 2 && "mx"@.len() == 2);
            assert("par"@.len() == 3 && "fft"@.len() == 3);
            assert("parallel"@.len() == 8 && "adaptive"@.len() == 8);
            assert("fast-doubling"@.len() == 13);
            assert("par"@[0] != "fft"@[0]);
            assert("parallel"@[0] != "adaptive"@[0]);
        }
        match self {
            Algorithm::FastDoubling => "fd",
            Algorithm::Parallel => "par",
            Algorithm::Fft => "fft",
            Algorithm::Adaptive => "adaptive",
        }
    }

    /// The algorithm that `name` designates, if any.
    pub fn from_short_name(name: &str) -> (r: Option<Algorithm>)
        ensures
            r == algorithm_named(name@),
    {
        if same_text(name, "fd") || same_text(name, "fast-doubling") {
            Some(Algorithm::FastDoubling)
        } else if same_text(name, "par") || same_text(name, "parallel") || same_text(name, "mx") {
            Some(Algorithm::Parallel)
        } else if same_text(name, "fft") {
            Some(Algorithm::Fft)
        } else if same_text(name, "adaptive") {
            Some(Algorithm::Adaptive)
        } else {
            None
        }
    }

    /// The human-readable name.
    pub fn display_name(&self) -> (r: &'static str)
        ensures
            r@ == (match *self {
                Algorithm::FastDoubling => "Fast Doubling"@,
                Algorithm::Parallel => "Parallel Fast Doubling"@,
                Algorithm::Fft => "FFT"@,
                Algorithm::Adaptive => "Adaptive"@,
            }),
    {
        match self {
            Algorithm::FastDoubling => "Fast Doubling",
            Algorithm::Parallel => "Parallel Fast Doubling",
            Algorithm::Fft => "FFT",
            Algorithm::Adaptive => "Adaptive",
        }
    }
}

} // verus!
