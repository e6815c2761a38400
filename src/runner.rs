//! Running every algorithm on one index at once, for comparison.
use vstd::prelude::*;
use vstd::string::StringExecFns;

use crate::bignum::FibNumber;
use crate::fast_doubling::{fibonacci_fast_doubling, index_supported};
use crate::fft::fibonacci_fft;
use crate::fib_math::fib;
use crate::parallel::fibonacci_parallel;

verus! {

/// One algorithm's name, running time and result.
pub type AlgorithmRun = (String, std::time::Duration, FibNumber);

/// Fast doubling, parallel fast doubling and transform-based doubling run
/// concurrently on `n`, each timed: their names, durations and results, in
/// that order.
pub fn run_all_parallel(n: u64) -> (r: Vec<AlgorithmRun>)
    requires
        index_supported(n as nat),
    ensures
        r@.len() == 3,
        r@[0].0@ == "Fast Doubling"@,
        r@[1].0@ == "Parallel"@,
        r@[2].0@ == "FFT"@,
        forall|i: int| 0 <= i < 3 ==> #[trigger] r@[i].2@ == fib(n as nat),
{
    let sequential = move || -> (r: AlgorithmRun)
        requires
            index_supported(n as nat),
        ensures
            r.0@ == "Fast Doubling"@,
            r.2@ == fib(n as nat),
        {
            let start = std::time::Instant::now();
            let result = fibonacci_fast_doubling(n);
            let elapsed = start.elapsed();
            (String::from_str("Fast Doubling"), elapsed, result)
        };
    let parallel = move || -> (r: AlgorithmRun)
        requires
            index_supported(n as nat),
        ensures
            r.0@ == "Parallel"@,
            r.2@ == fib(n as nat),
        {
            let start = std::time::Instant::now();
            let result = fibonacci_parallel(n);
            let elapsed = start.elapsed();
            (String::from_str("Parallel"), elapsed, result)
        };
    let transform = move || -> (r: AlgorithmRun)
        requires
            index_supported(n as nat),
        ensures
            r.0@ == "FFT"@,
            r.2@ == fib(n as nat),
        {
            let start = std::time::Instant::now();
            let result = fibonacci_fft(n);
            let elapsed = start.elapsed();
            (String::from_str("FFT"), elapsed, result)
        };
    let others = move || -> (r: (AlgorithmRun, AlgorithmRun))
        requires
            index_supported(n as nat),
        ensures
            r.0.0@ == "Parallel"@,
            r.0.2@ == fib(n as nat),
            r.1.0@ == "FFT"@,
            r.1.2@ == fib(n as nat),
        { rayon::join(parallel, transform) };
    let (first, (second, third)) = rayon::join(sequential, others);
    let mut runs: Vec<AlgorithmRun> = Vec::new();
    runs.push(first);
    runs.push(second);
    runs.push(third);
    runs
}

} // verus!
