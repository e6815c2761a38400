//! Arbitrary-precision Fibonacci numbers: fast doubling, its parallel and
//! transform-based variants, an adaptive selector and lazy range iterators.

pub mod adaptive;
pub mod bignum;
pub mod config;
pub mod digits;
pub mod fast_doubling;
pub mod fft;
pub mod fib_math;
pub mod format;
pub mod iterators;
pub mod laws;
pub mod memo;
pub mod parallel;
pub mod runner;
pub mod types;

pub use adaptive::{estimate_memory_bytes, fibonacci_adaptive, try_fibonacci_adaptive};
pub use bignum::{FibNumber, FibOps};
pub use fast_doubling::{fib_pair, fib_pair_u128, fibonacci, fibonacci_fast_doubling, fibonacci_u128};
pub use fft::fibonacci_fft;
pub use iterators::{fib_range, fib_range_parallel, FibIter, FibRange, ParFibRange};
pub use parallel::{
    calibrate_parallel_threshold, fibonacci_matrix, fibonacci_parallel, fibonacci_parallel_with,
    get_parallel_threshold, ThresholdCache,
};
pub use runner::run_all_parallel;
pub use types::{Algorithm, FibError};

