//! The adaptive selector: limits first, then the algorithm by index size.
use vstd::prelude::*;

use crate::bignum::{max_bits, FibNumber};
use crate::config::limits::{MAX_SAFE_N, SAFE_MEMORY_BYTES};
use crate::config::thresholds::{FFT_CROSSOVER, PARALLEL_CROSSOVER};
use crate::fast_doubling::{fibonacci_fast_doubling, index_supported};
use crate::fft::fibonacci_fft;
use crate::fib_math::fib;
use crate::parallel::fibonacci_parallel;
use crate::types::FibError;

verus! {

/// ⌊n · 95 / 1000⌋: about 0.0868 bytes per index with a 10% margin. It counts
/// the result alone, not the intermediate buffers.
pub open spec fn memory_estimate(n: nat) -> nat {
    n * 95 / 1000
}

/// The largest index that this platform's integers let a `FibNumber` reach.
pub open spec fn platform_max_index() -> nat {
    (max_bits() - 2) as nat
}

/// Estimated size in bytes of F(n).
pub fn estimate_memory_bytes(n: u64) -> (r: u64)
    ensures
        r == memory_estimate(n as nat),
{
    if n == 0 {
        return 0;
    }
    let bytes = (n as u128) * 95 / 1000;
    bytes as u64
}

/// The algorithm that the adaptive selector runs for `n`.
pub open spec fn adaptive_choice(n: nat) -> crate::types::Algorithm {
    if n < PARALLEL_CROSSOVER {
        crate::types::Algorithm::FastDoubling
    } else if n < FFT_CROSSOVER {
        crate::types::Algorithm::Parallel
    } else {
        crate::types::Algorithm::Fft
    }
}

/// F(n), or why it is refused: `InputTooLarge` above `MAX_SAFE_N` (or above
/// the largest index this platform supports), `MemoryLimitExceeded` when the
/// estimated size is above `SAFE_MEMORY_BYTES`. Fast doubling below
/// `PARALLEL_CROSSOVER`, the parallel variant below `FFT_CROSSOVER`, the
/// transform-based one from there on.
pub fn try_fibonacci_adaptive(n: u64) -> (r: Result<FibNumber, FibError>)
    ensures
        n > MAX_SAFE_N ==> r == Err::<FibNumber, FibError>(
            FibError::InputTooLarge { n, max: MAX_SAFE_N },
        ),
        n <= MAX_SAFE_N && memory_estimate(n as nat) > SAFE_MEMORY_BYTES ==> r == Err::<
            FibNumber,
            FibError,
        >(
            FibError::MemoryLimitExceeded {
                required_bytes: memory_estimate(n as nat) as u64,
                limit_bytes: SAFE_MEMORY_BYTES,
            },
        ),
        n <= MAX_SAFE_N && memory_estimate(n as nat) <= SAFE_MEMORY_BYTES && !index_supported(
            n as nat,
        ) ==> r == Err::<FibNumber, FibError>(
            FibError::InputTooLarge { n, max: platform_max_index() as u64 },
        ),
        n <= MAX_SAFE_N && memory_estimate(n as nat) <= SAFE_MEMORY_BYTES && index_supported(
            n as nat,
        ) ==> r is Ok && r->Ok_0@ == fib(n as nat),
{
    if n > MAX_SAFE_N {
        return Err(FibError::InputTooLarge { n, max: MAX_SAFE_N });
    }
    let estimated_bytes = estimate_memory_bytes(n);
    if estimated_bytes > SAFE_MEMORY_BYTES {
        return Err(
            FibError::MemoryLimitExceeded {
                required_bytes: estimated_bytes,
                limit_bytes: SAFE_MEMORY_BYTES,
            },
        );
    }
    let platform_max: usize = usize::MAX / 2 - 2;
    if n as u128 > platform_max as u128 {
        return Err(FibError::InputTooLarge { n, max: platform_max as u64 });
    }
    Ok(
        if n < PARALLEL_CROSSOVER {
            fibonacci_fast_doubling(n)
        } else if n < FFT_CROSSOVER {
            fibonacci_parallel(n)
        } else {
            fibonacci_fft(n)
        },
    )
}

/// F(n) by the adaptive selector, for an index that it accepts.
pub fn fibonacci_adaptive(n: u64) -> (r: FibNumber)
    requires
        n <= MAX_SAFE_N,
        memory_estimate(n as nat) <= SAFE_MEMORY_BYTES,
        index_supported(n as nat),
    ensures
        r@ == fib(n as nat),
{
    match try_fibonacci_adaptive(n) {
        Ok(v) => v,
        Err(_) => {
            assert(false);
            FibNumber::zero()
        },
    }
}

} // verus!
