//! Where the adaptive selector switches algorithm.
use vstd::prelude::*;

verus! {

/// Below this index, sequential fast doubling; at or above it, the parallel variant.
pub const PARALLEL_CROSSOVER: u64 = 40_000;

/// At or above this index, transform-based doubling.
pub const FFT_CROSSOVER: u64 = 200_000;

/// Within transform-based doubling, operands longer than this many bits take
/// the unified step.
pub const FFT_BIT_THRESHOLD: usize = 50_000;

} // verus!
