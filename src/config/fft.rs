//! Digit sizes for the transform-based multiplication.
//!
//! The rounding of the inverse transform is exact while
//! 2 * base_bits + log2(transform length) < 53.
use vstd::prelude::*;

verus! {

/// Bits per digit for most operands.
pub const BASE_BITS_DEFAULT: usize = 13;

/// Bits per digit for massive operands.
pub const BASE_BITS_MASSIVE: usize = 12;

/// Combined operand bit length above which the massive digit size is used.
pub const MASSIVE_THRESHOLD: usize = 100_000_000;

} // verus!
