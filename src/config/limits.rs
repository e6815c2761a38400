//! Limits that the adaptive entry points enforce.
use vstd::prelude::*;

verus! {

/// Largest index accepted.
pub const MAX_SAFE_N: u64 = 1_000_000_000_000;

/// Largest estimated result size accepted, in bytes (8 GiB).
pub const SAFE_MEMORY_BYTES: u64 = 8 * 1024 * 1024 * 1024;

} // verus!
