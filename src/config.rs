//! Named tuning constants and limits.
pub mod fft;
pub mod limits;
pub mod thresholds;
