//! Quaternion rotation engine and ASCII rasterizer over fixed-point arithmetic.
//!
//! All real-valued quantities are represented as `i64` values scaled by
//! `fixed::SCALE` (a binary fixed-point format), so every operation has an
//! exact, machine-checked contract over mathematical integers.

pub mod fixed;
pub mod quat;
pub mod raster;
pub mod laws;
