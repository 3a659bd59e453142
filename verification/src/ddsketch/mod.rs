//! Quantile sketches with bounded relative error.

pub mod atomic;
pub mod dense;
pub mod error;
