//! Pitch detection for monophonic audio: mean removal, autocorrelation,
//! sub-sample peak refinement with noise rejection, and note naming.
//!
//! All arithmetic is exact. Samples are fixed-point integers in which
//! `FULL_SCALE` stands for an amplitude of 1.0, and fractional lags are
//! integers in units of `1 / LAG_UNIT` of a sample.

pub mod signal;
pub mod correlation;
pub mod pitch;
pub mod model;
pub mod transforms;
