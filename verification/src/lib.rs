//! Fidelity measures for comparing an image with its reconstruction after
//! compression: perceptual hashes and their distance, pixel-difference and
//! structural-similarity statistics, gradient-magnitude maps, and the
//! bookkeeping of a benchmark run.
//!
//! Every measure is computed in exact integer arithmetic. Where a measure is
//! a quotient, the library returns what the quotient is taken of.
pub mod metrics;
pub mod pipeline;
pub mod raster;
pub mod traits;
pub mod utils;
