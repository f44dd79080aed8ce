//! Adaptive one-dimensional sampling.
//!
//! The library refines a piecewise-linear approximation of a scalar function
//! over an interval: it keeps a max-priority collection of candidate line
//! segments ("subdivisions"), each scored by a loss metric, and repeatedly
//! replaces the worst segment by its two halves, split at the midpoint.
//!
//! The engine itself never performs floating-point arithmetic.  Every
//! coordinate, function value, and loss score crosses its boundary as a 64-bit
//! order key (see [`keys`]): the image of an IEEE-754 double under the usual
//! order-preserving bijection into unsigned integers.  The caller evaluates
//! the sampled function and the loss metric in floating point, converts the
//! results to keys, and hands them to the engine, which owns every decision:
//! which segment to split, how the partition evolves, and when the tolerance
//! is met.

pub mod engine;
pub mod keys;
pub mod loss;
pub mod subdiv;

pub use engine::AdaptiveSampler;
pub use engine::SamplerError;
pub use loss::EuclideanLoss;
pub use subdiv::Subdiv;
