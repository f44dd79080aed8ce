//! Loss metrics.
//!
//! A loss metric scores how badly the straight line between two sampled
//! points approximates the function in between: a pure function of the two
//! endpoints and the two function values there, returning a non-negative
//! finite score.  The arithmetic of a metric is floating point and therefore
//! belongs to the driver, outside the verified engine; the engine receives
//! the already-scored values as order keys and checks their admissibility
//! (see [`crate::keys::valid_loss`]) before they enter the queue.

use vstd::prelude::*;

verus! {

/// The Euclidean chord metric: scores a segment by the squared Euclidean
/// length of its chord, `(y2 - y1)^2 + (x2 - x1)^2`, so segments that are
/// long or span a large value swing are split first.
///
/// The type is a stateless marker; the driver implements the metric's
/// floating-point computation for it and feeds the resulting scores to the
/// engine as keys.
#[derive(Clone, Copy, Debug, PartialEq, Eq, Structural)]
pub struct EuclideanLoss {}

} // verus!
