//! The subdivision record: one candidate segment of the approximation.

use vstd::prelude::*;

use crate::keys::finite_key;
use crate::keys::valid_loss;

verus! {

/// One candidate line segment of the current piecewise-linear approximation.
///
/// All five fields are order keys (see [`crate::keys`]): the endpoints
/// `left` and `right`, the function values `f_left` and `f_right` sampled
/// there, and the `loss` scored for the segment when it was created.  A
/// subdivision is never mutated: refinement replaces a popped record by two
/// freshly built children.
///
/// Equality is full-field equality.  The queue orders subdivisions by `loss`
/// alone; the engine compares that field directly rather than through an
/// ordering trait.
#[derive(Clone, Copy, Debug, PartialEq, Eq, Structural)]
pub struct Subdiv {
    /// Key of the segment's left endpoint.
    pub left: u64,
    /// Key of the segment's right endpoint; strictly greater than `left`.
    pub right: u64,
    /// Key of the sampled function value at `left`.
    pub f_left: u64,
    /// Key of the sampled function value at `right`.
    pub f_right: u64,
    /// Key of the loss scored for this segment at creation.
    pub loss: u64,
}

impl Subdiv {
    /// A proper segment: finite endpoints in strictly increasing order and
    /// an admissible loss score.
    pub open spec fn proper(self) -> bool {
        &&& finite_key(self.left)
        &&& finite_key(self.right)
        &&& self.left < self.right
        &&& valid_loss(self.loss)
    }
}

} // verus!
