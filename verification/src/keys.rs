//! Order keys: the engine's representation of floating-point values.
//!
//! A finite IEEE-754 double maps to a `u64` by the standard order-preserving
//! bijection: the bit pattern of a non-negative double has its sign bit set,
//! the bit pattern of a negative double is complemented.  Under this map,
//! unsigned comparison of keys agrees with the numeric order of the doubles
//! for every non-NaN value, of either sign.  The driver applies the map on
//! the way in and its inverse on the way out; inside the library only the
//! keys exist, so every comparison the engine makes is plain `u64` order.

use vstd::prelude::*;

verus! {

/// Key of negative infinity: the complement of `0xFFF0_0000_0000_0000`.
/// Keys strictly above it and strictly below [`KEY_POS_INFINITY`] are
/// exactly the finite doubles.
pub const KEY_NEG_INFINITY: u64 = 0x000F_FFFF_FFFF_FFFF;

/// Key of `+0.0`: its bit pattern is zero, so the key is the sign bit alone.
/// Keys from here up to (excluding) [`KEY_POS_INFINITY`] are exactly the
/// non-negative finite doubles, the admissible loss scores.
pub const KEY_ZERO: u64 = 0x8000_0000_0000_0000;

/// Key of `1.0`, the placeholder loss assigned to the root subdivision at
/// construction.  The root is scored with this fixed sentinel rather than
/// with the metric, so a tolerance of one or more stops refinement after a
/// single step regardless of the metric's view of the initial interval.
pub const KEY_ONE: u64 = 0xBFF0_0000_0000_0000;

/// Key of positive infinity: its bit pattern with the sign bit set.
pub const KEY_POS_INFINITY: u64 = 0xFFF0_0000_0000_0000;

/// The key of a finite double: neither infinite nor NaN.
pub open spec fn finite_key(k: u64) -> bool {
    KEY_NEG_INFINITY < k && k < KEY_POS_INFINITY
}

/// The key of an admissible loss score: a non-negative finite double.
/// A metric result outside this range (negative, infinite, or NaN) would
/// make the queue order meaningless and is rejected by the engine.
pub open spec fn valid_loss(k: u64) -> bool {
    KEY_ZERO <= k && k < KEY_POS_INFINITY
}

/// Decides [`finite_key`].
pub fn is_finite_key(k: u64) -> (r: bool)
    ensures
        r == finite_key(k),
{
    KEY_NEG_INFINITY < k && k < KEY_POS_INFINITY
}

/// Decides [`valid_loss`].
pub fn is_valid_loss(k: u64) -> (r: bool)
    ensures
        r == valid_loss(k),
{
    KEY_ZERO <= k && k < KEY_POS_INFINITY
}

} // verus!
