//! The fixed world square, in fixed-point units.
use vstd::prelude::*;
use crate::scalar::Scalar;

verus! {

// World space axes constants
pub const MIN_X: Scalar = 0;

pub const MAX_X: Scalar = 1_000_000_000;

pub const MIN_Y: Scalar = 0;

pub const MAX_Y: Scalar = 1_000_000_000;

} // verus!
