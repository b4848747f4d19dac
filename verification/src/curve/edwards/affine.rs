//! Affine points of the Edwards curve.

use crate::curve::edwards::extended::ExtendedPoint;
use crate::field::element::{field_mul, FieldElement28};
use vstd::prelude::*;

verus! {

/// An affine point `(x, y)` of the Edwards curve.
#[derive(Copy, Clone, Debug)]
pub struct AffinePoint {
    pub x: FieldElement28,
    pub y: FieldElement28,
}

impl AffinePoint {
    /// The neutral element, `(0, 1)`.
    pub fn identity() -> (r: AffinePoint)
        ensures
            r.x.value() == 0,
            r.y.value() == 1,
            r.x.is_weak(),
            r.y.is_weak(),
    {
        AffinePoint { x: FieldElement28::zero(), y: FieldElement28::one() }
    }

    /// The point in extended coordinates, `(x, y, 1, x y)`.
    pub fn to_extended(&self) -> (r: ExtendedPoint)
        ensures
            r.X == self.x,
            r.Y == self.y,
            r.Z.value() == 1,
            r.T.value() == field_mul(self.x.value(), self.y.value()),
            r.Z.is_weak(),
            r.T.is_weak(),
    {
        ExtendedPoint { X: self.x, Y: self.y, Z: FieldElement28::one(), T: self.x * self.y }
    }
}

} // verus!
