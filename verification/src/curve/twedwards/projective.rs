//! Cached points of the twisted Edwards curve with a `Z` coordinate, for
//! repeated addition of a point that is not affine.

use crate::curve::edwards::extended::ExtendedPoint;
use crate::curve::group_law::{negate_niels, NielsCoordinates};
use crate::field::element::{field_add, field_mul, field_sub, FieldElement28};
use vstd::prelude::*;

verus! {

/// A cached point `(Y + X, Y - X, 2 d T, Z)`.
#[derive(Copy, Clone, Debug)]
pub struct ProjectiveNielsPoint {
    pub Y_plus_X: FieldElement28,
    pub Y_minus_X: FieldElement28,
    pub Td: FieldElement28,
    pub Z: FieldElement28,
}

impl View for ProjectiveNielsPoint {
    type V = NielsCoordinates;

    open spec fn view(&self) -> NielsCoordinates {
        NielsCoordinates {
            y_plus_x: self.Y_plus_X.value(),
            y_minus_x: self.Y_minus_X.value(),
            td: self.Td.value(),
            Z: self.Z.value(),
        }
    }
}

impl ProjectiveNielsPoint {
    /// Whether every coordinate is within the limb bounds of limb-wise
    /// addition and subtraction.
    pub open spec fn is_weak(&self) -> bool {
        self.Y_plus_X.is_weak() && self.Y_minus_X.is_weak() && self.Td.is_weak() && self.Z.is_weak()
    }

    /// The cached form of the neutral element, as a value.
    pub open spec fn identity_value() -> ProjectiveNielsPoint {
        ProjectiveNielsPoint {
            Y_plus_X: FieldElement28([1, 0, 0, 0, 0, 0, 0, 0, 0, 0, 0, 0, 0, 0, 0, 0]),
            Y_minus_X: FieldElement28([1, 0, 0, 0, 0, 0, 0, 0, 0, 0, 0, 0, 0, 0, 0, 0]),
            Td: FieldElement28([0, 0, 0, 0, 0, 0, 0, 0, 0, 0, 0, 0, 0, 0, 0, 0]),
            Z: FieldElement28([1, 0, 0, 0, 0, 0, 0, 0, 0, 0, 0, 0, 0, 0, 0, 0]),
        }
    }

    /// The cached form of the neutral element, `(1, 1, 0, 1)`.
    pub fn identity() -> (r: ProjectiveNielsPoint)
        ensures
            r == ProjectiveNielsPoint::identity_value(),
            r@ == (NielsCoordinates { y_plus_x: 1, y_minus_x: 1, td: 0, Z: 1 }),
            r.is_weak(),
    {
        ProjectiveNielsPoint {
            Y_plus_X: FieldElement28::one(),
            Y_minus_X: FieldElement28::one(),
            Td: FieldElement28::zero(),
            Z: FieldElement28::one(),
        }
    }

    /// The point `(2 X Z, 2 Y Z, Z^2, 4 X Y)` in extended coordinates.
    pub fn to_extended(&self) -> (r: ExtendedPoint)
        requires
            self.is_weak(),
            self.Z.value() != 0,
        ensures
            r.X.value() == field_mul(
                self.Z.value(),
                field_sub(self.Y_plus_X.value(), self.Y_minus_X.value()),
            ),
            r.Y.value() == field_mul(
                self.Z.value(),
                field_add(self.Y_plus_X.value(), self.Y_minus_X.value()),
            ),
            r.Z.value() == field_mul(self.Z.value(), self.Z.value()),
            r.T.value() == field_mul(
                field_add(self.Y_plus_X.value(), self.Y_minus_X.value()),
                field_sub(self.Y_plus_X.value(), self.Y_minus_X.value()),
            ),
            r.is_weak(),
    {
        let two_y = self.Y_plus_X + self.Y_minus_X;
        let two_x = self.Y_plus_X - self.Y_minus_X;

        let T = two_y * two_x;
        let X = self.Z * two_x;
        let Y = self.Z * two_y;
        let Z = self.Z.square();

        ExtendedPoint { X, Y, Z, T }
    }

    /// `b` where `choice` holds and `a` where it does not, chosen without a
    /// branch.
    pub fn conditional_select(a: &ProjectiveNielsPoint, b: &ProjectiveNielsPoint, choice: bool) -> (r:
        ProjectiveNielsPoint)
        ensures
            r == if choice { *b } else { *a },
    {
        ProjectiveNielsPoint {
            Y_plus_X: FieldElement28::conditional_select(&a.Y_plus_X, &b.Y_plus_X, choice),
            Y_minus_X: FieldElement28::conditional_select(&a.Y_minus_X, &b.Y_minus_X, choice),
            Td: FieldElement28::conditional_select(&a.Td, &b.Td, choice),
            Z: FieldElement28::conditional_select(&a.Z, &b.Z, choice),
        }
    }

    /// Replaces the point by `other` where `choice` holds.
    pub fn conditional_assign(&mut self, other: &ProjectiveNielsPoint, choice: bool)
        ensures
            *final(self) == if choice { *other } else { *old(self) },
    {
        *self = ProjectiveNielsPoint::conditional_select(self, other, choice);
    }

    /// Replaces the point by its negative where `choice` holds: exchanges
    /// the sum and the difference and negates the third coordinate.
    pub fn conditional_negate(&mut self, choice: bool)
        requires
            old(self).is_weak(),
        ensures
            final(self)@ == if choice { negate_niels(old(self)@) } else { old(self)@ },
            final(self).is_weak(),
    {
        FieldElement28::conditional_swap(&mut self.Y_minus_X, &mut self.Y_plus_X, choice);
        self.Td.conditional_negate(choice);
    }
}

impl Default for ProjectiveNielsPoint {
    /// The cached form of the neutral element.
    fn default() -> (r: ProjectiveNielsPoint)
        ensures
            r@ == (NielsCoordinates { y_plus_x: 1, y_minus_x: 1, td: 0, Z: 1 }),
            r.is_weak(),
    {
        ProjectiveNielsPoint::identity()
    }
}

} // verus!
