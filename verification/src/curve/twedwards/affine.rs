//! Affine points of the twisted Edwards curve, and their cached form.

use crate::curve::constants::twisted_d_element;
use crate::curve::group_law::{twisted_affine_add, twisted_d};
use crate::curve::twedwards::extended::ExtendedPoint;
use crate::curve::twedwards::extensible::ExtensiblePoint;
use crate::field::element::{field_add, field_mul, field_neg, field_sub, FieldElement28};
use vstd::prelude::*;

verus! {

/// An affine point `(x, y)` of the twisted Edwards curve.
#[derive(Copy, Clone, Debug)]
pub struct AffinePoint {
    pub x: FieldElement28,
    pub y: FieldElement28,
}

/// A cached affine point `(y + x, y - x, d x y)`, which saves
/// multiplications where the point is added many times.
#[derive(Copy, Clone, Debug)]
pub struct AffineNielsPoint {
    pub y_plus_x: FieldElement28,
    pub y_minus_x: FieldElement28,
    pub td: FieldElement28,
}

/// Whether `(x, y)` satisfies the curve equation
/// `y^2 - x^2 = 1 + (d - 1) x^2 y^2`.
pub open spec fn twisted_affine_on_curve(x: int, y: int) -> bool {
    field_sub(field_mul(y, y), field_mul(x, x)) == field_add(
        1,
        field_mul(field_mul(twisted_d(), field_mul(x, x)), field_mul(y, y)),
    )
}

impl AffinePoint {
    /// Whether both coordinates are within the limb bounds of limb-wise
    /// addition and subtraction.
    pub open spec fn is_weak(&self) -> bool {
        self.x.is_weak() && self.y.is_weak()
    }

    /// The neutral element, `(0, 1)`.
    pub fn identity() -> (r: AffinePoint)
        ensures
            r.x.value() == 0,
            r.y.value() == 1,
            r.is_weak(),
    {
        AffinePoint { x: FieldElement28::zero(), y: FieldElement28::one() }
    }

    /// Whether the point satisfies the curve equation.
    pub fn is_on_curve(&self) -> (r: bool)
        ensures
            r == twisted_affine_on_curve(self.x.value(), self.y.value()),
    {
        let xx = self.x.square();
        let yy = self.y.square();

        (yy - xx).equals(&(FieldElement28::one() + (twisted_d_element() * xx * yy)))
    }

    /// The negative of the point, `(-x, y)`.
    pub fn negate(&self) -> (r: AffinePoint)
        requires
            self.is_weak(),
        ensures
            r.x.value() == field_neg(self.x.value()),
            r.y == self.y,
            r.is_weak(),
    {
        AffinePoint { x: self.x.negate(), y: self.y }
    }

    /// The sum of two points, by the affine addition formula.
    pub fn add(&self, other: &AffinePoint) -> (r: AffinePoint)
        ensures
            (r.x.value(), r.y.value()) == twisted_affine_add(
                self.x.value(),
                self.y.value(),
                other.x.value(),
                other.y.value(),
            ),
            r.is_weak(),
    {
        let y_numerator = self.y * other.y + self.x * other.x;
        let y_denominator = FieldElement28::one() - twisted_d_element() * self.x * other.x * self.y
            * other.y;

        let x_numerator = self.x * other.y + self.y * other.x;
        let x_denominator = FieldElement28::one() + twisted_d_element() * self.x * other.x * self.y
            * other.y;

        let x = x_numerator * x_denominator.invert();
        let y = y_numerator * y_denominator.invert();
        AffinePoint { x, y }
    }

    /// The point in extensible coordinates, `(x, y, 1, x, y)`.
    pub fn to_extensible(&self) -> (r: ExtensiblePoint)
        ensures
            r.X == self.x,
            r.Y == self.y,
            r.Z.value() == 1,
            r.Z.is_weak(),
            r.T1 == self.x,
            r.T2 == self.y,
    {
        ExtensiblePoint { X: self.x, Y: self.y, Z: FieldElement28::one(), T1: self.x, T2: self.y }
    }

    /// The cached form of the point, `(y + x, y - x, d x y)`.
    pub fn to_affine_niels(&self) -> (r: AffineNielsPoint)
        requires
            self.is_weak(),
        ensures
            r.y_plus_x.value() == field_add(self.y.value(), self.x.value()),
            r.y_minus_x.value() == field_sub(self.y.value(), self.x.value()),
            r.td.value() == field_mul(field_mul(self.x.value(), self.y.value()), twisted_d()),
            r.is_weak(),
    {
        AffineNielsPoint {
            y_plus_x: self.y + self.x,
            y_minus_x: self.y - self.x,
            td: self.x * self.y * twisted_d_element(),
        }
    }

    /// The point in extended coordinates, `(x, y, 1, x y)`.
    pub fn to_extended(&self) -> (r: ExtendedPoint)
        ensures
            r.X == self.x,
            r.Y == self.y,
            r.Z.value() == 1,
            r.Z.is_weak(),
            r.T.value() == field_mul(self.x.value(), self.y.value()),
            r.T.is_weak(),
    {
        self.to_extensible().to_extended()
    }
}

impl PartialEq for AffinePoint {
    /// Whether two points have the same coordinates.
    fn eq(&self, other: &AffinePoint) -> (r: bool) {
        self.x.equals(&other.x) && self.y.equals(&other.y)
    }
}

impl vstd::std_specs::cmp::PartialEqSpecImpl for AffinePoint {
    open spec fn obeys_eq_spec() -> bool {
        true
    }

    open spec fn eq_spec(&self, other: &AffinePoint) -> bool {
        self.x.value() == other.x.value() && self.y.value() == other.y.value()
    }
}

impl Eq for AffinePoint {

}

impl Default for AffinePoint {
    /// The neutral element.
    fn default() -> (r: AffinePoint)
        ensures
            r.x.value() == 0,
            r.y.value() == 1,
            r.is_weak(),
    {
        AffinePoint::identity()
    }
}

impl AffineNielsPoint {
    /// Whether every coordinate is within the limb bounds of limb-wise
    /// addition and subtraction.
    pub open spec fn is_weak(&self) -> bool {
        self.y_plus_x.is_weak() && self.y_minus_x.is_weak() && self.td.is_weak()
    }

    /// `b` where `choice` holds and `a` where it does not, chosen without a
    /// branch.
    pub fn conditional_select(a: &AffineNielsPoint, b: &AffineNielsPoint, choice: bool) -> (r:
        AffineNielsPoint)
        ensures
            r == if choice { *b } else { *a },
    {
        AffineNielsPoint {
            y_plus_x: FieldElement28::conditional_select(&a.y_plus_x, &b.y_plus_x, choice),
            y_minus_x: FieldElement28::conditional_select(&a.y_minus_x, &b.y_minus_x, choice),
            td: FieldElement28::conditional_select(&a.td, &b.td, choice),
        }
    }

    /// Whether two cached points hold the same three residues.
    pub fn equals(&self, other: &AffineNielsPoint) -> (r: bool)
        ensures
            r == (self.y_minus_x.value() == other.y_minus_x.value() && self.y_plus_x.value()
                == other.y_plus_x.value() && self.td.value() == other.td.value()),
    {
        self.y_minus_x.equals(&other.y_minus_x) && self.y_plus_x.equals(&other.y_plus_x)
            && self.td.equals(&other.td)
    }

    /// The cached form of the neutral element, `(1, 1, 0)`.
    pub fn identity() -> (r: AffineNielsPoint)
        ensures
            r.y_plus_x.value() == 1,
            r.y_minus_x.value() == 1,
            r.td.value() == 0,
            r.is_weak(),
    {
        AffineNielsPoint {
            y_plus_x: FieldElement28::one(),
            y_minus_x: FieldElement28::one(),
            td: FieldElement28::zero(),
        }
    }

    /// The point `(2 x, 2 y, 1, (y + x)(y - x))` in extended coordinates.
    pub fn to_extended(&self) -> (r: ExtendedPoint)
        requires
            self.is_weak(),
        ensures
            r.X.value() == field_sub(self.y_plus_x.value(), self.y_minus_x.value()),
            r.Y.value() == field_add(self.y_minus_x.value(), self.y_plus_x.value()),
            r.Z.value() == 1,
            r.T.value() == field_mul(self.y_plus_x.value(), self.y_minus_x.value()),
            r.is_weak(),
    {
        ExtendedPoint {
            X: self.y_plus_x - self.y_minus_x,
            Y: self.y_minus_x + self.y_plus_x,
            Z: FieldElement28::one(),
            T: self.y_plus_x * self.y_minus_x,
        }
    }
}

} // verus!
