//! Points of the twisted Edwards curve in extended coordinates.

use crate::constant_time::both;
use crate::curve::constants::twisted_d_element;
use crate::curve::edwards::extended::ExtendedPoint as EdwardsExtendedPoint;
use crate::curve::group_law::{
    identity_coordinates,
    isogeny_coordinates,
    negate_coordinates,
    projectively_equal,
    torque_coordinates,
    twisted_double,
    twisted_on_curve,
    Coordinates,
    ExtensibleCoordinates,
};
use crate::curve::twedwards::affine::AffinePoint;
use crate::curve::twedwards::extensible::ExtensiblePoint;
use crate::field::element::{field_modulus, field_mul, FieldElement28};
use crate::field::power::field_invert;
use vstd::prelude::*;

verus! {

/// A point `(X, Y, Z, T)` of the twisted Edwards curve, standing for the
/// affine point `(X / Z, Y / Z)`, with `X Y = Z T`.
#[derive(Copy, Clone, Debug)]
pub struct ExtendedPoint {
    pub X: FieldElement28,
    pub Y: FieldElement28,
    pub Z: FieldElement28,
    pub T: FieldElement28,
}

impl View for ExtendedPoint {
    type V = Coordinates;

    open spec fn view(&self) -> Coordinates {
        Coordinates { X: self.X.value(), Y: self.Y.value(), Z: self.Z.value(), T: self.T.value() }
    }
}

impl ExtendedPoint {
    /// Whether every coordinate is within the limb bounds of limb-wise
    /// addition and subtraction.
    pub open spec fn is_weak(&self) -> bool {
        self.X.is_weak() && self.Y.is_weak() && self.Z.is_weak() && self.T.is_weak()
    }

    /// `b` where `choice` holds and `a` where it does not, chosen without a
    /// branch.
    pub fn conditional_select(a: &ExtendedPoint, b: &ExtendedPoint, choice: bool) -> (r:
        ExtendedPoint)
        ensures
            r == if choice { *b } else { *a },
    {
        ExtendedPoint {
            X: FieldElement28::conditional_select(&a.X, &b.X, choice),
            Y: FieldElement28::conditional_select(&a.Y, &b.Y, choice),
            Z: FieldElement28::conditional_select(&a.Z, &b.Z, choice),
            T: FieldElement28::conditional_select(&a.T, &b.T, choice),
        }
    }

    /// The same point with every coordinate carried into the limb bounds of
    /// limb-wise addition and subtraction.
    pub fn weak_form(&self) -> (r: ExtendedPoint)
        ensures
            r@ == self@,
            r.is_weak(),
    {
        let mut r = *self;
        r.X.weak_reduce();
        r.Y.weak_reduce();
        r.Z.weak_reduce();
        r.T.weak_reduce();
        r
    }

    /// Replaces the point by `other` where `choice` holds.
    pub fn conditional_assign(&mut self, other: &ExtendedPoint, choice: bool)
        ensures
            *final(self) == if choice { *other } else { *old(self) },
    {
        *self = ExtendedPoint::conditional_select(self, other, choice);
    }

    /// Whether two points stand for the same affine point, found without
    /// an inversion and in constant time.
    pub fn ct_eq(&self, other: &ExtendedPoint) -> (r: bool)
        ensures
            r == projectively_equal(self@, other@),
    {
        let XZ = self.X * other.Z;
        let ZX = self.Z * other.X;

        let YZ = self.Y * other.Z;
        let ZY = self.Z * other.Y;

        both(XZ.equals(&ZX), YZ.equals(&ZY))
    }

    /// The neutral element, `(0, 1, 1, 0)`.
    pub fn identity() -> (r: ExtendedPoint)
        ensures
            r@ == identity_coordinates(),
            r.is_weak(),
    {
        ExtendedPoint {
            X: FieldElement28::zero(),
            Y: FieldElement28::one(),
            Z: FieldElement28::one(),
            T: FieldElement28::zero(),
        }
    }

    /// Twice the point, by the dedicated doubling formula.
    pub fn double(&self) -> (r: ExtendedPoint)
        requires
            self.is_weak(),
        ensures
            r@ == crate::curve::group_law::extended_of(
                twisted_double(
                    ExtensibleCoordinates {
                        X: self.X.value(),
                        Y: self.Y.value(),
                        Z: self.Z.value(),
                        T1: self.T.value(),
                        T2: 1,
                    },
                ),
            ),
            r.is_weak(),
    {
        self.to_extensible().double().to_extended()
    }

    /// The point in extensible coordinates, `(X, Y, Z, T, 1)`.
    pub fn to_extensible(&self) -> (r: ExtensiblePoint)
        ensures
            r.X == self.X,
            r.Y == self.Y,
            r.Z == self.Z,
            r.T1 == self.T,
            r.T2.value() == 1,
            r.T2.is_weak(),
    {
        ExtensiblePoint { X: self.X, Y: self.Y, Z: self.Z, T1: self.T, T2: FieldElement28::one() }
    }

    /// The affine point `(X / Z, Y / Z)`, in canonical form. A point with
    /// `Z = 0` gives `(0, 0)`.
    pub fn to_affine(&self) -> (r: AffinePoint)
        ensures
            r.x.value() == field_mul(self.X.value(), field_invert(self.Z.value())),
            r.y.value() == field_mul(self.Y.value(), field_invert(self.Z.value())),
            r.x.is_canonical(),
            r.y.is_canonical(),
            r.is_weak(),
    {
        let INV_Z = self.Z.invert();

        let mut x = self.X * INV_Z;
        x.strong_reduce();
        let mut y = self.Y * INV_Z;
        y.strong_reduce();

        AffinePoint { x, y }
    }

    /// The image of the point under the isogeny from the curve with the
    /// given `a`, which is derived from the doubling formula.
    fn edwards_isogeny(&self, a: FieldElement28) -> (r: EdwardsExtendedPoint)
        ensures
            r@ == isogeny_coordinates(
                field_mul(self.X.value(), field_invert(self.Z.value())),
                field_mul(self.Y.value(), field_invert(self.Z.value())),
                a.value(),
            ),
            r.is_weak(),
    {
        // Convert to affine now, then derive extended version later
        let affine = self.to_affine();
        let x = affine.x;
        let y = affine.y;

        // Compute x
        let xy = x * y;
        let x_numerator = xy + xy;
        let x_denom = y.square() - (a * x.square());
        let new_x = x_numerator * x_denom.invert();

        // Compute y
        let y_numerator = y.square() + (a * x.square());
        let y_denom = (FieldElement28::one() + FieldElement28::one()) - y.square() - (a * x.square());
        let new_y = y_numerator * y_denom.invert();

        EdwardsExtendedPoint { X: new_x, Y: new_y, Z: FieldElement28::one(), T: new_x * new_y }
    }

    /// The image of the point on the Edwards curve under the dual isogeny.
    /// Mapping there and back multiplies by four.
    pub fn to_untwisted(&self) -> (r: EdwardsExtendedPoint)
        ensures
            r@ == isogeny_coordinates(
                field_mul(self.X.value(), field_invert(self.Z.value())),
                field_mul(self.Y.value(), field_invert(self.Z.value())),
                field_modulus() - 1,
            ),
            r.is_weak(),
    {
        self.edwards_isogeny(FieldElement28::minus_one())
    }

    /// Whether the coordinates are coherent and satisfy the curve equation.
    pub fn is_on_curve(&self) -> (r: bool)
        ensures
            r == twisted_on_curve(self@),
    {
        let XY = self.X * self.Y;
        let ZT = self.Z * self.T;

        // Y^2 - X^2 == Z^2 + T^2 * (D - 1)
        let YY = self.Y.square();
        let XX = self.X.square();
        let ZZ = self.Z.square();
        let TT = self.T.square();
        let lhs = YY - XX;
        let rhs = ZZ + TT * twisted_d_element();

        XY.equals(&ZT) && lhs.equals(&rhs)
    }

    /// The negative of the point, `(-X, Y, Z, -T)`.
    pub fn negate(&self) -> (r: ExtendedPoint)
        requires
            self.is_weak(),
        ensures
            r@ == negate_coordinates(self@),
            r.is_weak(),
    {
        ExtendedPoint { X: self.X.negate(), Y: self.Y, Z: self.Z, T: self.T.negate() }
    }

    /// The point plus the point of order two, `(-X, -Y, Z, T)`.
    pub fn torque(&self) -> (r: ExtendedPoint)
        requires
            self.is_weak(),
        ensures
            r@ == torque_coordinates(self@),
            r.is_weak(),
    {
        ExtendedPoint { X: self.X.negate(), Y: self.Y.negate(), Z: self.Z, T: self.T }
    }
}

impl PartialEq for ExtendedPoint {
    /// Whether two points stand for the same affine point.
    fn eq(&self, other: &ExtendedPoint) -> (r: bool) {
        self.ct_eq(other)
    }
}

impl vstd::std_specs::cmp::PartialEqSpecImpl for ExtendedPoint {
    open spec fn obeys_eq_spec() -> bool {
        true
    }

    open spec fn eq_spec(&self, other: &ExtendedPoint) -> bool {
        projectively_equal(self@, other@)
    }
}

impl Eq for ExtendedPoint {

}

impl Default for ExtendedPoint {
    /// The neutral element.
    fn default() -> (r: ExtendedPoint)
        ensures
            r@ == identity_coordinates(),
            r.is_weak(),
    {
        ExtendedPoint::identity()
    }
}

} // verus!
