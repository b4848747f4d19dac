//! Points of the twisted Edwards curve in extensible coordinates
//! `(X, Y, Z, T1, T2)`, where `T1 T2` is the coordinate `T`. The group
//! operations leave `T` as two factors, so that the product is only made
//! where the next operation reads it.

use crate::constant_time::both;
use crate::curve::constants::{two_one_minus_d, two_times_twisted_d};
use crate::curve::group_law::{
    extended_of,
    niels_of,
    projectively_equal,
    twisted_add,
    twisted_add_niels,
    twisted_double,
    twisted_sub,
    Coordinates,
    ExtensibleCoordinates,
    NielsCoordinates,
};
use crate::curve::twedwards::affine::AffineNielsPoint;
use crate::curve::twedwards::extended::ExtendedPoint;
use crate::curve::twedwards::projective::ProjectiveNielsPoint;
use crate::field::element::{field_mul, FieldElement28};
use vstd::prelude::*;

verus! {

/// A point of the twisted Edwards curve in extensible coordinates.
#[derive(Copy, Clone, Debug)]
pub struct ExtensiblePoint {
    pub X: FieldElement28,
    pub Y: FieldElement28,
    pub Z: FieldElement28,
    pub T1: FieldElement28,
    pub T2: FieldElement28,
}

impl View for ExtensiblePoint {
    type V = ExtensibleCoordinates;

    open spec fn view(&self) -> ExtensibleCoordinates {
        ExtensibleCoordinates {
            X: self.X.value(),
            Y: self.Y.value(),
            Z: self.Z.value(),
            T1: self.T1.value(),
            T2: self.T2.value(),
        }
    }
}

impl ExtensiblePoint {
    /// Whether every coordinate is within the limb bounds of limb-wise
    /// addition and subtraction.
    pub open spec fn is_weak(&self) -> bool {
        self.X.is_weak() && self.Y.is_weak() && self.Z.is_weak() && self.T1.is_weak()
            && self.T2.is_weak()
    }

    /// Whether two points stand for the same affine point, found without
    /// an inversion and in constant time.
    pub fn ct_eq(&self, other: &ExtensiblePoint) -> (r: bool)
        ensures
            r == projectively_equal(extended_of(self@), extended_of(other@)),
    {
        let XZ = self.X * other.Z;
        let ZX = self.Z * other.X;

        let YZ = self.Y * other.Z;
        let ZY = self.Z * other.Y;

        both(XZ.equals(&ZX), YZ.equals(&ZY))
    }

    /// The neutral element, `(0, 1, 1, 0, 0)`.
    pub fn identity() -> (r: ExtensiblePoint)
        ensures
            r@ == (ExtensibleCoordinates { X: 0, Y: 1, Z: 1, T1: 0, T2: 0 }),
            r.is_weak(),
    {
        ExtensiblePoint {
            X: FieldElement28::zero(),
            Y: FieldElement28::one(),
            Z: FieldElement28::one(),
            T1: FieldElement28::zero(),
            T2: FieldElement28::zero(),
        }
    }

    /// Whether two points stand for the same affine point.
    pub fn equals(&self, other: &ExtensiblePoint) -> (r: bool)
        ensures
            r == projectively_equal(extended_of(self@), extended_of(other@)),
    {
        let ZX = self.Z * other.X;
        let XZ = self.X * other.Z;

        let ZY = self.Z * other.Y;
        let YZ = self.Y * other.Z;

        ZX.equals(&XZ) && ZY.equals(&YZ)
    }

    /// Twice the point, by the dedicated doubling formula.
    pub fn double(&self) -> (r: ExtensiblePoint)
        requires
            self.X.is_weak(),
            self.Y.is_weak(),
        ensures
            r@ == twisted_double(self@),
            r.is_weak(),
    {
        let XX = self.X.square();
        let YY = self.Y.square();

        let XX_plus_YY = XX + YY;
        let YY_minus_XX = YY - XX;
        let Y_plus_X = self.Y + self.X;
        let Y_plus_X2 = Y_plus_X.square();

        let T1 = Y_plus_X2 - XX_plus_YY;

        let ZZ = self.Z.square();

        let ZZ_plus_ZZ = ZZ + ZZ;

        let ZZ_YY_XX = ZZ_plus_ZZ - YY_minus_XX;

        let Z = ZZ_YY_XX * YY_minus_XX;
        let X = ZZ_YY_XX * T1;
        let Y = YY_minus_XX * XX_plus_YY;

        ExtensiblePoint { X, Y, Z, T1, T2: XX_plus_YY }
    }

    /// The sum of two points.
    pub fn add_extensible(&self, other: &ExtensiblePoint) -> (r: ExtensiblePoint)
        requires
            self.is_weak(),
            other.is_weak(),
        ensures
            r@ == twisted_add(extended_of(self@), extended_of(other@)),
            r.is_weak(),
    {
        self.add_extended(&other.to_extended())
    }

    /// The sum of the point and a point in extended coordinates, by the
    /// dedicated addition formula.
    pub fn add_extended(&self, other: &ExtendedPoint) -> (r: ExtensiblePoint)
        requires
            self.is_weak(),
            other.is_weak(),
        ensures
            r@ == twisted_add(extended_of(self@), other@),
            r.is_weak(),
    {
        // Compute T
        let self_T = self.T1 * self.T2;
        let other_T = other.T;

        let b = self.Y - self.X;
        let c = other.Y - other.X;
        let d = other.Y + other.X;
        let a = c * b;
        let b = self.Y + self.X;
        let y = d * b;
        let b = other_T * self_T;
        let x = b * two_one_minus_d();
        let b = a + y;
        let c = y - a;
        let a = self.Z * other.Z;
        let a = a + a;
        let y = a + x;
        let a = a - x;

        ExtensiblePoint { X: y * c, Y: a * b, Z: a * y, T1: b, T2: c }
    }

    /// The difference of the point and a point in extended coordinates.
    pub fn sub_extended(&self, other: &ExtendedPoint) -> (r: ExtensiblePoint)
        requires
            self.is_weak(),
            other.is_weak(),
        ensures
            r@ == twisted_sub(extended_of(self@), other@),
            r.is_weak(),
    {
        // Compute T
        let self_T = self.T1 * self.T2;
        let other_T = other.T;

        let b = self.Y - self.X;
        let d = other.Y - other.X;
        let c = other.Y + other.X;
        let a = c * b;
        let b = self.Y + self.X;
        let y = d * b;
        let b = other_T * self_T;
        let x = b * two_one_minus_d();
        let b = a + y;
        let c = y - a;
        let a = self.Z * other.Z;
        let a = a + a;
        let y = a - x;
        let a = a + x;

        ExtensiblePoint { X: y * c, Y: a * b, Z: a * y, T1: b, T2: c }
    }

    /// The sum of the point and a cached affine point.
    pub fn add_affine_niels(&self, other: AffineNielsPoint) -> (r: ExtensiblePoint)
        requires
            self.is_weak(),
        ensures
            r@ == twisted_add_niels(
                self@,
                NielsCoordinates {
                    y_plus_x: other.y_plus_x.value(),
                    y_minus_x: other.y_minus_x.value(),
                    td: other.td.value(),
                    Z: 1,
                },
            ),
            r.is_weak(),
    {
        let b = self.Y - self.X;
        let a = other.y_minus_x * b;
        let b = self.X + self.Y;
        let y = other.y_plus_x * b;
        let x = other.td * self.T1 * self.T2;
        let c = a + y;
        let b = y - a;
        let y = self.Z - x;
        let a = x + self.Z;

        ExtensiblePoint { X: y * b, Y: a * c, Z: a * y, T1: b, T2: c }
    }

    /// The sum of the point and a cached point. The point itself is left
    /// with its `Z` multiplied by that of the cached point.
    pub fn add_projective_niels(&mut self, other: &ProjectiveNielsPoint) -> (r: ExtensiblePoint)
        requires
            old(self).is_weak(),
        ensures
            final(self)@ == (ExtensibleCoordinates {
                Z: field_mul(old(self).Z.value(), other.Z.value()),
                ..old(self)@
            }),
            final(self).is_weak(),
            r@ == twisted_add_niels(
                final(self)@,
                NielsCoordinates {
                    y_plus_x: other.Y_plus_X.value(),
                    y_minus_x: other.Y_minus_X.value(),
                    td: other.Td.value(),
                    Z: 1,
                },
            ),
            r.is_weak(),
    {
        self.Z = self.Z * other.Z;

        self.add_affine_niels(
            AffineNielsPoint { y_plus_x: other.Y_plus_X, y_minus_x: other.Y_minus_X, td: other.Td },
        )
    }

    /// The point in extended coordinates, with `T = T1 T2`.
    pub fn to_extended(&self) -> (r: ExtendedPoint)
        ensures
            r@ == extended_of(self@),
            r.X == self.X,
            r.Y == self.Y,
            r.Z == self.Z,
            r.T.is_weak(),
    {
        ExtendedPoint { X: self.X, Y: self.Y, Z: self.Z, T: self.T1 * self.T2 }
    }

    /// The cached form of the point, `(X + Y, Y - X, 2 (d - 1) T, 2 Z)`.
    pub fn to_projective_niels(&self) -> (r: ProjectiveNielsPoint)
        requires
            self.is_weak(),
        ensures
            r@ == niels_of(self@),
            r.is_weak(),
    {
        ProjectiveNielsPoint {
            Y_plus_X: self.X + self.Y,
            Y_minus_X: self.Y - self.X,
            Z: self.Z + self.Z,
            Td: self.T1 * self.T2 * two_times_twisted_d(),
        }
    }
}

impl PartialEq for ExtensiblePoint {
    /// Whether two points stand for the same affine point.
    fn eq(&self, other: &ExtensiblePoint) -> (r: bool) {
        self.ct_eq(other)
    }
}

impl vstd::std_specs::cmp::PartialEqSpecImpl for ExtensiblePoint {
    open spec fn obeys_eq_spec() -> bool {
        true
    }

    open spec fn eq_spec(&self, other: &ExtensiblePoint) -> bool {
        projectively_equal(extended_of(self@), extended_of(other@))
    }
}

impl Eq for ExtensiblePoint {

}

} // verus!
