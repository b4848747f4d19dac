//! The operators of the group of cosets.

use crate::curve::group_law::{extended_of, negate_coordinates, twisted_add, twisted_sub};
use crate::curve::scalar_mul::double_and_add::{double_and_add, ladder};
use crate::curve::scalar_mul::window::wnaf::extensible_of;
use crate::decaf::decaf::DecafPoint;
use crate::field::scalar::Scalar;
use vstd::prelude::*;

verus! {

impl core::ops::Mul<Scalar> for DecafPoint {
    type Output = DecafPoint;

    /// The scalar times the coset.
    fn mul(self, scalar: Scalar) -> (r: DecafPoint)
        ensures
            r.0@ == extended_of(ladder(self.0@, scalar, 0)),
            r.0.is_weak(),
    {
        DecafPoint(double_and_add(&self.0, &scalar))
    }
}

impl vstd::std_specs::ops::MulSpecImpl<Scalar> for DecafPoint {
    open spec fn obeys_mul_spec() -> bool {
        false
    }

    open spec fn mul_req(self, scalar: Scalar) -> bool {
        self.0.is_weak()
    }

    open spec fn mul_spec(self, scalar: Scalar) -> DecafPoint {
        arbitrary()
    }
}

impl core::ops::Mul<DecafPoint> for Scalar {
    type Output = DecafPoint;

    /// The scalar times the coset.
    fn mul(self, point: DecafPoint) -> (r: DecafPoint)
        ensures
            r.0@ == extended_of(ladder(point.0@, self, 0)),
            r.0.is_weak(),
    {
        DecafPoint(double_and_add(&point.0, &self))
    }
}

impl vstd::std_specs::ops::MulSpecImpl<DecafPoint> for Scalar {
    open spec fn obeys_mul_spec() -> bool {
        false
    }

    open spec fn mul_req(self, point: DecafPoint) -> bool {
        point.0.is_weak()
    }

    open spec fn mul_spec(self, point: DecafPoint) -> DecafPoint {
        arbitrary()
    }
}

impl<'a, 'b> core::ops::Add<&'a DecafPoint> for &'b DecafPoint {
    type Output = DecafPoint;

    /// The sum of two cosets.
    fn add(self, other: &'a DecafPoint) -> (r: DecafPoint)
        ensures
            r.0@ == extended_of(twisted_add(extended_of(extensible_of(self.0@)), other.0@)),
            r.0.is_weak(),
    {
        DecafPoint(self.0.to_extensible().add_extended(&other.0).to_extended())
    }
}

impl<'a, 'b> vstd::std_specs::ops::AddSpecImpl<&'a DecafPoint> for &'b DecafPoint {
    open spec fn obeys_add_spec() -> bool {
        false
    }

    open spec fn add_req(self, other: &'a DecafPoint) -> bool {
        self.0.is_weak() && other.0.is_weak()
    }

    open spec fn add_spec(self, other: &'a DecafPoint) -> DecafPoint {
        arbitrary()
    }
}

impl core::ops::Add<DecafPoint> for DecafPoint {
    type Output = DecafPoint;

    /// The sum of two cosets.
    fn add(self, other: DecafPoint) -> (r: DecafPoint)
        ensures
            r.0@ == extended_of(twisted_add(extended_of(extensible_of(self.0@)), other.0@)),
            r.0.is_weak(),
    {
        DecafPoint(self.0.to_extensible().add_extended(&other.0).to_extended())
    }
}

impl vstd::std_specs::ops::AddSpecImpl<DecafPoint> for DecafPoint {
    open spec fn obeys_add_spec() -> bool {
        false
    }

    open spec fn add_req(self, other: DecafPoint) -> bool {
        self.0.is_weak() && other.0.is_weak()
    }

    open spec fn add_spec(self, other: DecafPoint) -> DecafPoint {
        arbitrary()
    }
}

impl core::ops::Sub<DecafPoint> for DecafPoint {
    type Output = DecafPoint;

    /// The difference of two cosets.
    fn sub(self, other: DecafPoint) -> (r: DecafPoint)
        ensures
            r.0@ == extended_of(twisted_sub(extended_of(extensible_of(self.0@)), other.0@)),
            r.0.is_weak(),
    {
        DecafPoint(self.0.to_extensible().sub_extended(&other.0).to_extended())
    }
}

impl vstd::std_specs::ops::SubSpecImpl<DecafPoint> for DecafPoint {
    open spec fn obeys_sub_spec() -> bool {
        false
    }

    open spec fn sub_req(self, other: DecafPoint) -> bool {
        self.0.is_weak() && other.0.is_weak()
    }

    open spec fn sub_spec(self, other: DecafPoint) -> DecafPoint {
        arbitrary()
    }
}

impl core::ops::Neg for DecafPoint {
    type Output = DecafPoint;

    /// The negative of the coset.
    fn neg(self) -> (r: DecafPoint)
        ensures
            r.0@ == negate_coordinates(self.0@),
            r.0.is_weak(),
    {
        DecafPoint(self.0.negate())
    }
}

impl vstd::std_specs::ops::NegSpecImpl for DecafPoint {
    open spec fn obeys_neg_spec() -> bool {
        false
    }

    open spec fn neg_req(self) -> bool {
        self.0.is_weak()
    }

    open spec fn neg_spec(self) -> DecafPoint {
        arbitrary()
    }
}

} // verus!
