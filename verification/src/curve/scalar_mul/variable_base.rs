//! Multiplication of any point by a scalar.

use crate::curve::group_law::extended_of;
use crate::curve::scalar_mul::signed_multi_comb::{comb, recoded, signed_multi_comb};
use crate::curve::scalar_mul::window::wnaf::extensible_of;
use crate::curve::twedwards::extended::ExtendedPoint;
use crate::field::scalar::Scalar;
use vstd::prelude::*;

verus! {

/// The scalar times the point, by the windowed method.
pub fn variable_base(point: &ExtendedPoint, s: &Scalar) -> (r: ExtendedPoint)
    ensures
        r@ == extended_of(comb(extensible_of(point@), recoded(s.value()), 0)),
        r.is_weak(),
{
    signed_multi_comb(point, s)
}

} // verus!
