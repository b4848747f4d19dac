//! Multiplication by a scalar, one bit at a time.

use crate::curve::group_law::{
    extended_of,
    identity_coordinates,
    twisted_add,
    twisted_double,
    Coordinates,
    ExtensibleCoordinates,
};
use crate::curve::twedwards::extended::ExtendedPoint;
use crate::curve::twedwards::extensible::ExtensiblePoint;
use crate::field::scalar::Scalar;
use vstd::prelude::*;

verus! {

/// The point that the bits of the scalar from bit `k` up give: the point
/// for the bits from `k + 1` up, doubled, plus `p` where bit `k` is set and
/// the neutral element where it is not.
pub open spec fn ladder(p: Coordinates, s: Scalar, k: int) -> ExtensibleCoordinates
    decreases 448 - k,
{
    if k >= 448 {
        ExtensibleCoordinates { X: 0, Y: 1, Z: 1, T1: 0, T2: 0 }
    } else {
        twisted_add(
            extended_of(twisted_double(ladder(p, s, k + 1))),
            if s.bit(k) {
                p
            } else {
                identity_coordinates()
            },
        )
    }
}

/// The scalar times the point, by doubling once for every bit of the
/// scalar, from the top bit down, and adding the point or the neutral
/// element, chosen without a branch.
pub fn double_and_add(point: &ExtendedPoint, s: &Scalar) -> (r: ExtendedPoint)
    requires
        point.is_weak(),
    ensures
        r@ == extended_of(ladder(point@, *s, 0)),
        r.is_weak(),
{
    let mut result = ExtensiblePoint::identity();
    let bits = s.bits();

    // From the most significant bit to the least
    let mut k: usize = 448;
    while k > 0
        invariant
            0 <= k <= 448,
            point.is_weak(),
            result.is_weak(),
            result@ == ladder(point@, *s, k as int),
            bits@.len() == 448,
            forall|j: int| 0 <= j < 448 ==> bits@[j] == s.bit(j),
        decreases k,
    {
        k = k - 1;
        result = result.double();

        let mut p = ExtendedPoint::identity();
        p.conditional_assign(point, bits[k]);
        result = result.add_extended(&p);
    }

    result.to_extended()
}

} // verus!
