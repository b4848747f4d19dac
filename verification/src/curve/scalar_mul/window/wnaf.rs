//! The table of the odd multiples of a point for windows of five bits.

use crate::constant_time::words_equal;
use crate::curve::group_law::{
    niels_of,
    Coordinates,
    twisted_add_niels,
    twisted_double,
    ExtensibleCoordinates,
    NielsCoordinates,
};
use crate::curve::twedwards::extended::ExtendedPoint;
use crate::curve::twedwards::projective::ProjectiveNielsPoint;
use crate::field::element::field_mul;
use vstd::prelude::*;

verus! {

/// The width of a window, in bits.
pub const WINDOW: usize = 5;

/// The mask of a window.
pub const WINDOW_MASK: usize = 31;

/// The mask of a window without its top bit.
pub const WINDOW_T_MASK: usize = 15;

/// The number of points in a table.
pub const TABLE_SIZE: usize = 16;

/// The odd multiples `P, 3P, 5P, ..., 31P` of a point, in cached form.
pub struct LookupTable(pub [ProjectiveNielsPoint; 16]);

/// The point `(X, Y, Z, T)` in extensible form, with `T1 = T` and `T2 = 1`.
pub open spec fn extensible_of(point: Coordinates) -> ExtensibleCoordinates {
    ExtensibleCoordinates { X: point.X, Y: point.Y, Z: point.Z, T1: point.T, T2: 1 }
}

/// The sum of a point and a cached point, whose `Z` is first multiplied
/// into that of the point.
pub open spec fn add_cached(p: ExtensibleCoordinates, n: NielsCoordinates) -> ExtensibleCoordinates {
    twisted_add_niels(
        ExtensibleCoordinates { Z: field_mul(p.Z, n.Z), ..p },
        NielsCoordinates { Z: 1, ..n },
    )
}

/// Entry `i` of the table of `p`, before it is cached: `p` with twice `p`
/// added `i` times.
pub open spec fn odd_multiple(p: ExtensibleCoordinates, i: nat) -> ExtensibleCoordinates
    decreases i,
{
    if i == 0 {
        p
    } else {
        add_cached(odd_multiple(p, (i - 1) as nat), niels_of(twisted_double(p)))
    }
}

impl LookupTable {
    /// Whether every point of the table is within the limb bounds of
    /// limb-wise addition and subtraction.
    pub open spec fn is_weak(&self) -> bool {
        forall|i: int| 0 <= i < 16 ==> (#[trigger] self.0[i]).is_weak()
    }

    /// The table of the odd multiples of a point.
    pub fn from_point(point: &ExtendedPoint) -> (r: LookupTable)
        ensures
            forall|i: int|
                0 <= i < 16 ==> (#[trigger] r.0[i])@ == niels_of(odd_multiple(extensible_of(point@), i as nat)),
            r.is_weak(),
    {
        let first_point = point.weak_form().to_extensible();
        let twice = first_point.double().to_projective_niels();

        let first = first_point.to_projective_niels();
        let mut table = [
            first,
            first,
            first,
            first,
            first,
            first,
            first,
            first,
            first,
            first,
            first,
            first,
            first,
            first,
            first,
            first,
        ];
        let mut multiple = first_point;

        for i in 1..16
            invariant
                multiple.is_weak(),
                twice.is_weak(),
                twice@ == niels_of(twisted_double(extensible_of(point@))),
                multiple@ == odd_multiple(extensible_of(point@), (i - 1) as nat),
                forall|j: int|
                    0 <= j < i ==> (#[trigger] table[j])@ == niels_of(
                        odd_multiple(extensible_of(point@), j as nat),
                    ),
                forall|j: int| 0 <= j < 16 ==> (#[trigger] table[j]).is_weak(),
        {
            multiple = multiple.add_projective_niels(&twice);
            table[i] = multiple.to_projective_niels();
        }

        LookupTable(table)
    }

    /// Entry `index` of the table, or the cached neutral element where the
    /// index is past the table. Every entry is read, and the one sought is
    /// kept by masking.
    pub fn select(&self, index: u32) -> (r: ProjectiveNielsPoint)
        ensures
            index < 16 ==> r == self.0[index as int],
            index >= 16 ==> r == ProjectiveNielsPoint::identity_value(),
    {
        let mut result = ProjectiveNielsPoint::identity();

        for i in 0..16
            invariant
                index < i ==> result == self.0[index as int],
                index >= i ==> result == ProjectiveNielsPoint::identity_value(),
        {
            let swap = words_equal(index, i as u32);
            result.conditional_assign(&self.0[i], swap);
        }
        result
    }
}

impl<'a> From<&'a ExtendedPoint> for LookupTable {
    /// The table of the odd multiples of a point.
    fn from(point: &'a ExtendedPoint) -> (r: LookupTable)
        ensures
            forall|i: int|
                0 <= i < 16 ==> (#[trigger] r.0[i])@ == niels_of(odd_multiple(extensible_of(point@), i as nat)),
            r.is_weak(),
    {
        LookupTable::from_point(point)
    }
}

impl<'a> vstd::std_specs::convert::FromSpecImpl<&'a ExtendedPoint> for LookupTable {
    open spec fn obeys_from_spec() -> bool {
        false
    }

    open spec fn from_spec(point: &'a ExtendedPoint) -> LookupTable {
        arbitrary()
    }
}

} // verus!
