//! The two curves as mathematics: points as residues in extended
//! coordinates, the curve equations and the addition formulas.
//!
//! The Edwards curve is `x^2 + y^2 = 1 + d x^2 y^2` with `d = -39081`; the
//! twisted Edwards curve is `y^2 - x^2 = 1 + (d - 1) x^2 y^2`. A point
//! `(X, Y, Z, T)` stands for the affine point `(X / Z, Y / Z)` and holds
//! `X Y = Z T`.

use crate::field::element::{field_add, field_modulus, field_mul, field_neg, field_sub};
use vstd::prelude::*;

verus! {

/// The residues of the four extended coordinates of a point.
pub struct Coordinates {
    pub X: int,
    pub Y: int,
    pub Z: int,
    pub T: int,
}

/// The constant `d = -39081` of the Edwards curve, as a residue.
pub open spec fn edwards_d() -> int {
    field_modulus() - 39081
}

/// The constant `d - 1 = -39082` of the twisted Edwards curve, as a residue.
pub open spec fn twisted_d() -> int {
    field_modulus() - 39082
}

/// The neutral element of both curves, `(0, 1, 1, 0)`.
pub open spec fn identity_coordinates() -> Coordinates {
    Coordinates { X: 0, Y: 1, Z: 1, T: 0 }
}

/// Whether two points stand for the same affine point: `X1 Z2 = Z1 X2` and
/// `Y1 Z2 = Z1 Y2`.
pub open spec fn projectively_equal(p: Coordinates, q: Coordinates) -> bool {
    &&& field_mul(p.X, q.Z) == field_mul(p.Z, q.X)
    &&& field_mul(p.Y, q.Z) == field_mul(p.Z, q.Y)
}

/// Whether the coordinates are coherent, `X Y = Z T`, and satisfy the
/// Edwards curve equation `Y^2 + X^2 = Z^2 + d T^2`.
pub open spec fn edwards_on_curve(p: Coordinates) -> bool {
    &&& field_mul(p.X, p.Y) == field_mul(p.Z, p.T)
    &&& field_add(field_mul(p.Y, p.Y), field_mul(p.X, p.X)) == field_add(
        field_mul(p.Z, p.Z),
        field_mul(field_mul(p.T, p.T), edwards_d()),
    )
}

/// Whether the coordinates are coherent, `X Y = Z T`, and satisfy the
/// twisted Edwards curve equation `Y^2 - X^2 = Z^2 + (d - 1) T^2`.
pub open spec fn twisted_on_curve(p: Coordinates) -> bool {
    &&& field_mul(p.X, p.Y) == field_mul(p.Z, p.T)
    &&& field_sub(field_mul(p.Y, p.Y), field_mul(p.X, p.X)) == field_add(
        field_mul(p.Z, p.Z),
        field_mul(field_mul(p.T, p.T), twisted_d()),
    )
}

/// The negative of a point, `(-X, Y, Z, -T)`.
pub open spec fn negate_coordinates(p: Coordinates) -> Coordinates {
    Coordinates { X: field_neg(p.X), Y: p.Y, Z: p.Z, T: field_neg(p.T) }
}

/// The point plus the point of order two, `(-X, -Y, Z, T)`.
pub open spec fn torque_coordinates(p: Coordinates) -> Coordinates {
    Coordinates { X: field_neg(p.X), Y: field_neg(p.Y), Z: p.Z, T: p.T }
}

/// The sum of two points of the curve `a x^2 + y^2 = 1 + d x^2 y^2` by the
/// unified formula, which also doubles:
///
/// ```text
/// X3 = (X1 Y2 + Y1 X2)(Z1 Z2 - d T1 T2)
/// Y3 = (Y1 Y2 - a X1 X2)(Z1 Z2 + d T1 T2)
/// T3 = (Y1 Y2 - a X1 X2)(X1 Y2 + Y1 X2)
/// Z3 = (Z1 Z2 - d T1 T2)(Z1 Z2 + d T1 T2)
/// ```
pub open spec fn unified_add(a: int, d: int, p: Coordinates, q: Coordinates) -> Coordinates {
    let axx = field_mul(a, field_mul(p.X, q.X));
    let dtt = field_mul(field_mul(d, p.T), q.T);
    let zz = field_mul(p.Z, q.Z);
    let yy = field_mul(p.Y, q.Y);
    let cross = field_add(field_mul(p.X, q.Y), field_mul(p.Y, q.X));
    Coordinates {
        X: field_mul(cross, field_sub(zz, dtt)),
        Y: field_mul(field_sub(yy, axx), field_add(zz, dtt)),
        Z: field_mul(field_sub(zz, dtt), field_add(zz, dtt)),
        T: field_mul(field_sub(yy, axx), cross),
    }
}

/// The sum of two points of the Edwards curve by the unified formula, which
/// also doubles:
///
/// ```text
/// X3 = (X1 Y2 + Y1 X2)(Z1 Z2 - d T1 T2)
/// Y3 = (Y1 Y2 - X1 X2)(Z1 Z2 + d T1 T2)
/// T3 = (Y1 Y2 - X1 X2)(X1 Y2 + Y1 X2)
/// Z3 = (Z1 Z2 - d T1 T2)(Z1 Z2 + d T1 T2)
/// ```
pub open spec fn edwards_add(p: Coordinates, q: Coordinates) -> Coordinates {
    let xx = field_mul(p.X, q.X);
    let dtt = field_mul(field_mul(edwards_d(), p.T), q.T);
    let zz = field_mul(p.Z, q.Z);
    let yy = field_mul(p.Y, q.Y);
    let cross = field_add(field_mul(p.X, q.Y), field_mul(p.Y, q.X));
    Coordinates {
        X: field_mul(cross, field_sub(zz, dtt)),
        Y: field_mul(field_sub(yy, xx), field_add(zz, dtt)),
        Z: field_mul(field_sub(zz, dtt), field_add(zz, dtt)),
        T: field_mul(field_sub(yy, xx), cross),
    }
}

/// The image of an affine point `(x, y)` under the isogeny between the two
/// curves, from the curve with the given `a`:
///
/// ```text
/// x' = 2 x y / (y^2 - a x^2)
/// y' = (y^2 + a x^2) / (2 - y^2 - a x^2)
/// ```
///
/// with division as multiplication by the power `p - 2`.
pub open spec fn isogeny_coordinates(x: int, y: int, a: int) -> Coordinates {
    let xy = field_mul(x, y);
    let yy = field_mul(y, y);
    let axx = field_mul(a, field_mul(x, x));
    let new_x = field_mul(
        field_add(xy, xy),
        crate::field::power::field_invert(field_sub(yy, axx)),
    );
    let new_y = field_mul(
        field_add(yy, axx),
        crate::field::power::field_invert(field_sub(field_sub(2, yy), axx)),
    );
    Coordinates { X: new_x, Y: new_y, Z: 1, T: field_mul(new_x, new_y) }
}

/// The residues of a point in extensible coordinates `(X, Y, Z, T1, T2)`,
/// where the product `T1 T2` is the coordinate `T`.
pub struct ExtensibleCoordinates {
    pub X: int,
    pub Y: int,
    pub Z: int,
    pub T1: int,
    pub T2: int,
}

/// The residues of a cached point `(Y + X, Y - X, 2 d T, Z)`; an affine
/// cached point holds `Z = 1` and `d T` in place of `2 d T`.
pub struct NielsCoordinates {
    pub y_plus_x: int,
    pub y_minus_x: int,
    pub td: int,
    pub Z: int,
}

/// The point in extended coordinates that extensible coordinates stand
/// for.
pub open spec fn extended_of(p: ExtensibleCoordinates) -> Coordinates {
    Coordinates { X: p.X, Y: p.Y, Z: p.Z, T: field_mul(p.T1, p.T2) }
}

/// The sum of two points of the twisted Edwards curve, by the dedicated
/// formula for `a = -1`:
///
/// ```text
/// A = (Y1 - X1)(Y2 - X2)    B = (Y1 + X1)(Y2 + X2)
/// C = 2 (1 - d) T1 T2       D = 2 Z1 Z2
/// E = B - A   F = D - C   G = D + C   H = B + A
/// X3 = G E   Y3 = F H   Z3 = F G   T3 = H E
/// ```
pub open spec fn twisted_add(p: Coordinates, q: Coordinates) -> ExtensibleCoordinates {
    let a = field_mul(field_sub(q.Y, q.X), field_sub(p.Y, p.X));
    let b = field_mul(field_add(q.Y, q.X), field_add(p.Y, p.X));
    let c = field_mul(field_mul(q.T, p.T), 78164);
    let d = field_add(field_mul(p.Z, q.Z), field_mul(p.Z, q.Z));
    let e = field_sub(b, a);
    let f = field_sub(d, c);
    let g = field_add(d, c);
    let h = field_add(a, b);
    ExtensibleCoordinates { X: field_mul(g, e), Y: field_mul(f, h), Z: field_mul(f, g), T1: h, T2: e }
}

/// The difference of two points of the twisted Edwards curve: the dedicated
/// addition formula with the second point negated.
pub open spec fn twisted_sub(p: Coordinates, q: Coordinates) -> ExtensibleCoordinates {
    let a = field_mul(field_add(q.Y, q.X), field_sub(p.Y, p.X));
    let b = field_mul(field_sub(q.Y, q.X), field_add(p.Y, p.X));
    let c = field_mul(field_mul(q.T, p.T), 78164);
    let d = field_add(field_mul(p.Z, q.Z), field_mul(p.Z, q.Z));
    let e = field_sub(b, a);
    let f = field_add(d, c);
    let g = field_sub(d, c);
    let h = field_add(a, b);
    ExtensibleCoordinates { X: field_mul(g, e), Y: field_mul(f, h), Z: field_mul(f, g), T1: h, T2: e }
}

/// Twice a point of the twisted Edwards curve, by the dedicated doubling
/// formula:
///
/// ```text
/// T1 = (X + Y)^2 - (X^2 + Y^2)    T2 = X^2 + Y^2
/// W = 2 Z^2 - (Y^2 - X^2)
/// X3 = W T1   Y3 = (Y^2 - X^2) T2   Z3 = W (Y^2 - X^2)
/// ```
pub open spec fn twisted_double(p: ExtensibleCoordinates) -> ExtensibleCoordinates {
    let xx = field_mul(p.X, p.X);
    let yy = field_mul(p.Y, p.Y);
    let t2 = field_add(xx, yy);
    let difference = field_sub(yy, xx);
    let sum = field_add(p.Y, p.X);
    let t1 = field_sub(field_mul(sum, sum), t2);
    let zz = field_mul(p.Z, p.Z);
    let w = field_sub(field_add(zz, zz), difference);
    ExtensibleCoordinates {
        X: field_mul(w, t1),
        Y: field_mul(difference, t2),
        Z: field_mul(w, difference),
        T1: t1,
        T2: t2,
    }
}

/// The sum of a point and an affine cached point of the twisted Edwards
/// curve.
pub open spec fn twisted_add_niels(p: ExtensibleCoordinates, n: NielsCoordinates) -> ExtensibleCoordinates {
    let a = field_mul(n.y_minus_x, field_sub(p.Y, p.X));
    let b = field_mul(n.y_plus_x, field_add(p.X, p.Y));
    let c = field_mul(field_mul(n.td, p.T1), p.T2);
    let h = field_add(a, b);
    let e = field_sub(b, a);
    let f = field_sub(p.Z, c);
    let g = field_add(c, p.Z);
    ExtensibleCoordinates { X: field_mul(f, e), Y: field_mul(g, h), Z: field_mul(g, f), T1: e, T2: h }
}

/// The cached form of a point of the twisted Edwards curve,
/// `(X + Y, Y - X, 2 (d - 1) T, 2 Z)`.
pub open spec fn niels_of(p: ExtensibleCoordinates) -> NielsCoordinates {
    NielsCoordinates {
        y_plus_x: field_add(p.X, p.Y),
        y_minus_x: field_sub(p.Y, p.X),
        td: field_mul(field_mul(p.T1, p.T2), field_modulus() - 78164),
        Z: field_add(p.Z, p.Z),
    }
}

/// The negative of a cached point: the sum and the difference exchanged
/// and the third coordinate negated.
pub open spec fn negate_niels(n: NielsCoordinates) -> NielsCoordinates {
    NielsCoordinates { y_plus_x: n.y_minus_x, y_minus_x: n.y_plus_x, td: field_neg(n.td), Z: n.Z }
}

/// The sum of two affine points of the twisted Edwards curve:
///
/// ```text
/// x3 = (x1 y2 + y1 x2) / (1 + d x1 x2 y1 y2)
/// y3 = (y1 y2 + x1 x2) / (1 - d x1 x2 y1 y2)
/// ```
///
/// with division as multiplication by the power `p - 2`.
pub open spec fn twisted_affine_add(x1: int, y1: int, x2: int, y2: int) -> (int, int) {
    let dxxyy = field_mul(field_mul(field_mul(field_mul(twisted_d(), x1), x2), y1), y2);
    let x = field_mul(
        field_add(field_mul(x1, y2), field_mul(y1, x2)),
        crate::field::power::field_invert(field_add(1, dxxyy)),
    );
    let y = field_mul(
        field_add(field_mul(y1, y2), field_mul(x1, x2)),
        crate::field::power::field_invert(field_sub(1, dxxyy)),
    );
    (x, y)
}

} // verus!
