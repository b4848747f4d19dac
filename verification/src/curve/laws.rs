//! The laws of the addition of the Edwards curve, and the agreement of the
//! dedicated formulas of the twisted curve with each other.

use crate::curve::edwards::extended::{
    decompressed_x,
    decompresses,
    encoded_y,
    x_squared_denominator,
    x_squared_numerator,
};
use crate::curve::group_law::{
    edwards_add,
    edwards_d,
    edwards_on_curve,
    extended_of,
    identity_coordinates,
    negate_coordinates,
    projectively_equal,
    twisted_add,
    twisted_d,
    twisted_double,
    twisted_on_curve,
    unified_add,
    Coordinates,
    ExtensibleCoordinates,
};
use crate::field::algebra::{
    lemma_sqrt_ratio,
    congruent,
    is_residue,
    lemma_add_congruent,
    lemma_congruent_difference,
    lemma_congruent_multiple,
    lemma_congruent_product,
    lemma_congruent_sum,
    lemma_add_residue,
    lemma_mul_associates,
    lemma_mul_commutes,
    lemma_mul_congruent,
    lemma_mul_residue,
    lemma_neg_congruent,
    lemma_neg_residue,
    lemma_sub_congruent,
    lemma_sub_residue,
};
use crate::field::element::{field_add, field_modulus, field_mul, field_neg, field_sub};
use crate::field::power::field_inverse_root;
use vstd::arithmetic::div_mod::lemma_small_mod;
use vstd::prelude::*;

verus! {

/// Whether the four coordinates are residues.
pub open spec fn are_residues(p: Coordinates) -> bool {
    is_residue(p.X) && is_residue(p.Y) && is_residue(p.Z) && is_residue(p.T)
}

/// The sum of two points does not depend on their order.
pub proof fn lemma_add_commutes(p: Coordinates, q: Coordinates)
    ensures
        edwards_add(p, q) == edwards_add(q, p),
{
    let d = edwards_d();
    lemma_mul_commutes(p.X, q.X);
    lemma_mul_commutes(p.Y, q.Y);
    lemma_mul_commutes(p.Z, q.Z);
    lemma_mul_commutes(p.X, q.Y);
    lemma_mul_commutes(p.Y, q.X);
    // d T1 T2 in either order
    lemma_mul_associates(d, p.T, q.T);
    lemma_mul_associates(d, q.T, p.T);
    assert(d * p.T * q.T == d * q.T * p.T) by (nonlinear_arith);
}

/// A point plus the neutral element is the point.
pub proof fn lemma_add_identity(p: Coordinates)
    requires
        are_residues(p),
    ensures
        projectively_equal(edwards_add(p, identity_coordinates()), p),
{
    let m = field_modulus() as nat;
    let sum = edwards_add(p, identity_coordinates());
    lemma_small_mod(p.X as nat, m);
    lemma_small_mod(p.Y as nat, m);
    lemma_small_mod(p.Z as nat, m);
    assert(field_mul(p.X, 0) == 0 && field_mul(p.Y, 0) == 0);
    assert(field_mul(field_mul(edwards_d(), p.T), 0) == 0);
    assert(field_mul(p.Z, 1) == p.Z && field_mul(p.Y, 1) == p.Y && field_mul(p.X, 1) == p.X);
    assert(sum.X == field_mul(p.X, p.Z));
    assert(sum.Y == field_mul(p.Y, p.Z));
    assert(sum.Z == field_mul(p.Z, p.Z));
    // X Z Z == Z Z X and Y Z Z == Z Z Y
    lemma_mul_associates(p.X, p.Z, p.Z);
    lemma_mul_commutes(p.X, field_mul(p.Z, p.Z));
    lemma_mul_associates(p.Y, p.Z, p.Z);
    lemma_mul_commutes(p.Y, field_mul(p.Z, p.Z));
}

/// A point of the curve plus its negative is the neutral element.
pub proof fn lemma_add_negative(p: Coordinates)
    requires
        are_residues(p),
        edwards_on_curve(p),
    ensures
        projectively_equal(edwards_add(p, negate_coordinates(p)), identity_coordinates()),
{
    let m = field_modulus() as nat;
    let d = edwards_d();
    let n = negate_coordinates(p);
    let sum = edwards_add(p, n);
    let xx = field_mul(p.X, n.X);
    let dtt = field_mul(field_mul(d, p.T), n.T);
    let zz = field_mul(p.Z, p.Z);
    let yy = field_mul(p.Y, p.Y);
    lemma_neg_residue(p.X);
    lemma_neg_residue(p.T);
    // The cross term X Y + Y (-X) is zero.
    lemma_mul_residue(p.X, p.Y);
    lemma_mul_residue(p.Y, n.X);
    lemma_mul_congruent(p.Y, p.Y, n.X, -p.X);
    lemma_mul_residue(p.Y, -p.X);
    assert(p.Y * (-p.X) == -(p.X * p.Y)) by (nonlinear_arith);
    lemma_add_congruent(field_mul(p.X, p.Y), p.X * p.Y, field_mul(p.Y, n.X), -(p.X * p.Y));
    let cross = field_add(field_mul(p.X, p.Y), field_mul(p.Y, n.X));
    assert(cross == 0);
    assert(sum.X == 0);
    // Y Y - X (-X) is Y Y + X X, and Z Z - d T (-T) is Z Z + d T T.
    lemma_mul_residue(p.X, n.X);
    lemma_mul_congruent(p.X, p.X, n.X, -p.X);
    lemma_mul_residue(p.X, -p.X);
    assert(p.X * (-p.X) == -(p.X * p.X)) by (nonlinear_arith);
    lemma_mul_residue(p.X, p.X);
    lemma_mul_residue(p.Y, p.Y);
    lemma_sub_congruent(yy, yy, xx, -(p.X * p.X));
    lemma_add_congruent(yy, yy, field_mul(p.X, p.X), p.X * p.X);
    assert(field_sub(yy, xx) == field_add(yy, field_mul(p.X, p.X)));

    let dt = field_mul(d, p.T);
    lemma_mul_residue(dt, n.T);
    lemma_mul_congruent(dt, dt, n.T, -p.T);
    lemma_mul_residue(dt, -p.T);
    assert(dt * (-p.T) == -(dt * p.T)) by (nonlinear_arith);
    // d T T, as the curve equation writes it: (T T) d
    lemma_mul_associates(d, p.T, p.T);
    lemma_mul_commutes(d, field_mul(p.T, p.T));
    let ttd = field_mul(field_mul(p.T, p.T), d);
    lemma_mul_residue(dt, p.T);
    lemma_sub_congruent(zz, zz, dtt, -(dt * p.T));
    lemma_add_congruent(zz, zz, ttd, dt * p.T);
    assert(field_sub(zz, dtt) == field_add(zz, ttd));
    // By the curve equation the two factors agree, and so do Y3 and Z3.
    assert(field_sub(yy, xx) == field_sub(zz, dtt));
    assert(sum.Y == sum.Z);
    lemma_mul_residue(field_sub(yy, xx), field_add(zz, dtt));
    lemma_small_mod(sum.Y as nat, m);
}

/// The addition of the Edwards curve is the unified formula with `a = 1`
/// and `d = -39081`.
pub proof fn lemma_edwards_add_is_unified(p: Coordinates, q: Coordinates)
    ensures
        edwards_add(p, q) == unified_add(1, edwards_d(), p, q),
{
    let xx = field_mul(p.X, q.X);
    lemma_mul_residue(p.X, q.X);
    lemma_small_mod(xx as nat, field_modulus() as nat);
    assert(1 * xx == xx);
}

/// The sum of two points of the twisted curve does not depend on their
/// order.
pub proof fn lemma_twisted_add_commutes(p: Coordinates, q: Coordinates)
    ensures
        twisted_add(p, q) == twisted_add(q, p),
{
    lemma_mul_commutes(field_sub(q.Y, q.X), field_sub(p.Y, p.X));
    lemma_mul_commutes(field_add(q.Y, q.X), field_add(p.Y, p.X));
    lemma_mul_commutes(q.T, p.T);
    lemma_mul_commutes(p.Z, q.Z);
}

/// A point of the twisted curve plus the neutral element is the point.
pub proof fn lemma_twisted_add_identity(p: Coordinates)
    requires
        are_residues(p),
    ensures
        projectively_equal(extended_of(twisted_add(p, identity_coordinates())), p),
{
    let m = field_modulus() as nat;
    let sum = twisted_add(p, identity_coordinates());
    let difference = field_sub(p.Y, p.X);
    let total = field_add(p.Y, p.X);
    lemma_sub_residue(p.Y, p.X);
    lemma_add_residue(p.Y, p.X);
    lemma_small_mod(difference as nat, m);
    lemma_small_mod(total as nat, m);
    lemma_small_mod(p.Z as nat, m);
    assert(field_sub(1, 0) == 1 && field_add(1, 0) == 1);
    assert(1 * difference == difference && 1 * total == total);
    let a = field_mul(1, difference);
    let b = field_mul(1, total);
    assert(a == difference && b == total);
    assert(0 * p.T == 0);
    assert(field_mul(0, p.T) == 0);
    assert(field_mul(0, 78164) == 0);
    assert(p.Z * 1 == p.Z);
    let d = field_add(p.Z, p.Z);
    lemma_add_residue(p.Z, p.Z);
    lemma_small_mod(d as nat, m);
    assert(field_sub(d, 0) == d && field_add(d, 0) == d);
    let e = field_sub(total, difference);
    let h = field_add(difference, total);
    assert(sum.X == field_mul(d, e));
    assert(sum.Y == field_mul(d, h));
    assert(sum.Z == field_mul(d, d));
    // e is 2 X and h is 2 Y, and d is 2 Z
    lemma_sub_residue(total, difference);
    lemma_congruent_difference(total, p.Y + p.X, difference, p.Y - p.X);
    lemma_add_residue(difference, total);
    lemma_congruent_sum(difference, p.Y - p.X, total, p.Y + p.X);
    assert(congruent(e, 2 * p.X));
    assert(congruent(h, 2 * p.Y));
    assert(congruent(d, 2 * p.Z));
    // (d e) Z = (d d) X and (d h) Z = (d d) Y
    lemma_mul_residue(d, e);
    lemma_mul_residue(d, h);
    lemma_mul_residue(d, d);
    lemma_congruent_product(d, d, e, 2 * p.X);
    lemma_congruent_product(d, d, h, 2 * p.Y);
    lemma_congruent_product(d, d, d, 2 * p.Z);
    lemma_mul_congruent(field_mul(d, e), d * (2 * p.X), p.Z, p.Z);
    lemma_mul_congruent(p.Z, p.Z, p.X, p.X);
    lemma_mul_congruent(field_mul(d, d), d * (2 * p.Z), p.X, p.X);
    assert((d * (2 * p.X)) * p.Z == (d * (2 * p.Z)) * p.X) by (nonlinear_arith);
    lemma_mul_congruent(field_mul(d, h), d * (2 * p.Y), p.Z, p.Z);
    lemma_mul_congruent(field_mul(d, d), d * (2 * p.Z), p.Y, p.Y);
    assert((d * (2 * p.Y)) * p.Z == (d * (2 * p.Z)) * p.Y) by (nonlinear_arith);
    lemma_mul_commutes(p.Z, p.X);
    lemma_mul_commutes(p.Z, p.Y);
    lemma_mul_commutes(sum.Z, p.X);
    lemma_mul_commutes(sum.Z, p.Y);
    lemma_mul_commutes(p.Z, sum.X);
    lemma_mul_commutes(p.Z, sum.Y);
}

/// A point of the twisted curve plus its negative is the neutral element.
pub proof fn lemma_twisted_add_negative(p: Coordinates)
    requires
        are_residues(p),
        twisted_on_curve(p),
    ensures
        projectively_equal(
            extended_of(twisted_add(p, negate_coordinates(p))),
            identity_coordinates(),
        ),
{
    let m = field_modulus() as nat;
    let n = negate_coordinates(p);
    let sum = twisted_add(p, n);
    let a = field_mul(field_sub(n.Y, n.X), field_sub(p.Y, p.X));
    let b = field_mul(field_add(n.Y, n.X), field_add(p.Y, p.X));
    let c = field_mul(field_mul(n.T, p.T), 78164);
    let zz = field_mul(p.Z, p.Z);
    let d = field_add(zz, zz);
    let e = field_sub(b, a);
    let f = field_sub(d, c);
    let g = field_add(d, c);
    let h = field_add(a, b);
    assert(sum.X == field_mul(g, e) && sum.Y == field_mul(f, h) && sum.Z == field_mul(f, g));
    lemma_neg_residue(p.X);
    lemma_neg_residue(p.T);
    // Y - (-X) is Y + X and Y + (-X) is Y - X, so A and B agree and E is zero
    lemma_sub_residue(p.Y, n.X);
    lemma_congruent_difference(p.Y, p.Y, n.X, -p.X);
    lemma_add_residue(p.Y, p.X);
    assert(field_sub(n.Y, n.X) == field_add(p.Y, p.X));
    lemma_add_residue(p.Y, n.X);
    lemma_congruent_sum(p.Y, p.Y, n.X, -p.X);
    lemma_sub_residue(p.Y, p.X);
    assert(field_add(n.Y, n.X) == field_sub(p.Y, p.X));
    lemma_mul_commutes(field_add(p.Y, p.X), field_sub(p.Y, p.X));
    assert(a == b);
    lemma_mul_residue(field_add(p.Y, p.X), field_sub(p.Y, p.X));
    lemma_small_mod(a as nat, m);
    assert(e == 0);
    assert(g * 0 == 0);
    assert(sum.X == 0);
    // H = 2 A is twice Y Y - X X
    let xx = field_mul(p.X, p.X);
    let yy = field_mul(p.Y, p.Y);
    let difference = field_sub(yy, xx);
    lemma_congruent_product(field_add(p.Y, p.X), p.Y + p.X, field_sub(p.Y, p.X), p.Y - p.X);
    assert((p.Y + p.X) * (p.Y - p.X) == p.Y * p.Y - p.X * p.X) by (nonlinear_arith);
    lemma_mul_residue(p.X, p.X);
    lemma_mul_residue(p.Y, p.Y);
    lemma_sub_residue(yy, xx);
    lemma_congruent_difference(yy, p.Y * p.Y, xx, p.X * p.X);
    assert(congruent(a, difference));
    lemma_add_residue(a, b);
    lemma_congruent_sum(a, difference, b, difference);
    assert(congruent(h, 2 * difference));
    // C = 2 (1 - d) (-T) T is 2 (d - 1) T T, so G = D + C is twice
    // Z Z + (d - 1) T T, which the curve equation makes Y Y - X X
    let tt = field_mul(p.T, p.T);
    let ttk = field_mul(tt, twisted_d());
    lemma_mul_residue(n.T, p.T);
    lemma_congruent_product(n.T, -p.T, p.T, p.T);
    lemma_mul_residue(field_mul(n.T, p.T), 78164);
    lemma_congruent_product(field_mul(n.T, p.T), (-p.T) * p.T, 78164, 78164);
    lemma_mul_residue(p.T, p.T);
    lemma_mul_residue(tt, twisted_d());
    assert(((-p.T) * p.T) * 78164 == 2 * ((p.T * p.T) * twisted_d()) + (-2 * (p.T * p.T)) * field_modulus())
        by (nonlinear_arith)
        requires
            twisted_d() == field_modulus() - 39082,
    ;
    lemma_congruent_multiple(2 * ((p.T * p.T) * twisted_d()), -2 * (p.T * p.T));
    lemma_congruent_product(tt, p.T * p.T, twisted_d(), twisted_d());
    lemma_congruent_product(2, 2, ttk, (p.T * p.T) * twisted_d());
    assert(congruent(c, 2 * ttk));
    lemma_mul_residue(p.Z, p.Z);
    lemma_add_residue(zz, zz);
    lemma_add_residue(d, c);
    lemma_congruent_sum(d, 2 * zz, c, 2 * ttk);
    lemma_add_residue(zz, ttk);
    lemma_congruent_product(2, 2, field_add(zz, ttk), zz + ttk);
    assert(congruent(g, 2 * difference));
    // Y3 = F H and Z3 = F G agree
    lemma_mul_congruent(f, f, h, 2 * difference);
    lemma_mul_congruent(f, f, g, 2 * difference);
    assert(sum.Y == sum.Z);
    lemma_mul_residue(f, g);
    lemma_small_mod(sum.Z as nat, m);
    assert(sum.Z * 1 == sum.Z);
    assert(sum.Z * 0 == 0);
}

/// The integers that the dedicated addition formula of the twisted curve
/// takes apart: the cross term `X1 Y2 + Y1 X2`, the sum `Y1 Y2 + X1 X2`,
/// and `Z1 Z2 - d T1 T2` and `Z1 Z2 + d T1 T2`, each doubled.
proof fn lemma_twisted_factors(p: Coordinates, q: Coordinates)
    ensures
        ({
            let a = field_mul(field_sub(q.Y, q.X), field_sub(p.Y, p.X));
            let b = field_mul(field_add(q.Y, q.X), field_add(p.Y, p.X));
            let c = field_mul(field_mul(q.T, p.T), 78164);
            let d = field_add(field_mul(p.Z, q.Z), field_mul(p.Z, q.Z));
            let cross = p.X * q.Y + p.Y * q.X;
            let sum = p.Y * q.Y + p.X * q.X;
            let dtt = twisted_d() * p.T * q.T;
            let zz = p.Z * q.Z;
            &&& congruent(field_sub(b, a), 2 * cross)
            &&& congruent(field_add(a, b), 2 * sum)
            &&& congruent(field_sub(d, c), 2 * (zz + dtt))
            &&& congruent(field_add(d, c), 2 * (zz - dtt))
        }),
{
    let m = field_modulus();
    let a = field_mul(field_sub(q.Y, q.X), field_sub(p.Y, p.X));
    let b = field_mul(field_add(q.Y, q.X), field_add(p.Y, p.X));
    let c = field_mul(field_mul(q.T, p.T), 78164);
    let d = field_add(field_mul(p.Z, q.Z), field_mul(p.Z, q.Z));
    let ai = (q.Y - q.X) * (p.Y - p.X);
    let bi = (q.Y + q.X) * (p.Y + p.X);
    let cross = p.X * q.Y + p.Y * q.X;
    let sum = p.Y * q.Y + p.X * q.X;
    let dtt = twisted_d() * p.T * q.T;
    let zz = p.Z * q.Z;
    lemma_sub_residue(q.Y, q.X);
    lemma_sub_residue(p.Y, p.X);
    lemma_add_residue(q.Y, q.X);
    lemma_add_residue(p.Y, p.X);
    lemma_mul_residue(field_sub(q.Y, q.X), field_sub(p.Y, p.X));
    lemma_mul_residue(field_add(q.Y, q.X), field_add(p.Y, p.X));
    lemma_congruent_product(field_sub(q.Y, q.X), q.Y - q.X, field_sub(p.Y, p.X), p.Y - p.X);
    lemma_congruent_product(field_add(q.Y, q.X), q.Y + q.X, field_add(p.Y, p.X), p.Y + p.X);
    assert(congruent(a, ai));
    assert(congruent(b, bi));
    lemma_sub_residue(b, a);
    lemma_congruent_difference(b, bi, a, ai);
    assert(bi - ai == 2 * cross) by (nonlinear_arith)
        requires
            ai == (q.Y - q.X) * (p.Y - p.X),
            bi == (q.Y + q.X) * (p.Y + p.X),
            cross == p.X * q.Y + p.Y * q.X,
    ;
    lemma_add_residue(a, b);
    lemma_congruent_sum(a, ai, b, bi);
    assert(ai + bi == 2 * sum) by (nonlinear_arith)
        requires
            ai == (q.Y - q.X) * (p.Y - p.X),
            bi == (q.Y + q.X) * (p.Y + p.X),
            sum == p.Y * q.Y + p.X * q.X,
    ;
    // C = 2 (1 - d) T1 T2 is -2 (d - 1) T1 T2 up to a multiple of the
    // modulus
    let tt = field_mul(q.T, p.T);
    lemma_mul_residue(q.T, p.T);
    lemma_mul_residue(tt, 78164);
    lemma_congruent_product(tt, q.T * p.T, 78164, 78164);
    assert((q.T * p.T) * 78164 == -2 * dtt + (2 * (q.T * p.T)) * m) by (nonlinear_arith)
        requires
            dtt == (m - 39082) * p.T * q.T,
    ;
    lemma_congruent_multiple(-2 * dtt, 2 * (q.T * p.T));
    assert(congruent(c, -2 * dtt));
    lemma_mul_residue(p.Z, q.Z);
    lemma_add_residue(field_mul(p.Z, q.Z), field_mul(p.Z, q.Z));
    lemma_congruent_sum(field_mul(p.Z, q.Z), zz, field_mul(p.Z, q.Z), zz);
    assert(congruent(d, 2 * zz));
    lemma_sub_residue(d, c);
    lemma_congruent_difference(d, 2 * zz, c, -2 * dtt);
    lemma_add_residue(d, c);
    lemma_congruent_sum(d, 2 * zz, c, -2 * dtt);
}

/// The integers that the unified formula with `a = -1` takes apart.
proof fn lemma_unified_factors(p: Coordinates, q: Coordinates)
    ensures
        ({
            let a = field_modulus() - 1;
            let axx = field_mul(a, field_mul(p.X, q.X));
            let dtt = field_mul(field_mul(twisted_d(), p.T), q.T);
            let zz = field_mul(p.Z, q.Z);
            let yy = field_mul(p.Y, q.Y);
            let cross = field_add(field_mul(p.X, q.Y), field_mul(p.Y, q.X));
            &&& congruent(cross, p.X * q.Y + p.Y * q.X)
            &&& congruent(field_sub(yy, axx), p.Y * q.Y + p.X * q.X)
            &&& congruent(field_sub(zz, dtt), p.Z * q.Z - twisted_d() * p.T * q.T)
            &&& congruent(field_add(zz, dtt), p.Z * q.Z + twisted_d() * p.T * q.T)
        }),
{
    let m = field_modulus();
    let a = m - 1;
    let xx = field_mul(p.X, q.X);
    let axx = field_mul(a, xx);
    let dt = field_mul(twisted_d(), p.T);
    let dtt = field_mul(dt, q.T);
    let zz = field_mul(p.Z, q.Z);
    let yy = field_mul(p.Y, q.Y);
    lemma_mul_residue(p.X, q.Y);
    lemma_mul_residue(p.Y, q.X);
    lemma_add_residue(field_mul(p.X, q.Y), field_mul(p.Y, q.X));
    lemma_congruent_sum(field_mul(p.X, q.Y), p.X * q.Y, field_mul(p.Y, q.X), p.Y * q.X);
    lemma_mul_residue(p.X, q.X);
    lemma_mul_residue(a, xx);
    lemma_congruent_product(a, a, xx, p.X * q.X);
    assert(a * (p.X * q.X) == -(p.X * q.X) + (p.X * q.X) * m) by (nonlinear_arith)
        requires
            a == m - 1,
    ;
    lemma_congruent_multiple(-(p.X * q.X), p.X * q.X);
    assert(congruent(axx, -(p.X * q.X)));
    lemma_mul_residue(p.Y, q.Y);
    lemma_sub_residue(yy, axx);
    lemma_congruent_difference(yy, p.Y * q.Y, axx, -(p.X * q.X));
    lemma_mul_residue(twisted_d(), p.T);
    lemma_mul_residue(dt, q.T);
    lemma_congruent_product(dt, twisted_d() * p.T, q.T, q.T);
    lemma_mul_residue(p.Z, q.Z);
    lemma_sub_residue(zz, dtt);
    lemma_congruent_difference(zz, p.Z * q.Z, dtt, twisted_d() * p.T * q.T);
    lemma_add_residue(zz, dtt);
    lemma_congruent_sum(zz, p.Z * q.Z, dtt, twisted_d() * p.T * q.T);
}

/// If `u` is twice `ui` and `v` is twice `vi`, and `x` and `y` are `ui` and
/// `vi`, the product `u v` is four times the product `x y`.
proof fn lemma_four_times(u: int, v: int, x: int, y: int, ui: int, vi: int)
    requires
        congruent(u, 2 * ui),
        congruent(v, 2 * vi),
        congruent(x, ui),
        congruent(y, vi),
    ensures
        field_mul(u, v) == field_mul(4, field_mul(x, y)),
{
    lemma_mul_residue(u, v);
    lemma_mul_residue(x, y);
    lemma_congruent_product(u, 2 * ui, v, 2 * vi);
    lemma_congruent_product(x, ui, y, vi);
    lemma_congruent_product(4, 4, field_mul(x, y), ui * vi);
    lemma_mul_residue(4, field_mul(x, y));
    assert((2 * ui) * (2 * vi) == 4 * (ui * vi)) by (nonlinear_arith);
}

/// The dedicated addition formula of the twisted curve gives four times
/// each coordinate of the unified formula with `a = -1` and `d = -39082`,
/// and so the same affine point.
pub proof fn lemma_twisted_add_is_unified(p: Coordinates, q: Coordinates)
    ensures
        ({
            let dedicated = extended_of(twisted_add(p, q));
            let unified = unified_add(field_modulus() - 1, twisted_d(), p, q);
            &&& dedicated.X == field_mul(4, unified.X)
            &&& dedicated.Y == field_mul(4, unified.Y)
            &&& dedicated.Z == field_mul(4, unified.Z)
            &&& dedicated.T == field_mul(4, unified.T)
        }),
{
    let a = field_mul(field_sub(q.Y, q.X), field_sub(p.Y, p.X));
    let b = field_mul(field_add(q.Y, q.X), field_add(p.Y, p.X));
    let c = field_mul(field_mul(q.T, p.T), 78164);
    let d = field_add(field_mul(p.Z, q.Z), field_mul(p.Z, q.Z));
    let e = field_sub(b, a);
    let f = field_sub(d, c);
    let g = field_add(d, c);
    let h = field_add(a, b);
    let axx = field_mul(field_modulus() - 1, field_mul(p.X, q.X));
    let dtt = field_mul(field_mul(twisted_d(), p.T), q.T);
    let zz = field_mul(p.Z, q.Z);
    let yy = field_mul(p.Y, q.Y);
    let cross = field_add(field_mul(p.X, q.Y), field_mul(p.Y, q.X));
    let cross_i = p.X * q.Y + p.Y * q.X;
    let sum_i = p.Y * q.Y + p.X * q.X;
    let minus_i = p.Z * q.Z - twisted_d() * p.T * q.T;
    let plus_i = p.Z * q.Z + twisted_d() * p.T * q.T;
    lemma_twisted_factors(p, q);
    lemma_unified_factors(p, q);
    // X3 = G E is four times (cross)(zz - dtt)
    lemma_four_times(g, e, field_sub(zz, dtt), cross, minus_i, cross_i);
    lemma_mul_commutes(field_sub(zz, dtt), cross);
    // Y3 = F H is four times (zz + dtt)(yy - axx)
    lemma_four_times(f, h, field_add(zz, dtt), field_sub(yy, axx), plus_i, sum_i);
    lemma_mul_commutes(field_add(zz, dtt), field_sub(yy, axx));
    // Z3 = F G is four times (zz + dtt)(zz - dtt)
    lemma_four_times(f, g, field_add(zz, dtt), field_sub(zz, dtt), plus_i, minus_i);
    lemma_mul_commutes(field_add(zz, dtt), field_sub(zz, dtt));
    // T3 = H E is four times (yy - axx)(cross)
    lemma_four_times(h, e, field_sub(yy, axx), cross, sum_i, cross_i);
}

/// An affine point whose `x` squared, times `1 - d y^2`, is `1 - y^2`,
/// satisfies the equation of the Edwards curve, and so does the point with
/// `x` negated: what decompression recovers from a `y` lies on the curve.
pub proof fn lemma_recovered_point_on_curve(x: int, y: int)
    requires
        is_residue(x),
        is_residue(y),
        field_mul(field_mul(x, x), field_sub(1, field_mul(edwards_d(), field_mul(y, y)))) == field_sub(
            1,
            field_mul(y, y),
        ),
    ensures
        edwards_on_curve(Coordinates { X: x, Y: y, Z: 1, T: field_mul(x, y) }),
        edwards_on_curve(
            Coordinates { X: field_neg(x), Y: y, Z: 1, T: field_mul(field_neg(x), y) },
        ),
{
    lemma_neg_residue(x);
    lemma_neg_squares(x);
    lemma_point_on_curve(x, y);
    lemma_point_on_curve(field_neg(x), y);
}

/// The point that an encoding decompresses to lies on the Edwards curve.
pub proof fn lemma_decompressed_on_curve(bytes: Seq<u8>)
    requires
        decompresses(bytes),
    ensures
        edwards_on_curve(
            Coordinates {
                X: decompressed_x(bytes),
                Y: encoded_y(bytes),
                Z: 1,
                T: field_mul(decompressed_x(bytes), encoded_y(bytes)),
            },
        ),
{
    let y = encoded_y(bytes);
    let numerator = x_squared_numerator(y);
    let denominator = x_squared_denominator(y);
    let candidate = field_mul(field_inverse_root(field_mul(numerator, denominator)), numerator);
    vstd::arithmetic::div_mod::lemma_mod_bound(
        crate::field::element::bytes_value(bytes),
        field_modulus(),
    );
    lemma_sub_residue(1, field_mul(y, y));
    lemma_mul_residue(field_inverse_root(field_mul(numerator, denominator)), numerator);
    lemma_sqrt_ratio(numerator, denominator);
    lemma_recovered_point_on_curve(candidate, y);
}

/// Compressing what an encoding decompresses to gives the encoding back:
/// if `bytes` holds a canonical `y`, a sign byte that is 0 or `0x80`, and no
/// set sign for `x = 0`, and `again` is the compression of the point that
/// `bytes` decompresses to, then `again` is `bytes`.
pub proof fn lemma_recompressed(bytes: Seq<u8>, again: Seq<u8>)
    requires
        bytes.len() == 57,
        again.len() == 57,
        decompresses(bytes),
        crate::field::element::bytes_value(bytes) < field_modulus(),
        bytes[56] == 0x80 || bytes[56] == 0,
        decompressed_x(bytes) == 0 ==> bytes[56] == 0,
        crate::field::element::bytes_value(again) == field_mul(
            encoded_y(bytes),
            crate::field::power::field_invert(1),
        ),
        again[56] == if field_mul(decompressed_x(bytes), crate::field::power::field_invert(1)) % 2 == 1 {
            0x80u8
        } else {
            0u8
        },
    ensures
        again == bytes,
{
    let m = field_modulus();
    let y = encoded_y(bytes);
    let x = decompressed_x(bytes);
    let numerator = x_squared_numerator(y);
    let denominator = x_squared_denominator(y);
    let candidate = field_mul(field_inverse_root(field_mul(numerator, denominator)), numerator);
    // 1 / 1 is 1
    vstd::arithmetic::power::lemma1_pow(crate::field::power::inversion_exponent());
    assert(crate::field::power::field_invert(1) == 1);
    crate::field::element::lemma_bytes_value_bound(bytes);
    lemma_small_mod(crate::field::element::bytes_value(bytes) as nat, m as nat);
    assert(y * 1 == y);
    assert(field_mul(y, 1) == y);
    // the 56 bytes of y
    crate::field::element::lemma_bytes_value_prefix(bytes, bytes.subrange(0, 56));
    crate::field::element::lemma_bytes_value_prefix(again, again.subrange(0, 56));
    crate::field::element::lemma_bytes_value_injective(again.subrange(0, 56), bytes.subrange(0, 56));
    assert forall|i: int| 0 <= i < 56 implies again[i] == bytes[i] by {
        assert(again.subrange(0, 56)[i] == bytes.subrange(0, 56)[i]);
    }
    // the sign byte
    lemma_mul_residue(field_inverse_root(field_mul(numerator, denominator)), numerator);
    lemma_neg_residue(candidate);
    lemma_small_mod(x as nat, m as nat);
    assert(x * 1 == x);
    assert(field_mul(x, 1) == x);
    if (bytes[56] >= 128) != (candidate % 2 == 1) {
        if candidate == 0 {
            assert(x == 0);
        } else {
            vstd::arithmetic::div_mod::lemma_fundamental_div_mod_converse(-candidate, m, -1, m - candidate);
            assert(x == m - candidate);
        }
    }
    assert(again[56] == bytes[56]);
    assert(again =~= bytes);
}

/// A residue and its negative have the same square.
proof fn lemma_neg_squares(x: int)
    ensures
        field_mul(field_neg(x), field_neg(x)) == field_mul(x, x),
{
    lemma_neg_residue(x);
    lemma_mul_congruent(field_neg(x), -x, field_neg(x), -x);
    assert((-x) * (-x) == x * x) by (nonlinear_arith);
}

/// An affine point whose `x` squared, times `1 - d y^2`, is `1 - y^2`,
/// satisfies the equation of the Edwards curve in extended coordinates.
proof fn lemma_point_on_curve(x: int, y: int)
    requires
        is_residue(x),
        is_residue(y),
        field_mul(field_mul(x, x), field_sub(1, field_mul(edwards_d(), field_mul(y, y)))) == field_sub(
            1,
            field_mul(y, y),
        ),
    ensures
        edwards_on_curve(Coordinates { X: x, Y: y, Z: 1, T: field_mul(x, y) }),
{
    let m = field_modulus() as nat;
    let d = edwards_d();
    let t = field_mul(x, y);
    let xx = field_mul(x, x);
    let yy = field_mul(y, y);
    lemma_mul_residue(x, y);
    lemma_mul_residue(x, x);
    lemma_mul_residue(y, y);
    lemma_small_mod(t as nat, m);
    // X Y = Z T
    assert(1 * t == t);
    assert(field_mul(1, t) == t);
    // the equation, as integers: x x (1 - d y y) = 1 - y y
    let dyy = field_mul(d, yy);
    lemma_mul_residue(d, yy);
    lemma_congruent_product(d, d, yy, y * y);
    lemma_sub_residue(1, dyy);
    lemma_congruent_difference(1, 1, dyy, d * (y * y));
    lemma_sub_residue(1, yy);
    lemma_congruent_difference(1, 1, yy, y * y);
    lemma_mul_residue(xx, field_sub(1, dyy));
    lemma_congruent_product(xx, x * x, field_sub(1, dyy), 1 - d * (y * y));
    assert(congruent((x * x) * (1 - d * (y * y)), 1 - y * y));
    assert((x * x) * (1 - d * (y * y)) == x * x - ((x * y) * (x * y)) * d) by (nonlinear_arith);
    // y y + x x = 1 + (t t) d
    lemma_mul_residue(t, t);
    lemma_congruent_product(t, x * y, t, x * y);
    let ttd = field_mul(field_mul(t, t), d);
    lemma_mul_residue(field_mul(t, t), d);
    lemma_congruent_product(field_mul(t, t), (x * y) * (x * y), d, d);
    lemma_add_residue(yy, xx);
    lemma_congruent_sum(yy, y * y, xx, x * x);
    assert(1 * 1 == 1);
    lemma_mul_residue(1, 1);
    lemma_add_residue(field_mul(1, 1), ttd);
    lemma_congruent_sum(field_mul(1, 1), 1, ttd, ((x * y) * (x * y)) * d);
    let left = x * x - ((x * y) * (x * y)) * d;
    lemma_congruent_sum(left, 1 - y * y, y * y + ((x * y) * (x * y)) * d, y * y + ((x * y) * (x * y)) * d);
}

/// On the twisted curve, where `difference = zz + (d - 1) tt`, the factors
/// `F = 2 zz - 2 (1 - d) tt` and `G = 2 zz + 2 (1 - d) tt` of the addition
/// formula are twice `difference` and twice `W = 2 zz - difference`.
proof fn lemma_curve_factors(zz: int, tt: int, difference: int)
    requires
        difference == field_add(zz, field_mul(tt, twisted_d())),
    ensures
        congruent(field_sub(field_add(zz, zz), field_mul(tt, 78164)), 2 * difference),
        congruent(
            field_add(field_add(zz, zz), field_mul(tt, 78164)),
            2 * field_sub(field_add(zz, zz), difference),
        ),
{
    let m = field_modulus();
    let k = tt * twisted_d();
    let big = tt * 78164;
    let ttk = field_mul(tt, twisted_d());
    let c = field_mul(tt, 78164);
    let d = field_add(zz, zz);
    lemma_mul_residue(tt, twisted_d());
    lemma_mul_residue(tt, 78164);
    lemma_add_residue(zz, zz);
    lemma_add_residue(zz, ttk);
    // (1 - d) tt is - (d - 1) tt up to a multiple of the modulus
    assert(big == -2 * k + (2 * tt) * m) by (nonlinear_arith)
        requires
            k == tt * (m - 39082),
            big == tt * 78164,
    ;
    lemma_congruent_multiple(-2 * k, 2 * tt);
    assert(congruent(c, -2 * k));
    // difference is zz + k
    lemma_congruent_sum(zz, zz, ttk, k);
    assert(congruent(difference, zz + k));
    lemma_congruent_product(2, 2, difference, zz + k);
    // G = d + c is 2 zz - 2 k, and W = d - difference is zz - k
    lemma_add_residue(d, c);
    lemma_congruent_sum(d, zz + zz, c, -2 * k);
    let w = field_sub(d, difference);
    lemma_sub_residue(d, difference);
    lemma_congruent_difference(d, zz + zz, difference, zz + k);
    assert(congruent(w, zz - k));
    lemma_congruent_product(2, 2, w, zz - k);
    // F = d - c is 2 zz + 2 k
    lemma_sub_residue(d, c);
    lemma_congruent_difference(d, zz + zz, c, -2 * k);
}

/// The difference `(y + x)^2 - (y - x)^2` is twice
/// `(y + x)^2 - (x^2 + y^2)`, and the sum `(y - x)^2 + (y + x)^2` is twice
/// `x^2 + y^2`.
proof fn lemma_cross_terms(x: int, y: int)
    ensures
        congruent(
            field_sub(
                field_mul(field_add(y, x), field_add(y, x)),
                field_mul(field_sub(y, x), field_sub(y, x)),
            ),
            2 * field_sub(
                field_mul(field_add(y, x), field_add(y, x)),
                field_add(field_mul(x, x), field_mul(y, y)),
            ),
        ),
        congruent(
            field_add(
                field_mul(field_sub(y, x), field_sub(y, x)),
                field_mul(field_add(y, x), field_add(y, x)),
            ),
            2 * field_add(field_mul(x, x), field_mul(y, y)),
        ),
{
    let a = field_mul(field_sub(y, x), field_sub(y, x));
    let b = field_mul(field_add(y, x), field_add(y, x));
    let t2 = field_add(field_mul(x, x), field_mul(y, y));
    let t1 = field_sub(b, t2);
    lemma_sub_residue(y, x);
    lemma_add_residue(y, x);
    lemma_mul_residue(field_sub(y, x), field_sub(y, x));
    lemma_mul_residue(field_add(y, x), field_add(y, x));
    lemma_congruent_product(field_sub(y, x), y - x, field_sub(y, x), y - x);
    lemma_congruent_product(field_add(y, x), y + x, field_add(y, x), y + x);
    let ai = (y - x) * (y - x);
    let bi = (y + x) * (y + x);
    assert(congruent(a, ai));
    assert(congruent(b, bi));
    lemma_mul_residue(x, x);
    lemma_mul_residue(y, y);
    lemma_add_residue(field_mul(x, x), field_mul(y, y));
    lemma_congruent_sum(field_mul(x, x), x * x, field_mul(y, y), y * y);
    let ti = x * x + y * y;
    assert(congruent(t2, ti));
    lemma_sub_residue(b, a);
    lemma_congruent_difference(b, bi, a, ai);
    lemma_sub_residue(b, t2);
    lemma_congruent_difference(b, bi, t2, ti);
    lemma_congruent_product(2, 2, t1, bi - ti);
    assert(bi - ai == 2 * (bi - ti)) by (nonlinear_arith)
        requires
            ai == (y - x) * (y - x),
            bi == (y + x) * (y + x),
            ti == x * x + y * y,
    ;
    lemma_add_residue(a, b);
    lemma_congruent_sum(a, ai, b, bi);
    lemma_congruent_product(2, 2, t2, ti);
    assert(ai + bi == 2 * ti) by (nonlinear_arith)
        requires
            ai == (y - x) * (y - x),
            bi == (y + x) * (y + x),
            ti == x * x + y * y,
    ;
}

/// If `n1` is twice `m1` and `n2` is twice `m2`, then
/// `(u m1)(n2 n3) = (u m2)(n3 n1)` for every `u` and `n3`.
proof fn lemma_same_ratio(u: int, m1: int, m2: int, n1: int, n2: int, n3: int)
    requires
        congruent(n1, 2 * m1),
        congruent(n2, 2 * m2),
    ensures
        field_mul(field_mul(u, m1), field_mul(n2, n3)) == field_mul(
            field_mul(u, m2),
            field_mul(n3, n1),
        ),
{
    lemma_mul_residue(u, m1);
    lemma_mul_residue(u, m2);
    lemma_mul_residue(n2, n3);
    lemma_mul_residue(n3, n1);
    lemma_congruent_product(n2, 2 * m2, n3, n3);
    lemma_congruent_product(n3, n3, n1, 2 * m1);
    lemma_mul_congruent(field_mul(u, m1), u * m1, field_mul(n2, n3), (2 * m2) * n3);
    lemma_mul_congruent(field_mul(u, m2), u * m2, field_mul(n3, n1), n3 * (2 * m1));
    assert((u * m1) * ((2 * m2) * n3) == (u * m2) * (n3 * (2 * m1))) by (nonlinear_arith);
}

/// The dedicated doubling formula of the twisted curve and its dedicated
/// addition formula, applied to a point of the curve and itself, give the
/// same affine point.
pub proof fn lemma_twisted_double_is_add(p: Coordinates)
    requires
        twisted_on_curve(p),
    ensures
        projectively_equal(
            extended_of(
                twisted_double(ExtensibleCoordinates { X: p.X, Y: p.Y, Z: p.Z, T1: p.T, T2: 1 }),
            ),
            extended_of(twisted_add(p, p)),
        ),
{
    let doubled = twisted_double(ExtensibleCoordinates { X: p.X, Y: p.Y, Z: p.Z, T1: p.T, T2: 1 });
    let added = twisted_add(p, p);
    let x = p.X;
    let y = p.Y;
    let zz = field_mul(p.Z, p.Z);
    let tt = field_mul(p.T, p.T);
    let xx = field_mul(x, x);
    let yy = field_mul(y, y);
    let difference = field_sub(yy, xx);
    let t2 = field_add(xx, yy);
    let b = field_mul(field_add(y, x), field_add(y, x));
    let a = field_mul(field_sub(y, x), field_sub(y, x));
    let t1 = field_sub(b, t2);
    let d = field_add(zz, zz);
    let c = field_mul(tt, 78164);
    let w = field_sub(d, difference);
    let e = field_sub(b, a);
    let f = field_sub(d, c);
    let g = field_add(d, c);
    let h = field_add(a, b);
    lemma_curve_factors(zz, tt, difference);
    lemma_cross_terms(x, y);
    assert(doubled.X == field_mul(w, t1));
    assert(doubled.Y == field_mul(difference, t2));
    assert(doubled.Z == field_mul(w, difference));
    assert(added.X == field_mul(g, e));
    assert(added.Y == field_mul(f, h));
    assert(added.Z == field_mul(f, g));
    // X: (w t1)(f g) = (w difference)(g e), with e twice t1 and f twice
    // difference
    lemma_same_ratio(w, t1, difference, e, f, g);
    // Y: (difference t2)(f g) = (difference w)(f h), with h twice t2 and g
    // twice w
    lemma_same_ratio(difference, t2, w, h, g, f);
    lemma_mul_commutes(f, g);
    lemma_mul_commutes(w, difference);
    lemma_mul_commutes(f, h);
}

} // verus!
