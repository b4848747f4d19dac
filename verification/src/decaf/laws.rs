//! What decodes lies on the curve.

use crate::curve::group_law::{twisted_d, twisted_on_curve, Coordinates};
use crate::decaf::decaf::{decaf_decodes, decaf_decoding, decaf_radicand};
use crate::field::algebra::{
    congruent,
    lemma_add_residue,
    lemma_congruent_difference,
    lemma_congruent_multiple,
    lemma_congruent_product,
    lemma_congruent_sum,
    lemma_mul_congruent,
    lemma_mul_residue,
    lemma_neg_congruent,
    lemma_neg_residue,
    lemma_sub_residue,
};
use crate::field::element::{bytes_value, field_add, field_modulus, field_mul, field_neg, field_sub};
use crate::field::power::field_inverse_root;
use vstd::arithmetic::div_mod::lemma_small_mod;
use vstd::prelude::*;

verus! {

/// With `u1 = 1 - t`, `u2 = 1 + t` and `v = -4 d t + u1^2`, the product
/// `u1^2 u2^2` is `v u1^2 + 4 t v + 4 d t u2^2`: the equation of the twisted
/// curve, cleared of its denominators.
proof fn lemma_cleared_equation(t: int, u1s: int, u2s: int, v: int)
    requires
        u1s == (1 - t) * (1 - t),
        u2s == (1 + t) * (1 + t),
        v == t * 156328 + u1s,
    ensures
        u1s * u2s == v * u1s + 4 * t * v + 4 * (-39082) * t * u2s,
{
    assert(u1s * u2s == v * u1s + 4 * t * v + 4 * (-39082) * t * u2s) by (nonlinear_arith)
        requires
            u1s == (1 - t) * (1 - t),
            u2s == (1 + t) * (1 + t),
            v == t * 156328 + u1s,
    ;
}

/// The integer `1 - s^2`.
pub open spec fn first_factor(s: int) -> int {
    1 - s * s
}

/// The integer `1 + s^2`.
pub open spec fn second_factor(s: int) -> int {
    1 + s * s
}

/// The integer `-4 (d - 1) s^2 + (1 - s^2)^2`.
pub open spec fn third_factor(s: int) -> int {
    (s * s) * 156328 + first_factor(s) * first_factor(s)
}

/// The integer that the radicand of the decoding is congruent to.
pub open spec fn radicand_integer(s: int) -> int {
    third_factor(s) * (first_factor(s) * first_factor(s))
}

/// The integer that the decoded `x` is congruent to, up to its sign, with
/// `i` the inverse square root.
pub open spec fn decoded_x_integer(s: int, i: int) -> int {
    (((2 * s) * (i * first_factor(s))) * i) * third_factor(s)
}

/// The integer that the decoded `y` is congruent to, with `i` the inverse
/// square root.
pub open spec fn decoded_y_integer(s: int, i: int) -> int {
    (i * first_factor(s)) * second_factor(s)
}

/// The square of a product of four factors is the product of their squares.
proof fn lemma_square_of_product(a: int, b: int, c: int, d: int)
    ensures
        (((a * b) * c) * d) * (((a * b) * c) * d) == ((a * a) * (b * b)) * ((c * c) * (d * d)),
{
    let ab = a * b;
    let abc = ab * c;
    assert(ab * ab == (a * a) * (b * b)) by (nonlinear_arith)
        requires
            ab == a * b,
    ;
    assert(abc * abc == (ab * ab) * (c * c)) by (nonlinear_arith)
        requires
            abc == ab * c,
    ;
    assert((abc * d) * (abc * d) == (abc * abc) * (d * d)) by (nonlinear_arith);
    assert(((ab * ab) * (c * c)) * (d * d) == (ab * ab) * ((c * c) * (d * d))) by (nonlinear_arith);
}

/// The squares of the decoded coordinates, as integers: with `r = j v u1s`,
/// `x^2 = (4 t (j v)) r` and `y^2 = r + 4 t (j v) + 4 d t (u2s j)`, and
/// `x^2 y^2 = ((4 t (u2s j)) r) r`.
proof fn lemma_decoded_squares(s: int, i: int)
    ensures
        ({
            let t = s * s;
            let j = i * i;
            let u2 = second_factor(s);
            let v = third_factor(s);
            let r = j * radicand_integer(s);
            let x = decoded_x_integer(s, i);
            let y = decoded_y_integer(s, i);
            &&& x * x == (4 * t * (j * v)) * r
            &&& y * y == r + 4 * t * (j * v) + (-39082) * (4 * t * ((u2 * u2) * j))
            &&& (x * x) * (y * y) == ((4 * t * ((u2 * u2) * j)) * r) * r
        }),
{
    let t = s * s;
    let j = i * i;
    let u1 = first_factor(s);
    let u2 = second_factor(s);
    let v = third_factor(s);
    let u1s = u1 * u1;
    let u2s = u2 * u2;
    let r = j * (v * u1s);
    let x = decoded_x_integer(s, i);
    let y = decoded_y_integer(s, i);
    let a1 = i * u1;
    lemma_square_of_product(2 * s, a1, i, v);
    assert((2 * s) * (2 * s) == 4 * t) by (nonlinear_arith)
        requires
            t == s * s,
    ;
    assert(a1 * a1 == j * u1s) by (nonlinear_arith)
        requires
            a1 == i * u1,
            j == i * i,
            u1s == u1 * u1,
    ;
    let vv = v * v;
    assert(x * x == ((4 * t) * (j * u1s)) * (j * vv));
    assert(((4 * t) * (j * u1s)) * (j * vv) == (4 * t * (j * v)) * r) by (nonlinear_arith)
        requires
            vv == v * v,
            r == j * (v * u1s),
    ;
    assert(y * y == j * (u1s * u2s)) by (nonlinear_arith)
        requires
            j == i * i,
            u1s == u1 * u1,
            u2s == u2 * u2,
            y == (i * u1) * u2,
    ;
    lemma_cleared_equation(t, u1s, u2s, v);
    let q = u1s * u2s;
    let first = v * u1s;
    let second = 4 * t * v;
    let third = 4 * (-39082) * t * u2s;
    assert(j * q == j * first + j * second + j * third) by (nonlinear_arith)
        requires
            q == first + second + third,
    ;
    assert(j * second == 4 * t * (j * v)) by (nonlinear_arith)
        requires
            second == 4 * t * v,
    ;
    assert(j * third == (-39082) * (4 * t * (u2s * j))) by (nonlinear_arith)
        requires
            third == 4 * (-39082) * t * u2s,
    ;
    assert(j * (u1s * u2s) == r + 4 * t * (j * v) + (-39082) * (4 * t * (u2s * j)));
    let jv = j * v;
    let ju = j * u1s;
    assert(((4 * t * jv) * r) * (j * (u1s * u2s)) == ((4 * t * (u2s * j)) * r) * (jv * u1s))
        by (nonlinear_arith)
        requires
            jv == j * v,
    ;
    assert(jv * u1s == r) by (nonlinear_arith)
        requires
            jv == j * v,
            r == j * (v * u1s),
    ;
}

/// Where `r` is 1 modulo `p`, the squares of the decoded coordinates
/// satisfy the equation of the twisted curve modulo `p`.
proof fn lemma_equation_from_squares(xx: int, yy: int, a: int, b: int, r: int)
    requires
        congruent(r, 1),
        xx == a * r,
        yy == r + a + (-39082) * b,
        xx * yy == (b * r) * r,
    ensures
        congruent(yy - xx, 1 + (xx * yy) * (-39082)),
{
    // x^2 is a, y^2 is 1 + a + d b, and x^2 y^2 is b, all modulo p
    lemma_congruent_product(a, a, r, 1);
    assert(a * 1 == a);
    assert(congruent(xx, a));
    lemma_congruent_sum(r, 1, a + (-39082) * b, a + (-39082) * b);
    assert(congruent(yy, 1 + a + (-39082) * b));
    lemma_congruent_product(b, b, r, 1);
    assert(b * 1 == b);
    lemma_congruent_product(b * r, b, r, 1);
    assert(congruent(xx * yy, b));
    lemma_congruent_difference(yy, 1 + a + (-39082) * b, xx, a);
    lemma_congruent_product(xx * yy, b, -39082, -39082);
    lemma_congruent_sum(1, 1, (xx * yy) * (-39082), b * (-39082));
    assert(b * (-39082) == (-39082) * b) by (nonlinear_arith);
}

/// The residues of the decoding are congruent to their integers.
proof fn lemma_decoding_integers(s: int)
    ensures
        ({
            let i = field_inverse_root(decaf_radicand(s));
            let ss = field_mul(s, s);
            let u1 = field_sub(1, ss);
            let u2 = field_add(1, ss);
            let v = field_add(field_mul(ss, 156328), field_mul(u1, u1));
            let dx = field_mul(i, u1);
            let dxs = field_mul(field_add(s, s), dx);
            &&& congruent(decaf_radicand(s), radicand_integer(s))
            &&& congruent(field_mul(field_mul(dxs, i), v), decoded_x_integer(s, i))
            &&& congruent(field_mul(dx, u2), decoded_y_integer(s, i))
        }),
{
    let ss = field_mul(s, s);
    let u1 = field_sub(1, ss);
    let u2 = field_add(1, ss);
    let u1s = field_mul(u1, u1);
    let v = field_add(field_mul(ss, 156328), u1s);
    let radicand = decaf_radicand(s);
    let i = field_inverse_root(radicand);
    let dx = field_mul(i, u1);
    let dxs = field_mul(field_add(s, s), dx);
    let t = s * s;
    let u1i = first_factor(s);
    let u2i = second_factor(s);
    let vi = third_factor(s);
    lemma_mul_residue(s, s);
    lemma_sub_residue(1, ss);
    lemma_congruent_difference(1, 1, ss, t);
    lemma_add_residue(1, ss);
    lemma_congruent_sum(1, 1, ss, t);
    lemma_mul_residue(u1, u1);
    lemma_congruent_product(u1, u1i, u1, u1i);
    lemma_mul_residue(ss, 156328);
    lemma_congruent_product(ss, t, 156328, 156328);
    lemma_add_residue(field_mul(ss, 156328), u1s);
    lemma_congruent_sum(field_mul(ss, 156328), t * 156328, u1s, u1i * u1i);
    assert(congruent(v, vi));
    lemma_mul_residue(v, u1s);
    lemma_congruent_product(v, vi, u1s, u1i * u1i);
    lemma_mul_residue(i, u1);
    lemma_congruent_product(i, i, u1, u1i);
    lemma_add_residue(s, s);
    lemma_mul_residue(field_add(s, s), dx);
    lemma_congruent_product(field_add(s, s), 2 * s, dx, i * u1i);
    lemma_mul_residue(dxs, i);
    lemma_congruent_product(dxs, (2 * s) * (i * u1i), i, i);
    lemma_mul_residue(field_mul(dxs, i), v);
    lemma_congruent_product(field_mul(dxs, i), ((2 * s) * (i * u1i)) * i, v, vi);
    lemma_mul_residue(dx, u2);
    lemma_congruent_product(dx, i * u1i, u2, u2i);
}

/// Coordinates `(X, Y, 1, X Y)` whose squares satisfy
/// `Y^2 - X^2 = 1 + (d - 1) X^2 Y^2` modulo `p` lie on the twisted curve.
proof fn lemma_on_curve_from_squares(x: int, y: int, xi: int, yi: int)
    requires
        congruent(x * x, xi * xi),
        congruent(y, yi),
        congruent(yi * yi - xi * xi, 1 + ((xi * xi) * (yi * yi)) * (-39082)),
    ensures
        twisted_on_curve(Coordinates { X: x, Y: y, Z: 1, T: field_mul(x, y) }),
{
    let m = field_modulus();
    let tt = field_mul(x, y);
    let xx = field_mul(x, x);
    let yy = field_mul(y, y);
    lemma_mul_residue(x, y);
    lemma_small_mod(tt as nat, m as nat);
    assert(1 * tt == tt);
    assert(field_mul(1, tt) == tt);
    lemma_mul_residue(x, x);
    lemma_mul_residue(y, y);
    lemma_congruent_product(y, yi, y, yi);
    assert(congruent(xx, xi * xi));
    assert(congruent(yy, yi * yi));
    // T T is X X Y Y
    lemma_mul_residue(tt, tt);
    lemma_congruent_product(tt, x * y, tt, x * y);
    assert((x * y) * (x * y) == (x * x) * (y * y)) by (nonlinear_arith);
    lemma_congruent_product(x * x, xi * xi, y * y, yi * yi);
    lemma_sub_residue(yy, xx);
    lemma_congruent_difference(yy, yi * yi, xx, xi * xi);
    let ttd = field_mul(field_mul(tt, tt), twisted_d());
    lemma_mul_residue(field_mul(tt, tt), twisted_d());
    lemma_congruent_multiple(-39082, 1);
    assert(congruent(twisted_d(), -39082));
    lemma_congruent_product(field_mul(tt, tt), (xi * xi) * (yi * yi), twisted_d(), -39082);
    assert(1 * 1 == 1);
    lemma_mul_residue(1, 1);
    lemma_add_residue(field_mul(1, 1), ttd);
    lemma_congruent_sum(field_mul(1, 1), 1, ttd, ((xi * xi) * (yi * yi)) * (-39082));
}

/// A residue that is a given residue or its negative has the square of
/// that residue.
proof fn lemma_sign_keeps_square(x: int, unsigned: int, xi: int)
    requires
        congruent(unsigned, xi),
        x == unsigned || x == field_neg(unsigned),
    ensures
        congruent(x * x, xi * xi),
{
    lemma_congruent_product(unsigned, xi, unsigned, xi);
    if x != unsigned {
        lemma_neg_residue(unsigned);
        lemma_congruent_product(x, -unsigned, x, -unsigned);
        assert((-unsigned) * (-unsigned) == unsigned * unsigned) by (nonlinear_arith);
    }
}

/// Where the inverse square root `i` of the radicand is one, the squares of
/// the integers of the decoded coordinates satisfy the equation of the
/// twisted curve modulo `p`.
proof fn lemma_decoded_equation(s: int, i: int)
    requires
        field_mul(field_mul(i, i), decaf_radicand(s)) == 1,
    ensures
        ({
            let xi = decoded_x_integer(s, i);
            let yi = decoded_y_integer(s, i);
            congruent(yi * yi - xi * xi, 1 + ((xi * xi) * (yi * yi)) * (-39082))
        }),
{
    let radicand = decaf_radicand(s);
    let j = i * i;
    let r = j * radicand_integer(s);
    let xi = decoded_x_integer(s, i);
    let yi = decoded_y_integer(s, i);
    let t = s * s;
    let u2 = second_factor(s);
    lemma_decoding_integers(s);
    lemma_mul_residue(i, i);
    lemma_mul_residue(field_mul(i, i), radicand);
    lemma_congruent_product(field_mul(i, i), j, radicand, radicand_integer(s));
    lemma_small_mod(1, field_modulus() as nat);
    assert(congruent(r, 1));
    lemma_decoded_squares(s, i);
    lemma_equation_from_squares(
        xi * xi,
        yi * yi,
        4 * t * (j * third_factor(s)),
        4 * t * ((u2 * u2) * j),
        r,
    );
}

/// The point that an encoding decodes to lies on the twisted Edwards
/// curve.
pub proof fn lemma_decoded_on_curve(bytes: Seq<u8>)
    requires
        decaf_decodes(bytes),
    ensures
        twisted_on_curve(decaf_decoding(bytes_value(bytes))),
{
    let s = bytes_value(bytes);
    let i = field_inverse_root(decaf_radicand(s));
    let ss = field_mul(s, s);
    let u1 = field_sub(1, ss);
    let u2 = field_add(1, ss);
    let v = field_add(field_mul(ss, 156328), field_mul(u1, u1));
    let dx = field_mul(i, u1);
    let dxs = field_mul(field_add(s, s), dx);
    let unsigned = field_mul(field_mul(dxs, i), v);
    let point = decaf_decoding(s);
    lemma_decoding_integers(s);
    lemma_decoded_equation(s, i);
    lemma_sign_keeps_square(point.X, unsigned, decoded_x_integer(s, i));
    lemma_on_curve_from_squares(point.X, point.Y, decoded_x_integer(s, i), decoded_y_integer(s, i));
}

} // verus!
