//! Multiplication in the field by Karatsuba's method. With `phi = 2^224` an
//! element is `a0 + a1 * phi`, and `phi^2 = phi + 1` modulo `p`, so that
//!
//! ```text
//! (a0 + a1 phi)(b0 + b1 phi) = (a0 b0 + a1 b1) + ((a0 + a1)(b0 + b1) - a0 b0) phi
//! ```
//!
//! which takes three products of half the size.

use crate::field::element::{field_modulus, field_mul, limbs_value, FieldElement28, MASK};
use vstd::prelude::*;

verus! {

/// The integer that eight radix-`2^28` limbs stand for.
pub open spec fn half_value(x: [u64; 8]) -> int {
    x[0] as int
    + x[1] * 0x10000000int
    + x[2] * 0x100000000000000int
    + x[3] * 0x1000000000000000000000int
    + x[4] * 0x10000000000000000000000000000int
    + x[5] * 0x100000000000000000000000000000000000int
    + x[6] * 0x1000000000000000000000000000000000000000000int
    + x[7] * 0x10000000000000000000000000000000000000000000000000int
}

/// The integer that eight wide radix-`2^28` coefficients stand for.
pub open spec fn wide_value(x: [u128; 8]) -> int {
    x[0] as int
    + x[1] * 0x10000000int
    + x[2] * 0x100000000000000int
    + x[3] * 0x1000000000000000000000int
    + x[4] * 0x10000000000000000000000000000int
    + x[5] * 0x100000000000000000000000000000000000int
    + x[6] * 0x1000000000000000000000000000000000000000000int
    + x[7] * 0x10000000000000000000000000000000000000000000000000int
}

/// The integer that fifteen wide radix-`2^28` coefficients stand for.
pub open spec fn product_value(x: [u128; 15]) -> int {
    x[0] as int
    + x[1] * 0x10000000int
    + x[2] * 0x100000000000000int
    + x[3] * 0x1000000000000000000000int
    + x[4] * 0x10000000000000000000000000000int
    + x[5] * 0x100000000000000000000000000000000000int
    + x[6] * 0x1000000000000000000000000000000000000000000int
    + x[7] * 0x10000000000000000000000000000000000000000000000000int
    + x[8] * 0x100000000000000000000000000000000000000000000000000000000int
    + x[9] * 0x1000000000000000000000000000000000000000000000000000000000000000int
    + x[10] * 0x10000000000000000000000000000000000000000000000000000000000000000000000int
    + x[11] * 0x100000000000000000000000000000000000000000000000000000000000000000000000000000int
    + x[12] * 0x1000000000000000000000000000000000000000000000000000000000000000000000000000000000000int
    + x[13] * 0x10000000000000000000000000000000000000000000000000000000000000000000000000000000000000000000int
    + x[14] * 0x100000000000000000000000000000000000000000000000000000000000000000000000000000000000000000000000000int
}

/// The part of coefficient `k` of the product of two polynomials of eight
/// coefficients that the first `n` coefficients of `x` give.
pub open spec fn coefficient_upto(x: [u64; 8], y: [u64; 8], k: int, n: int) -> int
    decreases n,
{
    if n <= 0 {
        0
    } else {
        coefficient_upto(x, y, k, n - 1) + if 0 <= k - (n - 1) < 8 {
            x[n - 1] * y[k - (n - 1)]
        } else {
            0
        }
    }
}

/// Coefficient `k` of the product of two polynomials of eight coefficients.
pub open spec fn coefficient(x: [u64; 8], y: [u64; 8], k: int) -> int {
    coefficient_upto(x, y, k, 8)
}

/// The product of two numbers below `2^33` is below `2^66`.
proof fn lemma_product_bound(a: u64, b: u64)
    requires
        a <= 0x1_ffff_ffff,
        b <= 0x1_ffff_ffff,
    ensures
        0 <= a * b <= 0x3_ffff_ffff_ffff_ffff,
{
    assert(0 <= a * b <= 0x3_ffff_ffff_ffff_ffff) by (nonlinear_arith)
        requires
            a <= 0x1_ffff_ffff,
            b <= 0x1_ffff_ffff,
    ;
}

/// A coefficient of a product grows with the coefficients of the factors.
proof fn lemma_coefficient_monotone(
    x: [u64; 8],
    y: [u64; 8],
    xs: [u64; 8],
    ys: [u64; 8],
    k: int,
    n: int,
)
    requires
        0 <= n <= 8,
        forall|i: int| 0 <= i < 8 ==> x[i] <= xs[i] && y[i] <= ys[i],
    ensures
        0 <= coefficient_upto(x, y, k, n) <= coefficient_upto(xs, ys, k, n),
    decreases n,
{
    if n > 0 {
        lemma_coefficient_monotone(x, y, xs, ys, k, n - 1);
        if 0 <= k - (n - 1) < 8 {
            let a = x[n - 1] as int;
            let b = y[k - (n - 1)] as int;
            let a2 = xs[n - 1] as int;
            let b2 = ys[k - (n - 1)] as int;
            assert(0 <= a * b <= a2 * b2) by (nonlinear_arith)
                requires
                    0 <= a <= a2,
                    0 <= b <= b2,
            ;
        }
    }
}

/// A number times a sum of eight weighted terms, term by term.
proof fn lemma_distribute(a: int, y: [int; 8])
    ensures
        a * (y[0] + y[1] * 0x10000000int + y[2] * 0x100000000000000int + y[3] * 0x1000000000000000000000int + y[4] * 0x10000000000000000000000000000int + y[5] * 0x100000000000000000000000000000000000int + y[6] * 0x1000000000000000000000000000000000000000000int + y[7] * 0x10000000000000000000000000000000000000000000000000int)
            == (a * y[0]) + (a * y[1]) * 0x10000000int + (a * y[2]) * 0x100000000000000int + (a * y[3]) * 0x1000000000000000000000int + (a * y[4]) * 0x10000000000000000000000000000int + (a * y[5]) * 0x100000000000000000000000000000000000int + (a * y[6]) * 0x1000000000000000000000000000000000000000000int + (a * y[7]) * 0x10000000000000000000000000000000000000000000000000int,
{
    let y0 = y[0];
    let y1 = y[1];
    let y2 = y[2];
    let y3 = y[3];
    let y4 = y[4];
    let y5 = y[5];
    let y6 = y[6];
    let y7 = y[7];
    assert(a * (y0 + y1 * 0x10000000int + y2 * 0x100000000000000int + y3 * 0x1000000000000000000000int + y4 * 0x10000000000000000000000000000int + y5 * 0x100000000000000000000000000000000000int + y6 * 0x1000000000000000000000000000000000000000000int + y7 * 0x10000000000000000000000000000000000000000000000000int)
        == (a * y0) + (a * y1) * 0x10000000int + (a * y2) * 0x100000000000000int + (a * y3) * 0x1000000000000000000000int + (a * y4) * 0x10000000000000000000000000000int + (a * y5) * 0x100000000000000000000000000000000000int + (a * y6) * 0x1000000000000000000000000000000000000000000int + (a * y7) * 0x10000000000000000000000000000000000000000000000000int) by (nonlinear_arith);
}

/// A coefficient of a product, term by term.
proof fn lemma_coefficient_terms(x: [u64; 8], y: [u64; 8], k: int)
    ensures
        coefficient(x, y, k) == (if 0 <= k - 0 < 8 { x[0] * y[k - 0] } else { 0 }) + (if 0 <= k - 1 < 8 { x[1] * y[k - 1] } else { 0 }) + (if 0 <= k - 2 < 8 { x[2] * y[k - 2] } else { 0 }) + (if 0 <= k - 3 < 8 { x[3] * y[k - 3] } else { 0 }) + (if 0 <= k - 4 < 8 { x[4] * y[k - 4] } else { 0 }) + (if 0 <= k - 5 < 8 { x[5] * y[k - 5] } else { 0 }) + (if 0 <= k - 6 < 8 { x[6] * y[k - 6] } else { 0 }) + (if 0 <= k - 7 < 8 { x[7] * y[k - 7] } else { 0 }),
{
    reveal_with_fuel(coefficient_upto, 9);
}

/// The coefficients of the product of two polynomials stand for the product
/// of the integers that the polynomials stand for.
proof fn lemma_product_value(x: [u64; 8], y: [u64; 8], p: [u128; 15])
    requires
        forall|k: int| 0 <= k < 15 ==> #[trigger] p[k] == coefficient(x, y, k),
    ensures
        product_value(p) == half_value(x) * half_value(y),
{
    let yv = [y[0] as int, y[1] as int, y[2] as int, y[3] as int, y[4] as int, y[5] as int, y[6] as int, y[7] as int];
    let xv = [x[0] as int, x[1] as int, x[2] as int, x[3] as int, x[4] as int, x[5] as int, x[6] as int, x[7] as int];
    let hx = half_value(x);
    let hy = half_value(y);
    lemma_distribute(x[0] as int, yv);
    let row0 = x[0] * hy;
    lemma_distribute(x[1] as int, yv);
    let row1 = x[1] * hy;
    lemma_distribute(x[2] as int, yv);
    let row2 = x[2] * hy;
    lemma_distribute(x[3] as int, yv);
    let row3 = x[3] * hy;
    lemma_distribute(x[4] as int, yv);
    let row4 = x[4] * hy;
    lemma_distribute(x[5] as int, yv);
    let row5 = x[5] * hy;
    lemma_distribute(x[6] as int, yv);
    let row6 = x[6] * hy;
    lemma_distribute(x[7] as int, yv);
    let row7 = x[7] * hy;
    lemma_distribute(hy, xv);
    assert(hy * x[0] == row0) by (nonlinear_arith)
        requires
            row0 == x[0] * hy,
    ;
    assert(hy * x[1] == row1) by (nonlinear_arith)
        requires
            row1 == x[1] * hy,
    ;
    assert(hy * x[2] == row2) by (nonlinear_arith)
        requires
            row2 == x[2] * hy,
    ;
    assert(hy * x[3] == row3) by (nonlinear_arith)
        requires
            row3 == x[3] * hy,
    ;
    assert(hy * x[4] == row4) by (nonlinear_arith)
        requires
            row4 == x[4] * hy,
    ;
    assert(hy * x[5] == row5) by (nonlinear_arith)
        requires
            row5 == x[5] * hy,
    ;
    assert(hy * x[6] == row6) by (nonlinear_arith)
        requires
            row6 == x[6] * hy,
    ;
    assert(hy * x[7] == row7) by (nonlinear_arith)
        requires
            row7 == x[7] * hy,
    ;
    assert(hx * hy == hy * hx) by (nonlinear_arith);
    assert(hx * hy == row0 + row1 * 0x10000000int + row2 * 0x100000000000000int + row3 * 0x1000000000000000000000int + row4 * 0x10000000000000000000000000000int + row5 * 0x100000000000000000000000000000000000int + row6 * 0x1000000000000000000000000000000000000000000int + row7 * 0x10000000000000000000000000000000000000000000000000int);
    lemma_coefficient_terms(x, y, 0);
    assert(p[0] == coefficient(x, y, 0));
    lemma_coefficient_terms(x, y, 1);
    assert(p[1] == coefficient(x, y, 1));
    lemma_coefficient_terms(x, y, 2);
    assert(p[2] == coefficient(x, y, 2));
    lemma_coefficient_terms(x, y, 3);
    assert(p[3] == coefficient(x, y, 3));
    lemma_coefficient_terms(x, y, 4);
    assert(p[4] == coefficient(x, y, 4));
    lemma_coefficient_terms(x, y, 5);
    assert(p[5] == coefficient(x, y, 5));
    lemma_coefficient_terms(x, y, 6);
    assert(p[6] == coefficient(x, y, 6));
    lemma_coefficient_terms(x, y, 7);
    assert(p[7] == coefficient(x, y, 7));
    lemma_coefficient_terms(x, y, 8);
    assert(p[8] == coefficient(x, y, 8));
    lemma_coefficient_terms(x, y, 9);
    assert(p[9] == coefficient(x, y, 9));
    lemma_coefficient_terms(x, y, 10);
    assert(p[10] == coefficient(x, y, 10));
    lemma_coefficient_terms(x, y, 11);
    assert(p[11] == coefficient(x, y, 11));
    lemma_coefficient_terms(x, y, 12);
    assert(p[12] == coefficient(x, y, 12));
    lemma_coefficient_terms(x, y, 13);
    assert(p[13] == coefficient(x, y, 13));
    lemma_coefficient_terms(x, y, 14);
    assert(p[14] == coefficient(x, y, 14));
}

/// The product of two polynomials of eight coefficients, coefficient by
/// coefficient.
fn mul8(x: &[u64; 8], y: &[u64; 8]) -> (r: [u128; 15])
    requires
        forall|i: int| 0 <= i < 8 ==> x[i] <= 0x1_ffff_ffff && y[i] <= 0x1_ffff_ffff,
    ensures
        forall|k: int| 0 <= k < 15 ==> #[trigger] r[k] == coefficient(*x, *y, k),
        forall|k: int| 0 <= k < 15 ==> #[trigger] r[k] <= 0x20_0000_0000_0000_0000,
        product_value(r) == half_value(*x) * half_value(*y),
{
    let mut r = [0u128;15];
    for i in 0..8
        invariant
            forall|i: int| 0 <= i < 8 ==> x[i] <= 0x1_ffff_ffff && y[i] <= 0x1_ffff_ffff,
            forall|k: int| 0 <= k < 15 ==> #[trigger] r[k] == coefficient_upto(*x, *y, k, i as int),
            forall|k: int| 0 <= k < 15 ==> #[trigger] r[k] <= i * 0x4_0000_0000_0000_0000int,
    {
        for j in 0..8
            invariant
                0 <= i < 8,
                forall|i: int| 0 <= i < 8 ==> x[i] <= 0x1_ffff_ffff && y[i] <= 0x1_ffff_ffff,
                forall|k: int|
                    0 <= k < 15 ==> #[trigger] r[k] == coefficient_upto(*x, *y, k, i as int) + if i <= k
                        < i + j {
                        x[i as int] * y[k - i]
                    } else {
                        0
                    },
                forall|k: int|
                    0 <= k < 15 ==> #[trigger] r[k] <= (i as int) * 0x4_0000_0000_0000_0000int + (if i <= k
                        < i + j {
                        0x4_0000_0000_0000_0000int
                    } else {
                        0int
                    }),
        {
            proof {
                lemma_product_bound(x[i as int], y[j as int]);
            }
            r[i + j] = r[i + j] + (x[i] as u128) * (y[j] as u128);
        }
    }
    proof {
        lemma_product_value(*x, *y, r);
    }
    r
}

/// Carries eight wide coefficients into 28-bit limbs and returns the limbs
/// with the carry out of the last.
fn carry_chain8(raw: &[u128; 8]) -> (r: ([u32; 8], u128))
    requires
        forall|j: int| 0 <= j < 8 ==> #[trigger] raw[j] <= 0x100_0000_0000_0000_0000,
    ensures
        r.0[0] + r.0[1] * 0x10000000int + r.0[2] * 0x100000000000000int + r.0[3] * 0x1000000000000000000000int + r.0[4] * 0x10000000000000000000000000000int + r.0[5] * 0x100000000000000000000000000000000000int + r.0[6] * 0x1000000000000000000000000000000000000000000int + r.0[7] * 0x10000000000000000000000000000000000000000000000000int + r.1 * 0x100000000000000000000000000000000000000000000000000000000int == wide_value(*raw),
        forall|j: int| 0 <= j < 8 ==> #[trigger] r.0[j] <= MASK,
        r.1 <= 0x2000_0000_0000,
{
    let (l0, k0) = split_wide(raw[0]);
    let (l1, k1) = split_wide(raw[1] + k0);
    let (l2, k2) = split_wide(raw[2] + k1);
    let (l3, k3) = split_wide(raw[3] + k2);
    let (l4, k4) = split_wide(raw[4] + k3);
    let (l5, k5) = split_wide(raw[5] + k4);
    let (l6, k6) = split_wide(raw[6] + k5);
    let (l7, k7) = split_wide(raw[7] + k6);
    ([l0, l1, l2, l3, l4, l5, l6, l7], k7)
}

/// Splits a wide number into its low 28 bits and the bits above them.
fn split_wide(x: u128) -> (r: (u32, u128))
    requires
        x <= 0x200_0000_0000_0000_0000,
    ensures
        x == r.1 * 0x1000_0000 + r.0,
        r.0 <= MASK,
        r.1 <= 0x2000_0000_0000,
{
    assert(x <= 0x200_0000_0000_0000_0000 ==> x == (x >> 28) * 0x1000_0000 + (x & 0x0fff_ffff) && (x
        & 0x0fff_ffff) <= 0x0fff_ffff && (x >> 28) <= 0x2000_0000_0000) by (bit_vector);
    ((x & 0x0fff_ffff) as u32, x >> 28)
}

/// The golden-ratio identity: with `phi^2 = phi + 1 + p`, the product of
/// `a0 + a1 phi` and `b0 + b1 phi` from three half-size products.
proof fn lemma_golden_product(a0: int, a1: int, b0: int, b1: int)
    ensures
        (a0 + a1 * 0x100000000000000000000000000000000000000000000000000000000int) * (b0 + b1 * 0x100000000000000000000000000000000000000000000000000000000int) == (a0 * b0 + a1 * b1) + ((a0 + a1) * (b0 + b1) - a0 * b0) * 0x100000000000000000000000000000000000000000000000000000000int + (a1 * b1) * field_modulus(),
{
    assert((a0 + a1 * 0x100000000000000000000000000000000000000000000000000000000int) * (b0 + b1 * 0x100000000000000000000000000000000000000000000000000000000int) == (a0 * b0 + a1 * b1) + ((a0 + a1) * (b0 + b1) - a0 * b0) * 0x100000000000000000000000000000000000000000000000000000000int + (a1 * b1) * 0xfffffffffffffffffffffffffffffffffffffffffffffffffffffffeffffffffffffffffffffffffffffffffffffffffffffffffffffffffint) by (nonlinear_arith);
}

/// The limbs of an element stand for its low half plus `phi` times its high
/// half.
proof fn lemma_halves(a: [u32; 16], low: [u64; 8], high: [u64; 8], sum: [u64; 8])
    requires
        forall|i: int| 0 <= i < 8 ==> low[i] == a[i] && high[i] == a[i + 8] && sum[i] == a[i] + a[i + 8],
    ensures
        limbs_value(a) == half_value(low) + half_value(high) * 0x100000000000000000000000000000000000000000000000000000000int,
        half_value(sum) == half_value(low) + half_value(high),
{
    reveal(limbs_value);
    assert(low[0] == a[0] && high[0] == a[8] && sum[0] == a[0] + a[8]);
    assert(low[1] == a[1] && high[1] == a[9] && sum[1] == a[1] + a[9]);
    assert(low[2] == a[2] && high[2] == a[10] && sum[2] == a[2] + a[10]);
    assert(low[3] == a[3] && high[3] == a[11] && sum[3] == a[3] + a[11]);
    assert(low[4] == a[4] && high[4] == a[12] && sum[4] == a[4] + a[12]);
    assert(low[5] == a[5] && high[5] == a[13] && sum[5] == a[5] + a[13]);
    assert(low[6] == a[6] && high[6] == a[14] && sum[6] == a[6] + a[14]);
    assert(low[7] == a[7] && high[7] == a[15] && sum[7] == a[7] + a[15]);
}

/// Folding the coefficients of the three half-size products by
/// `phi^2 = phi + 1` changes the integer they stand for by a multiple of the
/// modulus.
proof fn lemma_fold(p0: [u128; 15], p1: [u128; 15], p2: [u128; 15], raw0: [u128; 8], raw1: [u128; 8]) -> (q: int)
    requires
        forall|k: int| 0 <= k < 15 ==> p0[k] <= p1[k],
        forall|j: int| 0 <= j < 7 ==> #[trigger] raw0[j] == p0[j] + p2[j] + (p1[j + 8] - p0[j + 8]),
        raw0[7] == p0[7] + p2[7],
        forall|j: int| 0 <= j < 7 ==> #[trigger] raw1[j] == (p1[j] - p0[j]) + p2[j + 8] + p1[j + 8],
        raw1[7] == p1[7] - p0[7],
    ensures
        wide_value(raw0) + wide_value(raw1) * 0x100000000000000000000000000000000000000000000000000000000int + q * field_modulus() == product_value(p0) + product_value(p2) + (product_value(p1) - product_value(p0)) * 0x100000000000000000000000000000000000000000000000000000000int,
        q >= 0,
{
    assert(raw0[0] == p0[0] + p2[0] + (p1[8] - p0[8]));
    assert(raw1[0] == (p1[0] - p0[0]) + p2[8] + p1[8]);
    assert(p0[8] <= p1[8]);
    assert(raw0[1] == p0[1] + p2[1] + (p1[9] - p0[9]));
    assert(raw1[1] == (p1[1] - p0[1]) + p2[9] + p1[9]);
    assert(p0[9] <= p1[9]);
    assert(raw0[2] == p0[2] + p2[2] + (p1[10] - p0[10]));
    assert(raw1[2] == (p1[2] - p0[2]) + p2[10] + p1[10]);
    assert(p0[10] <= p1[10]);
    assert(raw0[3] == p0[3] + p2[3] + (p1[11] - p0[11]));
    assert(raw1[3] == (p1[3] - p0[3]) + p2[11] + p1[11]);
    assert(p0[11] <= p1[11]);
    assert(raw0[4] == p0[4] + p2[4] + (p1[12] - p0[12]));
    assert(raw1[4] == (p1[4] - p0[4]) + p2[12] + p1[12]);
    assert(p0[12] <= p1[12]);
    assert(raw0[5] == p0[5] + p2[5] + (p1[13] - p0[13]));
    assert(raw1[5] == (p1[5] - p0[5]) + p2[13] + p1[13]);
    assert(p0[13] <= p1[13]);
    assert(raw0[6] == p0[6] + p2[6] + (p1[14] - p0[14]));
    assert(raw1[6] == (p1[6] - p0[6]) + p2[14] + p1[14]);
    assert(p0[14] <= p1[14]);
    (p1[8] - p0[8]) + (p1[9] - p0[9]) * 0x10000000int + (p1[10] - p0[10]) * 0x100000000000000int + (p1[11] - p0[11]) * 0x1000000000000000000000int + (p1[12] - p0[12]) * 0x10000000000000000000000000000int + (p1[13] - p0[13]) * 0x100000000000000000000000000000000000int + (p1[14] - p0[14]) * 0x1000000000000000000000000000000000000000000int
}

/// The low half, the high half and their limb-wise sum.
fn split_halves(x: &[u32; 16]) -> (r: ([u64; 8], [u64; 8], [u64; 8]))
    ensures
        limbs_value(*x) == half_value(r.0) + half_value(r.1) * 0x100000000000000000000000000000000000000000000000000000000int,
        half_value(r.2) == half_value(r.0) + half_value(r.1),
        forall|i: int| 0 <= i < 8 ==> r.0[i] <= r.2[i] && r.0[i] <= 0x1_ffff_ffff,
        forall|i: int| 0 <= i < 8 ==> r.1[i] <= 0x1_ffff_ffff,
        forall|i: int| 0 <= i < 8 ==> r.2[i] <= 0x1_ffff_ffff,
{
    let low = [x[0] as u64, x[1] as u64, x[2] as u64, x[3] as u64, x[4] as u64, x[5] as u64, x[6] as u64, x[7] as u64];
    let high = [x[8] as u64, x[9] as u64, x[10] as u64, x[11] as u64, x[12] as u64, x[13] as u64, x[14] as u64, x[15] as u64];
    let sum = [
        x[0] as u64 + x[8] as u64,
        x[1] as u64 + x[9] as u64,
        x[2] as u64 + x[10] as u64,
        x[3] as u64 + x[11] as u64,
        x[4] as u64 + x[12] as u64,
        x[5] as u64 + x[13] as u64,
        x[6] as u64 + x[14] as u64,
        x[7] as u64 + x[15] as u64,
    ];
    proof {
        lemma_halves(*x, low, high, sum);
    }
    (low, high, sum)
}

/// Folds the coefficients of the three half-size products into eight
/// coefficients for the low half and eight for the high half: coefficient
/// `j + 8` of a product weighs `phi` times coefficient `j`, and `phi^2` is
/// `phi + 1`. Also returns the multiple of the modulus that the folding
/// drops.
fn fold(p0: &[u128; 15], p1: &[u128; 15], p2: &[u128; 15]) -> (r: ([u128; 8], [u128; 8], Ghost<int>))
    requires
        forall|k: int| 0 <= k < 15 ==> p0[k] <= p1[k],
        forall|k: int| 0 <= k < 15 ==> #[trigger] p1[k] <= 0x20_0000_0000_0000_0000,
        forall|k: int| 0 <= k < 15 ==> #[trigger] p2[k] <= 0x20_0000_0000_0000_0000,
    ensures
        wide_value(r.0) + wide_value(r.1) * 0x100000000000000000000000000000000000000000000000000000000int + r.2@ * field_modulus() == product_value(*p0)
            + product_value(*p2) + (product_value(*p1) - product_value(*p0)) * 0x100000000000000000000000000000000000000000000000000000000int,
        r.2@ >= 0,
        forall|j: int| 0 <= j < 8 ==> #[trigger] r.0[j] <= 0x100_0000_0000_0000_0000,
        forall|j: int| 0 <= j < 8 ==> #[trigger] r.1[j] <= 0x100_0000_0000_0000_0000,
{
    proof {
        assert(p0[0] <= p1[0] && p1[0] <= 0x20_0000_0000_0000_0000 && p2[0] <= 0x20_0000_0000_0000_0000);
        assert(p0[1] <= p1[1] && p1[1] <= 0x20_0000_0000_0000_0000 && p2[1] <= 0x20_0000_0000_0000_0000);
        assert(p0[2] <= p1[2] && p1[2] <= 0x20_0000_0000_0000_0000 && p2[2] <= 0x20_0000_0000_0000_0000);
        assert(p0[3] <= p1[3] && p1[3] <= 0x20_0000_0000_0000_0000 && p2[3] <= 0x20_0000_0000_0000_0000);
        assert(p0[4] <= p1[4] && p1[4] <= 0x20_0000_0000_0000_0000 && p2[4] <= 0x20_0000_0000_0000_0000);
        assert(p0[5] <= p1[5] && p1[5] <= 0x20_0000_0000_0000_0000 && p2[5] <= 0x20_0000_0000_0000_0000);
        assert(p0[6] <= p1[6] && p1[6] <= 0x20_0000_0000_0000_0000 && p2[6] <= 0x20_0000_0000_0000_0000);
        assert(p0[7] <= p1[7] && p1[7] <= 0x20_0000_0000_0000_0000 && p2[7] <= 0x20_0000_0000_0000_0000);
        assert(p0[8] <= p1[8] && p1[8] <= 0x20_0000_0000_0000_0000 && p2[8] <= 0x20_0000_0000_0000_0000);
        assert(p0[9] <= p1[9] && p1[9] <= 0x20_0000_0000_0000_0000 && p2[9] <= 0x20_0000_0000_0000_0000);
        assert(p0[10] <= p1[10] && p1[10] <= 0x20_0000_0000_0000_0000 && p2[10] <= 0x20_0000_0000_0000_0000);
        assert(p0[11] <= p1[11] && p1[11] <= 0x20_0000_0000_0000_0000 && p2[11] <= 0x20_0000_0000_0000_0000);
        assert(p0[12] <= p1[12] && p1[12] <= 0x20_0000_0000_0000_0000 && p2[12] <= 0x20_0000_0000_0000_0000);
        assert(p0[13] <= p1[13] && p1[13] <= 0x20_0000_0000_0000_0000 && p2[13] <= 0x20_0000_0000_0000_0000);
        assert(p0[14] <= p1[14] && p1[14] <= 0x20_0000_0000_0000_0000 && p2[14] <= 0x20_0000_0000_0000_0000);
    }
    let raw0 = [
        p0[0] + p2[0] + (p1[8] - p0[8]),
        p0[1] + p2[1] + (p1[9] - p0[9]),
        p0[2] + p2[2] + (p1[10] - p0[10]),
        p0[3] + p2[3] + (p1[11] - p0[11]),
        p0[4] + p2[4] + (p1[12] - p0[12]),
        p0[5] + p2[5] + (p1[13] - p0[13]),
        p0[6] + p2[6] + (p1[14] - p0[14]),
        p0[7] + p2[7],
    ];
    let raw1 = [
        (p1[0] - p0[0]) + p2[8] + p1[8],
        (p1[1] - p0[1]) + p2[9] + p1[9],
        (p1[2] - p0[2]) + p2[10] + p1[10],
        (p1[3] - p0[3]) + p2[11] + p1[11],
        (p1[4] - p0[4]) + p2[12] + p1[12],
        (p1[5] - p0[5]) + p2[13] + p1[13],
        (p1[6] - p0[6]) + p2[14] + p1[14],
        p1[7] - p0[7],
    ];
    let ghost q = lemma_fold(*p0, *p1, *p2, raw0, raw1);
    (raw0, raw1, Ghost(q))
}

/// Joins the limbs of the two carry chains and lets the carries out of them
/// in: the carry out of the low half weighs `phi`, the carry out of the high
/// half weighs `phi^2 = phi + 1`.
fn assemble(low: &[u32; 8], high: &[u32; 8], carry0: u128, carry1: u128) -> (c: [u32; 16])
    requires
        forall|j: int| 0 <= j < 8 ==> #[trigger] low[j] <= MASK,
        forall|j: int| 0 <= j < 8 ==> #[trigger] high[j] <= MASK,
        carry0 <= 0x2000_0000_0000,
        carry1 <= 0x2000_0000_0000,
    ensures
        limbs_value(c) == low[0] + low[1] * 0x10000000int + low[2] * 0x100000000000000int + low[3] * 0x1000000000000000000000int + low[4] * 0x10000000000000000000000000000int + low[5] * 0x100000000000000000000000000000000000int + low[6] * 0x1000000000000000000000000000000000000000000int + low[7] * 0x10000000000000000000000000000000000000000000000000int + carry0 * 0x100000000000000000000000000000000000000000000000000000000int
            + (high[0] + high[1] * 0x10000000int + high[2] * 0x100000000000000int + high[3] * 0x1000000000000000000000int + high[4] * 0x10000000000000000000000000000int + high[5] * 0x100000000000000000000000000000000000int + high[6] * 0x1000000000000000000000000000000000000000000int + high[7] * 0x10000000000000000000000000000000000000000000000000int + carry1 * 0x100000000000000000000000000000000000000000000000000000000int) * 0x100000000000000000000000000000000000000000000000000000000int
            - carry1 * field_modulus(),
        forall|i: int| 0 <= i < 16 ==> #[trigger] c[i] <= 0x1010_0000,
{
    let (c8, t0) = split_wide(carry0 + carry1 + high[0] as u128);
    let (c0, t1) = split_wide(carry1 + low[0] as u128);
    assert(t0 <= 0x10_0000 && t1 <= 0x10_0000);
    let c9 = high[1] + t0 as u32;
    let c1 = low[1] + t1 as u32;
    let c = [
        c0,
        c1,
        low[2],
        low[3],
        low[4],
        low[5],
        low[6],
        low[7],
        c8,
        c9,
        high[2],
        high[3],
        high[4],
        high[5],
        high[6],
        high[7],
    ];
    proof {
        reveal(limbs_value);
    }
    c
}

/// If `c` stands for the folded coefficients less a multiple of the modulus,
/// it stands for the residue of the product.
proof fn lemma_product_residue(
    xv: int,
    yv: int,
    cv: int,
    folded: int,
    q: int,
    extra: int,
    carry: int,
)
    requires
        xv * yv == folded + q * field_modulus() + extra * field_modulus(),
        cv == folded - carry * field_modulus(),
    ensures
        cv % field_modulus() == field_mul(xv % field_modulus(), yv % field_modulus()),
{
    let m = q + extra + carry;
    let p = field_modulus();
    assert(xv * yv == m * p + cv) by (nonlinear_arith)
        requires
            xv * yv == folded + q * p + extra * p,
            cv == folded - carry * p,
            m == q + extra + carry,
    ;
    vstd::arithmetic::div_mod::lemma_mod_multiples_vanish(m, cv, p);
    vstd::arithmetic::div_mod::lemma_mul_mod_noop_general(xv, yv, p);
}

/// The product of two field elements.
pub fn mul(a: &FieldElement28, b: &FieldElement28) -> (c: FieldElement28)
    ensures
        c.value() == field_mul(a.value(), b.value()),
        c.is_weak(),
{
    let (a_low, a_high, a_sum) = split_halves(&a.0);
    let (b_low, b_high, b_sum) = split_halves(&b.0);
    let p0 = mul8(&a_low, &b_low);
    let p2 = mul8(&a_high, &b_high);
    let p1 = mul8(&a_sum, &b_sum);
    proof {
        assert forall|k: int| 0 <= k < 15 implies p0[k] <= p1[k] by {
            lemma_coefficient_monotone(a_low, b_low, a_sum, b_sum, k, 8);
        }
    }
    let (raw0, raw1, Ghost(q)) = fold(&p0, &p1, &p2);
    let (low, carry0) = carry_chain8(&raw0);
    let (high, carry1) = carry_chain8(&raw1);
    let c = FieldElement28(assemble(&low, &high, carry0, carry1));
    proof {
        lemma_golden_product(
            half_value(a_low),
            half_value(a_high),
            half_value(b_low),
            half_value(b_high),
        );
        lemma_product_residue(
            limbs_value(a.0),
            limbs_value(b.0),
            limbs_value(c.0),
            wide_value(raw0) + wide_value(raw1) * 0x100000000000000000000000000000000000000000000000000000000int,
            q,
            half_value(a_high) * half_value(b_high),
            carry1 as int,
        );
    }
    c
}

/// The square of a field element.
pub fn square(a: &FieldElement28) -> (c: FieldElement28)
    ensures
        c.value() == field_mul(a.value(), a.value()),
        c.is_weak(),
{
    self::mul(a, a)
}

impl FieldElement28 {
    /// The product of a field element and a number given as a word of up
    /// to 60 bits, which is read as two limbs.
    pub fn mul_double_limb(x: &FieldElement28, w: u64) -> (c: FieldElement28)
        requires
            w <= 0x0fff_ffff_ffff_ffff,
        ensures
            c.value() == field_mul(x.value(), w as int),
            c.is_weak(),
    {
        assert(w <= 0x0fff_ffff_ffff_ffff ==> w == (w >> 28) * 0x1000_0000 + (w & 0x0fff_ffff) && (w
            >> 28) <= 0xffff_ffff && (w & 0x0fff_ffff) <= 0x0fff_ffff) by (bit_vector);
        let whi = (w >> 28) as u32;
        let wlo = (w & 0x0fff_ffff) as u32;
        let factor = FieldElement28([wlo, whi, 0, 0, 0, 0, 0, 0, 0, 0, 0, 0, 0, 0, 0, 0]);
        proof {
            reveal(limbs_value);
            vstd::arithmetic::div_mod::lemma_mul_mod_noop_right(x.value(), w as int, field_modulus());
        }
        self::mul(x, &factor)
    }
}

impl core::ops::Mul<FieldElement28> for FieldElement28 {
    type Output = FieldElement28;

    /// The product of two elements.
    fn mul(self, rhs: FieldElement28) -> (r: FieldElement28)
        ensures
            r.value() == field_mul(self.value(), rhs.value()),
            r.is_weak(),
    {
        self::mul(&self, &rhs)
    }
}

impl vstd::std_specs::ops::MulSpecImpl<FieldElement28> for FieldElement28 {
    open spec fn obeys_mul_spec() -> bool {
        false
    }

    open spec fn mul_req(self, rhs: FieldElement28) -> bool {
        true
    }

    open spec fn mul_spec(self, rhs: FieldElement28) -> FieldElement28 {
        arbitrary()
    }
}

} // verus!
