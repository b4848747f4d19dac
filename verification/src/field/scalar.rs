//! Scalars: integers modulo the order `l` of the prime-order subgroup, held
//! as fourteen 32-bit limbs.
//!
//! A scalar holds any integer below `2^448`; the arithmetic reduces modulo
//! `l`, and a scalar is canonical where its integer is below `l`.

use crate::constant_time::bytes_equal;
use crate::field::element::{bytes_value, lemma_bytes_value_injective};
use vstd::prelude::*;

verus! {

/// The order `l = 2^446 - 0x8335dc16...` of the prime-order subgroup.
pub open spec fn scalar_modulus() -> int {
    0x3fffffffffffffffffffffffffffffffffffffffffffffffffffffff7cca23e9c44edb49aed63690216cc2728dc58f552378c292ab5844f3int
}

/// The radix `2^448` of the Montgomery form.
pub open spec fn montgomery_radix() -> int {
    0x10000000000000000000000000000000000000000000000000000000000000000000000000000000000000000000000000000000000000000int
}

/// The inverse of `2^448` modulo `l`.
pub open spec fn montgomery_inverse() -> int {
    0x2b1f7dc1f7afb220b3dbd679b284c536856c1d6cc9e7f74b5926c891ced2502755fdd4f7fb2411b7dfd98dc4a53f3574b50eeb00f1769696int
}

/// The integer that fourteen 32-bit limbs stand for, least significant limb
/// first.
#[verifier::opaque]
pub open spec fn scalar_limbs_value(l: [u32; 14]) -> int {
    l[0] as int
    + l[1] * 0x100000000int
    + l[2] * 0x10000000000000000int
    + l[3] * 0x1000000000000000000000000int
    + l[4] * 0x100000000000000000000000000000000int
    + l[5] * 0x10000000000000000000000000000000000000000int
    + l[6] * 0x1000000000000000000000000000000000000000000000000int
    + l[7] * 0x100000000000000000000000000000000000000000000000000000000int
    + l[8] * 0x10000000000000000000000000000000000000000000000000000000000000000int
    + l[9] * 0x1000000000000000000000000000000000000000000000000000000000000000000000000int
    + l[10] * 0x100000000000000000000000000000000000000000000000000000000000000000000000000000000int
    + l[11] * 0x10000000000000000000000000000000000000000000000000000000000000000000000000000000000000000int
    + l[12] * 0x1000000000000000000000000000000000000000000000000000000000000000000000000000000000000000000000000int
    + l[13] * 0x100000000000000000000000000000000000000000000000000000000000000000000000000000000000000000000000000000000int
}

/// Addition modulo `l`.
pub open spec fn scalar_add(x: int, y: int) -> int {
    (x + y) % scalar_modulus()
}

/// Subtraction modulo `l`.
pub open spec fn scalar_sub(x: int, y: int) -> int {
    (x - y) % scalar_modulus()
}

/// Multiplication modulo `l`.
pub open spec fn scalar_mul(x: int, y: int) -> int {
    (x * y) % scalar_modulus()
}

/// The Montgomery product `x y / 2^448` modulo `l`.
pub open spec fn montgomery_product(x: int, y: int) -> int {
    (x * y * montgomery_inverse()) % scalar_modulus()
}

/// An integer below `2^448`, as fourteen 32-bit limbs, least significant
/// first.
#[derive(Copy, Clone, Debug)]
pub struct Scalar(pub [u32; 14]);

/// The low word of the order `l`.
pub const MODULUS_LOW: u32 = 0xab5844f3;

/// The factor `-1 / l` modulo `2^32` of the Montgomery reduction.
pub const MONTGOMERY_FACTOR: u32 = 0xae918bc5;

/// The order `l`, as a scalar.
pub fn modulus() -> (r: Scalar)
    ensures
        r.value() == scalar_modulus(),
        r.0[0] == 0xab5844f3 && r.0[1] == 0x2378c292 && r.0[2] == 0x8dc58f55 && r.0[3] == 0x216cc272
            && r.0[4] == 0xaed63690 && r.0[5] == 0xc44edb49 && r.0[6] == 0x7cca23e9 && r.0[7]
            == 0xffffffff && r.0[8] == 0xffffffff && r.0[9] == 0xffffffff && r.0[10] == 0xffffffff
            && r.0[11] == 0xffffffff && r.0[12] == 0xffffffff && r.0[13] == 0x3fffffff,
{
    proof {
        reveal(scalar_limbs_value);
    }
    Scalar(
        [
            0xab5844f3,
            0x2378c292,
            0x8dc58f55,
            0x216cc272,
            0xaed63690,
            0xc44edb49,
            0x7cca23e9,
            0xffffffff,
            0xffffffff,
            0xffffffff,
            0xffffffff,
            0xffffffff,
            0xffffffff,
            0x3fffffff,
        ],
    )
}

/// The residue of `2^448` modulo `l`.
fn montgomery_r() -> (r: Scalar)
    ensures
        r.value() == 0x20cd77058eec492d944a725bf7a4cf635c8e9c2ab721cf5b5529eec34int,
{
    proof {
        reveal(scalar_limbs_value);
    }
    Scalar(
        [
            0x529eec34,
            0x721cf5b5,
            0xc8e9c2ab,
            0x7a4cf635,
            0x44a725bf,
            0xeec492d9,
            0x0cd77058,
            0x00000002,
            0x00000000,
            0x00000000,
            0x00000000,
            0x00000000,
            0x00000000,
            0x00000000,
        ],
    )
}

/// The residue of `2^896` modulo `l`.
pub(crate) fn montgomery_r2() -> (r: Scalar)
    ensures
        r.value() == 0x3402a939f823b7292052bcb7e4d070af1a9cc14ba3c47c44ae17cf725ee4d8380d66de2388ea18597af32c4bc1b195d9e3539257049b9b60int,
{
    proof {
        reveal(scalar_limbs_value);
    }
    Scalar(
        [
            0x049b9b60,
            0xe3539257,
            0xc1b195d9,
            0x7af32c4b,
            0x88ea1859,
            0x0d66de23,
            0x5ee4d838,
            0xae17cf72,
            0xa3c47c44,
            0x1a9cc14b,
            0xe4d070af,
            0x2052bcb7,
            0xf823b729,
            0x3402a939,
        ],
    )
}

/// One limb of an addition: the low word of `a + b + carry` and the carry
/// out of it.
fn adc(a: u32, b: u32, carry: u32) -> (r: (u32, u32))
    requires
        carry <= 1,
    ensures
        a + b + carry == r.0 + 0x1_0000_0000 * r.1,
        r.1 <= 1,
{
    let t = a as u64 + b as u64 + carry as u64;
    assert(t <= 0x1_ffff_ffff ==> t == (t >> 32) * 0x1_0000_0000 + (t & 0xffff_ffff) && (t >> 32) <= 1
        && (t & 0xffff_ffff) <= 0xffff_ffff) by (bit_vector);
    ((t & 0xffff_ffff) as u32, (t >> 32) as u32)
}

/// One limb of a subtraction: the low word of `a - b - borrow` and the
/// borrow out of it.
fn sbb(a: u32, b: u32, borrow: u32) -> (r: (u32, u32))
    requires
        borrow <= 1,
    ensures
        a - b - borrow == r.0 - 0x1_0000_0000 * r.1,
        r.1 <= 1,
{
    let t = 0x1_0000_0000u64 + a as u64 - b as u64 - borrow as u64;
    assert(t <= 0x1_ffff_ffff ==> t == (t >> 32) * 0x1_0000_0000 + (t & 0xffff_ffff) && (t >> 32) <= 1
        && (t & 0xffff_ffff) <= 0xffff_ffff) by (bit_vector);
    ((t & 0xffff_ffff) as u32, 1 - (t >> 32) as u32)
}

/// One limb of a multiplication: the low word of `a * b + c + carry` and
/// the carry out of it.
fn mac(a: u32, b: u32, c: u32, carry: u32) -> (r: (u32, u32))
    ensures
        a * b + c + carry == r.0 + 0x1_0000_0000 * r.1,
{
    assert(a * b <= 0xffff_fffe_0000_0001) by (nonlinear_arith)
        requires
            a <= 0xffff_ffff,
            b <= 0xffff_ffff,
    ;
    let t = (a as u64) * (b as u64) + c as u64 + carry as u64;
    assert(t == (t >> 32) * 0x1_0000_0000 + (t & 0xffff_ffff) && (t >> 32) <= 0xffff_ffff && (t
        & 0xffff_ffff) <= 0xffff_ffff) by (bit_vector);
    ((t & 0xffff_ffff) as u32, (t >> 32) as u32)
}

/// The word where `bit` is 1 and zero where it is 0, found by masking.
fn mask_word(x: u32, bit: u32) -> (r: u32)
    requires
        bit <= 1,
    ensures
        r == if bit == 1 { x } else { 0 },
{
    let mask = 0u32.wrapping_sub(bit);
    assert(x & 0xffff_ffff == x && x & 0 == 0) by (bit_vector);
    x & mask
}

/// The word that a shift of a long integer one bit to the right leaves in
/// place of `low`, with `high` the word above it.
fn shift_right_one(low: u32, high: u32) -> (r: u32)
    ensures
        r == low / 2 + (high % 2) * 0x8000_0000,
{
    assert(((low >> 1) | (high << 31)) == low / 2 + (high % 2) * 0x8000_0000) by (bit_vector);
    (low >> 1) | (high << 31)
}

/// The word that a shift of a long integer two bits to the right leaves in
/// place of `low`, with `high` the word above it.
fn shift_right_two(low: u32, high: u32) -> (r: u32)
    ensures
        r == low / 4 + (high % 4) * 0x4000_0000,
{
    assert(((high << 30) | (low >> 2)) == low / 4 + (high % 4) * 0x4000_0000) by (bit_vector);
    (high << 30) | (low >> 2)
}

/// The word that the four bytes from `start` stand for, least significant
/// byte first.
fn load4(bytes: &[u8; 56], start: usize) -> (r: u32)
    requires
        start + 4 <= 56,
    ensures
        r == bytes[start as int] + bytes[start + 1] * 0x100 + bytes[start + 2] * 0x1_0000 + bytes[start
            + 3] * 0x100_0000,
{
    let b0 = bytes[start];
    let b1 = bytes[start + 1];
    let b2 = bytes[start + 2];
    let b3 = bytes[start + 3];
    assert(((b0 as u32) | ((b1 as u32) << 8) | ((b2 as u32) << 16) | ((b3 as u32) << 24)) == b0 + b1
        * 0x100 + b2 * 0x1_0000 + b3 * 0x100_0000) by (bit_vector);
    (b0 as u32) | ((b1 as u32) << 8) | ((b2 as u32) << 16) | ((b3 as u32) << 24)
}

/// The four bytes of a word, least significant first.
fn store4(x: u32) -> (r: [u8; 4])
    ensures
        x == r[0] + r[1] * 0x100 + r[2] * 0x1_0000 + r[3] * 0x100_0000,
{
    assert(x == (x as u8) + ((x >> 8) as u8) * 0x100 + ((x >> 16) as u8) * 0x1_0000 + ((x >> 24) as u8)
        * 0x100_0000) by (bit_vector);
    [x as u8, (x >> 8) as u8, (x >> 16) as u8, (x >> 24) as u8]
}

/// The factor of the reduction times the low word of the order is `-1`
/// modulo `2^32`, so that `w` times the factor, times that low word, plus
/// `w`, is a multiple of `2^32`.
proof fn lemma_clears(w: int, j: int, multiplicand: int, t: int)
    requires
        multiplicand == w * 0xae918bc5 - j * 0x1_0000_0000,
        t == multiplicand * 0xab5844f3 + w,
    ensures
        t % 0x1_0000_0000 == 0,
{
    let k = 0x74d76969int;
    let n = w * k - j * 0xab5844f3;
    assert(0xae918bc5int * 0xab5844f3int == k * 0x1_0000_0000int - 1);
    assert(t == n * 0x1_0000_0000) by (nonlinear_arith)
        requires
            multiplicand == w * 0xae918bc5 - j * 0x1_0000_0000,
            t == multiplicand * 0xab5844f3 + w,
            0xae918bc5int * 0xab5844f3int == k * 0x1_0000_0000int - 1,
            n == w * k - j * 0xab5844f3,
    ;
    vstd::arithmetic::div_mod::lemma_mod_multiples_basic(n, 0x1_0000_0000);
}

/// The multiplicand `-w / l` modulo `2^32` that clears the low word `w` of
/// an accumulator when that multiple of `l` is added, and the carry that
/// the cleared word leaves.
fn reduce_first(w: u32) -> (r: (u32, u32))
    ensures
        r.0 * 0xab5844f3 + w == 0x1_0000_0000 * r.1,
{
    assert(w * 0xae918bc5 <= 0xffff_ffff * 0xae918bc5) by (nonlinear_arith)
        requires
            w <= 0xffff_ffff,
    ;
    let product = (w as u64) * (MONTGOMERY_FACTOR as u64);
    assert(product & 0xffff_ffff == product % 0x1_0000_0000) by (bit_vector);
    let multiplicand = (product & 0xffff_ffff) as u32;
    assert(multiplicand * 0xab5844f3 <= 0xffff_ffff * 0xab5844f3) by (nonlinear_arith)
        requires
            multiplicand <= 0xffff_ffff,
    ;
    let t = (multiplicand as u64) * (MODULUS_LOW as u64) + w as u64;
    assert(t == (t >> 32) * 0x1_0000_0000 + t % 0x1_0000_0000 && (t >> 32) <= 0xffff_ffff)
        by (bit_vector);
    proof {
        lemma_clears(w as int, product as int / 0x1_0000_0000, multiplicand as int, t as int);
    }
    (multiplicand, (t >> 32) as u32)
}

/// Limbs stand for an integer below `2^448`.
pub proof fn lemma_scalar_bound(l: [u32; 14])
    ensures
        0 <= scalar_limbs_value(l) < 0x10000000000000000000000000000000000000000000000000000000000000000000000000000000000000000000000000000000000000000int,
{
    reveal(scalar_limbs_value);
}

/// A carry chain over the limbs adds the integers, up to the carry out of
/// the top limb.
proof fn lemma_add_chain(x: [u32; 14], y: [u32; 14], s: [u32; 14], c: [u32; 14])
    requires
        x[0] + y[0] == s[0] + 0x1_0000_0000 * c[0],
        x[1] + y[1] + c[0] == s[1] + 0x1_0000_0000 * c[1],
        x[2] + y[2] + c[1] == s[2] + 0x1_0000_0000 * c[2],
        x[3] + y[3] + c[2] == s[3] + 0x1_0000_0000 * c[3],
        x[4] + y[4] + c[3] == s[4] + 0x1_0000_0000 * c[4],
        x[5] + y[5] + c[4] == s[5] + 0x1_0000_0000 * c[5],
        x[6] + y[6] + c[5] == s[6] + 0x1_0000_0000 * c[6],
        x[7] + y[7] + c[6] == s[7] + 0x1_0000_0000 * c[7],
        x[8] + y[8] + c[7] == s[8] + 0x1_0000_0000 * c[8],
        x[9] + y[9] + c[8] == s[9] + 0x1_0000_0000 * c[9],
        x[10] + y[10] + c[9] == s[10] + 0x1_0000_0000 * c[10],
        x[11] + y[11] + c[10] == s[11] + 0x1_0000_0000 * c[11],
        x[12] + y[12] + c[11] == s[12] + 0x1_0000_0000 * c[12],
        x[13] + y[13] + c[12] == s[13] + 0x1_0000_0000 * c[13],
    ensures
        scalar_limbs_value(s) + c[13] * 0x10000000000000000000000000000000000000000000000000000000000000000000000000000000000000000000000000000000000000000int == scalar_limbs_value(x) + scalar_limbs_value(y),
{
    reveal(scalar_limbs_value);
}

/// A borrow chain over the limbs subtracts the integers, up to the borrow
/// out of the top limb.
proof fn lemma_sub_chain(x: [u32; 14], y: [u32; 14], d: [u32; 14], b: [u32; 14])
    requires
        x[0] - y[0] == d[0] - 0x1_0000_0000 * b[0],
        x[1] - y[1] - b[0] == d[1] - 0x1_0000_0000 * b[1],
        x[2] - y[2] - b[1] == d[2] - 0x1_0000_0000 * b[2],
        x[3] - y[3] - b[2] == d[3] - 0x1_0000_0000 * b[3],
        x[4] - y[4] - b[3] == d[4] - 0x1_0000_0000 * b[4],
        x[5] - y[5] - b[4] == d[5] - 0x1_0000_0000 * b[5],
        x[6] - y[6] - b[5] == d[6] - 0x1_0000_0000 * b[6],
        x[7] - y[7] - b[6] == d[7] - 0x1_0000_0000 * b[7],
        x[8] - y[8] - b[7] == d[8] - 0x1_0000_0000 * b[8],
        x[9] - y[9] - b[8] == d[9] - 0x1_0000_0000 * b[9],
        x[10] - y[10] - b[9] == d[10] - 0x1_0000_0000 * b[10],
        x[11] - y[11] - b[10] == d[11] - 0x1_0000_0000 * b[11],
        x[12] - y[12] - b[11] == d[12] - 0x1_0000_0000 * b[12],
        x[13] - y[13] - b[12] == d[13] - 0x1_0000_0000 * b[13],
    ensures
        scalar_limbs_value(d) - b[13] * 0x10000000000000000000000000000000000000000000000000000000000000000000000000000000000000000000000000000000000000000int == scalar_limbs_value(x) - scalar_limbs_value(y),
{
    reveal(scalar_limbs_value);
}

/// Limbs that are all kept or all cleared stand for the integer or zero.
proof fn lemma_masked(m: [u32; 14], masked: [u32; 14], bit: int)
    requires
        0 <= bit <= 1,
        forall|i: int| 0 <= i < 14 ==> #[trigger] masked[i] == if bit == 1 { m[i] } else { 0 },
    ensures
        scalar_limbs_value(masked) == bit * scalar_limbs_value(m),
{
    reveal(scalar_limbs_value);
    assert(masked[0] == if bit == 1 { m[0] } else { 0 });
    assert(masked[1] == if bit == 1 { m[1] } else { 0 });
    assert(masked[2] == if bit == 1 { m[2] } else { 0 });
    assert(masked[3] == if bit == 1 { m[3] } else { 0 });
    assert(masked[4] == if bit == 1 { m[4] } else { 0 });
    assert(masked[5] == if bit == 1 { m[5] } else { 0 });
    assert(masked[6] == if bit == 1 { m[6] } else { 0 });
    assert(masked[7] == if bit == 1 { m[7] } else { 0 });
    assert(masked[8] == if bit == 1 { m[8] } else { 0 });
    assert(masked[9] == if bit == 1 { m[9] } else { 0 });
    assert(masked[10] == if bit == 1 { m[10] } else { 0 });
    assert(masked[11] == if bit == 1 { m[11] } else { 0 });
    assert(masked[12] == if bit == 1 { m[12] } else { 0 });
    assert(masked[13] == if bit == 1 { m[13] } else { 0 });
}

/// A number times a sum of fourteen weighted terms, term by term.
proof fn lemma_distribute(a: int, y: [int; 14])
    ensures
        a * (y[0] + y[1] * 0x100000000int + y[2] * 0x10000000000000000int + y[3] * 0x1000000000000000000000000int + y[4] * 0x100000000000000000000000000000000int + y[5] * 0x10000000000000000000000000000000000000000int + y[6] * 0x1000000000000000000000000000000000000000000000000int + y[7] * 0x100000000000000000000000000000000000000000000000000000000int + y[8] * 0x10000000000000000000000000000000000000000000000000000000000000000int + y[9] * 0x1000000000000000000000000000000000000000000000000000000000000000000000000int + y[10] * 0x100000000000000000000000000000000000000000000000000000000000000000000000000000000int + y[11] * 0x10000000000000000000000000000000000000000000000000000000000000000000000000000000000000000int + y[12] * 0x1000000000000000000000000000000000000000000000000000000000000000000000000000000000000000000000000int + y[13] * 0x100000000000000000000000000000000000000000000000000000000000000000000000000000000000000000000000000000000int)
            == (a * y[0]) + (a * y[1]) * 0x100000000int + (a * y[2]) * 0x10000000000000000int + (a * y[3]) * 0x1000000000000000000000000int + (a * y[4]) * 0x100000000000000000000000000000000int + (a * y[5]) * 0x10000000000000000000000000000000000000000int + (a * y[6]) * 0x1000000000000000000000000000000000000000000000000int + (a * y[7]) * 0x100000000000000000000000000000000000000000000000000000000int + (a * y[8]) * 0x10000000000000000000000000000000000000000000000000000000000000000int + (a * y[9]) * 0x1000000000000000000000000000000000000000000000000000000000000000000000000int + (a * y[10]) * 0x100000000000000000000000000000000000000000000000000000000000000000000000000000000int + (a * y[11]) * 0x10000000000000000000000000000000000000000000000000000000000000000000000000000000000000000int + (a * y[12]) * 0x1000000000000000000000000000000000000000000000000000000000000000000000000000000000000000000000000int + (a * y[13]) * 0x100000000000000000000000000000000000000000000000000000000000000000000000000000000000000000000000000000000int,
{
    let y0 = y[0];
    let y1 = y[1];
    let y2 = y[2];
    let y3 = y[3];
    let y4 = y[4];
    let y5 = y[5];
    let y6 = y[6];
    let y7 = y[7];
    let y8 = y[8];
    let y9 = y[9];
    let y10 = y[10];
    let y11 = y[11];
    let y12 = y[12];
    let y13 = y[13];
    assert(a * (y0 + y1 * 0x100000000int + y2 * 0x10000000000000000int + y3 * 0x1000000000000000000000000int + y4 * 0x100000000000000000000000000000000int + y5 * 0x10000000000000000000000000000000000000000int + y6 * 0x1000000000000000000000000000000000000000000000000int + y7 * 0x100000000000000000000000000000000000000000000000000000000int + y8 * 0x10000000000000000000000000000000000000000000000000000000000000000int + y9 * 0x1000000000000000000000000000000000000000000000000000000000000000000000000int + y10 * 0x100000000000000000000000000000000000000000000000000000000000000000000000000000000int + y11 * 0x10000000000000000000000000000000000000000000000000000000000000000000000000000000000000000int + y12 * 0x1000000000000000000000000000000000000000000000000000000000000000000000000000000000000000000000000int + y13 * 0x100000000000000000000000000000000000000000000000000000000000000000000000000000000000000000000000000000000int)
        == (a * y0) + (a * y1) * 0x100000000int + (a * y2) * 0x10000000000000000int + (a * y3) * 0x1000000000000000000000000int + (a * y4) * 0x100000000000000000000000000000000int + (a * y5) * 0x10000000000000000000000000000000000000000int + (a * y6) * 0x1000000000000000000000000000000000000000000000000int + (a * y7) * 0x100000000000000000000000000000000000000000000000000000000int + (a * y8) * 0x10000000000000000000000000000000000000000000000000000000000000000int + (a * y9) * 0x1000000000000000000000000000000000000000000000000000000000000000000000000int + (a * y10) * 0x100000000000000000000000000000000000000000000000000000000000000000000000000000000int + (a * y11) * 0x10000000000000000000000000000000000000000000000000000000000000000000000000000000000000000int + (a * y12) * 0x1000000000000000000000000000000000000000000000000000000000000000000000000000000000000000000000000int + (a * y13) * 0x100000000000000000000000000000000000000000000000000000000000000000000000000000000000000000000000000000000int) by (nonlinear_arith);
}

/// A multiply-and-accumulate chain over the limbs adds `xi` times the
/// integer of `y` to the accumulator, up to the carry out of the top limb.
proof fn lemma_mac_row(xi: int, y: [u32; 14], acc: [u32; 14], a: [u32; 14], k: [u32; 14])
    requires
        xi * y[0] + acc[0] == a[0] + 0x1_0000_0000 * k[0],
        xi * y[1] + acc[1] + k[0] == a[1] + 0x1_0000_0000 * k[1],
        xi * y[2] + acc[2] + k[1] == a[2] + 0x1_0000_0000 * k[2],
        xi * y[3] + acc[3] + k[2] == a[3] + 0x1_0000_0000 * k[3],
        xi * y[4] + acc[4] + k[3] == a[4] + 0x1_0000_0000 * k[4],
        xi * y[5] + acc[5] + k[4] == a[5] + 0x1_0000_0000 * k[5],
        xi * y[6] + acc[6] + k[5] == a[6] + 0x1_0000_0000 * k[6],
        xi * y[7] + acc[7] + k[6] == a[7] + 0x1_0000_0000 * k[7],
        xi * y[8] + acc[8] + k[7] == a[8] + 0x1_0000_0000 * k[8],
        xi * y[9] + acc[9] + k[8] == a[9] + 0x1_0000_0000 * k[9],
        xi * y[10] + acc[10] + k[9] == a[10] + 0x1_0000_0000 * k[10],
        xi * y[11] + acc[11] + k[10] == a[11] + 0x1_0000_0000 * k[11],
        xi * y[12] + acc[12] + k[11] == a[12] + 0x1_0000_0000 * k[12],
        xi * y[13] + acc[13] + k[12] == a[13] + 0x1_0000_0000 * k[13],
    ensures
        scalar_limbs_value(a) + k[13] * 0x10000000000000000000000000000000000000000000000000000000000000000000000000000000000000000000000000000000000000000int == scalar_limbs_value(acc) + xi * scalar_limbs_value(y),
{
    reveal(scalar_limbs_value);
    lemma_distribute(xi, [y[0] as int, y[1] as int, y[2] as int, y[3] as int, y[4] as int, y[5] as int, y[6] as int, y[7] as int, y[8] as int, y[9] as int, y[10] as int, y[11] as int, y[12] as int, y[13] as int]);
}

/// A chain that adds `w` times the order to an accumulator whose low word
/// that multiple clears, and drops the cleared word, divides by `2^32`.
proof fn lemma_reduce_row(w: int, a: [u32; 14], z: [u32; 13], h: [u32; 14])
    requires
        w * 0xab5844f3 + a[0] == 0x1_0000_0000 * h[0],
        w * 0x2378c292 + a[1] + h[0] == z[0] + 0x1_0000_0000 * h[1],
        w * 0x8dc58f55 + a[2] + h[1] == z[1] + 0x1_0000_0000 * h[2],
        w * 0x216cc272 + a[3] + h[2] == z[2] + 0x1_0000_0000 * h[3],
        w * 0xaed63690 + a[4] + h[3] == z[3] + 0x1_0000_0000 * h[4],
        w * 0xc44edb49 + a[5] + h[4] == z[4] + 0x1_0000_0000 * h[5],
        w * 0x7cca23e9 + a[6] + h[5] == z[5] + 0x1_0000_0000 * h[6],
        w * 0xffffffff + a[7] + h[6] == z[6] + 0x1_0000_0000 * h[7],
        w * 0xffffffff + a[8] + h[7] == z[7] + 0x1_0000_0000 * h[8],
        w * 0xffffffff + a[9] + h[8] == z[8] + 0x1_0000_0000 * h[9],
        w * 0xffffffff + a[10] + h[9] == z[9] + 0x1_0000_0000 * h[10],
        w * 0xffffffff + a[11] + h[10] == z[10] + 0x1_0000_0000 * h[11],
        w * 0xffffffff + a[12] + h[11] == z[11] + 0x1_0000_0000 * h[12],
        w * 0x3fffffff + a[13] + h[12] == z[12] + 0x1_0000_0000 * h[13],
    ensures
        (z[0] + z[1] * 0x100000000int + z[2] * 0x10000000000000000int + z[3] * 0x1000000000000000000000000int + z[4] * 0x100000000000000000000000000000000int + z[5] * 0x10000000000000000000000000000000000000000int + z[6] * 0x1000000000000000000000000000000000000000000000000int + z[7] * 0x100000000000000000000000000000000000000000000000000000000int + z[8] * 0x10000000000000000000000000000000000000000000000000000000000000000int + z[9] * 0x1000000000000000000000000000000000000000000000000000000000000000000000000int + z[10] * 0x100000000000000000000000000000000000000000000000000000000000000000000000000000000int + z[11] * 0x10000000000000000000000000000000000000000000000000000000000000000000000000000000000000000int + z[12] * 0x1000000000000000000000000000000000000000000000000000000000000000000000000000000000000000000000000int) * 0x1_0000_0000 + h[13] * 0x10000000000000000000000000000000000000000000000000000000000000000000000000000000000000000000000000000000000000000int == scalar_limbs_value(a) + w * scalar_modulus(),
{
    reveal(scalar_limbs_value);
}

/// The top limb of a reduced row: the carry of the chain and the carries
/// that came in, split into a limb and the carry out.
proof fn lemma_reduce_top(z: [u32; 13], out: [u32; 14], h: int, incoming: int, carry_out: int, total: int)
    requires
        (z[0] + z[1] * 0x100000000int + z[2] * 0x10000000000000000int + z[3] * 0x1000000000000000000000000int + z[4] * 0x100000000000000000000000000000000int + z[5] * 0x10000000000000000000000000000000000000000int + z[6] * 0x1000000000000000000000000000000000000000000000000int + z[7] * 0x100000000000000000000000000000000000000000000000000000000int + z[8] * 0x10000000000000000000000000000000000000000000000000000000000000000int + z[9] * 0x1000000000000000000000000000000000000000000000000000000000000000000000000int + z[10] * 0x100000000000000000000000000000000000000000000000000000000000000000000000000000000int + z[11] * 0x10000000000000000000000000000000000000000000000000000000000000000000000000000000000000000int + z[12] * 0x1000000000000000000000000000000000000000000000000000000000000000000000000000000000000000000000000int) * 0x1_0000_0000 + h * 0x10000000000000000000000000000000000000000000000000000000000000000000000000000000000000000000000000000000000000000int == total,
        h + incoming == carry_out * 0x1_0000_0000 + out[13],
        out[0] == z[0],
        out[1] == z[1],
        out[2] == z[2],
        out[3] == z[3],
        out[4] == z[4],
        out[5] == z[5],
        out[6] == z[6],
        out[7] == z[7],
        out[8] == z[8],
        out[9] == z[9],
        out[10] == z[10],
        out[11] == z[11],
        out[12] == z[12],
    ensures
        (scalar_limbs_value(out) + carry_out * 0x10000000000000000000000000000000000000000000000000000000000000000000000000000000000000000000000000000000000000000int) * 0x1_0000_0000 == total + incoming * 0x10000000000000000000000000000000000000000000000000000000000000000000000000000000000000000000000000000000000000000int,
{
    reveal(scalar_limbs_value);
}

/// Adds `xi` times `y` to the accumulator, limb by limb, and returns the
/// sum with the carry out of the top limb.
fn mac_limbs(acc: &[u32; 14], xi: u32, y: &[u32; 14]) -> (r: ([u32; 14], u32))
    ensures
        scalar_limbs_value(r.0) + r.1 * 0x10000000000000000000000000000000000000000000000000000000000000000000000000000000000000000000000000000000000000000int == scalar_limbs_value(*acc) + xi * scalar_limbs_value(
            *y,
        ),
{
    let (a0, k0) = mac(xi, y[0], acc[0], 0);
    let (a1, k1) = mac(xi, y[1], acc[1], k0);
    let (a2, k2) = mac(xi, y[2], acc[2], k1);
    let (a3, k3) = mac(xi, y[3], acc[3], k2);
    let (a4, k4) = mac(xi, y[4], acc[4], k3);
    let (a5, k5) = mac(xi, y[5], acc[5], k4);
    let (a6, k6) = mac(xi, y[6], acc[6], k5);
    let (a7, k7) = mac(xi, y[7], acc[7], k6);
    let (a8, k8) = mac(xi, y[8], acc[8], k7);
    let (a9, k9) = mac(xi, y[9], acc[9], k8);
    let (a10, k10) = mac(xi, y[10], acc[10], k9);
    let (a11, k11) = mac(xi, y[11], acc[11], k10);
    let (a12, k12) = mac(xi, y[12], acc[12], k11);
    let (a13, k13) = mac(xi, y[13], acc[13], k12);

    proof {
        lemma_mac_row(xi as int, *y, *acc, [a0, a1, a2, a3, a4, a5, a6, a7, a8, a9, a10, a11, a12, a13], [k0, k1, k2, k3, k4, k5, k6, k7, k8, k9, k10, k11, k12, k13]);
    }
    ([a0, a1, a2, a3, a4, a5, a6, a7, a8, a9, a10, a11, a12, a13], k13)
}

/// Adds to the accumulator the multiple of the order that clears its low
/// word and drops that word. Returns the thirteen limbs that are left, the
/// carry out of the top limb, and the multiple.
fn reduce_chain(a: &[u32; 14]) -> (r: ([u32; 13], u32, Ghost<int>))
    ensures
        (r.0[0] + r.0[1] * 0x100000000int + r.0[2] * 0x10000000000000000int + r.0[3] * 0x1000000000000000000000000int + r.0[4] * 0x100000000000000000000000000000000int + r.0[5] * 0x10000000000000000000000000000000000000000int + r.0[6] * 0x1000000000000000000000000000000000000000000000000int + r.0[7] * 0x100000000000000000000000000000000000000000000000000000000int + r.0[8] * 0x10000000000000000000000000000000000000000000000000000000000000000int + r.0[9] * 0x1000000000000000000000000000000000000000000000000000000000000000000000000int + r.0[10] * 0x100000000000000000000000000000000000000000000000000000000000000000000000000000000int + r.0[11] * 0x10000000000000000000000000000000000000000000000000000000000000000000000000000000000000000int + r.0[12] * 0x1000000000000000000000000000000000000000000000000000000000000000000000000000000000000000000000000int) * 0x1_0000_0000 + r.1 * 0x10000000000000000000000000000000000000000000000000000000000000000000000000000000000000000000000000000000000000000int == scalar_limbs_value(*a) + r.2@ * 0x3fffffffffffffffffffffffffffffffffffffffffffffffffffffff7cca23e9c44edb49aed63690216cc2728dc58f552378c292ab5844f3int,
        0 <= r.2@ <= 0xffff_ffff,
{
    let (multiplicand, h0) = reduce_first(a[0]);
    let (z0, h1) = mac(multiplicand, 0x2378c292, a[1], h0);
    let (z1, h2) = mac(multiplicand, 0x8dc58f55, a[2], h1);
    let (z2, h3) = mac(multiplicand, 0x216cc272, a[3], h2);
    let (z3, h4) = mac(multiplicand, 0xaed63690, a[4], h3);
    let (z4, h5) = mac(multiplicand, 0xc44edb49, a[5], h4);
    let (z5, h6) = mac(multiplicand, 0x7cca23e9, a[6], h5);
    let (z6, h7) = mac(multiplicand, 0xffffffff, a[7], h6);
    let (z7, h8) = mac(multiplicand, 0xffffffff, a[8], h7);
    let (z8, h9) = mac(multiplicand, 0xffffffff, a[9], h8);
    let (z9, h10) = mac(multiplicand, 0xffffffff, a[10], h9);
    let (z10, h11) = mac(multiplicand, 0xffffffff, a[11], h10);
    let (z11, h12) = mac(multiplicand, 0xffffffff, a[12], h11);
    let (z12, h13) = mac(multiplicand, 0x3fffffff, a[13], h12);

    proof {
        lemma_reduce_row(multiplicand as int, *a, [z0, z1, z2, z3, z4, z5, z6, z7, z8, z9, z10, z11, z12], [h0, h1, h2, h3, h4, h5, h6, h7, h8, h9, h10, h11, h12, h13]);
    }
    ([z0, z1, z2, z3, z4, z5, z6, z7, z8, z9, z10, z11, z12], h13, Ghost(multiplicand as int))
}

/// Adds to the accumulator the multiple of the order that clears its low
/// word, drops that word, and lets the two carries in at the top. Also
/// returns the multiple.
fn reduce_limbs(a: &[u32; 14], saved: u32, carry: u32) -> (r: ([u32; 14], u32, Ghost<int>))
    requires
        carry <= 1,
    ensures
        (scalar_limbs_value(r.0) + r.1 * 0x10000000000000000000000000000000000000000000000000000000000000000000000000000000000000000000000000000000000000000int) * 0x1_0000_0000 == scalar_limbs_value(*a) + (saved
            + carry) * 0x10000000000000000000000000000000000000000000000000000000000000000000000000000000000000000000000000000000000000000int + r.2@ * 0x3fffffffffffffffffffffffffffffffffffffffffffffffffffffff7cca23e9c44edb49aed63690216cc2728dc58f552378c292ab5844f3int,
        0 <= r.2@ <= 0xffff_ffff,
        r.1 <= 2,
{
    let (z, high, Ghost(multiple)) = reduce_chain(a);
    let top = high as u64 + saved as u64 + carry as u64;
    assert(top <= 0x2_0000_0000 ==> top == (top >> 32) * 0x1_0000_0000 + (top & 0xffff_ffff) && (top
        >> 32) <= 2 && (top & 0xffff_ffff) <= 0xffff_ffff) by (bit_vector);
    let z13 = (top & 0xffff_ffff) as u32;
    let carry_out = (top >> 32) as u32;
    let out = [z[0], z[1], z[2], z[3], z[4], z[5], z[6], z[7], z[8], z[9], z[10], z[11], z[12], z13];
    proof {
        lemma_reduce_top(
            z,
            out,
            high as int,
            saved as int + carry as int,
            carry_out as int,
            scalar_limbs_value(*a) + multiple * 0x3fffffffffffffffffffffffffffffffffffffffffffffffffffffff7cca23e9c44edb49aed63690216cc2728dc58f552378c292ab5844f3int,
        );
    }
    (out, carry_out, Ghost(multiple))
}

/// One round of the Montgomery multiplication: adds `xi` times `y` to the
/// accumulator, then the multiple of the order that clears its low word,
/// and drops that word. Also returns the multiple.
fn montgomery_row(acc: &[u32; 14], carry: u32, xi: u32, y: &[u32; 14]) -> (r: (
    [u32; 14],
    u32,
    Ghost<int>,
))
    requires
        carry <= 1,
        scalar_limbs_value(*acc) + carry * 0x10000000000000000000000000000000000000000000000000000000000000000000000000000000000000000000000000000000000000000int < scalar_limbs_value(*y) + scalar_modulus(),
    ensures
        (scalar_limbs_value(r.0) + r.1 * 0x10000000000000000000000000000000000000000000000000000000000000000000000000000000000000000000000000000000000000000int) * 0x1_0000_0000 == scalar_limbs_value(*acc) + carry
            * 0x10000000000000000000000000000000000000000000000000000000000000000000000000000000000000000000000000000000000000000int + xi * scalar_limbs_value(*y) + r.2@ * 0x3fffffffffffffffffffffffffffffffffffffffffffffffffffffff7cca23e9c44edb49aed63690216cc2728dc58f552378c292ab5844f3int,
        0 <= r.2@ <= 0xffff_ffff,
        r.1 <= 1,
        scalar_limbs_value(r.0) + r.1 * 0x10000000000000000000000000000000000000000000000000000000000000000000000000000000000000000000000000000000000000000int < scalar_limbs_value(*y) + scalar_modulus(),
{
    let (sum, saved) = mac_limbs(acc, xi, y);
    let (out, carry_out, Ghost(multiple)) = reduce_limbs(&sum, saved, carry);
    proof {
        let yv = scalar_limbs_value(*y);
        lemma_scalar_bound(out);
        lemma_scalar_bound(*y);
        assert(xi * yv <= 0xffff_ffff * yv) by (nonlinear_arith)
            requires
                0 <= xi <= 0xffff_ffff,
                0 <= yv,
        ;
    }
    (out, carry_out, Ghost(multiple))
}

/// Fourteen rounds of the Montgomery multiplication multiply by `x` and
/// divide by `2^448`, up to a multiple of the order.
proof fn lemma_rows(a: [u32; 14], yv: int, t: [int; 15], m: [int; 14]) -> (q: int)
    requires
        t[0] == 0,
        t[1] * 0x1_0000_0000 == t[0] + a[0] * yv + m[0] * 0x3fffffffffffffffffffffffffffffffffffffffffffffffffffffff7cca23e9c44edb49aed63690216cc2728dc58f552378c292ab5844f3int,
        t[2] * 0x1_0000_0000 == t[1] + a[1] * yv + m[1] * 0x3fffffffffffffffffffffffffffffffffffffffffffffffffffffff7cca23e9c44edb49aed63690216cc2728dc58f552378c292ab5844f3int,
        t[3] * 0x1_0000_0000 == t[2] + a[2] * yv + m[2] * 0x3fffffffffffffffffffffffffffffffffffffffffffffffffffffff7cca23e9c44edb49aed63690216cc2728dc58f552378c292ab5844f3int,
        t[4] * 0x1_0000_0000 == t[3] + a[3] * yv + m[3] * 0x3fffffffffffffffffffffffffffffffffffffffffffffffffffffff7cca23e9c44edb49aed63690216cc2728dc58f552378c292ab5844f3int,
        t[5] * 0x1_0000_0000 == t[4] + a[4] * yv + m[4] * 0x3fffffffffffffffffffffffffffffffffffffffffffffffffffffff7cca23e9c44edb49aed63690216cc2728dc58f552378c292ab5844f3int,
        t[6] * 0x1_0000_0000 == t[5] + a[5] * yv + m[5] * 0x3fffffffffffffffffffffffffffffffffffffffffffffffffffffff7cca23e9c44edb49aed63690216cc2728dc58f552378c292ab5844f3int,
        t[7] * 0x1_0000_0000 == t[6] + a[6] * yv + m[6] * 0x3fffffffffffffffffffffffffffffffffffffffffffffffffffffff7cca23e9c44edb49aed63690216cc2728dc58f552378c292ab5844f3int,
        t[8] * 0x1_0000_0000 == t[7] + a[7] * yv + m[7] * 0x3fffffffffffffffffffffffffffffffffffffffffffffffffffffff7cca23e9c44edb49aed63690216cc2728dc58f552378c292ab5844f3int,
        t[9] * 0x1_0000_0000 == t[8] + a[8] * yv + m[8] * 0x3fffffffffffffffffffffffffffffffffffffffffffffffffffffff7cca23e9c44edb49aed63690216cc2728dc58f552378c292ab5844f3int,
        t[10] * 0x1_0000_0000 == t[9] + a[9] * yv + m[9] * 0x3fffffffffffffffffffffffffffffffffffffffffffffffffffffff7cca23e9c44edb49aed63690216cc2728dc58f552378c292ab5844f3int,
        t[11] * 0x1_0000_0000 == t[10] + a[10] * yv + m[10] * 0x3fffffffffffffffffffffffffffffffffffffffffffffffffffffff7cca23e9c44edb49aed63690216cc2728dc58f552378c292ab5844f3int,
        t[12] * 0x1_0000_0000 == t[11] + a[11] * yv + m[11] * 0x3fffffffffffffffffffffffffffffffffffffffffffffffffffffff7cca23e9c44edb49aed63690216cc2728dc58f552378c292ab5844f3int,
        t[13] * 0x1_0000_0000 == t[12] + a[12] * yv + m[12] * 0x3fffffffffffffffffffffffffffffffffffffffffffffffffffffff7cca23e9c44edb49aed63690216cc2728dc58f552378c292ab5844f3int,
        t[14] * 0x1_0000_0000 == t[13] + a[13] * yv + m[13] * 0x3fffffffffffffffffffffffffffffffffffffffffffffffffffffff7cca23e9c44edb49aed63690216cc2728dc58f552378c292ab5844f3int,
    ensures
        t[14] * 0x10000000000000000000000000000000000000000000000000000000000000000000000000000000000000000000000000000000000000000int == scalar_limbs_value(a) * yv + q * 0x3fffffffffffffffffffffffffffffffffffffffffffffffffffffff7cca23e9c44edb49aed63690216cc2728dc58f552378c292ab5844f3int,
{
    reveal(scalar_limbs_value);
    lemma_distribute(yv, [a[0] as int, a[1] as int, a[2] as int, a[3] as int, a[4] as int, a[5] as int, a[6] as int, a[7] as int, a[8] as int, a[9] as int, a[10] as int, a[11] as int, a[12] as int, a[13] as int]);
    assert(scalar_limbs_value(a) * yv == yv * (a[0] + a[1] * 0x100000000int + a[2] * 0x10000000000000000int + a[3] * 0x1000000000000000000000000int + a[4] * 0x100000000000000000000000000000000int + a[5] * 0x10000000000000000000000000000000000000000int + a[6] * 0x1000000000000000000000000000000000000000000000000int + a[7] * 0x100000000000000000000000000000000000000000000000000000000int + a[8] * 0x10000000000000000000000000000000000000000000000000000000000000000int + a[9] * 0x1000000000000000000000000000000000000000000000000000000000000000000000000int + a[10] * 0x100000000000000000000000000000000000000000000000000000000000000000000000000000000int + a[11] * 0x10000000000000000000000000000000000000000000000000000000000000000000000000000000000000000int + a[12] * 0x1000000000000000000000000000000000000000000000000000000000000000000000000000000000000000000000000int + a[13] * 0x100000000000000000000000000000000000000000000000000000000000000000000000000000000000000000000000000000000int)) by (nonlinear_arith)
        requires
            scalar_limbs_value(a) == a[0] + a[1] * 0x100000000int + a[2] * 0x10000000000000000int + a[3] * 0x1000000000000000000000000int + a[4] * 0x100000000000000000000000000000000int + a[5] * 0x10000000000000000000000000000000000000000int + a[6] * 0x1000000000000000000000000000000000000000000000000int + a[7] * 0x100000000000000000000000000000000000000000000000000000000int + a[8] * 0x10000000000000000000000000000000000000000000000000000000000000000int + a[9] * 0x1000000000000000000000000000000000000000000000000000000000000000000000000int + a[10] * 0x100000000000000000000000000000000000000000000000000000000000000000000000000000000int + a[11] * 0x10000000000000000000000000000000000000000000000000000000000000000000000000000000000000000int + a[12] * 0x1000000000000000000000000000000000000000000000000000000000000000000000000000000000000000000000000int + a[13] * 0x100000000000000000000000000000000000000000000000000000000000000000000000000000000000000000000000000000000int,
    ;
    assert(yv * a[0] == a[0] * yv) by (nonlinear_arith);
    assert(yv * a[1] == a[1] * yv) by (nonlinear_arith);
    assert(yv * a[2] == a[2] * yv) by (nonlinear_arith);
    assert(yv * a[3] == a[3] * yv) by (nonlinear_arith);
    assert(yv * a[4] == a[4] * yv) by (nonlinear_arith);
    assert(yv * a[5] == a[5] * yv) by (nonlinear_arith);
    assert(yv * a[6] == a[6] * yv) by (nonlinear_arith);
    assert(yv * a[7] == a[7] * yv) by (nonlinear_arith);
    assert(yv * a[8] == a[8] * yv) by (nonlinear_arith);
    assert(yv * a[9] == a[9] * yv) by (nonlinear_arith);
    assert(yv * a[10] == a[10] * yv) by (nonlinear_arith);
    assert(yv * a[11] == a[11] * yv) by (nonlinear_arith);
    assert(yv * a[12] == a[12] * yv) by (nonlinear_arith);
    assert(yv * a[13] == a[13] * yv) by (nonlinear_arith);
    m[0] + m[1] * 0x100000000int + m[2] * 0x10000000000000000int + m[3] * 0x1000000000000000000000000int + m[4] * 0x100000000000000000000000000000000int + m[5] * 0x10000000000000000000000000000000000000000int + m[6] * 0x1000000000000000000000000000000000000000000000000int + m[7] * 0x100000000000000000000000000000000000000000000000000000000int + m[8] * 0x10000000000000000000000000000000000000000000000000000000000000000int + m[9] * 0x1000000000000000000000000000000000000000000000000000000000000000000000000int + m[10] * 0x100000000000000000000000000000000000000000000000000000000000000000000000000000000int + m[11] * 0x10000000000000000000000000000000000000000000000000000000000000000000000000000000000000000int + m[12] * 0x1000000000000000000000000000000000000000000000000000000000000000000000000000000000000000000000000int + m[13] * 0x100000000000000000000000000000000000000000000000000000000000000000000000000000000000000000000000000000000int
}

/// The Montgomery product of two scalars: `x y / 2^448` modulo `l`. The
/// product is canonical where `y` is.
pub fn montgomery_multiply(x: &Scalar, y: &Scalar) -> (r: Scalar)
    ensures
        r.value() % scalar_modulus() == montgomery_product(x.value(), y.value()),
        y.value() < scalar_modulus() ==> r.value() < scalar_modulus(),
{
    let a = x.0;
    let t0 = Scalar::zero().0;
    let q0: u32 = 0;
    proof {
        lemma_scalar_bound(y.0);
    }
    let (t1, q1, Ghost(m0)) = montgomery_row(&t0, q0, a[0], &y.0);
    let (t2, q2, Ghost(m1)) = montgomery_row(&t1, q1, a[1], &y.0);
    let (t3, q3, Ghost(m2)) = montgomery_row(&t2, q2, a[2], &y.0);
    let (t4, q4, Ghost(m3)) = montgomery_row(&t3, q3, a[3], &y.0);
    let (t5, q5, Ghost(m4)) = montgomery_row(&t4, q4, a[4], &y.0);
    let (t6, q6, Ghost(m5)) = montgomery_row(&t5, q5, a[5], &y.0);
    let (t7, q7, Ghost(m6)) = montgomery_row(&t6, q6, a[6], &y.0);
    let (t8, q8, Ghost(m7)) = montgomery_row(&t7, q7, a[7], &y.0);
    let (t9, q9, Ghost(m8)) = montgomery_row(&t8, q8, a[8], &y.0);
    let (t10, q10, Ghost(m9)) = montgomery_row(&t9, q9, a[9], &y.0);
    let (t11, q11, Ghost(m10)) = montgomery_row(&t10, q10, a[10], &y.0);
    let (t12, q12, Ghost(m11)) = montgomery_row(&t11, q11, a[11], &y.0);
    let (t13, q13, Ghost(m12)) = montgomery_row(&t12, q12, a[12], &y.0);
    let (t14, q14, Ghost(m13)) = montgomery_row(&t13, q13, a[13], &y.0);

    let result = sub_extra(&Scalar(t14), &modulus(), q14);
    proof {
        let yv = y.value();
        let xv = x.value();
        let full = scalar_limbs_value(t14) + q14 * 0x10000000000000000000000000000000000000000000000000000000000000000000000000000000000000000000000000000000000000000int;
        let q = lemma_rows(
            a,
            yv,
            [scalar_limbs_value(t0) + q0 * 0x10000000000000000000000000000000000000000000000000000000000000000000000000000000000000000000000000000000000000000int, scalar_limbs_value(t1) + q1 * 0x10000000000000000000000000000000000000000000000000000000000000000000000000000000000000000000000000000000000000000int, scalar_limbs_value(t2) + q2 * 0x10000000000000000000000000000000000000000000000000000000000000000000000000000000000000000000000000000000000000000int, scalar_limbs_value(t3) + q3 * 0x10000000000000000000000000000000000000000000000000000000000000000000000000000000000000000000000000000000000000000int, scalar_limbs_value(t4) + q4 * 0x10000000000000000000000000000000000000000000000000000000000000000000000000000000000000000000000000000000000000000int, scalar_limbs_value(t5) + q5 * 0x10000000000000000000000000000000000000000000000000000000000000000000000000000000000000000000000000000000000000000int, scalar_limbs_value(t6) + q6 * 0x10000000000000000000000000000000000000000000000000000000000000000000000000000000000000000000000000000000000000000int, scalar_limbs_value(t7) + q7 * 0x10000000000000000000000000000000000000000000000000000000000000000000000000000000000000000000000000000000000000000int, scalar_limbs_value(t8) + q8 * 0x10000000000000000000000000000000000000000000000000000000000000000000000000000000000000000000000000000000000000000int, scalar_limbs_value(t9) + q9 * 0x10000000000000000000000000000000000000000000000000000000000000000000000000000000000000000000000000000000000000000int, scalar_limbs_value(t10) + q10 * 0x10000000000000000000000000000000000000000000000000000000000000000000000000000000000000000000000000000000000000000int, scalar_limbs_value(t11) + q11 * 0x10000000000000000000000000000000000000000000000000000000000000000000000000000000000000000000000000000000000000000int, scalar_limbs_value(t12) + q12 * 0x10000000000000000000000000000000000000000000000000000000000000000000000000000000000000000000000000000000000000000int, scalar_limbs_value(t13) + q13 * 0x10000000000000000000000000000000000000000000000000000000000000000000000000000000000000000000000000000000000000000int, scalar_limbs_value(t14) + q14 * 0x10000000000000000000000000000000000000000000000000000000000000000000000000000000000000000000000000000000000000000int],
            [m0, m1, m2, m3, m4, m5, m6, m7, m8, m9, m10, m11, m12, m13],
        );
        lemma_scalar_bound(t14);
        lemma_scalar_bound(result.0);
        let borrowed: int = if full >= scalar_modulus() {
            1
        } else {
            0
        };
        assert(result.value() == full - borrowed * scalar_modulus());
        lemma_montgomery_residue(xv, yv, result.value(), q - borrowed * 0x10000000000000000000000000000000000000000000000000000000000000000000000000000000000000000000000000000000000000000int);
    }
    result
}

/// If `r 2^448 = x y` up to a multiple of the order, `r` is the Montgomery
/// product of `x` and `y` up to a multiple of the order.
proof fn lemma_montgomery_residue(x: int, y: int, r: int, q: int)
    requires
        r * 0x10000000000000000000000000000000000000000000000000000000000000000000000000000000000000000000000000000000000000000int == x * y + q * 0x3fffffffffffffffffffffffffffffffffffffffffffffffffffffff7cca23e9c44edb49aed63690216cc2728dc58f552378c292ab5844f3int,
    ensures
        r % scalar_modulus() == montgomery_product(x, y),
{
    let l = scalar_modulus();
    let inv = montgomery_inverse();
    let k = 0xac7df707debec882cf6f59e6ca1314da15b075b3279fdd2d649b22489cec3fbef3c3d3bacb597189a0ec1456b6862d0a03bd440fae918bc5int;
    assert(0x10000000000000000000000000000000000000000000000000000000000000000000000000000000000000000000000000000000000000000int * inv == 1 + k * l);
    let n = r * k - q * inv;
    assert(x * y * inv == n * l + r) by (nonlinear_arith)
        requires
            r * 0x10000000000000000000000000000000000000000000000000000000000000000000000000000000000000000000000000000000000000000int == x * y + q * l,
            0x10000000000000000000000000000000000000000000000000000000000000000000000000000000000000000000000000000000000000000int * inv == 1 + k * l,
            n == r * k - q * inv,
    ;
    vstd::arithmetic::div_mod::lemma_mod_multiples_vanish(n, r, l);
}

/// The limb-wise sum of two long integers, with the carry out of the top
/// limb.
fn add_limbs(x: &[u32; 14], y: &[u32; 14]) -> (r: ([u32; 14], u32))
    ensures
        scalar_limbs_value(r.0) + r.1 * 0x10000000000000000000000000000000000000000000000000000000000000000000000000000000000000000000000000000000000000000int == scalar_limbs_value(*x) + scalar_limbs_value(*y),
        r.1 <= 1,
{
    let (s0, c0) = adc(x[0], y[0], 0);
    let (s1, c1) = adc(x[1], y[1], c0);
    let (s2, c2) = adc(x[2], y[2], c1);
    let (s3, c3) = adc(x[3], y[3], c2);
    let (s4, c4) = adc(x[4], y[4], c3);
    let (s5, c5) = adc(x[5], y[5], c4);
    let (s6, c6) = adc(x[6], y[6], c5);
    let (s7, c7) = adc(x[7], y[7], c6);
    let (s8, c8) = adc(x[8], y[8], c7);
    let (s9, c9) = adc(x[9], y[9], c8);
    let (s10, c10) = adc(x[10], y[10], c9);
    let (s11, c11) = adc(x[11], y[11], c10);
    let (s12, c12) = adc(x[12], y[12], c11);
    let (s13, c13) = adc(x[13], y[13], c12);

    proof {
        lemma_add_chain(*x, *y, [s0, s1, s2, s3, s4, s5, s6, s7, s8, s9, s10, s11, s12, s13], [c0, c1, c2, c3, c4, c5, c6, c7, c8, c9, c10, c11, c12, c13]);
    }
    ([s0, s1, s2, s3, s4, s5, s6, s7, s8, s9, s10, s11, s12, s13], c13)
}

/// The limb-wise difference of two long integers, with the borrow out of
/// the top limb.
fn sub_limbs(x: &[u32; 14], y: &[u32; 14]) -> (r: ([u32; 14], u32))
    ensures
        scalar_limbs_value(r.0) - r.1 * 0x10000000000000000000000000000000000000000000000000000000000000000000000000000000000000000000000000000000000000000int == scalar_limbs_value(*x) - scalar_limbs_value(*y),
        r.1 <= 1,
{
    let (d0, b0) = sbb(x[0], y[0], 0);
    let (d1, b1) = sbb(x[1], y[1], b0);
    let (d2, b2) = sbb(x[2], y[2], b1);
    let (d3, b3) = sbb(x[3], y[3], b2);
    let (d4, b4) = sbb(x[4], y[4], b3);
    let (d5, b5) = sbb(x[5], y[5], b4);
    let (d6, b6) = sbb(x[6], y[6], b5);
    let (d7, b7) = sbb(x[7], y[7], b6);
    let (d8, b8) = sbb(x[8], y[8], b7);
    let (d9, b9) = sbb(x[9], y[9], b8);
    let (d10, b10) = sbb(x[10], y[10], b9);
    let (d11, b11) = sbb(x[11], y[11], b10);
    let (d12, b12) = sbb(x[12], y[12], b11);
    let (d13, b13) = sbb(x[13], y[13], b12);

    proof {
        lemma_sub_chain(*x, *y, [d0, d1, d2, d3, d4, d5, d6, d7, d8, d9, d10, d11, d12, d13], [b0, b1, b2, b3, b4, b5, b6, b7, b8, b9, b10, b11, b12, b13]);
    }
    ([d0, d1, d2, d3, d4, d5, d6, d7, d8, d9, d10, d11, d12, d13], b13)
}

/// The limbs where `bit` is 1 and zero where it is 0, found by masking.
fn masked_limbs(m: &[u32; 14], bit: u32) -> (r: [u32; 14])
    requires
        bit <= 1,
    ensures
        scalar_limbs_value(r) == bit * scalar_limbs_value(*m),
{
    let r = [
        mask_word(m[0], bit),
        mask_word(m[1], bit),
        mask_word(m[2], bit),
        mask_word(m[3], bit),
        mask_word(m[4], bit),
        mask_word(m[5], bit),
        mask_word(m[6], bit),
        mask_word(m[7], bit),
        mask_word(m[8], bit),
        mask_word(m[9], bit),
        mask_word(m[10], bit),
        mask_word(m[11], bit),
        mask_word(m[12], bit),
        mask_word(m[13], bit),
    ];
    proof {
        lemma_masked(*m, r, bit as int);
    }
    r
}

/// The difference `a + carry 2^448 - b`, with the order added where the
/// difference is negative. The carry may only be set where `a` is below
/// `b`.
pub fn sub_extra(a: &Scalar, b: &Scalar, carry: u32) -> (r: Scalar)
    requires
        carry <= 1,
        carry == 1 ==> a.value() < b.value(),
    ensures
        r.value() == if a.value() + carry * montgomery_radix() - b.value() >= 0 {
            a.value() + carry * montgomery_radix() - b.value()
        } else {
            (a.value() - b.value() + scalar_modulus()) % montgomery_radix()
        },
{
    let (difference, borrow) = sub_limbs(&a.0, &b.0);
    proof {
        lemma_scalar_bound(a.0);
        lemma_scalar_bound(b.0);
        lemma_scalar_bound(difference);
    }
    // Where the subtraction borrowed and no carry came in, the difference is
    // negative and the order is added to it.
    let need = borrow - carry;
    let addend = masked_limbs(&modulus().0, need);
    let (sum, carry_out) = add_limbs(&difference, &addend);
    let r = Scalar(sum);
    proof {
        lemma_scalar_bound(r.0);
        let delta = a.value() - b.value() + scalar_modulus();
        if need == 1 {
            assert(r.value() == delta + (1 - carry_out) * 0x10000000000000000000000000000000000000000000000000000000000000000000000000000000000000000000000000000000000000000int);
            vstd::arithmetic::div_mod::lemma_fundamental_div_mod_converse(
                delta,
                0x10000000000000000000000000000000000000000000000000000000000000000000000000000000000000000000000000000000000000000int,
                carry_out as int - 1,
                r.value(),
            );
        }
    }
    r
}

/// The sum of two scalars modulo `l`: their sum, less the order where the
/// sum reaches it.
pub fn add(a: &Scalar, b: &Scalar) -> (r: Scalar)
    requires
        a.value() + b.value() < montgomery_radix() + scalar_modulus(),
    ensures
        r.value() == if a.value() + b.value() >= scalar_modulus() {
            a.value() + b.value() - scalar_modulus()
        } else {
            a.value() + b.value()
        },
        a.value() + b.value() < 2 * scalar_modulus() ==> r.value() == scalar_add(a.value(), b.value()),
{
    let (sum, carry) = add_limbs(&a.0, &b.0);
    proof {
        lemma_scalar_bound(sum);
        lemma_scalar_bound(a.0);
        lemma_scalar_bound(b.0);
    }
    let r = sub_extra(&Scalar(sum), &modulus(), carry);
    proof {
        let total = a.value() + b.value();
        if total < scalar_modulus() {
            vstd::arithmetic::div_mod::lemma_small_mod(total as nat, montgomery_radix() as nat);
            vstd::arithmetic::div_mod::lemma_small_mod(total as nat, scalar_modulus() as nat);
        } else if total < 2 * scalar_modulus() {
            vstd::arithmetic::div_mod::lemma_fundamental_div_mod_converse(
                total,
                scalar_modulus(),
                1,
                total - scalar_modulus(),
            );
        }
    }
    r
}

impl Scalar {
    /// The integer that the scalar stands for.
    pub open spec fn value(&self) -> int {
        scalar_limbs_value(self.0)
    }

    /// Whether the scalar is below the order.
    pub open spec fn is_canonical(&self) -> bool {
        self.value() < scalar_modulus()
    }

    /// The scalar 1.
    pub fn one() -> (r: Scalar)
        ensures
            r.value() == 1,
    {
        proof {
            reveal(scalar_limbs_value);
        }
        Scalar([1, 0, 0, 0, 0, 0, 0, 0, 0, 0, 0, 0, 0, 0])
    }

    /// The scalar 0.
    pub fn zero() -> (r: Scalar)
        ensures
            r.value() == 0,
    {
        proof {
            reveal(scalar_limbs_value);
        }
        Scalar([0, 0, 0, 0, 0, 0, 0, 0, 0, 0, 0, 0, 0, 0])
    }

    /// The integer quotient of the scalar by four, with no reduction: the
    /// multiplier of a point that has crossed the isogeny both ways.
    pub fn div_by_four(&mut self)
        ensures
            final(self).value() == old(self).value() / 4,
    {
        let x = self.0;
        self.0 = [
            shift_right_two(x[0], x[1]),
            shift_right_two(x[1], x[2]),
            shift_right_two(x[2], x[3]),
            shift_right_two(x[3], x[4]),
            shift_right_two(x[4], x[5]),
            shift_right_two(x[5], x[6]),
            shift_right_two(x[6], x[7]),
            shift_right_two(x[7], x[8]),
            shift_right_two(x[8], x[9]),
            shift_right_two(x[9], x[10]),
            shift_right_two(x[10], x[11]),
            shift_right_two(x[11], x[12]),
            shift_right_two(x[12], x[13]),
            shift_right_two(x[13], 0),
        ];
        proof {
            reveal(scalar_limbs_value);
        }
    }

    /// The scalar read from 56 little-endian bytes, with no reduction.
    pub fn from_bytes(bytes: [u8; 56]) -> (r: Scalar)
        ensures
            r.value() == bytes_value(bytes@),
    {
        let r = Scalar(
            [
            load4(&bytes, 0),
            load4(&bytes, 4),
            load4(&bytes, 8),
            load4(&bytes, 12),
            load4(&bytes, 16),
            load4(&bytes, 20),
            load4(&bytes, 24),
            load4(&bytes, 28),
            load4(&bytes, 32),
            load4(&bytes, 36),
            load4(&bytes, 40),
            load4(&bytes, 44),
            load4(&bytes, 48),
            load4(&bytes, 52),
            ],
        );
        proof {
            reveal(scalar_limbs_value);
            reveal(bytes_value);
        }
        r
    }

    /// The 56 little-endian bytes of the scalar.
    pub fn to_bytes(&self) -> (r: [u8; 56])
        ensures
            bytes_value(r@) == self.value(),
    {
        let l = self.0;
        let g0 = store4(l[0]);
        let g1 = store4(l[1]);
        let g2 = store4(l[2]);
        let g3 = store4(l[3]);
        let g4 = store4(l[4]);
        let g5 = store4(l[5]);
        let g6 = store4(l[6]);
        let g7 = store4(l[7]);
        let g8 = store4(l[8]);
        let g9 = store4(l[9]);
        let g10 = store4(l[10]);
        let g11 = store4(l[11]);
        let g12 = store4(l[12]);
        let g13 = store4(l[13]);

        let r = [
            g0[0], g0[1], g0[2], g0[3],
            g1[0], g1[1], g1[2], g1[3],
            g2[0], g2[1], g2[2], g2[3],
            g3[0], g3[1], g3[2], g3[3],
            g4[0], g4[1], g4[2], g4[3],
            g5[0], g5[1], g5[2], g5[3],
            g6[0], g6[1], g6[2], g6[3],
            g7[0], g7[1], g7[2], g7[3],
            g8[0], g8[1], g8[2], g8[3],
            g9[0], g9[1], g9[2], g9[3],
            g10[0], g10[1], g10[2], g10[3],
            g11[0], g11[1], g11[2], g11[3],
            g12[0], g12[1], g12[2], g12[3],
            g13[0], g13[1], g13[2], g13[3],
        ];
        proof {
            reveal(scalar_limbs_value);
            reveal(bytes_value);
        }
        r
    }

    /// Whether two scalars hold the same integer, found by comparing their
    /// bytes in constant time.
    pub fn equals(&self, other: &Scalar) -> (r: bool)
        ensures
            r == (self.value() == other.value()),
    {
        let a = self.to_bytes();
        let b = other.to_bytes();
        proof {
            if self.value() == other.value() {
                lemma_bytes_value_injective(a@, b@);
            }
        }
        bytes_equal(&a, &b)
    }

    /// The Montgomery square `x^2 / 2^448` modulo `l`.
    pub fn square(&self) -> (r: Scalar)
        ensures
            r.value() % scalar_modulus() == montgomery_product(self.value(), self.value()),
            self.value() < scalar_modulus() ==> r.value() < scalar_modulus(),
    {
        montgomery_multiply(self, self)
    }

    /// Half the scalar modulo `l`: the order is added where the scalar is
    /// odd, and the sum is halved.
    pub fn halve(&self) -> (r: Scalar)
        ensures
            r.value() == (self.value() + (self.value() % 2) * scalar_modulus()) / 2,
    {
        let low = self.0[0];
        assert(low & 1 == low % 2) by (bit_vector);
        let odd = low & 1;
        let addend = masked_limbs(&modulus().0, odd);
        let (s, carry) = add_limbs(&self.0, &addend);
        let r = Scalar(
            [
                shift_right_one(s[0], s[1]),
                shift_right_one(s[1], s[2]),
                shift_right_one(s[2], s[3]),
                shift_right_one(s[3], s[4]),
                shift_right_one(s[4], s[5]),
                shift_right_one(s[5], s[6]),
                shift_right_one(s[6], s[7]),
                shift_right_one(s[7], s[8]),
                shift_right_one(s[8], s[9]),
                shift_right_one(s[9], s[10]),
                shift_right_one(s[10], s[11]),
                shift_right_one(s[11], s[12]),
                shift_right_one(s[12], s[13]),
                shift_right_one(s[13], carry),
            ],
        );
        proof {
            lemma_parity(self.0);
            lemma_halved(s, carry as int, r.0);
        }
        r
    }

    /// The scalar that 57 bytes hold, where they are its canonical
    /// encoding: where the integer they stand for is below the order.
    pub fn from_canonical_bytes(bytes: [u8; 57]) -> (r: Option<Scalar>)
        ensures
            r.is_some() == (bytes[56] == 0 && bytes_value(bytes@) < scalar_modulus()),
            r.is_some() ==> r.unwrap().value() == bytes_value(bytes@),
    {
        // Check that the 10 high bits are not set
        let high = bytes[55];
        assert(high >> 6 == high / 64) by (bit_vector);
        if bytes[56] != 0u8 || (bytes[55] >> 6) != 0u8 {
            proof {
                if bytes[55] >= 64 {
                    lemma_high_bits(bytes@);
                }
            }
            return None;
        }
        let mut low = [0u8;56];
        for i in 0..56
            invariant
                forall|j: int| 0 <= j < i ==> low[j] == bytes[j],
        {
            low[i] = bytes[i];
        }
        proof {
            crate::field::element::lemma_bytes_value_prefix(low@, bytes@);
        }
        let candidate = Scalar::from_bytes(low);
        proof {
            lemma_scalar_bound(candidate.0);
        }
        let reduced = sub_extra(&candidate, &modulus(), 0);
        proof {
            let v = candidate.value();
            if v < scalar_modulus() {
                vstd::arithmetic::div_mod::lemma_small_mod(v as nat, montgomery_radix() as nat);
            }
        }

        if candidate.equals(&reduced) {
            Some(candidate)
        } else {
            None
        }
    }

    /// The 57 bytes of the scalar: its 56 little-endian bytes, then a zero
    /// byte.
    pub fn to_bytes_rfc_8032(&self) -> (r: [u8; 57])
        ensures
            bytes_value(r@) == self.value(),
            r[56] == 0,
    {
        let bytes = self.to_bytes();
        let mut res = [0u8;57];
        for i in 0..56
            invariant
                forall|j: int| 0 <= j < i ==> res[j] == bytes[j],
                res[56] == 0,
        {
            res[i] = bytes[i];
        }
        proof {
            crate::field::element::lemma_bytes_value_prefix(res@, bytes@);
        }
        res
    }
}

impl Scalar {
    /// Whether bit `k` of the scalar is set.
    pub open spec fn bit(&self, k: int) -> bool {
        self.0[k / 32] & (1u32 << ((k % 32) as u32)) != 0
    }

    /// The scalar in radix 16 with signed digits: 113 digits, each from -8
    /// to 7 but the last, which is 0 or 1. The digits are the nibbles of the
    /// bytes of the scalar, each lowered by 16 where it is 8 or more, with
    /// a carry into the next.
    pub fn to_radix_16(&self) -> (r: [i8; 113])
        ensures
            radix_16_value(r@, 0) == self.value(),
            forall|i: int| 0 <= i < 112 ==> -8 <= #[trigger] r[i] < 8,
            0 <= r[112] <= 1,
    {
        let bytes = self.to_bytes();
        let mut output = [0i8;113];

        // Step 1: change radix.
        // Convert from radix 256 (bytes) to radix 16 (nibbles)
        proof {
            reveal_with_fuel(radix_16_value, 3);
        }
        let mut i: usize = 56;
        while i > 0
            invariant
                0 <= i <= 56,
                forall|j: int| 0 <= j < 113 ==> 0 <= #[trigger] output[j] < 16,
                output[112] == 0,
                radix_16_value(output@, 2 * i) == radix_256_value(bytes@, i as int),
            decreases i,
        {
            i = i - 1;
            let byte = bytes[i];
            assert(byte & 15 < 16 && (byte >> 4) & 15 < 16 && byte == (byte & 15) + 16 * ((byte >> 4)
                & 15)) by (bit_vector);
            let ghost before = output@;
            output[2 * i] = (byte & 15) as i8;
            output[2 * i + 1] = ((byte >> 4) & 15) as i8;
            proof {
                reveal_with_fuel(radix_16_value, 3);
                lemma_radix_16_frame(before, output@, 2 * i + 2);
                assert(radix_16_value(output@, 2 * i) == output[2 * i as int] + 16 * (output[2 * i + 1]
                    + 16 * radix_16_value(output@, 2 * i + 2)));
            }
        }
        proof {
            lemma_radix_256(bytes@);
        }
        // Step 2: re-center the coefficients to be between [-8, 8)
        for i in 0..112
            invariant
                forall|j: int| 0 <= j < i ==> -8 <= #[trigger] output[j] < 8,
                forall|j: int| i < j < 112 ==> 0 <= #[trigger] output[j] < 16,
                0 <= output[i as int] <= 16,
                i < 112 ==> output[112] == 0,
                i == 112 ==> output[112] <= 1,
                radix_16_value(output@, 0) == self.value(),
        {
            let digit = output[i] as u8;
            assert(digit <= 16 ==> ((digit + 8) as u8 >> 4) == (if digit >= 8 { 1u8 } else { 0u8 }))
                by (bit_vector);
            let carry = (digit + 8) >> 4;
            assert(carry <= 1 ==> (carry << 4) == 16 * carry) by (bit_vector);
            let ghost before = output@;
            output[i] = output[i] - (carry << 4) as i8;
            output[i + 1] = output[i + 1] + carry as i8;
            proof {
                reveal_with_fuel(radix_16_value, 3);
                lemma_radix_16_frame(before, output@, i + 2);
                assert(radix_16_value(output@, i as int) == output[i as int] + 16 * (output[i + 1] + 16
                    * radix_16_value(output@, i + 2)));
                assert(radix_16_value(before, i as int) == before[i as int] + 16 * (before[i + 1] + 16
                    * radix_16_value(before, i + 2)));
                lemma_radix_16_below(before, output@, 0, i as int);
            }
        }

        output
    }

    /// The 448 bits of the scalar, least significant first.
    pub fn bits(&self) -> (r: Vec<bool>)
        ensures
            r@.len() == 448,
            forall|k: int| 0 <= k < 448 ==> r@[k] == self.bit(k),
    {
        let mut bits: Vec<bool> = Vec::with_capacity(14 * 32);
        // We have 14 limbs, each 32 bits
        for i in 0..14
            invariant
                bits@.len() == 32 * i,
                forall|k: int| 0 <= k < 32 * i ==> bits@[k] == self.bit(k),
        {
            let limb = self.0[i];
            for j in 0..32
                invariant
                    0 <= i < 14,
                    limb == self.0[i as int],
                    bits@.len() == 32 * i + j,
                    forall|k: int| 0 <= k < 32 * i + j ==> bits@[k] == self.bit(k),
            {
                bits.push(limb & (1u32 << j) != 0);
            }
        }
        bits
    }

    /// The scalar that 114 little-endian bytes stand for, reduced modulo
    /// the order: the three parts of the integer, of 448, 448 and 16 bits,
    /// each brought into range by Montgomery multiplications, and their
    /// sum.
    pub fn from_bytes_mod_order_wide(input: &[u8; 114]) -> (r: Scalar)
        ensures
            r.value() == wide_value(input@) % scalar_modulus(),
    {
        let (low_bytes, high_bytes, top_bytes) = split_wide(input);
        let lo = Scalar::from_bytes(low_bytes);
        // montgomery_multiply computes ((a*b)/R) mod l, thus this computes
        // ((lo*R)/R) = lo mod l
        let lo = montgomery_multiply(&lo, &montgomery_r());

        let hi = Scalar::from_bytes(high_bytes);
        // ((hi*R^2)/R) = hi * R mod l
        let hi = montgomery_multiply(&hi, &montgomery_r2());

        let top = Scalar::from_bytes(top_bytes);
        // ((top*R^2)/R) = top * R mod l
        let top_r = montgomery_multiply(&top, &montgomery_r2());
        // (((top*R)*R^2)/R) = top * R^2 mod l
        let top_r2 = montgomery_multiply(&top_r, &montgomery_r2());

        // lo + hi*R + top*R^2 mod l is the final result we want
        let partial = self::add(&lo, &hi);
        let r = partial + top_r2;
        proof {
            lemma_scalar_bound(lo.0);
            lemma_scalar_bound(hi.0);
            lemma_scalar_bound(top_r.0);
            lemma_scalar_bound(top_r2.0);
            lemma_wide(
                bytes_value(low_bytes@),
                bytes_value(high_bytes@),
                bytes_value(top_bytes@),
                lo.value(),
                hi.value(),
                top_r.value(),
                top_r2.value(),
                partial.value(),
                r.value(),
            );
        }
        r
    }
}

/// The 56 bytes of the input from `start`.
fn copy_bytes(input: &[u8; 114], start: usize) -> (r: [u8; 56])
    requires
        start + 56 <= 114,
    ensures
        forall|j: int| 0 <= j < 56 ==> r[j] == input[start + j],
{
    let mut r = [0u8;56];
    for i in 0..56
        invariant
            start + 56 <= 114,
            forall|j: int| 0 <= j < i ==> r[j] == input[start + j],
    {
        r[i] = input[start + i];
    }
    r
}

/// Bytes that are zero from the third on stand for the integer of the
/// first two.
proof fn lemma_two_bytes(b: Seq<u8>)
    requires
        forall|j: int| 2 <= j < 56 ==> b[j] == 0,
    ensures
        bytes_value(b) == b[0] + b[1] * 0x100,
{
    reveal(bytes_value);
}

/// The three parts of 114 bytes: the first 56, the next 56, and the last
/// two with zeros after them.
fn split_wide(input: &[u8; 114]) -> (r: ([u8; 56], [u8; 56], [u8; 56]))
    ensures
        bytes_value(r.0@) == bytes_value(input@.subrange(0, 56)),
        bytes_value(r.1@) == bytes_value(input@.subrange(56, 112)),
        bytes_value(r.2@) == input[112] + input[113] * 0x100,
{
    let low_bytes = copy_bytes(input, 0);
    let high_bytes = copy_bytes(input, 56);
    let mut top_bytes = [0u8;56];
    top_bytes[0] = input[112];
    top_bytes[1] = input[113];
    proof {
        crate::field::element::lemma_bytes_value_prefix(low_bytes@, input@.subrange(0, 56));
        crate::field::element::lemma_bytes_value_prefix(high_bytes@, input@.subrange(56, 112));
        lemma_two_bytes(top_bytes@);
    }
    (low_bytes, high_bytes, top_bytes)
}

/// The integer that 114 bytes stand for, least significant byte first.
pub open spec fn wide_value(b: Seq<u8>) -> int {
    bytes_value(b.subrange(0, 56)) + bytes_value(b.subrange(56, 112)) * 0x10000000000000000000000000000000000000000000000000000000000000000000000000000000000000000000000000000000000000000int + (b[112] + b[113]
        * 0x100) * 0x100000000000000000000000000000000000000000000000000000000000000000000000000000000000000000000000000000000000000000000000000000000000000000000000000000000000000000000000000000000000000000000000000000000000000000000000000000000int
}

/// A Montgomery product by a constant `c` multiplies by `c / 2^448` modulo
/// the order: by `cv` where `c inv = cv + k l`.
proof fn lemma_montgomery_by(x: int, c: int, cv: int, k: int, r: int)
    requires
        r % scalar_modulus() == montgomery_product(x, c),
        c * montgomery_inverse() == cv + k * scalar_modulus(),
    ensures
        r % scalar_modulus() == (x * cv) % scalar_modulus(),
{
    let l = scalar_modulus();
    let inv = montgomery_inverse();
    assert(x * c * inv == (x * k) * l + x * cv) by (nonlinear_arith)
        requires
            c * inv == cv + k * l,
    ;
    vstd::arithmetic::div_mod::lemma_mod_multiples_vanish(x * k, x * cv, l);
}

/// The three parts of a wide integer, brought into range, add up to its
/// residue.
proof fn lemma_wide(
    low: int,
    high: int,
    top: int,
    lo: int,
    hi: int,
    top_r: int,
    top_r2: int,
    partial: int,
    r: int,
)
    requires
        0 <= lo < scalar_modulus(),
        0 <= hi < scalar_modulus(),
        0 <= top_r < scalar_modulus(),
        0 <= top_r2 < scalar_modulus(),
        lo % scalar_modulus() == montgomery_product(low, 0x20cd77058eec492d944a725bf7a4cf635c8e9c2ab721cf5b5529eec34int),
        hi % scalar_modulus() == montgomery_product(high, 0x3402a939f823b7292052bcb7e4d070af1a9cc14ba3c47c44ae17cf725ee4d8380d66de2388ea18597af32c4bc1b195d9e3539257049b9b60int),
        top_r % scalar_modulus() == montgomery_product(top, 0x3402a939f823b7292052bcb7e4d070af1a9cc14ba3c47c44ae17cf725ee4d8380d66de2388ea18597af32c4bc1b195d9e3539257049b9b60int),
        top_r2 % scalar_modulus() == montgomery_product(top_r, 0x3402a939f823b7292052bcb7e4d070af1a9cc14ba3c47c44ae17cf725ee4d8380d66de2388ea18597af32c4bc1b195d9e3539257049b9b60int),
        partial == scalar_add(lo, hi),
        r == scalar_add(partial, top_r2),
    ensures
        r == (low + high * 0x10000000000000000000000000000000000000000000000000000000000000000000000000000000000000000000000000000000000000000int + top * 0x100000000000000000000000000000000000000000000000000000000000000000000000000000000000000000000000000000000000000000000000000000000000000000000000000000000000000000000000000000000000000000000000000000000000000000000000000000000int) % scalar_modulus(),
{
    let l = scalar_modulus();
    let inv = montgomery_inverse();
    let rv = 0x20cd77058eec492d944a725bf7a4cf635c8e9c2ab721cf5b5529eec34int;
    assert(0x20cd77058eec492d944a725bf7a4cf635c8e9c2ab721cf5b5529eec34int * inv == 1 + 0x161a2ff219bcc7fdadec92aaa2185dd44218957372f81980be8b7316dint * l);
    assert(0x3402a939f823b7292052bcb7e4d070af1a9cc14ba3c47c44ae17cf725ee4d8380d66de2388ea18597af32c4bc1b195d9e3539257049b9b60int * inv == rv + 0x230b612fbea0c8f6d5683265fdb6e16277e37fa5e01c4aef143e918f4d0fc60048548653a4f2f18b575874c18fbaa0634332bedb7aa31cc4int * l);
    lemma_montgomery_by(low, 0x20cd77058eec492d944a725bf7a4cf635c8e9c2ab721cf5b5529eec34int, 1, 0x161a2ff219bcc7fdadec92aaa2185dd44218957372f81980be8b7316dint, lo);
    lemma_montgomery_by(high, 0x3402a939f823b7292052bcb7e4d070af1a9cc14ba3c47c44ae17cf725ee4d8380d66de2388ea18597af32c4bc1b195d9e3539257049b9b60int, rv, 0x230b612fbea0c8f6d5683265fdb6e16277e37fa5e01c4aef143e918f4d0fc60048548653a4f2f18b575874c18fbaa0634332bedb7aa31cc4int, hi);
    lemma_montgomery_by(top, 0x3402a939f823b7292052bcb7e4d070af1a9cc14ba3c47c44ae17cf725ee4d8380d66de2388ea18597af32c4bc1b195d9e3539257049b9b60int, rv, 0x230b612fbea0c8f6d5683265fdb6e16277e37fa5e01c4aef143e918f4d0fc60048548653a4f2f18b575874c18fbaa0634332bedb7aa31cc4int, top_r);
    lemma_montgomery_by(top_r, 0x3402a939f823b7292052bcb7e4d070af1a9cc14ba3c47c44ae17cf725ee4d8380d66de2388ea18597af32c4bc1b195d9e3539257049b9b60int, rv, 0x230b612fbea0c8f6d5683265fdb6e16277e37fa5e01c4aef143e918f4d0fc60048548653a4f2f18b575874c18fbaa0634332bedb7aa31cc4int, top_r2);
    // rv is 2^448 up to a multiple of the order, and rv^2 is 2^896.
    assert(rv == 0x10000000000000000000000000000000000000000000000000000000000000000000000000000000000000000000000000000000000000000int - 0x4int * l);
    vstd::arithmetic::div_mod::lemma_small_mod(lo as nat, l as nat);
    vstd::arithmetic::div_mod::lemma_small_mod(hi as nat, l as nat);
    vstd::arithmetic::div_mod::lemma_small_mod(top_r as nat, l as nat);
    vstd::arithmetic::div_mod::lemma_small_mod(top_r2 as nat, l as nat);
    assert(high * rv == high * 0x10000000000000000000000000000000000000000000000000000000000000000000000000000000000000000000000000000000000000000int - (high * 0x4int) * l) by (nonlinear_arith)
        requires
            rv == 0x10000000000000000000000000000000000000000000000000000000000000000000000000000000000000000000000000000000000000000int - 0x4int * l,
    ;
    vstd::arithmetic::div_mod::lemma_mod_multiples_vanish(-(high * 0x4int), high * 0x10000000000000000000000000000000000000000000000000000000000000000000000000000000000000000000000000000000000000000int, l);
    assert(hi == (high * 0x10000000000000000000000000000000000000000000000000000000000000000000000000000000000000000000000000000000000000000int) % l);
    assert(top * rv == top * 0x10000000000000000000000000000000000000000000000000000000000000000000000000000000000000000000000000000000000000000int - (top * 0x4int) * l) by (nonlinear_arith)
        requires
            rv == 0x10000000000000000000000000000000000000000000000000000000000000000000000000000000000000000000000000000000000000000int - 0x4int * l,
    ;
    vstd::arithmetic::div_mod::lemma_mod_multiples_vanish(-(top * 0x4int), top * 0x10000000000000000000000000000000000000000000000000000000000000000000000000000000000000000000000000000000000000000int, l);
    assert(top_r == (top * 0x10000000000000000000000000000000000000000000000000000000000000000000000000000000000000000000000000000000000000000int) % l);
    // top_r2 = top_r rv = (top 2^448) rv = top 2^896, all modulo the order.
    vstd::arithmetic::div_mod::lemma_mul_mod_noop_left(top * 0x10000000000000000000000000000000000000000000000000000000000000000000000000000000000000000000000000000000000000000int, rv, l);
    assert((top * 0x10000000000000000000000000000000000000000000000000000000000000000000000000000000000000000000000000000000000000000int) * rv == top * 0x100000000000000000000000000000000000000000000000000000000000000000000000000000000000000000000000000000000000000000000000000000000000000000000000000000000000000000000000000000000000000000000000000000000000000000000000000000000int - (top * 0x10000000000000000000000000000000000000000000000000000000000000000000000000000000000000000000000000000000000000000int * 0x4int) * l) by (nonlinear_arith)
        requires
            rv == 0x10000000000000000000000000000000000000000000000000000000000000000000000000000000000000000000000000000000000000000int - 0x4int * l,
            0x10000000000000000000000000000000000000000000000000000000000000000000000000000000000000000000000000000000000000000int * 0x10000000000000000000000000000000000000000000000000000000000000000000000000000000000000000000000000000000000000000int == 0x100000000000000000000000000000000000000000000000000000000000000000000000000000000000000000000000000000000000000000000000000000000000000000000000000000000000000000000000000000000000000000000000000000000000000000000000000000000int,
    ;
    vstd::arithmetic::div_mod::lemma_mod_multiples_vanish(
        -(top * 0x10000000000000000000000000000000000000000000000000000000000000000000000000000000000000000000000000000000000000000int * 0x4int),
        top * 0x100000000000000000000000000000000000000000000000000000000000000000000000000000000000000000000000000000000000000000000000000000000000000000000000000000000000000000000000000000000000000000000000000000000000000000000000000000000int,
        l,
    );
    assert(top_r2 == (top * 0x100000000000000000000000000000000000000000000000000000000000000000000000000000000000000000000000000000000000000000000000000000000000000000000000000000000000000000000000000000000000000000000000000000000000000000000000000000000int) % l);
    assert(lo == low % l);
    vstd::arithmetic::div_mod::lemma_add_mod_noop(low, high * 0x10000000000000000000000000000000000000000000000000000000000000000000000000000000000000000000000000000000000000000int, l);
    vstd::arithmetic::div_mod::lemma_add_mod_noop(low + high * 0x10000000000000000000000000000000000000000000000000000000000000000000000000000000000000000000000000000000000000000int, top * 0x100000000000000000000000000000000000000000000000000000000000000000000000000000000000000000000000000000000000000000000000000000000000000000000000000000000000000000000000000000000000000000000000000000000000000000000000000000000int, l);
}

/// The integer that the bits of the scalar from bit `k` up stand for, with
/// bit `k` as the units.
pub open spec fn bits_value(s: Scalar, k: int) -> int
    decreases 448 - k,
{
    if k < 0 || k >= 448 {
        0
    } else {
        (if s.bit(k) { 1int } else { 0int }) + 2 * bits_value(s, k + 1)
    }
}

/// Within limb `k` of a scalar, the bits from bit `j` of the limb up stand
/// for the limb shifted right by `j`, on top of the bits of the limbs
/// above.
proof fn lemma_bits_limb(s: Scalar, k: int, j: int)
    requires
        0 <= k < 14,
        0 <= j <= 32,
    ensures
        bits_value(s, 32 * k + j) == bits_value(s, 32 * (k + 1)) * vstd::arithmetic::power2::pow2(
            (32 - j) as nat,
        ) + (s.0[k] as u64 >> (j as u64)),
    decreases 32 - j,
{
    let w = s.0[k];
    let above = bits_value(s, 32 * (k + 1));
    if j == 32 {
        vstd::arithmetic::power2::lemma2_to64();
        assert((w as u64 >> 32u64) == 0) by (bit_vector);
        assert(above * 1 == above);
    } else {
        lemma_bits_limb(s, k, j + 1);
        let i = 32 * k + j;
        assert(i / 32 == k && i % 32 == j);
        let ju = j as u32;
        let low = (w as u64 >> ((ju + 1) as u64)) as int;
        let bit: int = if s.bit(i) {
            1
        } else {
            0
        };
        assert(ju < 32 ==> (w as u64 >> (ju as u64)) == 2 * (w as u64 >> ((ju + 1) as u64)) + (if w & (1u32
            << ju) != 0 {
            1u64
        } else {
            0u64
        })) by (bit_vector);
        assert((w as u64 >> (j as u64)) == 2 * low + bit);
        vstd::arithmetic::power2::lemma_pow2_unfold((32 - j) as nat);
        let p = vstd::arithmetic::power2::pow2((32 - j - 1) as nat) as int;
        assert(bits_value(s, i + 1) == above * p + low);
        assert(bits_value(s, i) == bit + 2 * bits_value(s, i + 1));
        assert(2 * (above * p + low) + bit == above * (2 * p) + (2 * low + bit)) by (nonlinear_arith);
        assert(above * vstd::arithmetic::power2::pow2((32 - j) as nat) == above * (2 * p));
    }
}

/// A word shifted right by no bits is the word.
proof fn lemma_shift_by_zero(w: u32)
    ensures
        (w as u64 >> 0u64) == w,
{
    assert((w as u64 >> 0u64) == w as u64) by (bit_vector);
}

/// The bits of a scalar stand for the integer of the scalar.
pub proof fn lemma_bits_value(s: Scalar)
    ensures
        bits_value(s, 0) == s.value(),
{
    reveal(scalar_limbs_value);
    vstd::arithmetic::power2::lemma2_to64();
    assert(bits_value(s, 448) == 0);
    lemma_bits_limb(s, 13, 0);
    lemma_shift_by_zero(s.0[13]);
    assert(bits_value(s, 416) == bits_value(s, 448) * 0x1_0000_0000 + s.0[13]);
    lemma_bits_limb(s, 12, 0);
    lemma_shift_by_zero(s.0[12]);
    assert(bits_value(s, 384) == bits_value(s, 416) * 0x1_0000_0000 + s.0[12]);
    lemma_bits_limb(s, 11, 0);
    lemma_shift_by_zero(s.0[11]);
    assert(bits_value(s, 352) == bits_value(s, 384) * 0x1_0000_0000 + s.0[11]);
    lemma_bits_limb(s, 10, 0);
    lemma_shift_by_zero(s.0[10]);
    assert(bits_value(s, 320) == bits_value(s, 352) * 0x1_0000_0000 + s.0[10]);
    lemma_bits_limb(s, 9, 0);
    lemma_shift_by_zero(s.0[9]);
    assert(bits_value(s, 288) == bits_value(s, 320) * 0x1_0000_0000 + s.0[9]);
    lemma_bits_limb(s, 8, 0);
    lemma_shift_by_zero(s.0[8]);
    assert(bits_value(s, 256) == bits_value(s, 288) * 0x1_0000_0000 + s.0[8]);
    lemma_bits_limb(s, 7, 0);
    lemma_shift_by_zero(s.0[7]);
    assert(bits_value(s, 224) == bits_value(s, 256) * 0x1_0000_0000 + s.0[7]);
    lemma_bits_limb(s, 6, 0);
    lemma_shift_by_zero(s.0[6]);
    assert(bits_value(s, 192) == bits_value(s, 224) * 0x1_0000_0000 + s.0[6]);
    lemma_bits_limb(s, 5, 0);
    lemma_shift_by_zero(s.0[5]);
    assert(bits_value(s, 160) == bits_value(s, 192) * 0x1_0000_0000 + s.0[5]);
    lemma_bits_limb(s, 4, 0);
    lemma_shift_by_zero(s.0[4]);
    assert(bits_value(s, 128) == bits_value(s, 160) * 0x1_0000_0000 + s.0[4]);
    lemma_bits_limb(s, 3, 0);
    lemma_shift_by_zero(s.0[3]);
    assert(bits_value(s, 96) == bits_value(s, 128) * 0x1_0000_0000 + s.0[3]);
    lemma_bits_limb(s, 2, 0);
    lemma_shift_by_zero(s.0[2]);
    assert(bits_value(s, 64) == bits_value(s, 96) * 0x1_0000_0000 + s.0[2]);
    lemma_bits_limb(s, 1, 0);
    lemma_shift_by_zero(s.0[1]);
    assert(bits_value(s, 32) == bits_value(s, 64) * 0x1_0000_0000 + s.0[1]);
    lemma_bits_limb(s, 0, 0);
    lemma_shift_by_zero(s.0[0]);
    assert(bits_value(s, 0) == bits_value(s, 32) * 0x1_0000_0000 + s.0[0]);
}

/// Every integer from 0 to `2^448 - 1` is the integer of a scalar.
pub proof fn lemma_scalar_exists(v: int)
    requires
        0 <= v < montgomery_radix(),
    ensures
        exists|x: Scalar| x.value() == v,
{
    let r = 0x1_0000_0000int;
    let q0 = v;
    let l0 = q0 % r;
    let q1 = q0 / r;
    assert(q0 == q1 * r + l0);
    let l1 = q1 % r;
    let q2 = q1 / r;
    assert(q1 == q2 * r + l1);
    let l2 = q2 % r;
    let q3 = q2 / r;
    assert(q2 == q3 * r + l2);
    let l3 = q3 % r;
    let q4 = q3 / r;
    assert(q3 == q4 * r + l3);
    let l4 = q4 % r;
    let q5 = q4 / r;
    assert(q4 == q5 * r + l4);
    let l5 = q5 % r;
    let q6 = q5 / r;
    assert(q5 == q6 * r + l5);
    let l6 = q6 % r;
    let q7 = q6 / r;
    assert(q6 == q7 * r + l6);
    let l7 = q7 % r;
    let q8 = q7 / r;
    assert(q7 == q8 * r + l7);
    let l8 = q8 % r;
    let q9 = q8 / r;
    assert(q8 == q9 * r + l8);
    let l9 = q9 % r;
    let q10 = q9 / r;
    assert(q9 == q10 * r + l9);
    let l10 = q10 % r;
    let q11 = q10 / r;
    assert(q10 == q11 * r + l10);
    let l11 = q11 % r;
    let q12 = q11 / r;
    assert(q11 == q12 * r + l11);
    let l12 = q12 % r;
    let q13 = q12 / r;
    assert(q12 == q13 * r + l12);
    let l13 = q13 % r;
    let q14 = q13 / r;
    assert(q13 == q14 * r + l13);
    assert(q14 == 0);
    let x = Scalar([l0 as u32, l1 as u32, l2 as u32, l3 as u32, l4 as u32, l5 as u32, l6 as u32, l7 as u32, l8 as u32, l9 as u32, l10 as u32, l11 as u32, l12 as u32, l13 as u32]);
    assert(x.value() == v) by {
        reveal(scalar_limbs_value);
    }
}

/// Twice the half of a scalar is the scalar, modulo the order.
pub proof fn lemma_halve_doubles(x: int)
    requires
        0 <= x,
    ensures
        (2 * ((x + (x % 2) * scalar_modulus()) / 2)) % scalar_modulus() == x % scalar_modulus(),
{
    let l = scalar_modulus();
    let h = (x + (x % 2) * l) / 2;
    assert(2 * h == x + (x % 2) * l);
    vstd::arithmetic::div_mod::lemma_mod_multiples_vanish(x % 2, x, l);
}

/// The integer that the signed digits from digit `k` up stand for in radix
/// 16, with digit `k` as the units.
pub open spec fn radix_16_value(d: Seq<i8>, k: int) -> int
    decreases d.len() - k,
{
    if k < 0 || k >= d.len() {
        0
    } else {
        d[k] + 16 * radix_16_value(d, k + 1)
    }
}

/// The integer that the first 56 bytes from byte `k` up stand for, with byte
/// `k` as the units.
pub open spec fn radix_256_value(b: Seq<u8>, k: int) -> int
    decreases 56 - k,
{
    if k < 0 || k >= 56 {
        0
    } else {
        b[k] + 256 * radix_256_value(b, k + 1)
    }
}

/// Digits that agree from digit `k` up stand for the same integer from
/// there.
proof fn lemma_radix_16_frame(a: Seq<i8>, b: Seq<i8>, k: int)
    requires
        a.len() == b.len(),
        0 <= k,
        forall|j: int| k <= j < a.len() ==> a[j] == b[j],
    ensures
        radix_16_value(a, k) == radix_16_value(b, k),
    decreases a.len() - k,
{
    if k < a.len() {
        lemma_radix_16_frame(a, b, k + 1);
    }
}

/// Digits that agree below digit `i`, and stand for the same integer from
/// digit `i` up, stand for the same integer from any digit `k` below.
proof fn lemma_radix_16_below(a: Seq<i8>, b: Seq<i8>, k: int, i: int)
    requires
        a.len() == b.len(),
        0 <= k <= i < a.len(),
        forall|j: int| 0 <= j < i ==> a[j] == b[j],
        radix_16_value(a, i) == radix_16_value(b, i),
    ensures
        radix_16_value(a, k) == radix_16_value(b, k),
    decreases i - k,
{
    if k < i {
        lemma_radix_16_below(a, b, k + 1, i);
    }
}

/// The bytes, read from byte 0 up, stand for the integer of the bytes.
proof fn lemma_radix_256(b: Seq<u8>)
    ensures
        radix_256_value(b, 0) == bytes_value(b),
{
    reveal(bytes_value);
    reveal_with_fuel(radix_256_value, 57);
}

/// Limbs that stand for the same integer are the same.
pub proof fn lemma_value_injective(a: [u32; 14], b: [u32; 14])
    requires
        scalar_limbs_value(a) == scalar_limbs_value(b),
    ensures
        a == b,
{
    reveal(scalar_limbs_value);
    let r = 0x1_0000_0000int;
    let ta13 = a[13] as int;
    let tb13 = b[13] as int;
    let ta12 = a[12] + r * ta13;
    let tb12 = b[12] + r * tb13;
    let ta11 = a[11] + r * ta12;
    let tb11 = b[11] + r * tb12;
    let ta10 = a[10] + r * ta11;
    let tb10 = b[10] + r * tb11;
    let ta9 = a[9] + r * ta10;
    let tb9 = b[9] + r * tb10;
    let ta8 = a[8] + r * ta9;
    let tb8 = b[8] + r * tb9;
    let ta7 = a[7] + r * ta8;
    let tb7 = b[7] + r * tb8;
    let ta6 = a[6] + r * ta7;
    let tb6 = b[6] + r * tb7;
    let ta5 = a[5] + r * ta6;
    let tb5 = b[5] + r * tb6;
    let ta4 = a[4] + r * ta5;
    let tb4 = b[4] + r * tb5;
    let ta3 = a[3] + r * ta4;
    let tb3 = b[3] + r * tb4;
    let ta2 = a[2] + r * ta3;
    let tb2 = b[2] + r * tb3;
    let ta1 = a[1] + r * ta2;
    let tb1 = b[1] + r * tb2;
    lemma_radix_unique(a[0] as int, ta1, b[0] as int, tb1, r);
    lemma_radix_unique(a[1] as int, ta2, b[1] as int, tb2, r);
    lemma_radix_unique(a[2] as int, ta3, b[2] as int, tb3, r);
    lemma_radix_unique(a[3] as int, ta4, b[3] as int, tb4, r);
    lemma_radix_unique(a[4] as int, ta5, b[4] as int, tb5, r);
    lemma_radix_unique(a[5] as int, ta6, b[5] as int, tb6, r);
    lemma_radix_unique(a[6] as int, ta7, b[6] as int, tb7, r);
    lemma_radix_unique(a[7] as int, ta8, b[7] as int, tb8, r);
    lemma_radix_unique(a[8] as int, ta9, b[8] as int, tb9, r);
    lemma_radix_unique(a[9] as int, ta10, b[9] as int, tb10, r);
    lemma_radix_unique(a[10] as int, ta11, b[10] as int, tb11, r);
    lemma_radix_unique(a[11] as int, ta12, b[11] as int, tb12, r);
    lemma_radix_unique(a[12] as int, ta13, b[12] as int, tb13, r);
    assert(a =~= b);
}

/// If `x1 + r y1 == x2 + r y2` with both `x` below `r`, the two sides agree
/// part by part.
proof fn lemma_radix_unique(x1: int, y1: int, x2: int, y2: int, r: int)
    requires
        r > 0,
        0 <= x1 < r,
        0 <= x2 < r,
        x1 + r * y1 == x2 + r * y2,
    ensures
        x1 == x2,
        y1 == y2,
{
    assert(y1 == y2) by (nonlinear_arith)
        requires
            r > 0,
            0 <= x1 < r,
            0 <= x2 < r,
            x1 + r * y1 == x2 + r * y2,
    ;
}

/// A scalar is odd exactly where its low limb is.
proof fn lemma_parity(l: [u32; 14])
    ensures
        scalar_limbs_value(l) % 2 == l[0] % 2,
{
    reveal(scalar_limbs_value);
    let rest = l[1] * 0x80000000int + l[2] * 0x8000000000000000int + l[3] * 0x800000000000000000000000int + l[4] * 0x80000000000000000000000000000000int + l[5] * 0x8000000000000000000000000000000000000000int + l[6] * 0x800000000000000000000000000000000000000000000000int + l[7] * 0x80000000000000000000000000000000000000000000000000000000int + l[8] * 0x8000000000000000000000000000000000000000000000000000000000000000int + l[9] * 0x800000000000000000000000000000000000000000000000000000000000000000000000int + l[10] * 0x80000000000000000000000000000000000000000000000000000000000000000000000000000000int + l[11] * 0x8000000000000000000000000000000000000000000000000000000000000000000000000000000000000000int + l[12] * 0x800000000000000000000000000000000000000000000000000000000000000000000000000000000000000000000000int + l[13] * 0x80000000000000000000000000000000000000000000000000000000000000000000000000000000000000000000000000000000int;
    assert(scalar_limbs_value(l) == 2 * rest + l[0]);
    vstd::arithmetic::div_mod::lemma_mod_multiples_vanish(rest, l[0] as int, 2);
}

/// Bytes whose top byte keeps a high bit stand for an integer of `2^446` or
/// more, which is above the order.
proof fn lemma_high_bits(bytes: Seq<u8>)
    requires
        bytes[55] >= 64,
    ensures
        bytes_value(bytes) >= scalar_modulus(),
{
    reveal(bytes_value);
}

/// Limbs shifted one bit to the right, with `top` shifted into the top limb,
/// stand for half the integer, rounded down.
proof fn lemma_halved(s: [u32; 14], top: int, r: [u32; 14])
    requires
        0 <= top <= 1,
        r[0] == s[0] / 2 + (s[1] % 2) * 0x8000_0000,
        r[1] == s[1] / 2 + (s[2] % 2) * 0x8000_0000,
        r[2] == s[2] / 2 + (s[3] % 2) * 0x8000_0000,
        r[3] == s[3] / 2 + (s[4] % 2) * 0x8000_0000,
        r[4] == s[4] / 2 + (s[5] % 2) * 0x8000_0000,
        r[5] == s[5] / 2 + (s[6] % 2) * 0x8000_0000,
        r[6] == s[6] / 2 + (s[7] % 2) * 0x8000_0000,
        r[7] == s[7] / 2 + (s[8] % 2) * 0x8000_0000,
        r[8] == s[8] / 2 + (s[9] % 2) * 0x8000_0000,
        r[9] == s[9] / 2 + (s[10] % 2) * 0x8000_0000,
        r[10] == s[10] / 2 + (s[11] % 2) * 0x8000_0000,
        r[11] == s[11] / 2 + (s[12] % 2) * 0x8000_0000,
        r[12] == s[12] / 2 + (s[13] % 2) * 0x8000_0000,
        r[13] == s[13] / 2 + (top % 2) * 0x8000_0000,
    ensures
        scalar_limbs_value(r) == (scalar_limbs_value(s) + top * 0x10000000000000000000000000000000000000000000000000000000000000000000000000000000000000000000000000000000000000000int) / 2,
{
    reveal(scalar_limbs_value);
}

impl PartialEq for Scalar {
    /// Whether two scalars hold the same integer.
    fn eq(&self, other: &Scalar) -> (r: bool) {
        self.equals(other)
    }
}

impl vstd::std_specs::cmp::PartialEqSpecImpl for Scalar {
    open spec fn obeys_eq_spec() -> bool {
        true
    }

    open spec fn eq_spec(&self, other: &Scalar) -> bool {
        self.value() == other.value()
    }
}

impl Eq for Scalar {

}

impl Default for Scalar {
    /// The scalar 0.
    fn default() -> (r: Scalar)
        ensures
            r.value() == 0,
    {
        Scalar::zero()
    }
}

impl From<u32> for Scalar {
    /// The scalar that a word stands for.
    fn from(a: u32) -> (r: Scalar)
        ensures
            r.value() == a,
    {
        proof {
            reveal(scalar_limbs_value);
        }
        Scalar([a, 0, 0, 0, 0, 0, 0, 0, 0, 0, 0, 0, 0, 0])
    }
}

impl vstd::std_specs::convert::FromSpecImpl<u32> for Scalar {
    open spec fn obeys_from_spec() -> bool {
        true
    }

    open spec fn from_spec(a: u32) -> Scalar {
        Scalar([a, 0, 0, 0, 0, 0, 0, 0, 0, 0, 0, 0, 0, 0])
    }
}

impl core::ops::Add<Scalar> for Scalar {
    type Output = Scalar;

    /// The sum of two scalars modulo `l`.
    fn add(self, rhs: Scalar) -> (r: Scalar)
        ensures
            r.value() == if self.value() + rhs.value() >= scalar_modulus() {
                self.value() + rhs.value() - scalar_modulus()
            } else {
                self.value() + rhs.value()
            },
            self.value() + rhs.value() < 2 * scalar_modulus() ==> r.value() == scalar_add(
                self.value(),
                rhs.value(),
            ),
    {
        self::add(&self, &rhs)
    }
}

impl vstd::std_specs::ops::AddSpecImpl<Scalar> for Scalar {
    open spec fn obeys_add_spec() -> bool {
        false
    }

    open spec fn add_req(self, rhs: Scalar) -> bool {
        self.value() + rhs.value() < montgomery_radix() + scalar_modulus()
    }

    open spec fn add_spec(self, rhs: Scalar) -> Scalar {
        arbitrary()
    }
}

impl core::ops::Sub<Scalar> for Scalar {
    type Output = Scalar;

    /// The difference of two scalars modulo `l`: their difference, plus the
    /// order where it is negative.
    fn sub(self, rhs: Scalar) -> (r: Scalar)
        ensures
            r.value() == if self.value() >= rhs.value() {
                self.value() - rhs.value()
            } else {
                (self.value() - rhs.value() + scalar_modulus()) % montgomery_radix()
            },
            self.is_canonical() && rhs.is_canonical() ==> r.value() == scalar_sub(
                self.value(),
                rhs.value(),
            ),
    {
        let r = sub_extra(&self, &rhs, 0);
        proof {
            lemma_scalar_bound(self.0);
            lemma_scalar_bound(rhs.0);
            let d = self.value() - rhs.value();
            if self.is_canonical() && rhs.is_canonical() {
                if d >= 0 {
                    vstd::arithmetic::div_mod::lemma_small_mod(d as nat, scalar_modulus() as nat);
                } else {
                    vstd::arithmetic::div_mod::lemma_small_mod(
                        (d + scalar_modulus()) as nat,
                        montgomery_radix() as nat,
                    );
                    vstd::arithmetic::div_mod::lemma_fundamental_div_mod_converse(
                        d,
                        scalar_modulus(),
                        -1,
                        d + scalar_modulus(),
                    );
                }
            }
        }
        r
    }
}

impl vstd::std_specs::ops::SubSpecImpl<Scalar> for Scalar {
    open spec fn obeys_sub_spec() -> bool {
        false
    }

    open spec fn sub_req(self, rhs: Scalar) -> bool {
        true
    }

    open spec fn sub_spec(self, rhs: Scalar) -> Scalar {
        arbitrary()
    }
}

impl core::ops::Mul<Scalar> for Scalar {
    type Output = Scalar;

    /// The product of two scalars modulo `l`, by two Montgomery
    /// multiplications: the second, by `2^896`, undoes the division of
    /// both.
    fn mul(self, rhs: Scalar) -> (r: Scalar)
        ensures
            r.value() == scalar_mul(self.value(), rhs.value()),
    {
        let unreduced = montgomery_multiply(&self, &rhs);
        let r = montgomery_multiply(&unreduced, &montgomery_r2());
        proof {
            lemma_scalar_bound(r.0);
            lemma_double_montgomery(self.value(), rhs.value(), unreduced.value(), r.value());
        }
        r
    }
}

impl vstd::std_specs::ops::MulSpecImpl<Scalar> for Scalar {
    open spec fn obeys_mul_spec() -> bool {
        false
    }

    open spec fn mul_req(self, rhs: Scalar) -> bool {
        true
    }

    open spec fn mul_spec(self, rhs: Scalar) -> Scalar {
        arbitrary()
    }
}

/// If `t = u inv + l d` and `r = t c - l q` with `inv c = 1 + k l`, then
/// `r` is `u` up to a multiple of `l`.
proof fn lemma_compose(u: int, inv: int, c: int, k: int, l: int, d: int, q: int, t: int, r: int)
    requires
        t == u * inv + l * d,
        r == t * c - l * q,
        inv * c == 1 + k * l,
    ensures
        r == u + (u * k + d * c - q) * l,
{
    assert(t * c == u * (inv * c) + l * d * c) by (nonlinear_arith)
        requires
            t == u * inv + l * d,
    ;
    assert(u * (inv * c) == u + u * k * l) by (nonlinear_arith)
        requires
            inv * c == 1 + k * l,
    ;
    assert((u * k + d * c - q) * l == u * k * l + l * d * c - l * q) by (nonlinear_arith);
}

/// A Montgomery product multiplied, again in Montgomery form, by `2^896`
/// is the plain product modulo `l`.
proof fn lemma_double_montgomery(x: int, y: int, t: int, r: int)
    requires
        t % scalar_modulus() == montgomery_product(x, y),
        r % scalar_modulus() == montgomery_product(t, 0x3402a939f823b7292052bcb7e4d070af1a9cc14ba3c47c44ae17cf725ee4d8380d66de2388ea18597af32c4bc1b195d9e3539257049b9b60int),
        0 <= r < scalar_modulus(),
    ensures
        r == scalar_mul(x, y),
{
    let l = scalar_modulus();
    let inv = montgomery_inverse();
    let c = 0x20cd77058eec492d944a725bf7a4cf635c8e9c2ab721cf5b5529eec34int;
    let k = 0x161a2ff219bcc7fdadec92aaa2185dd44218957372f81980be8b7316dint;
    assert(inv * c == 1 + k * l);
    assert(0x3402a939f823b7292052bcb7e4d070af1a9cc14ba3c47c44ae17cf725ee4d8380d66de2388ea18597af32c4bc1b195d9e3539257049b9b60int * inv == c + 0x230b612fbea0c8f6d5683265fdb6e16277e37fa5e01c4aef143e918f4d0fc60048548653a4f2f18b575874c18fbaa0634332bedb7aa31cc4int * l);
    let u = x * y;
    vstd::arithmetic::div_mod::lemma_fundamental_div_mod(t, l);
    vstd::arithmetic::div_mod::lemma_fundamental_div_mod(u * inv, l);
    vstd::arithmetic::div_mod::lemma_fundamental_div_mod(t * 0x3402a939f823b7292052bcb7e4d070af1a9cc14ba3c47c44ae17cf725ee4d8380d66de2388ea18597af32c4bc1b195d9e3539257049b9b60int * inv, l);
    vstd::arithmetic::div_mod::lemma_small_mod(r as nat, l as nat);
    let d = t / l - (u * inv) / l;
    let qs = (t * 0x3402a939f823b7292052bcb7e4d070af1a9cc14ba3c47c44ae17cf725ee4d8380d66de2388ea18597af32c4bc1b195d9e3539257049b9b60int * inv) / l;
    assert(t * 0x3402a939f823b7292052bcb7e4d070af1a9cc14ba3c47c44ae17cf725ee4d8380d66de2388ea18597af32c4bc1b195d9e3539257049b9b60int * inv == t * c + (t * 0x230b612fbea0c8f6d5683265fdb6e16277e37fa5e01c4aef143e918f4d0fc60048548653a4f2f18b575874c18fbaa0634332bedb7aa31cc4int) * l) by (nonlinear_arith)
        requires
            0x3402a939f823b7292052bcb7e4d070af1a9cc14ba3c47c44ae17cf725ee4d8380d66de2388ea18597af32c4bc1b195d9e3539257049b9b60int * inv == c + 0x230b612fbea0c8f6d5683265fdb6e16277e37fa5e01c4aef143e918f4d0fc60048548653a4f2f18b575874c18fbaa0634332bedb7aa31cc4int * l,
    ;
    lemma_compose(u, inv, c, k, l, d, qs - t * 0x230b612fbea0c8f6d5683265fdb6e16277e37fa5e01c4aef143e918f4d0fc60048548653a4f2f18b575874c18fbaa0634332bedb7aa31cc4int, t, r);
    let n = u * k + d * c - (qs - t * 0x230b612fbea0c8f6d5683265fdb6e16277e37fa5e01c4aef143e918f4d0fc60048548653a4f2f18b575874c18fbaa0634332bedb7aa31cc4int);
    vstd::arithmetic::div_mod::lemma_fundamental_div_mod_converse(u, l, -n, r);
}

} // verus!
