//! The field as a ring: congruence modulo `p` and the laws of the
//! operations on residues.

use crate::field::element::{
    bytes_value,
    field_add,
    field_modulus,
    field_mul,
    field_neg,
    field_sub,
    lemma_bytes_value_injective,
    limbs_value,
};
use crate::field::power::{
    field_inverse_root,
    field_invert,
    field_pow,
    has_inverse_root,
    inversion_exponent,
    lemma_field_pow_add,
};
use vstd::arithmetic::div_mod::{
    lemma_add_mod_noop,
    lemma_mod_bound,
    lemma_mul_mod_noop_general,
    lemma_small_mod,
    lemma_sub_mod_noop,
};
use vstd::prelude::*;

verus! {

/// Whether `x` is a residue: an integer from 0 to `p - 1`.
pub open spec fn is_residue(x: int) -> bool {
    0 <= x < field_modulus()
}

/// Whether two integers leave the same residue modulo `p`.
pub open spec fn congruent(a: int, b: int) -> bool {
    a % field_modulus() == b % field_modulus()
}

/// A product of residues is a residue, congruent to the product of the
/// integers.
pub proof fn lemma_mul_residue(a: int, b: int)
    ensures
        is_residue(field_mul(a, b)),
        congruent(field_mul(a, b), a * b),
{
    lemma_mod_bound(a * b, field_modulus());
    lemma_small_mod(field_mul(a, b) as nat, field_modulus() as nat);
}

/// A sum of residues is a residue, congruent to the sum of the integers.
pub proof fn lemma_add_residue(a: int, b: int)
    ensures
        is_residue(field_add(a, b)),
        congruent(field_add(a, b), a + b),
{
    lemma_mod_bound(a + b, field_modulus());
    lemma_small_mod(field_add(a, b) as nat, field_modulus() as nat);
}

/// A difference of residues is a residue, congruent to the difference of
/// the integers.
pub proof fn lemma_sub_residue(a: int, b: int)
    ensures
        is_residue(field_sub(a, b)),
        congruent(field_sub(a, b), a - b),
{
    lemma_mod_bound(a - b, field_modulus());
    lemma_small_mod(field_sub(a, b) as nat, field_modulus() as nat);
}

/// A negative of a residue is a residue, congruent to the negative of the
/// integer.
pub proof fn lemma_neg_residue(a: int)
    ensures
        is_residue(field_neg(a)),
        congruent(field_neg(a), -a),
{
    lemma_mod_bound(-a, field_modulus());
    lemma_small_mod(field_neg(a) as nat, field_modulus() as nat);
}

/// Congruent factors give the same product.
pub proof fn lemma_mul_congruent(a: int, a2: int, b: int, b2: int)
    requires
        congruent(a, a2),
        congruent(b, b2),
    ensures
        field_mul(a, b) == field_mul(a2, b2),
{
    lemma_mul_mod_noop_general(a, b, field_modulus());
    lemma_mul_mod_noop_general(a2, b2, field_modulus());
}

/// Congruent terms give the same sum.
pub proof fn lemma_add_congruent(a: int, a2: int, b: int, b2: int)
    requires
        congruent(a, a2),
        congruent(b, b2),
    ensures
        field_add(a, b) == field_add(a2, b2),
{
    lemma_add_mod_noop(a, b, field_modulus());
    lemma_add_mod_noop(a2, b2, field_modulus());
}

/// Congruent terms give the same difference.
pub proof fn lemma_sub_congruent(a: int, a2: int, b: int, b2: int)
    requires
        congruent(a, a2),
        congruent(b, b2),
    ensures
        field_sub(a, b) == field_sub(a2, b2),
{
    lemma_sub_mod_noop(a, b, field_modulus());
    lemma_sub_mod_noop(a2, b2, field_modulus());
}

/// Congruent integers give the same negative.
pub proof fn lemma_neg_congruent(a: int, a2: int)
    requires
        congruent(a, a2),
    ensures
        field_neg(a) == field_neg(a2),
{
    lemma_sub_mod_noop(0, a, field_modulus());
    lemma_sub_mod_noop(0, a2, field_modulus());
}

/// Congruent terms have congruent sums.
pub proof fn lemma_congruent_sum(a: int, a2: int, b: int, b2: int)
    requires
        congruent(a, a2),
        congruent(b, b2),
    ensures
        congruent(a + b, a2 + b2),
{
    lemma_add_mod_noop(a, b, field_modulus());
    lemma_add_mod_noop(a2, b2, field_modulus());
}

/// Congruent terms have congruent differences.
pub proof fn lemma_congruent_difference(a: int, a2: int, b: int, b2: int)
    requires
        congruent(a, a2),
        congruent(b, b2),
    ensures
        congruent(a - b, a2 - b2),
{
    lemma_sub_mod_noop(a, b, field_modulus());
    lemma_sub_mod_noop(a2, b2, field_modulus());
}

/// Congruent factors have congruent products.
pub proof fn lemma_congruent_product(a: int, a2: int, b: int, b2: int)
    requires
        congruent(a, a2),
        congruent(b, b2),
    ensures
        congruent(a * b, a2 * b2),
{
    lemma_mul_mod_noop_general(a, b, field_modulus());
    lemma_mul_mod_noop_general(a2, b2, field_modulus());
}

/// An integer is congruent to itself plus a multiple of the modulus.
pub proof fn lemma_congruent_multiple(a: int, n: int)
    ensures
        congruent(a + n * field_modulus(), a),
{
    vstd::arithmetic::div_mod::lemma_mod_multiples_vanish(n, a, field_modulus());
}

/// Multiplication of residues is commutative.
pub proof fn lemma_mul_commutes(a: int, b: int)
    ensures
        field_mul(a, b) == field_mul(b, a),
{
    assert(a * b == b * a) by (nonlinear_arith);
}

/// Multiplication of residues is associative.
pub proof fn lemma_mul_associates(a: int, b: int, c: int)
    ensures
        field_mul(field_mul(a, b), c) == field_mul(a, field_mul(b, c)),
        congruent(field_mul(field_mul(a, b), c), a * b * c),
{
    lemma_mul_residue(a, b);
    lemma_mul_residue(b, c);
    lemma_mul_congruent(field_mul(a, b), a * b, c, c);
    lemma_mul_congruent(a, a, field_mul(b, c), b * c);
    assert((a * b) * c == a * (b * c)) by (nonlinear_arith);
    lemma_mul_residue(a * b, c);
}

/// Adding a residue and subtracting it again gives the first residue
/// back.
pub proof fn lemma_add_then_sub(a: int, b: int)
    requires
        is_residue(a),
        is_residue(b),
    ensures
        field_sub(field_add(a, b), b) == a,
{
    lemma_add_residue(a, b);
    lemma_sub_congruent(field_add(a, b), a + b, b, b);
    lemma_small_mod(a as nat, field_modulus() as nat);
}

/// Reading canonical bytes and encoding what was read gives the bytes
/// back: if the limbs `read` stand for the integer of `bytes`, which is
/// below the modulus, and `written` stands for the residue of `read`, then
/// `written` is `bytes`.
pub proof fn lemma_bytes_round_trip(bytes: [u8; 56], read: [u32; 16], written: [u8; 56])
    requires
        bytes_value(bytes@) < field_modulus(),
        limbs_value(read) == bytes_value(bytes@),
        bytes_value(written@) == limbs_value(read) % field_modulus(),
    ensures
        written@ == bytes@,
{
    crate::field::element::lemma_bytes_value_bound(bytes@);
    lemma_small_mod(bytes_value(bytes@) as nat, field_modulus() as nat);
    lemma_bytes_value_injective(written@, bytes@);
}

/// Where the square root of a ratio is found, its square times the
/// denominator is the numerator: with `r` the residue `u` times the
/// candidate inverse square root of `u v`, and `u` zero or that candidate an
/// inverse square root, `r^2 v = u`.
pub proof fn lemma_sqrt_ratio(u: int, v: int)
    requires
        is_residue(u),
        u == 0 || has_inverse_root(field_mul(u, v)),
    ensures
        field_mul(
            field_mul(
                field_mul(field_inverse_root(field_mul(u, v)), u),
                field_mul(field_inverse_root(field_mul(u, v)), u),
            ),
            v,
        ) == u,
{
    let m = field_modulus();
    let w = field_mul(u, v);
    let i = field_inverse_root(w);
    let r = field_mul(i, u);
    lemma_small_mod(u as nat, m as nat);
    if u == 0 {
        assert(i * 0 == 0);
        assert(r == 0);
        assert(field_mul(r, r) == 0);
        assert(0 * v == 0);
    } else {
        lemma_mul_residue(i, u);
        lemma_mul_residue(u, v);
        lemma_mul_residue(i, i);
        lemma_mul_residue(r, r);
        lemma_congruent_product(r, i * u, r, i * u);
        lemma_congruent_product(field_mul(r, r), (i * u) * (i * u), v, v);
        lemma_mul_residue(field_mul(r, r), v);
        // (i u)(i u) v = ((i i)(u v)) u
        assert(((i * u) * (i * u)) * v == ((i * i) * (u * v)) * u) by (nonlinear_arith);
        lemma_congruent_product(field_mul(i, i), i * i, w, u * v);
        lemma_mul_residue(field_mul(i, i), w);
        assert(congruent((i * i) * (u * v), 1));
        lemma_congruent_product((i * i) * (u * v), 1, u, u);
        assert(1 * u == u);
    }
}

/// A residue times its power `p - 2` is its power `p - 1`.
pub proof fn lemma_invert_product(a: int)
    requires
        is_residue(a),
    ensures
        field_mul(a, field_invert(a)) == field_pow(a, (field_modulus() - 1) as nat),
{
    crate::field::power::lemma_field_pow_one(a);
    lemma_field_pow_add(a, 1, inversion_exponent());
}

/// The power `p - 2` of zero is zero.
pub proof fn lemma_invert_zero()
    ensures
        field_invert(0) == 0,
{
    vstd::arithmetic::power::lemma0_pow(inversion_exponent());
}

} // verus!
