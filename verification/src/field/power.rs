//! Powers in the field: repeated squaring, the inverse and the inverse
//! square root, each by a fixed chain of squarings and multiplications.

use crate::constant_time::either;
use crate::field::element::{field_modulus, field_mul, FieldElement28};
use crate::field::karatsuba::square;
use crate::field::FieldElement;
use vstd::arithmetic::power::pow;
use vstd::arithmetic::power2::pow2;
use vstd::prelude::*;

verus! {

/// The residue of `x` to the power `e`.
pub open spec fn field_pow(x: int, e: nat) -> int {
    pow(x, e) % field_modulus()
}

/// The exponent `p - 2`, which inverts a unit of the field.
pub open spec fn inversion_exponent() -> nat {
    0xfffffffffffffffffffffffffffffffffffffffffffffffffffffffefffffffffffffffffffffffffffffffffffffffffffffffffffffffdnat
}

/// The exponent `(p - 3) / 4`, which takes a nonzero square to a square root
/// of its inverse.
pub open spec fn inverse_root_exponent() -> nat {
    0x3fffffffffffffffffffffffffffffffffffffffffffffffffffffffbfffffffffffffffffffffffffffffffffffffffffffffffffffffffnat
}

/// The residue that inverts `x`: `x` to the power `p - 2`.
pub open spec fn field_invert(x: int) -> int {
    field_pow(x, inversion_exponent())
}

/// The candidate inverse square root of `x`: `x` to the power `(p - 3) / 4`.
pub open spec fn field_inverse_root(x: int) -> int {
    field_pow(x, inverse_root_exponent())
}

/// Whether the candidate inverse square root of `x` is one: whether its
/// square times `x` is 1.
pub open spec fn has_inverse_root(x: int) -> bool {
    field_mul(field_mul(field_inverse_root(x), field_inverse_root(x)), x) == 1
}

/// Powers of one base multiply by adding the exponents.
pub proof fn lemma_field_pow_add(x: int, e1: nat, e2: nat)
    ensures
        field_mul(field_pow(x, e1), field_pow(x, e2)) == field_pow(x, e1 + e2),
{
    vstd::arithmetic::power::lemma_pow_adds(x, e1, e2);
    vstd::arithmetic::div_mod::lemma_mul_mod_noop_general(pow(x, e1), pow(x, e2), field_modulus());
}

/// A power of a power is the power to the product of the exponents.
pub proof fn lemma_field_pow_pow(x: int, e1: nat, e2: nat)
    ensures
        field_pow(field_pow(x, e1), e2) == field_pow(x, e1 * e2),
{
    vstd::arithmetic::power::lemma_pow_mod_noop(pow(x, e1), e2, field_modulus());
    vstd::arithmetic::power::lemma_pow_multiplies(x, e1, e2);
}

/// A residue is its own first power.
pub proof fn lemma_field_pow_one(x: int)
    requires
        0 <= x < field_modulus(),
    ensures
        field_pow(x, 1) == x,
{
    vstd::arithmetic::power::lemma_pow1(x);
    vstd::arithmetic::div_mod::lemma_small_mod(x as nat, field_modulus() as nat);
}

/// The powers of two that the chains square by.
proof fn lemma_pow2_table()
    ensures
        pow2(2) == 0x4,
        pow2(3) == 0x8,
        pow2(6) == 0x40,
        pow2(9) == 0x200,
        pow2(12) == 0x1000,
        pow2(18) == 0x40000,
        pow2(30) == 0x40000000,
        pow2(37) == 0x2000000000,
        pow2(48) == 0x1000000000000,
        pow2(96) == 0x1000000000000000000000000,
        pow2(111) == 0x8000000000000000000000000000,
        pow2(223) == 0x80000000000000000000000000000000000000000000000000000000,
{
    vstd::arithmetic::power2::lemma2_to64();
    vstd::arithmetic::power2::lemma2_to64_rest();
    vstd::arithmetic::power2::lemma_pow2_adds(48, 48);
    assert(pow2(96) == 0x1000000000000000000000000);
    vstd::arithmetic::power2::lemma_pow2_adds(96, 15);
    assert(pow2(111) == 0x8000000000000000000000000000);
    vstd::arithmetic::power2::lemma_pow2_adds(111, 111);
    assert(pow2(222) == 0x40000000000000000000000000000000000000000000000000000000) by (nonlinear_arith)
        requires
            pow2(111) == 0x8000000000000000000000000000,
            pow2(222) == pow2(111) * pow2(111),
    ;
    vstd::arithmetic::power2::lemma_pow2_adds(222, 1);
}

impl FieldElement {
    /// The square of the element.
    pub fn square(&self) -> (r: FieldElement28)
        ensures
            r.value() == field_mul(self.value(), self.value()),
            r.is_weak(),
    {
        square(self)
    }

    /// The element squared `n` times over: the element to the power `2^n`.
    pub fn square_n(&self, n: u32) -> (r: FieldElement28)
        requires
            n >= 1,
        ensures
            r.value() == field_pow(self.value(), pow2(n as nat)),
            r.is_weak(),
    {
        let ghost v = self.value();
        let mut result = self.square();
        proof {
            lemma_field_pow_one(v);
            lemma_field_pow_add(v, 1, 1);
            vstd::arithmetic::power2::lemma2_to64();
        }
        let mut done: u32 = 1;
        while done < n
            invariant
                1 <= done <= n,
                v == self.value(),
                result.value() == field_pow(v, pow2(done as nat)),
                result.is_weak(),
            decreases n - done,
        {
            proof {
                let e = pow2(done as nat);
                lemma_field_pow_add(v, e, e);
                vstd::arithmetic::power2::lemma_pow2_unfold((done + 1) as nat);
            }
            result = result.square();
            done = done + 1;
        }
        result
    }

    /// The inverse of the element, as its power `p - 2`; the inverse of zero
    /// is zero.
    pub fn invert(&self) -> (r: FieldElement28)
        ensures
            r.value() == field_invert(self.value()),
            self.value() == 0 ==> r.value() == 0,
            r.is_weak(),
    {
        let x = *self;
        let ghost v = x.value();
        proof {
            lemma_field_pow_one(v);
            lemma_pow2_table();
        }
        let x2 = x.square();
        proof {
            lemma_field_pow_add(v, 0x1nat, 0x1nat);
            assert(x2.value() == field_pow(v, 0x2nat));
        }
        let x3 = x * x2;
        proof {
            lemma_field_pow_add(v, 0x1nat, 0x2nat);
            assert(x3.value() == field_pow(v, 0x3nat));
        }
        let x6 = x3.square();
        proof {
            lemma_field_pow_add(v, 0x3nat, 0x3nat);
            assert(x6.value() == field_pow(v, 0x6nat));
        }
        let x7 = x * x6;
        proof {
            lemma_field_pow_add(v, 0x1nat, 0x6nat);
            assert(x7.value() == field_pow(v, 0x7nat));
        }
        let x56 = x7.square_n(3);
        proof {
            lemma_field_pow_pow(v, 0x7nat, pow2(3));
            assert(x56.value() == field_pow(v, 0x38nat));
        }
        let x63 = x7 * x56;
        proof {
            lemma_field_pow_add(v, 0x7nat, 0x38nat);
            assert(x63.value() == field_pow(v, 0x3fnat));
        }
        let t12 = x63.square_n(6);
        proof {
            lemma_field_pow_pow(v, 0x3fnat, pow2(6));
            assert(t12.value() == field_pow(v, 0xfc0nat));
        }
        let r12 = t12 * x63;
        proof {
            lemma_field_pow_add(v, 0xfc0nat, 0x3fnat);
            assert(r12.value() == field_pow(v, 0xfffnat));
        }
        let t24 = r12.square_n(12);
        proof {
            lemma_field_pow_pow(v, 0xfffnat, pow2(12));
            assert(t24.value() == field_pow(v, 0xfff000nat));
        }
        let r24 = t24 * r12;
        proof {
            lemma_field_pow_add(v, 0xfff000nat, 0xfffnat);
            assert(r24.value() == field_pow(v, 0xffffffnat));
        }
        let i34 = r24.square_n(6);
        proof {
            lemma_field_pow_pow(v, 0xffffffnat, pow2(6));
            assert(i34.value() == field_pow(v, 0x3fffffc0nat));
        }
        let r30 = x63 * i34;
        proof {
            lemma_field_pow_add(v, 0x3fnat, 0x3fffffc0nat);
            assert(r30.value() == field_pow(v, 0x3fffffffnat));
        }
        let t48 = i34.square_n(18);
        proof {
            lemma_field_pow_pow(v, 0x3fffffc0nat, pow2(18));
            assert(t48.value() == field_pow(v, 0xffffff000000nat));
        }
        let r48 = t48 * r24;
        proof {
            lemma_field_pow_add(v, 0xffffff000000nat, 0xffffffnat);
            assert(r48.value() == field_pow(v, 0xffffffffffffnat));
        }
        let t96 = r48.square_n(48);
        proof {
            lemma_field_pow_pow(v, 0xffffffffffffnat, pow2(48));
            assert(t96.value() == field_pow(v, 0xffffffffffff000000000000nat));
        }
        let r96 = t96 * r48;
        proof {
            lemma_field_pow_add(v, 0xffffffffffff000000000000nat, 0xffffffffffffnat);
            assert(r96.value() == field_pow(v, 0xffffffffffffffffffffffffnat));
        }
        let t192 = r96.square_n(96);
        proof {
            lemma_field_pow_pow(v, 0xffffffffffffffffffffffffnat, pow2(96));
            assert(t192.value() == field_pow(v, 0xffffffffffffffffffffffff000000000000000000000000nat));
        }
        let r192 = t192 * r96;
        proof {
            lemma_field_pow_add(v, 0xffffffffffffffffffffffff000000000000000000000000nat, 0xffffffffffffffffffffffffnat);
            assert(r192.value() == field_pow(v, 0xffffffffffffffffffffffffffffffffffffffffffffffffnat));
        }
        let t222 = r192.square_n(30);
        proof {
            lemma_field_pow_pow(v, 0xffffffffffffffffffffffffffffffffffffffffffffffffnat, pow2(30));
            assert(t222.value() == field_pow(v, 0x3fffffffffffffffffffffffffffffffffffffffffffffffc0000000nat));
        }
        let r222 = t222 * r30;
        proof {
            lemma_field_pow_add(v, 0x3fffffffffffffffffffffffffffffffffffffffffffffffc0000000nat, 0x3fffffffnat);
            assert(r222.value() == field_pow(v, 0x3fffffffffffffffffffffffffffffffffffffffffffffffffffffffnat));
        }
        let t223 = r222.square();
        proof {
            lemma_field_pow_add(v, 0x3fffffffffffffffffffffffffffffffffffffffffffffffffffffffnat, 0x3fffffffffffffffffffffffffffffffffffffffffffffffffffffffnat);
            assert(t223.value() == field_pow(v, 0x7ffffffffffffffffffffffffffffffffffffffffffffffffffffffenat));
        }
        let r223 = t223 * x;
        proof {
            lemma_field_pow_add(v, 0x7ffffffffffffffffffffffffffffffffffffffffffffffffffffffenat, 0x1nat);
            assert(r223.value() == field_pow(v, 0x7fffffffffffffffffffffffffffffffffffffffffffffffffffffffnat));
        }
        let t446 = r223.square_n(223);
        proof {
            lemma_field_pow_pow(v, 0x7fffffffffffffffffffffffffffffffffffffffffffffffffffffffnat, pow2(223));
            assert(t446.value() == field_pow(v, 0x3fffffffffffffffffffffffffffffffffffffffffffffffffffffff80000000000000000000000000000000000000000000000000000000nat));
        }
        let r446 = t446 * r222;
        proof {
            lemma_field_pow_add(v, 0x3fffffffffffffffffffffffffffffffffffffffffffffffffffffff80000000000000000000000000000000000000000000000000000000nat, 0x3fffffffffffffffffffffffffffffffffffffffffffffffffffffffnat);
            assert(r446.value() == field_pow(v, 0x3fffffffffffffffffffffffffffffffffffffffffffffffffffffffbfffffffffffffffffffffffffffffffffffffffffffffffffffffffnat));
        }
        let t448 = r446.square_n(2);
        proof {
            lemma_field_pow_pow(v, 0x3fffffffffffffffffffffffffffffffffffffffffffffffffffffffbfffffffffffffffffffffffffffffffffffffffffffffffffffffffnat, pow2(2));
            assert(t448.value() == field_pow(v, 0xfffffffffffffffffffffffffffffffffffffffffffffffffffffffefffffffffffffffffffffffffffffffffffffffffffffffffffffffcnat));
        }
        let result = t448 * x;
        proof {
            lemma_field_pow_add(v, 0xfffffffffffffffffffffffffffffffffffffffffffffffffffffffefffffffffffffffffffffffffffffffffffffffffffffffffffffffcnat, 0x1nat);
            assert(result.value() == field_pow(v, 0xfffffffffffffffffffffffffffffffffffffffffffffffffffffffefffffffffffffffffffffffffffffffffffffffffffffffffffffffdnat));
        }
        proof {
            if v == 0 {
                vstd::arithmetic::power::lemma0_pow(inversion_exponent());
            }
        }
        result
    }

    /// The candidate inverse square root of the element, its power
    /// `(p - 3) / 4`, and whether the candidate is one: whether its square
    /// times the element is 1.
    pub fn inverse_square_root(&self) -> (r: (FieldElement28, bool))
        ensures
            r.0.value() == field_inverse_root(self.value()),
            r.1 == has_inverse_root(self.value()),
            r.0.is_weak(),
    {
        let x = *self;
        let ghost v = x.value();
        proof {
            lemma_field_pow_one(v);
            lemma_pow2_table();
        }
        let a1 = x.square();
        proof {
            lemma_field_pow_add(v, 0x1nat, 0x1nat);
            assert(a1.value() == field_pow(v, 0x2nat));
        }
        let a2 = a1 * x;
        proof {
            lemma_field_pow_add(v, 0x2nat, 0x1nat);
            assert(a2.value() == field_pow(v, 0x3nat));
        }
        let a3 = a2.square();
        proof {
            lemma_field_pow_add(v, 0x3nat, 0x3nat);
            assert(a3.value() == field_pow(v, 0x6nat));
        }
        let a4 = a3 * x;
        proof {
            lemma_field_pow_add(v, 0x6nat, 0x1nat);
            assert(a4.value() == field_pow(v, 0x7nat));
        }
        let a5 = a4.square_n(3);
        proof {
            lemma_field_pow_pow(v, 0x7nat, pow2(3));
            assert(a5.value() == field_pow(v, 0x38nat));
        }
        let a6 = a4 * a5;
        proof {
            lemma_field_pow_add(v, 0x7nat, 0x38nat);
            assert(a6.value() == field_pow(v, 0x3fnat));
        }
        let a7 = a6.square_n(3);
        proof {
            lemma_field_pow_pow(v, 0x3fnat, pow2(3));
            assert(a7.value() == field_pow(v, 0x1f8nat));
        }
        let a8 = a4 * a7;
        proof {
            lemma_field_pow_add(v, 0x7nat, 0x1f8nat);
            assert(a8.value() == field_pow(v, 0x1ffnat));
        }
        let a9 = a8.square_n(9);
        proof {
            lemma_field_pow_pow(v, 0x1ffnat, pow2(9));
            assert(a9.value() == field_pow(v, 0x3fe00nat));
        }
        let a10 = a8 * a9;
        proof {
            lemma_field_pow_add(v, 0x1ffnat, 0x3fe00nat);
            assert(a10.value() == field_pow(v, 0x3ffffnat));
        }
        let a11 = a10 * a10;
        proof {
            lemma_field_pow_add(v, 0x3ffffnat, 0x3ffffnat);
            assert(a11.value() == field_pow(v, 0x7fffenat));
        }
        let a12 = a11 * x;
        proof {
            lemma_field_pow_add(v, 0x7fffenat, 0x1nat);
            assert(a12.value() == field_pow(v, 0x7ffffnat));
        }
        let a13 = a12.square_n(18);
        proof {
            lemma_field_pow_pow(v, 0x7ffffnat, pow2(18));
            assert(a13.value() == field_pow(v, 0x1ffffc0000nat));
        }
        let a14 = a10 * a13;
        proof {
            lemma_field_pow_add(v, 0x3ffffnat, 0x1ffffc0000nat);
            assert(a14.value() == field_pow(v, 0x1fffffffffnat));
        }
        let a15 = a14.square_n(37);
        proof {
            lemma_field_pow_pow(v, 0x1fffffffffnat, pow2(37));
            assert(a15.value() == field_pow(v, 0x3ffffffffe000000000nat));
        }
        let a16 = a14 * a15;
        proof {
            lemma_field_pow_add(v, 0x1fffffffffnat, 0x3ffffffffe000000000nat);
            assert(a16.value() == field_pow(v, 0x3ffffffffffffffffffnat));
        }
        let a17 = a16.square_n(37);
        proof {
            lemma_field_pow_pow(v, 0x3ffffffffffffffffffnat, pow2(37));
            assert(a17.value() == field_pow(v, 0x7fffffffffffffffffe000000000nat));
        }
        let a18 = a14 * a17;
        proof {
            lemma_field_pow_add(v, 0x1fffffffffnat, 0x7fffffffffffffffffe000000000nat);
            assert(a18.value() == field_pow(v, 0x7fffffffffffffffffffffffffffnat));
        }
        let a19 = a18.square_n(111);
        proof {
            lemma_field_pow_pow(v, 0x7fffffffffffffffffffffffffffnat, pow2(111));
            assert(a19.value() == field_pow(v, 0x3fffffffffffffffffffffffffff8000000000000000000000000000nat));
        }
        let a20 = a18 * a19;
        proof {
            lemma_field_pow_add(v, 0x7fffffffffffffffffffffffffffnat, 0x3fffffffffffffffffffffffffff8000000000000000000000000000nat);
            assert(a20.value() == field_pow(v, 0x3fffffffffffffffffffffffffffffffffffffffffffffffffffffffnat));
        }
        let a21 = a20.square();
        proof {
            lemma_field_pow_add(v, 0x3fffffffffffffffffffffffffffffffffffffffffffffffffffffffnat, 0x3fffffffffffffffffffffffffffffffffffffffffffffffffffffffnat);
            assert(a21.value() == field_pow(v, 0x7ffffffffffffffffffffffffffffffffffffffffffffffffffffffenat));
        }
        let a22 = a21 * x;
        proof {
            lemma_field_pow_add(v, 0x7ffffffffffffffffffffffffffffffffffffffffffffffffffffffenat, 0x1nat);
            assert(a22.value() == field_pow(v, 0x7fffffffffffffffffffffffffffffffffffffffffffffffffffffffnat));
        }
        let a23 = a22.square_n(223);
        proof {
            lemma_field_pow_pow(v, 0x7fffffffffffffffffffffffffffffffffffffffffffffffffffffffnat, pow2(223));
            assert(a23.value() == field_pow(v, 0x3fffffffffffffffffffffffffffffffffffffffffffffffffffffff80000000000000000000000000000000000000000000000000000000nat));
        }
        let root = a20 * a23;
        proof {
            lemma_field_pow_add(v, 0x3fffffffffffffffffffffffffffffffffffffffffffffffffffffffnat, 0x3fffffffffffffffffffffffffffffffffffffffffffffffffffffff80000000000000000000000000000000000000000000000000000000nat);
            assert(root.value() == field_pow(v, 0x3fffffffffffffffffffffffffffffffffffffffffffffffffffffffbfffffffffffffffffffffffffffffffffffffffffffffffffffffffnat));
        }
        let check = root.square() * x;
        let is_residue = check.equals(&FieldElement28::one());
        (root, is_residue)
    }

    /// A square root of `u / v` where there is one, as `u` times the
    /// candidate inverse square root of `u * v`, and whether the root was
    /// found: whether `u` is zero or that candidate is an inverse square
    /// root.
    pub fn sqrt_ratio(u: &FieldElement28, v: &FieldElement28) -> (r: (FieldElement28, bool))
        ensures
            r.0.value() == field_mul(field_inverse_root(field_mul(u.value(), v.value())), u.value()),
            r.1 == (u.value() == 0 || has_inverse_root(field_mul(u.value(), v.value()))),
            r.0.is_weak(),
    {
        let x = *u * *v;
        let (inv_sqrt_x, is_res) = x.inverse_square_root();
        let zero_u = u.is_zero();
        (inv_sqrt_x * *u, either(zero_u, is_res))
    }
}

} // verus!
