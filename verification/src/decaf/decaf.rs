//! Decaf points and their encoding.

use crate::constant_time::bytes_equal;
use crate::curve::constants::{
    decaf_factor,
    decaf_factor_value,
    neg_edwards_d,
    neg_four_times_twisted_d,
    twisted_base_coordinates,
    twisted_edwards_base_point,
};
use crate::curve::group_law::{extended_of, identity_coordinates, twisted_sub, Coordinates};
use crate::curve::twedwards::extended::ExtendedPoint;
use crate::field::element::{
    bytes_value,
    field_add,
    field_modulus,
    field_mul,
    field_neg,
    field_sub,
    lemma_bytes_value_bound,
    lemma_bytes_value_injective,
    FieldElement28,
};
use crate::field::power::{field_inverse_root, has_inverse_root};
use vstd::prelude::*;

verus! {

/// A coset of the four-element subgroup, held as one of its points on the
/// twisted Edwards curve.
#[derive(Copy, Clone, Debug)]
pub struct DecafPoint(pub ExtendedPoint);

/// The canonical encoding of a coset: the 56 bytes of one field element.
#[derive(Copy, Clone, Debug)]
pub struct CompressedDecaf(pub [u8; 56]);

/// `x` where it is even and `-x` where it is odd: of a residue and its
/// negative, the one that the sign convention calls non-negative.
pub open spec fn absolute(x: int) -> int {
    if x % 2 == 1 {
        field_neg(x)
    } else {
        x
    }
}

/// The field element that encodes the coset of a point `(X, Y, Z, T)`:
///
/// ```text
/// u = (X + T)(X - T)
/// r = 1 / sqrt(X^2 u (-d))
/// ratio = r u, negated where ratio times the Decaf constant is negative
/// s = | (ratio Z - T) (-d) r X |
/// ```
pub open spec fn decaf_encoding(p: Coordinates) -> int {
    let u = field_mul(field_add(p.X, p.T), field_sub(p.X, p.T));
    let isr = field_inverse_root(field_mul(field_mul(field_mul(p.X, p.X), u), 39081));
    let ratio = field_mul(isr, u);
    let altx = field_mul(ratio, decaf_factor_value());
    let chosen = if altx % 2 == 1 {
        field_neg(ratio)
    } else {
        ratio
    };
    let k = field_sub(field_mul(chosen, p.Z), p.T);
    absolute(field_mul(field_mul(field_mul(k, 39081), isr), p.X))
}

/// The quantity `v u1^2`, with `u1 = 1 - s^2` and
/// `v = -4 (d - 1) s^2 + u1^2`, whose inverse square root decoding takes.
pub open spec fn decaf_radicand(s: int) -> int {
    let ss = field_mul(s, s);
    let u1 = field_sub(1, ss);
    let v = field_add(field_mul(ss, 156328), field_mul(u1, u1));
    field_mul(v, field_mul(u1, u1))
}

/// Whether a byte string is the encoding of a coset: whether it stands for
/// an integer below the modulus that is even and whose radicand has an
/// inverse square root.
pub open spec fn decaf_decodes(bytes: Seq<u8>) -> bool {
    &&& bytes_value(bytes) < field_modulus()
    &&& bytes_value(bytes) % 2 == 0
    &&& has_inverse_root(decaf_radicand(bytes_value(bytes)))
}

/// The point that the field element `s` decodes to:
///
/// ```text
/// u1 = 1 - s^2   u2 = 1 + s^2   v = -4 (d - 1) s^2 + u1^2
/// I = 1 / sqrt(v u1^2)
/// X = 2 s I^2 u1 v, negated where 2 s I u1 times the Decaf constant is negative
/// Y = I u1 u2   Z = 1   T = X Y
/// ```
pub open spec fn decaf_decoding(s: int) -> Coordinates {
    let ss = field_mul(s, s);
    let u1 = field_sub(1, ss);
    let u2 = field_add(1, ss);
    let v = field_add(field_mul(ss, 156328), field_mul(u1, u1));
    let i = field_inverse_root(decaf_radicand(s));
    let dx = field_mul(i, u1);
    let dxs = field_mul(field_add(s, s), dx);
    let x = field_mul(field_mul(dxs, i), v);
    let k = field_mul(dxs, decaf_factor_value());
    let chosen = if k % 2 == 1 {
        field_neg(x)
    } else {
        x
    };
    let y = field_mul(dx, u2);
    Coordinates { X: chosen, Y: y, Z: 1, T: field_mul(chosen, y) }
}

impl CompressedDecaf {
    /// The bytes of the encoding.
    pub fn as_bytes(&self) -> (r: &[u8; 56])
        ensures
            *r == self.0,
    {
        &self.0
    }

    /// Whether two encodings hold the same bytes, found in constant time.
    pub fn ct_eq(&self, other: &CompressedDecaf) -> (r: bool)
        ensures
            r == (self.0@ == other.0@),
    {
        bytes_equal(&self.0, &other.0)
    }

    /// The encoding of the neutral coset: 56 zero bytes.
    pub fn identity() -> (r: CompressedDecaf)
        ensures
            forall|i: int| 0 <= i < 56 ==> r.0[i] == 0,
    {
        CompressedDecaf([0;56])
    }

    /// The coset that the bytes encode, or `None` where they encode none:
    /// where they are not the canonical bytes of a field element, where the
    /// element is negative, or where it has no inverse square root to
    /// decode by.
    pub fn decompress(&self) -> (r: Option<DecafPoint>)
        ensures
            r.is_some() == decaf_decodes(self.0@),
            r.is_some() ==> r.unwrap().0@ == decaf_decoding(bytes_value(self.0@)) && r.unwrap().0.is_weak(),
    {
        let s = FieldElement28::from_bytes(&self.0);
        // The encoding is canonical where the element encodes to the same
        // bytes, and the element must not be negative.
        let s_bytes_check = s.to_bytes();
        let s_encoding_is_canonical = bytes_equal(&s_bytes_check, &self.0);
        let s_is_negative = s.is_negative();
        proof {
            lemma_bytes_value_bound(self.0@);
            if bytes_value(self.0@) < field_modulus() {
                vstd::arithmetic::div_mod::lemma_small_mod(
                    bytes_value(self.0@) as nat,
                    field_modulus() as nat,
                );
                lemma_bytes_value_injective(s_bytes_check@, self.0@);
            }
        }
        if !s_encoding_is_canonical || s_is_negative {
            return None;
        }
        let ss = s.square();
        let u1 = FieldElement28::one() - ss;
        let u2 = FieldElement28::one() + ss;
        let u1_sqr = u1.square();

        let v = ss * neg_four_times_twisted_d() + u1_sqr;

        let (I, ok) = (v * u1_sqr).inverse_square_root();
        if !ok {
            return None;
        }
        let Dx = I * u1;
        let Dxs = (s + s) * Dx;

        let mut X = (Dxs * I) * v;
        let k = Dxs * decaf_factor();
        X.conditional_negate(k.is_negative());

        let Y = Dx * u2;
        let Z = FieldElement28::one();
        let T = X * Y;

        Some(DecafPoint(ExtendedPoint { X, Y, Z, T }))
    }
}

impl PartialEq for CompressedDecaf {
    /// Whether two encodings hold the same bytes.
    fn eq(&self, other: &CompressedDecaf) -> (r: bool) {
        self.ct_eq(other)
    }
}

impl vstd::std_specs::cmp::PartialEqSpecImpl for CompressedDecaf {
    open spec fn obeys_eq_spec() -> bool {
        true
    }

    open spec fn eq_spec(&self, other: &CompressedDecaf) -> bool {
        self.0@ == other.0@
    }
}

impl Eq for CompressedDecaf {

}

impl DecafPoint {
    /// The neutral coset.
    pub fn identity() -> (r: DecafPoint)
        ensures
            r.0@ == identity_coordinates(),
            r.0.is_weak(),
    {
        DecafPoint(ExtendedPoint::identity())
    }

    /// The coset of the base point.
    pub fn generator() -> (r: DecafPoint)
        ensures
            r.0@ == twisted_base_coordinates(),
            r.0.is_weak(),
    {
        DecafPoint(twisted_edwards_base_point())
    }

    /// Whether two points lie in the same coset: `X1 Y2 = Y1 X2`.
    pub fn equals(&self, other: &DecafPoint) -> (r: bool)
        ensures
            r == (field_mul(self.0.X.value(), other.0.Y.value()) == field_mul(
                self.0.Y.value(),
                other.0.X.value(),
            )),
    {
        (self.0.X * other.0.Y).equals(&(self.0.Y * other.0.X))
    }

    /// The difference of two cosets.
    pub fn sub(&self, other: &DecafPoint) -> (r: DecafPoint)
        requires
            self.0.is_weak(),
            other.0.is_weak(),
        ensures
            r.0@ == extended_of(
                twisted_sub(extended_of(crate::curve::scalar_mul::window::wnaf::extensible_of(self.0@)), other.0@),
            ),
            r.0.is_weak(),
    {
        DecafPoint(self.0.to_extensible().sub_extended(&other.0).to_extended())
    }

    /// The canonical encoding of the coset.
    pub fn compress(&self) -> (r: CompressedDecaf)
        requires
            self.0.is_weak(),
        ensures
            bytes_value(r.0@) == decaf_encoding(self.0@),
    {
        let X = self.0.X;
        let Y = self.0.Y;
        let Z = self.0.Z;
        let T = self.0.T;

        let XX_TT = (X + T) * (X - T);

        let (isr, _) = (X.square() * XX_TT * neg_edwards_d()).inverse_square_root();
        let mut ratio = isr * XX_TT;
        let altx = ratio * decaf_factor();  // Sign choice
        ratio.conditional_negate(altx.is_negative());
        let k = ratio * Z - T;

        let mut s = k * neg_edwards_d() * isr * X;
        s.conditional_negate(s.is_negative());

        CompressedDecaf(s.to_bytes())
    }
}

} // verus!
