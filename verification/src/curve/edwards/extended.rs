//! Points of the Edwards curve in extended coordinates, and their
//! 57-byte encoding.

use crate::constant_time::{both, differ};
use crate::curve::constants::{edwards_d_element, goldilocks_base_coordinates, goldilocks_base_point};
use crate::curve::edwards::affine::AffinePoint;
use crate::curve::group_law::{
    edwards_add,
    edwards_d,
    edwards_on_curve,
    identity_coordinates,
    isogeny_coordinates,
    negate_coordinates,
    projectively_equal,
    torque_coordinates,
    Coordinates,
};
use crate::curve::twedwards::extended::ExtendedPoint as TwistedExtendedPoint;
use crate::field::element::{
    bytes_value,
    field_modulus,
    field_mul,
    field_neg,
    field_sub,
    lemma_bytes_value_prefix,
    FieldElement28,
};
use crate::constant_time::{select_word, words_equal};
use crate::curve::montgomery::MontgomeryPoint;
use crate::curve::scalar_mul::signed_multi_comb::{comb, recoded};
use crate::curve::scalar_mul::variable_base::variable_base;
use crate::curve::scalar_mul::window::wnaf::extensible_of;
use crate::field::power::{field_inverse_root, field_invert, has_inverse_root};
use crate::field::scalar::{modulus, scalar_modulus, Scalar};
use vstd::prelude::*;

verus! {

/// A point `(X, Y, Z, T)` of the Edwards curve, standing for the affine
/// point `(X / Z, Y / Z)`, with `X Y = Z T`.
#[derive(Copy, Clone, Debug)]
pub struct ExtendedPoint {
    pub X: FieldElement28,
    pub Y: FieldElement28,
    pub Z: FieldElement28,
    pub T: FieldElement28,
}

/// The encoding of a point of the Edwards curve: the 56 bytes of its affine
/// `y`, then a byte whose top bit is the sign of its affine `x`.
#[derive(Copy, Clone, Debug)]
pub struct CompressedEdwardsY(pub [u8; 57]);

impl View for ExtendedPoint {
    type V = Coordinates;

    open spec fn view(&self) -> Coordinates {
        Coordinates { X: self.X.value(), Y: self.Y.value(), Z: self.Z.value(), T: self.T.value() }
    }
}

/// The affine `y` that an encoding holds: the residue of its first 56 bytes.
pub open spec fn encoded_y(bytes: Seq<u8>) -> int {
    bytes_value(bytes) % field_modulus()
}

/// The numerator `1 - y^2` of `x^2` on the Edwards curve.
pub open spec fn x_squared_numerator(y: int) -> int {
    field_sub(1, field_mul(y, y))
}

/// The denominator `1 - d y^2` of `x^2` on the Edwards curve.
pub open spec fn x_squared_denominator(y: int) -> int {
    field_sub(1, field_mul(edwards_d(), field_mul(y, y)))
}

/// Whether an encoding holds a `y` for which the curve has an `x`: whether
/// `1 - y^2` is zero or the candidate inverse square root of
/// `(1 - y^2)(1 - d y^2)` is one.
pub open spec fn decompresses(bytes: Seq<u8>) -> bool {
    let y = encoded_y(bytes);
    x_squared_numerator(y) == 0 || has_inverse_root(
        field_mul(x_squared_numerator(y), x_squared_denominator(y)),
    )
}

/// The affine `x` that an encoding stands for: the root of
/// `(1 - y^2) / (1 - d y^2)` whose sign is the top bit of the last byte.
pub open spec fn decompressed_x(bytes: Seq<u8>) -> int {
    let y = encoded_y(bytes);
    let candidate = field_mul(
        field_inverse_root(field_mul(x_squared_numerator(y), x_squared_denominator(y))),
        x_squared_numerator(y),
    );
    if (bytes[56] >= 128) != (candidate % 2 == 1) {
        field_neg(candidate)
    } else {
        candidate
    }
}

/// The affine image of a point under the isogeny from the curve with the
/// given `a`.
pub open spec fn isogeny_of(p: Coordinates, a: int) -> Coordinates {
    isogeny_coordinates(
        field_mul(p.X, field_invert(p.Z)),
        field_mul(p.Y, field_invert(p.Z)),
        a,
    )
}

/// The multiple of a point by a number from 0 to 3, by the unified formula.
pub open spec fn small_multiple(p: Coordinates, k: int) -> Coordinates {
    if k == 0 {
        identity_coordinates()
    } else if k == 1 {
        p
    } else if k == 2 {
        edwards_add(p, p)
    } else {
        edwards_add(edwards_add(p, p), p)
    }
}

/// The scalar `s` times a point of the Edwards curve: the point is mapped
/// to the twisted curve, multiplied there by the quotient of `s` by four,
/// and mapped back, which multiplies by four more; the multiple of the
/// point by the remainder of `s` by four is added.
pub open spec fn scalar_multiple(p: Coordinates, s: int) -> Coordinates {
    let twisted = isogeny_of(p, 1);
    let product = crate::curve::group_law::extended_of(comb(extensible_of(twisted), recoded(s / 4), 0));
    edwards_add(isogeny_of(product, field_modulus() - 1), small_multiple(p, s % 4))
}

/// The `u` coordinate of the image of a point with affine `y` on the
/// Montgomery curve, `y^2 (1 - d y^2) / (1 - y^2)`.
pub open spec fn montgomery_u(y: int) -> int {
    let yy = field_mul(y, y);
    field_mul(
        field_mul(yy, field_sub(1, field_mul(edwards_d(), yy))),
        field_invert(field_sub(1, yy)),
    )
}

/// A scalar leaves the remainder by four that its low limb leaves.
proof fn lemma_low_bits(s: Scalar)
    ensures
        s.value() % 4 == s.0[0] % 4,
{
    reveal(crate::field::scalar::scalar_limbs_value);
    let l = s.0;
    let rest = l[1] * 0x4000_0000int + l[2] * 0x4000_0000_0000_0000int + l[3]
        * 0x4000_0000_0000_0000_0000_0000int + l[4] * 0x4000_0000_0000_0000_0000_0000_0000_0000int + l[5]
        * 0x4000_0000_0000_0000_0000_0000_0000_0000_0000_0000int + l[6]
        * 0x4000_0000_0000_0000_0000_0000_0000_0000_0000_0000_0000_0000int + l[7]
        * 0x4000_0000_0000_0000_0000_0000_0000_0000_0000_0000_0000_0000_0000_0000int + l[8]
        * 0x4000_0000_0000_0000_0000_0000_0000_0000_0000_0000_0000_0000_0000_0000_0000_0000int + l[9]
        * 0x4000_0000_0000_0000_0000_0000_0000_0000_0000_0000_0000_0000_0000_0000_0000_0000_0000_0000int
        + l[10]
        * 0x4000_0000_0000_0000_0000_0000_0000_0000_0000_0000_0000_0000_0000_0000_0000_0000_0000_0000_0000_0000int
        + l[11]
        * 0x4000_0000_0000_0000_0000_0000_0000_0000_0000_0000_0000_0000_0000_0000_0000_0000_0000_0000_0000_0000_0000_0000int
        + l[12]
        * 0x4000_0000_0000_0000_0000_0000_0000_0000_0000_0000_0000_0000_0000_0000_0000_0000_0000_0000_0000_0000_0000_0000_0000_0000int
        + l[13]
        * 0x4000_0000_0000_0000_0000_0000_0000_0000_0000_0000_0000_0000_0000_0000_0000_0000_0000_0000_0000_0000_0000_0000_0000_0000_0000_0000int;
    assert(s.value() == 4 * rest + l[0]);
    vstd::arithmetic::div_mod::lemma_mod_multiples_vanish(rest, l[0] as int, 4);
}

/// The first 56 bytes of an encoding.
fn leading_bytes(bytes: &[u8; 57]) -> (r: [u8; 56])
    ensures
        forall|i: int| 0 <= i < 56 ==> r[i] == bytes[i],
{
    let mut r = [0u8;56];
    for i in 0..56
        invariant
            forall|j: int| 0 <= j < i ==> r[j] == bytes[j],
    {
        r[i] = bytes[i];
    }
    r
}

impl CompressedEdwardsY {
    /// The point that the encoding stands for, or `None` where the curve
    /// has no point with the encoded `y`.
    pub fn decompress(&self) -> (r: Option<ExtendedPoint>)
        ensures
            r.is_some() == decompresses(self.0@),
            r.is_some() ==> r.unwrap()@ == (Coordinates {
                X: decompressed_x(self.0@),
                Y: encoded_y(self.0@),
                Z: 1,
                T: field_mul(decompressed_x(self.0@), encoded_y(self.0@)),
            }) && r.unwrap().is_weak(),
    {
        let sign = self.0[56];
        let y_bytes = leading_bytes(&self.0);
        proof {
            lemma_bytes_value_prefix(y_bytes@, self.0@);
        }

        // Recover x from y: x^2 = (1 - y^2) / (1 - d y^2).
        let y = FieldElement28::from_bytes(&y_bytes);
        let yy = y.square();
        let dyy = edwards_d_element() * yy;
        let numerator = FieldElement28::one() - yy;
        let denominator = FieldElement28::one() - dyy;

        let (mut x, is_res) = FieldElement28::sqrt_ratio(&numerator, &denominator);
        if !is_res {
            return None;
        }
        // Give x the encoded sign.
        assert(sign >> 7 == 1 <==> sign >= 128) by (bit_vector);
        let compressed_sign_bit = (sign >> 7) == 1;
        let is_negative = x.is_negative();
        x.conditional_negate(differ(compressed_sign_bit, is_negative));

        Some(AffinePoint { x, y }.to_extended())
    }
}

impl ExtendedPoint {
    /// Whether every coordinate is within the limb bounds of limb-wise
    /// addition and subtraction.
    pub open spec fn is_weak(&self) -> bool {
        self.X.is_weak() && self.Y.is_weak() && self.Z.is_weak() && self.T.is_weak()
    }

    /// `b` where `choice` holds and `a` where it does not, chosen without a
    /// branch.
    pub fn conditional_select(a: &ExtendedPoint, b: &ExtendedPoint, choice: bool) -> (r:
        ExtendedPoint)
        ensures
            r == if choice { *b } else { *a },
    {
        ExtendedPoint {
            X: FieldElement28::conditional_select(&a.X, &b.X, choice),
            Y: FieldElement28::conditional_select(&a.Y, &b.Y, choice),
            Z: FieldElement28::conditional_select(&a.Z, &b.Z, choice),
            T: FieldElement28::conditional_select(&a.T, &b.T, choice),
        }
    }

    /// Replaces the point by `other` where `choice` holds.
    pub fn conditional_assign(&mut self, other: &ExtendedPoint, choice: bool)
        ensures
            *final(self) == if choice { *other } else { *old(self) },
    {
        *self = ExtendedPoint::conditional_select(self, other, choice);
    }

    /// Whether two points stand for the same affine point, found without
    /// an inversion and in constant time.
    pub fn ct_eq(&self, other: &ExtendedPoint) -> (r: bool)
        ensures
            r == projectively_equal(self@, other@),
    {
        let XZ = self.X * other.Z;
        let ZX = self.Z * other.X;

        let YZ = self.Y * other.Z;
        let ZY = self.Z * other.Y;

        both(XZ.equals(&ZX), YZ.equals(&ZY))
    }

    /// The neutral element, `(0, 1, 1, 0)`.
    pub fn identity() -> (r: ExtendedPoint)
        ensures
            r@ == identity_coordinates(),
            r.is_weak(),
    {
        ExtendedPoint {
            X: FieldElement28::zero(),
            Y: FieldElement28::one(),
            Z: FieldElement28::one(),
            T: FieldElement28::zero(),
        }
    }

    /// The generator of the prime-order subgroup.
    pub fn generator() -> (r: ExtendedPoint)
        ensures
            r@ == goldilocks_base_coordinates(),
            r.is_weak(),
    {
        goldilocks_base_point()
    }

    /// The `u` coordinate of the image of the point on the Montgomery
    /// curve, as its canonical bytes.
    pub fn to_montgomery(&self) -> (r: MontgomeryPoint)
        ensures
            bytes_value(r.0@) == montgomery_u(field_mul(self.Y.value(), field_invert(self.Z.value()))),
    {
        // u = y^2 * [(1-dy^2)/(1-y^2)]
        let affine = self.to_affine();

        let yy = affine.y.square();
        let dyy = edwards_d_element() * yy;

        let u = yy * (FieldElement28::one() - dyy) * (FieldElement28::one() - yy).invert();

        MontgomeryPoint(u.to_bytes())
    }

    /// The scalar times the point.
    pub fn scalar_mul(&self, scalar: &Scalar) -> (r: ExtendedPoint)
        ensures
            r@ == scalar_multiple(self@, scalar.value()),
            r.is_weak(),
    {
        // Compute floor(s/4)
        let mut scalar_div_four = *scalar;
        scalar_div_four.div_by_four();

        // Use isogeny and dual isogeny to compute phi^-1((s/4) * phi(P))
        let partial_result = variable_base(&self.to_twisted(), &scalar_div_four).to_untwisted();
        // Add partial result to (scalar mod 4) * P
        partial_result.add(&self.scalar_mod_four(scalar))
    }

    /// The point times the remainder of the scalar by four, chosen among
    /// the four multiples without a branch.
    pub fn scalar_mod_four(&self, scalar: &Scalar) -> (r: ExtendedPoint)
        ensures
            r@ == small_multiple(self@, scalar.value() % 4),
    {
        // Compute compute (scalar mod 4)
        let low = scalar.0[0];
        assert(low & 3 == low % 4) by (bit_vector);
        let s_mod_four = low & 3;
        proof {
            lemma_low_bits(*scalar);
        }

        // Compute all possible values of (scalar mod 4) * P
        let zero_p = ExtendedPoint::identity();
        let one_p = *self;
        let two_p = one_p.double();
        let three_p = two_p.add(self);

        let mut result = ExtendedPoint::identity();
        result.conditional_assign(&zero_p, words_equal(s_mod_four, 0));
        result.conditional_assign(&one_p, words_equal(s_mod_four, 1));
        result.conditional_assign(&two_p, words_equal(s_mod_four, 2));
        result.conditional_assign(&three_p, words_equal(s_mod_four, 3));

        result
    }

    /// Whether the point lies in the prime-order subgroup: whether the
    /// order of the subgroup times the point is the neutral element.
    pub fn is_torsion_free(&self) -> (r: bool)
        ensures
            r == projectively_equal(scalar_multiple(self@, scalar_modulus()), identity_coordinates()),
    {
        self.scalar_mul(&modulus()).ct_eq(&ExtendedPoint::identity())
    }

    /// The encoding of the point: the canonical bytes of its affine `y`,
    /// then a byte that holds the sign of its affine `x` in its top bit.
    pub fn compress(&self) -> (r: CompressedEdwardsY)
        ensures
            bytes_value(r.0@) == field_mul(self.Y.value(), field_invert(self.Z.value())),
            r.0[56] == if field_mul(self.X.value(), field_invert(self.Z.value())) % 2 == 1 {
                0x80u8
            } else {
                0u8
            },
    {
        let affine = self.to_affine();

        let affine_x = affine.x;
        let affine_y = affine.y;

        let mut compressed_bytes = [0u8;57];

        let sign = select_word(0, 1, affine_x.is_negative()) as u8;

        let y_bytes = affine_y.to_bytes();
        for i in 0..56
            invariant
                forall|j: int| 0 <= j < i ==> compressed_bytes[j] == y_bytes[j],
        {
            compressed_bytes[i] = y_bytes[i];
        }
        assert(sign <= 1 ==> (sign << 7) == sign * 128) by (bit_vector);
        compressed_bytes[56] = sign << 7;
        proof {
            lemma_bytes_value_prefix(compressed_bytes@, y_bytes@);
        }
        CompressedEdwardsY(compressed_bytes)
    }

    /// The sum of two points, by the unified formula of the curve.
    pub fn add(&self, other: &ExtendedPoint) -> (r: ExtendedPoint)
        ensures
            r@ == edwards_add(self@, other@),
            r.is_weak(),
    {
        let aXX = self.X * other.X;
        let dTT = edwards_d_element() * self.T * other.T;
        let ZZ = self.Z * other.Z;
        let YY = self.Y * other.Y;

        let cross = (self.X * other.Y) + (self.Y * other.X);
        let X = cross * (ZZ - dTT);
        let Y = (YY - aXX) * (ZZ + dTT);
        let T = (YY - aXX) * cross;
        let Z = (ZZ - dTT) * (ZZ + dTT);

        ExtendedPoint { X, Y, Z, T }
    }

    /// Twice the point: the unified formula adds a point to itself.
    pub fn double(&self) -> (r: ExtendedPoint)
        ensures
            r@ == edwards_add(self@, self@),
            r.is_weak(),
    {
        self.add(self)
    }

    /// Whether the coordinates are coherent and satisfy the curve equation.
    pub fn is_on_curve(&self) -> (r: bool)
        ensures
            r == edwards_on_curve(self@),
    {
        let XY = self.X * self.Y;
        let ZT = self.Z * self.T;

        // Y^2 + X^2 == Z^2 + T^2 * D
        let YY = self.Y.square();
        let XX = self.X.square();
        let ZZ = self.Z.square();
        let TT = self.T.square();
        let lhs = YY + XX;
        let rhs = ZZ + TT * edwards_d_element();

        XY.equals(&ZT) && lhs.equals(&rhs)
    }

    /// The affine point `(X / Z, Y / Z)`, in canonical form. A point with
    /// `Z = 0` gives `(0, 0)`.
    pub fn to_affine(&self) -> (r: AffinePoint)
        ensures
            r.x.value() == field_mul(self.X.value(), field_invert(self.Z.value())),
            r.y.value() == field_mul(self.Y.value(), field_invert(self.Z.value())),
            r.x.is_canonical(),
            r.y.is_canonical(),
    {
        let INV_Z = self.Z.invert();

        let mut x = self.X * INV_Z;
        x.strong_reduce();

        let mut y = self.Y * INV_Z;
        y.strong_reduce();

        AffinePoint { x, y }
    }

    /// The image of the point under the isogeny from the curve with the
    /// given `a`, which is derived from the doubling formula.
    fn edwards_isogeny(&self, a: FieldElement28) -> (r: TwistedExtendedPoint)
        ensures
            r@ == isogeny_coordinates(
                field_mul(self.X.value(), field_invert(self.Z.value())),
                field_mul(self.Y.value(), field_invert(self.Z.value())),
                a.value(),
            ),
            r.is_weak(),
    {
        // Convert to affine now, then derive extended version later
        let affine = self.to_affine();
        let x = affine.x;
        let y = affine.y;

        // Compute x
        let xy = x * y;
        let x_numerator = xy + xy;
        let x_denom = y.square() - (a * x.square());
        let new_x = x_numerator * x_denom.invert();

        // Compute y
        let y_numerator = y.square() + (a * x.square());
        let y_denom = (FieldElement28::one() + FieldElement28::one()) - y.square() - (a * x.square());
        let new_y = y_numerator * y_denom.invert();

        TwistedExtendedPoint { X: new_x, Y: new_y, Z: FieldElement28::one(), T: new_x * new_y }
    }

    /// The image of the point on the twisted Edwards curve under the
    /// isogeny. Mapping there and back multiplies by four.
    pub fn to_twisted(&self) -> (r: TwistedExtendedPoint)
        ensures
            r@ == isogeny_coordinates(
                field_mul(self.X.value(), field_invert(self.Z.value())),
                field_mul(self.Y.value(), field_invert(self.Z.value())),
                1,
            ),
            r.is_weak(),
    {
        self.edwards_isogeny(FieldElement28::one())
    }

    /// The negative of the point, `(-X, Y, Z, -T)`.
    pub fn negate(&self) -> (r: ExtendedPoint)
        requires
            self.is_weak(),
        ensures
            r@ == negate_coordinates(self@),
            r.is_weak(),
    {
        ExtendedPoint { X: self.X.negate(), Y: self.Y, Z: self.Z, T: self.T.negate() }
    }

    /// The point plus the point of order two, `(-X, -Y, Z, T)`.
    pub fn torque(&self) -> (r: ExtendedPoint)
        requires
            self.is_weak(),
        ensures
            r@ == torque_coordinates(self@),
            r.is_weak(),
    {
        ExtendedPoint { X: self.X.negate(), Y: self.Y.negate(), Z: self.Z, T: self.T }
    }
}

impl core::ops::Add<ExtendedPoint> for ExtendedPoint {
    type Output = ExtendedPoint;

    /// The sum of two points.
    fn add(self, other: ExtendedPoint) -> (r: ExtendedPoint)
        ensures
            r@ == edwards_add(self@, other@),
            r.is_weak(),
    {
        ExtendedPoint::add(&self, &other)
    }
}

impl vstd::std_specs::ops::AddSpecImpl<ExtendedPoint> for ExtendedPoint {
    open spec fn obeys_add_spec() -> bool {
        false
    }

    open spec fn add_req(self, other: ExtendedPoint) -> bool {
        true
    }

    open spec fn add_spec(self, other: ExtendedPoint) -> ExtendedPoint {
        arbitrary()
    }
}

impl core::ops::Sub<ExtendedPoint> for ExtendedPoint {
    type Output = ExtendedPoint;

    /// The difference of two points.
    fn sub(self, other: ExtendedPoint) -> (r: ExtendedPoint)
        ensures
            r@ == edwards_add(self@, negate_coordinates(other@)),
            r.is_weak(),
    {
        ExtendedPoint::add(&self, &other.negate())
    }
}

impl vstd::std_specs::ops::SubSpecImpl<ExtendedPoint> for ExtendedPoint {
    open spec fn obeys_sub_spec() -> bool {
        false
    }

    open spec fn sub_req(self, other: ExtendedPoint) -> bool {
        other.is_weak()
    }

    open spec fn sub_spec(self, other: ExtendedPoint) -> ExtendedPoint {
        arbitrary()
    }
}

impl core::ops::Neg for ExtendedPoint {
    type Output = ExtendedPoint;

    /// The negative of the point.
    fn neg(self) -> (r: ExtendedPoint)
        ensures
            r@ == negate_coordinates(self@),
            r.is_weak(),
    {
        self.negate()
    }
}

impl vstd::std_specs::ops::NegSpecImpl for ExtendedPoint {
    open spec fn obeys_neg_spec() -> bool {
        false
    }

    open spec fn neg_req(self) -> bool {
        self.is_weak()
    }

    open spec fn neg_spec(self) -> ExtendedPoint {
        arbitrary()
    }
}

impl core::ops::Mul<Scalar> for ExtendedPoint {
    type Output = ExtendedPoint;

    /// The scalar times the point.
    fn mul(self, scalar: Scalar) -> (r: ExtendedPoint)
        ensures
            r@ == scalar_multiple(self@, scalar.value()),
            r.is_weak(),
    {
        self.scalar_mul(&scalar)
    }
}

impl vstd::std_specs::ops::MulSpecImpl<Scalar> for ExtendedPoint {
    open spec fn obeys_mul_spec() -> bool {
        false
    }

    open spec fn mul_req(self, scalar: Scalar) -> bool {
        true
    }

    open spec fn mul_spec(self, scalar: Scalar) -> ExtendedPoint {
        arbitrary()
    }
}

impl core::ops::Mul<ExtendedPoint> for Scalar {
    type Output = ExtendedPoint;

    /// The scalar times the point.
    fn mul(self, point: ExtendedPoint) -> (r: ExtendedPoint)
        ensures
            r@ == scalar_multiple(point@, self.value()),
            r.is_weak(),
    {
        point.scalar_mul(&self)
    }
}

impl vstd::std_specs::ops::MulSpecImpl<ExtendedPoint> for Scalar {
    open spec fn obeys_mul_spec() -> bool {
        false
    }

    open spec fn mul_req(self, point: ExtendedPoint) -> bool {
        true
    }

    open spec fn mul_spec(self, point: ExtendedPoint) -> ExtendedPoint {
        arbitrary()
    }
}

impl PartialEq for ExtendedPoint {
    /// Whether two points stand for the same affine point.
    fn eq(&self, other: &ExtendedPoint) -> (r: bool) {
        self.ct_eq(other)
    }
}

impl vstd::std_specs::cmp::PartialEqSpecImpl for ExtendedPoint {
    open spec fn obeys_eq_spec() -> bool {
        true
    }

    open spec fn eq_spec(&self, other: &ExtendedPoint) -> bool {
        projectively_equal(self@, other@)
    }
}

impl Eq for ExtendedPoint {

}

impl Default for ExtendedPoint {
    /// The neutral element.
    fn default() -> (r: ExtendedPoint)
        ensures
            r@ == identity_coordinates(),
            r.is_weak(),
    {
        ExtendedPoint::identity()
    }
}

} // verus!
