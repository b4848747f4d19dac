//! The `u` coordinate of points of the Montgomery curve that is
//! birationally equivalent to the Edwards curve, and the ladder on it.

use crate::constant_time::{bytes_equal, differ};
use crate::curve::constants::a_plus_two_over_four;
use crate::field::element::{bytes_value, field_add, field_modulus, field_mul, field_sub, FieldElement28};
use crate::field::power::field_invert;
use crate::field::scalar::Scalar;
use vstd::prelude::*;

verus! {

/// The `u` coordinate of a point, as 56 bytes.
#[derive(Copy, Clone, Debug, Hash)]
pub struct MontgomeryPoint(pub [u8; 56]);

/// A point `(U : W)`, standing for the `u` coordinate `U / W`.
#[derive(Copy, Clone, Debug)]
pub struct ProjectiveMontgomeryPoint {
    pub U: FieldElement28,
    pub W: FieldElement28,
}

/// The residues of a projective point.
pub struct ProjectiveResidues {
    pub U: int,
    pub W: int,
}

/// The pair of points after one step of the ladder: the first point
/// doubled, and the sum of the two points, whose difference has the affine
/// `u` coordinate `difference`.
pub open spec fn ladder_step(p: ProjectiveResidues, q: ProjectiveResidues, difference: int) -> (
    ProjectiveResidues,
    ProjectiveResidues,
) {
    let t0 = field_add(p.U, p.W);
    let t1 = field_sub(p.U, p.W);
    let t2 = field_add(q.U, q.W);
    let t3 = field_sub(q.U, q.W);
    let t4 = field_mul(t0, t0);
    let t5 = field_mul(t1, t1);
    let t6 = field_sub(t4, t5);
    let t7 = field_mul(t0, t3);
    let t8 = field_mul(t1, t2);
    let t9 = field_add(t7, t8);
    let t10 = field_sub(t7, t8);
    let t11 = field_mul(t9, t9);
    let t12 = field_mul(t10, t10);
    let t13 = field_mul(39082, t6);
    let t14 = field_mul(t4, t5);
    let t15 = field_add(t13, t5);
    let t16 = field_mul(t6, t15);
    let t17 = field_mul(difference, t12);
    (ProjectiveResidues { U: t14, W: t16 }, ProjectiveResidues { U: t11, W: t17 })
}

/// The pair of points of the ladder after the bits of the scalar from bit
/// `k` up, before the exchange that bit `k` leaves pending is undone: the
/// pair for the bits from `k + 1` up, exchanged where bits `k` and `k + 1`
/// differ, and stepped.
pub open spec fn ladder_pair(u: int, s: Scalar, k: int) -> (ProjectiveResidues, ProjectiveResidues)
    decreases 448 - k,
{
    if k >= 448 {
        (ProjectiveResidues { U: 1, W: 0 }, ProjectiveResidues { U: u, W: 1 })
    } else {
        let before = ladder_pair(u, s, k + 1);
        let previous = k + 1 < 448 && s.bit(k + 1);
        if previous != s.bit(k) {
            ladder_step(before.1, before.0, u)
        } else {
            ladder_step(before.0, before.1, u)
        }
    }
}

/// The point of low order with `u = 0`.
fn low_order_a() -> (r: MontgomeryPoint)
    ensures
        forall|i: int| 0 <= i < 56 ==> r.0[i] == 0,
{
    MontgomeryPoint([0;56])
}

/// The point of low order with `u = 1`.
fn low_order_b() -> (r: MontgomeryPoint)
    ensures
        r.0[0] == 1,
        forall|i: int| 1 <= i < 56 ==> r.0[i] == 0,
{
    let mut bytes = [0u8;56];
    bytes[0] = 1;
    MontgomeryPoint(bytes)
}

/// The point of low order with `u = -1`.
fn low_order_c() -> (r: MontgomeryPoint)
    ensures
        r.0[0] == 0xfe,
        r.0[28] == 0xfe,
        forall|i: int| 1 <= i < 56 && i != 28 ==> r.0[i] == 0xff,
{
    let mut bytes = [0xffu8;56];
    bytes[0] = 0xfe;
    bytes[28] = 0xfe;
    MontgomeryPoint(bytes)
}

/// One step of the ladder: replaces `P` by twice `P` and `Q` by `P + Q`,
/// where the difference of `P` and `Q` has the affine `u` coordinate
/// `affine_PmQ`.
pub fn differential_add_and_double(
    P: &mut ProjectiveMontgomeryPoint,
    Q: &mut ProjectiveMontgomeryPoint,
    affine_PmQ: &FieldElement28,
)
    requires
        old(P).is_weak(),
        old(Q).is_weak(),
    ensures
        (final(P)@, final(Q)@) == ladder_step(old(P)@, old(Q)@, affine_PmQ.value()),
        final(P).is_weak(),
        final(Q).is_weak(),
{
    let t0 = P.U + P.W;
    let t1 = P.U - P.W;
    let t2 = Q.U + Q.W;
    let t3 = Q.U - Q.W;

    let t4 = t0.square();  // (U_P + W_P)^2 = U_P^2 + 2 U_P W_P + W_P^2
    let t5 = t1.square();  // (U_P - W_P)^2 = U_P^2 - 2 U_P W_P + W_P^2

    let t6 = t4 - t5;  // 4 U_P W_P

    let t7 = t0 * t3;  // (U_P + W_P) (U_Q - W_Q) = U_P U_Q + W_P U_Q - U_P W_Q - W_P W_Q
    let t8 = t1 * t2;  // (U_P - W_P) (U_Q + W_Q) = U_P U_Q - W_P U_Q + U_P W_Q - W_P W_Q

    let t9 = t7 + t8;  // 2 (U_P U_Q - W_P W_Q)
    let t10 = t7 - t8;  // 2 (W_P U_Q - U_P W_Q)

    let t11 = t9.square();  // 4 (U_P U_Q - W_P W_Q)^2
    let t12 = t10.square();  // 4 (W_P U_Q - U_P W_Q)^2
    let t13 = a_plus_two_over_four() * t6;  // (A + 2) U_P U_Q

    let t14 = t4 * t5;  // ((U_P + W_P)(U_P - W_P))^2 = (U_P^2 - W_P^2)^2
    let t15 = t13 + t5;  // (U_P - W_P)^2 + (A + 2) U_P W_P

    let t16 = t6 * t15;  // 4 (U_P W_P) ((U_P - W_P)^2 + (A + 2) U_P W_P)
    let t17 = *affine_PmQ * t12;  // U_D * 4 (W_P U_Q - U_P W_Q)^2
    let t18 = t11;  // W_D * 4 (U_P U_Q - W_P W_Q)^2

    P.U = t14;  // U_{P'} = (U_P + W_P)^2 (U_P - W_P)^2
    P.W = t16;  // W_{P'} = (4 U_P W_P) ((U_P - W_P)^2 + ((A + 2)/4) 4 U_P W_P)
    Q.U = t18;  // U_{Q'} = W_D * 4 (U_P U_Q - W_P W_Q)^2
    Q.W = t17;  // W_{Q'} = U_D * 4 (W_P U_Q - U_P W_Q)^2
}

impl View for ProjectiveMontgomeryPoint {
    type V = ProjectiveResidues;

    open spec fn view(&self) -> ProjectiveResidues {
        ProjectiveResidues { U: self.U.value(), W: self.W.value() }
    }
}

impl MontgomeryPoint {
    /// Whether two points hold the same bytes, found in constant time.
    pub fn ct_eq(&self, other: &MontgomeryPoint) -> (r: bool)
        ensures
            r == (self.0@ == other.0@),
    {
        bytes_equal(&self.0, &other.0)
    }

    /// Whether the point is one of the three points of low order, with `u`
    /// equal to 0, 1 or -1.
    pub fn is_low_order(&self) -> (r: bool)
        ensures
            r == (self.0@ == low_order_bytes(0) || self.0@ == low_order_bytes(1) || self.0@
                == low_order_bytes(2)),
    {
        let a = low_order_a();
        let b = low_order_b();
        let c = low_order_c();
        assert(a.0@ =~= low_order_bytes(0));
        assert(b.0@ =~= low_order_bytes(1));
        assert(c.0@ =~= low_order_bytes(2));
        self.ct_eq(&a) || self.ct_eq(&b) || self.ct_eq(&c)
    }

    /// The bytes of the point.
    pub fn as_bytes(&self) -> (r: &[u8; 56])
        ensures
            *r == self.0,
    {
        &self.0
    }

    /// The generator of the curve, with `u = 5`.
    pub fn generator() -> (r: MontgomeryPoint)
        ensures
            r.0[0] == 5,
            forall|i: int| 1 <= i < 56 ==> r.0[i] == 0,
    {
        let mut bytes = [0u8;56];
        bytes[0] = 5;
        MontgomeryPoint(bytes)
    }

    /// The point `(u : 1)`.
    pub fn to_projective(&self) -> (r: ProjectiveMontgomeryPoint)
        ensures
            r@ == (ProjectiveResidues { U: bytes_value(self.0@) % field_modulus(), W: 1 }),
            r.is_weak(),
    {
        ProjectiveMontgomeryPoint { U: FieldElement28::from_bytes(&self.0), W: FieldElement28::one() }
    }

    /// The scalar times the point, by the Montgomery ladder: one step for
    /// every bit of the scalar, from the top bit down, with the two points
    /// of the ladder exchanged, without a branch, where the bit differs from
    /// the one before.
    pub fn scalar_mul(&self, scalar: &Scalar) -> (r: MontgomeryPoint)
        ensures
            bytes_value(r.0@) == {
                let pair = ladder_pair(bytes_value(self.0@) % field_modulus(), *scalar, 0);
                field_mul(pair.0.U, field_invert(pair.0.W))
            },
    {
        // Algorithm 8 of Costello-Smith 2017
        let affine_u = FieldElement28::from_bytes(&self.0);
        let mut x0 = ProjectiveMontgomeryPoint::identity();
        let mut x1 = ProjectiveMontgomeryPoint { U: affine_u, W: FieldElement28::one() };

        let bits = scalar.bits();
        let mut swap = false;
        let mut k: usize = 448;
        while k > 0
            invariant
                0 <= k <= 448,
                bits@.len() == 448,
                forall|j: int| 0 <= j < 448 ==> bits@[j] == scalar.bit(j),
                swap == (k < 448 && scalar.bit(k as int)),
                affine_u.value() == bytes_value(self.0@) % field_modulus(),
                x0.is_weak(),
                x1.is_weak(),
                (x0@, x1@) == ladder_pair(affine_u.value(), *scalar, k as int),
            decreases k,
        {
            k = k - 1;
            let bit = bits[k];
            let choice = differ(swap, bit);

            ProjectiveMontgomeryPoint::conditional_swap(&mut x0, &mut x1, choice);
            differential_add_and_double(&mut x0, &mut x1, &affine_u);

            swap = bit;
        }

        x0.to_affine()
    }
}

/// The bytes of the point of low order with `u` equal to 0, 1 or -1, for
/// `which` equal to 0, 1 or 2.
pub open spec fn low_order_bytes(which: int) -> Seq<u8> {
    Seq::new(
        56,
        |i: int|
            if which == 0 {
                0u8
            } else if which == 1 {
                if i == 0 {
                    1u8
                } else {
                    0u8
                }
            } else {
                if i == 0 || i == 28 {
                    0xfeu8
                } else {
                    0xffu8
                }
            },
    )
}

impl<'a, 'b> core::ops::Mul<&'b Scalar> for &'a MontgomeryPoint {
    type Output = MontgomeryPoint;

    /// The scalar times the point, by the Montgomery ladder.
    fn mul(self, scalar: &'b Scalar) -> (r: MontgomeryPoint)
        ensures
            bytes_value(r.0@) == {
                let pair = ladder_pair(bytes_value(self.0@) % field_modulus(), *scalar, 0);
                field_mul(pair.0.U, field_invert(pair.0.W))
            },
    {
        self.scalar_mul(scalar)
    }
}

impl<'a, 'b> vstd::std_specs::ops::MulSpecImpl<&'b Scalar> for &'a MontgomeryPoint {
    open spec fn obeys_mul_spec() -> bool {
        false
    }

    open spec fn mul_req(self, scalar: &'b Scalar) -> bool {
        true
    }

    open spec fn mul_spec(self, scalar: &'b Scalar) -> MontgomeryPoint {
        arbitrary()
    }
}

impl PartialEq for MontgomeryPoint {
    /// Whether two points hold the same bytes.
    fn eq(&self, other: &MontgomeryPoint) -> (r: bool) {
        self.ct_eq(other)
    }
}

impl vstd::std_specs::cmp::PartialEqSpecImpl for MontgomeryPoint {
    open spec fn obeys_eq_spec() -> bool {
        true
    }

    open spec fn eq_spec(&self, other: &MontgomeryPoint) -> bool {
        self.0@ == other.0@
    }
}

impl Eq for MontgomeryPoint {

}

impl ProjectiveMontgomeryPoint {
    /// Whether both coordinates are within the limb bounds of limb-wise
    /// addition and subtraction.
    pub open spec fn is_weak(&self) -> bool {
        self.U.is_weak() && self.W.is_weak()
    }

    /// `b` where `choice` holds and `a` where it does not, chosen without a
    /// branch.
    pub fn conditional_select(
        a: &ProjectiveMontgomeryPoint,
        b: &ProjectiveMontgomeryPoint,
        choice: bool,
    ) -> (r: ProjectiveMontgomeryPoint)
        ensures
            r == if choice { *b } else { *a },
    {
        ProjectiveMontgomeryPoint {
            U: FieldElement28::conditional_select(&a.U, &b.U, choice),
            W: FieldElement28::conditional_select(&a.W, &b.W, choice),
        }
    }

    /// Exchanges the two points where `choice` holds.
    pub fn conditional_swap(
        a: &mut ProjectiveMontgomeryPoint,
        b: &mut ProjectiveMontgomeryPoint,
        choice: bool,
    )
        ensures
            *final(a) == if choice { *old(b) } else { *old(a) },
            *final(b) == if choice { *old(a) } else { *old(b) },
    {
        let t = *a;
        *a = ProjectiveMontgomeryPoint::conditional_select(a, b, choice);
        *b = ProjectiveMontgomeryPoint::conditional_select(b, &t, choice);
    }

    /// The neutral element, `(1 : 0)`.
    pub fn identity() -> (r: ProjectiveMontgomeryPoint)
        ensures
            r@ == (ProjectiveResidues { U: 1, W: 0 }),
            r.is_weak(),
    {
        ProjectiveMontgomeryPoint { U: FieldElement28::one(), W: FieldElement28::zero() }
    }

    /// The `u` coordinate `U / W` of the point, as its canonical bytes.
    pub fn to_affine(&self) -> (r: MontgomeryPoint)
        ensures
            bytes_value(r.0@) == field_mul(self.U.value(), field_invert(self.W.value())),
    {
        let x = self.U * self.W.invert();
        MontgomeryPoint(x.to_bytes())
    }
}

} // verus!
