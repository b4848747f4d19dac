//! The inverse of a scalar modulo the order `l`, as its power `l - 2`.
//!
//! The power is taken in Montgomery form with a sliding window of four
//! bits over the exponent: the bits of the exponent are read from the top;
//! a window opens at a set bit and closes three bits later; the odd part of
//! the window selects an odd power of the scalar from a table, which is
//! multiplied in once the squarings have brought the lowest set bit of the
//! window to its place. Three more rounds after the last bit flush the
//! window that is still open.

use crate::field::scalar::{
    lemma_scalar_bound,
    modulus,
    montgomery_inverse,
    montgomery_multiply,
    montgomery_product,
    montgomery_r2,
    scalar_modulus,
    Scalar,
};
use vstd::arithmetic::power::pow;
use vstd::arithmetic::power2::pow2;
use vstd::prelude::*;

verus! {

/// The residue of `x` to the power `e`, modulo the order.
pub open spec fn scalar_pow(x: int, e: nat) -> int {
    pow(x, e) % scalar_modulus()
}

/// The exponent `l - 2`, which inverts a unit modulo the order.
pub open spec fn scalar_inversion_exponent() -> nat {
    0x3fffffffffffffffffffffffffffffffffffffffffffffffffffffff7cca23e9c44edb49aed63690216cc2728dc58f552378c292ab5844f1nat
}

/// The residue that inverts `x` modulo the order: `x` to the power `l - 2`.
pub open spec fn scalar_invert(x: int) -> int {
    scalar_pow(x, scalar_inversion_exponent())
}

/// Whether `v` is the Montgomery form of `x` to the power `e`: whether it is
/// that power times `2^448`, modulo the order.
pub open spec fn is_montgomery_power(v: int, x: int, e: nat) -> bool {
    v % scalar_modulus() == (pow(x, e) * 0x10000000000000000000000000000000000000000000000000000000000000000000000000000000000000000000000000000000000000000int) % scalar_modulus()
}

/// Word `k` of the exponent `l - 2`.
pub open spec fn exponent_word(k: int) -> u32 {
    if k == 0 {
        0xab5844f1u32
    } else if k == 1 {
        0x2378c292u32
    } else if k == 2 {
        0x8dc58f55u32
    } else if k == 3 {
        0x216cc272u32
    } else if k == 4 {
        0xaed63690u32
    } else if k == 5 {
        0xc44edb49u32
    } else if k == 6 {
        0x7cca23e9u32
    } else if k == 7 {
        0xffffffffu32
    } else if k == 8 {
        0xffffffffu32
    } else if k == 9 {
        0xffffffffu32
    } else if k == 10 {
        0xffffffffu32
    } else if k == 11 {
        0xffffffffu32
    } else if k == 12 {
        0xffffffffu32
    } else if k == 13 {
        0x3fffffffu32
    } else {
        0u32
    }
}

/// Bit `j` of the exponent `l - 2`.
pub open spec fn exponent_bit_at(j: int) -> int {
    if (exponent_word(j / 32) >> ((j % 32) as u32)) & 1 == 1 {
        1
    } else {
        0
    }
}

/// The integer that the bits of the exponent from bit `j` up stand for.
pub open spec fn exponent_prefix(j: int) -> nat
    decreases 446 - j,
{
    if j >= 446 {
        0
    } else {
        (2 * exponent_prefix(j + 1) + exponent_bit_at(j)) as nat
    }
}

/// Whether the bookkeeping of the sliding window is in one of its states: a
/// window `trailing` of four bits that waits, shifted, for its lowest set
/// bit to reach bit 3, and the bits `residue` read since it was closed.
pub open spec fn window_state(residue: u32, trailing: u32) -> bool {
    ||| trailing == 0 && residue < 8
    ||| 16 <= trailing < 32 && trailing % 2 == 0 && trailing % 16 != 0 && residue == 0
    ||| 32 <= trailing < 64 && trailing % 4 == 0 && trailing % 16 != 0 && residue < 2
    ||| 64 <= trailing < 128 && trailing % 8 == 0 && trailing % 16 != 0 && residue < 4
}

/// Within word `k` of the exponent, the bits from bit `s` of the word up
/// stand for the word shifted right by `s`, on top of the bits of the
/// words above.
proof fn lemma_prefix_limb(k: int, s: int)
    requires
        0 <= k < 14,
        0 <= s <= 32,
    ensures
        exponent_prefix(32 * k + s) == exponent_prefix(32 * (k + 1)) * pow2((32 - s) as nat) + (
        exponent_word(k) as u64 >> (s as u64)),
    decreases 32 - s,
{
    let w = exponent_word(k);
    let above = exponent_prefix(32 * (k + 1)) as int;
    if s == 32 {
        vstd::arithmetic::power2::lemma2_to64();
        assert((w as u64 >> 32u64) == 0) by (bit_vector);
        assert(above * 1 == above);
    } else if k == 13 && s >= 30 {
        // The exponent has 446 bits: the top two bits of the top word are
        // clear, and no bits lie above.
        assert(exponent_prefix(32 * 13 + s) == 0);
        assert(above == 0);
        assert(w == 0x3fff_ffffu32);
        assert((0x3fff_ffffu32 as u64 >> 30u64) == 0 && (0x3fff_ffffu32 as u64 >> 31u64) == 0)
            by (bit_vector);
        assert((w as u64 >> (s as u64)) == 0);
        assert(above * pow2((32 - s) as nat) == 0) by (nonlinear_arith)
            requires
                above == 0,
        ;
    } else {
        lemma_prefix_limb(k, s + 1);
        let j = 32 * k + s;
        assert(j / 32 == k && j % 32 == s);
        assert(j < 446);
        let su = s as u32;
        let low = (w as u64 >> ((su + 1) as u64)) as int;
        let bit: int = exponent_bit_at(j);
        assert(su < 32 ==> (w as u64 >> (su as u64)) == 2 * (w as u64 >> ((su + 1) as u64)) + (if (w >> su)
            & 1 == 1 {
            1u64
        } else {
            0u64
        })) by (bit_vector);
        assert((w as u64 >> (s as u64)) == 2 * low + bit);
        vstd::arithmetic::power2::lemma_pow2_unfold((32 - s) as nat);
        let p = pow2((32 - s - 1) as nat) as int;
        assert(pow2((32 - s) as nat) == 2 * p);
        assert(exponent_prefix(j + 1) == above * p + low);
        assert(exponent_prefix(j) == 2 * exponent_prefix(j + 1) + bit);
        assert(2 * (above * p + low) + bit == above * (2 * p) + (2 * low + bit)) by (nonlinear_arith);
        assert(above * pow2((32 - s) as nat) == above * (2 * p));
    }
}

/// A word shifted right by no bits is the word.
proof fn lemma_shift_by_zero(w: u32)
    ensures
        (w as u64 >> 0u64) == w,
{
    assert((w as u64 >> 0u64) == w as u64) by (bit_vector);
}

/// The bits of the exponent stand for `l - 2`.
proof fn lemma_exponent()
    ensures
        exponent_prefix(0) == scalar_inversion_exponent(),
{
    vstd::arithmetic::power2::lemma2_to64();
    lemma_prefix_limb(0, 0);
    lemma_prefix_limb(1, 0);
    lemma_prefix_limb(2, 0);
    lemma_prefix_limb(3, 0);
    lemma_prefix_limb(4, 0);
    lemma_prefix_limb(5, 0);
    lemma_prefix_limb(6, 0);
    lemma_prefix_limb(7, 0);
    lemma_prefix_limb(8, 0);
    lemma_prefix_limb(9, 0);
    lemma_prefix_limb(10, 0);
    lemma_prefix_limb(11, 0);
    lemma_prefix_limb(12, 0);
    lemma_prefix_limb(13, 0);
    assert(exponent_prefix(448) == 0);
    assert(pow2(32) == 0x1_0000_0000);
    lemma_shift_by_zero(0xab5844f1u32);
    lemma_shift_by_zero(0x2378c292u32);
    lemma_shift_by_zero(0x8dc58f55u32);
    lemma_shift_by_zero(0x216cc272u32);
    lemma_shift_by_zero(0xaed63690u32);
    lemma_shift_by_zero(0xc44edb49u32);
    lemma_shift_by_zero(0x7cca23e9u32);
    lemma_shift_by_zero(0xffffffffu32);
    lemma_shift_by_zero(0xffffffffu32);
    lemma_shift_by_zero(0xffffffffu32);
    lemma_shift_by_zero(0xffffffffu32);
    lemma_shift_by_zero(0xffffffffu32);
    lemma_shift_by_zero(0xffffffffu32);
    lemma_shift_by_zero(0x3fffffffu32);
    assert(exponent_prefix(416) == exponent_prefix(448) * 0x1_0000_0000 + 0x3fffffff);
    assert(exponent_prefix(384) == exponent_prefix(416) * 0x1_0000_0000 + 0xffffffff);
    assert(exponent_prefix(352) == exponent_prefix(384) * 0x1_0000_0000 + 0xffffffff);
    assert(exponent_prefix(320) == exponent_prefix(352) * 0x1_0000_0000 + 0xffffffff);
    assert(exponent_prefix(288) == exponent_prefix(320) * 0x1_0000_0000 + 0xffffffff);
    assert(exponent_prefix(256) == exponent_prefix(288) * 0x1_0000_0000 + 0xffffffff);
    assert(exponent_prefix(224) == exponent_prefix(256) * 0x1_0000_0000 + 0xffffffff);
    assert(exponent_prefix(192) == exponent_prefix(224) * 0x1_0000_0000 + 0x7cca23e9);
    assert(exponent_prefix(160) == exponent_prefix(192) * 0x1_0000_0000 + 0xc44edb49);
    assert(exponent_prefix(128) == exponent_prefix(160) * 0x1_0000_0000 + 0xaed63690);
    assert(exponent_prefix(96) == exponent_prefix(128) * 0x1_0000_0000 + 0x216cc272);
    assert(exponent_prefix(64) == exponent_prefix(96) * 0x1_0000_0000 + 0x8dc58f55);
    assert(exponent_prefix(32) == exponent_prefix(64) * 0x1_0000_0000 + 0x2378c292);
    assert(exponent_prefix(0) == exponent_prefix(32) * 0x1_0000_0000 + 0xab5844f1);
}

/// The Montgomery product of the Montgomery forms of two powers of `x` is
/// the Montgomery form of the power to the sum of the exponents.
proof fn lemma_montgomery_powers(u: int, v: int, w: int, x: int, e1: nat, e2: nat)
    requires
        is_montgomery_power(u, x, e1),
        is_montgomery_power(v, x, e2),
        w % scalar_modulus() == montgomery_product(u, v),
    ensures
        is_montgomery_power(w, x, e1 + e2),
{
    let l = scalar_modulus();
    let inv = montgomery_inverse();
    let r = 0x10000000000000000000000000000000000000000000000000000000000000000000000000000000000000000000000000000000000000000int;
    let a = pow(x, e1);
    let b = pow(x, e2);
    vstd::arithmetic::power::lemma_pow_adds(x, e1, e2);
    assert(r * inv == 1 + 0xac7df707debec882cf6f59e6ca1314da15b075b3279fdd2d649b22489cec3fbef3c3d3bacb597189a0ec1456b6862d0a03bd440fae918bc5int * l);
    // u v inv is (a r)(b r) inv, which is a b r (r inv), which is a b r
    vstd::arithmetic::div_mod::lemma_mul_mod_noop_general(u, v, l);
    vstd::arithmetic::div_mod::lemma_mul_mod_noop_general(a * r, b * r, l);
    assert((u * v) % l == ((a * r) * (b * r)) % l);
    vstd::arithmetic::div_mod::lemma_mul_mod_noop_left(u * v, inv, l);
    vstd::arithmetic::div_mod::lemma_mul_mod_noop_left((a * r) * (b * r), inv, l);
    assert(((a * r) * (b * r)) * inv == (a * b) * r + ((a * b) * r * 0xac7df707debec882cf6f59e6ca1314da15b075b3279fdd2d649b22489cec3fbef3c3d3bacb597189a0ec1456b6862d0a03bd440fae918bc5int) * l) by (nonlinear_arith)
        requires
            r * inv == 1 + 0xac7df707debec882cf6f59e6ca1314da15b075b3279fdd2d649b22489cec3fbef3c3d3bacb597189a0ec1456b6862d0a03bd440fae918bc5int * l,
    ;
    vstd::arithmetic::div_mod::lemma_mod_multiples_vanish((a * b) * r * 0xac7df707debec882cf6f59e6ca1314da15b075b3279fdd2d649b22489cec3fbef3c3d3bacb597189a0ec1456b6862d0a03bd440fae918bc5int, (a * b) * r, l);
}

/// The Montgomery product of a scalar and `2^896` is the Montgomery form of
/// the scalar.
proof fn lemma_into_montgomery(x: int, v: int)
    requires
        v % scalar_modulus() == montgomery_product(x, 0x3402a939f823b7292052bcb7e4d070af1a9cc14ba3c47c44ae17cf725ee4d8380d66de2388ea18597af32c4bc1b195d9e3539257049b9b60int),
    ensures
        is_montgomery_power(v, x, 1),
{
    let l = scalar_modulus();
    let inv = montgomery_inverse();
    vstd::arithmetic::power::lemma_pow1(x);
    assert(0x3402a939f823b7292052bcb7e4d070af1a9cc14ba3c47c44ae17cf725ee4d8380d66de2388ea18597af32c4bc1b195d9e3539257049b9b60int * inv == 0x20cd77058eec492d944a725bf7a4cf635c8e9c2ab721cf5b5529eec34int + 0x230b612fbea0c8f6d5683265fdb6e16277e37fa5e01c4aef143e918f4d0fc60048548653a4f2f18b575874c18fbaa0634332bedb7aa31cc4int * l);
    assert(0x20cd77058eec492d944a725bf7a4cf635c8e9c2ab721cf5b5529eec34int == 0x10000000000000000000000000000000000000000000000000000000000000000000000000000000000000000000000000000000000000000int - 0x4int * l);
    assert(x * 0x3402a939f823b7292052bcb7e4d070af1a9cc14ba3c47c44ae17cf725ee4d8380d66de2388ea18597af32c4bc1b195d9e3539257049b9b60int * inv == x * 0x10000000000000000000000000000000000000000000000000000000000000000000000000000000000000000000000000000000000000000int + (x * (0x230b612fbea0c8f6d5683265fdb6e16277e37fa5e01c4aef143e918f4d0fc60048548653a4f2f18b575874c18fbaa0634332bedb7aa31cc4int - 0x4int)) * l) by (nonlinear_arith)
        requires
            0x3402a939f823b7292052bcb7e4d070af1a9cc14ba3c47c44ae17cf725ee4d8380d66de2388ea18597af32c4bc1b195d9e3539257049b9b60int * inv == 0x10000000000000000000000000000000000000000000000000000000000000000000000000000000000000000000000000000000000000000int + (0x230b612fbea0c8f6d5683265fdb6e16277e37fa5e01c4aef143e918f4d0fc60048548653a4f2f18b575874c18fbaa0634332bedb7aa31cc4int - 0x4int) * l,
    ;
    vstd::arithmetic::div_mod::lemma_mod_multiples_vanish(x * (0x230b612fbea0c8f6d5683265fdb6e16277e37fa5e01c4aef143e918f4d0fc60048548653a4f2f18b575874c18fbaa0634332bedb7aa31cc4int - 0x4int), x * 0x10000000000000000000000000000000000000000000000000000000000000000000000000000000000000000000000000000000000000000int, l);
}

/// The Montgomery product of the Montgomery form of a power and 1 is the
/// power itself.
proof fn lemma_out_of_montgomery(v: int, w: int, x: int, e: nat)
    requires
        is_montgomery_power(v, x, e),
        w % scalar_modulus() == montgomery_product(v, 1),
        0 <= w < scalar_modulus(),
    ensures
        w == scalar_pow(x, e),
{
    let l = scalar_modulus();
    let inv = montgomery_inverse();
    let r = 0x10000000000000000000000000000000000000000000000000000000000000000000000000000000000000000000000000000000000000000int;
    let a = pow(x, e);
    assert(r * inv == 1 + 0xac7df707debec882cf6f59e6ca1314da15b075b3279fdd2d649b22489cec3fbef3c3d3bacb597189a0ec1456b6862d0a03bd440fae918bc5int * l);
    assert(v * 1 * inv == v * inv) by (nonlinear_arith);
    vstd::arithmetic::div_mod::lemma_mul_mod_noop_left(v, inv, l);
    vstd::arithmetic::div_mod::lemma_mul_mod_noop_left(a * r, inv, l);
    assert((a * r) * inv == a + (a * 0xac7df707debec882cf6f59e6ca1314da15b075b3279fdd2d649b22489cec3fbef3c3d3bacb597189a0ec1456b6862d0a03bd440fae918bc5int) * l) by (nonlinear_arith)
        requires
            r * inv == 1 + 0xac7df707debec882cf6f59e6ca1314da15b075b3279fdd2d649b22489cec3fbef3c3d3bacb597189a0ec1456b6862d0a03bd440fae918bc5int * l,
    ;
    vstd::arithmetic::div_mod::lemma_mod_multiples_vanish(a * 0xac7df707debec882cf6f59e6ca1314da15b075b3279fdd2d649b22489cec3fbef3c3d3bacb597189a0ec1456b6862d0a03bd440fae918bc5int, a, l);
    vstd::arithmetic::div_mod::lemma_small_mod(w as nat, l as nat);
}

/// A scalar times its power `l - 2` is its power `l - 1`, modulo the
/// order.
pub proof fn lemma_scalar_invert_product(x: int)
    ensures
        (x * scalar_invert(x)) % scalar_modulus() == scalar_pow(x, (scalar_modulus() - 1) as nat),
{
    let l = scalar_modulus();
    let e = scalar_inversion_exponent();
    vstd::arithmetic::power::lemma_pow1(x);
    vstd::arithmetic::power::lemma_pow_adds(x, 1, e);
    vstd::arithmetic::div_mod::lemma_mul_mod_noop_right(x, pow(x, e), l);
}

/// Bit `i` of the exponent `l - 2`, and zero below bit 0.
fn exponent_bit(m: &[u32; 14], i: i32) -> (r: u32)
    requires
        -4 <= i <= 445,
        forall|k: int| 1 <= k < 14 ==> m[k] == exponent_word(k),
        m[0] == exponent_word(0) + 2,
    ensures
        r == if i >= 0 { exponent_bit_at(i as int) } else { 0 },
        r <= 1,
{
    let mut w: u32 = 0;
    if i >= 0 {
        w = m[(i / 32) as usize];
    }
    if i >= 0 && i < 32 {
        w = w - 2;
    }
    let shift: u32 = if i >= 0 {
        (i % 32) as u32
    } else {
        0
    };
    assert((w >> shift) & 1 <= 1 && (0u32 >> 0u32) & 1 == 0) by (bit_vector);
    (w >> shift) & 1
}

/// One step of the sliding window: reads a bit into the residue, closes the
/// window where the residue has four bits, and tells whether the window's
/// lowest set bit has reached bit 3, where the odd power `trailing / 8` of
/// the table is due. Returns the residue, the window before its shift, and
/// whether the power is due.
fn window_step(residue: u32, trailing: u32, bit: u32) -> (r: (u32, u32, bool))
    requires
        window_state(residue, trailing),
        bit <= 1,
    ensures
        r.2 ==> r.1 < 128 && r.1 % 16 == 8 && window_state(r.0, 0),
        !r.2 ==> r.1 < 64 && window_state(r.0, (r.1 * 2) as u32),
        r.0 + r.1 == 2 * residue + bit + trailing,
{
    assert(window_state(residue, trailing) && bit <= 1 ==> {
        let widened = (residue << 1) | bit;
        let closes = widened >> 3 != 0;
        let next_residue = if closes { 0 } else { widened };
        let next_trailing = if closes { widened } else { trailing };
        let due = next_trailing > 0 && (next_trailing & 7) == 0;
        &&& widened == 2 * residue + bit
        &&& (closes ==> trailing == 0)
        &&& (due ==> next_trailing < 128 && next_trailing % 16 == 8 && window_state(next_residue, 0))
        &&& (!due ==> next_trailing < 64 && window_state(next_residue, (next_trailing * 2) as u32))
    }) by (bit_vector);
    let mut next_residue = (residue << 1) | bit;
    let mut next_trailing = trailing;
    if next_residue >> 3 != 0 {
        next_trailing = next_residue;
        next_residue = 0;
    }
    let due = next_trailing > 0 && (next_trailing & 7) == 0;
    (next_residue, next_trailing, due)
}

/// The table of the odd powers of a scalar from the first to the fifteenth,
/// in Montgomery form.
fn odd_powers(x: &Scalar) -> (r: [Scalar; 8])
    ensures
        forall|j: int| 0 <= j < 8 ==> is_montgomery_power((#[trigger] r[j]).value(), x.value(), (2 * j + 1) as nat),
{
    let mut pre_comp = [Scalar::zero();8];
    // precompute [a^1, a^3,,..]
    pre_comp[0] = montgomery_multiply(x, &montgomery_r2());
    proof {
        lemma_into_montgomery(x.value(), pre_comp[0].value());
    }
    pre_comp[7] = montgomery_multiply(&pre_comp[0], &pre_comp[0]);
    proof {
        lemma_montgomery_powers(
            pre_comp[0].value(),
            pre_comp[0].value(),
            pre_comp[7].value(),
            x.value(),
            1,
            1,
        );
    }
    for i in 1..8
        invariant
            forall|j: int|
                0 <= j < i ==> is_montgomery_power(
                    (#[trigger] pre_comp[j]).value(),
                    x.value(),
                    (2 * j + 1) as nat,
                ),
            i < 8 ==> is_montgomery_power(pre_comp[7].value(), x.value(), 2),
    {
        let ghost before = pre_comp;
        let next = montgomery_multiply(&pre_comp[i - 1], &pre_comp[7]);
        proof {
            lemma_montgomery_powers(
                pre_comp[i - 1].value(),
                pre_comp[7].value(),
                next.value(),
                x.value(),
                (2 * (i - 1) + 1) as nat,
                2,
            );
        }
        pre_comp[i] = next;
    }
    pre_comp
}

impl Scalar {
    /// The inverse of the scalar modulo `l`, as its power `l - 2` by a
    /// sliding window over the bits of the exponent, with a table of the odd
    /// powers of the scalar up to the fifteenth. The schedule of squarings
    /// and multiplications depends on the order alone.
    pub fn invert(&self) -> (r: Scalar)
        ensures
            r.value() == scalar_invert(self.value()),
            self.value() == 0 ==> r.value() == 0,
            r.is_canonical(),
    {
        let m = modulus().0;
        let one = Scalar::one();
        let pre_comp = odd_powers(self);
        let mut result = Scalar::zero();

        // Sliding window
        let mut residue: u32 = 0;
        let mut trailing: u32 = 0;
        let mut started: bool = false;
        let ghost x = self.value();
        let ghost mut exponent: nat = 0;
        let ghost mut consumed: nat = 0;

        let mut i: i32 = 445;
        while i >= -3
            invariant
                -4 <= i <= 445,
                window_state(residue, trailing),
                forall|k: int| 1 <= k < 14 ==> m[k] == exponent_word(k),
                m[0] == exponent_word(0) + 2,
                forall|j: int|
                    0 <= j < 8 ==> is_montgomery_power((#[trigger] pre_comp[j]).value(), x, (2 * j + 1) as nat),
                started ==> is_montgomery_power(result.value(), x, exponent),
                !started ==> exponent == 0,
                16 * exponent + trailing + 2 * residue == 2 * consumed,
                i >= 0 ==> consumed == exponent_prefix(i + 1),
                i == -1 ==> consumed == exponent_prefix(0),
                i == -2 ==> consumed == 2 * exponent_prefix(0),
                i == -3 ==> consumed == 4 * exponent_prefix(0),
                i == -4 ==> consumed == 8 * exponent_prefix(0),
            decreases i + 4,
        {
            if started {
                let squared = result.square();
                proof {
                    lemma_montgomery_powers(
                        result.value(),
                        result.value(),
                        squared.value(),
                        x,
                        exponent,
                        exponent,
                    );
                }
                result = squared;
            }
            let bit = exponent_bit(&m, i);
            let (next_residue, next_trailing, multiply) = window_step(residue, trailing, bit);
            proof {
                exponent = 2 * exponent;
                consumed = 2 * consumed + bit as nat;
            }
            assert(next_trailing < 128 ==> (next_trailing >> 4) < 8 && (next_trailing % 16 == 8 ==> 2 * (
            next_trailing >> 4) + 1 == next_trailing / 8) && (next_trailing < 64 ==> (next_trailing << 1)
                == next_trailing * 2)) by (bit_vector);
            if multiply {
                let power = pre_comp[(next_trailing >> 4) as usize];
                if started {
                    let product = montgomery_multiply(&result, &power);
                    proof {
                        lemma_montgomery_powers(
                            result.value(),
                            power.value(),
                            product.value(),
                            x,
                            exponent,
                            (2 * (next_trailing >> 4) + 1) as nat,
                        );
                    }
                    result = product;
                } else {
                    result = power;
                    started = true;
                }
                proof {
                    exponent = exponent + (next_trailing / 8) as nat;
                }
                trailing = 0;
            } else {
                trailing = next_trailing << 1;
            }
            residue = next_residue;
            i = i - 1;
        }
        proof {
            lemma_exponent();
            assert(trailing == 0 && residue == 0);
            assert(exponent == scalar_inversion_exponent());
        }

        // de-montgomerize and return result
        let r = montgomery_multiply(&result, &one);
        proof {
            lemma_scalar_bound(r.0);
            lemma_out_of_montgomery(result.value(), r.value(), x, exponent);
            if x == 0 {
                vstd::arithmetic::power::lemma0_pow(scalar_inversion_exponent());
            }
        }
        r
    }
}

} // verus!
