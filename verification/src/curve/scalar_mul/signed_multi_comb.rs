//! Multiplication by a scalar with windows of five bits and a table of odd
//! multiples.
//!
//! The scalar `s` is recoded as `x = (s + 2^450 - 1) / 2` modulo the order.
//! Window `j` of `x`, the five bits from bit `5 j`, stands for the odd
//! digit `2 w - 31`, which lies between -31 and 31; the digits, weighted by
//! `32^j`, add up to `2 x - (2^450 - 1)`, which is `s` modulo the order. No
//! digit is zero, so every window costs five doublings and one addition.

use crate::curve::group_law::{
    negate_niels,
    niels_of,
    twisted_double,
    ExtensibleCoordinates,
    NielsCoordinates,
};
use crate::curve::scalar_mul::window::wnaf::{add_cached, extensible_of, odd_multiple, LookupTable};
use crate::curve::twedwards::extended::ExtendedPoint;
use crate::curve::twedwards::extensible::ExtensiblePoint;
use crate::curve::twedwards::projective::ProjectiveNielsPoint;
use crate::field::scalar::{bits_value, lemma_scalar_bound, scalar_modulus, Scalar};
use vstd::prelude::*;

verus! {

/// The residue of `2^450 - 1` modulo the order.
pub open spec fn adjustment() -> int {
    0x8335dc163bb124b65129c96fde933d8d723a70aadc873d6d54a7bb0cfint
}

/// The residue of `2^450 - 1` modulo the order, as a scalar.
fn scalar_adjustment_factor() -> (r: Scalar)
    ensures
        r.value() == adjustment(),
{
    proof {
        reveal(crate::field::scalar::scalar_limbs_value);
    }
    Scalar(
        [
            0x4a7bb0cf,
            0xc873d6d5,
            0x23a70aad,
            0xe933d8d7,
            0x129c96fd,
            0xbb124b65,
            0x335dc163,
            0x00000008,
            0x00000000,
            0x00000000,
            0x00000000,
            0x00000000,
            0x00000000,
            0x00000000,
        ],
    )
}

/// The recoded scalar: half of `s + 2^450 - 1` modulo the order.
pub open spec fn recoded(s: int) -> Scalar {
    let sum = if s + adjustment() >= scalar_modulus() {
        s + adjustment() - scalar_modulus()
    } else {
        s + adjustment()
    };
    choose|x: Scalar| x.value() == (sum + (sum % 2) * scalar_modulus()) / 2
}

/// Window `j` of a scalar: the five bits from bit `5 j`.
pub open spec fn window(x: Scalar, j: int) -> u32 {
    let i = 5 * j;
    let low = x.0[i / 32] >> ((i % 32) as u32);
    let high = if i % 32 >= 27 && i / 32 < 13 {
        x.0[i / 32 + 1] << ((32 - i % 32) as u32)
    } else {
        0u32
    };
    (low ^ high) & 31
}

/// The point doubled `n` times over.
pub open spec fn doubled(p: ExtensibleCoordinates, n: nat) -> ExtensibleCoordinates
    decreases n,
{
    if n == 0 {
        p
    } else {
        twisted_double(doubled(p, (n - 1) as nat))
    }
}

/// The cached point for a window `w`: entry `w - 16` of the table where the
/// top bit of the window is set, the negative of entry `15 - w` where it is
/// not.
pub open spec fn window_point(p: ExtensibleCoordinates, w: u32) -> NielsCoordinates {
    if w >= 16 {
        niels_of(odd_multiple(p, (w - 16) as nat))
    } else {
        negate_niels(niels_of(odd_multiple(p, (15 - w) as nat)))
    }
}

/// The point that the windows of `x` from window `j` up give: the point
/// for the windows from `j + 1` up, doubled five times, plus the cached
/// point of window `j`.
pub open spec fn comb(p: ExtensibleCoordinates, x: Scalar, j: int) -> ExtensibleCoordinates
    decreases 90 - j,
{
    if j >= 90 {
        ExtensibleCoordinates { X: 0, Y: 1, Z: 1, T1: 0, T2: 0 }
    } else {
        add_cached(doubled(comb(p, x, j + 1), 5), window_point(p, window(x, j)))
    }
}

/// The integer that the windows of a scalar from window `j` up stand for,
/// with window `j` as the units.
pub open spec fn windows_value(x: Scalar, j: int) -> int
    decreases 90 - j,
{
    if j < 0 || j >= 90 {
        0
    } else {
        window(x, j) + 32 * windows_value(x, j + 1)
    }
}

/// The integer that the signed digits of the windows of a scalar from
/// window `j` up stand for, with the digit `2 w - 31` of window `j` as the
/// units.
pub open spec fn digits_value(x: Scalar, j: int) -> int
    decreases 90 - j,
{
    if j < 0 || j >= 90 {
        0
    } else {
        (2 * window(x, j) - 31) + 32 * digits_value(x, j + 1)
    }
}

/// Five bits of two adjacent words, read from bit `s` of the low word, are
/// the window that shifts and masks give.
proof fn lemma_window_of_words(low: u32, high: u32, s: u32)
    requires
        s < 32,
    ensures
        ({
            let crossing = if s >= 27 {
                high << ((32 - s) as u32)
            } else {
                0u32
            };
            ((low >> s) ^ crossing) & 31
        }) == word_bit(low, high, s, 0) + 2 * word_bit(low, high, s, 1) + 4 * word_bit(low, high, s, 2) + 8
            * word_bit(low, high, s, 3) + 16 * word_bit(low, high, s, 4),
        (low >> s) & 31 == (if s < 32 { word_bit(low, 0, s, 0) } else { 0 }) + 2 * (if s + 1 < 32 {
            word_bit(low, 0, s, 1)
        } else {
            0
        }) + 4 * (if s + 2 < 32 { word_bit(low, 0, s, 2) } else { 0 }) + 8 * (if s + 3 < 32 {
            word_bit(low, 0, s, 3)
        } else {
            0
        }) + 16 * (if s + 4 < 32 { word_bit(low, 0, s, 4) } else { 0 }),
{
    assert(s < 32 ==> ({
        let crossing = if s >= 27 {
            high << ((32 - s) as u32)
        } else {
            0u32
        };
        ((low >> s) ^ crossing) & 31
    }) == (if (if s + 0 < 32 { low & (1u32 << ((s + 0) as u32)) } else { high & (1u32 << ((s + 0 - 32) as u32)) })
        != 0 { 1u32 } else { 0u32 }) + 2 * (if (if s + 1 < 32 { low & (1u32 << ((s + 1) as u32)) } else {
        high & (1u32 << ((s + 1 - 32) as u32))
    }) != 0 { 1u32 } else { 0u32 }) + 4 * (if (if s + 2 < 32 { low & (1u32 << ((s + 2) as u32)) } else {
        high & (1u32 << ((s + 2 - 32) as u32))
    }) != 0 { 1u32 } else { 0u32 }) + 8 * (if (if s + 3 < 32 { low & (1u32 << ((s + 3) as u32)) } else {
        high & (1u32 << ((s + 3 - 32) as u32))
    }) != 0 { 1u32 } else { 0u32 }) + 16 * (if (if s + 4 < 32 { low & (1u32 << ((s + 4) as u32)) } else {
        high & (1u32 << ((s + 4 - 32) as u32))
    }) != 0 { 1u32 } else { 0u32 })) by (bit_vector);
    assert(s < 32 ==> (low >> s) & 31 == (if s + 0 < 32 && low & (1u32 << ((s + 0) as u32)) != 0 { 1u32 } else {
        0u32
    }) + 2 * (if s + 1 < 32 && low & (1u32 << ((s + 1) as u32)) != 0 { 1u32 } else { 0u32 }) + 4 * (if s + 2
        < 32 && low & (1u32 << ((s + 2) as u32)) != 0 { 1u32 } else { 0u32 }) + 8 * (if s + 3 < 32 && low & (
    1u32 << ((s + 3) as u32)) != 0 { 1u32 } else { 0u32 }) + 16 * (if s + 4 < 32 && low & (1u32 << ((s + 4) as u32))
        != 0 { 1u32 } else { 0u32 })) by (bit_vector);
}

/// Bit `s + t` of the pair of words `low` and `high`, as 0 or 1.
pub open spec fn word_bit(low: u32, high: u32, s: u32, t: u32) -> int {
    if s + t < 32 {
        if low & (1u32 << ((s + t) as u32)) != 0 {
            1
        } else {
            0
        }
    } else {
        if high & (1u32 << ((s + t - 32) as u32)) != 0 {
            1
        } else {
            0
        }
    }
}

/// The five bits of a scalar from bit `5 j` are window `j`.
proof fn lemma_window_bits(x: Scalar, j: int)
    requires
        0 <= j < 90,
    ensures
        bits_value(x, 5 * j) == window(x, j) + 32 * bits_value(x, 5 * j + 5),
{
    let i = 5 * j;
    let k = i / 32;
    let s = (i % 32) as u32;
    reveal_with_fuel(bits_value, 6);
    assert((i + 1) / 32 == (if s + 1 < 32 { k } else { k + 1 }) && (i + 1) % 32 == (if s + 1 < 32 { s + 1 } else {
        s + 1 - 32
    }));
    assert((i + 2) / 32 == (if s + 2 < 32 { k } else { k + 1 }) && (i + 2) % 32 == (if s + 2 < 32 { s + 2 } else {
        s + 2 - 32
    }));
    assert((i + 3) / 32 == (if s + 3 < 32 { k } else { k + 1 }) && (i + 3) % 32 == (if s + 3 < 32 { s + 3 } else {
        s + 3 - 32
    }));
    assert((i + 4) / 32 == (if s + 4 < 32 { k } else { k + 1 }) && (i + 4) % 32 == (if s + 4 < 32 { s + 4 } else {
        s + 4 - 32
    }));
    if j < 89 {
        let low = x.0[k];
        let high = if k < 13 {
            x.0[k + 1]
        } else {
            0u32
        };
        lemma_window_of_words(low, high, s);
        assert(s >= 28 ==> k < 13);
        let b0: int = if x.bit(i) { 1 } else { 0 };
        let b1: int = if x.bit(i + 1) { 1 } else { 0 };
        let b2: int = if x.bit(i + 2) { 1 } else { 0 };
        let b3: int = if x.bit(i + 3) { 1 } else { 0 };
        let b4: int = if x.bit(i + 4) { 1 } else { 0 };
        assert(b0 == word_bit(low, high, s, 0));
        assert(b1 == word_bit(low, high, s, 1));
        assert(b2 == word_bit(low, high, s, 2));
        assert(b3 == word_bit(low, high, s, 3));
        assert(b4 == word_bit(low, high, s, 4));
        assert(bits_value(x, i + 4) == b4 + 2 * bits_value(x, i + 5));
        assert(bits_value(x, i + 3) == b3 + 2 * bits_value(x, i + 4));
        assert(bits_value(x, i + 2) == b2 + 2 * bits_value(x, i + 3));
        assert(bits_value(x, i + 1) == b1 + 2 * bits_value(x, i + 2));
        assert(bits_value(x, i) == b0 + 2 * bits_value(x, i + 1));
        assert(window(x, j) == b0 + 2 * b1 + 4 * b2 + 8 * b3 + 16 * b4);
    } else {
        // The top window holds the three bits that are left.
        let low = x.0[13];
        lemma_window_of_words(low, 0, 29);
        assert(i == 445 && k == 13 && s == 29);
        let b0: int = if x.bit(445) { 1 } else { 0 };
        let b1: int = if x.bit(446) { 1 } else { 0 };
        let b2: int = if x.bit(447) { 1 } else { 0 };
        assert(b0 == word_bit(low, 0, 29, 0));
        assert(b1 == word_bit(low, 0, 29, 1));
        assert(b2 == word_bit(low, 0, 29, 2));
        assert(bits_value(x, 448) == 0);
        assert(bits_value(x, 450) == 0);
        assert(bits_value(x, 447) == b2 + 2 * bits_value(x, 448));
        assert(bits_value(x, 446) == b1 + 2 * bits_value(x, 447));
        assert(bits_value(x, 445) == b0 + 2 * bits_value(x, 446));
        assert(((low >> 29u32) ^ 0u32) & 31 == (low >> 29u32) & 31) by (bit_vector);
        assert(window(x, 89) == (low >> 29u32) & 31);
        assert(window(x, 89) == b0 + 2 * b1 + 4 * b2);
    }
}

/// The windows of a scalar from window `j` up stand for what its bits from
/// bit `5 j` up stand for.
proof fn lemma_windows_are_bits(x: Scalar, j: int)
    requires
        0 <= j <= 90,
    ensures
        windows_value(x, j) == bits_value(x, 5 * j),
    decreases 90 - j,
{
    if j < 90 {
        lemma_windows_are_bits(x, j + 1);
        lemma_window_bits(x, j);
    }
}

/// The digits of the windows from window `j` up stand for twice what the
/// windows stand for, less `32^(90 - j) - 1`.
proof fn lemma_digits_of_windows(x: Scalar, j: int)
    requires
        0 <= j <= 90,
    ensures
        digits_value(x, j) == 2 * windows_value(x, j) - (vstd::arithmetic::power2::pow2(
            (5 * (90 - j)) as nat,
        ) - 1),
    decreases 90 - j,
{
    vstd::arithmetic::power2::lemma2_to64();
    if j < 90 {
        lemma_digits_of_windows(x, j + 1);
        vstd::arithmetic::power2::lemma_pow2_adds(5, (5 * (90 - j - 1)) as nat);
    }
}

/// The signed digits of the windows of the recoded scalar stand for the
/// scalar, modulo the order: the windowed method multiplies by the scalar.
pub proof fn lemma_recoded_digits(s: Scalar)
    ensures
        digits_value(recoded(s.value()), 0) % scalar_modulus() == s.value() % scalar_modulus(),
{
    let l = scalar_modulus();
    let v = s.value();
    let x = recoded(v);
    lemma_scalar_bound(s.0);
    let sum = if v + adjustment() >= l {
        v + adjustment() - l
    } else {
        v + adjustment()
    };
    let half = (sum + (sum % 2) * l) / 2;
    crate::field::scalar::lemma_scalar_exists(half);
    assert(x.value() == half);
    lemma_windows_are_bits(x, 0);
    crate::field::scalar::lemma_bits_value(x);
    lemma_digits_of_windows(x, 0);
    lemma_pow2_450();
    // twice the half is the scalar plus 2^450 - 1, up to multiples of the
    // order
    let wrapped: int = if v + adjustment() >= l {
        1
    } else {
        0
    };
    let total = 2 * half - (0x40000000000000000000000000000000000000000000000000000000000000000000000000000000000000000000000000000000000000000int - 1);
    assert(total == v + (sum % 2 - wrapped - 0x10int) * l);
    vstd::arithmetic::div_mod::lemma_mod_multiples_vanish(sum % 2 - wrapped - 0x10int, v, l);
}

/// The power `2^450`.
proof fn lemma_pow2_450()
    ensures
        vstd::arithmetic::power2::pow2(450) == 0x40000000000000000000000000000000000000000000000000000000000000000000000000000000000000000000000000000000000000000int,
{
    vstd::arithmetic::power2::lemma2_to64();
    vstd::arithmetic::power2::lemma2_to64_rest();
    vstd::arithmetic::power2::lemma_pow2_adds(50, 50);
    assert(vstd::arithmetic::power2::pow2(100) == 0x10000000000000000000000000int);
    vstd::arithmetic::power2::lemma_pow2_adds(100, 50);
    assert(vstd::arithmetic::power2::pow2(150) == 0x40000000000000000000000000000000000000int);
    vstd::arithmetic::power2::lemma_pow2_adds(150, 150);
    assert(vstd::arithmetic::power2::pow2(300) == 0x1000000000000000000000000000000000000000000000000000000000000000000000000000int) by (nonlinear_arith)
        requires
            vstd::arithmetic::power2::pow2(150) == 0x40000000000000000000000000000000000000int,
            vstd::arithmetic::power2::pow2(300) == vstd::arithmetic::power2::pow2(150)
                * vstd::arithmetic::power2::pow2(150),
    ;
    vstd::arithmetic::power2::lemma_pow2_adds(300, 150);
    assert(vstd::arithmetic::power2::pow2(450) == 0x40000000000000000000000000000000000000000000000000000000000000000000000000000000000000000000000000000000000000000int) by (nonlinear_arith)
        requires
            vstd::arithmetic::power2::pow2(150) == 0x40000000000000000000000000000000000000int,
            vstd::arithmetic::power2::pow2(300) == 0x1000000000000000000000000000000000000000000000000000000000000000000000000000int,
            vstd::arithmetic::power2::pow2(450) == vstd::arithmetic::power2::pow2(300)
                * vstd::arithmetic::power2::pow2(150),
    ;
}

/// The width of a window, in bits.
const WINDOW_BITS: usize = 5;

/// The five bits of the scalar from bit `5 j`.
fn window_bits(x: &Scalar, j: usize) -> (r: u32)
    requires
        j < 90,
    ensures
        r == window(*x, j as int),
        r < 32,
{
    let i = 5 * j;
    let low = x.0[i / 32] >> ((i % 32) as u32);
    let high = if (i % 32 >= 32 - WINDOW_BITS) && (i / 32 < 13) {
        x.0[(i / 32) + 1] << ((32 - (i % 32)) as u32)
    } else {
        0
    };
    let bits = low ^ high;
    assert(bits & 31 < 32) by (bit_vector);
    bits & 31
}

/// The cached point for a window: the entry of the table that the low four
/// bits of the window give, read as they are where the top bit is set and
/// flipped where it is not, and negated in that case.
fn window_entry(lookup: &LookupTable, bits: u32, Ghost(p): Ghost<ExtensibleCoordinates>) -> (r:
    ProjectiveNielsPoint)
    requires
        bits < 32,
        lookup.is_weak(),
        forall|i: int| 0 <= i < 16 ==> (#[trigger] lookup.0[i])@ == niels_of(odd_multiple(p, i as nat)),
    ensures
        r@ == window_point(p, bits),
        r.is_weak(),
{
    assert(bits < 32 ==> (bits >> 4) <= 1 && ((bits >> 4 == 1) <==> bits >= 16)) by (bit_vector);
    let inv = (bits >> 4).wrapping_sub(1);
    assert(bits < 32 ==> (bits >= 16 ==> (bits ^ 0) & 15 == bits - 16) && (bits < 16 ==> (bits
        ^ 0xffff_ffff) & 15 == 15 - bits) && 0u32 & 1 == 0 && 0xffff_ffffu32 & 1 == 1) by (bit_vector);
    let index = (bits ^ inv) & 15;
    let mut entry = lookup.select(index);
    assert(entry == lookup.0[index as int]);
    entry.conditional_negate((inv & 1) == 1);
    entry
}

/// One window of the multiplication: five doublings and the addition of the
/// cached point of the window.
fn comb_step(
    result: ExtensiblePoint,
    lookup: &LookupTable,
    x: &Scalar,
    j: usize,
    Ghost(p): Ghost<ExtensibleCoordinates>,
) -> (r: ExtensiblePoint)
    requires
        j < 90,
        result.is_weak(),
        result@ == comb(p, *x, j + 1),
        lookup.is_weak(),
        forall|i: int| 0 <= i < 16 ==> (#[trigger] lookup.0[i])@ == niels_of(odd_multiple(p, i as nat)),
    ensures
        r@ == comb(p, *x, j as int),
        r.is_weak(),
{
    let bits = window_bits(x, j);
    let entry = window_entry(lookup, bits, Ghost(p));
    let mut result = result;
    for n in 0..5
        invariant
            result.is_weak(),
            result@ == doubled(comb(p, *x, j + 1), n as nat),
    {
        result = result.double();
    }
    result.add_projective_niels(&entry)
}

/// The scalar times the point, by the windowed method.
pub fn signed_multi_comb(point: &ExtendedPoint, s: &Scalar) -> (r: ExtendedPoint)
    ensures
        r@ == crate::curve::group_law::extended_of(comb(extensible_of(point@), recoded(s.value()), 0)),
        r.is_weak(),
{
    let mut result = ExtensiblePoint::identity();
    proof {
        lemma_scalar_bound(s.0);
    }
    // Recode the scalar
    let scalar_one_x = (*s + scalar_adjustment_factor()).halve();
    proof {
        let target = recoded(s.value());
        assert(scalar_one_x.value() == target.value());
        crate::field::scalar::lemma_value_injective(scalar_one_x.0, target.0);
    }

    let lookup = LookupTable::from_point(point);

    let mut j: usize = 90;
    while j > 0
        invariant
            0 <= j <= 90,
            result.is_weak(),
            lookup.is_weak(),
            forall|i: int|
                0 <= i < 16 ==> (#[trigger] lookup.0[i])@ == niels_of(
                    odd_multiple(extensible_of(point@), i as nat),
                ),
            scalar_one_x == recoded(s.value()),
            result@ == comb(extensible_of(point@), recoded(s.value()), j as int),
        decreases j,
    {
        j = j - 1;
        result = comb_step(result, &lookup, &scalar_one_x, j, Ghost(extensible_of(point@)));
    }
    result.to_extended()
}

} // verus!
