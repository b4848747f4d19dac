use ed448_goldilocks::curve::constants::{goldilocks_base_point, twisted_edwards_base_point};
use ed448_goldilocks::curve::edwards::extended::{CompressedEdwardsY, ExtendedPoint};
use ed448_goldilocks::curve::scalar_mul::double_and_add::double_and_add;
use ed448_goldilocks::curve::scalar_mul::signed_multi_comb::signed_multi_comb;
use ed448_goldilocks::curve::scalar_mul::variable_base::variable_base;
use ed448_goldilocks::curve::scalar_mul::window::select_mask;
use ed448_goldilocks::curve::scalar_mul::window::wnaf::LookupTable;
use ed448_goldilocks::curve::twedwards::extended::ExtendedPoint as TwistedExtendedPoint;
use ed448_goldilocks::decaf::{CompressedDecaf, DecafPoint};
use ed448_goldilocks::field::element::{from_u32, word_is_zero, FieldElement28};
use ed448_goldilocks::field::scalar::{add, modulus, montgomery_multiply, sub_extra, Scalar};

const MODULUS_BYTES: [u8; 56] = [
    0xff, 0xff, 0xff, 0xff, 0xff, 0xff, 0xff, 0xff, 0xff, 0xff, 0xff, 0xff, 0xff, 0xff, 0xff, 0xff,
    0xff, 0xff, 0xff, 0xff, 0xff, 0xff, 0xff, 0xff, 0xff, 0xff, 0xff, 0xff, 0xfe, 0xff, 0xff, 0xff,
    0xff, 0xff, 0xff, 0xff, 0xff, 0xff, 0xff, 0xff, 0xff, 0xff, 0xff, 0xff, 0xff, 0xff, 0xff, 0xff,
    0xff, 0xff, 0xff, 0xff, 0xff, 0xff, 0xff, 0xff,
];

fn sample_element(seed: u32) -> FieldElement28 {
    let mut bytes = [0u8; 56];
    let mut state = seed.wrapping_mul(2654435761).wrapping_add(12345);
    for byte in bytes.iter_mut() {
        state = state.wrapping_mul(1664525).wrapping_add(1013904223);
        *byte = (state >> 24) as u8;
    }
    FieldElement28::from_bytes(&bytes)
}

fn sample_scalar(seed: u32) -> Scalar {
    let mut bytes = [0u8; 114];
    let mut state = seed.wrapping_mul(40503).wrapping_add(977);
    for byte in bytes.iter_mut() {
        state = state.wrapping_mul(1664525).wrapping_add(1013904223);
        *byte = (state >> 24) as u8;
    }
    Scalar::from_bytes_mod_order_wide(&bytes)
}

#[test]
fn field_inverse_times_element_is_one() {
    for seed in 1..20 {
        let a = sample_element(seed);
        assert!(!a.is_zero());
        assert_eq!(a * a.invert(), FieldElement28::one());
    }
    assert_eq!(from_u32(2) * from_u32(2).invert(), FieldElement28::one());
}

#[test]
fn field_inverse_of_zero_is_zero() {
    assert_eq!(FieldElement28::zero().invert(), FieldElement28::zero());
    assert!(FieldElement28::zero().invert().is_zero());
}

#[test]
fn field_bytes_round_trip() {
    for seed in 1..20 {
        let bytes = sample_element(seed).to_bytes();
        assert_eq!(FieldElement28::from_bytes(&bytes).to_bytes(), bytes);
    }
    let mut largest = MODULUS_BYTES;
    largest[0] = 0xfe;
    assert_eq!(FieldElement28::from_bytes(&largest).to_bytes(), largest);
    assert_eq!(FieldElement28::from_bytes(&[0u8; 56]).to_bytes(), [0u8; 56]);
}

#[test]
fn field_bytes_of_the_modulus_reduce_to_zero() {
    assert_eq!(FieldElement28::from_bytes(&MODULUS_BYTES).to_bytes(), [0u8; 56]);
    assert!(FieldElement28::from_bytes(&MODULUS_BYTES).is_zero());
    let mut one_more = MODULUS_BYTES;
    one_more[28] = 0xff;
    // 2^448 - 1 = p + 2^224
    let mut expected = [0u8; 56];
    expected[28] = 1;
    assert_eq!(FieldElement28::from_bytes(&[0xffu8; 56]).to_bytes(), expected);
}

#[test]
fn field_add_then_sub_gives_the_element_back() {
    for seed in 1..20 {
        let a = sample_element(seed);
        let b = sample_element(seed + 100);
        assert_eq!((a + b) - b, a);
        assert_eq!(((a + b) - b).to_bytes(), a.to_bytes());
    }
}

#[test]
fn field_exact_values() {
    assert_eq!((from_u32(5) * from_u32(210)).to_bytes()[0..2], [0x1a, 0x04]);
    assert_eq!((from_u32(7) - from_u32(9)).to_bytes(), {
        let mut bytes = MODULUS_BYTES;
        bytes[0] = 0xfd;
        bytes
    });
    assert_eq!(from_u32(3).negate().to_bytes(), {
        let mut bytes = MODULUS_BYTES;
        bytes[0] = 0xfc;
        bytes
    });
    assert_eq!(from_u32(3).square_n(3), from_u32(6561));
    assert_eq!(FieldElement28::minus_one() + FieldElement28::one(), FieldElement28::zero());
    assert!(from_u32(3).is_negative());
    assert!(!from_u32(4).is_negative());
    assert_eq!(FieldElement28::mul_double_limb(&from_u32(9), 100), from_u32(900));
    assert_eq!(
        FieldElement28::mul_double_limb(&from_u32(2), 1 << 40),
        FieldElement28([0, 1 << 13, 0, 0, 0, 0, 0, 0, 0, 0, 0, 0, 0, 0, 0, 0])
    );
}

#[test]
fn field_inverse_square_root_of_a_square() {
    for seed in 1..10 {
        let a = sample_element(seed);
        let square = a.square();
        let (root, is_square) = square.inverse_square_root();
        assert!(is_square);
        assert_eq!(root.square() * square, FieldElement28::one());
    }
    // -1 is not a square modulo p, which is 3 modulo 4
    let (_, is_square) = FieldElement28::minus_one().inverse_square_root();
    assert!(!is_square);
    let (root, is_square) = FieldElement28::zero().inverse_square_root();
    assert!(!is_square);
    assert!(root.is_zero());
    let (root, is_square) = FieldElement28::sqrt_ratio(&FieldElement28::zero(), &from_u32(7));
    assert!(is_square);
    assert!(root.is_zero());
}

#[test]
fn field_strong_reduce_is_canonical() {
    let mut a = FieldElement28([0xffff_ffff; 16]);
    let before = a;
    a.strong_reduce();
    for limb in a.0.iter() {
        assert!(*limb < (1 << 28));
    }
    assert_eq!(a, before);
    let mut p = FieldElement28::from_bytes(&MODULUS_BYTES);
    p.strong_reduce();
    assert_eq!(p.0, [0u32; 16]);
    let mut weak = FieldElement28([0x1fff_ffff; 16]);
    weak.weak_reduce();
    for limb in weak.0.iter() {
        assert!(*limb <= (1 << 28) + 15);
    }
    assert_eq!(weak, FieldElement28([0x1fff_ffff; 16]));
}

#[test]
fn masks_and_zero_words() {
    assert_eq!(select_mask(4, 4), 0xffff_ffff);
    assert_eq!(select_mask(4, 5), 0);
    assert_eq!(select_mask(0, 0), 0xffff_ffff);
    assert!(word_is_zero(0));
    assert!(!word_is_zero(1));
}

#[test]
fn points_differ_where_one_coordinate_differs() {
    let g = goldilocks_base_point();
    // the same x, another y
    let mut other = g;
    other.Y = g.Y.negate();
    assert!(!g.ct_eq(&other));
    // the same y, another x
    assert!(!g.ct_eq(&g.negate()));
    assert!(g.ct_eq(&g));
    let q = twisted_edwards_base_point();
    assert!(!q.ct_eq(&q.negate()));
    assert!(!q.ct_eq(&q.torque().negate()));
    assert!(q.ct_eq(&q));
    assert!(!q.to_extensible().ct_eq(&q.negate().to_extensible()));
    assert!(q.to_extensible().equals(&q.to_extensible()));
}

#[test]
fn decompression_gives_the_encoded_sign() {
    let g = goldilocks_base_point();
    let mut bytes = g.compress().0;
    let plain = CompressedEdwardsY(bytes).decompress().unwrap();
    bytes[56] ^= 0x80;
    let flipped = CompressedEdwardsY(bytes).decompress().unwrap();
    assert_eq!(plain, g);
    assert_eq!(flipped, g.negate().torque().torque());
    assert_ne!(plain, flipped);
    assert_eq!(plain.X.is_negative(), !flipped.X.is_negative());
    assert_eq!(plain.Y, flipped.Y);
}

#[test]
fn field_selection_through_the_wrappers() {
    let a = from_u32(11);
    let b = from_u32(22);
    assert_eq!(FieldElement28::conditional_select(&a, &b, false).0, a.0);
    assert_eq!(FieldElement28::conditional_select(&a, &b, true).0, b.0);
    let (mut x, mut y) = (a, b);
    FieldElement28::conditional_swap(&mut x, &mut y, true);
    assert_eq!((x.0, y.0), (b.0, a.0));
    FieldElement28::conditional_swap(&mut x, &mut y, false);
    assert_eq!((x.0, y.0), (b.0, a.0));
    assert!(a.equals(&from_u32(11)));
    assert!(!a.equals(&b));
}

#[test]
fn scalar_exact_values() {
    assert_eq!(add(&Scalar::from(7), &Scalar::from(8)), Scalar::from(15));
    assert_eq!(Scalar::from(7) * Scalar::from(8), Scalar::from(56));
    assert_eq!(Scalar::from(7).halve().0[0], 0x55ac227d);
    assert_eq!(Scalar::from(7).halve() + Scalar::from(7).halve(), Scalar::from(7));
    let mut nine = Scalar::from(39);
    nine.div_by_four();
    assert_eq!(nine, Scalar::from(9));
    assert_eq!(sub_extra(&Scalar::from(5), &Scalar::from(6), 0), Scalar::zero() - Scalar::one());
    let minus_one = Scalar::zero() - Scalar::one();
    assert_eq!(minus_one + Scalar::one(), Scalar::zero());
    assert_eq!(add(&modulus(), &Scalar::zero()), Scalar::zero());
    assert_eq!(minus_one.0[0], 0xab5844f2);
    // the Montgomery product of x and 2^448 mod l is x
    let r = Scalar([0x529eec34, 0x721cf5b5, 0xc8e9c2ab, 0x7a4cf635, 0x44a725bf, 0xeec492d9, 0xcd77058, 0x2, 0, 0, 0, 0, 0, 0]);
    assert_eq!(montgomery_multiply(&Scalar::from(12345), &r), Scalar::from(12345));
    let bits = Scalar::from(5).bits();
    assert_eq!(bits.len(), 448);
    assert!(bits[0] && !bits[1] && bits[2] && !bits[3] && !bits[447]);
    let digits = Scalar::from(0x98).to_radix_16();
    assert_eq!(digits[0], -8);
    assert_eq!(digits[1], -6);
    assert_eq!(digits[2], 1);
    assert_eq!(digits[3], 0);
}

#[test]
fn scalar_inverse_times_scalar_is_one() {
    for seed in 1..10 {
        let a = sample_scalar(seed);
        assert_eq!(a * a.invert(), Scalar::one());
    }
    assert_eq!(Scalar::zero().invert(), Scalar::zero());
}

#[test]
fn scalar_canonical_decoding_at_the_boundary() {
    let mut order = [0u8; 57];
    order[..56].copy_from_slice(&modulus().to_bytes());
    assert_eq!(Scalar::from_canonical_bytes(order), None);
    let mut below = order;
    below[0] -= 1;
    assert_eq!(Scalar::from_canonical_bytes(below), Some(Scalar::zero() - Scalar::one()));
    let mut above = order;
    above[0] += 1;
    assert_eq!(Scalar::from_canonical_bytes(above), None);
    let mut long = [0u8; 57];
    long[56] = 1;
    assert_eq!(Scalar::from_canonical_bytes(long), None);
    let mut high = [0u8; 57];
    high[55] = 0x40;
    assert_eq!(Scalar::from_canonical_bytes(high), None);
    assert_eq!(Scalar::from_canonical_bytes([0u8; 57]), Some(Scalar::zero()));
    assert_eq!((Scalar::zero() - Scalar::one()).to_bytes_rfc_8032(), below);
}

#[test]
fn edwards_group_laws() {
    let g = goldilocks_base_point();
    let p = g.double().add(&g);
    let q = g.double().double();
    assert!(p.is_on_curve());
    assert!(q.is_on_curve());
    assert_eq!(p.add(&ExtendedPoint::identity()), p);
    assert_eq!(p.add(&p.negate()), ExtendedPoint::identity());
    assert_eq!(p.add(&q), q.add(&p));
    assert_eq!(p.double(), p.add(&p));
    assert_eq!(p + q, q + p);
    assert_eq!(p - p, ExtendedPoint::identity());
    assert_eq!(p.torque().torque(), p);
    assert_ne!(p, q);
}

#[test]
fn twisted_doubling_agrees_with_addition() {
    let g = twisted_edwards_base_point();
    assert!(g.is_on_curve());
    let doubled = g.double();
    let added = g.to_extensible().add_extended(&g).to_extended();
    assert_eq!(doubled, added);
    assert!(doubled.is_on_curve());
    assert_eq!(g.to_extensible().add_extended(&g.negate()).to_extended(), TwistedExtendedPoint::identity());
    assert_eq!(g.to_extensible().sub_extended(&g).to_extended(), TwistedExtendedPoint::identity());
    let difference = doubled.to_extensible().sub_extended(&g).to_extended();
    assert_eq!(difference, g);
    assert!(difference.is_on_curve());
}

#[test]
fn edwards_compression_round_trip() {
    let g = goldilocks_base_point();
    let mut p = g;
    for _ in 0..5 {
        let decompressed = p.compress().decompress().unwrap();
        assert_eq!(decompressed, p);
        assert_eq!(decompressed.compress().0, p.compress().0);
        p = p.add(&g);
    }
    // y = 2 has no x on the curve
    let mut bytes = [0u8; 57];
    bytes[0] = 2;
    assert!(CompressedEdwardsY(bytes).decompress().is_none());
}

#[test]
fn isogeny_there_and_back_multiplies_by_four() {
    let g = goldilocks_base_point();
    assert_eq!(g.to_twisted().to_untwisted(), g.double().double());
    let q = twisted_edwards_base_point();
    assert_eq!(q.to_untwisted().to_twisted(), q.double().double());
    assert!(g.to_twisted().is_on_curve());
}

#[test]
fn scalar_multiplication_laws() {
    let g = goldilocks_base_point();
    assert_eq!(g.scalar_mul(&Scalar::one()), g);
    assert_eq!(g.scalar_mul(&Scalar::zero()), ExtendedPoint::identity());
    assert_eq!(g.scalar_mul(&Scalar::from(4)), g.double().double());
    assert_eq!(g.scalar_mul(&Scalar::from(7)), g.double().double().double().add(&g.negate()));
    for seed in 1..4 {
        let a = sample_scalar(seed);
        let b = sample_scalar(seed + 50);
        assert_eq!(g.scalar_mul(&(a + b)), g.scalar_mul(&a).add(&g.scalar_mul(&b)));
    }
    for k in 0..4u32 {
        let mut expected = ExtendedPoint::identity();
        for _ in 0..k {
            expected = expected.add(&g);
        }
        assert_eq!(g.scalar_mod_four(&Scalar::from(k + 8)), expected);
    }
    assert_eq!(g * Scalar::from(3), Scalar::from(3) * g);
}

#[test]
fn windowed_and_bitwise_multiplication_agree() {
    let q = twisted_edwards_base_point();
    for seed in 1..4 {
        let s = sample_scalar(seed);
        assert_eq!(signed_multi_comb(&q, &s), double_and_add(&q, &s));
        assert_eq!(variable_base(&q, &s), double_and_add(&q, &s));
    }
    assert_eq!(double_and_add(&q, &Scalar::from(2)), q.double());
    assert_eq!(signed_multi_comb(&q, &Scalar::zero()), TwistedExtendedPoint::identity());
}

#[test]
fn lookup_table_holds_the_odd_multiples() {
    let q = twisted_edwards_base_point();
    let table = LookupTable::from(&q);
    let twice = q.double();
    let mut multiple = q;
    for index in 0..16u32 {
        let entry = table.select(index);
        let mut sum = TwistedExtendedPoint::identity().to_extensible();
        assert_eq!(sum.add_projective_niels(&entry).to_extended(), multiple);
        multiple = multiple.to_extensible().add_extended(&twice).to_extended();
    }
    let past = table.select(16);
    assert_eq!(past.Y_plus_X.0, FieldElement28::one().0);
    assert_eq!(past.Y_minus_X.0, FieldElement28::one().0);
    assert_eq!(past.Td.0, FieldElement28::zero().0);
    assert_eq!(past.Z.0, FieldElement28::one().0);
}

#[test]
fn decaf_round_trip_up_to_the_coset() {
    let g = DecafPoint::generator();
    let mut p = DecafPoint::identity();
    for _ in 0..6 {
        let decoded = p.compress().decompress().unwrap();
        assert!(decoded.equals(&p));
        assert!(decoded.0.is_on_curve());
        assert_eq!(decoded.compress(), p.compress());
        // the points of the coset encode alike
        assert_eq!(DecafPoint(p.0.torque()).compress(), p.compress());
        p = p + g;
    }
    assert_eq!(DecafPoint::identity().compress().0, [0u8; 56]);
    assert_eq!(DecafPoint::generator().compress().0[0], 102);
    assert_eq!(DecafPoint::generator().compress().0[55], 51);
    assert!((g - g).equals(&DecafPoint::identity()));
    assert!((g + (-g)).equals(&DecafPoint::identity()));
    assert!(g.sub(&g).equals(&DecafPoint::identity()));
    assert_eq!((g * Scalar::from(2)).compress(), (g + g).compress());
    assert_eq!((Scalar::from(3) * g).compress(), (g + g + g).compress());
}

#[test]
fn decaf_rejects_what_is_no_encoding() {
    // the modulus itself, which is zero when reduced
    assert!(CompressedDecaf(MODULUS_BYTES).decompress().is_none());
    // a reduction that is not canonical: p + 2
    let mut above = MODULUS_BYTES;
    above[0] = 0x01;
    above[28] = 0xff;
    assert!(CompressedDecaf(above).decompress().is_none());
    assert!(CompressedDecaf([0xffu8; 56]).decompress().is_none());
    // a negative element
    let mut negative = [0u8; 56];
    negative[0] = 1;
    assert!(CompressedDecaf(negative).decompress().is_none());
    // an element without a point
    let mut count = 0;
    for low in (2..60u8).step_by(2) {
        let mut bytes = [0u8; 56];
        bytes[0] = low;
        if CompressedDecaf(bytes).decompress().is_none() {
            count += 1;
        }
    }
    assert!(count > 0);
    assert!(CompressedDecaf::identity().decompress().unwrap().equals(&DecafPoint::identity()));
}

#[test]
fn square_root_of_a_ratio_squares_to_the_ratio() {
    for seed in 1..10 {
        let u = sample_element(seed);
        let v = sample_element(seed + 30);
        let (root, found) = FieldElement28::sqrt_ratio(&u, &v);
        if found {
            assert_eq!(root.square() * v, u);
        }
        let (root, found) = FieldElement28::sqrt_ratio(&(u.square() * v), &v);
        assert!(found);
        assert_eq!(root.square() * v, u.square() * v);
    }
}

#[test]
fn decompressed_points_lie_on_the_curve() {
    let mut found = 0;
    for low in 0..40u8 {
        let mut bytes = [0u8; 57];
        bytes[0] = low;
        bytes[5] = 0x17;
        for sign in [0u8, 0x80] {
            bytes[56] = sign;
            if let Some(point) = CompressedEdwardsY(bytes).decompress() {
                found += 1;
                assert!(point.is_on_curve());
                assert_eq!(point.compress().0, bytes);
            }
        }
    }
    assert!(found > 0);
}

#[test]
fn scalar_digits_and_bits_stand_for_the_scalar() {
    for seed in 1..6 {
        let s = sample_scalar(seed);
        // radix 16, signed digits, from the top digit down
        let digits = s.to_radix_16();
        let mut value = Scalar::zero();
        let sixteen = Scalar::from(16);
        for digit in digits.iter().rev() {
            value = value * sixteen;
            if *digit < 0 {
                value = value - Scalar::from((-*digit) as u32);
            } else {
                value = value + Scalar::from(*digit as u32);
            }
        }
        assert_eq!(value, s);
        // bits, from the top bit down
        let bits = s.bits();
        let mut value = Scalar::zero();
        for bit in bits.iter().rev() {
            value = value + value;
            if *bit {
                value = value + Scalar::one();
            }
        }
        assert_eq!(value, s);
        assert_eq!(s.halve() + s.halve(), s);
    }
}

#[test]
fn twisted_group_laws() {
    let g = twisted_edwards_base_point();
    let p = g.double().to_extensible().add_extended(&g).to_extended();
    let q = g.double().double();
    assert_eq!(p.to_extensible().add_extended(&q), q.to_extensible().add_extended(&p));
    assert_eq!(p.to_extensible().add_extended(&TwistedExtendedPoint::identity()).to_extended(), p);
    assert_eq!(
        p.to_extensible().add_extended(&p.negate()).to_extended(),
        TwistedExtendedPoint::identity()
    );
    assert_eq!(p.to_extensible().add_extensible(&q.to_extensible()).to_extended(), q.to_extensible().add_extended(&p).to_extended());
    assert_eq!(p.to_affine().add(&q.to_affine()).to_extended(), p.to_extensible().add_extended(&q).to_extended());
    let cached = q.to_extensible().to_projective_niels();
    let mut sum = p.to_extensible();
    assert_eq!(sum.add_projective_niels(&cached).to_extended(), p.to_extensible().add_extended(&q).to_extended());
}
