use ed448_goldilocks::curve::twedwards::extensible::ExtensiblePoint;
use ed448_goldilocks::field::element::{from_u32, FieldElement28};
use ed448_goldilocks::field::karatsuba::{mul, square};
use ed448_goldilocks::field::scalar::Scalar;

#[test]
fn test_add() {
    let a = from_u32(8);
    let b = a + a;
    let c = from_u32(16);
    assert!(b.equals(&c));
}

#[test]
fn test_bias() {
    let mut a = from_u32(5);
    a = FieldElement28::bias(&a, 2);
    let b = from_u32(5);
    assert!(a.equals(&b));
}

#[test]
fn test_sub() {
    let x = from_u32(255);
    let y = from_u32(255);
    let MODULUS = FieldElement28([
        0xfffffff, 0xfffffff, 0xfffffff, 0xfffffff, 0xfffffff, 0xfffffff, 0xfffffff, 0xfffffff,
        0xffffffe, 0xfffffff, 0xfffffff, 0xfffffff, 0xfffffff, 0xfffffff, 0xfffffff, 0xfffffff,
    ]);
    // First subtract without reducing
    let mut z = x.sub_no_reduce(&y);
    // Then bias z by 2
    z = FieldElement28::bias(&z, 2);
    // Then clear high bits
    z.weak_reduce();

    assert!(z.equals(&MODULUS));
}

#[test]
fn test_bytes_function() {
    let bytes = [1; 56];
    let a = FieldElement28::from_bytes(&bytes);
    let new_a = FieldElement28::from_bytes(&a.to_bytes());
    assert!(a.equals(&new_a));
}

#[test]
fn test_isr() {
    let bytes: [u8; 56] = [
        0x9f, 0x93, 0xed, 0x0a, 0x84, 0xde, 0xf0, 0xc7, 0xa0, 0x4b, 0x3f, 0x03, 0x70, 0xc1,
        0x96, 0x3d, 0xc6, 0x94, 0x2d, 0x93, 0xf3, 0xaa, 0x7e, 0x14, 0x96, 0xfa, 0xec, 0x9c,
        0x70, 0xd0, 0x59, 0x3c, 0x5c, 0x06, 0x5f, 0x24, 0x33, 0xf7, 0xad, 0x26, 0x6a, 0x3a,
        0x45, 0x98, 0x60, 0xf4, 0xaf, 0x4f, 0x1b, 0xff, 0x92, 0x26, 0xea, 0xa0, 0x7e, 0x29,
    ];
    let a = FieldElement28::from_bytes(&bytes);
    let (k, _) = a.inverse_square_root();
    let should_be: [u8; 56] = [
        0x2, 0x4f, 0xc6, 0xd1, 0x17, 0x97, 0x83, 0x70, 0xb1, 0x1d, 0xf0, 0x72, 0xee, 0x70,
        0x7e, 0xbf, 0xd0, 0xdf, 0x77, 0xa6, 0x32, 0x28, 0x6f, 0xc6, 0xab, 0xc4, 0x99, 0xb6,
        0xc2, 0x9d, 0xee, 0x6d, 0xe5, 0x76, 0x90, 0xa0, 0x3, 0x82, 0x26, 0x6, 0x34, 0x4a, 0x2a,
        0xb0, 0x47, 0x42, 0xdf, 0x2f, 0x5, 0xbe, 0x4b, 0xa3, 0x13, 0x7d, 0x2, 0x4,
    ];

    for i in 0..56 {
        assert_eq!(should_be[i], k.to_bytes()[i])
    }
}

#[test]
fn test_square_n() {
    let bytes: [u8; 56] = [
        0x9f, 0x93, 0xed, 0x0a, 0x84, 0xde, 0xf0, 0xc7, 0xa0, 0x4b, 0x3f, 0x03, 0x70, 0xc1,
        0x96, 0x3d, 0xc6, 0x94, 0x2d, 0x93, 0xf3, 0xaa, 0x7e, 0x14, 0x96, 0xfa, 0xec, 0x9c,
        0x70, 0xd0, 0x59, 0x3c, 0x5c, 0x06, 0x5f, 0x24, 0x33, 0xf7, 0xad, 0x26, 0x6a, 0x3a,
        0x45, 0x98, 0x60, 0xf4, 0xaf, 0x4f, 0x1b, 0xff, 0x92, 0x26, 0xea, 0xa0, 0x7e, 0x29,
    ];
    let x = FieldElement28::from_bytes(&bytes);
    let y = x.square_n(200);

    let should_be: [u8; 56] = [
        0x75, 0x3e, 0x43, 0xee, 0xb7, 0xc3, 0x1a, 0x28, 0x50, 0x7f, 0xc4, 0x3, 0xe4, 0xba,
        0x79, 0x3a, 0xeb, 0x3b, 0x7f, 0xb3, 0xfc, 0x62, 0xc1, 0x97, 0x1d, 0xec, 0x4b, 0x91,
        0x30, 0x98, 0xa8, 0xe0, 0xa5, 0xca, 0xed, 0xbb, 0x24, 0x79, 0x16, 0x2, 0xeb, 0xa6,
        0xb1, 0x8c, 0xcc, 0x96, 0x70, 0xe2, 0x78, 0xf1, 0xef, 0xf5, 0x56, 0x4b, 0x31, 0x6e,
    ];

    for i in 0..56 {
        assert_eq!(should_be[i], y.to_bytes()[i])
    }
}

#[test]
fn test_d_min_one() {
    let d = FieldElement28([
        268396374, 268435455, 268435455, 268435455, 268435455, 268435455, 268435455, 268435455,
        268435454, 268435455, 268435455, 268435455, 268435455, 268435455, 268435455, 268435455,
    ]);

    let mut d_min_one = from_u32(2) * (d - FieldElement28::one());
    d_min_one.strong_reduce();
    println!("{:?}", d_min_one);
}

#[test]
fn test_basic_mul() {
    let a = from_u32(5);
    let b = from_u32(210);
    let c = from_u32(1050);

    let expected_c = mul(&a, &b);
    assert_eq!(expected_c, c);
}

#[test]
fn test_mul() {
    let x = FieldElement28::from_bytes(&[
        0xf5, 0x81, 0x74, 0xd5, 0x7a, 0x33, 0x72, 0x36, 0x3c, 0x0d, 0x9f, 0xcf, 0xaa, 0x3d, 0xc1,
        0x8b, 0x1e, 0xff, 0x7e, 0x89, 0xbf, 0x76, 0x78, 0x63, 0x65, 0x80, 0xd1, 0x7d, 0xd8, 0x4a,
        0x87, 0x3b, 0x14, 0xb9, 0xc0, 0xe1, 0x68, 0x0b, 0xbd, 0xc8, 0x76, 0x47, 0xf3, 0xc3, 0x82,
        0x90, 0x2d, 0x2f, 0x58, 0xd2, 0x75, 0x4b, 0x39, 0xbc, 0xa8, 0x74,
    ]);

    let y = FieldElement28::from_bytes(&[
        0x74, 0xa8, 0xbc, 0x39, 0x4b, 0x75, 0xd2, 0x58, 0x2f, 0x2d, 0x90, 0x82, 0xc3, 0xf3, 0x47,
        0x76, 0xc8, 0xbd, 0x0b, 0x68, 0xe1, 0xc0, 0xb9, 0x14, 0x3b, 0x87, 0x4a, 0xd8, 0x7d, 0xd1,
        0x80, 0x65, 0x63, 0x78, 0x76, 0xbf, 0x89, 0x7e, 0xff, 0x1e, 0x8b, 0xc1, 0x3d, 0xaa, 0xcf,
        0x9f, 0x0d, 0x3c, 0x36, 0x72, 0x33, 0x7a, 0xd5, 0x74, 0x81, 0xf5,
    ]);

    let expected = FieldElement28::from_bytes(&[
        0x11, 0x95, 0x9c, 0x2e, 0x91, 0x78, 0x6f, 0xec, 0xff, 0x37, 0xe5, 0x8e, 0x2b, 0x50, 0x9e,
        0xf8, 0xfb, 0x41, 0x08, 0xc4, 0xa7, 0x02, 0x1c, 0xbf, 0x5a, 0x9f, 0x18, 0xa7, 0xec, 0x32,
        0x65, 0x7e, 0xed, 0xdc, 0x81, 0x81, 0x80, 0xa8, 0x4c, 0xdd, 0x95, 0x14, 0xe6, 0x67, 0x26,
        0xd3, 0xa1, 0x22, 0xdb, 0xb3, 0x9f, 0x17, 0x7a, 0x85, 0x16, 0x6c,
    ]);

    let result = mul(&x, &y);
    assert_eq!(result, expected)
}

#[test]
fn test_naive_square() {
    let a = from_u32(5);
    let b = from_u32(5);
    let c = from_u32(25);

    let expected_c = mul(&a, &b);
    assert_eq!(expected_c, c);
}

#[test]
fn test_karatsuba_square() {
    let a = from_u32(5);
    let expected_c = from_u32(25);
    let c = square(&a);
    assert_eq!(expected_c, c);

    let d = FieldElement28([
        268396374, 268435455, 268435455, 268435455, 268435455, 268435455, 268435455, 268435455,
        268435454, 268435455, 268435455, 268435455, 268435455, 268435455, 268435455, 268435455,
    ]);
    let expected_d2 = mul(&d, &d);
    let d2 = square(&d);
    assert_eq!(expected_d2, d2);
}

#[test]
fn test_basic_add() {
    let five = Scalar::from(5);
    let six = Scalar::from(6);

    assert_eq!(five + six, Scalar::from(11))
}

#[test]
fn test_basic_sub() {
    let ten = Scalar::from(10);
    let five = Scalar::from(5);
    assert_eq!(ten - five, Scalar::from(5))
}

#[test]
fn test_sanity_check_index_mut() {
    let mut x = Scalar::one();
    x.0[0] = 2u32;
    assert_eq!(x, Scalar::from(2))
}

#[test]
fn test_basic_halving() {
    let eight = Scalar::from(8);
    let four = Scalar::from(4);
    let two = Scalar::from(2);
    assert_eq!(eight.halve(), four);
    assert_eq!(four.halve(), two);
    assert_eq!(two.halve(), Scalar::one());
}

#[test]
fn test_equals() {
    let a = Scalar::from(5);
    let b = Scalar::from(5);
    let c = Scalar::from(10);
    assert!(a.equals(&b));
    assert!(!a.equals(&c))
}

#[test]
fn test_basic_inversion() {
    // Inversion of one is one
    let one = Scalar::from(1);
    let expected_one = one.invert();
    assert_eq!(expected_one, one);

    // Test inversion from 2 to 100
    for i in 2..=100 {
        let x = Scalar::from(i);
        let x_inv = x.invert();
        assert_eq!(x_inv * x, Scalar::one())
    }

    // Inversion of zero is zero
    let zero = Scalar::zero();
    let expected_zero = zero.invert();
    assert_eq!(expected_zero, zero)
}

#[test]
fn test_basic_double() {
    let iden = ExtensiblePoint::identity();
    assert!(iden.equals(&iden.double()));
}
