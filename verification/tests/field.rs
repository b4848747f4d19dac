use ed448_goldilocks::field::element::{from_u32, FieldElement28};
use ed448_goldilocks::field::karatsuba::{mul, square};

#[test]
fn fq_test_add() {
    let a = from_u32(8);
    let b = a + a;
    let c = from_u32(16);
    assert!(b == c);
}

#[test]
fn fq_test_bias() {
    let mut a = from_u32(5);
    a = FieldElement28::bias(&a, 2);
    let b = from_u32(5);
    assert!(a == b);
}

#[test]
fn fq_test_equals() {
    let a = from_u32(10);
    let b = from_u32(20);
    assert!(a != b);

    let c = from_u32(99);
    let d = from_u32(95);

    let ab = a * b;
    let ba = b * a;
    let cd = c * d;
    assert!(ab != cd);
    assert!(ab == ba);
}

#[test]
fn fq_test_sub() {
    let x = from_u32(255);
    let y = from_u32(255);
    let MODULUS = FieldElement28([
        0xfffffff, 0xfffffff, 0xfffffff, 0xfffffff, 0xfffffff, 0xfffffff, 0xfffffff, 0xfffffff,
        0xffffffe, 0xfffffff, 0xfffffff, 0xfffffff, 0xfffffff, 0xfffffff, 0xfffffff, 0xfffffff,
    ]);
    // First subtract without reducing
    let mut z = x.sub_no_reduce(&y);
    // Then bias z by 2
    z = FieldElement28::bias(&z, 2);
    // Then clear high bits
    z.weak_reduce();

    assert!(z == MODULUS);
}

#[test]
fn fq_test_bytes_function() {
    let bytes = [1; 56];
    let a = FieldElement28::from_bytes(&bytes);
    let new_a = FieldElement28::from_bytes(&a.to_bytes());
    assert!(a == new_a);
}

#[test]
fn fq_test_isr() {
    let bytes: [u8; 56] = [
        0x9f, 0x93, 0xed, 0x0a, 0x84, 0xde, 0xf0, 0xc7, 0xa0, 0x4b, 0x3f, 0x03, 0x70, 0xc1,
        0x96, 0x3d, 0xc6, 0x94, 0x2d, 0x93, 0xf3, 0xaa, 0x7e, 0x14, 0x96, 0xfa, 0xec, 0x9c,
        0x70, 0xd0, 0x59, 0x3c, 0x5c, 0x06, 0x5f, 0x24, 0x33, 0xf7, 0xad, 0x26, 0x6a, 0x3a,
        0x45, 0x98, 0x60, 0xf4, 0xaf, 0x4f, 0x1b, 0xff, 0x92, 0x26, 0xea, 0xa0, 0x7e, 0x29,
    ];
    let a = FieldElement28::from_bytes(&bytes);
    let (k, _) = a.inverse_square_root();
    let should_be: [u8; 56] = [
        0x2, 0x4f, 0xc6, 0xd1, 0x17, 0x97, 0x83, 0x70, 0xb1, 0x1d, 0xf0, 0x72, 0xee, 0x70,
        0x7e, 0xbf, 0xd0, 0xdf, 0x77, 0xa6, 0x32, 0x28, 0x6f, 0xc6, 0xab, 0xc4, 0x99, 0xb6,
        0xc2, 0x9d, 0xee, 0x6d, 0xe5, 0x76, 0x90, 0xa0, 0x3, 0x82, 0x26, 0x6, 0x34, 0x4a, 0x2a,
        0xb0, 0x47, 0x42, 0xdf, 0x2f, 0x5, 0xbe, 0x4b, 0xa3, 0x13, 0x7d, 0x2, 0x4,
    ];

    for i in 0..56 {
        assert_eq!(should_be[i], k.to_bytes()[i])
    }
}

#[test]
fn fq_test_square_n() {
    let bytes: [u8; 56] = [
        0x9f, 0x93, 0xed, 0x0a, 0x84, 0xde, 0xf0, 0xc7, 0xa0, 0x4b, 0x3f, 0x03, 0x70, 0xc1,
        0x96, 0x3d, 0xc6, 0x94, 0x2d, 0x93, 0xf3, 0xaa, 0x7e, 0x14, 0x96, 0xfa, 0xec, 0x9c,
        0x70, 0xd0, 0x59, 0x3c, 0x5c, 0x06, 0x5f, 0x24, 0x33, 0xf7, 0xad, 0x26, 0x6a, 0x3a,
        0x45, 0x98, 0x60, 0xf4, 0xaf, 0x4f, 0x1b, 0xff, 0x92, 0x26, 0xea, 0xa0, 0x7e, 0x29,
    ];
    let x = FieldElement28::from_bytes(&bytes);
    let y = x.square_n(200);

    let should_be: [u8; 56] = [
        0x75, 0x3e, 0x43, 0xee, 0xb7, 0xc3, 0x1a, 0x28, 0x50, 0x7f, 0xc4, 0x3, 0xe4, 0xba,
        0x79, 0x3a, 0xeb, 0x3b, 0x7f, 0xb3, 0xfc, 0x62, 0xc1, 0x97, 0x1d, 0xec, 0x4b, 0x91,
        0x30, 0x98, 0xa8, 0xe0, 0xa5, 0xca, 0xed, 0xbb, 0x24, 0x79, 0x16, 0x2, 0xeb, 0xa6,
        0xb1, 0x8c, 0xcc, 0x96, 0x70, 0xe2, 0x78, 0xf1, 0xef, 0xf5, 0x56, 0x4b, 0x31, 0x6e,
    ];

    for i in 0..56 {
        assert_eq!(should_be[i], y.to_bytes()[i])
    }
}

#[test]
fn fq_test_d_min_one() {
    let d = FieldElement28([
        268396374, 268435455, 268435455, 268435455, 268435455, 268435455, 268435455, 268435455,
        268435454, 268435455, 268435455, 268435455, 268435455, 268435455, 268435455, 268435455,
    ]);

    let mut d_min_one = (FieldElement28::one() + FieldElement28::one()) * (d - FieldElement28::one());
    d_min_one.strong_reduce();
    println!("{:?}", d_min_one);
}

#[test]
fn fq_test_is_zero() {
    let a = from_u32(0);
    let b = from_u32(0);
    let c = from_u32(0);
    let d = from_u32(1);
    let e = FieldElement28([0, 0, 0, 0, 0, 0, 0, 0, 0, 0, 0, 0, 0, 0, 0, 268435455]);

    assert_eq!(a.is_zero(), true);
    assert_eq!(b.is_zero(), true);
    assert_eq!(c.is_zero(), true);
    assert_eq!(d.is_zero(), false);
    assert_eq!(e.is_zero(), false);
}

#[test]
fn test_conditional_swap() {
    let mut x = from_u32(1908);
    let x_old = from_u32(1908);
    let mut y = from_u32(200);
    let y_old = from_u32(200);

    // x and y should swap value
    FieldElement28::conditional_swap(&mut x, &mut y, true);
    assert!(x == y_old);
    assert!(y == x_old);

    // x and y should stay the same
    FieldElement28::conditional_swap(&mut x, &mut y, false);
    assert!(x == y_old);
    assert!(y == x_old);
}

#[test]
fn fq_test_conditional_negate() {
    let mut a = from_u32(100);
    let a_neg = a.negate();
    a.conditional_negate(true);
    assert!(a == a_neg);
    //
    let mut b = from_u32(200);
    b.conditional_negate(false);
    assert!(b == from_u32(200));
}

#[test]
fn test_sqrt_ratio() {
    let ten = from_u32(10);
    let twenty = from_u32(20);
    let (a, is_res) = FieldElement28::sqrt_ratio(&ten, &twenty);
    assert!(is_res);

    let (inv_ten_sqrt, is_res) = ten.inverse_square_root();
    assert!(is_res);
    let (inv_twenty_sqrt, is_res) = twenty.inverse_square_root();
    assert!(is_res);

    let expected = inv_ten_sqrt.invert() * inv_twenty_sqrt;
    assert_eq!(expected, a)
}

#[test]
fn karatsuba_test_basic_mul() {
    let a = FieldElement28([5, 0, 0, 0, 0, 0, 0, 0, 0, 0, 0, 0, 0, 0, 0, 0]);
    let b = FieldElement28([210, 0, 0, 0, 0, 0, 0, 0, 0, 0, 0, 0, 0, 0, 0, 0]);
    let c = FieldElement28([1050, 0, 0, 0, 0, 0, 0, 0, 0, 0, 0, 0, 0, 0, 0, 0]);

    let expected_c = mul(&a, &b);
    assert_eq!(expected_c.to_bytes()[..], c.to_bytes()[..]);
}

#[test]
fn karatsuba_test_mul() {
    let x = FieldElement28::from_bytes(&[
        0xf5, 0x81, 0x74, 0xd5, 0x7a, 0x33, 0x72, 0x36, 0x3c, 0x0d, 0x9f, 0xcf, 0xaa, 0x3d, 0xc1,
        0x8b, 0x1e, 0xff, 0x7e, 0x89, 0xbf, 0x76, 0x78, 0x63, 0x65, 0x80, 0xd1, 0x7d, 0xd8, 0x4a,
        0x87, 0x3b, 0x14, 0xb9, 0xc0, 0xe1, 0x68, 0x0b, 0xbd, 0xc8, 0x76, 0x47, 0xf3, 0xc3, 0x82,
        0x90, 0x2d, 0x2f, 0x58, 0xd2, 0x75, 0x4b, 0x39, 0xbc, 0xa8, 0x74,
    ]);

    let y = FieldElement28::from_bytes(&[
        0x74, 0xa8, 0xbc, 0x39, 0x4b, 0x75, 0xd2, 0x58, 0x2f, 0x2d, 0x90, 0x82, 0xc3, 0xf3, 0x47,
        0x76, 0xc8, 0xbd, 0x0b, 0x68, 0xe1, 0xc0, 0xb9, 0x14, 0x3b, 0x87, 0x4a, 0xd8, 0x7d, 0xd1,
        0x80, 0x65, 0x63, 0x78, 0x76, 0xbf, 0x89, 0x7e, 0xff, 0x1e, 0x8b, 0xc1, 0x3d, 0xaa, 0xcf,
        0x9f, 0x0d, 0x3c, 0x36, 0x72, 0x33, 0x7a, 0xd5, 0x74, 0x81, 0xf5,
    ]);

    let expected = FieldElement28::from_bytes(&[
        0x11, 0x95, 0x9c, 0x2e, 0x91, 0x78, 0x6f, 0xec, 0xff, 0x37, 0xe5, 0x8e, 0x2b, 0x50, 0x9e,
        0xf8, 0xfb, 0x41, 0x08, 0xc4, 0xa7, 0x02, 0x1c, 0xbf, 0x5a, 0x9f, 0x18, 0xa7, 0xec, 0x32,
        0x65, 0x7e, 0xed, 0xdc, 0x81, 0x81, 0x80, 0xa8, 0x4c, 0xdd, 0x95, 0x14, 0xe6, 0x67, 0x26,
        0xd3, 0xa1, 0x22, 0xdb, 0xb3, 0x9f, 0x17, 0x7a, 0x85, 0x16, 0x6c,
    ]);

    let result = mul(&x, &y);
    assert_eq!(result.to_bytes()[..], expected.to_bytes()[..])
}

#[test]
fn karatsuba_test_naive_square() {
    let a = FieldElement28([5, 0, 0, 0, 0, 0, 0, 0, 0, 0, 0, 0, 0, 0, 0, 0]);
    let b = FieldElement28([5, 0, 0, 0, 0, 0, 0, 0, 0, 0, 0, 0, 0, 0, 0, 0]);
    let c = FieldElement28([25, 0, 0, 0, 0, 0, 0, 0, 0, 0, 0, 0, 0, 0, 0, 0]);

    let expected_c = mul(&a, &b);
    assert_eq!(expected_c.to_bytes()[..], c.to_bytes()[..]);
}

#[test]
fn karatsuba_test_karatsuba_square() {
    let a = FieldElement28([5, 0, 0, 0, 0, 0, 0, 0, 0, 0, 0, 0, 0, 0, 0, 0]);
    let expected_c = FieldElement28([25, 0, 0, 0, 0, 0, 0, 0, 0, 0, 0, 0, 0, 0, 0, 0]);
    let c = square(&a);
    assert_eq!(expected_c.to_bytes()[..], c.to_bytes()[..]);

    let d = FieldElement28([
        268396374, 268435455, 268435455, 268435455, 268435455, 268435455, 268435455, 268435455,
        268435454, 268435455, 268435455, 268435455, 268435455, 268435455, 268435455, 268435455,
    ]);
    let expected_d2 = mul(&d, &d);
    let d2 = square(&d);
    assert_eq!(expected_d2.to_bytes()[..], d2.to_bytes()[..]);
}

#[test]
fn test_basic_mul_double_limb() {
    let c = FieldElement28::mul_double_limb(&from_u32(9), 100);

    assert_eq!(c, from_u32(900));
}
