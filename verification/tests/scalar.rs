use ed448_goldilocks::field::scalar::Scalar;

fn scalar_hex_57(hex: &str) -> [u8; 57] {
    let digits = hex.as_bytes();
    assert_eq!(digits.len(), 114);
    let mut bytes = [0u8; 57];
    for i in 0..57 {
        let high = (digits[2 * i] as char).to_digit(16).unwrap() as u8;
        let low = (digits[2 * i + 1] as char).to_digit(16).unwrap() as u8;
        bytes[i] = (high << 4) | low;
    }
    bytes
}

fn scalar_hex_114(hex: &str) -> [u8; 114] {
    let digits = hex.as_bytes();
    assert_eq!(digits.len(), 228);
    let mut bytes = [0u8; 114];
    for i in 0..114 {
        let high = (digits[2 * i] as char).to_digit(16).unwrap() as u8;
        let low = (digits[2 * i + 1] as char).to_digit(16).unwrap() as u8;
        bytes[i] = (high << 4) | low;
    }
    bytes
}

#[test]
fn scalar_test_basic_add() {
    let five = Scalar::from(5);
    let six = Scalar::from(6);

    assert_eq!(five + six, Scalar::from(11))
}

#[test]
fn scalar_test_basic_sub() {
    let ten = Scalar::from(10);
    let five = Scalar::from(5);
    assert_eq!(ten - five, Scalar::from(5))
}

#[test]
fn scalar_test_basic_mul() {
    let ten = Scalar::from(10);
    let five = Scalar::from(5);

    assert_eq!(ten * five, Scalar::from(50))
}

#[test]
fn scalar_test_mul() {
    let a = Scalar([
        0xffb823a3, 0xc96a3c35, 0x7f8ed27d, 0x087b8fb9, 0x1d9ac30a, 0x74d65764, 0xc0be082e,
        0xa8cb0ae8, 0xa8fa552b, 0x2aae8688, 0x2c3dc273, 0x47cf8cac, 0x3b089f07, 0x1e63e807,
    ]);

    let b = Scalar([
        0xd8bedc42, 0x686eb329, 0xe416b899, 0x17aa6d9b, 0x1e30b38b, 0x188c6b1a, 0xd099595b,
        0xbc343bcb, 0x1adaa0e7, 0x24e8d499, 0x8e59b308, 0x0a92de2d, 0xcae1cb68, 0x16c5450a,
    ]);

    let exp = Scalar([
        0xa18d010a, 0x1f5b3197, 0x994c9c2b, 0x6abd26f5, 0x08a3a0e4, 0x36a14920, 0x74e9335f,
        0x07bcd931, 0xf2d89c1e, 0xb9036ff6, 0x203d424b, 0xfccd61b3, 0x4ca389ed, 0x31e055c1,
    ]);

    assert_eq!(a * b, exp)
}

#[test]
fn scalar_test_basic_square() {
    let a = Scalar([
        0xcf5fac3d, 0x7e56a34b, 0xf640922b, 0x3fa50692, 0x1370f8b8, 0x6f08f331, 0x8dccc486,
        0x4bb395e0, 0xf22c6951, 0x21cc3078, 0xd2391f9d, 0x930392e5, 0x04b3273b, 0x31620816,
    ]);
    let expected_a_squared = Scalar([
        0x15598f62, 0xb9b1ed71, 0x52fcd042, 0x862a9f10, 0x1e8a309f, 0x9988f8e0, 0xa22347d7,
        0xe9ab2c22, 0x38363f74, 0xfd7c58aa, 0xc49a1433, 0xd9a6c4c3, 0x75d3395e, 0x0d79f6e3,
    ]);

    assert_eq!(a.square(), expected_a_squared)
}

#[test]
fn scalar_test_sanity_check_index_mut() {
    let mut x = Scalar::one();
    x.0[0] = 2u32;
    assert_eq!(x, Scalar::from(2))
}

#[test]
fn scalar_test_basic_halving() {
    let eight = Scalar::from(8);
    let four = Scalar::from(4);
    let two = Scalar::from(2);
    assert_eq!(eight.halve(), four);
    assert_eq!(four.halve(), two);
    assert_eq!(two.halve(), Scalar::one());
}

#[test]
fn scalar_test_equals() {
    let a = Scalar::from(5);
    let b = Scalar::from(5);
    let c = Scalar::from(10);
    assert!(a == b);
    assert!(!(a == c))
}

#[test]
fn scalar_test_basic_inversion() {
    // Test inversion from 2 to 100
    for i in 1..=100 {
        let x = Scalar::from(i);
        let x_inv = x.invert();
        assert_eq!(x_inv * x, Scalar::one())
    }

    // Inversion of zero is zero
    let zero = Scalar::zero();
    let expected_zero = zero.invert();
    assert_eq!(expected_zero, zero)
}

#[test]
fn test_serialise() {
    let scalar = Scalar([
        0x15598f62, 0xb9b1ed71, 0x52fcd042, 0x862a9f10, 0x1e8a309f, 0x9988f8e0, 0xa22347d7,
        0xe9ab2c22, 0x38363f74, 0xfd7c58aa, 0xc49a1433, 0xd9a6c4c3, 0x75d3395e, 0x0d79f6e3,
    ]);
    let got = Scalar::from_bytes(scalar.to_bytes());
    assert_eq!(scalar, got)
}

#[test]
fn test_debug() {
    let k = Scalar([
        200, 210, 250, 145, 130, 180, 147, 122, 222, 230, 214, 247, 203, 32,
    ]);
    let s = k;
    println!("{:?}", &s.to_radix_16()[..]);
}

#[test]
fn test_from_canonical_bytes() {
    // ff..ff should fail
    let mut bytes: [u8; 57] = scalar_hex_57("ffffffffffffffffffffffffffffffffffffffffffffffffffffffffffffffffffffffffffffffffffffffffffffffffffffffffffffffffff");
    bytes.reverse();
    let s = Scalar::from_canonical_bytes(bytes);
    assert_eq!(s, None);

    // n should fail
    let mut bytes: [u8; 57] = scalar_hex_57("003fffffffffffffffffffffffffffffffffffffffffffffffffffffff7cca23e9c44edb49aed63690216cc2728dc58f552378c292ab5844f3");
    bytes.reverse();
    let s = Scalar::from_canonical_bytes(bytes);
    assert_eq!(s, None);

    // n-1 should work
    let mut bytes: [u8; 57] = scalar_hex_57("003fffffffffffffffffffffffffffffffffffffffffffffffffffffff7cca23e9c44edb49aed63690216cc2728dc58f552378c292ab5844f2");
    bytes.reverse();
    let s = Scalar::from_canonical_bytes(bytes);
    match s {
        Some(s) => assert_eq!(s, Scalar::zero() - Scalar::one()),
        None => panic!("should not return None"),
    };
}

#[test]
fn test_from_bytes_mod_order_wide() {
    // n should become 0
    let mut bytes: [u8; 114] = scalar_hex_114("000000000000000000000000000000000000000000000000000000000000000000000000000000000000000000000000000000000000000000003fffffffffffffffffffffffffffffffffffffffffffffffffffffff7cca23e9c44edb49aed63690216cc2728dc58f552378c292ab5844f3");
    bytes.reverse();
    let s = Scalar::from_bytes_mod_order_wide(&bytes);
    assert_eq!(s, Scalar::zero());

    // n-1 should stay the same
    let mut bytes: [u8; 114] = scalar_hex_114("000000000000000000000000000000000000000000000000000000000000000000000000000000000000000000000000000000000000000000003fffffffffffffffffffffffffffffffffffffffffffffffffffffff7cca23e9c44edb49aed63690216cc2728dc58f552378c292ab5844f2");
    bytes.reverse();
    let s = Scalar::from_bytes_mod_order_wide(&bytes);
    assert_eq!(s, Scalar::zero() - Scalar::one());

    // n+1 should become 1
    let mut bytes: [u8; 114] = scalar_hex_114("000000000000000000000000000000000000000000000000000000000000000000000000000000000000000000000000000000000000000000003fffffffffffffffffffffffffffffffffffffffffffffffffffffff7cca23e9c44edb49aed63690216cc2728dc58f552378c292ab5844f4");
    bytes.reverse();
    let s = Scalar::from_bytes_mod_order_wide(&bytes);
    assert_eq!(s, Scalar::one());

    // 2^912-1 should become 0x2939f823b7292052bcb7e4d070af1a9cc14ba3c47c44ae17cf72c985bb24b6c520e319fb37a63e29800f160787ad1d2e11883fa931e7de81
    let mut bytes: [u8; 114] = scalar_hex_114("ffffffffffffffffffffffffffffffffffffffffffffffffffffffffffffffffffffffffffffffffffffffffffffffffffffffffffffffffffffffffffffffffffffffffffffffffffffffffffffffffffffffffffffffffffffffffffffffffffffffffffffffffffffffffffffffffffff");
    bytes.reverse();
    let s = Scalar::from_bytes_mod_order_wide(&bytes);
    let mut bytes: [u8; 57] = scalar_hex_57("002939f823b7292052bcb7e4d070af1a9cc14ba3c47c44ae17cf72c985bb24b6c520e319fb37a63e29800f160787ad1d2e11883fa931e7de81");
    bytes.reverse();
    let reduced = Scalar::from_canonical_bytes(bytes).unwrap();
    assert_eq!(s, reduced);
}

#[test]
fn test_to_bytes_rfc8032() {
    // n-1
    let mut bytes: [u8; 57] = scalar_hex_57("003fffffffffffffffffffffffffffffffffffffffffffffffffffffff7cca23e9c44edb49aed63690216cc2728dc58f552378c292ab5844f2");
    bytes.reverse();
    let x = Scalar::zero() - Scalar::one();
    let candidate = x.to_bytes_rfc_8032();
    assert_eq!(bytes, candidate);
}
