use ed448_goldilocks::curve::constants::{goldilocks_base_point, twisted_edwards_base_point};
use ed448_goldilocks::curve::scalar_mul::double_and_add::double_and_add;
use ed448_goldilocks::curve::scalar_mul::signed_multi_comb::signed_multi_comb;
use ed448_goldilocks::field::scalar::Scalar;

#[test]
fn test_scalar_mul() {
    let twisted_point = twisted_edwards_base_point();
    let scalar = Scalar([
        0x6ee372b7, 0xe128ae78, 0x1533427c, 0xad0b7015, 0x307f665e, 0xde8026c1, 0xb64629d1,
        0xab454c66, 0x3fe5bf1a, 0x083f8304, 0x3c003777, 0xdef437f6, 0xee2e1b73, 0x05ca185a,
    ]);

    let got = signed_multi_comb(&twisted_point, &scalar);

    let got2 = double_and_add(&twisted_point, &scalar);
    assert_eq!(got, got2);

    // Lets see if this is conserved over the isogenies
    let edwards_point = twisted_point.to_untwisted();
    let got_untwisted_point = edwards_point.scalar_mul(&scalar);
    let expected_untwisted_point = got.to_untwisted();
    assert_eq!(got_untwisted_point, expected_untwisted_point);
}

#[test]
fn test_simple_scalar_mul_identities() {
    let x = twisted_edwards_base_point();

    // Test that 1 * P = P
    let exp = signed_multi_comb(&x, &Scalar::from(1));
    assert!(x == exp);
    // Test that 2 * (P + P) = 4 * P
    let x_ext = x.to_extensible();
    let expected_two_x = x_ext.add_extensible(&x_ext).double();
    let got = signed_multi_comb(&x, &Scalar::from(4));
    assert!(expected_two_x.to_extended() == got);
}

#[test]
fn test_montgomery_edwards() {
    let scalar = Scalar::from(200);
    let bp = goldilocks_base_point();

    // Montgomery scalar mul
    let montgomery_bp = bp.to_montgomery();
    let montgomery_res = &montgomery_bp * &scalar;

    // Goldilocks scalar mul
    let goldilocks_point = bp.scalar_mul(&scalar);
    assert_eq!(goldilocks_point.to_montgomery(), montgomery_res);
}
