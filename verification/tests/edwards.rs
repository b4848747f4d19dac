use ed448_goldilocks::curve::constants::{goldilocks_base_point, twisted_edwards_base_point};
use ed448_goldilocks::curve::edwards::affine::AffinePoint;
use ed448_goldilocks::curve::edwards::extended::{CompressedEdwardsY, ExtendedPoint};
use ed448_goldilocks::field::element::FieldElement28;

fn hex_to_field(hex: &str) -> FieldElement28 {
    let digits = hex.as_bytes();
    assert_eq!(digits.len(), 56 * 2);
    let mut bytes = [0u8; 56];
    for i in 0..56 {
        let high = (digits[2 * i] as char).to_digit(16).unwrap() as u8;
        let low = (digits[2 * i + 1] as char).to_digit(16).unwrap() as u8;
        bytes[i] = (high << 4) | low;
    }
    bytes.reverse();
    FieldElement28::from_bytes(&bytes)
}

fn hex_to_encoding(hex: &str) -> [u8; 57] {
    let digits = hex.as_bytes();
    assert_eq!(digits.len(), 57 * 2);
    let mut bytes = [0u8; 57];
    for i in 0..57 {
        let high = (digits[2 * i] as char).to_digit(16).unwrap() as u8;
        let low = (digits[2 * i + 1] as char).to_digit(16).unwrap() as u8;
        bytes[i] = (high << 4) | low;
    }
    bytes
}

#[test]
fn extended_test_isogeny() {
    let x = hex_to_field("aaaaaaaaaaaaaaaaaaaaaaaaaaaaaaaaaaaaaaaaaaaaaaaaaaaaaaa955555555555555555555555555555555555555555555555555555555");
    let y = hex_to_field("ae05e9634ad7048db359d6205086c2b0036ed7a035884dd7b7e36d728ad8c4b80d6565833a2a3098bbbcb2bed1cda06bdaeafbcdea9386ed");
    let a = AffinePoint { x, y }.to_extended();
    let twist_a = a.to_twisted().to_untwisted();
    assert!(twist_a == a.double().double())
}

#[test]
fn derive_base_points() {
    
    // The base point of order 2q
    let old_x = hex_to_field("4F1970C66BED0DED221D15A622BF36DA9E146570470F1767EA6DE324A3D3A46412AE1AF72AB66511433B80E18B00938E2626A82BC70CC05E");
    let old_y = hex_to_field("693F46716EB6BC248876203756C9C7624BEA73736CA3984087789C1E05A0C2D73AD3FF1CE67C39C4FDBD132C4ED7C8AD9808795BF230FA14");
    let old_bp = AffinePoint { x: old_x, y: old_y }.to_extended();

    // This is the new basepoint, that is in the ed448 paper
    let new_x = hex_to_field("aaaaaaaaaaaaaaaaaaaaaaaaaaaaaaaaaaaaaaaaaaaaaaaaaaaaaaa955555555555555555555555555555555555555555555555555555555");
    let new_y = hex_to_field("ae05e9634ad7048db359d6205086c2b0036ed7a035884dd7b7e36d728ad8c4b80d6565833a2a3098bbbcb2bed1cda06bdaeafbcdea9386ed");
    let new_bp = AffinePoint { x: new_x, y: new_y }.to_extended();

    // Doubling the old basepoint, should give us the new basepoint
    assert_eq!(old_bp.double(), new_bp);

    // The library's base point is the one of order 2q, as in libdecaf's vectors

    assert_eq!(goldilocks_base_point(), old_bp);

    // The Twisted basepoint can be derived by using the isogeny
    assert_eq!(old_bp.to_twisted(), twisted_edwards_base_point())
}

#[test]
fn extended_test_is_on_curve() {
    let x = hex_to_field("aaaaaaaaaaaaaaaaaaaaaaaaaaaaaaaaaaaaaaaaaaaaaaaaaaaaaaa955555555555555555555555555555555555555555555555555555555");
    let y = hex_to_field("ae05e9634ad7048db359d6205086c2b0036ed7a035884dd7b7e36d728ad8c4b80d6565833a2a3098bbbcb2bed1cda06bdaeafbcdea9386ed");
    let gen = AffinePoint { x, y }.to_extended();
    assert!(gen.is_on_curve());
}

#[test]
fn test_compress_decompress() {
    let x = hex_to_field("aaaaaaaaaaaaaaaaaaaaaaaaaaaaaaaaaaaaaaaaaaaaaaaaaaaaaaa955555555555555555555555555555555555555555555555555555555");
    let y = hex_to_field("ae05e9634ad7048db359d6205086c2b0036ed7a035884dd7b7e36d728ad8c4b80d6565833a2a3098bbbcb2bed1cda06bdaeafbcdea9386ed");
    let gen = AffinePoint { x, y }.to_extended();

    let decompressed_point = gen.compress().decompress();
    assert!(decompressed_point.is_some());

    assert!(gen == decompressed_point.unwrap());
}

#[test]
fn test_decompress_compress() {
    let bytes = hex_to_encoding("649c6a53b109897d962d033f23d01fd4e1053dddf3746d2ddce9bd66aea38ccfc3df061df03ca399eb806312ab3037c0c31523142956ada780");
    let compressed = CompressedEdwardsY(bytes);
    let decompressed = compressed.decompress().unwrap();

    let recompressed = decompressed.compress();

    assert_eq!(bytes, recompressed.0);
}

#[test]
fn test_just_decompress() {
    let bytes = hex_to_encoding("649c6a53b109897d962d033f23d01fd4e1053dddf3746d2ddce9bd66aea38ccfc3df061df03ca399eb806312ab3037c0c31523142956ada780");
    let compressed = CompressedEdwardsY(bytes);
    let decompressed = compressed.decompress().unwrap();

    assert_eq!(decompressed.X, hex_to_field("39c41cea305d737df00de8223a0d5f4d48c8e098e16e9b4b2f38ac353262e119cb5ff2afd6d02464702d9d01c9921243fc572f9c718e2527"));
    assert_eq!(decompressed.Y, hex_to_field("a7ad5629142315c3c03730ab126380eb99a33cf01d06dfc3cf8ca3ae66bde9dc2d6d74f3dd3d05e1d41fd0233f032d967d8909b1536a9c64"));

    let bytes = hex_to_encoding("010000000000000000000000000000000000000000000000000000000000000000000000000000000000000000000000000000000000000000");
    let compressed = CompressedEdwardsY(bytes);
    let decompressed = compressed.decompress().unwrap();

    assert_eq!(decompressed.X, hex_to_field("0000000000000000000000000000000000000000000000000000000000000000000000000000000000000000000000000000000000000000"));
    assert_eq!(decompressed.Y, hex_to_field("0000000000000000000000000000000000000000000000000000000000000000000000000000000000000000000000000000000000000001"));
}

#[test]
fn test_is_torsion_free() {
    assert!(ExtendedPoint::generator().is_torsion_free());
    assert!(ExtendedPoint::identity().is_torsion_free());

    let bytes = hex_to_encoding("13b6714c7a5f53101bbec88f2f17cd30f42e37fae363a5474efb4197ed6005df5861ae178a0c2c16ad378b7befed0d0904b7ced35e9f674180");
    let compressed = CompressedEdwardsY(bytes);
    let decompressed = compressed.decompress().unwrap();
    assert!(!decompressed.is_torsion_free());
}
