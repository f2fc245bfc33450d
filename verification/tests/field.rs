use sscipher::field::GF128;

fn el(value: u128) -> GF128 {
    GF128 { value }
}

const A: u128 = 0x0123_4567_89ab_cdef_fedc_ba98_7654_3210;
const B: u128 = 0xdead_beef_cafe_babe_0bad_f00d_1234_5678;
const C: u128 = 0x8000_0000_0000_0000_0000_0000_0000_0001;

#[test]
fn addition_is_exclusive_or() {
    assert_eq!(el(A).addto(&el(B)).to_u128(), A ^ B);
    assert_eq!(el(A).subtract(&el(B)).to_u128(), A ^ B);
}

#[test]
fn element_plus_itself_is_zero() {
    assert!(el(A).addto(&el(A)).is_zero());
    assert!(el(C).addto(&el(C)).is_zero());
}

#[test]
fn addition_is_associative() {
    let left = el(A).addto(&el(B).addto(&el(C)));
    let right = el(A).addto(&el(B)).addto(&el(C));
    assert_eq!(left.to_u128(), right.to_u128());
}

#[test]
fn multiplication_by_x_shifts() {
    assert_eq!(el(1).multiply(&el(2)).to_u128(), 2);
    assert_eq!(el(0x10).multiply(&el(2)).to_u128(), 0x20);
    assert_eq!(el(3).multiply(&el(3)).to_u128(), 5);
}

#[test]
fn multiplication_reduces_by_the_field_polynomial() {
    let top = el(1u128 << 127);
    assert_eq!(top.multiply(&el(2)).to_u128(), 0x87);
    assert_eq!(top.multiply(&el(4)).to_u128(), 0x87 << 1);
    assert_eq!(el(1u128 << 64).multiply(&el(1u128 << 64)).to_u128(), 0x87);
}

#[test]
fn multiplication_by_one_and_zero() {
    assert_eq!(el(A).multiply(&el(1)).to_u128(), A);
    assert_eq!(el(1).multiply(&el(A)).to_u128(), A);
    assert!(el(A).multiply(&el(0)).is_zero());
}

#[test]
fn multiplication_is_commutative() {
    assert_eq!(el(A).multiply(&el(B)).to_u128(), el(B).multiply(&el(A)).to_u128());
}

#[test]
fn multiplication_is_associative() {
    let left = el(A).multiply(&el(B).multiply(&el(C)));
    let right = el(A).multiply(&el(B)).multiply(&el(C));
    assert_eq!(left.to_u128(), right.to_u128());
}

#[test]
fn multiplication_distributes_over_addition() {
    let left = el(A).multiply(&el(B).addto(&el(C)));
    let right = el(A).multiply(&el(B)).addto(&el(A).multiply(&el(C)));
    assert_eq!(left.to_u128(), right.to_u128());
}

#[test]
fn inverse_times_element_is_one() {
    for value in [1u128, 2, 3, 0x87, A, B, C, u128::MAX] {
        let inverse = el(value).invert();
        assert!(el(value).multiply(&inverse).is_one(), "value {value:#x}");
    }
}

#[test]
fn inverse_of_one_is_one_and_of_zero_is_zero() {
    assert!(el(1).invert().is_one());
    assert!(el(0).invert().is_zero());
}

#[test]
fn inverse_of_x_is_known() {
    // x * (x^127 + x^6 + x + 1) = x^128 + x^7 + x^2 + x = 1
    assert_eq!(el(2).invert().to_u128(), (1u128 << 127) | 0x43);
}

#[test]
fn division_undoes_multiplication() {
    let product = el(A).multiply(&el(B));
    assert_eq!(product.divide(&el(B)).to_u128(), A);
}

#[test]
fn powers() {
    assert!(el(A).pow(0).is_one());
    assert!(el(0).pow(0).is_one());
    assert_eq!(el(A).pow(1).to_u128(), A);
    assert!(el(0).pow(5).is_zero());
    assert_eq!(el(2).pow(127).to_u128(), 1u128 << 127);
    assert_eq!(el(2).pow(128).to_u128(), 0x87);
    let cube = el(A).multiply(&el(A)).multiply(&el(A));
    assert_eq!(el(A).pow(3).to_u128(), cube.to_u128());
    let fifth = el(B).pow(5);
    let seventh = el(B).pow(7);
    assert_eq!(el(B).pow(12).to_u128(), fifth.multiply(&seventh).to_u128());
}

#[test]
fn zero_and_one_are_recognised() {
    assert!(el(0).is_zero());
    assert!(!el(1).is_zero());
    assert!(el(1).is_one());
    assert!(!el(2).is_one());
}

#[test]
fn bytes_are_big_endian() {
    let bytes = el(A).to_bytes();
    assert_eq!(bytes, A.to_be_bytes());
    assert_eq!(bytes[0], 0x01);
    assert_eq!(bytes[15], 0x10);
}

#[test]
fn random_elements_differ() {
    let a = GF128::random();
    let b = GF128::random();
    let c = GF128::random();
    assert!(a.to_u128() != b.to_u128() || b.to_u128() != c.to_u128());
}

#[test]
fn operators_follow_the_methods() {
    let a = el(A);
    let b = el(B);
    assert_eq!((a + b).to_u128(), A ^ B);
    assert_eq!((a - b).to_u128(), A ^ B);
    assert_eq!((a ^ b).to_u128(), A ^ B);
    assert_eq!((a * b).to_u128(), a.multiply(&b).to_u128());
    assert_eq!((a / b).to_u128(), a.divide(&b).to_u128());
    assert!(a == el(A));
    assert!(a != b);
}

#[test]
fn conversions_read_the_highest_part_first() {
    assert_eq!(GF128::from(A).to_u128(), A);
    assert_eq!(GF128::from(&A.to_be_bytes()).to_u128(), A);
    assert_eq!(GF128::from(&[0x0123_4567_89ab_cdefu64, 0xfedc_ba98_7654_3210]).to_u128(), A);
    assert_eq!(
        GF128::from(&[0x0123_4567u32, 0x89ab_cdef, 0xfedc_ba98, 0x7654_3210]).to_u128(),
        A
    );
    assert_eq!(
        GF128::from(&[0x0123u16, 0x4567, 0x89ab, 0xcdef, 0xfedc, 0xba98, 0x7654, 0x3210]).to_u128(),
        A
    );
    assert_eq!(GF128::from(&el(B).to_bytes()).to_u128(), B);
}

#[test]
fn elements_as_text() {
    assert_eq!(el(255).to_hex_string(), "0xff");
    assert_eq!(el(255).to_decimal_string(), "255");
    assert_eq!(el(255).to_padded_hex_string(), "0x000000000000000000000000000000ff");
}
