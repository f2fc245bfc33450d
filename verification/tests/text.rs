use sscipher::field::GF128;
use sscipher::matrix::GF128Matrix;
use sscipher::parse::{parse_str_to_gf128, parse_text, ParseError};

fn value(result: Result<GF128, ParseError>) -> Result<u128, ParseError> {
    result.map(|element| element.to_u128())
}

#[test]
fn hexadecimal_behind_a_prefix() {
    assert_eq!(value(parse_text("0xff")), Ok(255));
    assert_eq!(value(parse_text("0XFf")), Ok(255));
    assert_eq!(value(parse_text("  0x10\n")), Ok(16));
    assert_eq!(value(parse_text("0x")), Ok(0));
    assert_eq!(value(parse_text("0x0x0X0X1")), Ok(1));
    assert_eq!(value(parse_text("0xffffffffffffffffffffffffffffffff")), Ok(u128::MAX));
    assert_eq!(value(parse_text("0x+fffffffffffffffffffffffffffffff")), Ok(u128::MAX >> 4));
}

#[test]
fn hexadecimal_errors() {
    assert_eq!(value(parse_text("0x1ffffffffffffffffffffffffffffffff")), Err(ParseError::HexTooLong));
    assert_eq!(value(parse_text("0xfg")), Err(ParseError::InvalidHex));
    assert_eq!(value(parse_text("0x+1")), Err(ParseError::InvalidHex));
    assert_eq!(value(parse_text("0x 1")), Err(ParseError::InvalidHex));
    assert_eq!(ParseError::HexTooLong.message(), "Hex string too long for Gf128");
    assert_eq!(ParseError::InvalidHex.message(), "Invalid hexadecimal string");
}

#[test]
fn decimal_without_a_prefix() {
    assert_eq!(value(parse_text("255")), Ok(255));
    assert_eq!(value(parse_text("+255")), Ok(255));
    assert_eq!(value(parse_text("0")), Ok(0));
    assert_eq!(value(parse_text("\t 007 ")), Ok(7));
    assert_eq!(value(parse_text("340282366920938463463374607431768211455")), Ok(u128::MAX));
}

#[test]
fn decimal_errors() {
    assert_eq!(value(parse_text("340282366920938463463374607431768211456")), Err(ParseError::InvalidDecimal));
    assert_eq!(value(parse_text("")), Err(ParseError::InvalidDecimal));
    assert_eq!(value(parse_text("+")), Err(ParseError::InvalidDecimal));
    assert_eq!(value(parse_text("-1")), Err(ParseError::InvalidDecimal));
    assert_eq!(value(parse_text("ff")), Err(ParseError::InvalidDecimal));
    assert_eq!(value(parse_text("1 2")), Err(ParseError::InvalidDecimal));
    assert_eq!(ParseError::InvalidDecimal.message(), "Invalid decimal string");
}

#[test]
fn from_str_gives_the_sentence() {
    assert_eq!("0x1f".parse::<GF128>().map(|e| e.to_u128()), Ok(31));
    assert_eq!(" 12 ".parse::<GF128>().map(|e| e.to_u128()), Ok(12));
    assert_eq!("zz".parse::<GF128>().map(|e| e.to_u128()), Err("Invalid decimal string"));
    assert_eq!("0xzz".parse::<GF128>().map(|e| e.to_u128()), Err("Invalid hexadecimal string"));
}

#[test]
fn either_notation_prefers_hexadecimal() {
    assert_eq!(value(parse_str_to_gf128("0x10")), Ok(16));
    assert_eq!(value(parse_str_to_gf128("10")), Ok(16));
    assert_eq!(value(parse_str_to_gf128("+a")), Ok(10));
    assert_eq!(value(parse_str_to_gf128("0x0x7")), Ok(7));
    // 39 digits overflow as hexadecimal and fit as decimal
    assert_eq!(
        value(parse_str_to_gf128("340282366920938463463374607431768211455")),
        Ok(u128::MAX)
    );
    assert_eq!(value(parse_str_to_gf128("0X10")), Err(ParseError::InvalidFormat));
    assert_eq!(value(parse_str_to_gf128("")), Err(ParseError::InvalidFormat));
    assert_eq!(value(parse_str_to_gf128(" 1")), Err(ParseError::InvalidFormat));
    assert_eq!(ParseError::InvalidFormat.message(), "Invalid string format");
}

#[test]
fn matrices_from_rows() {
    let m = GF128Matrix::from_rows(vec![vec![1, 2, 3], vec![4], vec![5, 6, 7, 8]]);
    assert_eq!(m.order(), 3);
    assert_eq!(m.get(0, 2).to_u128(), 3);
    assert_eq!(m.get(1, 0).to_u128(), 4);
    assert_eq!(m.get(1, 2).to_u128(), 0);
    assert_eq!(m.get(2, 3).to_u128(), 8);
}

#[test]
fn matrices_from_texts() {
    let texts = vec![vec!["0x10", "11"], vec!["ff", "+1"]];
    let m = GF128Matrix::from_texts(&texts, false).expect("numbers");
    assert_eq!(m.order(), 2);
    assert_eq!(m.get(0, 0).to_u128(), 16);
    assert_eq!(m.get(0, 1).to_u128(), 17);
    assert_eq!(m.get(1, 0).to_u128(), 255);
    assert_eq!(m.get(1, 1).to_u128(), 1);
    assert!(GF128Matrix::from_texts(&texts, true).is_none());
    let hex = vec![vec!["10", "a"], vec!["0", "+f"]];
    let m = GF128Matrix::from_texts(&hex, true).expect("digits");
    assert_eq!(m.get(0, 1).to_u128(), 10);
    assert_eq!(m.get(1, 1).to_u128(), 15);
    assert!(GF128Matrix::from_texts(&vec![vec!["1", "2"]], false).is_none());
    assert!(GF128Matrix::from_texts(&vec![vec!["g"]], false).is_none());
    assert_eq!(GF128Matrix::from_texts(&Vec::new(), false).expect("empty").order(), 0);
}
