use terminalia::config::{color_from_hex, color_from_hex_bytes, HexError};
use terminalia::logbook::Tint;

#[test]
fn reads_colours() {
    assert_eq!(color_from_hex("#000000"), Ok(Tint::Rgb { r: 0, g: 0, b: 0 }));
    assert_eq!(color_from_hex("#ffffff"), Ok(Tint::Rgb { r: 255, g: 255, b: 255 }));
    assert_eq!(color_from_hex("#FF8000"), Ok(Tint::Rgb { r: 255, g: 128, b: 0 }));
    assert_eq!(color_from_hex("#1a2B3c"), Ok(Tint::Rgb { r: 0x1a, g: 0x2b, b: 0x3c }));
    assert_eq!(color_from_hex("#0109Af"), Ok(Tint::Rgb { r: 1, g: 9, b: 0xaf }));
}

#[test]
fn a_plus_sign_may_stand_for_the_first_digit() {
    assert_eq!(color_from_hex("#+f0000"), Ok(Tint::Rgb { r: 15, g: 0, b: 0 }));
    assert_eq!(color_from_hex("#00+a+0"), Ok(Tint::Rgb { r: 0, g: 10, b: 0 }));
}

#[test]
fn missing_hash() {
    assert_eq!(color_from_hex(""), Err(HexError::MissingHash));
    assert_eq!(color_from_hex("ffffff"), Err(HexError::MissingHash));
    assert_eq!(color_from_hex("ff#fff"), Err(HexError::MissingHash));
    assert_eq!(color_from_hex(" #ffffff"), Err(HexError::MissingHash));
}

#[test]
fn bad_length() {
    assert_eq!(color_from_hex("#"), Err(HexError::BadLength));
    assert_eq!(color_from_hex("#fff"), Err(HexError::BadLength));
    assert_eq!(color_from_hex("#fffffff"), Err(HexError::BadLength));
    assert_eq!(color_from_hex("#ff00ff "), Err(HexError::BadLength));
}

#[test]
fn bad_channels() {
    assert_eq!(color_from_hex("#gg0000"), Err(HexError::BadRed));
    assert_eq!(color_from_hex("#-10000"), Err(HexError::BadRed));
    assert_eq!(color_from_hex("#f+0000"), Err(HexError::BadRed));
    assert_eq!(color_from_hex("#00zz00"), Err(HexError::BadGreen));
    assert_eq!(color_from_hex("#00 000"), Err(HexError::BadGreen));
    assert_eq!(color_from_hex("#0000x0"), Err(HexError::BadBlue));
    assert_eq!(color_from_hex("#0000++"), Err(HexError::BadBlue));
    assert_eq!(color_from_hex("#zzzzzz"), Err(HexError::BadRed));
}

#[test]
fn colour_bytes_and_text_agree() {
    assert_eq!(color_from_hex_bytes(b"#102030"), color_from_hex("#102030"));
    assert_eq!(color_from_hex_bytes(&[35, 0xc3, 0xa9, 48, 48, 48, 48]), Err(HexError::BadRed));
    assert_eq!(color_from_hex("#é0000"), Err(HexError::BadRed));
}
