use character_sheet::decimal::{parse_u16, write_decimal, NumberError};
use std::num::IntErrorKind;

fn written(n: u16) -> String {
    let mut out = String::new();
    write_decimal(&mut out, n);
    out
}

#[test]
fn write_decimal_gives_the_usual_numeral() {
    assert_eq!(written(0), "0");
    assert_eq!(written(7), "7");
    assert_eq!(written(10), "10");
    assert_eq!(written(909), "909");
    assert_eq!(written(1000), "1000");
    assert_eq!(written(65535), "65535");
}

#[test]
fn write_decimal_appends() {
    let mut out = String::from("x=");
    write_decimal(&mut out, 120);
    write_decimal(&mut out, 3);
    assert_eq!(out, "x=1203");
}

#[test]
fn write_decimal_agrees_with_display_everywhere() {
    for n in 0..=u16::MAX {
        assert_eq!(written(n), format!("{}", n));
    }
}

#[test]
fn parse_u16_reads_numerals() {
    assert_eq!(parse_u16("0"), Ok(0));
    assert_eq!(parse_u16("7"), Ok(7));
    assert_eq!(parse_u16("42"), Ok(42));
    assert_eq!(parse_u16("65535"), Ok(65535));
}

#[test]
fn parse_u16_accepts_a_plus_and_leading_zeros() {
    assert_eq!(parse_u16("+5"), Ok(5));
    assert_eq!(parse_u16("007"), Ok(7));
    assert_eq!(parse_u16("+00065535"), Ok(65535));
    assert_eq!(parse_u16("0000000000"), Ok(0));
}

#[test]
fn parse_u16_rejects_the_empty_text() {
    assert_eq!(parse_u16(""), Err(NumberError::Empty));
}

#[test]
fn parse_u16_rejects_what_is_no_digit() {
    assert_eq!(parse_u16("+"), Err(NumberError::InvalidDigit));
    assert_eq!(parse_u16("-"), Err(NumberError::InvalidDigit));
    assert_eq!(parse_u16("-1"), Err(NumberError::InvalidDigit));
    assert_eq!(parse_u16("++1"), Err(NumberError::InvalidDigit));
    assert_eq!(parse_u16("1+"), Err(NumberError::InvalidDigit));
    assert_eq!(parse_u16("12a"), Err(NumberError::InvalidDigit));
    assert_eq!(parse_u16("a12"), Err(NumberError::InvalidDigit));
    assert_eq!(parse_u16(" 1"), Err(NumberError::InvalidDigit));
    assert_eq!(parse_u16("1 "), Err(NumberError::InvalidDigit));
    assert_eq!(parse_u16("1\r"), Err(NumberError::InvalidDigit));
    assert_eq!(parse_u16("1.5"), Err(NumberError::InvalidDigit));
    assert_eq!(parse_u16("\u{0661}"), Err(NumberError::InvalidDigit));
}

#[test]
fn parse_u16_rejects_what_is_too_large() {
    assert_eq!(parse_u16("65536"), Err(NumberError::TooLarge));
    assert_eq!(parse_u16("65540"), Err(NumberError::TooLarge));
    assert_eq!(parse_u16("70000"), Err(NumberError::TooLarge));
    assert_eq!(parse_u16("+99999999999999999999"), Err(NumberError::TooLarge));
}

#[test]
fn parse_u16_names_the_first_fault_from_the_left() {
    assert_eq!(parse_u16("99999x"), Err(NumberError::TooLarge));
    assert_eq!(parse_u16("9999x9"), Err(NumberError::InvalidDigit));
    assert_eq!(parse_u16("65535x"), Err(NumberError::InvalidDigit));
    assert_eq!(parse_u16("65536x"), Err(NumberError::TooLarge));
}

fn std_reading(text: &str) -> Result<u16, NumberError> {
    match text.parse::<u16>() {
        Ok(v) => Ok(v),
        Err(e) => match e.kind() {
            IntErrorKind::Empty => Err(NumberError::Empty),
            IntErrorKind::InvalidDigit => Err(NumberError::InvalidDigit),
            IntErrorKind::PosOverflow => Err(NumberError::TooLarge),
            other => panic!("unexpected kind {:?}", other),
        },
    }
}

#[test]
fn parse_u16_agrees_with_the_standard_parser() {
    let samples = [
        "", "0", "1", "9", "10", "+", "-", "+0", "-0", "+1", "++1", "+-1", "00", "0001", "65535",
        "65536", "065535", "0065536", "6553", "65530", "65539", "655350", "99999", "99999x",
        "9999x", "x9999", "1x", "x", " 1", "1 ", "1\n", "1\r", "12345", "123456", "+65535",
        "+65536", "6 5", "6_5", "0x10", "1e3", "\u{ff11}", "4294967296", "18446744073709551616",
    ];
    for s in samples {
        assert_eq!(parse_u16(s), std_reading(s), "on {:?}", s);
    }
}

#[test]
fn parse_u16_reads_back_every_numeral() {
    for n in 0..=u16::MAX {
        assert_eq!(parse_u16(&written(n)), Ok(n));
    }
}
