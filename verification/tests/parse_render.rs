use bignum::bigint::BigInt;
use bignum::digit_cell::{DigitCell, NumError};

fn p(s: &str) -> BigInt {
    BigInt::parse(s).unwrap()
}

#[test]
fn round_trip_single_digit() {
    assert_eq!(p("0").render(), "0");
    assert_eq!(p("7").render(), "7");
}

#[test]
fn round_trip_many_digits() {
    assert_eq!(p("123").render(), "123");
    assert_eq!(p("18446744073709551615").render(), "18446744073709551615");
}

#[test]
fn round_trip_signed() {
    assert_eq!(p("-2").render(), "-2");
    assert_eq!(p("-18446744073709551615").render(), "-18446744073709551615");
}

#[test]
fn round_trip_keeps_leading_zeros() {
    assert_eq!(p("007").render(), "007");
    assert_eq!(p("000").render(), "000");
    assert_eq!(p("-0").render(), "-0");
}

#[test]
fn parse_rejects_empty() {
    assert_eq!(BigInt::parse("").err(), Some(NumError::InvalidDigit));
}

#[test]
fn parse_rejects_bare_sign() {
    assert_eq!(BigInt::parse("-").err(), Some(NumError::InvalidDigit));
}

#[test]
fn parse_rejects_letters() {
    assert_eq!(BigInt::parse("12a3").err(), Some(NumError::InvalidDigit));
    assert_eq!(BigInt::parse("x").err(), Some(NumError::InvalidDigit));
}

#[test]
fn parse_rejects_misplaced_sign() {
    assert_eq!(BigInt::parse("1-2").err(), Some(NumError::InvalidDigit));
    assert_eq!(BigInt::parse("--5").err(), Some(NumError::InvalidDigit));
    assert_eq!(BigInt::parse("5-").err(), Some(NumError::InvalidDigit));
}

#[test]
fn digit_cell_round_trip() {
    for d in 0u8..=9u8 {
        let cell = DigitCell::encode(d).unwrap();
        assert_eq!(cell.decode(), d);
        assert_eq!(cell.duplicate().decode(), d);
    }
}

#[test]
fn digit_cell_rejects_large_values() {
    assert_eq!(DigitCell::encode(10).err(), Some(NumError::InvalidDigit));
    assert_eq!(DigitCell::encode(255).err(), Some(NumError::InvalidDigit));
}

#[test]
fn duplicate_is_deep_and_equal() {
    let a = p("-90210");
    let b = a.duplicate();
    assert_eq!(a.render(), "-90210");
    assert_eq!(b.render(), "-90210");
}
