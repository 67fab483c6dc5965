use bignum::bigint::BigInt;

fn p(s: &str) -> BigInt {
    BigInt::parse(s).unwrap()
}

#[test]
fn add_max_u64_plus_one() {
    let r = p("18446744073709551615").add(p("1"));
    assert_eq!(r.render(), "18446744073709551616");
}

#[test]
fn add_carry_grows_by_one_digit() {
    assert_eq!(p("9").add(p("1")).render(), "10");
    assert_eq!(p("999999999999999999999").add(p("1")).render(), "1000000000000000000000");
}

#[test]
fn add_negative_and_positive() {
    assert_eq!(p("-5").add(p("3")).render(), "-2");
    assert_eq!(p("5").add(p("-3")).render(), "2");
    assert_eq!(p("3").add(p("-5")).render(), "-2");
}

#[test]
fn add_both_negative() {
    assert_eq!(p("-4").add(p("-8")).render(), "-12");
}

#[test]
fn add_normalizes_leading_zeros() {
    assert_eq!(p("007").add(p("8")).render(), "15");
    assert_eq!(p("000").add(p("000")).render(), "0");
}

#[test]
fn add_is_commutative_on_samples() {
    let pairs = [
        ("123", "456789"),
        ("-7", "7000"),
        ("0", "-12"),
        ("18446744073709551615", "999"),
        ("-31", "-42"),
    ];
    for (a, b) in pairs {
        assert_eq!(p(a).add(p(b)).render(), p(b).add(p(a)).render());
    }
}

#[test]
fn add_exact_negation_is_zero() {
    assert_eq!(p("5").add(p("-5")).render(), "0");
    assert_eq!(p("-5").add(p("5")).render(), "0");
    assert_eq!(p("18446744073709551615").add(p("-18446744073709551615")).render(), "0");
}

#[test]
fn subtract_equal_operands_is_canonical_zero() {
    assert_eq!(p("123").subtract(p("123")).render(), "0");
}

#[test]
fn subtract_simple() {
    assert_eq!(p("1000").subtract(p("1")).render(), "999");
    assert_eq!(p("18446744073709551616").subtract(p("1")).render(), "18446744073709551615");
}

#[test]
fn subtract_underflow_gives_negative_result() {
    assert_eq!(p("3").subtract(p("5")).render(), "-2");
    assert_eq!(p("0").subtract(p("12345678901234567890")).render(), "-12345678901234567890");
}

#[test]
fn subtract_signed_operands() {
    assert_eq!(p("3").subtract(p("-5")).render(), "8");
    assert_eq!(p("-3").subtract(p("5")).render(), "-8");
    assert_eq!(p("-3").subtract(p("-5")).render(), "2");
}

#[test]
fn multiply_max_u64_by_71() {
    let r = p("18446744073709551615").multiply(p("71"));
    assert_eq!(r.render(), "1309718829233378164665");
}

#[test]
fn multiply_by_zero_is_zero() {
    assert_eq!(p("0").multiply(p("99999")).render(), "0");
    assert_eq!(p("99999").multiply(p("0")).render(), "0");
    assert_eq!(p("-3").multiply(p("0")).render(), "0");
}

#[test]
fn multiply_signs() {
    assert_eq!(p("-3").multiply(p("4")).render(), "-12");
    assert_eq!(p("3").multiply(p("-4")).render(), "-12");
    assert_eq!(p("-3").multiply(p("-4")).render(), "12");
}

#[test]
fn multiply_large_operands() {
    let r = p("12345678901234567890").multiply(p("98765432109876543210"));
    assert_eq!(r.render(), "1219326311370217952237463801111263526900");
}

#[test]
fn multiply_single_digits() {
    assert_eq!(p("7").multiply(p("8")).render(), "56");
    assert_eq!(p("1").multiply(p("18446744073709551615")).render(), "18446744073709551615");
}
