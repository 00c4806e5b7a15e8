//! Fixed-point arithmetic and canonical decimal text.

use czero::fixed::{ArithError, Fixed, BOUND, SCALE};
use czero::codec::parse_decimal;

fn fx(m: i128) -> Fixed {
    Fixed::try_from_mantissa(m).unwrap()
}

#[test]
fn addition_is_exact() {
    let a = fx(150_000_000_000_000); // 1.5
    let b = fx(250_000_000_000_000); // 2.5
    assert_eq!(a.checked_add(b).unwrap(), fx(4 * SCALE));
}

#[test]
fn addition_overflow_is_reported() {
    let a = fx(BOUND);
    let b = fx(1);
    assert_eq!(a.checked_add(b), Err(ArithError::Overflow));
}

#[test]
fn subtraction_is_exact() {
    let a = fx(SCALE);
    let b = fx(3 * SCALE);
    assert_eq!(a.checked_sub(b).unwrap(), fx(-2 * SCALE));
}

#[test]
fn multiplication_truncates_toward_zero() {
    // 1.5 * 2.5 = 3.75
    let a = fx(150_000_000_000_000);
    let b = fx(250_000_000_000_000);
    assert_eq!(a.checked_mul(b).unwrap(), fx(375_000_000_000_000));
    // (-0.0000000000000 1) * 0.1 truncates to zero from below
    let c = fx(-1);
    let d = fx(10_000_000_000_000);
    assert_eq!(c.checked_mul(d).unwrap(), fx(0));
}

#[test]
fn division_is_exact_and_truncating() {
    let a = fx(SCALE); // 1
    let b = fx(3 * SCALE); // 3
    assert_eq!(a.checked_div(b).unwrap(), fx(33_333_333_333_333));
}

#[test]
fn division_by_zero_is_a_typed_error() {
    let a = fx(SCALE);
    assert_eq!(a.checked_div(fx(0)), Err(ArithError::DivisionByZero));
}

#[test]
fn from_units_covers_the_representable_range() {
    assert_eq!(Fixed::from_units(100_000).unwrap(), fx(BOUND));
    assert!(Fixed::from_units(100_001).is_none());
    assert_eq!(Fixed::from_units(-3).unwrap(), fx(-3 * SCALE));
}

#[test]
fn parse_whole_number() {
    assert_eq!(parse_decimal(&b"50000".to_vec()).unwrap(), fx(50_000 * SCALE));
}

#[test]
fn parse_fraction() {
    assert_eq!(parse_decimal(&b"0.05".to_vec()).unwrap(), fx(5_000_000_000_000));
    assert_eq!(parse_decimal(&b"-1.25".to_vec()).unwrap(), fx(-125_000_000_000_000));
    assert_eq!(
        parse_decimal(&b"0.00000000000001".to_vec()).unwrap(),
        fx(1)
    );
}

#[test]
fn parse_rejects_malformed_text() {
    assert!(parse_decimal(&b"".to_vec()).is_none());
    assert!(parse_decimal(&b"-".to_vec()).is_none());
    assert!(parse_decimal(&b"1e5".to_vec()).is_none());
    assert!(parse_decimal(&b"1.".to_vec()).is_none());
    assert!(parse_decimal(&b".5".to_vec()).is_none());
    assert!(parse_decimal(&b"1.2.3".to_vec()).is_none());
}

#[test]
fn parse_rejects_unrepresentable_values() {
    // more fraction digits than the scale keeps
    assert!(parse_decimal(&b"0.000000000000001".to_vec()).is_none());
    // beyond the whole-unit range
    assert!(parse_decimal(&b"100001".to_vec()).is_none());
    assert_eq!(parse_decimal(&b"100000".to_vec()).unwrap(), fx(BOUND));
}

#[test]
fn canonical_bytes_round_trip() {
    for m in [0i128, 1, -1, SCALE, -SCALE, 12_345_678_901_234_567, BOUND, -BOUND] {
        let mut out = Vec::new();
        czero::codec::push_fixed_bytes(&mut out, fx(m));
        assert_eq!(parse_decimal(&out).unwrap(), fx(m), "round trip of {m}");
    }
}

#[test]
fn magnitude_helpers_are_exact() {
    let a = fx(-250_000_000_000_000); // -2.5
    assert_eq!(a.abs(), fx(250_000_000_000_000));
    assert_eq!(a.neg(), fx(250_000_000_000_000));
    assert_eq!(a.min(fx(0)), a);
    assert_eq!(fx(SCALE).min(fx(2 * SCALE)), fx(SCALE));
    assert!(a.is_negative() && !a.is_positive() && !a.is_zero());
}
