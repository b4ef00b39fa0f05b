use pql::aggregation::{boolean_op, BooleanOp};
use pql::duration::{duration_to_ms, is_duration_unit, parse_decimal, unit_to_ms};
use pql::number::Rational;
use pql::text::split_qualified;

#[test]
fn units_in_milliseconds() {
    assert_eq!(unit_to_ms("usec"), Rational::new(1, 1000));
    assert_eq!(unit_to_ms("ms"), Rational::from_int(1));
    assert_eq!(unit_to_ms("sec"), Rational::from_int(1000));
    assert_eq!(unit_to_ms("min"), Rational::from_int(60_000));
    assert_eq!(unit_to_ms("hr"), Rational::from_int(3_600_000));
    assert_eq!(unit_to_ms("day"), Rational::from_int(86_400_000));
    assert_eq!(unit_to_ms("week"), Rational::from_int(604_800_000));
    assert_eq!(unit_to_ms("month"), Rational::from_int(18_144_000_000));
    assert!(is_duration_unit("hr"));
    assert!(!is_duration_unit("hrs"));
    assert!(!is_duration_unit("Sec"));
}

#[test]
fn durations_round_toward_zero() {
    let ten_and_a_half = parse_decimal("10.5").unwrap();
    assert_eq!(duration_to_ms(&ten_and_a_half, "sec"), 10500);
    assert_eq!(duration_to_ms(&Rational::from_int(1), "sec"), 1000);
    assert_eq!(duration_to_ms(&Rational::from_int(2), "hr"), 7_200_000);
    assert_eq!(duration_to_ms(&Rational::from_int(1500), "usec"), 1);
    assert_eq!(duration_to_ms(&Rational::new(7, 3), "ms"), 2);
    assert_eq!(duration_to_ms(&Rational::from_int(-4), "sec"), 0);
    assert_eq!(duration_to_ms(&Rational::from_int(i128::MAX), "month"), u64::MAX);
}

#[test]
fn decimals_parse_exactly() {
    assert_eq!(parse_decimal("10"), Some(Rational { num: 10, den: 1 }));
    assert_eq!(parse_decimal("0.75"), Some(Rational { num: 75, den: 100 }));
    assert_eq!(parse_decimal("-2.5"), Some(Rational { num: -25, den: 10 }));
    assert_eq!(parse_decimal("3."), Some(Rational { num: 3, den: 1 }));
    assert_eq!(parse_decimal(""), None);
    assert_eq!(parse_decimal("-"), None);
    assert_eq!(parse_decimal(".5"), None);
    assert_eq!(parse_decimal("1.2.3"), None);
    assert_eq!(parse_decimal("12a"), None);
    assert_eq!(parse_decimal("0.00000000000000000001"), None);
    assert_eq!(parse_decimal("1000000000000000000000000000000000000000"), None);
}

#[test]
fn qualified_names_split_at_dots() {
    let (t, c) = split_qualified("table1.plate").unwrap();
    assert_eq!(t, vec!['t', 'a', 'b', 'l', 'e', '1']);
    assert_eq!(c, vec!['p', 'l', 'a', 't', 'e']);
    let (t, c) = split_qualified("a.b.c").unwrap();
    assert_eq!(t, vec!['a']);
    assert_eq!(c, vec!['b']);
    assert_eq!(split_qualified("chunk"), None);
}

#[test]
fn rational_arithmetic_is_exact() {
    let a = Rational::new(1, 2);
    let b = Rational::new(1, 3);
    assert_eq!(a.checked_sub(&b), Some(Rational { num: 1, den: 6 }));
    assert_eq!(a.checked_mul_int(4), Some(Rational { num: 4, den: 2 }));
    assert_eq!(a.checked_div_int(5), Some(Rational { num: 1, den: 10 }));
    assert_eq!(Rational::from_int(i128::MAX).checked_mul_int(2), None);
    assert_eq!(Rational::new(1, u64::MAX).checked_div_int(2), None);
}

#[test]
fn predicate_operators() {
    assert_eq!(boolean_op(">="), Some(BooleanOp::GreaterThanOrEqualTo));
    assert_eq!(boolean_op("||"), Some(BooleanOp::Or));
    assert_eq!(boolean_op("=>"), None);
}
