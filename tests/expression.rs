use mocker::expression::ValueType;
use mocker::text::{contains_str, parse_bool, parse_i32, parse_u64};

#[test]
fn fixed_parses_to_its_value() {
    assert_eq!(ValueType::from_str("fixed(42)"), Ok(ValueType::Fixed(42)));
    assert_eq!(ValueType::from_str("fixed(-7)"), Ok(ValueType::Fixed(-7)));
    assert_eq!(ValueType::from_str("fixed(+3)"), Ok(ValueType::Fixed(3)));
    assert_eq!(ValueType::from_str("fixed(2147483647)"), Ok(ValueType::Fixed(i32::MAX)));
    assert_eq!(ValueType::from_str("fixed(-2147483648)"), Ok(ValueType::Fixed(i32::MIN)));
}

#[test]
fn fixed_rejects_malformed_literals() {
    assert_eq!(ValueType::from_str("fixed()"), Err(()));
    assert_eq!(ValueType::from_str("fixed( 4)"), Err(()));
    assert_eq!(ValueType::from_str("fixed(4x)"), Err(()));
    assert_eq!(ValueType::from_str("fixed(2147483648)"), Err(()));
    assert_eq!(ValueType::from_str("fixed(4"), Err(()));
    assert_eq!(ValueType::from_str("fixed(-)"), Err(()));
}

#[test]
fn random_parses_with_trimmed_parts() {
    assert_eq!(ValueType::from_str("random(10,20)"), Ok(ValueType::Random(10, 20)));
    assert_eq!(ValueType::from_str("random( -5 ,\t5 )"), Ok(ValueType::Random(-5, 5)));
    assert_eq!(ValueType::from_str("random(3,1)"), Ok(ValueType::Random(3, 1)));
}

#[test]
fn random_needs_exactly_two_parts() {
    assert_eq!(ValueType::from_str("random(1)"), Err(()));
    assert_eq!(ValueType::from_str("random(1,2,3)"), Err(()));
    assert_eq!(ValueType::from_str("random(1,)"), Err(()));
    assert_eq!(ValueType::from_str("random(a,2)"), Err(()));
    assert_eq!(ValueType::from_str("random()"), Err(()));
}

#[test]
fn other_strings_fail() {
    assert_eq!(ValueType::from_str(""), Err(()));
    assert_eq!(ValueType::from_str("42"), Err(()));
    assert_eq!(ValueType::from_str("fixed"), Err(()));
    assert_eq!(ValueType::from_str("Fixed(1)"), Err(()));
    assert_eq!(ValueType::from_str("random(1,2) "), Err(()));
    assert_eq!(ValueType::from_str("room-temp"), Err(()));
}

#[test]
fn integer_and_bool_readers() {
    assert_eq!(parse_i32("-0012"), Some(-12));
    assert_eq!(parse_i32(""), None);
    assert_eq!(parse_i32("+"), None);
    assert_eq!(parse_u64("60"), Some(60));
    assert_eq!(parse_u64("18446744073709551615"), Some(u64::MAX));
    assert_eq!(parse_u64("18446744073709551616"), None);
    assert_eq!(parse_u64("-0"), None);
    assert_eq!(parse_u64("+5"), Some(5));
    assert_eq!(parse_bool("true"), Some(true));
    assert_eq!(parse_bool("false"), Some(false));
    assert_eq!(parse_bool("True"), None);
    assert_eq!(parse_bool("yes"), None);
}

#[test]
fn substring_search() {
    assert!(contains_str("random(1)", "random"));
    assert!(contains_str("xxfixed", "fixed"));
    assert!(contains_str("abc", ""));
    assert!(!contains_str("fixe", "fixed"));
    assert!(!contains_str("", "a"));
}
