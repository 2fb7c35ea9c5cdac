use rlox::value::{are_equal, is_falsey, Value};
use rlox::value::Value::Nil;

#[test]
fn test_is_falsey() {
    assert_eq!(is_falsey(Nil), true);
    assert_eq!(is_falsey(Value::Number(0)), false);
    assert_eq!(is_falsey(Value::Boolean(false)), true);
    assert_eq!(is_falsey(Value::Boolean(true)), false);
}

#[test]
fn test_are_equal() {
    assert_eq!(are_equal(Nil, Nil), true);
    assert_eq!(are_equal(Value::Number(0), Value::Number(0)), true);
    assert_eq!(are_equal(Value::Boolean(false), Value::Boolean(false)), true);
    assert_eq!(are_equal(Value::Boolean(true), Value::Boolean(true)), true);
    assert_eq!(are_equal(Value::Number(0), Value::Boolean(false)), false);
    assert_eq!(are_equal(Value::Number(0), Value::Boolean(true)), false);
    // Comparisons between different types are always false
    assert_eq!(are_equal(Value::Boolean(false), Value::Number(0)), false);
    assert_eq!(are_equal(Value::Boolean(true), Value::Number(0)), false);
    assert_eq!(are_equal(Value::Boolean(true), Nil), false);
    assert_eq!(are_equal(Value::Boolean(false), Nil), false);
    assert_eq!(are_equal(Value::Number(0), Nil), false);
}

#[test]
fn number_display_is_decimal() {
    assert_eq!(rlox::value::i64_to_string(123), "123");
    assert_eq!(rlox::value::i64_to_string(-123), "-123");
    assert_eq!(rlox::value::i64_to_string(0), "0");
    assert_eq!(rlox::value::u64_to_string(906090), "906090");
}
