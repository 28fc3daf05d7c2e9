//! Values: tags, truthiness, and decimal rendering.
use rlox::value::{render_i64, render_u64, Value};

#[test]
fn tags() {
    assert!(Value::Bool(true).is_bool());
    assert!(Value::Number(1).is_number());
    assert!(Value::Nil.is_nil());
    assert!(Value::Object(0).is_object());
    assert!(!Value::Nil.is_number());
}

#[test]
fn conversions() {
    assert_eq!(Value::Number(9).try_into_number(), Ok(9));
    assert_eq!(Value::Nil.try_into_number(), Err(Value::Nil));
    assert_eq!(Value::Bool(true).try_into_bool(), Ok(true));
    assert_eq!(Value::Number(0).try_into_bool(), Err(Value::Number(0)));
}

#[test]
fn truthiness() {
    assert!(!Value::Nil.truthy());
    assert!(!Value::Bool(false).truthy());
    assert!(Value::Bool(true).truthy());
    assert!(Value::Number(0).truthy());
    assert!(Value::Object(3).truthy());
    assert_eq!(Value::Nil.not(), Value::Bool(true));
    assert_eq!(Value::Number(1).not(), Value::Bool(false));
}

#[test]
fn decimal_rendering() {
    assert_eq!(render_u64(0), b"0".to_vec());
    assert_eq!(render_u64(12345), b"12345".to_vec());
    assert_eq!(render_i64(-1), b"-1".to_vec());
    assert_eq!(render_i64(9223372036854775807), b"9223372036854775807".to_vec());
    assert_eq!(render_i64(-9223372036854775808), b"-9223372036854775808".to_vec());
}
