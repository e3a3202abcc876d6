use rejson::literal::{num_op_text, str_append_text};
use rejson::ops::{NumOp, NumStep};
use rejson::value::{JsonError, JsonKind, JsonValue};

#[test]
fn append_json_string_literal() {
    let mut v = JsonValue::Str("ab".to_string());
    assert_eq!(str_append_text("\"c\\u0064\"", &mut v), Ok(4));
    assert_eq!(v, JsonValue::Str("abcd".to_string()));
}

#[test]
fn append_rejects_non_strings() {
    let mut v = JsonValue::Str("ab".to_string());
    assert_eq!(
        str_append_text("12", &mut v),
        Err(JsonError::TypeMismatch { expected: JsonKind::Str, found: JsonKind::Number })
    );
    assert_eq!(str_append_text("\"open", &mut v), Err(JsonError::Parse));
    assert_eq!(str_append_text("cd", &mut v), Err(JsonError::Parse));
    assert_eq!(v, JsonValue::Str("ab".to_string()));
    let mut n = JsonValue::Int(1);
    assert_eq!(
        str_append_text("\"x\"", &mut n),
        Err(JsonError::TypeMismatch { expected: JsonKind::Str, found: JsonKind::Integer })
    );
}

#[test]
fn increment_by_json_number() {
    let mut v = JsonValue::Int(40);
    assert_eq!(num_op_text("2", &mut v, NumOp::Add), Ok(NumStep::Int(42)));
    assert_eq!(v, JsonValue::Int(42));
    assert_eq!(num_op_text("-3", &mut v, NumOp::Mul), Ok(NumStep::Int(-126)));
    assert_eq!(num_op_text("1.5", &mut v, NumOp::Add), Ok(NumStep::Widen));
    assert_eq!(v, JsonValue::Int(-126));
}

#[test]
fn increment_rejects_bad_operands() {
    let mut v = JsonValue::Int(1);
    assert_eq!(
        num_op_text("\"2\"", &mut v, NumOp::Add),
        Err(JsonError::TypeMismatch { expected: JsonKind::Number, found: JsonKind::Str })
    );
    assert_eq!(
        num_op_text("[1]", &mut v, NumOp::Add),
        Err(JsonError::TypeMismatch { expected: JsonKind::Number, found: JsonKind::Array })
    );
    assert_eq!(num_op_text("two", &mut v, NumOp::Add), Err(JsonError::Parse));
    assert_eq!(v, JsonValue::Int(1));
    let mut s = JsonValue::Str("x".to_string());
    assert_eq!(
        num_op_text("1", &mut s, NumOp::Add),
        Err(JsonError::TypeMismatch { expected: JsonKind::Number, found: JsonKind::Str })
    );
    assert_eq!(s, JsonValue::Str("x".to_string()));
}
