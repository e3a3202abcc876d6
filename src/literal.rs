use vstd::prelude::*;
use crate::ops::{do_json_num_op, do_json_str_append, is_number, mismatch, num_op_int, NumOp, NumStep};
use crate::value::{byte_len, JsonError, JsonKind, JsonValue};

verus! {

/// The kind of the value that a JSON text holds (every number counts as
/// `Number`), or `None` when the text is not valid JSON.
pub uninterp spec fn json_text_kind(s: Seq<char>) -> Option<JsonKind>;

/// The string that a JSON text holds, when it holds one.
pub uninterp spec fn json_text_string(s: Seq<char>) -> Option<Seq<char>>;

/// The integer that a JSON text holds, when it holds one that fits in an `i64`.
pub uninterp spec fn json_text_i64(s: Seq<char>) -> Option<i64>;

/// Relies on serde_json::from_str into serde_json::Value: it fails on text
/// that is not JSON, and otherwise yields the value, whose variant gives the
/// kind.
#[verifier::external_body]
fn literal_kind(s: &str) -> (r: Option<JsonKind>)
    ensures
        r == json_text_kind(s@),
{
    match serde_json::from_str::<serde_json::Value>(s) {
        Err(_) => None,
        Ok(serde_json::Value::Null) => Some(JsonKind::Null),
        Ok(serde_json::Value::Bool(_)) => Some(JsonKind::Boolean),
        Ok(serde_json::Value::Number(_)) => Some(JsonKind::Number),
        Ok(serde_json::Value::String(_)) => Some(JsonKind::Str),
        Ok(serde_json::Value::Array(_)) => Some(JsonKind::Array),
        Ok(serde_json::Value::Object(_)) => Some(JsonKind::Object),
    }
}

/// Relies on serde_json::from_str into String: it succeeds exactly on a JSON
/// text that holds a string, and yields that string unescaped.
#[verifier::external_body]
fn literal_string(s: &str) -> (r: Option<String>)
    ensures
        r matches Some(t) ==> json_text_string(s@) == Some(t@),
        r is None ==> json_text_string(s@) is None,
        r is Some <==> json_text_kind(s@) == Some(JsonKind::Str),
{
    serde_json::from_str::<String>(s).ok()
}

/// Relies on serde_json::from_str into i64: it succeeds exactly on a JSON
/// text that holds an integer within the range of `i64`.
#[verifier::external_body]
fn literal_i64(s: &str) -> (r: Option<i64>)
    ensures
        r == json_text_i64(s@),
        r is Some ==> json_text_kind(s@) == Some(JsonKind::Number),
{
    serde_json::from_str::<i64>(s).ok()
}

/// Appends the string written as the JSON text `json` to the string held by
/// `value`; returns the new length in bytes. The target is checked
/// first, then the text: it must be valid JSON (else `Parse`) and hold a
/// string (else a type mismatch naming its kind).
pub fn str_append_text(json: &str, value: &mut JsonValue) -> (r: Result<usize, JsonError>)
    ensures
        r is Err ==> *final(value) == *old(value),
        !(*old(value) is Str) ==> r == Err::<usize, JsonError>(mismatch(JsonKind::Str, *old(value))),
        *old(value) is Str ==> match json_text_kind(json@) {
            None => r == Err::<usize, JsonError>(JsonError::Parse),
            Some(k) => if k != JsonKind::Str {
                r == Err::<usize, JsonError>(
                    JsonError::TypeMismatch { expected: JsonKind::Str, found: k },
                )
            } else {
                *final(value) is Str && json_text_string(json@) is Some && final(value)->Str_0@
                    == old(value)->Str_0@ + json_text_string(json@)->Some_0 && r == Ok::<
                    usize,
                    JsonError,
                >(byte_len(final(value)->Str_0@) as usize)
            },
        },
{
    if !matches!(value, JsonValue::Str(_)) {
        return Err(JsonError::TypeMismatch { expected: JsonKind::Str, found: value.kind() });
    }
    match literal_kind(json) {
        None => return Err(JsonError::Parse),
        Some(JsonKind::Str) => {},
        Some(k) => return Err(JsonError::TypeMismatch { expected: JsonKind::Str, found: k }),
    }
    match literal_string(json) {
        Some(s) => do_json_str_append(&JsonValue::Str(s), value),
        None => Err(JsonError::Parse),
    }
}

/// Applies `op` to the number held by `value` and the number written as the
/// JSON text `json`. The target is checked first, then the text: it must be
/// valid JSON (else `Parse`) and hold a number (else a type mismatch naming
/// its kind). An integer operand goes through `do_json_num_op`; any other
/// number is reported as `Widen`, with the value untouched.
pub fn num_op_text(json: &str, value: &mut JsonValue, op: NumOp) -> (r: Result<NumStep, JsonError>)
    ensures
        r is Err ==> *final(value) == *old(value),
        !is_number(*old(value)) ==> r == Err::<NumStep, JsonError>(
            mismatch(JsonKind::Number, *old(value)),
        ),
        is_number(*old(value)) ==> match json_text_kind(json@) {
            None => r == Err::<NumStep, JsonError>(JsonError::Parse),
            Some(k) => if k != JsonKind::Number {
                r == Err::<NumStep, JsonError>(
                    JsonError::TypeMismatch { expected: JsonKind::Number, found: k },
                )
            } else {
                match json_text_i64(json@) {
                    Some(i) => match num_op_int(op, *old(value), JsonValue::Int(i)) {
                        Some(n) => r == Ok::<NumStep, JsonError>(NumStep::Int(n)) && *final(value)
                            == JsonValue::Int(n),
                        None => r == Ok::<NumStep, JsonError>(NumStep::Widen) && *final(value)
                            == *old(value),
                    },
                    None => r == Ok::<NumStep, JsonError>(NumStep::Widen) && *final(value)
                        == *old(value),
                }
            },
        },
{
    if !matches!(value, JsonValue::Int(_) | JsonValue::Float(_)) {
        return Err(JsonError::TypeMismatch { expected: JsonKind::Number, found: value.kind() });
    }
    match literal_kind(json) {
        None => return Err(JsonError::Parse),
        Some(JsonKind::Number) => {},
        Some(k) => return Err(JsonError::TypeMismatch { expected: JsonKind::Number, found: k }),
    }
    match literal_i64(json) {
        Some(i) => do_json_num_op(&JsonValue::Int(i), value, op),
        None => Ok(NumStep::Widen),
    }
}

} // verus!
