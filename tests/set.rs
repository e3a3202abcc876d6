use rejson::engine::{json_set, json_value_op, SetOption};
use rejson::mutate::{Edit, Reply};
use rejson::value::{JsonError, JsonKind, JsonValue};

fn ints(v: &[i64]) -> JsonValue {
    JsonValue::Array(v.iter().map(|i| JsonValue::Int(*i)).collect())
}

fn doc_a123() -> JsonValue {
    JsonValue::Object(vec![("a".to_string(), ints(&[1, 2, 3]))])
}

#[test]
fn set_at_root_then_append_and_toggle() {
    let mut doc: Option<JsonValue> = None;
    assert_eq!(json_set(&mut doc, "$".to_string(), doc_a123(), SetOption::Any), Ok(true));
    assert_eq!(doc, Some(doc_a123()));
    let d = doc.as_mut().unwrap();
    assert_eq!(json_value_op(d, "$.a".to_string(), Edit::ArrAppend(vec![JsonValue::Int(4)])), Ok(Reply::Len(4)));
    assert_eq!(
        json_value_op(d, "$.a[0]".to_string(), Edit::Toggle),
        Err(JsonError::TypeMismatch { expected: JsonKind::Boolean, found: JsonKind::Integer })
    );
    assert_eq!(doc, Some(JsonValue::Object(vec![("a".to_string(), ints(&[1, 2, 3, 4]))])));
}

#[test]
fn set_on_missing_document() {
    let mut doc: Option<JsonValue> = None;
    assert_eq!(json_set(&mut doc, "$".to_string(), JsonValue::Null, SetOption::RequireExists), Ok(false));
    assert_eq!(doc, None);
    assert_eq!(json_set(&mut doc, "$.a".to_string(), JsonValue::Null, SetOption::Any), Err(JsonError::NotAtRoot));
    assert_eq!(json_set(&mut doc, "$[".to_string(), JsonValue::Null, SetOption::Any), Err(JsonError::Parse));
    assert_eq!(doc, None);
    assert_eq!(json_set(&mut doc, ".".to_string(), JsonValue::Int(1), SetOption::RequireNotExists), Ok(true));
    assert_eq!(doc, Some(JsonValue::Int(1)));
}

#[test]
fn set_options_on_existing_targets() {
    let mut doc = Some(doc_a123());
    assert_eq!(json_set(&mut doc, "$".to_string(), JsonValue::Null, SetOption::RequireNotExists), Ok(false));
    assert_eq!(json_set(&mut doc, "$.a".to_string(), JsonValue::Null, SetOption::RequireNotExists), Ok(false));
    assert_eq!(doc, Some(doc_a123()));
    assert_eq!(json_set(&mut doc, "a[1]".to_string(), JsonValue::Bool(true), SetOption::RequireExists), Ok(true));
    assert_eq!(
        doc,
        Some(JsonValue::Object(vec![(
            "a".to_string(),
            JsonValue::Array(vec![JsonValue::Int(1), JsonValue::Bool(true), JsonValue::Int(3)])
        )]))
    );
}

#[test]
fn set_adds_missing_member() {
    let mut doc = Some(doc_a123());
    assert_eq!(json_set(&mut doc, "$.b".to_string(), JsonValue::Int(7), SetOption::RequireExists), Ok(false));
    assert_eq!(doc, Some(doc_a123()));
    assert_eq!(json_set(&mut doc, "$.b".to_string(), JsonValue::Int(7), SetOption::RequireNotExists), Ok(true));
    assert_eq!(
        doc,
        Some(JsonValue::Object(vec![("a".to_string(), ints(&[1, 2, 3])), ("b".to_string(), JsonValue::Int(7))]))
    );
    assert_eq!(json_set(&mut doc, "$.a.c".to_string(), JsonValue::Int(7), SetOption::Any), Ok(false));
    assert_eq!(json_set(&mut doc, "$.x.y".to_string(), JsonValue::Int(7), SetOption::Any), Ok(false));
    assert_eq!(json_set(&mut doc, "$.a[9]".to_string(), JsonValue::Int(7), SetOption::Any), Ok(false));
    assert_eq!(doc.as_ref().map(|d| matches!(d, JsonValue::Object(o) if o.len() == 2)), Some(true));
}
