use rejson::compile::compile_path;
use rejson::engine::{json_len, json_type, json_value_op};
use rejson::formatter::RedisJsonFormatter;
use rejson::locate::{get_all, Selector};
use rejson::mutate::{Edit, Reply};
use rejson::resp::{resp_serialize, RespValue};
use rejson::value::{JsonError, JsonKind, JsonValue};

fn ints(v: &[i64]) -> JsonValue {
    JsonValue::Array(v.iter().map(|i| JsonValue::Int(*i)).collect())
}

fn doc_a123() -> JsonValue {
    JsonValue::Object(vec![("a".to_string(), ints(&[1, 2, 3]))])
}

#[test]
fn compile_good_paths() {
    assert_eq!(compile_path("$"), Ok(vec![]));
    assert_eq!(
        compile_path("$.a.b"),
        Ok(vec![Selector::Member("a".to_string()), Selector::Member("b".to_string())])
    );
    assert_eq!(
        compile_path("$.a[0][*].*[-2]"),
        Ok(vec![
            Selector::Member("a".to_string()),
            Selector::Index(0),
            Selector::Wildcard,
            Selector::Wildcard,
            Selector::Index(-2),
        ])
    );
    assert_eq!(compile_path("$[9223372036854775807]"), Ok(vec![Selector::Index(i64::MAX)]));
    assert_eq!(compile_path("$[-9223372036854775808]"), Ok(vec![Selector::Index(i64::MIN)]));
}

#[test]
fn compile_bad_paths() {
    assert_eq!(compile_path(""), Err(JsonError::Parse));
    assert_eq!(compile_path("a"), Err(JsonError::Parse));
    assert_eq!(compile_path("$."), Err(JsonError::Parse));
    assert_eq!(compile_path("$..a"), Err(JsonError::Parse));
    assert_eq!(compile_path("$[1"), Err(JsonError::Parse));
    assert_eq!(compile_path("$[]"), Err(JsonError::Parse));
    assert_eq!(compile_path("$[x]"), Err(JsonError::Parse));
    assert_eq!(compile_path("$[-]"), Err(JsonError::Parse));
    assert_eq!(compile_path("$[9223372036854775808]"), Err(JsonError::Parse));
    assert_eq!(compile_path("$[99999999999999999999999]"), Err(JsonError::Parse));
    assert_eq!(compile_path("$a"), Err(JsonError::Parse));
}

#[test]
fn end_to_end_append_and_toggle() {
    let mut doc = doc_a123();
    let r = json_value_op(&mut doc, "$.a".to_string(), Edit::ArrAppend(vec![JsonValue::Int(4)]));
    assert_eq!(r, Ok(Reply::Len(4)));
    assert_eq!(doc, JsonValue::Object(vec![("a".to_string(), ints(&[1, 2, 3, 4]))]));
    let r2 = json_value_op(&mut doc, "$.a[0]".to_string(), Edit::Toggle);
    assert_eq!(r2, Err(JsonError::TypeMismatch { expected: JsonKind::Boolean, found: JsonKind::Integer }));
    assert_eq!(doc, JsonValue::Object(vec![("a".to_string(), ints(&[1, 2, 3, 4]))]));
}

#[test]
fn legacy_path_writes() {
    let mut doc = doc_a123();
    let r = json_value_op(&mut doc, ".a".to_string(), Edit::ArrPop(-1));
    assert_eq!(r, Ok(Reply::Popped(Some(JsonValue::Int(3)))));
    let r2 = json_value_op(&mut doc, "a".to_string(), Edit::ArrTrim(1, 1));
    assert_eq!(r2, Ok(Reply::Len(1)));
    assert_eq!(doc, JsonValue::Object(vec![("a".to_string(), ints(&[2]))]));
    let r3 = json_value_op(&mut doc, ".".to_string(), Edit::Clear);
    assert_eq!(r3, Ok(Reply::Cleared(1)));
    assert_eq!(doc, JsonValue::Object(vec![]));
    let r4 = json_value_op(&mut doc, "$[".to_string(), Edit::Clear);
    assert_eq!(r4, Err(JsonError::Parse));
}

#[test]
fn insert_out_of_bounds_through_path() {
    let mut doc = doc_a123();
    let r = json_value_op(&mut doc, "$.a".to_string(), Edit::ArrInsert(4, vec![JsonValue::Null]));
    assert_eq!(r, Err(JsonError::IndexOutOfBounds));
    assert_eq!(doc, doc_a123());
    let r2 = json_value_op(&mut doc, "$.a".to_string(), Edit::ArrInsert(3, vec![JsonValue::Null]));
    assert_eq!(r2, Ok(Reply::Len(4)));
}

#[test]
fn string_append_through_path() {
    let mut doc = JsonValue::Object(vec![("s".to_string(), JsonValue::Str("ab".to_string()))]);
    let r = json_value_op(&mut doc, "$.s".to_string(), Edit::StrAppend(JsonValue::Str("c".to_string())));
    assert_eq!(r, Ok(Reply::Len(3)));
    assert_eq!(doc, JsonValue::Object(vec![("s".to_string(), JsonValue::Str("abc".to_string()))]));
}

#[test]
fn replies_for_values() {
    let v = JsonValue::Object(vec![
        ("n".to_string(), JsonValue::Null),
        ("b".to_string(), JsonValue::Bool(true)),
        ("l".to_string(), JsonValue::Array(vec![JsonValue::Int(1), JsonValue::Str("x".to_string())])),
    ]);
    let r = resp_serialize(&v);
    assert_eq!(
        r,
        RespValue::Array(vec![
            RespValue::SimpleString("{".to_string()),
            RespValue::BulkString("n".to_string()),
            RespValue::Null,
            RespValue::BulkString("b".to_string()),
            RespValue::SimpleString("true".to_string()),
            RespValue::BulkString("l".to_string()),
            RespValue::Array(vec![
                RespValue::SimpleString("[".to_string()),
                RespValue::Integer(1),
                RespValue::BulkString("x".to_string()),
            ]),
        ])
    );
    assert_eq!(resp_serialize(&JsonValue::Bool(false)), RespValue::SimpleString("false".to_string()));
    let bits = 2.5f64.to_bits();
    assert_eq!(resp_serialize(&JsonValue::Float(bits)), RespValue::Float(bits));
}

#[test]
fn compact_output_parses_back() {
    let mut f = RedisJsonFormatter::new(None, None, None);
    let mut out: Vec<u8> = Vec::new();
    f.begin_object(&mut out);
    f.begin_object_key(&mut out, true);
    out.extend_from_slice(b"\"a\"");
    f.begin_object_value(&mut out);
    f.begin_array(&mut out);
    f.begin_array_value(&mut out, true);
    out.push(b'1');
    f.end_array_value(&mut out);
    f.begin_array_value(&mut out, false);
    out.push(b'2');
    f.end_array_value(&mut out);
    f.end_array(&mut out);
    f.end_object_value(&mut out);
    f.end_object(&mut out);
    let text = String::from_utf8(out).unwrap();
    assert_eq!(text, "{\"a\":[1,2]}");
    assert!(!text.chars().any(|c| c.is_whitespace()));
    let parsed: serde_json::Value = serde_json::from_str(&text).unwrap();
    assert_eq!(serde_json::to_string(&parsed).unwrap(), text);
}

#[test]
fn type_and_length_reads() {
    let doc = JsonValue::Object(vec![
        ("a".to_string(), ints(&[1, 2, 3])),
        ("s".to_string(), JsonValue::Str("héllo".to_string())),
    ]);
    assert_eq!(json_type(&doc, "$".to_string()), Ok(Some(JsonKind::Object)));
    assert_eq!(json_type(&doc, ".a[1]".to_string()), Ok(Some(JsonKind::Integer)));
    assert_eq!(json_type(&doc, "$.b".to_string()), Ok(None));
    assert_eq!(json_type(&doc, "$[".to_string()), Err(JsonError::Parse));
    assert_eq!(json_len(&doc, "$.a".to_string(), JsonKind::Array), Ok(Some(3)));
    assert_eq!(json_len(&doc, "s".to_string(), JsonKind::Str), Ok(Some(6)));
    assert_eq!(json_len(&doc, ".".to_string(), JsonKind::Object), Ok(Some(2)));
    assert_eq!(json_len(&doc, "$.zz".to_string(), JsonKind::Array), Ok(None));
    assert_eq!(
        json_len(&doc, "$.s".to_string(), JsonKind::Array),
        Err(JsonError::TypeMismatch { expected: JsonKind::Array, found: JsonKind::Str })
    );
}

#[test]
fn all_matches_in_document_order() {
    let doc = JsonValue::Object(vec![
        ("a".to_string(), ints(&[1, 2])),
        ("b".to_string(), JsonValue::Object(vec![("c".to_string(), ints(&[3]))])),
        ("d".to_string(), ints(&[4, 5, 6])),
    ]);
    let p = compile_path("$.*[-1]").unwrap();
    let found: Vec<JsonValue> = get_all(&doc, &p).into_iter().map(|v| match v {
        JsonValue::Int(i) => JsonValue::Int(*i),
        _ => JsonValue::Null,
    }).collect();
    assert_eq!(found, vec![JsonValue::Int(2), JsonValue::Int(6)]);
    let q = compile_path("$.*.*").unwrap();
    assert_eq!(get_all(&doc, &q).len(), 6);
    assert_eq!(get_all(&doc, &compile_path("$").unwrap()), vec![&doc]);
    assert!(get_all(&doc, &compile_path("$.zz").unwrap()).is_empty());
    let r = compile_path("$.d[*]").unwrap();
    let all = get_all(&doc, &r);
    assert_eq!(all, vec![&JsonValue::Int(4), &JsonValue::Int(5), &JsonValue::Int(6)]);
}
