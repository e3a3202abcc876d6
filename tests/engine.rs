use rejson::array_index::{insert_position, normalize, pop_position, trim_range};
use rejson::formatter::RedisJsonFormatter;
use rejson::locate::{get_path, Selector};
use rejson::mutate::{value_op, Edit, Reply};
use rejson::ops::{
    do_json_arr_append, do_json_arr_insert, do_json_arr_pop, do_json_arr_trim,
    do_json_bool_toggle, do_json_clear, do_json_num_op, do_json_str_append, NumOp, NumStep,
};
use rejson::path::{backwards_compat_path, max_strlen};
use rejson::value::{JsonError, JsonKind, JsonValue};

fn ints(v: &[i64]) -> JsonValue {
    JsonValue::Array(v.iter().map(|i| JsonValue::Int(*i)).collect())
}

fn s(x: &str) -> JsonValue {
    JsonValue::Str(x.to_string())
}

fn doc_a123() -> JsonValue {
    JsonValue::Object(vec![("a".to_string(), ints(&[1, 2, 3]))])
}

fn path_a() -> Vec<Selector> {
    vec![Selector::Member("a".to_string())]
}

#[test]
fn normalize_for_length_five() {
    assert_eq!(normalize(-1, 5), 4);
    assert_eq!(normalize(-6, 5), 0);
    assert_eq!(normalize(7, 5), 4);
    assert_eq!(pop_position(-1, 5), 4);
    assert_eq!(pop_position(-6, 5), 0);
    assert_eq!(insert_position(5, 5), Some(5));
    assert_eq!(insert_position(6, 5), None);
    assert_eq!(insert_position(-1, 5), Some(4));
    assert_eq!(insert_position(-6, 5), None);
}

#[test]
fn trim_ranges() {
    assert_eq!(trim_range(1, 3, 5), (1, 4));
    assert_eq!(trim_range(10, 20, 5), (0, 0));
    assert_eq!(trim_range(3, 1, 5), (0, 0));
    assert_eq!(trim_range(0, 0, 0), (0, 0));
    assert_eq!(trim_range(-2, -1, 5), (3, 5));
    assert_eq!(trim_range(5, 10, 5), (0, 0));
    assert_eq!(trim_range(4, 10, 5), (4, 5));
}

#[test]
fn trim_array() {
    let mut v = ints(&[0, 1, 2, 3, 4]);
    assert_eq!(do_json_arr_trim(1, 3, &mut v), Ok(3));
    assert_eq!(v, ints(&[1, 2, 3]));
    let mut w = ints(&[0, 1, 2, 3, 4]);
    assert_eq!(do_json_arr_trim(10, 20, &mut w), Ok(0));
    assert_eq!(w, ints(&[]));
}

#[test]
fn pop_array() {
    let mut v = ints(&[1, 2, 3]);
    assert_eq!(do_json_arr_pop(-1, &mut v), Ok(Some(JsonValue::Int(3))));
    assert_eq!(v, ints(&[1, 2]));
    let mut e = ints(&[]);
    assert_eq!(do_json_arr_pop(-1, &mut e), Ok(None));
    assert_eq!(e, ints(&[]));
    let mut f = ints(&[1, 2, 3]);
    assert_eq!(do_json_arr_pop(100, &mut f), Ok(Some(JsonValue::Int(3))));
    let mut g = JsonValue::Null;
    assert_eq!(
        do_json_arr_pop(0, &mut g),
        Err(JsonError::TypeMismatch { expected: JsonKind::Array, found: JsonKind::Null })
    );
}

#[test]
fn insert_into_array() {
    let mut v = ints(&[1, 4]);
    assert_eq!(do_json_arr_insert(vec![JsonValue::Int(2), JsonValue::Int(3)], 1, &mut v), Ok(4));
    assert_eq!(v, ints(&[1, 2, 3, 4]));
    let mut w = ints(&[1, 2]);
    assert_eq!(do_json_arr_insert(vec![JsonValue::Int(9)], -1, &mut w), Ok(3));
    assert_eq!(w, ints(&[1, 9, 2]));
    let mut x = ints(&[1, 2]);
    assert_eq!(do_json_arr_insert(vec![JsonValue::Int(9)], 3, &mut x), Err(JsonError::IndexOutOfBounds));
    assert_eq!(x, ints(&[1, 2]));
}

#[test]
fn append_to_array() {
    let mut v = ints(&[1]);
    assert_eq!(do_json_arr_append(vec![JsonValue::Int(2)], &mut v), Ok(2));
    assert_eq!(v, ints(&[1, 2]));
    let mut o = JsonValue::Bool(true);
    assert_eq!(
        do_json_arr_append(vec![JsonValue::Int(2)], &mut o),
        Err(JsonError::TypeMismatch { expected: JsonKind::Array, found: JsonKind::Boolean })
    );
}

#[test]
fn numeric_updates() {
    let mut v = JsonValue::Int(5);
    assert_eq!(do_json_num_op(&JsonValue::Int(3), &mut v, NumOp::Add), Ok(NumStep::Int(8)));
    assert_eq!(v, JsonValue::Int(8));
    assert_eq!(do_json_num_op(&JsonValue::Int(-2), &mut v, NumOp::Mul), Ok(NumStep::Int(-16)));
    let mut big = JsonValue::Int(i64::MAX);
    assert_eq!(do_json_num_op(&JsonValue::Int(1), &mut big, NumOp::Add), Ok(NumStep::Widen));
    assert_eq!(big, JsonValue::Int(i64::MAX));
    let mut f = JsonValue::Float(1.5f64.to_bits());
    assert_eq!(do_json_num_op(&JsonValue::Int(1), &mut f, NumOp::Add), Ok(NumStep::Widen));
    let mut t = s("x");
    assert_eq!(
        do_json_num_op(&JsonValue::Int(1), &mut t, NumOp::Add),
        Err(JsonError::TypeMismatch { expected: JsonKind::Number, found: JsonKind::Str })
    );
    let mut n = JsonValue::Int(1);
    assert_eq!(
        do_json_num_op(&s("1"), &mut n, NumOp::Add),
        Err(JsonError::TypeMismatch { expected: JsonKind::Number, found: JsonKind::Str })
    );
}

#[test]
fn toggle_and_strings() {
    let mut b = JsonValue::Bool(false);
    assert_eq!(do_json_bool_toggle(&mut b), Ok(true));
    assert_eq!(b, JsonValue::Bool(true));
    let mut x = s("ab");
    assert_eq!(do_json_str_append(&s("cd"), &mut x), Ok(4));
    assert_eq!(x, s("abcd"));
    let mut y = s("é");
    assert_eq!(do_json_str_append(&s("é"), &mut y), Ok(4));
    assert_eq!(
        do_json_str_append(&JsonValue::Int(1), &mut x),
        Err(JsonError::TypeMismatch { expected: JsonKind::Str, found: JsonKind::Integer })
    );
    assert_eq!(x, s("abcd"));
}

#[test]
fn clear_values() {
    let mut a = ints(&[1, 2]);
    assert_eq!(do_json_clear(&mut a), 1);
    assert_eq!(a, ints(&[]));
    let mut n = JsonValue::Int(7);
    assert_eq!(do_json_clear(&mut n), 1);
    assert_eq!(n, JsonValue::Int(0));
    let mut t = s("q");
    assert_eq!(do_json_clear(&mut t), 0);
    assert_eq!(t, s("q"));
}

#[test]
fn incr_on_string_leaves_document() {
    let mut doc = JsonValue::Object(vec![("s".to_string(), s("text"))]);
    let before = format!("{:?}", doc);
    let r = value_op(&mut doc, &vec![Selector::Member("s".to_string())], Edit::NumIncrBy(JsonValue::Int(1)));
    assert_eq!(r, Err(JsonError::TypeMismatch { expected: JsonKind::Number, found: JsonKind::Str }));
    assert_eq!(format!("{:?}", doc), before);
}

#[test]
fn append_then_toggle_end_to_end() {
    let mut doc = doc_a123();
    let r = value_op(&mut doc, &path_a(), Edit::ArrAppend(vec![JsonValue::Int(4)]));
    assert_eq!(r, Ok(Reply::Len(4)));
    assert_eq!(doc, JsonValue::Object(vec![("a".to_string(), ints(&[1, 2, 3, 4]))]));
    let p = vec![Selector::Member("a".to_string()), Selector::Index(0)];
    let r2 = value_op(&mut doc, &p, Edit::Toggle);
    assert_eq!(r2, Err(JsonError::TypeMismatch { expected: JsonKind::Boolean, found: JsonKind::Integer }));
    assert_eq!(doc, JsonValue::Object(vec![("a".to_string(), ints(&[1, 2, 3, 4]))]));
}

#[test]
fn missing_path_and_wildcard() {
    let mut doc = doc_a123();
    let r = value_op(&mut doc, &vec![Selector::Member("b".to_string())], Edit::Clear);
    assert_eq!(r, Err(JsonError::PathNotFound));
    assert_eq!(doc, doc_a123());
    let p = vec![Selector::Wildcard, Selector::Index(-1)];
    assert_eq!(get_path(&doc, &p), Some(&JsonValue::Int(3)));
    let r2 = value_op(&mut doc, &p, Edit::NumMultBy(JsonValue::Int(10)));
    assert_eq!(r2, Ok(Reply::Num(NumStep::Int(30))));
    assert_eq!(doc, JsonValue::Object(vec![("a".to_string(), ints(&[1, 2, 30]))]));
    let r3 = value_op(&mut doc, &vec![], Edit::ArrPop(0));
    assert_eq!(r3, Err(JsonError::TypeMismatch { expected: JsonKind::Array, found: JsonKind::Object }));
}

#[test]
fn legacy_paths() {
    assert_eq!(backwards_compat_path("$.a".to_string()), "$.a");
    assert_eq!(backwards_compat_path(".".to_string()), "$");
    assert_eq!(backwards_compat_path(".a.b".to_string()), "$.a.b");
    assert_eq!(backwards_compat_path("a".to_string()), "$.a");
    assert_eq!(backwards_compat_path("".to_string()), "$.");
}

#[test]
fn longest_name() {
    assert_eq!(max_strlen(&["NOESCAPE", "INDENT", "NEWLINE", "SPACE", "FORMAT"]), 8);
    assert_eq!(max_strlen(&[]), 0);
    assert_eq!(max_strlen(&["é"]), 2);
}

#[test]
fn formatter_layout() {
    let mut f = RedisJsonFormatter::new(Some("  "), Some(" "), Some("\n"));
    let mut out: Vec<u8> = Vec::new();
    f.begin_object(&mut out);
    f.begin_object_key(&mut out, true);
    out.extend_from_slice(b"\"a\"");
    f.begin_object_value(&mut out);
    f.begin_array(&mut out);
    f.end_array(&mut out);
    f.end_object_value(&mut out);
    f.end_object(&mut out);
    assert_eq!(String::from_utf8(out).unwrap(), "{\n  \"a\": []\n}");
}

#[test]
fn formatter_compact() {
    let mut f = RedisJsonFormatter::new(None, None, None);
    let mut out: Vec<u8> = Vec::new();
    f.begin_array(&mut out);
    f.begin_array_value(&mut out, true);
    out.push(b'1');
    f.end_array_value(&mut out);
    f.begin_array_value(&mut out, false);
    out.push(b'2');
    f.end_array_value(&mut out);
    f.end_array(&mut out);
    assert_eq!(String::from_utf8(out).unwrap(), "[1,2]");
}
