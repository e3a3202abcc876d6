use vstd::prelude::*;
use crate::array_index::{insert_position, insert_position_spec, pop_position_spec, trim_range_spec};
use crate::locate::{
    child_pos, first_key_pos, get_at, get_path, has_key, lemma_first_key_pos, replaced, resolve_child,
    Selector,
};
use crate::ops::{
    do_json_arr_append, do_json_arr_insert, do_json_arr_pop, do_json_arr_trim,
    do_json_bool_toggle, do_json_clear, do_json_num_op, do_json_str_append, is_number, items_of,
    mismatch, num_op_error, num_op_int, NumOp, NumStep,
};
use crate::value::{all_well_formed, byte_len, keys_unique, well_formed, JsonError, JsonKind, JsonValue};

verus! {

/// A write applied to the value that a path locates.
#[derive(Debug, PartialEq)]
pub enum Edit {
    Toggle,
    NumIncrBy(JsonValue),
    NumMultBy(JsonValue),
    StrAppend(JsonValue),
    ArrAppend(Vec<JsonValue>),
    ArrInsert(i64, Vec<JsonValue>),
    ArrPop(i64),
    ArrTrim(i64, i64),
    Clear,
    /// Replaces the located value.
    Replace(JsonValue),
    /// Adds an entry at the end of the located object.
    AddMember(String, JsonValue),
}

/// What a successful write reports to its caller.
#[derive(Debug, PartialEq)]
pub enum Reply {
    /// The new boolean of a toggle.
    Bool(bool),
    /// The outcome of a numeric update.
    Num(NumStep),
    /// The new length of a string or an array.
    Len(usize),
    /// The element removed by a pop; `None` for an empty array.
    Popped(Option<JsonValue>),
    /// How many values a clear reset.
    Cleared(usize),
    /// The located value was replaced or extended.
    Stored,
}

/// The error with which `e` fails on the value `t`, if it fails.
pub open spec fn edit_error(e: Edit, t: JsonValue) -> Option<JsonError> {
    match e {
        Edit::Toggle => if t is Bool { None } else { Some(mismatch(JsonKind::Boolean, t)) },
        Edit::NumIncrBy(o) => num_op_error(t, o),
        Edit::NumMultBy(o) => num_op_error(t, o),
        Edit::StrAppend(o) => if !(t is Str) {
            Some(mismatch(JsonKind::Str, t))
        } else if !(o is Str) {
            Some(mismatch(JsonKind::Str, o))
        } else {
            None
        },
        Edit::ArrInsert(i, _) => if !(t is Array) {
            Some(mismatch(JsonKind::Array, t))
        } else if insert_position_spec(i as int, items_of(t).len() as int) is None {
            Some(JsonError::IndexOutOfBounds)
        } else {
            None
        },
        Edit::ArrAppend(_) | Edit::ArrPop(_) | Edit::ArrTrim(_, _) => if t is Array {
            None
        } else {
            Some(mismatch(JsonKind::Array, t))
        },
        Edit::Clear => None,
        Edit::Replace(_) => None,
        Edit::AddMember(_, _) => if t is Object {
            None
        } else {
            Some(mismatch(JsonKind::Object, t))
        },
    }
}

pub open spec fn num_applied(op: NumOp, o: JsonValue, before: JsonValue, after: JsonValue, reply: Reply) -> bool {
    match num_op_int(op, before, o) {
        Some(n) => after == JsonValue::Int(n) && reply == Reply::Num(NumStep::Int(n)),
        None => after == before && reply == Reply::Num(NumStep::Widen),
    }
}

/// `e`, applied without error to `before`, gives `after` and reports `reply`.
pub open spec fn applied(e: Edit, before: JsonValue, after: JsonValue, reply: Reply) -> bool {
    match e {
        Edit::Toggle => after == JsonValue::Bool(!before->Bool_0) && reply == Reply::Bool(
            !before->Bool_0,
        ),
        Edit::NumIncrBy(o) => num_applied(NumOp::Add, o, before, after, reply),
        Edit::NumMultBy(o) => num_applied(NumOp::Mul, o, before, after, reply),
        Edit::StrAppend(o) => after is Str && after->Str_0@ == before->Str_0@ + o->Str_0@ && reply
            == Reply::Len(byte_len(after->Str_0@) as usize),
        Edit::ArrAppend(items) => after is Array && items_of(after) == items_of(before) + items@
            && reply == Reply::Len(items_of(after).len() as usize),
        Edit::ArrInsert(i, items) => {
            let a = items_of(before);
            let p = insert_position_spec(i as int, a.len() as int)->Some_0;
            &&& after is Array
            &&& items_of(after) == a.subrange(0, p) + items@ + a.subrange(p, a.len() as int)
            &&& reply == Reply::Len(items_of(after).len() as usize)
        },
        Edit::ArrPop(i) => {
            let a = items_of(before);
            if a.len() == 0 {
                after == before && reply == Reply::Popped(None)
            } else {
                let p = pop_position_spec(i as int, a.len() as int);
                after is Array && items_of(after) == a.remove(p) && reply == Reply::Popped(
                    Some(a[p]),
                )
            }
        },
        Edit::ArrTrim(start, stop) => {
            let range = trim_range_spec(start as int, stop as int, items_of(before).len() as int);
            &&& after is Array
            &&& items_of(after) == items_of(before).subrange(range.0, range.1)
            &&& reply == Reply::Len((range.1 - range.0) as usize)
        },
        Edit::Clear => match before {
            JsonValue::Array(_) => after is Array && items_of(after).len() == 0 && reply
                == Reply::Cleared(1),
            JsonValue::Object(_) => after is Object && after->Object_0@.len() == 0 && reply
                == Reply::Cleared(1),
            JsonValue::Int(_) => after == JsonValue::Int(0) && reply == Reply::Cleared(1),
            JsonValue::Float(_) => after == JsonValue::Float(0) && reply == Reply::Cleared(1),
            _ => after == before && reply == Reply::Cleared(0),
        },
        Edit::Replace(v) => after == v && reply == Reply::Stored,
        Edit::AddMember(k, v) => after is Object && after->Object_0@.len() == before->Object_0@.len()
            + 1 && after->Object_0@.drop_last() == before->Object_0@ && after->Object_0@.last().0@
            == k@ && after->Object_0@.last().1 == v && reply == Reply::Stored,
    }
}

/// An increment whose target holds a string fails with a type mismatch that
/// names a number as expected and a string as found; by the contract of
/// `value_op` the document is then left exactly as it was.
pub proof fn lemma_increment_on_string_fails(s: String, operand: JsonValue)
    ensures
        edit_error(Edit::NumIncrBy(operand), JsonValue::Str(s)) == Some(
            JsonError::TypeMismatch { expected: JsonKind::Number, found: JsonKind::Str },
        ),
{
}

/// The values that `e` brings into the target `t` are well formed, and an
/// added member has a key that `t` does not hold yet.
pub open spec fn payload_fits(e: Edit, t: JsonValue) -> bool {
    match e {
        Edit::ArrAppend(items) => all_well_formed(items@),
        Edit::ArrInsert(_, items) => all_well_formed(items@),
        Edit::Replace(v) => well_formed(v),
        Edit::AddMember(k, v) => well_formed(v) && forall|j: int|
            0 <= j < t->Object_0@.len() ==> #[trigger] t->Object_0@[j].0@ != k@,
        _ => true,
    }
}

/// An edit that fits its target keeps a well-formed target well formed.
pub proof fn lemma_applied_well_formed(e: Edit, before: JsonValue, after: JsonValue, reply: Reply)
    requires
        well_formed(before),
        payload_fits(e, before),
        edit_error(e, before) is None,
        applied(e, before, after, reply),
    ensures
        well_formed(after),
{
    match e {
        Edit::ArrAppend(items) => {
            let a = items_of(before);
            assert forall|i: int| 0 <= i < items_of(after).len() implies well_formed(
                #[trigger] items_of(after)[i],
            ) by {
                if i < a.len() {
                    assert(items_of(after)[i] == a[i]);
                } else {
                    assert(items_of(after)[i] == items@[i - a.len()]);
                }
            }
        },
        Edit::ArrInsert(idx, items) => {
            let a = items_of(before);
            let p = insert_position_spec(idx as int, a.len() as int)->Some_0;
            assert forall|i: int| 0 <= i < items_of(after).len() implies well_formed(
                #[trigger] items_of(after)[i],
            ) by {
                if i < p {
                    assert(items_of(after)[i] == a[i]);
                } else if i < p + items@.len() {
                    assert(items_of(after)[i] == items@[i - p]);
                } else {
                    assert(items_of(after)[i] == a[i - items@.len()]);
                }
            }
        },
        Edit::ArrPop(idx) => {
            let a = items_of(before);
            if a.len() > 0 {
                let p = pop_position_spec(idx as int, a.len() as int);
                assert forall|i: int| 0 <= i < items_of(after).len() implies well_formed(
                    #[trigger] items_of(after)[i],
                ) by {
                    if i < p {
                        assert(items_of(after)[i] == a[i]);
                    } else {
                        assert(items_of(after)[i] == a[i + 1]);
                    }
                }
            }
        },
        Edit::ArrTrim(start, stop) => {
            let a = items_of(before);
            let range = trim_range_spec(start as int, stop as int, a.len() as int);
            assert forall|i: int| 0 <= i < items_of(after).len() implies well_formed(
                #[trigger] items_of(after)[i],
            ) by {
                assert(items_of(after)[i] == a[range.0 + i]);
            }
        },
        Edit::AddMember(k, v) => {
            let o = before->Object_0@;
            let n = after->Object_0@;
            assert forall|i: int, j: int| 0 <= i < j < n.len() implies #[trigger] n[i].0@
                != #[trigger] n[j].0@ by {
                if j < o.len() {
                    assert(n[i] == n.drop_last()[i]);
                    assert(n[j] == n.drop_last()[j]);
                } else {
                    assert(n[i] == n.drop_last()[i]);
                    assert(o[i].0@ != k@);
                }
            }
            assert forall|i: int| 0 <= i < n.len() implies well_formed(#[trigger] n[i].1) by {
                if i < o.len() {
                    assert(n[i] == n.drop_last()[i]);
                }
            }
        },
        _ => {},
    }
}

/// Replacing the located value of a well-formed document by a well-formed
/// value gives a well-formed document.
pub proof fn lemma_replaced_well_formed(before: JsonValue, after: JsonValue, path: Seq<Selector>, t: JsonValue)
    requires
        well_formed(before),
        well_formed(t),
        replaced(before, after, path, t),
    ensures
        well_formed(after),
    decreases path.len(),
{
    if path.len() > 0 {
        let p = child_pos(before, path[0])->Some_0;
        match (before, after) {
            (JsonValue::Array(a), JsonValue::Array(b)) => {
                lemma_replaced_well_formed(a@[p], b@[p], path.drop_first(), t);
                assert forall|i: int| 0 <= i < b@.len() implies well_formed(#[trigger] b@[i]) by {
                    if i != p {
                        assert(b@[i] == a@[i]);
                    }
                }
            },
            (JsonValue::Object(a), JsonValue::Object(b)) => {
                lemma_replaced_well_formed(a@[p].1, b@[p].1, path.drop_first(), t);
                assert(keys_unique(a@));
                assert forall|i: int, j: int| 0 <= i < j < b@.len() implies #[trigger] b@[i].0@
                    != #[trigger] b@[j].0@ by {
                    assert(b@[i].0 == a@[i].0);
                    assert(b@[j].0 == a@[j].0);
                }
                assert forall|i: int| 0 <= i < b@.len() implies well_formed(#[trigger] b@[i].1) by {
                    if i != p {
                        assert(b@[i] == a@[i]);
                    }
                }
            },
            _ => {},
        }
    }
}

/// A value located in a well-formed document is well formed.
pub proof fn lemma_get_at_well_formed(v: JsonValue, path: Seq<Selector>)
    requires
        well_formed(v),
        get_at(v, path) is Some,
    ensures
        well_formed(get_at(v, path)->Some_0),
    decreases path.len(),
{
    if path.len() > 0 {
        let p = child_pos(v, path[0])->Some_0;
        lemma_get_at_well_formed(crate::locate::child_at(v, p), path.drop_first());
    }
}

/// Tells, without changing anything, whether `e` would fail on `t`.
pub fn check_edit(e: &Edit, t: &JsonValue) -> (r: Option<JsonError>)
    ensures
        r == edit_error(*e, *t),
{
    let is_num = |v: &JsonValue| -> (b: bool)
        ensures
            b == is_number(*v),
        { matches!(v, JsonValue::Int(_) | JsonValue::Float(_)) };
    match e {
        Edit::Toggle => if matches!(t, JsonValue::Bool(_)) {
            None
        } else {
            Some(JsonError::TypeMismatch { expected: JsonKind::Boolean, found: t.kind() })
        },
        Edit::NumIncrBy(o) | Edit::NumMultBy(o) => if !is_num(t) {
            Some(JsonError::TypeMismatch { expected: JsonKind::Number, found: t.kind() })
        } else if !is_num(o) {
            Some(JsonError::TypeMismatch { expected: JsonKind::Number, found: o.kind() })
        } else {
            None
        },
        Edit::StrAppend(o) => if !matches!(t, JsonValue::Str(_)) {
            Some(JsonError::TypeMismatch { expected: JsonKind::Str, found: t.kind() })
        } else if !matches!(o, JsonValue::Str(_)) {
            Some(JsonError::TypeMismatch { expected: JsonKind::Str, found: o.kind() })
        } else {
            None
        },
        Edit::ArrInsert(i, _) => match t {
            JsonValue::Array(a) => if insert_position(*i, a.len()).is_none() {
                Some(JsonError::IndexOutOfBounds)
            } else {
                None
            },
            _ => Some(JsonError::TypeMismatch { expected: JsonKind::Array, found: t.kind() }),
        },
        Edit::ArrAppend(_) | Edit::ArrPop(_) | Edit::ArrTrim(_, _) => if t.is_array() {
            None
        } else {
            Some(JsonError::TypeMismatch { expected: JsonKind::Array, found: t.kind() })
        },
        Edit::Clear => None,
        Edit::Replace(_) => None,
        Edit::AddMember(_, _) => if t.is_object() {
            None
        } else {
            Some(JsonError::TypeMismatch { expected: JsonKind::Object, found: t.kind() })
        },
    }
}

/// Applies `e` to `t`, on which it does not fail.
pub fn apply_edit(e: Edit, t: &mut JsonValue) -> (r: Reply)
    requires
        edit_error(e, *old(t)) is None,
    ensures
        applied(e, *old(t), *final(t), r),
{
    match e {
        Edit::Toggle => Reply::Bool(do_json_bool_toggle(t).unwrap()),
        Edit::NumIncrBy(o) => Reply::Num(do_json_num_op(&o, t, NumOp::Add).unwrap()),
        Edit::NumMultBy(o) => Reply::Num(do_json_num_op(&o, t, NumOp::Mul).unwrap()),
        Edit::StrAppend(o) => Reply::Len(do_json_str_append(&o, t).unwrap()),
        Edit::ArrAppend(items) => Reply::Len(do_json_arr_append(items, t).unwrap()),
        Edit::ArrInsert(i, items) => Reply::Len(do_json_arr_insert(items, i, t).unwrap()),
        Edit::ArrPop(i) => Reply::Popped(do_json_arr_pop(i, t).unwrap()),
        Edit::ArrTrim(start, stop) => Reply::Len(do_json_arr_trim(start, stop, t).unwrap()),
        Edit::Clear => Reply::Cleared(do_json_clear(t)),
        Edit::Replace(v) => {
            *t = v;
            Reply::Stored
        },
        Edit::AddMember(k, v) => {
            let cur = t.take();
            match cur {
                JsonValue::Object(mut o) => {
                    let ghost before = o@;
                    o.push((k, v));
                    proof {
                        assert(o@.drop_last() =~= before);
                    }
                    *t = JsonValue::Object(o);
                },
                other => {
                    *t = other;
                },
            }
            Reply::Stored
        },
    }
}

/// Applies `e` to the value that the selectors of `path` from position `k` on
/// locate, which exists and on which `e` does not fail, and puts the result
/// back in its place.
#[verifier::rlimit(50)]
fn apply_at(v: &mut JsonValue, path: &Vec<Selector>, k: usize, e: Edit) -> (r: Reply)
    requires
        k <= path@.len(),
        get_at(*old(v), path@.subrange(k as int, path@.len() as int)) matches Some(t) && edit_error(
            e,
            t,
        ) is None,
    ensures
        get_at(*final(v), path@.subrange(k as int, path@.len() as int)) matches Some(t2) && replaced(
            *old(v),
            *final(v),
            path@.subrange(k as int, path@.len() as int),
            t2,
        ) && applied(
            e,
            get_at(*old(v), path@.subrange(k as int, path@.len() as int))->Some_0,
            t2,
            r,
        ),
    decreases path@.len() - k,
{
    let ghost sub = path@.subrange(k as int, path@.len() as int);
    if k == path.len() {
        return apply_edit(e, v);
    }
    proof {
        assert(sub[0] == path@[k as int]);
        assert(sub.drop_first() =~= path@.subrange(k + 1, path@.len() as int));
    }
    let p = match resolve_child(v, &path[k]) {
        Some(p) => p,
        None => return Reply::Cleared(0),
    };
    let cur = v.take();
    match cur {
        JsonValue::Array(mut a) => {
            let ghost a0 = a@;
            let mut child = a.remove(p);
            let r = apply_at(&mut child, path, k + 1, e);
            a.insert(p, child);
            proof {
                assert(a@.len() == a0.len());
                assert(a@[p as int] == child);
                assert(forall|j: int| 0 <= j < a0.len() && j != p ==> a@[j] == a0[j]);
            }
            *v = JsonValue::Array(a);
            r
        },
        JsonValue::Object(mut o) => {
            let ghost o0 = o@;
            let (key, mut child) = o.remove(p);
            let r = apply_at(&mut child, path, k + 1, e);
            o.insert(p, (key, child));
            proof {
                assert(o@.len() == o0.len());
                assert(forall|j: int| 0 <= j < o0.len() && j != p ==> o@[j] == o0[j]);
                assert(o@[p as int].0 == o0[p as int].0);
                if path@[k as int] is Member {
                    let name = path@[k as int]->Member_0@;
                    assert(old(v)->Object_0@ == o0);
                    assert(has_key(*old(v), name));
                    assert(first_key_pos(o0, name) == p);
                    assert(forall|j: int| 0 <= j < o0.len() ==> o@[j].0@ == o0[j].0@);
                    lemma_first_key_pos(o@, name, p as int);
                    let after = JsonValue::Object(o);
                    assert(after->Object_0@ == o@);
                    assert(after->Object_0@[p as int].0@ == name);
                    assert(has_key(after, name));
                }
            }
            *v = JsonValue::Object(o);
            r
        },
        other => {
            *v = other;
            Reply::Cleared(0)
        },
    }
}

/// Locates the first match of `path` in `doc`, applies `e` to it and puts the
/// result back in its place. A path that locates nothing fails with
/// `PathNotFound`; an edit that fails on the located value reports its error.
/// Either way the document is left exactly as it was.
pub fn value_op(doc: &mut JsonValue, path: &Vec<Selector>, e: Edit) -> (r: Result<Reply, JsonError>)
    ensures
        r is Err ==> *final(doc) == *old(doc),
        well_formed(*old(doc)) && (get_at(*old(doc), path@) matches Some(t) ==> payload_fits(e, t))
            ==> well_formed(*final(doc)),
        get_at(*old(doc), path@) is None ==> r == Err::<Reply, JsonError>(JsonError::PathNotFound),
        get_at(*old(doc), path@) matches Some(t) ==> match edit_error(e, t) {
            Some(err) => r == Err::<Reply, JsonError>(err),
            None => r matches Ok(reply) && get_at(*final(doc), path@) matches Some(t2) && replaced(
                *old(doc),
                *final(doc),
                path@,
                t2,
            ) && applied(e, t, t2, reply),
        },
{
    let found = match get_path(doc, path) {
        Some(t) => check_edit(&e, t),
        None => return Err(JsonError::PathNotFound),
    };
    if let Some(err) = found {
        return Err(err);
    }
    proof {
        assert(path@.subrange(0, path@.len() as int) =~= path@);
    }
    let ghost edit = e;
    let reply = apply_at(doc, path, 0, e);
    proof {
        let t = get_at(*old(doc), path@)->Some_0;
        let t2 = get_at(*doc, path@)->Some_0;
        if well_formed(*old(doc)) && payload_fits(edit, t) {
            lemma_get_at_well_formed(*old(doc), path@);
            lemma_applied_well_formed(edit, t, t2, reply);
            lemma_replaced_well_formed(*old(doc), *doc, path@, t2);
        }
    }
    Ok(reply)
}

} // verus!
