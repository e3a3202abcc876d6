use vstd::prelude::*;
use crate::compile::{compile_path, compiled, steps_of, Step};
use crate::locate::{child_pos, get_at, get_path, lemma_get_at_last, lemma_no_key, replaced, Selector};
use crate::mutate::{applied, edit_error, payload_fits, value_op, Edit, Reply};
use crate::path::{backwards_compat_path, normalized_path};
use crate::ops::mismatch;
use crate::value::{byte_len, kind_of, well_formed, JsonError, JsonKind, JsonValue};

verus! {

/// What `value_op` promises for the selectors `path`.
pub open spec fn value_op_outcome(
    before: JsonValue,
    after: JsonValue,
    path: Seq<Selector>,
    e: Edit,
    r: Result<Reply, JsonError>,
) -> bool {
    &&& well_formed(before) && (get_at(before, path) matches Some(t) ==> payload_fits(e, t))
        ==> well_formed(after)
    &&& get_at(before, path) is None ==> r == Err::<Reply, JsonError>(JsonError::PathNotFound)
    &&& get_at(before, path) matches Some(t) ==> match edit_error(e, t) {
        Some(err) => r == Err::<Reply, JsonError>(err),
        None => r matches Ok(reply) && get_at(after, path) matches Some(t2) && replaced(
            before,
            after,
            path,
            t2,
        ) && applied(e, t, t2, reply),
    }
}

/// Runs a write command on `doc` at a path given as text, in either the
/// `$`-anchored or the legacy syntax. A malformed path fails with `Parse`;
/// otherwise the write behaves as `value_op` on the compiled selectors. On any
/// error the document is left exactly as it was.
pub fn json_value_op(doc: &mut JsonValue, path: String, e: Edit) -> (r: Result<Reply, JsonError>)
    ensures
        r is Err ==> *final(doc) == *old(doc),
        compiled(normalized_path(path@)) is None ==> r == Err::<Reply, JsonError>(JsonError::Parse),
        compiled(normalized_path(path@)) matches Some(st) ==> exists|sel: Seq<Selector>|
            steps_of(sel) == st && value_op_outcome(*old(doc), *final(doc), sel, e, r),
{
    let sel = match compile_text(path) {
        Ok(sel) => sel,
        Err(err) => return Err(err),
    };
    let r = value_op(doc, &sel, e);
    proof {
        assert(steps_of(sel@) == compiled(normalized_path(path@))->Some_0);
        assert(value_op_outcome(*old(doc), *doc, sel@, e, r));
    }
    r
}

/// The number of bytes, elements or entries of a string, array or
/// object; `None` for any other kind.
pub open spec fn size_of(v: JsonValue) -> Option<nat> {
    match v {
        JsonValue::Str(s) => Some(byte_len(s@)),
        JsonValue::Array(a) => Some(a@.len()),
        JsonValue::Object(o) => Some(o@.len()),
        _ => None,
    }
}

/// Compiles a path given as text, in either syntax.
fn compile_text(path: String) -> (r: Result<Vec<Selector>, JsonError>)
    ensures
        compiled(normalized_path(path@)) is None ==> r == Err::<Vec<Selector>, JsonError>(
            JsonError::Parse,
        ),
        compiled(normalized_path(path@)) matches Some(st) ==> r matches Ok(v) && steps_of(v@)
            == st,
{
    let full = backwards_compat_path(path);
    compile_path(full.as_str())
}

/// The kind of the value that a path given as text locates; `None` when it
/// locates nothing, `Parse` when the path is malformed.
pub fn json_type(doc: &JsonValue, path: String) -> (r: Result<Option<JsonKind>, JsonError>)
    ensures
        compiled(normalized_path(path@)) is None ==> r == Err::<Option<JsonKind>, JsonError>(
            JsonError::Parse,
        ),
        compiled(normalized_path(path@)) matches Some(st) ==> exists|sel: Seq<Selector>|
            steps_of(sel) == st && r == Ok::<Option<JsonKind>, JsonError>(
                match get_at(*doc, sel) {
                    Some(t) => Some(kind_of(t)),
                    None => None,
                },
            ),
{
    let sel = match compile_text(path) {
        Ok(sel) => sel,
        Err(err) => return Err(err),
    };
    let r = match get_path(doc, &sel) {
        Some(t) => Ok(Some(t.kind())),
        None => Ok(None),
    };
    proof {
        assert(steps_of(sel@) == compiled(normalized_path(path@))->Some_0);
    }
    r
}

/// The length of the string, array or object of kind `expected` that a path
/// given as text locates; `None` when it locates nothing, `Parse` when the
/// path is malformed, a type mismatch when the value has another kind.
pub fn json_len(doc: &JsonValue, path: String, expected: JsonKind) -> (r: Result<
    Option<usize>,
    JsonError,
>)
    requires
        expected == JsonKind::Str || expected == JsonKind::Array || expected == JsonKind::Object,
    ensures
        compiled(normalized_path(path@)) is None ==> r == Err::<Option<usize>, JsonError>(
            JsonError::Parse,
        ),
        compiled(normalized_path(path@)) matches Some(st) ==> exists|sel: Seq<Selector>|
            steps_of(sel) == st && r == match get_at(*doc, sel) {
                None => Ok::<Option<usize>, JsonError>(None),
                Some(t) => if kind_of(t) == expected {
                    Ok::<Option<usize>, JsonError>(Some(size_of(t)->Some_0 as usize))
                } else {
                    Err::<Option<usize>, JsonError>(mismatch(expected, t))
                },
            },
{
    let sel = match compile_text(path) {
        Ok(sel) => sel,
        Err(err) => return Err(err),
    };
    let r = match get_path(doc, &sel) {
        None => Ok(None),
        Some(t) => {
            let k = t.kind();
            if k != expected {
                Err(JsonError::TypeMismatch { expected, found: k })
            } else {
                match t {
                    JsonValue::Str(s) => Ok(Some(s.as_str().as_bytes().len())),
                    JsonValue::Array(a) => Ok(Some(a.len())),
                    JsonValue::Object(o) => Ok(Some(o.len())),
                    _ => Ok(None),
                }
            }
        },
    };
    proof {
        assert(steps_of(sel@) == compiled(normalized_path(path@))->Some_0);
    }
    r
}

/// When a set may store its value.
#[derive(PartialEq, Eq, Structural, Clone, Copy, Debug)]
pub enum SetOption {
    /// Create or replace.
    Any,
    /// Only replace a value that exists.
    RequireExists,
    /// Only create a value that does not exist yet.
    RequireNotExists,
}

/// What a set at the non-root selectors `sel` of the document `d` does: an
/// existing target is replaced unless the option forbids it; a missing member
/// of an existing object is added at its end unless the option needs an
/// existing target; anything else stores nothing.
pub open spec fn set_outcome(
    d: JsonValue,
    after: Option<JsonValue>,
    sel: Seq<Selector>,
    value: JsonValue,
    opt: SetOption,
    r: Result<bool, JsonError>,
) -> bool {
    match get_at(d, sel) {
        Some(_) => if opt == SetOption::RequireNotExists {
            r == Ok::<bool, JsonError>(false)
        } else {
            r == Ok::<bool, JsonError>(true) && after is Some && replaced(d, after->Some_0, sel, value)
        },
        None => {
            let parent = sel.drop_last();
            let p = get_at(d, parent)->Some_0;
            if opt != SetOption::RequireExists && sel.last() is Member && get_at(d, parent) is Some
                && p is Object {
                &&& r == Ok::<bool, JsonError>(true)
                &&& after is Some
                &&& get_at(after->Some_0, parent) is Some
                &&& replaced(d, after->Some_0, parent, get_at(after->Some_0, parent)->Some_0)
                &&& {
                    let p2 = get_at(after->Some_0, parent)->Some_0;
                    &&& p2 is Object
                    &&& p2->Object_0@.drop_last() == p->Object_0@
                    &&& p2->Object_0@.len() == p->Object_0@.len() + 1
                    &&& p2->Object_0@.last().0@ == sel.last()->Member_0@
                    &&& p2->Object_0@.last().1 == value
                }
            } else {
                r == Ok::<bool, JsonError>(false)
            }
        },
    }
}

/// Stores `value` at a path given as text, in either syntax, subject to
/// `opt`; returns whether it stored anything. A missing document can only be
/// created at the root path.
pub fn json_set(doc: &mut Option<JsonValue>, path: String, value: JsonValue, opt: SetOption) -> (r:
    Result<bool, JsonError>)
    ensures
        r is Err || r == Ok::<bool, JsonError>(false) ==> *final(doc) == *old(doc),
        (*old(doc) is Some ==> well_formed((*old(doc))->Some_0)) && well_formed(value) && (*final(doc)
            is Some) ==> well_formed((*final(doc))->Some_0),
        compiled(normalized_path(path@)) is None ==> r == Err::<bool, JsonError>(JsonError::Parse),
        compiled(normalized_path(path@)) == Some(Seq::<Step>::empty()) ==> match (*old(doc), opt) {
            (Some(_), SetOption::RequireNotExists) => r == Ok::<bool, JsonError>(false),
            (None, SetOption::RequireExists) => r == Ok::<bool, JsonError>(false),
            _ => r == Ok::<bool, JsonError>(true) && *final(doc) == Some(value),
        },
        compiled(normalized_path(path@)) matches Some(st) ==> (st.len() > 0 && *old(doc) is None
            ==> r == (if opt == SetOption::RequireExists {
            Ok::<bool, JsonError>(false)
        } else {
            Err::<bool, JsonError>(JsonError::NotAtRoot)
        })),
        compiled(normalized_path(path@)) matches Some(st) ==> (st.len() > 0 && *old(doc) is Some
            ==> exists|sel: Seq<Selector>|
            steps_of(sel) == st && set_outcome((*old(doc))->Some_0, *final(doc), sel, value, opt, r)),
{
    let sel = match compile_text(path) {
        Ok(sel) => sel,
        Err(err) => return Err(err),
    };
    let ghost full = sel@;
    proof {
        assert(steps_of(sel@) == compiled(normalized_path(path@))->Some_0);
        if sel@.len() == 0 {
            assert(steps_of(sel@) =~= Seq::<Step>::empty());
        }
        if sel@.len() > 0 {
            assert(steps_of(sel@).len() > 0);
        }
    }
    let cur = doc.take();
    let mut d = match cur {
        None => {
            if opt == SetOption::RequireExists {
                return Ok(false);
            }
            if sel.len() == 0 {
                *doc = Some(value);
                return Ok(true);
            }
            return Err(JsonError::NotAtRoot);
        },
        Some(d) => d,
    };
    if sel.len() == 0 {
        if opt == SetOption::RequireNotExists {
            *doc = Some(d);
            return Ok(false);
        }
        *doc = Some(value);
        return Ok(true);
    }
    let found = get_path(&d, &sel).is_some();
    if found {
        if opt == SetOption::RequireNotExists {
            *doc = Some(d);
            return Ok(false);
        }
        let _ = value_op(&mut d, &sel, Edit::Replace(value));
        *doc = Some(d);
        return Ok(true);
    }
    if opt == SetOption::RequireExists {
        *doc = Some(d);
        return Ok(false);
    }
    let mut parent = sel;
    let last = parent.pop();
    proof {
        assert(parent@ == full.drop_last());
    }
    let key = match last {
        Some(Selector::Member(k)) => k,
        _ => {
            *doc = Some(d);
            return Ok(false);
        },
    };
    let is_obj = match get_path(&d, &parent) {
        Some(p) => p.is_object(),
        None => false,
    };
    if !is_obj {
        *doc = Some(d);
        return Ok(false);
    }
    proof {
        lemma_get_at_last(d, full);
        let p = get_at(d, parent@)->Some_0;
        assert(child_pos(p, full.last()) is None);
        lemma_no_key(p, key@);
    }
    let _ = value_op(&mut d, &parent, Edit::AddMember(key, value));
    *doc = Some(d);
    Ok(true)
}

} // verus!
