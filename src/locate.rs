use vstd::prelude::*;
use crate::value::JsonValue;

verus! {

/// One step of a compiled path.
#[derive(Debug, PartialEq)]
pub enum Selector {
    /// The entry of an object with this key.
    Member(String),
    /// The element of an array at this index; a negative index counts from
    /// the end.
    Index(i64),
    /// Any child of an array or object; the first one in document order is
    /// the location that a write uses.
    Wildcard,
}

/// The number of children of a container (0 for a scalar).
pub open spec fn child_count(v: JsonValue) -> int {
    match v {
        JsonValue::Array(a) => a@.len() as int,
        JsonValue::Object(o) => o@.len() as int,
        _ => 0,
    }
}

/// The child of a container at position `p`.
pub open spec fn child_at(v: JsonValue, p: int) -> JsonValue {
    match v {
        JsonValue::Array(a) => a@[p],
        JsonValue::Object(o) => o@[p].1,
        _ => JsonValue::Null,
    }
}

/// Whether an object holds the key `k` (and so a first entry with it).
pub open spec fn has_key(v: JsonValue, k: Seq<char>) -> bool {
    v is Object && exists|i: int|
        0 <= i < v->Object_0@.len() && #[trigger] v->Object_0@[i].0@ == k && forall|j: int|
            0 <= j < i ==> v->Object_0@[j].0@ != k
}

/// Position of the first entry with key `k`, where there is one.
pub open spec fn first_key_pos(o: Seq<(String, JsonValue)>, k: Seq<char>) -> int {
    choose|i: int|
        0 <= i < o.len() && #[trigger] o[i].0@ == k && forall|j: int| 0 <= j < i ==> o[j].0@ != k
}

pub proof fn lemma_first_key_pos(o: Seq<(String, JsonValue)>, k: Seq<char>, i: int)
    requires
        0 <= i < o.len(),
        o[i].0@ == k,
        forall|j: int| 0 <= j < i ==> o[j].0@ != k,
    ensures
        first_key_pos(o, k) == i,
{
    assert(0 <= i < o.len() && o[i].0@ == k && forall|j: int| 0 <= j < i ==> o[j].0@ != k);
    let q = first_key_pos(o, k);
    if q < i {
        assert(o[q].0@ != k);
    } else if q > i {
        assert(o[i].0@ != k);
    }
}

/// Position of the first child that a selector matches, if any.
pub open spec fn child_pos(v: JsonValue, s: Selector) -> Option<int> {
    match s {
        Selector::Member(k) => if has_key(v, k@) {
            Some(first_key_pos(v->Object_0@, k@))
        } else {
            None
        },
        Selector::Index(i) => if v is Array {
            let len = v->Array_0@.len() as int;
            let p = if i < 0 { len + i } else { i as int };
            if 0 <= p < len { Some(p) } else { None }
        } else {
            None
        },
        Selector::Wildcard => if (v is Array || v is Object) && child_count(v) > 0 {
            Some(0)
        } else {
            None
        },
    }
}

/// The value that a path locates (its first match), if any.
pub open spec fn get_at(v: JsonValue, path: Seq<Selector>) -> Option<JsonValue>
    decreases path.len(),
{
    if path.len() == 0 {
        Some(v)
    } else {
        match child_pos(v, path[0]) {
            Some(p) => get_at(child_at(v, p), path.drop_first()),
            None => None,
        }
    }
}

/// `after` is `before` with the value that `path` locates replaced by `t`, and
/// nothing else changed.
pub open spec fn replaced(before: JsonValue, after: JsonValue, path: Seq<Selector>, t: JsonValue) -> bool
    decreases path.len(),
{
    if path.len() == 0 {
        after == t
    } else {
        match child_pos(before, path[0]) {
            None => false,
            Some(p) => match (before, after) {
                (JsonValue::Array(a), JsonValue::Array(b)) => {
                    &&& b@.len() == a@.len()
                    &&& forall|j: int| 0 <= j < a@.len() && j != p ==> b@[j] == a@[j]
                    &&& replaced(a@[p], b@[p], path.drop_first(), t)
                },
                (JsonValue::Object(a), JsonValue::Object(b)) => {
                    &&& b@.len() == a@.len()
                    &&& forall|j: int| 0 <= j < a@.len() && j != p ==> b@[j] == a@[j]
                    &&& b@[p].0 == a@[p].0
                    &&& replaced(a@[p].1, b@[p].1, path.drop_first(), t)
                },
                _ => false,
            },
        }
    }
}

/// Finds the first child that a selector matches.
pub fn resolve_child(v: &JsonValue, s: &Selector) -> (r: Option<usize>)
    ensures
        r matches Some(p) ==> child_pos(*v, *s) == Some(p as int),
        r is None ==> child_pos(*v, *s) is None,
{
    match s {
        Selector::Member(k) => match v {
            JsonValue::Object(o) => {
                let mut i: usize = 0;
                while i < o.len()
                    invariant
                        *v == JsonValue::Object(*o),
                        *s == Selector::Member(*k),
                        i <= o@.len(),
                        forall|j: int| 0 <= j < i ==> o@[j].0@ != k@,
                    decreases o@.len() - i,
                {
                    if o[i].0 == *k {
                        proof {
                            assert(v->Object_0@ == o@);
                            assert(v->Object_0@[i as int].0@ == k@);
                            assert(forall|j: int| 0 <= j < i ==> v->Object_0@[j].0@ != k@);
                            assert(has_key(*v, k@));
                            lemma_first_key_pos(o@, k@, i as int);
                        }
                        return Some(i);
                    }
                    i = i + 1;
                }
                None
            },
            _ => None,
        },
        Selector::Index(i) => match v {
            JsonValue::Array(a) => {
                let len = a.len() as i128;
                let p: i128 = if *i < 0 { len + *i as i128 } else { *i as i128 };
                if 0 <= p && p < len { Some(p as usize) } else { None }
            },
            _ => None,
        },
        Selector::Wildcard => match v {
            JsonValue::Array(a) => if a.len() > 0 { Some(0) } else { None },
            JsonValue::Object(o) => if o.len() > 0 { Some(0) } else { None },
            _ => None,
        },
    }
}

/// Locating by a path is locating by all but its last selector, then taking
/// one step by the last.
pub proof fn lemma_get_at_last(v: JsonValue, path: Seq<Selector>)
    requires
        path.len() > 0,
    ensures
        get_at(v, path) == match get_at(v, path.drop_last()) {
            Some(p) => match child_pos(p, path.last()) {
                Some(i) => Some(child_at(p, i)),
                None => None,
            },
            None => None,
        },
    decreases path.len(),
{
    if path.len() > 1 {
        assert(path.drop_last()[0] == path[0]);
        assert(path.drop_first().last() == path.last());
        assert(path.drop_first().drop_last() =~= path.drop_last().drop_first());
        match child_pos(v, path[0]) {
            Some(i) => {
                lemma_get_at_last(child_at(v, i), path.drop_first());
                assert(get_at(v, path.drop_last()) == get_at(child_at(v, i), path.drop_last().drop_first()));
            },
            None => {
                assert(get_at(v, path.drop_last()) is None);
            },
        }
    } else {
        assert(path.drop_last() =~= Seq::<Selector>::empty());
        assert(path.drop_first() =~= Seq::<Selector>::empty());
        assert(path.last() == path[0]);
        assert(get_at(v, path.drop_last()) == Some(v));
        match child_pos(v, path[0]) {
            Some(i) => {
                assert(get_at(child_at(v, i), path.drop_first()) == Some(child_at(v, i)));
            },
            None => {},
        }
    }
}

/// An object with no first entry of key `k` has no entry of key `k` at all.
pub proof fn lemma_no_key(v: JsonValue, k: Seq<char>)
    requires
        v is Object,
        !has_key(v, k),
    ensures
        forall|j: int| 0 <= j < v->Object_0@.len() ==> #[trigger] v->Object_0@[j].0@ != k,
{
    assert forall|j: int| 0 <= j < v->Object_0@.len() implies #[trigger] v->Object_0@[j].0@ != k by {
        if v->Object_0@[j].0@ == k {
            lemma_first_match(v, k, j);
        }
    }
}

proof fn lemma_first_match(v: JsonValue, k: Seq<char>, j: int)
    requires
        v is Object,
        0 <= j < v->Object_0@.len(),
        v->Object_0@[j].0@ == k,
    ensures
        has_key(v, k),
    decreases j,
{
    let o = v->Object_0@;
    if forall|i: int| 0 <= i < j ==> o[i].0@ != k {
        assert(0 <= j < o.len() && o[j].0@ == k && forall|i: int| 0 <= i < j ==> o[i].0@ != k);
    } else {
        let i = choose|i: int| 0 <= i < j && o[i].0@ == k;
        lemma_first_match(v, k, i);
    }
}

/// The values of an object's entries, in order.
pub open spec fn entry_values(o: Seq<(String, JsonValue)>) -> Seq<JsonValue> {
    o.map_values(|e: (String, JsonValue)| e.1)
}

/// Every child of `v` that a selector matches, in document order.
pub open spec fn matches_of(v: JsonValue, s: Selector) -> Seq<JsonValue> {
    match s {
        Selector::Wildcard => match v {
            JsonValue::Array(a) => a@,
            JsonValue::Object(o) => entry_values(o@),
            _ => seq![],
        },
        _ => match child_pos(v, s) {
            Some(p) => seq![child_at(v, p)],
            None => seq![],
        },
    }
}

/// The matches of one selector in each value of `vs`, concatenated in order.
pub open spec fn step_all(vs: Seq<JsonValue>, s: Selector) -> Seq<JsonValue>
    decreases vs.len(),
{
    if vs.len() == 0 {
        seq![]
    } else {
        step_all(vs.drop_last(), s) + matches_of(vs.last(), s)
    }
}

/// Every value that the selectors of `path` reach from the values `vs`.
pub open spec fn all_from(vs: Seq<JsonValue>, path: Seq<Selector>) -> Seq<JsonValue>
    decreases path.len(),
{
    if path.len() == 0 {
        vs
    } else {
        all_from(step_all(vs, path[0]), path.drop_first())
    }
}

/// Every value that `path` locates in `v`, in document order.
pub open spec fn get_all_at(v: JsonValue, path: Seq<Selector>) -> Seq<JsonValue> {
    all_from(seq![v], path)
}

/// The values that references point to.
pub open spec fn targets(r: Seq<&JsonValue>) -> Seq<JsonValue> {
    r.map_values(|x: &JsonValue| *x)
}

/// Appends the matches of `s` in `v` to `out`.
fn push_matches<'v>(v: &'v JsonValue, s: &Selector, out: &mut Vec<&'v JsonValue>)
    ensures
        targets(final(out)@) == targets(old(out)@) + matches_of(*v, *s),
{
    let ghost start = out@;
    match s {
        Selector::Wildcard => match v {
            JsonValue::Array(a) => {
                let mut i: usize = 0;
                while i < a.len()
                    invariant
                        *s == Selector::Wildcard,
                        *v == JsonValue::Array(*a),
                        i <= a@.len(),
                        targets(out@) == targets(start) + a@.subrange(0, i as int),
                    decreases a@.len() - i,
                {
                    let ghost prev = out@;
                    out.push(&a[i]);
                    proof {
                        assert(targets(out@) =~= targets(prev).push(a@[i as int]));
                        assert(a@.subrange(0, i + 1) =~= a@.subrange(0, i as int).push(a@[i as int]));
                    }
                    i = i + 1;
                    proof {
                        assert(targets(out@) =~= targets(start) + a@.subrange(0, i as int));
                    }
                }
                proof {
                    assert(a@.subrange(0, a@.len() as int) =~= a@);
                }
            },
            JsonValue::Object(o) => {
                let mut i: usize = 0;
                while i < o.len()
                    invariant
                        *s == Selector::Wildcard,
                        *v == JsonValue::Object(*o),
                        i <= o@.len(),
                        targets(out@) == targets(start) + entry_values(o@.subrange(0, i as int)),
                    decreases o@.len() - i,
                {
                    let ghost prev = out@;
                    out.push(&o[i].1);
                    proof {
                        assert(targets(out@) =~= targets(prev).push(o@[i as int].1));
                        assert(entry_values(o@.subrange(0, i + 1)) =~= entry_values(
                            o@.subrange(0, i as int),
                        ).push(o@[i as int].1));
                    }
                    i = i + 1;
                    proof {
                        assert(targets(out@) =~= targets(start) + entry_values(
                            o@.subrange(0, i as int),
                        ));
                    }
                }
                proof {
                    assert(o@.subrange(0, o@.len() as int) =~= o@);
                }
            },
            _ => {
                proof {
                    assert(targets(out@) =~= targets(start) + seq![]);
                }
            },
        },
        _ => match resolve_child(v, s) {
            Some(p) => {
                out.push(child_ref(v, p));
                proof {
                    assert(targets(out@) =~= targets(start) + seq![child_at(*v, p as int)]);
                }
            },
            None => {
                proof {
                    assert(targets(out@) =~= targets(start) + seq![]);
                }
            },
        },
    }
}

/// Every value that `path` locates in `v`, in document order: array
/// elements by ascending index, object entries in insertion order.
pub fn get_all<'v>(v: &'v JsonValue, path: &Vec<Selector>) -> (r: Vec<&'v JsonValue>)
    ensures
        targets(r@) == get_all_at(*v, path@),
{
    let mut cur: Vec<&'v JsonValue> = Vec::new();
    cur.push(v);
    let mut k: usize = 0;
    proof {
        assert(targets(cur@) =~= seq![*v]);
        assert(path@.subrange(0, path@.len() as int) =~= path@);
    }
    while k < path.len()
        invariant
            k <= path@.len(),
            get_all_at(*v, path@) == all_from(targets(cur@), path@.subrange(k as int, path@.len() as int)),
        decreases path@.len() - k,
    {
        let mut next: Vec<&'v JsonValue> = Vec::new();
        let mut j: usize = 0;
        proof {
            assert(targets(next@) =~= step_all(targets(cur@).subrange(0, 0), path@[k as int]));
        }
        while j < cur.len()
            invariant
                k < path@.len(),
                j <= cur@.len(),
                targets(next@) == step_all(targets(cur@).subrange(0, j as int), path@[k as int]),
            decreases cur@.len() - j,
        {
            push_matches(cur[j], &path[k], &mut next);
            proof {
                let ts = targets(cur@).subrange(0, j + 1);
                assert(ts.drop_last() =~= targets(cur@).subrange(0, j as int));
                assert(ts.last() == *cur@[j as int]);
            }
            j = j + 1;
        }
        proof {
            assert(targets(cur@).subrange(0, cur@.len() as int) =~= targets(cur@));
            let rest = path@.subrange(k as int, path@.len() as int);
            assert(rest[0] == path@[k as int]);
            assert(rest.drop_first() =~= path@.subrange(k + 1, path@.len() as int));
        }
        cur = next;
        k = k + 1;
    }
    proof {
        assert(path@.subrange(k as int, path@.len() as int) =~= Seq::<Selector>::empty());
    }
    cur
}

/// The child of a container at position `p`.
pub fn child_ref(v: &JsonValue, p: usize) -> (r: &JsonValue)
    requires
        p < child_count(*v),
    ensures
        *r == child_at(*v, p as int),
{
    match v {
        JsonValue::Array(a) => &a[p],
        JsonValue::Object(o) => &o[p].1,
        _ => v,
    }
}

/// The value that the selectors of `path` from position `k` on locate.
fn get_path_from<'v>(v: &'v JsonValue, path: &Vec<Selector>, k: usize) -> (r: Option<&'v JsonValue>)
    requires
        k <= path@.len(),
    ensures
        r matches Some(t) ==> get_at(*v, path@.subrange(k as int, path@.len() as int)) == Some(*t),
        r is None ==> get_at(*v, path@.subrange(k as int, path@.len() as int)) is None,
    decreases path@.len() - k,
{
    let ghost sub = path@.subrange(k as int, path@.len() as int);
    if k == path.len() {
        return Some(v);
    }
    proof {
        assert(sub[0] == path@[k as int]);
        assert(sub.drop_first() =~= path@.subrange(k + 1, path@.len() as int));
    }
    match resolve_child(v, &path[k]) {
        Some(p) => {
            get_path_from(child_ref(v, p), path, k + 1)
        },
        None => None,
    }
}

/// The value that `path` locates (its first match), if any.
pub fn get_path<'v>(v: &'v JsonValue, path: &Vec<Selector>) -> (r: Option<&'v JsonValue>)
    ensures
        r matches Some(t) ==> get_at(*v, path@) == Some(*t),
        r is None ==> get_at(*v, path@) is None,
{
    proof {
        assert(path@.subrange(0, path@.len() as int) =~= path@);
    }
    get_path_from(v, path, 0)
}

} // verus!
