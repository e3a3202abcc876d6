use vstd::prelude::*;
use crate::value::JsonValue;

verus! {

/// A reply in the host's wire protocol. A double is carried as its bit
/// pattern.
#[derive(Debug, PartialEq)]
pub enum RespValue {
    Null,
    SimpleString(String),
    Integer(i64),
    Float(u64),
    BulkString(String),
    Array(Vec<RespValue>),
}

/// `r` is the wire reply for `v`: `null` is Null, a boolean is the simple
/// string `true` or `false`, numbers keep their kind, a string is a bulk
/// string, an array is `[` followed by its elements, and an object is `{`
/// followed by each key and its value.
pub open spec fn is_resp_of(v: JsonValue, r: RespValue) -> bool
    decreases v,
{
    match v {
        JsonValue::Null => r == RespValue::Null,
        JsonValue::Bool(b) => r is SimpleString && r->SimpleString_0@ == (if b {
            seq!['t', 'r', 'u', 'e']
        } else {
            seq!['f', 'a', 'l', 's', 'e']
        }),
        JsonValue::Int(i) => r == RespValue::Integer(i),
        JsonValue::Float(f) => r == RespValue::Float(f),
        JsonValue::Str(s) => r is BulkString && r->BulkString_0@ == s@,
        JsonValue::Array(a) => r is Array && r->Array_0@.len() == a@.len() + 1 && r->Array_0@[0]
            is SimpleString && r->Array_0@[0]->SimpleString_0@ == seq!['['] && forall|i: int|
            0 <= i < a@.len() ==> is_resp_of(#[trigger] a@[i], r->Array_0@[i + 1]),
        JsonValue::Object(o) => r is Array && r->Array_0@.len() == 2 * o@.len() + 1
            && r->Array_0@[0] is SimpleString && r->Array_0@[0]->SimpleString_0@ == seq!['{']
            && forall|i: int|
            0 <= i < o@.len() ==> #[trigger] key_reply(o@[i].0@, r->Array_0@, i) && is_resp_of(
                o@[i].1,
                r->Array_0@[2 * i + 2],
            ),
    }
}

/// Position `2i+1` of `r` holds the key `k` as a bulk string.
pub open spec fn key_reply(k: Seq<char>, r: Seq<RespValue>, i: int) -> bool {
    r[2 * i + 1] is BulkString && r[2 * i + 1]->BulkString_0@ == k
}

/// Entry `j` of an object is rendered at positions `2j+1` (its key) and
/// `2j+2` (its value) of `r`.
pub open spec fn entry_reply(o: Seq<(String, JsonValue)>, r: Seq<RespValue>, j: int) -> bool {
    &&& r[2 * j + 1] is BulkString
    &&& r[2 * j + 1]->BulkString_0@ == o[j].0@
    &&& is_resp_of(o[j].1, r[2 * j + 2])
}

fn text(s: &str) -> (r: String)
    ensures
        r@ == s@,
{
    String::from_str(s)
}

/// Converts a JSON value into its wire reply.
pub fn resp_serialize(doc: &JsonValue) -> (r: RespValue)
    ensures
        is_resp_of(*doc, r),
    decreases *doc,
{
    match doc {
        JsonValue::Null => RespValue::Null,
        JsonValue::Bool(b) => {
            proof {
                reveal_strlit("true");
                reveal_strlit("false");
            }
            if *b {
                let t = text("true");
                proof {
                    assert(t@ =~= seq!['t', 'r', 'u', 'e']);
                }
                RespValue::SimpleString(t)
            } else {
                let f = text("false");
                proof {
                    assert(f@ =~= seq!['f', 'a', 'l', 's', 'e']);
                }
                RespValue::SimpleString(f)
            }
        },
        JsonValue::Int(i) => RespValue::Integer(*i),
        JsonValue::Float(f) => RespValue::Float(*f),
        JsonValue::Str(s) => RespValue::BulkString(s.clone()),
        JsonValue::Array(arr) => {
            proof {
                assert(decreases_to!(*doc => *arr));
            }
            let mut res: Vec<RespValue> = Vec::new();
            proof {
                reveal_strlit("[");
            }
            let open = text("[");
            proof {
                assert(open@ =~= seq!['[']);
            }
            res.push(RespValue::SimpleString(open));
            let mut i: usize = 0;
            while i < arr.len()
                invariant
                    *doc == JsonValue::Array(*arr),
                    decreases_to!(*doc => *arr),
                    i <= arr@.len(),
                    res@.len() == i + 1,
                    res@[0] is SimpleString && res@[0]->SimpleString_0@ == seq!['['],
                    forall|j: int| 0 <= j < i ==> is_resp_of(#[trigger] arr@[j], res@[j + 1]),
                decreases arr@.len() - i,
            {
                proof {
                    assert(arr@[i as int] == arr[i as int]);
                    assert(decreases_to!(*arr => arr@));
                    assert(decreases_to!(*doc => arr@[i as int]));
                }
                let item = resp_serialize(&arr[i]);
                res.push(item);
                i = i + 1;
            }
            let r = RespValue::Array(res);
            proof {
                assert(r->Array_0@ == res@);
                assert(forall|j: int| 0 <= j < arr@.len() ==> is_resp_of(#[trigger] arr@[j], res@[j + 1]));
                assert(is_resp_of(*doc, r));
            }
            r
        },
        JsonValue::Object(obj) => {
            proof {
                assert(decreases_to!(*doc => *obj));
            }
            let mut res: Vec<RespValue> = Vec::new();
            proof {
                reveal_strlit("{");
            }
            let open = text("{");
            proof {
                assert(open@ =~= seq!['{']);
            }
            res.push(RespValue::SimpleString(open));
            let mut i: usize = 0;
            while i < obj.len()
                invariant
                    *doc == JsonValue::Object(*obj),
                    decreases_to!(*doc => *obj),
                    i <= obj@.len(),
                    res@.len() == 2 * i + 1,
                    res@[0] is SimpleString && res@[0]->SimpleString_0@ == seq!['{'],
                    forall|j: int| 0 <= j < i ==> #[trigger] entry_reply(obj@, res@, j),
                decreases obj@.len() - i,
            {
                let key = obj[i].0.clone();
                proof {
                    assert(obj@[i as int] == obj[i as int]);
                    assert(decreases_to!(*obj => obj@));
                    assert(decreases_to!(*doc => obj@[i as int].1));
                }
                let item = resp_serialize(&obj[i].1);
                let ghost prev = res@;
                res.push(RespValue::BulkString(key));
                res.push(item);
                proof {
                    assert(res@[2 * i + 1] == RespValue::BulkString(key));
                    assert(res@[2 * i + 2] == item);
                    assert(key@ == obj@[i as int].0@);
                    assert(is_resp_of(obj@[i as int].1, res@[2 * i + 2]));
                    assert forall|j: int| 0 <= j < i + 1 implies #[trigger] entry_reply(
                        obj@,
                        res@,
                        j,
                    ) by {
                        if j < i {
                            assert(entry_reply(obj@, prev, j));
                        }
                    }
                }
                i = i + 1;
            }
            proof {
                assert forall|j: int| 0 <= j < obj@.len() implies {
                    &&& res@[2 * j + 1] is BulkString
                    &&& res@[2 * j + 1]->BulkString_0@ == (#[trigger] obj@[j]).0@
                    &&& is_resp_of(obj@[j].1, res@[2 * j + 2])
                } by {
                    assert(entry_reply(obj@, res@, j));
                }
            }
            let r = RespValue::Array(res);
            proof {
                assert(r->Array_0@ == res@);
                assert(doc->Object_0@ == obj@);
                assert(r->Array_0@.len() == 2 * obj@.len() + 1);
                assert(r->Array_0@[0] is SimpleString && r->Array_0@[0]->SimpleString_0@ == seq!['{']);
                assert forall|j: int| 0 <= j < doc->Object_0@.len() implies #[trigger] key_reply(
                    doc->Object_0@[j].0@,
                    r->Array_0@,
                    j,
                ) && is_resp_of(doc->Object_0@[j].1, r->Array_0@[2 * j + 2]) by {
                    assert(entry_reply(obj@, res@, j));
                }
                assert(decreases_to!(*obj => obj@));
                assert forall|j: int| 0 <= j < obj@.len() implies decreases_to!(*doc => #[trigger] obj@[j]) by {
                    assert(decreases_to!(obj@ => obj@[j]));
                }
                assert(is_resp_of(*doc, r)) by {
                    reveal_with_fuel(is_resp_of, 2);
                }
            }
            r
        },
    }
}

} // verus!
