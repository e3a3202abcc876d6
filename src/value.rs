use vstd::prelude::*;

verus! {

/// A JSON tree. A floating-point number is carried as the bit pattern of its
/// IEEE-754 double; object entries keep their insertion order.
#[derive(Debug, PartialEq)]
pub enum JsonValue {
    Null,
    Bool(bool),
    Int(i64),
    Float(u64),
    Str(String),
    Array(Vec<JsonValue>),
    Object(Vec<(String, JsonValue)>),
}

/// The kind of a JSON value, as named in type errors.
#[derive(PartialEq, Eq, Structural, Clone, Copy, Debug)]
pub enum JsonKind {
    Null,
    Boolean,
    Integer,
    Number,
    Str,
    Array,
    Object,
}

/// Errors of the document engine.
#[derive(PartialEq, Eq, Structural, Clone, Copy, Debug)]
pub enum JsonError {
    /// A path or a JSON fragment could not be parsed.
    Parse,
    /// The target of a write does not exist.
    PathNotFound,
    /// The operand or target has the wrong kind for the operation.
    TypeMismatch { expected: JsonKind, found: JsonKind },
    /// An array insert index lies outside `[0, len]`.
    IndexOutOfBounds,
    /// A new document must be created at the root path.
    NotAtRoot,
}

pub open spec fn kind_of(v: JsonValue) -> JsonKind {
    match v {
        JsonValue::Null => JsonKind::Null,
        JsonValue::Bool(_) => JsonKind::Boolean,
        JsonValue::Int(_) => JsonKind::Integer,
        JsonValue::Float(_) => JsonKind::Number,
        JsonValue::Str(_) => JsonKind::Str,
        JsonValue::Array(_) => JsonKind::Array,
        JsonValue::Object(_) => JsonKind::Object,
    }
}

/// No two entries of an object share a key.
pub open spec fn keys_unique(o: Seq<(String, JsonValue)>) -> bool {
    forall|i: int, j: int| 0 <= i < j < o.len() ==> #[trigger] o[i].0@ != #[trigger] o[j].0@
}

/// The document invariant: object keys are unique, at every level of the tree.
pub open spec fn well_formed(v: JsonValue) -> bool
    decreases v,
{
    match v {
        JsonValue::Array(a) => forall|i: int| 0 <= i < a@.len() ==> well_formed(#[trigger] a@[i]),
        JsonValue::Object(o) => keys_unique(o@) && forall|i: int|
            0 <= i < o@.len() ==> well_formed(#[trigger] o@[i].1),
        _ => true,
    }
}

/// Every value of `items` is well formed.
pub open spec fn all_well_formed(items: Seq<JsonValue>) -> bool {
    forall|i: int| 0 <= i < items.len() ==> well_formed(#[trigger] items[i])
}

/// Length in bytes of the UTF-8 encoding of a string.
pub open spec fn byte_len(s: Seq<char>) -> nat {
    vstd::utf8::encode_utf8(s).len()
}

impl JsonValue {
    /// The kind of this value.
    pub fn kind(&self) -> (r: JsonKind)
        ensures
            r == kind_of(*self),
    {
        match self {
            JsonValue::Null => JsonKind::Null,
            JsonValue::Bool(_) => JsonKind::Boolean,
            JsonValue::Int(_) => JsonKind::Integer,
            JsonValue::Float(_) => JsonKind::Number,
            JsonValue::Str(_) => JsonKind::Str,
            JsonValue::Array(_) => JsonKind::Array,
            JsonValue::Object(_) => JsonKind::Object,
        }
    }

    pub fn is_array(&self) -> (r: bool)
        ensures
            r == (*self is Array),
    {
        match self {
            JsonValue::Array(_) => true,
            _ => false,
        }
    }

    pub fn is_object(&self) -> (r: bool)
        ensures
            r == (*self is Object),
    {
        match self {
            JsonValue::Object(_) => true,
            _ => false,
        }
    }

    /// Moves the value out, leaving `Null` in its place.
    pub fn take(&mut self) -> (r: JsonValue)
        ensures
            r == *old(self),
            *final(self) == JsonValue::Null,
    {
        let mut out = JsonValue::Null;
        std::mem::swap(self, &mut out);
        out
    }
}

} // verus!
