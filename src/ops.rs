use vstd::prelude::*;
use crate::array_index::{
    insert_position, insert_position_spec, pop_position, pop_position_spec, trim_range,
    trim_range_spec,
};
use crate::value::{byte_len, kind_of, JsonError, JsonKind, JsonValue};

verus! {

/// The arithmetic applied by a numeric update.
#[derive(PartialEq, Eq, Structural, Clone, Copy, Debug)]
pub enum NumOp {
    Add,
    Mul,
}

/// What a numeric update did to its target.
#[derive(PartialEq, Eq, Structural, Clone, Copy, Debug)]
pub enum NumStep {
    /// Both operands were integers and the exact result fits in an `i64`: the
    /// target now holds it.
    Int(i64),
    /// The result must be computed in floating point on the widened operands;
    /// the target is left as it was.
    Widen,
}

pub open spec fn is_number(v: JsonValue) -> bool {
    v is Int || v is Float
}

pub open spec fn int_result(op: NumOp, a: int, b: int) -> int {
    match op {
        NumOp::Add => a + b,
        NumOp::Mul => a * b,
    }
}

pub open spec fn mismatch(expected: JsonKind, found: JsonValue) -> JsonError {
    JsonError::TypeMismatch { expected, found: kind_of(found) }
}

/// The error of a numeric update, if any: the target and the operand must
/// both be numbers.
pub open spec fn num_op_error(target: JsonValue, operand: JsonValue) -> Option<JsonError> {
    if !is_number(target) {
        Some(mismatch(JsonKind::Number, target))
    } else if !is_number(operand) {
        Some(mismatch(JsonKind::Number, operand))
    } else {
        None
    }
}

/// The integer outcome of a numeric update, when there is one.
pub open spec fn num_op_int(op: NumOp, target: JsonValue, operand: JsonValue) -> Option<i64> {
    match (target, operand) {
        (JsonValue::Int(a), JsonValue::Int(b)) => {
            let r = int_result(op, a as int, b as int);
            if i64::MIN <= r <= i64::MAX { Some(r as i64) } else { None }
        },
        _ => None,
    }
}

/// Applies `op` to the number held by `value` and the number `operand`.
/// Two integers whose exact result fits in an `i64` give that integer; every
/// other pair of numbers is reported as `Widen` and the value is not touched.
pub fn do_json_num_op(operand: &JsonValue, value: &mut JsonValue, op: NumOp) -> (r: Result<
    NumStep,
    JsonError,
>)
    ensures
        num_op_error(*old(value), *operand) matches Some(e) ==> r == Err::<NumStep, JsonError>(e)
            && *final(value) == *old(value),
        num_op_error(*old(value), *operand) is None ==> match num_op_int(op, *old(value), *operand) {
            Some(n) => r == Ok::<NumStep, JsonError>(NumStep::Int(n)) && *final(value)
                == JsonValue::Int(n),
            None => r == Ok::<NumStep, JsonError>(NumStep::Widen) && *final(value) == *old(value),
        },
{
    let target_ok = match value {
        JsonValue::Int(_) | JsonValue::Float(_) => true,
        _ => false,
    };
    if !target_ok {
        return Err(JsonError::TypeMismatch { expected: JsonKind::Number, found: value.kind() });
    }
    let operand_ok = match operand {
        JsonValue::Int(_) | JsonValue::Float(_) => true,
        _ => false,
    };
    if !operand_ok {
        return Err(JsonError::TypeMismatch { expected: JsonKind::Number, found: operand.kind() });
    }
    let (a, b) = match (&*value, operand) {
        (JsonValue::Int(a), JsonValue::Int(b)) => (*a, *b),
        _ => return Ok(NumStep::Widen),
    };
    let res = match op {
        NumOp::Add => a.checked_add(b),
        NumOp::Mul => a.checked_mul(b),
    };
    match res {
        Some(n) => {
            *value = JsonValue::Int(n);
            Ok(NumStep::Int(n))
        },
        None => Ok(NumStep::Widen),
    }
}

/// Negates the boolean held by `value` and returns the new boolean.
pub fn do_json_bool_toggle(value: &mut JsonValue) -> (r: Result<bool, JsonError>)
    ensures
        match *old(value) {
            JsonValue::Bool(b) => r == Ok::<bool, JsonError>(!b) && *final(value)
                == JsonValue::Bool(!b),
            _ => r == Err::<bool, JsonError>(mismatch(JsonKind::Boolean, *old(value)))
                && *final(value) == *old(value),
        },
{
    match value {
        JsonValue::Bool(b) => {
            let n = !*b;
            *value = JsonValue::Bool(n);
            Ok(n)
        },
        _ => Err(JsonError::TypeMismatch { expected: JsonKind::Boolean, found: value.kind() }),
    }
}

/// Appends the string `suffix` to the string held by `value`; returns the new
/// length in bytes.
pub fn do_json_str_append(suffix: &JsonValue, value: &mut JsonValue) -> (r: Result<
    usize,
    JsonError,
>)
    ensures
        !(*old(value) is Str) ==> r == Err::<usize, JsonError>(mismatch(JsonKind::Str, *old(value)))
            && *final(value) == *old(value),
        *old(value) is Str && !(*suffix is Str) ==> r == Err::<usize, JsonError>(
            mismatch(JsonKind::Str, *suffix),
        ) && *final(value) == *old(value),
        *old(value) is Str && *suffix is Str ==> *final(value) is Str && final(value)->Str_0@ == old(
            value,
        )->Str_0@ + suffix->Str_0@ && r == Ok::<usize, JsonError>(
            byte_len(final(value)->Str_0@) as usize,
        ),
{
    if !matches!(value, JsonValue::Str(_)) {
        return Err(JsonError::TypeMismatch { expected: JsonKind::Str, found: value.kind() });
    }
    let s = match suffix {
        JsonValue::Str(s) => s,
        _ => return Err(JsonError::TypeMismatch { expected: JsonKind::Str, found: suffix.kind() }),
    };
    let cur = value.take();
    match cur {
        JsonValue::Str(c) => {
            let joined = c.concat(s.as_str());
            let n = joined.as_str().as_bytes().len();
            *value = JsonValue::Str(joined);
            Ok(n)
        },
        other => {
            let k = other.kind();
            *value = other;
            Err(JsonError::TypeMismatch { expected: JsonKind::Str, found: k })
        },
    }
}

/// The array held by `value`, which must be an array.
pub open spec fn items_of(value: JsonValue) -> Seq<JsonValue> {
    value->Array_0@
}

/// Appends `items` to the array held by `value`; returns the new length.
pub fn do_json_arr_append(items: Vec<JsonValue>, value: &mut JsonValue) -> (r: Result<
    usize,
    JsonError,
>)
    ensures
        !(*old(value) is Array) ==> r == Err::<usize, JsonError>(
            mismatch(JsonKind::Array, *old(value)),
        ) && *final(value) == *old(value),
        *old(value) is Array ==> *final(value) is Array && items_of(*final(value)) == items_of(
            *old(value),
        ) + items@ && r == Ok::<usize, JsonError>(items_of(*final(value)).len() as usize),
{
    let cur = value.take();
    match cur {
        JsonValue::Array(mut a) => {
            let mut items = items;
            a.append(&mut items);
            let n = a.len();
            *value = JsonValue::Array(a);
            Ok(n)
        },
        other => {
            let k = other.kind();
            *value = other;
            Err(JsonError::TypeMismatch { expected: JsonKind::Array, found: k })
        },
    }
}

/// Splices `items` into the array held by `value` before the position that
/// `index` resolves to; returns the new length.
pub fn do_json_arr_insert(items: Vec<JsonValue>, index: i64, value: &mut JsonValue) -> (r: Result<
    usize,
    JsonError,
>)
    ensures
        !(*old(value) is Array) ==> r == Err::<usize, JsonError>(
            mismatch(JsonKind::Array, *old(value)),
        ) && *final(value) == *old(value),
        *old(value) is Array ==> match insert_position_spec(
            index as int,
            items_of(*old(value)).len() as int,
        ) {
            None => r == Err::<usize, JsonError>(JsonError::IndexOutOfBounds) && *final(value)
                == *old(value),
            Some(p) => *final(value) is Array && items_of(*final(value)) == items_of(
                *old(value),
            ).subrange(0, p) + items@ + items_of(*old(value)).subrange(
                p,
                items_of(*old(value)).len() as int,
            ) && r == Ok::<usize, JsonError>(items_of(*final(value)).len() as usize),
        },
{
    let cur = value.take();
    match cur {
        JsonValue::Array(mut a) => {
            match insert_position(index, a.len()) {
                None => {
                    *value = JsonValue::Array(a);
                    Err(JsonError::IndexOutOfBounds)
                },
                Some(p) => {
                    let ghost before = a@;
                    let ghost added = items@;
                    let mut tail = a.split_off(p);
                    let mut items = items;
                    a.append(&mut items);
                    a.append(&mut tail);
                    let n = a.len();
                    proof {
                        assert(a@ =~= before.subrange(0, p as int) + added + before.subrange(
                            p as int,
                            before.len() as int,
                        ));
                    }
                    *value = JsonValue::Array(a);
                    Ok(n)
                },
            }
        },
        other => {
            let k = other.kind();
            *value = other;
            Err(JsonError::TypeMismatch { expected: JsonKind::Array, found: k })
        },
    }
}

/// Removes the element at the position that `index` resolves to from the
/// array held by `value` and returns it; an empty array yields `None` and is
/// left as it is.
pub fn do_json_arr_pop(index: i64, value: &mut JsonValue) -> (r: Result<
    Option<JsonValue>,
    JsonError,
>)
    ensures
        !(*old(value) is Array) ==> r == Err::<Option<JsonValue>, JsonError>(
            mismatch(JsonKind::Array, *old(value)),
        ) && *final(value) == *old(value),
        *old(value) is Array && items_of(*old(value)).len() == 0 ==> r == Ok::<
            Option<JsonValue>,
            JsonError,
        >(None) && *final(value) == *old(value),
        *old(value) is Array && items_of(*old(value)).len() > 0 ==> ({
            let p = pop_position_spec(index as int, items_of(*old(value)).len() as int);
            &&& *final(value) is Array
            &&& items_of(*final(value)) == items_of(*old(value)).remove(p)
            &&& r == Ok::<Option<JsonValue>, JsonError>(Some(items_of(*old(value))[p]))
        }),
{
    let cur = value.take();
    match cur {
        JsonValue::Array(mut a) => {
            if a.len() == 0 {
                *value = JsonValue::Array(a);
                return Ok(None);
            }
            let p = pop_position(index, a.len());
            let item = a.remove(p);
            *value = JsonValue::Array(a);
            Ok(Some(item))
        },
        other => {
            let k = other.kind();
            *value = other;
            Err(JsonError::TypeMismatch { expected: JsonKind::Array, found: k })
        },
    }
}

/// Keeps only the closed range `[start, stop]` of the array held by `value`;
/// returns the new length.
pub fn do_json_arr_trim(start: i64, stop: i64, value: &mut JsonValue) -> (r: Result<
    usize,
    JsonError,
>)
    ensures
        !(*old(value) is Array) ==> r == Err::<usize, JsonError>(
            mismatch(JsonKind::Array, *old(value)),
        ) && *final(value) == *old(value),
        *old(value) is Array ==> ({
            let range = trim_range_spec(
                start as int,
                stop as int,
                items_of(*old(value)).len() as int,
            );
            &&& *final(value) is Array
            &&& items_of(*final(value)) == items_of(*old(value)).subrange(range.0, range.1)
            &&& r == Ok::<usize, JsonError>((range.1 - range.0) as usize)
        }),
{
    let cur = value.take();
    match cur {
        JsonValue::Array(mut a) => {
            let (from, to) = trim_range(start, stop, a.len());
            let ghost before = a@;
            let mut kept = a.split_off(from);
            kept.truncate(to - from);
            proof {
                assert(kept@ =~= before.subrange(from as int, to as int));
            }
            let n = kept.len();
            *value = JsonValue::Array(kept);
            Ok(n)
        },
        other => {
            let k = other.kind();
            *value = other;
            Err(JsonError::TypeMismatch { expected: JsonKind::Array, found: k })
        },
    }
}

/// Resets `value` to the empty or zero value of its kind: an array or object
/// loses its contents, a number becomes 0. Returns how many values were
/// cleared; other kinds are left alone and count 0.
pub fn do_json_clear(value: &mut JsonValue) -> (r: usize)
    ensures
        match *old(value) {
            JsonValue::Array(_) => *final(value) is Array && items_of(*final(value)).len() == 0
                && r == 1,
            JsonValue::Object(_) => *final(value) is Object && final(value)->Object_0@.len() == 0
                && r == 1,
            JsonValue::Int(_) => *final(value) == JsonValue::Int(0) && r == 1,
            JsonValue::Float(_) => *final(value) == JsonValue::Float(0) && r == 1,
            _ => *final(value) == *old(value) && r == 0,
        },
{
    match value {
        JsonValue::Array(_) => {
            *value = JsonValue::Array(Vec::new());
            1
        },
        JsonValue::Object(_) => {
            *value = JsonValue::Object(Vec::new());
            1
        },
        JsonValue::Int(_) => {
            *value = JsonValue::Int(0);
            1
        },
        JsonValue::Float(_) => {
            *value = JsonValue::Float(0);
            1
        },
        _ => 0,
    }
}

} // verus!
