use vstd::prelude::*;

verus! {

/// Position at which new elements are spliced into an array of `len` elements:
/// a negative index counts from the end; the result must lie in `[0, len]`.
pub open spec fn insert_position_spec(index: int, len: int) -> Option<int> {
    let i = if index < 0 { len + index } else { index };
    if 0 <= i && i <= len { Some(i) } else { None }
}

/// Position of the element removed by a pop from a non-empty array of `len`
/// elements: a negative index counts from the end and stops at the first
/// element, a non-negative one stops at the last.
pub open spec fn pop_position_spec(index: int, len: int) -> int {
    if index < 0 {
        if len + index < 0 { 0 } else { len + index }
    } else {
        if index < len - 1 { index } else { len - 1 }
    }
}

/// One bound of a trim range: a negative index counts from the end and stops
/// at 0, a non-negative one stops at the last position (0 for an empty array).
pub open spec fn trim_bound_spec(index: int, len: int) -> int {
    if index < 0 {
        if len + index < 0 { 0 } else { len + index }
    } else {
        let last = if len > 0 { len - 1 } else { 0 };
        if index < last { index } else { last }
    }
}

/// The closed range `[start, stop]` kept by a trim of an array of `len`
/// elements, as a half-open range `(from, to)`; empty when the array is empty,
/// when the raw start is at or past the end, or when the bounds cross.
pub open spec fn trim_range_spec(start: int, stop: int, len: int) -> (int, int) {
    let from = trim_bound_spec(start, len);
    let to = trim_bound_spec(stop, len);
    if len == 0 || start >= len || from > to { (0, 0) } else { (from, to + 1) }
}

/// Resolves an insertion index; `None` when it falls outside `[0, len]`.
pub fn insert_position(index: i64, len: usize) -> (r: Option<usize>)
    ensures
        r matches Some(p) ==> insert_position_spec(index as int, len as int) == Some(p as int),
        r is None ==> insert_position_spec(index as int, len as int) is None,
{
    let l = len as i128;
    let i: i128 = if index < 0 { l + index as i128 } else { index as i128 };
    if 0 <= i && i <= l { Some(i as usize) } else { None }
}

/// Resolves the index of the element to pop from a non-empty array.
pub fn pop_position(index: i64, len: usize) -> (r: usize)
    requires
        0 < len,
    ensures
        r as int == pop_position_spec(index as int, len as int),
        r < len,
{
    let l = len as i128;
    let i = index as i128;
    if i < 0 {
        if l + i < 0 { 0 } else { (l + i) as usize }
    } else {
        if i < l - 1 { i as usize } else { (l - 1) as usize }
    }
}

/// Resolves one bound of a trim range.
pub fn normalize(index: i64, len: usize) -> (r: usize)
    ensures
        r as int == trim_bound_spec(index as int, len as int),
        len > 0 ==> r < len,
{
    let l = len as i128;
    let i = index as i128;
    if i < 0 {
        if l + i < 0 { 0 } else { (l + i) as usize }
    } else {
        let last: i128 = if l > 0 { l - 1 } else { 0 };
        if i < last { i as usize } else { last as usize }
    }
}

/// Resolves the half-open range kept by a trim.
pub fn trim_range(start: i64, stop: i64, len: usize) -> (r: (usize, usize))
    ensures
        (r.0 as int, r.1 as int) == trim_range_spec(start as int, stop as int, len as int),
        r.0 <= r.1 <= len,
{
    let from = normalize(start, len);
    let to = normalize(stop, len);
    if len == 0 || start as i128 >= len as i128 || from > to { (0, 0) } else { (from, to + 1) }
}

} // verus!
