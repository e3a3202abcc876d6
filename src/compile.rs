use vstd::prelude::*;
use crate::locate::Selector;
use crate::value::JsonError;

verus! {

/// A selector as a mathematical value.
pub enum Step {
    Member(Seq<char>),
    Index(int),
    Wildcard,
}

pub open spec fn step_of(s: Selector) -> Step {
    match s {
        Selector::Member(k) => Step::Member(k@),
        Selector::Index(i) => Step::Index(i as int),
        Selector::Wildcard => Step::Wildcard,
    }
}

pub open spec fn is_digit(c: char) -> bool {
    '0' <= c && c <= '9'
}

/// Length of the member name at the start of `s`: it runs up to the next `.`
/// or `[`.
pub open spec fn name_len(s: Seq<char>) -> nat
    decreases s.len(),
{
    if s.len() == 0 || s[0] == '.' || s[0] == '[' {
        0
    } else {
        1 + name_len(s.drop_first())
    }
}

/// Position of the first `]` in `s`, if any.
pub open spec fn close_pos(s: Seq<char>) -> Option<nat>
    decreases s.len(),
{
    if s.len() == 0 {
        None
    } else if s[0] == ']' {
        Some(0)
    } else {
        match close_pos(s.drop_first()) {
            Some(p) => Some(p + 1),
            None => None,
        }
    }
}

pub open spec fn all_digits(d: Seq<char>) -> bool {
    forall|i: int| 0 <= i < d.len() ==> is_digit(#[trigger] d[i])
}

/// The value of a non-empty run of decimal digits.
pub open spec fn digits_value(d: Seq<char>) -> int
    decreases d.len(),
{
    if d.len() == 0 {
        0
    } else {
        digits_value(d.drop_last()) * 10 + (d.last() as int - '0' as int)
    }
}

/// The index written between brackets: an optional `-` and one or more
/// digits, whose value fits in an `i64`.
pub open spec fn index_of(d: Seq<char>) -> Option<int> {
    let neg = d.len() > 0 && d[0] == '-';
    let digits = if neg { d.drop_first() } else { d };
    let v = if neg { -digits_value(digits) } else { digits_value(digits) };
    if digits.len() > 0 && all_digits(digits) && i64::MIN <= v <= i64::MAX {
        Some(v)
    } else {
        None
    }
}

/// The selectors that the text after the root `$` denotes: each step is
/// `.name`, `.*`, `[*]` or `[index]`.
pub open spec fn parse_steps(s: Seq<char>) -> Option<Seq<Step>>
    decreases s.len(),
{
    if s.len() == 0 {
        Some(seq![])
    } else if s[0] == '.' {
        let n = name_len(s.drop_first()) as int;
        let name = s.subrange(1, 1 + n);
        if n == 0 || n >= s.len() {
            None
        } else {
            let step = if name == seq!['*'] { Step::Wildcard } else { Step::Member(name) };
            match parse_steps(s.subrange(1 + n, s.len() as int)) {
                Some(rest) => Some(seq![step] + rest),
                None => None,
            }
        }
    } else if s[0] == '[' {
        match close_pos(s.drop_first()) {
            None => None,
            Some(c0) => {
                let c = c0 as int;
                if c + 2 > s.len() {
                    None
                } else {
                let inner = s.subrange(1, 1 + c);
                let step = if inner == seq!['*'] {
                    Some(Step::Wildcard)
                } else {
                    match index_of(inner) {
                        Some(i) => Some(Step::Index(i)),
                        None => None,
                    }
                };
                match (step, parse_steps(s.subrange(2 + c, s.len() as int))) {
                    (Some(st), Some(rest)) => Some(seq![st] + rest),
                    _ => None,
                }
                }
            },
        }
    } else {
        None
    }
}

/// The selectors of a `$`-anchored path, or `None` when it is malformed.
pub open spec fn compiled(p: Seq<char>) -> Option<Seq<Step>> {
    if p.len() > 0 && p[0] == '$' {
        parse_steps(p.drop_first())
    } else {
        None
    }
}

proof fn lemma_name_len_step(s: Seq<char>, i: int)
    requires
        0 <= i < s.len(),
    ensures
        name_len(s.subrange(i, s.len() as int)) == if s[i] == '.' || s[i] == '[' {
            0
        } else {
            1 + name_len(s.subrange(i + 1, s.len() as int))
        },
{
    assert(s.subrange(i, s.len() as int).drop_first() =~= s.subrange(i + 1, s.len() as int));
}

/// End of the member name that starts at `start`.
fn scan_name(p: &str, start: usize, n: usize) -> (r: usize)
    requires
        n == p@.len(),
        start <= n,
    ensures
        start <= r <= n,
        r - start == name_len(p@.subrange(start as int, n as int)),
{
    let mut k = start;
    while k < n && p.get_char(k) != '.' && p.get_char(k) != '['
        invariant
            n == p@.len(),
            start <= k <= n,
            name_len(p@.subrange(start as int, n as int)) == (k - start) + name_len(
                p@.subrange(k as int, n as int),
            ),
        decreases n - k,
    {
        proof {
            lemma_name_len_step(p@, k as int);
        }
        k = k + 1;
    }
    proof {
        if k < n {
            lemma_name_len_step(p@, k as int);
        }
    }
    k
}

/// Position of the first `]` at or after `start`.
fn scan_close(p: &str, start: usize, n: usize) -> (r: Option<usize>)
    requires
        n == p@.len(),
        start <= n,
    ensures
        match close_pos(p@.subrange(start as int, n as int)) {
            Some(c) => start + c < n && r == Some((start + c) as usize),
            None => r is None,
        },
        r matches Some(k) ==> start <= k < n,
{
    let mut k = start;
    while k < n && p.get_char(k) != ']'
        invariant
            n == p@.len(),
            start <= k <= n,
            forall|j: int| start <= j < k ==> p@[j] != ']',
            close_pos(p@.subrange(start as int, n as int)) == match close_pos(
                p@.subrange(k as int, n as int),
            ) {
                Some(c) => Some((c + (k - start)) as nat),
                None => None::<nat>,
            },
        decreases n - k,
    {
        proof {
            assert(p@.subrange(k as int, n as int).drop_first() =~= p@.subrange(k + 1, n as int));
        }
        k = k + 1;
    }
    if k < n {
        proof {
            assert(p@.subrange(k as int, n as int)[0] == ']');
        }
        Some(k)
    } else {
        proof {
            assert(p@.subrange(k as int, n as int).len() == 0);
        }
        None
    }
}

proof fn lemma_digits_push(d: Seq<char>, c: char)
    ensures
        digits_value(d.push(c)) == digits_value(d) * 10 + (c as int - '0' as int),
{
    assert(d.push(c).drop_last() =~= d);
}

proof fn lemma_digits_grow(d: Seq<char>, m: int)
    requires
        0 <= m <= d.len(),
        all_digits(d),
    ensures
        digits_value(d) >= digits_value(d.subrange(0, m)) >= 0,
    decreases d.len(),
{
    if m == d.len() {
        assert(d.subrange(0, m) =~= d);
        if d.len() > 0 {
            lemma_digits_grow(d.drop_last(), m - 1);
            assert(d.drop_last().subrange(0, m - 1) =~= d.drop_last());
        }
    } else {
        lemma_digits_grow(d.drop_last(), m);
        assert(d.drop_last().subrange(0, m) =~= d.subrange(0, m));
    }
}

/// Reads the index written in positions `from..to`.
fn parse_index(p: &str, from: usize, to: usize, n: usize) -> (r: Option<i64>)
    requires
        n == p@.len(),
        from <= to <= n,
    ensures
        match index_of(p@.subrange(from as int, to as int)) {
            Some(v) => r == Some(v as i64),
            None => r is None,
        },
{
    let ghost d = p@.subrange(from as int, to as int);
    let neg = from < to && p.get_char(from) == '-';
    let first = if neg { from + 1 } else { from };
    let ghost digits = if neg { d.drop_first() } else { d };
    proof {
        if from < to {
            assert(d[0] == p@[from as int]);
        }
        assert(digits =~= p@.subrange(first as int, to as int));
    }
    if first == to {
        return None;
    }
    let mut acc: i128 = 0;
    let mut k = first;
    while k < to
        invariant
            n == p@.len(),
            first <= k <= to <= n,
            forall|j: int| first <= j < k ==> is_digit(#[trigger] p@[j]),
            acc == digits_value(p@.subrange(first as int, k as int)),
            d == p@.subrange(from as int, to as int),
            digits == p@.subrange(first as int, to as int),
            digits == (if neg { d.drop_first() } else { d }),
            neg == (d.len() > 0 && d[0] == '-'),
            first == (if neg { from + 1 } else { from as int }),
            0 <= acc <= 0x8000_0000_0000_0000,
        decreases to - k,
    {
        let c = p.get_char(k);
        if !('0' <= c && c <= '9') {
            proof {
                assert(digits[k - first] == c);
                assert(!is_digit(digits[k - first]));
                assert(!all_digits(digits));
            }
            return None;
        }
        let next = acc * 10 + (c as u32 - '0' as u32) as i128;
        proof {
            lemma_digits_push(p@.subrange(first as int, k as int), c);
            assert(p@.subrange(first as int, k as int).push(c) =~= p@.subrange(first as int, k + 1));
        }
        if next > 0x8000_0000_0000_0000 {
            proof {
                let ds = p@.subrange(first as int, to as int);
                assert(ds =~= digits);
                assert(ds.subrange(0, k + 1 - first) =~= p@.subrange(first as int, k + 1));
                if all_digits(ds) {
                    lemma_digits_grow(ds, k + 1 - first);
                }
            }
            return None;
        }
        acc = next;
        k = k + 1;
    }
    proof {
        assert(p@.subrange(first as int, to as int) =~= digits);
        assert forall|j: int| 0 <= j < digits.len() implies is_digit(#[trigger] digits[j]) by {
            assert(digits[j] == p@[first + j]);
        }
    }
    if neg {
        let v = -acc;
        if v < i64::MIN as i128 {
            return None;
        }
        Some(v as i64)
    } else {
        if acc > i64::MAX as i128 {
            return None;
        }
        Some(acc as i64)
    }
}

/// The steps that a sequence of selectors stands for.
pub open spec fn steps_of(v: Seq<Selector>) -> Seq<Step> {
    v.map_values(|x: Selector| step_of(x))
}

fn prepend(step: Selector, rest: Vec<Selector>) -> (r: Vec<Selector>)
    ensures
        steps_of(r@) == seq![step_of(step)] + steps_of(rest@),
{
    let mut v: Vec<Selector> = Vec::new();
    v.push(step);
    let mut rest = rest;
    let ghost tail = rest@;
    v.append(&mut rest);
    proof {
        assert(steps_of(v@) =~= seq![step_of(step)] + steps_of(tail));
    }
    v
}

/// Parses the steps of positions `i..n` of `p`.
fn parse_steps_from(p: &str, i: usize, n: usize) -> (r: Option<Vec<Selector>>)
    requires
        n == p@.len(),
        i <= n,
    ensures
        match parse_steps(p@.subrange(i as int, n as int)) {
            Some(st) => r matches Some(v) && steps_of(v@) == st,
            None => r is None,
        },
    decreases n - i,
{
    let ghost s = p@.subrange(i as int, n as int);
    if i == n {
        let v: Vec<Selector> = Vec::new();
        proof {
            assert(steps_of(v@) =~= seq![]);
        }
        return Some(v);
    }
    let c = p.get_char(i);
    proof {
        assert(s[0] == c);
        assert(s.drop_first() =~= p@.subrange(i + 1, n as int));
    }
    if c == '.' {
        let e = scan_name(p, i + 1, n);
        if e == i + 1 {
            return None;
        }
        let name = p.substring_char(i + 1, e);
        let star = e == i + 2 && p.get_char(i + 1) == '*';
        proof {
            assert(name_len(s.drop_first()) == e - i - 1);
            assert(e - i - 1 < s.len());
            assert(name@ =~= s.subrange(1, 1 + (e - i - 1)));
            if star {
                assert(name@ =~= seq!['*']);
            }
            if name@ == seq!['*'] {
                assert(name@.len() == 1);
            }
            assert(s.subrange(1 + (e - i - 1), s.len() as int) =~= p@.subrange(e as int, n as int));
        }
        let step = if star {
            Selector::Wildcard
        } else {
            Selector::Member(String::from_str(name))
        };
        match parse_steps_from(p, e, n) {
            Some(rest) => Some(prepend(step, rest)),
            None => None,
        }
    } else if c == '[' {
        match scan_close(p, i + 1, n) {
            None => None,
            Some(cl) => {
                let star = cl == i + 2 && p.get_char(i + 1) == '*';
                let ghost inner = s.subrange(1, 1 + (cl - i - 1));
                proof {
                    assert(close_pos(s.drop_first()) == Some((cl - i - 1) as nat));
                    assert((cl - i - 1) + 2 <= s.len());
                    assert(inner =~= p@.subrange(i + 1, cl as int));
                    if star {
                        assert(inner =~= seq!['*']);
                    }
                    if inner == seq!['*'] {
                        assert(inner.len() == 1);
                    }
                    assert(s.subrange(2 + (cl - i - 1), s.len() as int) =~= p@.subrange(
                        cl + 1,
                        n as int,
                    ));
                }
                let step = if star {
                    Selector::Wildcard
                } else {
                    match parse_index(p, i + 1, cl, n) {
                        Some(x) => Selector::Index(x),
                        None => return None,
                    }
                };
                match parse_steps_from(p, cl + 1, n) {
                    Some(rest) => Some(prepend(step, rest)),
                    None => None,
                }
            },
        }
    } else {
        None
    }
}

/// Compiles a `$`-anchored path into its selectors; a malformed path fails
/// with `Parse`.
pub fn compile_path(path: &str) -> (r: Result<Vec<Selector>, JsonError>)
    ensures
        match compiled(path@) {
            Some(st) => r matches Ok(v) && steps_of(v@) == st,
            None => r == Err::<Vec<Selector>, JsonError>(JsonError::Parse),
        },
{
    let n = path.unicode_len();
    if n == 0 || path.get_char(0) != '$' {
        return Err(JsonError::Parse);
    }
    proof {
        assert(path@.drop_first() =~= path@.subrange(1, n as int));
    }
    match parse_steps_from(path, 1, n) {
        Some(v) => Ok(v),
        None => Err(JsonError::Parse),
    }
}

} // verus!
