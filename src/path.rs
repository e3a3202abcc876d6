use vstd::prelude::*;
use vstd::string::StringSliceAdditionalSpecFns;

verus! {

/// Largest length, in bytes, among the given byte strings (0 for none).
pub open spec fn max_len_of(s: Seq<Seq<u8>>) -> nat
    decreases s.len(),
{
    if s.len() == 0 {
        0
    } else {
        let rest = max_len_of(s.drop_last());
        let last = s.last().len();
        if rest < last { last } else { rest }
    }
}

/// Returns the length in bytes of the longest string of `arr`, or 0 when it
/// is empty.
pub fn max_strlen(arr: &[&str]) -> (r: usize)
    ensures
        r as nat == max_len_of(arr@.map_values(|s: &str| s.spec_bytes())),
{
    let mut best: usize = 0;
    let mut pos: usize = 0;
    while pos < arr.len()
        invariant
            pos <= arr@.len(),
            best as nat == max_len_of(arr@.subrange(0, pos as int).map_values(|s: &str| s.spec_bytes())),
        decreases arr@.len() - pos,
    {
        let cur = arr[pos].as_bytes().len();
        proof {
            let m = arr@.subrange(0, pos as int + 1).map_values(|s: &str| s.spec_bytes());
            assert(m.drop_last() =~= arr@.subrange(0, pos as int).map_values(|s: &str| s.spec_bytes()));
            assert(m.last() == arr@[pos as int].spec_bytes());
            assert(cur as nat == m.last().len());
        }
        if best < cur {
            best = cur;
        }
        pos = pos + 1;
    }
    proof {
        assert(arr@.subrange(0, arr@.len() as int) =~= arr@);
    }
    best
}

/// The `$`-anchored form of a path given in either surface syntax: a path that
/// starts with `$` is kept, `.` becomes `$`, a path with a leading `.` gets `$`
/// in front, and any other text gets `$.` in front.
pub open spec fn normalized_path(p: Seq<char>) -> Seq<char> {
    if p.len() > 0 && p[0] == '$' {
        p
    } else if p == seq!['.'] {
        seq!['$']
    } else if p.len() > 0 && p[0] == '.' {
        seq!['$'] + p
    } else {
        seq!['$', '.'] + p
    }
}

/// Rewrites a legacy path into the `$`-anchored syntax.
pub fn backwards_compat_path(path: String) -> (r: String)
    ensures
        r@ == normalized_path(path@),
{
    let n = path.as_str().unicode_len();
    if n > 0 && path.as_str().get_char(0) == '$' {
        return path;
    }
    if n == 1 && path.as_str().get_char(0) == '.' {
        proof {
            assert(path@ =~= seq!['.']);
        }
        let r = String::from_str("$");
        proof {
            reveal_strlit("$");
            assert(r@ =~= seq!['$']);
        }
        return r;
    }
    let prefix = if n > 0 && path.as_str().get_char(0) == '.' {
        String::from_str("$")
    } else {
        String::from_str("$.")
    };
    proof {
        reveal_strlit("$");
        reveal_strlit("$.");
        if n == 1 && path@[0] == '.' {
            assert(path@ =~= seq!['.']);
        }
        if path@ == seq!['.'] {
            assert(n == 1);
        }
    }
    let r = prefix.concat(path.as_str());
    r
}

} // verus!
