//! Character-level helpers: conversions between strings and character
//! vectors, and the scanners the tokenizer runs on.

use vstd::prelude::*;

use crate::parse_spec::{
    lemma_sp_find, sp_find, sp_find_gt, sp_is_upper, sp_is_ws, sp_key_end, sp_skip_ws, sp_ws_end,
};

verus! {

use vstd::string::StrSliceExecFns;

/// Relies on `Iterator::collect` building a `String` from `char`s: the
/// result holds exactly the given characters, in order.
#[verifier::external_body]
pub(crate) fn chars_to_string(v: &Vec<char>) -> (r: String)
    ensures
        r@ == v@,
{
    v.iter().collect()
}

/// The characters of a string, via vstd's character access.
pub(crate) fn str_to_chars(s: &str) -> (r: Vec<char>)
    ensures
        r@ == s@,
{
    let n = s.unicode_len();
    let mut v: Vec<char> = Vec::new();
    let mut i: usize = 0;
    while i < n
        invariant
            i <= n,
            n == s@.len(),
            v@ == s@.subrange(0, i as int),
        decreases n - i,
    {
        let c = s.get_char(i);
        v.push(c);
        i = i + 1;
        proof {
            assert(v@ =~= s@.subrange(0, i as int));
        }
    }
    proof {
        assert(s@.subrange(0, n as int) =~= s@);
    }
    v
}

/// Character-wise string equality.
pub(crate) fn str_eq(a: &str, b: &str) -> (r: bool)
    ensures
        r == (a@ == b@),
{
    let na = a.unicode_len();
    let nb = b.unicode_len();
    if na != nb {
        return false;
    }
    let mut i: usize = 0;
    while i < na
        invariant
            i <= na,
            na == a@.len(),
            na == b@.len(),
            forall|k: int| 0 <= k < i ==> a@[k] == b@[k],
        decreases na - i,
    {
        if a.get_char(i) != b.get_char(i) {
            return false;
        }
        i = i + 1;
    }
    proof {
        assert(a@ =~= b@);
    }
    true
}

/// Copies `text[from..to]` out as a fresh vector.
pub(crate) fn sub_chars(text: &Vec<char>, from: usize, to: usize) -> (r: Vec<char>)
    requires
        from <= to <= text.len(),
    ensures
        r@ == text@.subrange(from as int, to as int),
{
    let mut v: Vec<char> = Vec::new();
    let mut i: usize = from;
    while i < to
        invariant
            from <= i <= to <= text.len(),
            v@ == text@.subrange(from as int, i as int),
        decreases to - i,
    {
        let c = text[i];
        v.push(c);
        i = i + 1;
        proof {
            assert(v@ =~= text@.subrange(from as int, i as int));
        }
    }
    v
}

pub(crate) fn is_ws_char(c: char) -> (r: bool)
    ensures
        r == sp_is_ws(c),
{
    c == ' ' || c == '\t' || c == '\n' || c == '\r'
}

pub(crate) fn is_upper_char(c: char) -> (r: bool)
    ensures
        r == sp_is_upper(c),
{
    c >= 'A' && c <= 'Z'
}

/// The executable counterpart of `sp_find`.
pub(crate) fn find_char(text: &Vec<char>, i: usize, c: char) -> (r: usize)
    requires
        i <= text.len(),
    ensures
        r == sp_find(text@, i as int, c),
        i <= r <= text.len(),
{
    proof {
        lemma_sp_find(text@, i as int, c);
    }
    let mut j: usize = i;
    while j < text.len()
        invariant
            i <= j <= text.len(),
            sp_find(text@, i as int, c) == sp_find(text@, j as int, c),
        decreases text.len() - j,
    {
        if text[j] == c {
            return j;
        }
        j = j + 1;
    }
    text.len()
}

/// The executable counterpart of `sp_find_gt`.
pub(crate) fn find_gt(text: &Vec<char>, i: usize) -> (r: usize)
    requires
        i <= text.len(),
    ensures
        r == sp_find_gt(text@, i as int, None),
        i <= r <= text.len(),
{
    proof {
        crate::parse_spec::lemma_sp_find_gt(text@, i as int, None);
    }
    let mut j: usize = i;
    let mut q: Option<char> = None;
    while j < text.len()
        invariant
            i <= j <= text.len(),
            sp_find_gt(text@, i as int, None) == sp_find_gt(text@, j as int, q),
        decreases text.len() - j,
    {
        let c = text[j];
        match q {
            Some(qc) => {
                if c == qc {
                    q = None;
                } else {
                }
            },
            None => {
                if c == '>' {
                    return j;
                } else if c == '"' || c == '\'' {
                    q = Some(c);
                } else {
                }
            },
        }
        j = j + 1;
    }
    text.len()
}

/// The executable counterpart of `sp_skip_ws`.
pub(crate) fn skip_ws(text: &Vec<char>, i: usize) -> (r: usize)
    requires
        i <= text.len(),
    ensures
        r == sp_skip_ws(text@, i as int),
        i <= r <= text.len(),
{
    let mut j: usize = i;
    while j < text.len()
        invariant
            i <= j <= text.len(),
            sp_skip_ws(text@, i as int) == sp_skip_ws(text@, j as int),
        decreases text.len() - j,
    {
        if !is_ws_char(text[j]) {
            return j;
        }
        j = j + 1;
    }
    text.len()
}

/// The executable counterpart of `sp_key_end`.
pub(crate) fn key_end(text: &Vec<char>, i: usize) -> (r: usize)
    requires
        i <= text.len(),
    ensures
        r == sp_key_end(text@, i as int),
        i <= r <= text.len(),
{
    let mut j: usize = i;
    while j < text.len()
        invariant
            i <= j <= text.len(),
            sp_key_end(text@, i as int) == sp_key_end(text@, j as int),
        decreases text.len() - j,
    {
        if is_ws_char(text[j]) || text[j] == '=' {
            return j;
        }
        j = j + 1;
    }
    text.len()
}

/// The executable counterpart of `sp_ws_end`.
pub(crate) fn ws_end(text: &Vec<char>, i: usize) -> (r: usize)
    requires
        i <= text.len(),
    ensures
        r == sp_ws_end(text@, i as int),
        i <= r <= text.len(),
{
    let mut j: usize = i;
    while j < text.len()
        invariant
            i <= j <= text.len(),
            sp_ws_end(text@, i as int) == sp_ws_end(text@, j as int),
        decreases text.len() - j,
    {
        if is_ws_char(text[j]) {
            return j;
        }
        j = j + 1;
    }
    text.len()
}

} // verus!
