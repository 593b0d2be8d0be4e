//! Verified string helpers: equality by characters and substring search.
//! These back the URL parsing of the request server.

use vstd::prelude::*;
use vstd::string::StrSliceExecFns;

verus! {

/// Character-by-character string equality.
pub fn str_eq(a: &str, b: &str) -> (r: bool)
    ensures
        r == (a@ == b@),
{
    let an = a.unicode_len();
    let bn = b.unicode_len();
    if an != bn {
        return false;
    }
    let mut i: usize = 0;
    while i < an
        invariant
            an == a@.len(),
            bn == b@.len(),
            an == bn,
            i <= an,
            forall|j: int| 0 <= j < i ==> a@[j] == b@[j],
        decreases an - i,
    {
        if a.get_char(i) != b.get_char(i) {
            return false;
        }
        i = i + 1;
    }
    proof {
        assert(a@ =~= b@);
    }
    true
}

/// First index at or after `from` where `pat` occurs in `s`, if any.
pub open spec fn spec_find(s: Seq<char>, pat: Seq<char>, from: int) -> Option<int>
    decreases s.len() - from,
{
    if pat.len() == 0 {
        Some(from)
    } else if from < 0 || from + pat.len() > s.len() {
        None
    } else if s.subrange(from, from + pat.len()) == pat {
        Some(from)
    } else {
        spec_find(s, pat, from + 1)
    }
}

/// Whether `pat` occurs in `s` starting exactly at `at`.
fn match_at(s: &str, pat: &str, at: usize, s_len: usize, p_len: usize) -> (r: bool)
    requires
        s_len == s@.len(),
        p_len == pat@.len(),
        p_len <= s_len,
        at <= s_len - p_len,
    ensures
        r == (s@.subrange(at as int, at + p_len) == pat@),
{
    let mut j: usize = 0;
    while j < p_len
        invariant
            s_len == s@.len(),
            p_len == pat@.len(),
            p_len <= s_len,
            at <= s_len - p_len,
            j <= p_len,
            forall|k: int| 0 <= k < j ==> s@[at + k] == pat@[k],
        decreases p_len - j,
    {
        if s.get_char(at + j) != pat.get_char(j) {
            proof {
                assert(s@.subrange(at as int, at + p_len)[j as int] != pat@[j as int]);
            }
            return false;
        }
        j = j + 1;
    }
    proof {
        assert(s@.subrange(at as int, at + p_len) =~= pat@);
    }
    true
}

/// Finds the first occurrence of `pat` in `s` at or after `from`.
pub fn find_str(s: &str, pat: &str, from: usize) -> (r: Option<usize>)
    requires
        from <= s@.len(),
        pat@.len() > 0,
    ensures
        match r {
            Some(i) => spec_find(s@, pat@, from as int) == Some(i as int),
            None => spec_find(s@, pat@, from as int) is None,
        },
{
    let s_len = s.unicode_len();
    let p_len = pat.unicode_len();
    if p_len > s_len {
        return None;
    }
    let mut i: usize = from;
    while i <= s_len - p_len
        invariant
            s_len == s@.len(),
            p_len == pat@.len(),
            0 < p_len <= s_len,
            from <= i,
            i <= s_len,
            spec_find(s@, pat@, from as int) == spec_find(s@, pat@, i as int),
        decreases s_len - i,
    {
        if match_at(s, pat, i, s_len, p_len) {
            return Some(i);
        }
        i = i + 1;
    }
    None
}


/// A found occurrence lies within bounds and matches the pattern.
pub proof fn lemma_spec_find_bounds(s: Seq<char>, pat: Seq<char>, from: int, i: int)
    requires
        pat.len() > 0,
        spec_find(s, pat, from) == Some(i),
    ensures
        from <= i,
        i + pat.len() <= s.len(),
        s.subrange(i, i + pat.len()) == pat,
    decreases s.len() - from,
{
    if from + pat.len() > s.len() || from < 0 {
    } else if s.subrange(from, from + pat.len()) == pat {
    } else {
        lemma_spec_find_bounds(s, pat, from + 1, i);
    }
}

} // verus!
