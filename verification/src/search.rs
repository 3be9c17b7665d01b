//! Substring search over character sequences.
//!
//! The URL splitter and the status-line parser both work by locating the
//! first occurrence of a pattern (`//`, `/`, a space, `\r\n`) at or after
//! some position. This module defines what "first occurrence" means over
//! `Seq<char>` and provides a verified linear-scan search.

use vstd::prelude::*;

verus! {

/// `pat` occurs in `s` starting at index `i`.
pub open spec fn match_at(s: Seq<char>, pat: Seq<char>, i: int) -> bool {
    0 <= i && i + pat.len() <= s.len() && s.subrange(i, i + pat.len()) == pat
}

/// `pat` occurs somewhere in `s` at or after index `from`.
pub open spec fn contains_from(s: Seq<char>, pat: Seq<char>, from: int) -> bool {
    exists|i: int| from <= i && match_at(s, pat, i)
}

/// `i` is the first occurrence of `pat` in `s` at or after `from`.
pub open spec fn is_first_match_from(s: Seq<char>, pat: Seq<char>, from: int, i: int) -> bool {
    &&& from <= i
    &&& match_at(s, pat, i)
    &&& forall|j: int| from <= j < i ==> !match_at(s, pat, j)
}

/// The index of the first occurrence of `pat` in `s` at or after `from`;
/// meaningful only when `contains_from(s, pat, from)` holds.
pub open spec fn first_match_from(s: Seq<char>, pat: Seq<char>, from: int) -> int {
    choose|i: int| is_first_match_from(s, pat, from, i)
}

/// Wherever some occurrence exists, a first occurrence exists.
pub proof fn lemma_first_match_exists(s: Seq<char>, pat: Seq<char>, from: int)
    requires
        contains_from(s, pat, from),
    ensures
        is_first_match_from(s, pat, from, first_match_from(s, pat, from)),
    decreases s.len() - from,
{
    let w = choose|i: int| from <= i && match_at(s, pat, i);
    if match_at(s, pat, from) {
        assert(is_first_match_from(s, pat, from, from));
    } else {
        assert(from + 1 <= w && match_at(s, pat, w));
        lemma_first_match_exists(s, pat, from + 1);
        let i1 = first_match_from(s, pat, from + 1);
        assert(is_first_match_from(s, pat, from, i1));
    }
    let f = choose|i: int| is_first_match_from(s, pat, from, i);
    assert(is_first_match_from(s, pat, from, f));
    assert(f == first_match_from(s, pat, from));
}

/// A first occurrence is unique, so `first_match_from` equals any witness.
pub proof fn lemma_first_match_unique(s: Seq<char>, pat: Seq<char>, from: int, i: int)
    requires
        is_first_match_from(s, pat, from, i),
    ensures
        first_match_from(s, pat, from) == i,
{
    lemma_first_match_exists(s, pat, from);
    let f = first_match_from(s, pat, from);
    if f < i {
        assert(!match_at(s, pat, f));
    }
    if i < f {
        assert(!match_at(s, pat, i));
    }
}

/// Whether `pat` occurs in `s` starting exactly at index `i`.
fn matches_at(s: &str, pat: &str, i: usize, s_len: usize, pat_len: usize) -> (r: bool)
    requires
        s_len == s@.len(),
        pat_len == pat@.len(),
        i + pat_len <= s_len,
    ensures
        r == match_at(s@, pat@, i as int),
{
    let mut j: usize = 0;
    while j < pat_len
        invariant
            0 <= j <= pat_len,
            s_len == s@.len(),
            pat_len == pat@.len(),
            i + pat_len <= s_len,
            forall|k: int| 0 <= k < j ==> s@[i + k] == pat@[k],
        decreases pat_len - j,
    {
        let sc = s.get_char(i + j);
        let pc = pat.get_char(j);
        if sc != pc {
            proof {
                let sub = s@.subrange(i as int, i + pat@.len());
                assert(sub[j as int] == s@[i + j]);
                assert(sub != pat@);
            }
            return false;
        }
        j += 1;
    }
    proof {
        assert(s@.subrange(i as int, i + pat@.len()) =~= pat@);
    }
    true
}

/// Linear scan for the first occurrence of `pat` in `s` at or after `from`.
pub fn find_from(s: &str, pat: &str, from: usize) -> (r: Option<usize>)
    requires
        from <= s@.len(),
        pat@.len() >= 1,
    ensures
        match r {
            Some(i) => is_first_match_from(s@, pat@, from as int, i as int),
            None => !contains_from(s@, pat@, from as int),
        },
{
    let s_len = s.unicode_len();
    let pat_len = pat.unicode_len();
    let mut i = from;
    while pat_len <= s_len && i <= s_len - pat_len
        invariant
            from <= i,
            s_len == s@.len(),
            pat_len == pat@.len(),
            pat_len >= 1,
            i <= s_len + 1,
            forall|j: int| from <= j < i ==> !match_at(s@, pat@, j),
        decreases s_len + 1 - i,
    {
        if matches_at(s, pat, i, s_len, pat_len) {
            return Some(i);
        }
        i += 1;
    }
    proof {
        assert forall|j: int| from <= j implies !match_at(s@, pat@, j) by {
            if j < i {
            } else {
                assert(j + pat@.len() > s@.len());
            }
        }
    }
    None
}

} // verus!
