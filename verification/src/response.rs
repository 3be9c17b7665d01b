//! Classifying a raw HTTP response.
//!
//! A response with status code 200 is a success and its body is printed:
//! the body is the last segment left after repeatedly skipping past
//! `\r\n\r\n` separators, scanning left to right (so for back-to-back
//! separators the skip is greedy, never overlapping). Any other parsable
//! code is a failure reported by number; a response whose status line does
//! not parse has no classification at all.

use vstd::prelude::*;

use crate::search::contains_from;
use crate::search::first_match_from;
use crate::search::find_from;
use crate::search::lemma_first_match_exists;
use crate::search::lemma_first_match_unique;
use crate::status::has_status_code;
use crate::status::status_code_of;
use crate::status::try_get_response_code;

verus! {

/// The blank-line separator `\r\n\r\n` between header block and body.
pub open spec fn blank_sep() -> Seq<char> {
    seq!['\r', '\n', '\r', '\n']
}

/// Start of the last segment when `text` is split on `\r\n\r\n` from
/// position `from`: skip past each separator occurrence in turn.
pub open spec fn body_start_from(text: Seq<char>, from: int) -> int
    decreases text.len() - from
        when 0 <= from <= text.len()
        via body_start_from_decreases
{
    if contains_from(text, blank_sep(), from) {
        body_start_from(text, first_match_from(text, blank_sep(), from) + 4)
    } else {
        from
    }
}

#[via_fn]
proof fn body_start_from_decreases(text: Seq<char>, from: int) {
    if contains_from(text, blank_sep(), from) {
        lemma_first_match_exists(text, blank_sep(), from);
    }
}

/// The body the probe prints for a successful response.
pub open spec fn body_of(text: Seq<char>) -> Seq<char> {
    text.subrange(body_start_from(text, 0), text.len() as int)
}

/// Everything after the last greedily-found `\r\n\r\n`; the whole text
/// when there is no separator at all.
pub fn response_body<'a>(text: &'a str) -> (r: &'a str)
    ensures
        r@ == body_of(text@),
{
    proof {
        reveal_strlit("\r\n\r\n");
        assert("\r\n\r\n"@ =~= blank_sep());
    }
    let len = text.unicode_len();
    let mut cur: usize = 0;
    loop
        invariant
            0 <= cur <= len,
            len == text@.len(),
            body_start_from(text@, 0) == body_start_from(text@, cur as int),
        decreases len - cur,
    {
        proof {
            reveal_strlit("\r\n\r\n");
            assert("\r\n\r\n"@ =~= blank_sep());
        }
        match find_from(text, "\r\n\r\n", cur) {
            Some(i) => {
                proof {
                    lemma_first_match_unique(text@, blank_sep(), cur as int, i as int);
                }
                cur = i + 4;
            },
            None => {
                return text.substring_char(cur, len);
            },
        }
    }
}

/// What one read-to-completion response means for the probe.
pub enum ResponseClass<'a> {
    /// Status 200: the probe succeeded; holds the body to print.
    Success(&'a str),
    /// Any other parsable status code.
    Failure(u32),
}

/// Classify a decoded response: `None` when the status line does not
/// parse, the printable body on a 200, the code itself otherwise.
pub fn classify_response<'a>(text: &'a str) -> (r: Option<ResponseClass<'a>>)
    ensures
        match r {
            Some(ResponseClass::Success(body)) => {
                &&& has_status_code(text@)
                &&& status_code_of(text@) == 200
                &&& body@ == body_of(text@)
            },
            Some(ResponseClass::Failure(code)) => {
                &&& has_status_code(text@)
                &&& status_code_of(text@) == code as int
                &&& code != 200
            },
            None => !has_status_code(text@),
        },
{
    match try_get_response_code(text) {
        Some(code) => {
            if code == 200 {
                Some(ResponseClass::Success(response_body(text)))
            } else {
                Some(ResponseClass::Failure(code))
            }
        },
        None => None,
    }
}

} // verus!
