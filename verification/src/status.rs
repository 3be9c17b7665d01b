//! Parsing the status code out of a raw HTTP response.
//!
//! The status line is everything before the first `\r\n` (or the whole
//! response when there is none). Its second space-delimited token is the
//! status code; it must be a non-empty run of decimal digits whose value
//! fits in a `u32`, otherwise the response has no parsable code.

use vstd::prelude::*;

use crate::search::contains_from;
use crate::search::first_match_from;
use crate::search::find_from;
use crate::search::lemma_first_match_unique;

verus! {

/// The line terminator `\r\n`.
pub open spec fn crlf() -> Seq<char> {
    seq!['\r', '\n']
}

/// A single space.
pub open spec fn space() -> Seq<char> {
    seq![' ']
}

/// Index where the status line ends: the first `\r\n`, or the end.
pub open spec fn line_end(resp: Seq<char>) -> int {
    if contains_from(resp, crlf(), 0) {
        first_match_from(resp, crlf(), 0)
    } else {
        resp.len() as int
    }
}

/// The status line of a response.
pub open spec fn status_line_of(resp: Seq<char>) -> Seq<char> {
    resp.subrange(0, line_end(resp))
}

/// Start of the second space-delimited token of `line`: just past the
/// first space. Meaningful only when the line has a space at all.
pub open spec fn token_start(line: Seq<char>) -> int {
    first_match_from(line, space(), 0) + 1
}

/// End of the second space-delimited token: the next space, or line end.
pub open spec fn token_end(line: Seq<char>) -> int {
    if contains_from(line, space(), token_start(line)) {
        first_match_from(line, space(), token_start(line))
    } else {
        line.len() as int
    }
}

/// The second space-delimited token of the status line.
pub open spec fn status_token_of(resp: Seq<char>) -> Seq<char> {
    let line = status_line_of(resp);
    line.subrange(token_start(line), token_end(line))
}

/// A decimal digit.
pub open spec fn is_digit(c: char) -> bool {
    '0' as int <= c as int <= '9' as int
}

/// The value of one decimal digit.
pub open spec fn digit_val(c: char) -> int {
    c as int - '0' as int
}

/// Every character of `s` is a decimal digit.
pub open spec fn all_digits(s: Seq<char>) -> bool {
    forall|i: int| 0 <= i < s.len() ==> is_digit(#[trigger] s[i])
}

/// The numeric value of a digit string, most significant digit first.
pub open spec fn digits_val(s: Seq<char>) -> int
    decreases s.len(),
{
    if s.len() == 0 {
        0
    } else {
        digits_val(s.drop_last()) * 10 + digit_val(s.last())
    }
}

/// `s` is a token that parses as a `u32`: non-empty, all digits, in range.
pub open spec fn is_u32_token(s: Seq<char>) -> bool {
    s.len() > 0 && all_digits(s) && digits_val(s) <= u32::MAX
}

/// The response has a parsable status code: its status line has a second
/// space-delimited token and that token is a `u32` digit string.
pub open spec fn has_status_code(resp: Seq<char>) -> bool {
    &&& contains_from(status_line_of(resp), space(), 0)
    &&& is_u32_token(status_token_of(resp))
}

/// The status code of a response with a parsable one.
pub open spec fn status_code_of(resp: Seq<char>) -> int {
    digits_val(status_token_of(resp))
}

/// A digit string is worth at least its prefix: appending digits never
/// shrinks the value.
proof fn lemma_digits_val_grows(s: Seq<char>, i: int)
    requires
        0 <= i <= s.len(),
        all_digits(s),
    ensures
        digits_val(s.subrange(0, i)) >= 0,
        digits_val(s.subrange(0, i)) <= digits_val(s),
    decreases s.len() - i,
{
    if i == s.len() {
        assert(s.subrange(0, i) =~= s);
        lemma_digits_val_nonneg(s);
    } else {
        lemma_digits_val_grows(s, i + 1);
        let p = s.subrange(0, i);
        let q = s.subrange(0, i + 1);
        assert(q.drop_last() =~= p);
        assert(is_digit(q.last()));
        lemma_digits_val_nonneg(p);
    }
}

/// A digit string's value is never negative.
proof fn lemma_digits_val_nonneg(s: Seq<char>)
    requires
        all_digits(s),
    ensures
        digits_val(s) >= 0,
    decreases s.len(),
{
    if s.len() > 0 {
        assert(all_digits(s.drop_last())) by {
            assert(forall|i: int|
                0 <= i < s.len() - 1 ==> s.drop_last()[i] == #[trigger] s[i]);
        }
        lemma_digits_val_nonneg(s.drop_last());
        assert(is_digit(s.last()));
    }
}

/// Parse a digit string as a `u32`; `None` exactly on tokens that are
/// empty, hold a non-digit, or overflow.
pub fn parse_u32_token(token: &str) -> (r: Option<u32>)
    ensures
        match r {
            Some(v) => is_u32_token(token@) && v as int == digits_val(token@),
            None => !is_u32_token(token@),
        },
{
    let len = token.unicode_len();
    if len == 0 {
        return None;
    }
    let mut acc: u64 = 0;
    let mut i: usize = 0;
    while i < len
        invariant
            0 <= i <= len,
            len == token@.len(),
            all_digits(token@.subrange(0, i as int)),
            acc as int == digits_val(token@.subrange(0, i as int)),
            acc <= u32::MAX,
        decreases len - i,
    {
        let c = token.get_char(i);
        let code = c as u32;
        if code < 48 || code > 57 {
            proof {
                assert(token@.subrange(0, token@.len() as int) =~= token@);
                assert(!is_digit(token@[i as int]));
            }
            return None;
        }
        let d = (code - 48) as u64;
        proof {
            assert(is_digit(token@[i as int]));
            assert(d as int == digit_val(token@[i as int]));
            assert(token@.subrange(0, i + 1).drop_last() =~= token@.subrange(0, i as int));
            assert(token@.subrange(0, i + 1).last() == token@[i as int]);
        }
        acc = acc * 10 + d;
        i += 1;
        if acc > u32::MAX as u64 {
            proof {
                assert(all_digits(token@.subrange(0, i as int)));
                if is_u32_token(token@) {
                    lemma_digits_val_grows(token@, i as int);
                }
            }
            return None;
        }
    }
    proof {
        assert(token@.subrange(0, len as int) =~= token@);
    }
    Some(acc as u32)
}

/// Extract the status code of a response, or `None` when its status line
/// has no second token or that token is not a `u32` digit string.
pub fn try_get_response_code(response: &str) -> (r: Option<u32>)
    ensures
        match r {
            Some(c) => has_status_code(response@) && c as int == status_code_of(response@),
            None => !has_status_code(response@),
        },
{
    proof {
        reveal_strlit("\r\n");
        reveal_strlit(" ");
        assert("\r\n"@ =~= crlf());
        assert(" "@ =~= space());
    }
    let le: usize = match find_from(response, "\r\n", 0) {
        Some(i) => {
            proof {
                lemma_first_match_unique(response@, crlf(), 0, i as int);
            }
            i
        },
        None => response.unicode_len(),
    };
    let line = response.substring_char(0, le);
    proof {
        assert(line@ == status_line_of(response@));
    }
    let a: usize = match find_from(line, " ", 0) {
        Some(a) => {
            proof {
                lemma_first_match_unique(line@, space(), 0, a as int);
            }
            a
        },
        None => {
            return None;
        },
    };
    let b: usize = match find_from(line, " ", a + 1) {
        Some(b) => {
            proof {
                lemma_first_match_unique(line@, space(), a + 1, b as int);
            }
            b
        },
        None => le,
    };
    let token = line.substring_char(a + 1, b);
    proof {
        assert(token@ == status_token_of(response@));
    }
    parse_u32_token(token)
}

/// Extract the status code of a response whose status line is known to
/// carry one.
pub fn get_response_code(response: &str) -> (r: u32)
    requires
        has_status_code(response@),
    ensures
        r as int == status_code_of(response@),
{
    match try_get_response_code(response) {
        Some(c) => c,
        None => vstd::pervasive::unreached(),
    }
}

} // verus!
