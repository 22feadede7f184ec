//! Token classifiers: pure predicates over a single whitespace-delimited
//! token, used as positional anchors when header lines are parsed.
use vstd::prelude::*;

use crate::text;

verus! {

// ---------------------------------------------------------------------------
// Disqualification statuses
// ---------------------------------------------------------------------------

/// A disqualification status token: exactly `DQ`, `DSQ`, `DFS` or `DNS`,
/// case-sensitively.
pub open spec fn is_dq_status_spec(t: Seq<char>) -> bool {
    ||| t == seq!['D', 'Q']
    ||| t == seq!['D', 'S', 'Q']
    ||| t == seq!['D', 'F', 'S']
    ||| t == seq!['D', 'N', 'S']
}

/// Checks if a string represents a disqualification status.
pub fn is_dq_status(s: &str) -> (r: bool)
    ensures
        r == is_dq_status_spec(s@),
{
    let cs = text::str_to_chars(s);
    is_dq_status_chars(&cs)
}

pub fn is_dq_status_chars(t: &Vec<char>) -> (r: bool)
    ensures
        r == is_dq_status_spec(t@),
{
    if t.len() == 2 {
        let r = t[0] == 'D' && t[1] == 'Q';
        proof {
            if r {
                assert(t@ =~= seq!['D', 'Q']);
            }
        }
        r
    } else if t.len() == 3 {
        let r = (t[0] == 'D' && t[1] == 'S' && t[2] == 'Q') || (t[0] == 'D' && t[1] == 'F' && t[2]
            == 'S') || (t[0] == 'D' && t[1] == 'N' && t[2] == 'S');
        proof {
            if r {
                if t@[1] == 'S' && t@[2] == 'Q' {
                    assert(t@ =~= seq!['D', 'S', 'Q']);
                } else if t@[1] == 'F' {
                    assert(t@ =~= seq!['D', 'F', 'S']);
                } else {
                    assert(t@ =~= seq!['D', 'N', 'S']);
                }
            }
        }
        r
    } else {
        false
    }
}

// ---------------------------------------------------------------------------
// Class-year tokens
// ---------------------------------------------------------------------------

/// Case-insensitive match of a two-character token against a fixed pair.
pub open spec fn year_pair(t: Seq<char>, a: char, b: char) -> bool {
    t.len() == 2 && text::eqi_char(t[0], a) && text::eqi_char(t[1], b)
}

/// A class-year token: exactly two characters, either one of the closed set
/// of eligibility codes (case-insensitively) or two ASCII digits.
pub open spec fn is_year_pattern_spec(t: Seq<char>) -> bool {
    t.len() == 2 && (is_year_code(t) || (text::is_digit_char(t[0]) && text::is_digit_char(t[1])))
}

pub open spec fn is_year_code(t: Seq<char>) -> bool {
    ||| year_pair(t, 'F', 'R')
    ||| year_pair(t, 'S', 'O')
    ||| year_pair(t, 'J', 'R')
    ||| year_pair(t, 'S', 'R')
    ||| year_pair(t, 'G', 'R')
    ||| year_pair(t, '5', 'Y')
    ||| year_pair(t, 'R', 'S')
    ||| year_pair(t, 'F', 'F')
}

/// Checks if a string matches a year pattern; often age for club meets and
/// grade for collegiate.
pub fn is_year_pattern(s: &str) -> (r: bool)
    ensures
        r == is_year_pattern_spec(s@),
{
    let cs = text::str_to_chars(s);
    is_year_pattern_chars(&cs)
}

pub fn is_year_pattern_chars(t: &Vec<char>) -> (r: bool)
    ensures
        r == is_year_pattern_spec(t@),
{
    if t.len() != 2 {
        return false;
    }
    let a = t[0];
    let b = t[1];
    (text::eqi(a, 'F') && text::eqi(b, 'R')) || (text::eqi(a, 'S') && text::eqi(b, 'O')) || (
    text::eqi(a, 'J') && text::eqi(b, 'R')) || (text::eqi(a, 'S') && text::eqi(b, 'R')) || (
    text::eqi(a, 'G') && text::eqi(b, 'R')) || (text::eqi(a, '5') && text::eqi(b, 'Y')) || (
    text::eqi(a, 'R') && text::eqi(b, 'S')) || (text::eqi(a, 'F') && text::eqi(b, 'F')) || (
    text::is_digit(a) && text::is_digit(b))
}

/// A class-year token always has exactly two characters: every token of any
/// other length is rejected, whatever it contains.
pub proof fn lemma_year_pattern_rejects_other_lengths(t: Seq<char>)
    ensures
        t.len() != 2 ==> !is_year_pattern_spec(t),
{
}

// ---------------------------------------------------------------------------
// Time tokens
// ---------------------------------------------------------------------------

/// A well-formed swim time token, after trailing record annotations (ASCII
/// letters) are stripped: either `M:SS.ss`-shaped — digits, a colon, then a
/// tail of length at least four containing a dot — or a plain decimal whose
/// final dot is followed by at least two digits.  Rejects bare tokens such
/// as `10.`.
pub open spec fn is_valid_time_spec(t: Seq<char>) -> bool {
    let u = text::strip_trail_alpha(t);
    if text::has_char(u, ':') {
        let k = text::first_idx(u, ':');
        k > 0 && text::all_digits(u.take(k)) && text::has_char(u.skip(k + 1), '.') && u.len() - (k
            + 1) >= 4
    } else if text::has_char(u, '.') {
        let k = text::last_idx(u, '.');
        u.len() - (k + 1) >= 2 && text::all_digits(u.skip(k + 1))
    } else {
        false
    }
}

/// Validates a string as a swim time format (e.g., 21.09, 1:08.61, 4:02.31N).
pub fn is_valid_time_format(s: &str) -> (r: bool)
    ensures
        r == is_valid_time_spec(s@),
{
    let cs = text::str_to_chars(s);
    is_valid_time_chars(&cs)
}

pub fn is_valid_time_chars(t: &Vec<char>) -> (r: bool)
    ensures
        r == is_valid_time_spec(t@),
{
    let u = text::strip_alpha_chars(t);
    let un = u.len();
    match text::find_first(&u, ':') {
        Some(k) => {
            if k == 0 {
                return false;
            }
            let before = text::subvec(&u, 0, k);
            proof {
                assert(before@ =~= u@.take(k as int));
            }
            if !text::all_digits_vec(&before) {
                return false;
            }
            let after = text::subvec(&u, k + 1, un);
            proof {
                assert(after@ =~= u@.skip(k + 1));
            }
            text::contains_char(&after, '.') && after.len() >= 4
        },
        None => {
            match text::find_last(&u, '.') {
                Some(k) => {
                    let after = text::subvec(&u, k + 1, un);
                    proof {
                        assert(after@ =~= u@.skip(k + 1));
                    }
                    after.len() >= 2 && text::all_digits_vec(&after)
                },
                None => false,
            }
        },
    }
}

// ---------------------------------------------------------------------------
// Session extraction
// ---------------------------------------------------------------------------

/// `s` with every trailing `.htm` suffix removed, as Rust's
/// `trim_end_matches(".htm")` does.
pub open spec fn strip_htm_suffixes(s: Seq<char>) -> Seq<char>
    decreases s.len(),
{
    if text::ends_htm(s) {
        strip_htm_suffixes(s.take(s.len() - 4))
    } else {
        s
    }
}

/// The event code of a result page URL: the part after the final `/`, with
/// trailing `.htm` suffixes removed.
pub open spec fn session_code(url: Seq<char>) -> Seq<char> {
    strip_htm_suffixes(url.skip(text::last_idx(url, '/') + 1))
}

/// The session marker of an event URL: the fourth character from the end of
/// the event code, accepted only when it is `P` (prelims) or `F` (finals).
pub open spec fn extract_session_spec(url: Seq<char>) -> Option<char> {
    let code = session_code(url);
    if code.len() >= 4 {
        let c = code[code.len() - 4];
        if c == 'P' || c == 'F' {
            Some(c)
        } else {
            None
        }
    } else {
        None
    }
}

/// Extracts session character (P/F) from an event URL filename.
#[verifier::loop_isolation(false)]
pub fn extract_session_from_url(url: &str) -> (r: Option<char>)
    ensures
        r == extract_session_spec(url@),
{
    let cs = text::str_to_chars(url);
    let n = cs.len();
    let start: usize = match text::find_last(&cs, '/') {
        Some(i) => i + 1,
        None => 0,
    };
    let mut code = text::subvec(&cs, start, n);
    proof {
        assert(code@ =~= cs@.skip(text::last_idx(cs@, '/') + 1));
    }
    let ghost orig = code@;
    while text::ends_htm_chars(&code)
        invariant
            strip_htm_suffixes(orig) == strip_htm_suffixes(code@),
        decreases code@.len(),
    {
        let n = code.len();
        code = text::subvec(&code, 0, n - 4);
    }
    if code.len() >= 4 {
        let c = code[code.len() - 4];
        if c == 'P' || c == 'F' {
            Some(c)
        } else {
            None
        }
    } else {
        None
    }
}

} // verus!
