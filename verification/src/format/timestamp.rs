//! Timestamp rules. The modern dialect is a full RFC 3339 instant,
//! validated by the external date-time parser; the legacy dialect is a
//! three-letter month, a day, an optional year and `HH:MM:SS`, with an
//! optional trailing colon preserved verbatim.
use vstd::prelude::*;
use vstd::string::StrSliceExecFns;

use crate::error::{ErrorKind, SyslogParseError};
use crate::format::{digits1_at, digits1_end, space1_at, space1_end};
use crate::text::{
    blank_pred, digit_pred, find_char, find_from, lemma_find_from, lemma_run_end, opt_pos, run_end,
};
use crate::trusted::{is_rfc3339, rfc3339_valid};

verus! {

/// ASCII case-insensitive match of a character against a lowercase
/// letter.
pub open spec fn eq_letter(c: char, l: char) -> bool {
    c == l || c as u32 + 32 == l as u32
}

/// The twelve month abbreviations, compared ASCII case-insensitively.
/// Unicode lowercasing agrees with this comparison here: no character
/// outside ASCII lowercases to a letter of these names.
pub open spec fn is_month3(a: char, b: char, c: char) -> bool {
    ||| (eq_letter(a, 'j') && eq_letter(b, 'a') && eq_letter(c, 'n'))
    ||| (eq_letter(a, 'f') && eq_letter(b, 'e') && eq_letter(c, 'b'))
    ||| (eq_letter(a, 'm') && eq_letter(b, 'a') && eq_letter(c, 'r'))
    ||| (eq_letter(a, 'a') && eq_letter(b, 'p') && eq_letter(c, 'r'))
    ||| (eq_letter(a, 'm') && eq_letter(b, 'a') && eq_letter(c, 'y'))
    ||| (eq_letter(a, 'j') && eq_letter(b, 'u') && eq_letter(c, 'n'))
    ||| (eq_letter(a, 'j') && eq_letter(b, 'u') && eq_letter(c, 'l'))
    ||| (eq_letter(a, 'a') && eq_letter(b, 'u') && eq_letter(c, 'g'))
    ||| (eq_letter(a, 's') && eq_letter(b, 'e') && eq_letter(c, 'p'))
    ||| (eq_letter(a, 'o') && eq_letter(b, 'c') && eq_letter(c, 't'))
    ||| (eq_letter(a, 'n') && eq_letter(b, 'o') && eq_letter(c, 'v'))
    ||| (eq_letter(a, 'd') && eq_letter(b, 'e') && eq_letter(c, 'c'))
}

/// Whether a three-letter month abbreviation stands at `i`.
pub open spec fn month_at(t: Seq<char>, i: int) -> bool
    recommends
        0 <= i <= t.len(),
{
    i + 3 <= t.len() && is_month3(t[i], t[i + 1], t[i + 2])
}

/// End of `HH:MM:SS` with an optional trailing colon, starting at `i`:
/// three non-empty digit runs separated by colons. The digit runs carry
/// no range restriction.
pub open spec fn hms_end(t: Seq<char>, i: int) -> Option<int>
    recommends
        0 <= i <= t.len(),
{
    match digits1_end(t, i) {
        None => None,
        Some(h) => if h < t.len() && t[h] == ':' {
            match digits1_end(t, h + 1) {
                None => None,
                Some(m) => if m < t.len() && t[m] == ':' {
                    match digits1_end(t, m + 1) {
                        None => None,
                        Some(sec) => if sec < t.len() && t[sec] == ':' {
                            Some(sec + 1)
                        } else {
                            Some(sec)
                        },
                    }
                } else {
                    None
                },
            }
        } else {
            None
        },
    }
}

/// End of the legacy timestamp without a year: month, day, time.
pub open spec fn ts3164_no_year_end(t: Seq<char>, i: int) -> Option<int>
    recommends
        0 <= i <= t.len(),
{
    if !month_at(t, i) {
        None
    } else {
        match space1_end(t, i + 3) {
            None => None,
            Some(a) => match digits1_end(t, a) {
                None => None,
                Some(b) => match space1_end(t, b) {
                    None => None,
                    Some(c) => hms_end(t, c),
                },
            },
        }
    }
}

/// End of the legacy timestamp with a year: month, day, year, time.
pub open spec fn ts3164_with_year_end(t: Seq<char>, i: int) -> Option<int>
    recommends
        0 <= i <= t.len(),
{
    if !month_at(t, i) {
        None
    } else {
        match space1_end(t, i + 3) {
            None => None,
            Some(a) => match digits1_end(t, a) {
                None => None,
                Some(b) => match space1_end(t, b) {
                    None => None,
                    Some(c) => match digits1_end(t, c) {
                        None => None,
                        Some(d) => match space1_end(t, d) {
                            None => None,
                            Some(e) => hms_end(t, e),
                        },
                    },
                },
            },
        }
    }
}

/// End of the modern timestamp: the text up to (and excluding) the first
/// space must be accepted by the RFC 3339 parser. Without a space in the
/// remaining input the rule fails.
pub open spec fn ts3339_end(t: Seq<char>, i: int) -> Option<int>
    recommends
        0 <= i <= t.len(),
{
    match find_from(t, i, ' ') {
        Some(j) => if is_rfc3339(t.subrange(i, j)) {
            Some(j)
        } else {
            None
        },
        None => None,
    }
}

/// End of a legacy-dialect timestamp: the no-year form first, then the
/// with-year form, then the modern form as a fallback.
pub open spec fn ts3164_end(t: Seq<char>, i: int) -> Option<int>
    recommends
        0 <= i <= t.len(),
{
    match ts3164_no_year_end(t, i) {
        Some(j) => Some(j),
        None => match ts3164_with_year_end(t, i) {
            Some(j) => Some(j),
            None => ts3339_end(t, i),
        },
    }
}

pub proof fn lemma_hms_bounds(t: Seq<char>, i: int)
    requires
        0 <= i <= t.len(),
    ensures
        match hms_end(t, i) {
            Some(j) => i < j <= t.len(),
            None => true,
        },
{
    lemma_run_end(t, i, digit_pred());
    let h = run_end(t, i, digit_pred());
    if h > i && h < t.len() && t[h] == ':' {
        lemma_run_end(t, h + 1, digit_pred());
        let m = run_end(t, h + 1, digit_pred());
        if m > h + 1 && m < t.len() && t[m] == ':' {
            lemma_run_end(t, m + 1, digit_pred());
        }
    }
}

pub proof fn lemma_ts3164_bounds(t: Seq<char>, i: int)
    requires
        0 <= i <= t.len(),
    ensures
        match ts3164_end(t, i) {
            Some(j) => i <= j <= t.len(),
            None => true,
        },
        match ts3164_no_year_end(t, i) {
            Some(j) => i < j <= t.len(),
            None => true,
        },
        match ts3164_with_year_end(t, i) {
            Some(j) => i < j <= t.len(),
            None => true,
        },
        match ts3339_end(t, i) {
            Some(j) => i <= j <= t.len(),
            None => true,
        },
{
    lemma_find_from(t, i, ' ');
    if month_at(t, i) {
        lemma_run_end(t, i + 3, blank_pred());
        let a = run_end(t, i + 3, blank_pred());
        if a > i + 3 {
            lemma_run_end(t, a, digit_pred());
            let b = run_end(t, a, digit_pred());
            if b > a {
                lemma_run_end(t, b, blank_pred());
                let c = run_end(t, b, blank_pred());
                if c > b {
                    lemma_hms_bounds(t, c);
                    lemma_run_end(t, c, digit_pred());
                    let d = run_end(t, c, digit_pred());
                    if d > c {
                        lemma_run_end(t, d, blank_pred());
                        let e = run_end(t, d, blank_pred());
                        if e > d {
                            lemma_hms_bounds(t, e);
                        }
                    }
                }
            }
        }
    }
}

/// Exec test of `eq_letter`.
fn eq_letter_exec(c: char, l: char) -> (b: bool)
    ensures
        b == eq_letter(c, l),
{
    c == l || (c as u32) + 32 == l as u32
}

fn month_at_exec(s: &str, i: usize) -> (b: bool)
    requires
        i <= s@.len(),
    ensures
        b == month_at(s@, i as int),
{
    let n = s.unicode_len();
    if n - i < 3 {
        return false;
    }
    let a = s.get_char(i);
    let b = s.get_char(i + 1);
    let c = s.get_char(i + 2);
    (eq_letter_exec(a, 'j') && eq_letter_exec(b, 'a') && eq_letter_exec(c, 'n')) || (eq_letter_exec(
        a,
        'f',
    ) && eq_letter_exec(b, 'e') && eq_letter_exec(c, 'b')) || (eq_letter_exec(a, 'm')
        && eq_letter_exec(b, 'a') && eq_letter_exec(c, 'r')) || (eq_letter_exec(a, 'a')
        && eq_letter_exec(b, 'p') && eq_letter_exec(c, 'r')) || (eq_letter_exec(a, 'm')
        && eq_letter_exec(b, 'a') && eq_letter_exec(c, 'y')) || (eq_letter_exec(a, 'j')
        && eq_letter_exec(b, 'u') && eq_letter_exec(c, 'n')) || (eq_letter_exec(a, 'j')
        && eq_letter_exec(b, 'u') && eq_letter_exec(c, 'l')) || (eq_letter_exec(a, 'a')
        && eq_letter_exec(b, 'u') && eq_letter_exec(c, 'g')) || (eq_letter_exec(a, 's')
        && eq_letter_exec(b, 'e') && eq_letter_exec(c, 'p')) || (eq_letter_exec(a, 'o')
        && eq_letter_exec(b, 'c') && eq_letter_exec(c, 't')) || (eq_letter_exec(a, 'n')
        && eq_letter_exec(b, 'o') && eq_letter_exec(c, 'v')) || (eq_letter_exec(a, 'd')
        && eq_letter_exec(b, 'e') && eq_letter_exec(c, 'c'))
}

/// Validates a three-letter month abbreviation, case-insensitively; any
/// other text is rejected.
pub fn parse_month(s: &str) -> (r: Result<&str, String>)
    ensures
        match r {
            Ok(m) => s@.len() == 3 && is_month3(s@[0], s@[1], s@[2]) && m@ == s@,
            Err(_) => !(s@.len() == 3 && is_month3(s@[0], s@[1], s@[2])),
        },
{
    let n = s.unicode_len();
    if n == 3 && month_at_exec(s, 0) {
        Ok(s)
    } else {
        Err("invalid month".to_owned())
    }
}

fn hms_at(s: &str, i: usize) -> (r: Option<usize>)
    requires
        i <= s@.len(),
    ensures
        opt_pos(r, hms_end(s@, i as int)),
{
    let n = s.unicode_len();
    match digits1_at(s, i) {
        None => None,
        Some(h) => {
            proof {
                lemma_run_end(s@, i as int, digit_pred());
            }
            if h < n && s.get_char(h) == ':' {
                match digits1_at(s, h + 1) {
                    None => None,
                    Some(m) => {
                        proof {
                            lemma_run_end(s@, h + 1, digit_pred());
                        }
                        if m < n && s.get_char(m) == ':' {
                            match digits1_at(s, m + 1) {
                                None => None,
                                Some(sec) => {
                                    proof {
                                        lemma_run_end(s@, m + 1, digit_pred());
                                    }
                                    if sec < n && s.get_char(sec) == ':' {
                                        Some(sec + 1)
                                    } else {
                                        Some(sec)
                                    }
                                },
                            }
                        } else {
                            None
                        }
                    },
                }
            } else {
                None
            }
        },
    }
}

pub(crate) fn ts3164_no_year_at(s: &str, i: usize) -> (r: Option<usize>)
    requires
        i <= s@.len(),
    ensures
        opt_pos(r, ts3164_no_year_end(s@, i as int)),
{
    // pins the character count to a machine length, so that stepping
    // three characters past `i` cannot overflow below
    let _n = s.unicode_len();
    if !month_at_exec(s, i) {
        return None;
    }
    match space1_at(s, i + 3) {
        None => None,
        Some(a) => {
            proof {
                lemma_run_end(s@, i + 3, blank_pred());
            }
            match digits1_at(s, a) {
                None => None,
                Some(b) => {
                    proof {
                        lemma_run_end(s@, a as int, digit_pred());
                    }
                    match space1_at(s, b) {
                        None => None,
                        Some(c) => {
                            proof {
                                lemma_run_end(s@, b as int, blank_pred());
                            }
                            hms_at(s, c)
                        },
                    }
                },
            }
        },
    }
}

pub(crate) fn ts3164_with_year_at(s: &str, i: usize) -> (r: Option<usize>)
    requires
        i <= s@.len(),
    ensures
        opt_pos(r, ts3164_with_year_end(s@, i as int)),
{
    // pins the character count to a machine length, so that stepping
    // three characters past `i` cannot overflow below
    let _n = s.unicode_len();
    if !month_at_exec(s, i) {
        return None;
    }
    match space1_at(s, i + 3) {
        None => None,
        Some(a) => {
            proof {
                lemma_run_end(s@, i + 3, blank_pred());
            }
            match digits1_at(s, a) {
                None => None,
                Some(b) => {
                    proof {
                        lemma_run_end(s@, a as int, digit_pred());
                    }
                    match space1_at(s, b) {
                        None => None,
                        Some(c) => {
                            proof {
                                lemma_run_end(s@, b as int, blank_pred());
                            }
                            match digits1_at(s, c) {
                                None => None,
                                Some(d) => {
                                    proof {
                                        lemma_run_end(s@, c as int, digit_pred());
                                    }
                                    match space1_at(s, d) {
                                        None => None,
                                        Some(e) => {
                                            proof {
                                                lemma_run_end(s@, d as int, blank_pred());
                                            }
                                            hms_at(s, e)
                                        },
                                    }
                                },
                            }
                        },
                    }
                },
            }
        },
    }
}

pub(crate) fn ts3339_at(s: &str, i: usize) -> (r: Option<usize>)
    requires
        i <= s@.len(),
    ensures
        opt_pos(r, ts3339_end(s@, i as int)),
{
    match find_char(s, i, ' ') {
        Some(j) => {
            let piece = s.substring_char(i, j);
            if rfc3339_valid(piece) {
                Some(j)
            } else {
                None
            }
        },
        None => None,
    }
}

pub(crate) fn ts3164_at(s: &str, i: usize) -> (r: Option<usize>)
    requires
        i <= s@.len(),
    ensures
        opt_pos(r, ts3164_end(s@, i as int)),
{
    match ts3164_no_year_at(s, i) {
        Some(j) => Some(j),
        None => match ts3164_with_year_at(s, i) {
            Some(j) => Some(j),
            None => ts3339_at(s, i),
        },
    }
}

/// Modern timestamp rule as an entry point: on success returns the
/// remainder (beginning with the delimiting space) and the matched text.
pub fn timestamp_3339(input: &str) -> (r: Result<(String, String), SyslogParseError>)
    ensures
        match ts3339_end(input@, 0) {
            Some(j) => r matches Ok(p) && p.0@ == input@.subrange(j, input@.len() as int)
                && p.1@ == input@.subrange(0, j),
            None => r matches Err(e) && e == SyslogParseError::TimeParseError,
        },
{
    proof {
        lemma_find_from(input@, 0, ' ');
    }
    let n = input.unicode_len();
    match ts3339_at(input, 0) {
        Some(j) => {
            let matched = input.substring_char(0, j).to_owned();
            let rest = input.substring_char(j, n).to_owned();
            Ok((rest, matched))
        },
        None => Err(SyslogParseError::TimeParseError),
    }
}

/// Legacy timestamp rule as an entry point: either legacy form, with the
/// modern form as a fallback.
pub fn timestamp_3164(input: &str) -> (r: Result<(String, String), SyslogParseError>)
    ensures
        match ts3164_end(input@, 0) {
            Some(j) => r matches Ok(p) && p.0@ == input@.subrange(j, input@.len() as int)
                && p.1@ == input@.subrange(0, j),
            None => r matches Err(e) && e == SyslogParseError::ParseError(ErrorKind::Timestamp),
        },
{
    proof {
        lemma_ts3164_bounds(input@, 0);
    }
    let n = input.unicode_len();
    match ts3164_at(input, 0) {
        Some(j) => {
            let matched = input.substring_char(0, j).to_owned();
            let rest = input.substring_char(j, n).to_owned();
            Ok((rest, matched))
        },
        None => Err(SyslogParseError::ParseError(ErrorKind::Timestamp)),
    }
}

} // verus!
