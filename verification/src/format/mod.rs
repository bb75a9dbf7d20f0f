//! Field grammar: the primitive rules every header is built from.
//! Each rule consumes a prefix of the input; its specification gives the
//! exact end position of that prefix, or `None` when the rule does not
//! match.
use vstd::prelude::*;
use vstd::string::StrSliceExecFns;

use crate::text::{
    blank_pred, digit_pred, lemma_run_end, opt_pos, run_end, scan_blanks, scan_digits, scan_token,
    token_pred,
};

pub mod appname;
pub mod hostname;
pub mod msgid;
pub mod pri;
pub mod procid;
pub mod structured_data;
pub mod tagname;
pub mod timestamp;
pub mod version;

verus! {

/// End of a non-empty digit run starting at `i`, if any.
pub open spec fn digits1_end(t: Seq<char>, i: int) -> Option<int>
    recommends
        0 <= i <= t.len(),
{
    let j = run_end(t, i, digit_pred());
    if j > i {
        Some(j)
    } else {
        None
    }
}

/// End of a non-empty run of blanks starting at `i`, if any.
pub open spec fn space1_end(t: Seq<char>, i: int) -> Option<int>
    recommends
        0 <= i <= t.len(),
{
    let j = run_end(t, i, blank_pred());
    if j > i {
        Some(j)
    } else {
        None
    }
}

/// End of the possibly empty run of blanks starting at `i`.
pub open spec fn space0_end(t: Seq<char>, i: int) -> int
    recommends
        0 <= i <= t.len(),
{
    run_end(t, i, blank_pred())
}

/// End of a non-empty header token starting at `i`, if any. A token is a
/// maximal run of non-whitespace characters; when `colon_ok` is false the
/// colon is excluded as well, so that the legacy separator cannot be
/// swallowed by a field.
pub open spec fn token_end(t: Seq<char>, i: int, colon_ok: bool) -> Option<int>
    recommends
        0 <= i <= t.len(),
{
    let j = run_end(t, i, token_pred(colon_ok));
    if j > i {
        Some(j)
    } else {
        None
    }
}

pub(crate) fn digits1_at(s: &str, i: usize) -> (r: Option<usize>)
    requires
        i <= s@.len(),
    ensures
        opt_pos(r, digits1_end(s@, i as int)),
{
    let j = scan_digits(s, i);
    if j > i {
        Some(j)
    } else {
        None
    }
}

pub(crate) fn space1_at(s: &str, i: usize) -> (r: Option<usize>)
    requires
        i <= s@.len(),
    ensures
        opt_pos(r, space1_end(s@, i as int)),
{
    let j = scan_blanks(s, i);
    if j > i {
        Some(j)
    } else {
        None
    }
}

pub(crate) fn token_at(s: &str, i: usize, colon_ok: bool) -> (r: Option<usize>)
    requires
        i <= s@.len(),
    ensures
        opt_pos(r, token_end(s@, i as int, colon_ok)),
{
    let j = scan_token(s, i, colon_ok);
    if j > i {
        Some(j)
    } else {
        None
    }
}

/// Shared body of the free-text field rules: reads the maximal qualifying
/// run at the start of `input` and returns the remainder and the token,
/// or `None` when no qualifying character is available.
pub(crate) fn optional(input: &str, has_colons: bool) -> (r: Option<(String, String)>)
    ensures
        match token_end(input@, 0, has_colons) {
            Some(j) => r matches Some(p) && p.0@ == input@.subrange(j, input@.len() as int)
                && p.1@ == input@.subrange(0, j),
            None => r is None,
        },
{
    proof {
        lemma_run_end(input@, 0, token_pred(has_colons));
    }
    let n = input.unicode_len();
    match token_at(input, 0, has_colons) {
        Some(j) => {
            let tok = input.substring_char(0, j).to_owned();
            let rest = input.substring_char(j, n).to_owned();
            Some((rest, tok))
        },
        None => None,
    }
}

} // verus!
