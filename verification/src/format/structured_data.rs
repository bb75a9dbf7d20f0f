//! Structured-data grammar: bracketed `key="value"` record lists, with a
//! strict rule and a permissive fallback that accepts any bracketed span
//! verbatim. Absence is the literal `-`.
use vstd::prelude::*;
use vstd::string::StrSliceExecFns;

use crate::text::{
    blank_pred, find_char, find_from, is_value_plain_char, lemma_find_from, lemma_run_end, opt_pos,
    run_end, scan_blanks, scan_sd_id, scan_sd_key, sd_id_pred, sd_key_pred,
};

verus! {

/// End of the empty quoted value: the literal `""`.
pub open spec fn value0_end(t: Seq<char>, i: int) -> Option<int>
    recommends
        0 <= i <= t.len(),
{
    if i + 1 < t.len() && t[i] == '"' && t[i + 1] == '"' {
        Some(i + 2)
    } else {
        None
    }
}

/// Continuation of an escaped run after at least one consumed element:
/// plain characters advance one at a time, a backslash consumes the
/// following character, a quote ends the run, and a trailing backslash
/// with nothing after it fails.
pub open spec fn esc_tail(t: Seq<char>, i: int) -> Option<int>
    decreases t.len() - i when 0 <= i <= t.len()
{
    if i >= t.len() {
        Some(i)
    } else if is_value_plain_char(t[i]) {
        esc_tail(t, i + 1)
    } else if t[i] == '\\' {
        if i + 1 >= t.len() {
            None
        } else {
            esc_tail(t, i + 2)
        }
    } else {
        Some(i)
    }
}

/// End of an escaped run: as `esc_tail`, except that a quote as the very
/// first character fails (the run must consume something), while an
/// empty input matches emptily.
pub open spec fn esc_end(t: Seq<char>, i: int) -> Option<int>
    recommends
        0 <= i <= t.len(),
{
    if i >= t.len() {
        Some(i)
    } else if is_value_plain_char(t[i]) {
        esc_tail(t, i + 1)
    } else if t[i] == '\\' {
        if i + 1 >= t.len() {
            None
        } else {
            esc_tail(t, i + 2)
        }
    } else {
        None
    }
}

/// End of a non-empty quoted value: `"`, an escaped run, `"`.
pub open spec fn value1_end(t: Seq<char>, i: int) -> Option<int>
    recommends
        0 <= i <= t.len(),
{
    if i < t.len() && t[i] == '"' {
        match esc_end(t, i + 1) {
            Some(j) => if j < t.len() && t[j] == '"' {
                Some(j + 1)
            } else {
                None
            },
            None => None,
        }
    } else {
        None
    }
}

/// End of a parameter value: the empty form first, then the escaped
/// form.
pub open spec fn value_end(t: Seq<char>, i: int) -> Option<int>
    recommends
        0 <= i <= t.len(),
{
    match value0_end(t, i) {
        Some(j) => Some(j),
        None => value1_end(t, i),
    }
}

/// End of one `key="value"` parameter: a non-empty key free of `]` and
/// `=`, the `=`, optional blanks, then the value.
pub open spec fn param_end(t: Seq<char>, i: int) -> Option<int>
    recommends
        0 <= i <= t.len(),
{
    let k = run_end(t, i, sd_key_pred());
    if k > i && k < t.len() && t[k] == '=' {
        let m = run_end(t, k + 1, blank_pred());
        value_end(t, m)
    } else {
        None
    }
}

pub proof fn lemma_esc_tail_bounds(t: Seq<char>, i: int)
    requires
        0 <= i <= t.len(),
    ensures
        match esc_tail(t, i) {
            Some(j) => i <= j <= t.len(),
            None => true,
        },
    decreases t.len() - i,
{
    if i < t.len() {
        if is_value_plain_char(t[i]) {
            lemma_esc_tail_bounds(t, i + 1);
        } else if t[i] == '\\' && i + 1 < t.len() {
            lemma_esc_tail_bounds(t, i + 2);
        }
    }
}

pub proof fn lemma_value_bounds(t: Seq<char>, i: int)
    requires
        0 <= i <= t.len(),
    ensures
        match value_end(t, i) {
            Some(j) => i + 2 <= j <= t.len(),
            None => true,
        },
{
    if i < t.len() && t[i] == '"' {
        lemma_esc_tail_bounds(t, i + 1);
        if i + 1 < t.len() {
            lemma_esc_tail_bounds(t, i + 2);
        }
    }
}

pub proof fn lemma_param_end_bounds(t: Seq<char>, i: int)
    requires
        0 <= i <= t.len(),
    ensures
        match param_end(t, i) {
            Some(j) => i < j <= t.len(),
            None => true,
        },
{
    lemma_run_end(t, i, sd_key_pred());
    let k = run_end(t, i, sd_key_pred());
    if k > i && k < t.len() && t[k] == '=' {
        lemma_run_end(t, k + 1, blank_pred());
        lemma_value_bounds(t, run_end(t, k + 1, blank_pred()));
    }
}

/// End of the possibly empty list of parameters separated by single
/// spaces, after its first parameter has ended at `j`; a separator
/// followed by something that is not a parameter is left unconsumed.
pub open spec fn param_list_tail(t: Seq<char>, j: int) -> int
    decreases t.len() - j when 0 <= j <= t.len()
{
    if j < t.len() && t[j] == ' ' {
        match param_end(t, j + 1) {
            Some(k) => {
                proof {
                    lemma_param_end_bounds(t, j + 1);
                }
                param_list_tail(t, k)
            },
            None => j,
        }
    } else {
        j
    }
}

/// End of a possibly empty parameter list starting at `i`.
pub open spec fn param_list_end(t: Seq<char>, i: int) -> int
    recommends
        0 <= i <= t.len(),
{
    match param_end(t, i) {
        None => i,
        Some(j) => param_list_tail(t, j),
    }
}

pub proof fn lemma_param_list_tail_bounds(t: Seq<char>, j: int)
    requires
        0 <= j <= t.len(),
    ensures
        j <= param_list_tail(t, j) <= t.len(),
    decreases t.len() - j,
{
    if j < t.len() && t[j] == ' ' {
        lemma_param_end_bounds(t, j + 1);
        match param_end(t, j + 1) {
            Some(k) => lemma_param_list_tail_bounds(t, k),
            None => (),
        }
    }
}

pub proof fn lemma_param_list_bounds(t: Seq<char>, i: int)
    requires
        0 <= i <= t.len(),
    ensures
        i <= param_list_end(t, i) <= t.len(),
{
    lemma_param_end_bounds(t, i);
    match param_end(t, i) {
        Some(j) => lemma_param_list_tail_bounds(t, j),
        None => (),
    }
}

/// End of one strict structured-data element: `[`, a non-empty id,
/// optional blanks, a parameter list, `]`.
pub open spec fn sd_datum_strict_end(t: Seq<char>, i: int) -> Option<int>
    recommends
        0 <= i <= t.len(),
{
    if i < t.len() && t[i] == '[' {
        let d = run_end(t, i + 1, sd_id_pred());
        if d > i + 1 {
            let sp = run_end(t, d, blank_pred());
            let pl = param_list_end(t, sp);
            if pl < t.len() && t[pl] == ']' {
                Some(pl + 1)
            } else {
                None
            }
        } else {
            None
        }
    } else {
        None
    }
}

/// End of one element: the strict rule, or in permissive mode any
/// bracket-delimited span taken verbatim.
pub open spec fn sd_datum_end(t: Seq<char>, i: int, permissive: bool) -> Option<int>
    recommends
        0 <= i <= t.len(),
{
    match sd_datum_strict_end(t, i) {
        Some(j) => Some(j),
        None => if permissive && i < t.len() && t[i] == '[' {
            match find_from(t, i + 1, ']') {
                Some(j) => Some(j + 1),
                None => None,
            }
        } else {
            None
        },
    }
}

pub proof fn lemma_sd_datum_bounds(t: Seq<char>, i: int, permissive: bool)
    requires
        0 <= i <= t.len(),
    ensures
        match sd_datum_end(t, i, permissive) {
            Some(j) => i + 2 <= j <= t.len(),
            None => true,
        },
{
    if i < t.len() && t[i] == '[' {
        lemma_run_end(t, i + 1, sd_id_pred());
        let d = run_end(t, i + 1, sd_id_pred());
        if d > i + 1 {
            lemma_run_end(t, d, blank_pred());
            lemma_param_list_bounds(t, run_end(t, d, blank_pred()));
        }
        lemma_find_from(t, i + 1, ']');
    }
}

/// End of the maximal run of elements after a first element ended at
/// `j`.
pub open spec fn sd_many_tail(t: Seq<char>, j: int, permissive: bool) -> int
    decreases t.len() - j when 0 <= j <= t.len()
{
    match sd_datum_end(t, j, permissive) {
        Some(k) => {
            proof {
                lemma_sd_datum_bounds(t, j, permissive);
            }
            sd_many_tail(t, k, permissive)
        },
        None => j,
    }
}

pub proof fn lemma_sd_many_tail_bounds(t: Seq<char>, j: int, permissive: bool)
    requires
        0 <= j <= t.len(),
    ensures
        j <= sd_many_tail(t, j, permissive) <= t.len(),
    decreases t.len() - j,
{
    lemma_sd_datum_bounds(t, j, permissive);
    match sd_datum_end(t, j, permissive) {
        Some(k) => lemma_sd_many_tail_bounds(t, k, permissive),
        None => (),
    }
}

/// End of a whole structured-data field: the literal `-` for absence, or
/// one or more elements with no separator.
pub open spec fn structured_data_end(t: Seq<char>, i: int, permissive: bool) -> Option<int>
    recommends
        0 <= i <= t.len(),
{
    if i < t.len() && t[i] == '-' {
        Some(i + 1)
    } else {
        match sd_datum_end(t, i, permissive) {
            Some(j) => Some(sd_many_tail(t, j, permissive)),
            None => None,
        }
    }
}

pub proof fn lemma_structured_data_bounds(t: Seq<char>, i: int, permissive: bool)
    requires
        0 <= i <= t.len(),
    ensures
        match structured_data_end(t, i, permissive) {
            Some(j) => i < j <= t.len(),
            None => true,
        },
{
    lemma_sd_datum_bounds(t, i, permissive);
    match sd_datum_end(t, i, permissive) {
        Some(j) => lemma_sd_many_tail_bounds(t, j, permissive),
        None => (),
    }
}

fn esc_at(s: &str, i: usize) -> (r: Option<usize>)
    requires
        i <= s@.len(),
    ensures
        opt_pos(r, esc_end(s@, i as int)),
{
    let n = s.unicode_len();
    if i >= n {
        return Some(i);
    }
    let c = s.get_char(i);
    let mut j: usize;
    if c == '\\' {
        if i + 1 >= n {
            return None;
        }
        j = i + 2;
    } else if c == '"' {
        return None;
    } else {
        j = i + 1;
    }
    while j < n
        invariant
            i <= j <= n,
            n == s@.len(),
            esc_end(s@, i as int) == esc_tail(s@, j as int),
        decreases n - j,
    {
        let c = s.get_char(j);
        if c == '\\' {
            if j + 1 >= n {
                return None;
            }
            j = j + 2;
        } else if c == '"' {
            return Some(j);
        } else {
            j = j + 1;
        }
    }
    Some(j)
}

fn value_at(s: &str, i: usize) -> (r: Option<usize>)
    requires
        i <= s@.len(),
    ensures
        opt_pos(r, value_end(s@, i as int)),
{
    let n = s.unicode_len();
    if i < n && s.get_char(i) == '"' {
        if i + 1 < n && s.get_char(i + 1) == '"' {
            return Some(i + 2);
        }
        match esc_at(s, i + 1) {
            Some(j) => {
                proof {
                    lemma_esc_tail_bounds(s@, i + 1);
                    if i + 2 <= s@.len() {
                        lemma_esc_tail_bounds(s@, i + 2);
                    }
                }
                if j < n && s.get_char(j) == '"' {
                    Some(j + 1)
                } else {
                    None
                }
            },
            None => None,
        }
    } else {
        None
    }
}

fn param_at(s: &str, i: usize) -> (r: Option<usize>)
    requires
        i <= s@.len(),
    ensures
        opt_pos(r, param_end(s@, i as int)),
{
    let n = s.unicode_len();
    let k = scan_sd_key(s, i);
    if k > i && k < n && s.get_char(k) == '=' {
        let m = scan_blanks(s, k + 1);
        value_at(s, m)
    } else {
        None
    }
}

fn param_list_at(s: &str, i: usize) -> (r: usize)
    requires
        i <= s@.len(),
    ensures
        r == param_list_end(s@, i as int),
        i <= r <= s@.len(),
{
    let n = s.unicode_len();
    proof {
        lemma_param_list_bounds(s@, i as int);
    }
    match param_at(s, i) {
        None => i,
        Some(j0) => {
            proof {
                lemma_param_end_bounds(s@, i as int);
            }
            let mut j = j0;
            loop
                invariant
                    j <= n,
                    n == s@.len(),
                    i <= j,
                    param_list_tail(s@, j0 as int) == param_list_tail(s@, j as int),
                    param_list_end(s@, i as int) == param_list_tail(s@, j0 as int),
                decreases n - j,
            {
                proof {
                    lemma_param_list_tail_bounds(s@, j as int);
                }
                if j < n && s.get_char(j) == ' ' {
                    match param_at(s, j + 1) {
                        Some(k) => {
                            proof {
                                lemma_param_end_bounds(s@, j + 1);
                            }
                            j = k;
                        },
                        None => {
                            return j;
                        },
                    }
                } else {
                    return j;
                }
            }
        },
    }
}

fn sd_datum_strict_at(s: &str, i: usize) -> (r: Option<usize>)
    requires
        i <= s@.len(),
    ensures
        opt_pos(r, sd_datum_strict_end(s@, i as int)),
{
    let n = s.unicode_len();
    if i < n && s.get_char(i) == '[' {
        let d = scan_sd_id(s, i + 1);
        if d > i + 1 {
            let sp = scan_blanks(s, d);
            let pl = param_list_at(s, sp);
            if pl < n && s.get_char(pl) == ']' {
                Some(pl + 1)
            } else {
                None
            }
        } else {
            None
        }
    } else {
        None
    }
}

fn sd_datum_at(s: &str, i: usize, permissive: bool) -> (r: Option<usize>)
    requires
        i <= s@.len(),
    ensures
        opt_pos(r, sd_datum_end(s@, i as int, permissive)),
{
    match sd_datum_strict_at(s, i) {
        Some(j) => Some(j),
        None => {
            let n = s.unicode_len();
            if permissive && i < n && s.get_char(i) == '[' {
                match find_char(s, i + 1, ']') {
                    Some(j) => Some(j + 1),
                    None => None,
                }
            } else {
                None
            }
        },
    }
}

/// Exec entry for a whole structured-data field starting at `i`.
pub(crate) fn structured_data_at(s: &str, i: usize, permissive: bool) -> (r: Option<usize>)
    requires
        i <= s@.len(),
    ensures
        opt_pos(r, structured_data_end(s@, i as int, permissive)),
{
    let n = s.unicode_len();
    if i < n && s.get_char(i) == '-' {
        return Some(i + 1);
    }
    match sd_datum_at(s, i, permissive) {
        None => None,
        Some(j0) => {
            proof {
                lemma_sd_datum_bounds(s@, i as int, permissive);
            }
            let mut j = j0;
            loop
                invariant
                    j <= n,
                    n == s@.len(),
                    i < j,
                    sd_many_tail(s@, j0 as int, permissive) == sd_many_tail(
                        s@,
                        j as int,
                        permissive,
                    ),
                    structured_data_end(s@, i as int, permissive) == Some(
                        sd_many_tail(s@, j0 as int, permissive),
                    ),
                decreases n - j,
            {
                match sd_datum_at(s, j, permissive) {
                    Some(k) => {
                        proof {
                            lemma_sd_datum_bounds(s@, j as int, permissive);
                        }
                        j = k;
                    },
                    None => {
                        return Some(j);
                    },
                }
            }
        },
    }
}

/// Structured-data rule as an entry point, in permissive mode: on
/// success returns the remainder and the matched text, exactly as
/// consumed.
pub fn structured_data(input: &str) -> (r: Option<(String, String)>)
    ensures
        match structured_data_end(input@, 0, true) {
            Some(j) => r matches Some(p) && p.0@ == input@.subrange(j, input@.len() as int)
                && p.1@ == input@.subrange(0, j),
            None => r is None,
        },
{
    proof {
        lemma_structured_data_bounds(input@, 0, true);
    }
    let n = input.unicode_len();
    match structured_data_at(input, 0, true) {
        Some(j) => {
            let matched = input.substring_char(0, j).to_owned();
            let rest = input.substring_char(j, n).to_owned();
            Some((rest, matched))
        },
        None => None,
    }
}

} // verus!
