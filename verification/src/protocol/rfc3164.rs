//! Legacy header format: priority and timestamp, then a chain of
//! optional fields — hostname, tag, a colon, strict structured data —
//! any of which may be wholly absent from the input.
use vstd::prelude::*;
use vstd::string::StrSliceExecFns;

use crate::format::pri::{lemma_pri_bounds, pri_at, pri_end};
use crate::protocol::Msg;
use crate::format::structured_data::{
    lemma_structured_data_bounds, structured_data_at, structured_data_end,
};
use crate::format::timestamp::{lemma_ts3164_bounds, ts3164_at, ts3164_end};
use crate::format::{token_at, token_end};
use crate::text::{blank_pred, lemma_run_end, opt_pos, run_end, scan_blanks, token_pred};

verus! {

/// End of a legacy-format header starting at `i`. Each optional field
/// consumes nothing when it does not match; a space is consumed with the
/// field it introduces.
pub open spec fn rfc3164_end(t: Seq<char>, i: int) -> Option<int>
    recommends
        0 <= i <= t.len(),
{
    match pri_end(t, i) {
        None => None,
        Some(p) => {
            let s1 = run_end(t, p, blank_pred());
            match ts3164_end(t, s1) {
                None => None,
                Some(ts) => {
                    let h = if ts < t.len() && t[ts] == ' ' {
                        match token_end(t, ts + 1, false) {
                            Some(x) => x,
                            None => ts,
                        }
                    } else {
                        ts
                    };
                    let g = if h < t.len() && t[h] == ' ' {
                        match token_end(t, h + 1, false) {
                            Some(x) => x,
                            None => h,
                        }
                    } else {
                        h
                    };
                    let s2 = run_end(t, g, blank_pred());
                    let cl = if s2 < t.len() && t[s2] == ':' {
                        s2 + 1
                    } else {
                        s2
                    };
                    let s3 = run_end(t, cl, blank_pred());
                    let sd = match structured_data_end(t, s3, false) {
                        Some(x) => x,
                        None => s3,
                    };
                    Some(run_end(t, sd, blank_pred()))
                },
            }
        },
    }
}

pub proof fn lemma_rfc3164_bounds(t: Seq<char>, i: int)
    requires
        0 <= i <= t.len(),
    ensures
        match rfc3164_end(t, i) {
            Some(j) => i + 3 <= j <= t.len(),
            None => true,
        },
{
    lemma_pri_bounds(t, i);
    match pri_end(t, i) {
        None => (),
        Some(p) => {
            lemma_run_end(t, p, blank_pred());
            let s1 = run_end(t, p, blank_pred());
            lemma_ts3164_bounds(t, s1);
            match ts3164_end(t, s1) {
                None => (),
                Some(ts) => {
                    if ts < t.len() && t[ts] == ' ' {
                        lemma_run_end(t, ts + 1, token_pred(false));
                    }
                    let h = if ts < t.len() && t[ts] == ' ' {
                        match token_end(t, ts + 1, false) {
                            Some(x) => x,
                            None => ts,
                        }
                    } else {
                        ts
                    };
                    if h < t.len() && t[h] == ' ' {
                        lemma_run_end(t, h + 1, token_pred(false));
                    }
                    let g = if h < t.len() && t[h] == ' ' {
                        match token_end(t, h + 1, false) {
                            Some(x) => x,
                            None => h,
                        }
                    } else {
                        h
                    };
                    lemma_run_end(t, g, blank_pred());
                    let s2 = run_end(t, g, blank_pred());
                    let cl = if s2 < t.len() && t[s2] == ':' {
                        s2 + 1
                    } else {
                        s2
                    };
                    lemma_run_end(t, cl, blank_pred());
                    let s3 = run_end(t, cl, blank_pred());
                    lemma_structured_data_bounds(t, s3, false);
                    let sd = match structured_data_end(t, s3, false) {
                        Some(x) => x,
                        None => s3,
                    };
                    lemma_run_end(t, sd, blank_pred());
                },
            }
        },
    }
}

/// Exec parse of a legacy-format header starting at `i`.
pub(crate) fn rfc3164_at(s: &str, i: usize) -> (r: Option<usize>)
    requires
        i <= s@.len(),
    ensures
        opt_pos(r, rfc3164_end(s@, i as int)),
{
    let n = s.unicode_len();
    proof {
        lemma_pri_bounds(s@, i as int);
    }
    let p = match pri_at(s, i) {
        Some(x) => x,
        None => {
            return None;
        },
    };
    let s1 = scan_blanks(s, p);
    proof {
        lemma_ts3164_bounds(s@, s1 as int);
    }
    let ts = match ts3164_at(s, s1) {
        Some(x) => x,
        None => {
            return None;
        },
    };
    let h = if ts < n && s.get_char(ts) == ' ' {
        proof {
            lemma_run_end(s@, ts + 1, token_pred(false));
        }
        match token_at(s, ts + 1, false) {
            Some(x) => x,
            None => ts,
        }
    } else {
        ts
    };
    let g = if h < n && s.get_char(h) == ' ' {
        proof {
            lemma_run_end(s@, h + 1, token_pred(false));
        }
        match token_at(s, h + 1, false) {
            Some(x) => x,
            None => h,
        }
    } else {
        h
    };
    let s2 = scan_blanks(s, g);
    let cl = if s2 < n && s.get_char(s2) == ':' {
        s2 + 1
    } else {
        s2
    };
    let s3 = scan_blanks(s, cl);
    proof {
        lemma_structured_data_bounds(s@, s3 as int, false);
    }
    let sd = match structured_data_at(s, s3, false) {
        Some(x) => x,
        None => s3,
    };
    Some(scan_blanks(s, sd))
}

/// Legacy-format entry point: on a match the header is the exactly
/// consumed prefix and the body is the rest of the input.
pub fn parse(input: &str) -> (r: Option<Msg>)
    ensures
        match rfc3164_end(input@, 0) {
            Some(h) => r matches Some(m) && m.header@ == input@.subrange(0, h) && m.msg@
                == input@.subrange(h, input@.len() as int),
            None => r is None,
        },
{
    proof {
        lemma_rfc3164_bounds(input@, 0);
    }
    let n = input.unicode_len();
    match rfc3164_at(input, 0) {
        Some(h) => Some(
            Msg {
                header: input.substring_char(0, h).to_owned(),
                msg: input.substring_char(h, n).to_owned(),
            },
        ),
        None => None,
    }
}

} // verus!
