//! Modern header format: priority, version, timestamp, hostname,
//! app-name, process-id, message-id and structured data, separated by
//! runs of blanks; the five identifying fields are always present as
//! tokens (an absent one is the literal `-`).
use vstd::prelude::*;
use vstd::string::StrSliceExecFns;

use crate::format::pri::{lemma_pri_bounds, pri_at, pri_end};
use crate::protocol::Msg;
use crate::format::structured_data::{
    lemma_structured_data_bounds, structured_data_at, structured_data_end,
};
use crate::format::timestamp::{ts3339_at, ts3339_end};
use crate::format::{digits1_at, digits1_end, space1_at, space1_end, token_at, token_end};
use crate::text::{
    blank_pred, digit_pred, lemma_find_from, lemma_run_end, opt_pos, run_end, scan_blanks,
    token_pred,
};

verus! {

/// End of a modern-format header starting at `i`. The header ends after
/// the structured-data field and the optional blanks that follow it; the
/// body is everything after that.
pub open spec fn rfc5424_end(t: Seq<char>, i: int) -> Option<int>
    recommends
        0 <= i <= t.len(),
{
    match pri_end(t, i) {
        None => None,
        Some(p) => match digits1_end(t, p) {
            None => None,
            Some(v) => match space1_end(t, v) {
                None => None,
                Some(s1) => match ts3339_end(t, s1) {
                    None => None,
                    Some(ts) => match space1_end(t, ts) {
                        None => None,
                        Some(s2) => match token_end(t, s2, false) {
                            None => None,
                            Some(h) => match space1_end(t, h) {
                                None => None,
                                Some(s3) => match token_end(t, s3, true) {
                                    None => None,
                                    Some(ap) => match space1_end(t, ap) {
                                        None => None,
                                        Some(s4) => match token_end(t, s4, false) {
                                            None => None,
                                            Some(pc) => match space1_end(t, pc) {
                                                None => None,
                                                Some(s5) => match token_end(t, s5, false) {
                                                    None => None,
                                                    Some(ms) => {
                                                        let s6 = run_end(t, ms, blank_pred());
                                                        match structured_data_end(t, s6, true) {
                                                            None => None,
                                                            Some(sd) => Some(
                                                                run_end(t, sd, blank_pred()),
                                                            ),
                                                        }
                                                    },
                                                },
                                            },
                                        },
                                    },
                                },
                            },
                        },
                    },
                },
            },
        },
    }
}

pub proof fn lemma_rfc5424_bounds(t: Seq<char>, i: int)
    requires
        0 <= i <= t.len(),
    ensures
        match rfc5424_end(t, i) {
            Some(j) => i + 3 <= j <= t.len(),
            None => true,
        },
{
    lemma_pri_bounds(t, i);
    match pri_end(t, i) {
        None => (),
        Some(p) => {
            lemma_run_end(t, p, digit_pred());
            let v = run_end(t, p, digit_pred());
            if v > p {
                lemma_run_end(t, v, blank_pred());
                let s1 = run_end(t, v, blank_pred());
                if s1 > v {
                    lemma_find_from(t, s1, ' ');
                    match ts3339_end(t, s1) {
                        None => (),
                        Some(ts) => {
                            lemma_run_end(t, ts, blank_pred());
                            let s2 = run_end(t, ts, blank_pred());
                            if s2 > ts {
                                lemma_run_end(t, s2, token_pred(false));
                                let h = run_end(t, s2, token_pred(false));
                                if h > s2 {
                                    lemma_run_end(t, h, blank_pred());
                                    let s3 = run_end(t, h, blank_pred());
                                    if s3 > h {
                                        lemma_run_end(t, s3, token_pred(true));
                                        let ap = run_end(t, s3, token_pred(true));
                                        if ap > s3 {
                                            lemma_run_end(t, ap, blank_pred());
                                            let s4 = run_end(t, ap, blank_pred());
                                            if s4 > ap {
                                                lemma_run_end(t, s4, token_pred(false));
                                                let pc = run_end(t, s4, token_pred(false));
                                                if pc > s4 {
                                                    lemma_run_end(t, pc, blank_pred());
                                                    let s5 = run_end(t, pc, blank_pred());
                                                    if s5 > pc {
                                                        lemma_run_end(t, s5, token_pred(false));
                                                        let ms = run_end(t, s5, token_pred(false));
                                                        if ms > s5 {
                                                            lemma_run_end(t, ms, blank_pred());
                                                            let s6 = run_end(t, ms, blank_pred());
                                                            lemma_structured_data_bounds(
                                                                t,
                                                                s6,
                                                                true,
                                                            );
                                                            match structured_data_end(
                                                                t,
                                                                s6,
                                                                true,
                                                            ) {
                                                                None => (),
                                                                Some(sd) => {
                                                                    lemma_run_end(
                                                                        t,
                                                                        sd,
                                                                        blank_pred(),
                                                                    );
                                                                },
                                                            }
                                                        }
                                                    }
                                                }
                                            }
                                        }
                                    }
                                }
                            }
                        },
                    }
                }
            }
        },
    }
}

/// Exec parse of a modern-format header starting at `i`.
pub(crate) fn rfc5424_at(s: &str, i: usize) -> (r: Option<usize>)
    requires
        i <= s@.len(),
    ensures
        opt_pos(r, rfc5424_end(s@, i as int)),
{
    proof {
        lemma_pri_bounds(s@, i as int);
    }
    let p = match pri_at(s, i) {
        Some(x) => x,
        None => {
            return None;
        },
    };
    proof {
        lemma_run_end(s@, p as int, digit_pred());
    }
    let v = match digits1_at(s, p) {
        Some(x) => x,
        None => {
            return None;
        },
    };
    proof {
        lemma_run_end(s@, v as int, blank_pred());
    }
    let s1 = match space1_at(s, v) {
        Some(x) => x,
        None => {
            return None;
        },
    };
    proof {
        lemma_find_from(s@, s1 as int, ' ');
    }
    let ts = match ts3339_at(s, s1) {
        Some(x) => x,
        None => {
            return None;
        },
    };
    proof {
        lemma_run_end(s@, ts as int, blank_pred());
    }
    let s2 = match space1_at(s, ts) {
        Some(x) => x,
        None => {
            return None;
        },
    };
    proof {
        lemma_run_end(s@, s2 as int, token_pred(false));
    }
    let h = match token_at(s, s2, false) {
        Some(x) => x,
        None => {
            return None;
        },
    };
    proof {
        lemma_run_end(s@, h as int, blank_pred());
    }
    let s3 = match space1_at(s, h) {
        Some(x) => x,
        None => {
            return None;
        },
    };
    proof {
        lemma_run_end(s@, s3 as int, token_pred(true));
    }
    let ap = match token_at(s, s3, true) {
        Some(x) => x,
        None => {
            return None;
        },
    };
    proof {
        lemma_run_end(s@, ap as int, blank_pred());
    }
    let s4 = match space1_at(s, ap) {
        Some(x) => x,
        None => {
            return None;
        },
    };
    proof {
        lemma_run_end(s@, s4 as int, token_pred(false));
    }
    let pc = match token_at(s, s4, false) {
        Some(x) => x,
        None => {
            return None;
        },
    };
    proof {
        lemma_run_end(s@, pc as int, blank_pred());
    }
    let s5 = match space1_at(s, pc) {
        Some(x) => x,
        None => {
            return None;
        },
    };
    proof {
        lemma_run_end(s@, s5 as int, token_pred(false));
    }
    let ms = match token_at(s, s5, false) {
        Some(x) => x,
        None => {
            return None;
        },
    };
    proof {
        lemma_run_end(s@, ms as int, blank_pred());
    }
    let s6 = scan_blanks(s, ms);
    proof {
        lemma_structured_data_bounds(s@, s6 as int, true);
    }
    let sd = match structured_data_at(s, s6, true) {
        Some(x) => x,
        None => {
            return None;
        },
    };
    Some(scan_blanks(s, sd))
}

/// Modern-format entry point: on a match the header is the exactly
/// consumed prefix and the body is the rest of the input.
pub fn parse(input: &str) -> (r: Option<Msg>)
    ensures
        match rfc5424_end(input@, 0) {
            Some(h) => r matches Some(m) && m.header@ == input@.subrange(0, h) && m.msg@
                == input@.subrange(h, input@.len() as int),
            None => r is None,
        },
{
    proof {
        lemma_rfc5424_bounds(input@, 0);
    }
    let n = input.unicode_len();
    match rfc5424_at(input, 0) {
        Some(h) => Some(
            Msg {
                header: input.substring_char(0, h).to_owned(),
                msg: input.substring_char(h, n).to_owned(),
            },
        ),
        None => None,
    }
}

} // verus!
