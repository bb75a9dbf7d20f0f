//! Message grammar: the two competing header formats, the modern one
//! tried first. A parsed message splits the input into the header — the
//! exactly consumed prefix — and the body, the untouched remainder.
use vstd::prelude::*;
use vstd::string::StrSliceExecFns;

pub mod rfc3164;
pub mod rfc5424;

use crate::protocol::rfc3164::{lemma_rfc3164_bounds, rfc3164_at, rfc3164_end};
use crate::protocol::rfc5424::{lemma_rfc5424_bounds, rfc5424_at, rfc5424_end};
use crate::text::opt_pos;

verus! {

/// A reconstructed message: the header as consumed from the input, and
/// the free-text body that follows it.
#[derive(Debug, PartialEq, Eq)]
pub struct Msg {
    pub header: String,
    pub msg: String,
}

/// End of a message header starting at `i`: the modern format first,
/// the legacy format only when the modern one fails.
pub open spec fn msg_end_at(t: Seq<char>, i: int) -> Option<int>
    recommends
        0 <= i <= t.len(),
{
    match rfc5424_end(t, i) {
        Some(h) => Some(h),
        None => rfc3164_end(t, i),
    }
}

/// End of a message header at the start of the input.
pub open spec fn msg_end(t: Seq<char>) -> Option<int> {
    msg_end_at(t, 0)
}

pub proof fn lemma_msg_end_at_bounds(t: Seq<char>, i: int)
    requires
        0 <= i <= t.len(),
    ensures
        match msg_end_at(t, i) {
            Some(h) => i + 3 <= h <= t.len(),
            None => true,
        },
{
    lemma_rfc5424_bounds(t, i);
    lemma_rfc3164_bounds(t, i);
}

pub proof fn lemma_msg_end_bounds(t: Seq<char>)
    ensures
        match msg_end(t) {
            Some(h) => 3 <= h <= t.len(),
            None => true,
        },
{
    lemma_msg_end_at_bounds(t, 0);
}

/// Exec parse of a message header starting at `i`.
pub(crate) fn msg_at(s: &str, i: usize) -> (r: Option<usize>)
    requires
        i <= s@.len(),
    ensures
        opt_pos(r, msg_end_at(s@, i as int)),
{
    match rfc5424_at(s, i) {
        Some(x) => Some(x),
        None => rfc3164_at(s, i),
    }
}

/// A header and its body concatenate to exactly the parsed input: no
/// character is lost, duplicated or reordered by parsing.
pub proof fn lemma_header_body_reconstruct(t: Seq<char>)
    ensures
        match msg_end(t) {
            Some(h) => t.subrange(0, h) + t.subrange(h, t.len() as int) == t,
            None => true,
        },
{
    lemma_msg_end_bounds(t);
    match msg_end(t) {
        Some(h) => {
            assert(t.subrange(0, h) + t.subrange(h, t.len() as int) =~= t);
        },
        None => (),
    }
}

/// Parse one message at the start of the input: the whole input is
/// consumed, the header part exactly reproducing the matched prefix.
pub fn single_parse(input: &str) -> (r: Option<Msg>)
    ensures
        match msg_end(input@) {
            Some(h) => r matches Some(m) && m.header@ == input@.subrange(0, h) && m.msg@
                == input@.subrange(h, input@.len() as int),
            None => r is None,
        },
{
    proof {
        lemma_msg_end_bounds(input@);
    }
    let n = input.unicode_len();
    match msg_at(input, 0) {
        Some(h) => Some(
            Msg {
                header: input.substring_char(0, h).to_owned(),
                msg: input.substring_char(h, n).to_owned(),
            },
        ),
        None => None,
    }
}

} // verus!
