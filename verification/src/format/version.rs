//! Version field of the modern format: a non-empty digit run.
use vstd::prelude::*;
use vstd::string::StrSliceExecFns;

use crate::format::{digits1_at, digits1_end};
use crate::text::{digit_pred, lemma_run_end};

verus! {

/// Version rule as an entry point: on success returns the remainder and
/// the matched digits, exactly as consumed.
pub fn version(input: &str) -> (r: Option<(String, String)>)
    ensures
        match digits1_end(input@, 0) {
            Some(j) => r matches Some(p) && p.0@ == input@.subrange(j, input@.len() as int)
                && p.1@ == input@.subrange(0, j),
            None => r is None,
        },
{
    proof {
        lemma_run_end(input@, 0, digit_pred());
    }
    let n = input.unicode_len();
    match digits1_at(input, 0) {
        Some(j) => {
            let matched = input.substring_char(0, j).to_owned();
            let rest = input.substring_char(j, n).to_owned();
            Some((rest, matched))
        },
        None => None,
    }
}

} // verus!
