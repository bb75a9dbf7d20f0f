//! Application-name field: a maximal whitespace-free token (colons allowed).
use vstd::prelude::*;

use crate::error::{ErrorKind, SyslogParseError};
use crate::format::{optional, token_end};

verus! {

pub fn appname(input: &str) -> (r: Result<(String, Option<String>), SyslogParseError>)
    ensures
        match token_end(input@, 0, true) {
            Some(j) => r matches Ok(p) && p.0@ == input@.subrange(j, input@.len() as int) && (
            p.1 matches Some(tk) && tk@ == input@.subrange(0, j)),
            None => r matches Err(e) && e == SyslogParseError::ParseError(ErrorKind::Appname),
        },
{
    match optional(input, true) {
        Some(p) => Ok((p.0, Some(p.1))),
        None => Err(SyslogParseError::ParseError(ErrorKind::Appname)),
    }
}

} // verus!
