//! Error kinds of the grammar. A failure is always local: the engine
//! treats it as "this text is not a header", never as a fatal error.
use vstd::prelude::*;

verus! {

/// Which grammar rule rejected its input.
#[derive(Clone, Copy, Debug, PartialEq, Eq, Structural)]
pub enum ErrorKind {
    Pri,
    Timestamp,
    Hostname,
    Appname,
    ProcessId,
    MessageId,
}

/// Failure of a parse entry point.
#[derive(Clone, Copy, Debug, PartialEq, Eq, Structural)]
pub enum SyslogParseError {
    /// The input matches neither header grammar at the given rule.
    ParseError(ErrorKind),
    /// The text before the first space is not a valid RFC 3339 instant.
    TimeParseError,
}

} // verus!
