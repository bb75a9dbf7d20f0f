//! Incremental reassembly of syslog messages from an arbitrarily chunked
//! byte stream, with a verified grammar for the two wire formats.
//!
//! `text` holds the character-run primitives; `format` the field rules
//! (priority, timestamps, tokens, structured data); `protocol` the two
//! header grammars and their selection; `stream` the stateful
//! reassembly engine. `trusted` holds the only unverified calls: the
//! RFC 3339 oracle, the wall clock and the lossy UTF-8 decoder.
pub mod error;
pub mod format;
pub mod protocol;
pub mod stream;
pub mod text;
pub mod trusted;
