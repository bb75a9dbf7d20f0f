//! The only unverified calls of the library: the RFC 3339 oracle, the
//! wall clock, and the lossy UTF-8 decoder. Everything stated here is
//! taken on trust; every other function of the crate is verified.
use vstd::prelude::*;

verus! {

/// What `chrono::DateTime::parse_from_rfc3339` accepts: a fixed function
/// of the characters of the input alone.
pub uninterp spec fn is_rfc3339(s: Seq<char>) -> bool;

/// What `String::from_utf8_lossy` yields on the given bytes: a fixed
/// function of the bytes alone.
pub uninterp spec fn lossy_decode(bytes: Seq<u8>) -> Seq<char>;

/// Relies on `chrono::DateTime::parse_from_rfc3339` to decide whether a
/// text is a conformant RFC 3339 instant; acceptance depends on the
/// characters alone.
#[verifier::external_body]
pub(crate) fn rfc3339_valid(s: &str) -> (r: bool)
    ensures
        r == is_rfc3339(s@),
{
    chrono::DateTime::parse_from_rfc3339(s).is_ok()
}

/// Relies on `chrono::Local::now` for the wall clock, reduced to Unix
/// milliseconds. Nothing is promised of the value.
#[verifier::external_body]
pub(crate) fn now_millis() -> (r: i64) {
    chrono::Local::now().timestamp_millis()
}

/// Relies on `String::from_utf8_lossy`: the result is a fixed function of
/// the bytes (invalid sequences become replacement characters), and valid
/// UTF-8 decodes to exactly its characters.
#[verifier::external_body]
pub(crate) fn utf8_lossy(v: &[u8]) -> (r: String)
    ensures
        r@ == lossy_decode(v@),
        vstd::utf8::valid_utf8(v@) ==> r@ == vstd::utf8::decode_utf8(v@),
{
    String::from_utf8_lossy(v).into_owned()
}

} // verus!
