//! RFC 3339 rendering and reading of timestamps, through chrono.
//!
//! The model holds timestamps as seconds since the Unix epoch; the wire
//! carries them either as plain integers or as RFC 3339 text.  Both text
//! directions are functions of their argument alone, so they are named and
//! the library's contracts speak of the names.

use vstd::prelude::*;

use crate::model::{MIN_TIMESTAMP, MAX_TIMESTAMP};

verus! {

/// The RFC 3339 rendering (UTC, whole seconds, `Z` suffix) of a timestamp.
pub uninterp spec fn rfc3339_of(secs: int) -> Seq<char>;

/// The timestamp an RFC 3339 text denotes, if it is one.
pub uninterp spec fn rfc3339_secs(s: Seq<char>) -> Option<i64>;

/// Relies on chrono's `DateTime::<Utc>::from_timestamp` and
/// `to_rfc3339_opts(SecondsFormat::Secs, true)`: the text depends on the
/// seconds alone, `from_timestamp` is total on the wire range, and chrono's
/// `parse_from_rfc3339` reads its own RFC 3339 rendering back.
#[verifier::external_body]
pub fn rfc3339_format(secs: i64) -> (r: String)
    requires
        MIN_TIMESTAMP <= secs <= MAX_TIMESTAMP,
    ensures
        r@ == rfc3339_of(secs as int),
        rfc3339_secs(r@) == Some(secs),
{
    match chrono::DateTime::<chrono::Utc>::from_timestamp(secs, 0) {
        Some(d) => d.to_rfc3339_opts(chrono::SecondsFormat::Secs, true),
        None => String::new(),
    }
}

/// Relies on chrono's `DateTime::parse_from_rfc3339`: the result depends on
/// the text alone.
#[verifier::external_body]
pub fn rfc3339_parse(s: &str) -> (r: Option<i64>)
    ensures
        r == rfc3339_secs(s@),
{
    match chrono::DateTime::parse_from_rfc3339(s) {
        Ok(d) => Some(d.timestamp()),
        Err(_) => None,
    }
}

} // verus!
