//! Timestamps for sync metadata.
//!
//! Rows carry their modification times as milliseconds since the Unix epoch;
//! the wire format of the remote authority uses RFC 3339 strings. The
//! conversions are done by chrono behind the trusted wrappers below; all
//! arithmetic on timestamps is done on the plain millisecond values.

use vstd::prelude::*;

verus! {

/// Largest timestamp (in ms) the library stores in row metadata; roughly the
/// year 5000, far beyond chrono's own range limits, so formatting never falls
/// back to the epoch for a stored timestamp.
pub const MAX_TIMESTAMP_MS: i64 = 100_000_000_000_000;

/// The RFC 3339 rendering chrono gives to an epoch-millisecond value (UTC),
/// with out-of-range values rendered as the epoch itself.
pub uninterp spec fn rfc3339_of(ms: i64) -> Seq<char>;

/// The epoch-millisecond value chrono reads from an RFC 3339 string, `None`
/// when the string does not parse.
pub uninterp spec fn rfc3339_ms_of(s: Seq<char>) -> Option<i64>;

/// Relies on chrono's `DateTime::from_timestamp_millis` and `to_rfc3339`:
/// the rendering is a function of the millisecond value alone. Values outside
/// chrono's representable range (none that satisfy the store's own timestamp
/// bound) fall back to the epoch, keeping the function total.
#[verifier::external_body]
pub fn format_rfc3339_ms(ms: i64) -> (r: String)
    ensures
        r@ == rfc3339_of(ms),
{
    chrono::DateTime::<chrono::Utc>::from_timestamp_millis(ms)
        .unwrap_or(chrono::DateTime::UNIX_EPOCH)
        .to_rfc3339()
}

/// Relies on chrono's `DateTime::parse_from_rfc3339` and `timestamp_millis`:
/// the parse is a function of the string alone, and a parsed value lies within
/// chrono's documented date range (about year -262143 to 262142, well inside
/// 10^16 ms either side of the epoch).
#[verifier::external_body]
pub fn parse_rfc3339_ms(s: &str) -> (r: Option<i64>)
    ensures
        r == rfc3339_ms_of(s@),
        r matches Some(ms) ==> -10_000_000_000_000_000 <= ms <= 10_000_000_000_000_000,
{
    chrono::DateTime::parse_from_rfc3339(s).ok().map(|d| d.timestamp_millis())
}

/// Relies on chrono's `Utc::now`: the wall clock, about which nothing is
/// promised. Callers hand the value to verified functions that state what
/// holds for every clock reading.
#[verifier::external_body]
pub fn now_ms() -> i64 {
    chrono::Utc::now().timestamp_millis()
}

} // verus!
