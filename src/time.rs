//! Instants are held as milliseconds since the Unix epoch (UTC). Calendar
//! arithmetic and text forms come from chrono.

use chrono::{DateTime, Utc};
use vstd::prelude::*;

verus! {

/// Largest distance from the epoch, in milliseconds, of an instant that the
/// library formats (about 253,000 years; chrono reaches about 262,000).
pub const MAX_MILLIS: i64 = 8_000_000_000_000_000;

pub open spec fn in_time_range(ms: int) -> bool {
    -MAX_MILLIS <= ms <= MAX_MILLIS
}

/// The UTC calendar date of an instant, as `YYYY-MM-DD`.
pub uninterp spec fn utc_date_text(ms: int) -> Seq<char>;

/// The RFC 3339 text of an instant.
pub uninterp spec fn rfc3339_text(ms: int) -> Seq<char>;

/// The instant that a text denotes when it parses as a UTC date-time.
pub uninterp spec fn parsed_millis(s: Seq<char>) -> Option<i64>;

/// Relies on chrono's `DateTime::<Utc>::from_timestamp_millis`, which gives an
/// instant for every value within the range above, and on
/// `NaiveDate::format("%Y-%m-%d")` of its `date_naive()`.
#[verifier::external_body]
pub(crate) fn utc_date(ms: i64) -> (r: String)
    requires
        in_time_range(ms as int),
    ensures
        r@ == utc_date_text(ms as int),
{
    DateTime::from_timestamp_millis(ms).unwrap().date_naive().format("%Y-%m-%d").to_string()
}

/// Relies on chrono's `DateTime::<Utc>::to_rfc3339` of the instant made by
/// `from_timestamp_millis`, which succeeds on the range above.
#[verifier::external_body]
pub(crate) fn rfc3339(ms: i64) -> (r: String)
    requires
        in_time_range(ms as int),
    ensures
        r@ == rfc3339_text(ms as int),
{
    DateTime::from_timestamp_millis(ms).unwrap().to_rfc3339()
}

/// Relies on chrono's `FromStr` for `DateTime<Utc>` (RFC 3339 with relaxed
/// separators), then `timestamp_millis`.
#[verifier::external_body]
pub(crate) fn parse_utc_millis(s: &str) -> (r: Option<i64>)
    ensures
        r == parsed_millis(s@),
{
    match s.parse::<DateTime<Utc>>() {
        Ok(t) => Some(t.timestamp_millis()),
        Err(_) => None,
    }
}

} // verus!
