//! Archive boundary policy.
//!
//! A stored end instant is text in one of three shapes: an offset-aware
//! timestamp, a naive timestamp (taken as UTC), or a bare date (taken as UTC
//! midnight). The policy parses the text by trying the three shapes in that
//! order and declares the event archived when the instant is at or before
//! the frozen per-pass boundary.

use vstd::prelude::*;
use crate::error::DateTimeParseError;

verus! {

/// Unix seconds of the instant that an offset-aware RFC 3339 timestamp text
/// denotes, or `None` where the text is not such a timestamp.
pub uninterp spec fn rfc3339_instant(s: Seq<char>) -> Option<i64>;

/// Unix seconds of a naive `YYYY-MM-DDTHH:MM:SS` timestamp text taken as
/// UTC, or `None` where the text is not of that shape.
pub uninterp spec fn naive_datetime_instant(s: Seq<char>) -> Option<i64>;

/// Unix seconds of UTC midnight of a bare `YYYY-MM-DD` date text, or `None`
/// where the text is not such a date.
pub uninterp spec fn naive_date_instant(s: Seq<char>) -> Option<i64>;

/// Relies on `chrono::DateTime::parse_from_rfc3339` and
/// `DateTime::timestamp`: parses an offset-aware timestamp and returns its
/// Unix seconds, a function of the text alone.
#[verifier::external_body]
fn parse_rfc3339_seconds(s: &str) -> (r: Option<i64>)
    ensures
        r == rfc3339_instant(s@),
{
    chrono::DateTime::parse_from_rfc3339(s).ok().map(|dt| dt.timestamp())
}

/// Relies on `chrono::NaiveDateTime::parse_from_str` with format
/// `%Y-%m-%dT%H:%M:%S`, `NaiveDateTime::and_utc` and `DateTime::timestamp`:
/// parses a naive timestamp, takes it as UTC, and returns its Unix seconds,
/// a function of the text alone.
#[verifier::external_body]
fn parse_naive_datetime_seconds(s: &str) -> (r: Option<i64>)
    ensures
        r == naive_datetime_instant(s@),
{
    chrono::NaiveDateTime::parse_from_str(s, "%Y-%m-%dT%H:%M:%S").ok().map(
        |dt| dt.and_utc().timestamp(),
    )
}

/// Relies on `chrono::NaiveDate::parse_from_str` with format `%Y-%m-%d`,
/// `NaiveDate::and_hms_opt` (midnight is always a valid time of day),
/// `NaiveDateTime::and_utc` and `DateTime::timestamp`: parses a bare date
/// and returns the Unix seconds of its UTC midnight, a function of the text
/// alone.
#[verifier::external_body]
fn parse_naive_date_seconds(s: &str) -> (r: Option<i64>)
    ensures
        r == naive_date_instant(s@),
{
    chrono::NaiveDate::parse_from_str(s, "%Y-%m-%d").ok().and_then(
        |d| d.and_hms_opt(0, 0, 0).map(|dt| dt.and_utc().timestamp()),
    )
}

/// The instant a stored end text denotes: the first of the three accepted
/// shapes that parses, or `None` where none does.
pub open spec fn parsed_instant(s: Seq<char>) -> Option<i64> {
    if rfc3339_instant(s) is Some {
        rfc3339_instant(s)
    } else if naive_datetime_instant(s) is Some {
        naive_datetime_instant(s)
    } else {
        naive_date_instant(s)
    }
}

/// The instant a stored end text denotes, as an executable value.
pub fn end_instant(s: &str) -> (r: Option<i64>)
    ensures
        r == parsed_instant(s@),
{
    match parse_rfc3339_seconds(s) {
        Some(t) => Some(t),
        None => match parse_naive_datetime_seconds(s) {
            Some(t) => Some(t),
            None => parse_naive_date_seconds(s),
        },
    }
}

/// The text parses and denotes an instant at or before the boundary.
pub open spec fn archived_at(s: Seq<char>, archive_end_ts: i64) -> bool {
    parsed_instant(s) matches Some(t) && t <= archive_end_ts
}

/// Decides whether an event whose end instant is given by `dt_str` belongs
/// to the immutable past relative to the archive boundary `archive_end_ts`
/// (Unix seconds).
///
/// The text is parsed by trying the three accepted shapes in order; failure
/// of all three is a hard parse error, not a default.
pub fn is_archived(dt_str: &str, archive_end_ts: i64) -> (r: Result<bool, DateTimeParseError>)
    ensures
        r is Ok <==> parsed_instant(dt_str@) is Some,
        r matches Ok(b) ==> b == archived_at(dt_str@, archive_end_ts),
        r matches Err(e) ==> e.input@ == dt_str@,
{
    match end_instant(dt_str) {
        Some(t) => Ok(t <= archive_end_ts),
        None => Err(DateTimeParseError { input: dt_str.to_owned() }),
    }
}

/// The archive decision is monotonic in the end instant: of two parseable
/// end texts whose instants are ordered, if the later one is at or before
/// the boundary both are archived, and if the earlier one is after the
/// boundary neither is.
pub proof fn lemma_is_archived_monotonic(
    end1: Seq<char>,
    end2: Seq<char>,
    boundary: i64,
    t1: i64,
    t2: i64,
)
    requires
        parsed_instant(end1) == Some(t1),
        parsed_instant(end2) == Some(t2),
        t1 <= t2,
    ensures
        t2 <= boundary ==> archived_at(end1, boundary) && archived_at(end2, boundary),
        boundary < t1 ==> !archived_at(end1, boundary) && !archived_at(end2, boundary),
{
}

} // verus!
