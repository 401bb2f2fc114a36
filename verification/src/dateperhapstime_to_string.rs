//! Civil date and time values and their stored text form.
//!
//! An event's start and end instants arrive in one of three shapes — a bare
//! date, a naive ("floating") datetime, a UTC datetime — or as a local
//! datetime with a named timezone. They are stored as ISO-8601 text:
//! `YYYY-MM-DD`, `YYYY-MM-DDTHH:MM:SS`, or `YYYY-MM-DDTHH:MM:SSZ`. Zoned
//! values are first mapped to UTC through the timezone database.

use vstd::prelude::*;
use chrono::Datelike;
use chrono::Timelike;
use std::str::FromStr;
use crate::error::DatePerhapsTimeToStringError;
use crate::strutil::digit_char_of;
use crate::strutil::push_char;

verus! {

/// A calendar date, as plain field values.
#[derive(Debug, Clone, Copy, PartialEq, Eq, Structural)]
pub struct CivilDate {
    pub year: u16,
    pub month: u8,
    pub day: u8,
}

impl CivilDate {
    /// Field ranges under which the date has a four-digit text form.
    pub open spec fn wf(&self) -> bool {
        &&& 1 <= self.year <= 9999
        &&& 1 <= self.month <= 12
        &&& 1 <= self.day <= 31
    }
}

/// A calendar date with a time of day, as plain field values.
#[derive(Debug, Clone, Copy, PartialEq, Eq, Structural)]
pub struct CivilDateTime {
    pub year: u16,
    pub month: u8,
    pub day: u8,
    pub hour: u8,
    pub minute: u8,
    pub second: u8,
}

impl CivilDateTime {
    /// Field ranges under which the datetime has its ISO text form.
    pub open spec fn wf(&self) -> bool {
        &&& 1 <= self.year <= 9999
        &&& 1 <= self.month <= 12
        &&& 1 <= self.day <= 31
        &&& self.hour <= 23
        &&& self.minute <= 59
        &&& self.second <= 59
    }

    /// Executable check matching `wf`.
    pub fn check_wf(&self) -> (r: bool)
        ensures
            r == self.wf(),
    {
        1 <= self.year && self.year <= 9999 && 1 <= self.month && self.month <= 12 && 1
            <= self.day && self.day <= 31 && self.hour <= 23 && self.minute <= 59 && self.second
            <= 59
    }
}

/// A date, or a datetime in one of three flavours, as delivered by the
/// roster feed.
#[derive(Debug, Clone, PartialEq, Eq)]
pub enum DatePerhapsTime {
    /// A bare date; stored as UTC midnight of that day.
    Date(CivilDate),
    /// A naive datetime without timezone; treated as UTC.
    Floating(CivilDateTime),
    /// A datetime already in UTC.
    Utc(CivilDateTime),
    /// A local datetime in the named timezone.
    Zoned { date_time: CivilDateTime, tzid: String },
}

/// Mathematical image of `DatePerhapsTime`.
pub enum DatePerhapsTimeView {
    Date(CivilDate),
    Floating(CivilDateTime),
    Utc(CivilDateTime),
    Zoned { date_time: CivilDateTime, tzid: Seq<char> },
}

impl View for DatePerhapsTime {
    type V = DatePerhapsTimeView;

    open spec fn view(&self) -> DatePerhapsTimeView {
        match self {
            DatePerhapsTime::Date(d) => DatePerhapsTimeView::Date(*d),
            DatePerhapsTime::Floating(t) => DatePerhapsTimeView::Floating(*t),
            DatePerhapsTime::Utc(t) => DatePerhapsTimeView::Utc(*t),
            DatePerhapsTime::Zoned { date_time, tzid } => DatePerhapsTimeView::Zoned {
                date_time: *date_time,
                tzid: tzid@,
            },
        }
    }
}

impl DatePerhapsTimeView {
    /// The carried civil value is in range.
    pub open spec fn wf(&self) -> bool {
        match *self {
            DatePerhapsTimeView::Date(d) => d.wf(),
            DatePerhapsTimeView::Floating(t) => t.wf(),
            DatePerhapsTimeView::Utc(t) => t.wf(),
            DatePerhapsTimeView::Zoned { date_time, tzid } => date_time.wf(),
        }
    }
}

impl DatePerhapsTime {
    /// Executable check matching `DatePerhapsTimeView::wf`.
    pub fn check_wf(&self) -> (r: bool)
        ensures
            r == self@.wf(),
    {
        match self {
            DatePerhapsTime::Date(d) => 1 <= d.year && d.year <= 9999 && 1 <= d.month && d.month
                <= 12 && 1 <= d.day && d.day <= 31,
            DatePerhapsTime::Floating(t) => t.check_wf(),
            DatePerhapsTime::Utc(t) => t.check_wf(),
            DatePerhapsTime::Zoned { date_time, tzid } => date_time.check_wf(),
        }
    }
}

/// Two decimal digits, zero padded.
pub open spec fn two_digits(n: int) -> Seq<char> {
    seq![digit_char_of(n / 10), digit_char_of(n % 10)]
}

/// Four decimal digits, zero padded.
pub open spec fn four_digits(n: int) -> Seq<char> {
    seq![
        digit_char_of(n / 1000),
        digit_char_of((n / 100) % 10),
        digit_char_of((n / 10) % 10),
        digit_char_of(n % 10),
    ]
}

/// Text form of a date: `YYYY-MM-DD`.
pub open spec fn date_text(d: CivilDate) -> Seq<char> {
    four_digits(d.year as int) + seq!['-'] + two_digits(d.month as int) + seq!['-'] + two_digits(
        d.day as int,
    )
}

/// Text form of a naive datetime: `YYYY-MM-DDTHH:MM:SS`.
pub open spec fn datetime_text(t: CivilDateTime) -> Seq<char> {
    four_digits(t.year as int) + seq!['-'] + two_digits(t.month as int) + seq!['-'] + two_digits(
        t.day as int,
    ) + seq!['T'] + two_digits(t.hour as int) + seq![':'] + two_digits(t.minute as int) + seq![':']
        + two_digits(t.second as int)
}

fn push_two_digits(s: &mut String, n: u16)
    requires
        n < 100,
    ensures
        final(s)@ == old(s)@ + two_digits(n as int),
{
    push_char(s, crate::strutil::render_digit((n / 10) as u64));
    push_char(s, crate::strutil::render_digit((n % 10) as u64));
    assert(final(s)@ =~= old(s)@ + two_digits(n as int));
}

fn push_four_digits(s: &mut String, n: u16)
    requires
        n < 10000,
    ensures
        final(s)@ == old(s)@ + four_digits(n as int),
{
    push_char(s, crate::strutil::render_digit((n / 1000) as u64));
    push_char(s, crate::strutil::render_digit(((n / 100) % 10) as u64));
    push_char(s, crate::strutil::render_digit(((n / 10) % 10) as u64));
    push_char(s, crate::strutil::render_digit((n % 10) as u64));
    assert(final(s)@ =~= old(s)@ + four_digits(n as int));
}

/// Renders a date as `YYYY-MM-DD`.
pub fn format_date(d: &CivilDate) -> (r: String)
    requires
        d.wf(),
    ensures
        r@ == date_text(*d),
{
    let mut s = String::new();
    push_four_digits(&mut s, d.year);
    push_char(&mut s, '-');
    push_two_digits(&mut s, d.month as u16);
    push_char(&mut s, '-');
    push_two_digits(&mut s, d.day as u16);
    assert(s@ =~= date_text(*d));
    s
}

/// Renders a datetime as `YYYY-MM-DDTHH:MM:SS`.
pub fn format_datetime(t: &CivilDateTime) -> (r: String)
    requires
        t.wf(),
    ensures
        r@ == datetime_text(*t),
{
    let mut s = String::new();
    push_four_digits(&mut s, t.year);
    push_char(&mut s, '-');
    push_two_digits(&mut s, t.month as u16);
    push_char(&mut s, '-');
    push_two_digits(&mut s, t.day as u16);
    push_char(&mut s, 'T');
    push_two_digits(&mut s, t.hour as u16);
    push_char(&mut s, ':');
    push_two_digits(&mut s, t.minute as u16);
    push_char(&mut s, ':');
    push_two_digits(&mut s, t.second as u16);
    assert(s@ =~= datetime_text(*t));
    s
}

/// Whether the timezone database knows a timezone of this name.
pub uninterp spec fn tz_known(tzid: Seq<char>) -> bool;

/// The UTC civil time of a local civil time in a named timezone, when the
/// local time is valid, unambiguous, and its UTC image is representable.
pub uninterp spec fn utc_of_local(dt: CivilDateTime, tzid: Seq<char>) -> Option<CivilDateTime>;

/// Relies on `chrono_tz::Tz::from_str`, a lookup in the timezone table that
/// is compiled into the crate: success depends on the name alone.
#[verifier::external_body]
fn tz_exists(tzid: &str) -> (r: bool)
    ensures
        r == tz_known(tzid@),
{
    chrono_tz::Tz::from_str(tzid).is_ok()
}

/// Relies on chrono's calendar arithmetic: `NaiveDate::from_ymd_opt`,
/// `NaiveDate::and_hms_opt`, `NaiveDateTime::and_local_timezone` under the
/// chrono_tz timezone named by `tzid`, and the field accessors of the UTC
/// image. The timezone table is compiled in, so the outcome is a function of
/// the arguments alone; `None` reports an invalid civil time, a local time
/// that is ambiguous or skipped in that timezone, or a UTC year outside `u16`.
#[verifier::external_body]
fn local_to_utc(dt: &CivilDateTime, tzid: &str) -> (r: Option<CivilDateTime>)
    requires
        tz_known(tzid@),
    ensures
        r == utc_of_local(*dt, tzid@),
{
    let tz = chrono_tz::Tz::from_str(tzid).ok()?;
    let date = chrono::NaiveDate::from_ymd_opt(dt.year as i32, dt.month as u32, dt.day as u32)?;
    let naive = date.and_hms_opt(dt.hour as u32, dt.minute as u32, dt.second as u32)?;
    let utc = naive.and_local_timezone(tz).single()?.with_timezone(&chrono::Utc);
    Some(CivilDateTime {
        year: u16::try_from(utc.year()).ok()?,
        month: utc.month() as u8,
        day: utc.day() as u8,
        hour: utc.hour() as u8,
        minute: utc.minute() as u8,
        second: utc.second() as u8,
    })
}

/// The stored text of a date-or-datetime value, or `None` where the value
/// cannot be mapped to UTC text.
pub open spec fn dpt_text(d: DatePerhapsTimeView) -> Option<Seq<char>> {
    match d {
        DatePerhapsTimeView::Date(cd) => Some(date_text(cd)),
        DatePerhapsTimeView::Floating(t) => Some(datetime_text(t)),
        DatePerhapsTimeView::Utc(t) => Some(datetime_text(t) + seq!['Z']),
        DatePerhapsTimeView::Zoned { date_time, tzid } => {
            if tz_known(tzid) {
                match utc_of_local(date_time, tzid) {
                    Some(u) => if u.wf() {
                        Some(datetime_text(u) + seq!['Z'])
                    } else {
                        None
                    },
                    None => None,
                }
            } else {
                None
            }
        },
    }
}

/// Converts a date-or-datetime value to its stored text form.
///
/// Bare dates render as `YYYY-MM-DD`, floating datetimes as naive ISO text
/// (assumed UTC), UTC datetimes with a trailing `Z`, and zoned datetimes are
/// mapped to UTC first. An unknown timezone name, or a local time that has no
/// single UTC image, is the value's own fault and is reported as an error.
pub fn dateperhapstime_to_string(dt: &DatePerhapsTime) -> (r: Result<
    String,
    DatePerhapsTimeToStringError,
>)
    requires
        dt@.wf(),
    ensures
        r is Ok <==> dpt_text(dt@) is Some,
        r matches Ok(s) ==> Some(s@) == dpt_text(dt@),
        r matches Err(DatePerhapsTimeToStringError::TimezoneParsing { tzid }) ==> (dt@ matches
            DatePerhapsTimeView::Zoned { date_time, tzid: tzv } && tzid@ == tzv && !tz_known(tzv)),
        r matches Err(DatePerhapsTimeToStringError::LocalTimeMapping { ldt, tz }) ==> (dt@ matches
            DatePerhapsTimeView::Zoned { date_time, tzid: tzv } && tz@ == tzv && ldt == date_time
            && tz_known(tzv)),
{
    match dt {
        DatePerhapsTime::Date(d) => Ok(format_date(d)),
        DatePerhapsTime::Floating(t) => Ok(format_datetime(t)),
        DatePerhapsTime::Utc(t) => {
            let mut s = format_datetime(t);
            push_char(&mut s, 'Z');
            Ok(s)
        },
        DatePerhapsTime::Zoned { date_time, tzid } => {
            if !tz_exists(tzid.as_str()) {
                return Err(
                    DatePerhapsTimeToStringError::TimezoneParsing { tzid: tzid.clone() },
                );
            }
            match local_to_utc(date_time, tzid.as_str()) {
                Some(u) => {
                    if u.check_wf() {
                        let mut s = format_datetime(&u);
                        push_char(&mut s, 'Z');
                        Ok(s)
                    } else {
                        Err(
                            DatePerhapsTimeToStringError::LocalTimeMapping {
                                ldt: *date_time,
                                tz: tzid.clone(),
                            },
                        )
                    }
                },
                None => Err(
                    DatePerhapsTimeToStringError::LocalTimeMapping {
                        ldt: *date_time,
                        tz: tzid.clone(),
                    },
                ),
            }
        },
    }
}

} // verus!
