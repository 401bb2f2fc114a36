use duty_plan::dateperhapstime_to_string::dateperhapstime_to_string;
use duty_plan::dateperhapstime_to_string::CivilDate;
use duty_plan::dateperhapstime_to_string::CivilDateTime;
use duty_plan::dateperhapstime_to_string::DatePerhapsTime;
use duty_plan::error::DatePerhapsTimeToStringError;
use duty_plan::is_archived::is_archived;

// 2025-01-01T00:00:00Z in Unix seconds.
const JAN_FIRST: i64 = 1735689600;

fn dt(hour: u8) -> CivilDateTime {
    CivilDateTime { year: 2025, month: 1, day: 1, hour, minute: 0, second: 0 }
}

#[test]
fn bare_date_renders_as_iso_date() {
    let r = dateperhapstime_to_string(&DatePerhapsTime::Date(CivilDate {
        year: 2025,
        month: 1,
        day: 1,
    }));
    assert_eq!(r.unwrap(), "2025-01-01");
}

#[test]
fn date_rendering_zero_pads() {
    let r = dateperhapstime_to_string(&DatePerhapsTime::Date(CivilDate {
        year: 987,
        month: 6,
        day: 5,
    }));
    assert_eq!(r.unwrap(), "0987-06-05");
}

#[test]
fn floating_datetime_renders_naive() {
    let r = dateperhapstime_to_string(&DatePerhapsTime::Floating(dt(10)));
    assert_eq!(r.unwrap(), "2025-01-01T10:00:00");
}

#[test]
fn utc_datetime_renders_with_z() {
    let r = dateperhapstime_to_string(&DatePerhapsTime::Utc(dt(10)));
    assert_eq!(r.unwrap(), "2025-01-01T10:00:00Z");
}

#[test]
fn zoned_datetime_is_mapped_to_utc() {
    // Central European Summer Time is two hours ahead of UTC.
    let r = dateperhapstime_to_string(&DatePerhapsTime::Zoned {
        date_time: CivilDateTime { year: 2025, month: 7, day: 1, hour: 12, minute: 0, second: 0 },
        tzid: "Europe/Berlin".to_string(),
    });
    assert_eq!(r.unwrap(), "2025-07-01T10:00:00Z");
}

#[test]
fn unknown_timezone_is_an_error() {
    let r = dateperhapstime_to_string(&DatePerhapsTime::Zoned {
        date_time: dt(12),
        tzid: "Nowhere/Atlantis".to_string(),
    });
    assert_eq!(
        r,
        Err(DatePerhapsTimeToStringError::TimezoneParsing { tzid: "Nowhere/Atlantis".to_string() })
    );
}

#[test]
fn skipped_local_time_is_an_error() {
    // 02:30 on the night Germany springs forward does not exist.
    let r = dateperhapstime_to_string(&DatePerhapsTime::Zoned {
        date_time: CivilDateTime { year: 2025, month: 3, day: 30, hour: 2, minute: 30, second: 0 },
        tzid: "Europe/Berlin".to_string(),
    });
    assert!(matches!(r, Err(DatePerhapsTimeToStringError::LocalTimeMapping { .. })));
}

#[test]
fn archives_offset_aware_timestamp() {
    // End at 10:00, boundary at 10:00: at the boundary counts as archived.
    assert_eq!(is_archived("2025-01-01T10:00:00Z", JAN_FIRST + 36000), Ok(true));
    // Boundary one second earlier: not archived.
    assert_eq!(is_archived("2025-01-01T10:00:00Z", JAN_FIRST + 35999), Ok(false));
}

#[test]
fn archives_naive_timestamp_as_utc() {
    assert_eq!(is_archived("2025-01-01T10:00:00", JAN_FIRST + 36000), Ok(true));
    assert_eq!(is_archived("2025-01-01T10:00:00", JAN_FIRST + 35999), Ok(false));
}

#[test]
fn archives_bare_date_as_utc_midnight() {
    assert_eq!(is_archived("2025-01-01", JAN_FIRST), Ok(true));
    assert_eq!(is_archived("2025-01-01", JAN_FIRST - 1), Ok(false));
}

#[test]
fn offset_timestamp_converts_to_utc() {
    // 12:00 at +02:00 is 10:00 UTC.
    assert_eq!(is_archived("2025-01-01T12:00:00+02:00", JAN_FIRST + 36000), Ok(true));
    assert_eq!(is_archived("2025-01-01T12:00:00+02:00", JAN_FIRST + 35999), Ok(false));
}

#[test]
fn unparseable_end_is_a_hard_error() {
    let r = is_archived("not a date", JAN_FIRST);
    assert!(r.is_err());
    assert_eq!(r.unwrap_err().input, "not a date");
}

#[test]
fn archive_decision_is_monotonic_on_examples() {
    // end1 <= end2 <= boundary: both archived.
    assert_eq!(is_archived("2025-01-01T08:00:00Z", JAN_FIRST + 36000), Ok(true));
    assert_eq!(is_archived("2025-01-01T09:00:00Z", JAN_FIRST + 36000), Ok(true));
    // boundary < end1 <= end2: neither archived.
    assert_eq!(is_archived("2025-01-01T11:00:00Z", JAN_FIRST + 36000), Ok(false));
    assert_eq!(is_archived("2025-01-01T12:00:00Z", JAN_FIRST + 36000), Ok(false));
}
