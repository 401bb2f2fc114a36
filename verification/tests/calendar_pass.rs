use duty_plan::api_response::AirportRecord;
use duty_plan::api_response::AirportType;
use duty_plan::api_response::Continent;
use duty_plan::api_response::CountryDownloadResponse;
use duty_plan::dateperhapstime_to_string::CivilDateTime;
use duty_plan::dateperhapstime_to_string::DatePerhapsTime;
use duty_plan::update_calendar::UpdateCalendarError;
use duty_plan::update_calendar::normalize_alarm_triggers;
use duty_plan::update_calendar::update_calendar;
use duty_plan::update_db::DownloadedEvent;
use duty_plan::update_db::EventStore;
use duty_plan::update_db::ReferenceStore;
use duty_plan::update_db::update_airports;
use duty_plan::update_db::update_countries;

// 2024-12-31T00:00:00Z in Unix seconds: a boundary before the roster events.
const BOUNDARY: i64 = 1735603200;

fn reference() -> ReferenceStore {
    let mut store = ReferenceStore::new();
    update_airports(
        &mut store,
        vec![AirportRecord {
            id: 1,
            kind: AirportType::large_airport,
            name: "Frankfurt".to_string(),
            municipality: Some("Frankfurt".to_string()),
            gps_code: Some("EDDF".to_string()),
            iata_code: Some("FRA".to_string()),
            iso_country: "DE".to_string(),
        }],
    );
    update_countries(
        &mut store,
        vec![CountryDownloadResponse {
            id: 1,
            code: "DE".to_string(),
            name: "Germany".to_string(),
            continent: Continent::EU,
            wikipedia_link: None,
            keywords: None,
        }],
    );
    store
}

fn utc(day: u8, hour: u8) -> DatePerhapsTime {
    DatePerhapsTime::Utc(CivilDateTime { year: 2025, month: 1, day, hour, minute: 0, second: 0 })
}

fn roster_event(uid: &str, summary: &str, start: DatePerhapsTime, end: DatePerhapsTime) -> DownloadedEvent {
    DownloadedEvent {
        uid: Some(uid.to_string()),
        summary: Some(summary.to_string()),
        start: Some(start),
        end: Some(end),
        location: Some("FRA".to_string()),
        description: Some("inbound".to_string()),
    }
}

#[test]
fn one_flight_end_to_end() {
    // Roster with one flight FRA-JFK; FRA resolves to EDDF, JFK is unknown.
    let mut events = EventStore::new();
    let downloaded = vec![roster_event("f1", "LH 123: FRA-JFK", utc(1, 10), utc(1, 20))];
    let out = update_calendar(&mut events, &reference(), &downloaded, BOUNDARY).unwrap();
    assert_eq!(out.len(), 1);
    assert_eq!(out[0].summary.as_deref(), Some("LH123: EDDF ✈ JFK"));
    assert_eq!(out[0].alarms.len(), 1);
    assert_eq!(out[0].alarms[0].trigger_minutes, -30);
    assert_eq!(out[0].description.as_deref(), Some(""));
}

#[test]
fn ground_event_end_to_end() {
    let mut events = EventStore::new();
    let downloaded = vec![roster_event(
        "g1",
        "Mandatory Training (CRM Refresher)",
        utc(2, 9),
        utc(2, 17),
    )];
    let out = update_calendar(&mut events, &reference(), &downloaded, BOUNDARY).unwrap();
    assert_eq!(out.len(), 1);
    assert_eq!(out[0].summary.as_deref(), Some("Training: CRM Refresher"));
}

#[test]
fn pass_output_is_sorted_by_start() {
    let mut events = EventStore::new();
    let downloaded = vec![
        roster_event("later", "LAYOVER", utc(3, 10), utc(3, 20)),
        roster_event("earlier", "Absence (U)", utc(1, 10), utc(1, 20)),
        roster_event("middle", "unknown thing", utc(2, 10), utc(2, 20)),
    ];
    let out = update_calendar(&mut events, &reference(), &downloaded, BOUNDARY).unwrap();
    let starts: Vec<&str> = out.iter().map(|e| e.start_str.as_str()).collect();
    assert_eq!(
        starts,
        vec!["2025-01-01T10:00:00Z", "2025-01-02T10:00:00Z", "2025-01-03T10:00:00Z"]
    );
    assert_eq!(out[0].summary.as_deref(), Some("Holiday"));
    assert_eq!(out[2].summary.as_deref(), Some("Layover"));
}

#[test]
fn invalid_reserve_description_aborts_the_pass() {
    let mut events = EventStore::new();
    let downloaded = vec![roster_event("r1", "Reserve (BOGUS)", utc(1, 10), utc(1, 20))];
    let r = update_calendar(&mut events, &reference(), &downloaded, BOUNDARY);
    match r {
        Err(UpdateCalendarError::InvalidReserve(e)) => assert_eq!(e.description, "BOGUS"),
        other => panic!("expected an invalid-reserve error, got {other:?}"),
    }
}

#[test]
fn incomplete_row_fails_the_load() {
    let mut events = EventStore::new();
    let mut bare = roster_event("b1", "LAYOVER", utc(1, 10), utc(1, 20));
    bare.summary = None;
    let r = update_calendar(&mut events, &reference(), &vec![bare], BOUNDARY);
    assert!(matches!(r, Err(UpdateCalendarError::LoadCalendar(_))));
}

#[test]
fn hour_trigger_renders_as_hours() {
    assert_eq!(normalize_alarm_triggers("TRIGGER:-PT3600S"), "TRIGGER:-PT1H");
}

#[test]
fn minute_trigger_renders_as_minutes() {
    assert_eq!(normalize_alarm_triggers("TRIGGER:-PT900S"), "TRIGGER:-PT15M");
}

#[test]
fn odd_second_trigger_stays_in_seconds() {
    assert_eq!(normalize_alarm_triggers("TRIGGER:-PT950S"), "TRIGGER:-PT950S");
}

#[test]
fn several_triggers_are_rewritten_in_one_text() {
    let text = "BEGIN\nTRIGGER:-PT5400S\nTRIGGER:PT5400S\nTRIGGER:-PT60S\nEND";
    assert_eq!(
        normalize_alarm_triggers(text),
        "BEGIN\nTRIGGER:-PT90M\nTRIGGER:PT90M\nTRIGGER:-PT1M\nEND"
    );
}

#[test]
fn leading_zeros_normalize_by_value() {
    assert_eq!(normalize_alarm_triggers("PT0060S"), "PT1M");
    assert_eq!(normalize_alarm_triggers("PT7200S"), "PT2H");
}

#[test]
fn unrelated_text_is_unchanged() {
    assert_eq!(normalize_alarm_triggers("DTSTART:20250101T100000Z"), "DTSTART:20250101T100000Z");
    assert_eq!(normalize_alarm_triggers("PTS"), "PTS");
    assert_eq!(normalize_alarm_triggers(""), "");
}

#[test]
fn zero_trigger_renders_as_zero_hours() {
    assert_eq!(normalize_alarm_triggers("PT0S"), "PT0H");
}

#[test]
fn oversized_digit_runs_are_left_alone() {
    let text = "PT1000000000000000000000S";
    assert_eq!(normalize_alarm_triggers(text), text);
}
