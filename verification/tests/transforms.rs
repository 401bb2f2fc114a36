use duty_plan::api_response::AirportRecord;
use duty_plan::api_response::AirportType;
use duty_plan::api_response::Continent;
use duty_plan::api_response::CountryDownloadResponse;
use duty_plan::transform_calendar_event::Alarm;
use duty_plan::transform_calendar_event::CalendarEvent;
use duty_plan::transform_calendar_event::transform_briefing;
use duty_plan::transform_calendar_event::transform_deadhead;
use duty_plan::transform_calendar_event::transform_ground;
use duty_plan::transform_calendar_event::transform_holiday;
use duty_plan::transform_calendar_event::transform_layover;
use duty_plan::transform_calendar_event::transform_pickup;
use duty_plan::transform_calendar_event::transform_reserve;
use duty_plan::transform_calendar_event::transform_unknown;
use duty_plan::update_db::ReferenceStore;
use duty_plan::update_db::update_airports;
use duty_plan::update_db::update_countries;

// 2025-01-01T00:00:00Z in Unix seconds.
const BOUNDARY: i64 = 1735689600;

fn frankfurt_store() -> ReferenceStore {
    let mut store = ReferenceStore::new();
    update_airports(
        &mut store,
        vec![AirportRecord {
            id: 1,
            kind: AirportType::large_airport,
            name: "Frankfurt Airport".to_string(),
            municipality: Some("Frankfurt".to_string()),
            gps_code: Some("EDDF".to_string()),
            iata_code: Some("FRA".to_string()),
            iso_country: "DE".to_string(),
        }],
    );
    update_countries(
        &mut store,
        vec![CountryDownloadResponse {
            id: 1,
            code: "DE".to_string(),
            name: "Germany".to_string(),
            continent: Continent::EU,
            wikipedia_link: None,
            keywords: None,
        }],
    );
    store
}

fn active_event() -> CalendarEvent {
    CalendarEvent {
        uid: "u1".to_string(),
        summary: Some("whatever".to_string()),
        start_str: "2025-01-01T10:00:00Z".to_string(),
        end_str: "2025-01-01T20:00:00Z".to_string(),
        location: Some("FRA".to_string()),
        description: Some("inbound".to_string()),
        alarms: Vec::new(),
    }
}

fn alarm_minutes(e: &CalendarEvent) -> Vec<i32> {
    e.alarms.iter().map(|a| a.trigger_minutes).collect()
}

#[test]
fn baseline_clears_description_of_active_event() {
    let r = transform_unknown(active_event(), BOUNDARY);
    assert_eq!(r.summary.as_deref(), Some("whatever"));
    assert_eq!(r.description.as_deref(), Some(""));
    assert!(r.alarms.is_empty());
}

#[test]
fn baseline_marks_archived_event() {
    let mut e = active_event();
    e.end_str = "2024-12-30T20:00:00Z".to_string();
    let r = transform_unknown(e, BOUNDARY);
    assert_eq!(r.description.as_deref(), Some("archived event 🔒"));
}

#[test]
fn briefing_resolves_location_and_adds_three_alarms() {
    let r = transform_briefing(active_event(), &frankfurt_store(), BOUNDARY);
    assert_eq!(r.summary.as_deref(), Some("Briefing"));
    assert_eq!(r.location.as_deref(), Some("EDDF: Germany, Frankfurt Airport"));
    assert_eq!(alarm_minutes(&r), vec![-90, -60, -15]);
    assert_eq!(r.alarms[0].description, "Briefing");
}

#[test]
fn deadhead_rewrites_summary_and_alarms() {
    let r = transform_deadhead(
        active_event(),
        "LH123".to_string(),
        "FRA".to_string(),
        "JFK".to_string(),
        &frankfurt_store(),
        BOUNDARY,
    );
    assert_eq!(r.summary.as_deref(), Some("DEADHEAD LH123: EDDF ✈ JFK"));
    assert_eq!(r.location.as_deref(), Some("EDDF: Germany, Frankfurt Airport"));
    assert_eq!(alarm_minutes(&r), vec![90, -35]);
}

#[test]
fn ground_event_transforms_category_and_description() {
    let r = transform_ground(
        active_event(),
        "Training".to_string(),
        "CRM Refresher".to_string(),
        &frankfurt_store(),
        BOUNDARY,
    );
    assert_eq!(r.summary.as_deref(), Some("Training: CRM Refresher"));
    assert_eq!(r.location.as_deref(), Some("Germany, Frankfurt"));
    assert_eq!(alarm_minutes(&r), vec![-60, -15]);
}

#[test]
fn ground_event_with_empty_category_uses_bare_description() {
    let r = transform_ground(
        active_event(),
        "".to_string(),
        "Office day".to_string(),
        &frankfurt_store(),
        BOUNDARY,
    );
    assert_eq!(r.summary.as_deref(), Some("Office day"));
}

#[test]
fn holiday_clears_location() {
    let r = transform_holiday(active_event(), BOUNDARY);
    assert_eq!(r.summary.as_deref(), Some("Holiday"));
    assert_eq!(r.location.as_deref(), Some(""));
    assert!(r.alarms.is_empty());
}

#[test]
fn layover_resolves_city_location() {
    let r = transform_layover(active_event(), &frankfurt_store(), BOUNDARY);
    assert_eq!(r.summary.as_deref(), Some("Layover"));
    assert_eq!(r.location.as_deref(), Some("Germany, Frankfurt"));
    assert!(r.alarms.is_empty());
}

#[test]
fn unresolvable_location_is_kept() {
    let mut e = active_event();
    e.location = Some("JFK".to_string());
    let r = transform_layover(e, &frankfurt_store(), BOUNDARY);
    assert_eq!(r.location.as_deref(), Some("JFK"));
}

#[test]
fn pickup_adds_three_alarms() {
    let r = transform_pickup(active_event(), &frankfurt_store(), BOUNDARY);
    assert_eq!(r.summary.as_deref(), Some("Pickup"));
    assert_eq!(alarm_minutes(&r), vec![-60, -15, -1]);
}

#[test]
fn reserve_labels_by_description() {
    let store = frankfurt_store();
    let rep = transform_reserve(active_event(), "REP".to_string(), &store, BOUNDARY).unwrap();
    assert_eq!(rep.summary.as_deref(), Some("Reserve Pattern"));
    let res = transform_reserve(active_event(), "RES".to_string(), &store, BOUNDARY).unwrap();
    assert_eq!(res.summary.as_deref(), Some("Reserve Standby"));
    let sb = transform_reserve(active_event(), "SB".to_string(), &store, BOUNDARY).unwrap();
    assert_eq!(sb.summary.as_deref(), Some("Standby"));
    assert_eq!(alarm_minutes(&sb), vec![-15]);
}

#[test]
fn reserve_with_unknown_description_is_a_fatal_error() {
    let r = transform_reserve(active_event(), "XYZ".to_string(), &frankfurt_store(), BOUNDARY);
    assert_eq!(r.unwrap_err().description, "XYZ");
}

#[test]
fn alarms_carry_the_new_summary() {
    let r = transform_pickup(active_event(), &frankfurt_store(), BOUNDARY);
    for Alarm { description, .. } in &r.alarms {
        assert_eq!(description, "Pickup");
    }
}
