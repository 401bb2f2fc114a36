use duty_plan::dateperhapstime_to_string::CivilDateTime;
use duty_plan::dateperhapstime_to_string::DatePerhapsTime;
use duty_plan::load_calendar::load_calendar;
use duty_plan::transform_calendar_event::CalendarEvent;
use duty_plan::update_db::DownloadedEvent;
use duty_plan::update_db::EventRow;
use duty_plan::update_db::EventStore;
use duty_plan::update_db::update_events;

// 2025-01-01T00:00:00Z in Unix seconds; the boundary used throughout.
const BOUNDARY: i64 = 1735689600;

fn utc(day: u8, hour: u8) -> DatePerhapsTime {
    DatePerhapsTime::Utc(CivilDateTime { year: 2025, month: 1, day, hour, minute: 0, second: 0 })
}

fn past(day: u8, hour: u8) -> DatePerhapsTime {
    DatePerhapsTime::Utc(CivilDateTime { year: 2024, month: 12, day, hour, minute: 0, second: 0 })
}

fn event(uid: &str, start: DatePerhapsTime, end: DatePerhapsTime) -> DownloadedEvent {
    DownloadedEvent {
        uid: Some(uid.to_string()),
        summary: Some(format!("summary of {uid}")),
        start: Some(start),
        end: Some(end),
        location: Some("FRA".to_string()),
        description: Some("inbound".to_string()),
    }
}

fn loaded_uids(store: &EventStore) -> Vec<String> {
    load_calendar(store).unwrap().into_iter().map(|e| e.uid).collect()
}

fn loaded(store: &EventStore) -> Vec<CalendarEvent> {
    load_calendar(store).unwrap()
}

#[test]
fn bootstrap_inserts_everything_even_archived() {
    let mut store = EventStore::new();
    let downloaded = vec![
        event("archived", past(30, 8), past(30, 10)),
        event("active", utc(2, 8), utc(2, 10)),
    ];
    let n = update_events(&mut store, &downloaded, BOUNDARY);
    assert_eq!(n, 2);
    let mut uids = loaded_uids(&store);
    uids.sort();
    assert_eq!(uids, vec!["active".to_string(), "archived".to_string()]);
}

#[test]
fn nonempty_store_never_reintroduces_archived() {
    let mut store = EventStore::new();
    // Make the store non-empty with one active event.
    update_events(&mut store, &vec![event("active", utc(2, 8), utc(2, 10))], BOUNDARY);
    // A later pass downloads an archived event as well: it must not appear.
    let downloaded = vec![
        event("active", utc(2, 8), utc(2, 10)),
        event("stale", past(30, 8), past(30, 10)),
    ];
    update_events(&mut store, &downloaded, BOUNDARY);
    assert_eq!(loaded_uids(&store), vec!["active".to_string()]);
}

#[test]
fn archived_rows_stay_untouched() {
    let mut store = EventStore::new();
    // Bootstrap writes an archived row.
    update_events(&mut store, &vec![event("old", past(30, 8), past(30, 10))], BOUNDARY);
    // The next pass downloads a changed version of the same UID, still
    // archived: the stored row must keep its original summary.
    let mut changed = event("old", past(30, 8), past(30, 10));
    changed.summary = Some("rewritten".to_string());
    update_events(&mut store, &vec![changed], BOUNDARY);
    let events = loaded(&store);
    assert_eq!(events.len(), 1);
    assert_eq!(events[0].summary.as_deref(), Some("summary of old"));
}

#[test]
fn active_rows_are_replaced() {
    let mut store = EventStore::new();
    update_events(&mut store, &vec![event("a", utc(2, 8), utc(2, 10))], BOUNDARY);
    let mut changed = event("a", utc(2, 8), utc(2, 10));
    changed.summary = Some("rewritten".to_string());
    update_events(&mut store, &vec![changed], BOUNDARY);
    let events = loaded(&store);
    assert_eq!(events.len(), 1);
    assert_eq!(events[0].summary.as_deref(), Some("rewritten"));
}

#[test]
fn sync_twice_changes_nothing_more() {
    let mut store = EventStore::new();
    // Start from a non-empty store holding an archived and an active row.
    update_events(
        &mut store,
        &vec![
            event("keep", past(30, 8), past(30, 10)),
            event("seed", utc(1, 8), utc(1, 10)),
        ],
        BOUNDARY,
    );
    let downloaded = vec![
        event("fresh", utc(2, 8), utc(2, 10)),
        event("keep", past(30, 8), past(30, 10)),
    ];
    update_events(&mut store, &downloaded, BOUNDARY);
    let first = loaded(&store);
    update_events(&mut store, &downloaded, BOUNDARY);
    let second = loaded(&store);
    assert_eq!(first, second);
}

#[test]
fn events_without_uid_start_or_end_are_discarded() {
    let mut store = EventStore::new();
    let mut no_uid = event("x", utc(2, 8), utc(2, 10));
    no_uid.uid = None;
    let mut empty_uid = event("y", utc(2, 8), utc(2, 10));
    empty_uid.uid = Some("".to_string());
    let mut no_start = event("z", utc(2, 8), utc(2, 10));
    no_start.start = None;
    let mut no_end = event("w", utc(2, 8), utc(2, 10));
    no_end.end = None;
    let mut bad_tz = event("v", utc(2, 8), utc(2, 10));
    bad_tz.end = Some(DatePerhapsTime::Zoned {
        date_time: CivilDateTime { year: 2025, month: 1, day: 2, hour: 10, minute: 0, second: 0 },
        tzid: "No/Such".to_string(),
    });
    let n = update_events(
        &mut store,
        &vec![no_uid, empty_uid, no_start, no_end, bad_tz, event("ok", utc(2, 8), utc(2, 10))],
        BOUNDARY,
    );
    assert_eq!(n, 1);
    assert_eq!(loaded_uids(&store), vec!["ok".to_string()]);
}

#[test]
fn store_rebuilds_from_persisted_rows() {
    let row = |uid: &str, summary: &str| EventRow {
        uid: uid.to_string(),
        summary: Some(summary.to_string()),
        start_str: "2025-01-02T08:00:00Z".to_string(),
        end_str: "2025-01-02T10:00:00Z".to_string(),
        location: Some("FRA".to_string()),
        description: Some("".to_string()),
    };
    // On a duplicate UID the later persisted row wins.
    let store = EventStore::from_rows(vec![row("a", "first"), row("b", "other"), row("a", "second")]);
    let events = loaded(&store);
    assert_eq!(events.len(), 2);
    let a = events.iter().find(|e| e.uid == "a").unwrap();
    assert_eq!(a.summary.as_deref(), Some("second"));
}

#[test]
fn rows_affected_counts_deletes_and_inserts() {
    let mut store = EventStore::new();
    update_events(
        &mut store,
        &vec![
            event("archived", past(30, 8), past(30, 10)),
            event("active", utc(2, 8), utc(2, 10)),
        ],
        BOUNDARY,
    );
    // Non-bootstrap pass: one active row deleted, one active event inserted.
    let n = update_events(&mut store, &vec![event("active", utc(2, 8), utc(2, 10))], BOUNDARY);
    assert_eq!(n, 2);
}
