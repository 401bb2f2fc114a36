//! Transformation engine.
//!
//! Rewrites a classified calendar event. Every variant first gets the
//! baseline rewrite: the inbound description is stripped and re-derived from
//! the archive predicate alone — an archived event is marked, anything else
//! is cleared. Each variant then applies its own summary, location and alarm
//! changes, resolving IATA codes against the reference store; resolution
//! failures silently keep the original text.

use vstd::prelude::*;
use crate::error::InvalidReserveDescription;
use crate::is_archived::end_instant;
use crate::strutil::option_string_view;
use crate::strutil::str_eq;
use crate::update_db::ReferenceStore;
use crate::update_db::ReferenceStoreView;
use crate::update_db::iata_lookup;
use crate::update_db::icao_or_iata;
use crate::update_db::row_archived;

verus! {

/// The row a successful IATA lookup yields: the airport joined with its
/// country.
#[derive(Clone, Debug, Eq, PartialEq)]
pub struct IataLookupRow {
    pub airport_name: String,
    pub airport_gps_code: Option<String>,
    pub airport_municipality: String,
    pub country_name: String,
}

/// Mathematical image of `IataLookupRow`.
pub struct IataLookupRowView {
    pub airport_name: Seq<char>,
    pub airport_gps_code: Option<Seq<char>>,
    pub airport_municipality: Seq<char>,
    pub country_name: Seq<char>,
}

impl View for IataLookupRow {
    type V = IataLookupRowView;

    open spec fn view(&self) -> IataLookupRowView {
        IataLookupRowView {
            airport_name: self.airport_name@,
            airport_gps_code: option_string_view(self.airport_gps_code),
            airport_municipality: self.airport_municipality@,
            country_name: self.country_name@,
        }
    }
}

/// A display reminder on a calendar event, offset in minutes relative to the
/// event start (negative is before the start).
#[derive(Clone, Debug, PartialEq, Eq)]
pub struct Alarm {
    pub trigger_minutes: i32,
    pub description: String,
}

/// Mathematical image of `Alarm`.
pub struct AlarmView {
    pub trigger_minutes: i32,
    pub description: Seq<char>,
}

impl View for Alarm {
    type V = AlarmView;

    open spec fn view(&self) -> AlarmView {
        AlarmView { trigger_minutes: self.trigger_minutes, description: self.description@ }
    }
}

/// A calendar event as the transformation engine sees it: the stored fields
/// plus the alarms collected so far. The end instant is mandatory.
#[derive(Clone, Debug, PartialEq, Eq)]
pub struct CalendarEvent {
    pub uid: String,
    pub summary: Option<String>,
    pub start_str: String,
    pub end_str: String,
    pub location: Option<String>,
    pub description: Option<String>,
    pub alarms: Vec<Alarm>,
}

/// Mathematical image of `CalendarEvent`.
pub struct CalendarEventView {
    pub uid: Seq<char>,
    pub summary: Option<Seq<char>>,
    pub start_str: Seq<char>,
    pub end_str: Seq<char>,
    pub location: Option<Seq<char>>,
    pub description: Option<Seq<char>>,
    pub alarms: Seq<AlarmView>,
}

impl View for CalendarEvent {
    type V = CalendarEventView;

    open spec fn view(&self) -> CalendarEventView {
        CalendarEventView {
            uid: self.uid@,
            summary: option_string_view(self.summary),
            start_str: self.start_str@,
            end_str: self.end_str@,
            location: option_string_view(self.location),
            description: option_string_view(self.description),
            alarms: self.alarms@.map_values(|a: Alarm| a@),
        }
    }
}

/// The description the baseline rewrite derives from the archive predicate:
/// a fixed marker on an archived event, cleared otherwise (also where the
/// end text parses to no instant).
pub open spec fn baseline_description(end: Seq<char>, archive_end_ts: i64) -> Option<Seq<char>> {
    if row_archived(end, archive_end_ts) {
        Some("archived event 🔒"@)
    } else {
        Some(Seq::<char>::empty())
    }
}

/// The baseline rewrite shared by every variant: only the description
/// changes, re-derived from the archive predicate.
pub open spec fn baseline(e: CalendarEventView, archive_end_ts: i64) -> CalendarEventView {
    CalendarEventView { description: baseline_description(e.end_str, archive_end_ts), ..e }
}

/// The key the event's location is looked up by: the location text, or the
/// empty string where there is none.
pub open spec fn location_key(e: CalendarEventView) -> Seq<char> {
    match e.location {
        Some(l) => l,
        None => Seq::empty(),
    }
}

/// A location resolved to `ICAO: country, airport` where the lookup finds a
/// unique row carrying an ICAO code; the original location otherwise.
pub open spec fn resolved_icao_location(
    refv: ReferenceStoreView,
    code: Seq<char>,
    orig: Option<Seq<char>>,
) -> Option<Seq<char>> {
    match iata_lookup(refv, code) {
        Some(row) => match row.airport_gps_code {
            Some(g) => Some(g + ": "@ + row.country_name + ", "@ + row.airport_name),
            None => orig,
        },
        None => orig,
    }
}

/// A location resolved to `country, municipality` where the lookup finds a
/// unique row; the original location otherwise.
pub open spec fn resolved_city_location(
    refv: ReferenceStoreView,
    code: Seq<char>,
    orig: Option<Seq<char>>,
) -> Option<Seq<char>> {
    match iata_lookup(refv, code) {
        Some(row) => Some(row.country_name + ", "@ + row.airport_municipality),
        None => orig,
    }
}

fn apply_baseline(calendar_event: &mut CalendarEvent, archive_end_ts: i64)
    ensures
        final(calendar_event)@ == baseline(old(calendar_event)@, archive_end_ts),
{
    let archived = match end_instant(calendar_event.end_str.as_str()) {
        Some(t) => t <= archive_end_ts,
        None => false,
    };
    if archived {
        calendar_event.description = Some("archived event 🔒".to_owned());
    } else {
        calendar_event.description = Some(String::new());
    }
}

fn resolve_icao_location(calendar_event: &mut CalendarEvent, code: String, store: &ReferenceStore)
    ensures
        final(calendar_event)@ == (CalendarEventView {
            location: resolved_icao_location(store@, code@, old(calendar_event)@.location),
            ..old(calendar_event)@
        }),
{
    match store.lookup_iata(code) {
        Some(row) => match row.airport_gps_code {
            Some(g) => {
                let mut loc = g;
                loc.append(": ");
                loc.append(row.country_name.as_str());
                loc.append(", ");
                loc.append(row.airport_name.as_str());
                calendar_event.location = Some(loc);
            },
            None => {},
        },
        None => {},
    }
}

fn resolve_city_location(calendar_event: &mut CalendarEvent, code: String, store: &ReferenceStore)
    ensures
        final(calendar_event)@ == (CalendarEventView {
            location: resolved_city_location(store@, code@, old(calendar_event)@.location),
            ..old(calendar_event)@
        }),
{
    match store.lookup_iata(code) {
        Some(row) => {
            let mut loc = row.country_name;
            loc.append(", ");
            loc.append(row.airport_municipality.as_str());
            calendar_event.location = Some(loc);
        },
        None => {},
    }
}

/// The event's own location text, copied for a lookup.
fn location_key_of(calendar_event: &CalendarEvent) -> (r: String)
    ensures
        r@ == location_key(calendar_event@),
{
    match &calendar_event.location {
        Some(l) => l.clone(),
        None => String::new(),
    }
}

fn push_alarm(calendar_event: &mut CalendarEvent, trigger_minutes: i32)
    ensures
        final(calendar_event)@ == (CalendarEventView {
            alarms: old(calendar_event)@.alarms + seq![
                AlarmView {
                    trigger_minutes,
                    description: match old(calendar_event)@.summary {
                        Some(s) => s,
                        None => Seq::empty(),
                    },
                },
            ],
            ..old(calendar_event)@
        }),
{
    let description = match &calendar_event.summary {
        Some(s) => s.clone(),
        None => String::new(),
    };
    calendar_event.alarms.push(Alarm { trigger_minutes, description });
    proof {
        assert(calendar_event@.alarms =~= old(calendar_event)@.alarms + seq![
            AlarmView {
                trigger_minutes,
                description: match old(calendar_event)@.summary {
                    Some(s) => s,
                    None => Seq::<char>::empty(),
                },
            },
        ]);
    }
}

/// The unknown-event transform: the baseline rewrite and nothing else.
pub open spec fn unknown_spec(e: CalendarEventView, archive_end_ts: i64) -> CalendarEventView {
    baseline(e, archive_end_ts)
}

/// Transforms an unknown event: only the minimum — the description is
/// re-derived from the archive predicate.
pub fn transform_unknown(mut calendar_event: CalendarEvent, archive_end_ts: i64) -> (r:
    CalendarEvent)
    ensures
        r@ == unknown_spec(calendar_event@, archive_end_ts),
{
    apply_baseline(&mut calendar_event, archive_end_ts);
    calendar_event
}

/// The briefing transform: baseline, the fixed summary, the location
/// resolved to `ICAO: country, airport`, and alarms at -90, -60 and -15
/// minutes carrying the new summary.
pub open spec fn briefing_spec(
    e: CalendarEventView,
    refv: ReferenceStoreView,
    archive_end_ts: i64,
) -> CalendarEventView {
    CalendarEventView {
        summary: Some("Briefing"@),
        location: resolved_icao_location(refv, location_key(e), e.location),
        alarms: e.alarms + seq![
            AlarmView { trigger_minutes: -90i32, description: "Briefing"@ },
            AlarmView { trigger_minutes: -60i32, description: "Briefing"@ },
            AlarmView { trigger_minutes: -15i32, description: "Briefing"@ },
        ],
        ..baseline(e, archive_end_ts)
    }
}

/// Transforms a briefing event.
pub fn transform_briefing(
    mut calendar_event: CalendarEvent,
    store: &ReferenceStore,
    archive_end_ts: i64,
) -> (r: CalendarEvent)
    ensures
        r@ == briefing_spec(calendar_event@, store@, archive_end_ts),
{
    let ghost orig = calendar_event@;
    let key = location_key_of(&calendar_event);
    apply_baseline(&mut calendar_event, archive_end_ts);
    calendar_event.summary = Some("Briefing".to_owned());
    resolve_icao_location(&mut calendar_event, key, store);
    push_alarm(&mut calendar_event, -90);
    push_alarm(&mut calendar_event, -60);
    push_alarm(&mut calendar_event, -15);
    proof {
        assert(calendar_event@.alarms =~= briefing_spec(orig, store@, archive_end_ts).alarms);
    }
    calendar_event
}

/// The flight summary text: `{flight}: {departure'} ✈ {destination'}` with
/// both codes resolved to ICAO where possible.
pub open spec fn flight_summary(
    refv: ReferenceStoreView,
    flight_iata: Seq<char>,
    departure_iata: Seq<char>,
    destination_iata: Seq<char>,
) -> Seq<char> {
    flight_iata + ": "@ + icao_or_iata(refv, departure_iata) + " ✈ "@ + icao_or_iata(
        refv,
        destination_iata,
    )
}

fn build_flight_summary(
    store: &ReferenceStore,
    flight_iata: &String,
    departure_iata: &String,
    destination_iata: &String,
) -> (r: String)
    ensures
        r@ == flight_summary(store@, flight_iata@, departure_iata@, destination_iata@),
{
    let dep = store.try_iata_to_icao(departure_iata.clone());
    let dest = store.try_iata_to_icao(destination_iata.clone());
    let s = flight_iata.clone().concat(": ").concat(dep.as_str()).concat(" ✈ ").concat(
        dest.as_str(),
    );
    proof {
        assert(s@ =~= flight_summary(store@, flight_iata@, departure_iata@, destination_iata@));
    }
    s
}

/// The deadhead transform: baseline, the summary
/// `DEADHEAD {flight}: {departure'} ✈ {destination'}`, the location resolved
/// from the departure code, and alarms at +90 (a relative marker) and -35
/// minutes.
pub open spec fn deadhead_spec(
    e: CalendarEventView,
    flight_iata: Seq<char>,
    departure_iata: Seq<char>,
    destination_iata: Seq<char>,
    refv: ReferenceStoreView,
    archive_end_ts: i64,
) -> CalendarEventView {
    let summary = "DEADHEAD "@ + flight_summary(refv, flight_iata, departure_iata, destination_iata);
    CalendarEventView {
        summary: Some(summary),
        location: resolved_icao_location(refv, departure_iata, e.location),
        alarms: e.alarms + seq![
            AlarmView { trigger_minutes: 90i32, description: summary },
            AlarmView { trigger_minutes: -35i32, description: summary },
        ],
        ..baseline(e, archive_end_ts)
    }
}

/// Transforms a deadhead event.
pub fn transform_deadhead(
    mut calendar_event: CalendarEvent,
    flight_iata: String,
    departure_iata: String,
    destination_iata: String,
    store: &ReferenceStore,
    archive_end_ts: i64,
) -> (r: CalendarEvent)
    ensures
        r@ == deadhead_spec(
            calendar_event@,
            flight_iata@,
            departure_iata@,
            destination_iata@,
            store@,
            archive_end_ts,
        ),
{
    let ghost orig = calendar_event@;
    apply_baseline(&mut calendar_event, archive_end_ts);
    let tail = build_flight_summary(store, &flight_iata, &departure_iata, &destination_iata);
    let summary = "DEADHEAD ".to_owned().concat(tail.as_str());
    proof {
        assert(summary@ =~= "DEADHEAD "@ + flight_summary(
            store@,
            flight_iata@,
            departure_iata@,
            destination_iata@,
        ));
    }
    calendar_event.summary = Some(summary);
    resolve_icao_location(&mut calendar_event, departure_iata, store);
    push_alarm(&mut calendar_event, 90);
    push_alarm(&mut calendar_event, -35);
    proof {
        assert(calendar_event@.alarms =~= deadhead_spec(
            orig,
            flight_iata@,
            departure_iata@,
            destination_iata@,
            store@,
            archive_end_ts,
        ).alarms);
    }
    calendar_event
}

/// The flight transform: baseline, the summary
/// `{flight}: {departure'} ✈ {destination'}`, the location resolved from the
/// departure code, and one alarm at -30 minutes.
pub open spec fn flight_spec(
    e: CalendarEventView,
    flight_iata: Seq<char>,
    departure_iata: Seq<char>,
    destination_iata: Seq<char>,
    refv: ReferenceStoreView,
    archive_end_ts: i64,
) -> CalendarEventView {
    let summary = flight_summary(refv, flight_iata, departure_iata, destination_iata);
    CalendarEventView {
        summary: Some(summary),
        location: resolved_icao_location(refv, departure_iata, e.location),
        alarms: e.alarms + seq![AlarmView { trigger_minutes: -30i32, description: summary }],
        ..baseline(e, archive_end_ts)
    }
}

/// Transforms a flight event.
pub fn transform_flight(
    mut calendar_event: CalendarEvent,
    flight_iata: String,
    departure_iata: String,
    destination_iata: String,
    store: &ReferenceStore,
    archive_end_ts: i64,
) -> (r: CalendarEvent)
    ensures
        r@ == flight_spec(
            calendar_event@,
            flight_iata@,
            departure_iata@,
            destination_iata@,
            store@,
            archive_end_ts,
        ),
{
    let ghost orig = calendar_event@;
    apply_baseline(&mut calendar_event, archive_end_ts);
    let summary = build_flight_summary(store, &flight_iata, &departure_iata, &destination_iata);
    calendar_event.summary = Some(summary);
    resolve_icao_location(&mut calendar_event, departure_iata, store);
    push_alarm(&mut calendar_event, -30);
    proof {
        assert(calendar_event@.alarms =~= flight_spec(
            orig,
            flight_iata@,
            departure_iata@,
            destination_iata@,
            store@,
            archive_end_ts,
        ).alarms);
    }
    calendar_event
}

/// The ground summary text: `{category}: {description}`, or the bare
/// description where the renamed category is empty.
pub open spec fn ground_summary(category: Seq<char>, description: Seq<char>) -> Seq<char> {
    if category.len() == 0 {
        description
    } else {
        category + ": "@ + description
    }
}

/// The ground transform: baseline, the category-description summary, the
/// location resolved to `country, municipality`, and alarms at -60 and -15
/// minutes.
pub open spec fn ground_spec(
    e: CalendarEventView,
    category: Seq<char>,
    description: Seq<char>,
    refv: ReferenceStoreView,
    archive_end_ts: i64,
) -> CalendarEventView {
    let summary = ground_summary(category, description);
    CalendarEventView {
        summary: Some(summary),
        location: resolved_city_location(refv, location_key(e), e.location),
        alarms: e.alarms + seq![
            AlarmView { trigger_minutes: -60i32, description: summary },
            AlarmView { trigger_minutes: -15i32, description: summary },
        ],
        ..baseline(e, archive_end_ts)
    }
}

/// Transforms a ground event.
pub fn transform_ground(
    mut calendar_event: CalendarEvent,
    category: String,
    description: String,
    store: &ReferenceStore,
    archive_end_ts: i64,
) -> (r: CalendarEvent)
    ensures
        r@ == ground_spec(calendar_event@, category@, description@, store@, archive_end_ts),
{
    let ghost orig = calendar_event@;
    let key = location_key_of(&calendar_event);
    apply_baseline(&mut calendar_event, archive_end_ts);
    let summary = if category.as_str().is_empty() {
        description
    } else {
        category.concat(": ").concat(description.as_str())
    };
    proof {
        assert(summary@ =~= ground_summary(category@, description@));
    }
    calendar_event.summary = Some(summary);
    resolve_city_location(&mut calendar_event, key, store);
    push_alarm(&mut calendar_event, -60);
    push_alarm(&mut calendar_event, -15);
    proof {
        assert(calendar_event@.alarms =~= ground_spec(
            orig,
            category@,
            description@,
            store@,
            archive_end_ts,
        ).alarms);
    }
    calendar_event
}

/// A transform that only sets a fixed summary and clears the location:
/// holiday, off day and sickness need no place and no alarms.
pub open spec fn fixed_label_spec(
    e: CalendarEventView,
    label: Seq<char>,
    archive_end_ts: i64,
) -> CalendarEventView {
    CalendarEventView {
        summary: Some(label),
        location: Some(Seq::empty()),
        ..baseline(e, archive_end_ts)
    }
}

/// Transforms a holiday event: fixed summary, location cleared.
pub fn transform_holiday(mut calendar_event: CalendarEvent, archive_end_ts: i64) -> (r:
    CalendarEvent)
    ensures
        r@ == fixed_label_spec(calendar_event@, "Holiday"@, archive_end_ts),
{
    apply_baseline(&mut calendar_event, archive_end_ts);
    calendar_event.location = Some(String::new());
    calendar_event.summary = Some("Holiday".to_owned());
    calendar_event
}

/// Transforms an off day: fixed summary, location cleared.
pub fn transform_off(mut calendar_event: CalendarEvent, archive_end_ts: i64) -> (r: CalendarEvent)
    ensures
        r@ == fixed_label_spec(calendar_event@, "Off"@, archive_end_ts),
{
    apply_baseline(&mut calendar_event, archive_end_ts);
    calendar_event.location = Some(String::new());
    calendar_event.summary = Some("Off".to_owned());
    calendar_event
}

/// Transforms a sick day: fixed summary, location cleared.
pub fn transform_sickness(mut calendar_event: CalendarEvent, archive_end_ts: i64) -> (r:
    CalendarEvent)
    ensures
        r@ == fixed_label_spec(calendar_event@, "Sickness"@, archive_end_ts),
{
    apply_baseline(&mut calendar_event, archive_end_ts);
    calendar_event.location = Some(String::new());
    calendar_event.summary = Some("Sickness".to_owned());
    calendar_event
}

/// The layover transform: baseline, fixed summary, the location resolved to
/// `country, municipality`, no alarms.
pub open spec fn layover_spec(
    e: CalendarEventView,
    refv: ReferenceStoreView,
    archive_end_ts: i64,
) -> CalendarEventView {
    CalendarEventView {
        summary: Some("Layover"@),
        location: resolved_city_location(refv, location_key(e), e.location),
        ..baseline(e, archive_end_ts)
    }
}

/// Transforms a layover event.
pub fn transform_layover(
    mut calendar_event: CalendarEvent,
    store: &ReferenceStore,
    archive_end_ts: i64,
) -> (r: CalendarEvent)
    ensures
        r@ == layover_spec(calendar_event@, store@, archive_end_ts),
{
    let key = location_key_of(&calendar_event);
    apply_baseline(&mut calendar_event, archive_end_ts);
    calendar_event.summary = Some("Layover".to_owned());
    resolve_city_location(&mut calendar_event, key, store);
    calendar_event
}

/// The pickup transform: baseline, fixed summary, the location resolved to
/// `country, municipality`, and alarms at -60, -15 and -1 minutes.
pub open spec fn pickup_spec(
    e: CalendarEventView,
    refv: ReferenceStoreView,
    archive_end_ts: i64,
) -> CalendarEventView {
    CalendarEventView {
        summary: Some("Pickup"@),
        location: resolved_city_location(refv, location_key(e), e.location),
        alarms: e.alarms + seq![
            AlarmView { trigger_minutes: -60i32, description: "Pickup"@ },
            AlarmView { trigger_minutes: -15i32, description: "Pickup"@ },
            AlarmView { trigger_minutes: -1i32, description: "Pickup"@ },
        ],
        ..baseline(e, archive_end_ts)
    }
}

/// Transforms a pickup event.
pub fn transform_pickup(
    mut calendar_event: CalendarEvent,
    store: &ReferenceStore,
    archive_end_ts: i64,
) -> (r: CalendarEvent)
    ensures
        r@ == pickup_spec(calendar_event@, store@, archive_end_ts),
{
    let ghost orig = calendar_event@;
    let key = location_key_of(&calendar_event);
    apply_baseline(&mut calendar_event, archive_end_ts);
    calendar_event.summary = Some("Pickup".to_owned());
    resolve_city_location(&mut calendar_event, key, store);
    push_alarm(&mut calendar_event, -60);
    push_alarm(&mut calendar_event, -15);
    push_alarm(&mut calendar_event, -1);
    proof {
        assert(calendar_event@.alarms =~= pickup_spec(orig, store@, archive_end_ts).alarms);
    }
    calendar_event
}

/// The fixed label a reserve description selects, or `None` for a value
/// outside the closed set — an invariant violation, not a routine error.
pub open spec fn reserve_label(description: Seq<char>) -> Option<Seq<char>> {
    if description == "REP"@ {
        Some("Reserve Pattern"@)
    } else if description == "RES"@ {
        Some("Reserve Standby"@)
    } else if description == "SB"@ {
        Some("Standby"@)
    } else {
        None
    }
}

/// The reserve transform: baseline, the label selected by the description,
/// the location resolved to `country, municipality`, and one alarm at -15
/// minutes.
pub open spec fn reserve_spec(
    e: CalendarEventView,
    label: Seq<char>,
    refv: ReferenceStoreView,
    archive_end_ts: i64,
) -> CalendarEventView {
    CalendarEventView {
        summary: Some(label),
        location: resolved_city_location(refv, location_key(e), e.location),
        alarms: e.alarms + seq![AlarmView { trigger_minutes: -15i32, description: label }],
        ..baseline(e, archive_end_ts)
    }
}

/// Transforms a reserve event. A description outside the three known values
/// is an invariant violation that upstream classification is supposed to
/// make impossible; it aborts the pass with a typed fatal error.
pub fn transform_reserve(
    mut calendar_event: CalendarEvent,
    description: String,
    store: &ReferenceStore,
    archive_end_ts: i64,
) -> (r: Result<CalendarEvent, InvalidReserveDescription>)
    ensures
        r is Ok <==> reserve_label(description@) is Some,
        r matches Ok(ev) ==> Some(ev@) == (match reserve_label(description@) {
            Some(label) => Some(reserve_spec(calendar_event@, label, store@, archive_end_ts)),
            None => None,
        }),
        r matches Err(e) ==> e.description@ == description@,
{
    let ghost orig = calendar_event@;
    let key = location_key_of(&calendar_event);
    apply_baseline(&mut calendar_event, archive_end_ts);
    let label: String = if str_eq(description.as_str(), "REP") {
        "Reserve Pattern".to_owned()
    } else if str_eq(description.as_str(), "RES") {
        "Reserve Standby".to_owned()
    } else if str_eq(description.as_str(), "SB") {
        "Standby".to_owned()
    } else {
        return Err(InvalidReserveDescription { description });
    };
    calendar_event.summary = Some(label);
    resolve_city_location(&mut calendar_event, key, store);
    push_alarm(&mut calendar_event, -15);
    proof {
        assert(calendar_event@.alarms =~= reserve_spec(
            orig,
            reserve_label(description@)->Some_0,
            store@,
            archive_end_ts,
        ).alarms);
    }
    Ok(calendar_event)
}

} // verus!
