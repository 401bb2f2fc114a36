//! One calendar pass over plain values: synchronize the event store with
//! the downloaded roster, read the stored events back in chronological
//! order, classify and rewrite each one — plus the emitter's alarm-trigger
//! normalization applied to the serialized calendar text.

use vstd::prelude::*;
use crate::duty_plan_event::DutyPlanEvent;
use crate::duty_plan_event::DutyPlanEventView;
use crate::duty_plan_event::classify;
use crate::duty_plan_event::digit_run_from;
use crate::duty_plan_event::lemma_digit_run_digits;
use crate::duty_plan_event::lemma_digit_run_value;
use crate::error::InvalidReserveDescription;
use crate::error::LoadCalendarError;
use crate::load_calendar::event_of_row;
use crate::load_calendar::event_views;
use crate::load_calendar::load_calendar;
use crate::load_calendar::row_complete;
use crate::load_calendar::row_events;
use crate::load_calendar::sorted_by_start;
use crate::strutil::dec_str;
use crate::strutil::dec_value;
use crate::strutil::is_digit_char;
use crate::strutil::parse_digits;
use crate::strutil::push_char;
use crate::strutil::render_dec;
use crate::transform_calendar_event::CalendarEvent;
use crate::transform_calendar_event::CalendarEventView;
use crate::transform_calendar_event::briefing_spec;
use crate::transform_calendar_event::deadhead_spec;
use crate::transform_calendar_event::fixed_label_spec;
use crate::transform_calendar_event::flight_spec;
use crate::transform_calendar_event::ground_spec;
use crate::transform_calendar_event::layover_spec;
use crate::transform_calendar_event::pickup_spec;
use crate::transform_calendar_event::reserve_label;
use crate::transform_calendar_event::reserve_spec;
use crate::transform_calendar_event::transform_briefing;
use crate::transform_calendar_event::transform_deadhead;
use crate::transform_calendar_event::transform_flight;
use crate::transform_calendar_event::transform_ground;
use crate::transform_calendar_event::transform_holiday;
use crate::transform_calendar_event::transform_layover;
use crate::transform_calendar_event::transform_off;
use crate::transform_calendar_event::transform_pickup;
use crate::transform_calendar_event::transform_reserve;
use crate::transform_calendar_event::transform_sickness;
use crate::transform_calendar_event::transform_unknown;
use crate::transform_calendar_event::unknown_spec;
use crate::update_db::DownloadedEvent;
use crate::update_db::EventRowView;
use crate::update_db::EventStore;
use crate::update_db::ReferenceStore;
use crate::update_db::ReferenceStoreView;
use crate::update_db::downloaded_views;
use crate::update_db::rows_map;
use crate::update_db::sync_spec;
use crate::update_db::update_events;

verus! {

broadcast use vstd::seq_lib::group_to_multiset_ensures;

/// Failure of one calendar pass.
#[derive(Debug, Clone, PartialEq, Eq)]
pub enum UpdateCalendarError {
    /// Reading the stored events back failed.
    LoadCalendar(LoadCalendarError),
    /// A reserve event carried a description outside the closed set: an
    /// invariant violation fatal to the pass.
    InvalidReserve(InvalidReserveDescription),
}

/// The summary a stored event is classified by: its summary text, or the
/// empty string where there is none.
pub open spec fn summary_key(e: CalendarEventView) -> Seq<char> {
    match e.summary {
        Some(s) => s,
        None => Seq::empty(),
    }
}

/// The rewrite of one stored event, by the classification of its summary;
/// `None` for the one invariant violation, a reserve description outside
/// the closed set.
pub open spec fn transformed_event(
    e: CalendarEventView,
    refv: ReferenceStoreView,
    archive_end_ts: i64,
) -> Option<CalendarEventView> {
    match classify(summary_key(e)) {
        DutyPlanEventView::Briefing => Some(briefing_spec(e, refv, archive_end_ts)),
        DutyPlanEventView::Deadhead { flight_iata, departure_iata, destination_iata } => Some(
            deadhead_spec(e, flight_iata, departure_iata, destination_iata, refv, archive_end_ts),
        ),
        DutyPlanEventView::Flight { flight_iata, departure_iata, destination_iata } => Some(
            flight_spec(e, flight_iata, departure_iata, destination_iata, refv, archive_end_ts),
        ),
        DutyPlanEventView::Ground { category, description } => Some(
            ground_spec(e, category, description, refv, archive_end_ts),
        ),
        DutyPlanEventView::Holiday => Some(fixed_label_spec(e, "Holiday"@, archive_end_ts)),
        DutyPlanEventView::Layover => Some(layover_spec(e, refv, archive_end_ts)),
        DutyPlanEventView::Off => Some(fixed_label_spec(e, "Off"@, archive_end_ts)),
        DutyPlanEventView::Pickup => Some(pickup_spec(e, refv, archive_end_ts)),
        DutyPlanEventView::Reserve { description } => match reserve_label(description) {
            Some(label) => Some(reserve_spec(e, label, refv, archive_end_ts)),
            None => None,
        },
        DutyPlanEventView::Sickness => Some(fixed_label_spec(e, "Sickness"@, archive_end_ts)),
        DutyPlanEventView::Unknown => Some(unknown_spec(e, archive_end_ts)),
    }
}

/// Classifies one stored event by its summary and applies the matching
/// rewrite; a reserve description outside the closed set is the one failure.
pub fn transform_calendar_event(
    calendar_event: CalendarEvent,
    store: &ReferenceStore,
    archive_end_ts: i64,
) -> (r: Result<CalendarEvent, InvalidReserveDescription>)
    ensures
        r is Ok <==> transformed_event(calendar_event@, store@, archive_end_ts) is Some,
        r matches Ok(ev) ==> Some(ev@) == transformed_event(calendar_event@, store@, archive_end_ts),
{
    let summary = match &calendar_event.summary {
        Some(s) => s.clone(),
        None => String::new(),
    };
    match DutyPlanEvent::determine_event(summary) {
        DutyPlanEvent::Briefing => Ok(transform_briefing(calendar_event, store, archive_end_ts)),
        DutyPlanEvent::Deadhead { flight_iata, departure_iata, destination_iata } => Ok(
            transform_deadhead(
                calendar_event,
                flight_iata,
                departure_iata,
                destination_iata,
                store,
                archive_end_ts,
            ),
        ),
        DutyPlanEvent::Flight { flight_iata, departure_iata, destination_iata } => Ok(
            transform_flight(
                calendar_event,
                flight_iata,
                departure_iata,
                destination_iata,
                store,
                archive_end_ts,
            ),
        ),
        DutyPlanEvent::Ground { category, description } => Ok(
            transform_ground(calendar_event, category, description, store, archive_end_ts),
        ),
        DutyPlanEvent::Holiday => Ok(transform_holiday(calendar_event, archive_end_ts)),
        DutyPlanEvent::Layover => Ok(transform_layover(calendar_event, store, archive_end_ts)),
        DutyPlanEvent::Off => Ok(transform_off(calendar_event, archive_end_ts)),
        DutyPlanEvent::Pickup => Ok(transform_pickup(calendar_event, store, archive_end_ts)),
        DutyPlanEvent::Reserve { description } => transform_reserve(
            calendar_event,
            description,
            store,
            archive_end_ts,
        ),
        DutyPlanEvent::Sickness => Ok(transform_sickness(calendar_event, archive_end_ts)),
        DutyPlanEvent::Unknown => Ok(transform_unknown(calendar_event, archive_end_ts)),
    }
}

/// The result of a successful pass: the rewrites, position by position, of
/// some start-sorted arrangement of the stored rows' events.
pub open spec fn valid_pass_result(
    events: Seq<CalendarEventView>,
    rows: Seq<EventRowView>,
    refv: ReferenceStoreView,
    archive_end_ts: i64,
) -> bool {
    exists|loaded: Seq<CalendarEventView>|
        #[trigger] transformed_all(loaded, events, refv, archive_end_ts) && sorted_by_start(loaded)
            && loaded.to_multiset() == row_events(rows).to_multiset()
}

/// The events are, position by position, the rewrites of the loaded events.
pub open spec fn transformed_all(
    loaded: Seq<CalendarEventView>,
    events: Seq<CalendarEventView>,
    refv: ReferenceStoreView,
    archive_end_ts: i64,
) -> bool {
    &&& events.len() == loaded.len()
    &&& forall|i: int|
        0 <= i < loaded.len() ==> transformed_event(#[trigger] loaded[i], refv, archive_end_ts)
            == Some(events[i])
}

/// One calendar pass: synchronizes the event store with the downloaded
/// roster against the frozen boundary, loads the stored events back in
/// chronological order, and rewrites each by its classification.
///
/// The pass succeeds exactly when every stored row after the
/// synchronization can be read back in full and every stored event can be
/// rewritten; classification itself never fails. On success the result is
/// the rewrite, in order, of a start-sorted arrangement of the stored
/// events.
#[verifier::rlimit(50)]
pub fn update_calendar(
    event_store: &mut EventStore,
    store: &ReferenceStore,
    downloaded: &Vec<DownloadedEvent>,
    archive_end_ts: i64,
) -> (r: Result<Vec<CalendarEvent>, UpdateCalendarError>)
    requires
        old(event_store).wf(),
        forall|i: int| 0 <= i < downloaded@.len() ==> (#[trigger] downloaded@[i])@.wf(),
        old(event_store)@.len() + downloaded@.len() <= usize::MAX,
    ensures
        final(event_store).wf(),
        rows_map(final(event_store)@) == sync_spec(
            rows_map(old(event_store)@),
            downloaded_views(downloaded@),
            archive_end_ts,
        ),
        r is Ok <==> ((forall|i: int|
            0 <= i < final(event_store)@.len() ==> row_complete(#[trigger] final(event_store)@[i]))
            && (forall|i: int|
            0 <= i < final(event_store)@.len() ==> transformed_event(
                event_of_row(#[trigger] final(event_store)@[i]),
                store@,
                archive_end_ts,
            ) is Some)),
        r matches Ok(events) ==> valid_pass_result(
            event_views(events@),
            final(event_store)@,
            store@,
            archive_end_ts,
        ),
        r matches Err(UpdateCalendarError::LoadCalendar(lce)) ==> exists|i: int|
            0 <= i < final(event_store)@.len() && !row_complete(#[trigger] final(event_store)@[i]),
        r matches Err(UpdateCalendarError::InvalidReserve(e)) ==> (forall|i: int|
            0 <= i < final(event_store)@.len() ==> row_complete(#[trigger] final(event_store)@[i]))
            && exists|i: int|
            0 <= i < final(event_store)@.len() && transformed_event(
                event_of_row(#[trigger] final(event_store)@[i]),
                store@,
                archive_end_ts,
            ) is None,
{
    update_events(event_store, downloaded, archive_end_ts);
    let loaded = match load_calendar(event_store) {
        Ok(events) => events,
        Err(e) => {
            return Err(UpdateCalendarError::LoadCalendar(e));
        },
    };
    let ghost loaded_views = event_views(loaded@);
    let ghost rows_events = row_events(event_store@);
    let mut remaining = loaded;
    let mut out: Vec<CalendarEvent> = Vec::new();
    proof {
        assert(event_views(remaining@).skip(0) =~= loaded_views);
    }
    let ghost mut done: int = 0;
    while remaining.len() > 0
        invariant
            0 <= done <= loaded_views.len(),
            event_views(remaining@) == loaded_views.skip(done),
            out@.len() == done,
            forall|i: int|
                0 <= i < done ==> transformed_event(
                    #[trigger] loaded_views[i],
                    store@,
                    archive_end_ts,
                ) == Some(event_views(out@)[i]),
            event_store.wf(),
            rows_map(event_store@) == sync_spec(
                rows_map(old(event_store)@),
                downloaded_views(downloaded@),
                archive_end_ts,
            ),
            rows_events == row_events(event_store@),
            loaded_views.to_multiset() == rows_events.to_multiset(),
            sorted_by_start(loaded_views),
            forall|i: int| 0 <= i < event_store@.len() ==> row_complete(#[trigger] event_store@[i]),
        decreases remaining.len(),
    {
        let ghost before = event_views(remaining@);
        let ev = remaining.remove(0);
        proof {
            assert(event_views(remaining@) =~= before.skip(1));
            assert(before.skip(1) =~= loaded_views.skip(done + 1));
            assert(before[0] == ev@);
            assert(loaded_views.skip(done)[0] == loaded_views[done]);
            assert(ev@ == loaded_views[done]);
        }
        match transform_calendar_event(ev, store, archive_end_ts) {
            Ok(t) => {
                out.push(t);
            },
            Err(e) => {
                proof {
                    // The failing event is one of the stored rows: its image
                    // occurs in the loaded multiset, hence in the store.
                    assert(loaded_views.to_multiset() == rows_events.to_multiset());
                    assert(loaded_views.contains(loaded_views[done]));
                    assert(loaded_views.to_multiset().count(loaded_views[done]) > 0);
                    assert(rows_events.to_multiset().count(loaded_views[done]) > 0);
                    assert(rows_events.contains(loaded_views[done]));
                    assert(rows_events.len() == event_store@.len());
                    let j = choose|j: int|
                        0 <= j < rows_events.len() && rows_events[j] == loaded_views[done];
                    assert(transformed_event(
                        event_of_row(event_store@[j]),
                        store@,
                        archive_end_ts,
                    ) is None);
                }
                return Err(UpdateCalendarError::InvalidReserve(e));
            },
        }
        proof {
            done = done + 1;
        }
    }
    proof {
        assert(event_views(remaining@).len() == 0);
        assert(done == loaded_views.len());
        assert(transformed_all(loaded_views, event_views(out@), store@, archive_end_ts));
        // Every stored row can be rewritten: its event occurs among the
        // loaded events, all of which were rewritten.
        assert forall|i: int|
            0 <= i < event_store@.len() implies transformed_event(
            event_of_row(#[trigger] event_store@[i]),
            store@,
            archive_end_ts,
        ) is Some by {
            assert(rows_events[i] == event_of_row(event_store@[i]));
            assert(rows_events.contains(rows_events[i]));
            assert(rows_events.to_multiset().count(rows_events[i]) > 0);
            assert(loaded_views.to_multiset().count(rows_events[i]) > 0);
            assert(loaded_views.contains(rows_events[i]));
            let j = choose|j: int|
                0 <= j < loaded_views.len() && loaded_views[j] == rows_events[i];
            assert(transformed_event(loaded_views[j], store@, archive_end_ts) == Some(
                event_views(out@)[j],
            ));
        }
        assert(transformed_all(loaded_views, event_views(out@), store@, archive_end_ts)
            && sorted_by_start(loaded_views) && loaded_views.to_multiset() == row_events(
            event_store@,
        ).to_multiset());
        assert(valid_pass_result(event_views(out@), event_store@, store@, archive_end_ts)) by {
            assert(transformed_all(loaded_views, event_views(out@), store@, archive_end_ts)
                && sorted_by_start(loaded_views) && loaded_views.to_multiset() == row_events(
                event_store@,
            ).to_multiset());
        }
    }
    Ok(out)
}

// ---------------------------------------------------------------------------
// Calendar emitter: alarm trigger normalization
// ---------------------------------------------------------------------------

/// The length of an alarm-trigger match `PT<digits>S` at the front of the
/// text, or zero where the front is no such match. The digit run is maximal.
pub open spec fn trigger_match_len(s: Seq<char>) -> int {
    let k = digit_run_from(s, 2);
    if s.len() >= 4 && s[0] == 'P' && s[1] == 'T' && k >= 1 && 2 + k < s.len() && s[2 + k] == 'S' {
        3 + k
    } else {
        0
    }
}

/// What a matched trigger becomes: whole hours where the seconds are an
/// exact multiple of 3600, else whole minutes where an exact multiple of 60,
/// else the match unchanged. A digit run too long for its value to be read
/// is left unchanged as well.
pub open spec fn trigger_replacement(digits: Seq<char>) -> Seq<char> {
    if digits.len() > 18 {
        seq!['P', 'T'] + digits + seq!['S']
    } else {
        let n = dec_value(digits);
        if n % 3600 == 0 {
            seq!['P', 'T'] + dec_str(n / 3600) + seq!['H']
        } else if n % 60 == 0 {
            seq!['P', 'T'] + dec_str(n / 60) + seq!['M']
        } else {
            seq!['P', 'T'] + digits + seq!['S']
        }
    }
}

/// The calendar text with every second-granularity alarm trigger rewritten,
/// scanning left to right over non-overlapping matches.
pub open spec fn normalize_triggers(s: Seq<char>) -> Seq<char>
    decreases s.len(),
{
    if s.len() == 0 {
        s
    } else if trigger_match_len(s) > 0 {
        trigger_replacement(s.subrange(2, trigger_match_len(s) - 1)) + normalize_triggers(
            s.skip(trigger_match_len(s)),
        )
    } else {
        seq![s[0]] + normalize_triggers(s.skip(1))
    }
}

/// Finds the trigger match at position `i`, returning its length or zero.
fn trigger_match_at(s: &str, i: usize, n: usize) -> (ml: usize)
    requires
        i < n,
        n == s@.len(),
    ensures
        ml == trigger_match_len(s@.skip(i as int)),
        i + ml <= n,
{
    let ghost t = s@.skip(i as int);
    if !(n - i >= 4 && s.get_char(i) == 'P' && s.get_char(i + 1) == 'T') {
        proof {
            if t.len() >= 4 {
                assert(t[0] == s@[i as int]);
                assert(t[1] == s@[i as int + 1]);
            }
        }
        return 0;
    }
    let mut k: usize = 0;
    while i + 2 + k < n && crate::strutil::check_digit_char(s.get_char(i + 2 + k))
        invariant
            i + 2 + k <= n,
            n == s@.len(),
            forall|j: int| i + 2 <= j < i + 2 + k ==> is_digit_char(#[trigger] s@[j]),
        decreases n - k,
    {
        k += 1;
    }
    proof {
        assert forall|j: int| 2 <= j < 2 + k implies is_digit_char(t[j]) by {
            assert(t[j] == s@[i + j]);
        }
        if 2 + k < t.len() {
            assert(t[2 + k] == s@[i + 2 + k]);
        }
        lemma_digit_run_value(t, 2, k as int);
        assert(t[0] == s@[i as int] && t[1] == s@[i as int + 1]);
    }
    if k >= 1 && i + 2 + k < n && s.get_char(i + 2 + k) == 'S' {
        3 + k
    } else {
        0
    }
}

/// Rewrites every alarm trigger expressed in whole seconds in the
/// serialized calendar text: an exact multiple of 3600 seconds becomes
/// hours, an exact multiple of 60 becomes minutes, anything else stays in
/// seconds, as some downstream calendar clients mis-render
/// second-granularity triggers.
#[verifier::rlimit(50)]
pub fn normalize_alarm_triggers(s: &str) -> (r: String)
    ensures
        r@ == normalize_triggers(s@),
{
    let n = s.unicode_len();
    let mut out = String::new();
    let mut i: usize = 0;
    proof {
        assert(s@.skip(0) =~= s@);
        assert(out@ + normalize_triggers(s@) =~= normalize_triggers(s@));
    }
    while i < n
        invariant
            i <= n,
            n == s@.len(),
            out@ + normalize_triggers(s@.skip(i as int)) == normalize_triggers(s@),
        decreases n - i,
    {
        let ghost t = s@.skip(i as int);
        let ml = trigger_match_at(s, i, n);
        if ml > 0 {
            let k = ml - 3;
            let ghost digits = t.subrange(2, 2 + k);
            proof {
                assert(digit_run_from(t, 2) == k);
                lemma_digit_run_digits(t, 2);
                assert forall|j: int| i + 2 <= j < i + 2 + k implies is_digit_char(
                    #[trigger] s@[j],
                ) by {
                    assert(s@[j] == t[j - i]);
                }
                assert(s@.subrange(i + 2, i + 2 + k) =~= digits);
                assert(t.subrange(2, ml as int - 1) =~= digits);
            }
            if k <= 18 {
                let v = parse_digits(s, i + 2, k);
                if v % 3600 == 0 {
                    out.append("PT");
                    let q = render_dec(v / 3600);
                    out.append(q.as_str());
                    push_char(&mut out, 'H');
                    proof {
                        reveal_strlit("PT");
                        assert("PT"@ =~= seq!['P', 'T']);
                        assert(trigger_replacement(digits) == seq!['P', 'T'] + dec_str(
                            dec_value(digits) / 3600,
                        ) + seq!['H']);
                    }
                } else if v % 60 == 0 {
                    out.append("PT");
                    let q = render_dec(v / 60);
                    out.append(q.as_str());
                    push_char(&mut out, 'M');
                    proof {
                        reveal_strlit("PT");
                        assert("PT"@ =~= seq!['P', 'T']);
                    }
                } else {
                    let m = s.substring_char(i, i + ml);
                    out.append(m);
                    proof {
                        assert(m@ =~= seq!['P', 'T'] + digits + seq!['S']) by {
                            assert(m@ =~= t.subrange(0, ml as int));
                            assert(t[0] == 'P' && t[1] == 'T' && t[2 + k] == 'S');
                            assert(t.subrange(0, ml as int) =~= seq!['P', 'T'] + digits
                                + seq!['S']);
                        }
                    }
                }
            } else {
                let m = s.substring_char(i, i + ml);
                out.append(m);
                proof {
                    assert(m@ =~= seq!['P', 'T'] + digits + seq!['S']) by {
                        assert(m@ =~= t.subrange(0, ml as int));
                        assert(t[0] == 'P' && t[1] == 'T' && t[2 + k] == 'S');
                        assert(t.subrange(0, ml as int) =~= seq!['P', 'T'] + digits + seq!['S']);
                    }
                }
            }
            proof {
                assert(t.skip(ml as int) =~= s@.skip(i as int + ml as int));
                assert(normalize_triggers(t) == trigger_replacement(digits) + normalize_triggers(
                    t.skip(ml as int),
                ));
                assert(out@ + normalize_triggers(s@.skip(i as int + ml as int))
                    =~= normalize_triggers(s@));
            }
            i += ml;
        } else {
            let c = s.get_char(i);
            push_char(&mut out, c);
            proof {
                assert(t[0] == c);
                assert(t.skip(1) =~= s@.skip(i as int + 1));
                assert(normalize_triggers(t) == seq![c] + normalize_triggers(t.skip(1)));
                assert(out@ + normalize_triggers(s@.skip(i as int + 1)) =~= normalize_triggers(
                    s@,
                ));
            }
            i += 1;
        }
    }
    proof {
        assert(s@.skip(n as int).len() == 0);
        assert(normalize_triggers(s@.skip(n as int)) =~= Seq::<char>::empty());
        assert(out@ =~= normalize_triggers(s@));
    }
    out
}

} // verus!
