//! Loading the whole calendar back from the event store, in chronological
//! order of the start instants' text form.

use vstd::prelude::*;
use vstd::multiset::Multiset;
use crate::error::LoadCalendarError;
use crate::strutil::lex_le;
use crate::strutil::lemma_lex_le_total;
use crate::strutil::lemma_lex_le_trans;
use crate::strutil::str_lex_le;
use crate::transform_calendar_event::CalendarEvent;
use crate::transform_calendar_event::CalendarEventView;
use crate::update_db::EventRowView;
use crate::update_db::EventStore;

verus! {

broadcast use vstd::seq_lib::group_to_multiset_ensures;

/// A stored row that can be read back in full: the optional columns are all
/// present.
pub open spec fn row_complete(r: EventRowView) -> bool {
    &&& r.summary is Some
    &&& r.location is Some
    &&& r.description is Some
}

/// The calendar event a stored row reads back as, with no alarms yet.
pub open spec fn event_of_row(r: EventRowView) -> CalendarEventView {
    CalendarEventView {
        uid: r.uid,
        summary: r.summary,
        start_str: r.start_str,
        end_str: r.end_str,
        location: r.location,
        description: r.description,
        alarms: Seq::empty(),
    }
}

/// The events' images.
pub open spec fn event_views(events: Seq<CalendarEvent>) -> Seq<CalendarEventView> {
    events.map_values(|e: CalendarEvent| e@)
}

/// The calendar events the stored rows read back as.
pub open spec fn row_events(rows: Seq<EventRowView>) -> Seq<CalendarEventView> {
    rows.map_values(|row: EventRowView| event_of_row(row))
}

/// Ascending in the lexicographic order of the start texts.
pub open spec fn sorted_by_start(s: Seq<CalendarEventView>) -> bool {
    forall|i: int, j: int| 0 <= i < j < s.len() ==> lex_le(s[i].start_str, s[j].start_str)
}

/// Loads the whole calendar from the event store: every stored row, as
/// calendar events in ascending order of their start text. A row whose
/// optional columns are not all present fails the load as a whole.
pub fn load_calendar(store: &EventStore) -> (r: Result<Vec<CalendarEvent>, LoadCalendarError>)
    ensures
        r is Ok <==> (forall|i: int| 0 <= i < store@.len() ==> row_complete(#[trigger] store@[i])),
        r matches Ok(events) ==> sorted_by_start(event_views(events@)) && event_views(
            events@,
        ).to_multiset() == row_events(store@).to_multiset(),
{
    let n = store.row_count();
    let mut events: Vec<CalendarEvent> = Vec::new();
    let mut i: usize = 0;
    while i < n
        invariant
            i <= n,
            n == store@.len(),
            events@.len() == i,
            forall|j: int| 0 <= j < i ==> events@.map_values(|e: CalendarEvent| e@)[j]
                == event_of_row(#[trigger] store@[j]),
            forall|j: int| 0 <= j < i ==> row_complete(#[trigger] store@[j]),
        decreases n - i,
    {
        let row = store.get_row(i);
        let summary = match &row.summary {
            Some(s) => s.clone(),
            None => {
                return Err(LoadCalendarError::IncompleteRow);
            },
        };
        let location = match &row.location {
            Some(s) => s.clone(),
            None => {
                return Err(LoadCalendarError::IncompleteRow);
            },
        };
        let description = match &row.description {
            Some(s) => s.clone(),
            None => {
                return Err(LoadCalendarError::IncompleteRow);
            },
        };
        let ev = CalendarEvent {
            uid: row.uid.clone(),
            summary: Some(summary),
            start_str: row.start_str.clone(),
            end_str: row.end_str.clone(),
            location: Some(location),
            description: Some(description),
            alarms: Vec::new(),
        };
        proof {
            assert(ev@.alarms =~= Seq::<crate::transform_calendar_event::AlarmView>::empty());
            assert(ev@ == event_of_row(store@[i as int]));
        }
        events.push(ev);
        i += 1;
    }
    let ghost total = row_events(store@);
    proof {
        assert(event_views(events@) =~= total);
    }

    // Selection sort on the start text: repeatedly move the least remaining
    // event to the output.
    let mut out: Vec<CalendarEvent> = Vec::new();
    proof {
        assert(event_views(out@) =~= Seq::<CalendarEventView>::empty());
        assert(event_views(out@).to_multiset().add(event_views(events@).to_multiset())
            =~= total.to_multiset());
    }
    while events.len() > 0
        invariant
            sorted_by_start(event_views(out@)),
            event_views(out@).to_multiset().add(event_views(events@).to_multiset())
                == total.to_multiset(),
            forall|p: int, q: int|
                0 <= p < out@.len() && 0 <= q < events@.len() ==> lex_le(
                    event_views(out@)[p].start_str,
                    event_views(events@)[q].start_str,
                ),
        decreases events.len(),
    {
        let m = events.len();
        let mut mi: usize = 0;
        let mut k: usize = 1;
        proof {
            lemma_lex_le_total(events@[0]@.start_str, events@[0]@.start_str);
        }
        while k < m
            invariant
                mi < k <= m,
                m == events@.len(),
                forall|j: int| 0 <= j < k ==> lex_le(
                    event_views(events@)[mi as int].start_str,
                    event_views(events@)[j].start_str,
                ),
            decreases m - k,
        {
            if str_lex_le(events[k].start_str.as_str(), events[mi].start_str.as_str()) {
                proof {
                    lemma_lex_le_total(events@[mi as int]@.start_str, events@[k as int]@.start_str);
                    assert forall|j: int| 0 <= j < k + 1 implies lex_le(
                        event_views(events@)[k as int].start_str,
                        event_views(events@)[j].start_str,
                    ) by {
                        if j == k {
                            lemma_lex_le_total(
                                events@[k as int]@.start_str,
                                events@[k as int]@.start_str,
                            );
                        } else {
                            lemma_lex_le_trans(
                                events@[k as int]@.start_str,
                                events@[mi as int]@.start_str,
                                events@[j]@.start_str,
                            );
                        }
                    }
                }
                mi = k;
            } else {
                proof {
                    lemma_lex_le_total(events@[mi as int]@.start_str, events@[k as int]@.start_str);
                }
            }
            k += 1;
        }
        let ghost before = event_views(events@);
        let ghost out_before = event_views(out@);
        let ev = events.remove(mi);
        out.push(ev);
        proof {
            assert(event_views(events@) =~= before.remove(mi as int));
            assert(event_views(out@) =~= out_before.push(ev@));
            assert(before.contains(before[mi as int]));
            assert(event_views(out@).to_multiset().add(event_views(events@).to_multiset())
                =~= total.to_multiset());
            assert forall|p: int, q: int|
                0 <= p < out@.len() && 0 <= q < events@.len() implies lex_le(
                event_views(out@)[p].start_str,
                event_views(events@)[q].start_str,
            ) by {
                before.remove_ensures(mi as int);
                if p < out_before.len() {
                    assert(lex_le(out_before[p].start_str, before[mi as int].start_str));
                }
                if q < mi {
                    assert(event_views(events@)[q] == before[q]);
                } else {
                    assert(event_views(events@)[q] == before[q + 1]);
                }
            }
            assert(sorted_by_start(event_views(out@))) by {
                assert forall|p: int, q: int|
                    0 <= p < q < event_views(out@).len() implies lex_le(
                    event_views(out@)[p].start_str,
                    event_views(out@)[q].start_str,
                ) by {
                    if q < out_before.len() {
                        assert(event_views(out@)[p] == out_before[p]);
                        assert(event_views(out@)[q] == out_before[q]);
                    } else {
                        assert(event_views(out@)[q] == ev@);
                        assert(lex_le(out_before[p].start_str, before[mi as int].start_str));
                    }
                }
            }
        }
    }
    proof {
        assert(event_views(events@).to_multiset() =~= Multiset::<CalendarEventView>::empty()) by {
            assert(event_views(events@).len() == 0);
        }
        assert(event_views(out@).to_multiset().add(Multiset::<CalendarEventView>::empty())
            =~= event_views(out@).to_multiset());
    }
    Ok(out)
}

} // verus!
