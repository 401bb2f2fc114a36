//! Event classifier.
//!
//! Maps the free-text summary of a roster entry to one of a fixed set of
//! duty-event variants. The patterns are tried in a fixed priority order and
//! the first match wins; in particular the deadhead pattern is tried before
//! the plainer flight pattern, whose shape it extends by a `DH ` prefix.
//! A summary that matches nothing classifies as `Unknown` — classification
//! never fails.

use vstd::prelude::*;
use crate::strutil::check_digit_char;
use crate::strutil::check_occurs_at;
use crate::strutil::check_upper_char;
use crate::strutil::is_digit_char;
use crate::strutil::is_upper_char;
use crate::strutil::occurs_at;
use crate::strutil::push_char;
use crate::strutil::str_eq;

verus! {

/// Types of events the duty plan can have. Each variant selects the rewrite
/// applied to the event for the output calendar; `Unknown` means only the
/// baseline rewrite is applied.
#[derive(Clone, Debug, PartialEq, Eq)]
pub enum DutyPlanEvent {
    /// Briefing before a rotation.
    Briefing,
    /// Deadhead from one airport to another.
    Deadhead { flight_iata: String, departure_iata: String, destination_iata: String },
    /// Flight from one airport to another.
    Flight { flight_iata: String, departure_iata: String, destination_iata: String },
    /// Ground event such as simulator or classroom.
    Ground { category: String, description: String },
    /// Holiday.
    Holiday,
    /// Layover somewhere else.
    Layover,
    /// Free day.
    Off,
    /// Hotel pickup.
    Pickup,
    /// Reserve duty; the description selects the exact kind.
    Reserve { description: String },
    /// Sickness.
    Sickness,
    /// Unknown event with no specially defined behaviour.
    Unknown,
}

/// Mathematical image of `DutyPlanEvent`.
pub enum DutyPlanEventView {
    Briefing,
    Deadhead { flight_iata: Seq<char>, departure_iata: Seq<char>, destination_iata: Seq<char> },
    Flight { flight_iata: Seq<char>, departure_iata: Seq<char>, destination_iata: Seq<char> },
    Ground { category: Seq<char>, description: Seq<char> },
    Holiday,
    Layover,
    Off,
    Pickup,
    Reserve { description: Seq<char> },
    Sickness,
    Unknown,
}

impl View for DutyPlanEvent {
    type V = DutyPlanEventView;

    open spec fn view(&self) -> DutyPlanEventView {
        match self {
            DutyPlanEvent::Briefing => DutyPlanEventView::Briefing,
            DutyPlanEvent::Deadhead { flight_iata, departure_iata, destination_iata } => {
                DutyPlanEventView::Deadhead {
                    flight_iata: flight_iata@,
                    departure_iata: departure_iata@,
                    destination_iata: destination_iata@,
                }
            },
            DutyPlanEvent::Flight { flight_iata, departure_iata, destination_iata } => {
                DutyPlanEventView::Flight {
                    flight_iata: flight_iata@,
                    departure_iata: departure_iata@,
                    destination_iata: destination_iata@,
                }
            },
            DutyPlanEvent::Ground { category, description } => DutyPlanEventView::Ground {
                category: category@,
                description: description@,
            },
            DutyPlanEvent::Holiday => DutyPlanEventView::Holiday,
            DutyPlanEvent::Layover => DutyPlanEventView::Layover,
            DutyPlanEvent::Off => DutyPlanEventView::Off,
            DutyPlanEvent::Pickup => DutyPlanEventView::Pickup,
            DutyPlanEvent::Reserve { description } => DutyPlanEventView::Reserve {
                description: description@,
            },
            DutyPlanEvent::Sickness => DutyPlanEventView::Sickness,
            DutyPlanEvent::Unknown => DutyPlanEventView::Unknown,
        }
    }
}

/// Length of the run of digit characters starting at position `i`.
pub open spec fn digit_run_from(s: Seq<char>, i: int) -> int
    decreases s.len() - i,
{
    if i < 0 || i >= s.len() || !is_digit_char(s[i]) {
        0
    } else {
        1 + digit_run_from(s, i + 1)
    }
}

pub proof fn lemma_digit_run_value(s: Seq<char>, i: int, k: int)
    requires
        0 <= i,
        i + k <= s.len(),
        0 <= k,
        forall|j: int| i <= j < i + k ==> is_digit_char(s[j]),
        i + k == s.len() || !is_digit_char(s[i + k]),
    ensures
        digit_run_from(s, i) == k,
    decreases k,
{
    if k > 0 {
        lemma_digit_run_value(s, i + 1, k - 1);
    }
}

/// Briefing summary: `HH:MM LT Briefing` and a three-letter station code.
pub open spec fn briefing_match(s: Seq<char>) -> bool {
    &&& s.len() == 21
    &&& is_digit_char(s[0]) && is_digit_char(s[1]) && s[2] == ':' && is_digit_char(s[3])
        && is_digit_char(s[4])
    &&& occurs_at(s, 5, " LT Briefing "@)
    &&& is_upper_char(s[18]) && is_upper_char(s[19]) && is_upper_char(s[20])
}

/// Pickup summary: `HH:MM LT Pickup` and a three-letter station code.
pub open spec fn pickup_match(s: Seq<char>) -> bool {
    &&& s.len() == 19
    &&& is_digit_char(s[0]) && is_digit_char(s[1]) && s[2] == ':' && is_digit_char(s[3])
        && is_digit_char(s[4])
    &&& occurs_at(s, 5, " LT Pickup "@)
    &&& is_upper_char(s[16]) && is_upper_char(s[17]) && is_upper_char(s[18])
}

/// Flight summary: a two-character carrier designator, a space, one to four
/// digits, then `: ` and two three-letter codes joined by `-`.
pub open spec fn flight_match(s: Seq<char>) -> bool {
    let k = digit_run_from(s, 3);
    &&& s.len() >= 4
    &&& (is_digit_char(s[0]) || is_upper_char(s[0]))
    &&& is_upper_char(s[1])
    &&& s[2] == ' '
    &&& 1 <= k <= 4
    &&& s.len() == 12 + k
    &&& s[3 + k] == ':'
    &&& s[4 + k] == ' '
    &&& is_upper_char(s[5 + k]) && is_upper_char(s[6 + k]) && is_upper_char(s[7 + k])
    &&& s[8 + k] == '-'
    &&& is_upper_char(s[9 + k]) && is_upper_char(s[10 + k]) && is_upper_char(s[11 + k])
}

/// The flight designator of a flight summary, with the space removed.
pub open spec fn flight_designator(s: Seq<char>) -> Seq<char> {
    seq![s[0], s[1]] + s.subrange(3, 3 + digit_run_from(s, 3))
}

/// The departure code of a flight summary.
pub open spec fn flight_departure(s: Seq<char>) -> Seq<char> {
    s.subrange(5 + digit_run_from(s, 3), 8 + digit_run_from(s, 3))
}

/// The destination code of a flight summary.
pub open spec fn flight_destination(s: Seq<char>) -> Seq<char> {
    s.subrange(9 + digit_run_from(s, 3), 12 + digit_run_from(s, 3))
}

/// Deadhead summary: `DH ` followed by a flight summary.
pub open spec fn deadhead_match(s: Seq<char>) -> bool {
    &&& s.len() >= 3
    &&& s[0] == 'D' && s[1] == 'H' && s[2] == ' '
    &&& flight_match(s.skip(3))
}

/// A category of length `p` followed by ` (`, a non-empty description
/// without a line break, and a closing `)` at the very end.
pub open spec fn paren_suffix_match(s: Seq<char>, p: int) -> bool {
    &&& s.len() >= p + 4
    &&& s[p] == ' ' && s[p + 1] == '('
    &&& s[s.len() - 1] == ')'
    &&& forall|i: int| p + 2 <= i < s.len() - 1 ==> s[i] != '\n'
}

/// The description captured by `paren_suffix_match`.
pub open spec fn paren_description(s: Seq<char>, p: int) -> Seq<char> {
    s.subrange(p + 2, s.len() - 1)
}

/// Ground summary: one of three known categories with a parenthesized
/// description.
pub open spec fn ground_match(s: Seq<char>) -> bool {
    if occurs_at(s, 0, "GeneralEvent"@) {
        paren_suffix_match(s, 12)
    } else if occurs_at(s, 0, "Mandatory Training"@) {
        paren_suffix_match(s, 18)
    } else if occurs_at(s, 0, "Simulator"@) {
        paren_suffix_match(s, 9)
    } else {
        false
    }
}

/// The ground category after the rename table is applied: a verbose label
/// with no information value collapses to the empty string, a long label to
/// a shorter one, and anything else is forwarded unchanged.
pub open spec fn ground_category(s: Seq<char>) -> Seq<char> {
    if occurs_at(s, 0, "GeneralEvent"@) {
        ""@
    } else if occurs_at(s, 0, "Mandatory Training"@) {
        "Training"@
    } else {
        "Simulator"@
    }
}

/// The description captured by a ground summary.
pub open spec fn ground_description(s: Seq<char>) -> Seq<char> {
    if occurs_at(s, 0, "GeneralEvent"@) {
        paren_description(s, 12)
    } else if occurs_at(s, 0, "Mandatory Training"@) {
        paren_description(s, 18)
    } else {
        paren_description(s, 9)
    }
}

/// Reserve summary: `Reserve` with a parenthesized description.
pub open spec fn reserve_match(s: Seq<char>) -> bool {
    occurs_at(s, 0, "Reserve"@) && paren_suffix_match(s, 7)
}

/// The description captured by a reserve summary.
pub open spec fn reserve_description(s: Seq<char>) -> Seq<char> {
    paren_description(s, 7)
}

/// The classification of a summary: the patterns in priority order, first
/// match wins, `Unknown` where nothing matches.
pub open spec fn classify(s: Seq<char>) -> DutyPlanEventView {
    if briefing_match(s) {
        DutyPlanEventView::Briefing
    } else if deadhead_match(s) {
        DutyPlanEventView::Deadhead {
            flight_iata: flight_designator(s.skip(3)),
            departure_iata: flight_departure(s.skip(3)),
            destination_iata: flight_destination(s.skip(3)),
        }
    } else if flight_match(s) {
        DutyPlanEventView::Flight {
            flight_iata: flight_designator(s),
            departure_iata: flight_departure(s),
            destination_iata: flight_destination(s),
        }
    } else if ground_match(s) {
        DutyPlanEventView::Ground { category: ground_category(s), description: ground_description(s) }
    } else if s == "Absence (U)"@ {
        DutyPlanEventView::Holiday
    } else if s == "LAYOVER"@ {
        DutyPlanEventView::Layover
    } else if s == "Off Day (ORTSTAG)"@ || s == "Off Day (OFF)"@ {
        DutyPlanEventView::Off
    } else if pickup_match(s) {
        DutyPlanEventView::Pickup
    } else if reserve_match(s) {
        DutyPlanEventView::Reserve { description: reserve_description(s) }
    } else if s == "Sickness (K)"@ || s == "Sickness (KO)"@ {
        DutyPlanEventView::Sickness
    } else {
        DutyPlanEventView::Unknown
    }
}

fn match_briefing(s: &str) -> (r: bool)
    ensures
        r == briefing_match(s@),
{
    let n = s.unicode_len();
    if n != 21 {
        return false;
    }
    check_digit_char(s.get_char(0)) && check_digit_char(s.get_char(1)) && s.get_char(2) == ':'
        && check_digit_char(s.get_char(3)) && check_digit_char(s.get_char(4)) && check_occurs_at(
        s,
        5,
        " LT Briefing ",
    ) && check_upper_char(s.get_char(18)) && check_upper_char(s.get_char(19)) && check_upper_char(
        s.get_char(20),
    )
}

fn match_pickup(s: &str) -> (r: bool)
    ensures
        r == pickup_match(s@),
{
    let n = s.unicode_len();
    if n != 19 {
        return false;
    }
    check_digit_char(s.get_char(0)) && check_digit_char(s.get_char(1)) && s.get_char(2) == ':'
        && check_digit_char(s.get_char(3)) && check_digit_char(s.get_char(4)) && check_occurs_at(
        s,
        5,
        " LT Pickup ",
    ) && check_upper_char(s.get_char(16)) && check_upper_char(s.get_char(17)) && check_upper_char(
        s.get_char(18),
    )
}

fn match_flight_fields(s: &str) -> (r: Option<(String, String, String)>)
    ensures
        r is Some <==> flight_match(s@),
        r matches Some((f, d, t)) ==> f@ == flight_designator(s@) && d@ == flight_departure(s@)
            && t@ == flight_destination(s@),
{
    let n = s.unicode_len();
    if n < 4 {
        return None;
    }
    let c0 = s.get_char(0);
    if !(check_digit_char(c0) || check_upper_char(c0)) {
        return None;
    }
    if !check_upper_char(s.get_char(1)) {
        return None;
    }
    if s.get_char(2) != ' ' {
        return None;
    }
    let mut k: usize = 0;
    while 3 + k < n && check_digit_char(s.get_char(3 + k))
        invariant
            n == s@.len(),
            n >= 4,
            3 + k <= n,
            forall|j: int| 3 <= j < 3 + k ==> is_digit_char(s@[j]),
        decreases n - k,
    {
        k += 1;
    }
    proof {
        lemma_digit_run_value(s@, 3, k as int);
    }
    if k < 1 || k > 4 {
        return None;
    }
    if n != 12 + k {
        return None;
    }
    if s.get_char(3 + k) != ':' || s.get_char(4 + k) != ' ' {
        return None;
    }
    if !(check_upper_char(s.get_char(5 + k)) && check_upper_char(s.get_char(6 + k))
        && check_upper_char(s.get_char(7 + k))) {
        return None;
    }
    if s.get_char(8 + k) != '-' {
        return None;
    }
    if !(check_upper_char(s.get_char(9 + k)) && check_upper_char(s.get_char(10 + k))
        && check_upper_char(s.get_char(11 + k))) {
        return None;
    }
    let mut flight = String::new();
    push_char(&mut flight, c0);
    push_char(&mut flight, s.get_char(1));
    let digits = s.substring_char(3, 3 + k);
    let flight = flight.concat(digits);
    assert(flight@ =~= flight_designator(s@));
    let departure = s.substring_char(5 + k, 8 + k).to_owned();
    let destination = s.substring_char(9 + k, 12 + k).to_owned();
    Some((flight, departure, destination))
}

fn match_deadhead_fields(s: &str) -> (r: Option<(String, String, String)>)
    ensures
        r is Some <==> deadhead_match(s@),
        r matches Some((f, d, t)) ==> f@ == flight_designator(s@.skip(3)) && d@ == flight_departure(
            s@.skip(3),
        ) && t@ == flight_destination(s@.skip(3)),
{
    let n = s.unicode_len();
    if n < 3 {
        return None;
    }
    if s.get_char(0) != 'D' || s.get_char(1) != 'H' || s.get_char(2) != ' ' {
        return None;
    }
    let rest = s.substring_char(3, n);
    assert(rest@ =~= s@.skip(3));
    match_flight_fields(rest)
}

fn match_paren_suffix(s: &str, p: usize) -> (r: Option<String>)
    requires
        p <= 100,
    ensures
        r is Some <==> paren_suffix_match(s@, p as int),
        r matches Some(d) ==> d@ == paren_description(s@, p as int),
{
    let n = s.unicode_len();
    if n < p + 4 {
        return None;
    }
    if s.get_char(p) != ' ' || s.get_char(p + 1) != '(' || s.get_char(n - 1) != ')' {
        return None;
    }
    let mut i: usize = p + 2;
    while i < n - 1
        invariant
            n == s@.len(),
            n >= p + 4,
            p + 2 <= i <= n - 1,
            forall|j: int| p + 2 <= j < i ==> s@[j] != '\n',
        decreases n - i,
    {
        if s.get_char(i) == '\n' {
            return None;
        }
        i += 1;
    }
    Some(s.substring_char(p + 2, n - 1).to_owned())
}

fn match_ground(s: &str) -> (r: Option<(String, String)>)
    ensures
        r is Some <==> ground_match(s@),
        r matches Some((c, d)) ==> c@ == ground_category(s@) && d@ == ground_description(s@),
{
    if check_occurs_at(s, 0, "GeneralEvent") {
        match match_paren_suffix(s, 12) {
            Some(d) => {
                proof {
                    reveal_strlit("");
                    assert(""@ =~= Seq::<char>::empty());
                }
                Some((String::new(), d))
            },
            None => None,
        }
    } else if check_occurs_at(s, 0, "Mandatory Training") {
        match match_paren_suffix(s, 18) {
            Some(d) => Some(("Training".to_owned(), d)),
            None => None,
        }
    } else if check_occurs_at(s, 0, "Simulator") {
        match match_paren_suffix(s, 9) {
            Some(d) => Some(("Simulator".to_owned(), d)),
            None => None,
        }
    } else {
        None
    }
}

fn match_reserve(s: &str) -> (r: Option<String>)
    ensures
        r is Some <==> reserve_match(s@),
        r matches Some(d) ==> d@ == reserve_description(s@),
{
    if check_occurs_at(s, 0, "Reserve") {
        match_paren_suffix(s, 7)
    } else {
        None
    }
}

impl DutyPlanEvent {
    /// Determines the event type of a calendar event from its summary, by
    /// the fixed pattern priority order; a summary that matches no pattern
    /// yields `Unknown`.
    pub fn determine_event(calendar_event_summary: String) -> (r: Self)
        ensures
            r@ == classify(calendar_event_summary@),
    {
        let s = calendar_event_summary.as_str();
        if match_briefing(s) {
            return DutyPlanEvent::Briefing;
        }
        if let Some((flight_iata, departure_iata, destination_iata)) = match_deadhead_fields(s) {
            return DutyPlanEvent::Deadhead { flight_iata, departure_iata, destination_iata };
        }
        if let Some((flight_iata, departure_iata, destination_iata)) = match_flight_fields(s) {
            return DutyPlanEvent::Flight { flight_iata, departure_iata, destination_iata };
        }
        if let Some((category, description)) = match_ground(s) {
            return DutyPlanEvent::Ground { category, description };
        }
        if str_eq(s, "Absence (U)") {
            return DutyPlanEvent::Holiday;
        }
        if str_eq(s, "LAYOVER") {
            return DutyPlanEvent::Layover;
        }
        if str_eq(s, "Off Day (ORTSTAG)") || str_eq(s, "Off Day (OFF)") {
            return DutyPlanEvent::Off;
        }
        if match_pickup(s) {
            return DutyPlanEvent::Pickup;
        }
        if let Some(description) = match_reserve(s) {
            return DutyPlanEvent::Reserve { description };
        }
        if str_eq(s, "Sickness (K)") || str_eq(s, "Sickness (KO)") {
            return DutyPlanEvent::Sickness;
        }
        DutyPlanEvent::Unknown
    }
}

/// A summary matching the deadhead pattern always classifies as `Deadhead` —
/// never as the plainer flight pattern it extends — and the extracted flight
/// designator carries no space.
pub proof fn lemma_deadhead_classified(s: Seq<char>)
    requires
        deadhead_match(s),
    ensures
        classify(s) == (DutyPlanEventView::Deadhead {
            flight_iata: flight_designator(s.skip(3)),
            departure_iata: flight_departure(s.skip(3)),
            destination_iata: flight_destination(s.skip(3)),
        }),
        forall|i: int|
            0 <= i < flight_designator(s.skip(3)).len() ==> flight_designator(s.skip(3))[i] != ' ',
{
    assert(!briefing_match(s)) by {
        assert(s[2] == ' ');
    }
    let rest = s.skip(3);
    let k = digit_run_from(rest, 3);
    let f = flight_designator(rest);
    assert(f.len() == 2 + k);
    assert forall|i: int| 0 <= i < f.len() implies f[i] != ' ' by {
        if i == 0 {
            assert(is_digit_char(rest[0]) || is_upper_char(rest[0]));
        } else if i == 1 {
            assert(is_upper_char(rest[1]));
        } else {
            assert(f[i] == rest[i + 1]);
            lemma_digit_run_digits(rest, 3);
            assert(is_digit_char(rest[i + 1]));
        }
    }
}

/// Every position inside a digit run holds a digit.
pub proof fn lemma_digit_run_digits(s: Seq<char>, i: int)
    ensures
        forall|j: int| i <= j < i + digit_run_from(s, i) ==> is_digit_char(s[j]),
    decreases s.len() - i,
{
    if !(i < 0 || i >= s.len() || !is_digit_char(s[i])) {
        lemma_digit_run_digits(s, i + 1);
    }
}

} // verus!
