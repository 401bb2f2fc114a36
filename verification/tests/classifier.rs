use duty_plan::duty_plan_event::DutyPlanEvent;

#[test]
fn classifies_briefing() {
    let e = DutyPlanEvent::determine_event("07:45 LT Briefing FRA".to_string());
    assert_eq!(e, DutyPlanEvent::Briefing);
}

#[test]
fn classifies_deadhead_and_strips_space() {
    let e = DutyPlanEvent::determine_event("DH LH 123: FRA-JFK".to_string());
    assert_eq!(
        e,
        DutyPlanEvent::Deadhead {
            flight_iata: "LH123".to_string(),
            departure_iata: "FRA".to_string(),
            destination_iata: "JFK".to_string(),
        }
    );
}

#[test]
fn deadhead_is_never_the_plainer_flight() {
    let e = DutyPlanEvent::determine_event("DH 9X 1: AAA-BBB".to_string());
    assert!(matches!(e, DutyPlanEvent::Deadhead { .. }));
    assert!(!matches!(e, DutyPlanEvent::Flight { .. }));
}

#[test]
fn classifies_flight() {
    let e = DutyPlanEvent::determine_event("LH 123: FRA-JFK".to_string());
    assert_eq!(
        e,
        DutyPlanEvent::Flight {
            flight_iata: "LH123".to_string(),
            departure_iata: "FRA".to_string(),
            destination_iata: "JFK".to_string(),
        }
    );
}

#[test]
fn classifies_flight_with_four_digits() {
    let e = DutyPlanEvent::determine_event("9X 1234: AAA-BBB".to_string());
    assert_eq!(
        e,
        DutyPlanEvent::Flight {
            flight_iata: "9X1234".to_string(),
            departure_iata: "AAA".to_string(),
            destination_iata: "BBB".to_string(),
        }
    );
}

#[test]
fn five_digit_number_is_no_flight() {
    let e = DutyPlanEvent::determine_event("LH 12345: FRA-JFK".to_string());
    assert_eq!(e, DutyPlanEvent::Unknown);
}

#[test]
fn classifies_ground_with_renamed_category() {
    let e = DutyPlanEvent::determine_event("Mandatory Training (CRM Refresher)".to_string());
    assert_eq!(
        e,
        DutyPlanEvent::Ground {
            category: "Training".to_string(),
            description: "CRM Refresher".to_string(),
        }
    );
}

#[test]
fn general_event_category_collapses_to_empty() {
    let e = DutyPlanEvent::determine_event("GeneralEvent (Office day)".to_string());
    assert_eq!(
        e,
        DutyPlanEvent::Ground {
            category: "".to_string(),
            description: "Office day".to_string(),
        }
    );
}

#[test]
fn simulator_category_is_forwarded() {
    let e = DutyPlanEvent::determine_event("Simulator (LOFT session)".to_string());
    assert_eq!(
        e,
        DutyPlanEvent::Ground {
            category: "Simulator".to_string(),
            description: "LOFT session".to_string(),
        }
    );
}

#[test]
fn classifies_holiday() {
    let e = DutyPlanEvent::determine_event("Absence (U)".to_string());
    assert_eq!(e, DutyPlanEvent::Holiday);
}

#[test]
fn classifies_layover() {
    let e = DutyPlanEvent::determine_event("LAYOVER".to_string());
    assert_eq!(e, DutyPlanEvent::Layover);
}

#[test]
fn classifies_both_off_forms() {
    assert_eq!(
        DutyPlanEvent::determine_event("Off Day (ORTSTAG)".to_string()),
        DutyPlanEvent::Off
    );
    assert_eq!(
        DutyPlanEvent::determine_event("Off Day (OFF)".to_string()),
        DutyPlanEvent::Off
    );
}

#[test]
fn classifies_pickup() {
    let e = DutyPlanEvent::determine_event("11:20 LT Pickup FRA".to_string());
    assert_eq!(e, DutyPlanEvent::Pickup);
}

#[test]
fn classifies_reserve() {
    let e = DutyPlanEvent::determine_event("Reserve (REP)".to_string());
    assert_eq!(e, DutyPlanEvent::Reserve { description: "REP".to_string() });
}

#[test]
fn classifies_both_sickness_forms() {
    assert_eq!(
        DutyPlanEvent::determine_event("Sickness (K)".to_string()),
        DutyPlanEvent::Sickness
    );
    assert_eq!(
        DutyPlanEvent::determine_event("Sickness (KO)".to_string()),
        DutyPlanEvent::Sickness
    );
}

#[test]
fn unmatched_summary_is_unknown() {
    assert_eq!(
        DutyPlanEvent::determine_event("something unforeseen".to_string()),
        DutyPlanEvent::Unknown
    );
    assert_eq!(DutyPlanEvent::determine_event("".to_string()), DutyPlanEvent::Unknown);
}
