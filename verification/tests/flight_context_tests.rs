use fms_dispatch::flight_context::{FlightFacts, FlightLegFacts, FlightNature, FlightStatus};
use fms_dispatch::generation::{legacy_resolve_generation_anchor_time, ContextValue, LegContext};
use fms_dispatch::model::MIN_TIMESTAMP;
use fms_dispatch::rules::DispatchService;

/// 2026-08-08T10:00:00Z.
const TEN: i64 = 1786183200;

fn text(c: &LegContext, key: &str) -> Option<String> {
    match c.get(key) {
        Some(ContextValue::Text(s)) => Some(s.clone()),
        _ => None,
    }
}

fn value(c: &LegContext, key: &str) -> String {
    match c.get(key) {
        Some(ContextValue::Null) => "null".to_string(),
        Some(ContextValue::Bool(b)) => b.to_string(),
        Some(ContextValue::Text(s)) => format!("text:{s}"),
        Some(ContextValue::Other(s)) => format!("other:{s}"),
        None => "missing".to_string(),
    }
}

fn flight() -> FlightFacts {
    FlightFacts {
        terminal: Some("T1".to_string()),
        aircraft_type: Some(" A320 ".to_string()),
        registration: Some("  ".to_string()),
        inbound_leg: Some(FlightLegFacts {
            stand_type: None,
            flight_type: FlightNature::Intl,
            is_vip: true,
            scheduled_time: Some(TEN),
        }),
        outbound_leg: Some(FlightLegFacts {
            stand_type: Some("remote".to_string()),
            flight_type: FlightNature::Region,
            is_vip: false,
            scheduled_time: None,
        }),
        is_turnaround: false,
        scheduled_arrival: Some(TEN),
        estimated_arrival: Some(TEN + 300),
        actual_arrival: None,
        scheduled_departure: Some(TEN + 3600),
        estimated_departure: None,
        actual_departure: None,
        status: FlightStatus::BoardingUrge,
        has_boarding_restriction: true,
        is_quick_turnaround: false,
        is_commercial_signed: true,
    }
}

#[test]
fn each_leg_of_a_flight_gets_its_fields() {
    let f = flight();
    let legs = DispatchService::build_flight_leg_contexts(Some(&f), "F1", "S1", TEN - 60, TEN + 7200, Some("  "));
    let inbound = legs.inbound.expect("inbound leg");
    let outbound = legs.outbound.expect("outbound leg");
    assert_eq!(value(&inbound, "flight_id"), "text:F1");
    assert_eq!(value(&inbound, "terminal"), "text:T1");
    assert_eq!(value(&inbound, "stand_type"), "text:remote");
    assert_eq!(value(&inbound, "stand_area"), "null");
    assert_eq!(value(&inbound, "aircraft_type"), "text:A320");
    assert_eq!(value(&inbound, "registration"), "null");
    assert_eq!(value(&inbound, "is_turnaround"), "false");
    assert_eq!(value(&inbound, "turnaround_pair_key"), "null");
    assert_eq!(value(&inbound, "arrival_anchor_time"), "text:2026-08-08T10:05:00Z");
    assert_eq!(value(&inbound, "departure_anchor_time"), "text:2026-08-08T11:00:00Z");
    assert_eq!(value(&inbound, "delta_t_minutes"), "other:55");
    assert_eq!(value(&inbound, "flight_status"), "text:BOARDING_URGE");
    assert_eq!(value(&inbound, "has_boarding_restriction"), "true");
    assert_eq!(value(&inbound, "is_quick_turnaround"), "false");
    assert_eq!(value(&inbound, "leg_scope"), "text:inbound");
    assert_eq!(value(&inbound, "flight_nature"), "text:intl");
    assert_eq!(value(&inbound, "is_vip"), "true");
    assert_eq!(value(&inbound, "actual_arrival"), "null");
    assert_eq!(value(&inbound, "estimated_departure"), "text:2026-08-08T12:00:00Z");
    assert_eq!(value(&outbound, "leg_scope"), "text:outbound");
    assert_eq!(value(&outbound, "flight_nature"), "text:region");
    assert_eq!(text(&outbound, "scheduled_time").as_deref(), Some("2026-08-08T12:00:00Z"));
    assert_eq!(legacy_resolve_generation_anchor_time(&inbound, "scheduled_time"), Some(TEN));
    assert_eq!(legacy_resolve_generation_anchor_time(&outbound, "scheduled_time"), Some(TEN + 7200));
    assert_eq!(legacy_resolve_generation_anchor_time(&inbound, "estimated_arrival"), Some(TEN + 300));
}

#[test]
fn a_stand_without_a_flight_record_gets_fallback_legs() {
    let legs = DispatchService::build_flight_leg_contexts(None, "F2", "S2", TEN, MIN_TIMESTAMP, Some(" T3 "));
    let inbound = legs.inbound.expect("inbound from eta");
    assert!(legs.outbound.is_none());
    assert_eq!(value(&inbound, "terminal"), "text:T3");
    assert_eq!(value(&inbound, "is_turnaround"), "true");
    assert_eq!(value(&inbound, "turnaround_pair_key"), "text:F2");
    assert_eq!(value(&inbound, "flight_nature"), "text:domestic");
    assert_eq!(value(&inbound, "is_vip"), "false");
    assert_eq!(value(&inbound, "flight_status"), "null");
    assert_eq!(value(&inbound, "has_boarding_restriction"), "false");
    assert_eq!(value(&inbound, "scheduled_time"), "text:2026-08-08T10:00:00Z");
}

#[test]
fn turnaround_minutes_round_half_away_from_zero() {
    let mut f = flight();
    f.estimated_arrival = None;
    f.scheduled_arrival = Some(TEN);
    f.scheduled_departure = Some(TEN - 90);
    let legs = DispatchService::build_flight_leg_contexts(Some(&f), "F1", "S1", TEN, TEN, None);
    assert_eq!(value(&legs.inbound.unwrap(), "delta_t_minutes"), "other:-2");
    f.scheduled_departure = Some(TEN + 89);
    let legs = DispatchService::build_flight_leg_contexts(Some(&f), "F1", "S1", TEN, TEN, None);
    assert_eq!(value(&legs.outbound.unwrap(), "delta_t_minutes"), "other:1");
}

#[test]
fn flight_status_and_nature_have_stored_names() {
    assert_eq!(DispatchService::flight_status_name(None), None);
    assert_eq!(DispatchService::flight_status_name(Some(&flight())).as_deref(), Some("BOARDING_URGE"));
    assert_eq!(DispatchService::flight_nature_value(FlightNature::Domestic), "domestic");
}
