use fms_dispatch::model::{
    AssigneeType, DispatchOrder, LeadSource, LockLevel, MemberRole, OrderMember, OrderStatus, TaskCrew,
};
use fms_dispatch::overrun::detect_overrun;
use fms_dispatch::overrun_service::{OverrunWarningService, ScanSummary};

const MINUTE: i64 = 60;

/// 2026-08-08T10:00:00Z.
fn fixed_now() -> i64 {
    1786183200
}

fn order(id: &str, flight: &str, status: OrderStatus) -> DispatchOrder {
    DispatchOrder {
        id: id.to_string(),
        flight_id: flight.to_string(),
        task_type: "boarding".to_string(),
        status,
        publication_state: "prepublished".to_string(),
        assignee_type: AssigneeType::Team,
        individual_user_id: None,
        team_id: None,
        team_name: None,
        individual_username: None,
        stand_code: None,
        stand_id: None,
        department_id: Some("dept-1".to_string()),
        leg_scope: "outbound".to_string(),
        lock_level: LockLevel::Optimizable,
        planned_start_time: None,
        planned_end_time: None,
        actual_start_time: None,
        actual_end_time: None,
        estimated_completion_time: None,
        dispatched_at: None,
        created_at: None,
        assignment_deadline: None,
        completion_warning_lead_minutes: None,
        members: Vec::new(),
        task_crew: TaskCrew { members: None, first_source_team_id: None },
        dispatched_by: None,
        equipment_ids: Vec::new(),
        equipment_assignment: Vec::new(),
        crew_requirement_snapshot: Vec::new(),
        equipment_requirement_snapshot: Vec::new(),
        equipment_gap_count: 0,
    }
}

fn with_member(mut order: DispatchOrder, user_id: &str, active: bool) -> DispatchOrder {
    order.members.push(OrderMember {
        user_id: user_id.to_string(),
        is_active: active,
        role: MemberRole::Member,
        slot_code: None,
        check_in_time: None,
        check_out_time: None,
    });
    order
}

fn in_progress_current(start: i64, eta: Option<i64>) -> DispatchOrder {
    let mut current = order("do-current", "fl-1", OrderStatus::InProgress);
    current.planned_start_time = Some(start);
    current.actual_start_time = Some(start);
    current.actual_end_time = None;
    current.estimated_completion_time = eta;
    current.individual_user_id = Some("user-1".to_string());
    current
}

fn pending_next(start: i64) -> DispatchOrder {
    let mut next = order("do-next", "fl-1", OrderStatus::Pending);
    next.planned_start_time = Some(start);
    next.individual_user_id = Some("user-1".to_string());
    next
}

#[test]
fn detects_conflict_inside_lead_window_with_eta() {
    let now = fixed_now();
    let current = in_progress_current(now - 10 * MINUTE, Some(now + 20 * MINUTE));
    let next = pending_next(now + 5 * MINUTE);
    let candidate = detect_overrun(&current, &next, 5, LeadSource::System, now)
        .expect("inside the 5-minute lead window must warn");
    assert_eq!(candidate.shared_personnel, vec!["user-1"]);
    assert_eq!(candidate.countdown_minutes, 5);
    assert!(!candidate.eta_missing);
    assert_eq!(candidate.predicted_conflict_minutes, Some(15));
    assert_eq!(candidate.lead_source, LeadSource::System);
}

#[test]
fn does_not_warn_outside_lead_window() {
    let now = fixed_now();
    let current = in_progress_current(now - 10 * MINUTE, Some(now + 20 * MINUTE));
    let next = pending_next(now + 10 * MINUTE);
    assert!(detect_overrun(&current, &next, 5, LeadSource::System, now).is_none());
}

#[test]
fn lead_zero_triggers_only_at_planned_start() {
    let now = fixed_now();
    let current = in_progress_current(now - 10 * MINUTE, Some(now + 20 * MINUTE));
    let next = pending_next(now + 4 * MINUTE);
    assert!(detect_overrun(&current, &next, 0, LeadSource::Order, now).is_none());
    let next = pending_next(now);
    assert!(detect_overrun(&current, &next, 0, LeadSource::Order, now).is_some());
}

#[test]
fn no_warning_without_shared_actual_person() {
    let now = fixed_now();
    let mut current = in_progress_current(now - 10 * MINUTE, Some(now + 20 * MINUTE));
    current.individual_user_id = Some("user-a".to_string());
    let next = pending_next(now + 5 * MINUTE);
    assert!(detect_overrun(&current, &next, 5, LeadSource::System, now).is_none());
}

#[test]
fn no_warning_when_current_is_completed_or_cancelled() {
    let now = fixed_now();
    let next = pending_next(now + 5 * MINUTE);
    let mut completed = in_progress_current(now - 10 * MINUTE, Some(now + 20 * MINUTE));
    completed.status = OrderStatus::Completed;
    assert!(detect_overrun(&completed, &next, 5, LeadSource::System, now).is_none());

    let mut cancelled = in_progress_current(now - 10 * MINUTE, Some(now + 20 * MINUTE));
    cancelled.status = OrderStatus::Cancelled;
    assert!(detect_overrun(&cancelled, &next, 5, LeadSource::System, now).is_none());
}

#[test]
fn no_warning_when_next_is_completed_or_cancelled() {
    let now = fixed_now();
    let current = in_progress_current(now - 10 * MINUTE, Some(now + 20 * MINUTE));
    let mut next = pending_next(now + 5 * MINUTE);
    next.status = OrderStatus::Completed;
    assert!(detect_overrun(&current, &next, 5, LeadSource::System, now).is_none());
    next.status = OrderStatus::Cancelled;
    assert!(detect_overrun(&current, &next, 5, LeadSource::System, now).is_none());
}

#[test]
fn no_warning_when_next_has_no_planned_start() {
    let now = fixed_now();
    let current = in_progress_current(now - 10 * MINUTE, Some(now + 20 * MINUTE));
    let mut next = pending_next(now + 5 * MINUTE);
    next.planned_start_time = None;
    assert!(detect_overrun(&current, &next, 5, LeadSource::System, now).is_none());
}

#[test]
fn eta_missing_flags_without_inventing_duration() {
    let now = fixed_now();
    let current = in_progress_current(now - 10 * MINUTE, None);
    let next = pending_next(now + 5 * MINUTE);
    let candidate = detect_overrun(&current, &next, 5, LeadSource::Department, now)
        .expect("missing ETA must still warn inside the window");
    assert!(candidate.eta_missing);
    assert_eq!(candidate.predicted_conflict_minutes, None);
}

#[test]
fn team_orders_share_active_members_only() {
    let now = fixed_now();
    let mut current = in_progress_current(now - 10 * MINUTE, Some(now + 20 * MINUTE));
    current.individual_user_id = None;
    current = with_member(current, "shared", true);
    current = with_member(current, "inactive", false);

    let mut next = pending_next(now + 5 * MINUTE);
    next.individual_user_id = None;
    next = with_member(next, "shared", true);
    next = with_member(next, "different", true);

    let candidate = detect_overrun(&current, &next, 5, LeadSource::System, now)
        .expect("active shared member must warn");
    assert_eq!(candidate.shared_personnel, vec!["shared"]);
}

#[test]
fn overlapping_eta_after_next_start_yields_zero_conflict_minutes() {
    let now = fixed_now();
    let current = in_progress_current(now - 10 * MINUTE, Some(now + 3 * MINUTE));
    let next = pending_next(now + 5 * MINUTE);
    let candidate = detect_overrun(&current, &next, 5, LeadSource::System, now).unwrap();
    assert_eq!(candidate.predicted_conflict_minutes, Some(0));
}

fn flight_chain(current_start: i64, next_start: i64) -> Vec<DispatchOrder> {
    vec![
        in_progress_current(current_start, Some(current_start + 20 * MINUTE)),
        pending_next(next_start),
    ]
}

fn flight_chain_for(flight_id: &str, current_start: i64, next_start: i64) -> Vec<DispatchOrder> {
    let mut orders = flight_chain(current_start, next_start);
    for (index, order) in orders.iter_mut().enumerate() {
        order.flight_id = flight_id.to_string();
        order.id = format!("do-{flight_id}-{index}");
    }
    orders
}

#[test]
fn lifecycle_upserts_idempotently_and_does_not_notify_twice() {
    let now = fixed_now();
    let mut service = OverrunWarningService::new(now);

    let first = service
        .evaluate_orders(flight_chain(now - 10 * MINUTE, now + 5 * MINUTE))
        .unwrap();
    assert_eq!(first.len(), 1);
    let outcome = &first[0];
    assert!(outcome.notify, "first detection must notify");
    let alert_id = outcome.alert.as_ref().unwrap().id.clone();

    let second = service
        .evaluate_orders(flight_chain(now - 10 * MINUTE, now + 5 * MINUTE))
        .unwrap();
    let outcome = &second[0];
    assert!(!outcome.notify, "identical active conflict must not notify twice");
    assert_eq!(outcome.alert.as_ref().unwrap().id, alert_id);
    assert_eq!(outcome.alert.as_ref().unwrap().occurrence_count, 1);
}

#[test]
fn lifecycle_auto_resolves_when_conflict_disappears() {
    let now = fixed_now();
    let mut service = OverrunWarningService::new(now);

    service
        .evaluate_orders(flight_chain(now - 10 * MINUTE, now + 5 * MINUTE))
        .unwrap();
    assert_eq!(service.list_unresolved(None).len(), 1);

    let mut current = in_progress_current(now - 10 * MINUTE, Some(now + 20 * MINUTE));
    current.status = OrderStatus::Completed;
    let outcome = service
        .evaluate_orders(vec![current, pending_next(now + 5 * MINUTE)])
        .unwrap();
    assert!(outcome[0].auto_resolved_alert_id.is_some());
    assert!(service.list_unresolved(None).is_empty());
}

#[test]
fn lifecycle_reopens_resolved_alert_with_new_notification() {
    let now = fixed_now();
    let mut service = OverrunWarningService::new(now);

    let first = service
        .evaluate_orders(flight_chain(now - 10 * MINUTE, now + 5 * MINUTE))
        .unwrap();
    let alert_id = first[0].alert.as_ref().unwrap().id.clone();
    assert!(service
        .alerts
        .close_alert(&alert_id, now, None, Some("auto".to_string())));
    assert!(service.list_unresolved(None).is_empty());

    let outcome = service
        .evaluate_orders(flight_chain(now - 10 * MINUTE, now + 5 * MINUTE))
        .unwrap();
    assert!(outcome[0].notify, "reappearing conflict must notify again");
    let alert = outcome[0].alert.as_ref().unwrap();
    assert_eq!(alert.id, alert_id);
    assert_eq!(alert.occurrence_count, 2);
}

#[test]
fn scan_covers_all_flights_and_counts_summary() {
    let now = fixed_now();
    let mut orders = flight_chain_for("fl-1", now - 10 * MINUTE, now + 5 * MINUTE);
    orders.extend(flight_chain_for("fl-2", now - 20 * MINUTE, now + 3 * MINUTE));
    // Flights outside the window take no part in the scan.
    orders.extend(flight_chain_for("fl-3", now - 6 * 60 * MINUTE, now - 5 * 60 * MINUTE));
    let mut service = OverrunWarningService::new(now);

    let summary: ScanSummary = service.scan_once(orders).unwrap();
    assert_eq!(summary.evaluated_pairs, 2);
    assert_eq!(summary.notifications, 2);
    assert_eq!(summary.active_alerts, 2);
    assert_eq!(summary.auto_resolved, 0);
    assert_eq!(summary.eta_missing, 0);
}

#[test]
fn scan_auto_resolves_stale_conflict() {
    let now = fixed_now();
    let mut service = OverrunWarningService::new(now);

    let first = service
        .evaluate_orders(flight_chain_for("fl-1", now - 10 * MINUTE, now + 5 * MINUTE))
        .unwrap();
    assert!(first[0].notify);
    assert_eq!(service.list_unresolved(None).len(), 1);

    let mut orders = flight_chain_for("fl-1", now - 10 * MINUTE, now + 5 * MINUTE);
    orders[1].status = OrderStatus::Cancelled;

    let summary = service.scan_once(orders).unwrap();
    assert_eq!(summary.auto_resolved, 1);
    assert_eq!(summary.active_alerts, 0);
    assert!(service.list_unresolved(None).is_empty());
}
