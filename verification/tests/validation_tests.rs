use fms_dispatch::model::{AssigneeType, DispatchOrder, LockLevel, MemberRole, OrderMember, OrderStatus, TaskCrew};
use fms_dispatch::rules::DispatchService;
use fms_dispatch::validation::{EquipmentConflictRow, OrderConflict};

/// 2026-08-08T10:00:00Z.
const TEN: i64 = 1786183200;

fn order(id: &str, status: OrderStatus, start: i64, end: i64) -> DispatchOrder {
    DispatchOrder {
        id: id.to_string(),
        flight_id: "fl-1".to_string(),
        task_type: "boarding".to_string(),
        status,
        publication_state: "published".to_string(),
        assignee_type: AssigneeType::Team,
        individual_user_id: None,
        team_id: None,
        team_name: None,
        individual_username: None,
        stand_code: None,
        stand_id: None,
        department_id: None,
        leg_scope: "outbound".to_string(),
        lock_level: LockLevel::Optimizable,
        planned_start_time: Some(start),
        planned_end_time: Some(end),
        actual_start_time: None,
        actual_end_time: None,
        estimated_completion_time: None,
        dispatched_at: None,
        created_at: None,
        assignment_deadline: None,
        completion_warning_lead_minutes: None,
        members: Vec::new(),
        task_crew: TaskCrew { members: None, first_source_team_id: None },
        dispatched_by: None,
        equipment_ids: Vec::new(),
        equipment_assignment: Vec::new(),
        crew_requirement_snapshot: Vec::new(),
        equipment_requirement_snapshot: Vec::new(),
        equipment_gap_count: 0,
    }
}

fn conflict(kind: &str, severity: &str, resource: Option<&str>, related: Option<&str>, message: &str) -> OrderConflict {
    OrderConflict {
        conflict_type: kind.to_string(),
        severity: severity.to_string(),
        resource_id: resource.map(str::to_string),
        resource_name: None,
        related_dispatch_order_id: related.map(str::to_string),
        message: message.to_string(),
        suggested_action: None,
        conflict_order_status: None,
        matched_user_ids: None,
    }
}

fn kinds(cs: &[OrderConflict]) -> Vec<String> {
    cs.iter().map(|c| c.conflict_type.clone()).collect()
}

#[test]
fn an_empty_window_is_the_only_problem_reported() {
    let busy = vec![order("o1", OrderStatus::Assigned, TEN, TEN + 600)];
    let r = DispatchService::validate_order(TEN, TEN, None, Some("t1"), None, None, &Vec::new(), &busy, &Vec::new());
    assert!(!r.valid);
    assert!(!r.has_conflicts);
    assert!(r.conflicts.is_empty());
    assert_eq!(r.errors.len(), 1);
    assert_eq!(r.errors[0].field, "planned_end_time");
    assert_eq!(r.errors[0].message, "planned_end_time 必须晚于 planned_start_time");
}

#[test]
fn team_person_and_stand_overlaps_are_reported_most_severe_first() {
    let mut a = order("o1", OrderStatus::InProgress, TEN, TEN + 1800);
    a.team_id = Some("t1".to_string());
    a.team_name = Some("Ramp A".to_string());
    a.stand_id = Some("S1".to_string());
    a.stand_code = Some("101".to_string());
    a.members = vec![OrderMember {
        user_id: " u1 ".to_string(),
        is_active: true,
        role: MemberRole::Member,
        slot_code: None,
        check_in_time: None,
        check_out_time: None,
    }];
    let far = order("o2", OrderStatus::Assigned, TEN + 7200, TEN + 9000);
    let mut replaced = order("o3", OrderStatus::Assigned, TEN, TEN + 600);
    replaced.team_id = Some("t1".to_string());
    let orders = vec![a, far, replaced];
    let r = DispatchService::validate_order(
        TEN + 600,
        TEN + 1200,
        Some(" o3 "),
        Some(" t1 "),
        Some("u1"),
        Some("S1"),
        &vec![" ".to_string()],
        &orders,
        &vec![EquipmentConflictRow { equipment_id: Some("e1".to_string()), dispatch_order_id: Some("o9".to_string()) }],
    );
    assert!(!r.valid);
    assert!(r.has_conflicts);
    assert_eq!(kinds(&r.conflicts), vec!["individual_overlap", "team_overlap", "stand_overlap"]);
    let person = &r.conflicts[0];
    assert_eq!(person.conflict_order_status.as_deref(), Some("inprogress"));
    assert_eq!(person.matched_user_ids, Some(vec!["u1".to_string()]));
    let team = &r.conflicts[1];
    assert_eq!(team.resource_id.as_deref(), Some("t1"));
    assert_eq!(team.resource_name.as_deref(), Some("Ramp A"));
    assert_eq!(team.conflict_order_status.as_deref(), Some("in_progress"));
    assert_eq!(team.message, "班组在目标时间段已被占用");
    assert_eq!(r.conflicts[2].severity, "medium");
    assert_eq!(r.conflicts[2].resource_name.as_deref(), Some("101"));
    assert_eq!(r.errors.len(), 3);
    assert_eq!(r.errors[0].field, "time_window");
    assert_eq!(r.errors[0].conflict_order_id.as_deref(), Some("o1"));
    assert_eq!(r.errors[0].conflict_type.as_deref(), Some("individual_overlap"));
    assert_eq!(r.errors[2].severity.as_deref(), Some("medium"));
}

#[test]
fn requested_equipment_bookings_are_conflicts() {
    let rows = vec![
        EquipmentConflictRow { equipment_id: Some("e1".to_string()), dispatch_order_id: Some("o9".to_string()) },
        EquipmentConflictRow { equipment_id: Some("e1".to_string()), dispatch_order_id: Some("o9".to_string()) },
        EquipmentConflictRow { equipment_id: Some("e2".to_string()), dispatch_order_id: Some(String::new()) },
    ];
    let r = DispatchService::validate_order(TEN, TEN + 60, None, None, None, None, &vec![" e1 ".to_string()], &Vec::new(), &rows);
    assert_eq!(r.conflicts.len(), 2);
    assert_eq!(r.conflicts[0].resource_id.as_deref(), Some("e1"));
    assert_eq!(r.conflicts[1].related_dispatch_order_id, None);
    assert_eq!(r.errors[1].conflict_order_id, None);
    assert_eq!(r.errors[0].message, "设备在目标时间段已被占用");
    let clean = DispatchService::validate_order(TEN, TEN + 60, None, None, None, None, &Vec::new(), &Vec::new(), &Vec::new());
    assert!(clean.valid);
    assert!(!clean.has_conflicts);
    assert_eq!(
        DispatchService::requested_equipment_ids(&vec![" a ".to_string(), "".to_string(), "b".to_string()]),
        vec!["a".to_string(), "b".to_string()]
    );
}

#[test]
fn the_most_severe_of_equal_conflicts_is_kept_and_ordered() {
    let items = vec![
        conflict("stand_overlap", "medium", Some("S1"), Some("o1"), "first"),
        conflict("team_overlap", "high", Some("t1"), Some("o1"), "team"),
        conflict("stand_overlap", "critical", Some("S1"), Some("o1"), "second"),
        conflict("stand_overlap", "critical", Some("S1"), Some("o1"), "third"),
        conflict("equipment_overlap", "high", None, None, "equipment"),
        conflict("equipment_overlap", "high", Some(""), Some(""), "same equipment"),
    ];
    let r = DispatchService::deduplicate_conflicts(&items);
    let messages: Vec<&str> = r.iter().map(|c| c.message.as_str()).collect();
    assert_eq!(messages, vec!["second", "equipment", "team"]);
}

#[test]
fn a_later_estimate_suggests_moving_the_orders_it_now_overlaps() {
    let mut reporting = order("o1", OrderStatus::InProgress, TEN, TEN + 1800);
    reporting.actual_start_time = Some(TEN);
    reporting.individual_user_id = Some("u1".to_string());
    reporting.stand_id = Some("S1".to_string());
    let w = DispatchService::eta_report_window(&reporting, TEN + 3600, TEN + 600);
    assert_eq!(w.horizon_start, TEN);
    assert_eq!(w.search_end, TEN + 7200);
    assert_eq!(w.current_start, TEN);
    assert_eq!(w.current_end, TEN + 3600);

    let mut later = order("c1", OrderStatus::Assigned, TEN + 2400, TEN + 4200);
    later.individual_user_id = Some("u1".to_string());
    let s = DispatchService::eta_shift_suggestion(&reporting, &later, w.horizon_start, w.current_start, w.current_end)
        .expect("affected");
    assert_eq!(s.dispatch_order_id, "c1");
    assert_eq!(s.related_dispatch_order_id, "o1");
    assert_eq!(s.suggestion_type, "shift_later");
    assert_eq!((s.suggested_start, s.suggested_end), (TEN + 3900, TEN + 5700));
    assert_eq!(s.overlap_seconds, 1200);
    assert_eq!(s.reason, "ETA 延长后与 o1 发生执行人重叠");
    assert_eq!(s.conflict_types, vec!["individual_overlap".to_string()]);
    assert_eq!(s.original_start_time, "2026-08-08T10:40:00+00:00");

    let mut earlier = order("c2", OrderStatus::Pending, TEN - 600, TEN + 300);
    earlier.stand_id = Some("S1".to_string());
    let s = DispatchService::eta_shift_suggestion(&reporting, &earlier, w.horizon_start, w.current_start, w.current_end)
        .expect("affected");
    assert_eq!(s.suggestion_type, "shift_earlier");
    assert_eq!((s.suggested_start, s.suggested_end), (TEN - 1200, TEN - 300));
    assert_eq!(s.overlap_seconds, 300);

    let mut done = order("c3", OrderStatus::Completed, TEN + 2400, TEN + 4200);
    done.individual_user_id = Some("u1".to_string());
    assert!(DispatchService::eta_shift_suggestion(&reporting, &done, TEN, TEN, TEN + 3600).is_none());
    let same = order("o1", OrderStatus::Assigned, TEN + 2400, TEN + 4200);
    assert!(DispatchService::eta_shift_suggestion(&reporting, &same, TEN, TEN, TEN + 3600).is_none());
    let unrelated = order("c5", OrderStatus::Assigned, TEN + 2400, TEN + 4200);
    assert!(DispatchService::eta_shift_suggestion(&reporting, &unrelated, TEN, TEN, TEN + 3600).is_none());
}

#[test]
fn the_workbench_counts_orders_by_status_and_lists_a_bounded_number() {
    let orders = vec![
        order("a", OrderStatus::Pending, TEN, TEN + 60),
        order("b", OrderStatus::InProgress, TEN, TEN + 60),
        order("c", OrderStatus::InProgress, TEN, TEN + 60),
        order("d", OrderStatus::Cancelled, TEN, TEN + 60),
    ];
    let c = DispatchService::workbench_counts(&orders);
    assert_eq!((c.pending, c.assigned, c.in_progress, c.completed, c.cancelled, c.total), (1, 0, 2, 0, 1, 4));
    assert_eq!(DispatchService::workbench_shown(4, 0), 1);
    assert_eq!(DispatchService::workbench_shown(4, 3), 3);
    assert_eq!(DispatchService::workbench_shown(4, 50), 4);
    assert_eq!(DispatchService::workbench_shown(0, 0), 0);
}

#[test]
fn the_event_feed_shows_the_latest_orders_first() {
    let mut started = order("a", OrderStatus::InProgress, TEN, TEN + 60);
    started.actual_start_time = Some(TEN + 120);
    let mut unplanned = order("b", OrderStatus::Completed, TEN, TEN + 60);
    unplanned.planned_start_time = None;
    unplanned.created_at = Some(TEN - 500);
    let waiting = order("c", OrderStatus::Assigned, TEN + 60, TEN + 600);
    let same_time = order("d", OrderStatus::Pending, TEN + 60, TEN + 600);
    let orders = vec![started, unplanned, waiting, same_time];
    let feed = DispatchService::event_feed(&orders, TEN, 3);
    let positions: Vec<usize> = feed.events.iter().map(|e| e.position).collect();
    assert_eq!(positions, vec![0, 2, 3]);
    assert_eq!(feed.events[0].severity, "warning");
    assert_eq!(feed.events[0].occurred_at, TEN + 120);
    assert_eq!(feed.events[0].occurred_at_text, "2026-08-08T10:02:00+00:00");
    assert_eq!((feed.critical_count, feed.warning_count, feed.info_count), (2, 1, 0));
    let all = DispatchService::event_feed(&orders, TEN, 10);
    assert_eq!(all.events[3].position, 1);
    assert_eq!(all.events[3].severity, "info");
    assert_eq!(all.info_count, 1);
}

fn crew_order(id: &str, user: Option<&str>, stand: Option<&str>, start: i64, end: i64) -> DispatchOrder {
    let mut o = order(id, OrderStatus::Assigned, start, end);
    o.flight_id = format!("fl-{id}");
    if let Some(u) = user {
        o.members = vec![OrderMember {
            user_id: u.to_string(),
            is_active: true,
            role: MemberRole::Member,
            slot_code: None,
            check_in_time: None,
            check_out_time: None,
        }];
    }
    o.stand_id = stand.map(str::to_string);
    o
}

#[test]
fn replanning_delays_orders_that_follow_too_closely() {
    let orders = vec![
        crew_order("A", Some("u1"), None, TEN, TEN + 1800),
        crew_order("B", Some("u1"), None, TEN + 1200, TEN + 2400),
        crew_order("C", None, Some("S1"), TEN, TEN + 600),
        crew_order("D", None, Some(" S1 "), TEN + 300, TEN + 900),
    ];
    let r = DispatchService::replan_suggestions(&orders, "balanced", 20, None, TEN);
    let ids: Vec<&str> = r.iter().map(|s| s.dispatch_order_id.as_str()).collect();
    assert_eq!(ids, vec!["D", "B"]);
    assert_eq!((r[0].suggested_start, r[0].suggested_end, r[0].delay_seconds), (TEN + 900, TEN + 1500, 600));
    assert_eq!(r[0].related_dispatch_order_id, "C");
    assert_eq!((r[1].suggested_start, r[1].suggested_end, r[1].delay_seconds), (TEN + 2100, TEN + 3300, 900));

    let stable = DispatchService::replan_suggestions(&orders, "stability", 20, None, TEN);
    assert_eq!(stable[1].suggested_start, TEN + 2400);
    let tight = DispatchService::replan_suggestions(&orders, "efficiency", 1, None, TEN);
    assert_eq!(tight.len(), 1);
    assert_eq!((tight[0].dispatch_order_id.as_str(), tight[0].delay_seconds), ("D", 300));

    let only_a = vec!["A".to_string()];
    let pair = vec![
        crew_order("A", Some("u1"), None, TEN, TEN + 1800),
        crew_order("B", Some("u1"), None, TEN + 1200, TEN + 2400),
    ];
    let moved = DispatchService::replan_suggestions(&pair, "balanced", 20, Some(&only_a), TEN);
    assert_eq!(moved.len(), 1);
    assert_eq!(moved[0].dispatch_order_id, "A");
    assert_eq!((moved[0].suggested_start, moved[0].suggested_end, moved[0].delay_seconds), (TEN + 2700, TEN + 4500, 2700));

    let summary = DispatchService::summarize_replan_suggestions(&r);
    assert_eq!(summary.changed_orders, vec!["B".to_string(), "D".to_string()]);
    assert_eq!(summary.affected_flight_ids, vec!["fl-B".to_string(), "fl-D".to_string()]);
    assert_eq!(summary.delayed_orders, 2);
    assert_eq!(summary.added_delay_minutes, 25);
    assert_eq!(summary.risk_level, "medium");
    assert!(summary.requires_manual_confirmation);
    let none = DispatchService::summarize_replan_suggestions(&Vec::new());
    assert_eq!(none.risk_level, "low");
    assert!(!none.requires_manual_confirmation);
}
