use fms_dispatch::auto_dispatch::contains_text;
use fms_dispatch::crew::{CrewPick, CrewSlot, Grant};
use fms_dispatch::equipment::{EquipmentCandidate, EquipmentSlot};
use fms_dispatch::model::{AssigneeType, DispatchError, DispatchOrder, LockLevel, OrderMember, MemberRole, OrderStatus, TaskCrew};
use fms_dispatch::rules::{users_overlap_window, DispatchService, LevelCoverage, UserBookings};
use fms_dispatch::window_crew::{BaselineSlot, CandidateQualification, WindowCandidate};

fn grant(user: &str, qc: &str, level: &str, team: Option<&str>) -> Grant {
    Grant {
        user_id: user.to_string(),
        qualification_code: qc.to_string(),
        level_code: level.to_string(),
        source_team_id: team.map(str::to_string),
    }
}

fn crew_slot(code: &str, qc: &str, min: Option<&str>, count: Option<i64>) -> CrewSlot {
    CrewSlot {
        is_object: true,
        slot_code: Some(code.to_string()),
        qualification_code: Some(qc.to_string()),
        min_level_code: min.map(str::to_string),
        required_count: count,
        must_be_distinct: None,
        exclusive_group: None,
        remarks: None,
    }
}

fn levels() -> Vec<LevelCoverage> {
    vec![
        LevelCoverage { level_code: "L3".to_string(), covered: vec!["L2".to_string(), "L1".to_string()] },
        LevelCoverage { level_code: "L2".to_string(), covered: vec!["L1".to_string()] },
    ]
}

fn ids(picks: &[CrewPick]) -> Vec<String> {
    picks.iter().map(|p| p.user_id.clone()).collect()
}

#[test]
fn crew_takes_smallest_qualified_free_people_per_slot() {
    let grants = vec![
        grant("u3", "tow", "L2", Some("t1")),
        grant("u1", "tow", "L1", Some("t1")),
        grant("u2", "tow", "L3", Some("t2")),
        grant("u4", "tow", "L2", Some("t2")),
        grant("u5", "push", "L1", None),
        grant("u2", "push", "L1", Some("t9")),
    ];
    let busy = vec!["u4".to_string()];
    let slots = vec![crew_slot(" lead ", "tow", Some("L2"), Some(2)), crew_slot("aux", "push", None, None)];
    let plan = DispatchService::select_preparation_members(&grants, &busy, &levels(), &slots).unwrap();
    // u1 holds only L1, u4 is busy: u2 (L3 covers L2) and u3 (L2) fill the lead slot.
    assert_eq!(ids(&plan.picks[0]), vec!["u2", "u3"]);
    assert_eq!(plan.picks[0][0].slot_code, "lead");
    assert_eq!(plan.picks[0][0].qualification_level_code, "L3");
    // u2 is taken already; u5 fills the push slot.
    assert_eq!(ids(&plan.picks[1]), vec!["u5"]);
    assert!(plan.gaps.is_empty());
    // t1 and t2 once each: the greater identifier wins the tie.
    assert_eq!(plan.dominant_team_id.as_deref(), Some("t2"));
}

#[test]
fn crew_reports_short_slots_as_gaps() {
    let grants = vec![grant("u1", "tow", "L1", Some("t1")), grant("u2", "tow", "L1", Some("t1"))];
    let slots = vec![crew_slot("lead", "tow", None, Some(3)), crew_slot("x", "other", Some(" "), Some(0))];
    let plan = DispatchService::select_preparation_members(&grants, &Vec::new(), &levels(), &slots).unwrap();
    assert_eq!(ids(&plan.picks[0]), vec!["u1", "u2"]);
    assert_eq!(plan.gaps.len(), 2);
    assert_eq!(plan.gaps[0].slot_code, "lead");
    assert_eq!(plan.gaps[0].required_count, 3);
    assert_eq!(plan.gaps[0].assigned_count, 2);
    assert_eq!(plan.gaps[1].qualification_code, "other");
    assert_eq!(plan.gaps[1].min_level_code, None);
    assert_eq!(plan.gaps[1].required_count, 1);
    assert_eq!(plan.gaps[1].assigned_count, 0);
    assert_eq!(plan.dominant_team_id, None);
    assert!(DispatchService::prepared_crew_assignment(&plan).is_none());
}

#[test]
fn crew_without_grants_is_not_planned() {
    let slots = vec![crew_slot("lead", "tow", None, None)];
    assert!(DispatchService::select_preparation_members(&Vec::new(), &Vec::new(), &levels(), &slots).is_none());
}

#[test]
fn crew_skips_non_object_slots() {
    let grants = vec![grant("u1", "tow", "L1", None)];
    let slots = vec![CrewSlot { is_object: false, slot_code: None, qualification_code: None, min_level_code: None, required_count: None, must_be_distinct: None, exclusive_group: None, remarks: None }];
    let plan = DispatchService::select_preparation_members(&grants, &Vec::new(), &levels(), &slots).unwrap();
    assert!(plan.picks[0].is_empty());
    assert!(plan.gaps.is_empty());
    assert_eq!(plan.dominant_team_id, None);
}

#[test]
fn law_crew_never_double_books_on_values() {
    let grants = vec![grant("a", "q", "L1", None), grant("a", "r", "L1", None), grant("b", "r", "L1", None)];
    let busy = vec!["c".to_string()];
    let slots = vec![crew_slot("s1", "q", None, Some(2)), crew_slot("s2", "r", None, Some(2))];
    let plan = DispatchService::select_preparation_members(&grants, &busy, &levels(), &slots).unwrap();
    let all: Vec<String> = plan.picks.iter().flat_map(|b| ids(b)).collect();
    assert_eq!(all, vec!["a", "b"]);
    assert_eq!(plan.gaps.len(), 2);
}

#[test]
fn prepared_assignment_of_single_and_team_crews() {
    let grants = vec![grant("u1", "tow", "L1", Some(" t1 ")), grant("u2", "tow", "L1", Some("  "))];
    let one = DispatchService::select_preparation_members(&grants, &Vec::new(), &levels(), &vec![crew_slot("a", "tow", None, None)]).unwrap();
    let a = DispatchService::prepared_crew_assignment(&one).unwrap();
    assert_eq!(a.assignee_type, AssigneeType::Individual);
    assert_eq!(a.individual_user_id.as_deref(), Some("u1"));
    assert_eq!(a.team_id.as_deref(), Some(" t1 "));
    assert_eq!(a.source_team_ids, vec!["t1"]);
    let two = DispatchService::select_preparation_members(&grants, &Vec::new(), &levels(), &vec![crew_slot("a", "tow", None, Some(2))]).unwrap();
    let b = DispatchService::prepared_crew_assignment(&two).unwrap();
    assert_eq!(b.assignee_type, AssigneeType::Team);
    assert_eq!(b.individual_user_id, None);
    assert_eq!(ids(&b.members), vec!["u1", "u2"]);
    assert_eq!(b.source_team_ids, vec!["t1"]);
}

fn equipment_slot(code: &str, count: Option<i64>, driver: Option<bool>) -> EquipmentSlot {
    EquipmentSlot {
        is_object: true,
        slot_code: Some(code.to_string()),
        equipment_type_id: Some(" tractor ".to_string()),
        equipment_type_code: None,
        required_count: count,
        must_be_distinct: None,
        requires_driver: driver,
        driver_qualification_code: None,
        driver_min_level_code: None,
        remarks: None,
    }
}

fn cand(id: &str) -> EquipmentCandidate {
    EquipmentCandidate { id: id.to_string(), code: format!("C-{id}") }
}

fn pick(user: &str) -> CrewPick {
    CrewPick {
        user_id: user.to_string(),
        source_team_id: None,
        slot_code: "s".to_string(),
        qualification_code: "q".to_string(),
        qualification_level_code: "L1".to_string(),
    }
}

#[test]
fn equipment_takes_first_available_candidates_in_offered_order() {
    let slots = vec![equipment_slot("tug", Some(2), Some(true)), equipment_slot("belt", None, None)];
    let candidates = vec![vec![cand("e3"), cand("e1"), cand("e2")], vec![cand("e1"), cand("e4")]];
    let busy = vec!["e1".to_string()];
    let crew = vec![pick("  "), pick(" d1 ")];
    let plan = DispatchService::assign_equipment_for_publication(&slots, &candidates, &busy, &crew);
    let got: Vec<(String, String, Option<String>)> = plan.picks[0]
        .iter()
        .map(|p| (p.equipment_id.clone(), p.equipment_code.clone(), p.driver_user_id.clone()))
        .collect();
    assert_eq!(got, vec![("e3".to_string(), "C-e3".to_string(), Some("d1".to_string())), ("e2".to_string(), "C-e2".to_string(), Some("d1".to_string()))]);
    assert_eq!(plan.picks[1].len(), 1);
    assert_eq!(plan.picks[1][0].equipment_id, "e4");
    assert_eq!(plan.picks[1][0].driver_user_id, None);
    assert!(plan.gaps.is_empty());
}

#[test]
fn equipment_gap_when_candidates_run_out() {
    let slots = vec![equipment_slot("tug", Some(2), None), equipment_slot("tug2", None, None)];
    let candidates = vec![vec![cand("e1")], vec![cand("e1")]];
    let plan = DispatchService::assign_equipment_for_publication(&slots, &candidates, &Vec::new(), &Vec::new());
    assert_eq!(plan.picks[0].len(), 1);
    assert!(plan.picks[1].is_empty());
    assert_eq!(plan.gaps.len(), 2);
    assert_eq!(plan.gaps[0].equipment_type_id.as_deref(), Some("tractor"));
    assert_eq!(plan.gaps[0].required_count, 2);
    assert_eq!(plan.gaps[0].assigned_count, 1);
    assert_eq!(plan.gaps[1].slot_code, "tug2");
    assert_eq!(plan.gaps[1].assigned_count, 0);
}

#[test]
fn crew_driver_is_first_member_with_identifier() {
    assert_eq!(DispatchService::crew_driver(&vec![pick(" "), pick(" x ")]).as_deref(), Some("x"));
    assert_eq!(DispatchService::crew_driver(&Vec::new()), None);
}

fn window_order(id: &str, status: OrderStatus, lock: LockLevel, start: Option<i64>, end: Option<i64>, crew: &[&str]) -> DispatchOrder {
    DispatchOrder {
        id: id.to_string(),
        flight_id: "fl".to_string(),
        task_type: "tow".to_string(),
        status,
        publication_state: "published".to_string(),
        assignee_type: AssigneeType::Team,
        individual_user_id: None,
        team_id: None,
        team_name: None,
        individual_username: None,
        stand_code: None,
        stand_id: None,
        department_id: None,
        leg_scope: "none".to_string(),
        lock_level: lock,
        planned_start_time: start,
        planned_end_time: end,
        actual_start_time: None,
        actual_end_time: None,
        estimated_completion_time: None,
        dispatched_at: None,
        created_at: None,
        assignment_deadline: None,
        completion_warning_lead_minutes: None,
        members: crew
            .iter()
            .map(|u| OrderMember { user_id: u.to_string(), is_active: true, role: MemberRole::Member, slot_code: None, check_in_time: None, check_out_time: None })
            .collect(),
        task_crew: TaskCrew { members: None, first_source_team_id: None },
        dispatched_by: None,
        equipment_ids: Vec::new(),
        equipment_assignment: Vec::new(),
        crew_requirement_snapshot: Vec::new(),
        equipment_requirement_snapshot: Vec::new(),
        equipment_gap_count: 0,
    }
}

#[test]
fn window_bounds_need_both_ends_in_order() {
    assert_eq!(DispatchService::window_scope_bounds(Some(10), Some(20)).unwrap(), (10, 20));
    match DispatchService::window_scope_bounds(Some(10), None) {
        Err(DispatchError::BusinessRuleViolation(m)) => assert_eq!(m, "window scope 需要 window_start/window_end"),
        _ => panic!("expected a rule violation"),
    }
    match DispatchService::window_scope_bounds(Some(20), Some(20)) {
        Err(DispatchError::BusinessRuleViolation(m)) => assert_eq!(m, "window_end 必须晚于 window_start"),
        _ => panic!("expected a rule violation"),
    }
}

#[test]
fn window_partition_freezes_requested_started_locked_and_imminent_orders() {
    let now = 1_000_000;
    let orders = vec![
        window_order(" o5 ", OrderStatus::Pending, LockLevel::Optimizable, Some(now + 5000), None, &[]),
        window_order("o2", OrderStatus::InProgress, LockLevel::Optimizable, None, None, &[]),
        window_order("  ", OrderStatus::Pending, LockLevel::Frozen, None, None, &[]),
        window_order("o1", OrderStatus::Pending, LockLevel::ManualLock, Some(now + 5000), None, &[]),
        window_order("o4", OrderStatus::Assigned, LockLevel::Active, Some(now + 900), None, &[]),
        window_order("o3", OrderStatus::Pending, LockLevel::Optimizable, Some(now + 901), None, &[]),
        window_order("o6", OrderStatus::Pending, LockLevel::Optimizable, None, None, &[]),
    ];
    let freeze = vec!["o5".to_string(), "  ".to_string()];
    let p = DispatchService::partition_window_orders(&orders, &freeze, now);
    assert_eq!(p.frozen, vec![0, 1, 3, 4]);
    assert_eq!(p.candidates, vec![5, 6]);
    assert_eq!(p.frozen_order_ids, vec!["o1", "o2", "o4", "o5"]);
}

#[test]
fn frozen_bookings_hold_the_intervals_of_frozen_crews() {
    let orders = vec![
        window_order("f1", OrderStatus::InProgress, LockLevel::Optimizable, Some(100), Some(200), &["a", "b"]),
        window_order("f2", OrderStatus::InProgress, LockLevel::Optimizable, Some(300), None, &["a"]),
        window_order("c1", OrderStatus::Pending, LockLevel::Optimizable, Some(100), Some(200), &["z"]),
    ];
    let b = DispatchService::frozen_bookings(&orders, &vec![0, 1], 0);
    assert_eq!(b.len(), 2);
    let a = b.iter().find(|x| x.user_id == "a").unwrap();
    assert_eq!(a.windows, vec![(100, 200), (300, 1200)]);
    assert!(users_overlap_window(&b, "a", 1000, 1300));
    assert!(!users_overlap_window(&b, "b", 200, 300));
    assert!(!users_overlap_window(&b, "z", 0, 10_000));
}

fn wcand(user: &str, team: Option<&str>, quals: &[(&str, Option<&str>, Option<&str>)]) -> WindowCandidate {
    WindowCandidate {
        user_id: user.to_string(),
        source_team_id: team.map(str::to_string),
        qualifications: quals
            .iter()
            .map(|(q, l, t)| CandidateQualification {
                qualification_code: q.to_string(),
                level_code: l.map(str::to_string),
                source_team_id: t.map(str::to_string),
            })
            .collect(),
    }
}

#[test]
fn window_crew_prefers_baseline_then_smallest_free_identifier() {
    let candidates = vec![
        wcand("u1", Some("tm"), &[("tow", Some("L2"), None)]),
        wcand("u2", None, &[("tow", Some("L1"), None), ("tow", Some("L3"), Some("tq"))]),
        wcand("u3", None, &[("tow", Some("L2"), Some("t3"))]),
        wcand("u0", None, &[("tow", None, None)]),
    ];
    let bookings = vec![UserBookings { user_id: "u1".to_string(), windows: vec![(50, 150)] }];
    let baseline = vec![BaselineSlot { slot_code: "tug".to_string(), user_ids: vec!["x".to_string(), "u3".to_string()] }];
    let slots = vec![crew_slot(" tug ", "tow", Some("L2"), Some(2))];
    let picks = DispatchService::assign_window_crew(&candidates, &slots, &baseline, &levels(), &bookings, 100, 200).unwrap();
    // Place 1: baseline "x" is no candidate; u1 is booked, u0 has no level: u2 (its L3 grant) is smallest.
    assert_eq!(picks[0].user_id, "u2");
    assert_eq!(picks[0].slot_code, "tug#1");
    assert_eq!(picks[0].qualification_level_code.as_deref(), Some("L3"));
    assert_eq!(picks[0].source_team_id.as_deref(), Some("tq"));
    // Place 2: baseline u3.
    assert_eq!(picks[1].user_id, "u3");
    assert_eq!(picks[1].slot_code, "tug#2");
    // Outside the booking, u1 takes a single place under the plain code, with its own team.
    let one = DispatchService::assign_window_crew(&candidates, &vec![crew_slot("", "tow", None, None)], &Vec::new(), &levels(), &bookings, 150, 160).unwrap();
    assert_eq!(one[0].user_id, "u0");
    assert_eq!(one[0].slot_code, "slot");
    let again = DispatchService::assign_window_crew(&vec![wcand("u1", Some("tm"), &[("tow", Some("L2"), None)])], &vec![crew_slot("s", "tow", None, None)], &Vec::new(), &levels(), &bookings, 150, 160).unwrap();
    assert_eq!(again[0].source_team_id.as_deref(), Some("tm"));
}

#[test]
fn window_crew_gives_up_when_a_place_stays_open() {
    let candidates = vec![wcand("u1", None, &[("tow", Some("L1"), None)])];
    let slots = vec![crew_slot("tug", "tow", None, Some(2))];
    assert!(DispatchService::assign_window_crew(&candidates, &slots, &Vec::new(), &levels(), &Vec::new(), 0, 10).is_none());
    assert!(DispatchService::assign_window_crew(&candidates, &Vec::new(), &Vec::new(), &levels(), &Vec::new(), 0, 10).is_none());
}

#[test]
fn law_window_crew_respects_frozen_orders_on_values() {
    let orders = vec![window_order("f1", OrderStatus::InProgress, LockLevel::Optimizable, Some(100), Some(200), &["u1"])];
    let bookings = DispatchService::frozen_bookings(&orders, &vec![0], 0);
    let candidates = vec![wcand("u1", None, &[("tow", None, None)]), wcand("u2", None, &[("tow", None, None)])];
    let picks = DispatchService::assign_window_crew(&candidates, &vec![crew_slot("s", "tow", None, None)], &Vec::new(), &levels(), &bookings, 150, 250).unwrap();
    assert_eq!(picks.len(), 1);
    assert_eq!(picks[0].user_id, "u2");
}

#[test]
fn auto_dispatch_end_defaults_to_task_duration() {
    assert_eq!(DispatchService::auto_dispatch_planned_end(1000, Some(5), Some(30)), 5);
    assert_eq!(DispatchService::auto_dispatch_planned_end(1000, None, Some(30)), 2800);
    assert_eq!(DispatchService::auto_dispatch_planned_end(1000, None, None), 1900);
}

#[test]
fn auto_dispatch_failure_alerts() {
    let dep = vec![Some("qualification_crew_unavailable".to_string()), Some("missing_department_rule_context".to_string())];
    let (t, m) = DispatchService::auto_dispatch_failure_alert("F1", "tow", &dep, 0, Some("x"));
    assert_eq!(t, "missing_department_rule_context");
    assert_eq!(m, "航班 F1 作业类型 tow 缺少科室归属，无法执行个人级派工");
    let (t, m) = DispatchService::auto_dispatch_failure_alert("F1", "tow", &vec![Some("missing_published_rule".to_string())], 0, Some("作业类型缺少已发布资质规则"));
    assert_eq!(t, "missing_published_rule");
    assert_eq!(m, "航班 F1 作业类型 tow 缺少已发布资质规则，无法执行个人级派工");
    let (t, _) = DispatchService::auto_dispatch_failure_alert("F1", "tow", &vec![None], 3, Some("当前无法补齐执行编组"));
    assert_eq!(t, "qualification_crew_unavailable");
    let (t, m) = DispatchService::auto_dispatch_failure_alert("F1", "tow", &Vec::new(), 1, Some("当前无法补齐设备分配"));
    assert_eq!(t, "equipment_unavailable");
    assert_eq!(m, "航班 F1 作业类型 tow 无法补齐设备分配");
    let (t, m) = DispatchService::auto_dispatch_failure_alert("F1", "tow", &Vec::new(), 0, None);
    assert_eq!(t, "dispatch_error");
    assert_eq!(m, "航班 F1 作业类型 tow 自动派工失败: 当前无法自动分派");
}

#[test]
fn text_containment() {
    assert!(contains_text("作业类型缺少已发布资质规则", "缺少已发布"));
    assert!(contains_text("abc", ""));
    assert!(!contains_text("ab", "abc"));
    assert!(!contains_text("abcabd", "abe"));
}
