use fms_dispatch::assignment::{AssignedMember, AssigneeFields, AssignmentPayload};
use fms_dispatch::mobile_sync::{MobileCommand, MobileSyncTally};
use fms_dispatch::model::{AssigneeType, CrewMemberPayload, DispatchError, EquipmentAssignment, LockLevel, MemberRole, OrderStatus};
use fms_dispatch::rules::{DispatchService, IssueSeverity};

fn payload() -> AssignmentPayload {
    AssignmentPayload {
        assignee_type: None,
        team_id: None,
        team_name: None,
        individual_user_id: None,
        individual_username: None,
        driver_type: None,
        driver_team_id: None,
        driver_user_id: None,
        department_rule_version: None,
        availability_reason: None,
        lock_level: None,
        equipment_assignment: None,
        equipment_ids: None,
        crew_members: None,
        member_user_ids: None,
    }
}

fn item(equipment: Option<&str>, driver: Option<&str>) -> EquipmentAssignment {
    EquipmentAssignment {
        text: None,
        has_equipment_id: equipment.is_some(),
        equipment_id: equipment.map(str::to_string),
        id: None,
        slot_code: None,
        driver_user_id: driver.map(str::to_string),
    }
}

fn crew(user: Option<&str>, slot: Option<&str>, team: Option<&str>) -> CrewMemberPayload {
    CrewMemberPayload {
        user_id: user.map(str::to_string),
        slot_code: slot.map(str::to_string),
        source_team_id: team.map(str::to_string),
        qualification_code: Some("q".to_string()),
        qualification_level_code: None,
        username: Some("name".to_string()),
    }
}

fn texts(v: &[Option<&str>]) -> Option<Vec<Option<String>>> {
    Some(v.iter().map(|x| x.map(str::to_string)).collect())
}

#[test]
fn assignment_equipment_prefers_the_equipment_list() {
    let mut a = payload();
    a.equipment_assignment = Some(vec![item(Some(" e1 "), None), item(Some("  "), None), item(None, None)]);
    a.equipment_ids = texts(&[Some("x")]);
    assert_eq!(DispatchService::assignment_equipment_ids(&a), vec!["e1"]);
    a.equipment_assignment = Some(vec![item(Some(" "), None)]);
    assert_eq!(DispatchService::assignment_equipment_ids(&a), vec!["x"]);
    a.equipment_ids = None;
    assert!(DispatchService::assignment_equipment_ids(&a).is_empty());
}

#[test]
fn assignment_members_prefer_the_crew() {
    let mut a = payload();
    a.crew_members = Some(vec![crew(Some(" u2 "), None, None), crew(None, None, None)]);
    a.member_user_ids = texts(&[Some("m1")]);
    assert_eq!(DispatchService::assignment_member_user_ids(&a), vec!["u2"]);
    a.crew_members = Some(vec![crew(Some(""), None, None)]);
    assert_eq!(DispatchService::assignment_member_user_ids(&a), vec!["m1"]);
}

#[test]
fn driver_binding_falls_back_to_the_equipment_driver() {
    let mut a = payload();
    a.equipment_assignment = Some(vec![item(Some("e1"), Some("  ")), item(Some("e2"), Some(" d2 "))]);
    let (kind, team, user) = DispatchService::assignment_driver_binding(&a);
    assert_eq!(kind, Some(AssigneeType::Individual));
    assert_eq!(team, None);
    assert_eq!(user.as_deref(), Some("d2"));
    a.driver_type = Some(" team ".to_string());
    a.driver_team_id = Some(" t ".to_string());
    a.driver_user_id = Some("u".to_string());
    let (kind, team, user) = DispatchService::assignment_driver_binding(&a);
    assert_eq!(kind, Some(AssigneeType::Team));
    assert_eq!(team.as_deref(), Some("t"));
    assert_eq!(user.as_deref(), Some("u"));
    assert_eq!(DispatchService::assignment_driver_binding(&payload()), (None, None, None));
}

#[test]
fn members_from_crew_members_names_or_individual() {
    let mut a = payload();
    a.assignee_type = Some("individual".to_string());
    a.team_id = Some(" tf ".to_string());
    a.crew_members = Some(vec![crew(Some(" u1 "), Some(" lead "), None), crew(Some("u2"), Some("x"), Some(" t2 ")), crew(None, None, None)]);
    let m = DispatchService::build_dispatch_members_from_assignment(&a);
    assert_eq!(m.len(), 2);
    assert_eq!(m[0].user_id, "u1");
    assert_eq!(m[0].role, MemberRole::Leader);
    assert_eq!(m[0].source_type, AssigneeType::Individual);
    assert_eq!(m[0].source_team_id.as_deref(), Some("tf"));
    assert_eq!(m[0].slot_code.as_deref(), Some("lead"));
    assert_eq!(m[0].qualification_code.as_deref(), Some("q"));
    assert_eq!(m[1].source_team_id.as_deref(), Some("t2"));
    assert_eq!(m[1].role, MemberRole::Member);

    let mut b = payload();
    b.member_user_ids = texts(&[Some(" m1 "), None]);
    let m = DispatchService::build_dispatch_members_from_assignment(&b);
    assert_eq!(m.len(), 1);
    assert_eq!(m[0].user_id, "m1");
    assert_eq!(m[0].source_type, AssigneeType::Team);
    assert_eq!(m[0].slot_code, None);

    let mut c = payload();
    c.individual_user_id = Some(" p ".to_string());
    c.individual_username = Some(" P ".to_string());
    let m = DispatchService::build_dispatch_members_from_assignment(&c);
    assert_eq!(m.len(), 1);
    assert_eq!(m[0].slot_code.as_deref(), Some("primary"));
    assert_eq!(m[0].username.as_deref(), Some("P"));
    assert!(DispatchService::build_dispatch_members_from_assignment(&payload()).is_empty());
}

fn desired(user: &str, slot: &str) -> AssignedMember {
    AssignedMember {
        user_id: user.to_string(),
        role: MemberRole::Member,
        source_type: AssigneeType::Team,
        source_team_id: None,
        slot_code: Some(slot.to_string()),
        qualification_code: None,
        qualification_level_code: None,
        username: None,
    }
}

#[test]
fn member_sync_updates_deactivates_and_adds() {
    let existing = vec!["a".to_string(), "b".to_string(), "a".to_string()];
    let wanted = vec![desired("a", "s1"), desired("c", "s2"), desired("a", "s3"), desired("c", "s4"), desired("d", "s5")];
    let plan = DispatchService::plan_member_sync(&existing, &wanted);
    assert_eq!(plan.updates, vec![Some(2), None, Some(2)]);
    assert_eq!(plan.inserts, vec![3, 4]);
}

#[test]
fn law_member_sync_reaches_desired_crew_on_values() {
    let existing = vec!["x".to_string(), "y".to_string()];
    let wanted = vec![desired("y", "s"), desired("z", "s")];
    let plan = DispatchService::plan_member_sync(&existing, &wanted);
    let mut active: Vec<String> = existing
        .iter()
        .zip(plan.updates.iter())
        .filter(|(_, u)| u.is_some())
        .map(|(e, _)| e.clone())
        .collect();
    active.extend(plan.inserts.iter().map(|&d| wanted[d].user_id.clone()));
    active.sort();
    assert_eq!(active, vec!["y", "z"]);
}

fn fields() -> AssigneeFields {
    AssigneeFields {
        assignee_type: AssigneeType::Team,
        team_id: Some("old-team".to_string()),
        team_name: Some("Old".to_string()),
        individual_user_id: None,
        individual_username: None,
        driver_type: None,
        driver_team_id: None,
        driver_user_id: None,
        department_rule_version: Some("v0".to_string()),
        availability_reason: None,
        lock_level: LockLevel::Frozen,
    }
}

#[test]
fn applying_an_assignment_rewrites_the_assignee() {
    let mut f = fields();
    let mut a = payload();
    a.assignee_type = Some(" individual ".to_string());
    a.individual_user_id = Some(" u1".to_string());
    a.lock_level = Some(" manual_lock ".to_string());
    a.department_rule_version = Some("  ".to_string());
    a.availability_reason = Some(" ok ".to_string());
    DispatchService::apply_assignment_json(&mut f, &a);
    assert_eq!(f.assignee_type, AssigneeType::Individual);
    assert_eq!(f.individual_user_id.as_deref(), Some(" u1"));
    assert_eq!(f.team_id, None);
    assert_eq!(f.team_name, None);
    assert_eq!(f.lock_level, LockLevel::ManualLock);
    assert_eq!(f.department_rule_version, None);
    assert_eq!(f.availability_reason.as_deref(), Some(" ok "));

    let mut g = fields();
    let mut b = payload();
    b.assignee_type = Some("crew".to_string());
    b.lock_level = Some("whatever".to_string());
    DispatchService::apply_assignment_json(&mut g, &b);
    assert_eq!(g.assignee_type, AssigneeType::Team);
    assert_eq!(g.team_id.as_deref(), Some("old-team"));
    assert_eq!(g.lock_level, LockLevel::Optimizable);

    let mut h = fields();
    DispatchService::apply_assignment_json(&mut h, &payload());
    assert_eq!(h.lock_level, LockLevel::Frozen);
}

#[test]
fn mobile_commands_and_log_names() {
    assert_eq!(DispatchService::mobile_command("checkout"), Some(MobileCommand::Checkout));
    assert_eq!(DispatchService::mobile_command("report_issue"), Some(MobileCommand::ReportIssue));
    assert_eq!(DispatchService::mobile_command("dance"), None);
    assert_eq!(DispatchService::mobile_action_log("accept"), "accepted");
    assert_eq!(DispatchService::mobile_action_log("eta_report"), "estimated_completion_reported");
    assert_eq!(DispatchService::mobile_action_log("checkin"), "checkin");
    assert_eq!(DispatchService::mobile_action_log("dance"), "dance");
    match DispatchService::unsupported_mobile_action("dance") {
        DispatchError::BusinessRuleViolation(m) => assert_eq!(m, "不支持的动作类型: dance"),
        _ => panic!("expected a rule violation"),
    }
}

#[test]
fn mobile_tally_counts_each_outcome_once() {
    let mut t = MobileSyncTally::new(3);
    t.record_duplicate("c1", "o1", "start");
    t.record_applied("c2", "o1", "complete");
    t.record_failed("c3", "o2", "dance", "不支持的动作类型: dance".to_string());
    assert_eq!((t.total, t.applied, t.duplicates, t.failed), (3, 1, 1, 1));
    assert_eq!(t.results.len(), 3);
    assert_eq!(t.results[0].status, "duplicate");
    assert_eq!(t.results[0].message, "重复动作已忽略");
    assert_eq!(t.results[1].message, "补传成功");
    assert_eq!(t.results[2].status, "failed");
    assert_eq!(t.results[2].dispatch_order_id, "o2");
}

#[test]
fn action_timestamps_fall_back_to_the_action_time() {
    assert_eq!(DispatchService::parse_action_timestamp(Some("2026-08-08T10:00:00Z"), Some("2026-08-08T11:00:00Z")), Some(1786183200));
    assert_eq!(DispatchService::parse_action_timestamp(Some("soon"), Some("2026-08-08T11:00:00+01:00")), Some(1786183200));
    assert_eq!(DispatchService::parse_action_timestamp(None, Some("bad")), None);
}

#[test]
fn planned_window_must_end_after_start() {
    assert!(DispatchService::check_planned_window(Some(10), Some(11)).is_ok());
    assert!(DispatchService::check_planned_window(None, Some(1)).is_ok());
    match DispatchService::check_planned_window(Some(10), Some(10)) {
        Err(DispatchError::ValidationError(m)) => assert_eq!(m, "planned_end_time 必须晚于 planned_start_time"),
        _ => panic!("expected a validation error"),
    }
}

#[test]
fn new_order_assignment_defaults_and_checks() {
    let a = DispatchService::plan_new_order_assignment(None, None, Some(" u1 ".to_string()), false, false, " ", "", " ", "actor").unwrap();
    assert_eq!(a.assignee_type, AssigneeType::Individual);
    assert_eq!(a.individual_user_id.as_deref(), Some("u1"));
    assert_eq!(a.publication_state, "published");
    assert_eq!(a.source_type, "manual");
    assert_eq!(a.leg_scope, "none");
    assert_eq!(a.status, OrderStatus::Assigned);
    assert_eq!(a.dispatched_by.as_deref(), Some("actor"));
    assert!(!a.prepare_for_optimization);

    let b = DispatchService::plan_new_order_assignment(Some("team"), None, None, false, false, "published", "generated", "inbound", "x").unwrap();
    assert_eq!(b.status, OrderStatus::Pending);
    assert!(b.prepare_for_optimization);
    assert_eq!(b.dispatched_by, None);
    assert_eq!(b.source_type, "generated");

    let c = DispatchService::plan_new_order_assignment(None, None, None, true, true, " prepublished ", "", "", "x").unwrap();
    assert_eq!(c.status, OrderStatus::Pending);
    assert_eq!(c.lock_level, LockLevel::ManualLock);
    assert_eq!(c.publication_state, "prepublished");
    assert!(!c.prepare_for_optimization);

    match DispatchService::plan_new_order_assignment(Some("team"), Some("  ".to_string()), Some("u".to_string()), false, false, "", "", "", "x") {
        Err(DispatchError::ValidationError(m)) => assert_eq!(m, "班组派工必须提供 team_id"),
        _ => panic!("expected a validation error"),
    }
    match DispatchService::plan_new_order_assignment(Some(" individual "), Some("t".to_string()), None, false, false, "", "", "", "x") {
        Err(DispatchError::ValidationError(m)) => assert_eq!(m, "个人派工必须提供 individual_user_id"),
        _ => panic!("expected a validation error"),
    }
}

#[test]
fn issue_reports_need_a_mode_and_some_content() {
    assert!(DispatchService::validate_issue_request(" PHOTO ", None, None, None, Some(1), None).is_ok());
    assert!(DispatchService::validate_issue_request("text", Some(" t "), None, None, None, None).is_ok());
    assert!(DispatchService::validate_issue_request("voice", None, None, None, Some(0), Some(" v1 ")).is_ok());
    match DispatchService::validate_issue_request("video", Some("t"), None, None, None, None) {
        Err(DispatchError::ValidationError(m)) => assert_eq!(m, "input_mode 必须是 text/photo/voice 之一"),
        _ => panic!("expected a validation error"),
    }
    match DispatchService::validate_issue_request("text", Some(" "), Some(""), None, Some(0), Some(" ")) {
        Err(DispatchError::ValidationError(m)) => assert_eq!(m, "至少提供文本、附件或语音首报之一"),
        _ => panic!("expected a validation error"),
    }
    assert_eq!(DispatchService::issue_input_mode(" Voice "), "voice");
    assert_eq!(DispatchService::resolve_issue_title("T".to_string(), Some("d"), None, "text"), "T");
    assert_eq!(DispatchService::resolve_issue_title(String::new(), Some(" d "), Some("n"), "text"), "d");
    assert_eq!(DispatchService::resolve_issue_title(String::new(), Some(" "), Some(" n "), "text"), "n");
    assert_eq!(DispatchService::resolve_issue_title(String::new(), None, None, "photo"), "现场图片异常首报");
    assert_eq!(DispatchService::resolve_issue_title(String::new(), None, None, "voice"), "现场语音异常首报");
    assert_eq!(DispatchService::resolve_issue_title(String::new(), None, None, "text"), "现场异常首报");
    assert_eq!(DispatchService::issue_severity_value(IssueSeverity::High), "high");
    assert_eq!(DispatchService::issue_notification_level(IssueSeverity::Critical), Some(("critical", true)));
    assert_eq!(DispatchService::issue_notification_level(IssueSeverity::High), Some(("warning", false)));
    assert_eq!(DispatchService::issue_notification_level(IssueSeverity::Low), None);
    assert_eq!(
        DispatchService::issue_notification_message("o1", "漏油", "critical"),
        "Dispatch order o1 reported issue: 漏油. Severity: critical."
    );
}

#[test]
fn eta_reports_need_a_running_order_and_a_later_time() {
    assert!(DispatchService::eta_report_status_check(OrderStatus::InProgress).is_ok());
    match DispatchService::eta_report_status_check(OrderStatus::Assigned) {
        Err(DispatchError::BusinessRuleViolation(m)) => assert_eq!(m, "仅作业中派工单可回报预计完成时间，当前状态: Assigned"),
        _ => panic!("expected a rule violation"),
    }
    assert!(DispatchService::eta_not_before_start(Some(100), 100).is_ok());
    assert!(DispatchService::eta_not_before_start(None, 5).is_ok());
    match DispatchService::eta_not_before_start(Some(100), 99) {
        Err(DispatchError::BusinessRuleViolation(m)) => assert_eq!(m, "estimated_completion_time 不能早于 actual_start_time"),
        _ => panic!("expected a rule violation"),
    }
}
