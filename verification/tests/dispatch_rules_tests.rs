use fms_dispatch::actions::{ontology_permission, plan_action, post_commit_hook, ActionPlan, PostCommit};
use fms_dispatch::checklist::{ChecklistRecord, ChecklistTemplate, ChecklistTemplateItem, ItemOrderInput, TemplateItemInput};
use fms_dispatch::executor::{
    action_key, delay_update_arguments, map_ontology_error, optional_string, parse_dt_arg, parse_dt_arg_opt,
    required_string, ActionArgument, ArgValue, DomainActionError, OntologyError,
};
use fms_dispatch::ids::deterministic_issue_anomaly_id;
use fms_dispatch::lifecycle::{CancelPath, CheckoutMember, CheckoutPath, CompletePath, StartPath};
use fms_dispatch::model::{
    AssigneeType, CrewMemberPayload, DispatchError, DispatchOrder, EquipmentAssignment, LockLevel, MemberRole,
    OrderMember, OrderStatus, SlotRequirement, TaskCrew,
};
use fms_dispatch::publication::ensure_publishable_draft_state;
use fms_dispatch::rules::{
    describe_conflict_kinds, effective_interval, eta_conflict_kinds, order_member_user_ids, DispatchService,
    IssueSeverity, TodoPriority,
};

fn order(id: &str, status: OrderStatus) -> DispatchOrder {
    DispatchOrder {
        id: id.to_string(),
        flight_id: "fl-1".to_string(),
        task_type: "boarding".to_string(),
        status,
        publication_state: "published".to_string(),
        assignee_type: AssigneeType::Team,
        individual_user_id: None,
        team_id: None,
        team_name: None,
        individual_username: None,
        stand_code: None,
        stand_id: None,
        department_id: None,
        leg_scope: "outbound".to_string(),
        lock_level: LockLevel::Optimizable,
        planned_start_time: None,
        planned_end_time: None,
        actual_start_time: None,
        actual_end_time: None,
        estimated_completion_time: None,
        dispatched_at: None,
        created_at: None,
        assignment_deadline: None,
        completion_warning_lead_minutes: None,
        members: Vec::new(),
        task_crew: TaskCrew { members: None, first_source_team_id: None },
        dispatched_by: None,
        equipment_ids: Vec::new(),
        equipment_assignment: Vec::new(),
        crew_requirement_snapshot: Vec::new(),
        equipment_requirement_snapshot: Vec::new(),
        equipment_gap_count: 0,
    }
}

fn member(user_id: &str, active: bool, role: MemberRole) -> OrderMember {
    OrderMember { user_id: user_id.to_string(), is_active: active, role, slot_code: None, check_in_time: None, check_out_time: None }
}

fn payload(user: Option<&str>, slot: Option<&str>) -> CrewMemberPayload {
    CrewMemberPayload {
        user_id: user.map(str::to_string),
        slot_code: slot.map(str::to_string),
        source_team_id: None,
        qualification_code: None,
        qualification_level_code: None,
        username: None,
    }
}

fn slot(code: &str, count: Option<i64>) -> SlotRequirement {
    SlotRequirement { is_object: true, slot_code: Some(code.to_string()), required_count: count, requires_driver: None, qualification_code: None, min_level_code: None, equipment_type_id: None, equipment_type_code: None }
}

fn equipment(id: &str, slot: Option<&str>, driver: Option<&str>) -> EquipmentAssignment {
    EquipmentAssignment {
        text: None,
        has_equipment_id: true,
        equipment_id: Some(id.to_string()),
        id: None,
        slot_code: slot.map(str::to_string),
        driver_user_id: driver.map(str::to_string),
    }
}

#[test]
fn normalize_optional_ref_trims_and_drops_blank_values() {
    assert_eq!(DispatchService::normalize_optional_ref(None), None);
    assert_eq!(DispatchService::normalize_optional_ref(Some("")), None);
    assert_eq!(DispatchService::normalize_optional_ref(Some("   ")), None);
    assert_eq!(DispatchService::normalize_optional_ref(Some("  action-1  ")), Some("action-1"));
}

#[test]
fn auto_create_checkin_member_only_for_matching_individual_assignee() {
    assert!(DispatchService::should_auto_create_checkin_member(Some("user-1"), "user-1"));
    assert!(!DispatchService::should_auto_create_checkin_member(Some("user-1"), "user-2"));
    assert!(!DispatchService::should_auto_create_checkin_member(None, "user-1"));
}

#[test]
fn already_started_response_uses_persisted_start_time_when_available() {
    let persisted = 1777277700; // 2026-04-27T08:15:00Z
    let fallback = 1777277760; // 2026-04-27T08:16:00Z
    let r = DispatchService::already_started_response(Some(persisted), fallback);
    assert!(r.success);
    assert_eq!(r.message, "派工单已在执行中");
    assert_eq!(r.actual_start_time, "2026-04-27T08:15:00+00:00");
    assert!(r.compat_alias);
}

#[test]
fn already_completed_response_marks_request_as_idempotent_without_followup() {
    let fallback = 1777282200; // 2026-04-27T09:30:00Z
    let r = DispatchService::already_completed_response(None, fallback);
    assert_eq!(r.message, "派工单已完成");
    assert_eq!(r.actual_end_time, "2026-04-27T09:30:00+00:00");
    assert_eq!(r.completion_mode, "already_completed");
    assert!(!r.followup_required);
    assert_eq!(r.followup_owner_role, None);
    assert_eq!(r.followup_todo_id, None);
    assert!(r.compat_alias);
}

#[test]
fn only_pending_prepublished_orders_can_be_published() {
    ensure_publishable_draft_state("draft-1", OrderStatus::Pending, "prepublished")
        .expect("pending prepublished draft must pass");
    for status in [OrderStatus::Assigned, OrderStatus::InProgress, OrderStatus::Completed, OrderStatus::Cancelled] {
        let error = ensure_publishable_draft_state("terminal-1", status, "prepublished")
            .expect_err("non-pending order must be rejected");
        assert!(matches!(error, DispatchError::BusinessRuleViolation(message) if message.contains("不是待发布草稿")));
    }
    ensure_publishable_draft_state("published-1", OrderStatus::Pending, "published")
        .expect_err("already published order must be rejected");
}

#[test]
fn publishable_draft_error_names_status_and_state() {
    match ensure_publishable_draft_state("d-9", OrderStatus::Assigned, "prepublished") {
        Err(DispatchError::BusinessRuleViolation(m)) => {
            assert_eq!(m, "派工单 d-9 不是待发布草稿，当前状态为 Assigned/prepublished")
        }
        _ => panic!("expected a violation"),
    }
}

#[test]
fn actor_and_publication_gates() {
    assert!(DispatchService::ensure_actor("u1").is_ok());
    assert!(matches!(DispatchService::ensure_actor("  "), Err(DispatchError::Unauthorized(m)) if m == "未登录"));
    let mut o = order("o1", OrderStatus::Assigned);
    assert!(DispatchService::ensure_order_execution_published(&o, "开始执行").is_ok());
    o.publication_state = " prepublished ".to_string();
    assert!(matches!(
        DispatchService::ensure_order_execution_published(&o, "开始执行"),
        Err(DispatchError::BusinessRuleViolation(m)) if m == "预发布工单尚未正式发布，不能开始执行"
    ));
}

#[test]
fn start_and_complete_prechecks_follow_the_status() {
    let o = order("o1", OrderStatus::InProgress);
    assert_eq!(DispatchService::start_order_precheck(&o).unwrap(), StartPath::AlreadyStarted);
    assert_eq!(DispatchService::complete_order_precheck(&o).unwrap(), CompletePath::Proceed);
    let o = order("o1", OrderStatus::Assigned);
    assert_eq!(DispatchService::start_order_precheck(&o).unwrap(), StartPath::Proceed);
    assert!(matches!(
        DispatchService::complete_order_precheck(&o),
        Err(DispatchError::BusinessRuleViolation(m)) if m == "派工单状态不正确，当前状态: Assigned"
    ));
    let o = order("o1", OrderStatus::Pending);
    assert!(matches!(
        DispatchService::start_order_precheck(&o),
        Err(DispatchError::InvalidStateTransition { from, to }) if from == "Pending" && to == "in_progress"
    ));
    let o = order("o1", OrderStatus::Completed);
    assert_eq!(DispatchService::complete_order_precheck(&o).unwrap(), CompletePath::AlreadyCompleted);
    assert!(DispatchService::cancel_precheck(&o).is_err());
    assert_eq!(DispatchService::cancel_precheck(&order("o", OrderStatus::Cancelled)).unwrap(), CancelPath::AlreadyCancelled);
    assert_eq!(DispatchService::cancel_precheck(&order("o", OrderStatus::Pending)).unwrap(), CancelPath::Proceed);
}

#[test]
fn start_requires_acceptance_and_check_in() {
    assert!(matches!(DispatchService::start_readiness(false, Some(Some(1))),
        Err(DispatchError::BusinessRuleViolation(m)) if m == "请先接单再开始执行"));
    assert!(matches!(DispatchService::start_readiness(true, Some(None)),
        Err(DispatchError::BusinessRuleViolation(m)) if m == "请先完成签到再开始执行"));
    assert!(DispatchService::start_readiness(true, None).is_err());
    assert!(DispatchService::start_readiness(true, Some(Some(1))).is_ok());
    assert!(DispatchService::check_completion_time(Some(100), 99).is_err());
    assert!(DispatchService::check_completion_time(Some(100), 100).is_ok());
    assert!(DispatchService::check_completion_time(None, 0).is_ok());
}

#[test]
fn check_in_and_out_decisions() {
    assert!(DispatchService::qr_code_verifies(Some(" dispatch:o1 "), "o1"));
    assert!(DispatchService::qr_code_verifies(Some("dispatch_order:o1"), "o1"));
    assert!(DispatchService::qr_code_verifies(Some("o1"), "o1"));
    assert!(!DispatchService::qr_code_verifies(Some("dispatch:o2"), "o1"));
    assert!(!DispatchService::qr_code_verifies(None, "o1"));
    assert!(DispatchService::check_position_pair(true, false).is_err());
    assert!(DispatchService::check_position_pair(true, true).is_ok());
    assert!(DispatchService::checkin_precheck(&order("o", OrderStatus::Cancelled)).is_err());
    assert!(DispatchService::checkout_precheck(&order("o", OrderStatus::Pending)).is_err());
    assert!(matches!(
        DispatchService::checkout_member_decision("o1", "u1", &CheckoutMember::Missing),
        Err(DispatchError::NotFound { entity_type, id }) if entity_type == "DispatchOrderMember" && id == "o1:u1"
    ));
    assert_eq!(
        DispatchService::checkout_member_decision("o1", "u1", &CheckoutMember::Found { check_in_time: Some(1), check_out_time: Some(2) }).unwrap(),
        CheckoutPath::AlreadyCheckedOut
    );
    assert!(matches!(
        DispatchService::checkout_member_decision("o1", "u1", &CheckoutMember::Found { check_in_time: None, check_out_time: None }),
        Err(DispatchError::ValidationError(m)) if m == "未找到签到记录，无法签退"
    ));
    let mut done = member("a", true, MemberRole::Member);
    done.check_out_time = Some(5);
    assert!(DispatchService::all_members_checked_out(&vec![done]));
    assert!(!DispatchService::all_members_checked_out(&vec![]));
    assert!(!DispatchService::all_members_checked_out(&vec![member("b", true, MemberRole::Member)]));
}

#[test]
fn crew_lists_keep_first_mentions_once() {
    let mut o = order("o1", OrderStatus::Assigned);
    o.individual_user_id = Some(" u1 ".to_string());
    o.members = vec![member("u2", true, MemberRole::Member), member("u1", true, MemberRole::Member), member("u3", false, MemberRole::Member), member("  ", true, MemberRole::Member)];
    o.task_crew.members = Some(vec![payload(Some("u4"), None), payload(Some("u2"), None), payload(None, None)]);
    assert_eq!(order_member_user_ids(&o), vec!["u1", "u2"]);
    assert_eq!(DispatchService::order_member_user_ids(&o), vec!["u1", "u2", "u4"]);
    assert_eq!(DispatchService::collect_publication_recipient_ids(&o), vec!["u1", "u2", "u4"]);
    o.dispatched_by = Some("boss".to_string());
    assert_eq!(DispatchService::collect_notification_recipient_ids(&o, "u1"), vec!["boss"]);
}

#[test]
fn conflict_kinds_and_labels() {
    let mut a = order("a", OrderStatus::Assigned);
    let mut b = order("b", OrderStatus::Assigned);
    a.individual_user_id = Some("u1".to_string());
    b.individual_user_id = Some("u1".to_string());
    a.stand_id = Some("S1".to_string());
    b.stand_id = Some("S1".to_string());
    assert_eq!(eta_conflict_kinds(&a, &b), vec!["individual_overlap", "stand_overlap"]);
    b.individual_user_id = None;
    b.members = vec![member("u1", true, MemberRole::Member)];
    assert_eq!(eta_conflict_kinds(&a, &b), vec!["person_time_overlap", "stand_overlap"]);
    let kinds = vec!["individual_overlap".to_string(), "stand_overlap".to_string(), "other".to_string()];
    assert_eq!(describe_conflict_kinds(&kinds), "执行人重叠/机位窗口重叠/资源冲突");
    assert_eq!(describe_conflict_kinds(&[]), "");
}

#[test]
fn intervals_fall_back_and_never_run_backwards() {
    let mut o = order("o", OrderStatus::Assigned);
    assert_eq!(effective_interval(&o, 1000), (1000, 1000 + 1200));
    o.planned_start_time = Some(5000);
    o.planned_end_time = Some(4000);
    assert_eq!(effective_interval(&o, 1000), (5000, 5000 + 480));
    assert_eq!(DispatchService::effective_interval(&o, 1000), (5000, 5000));
    o.planned_end_time = None;
    assert_eq!(DispatchService::effective_interval(&o, 1000), (5000, 5900));
    assert_eq!(DispatchService::window_task_interval(&o, 1), (5000, 5900));
    assert_eq!(fms_dispatch::rules::normalize_duration(0), 480);
    assert_eq!(fms_dispatch::rules::normalize_duration(30), 30);
}

#[test]
fn issue_fields_are_normalised() {
    assert_eq!(DispatchService::parse_issue_severity(None).unwrap(), IssueSeverity::Medium);
    assert_eq!(DispatchService::parse_issue_severity(Some(" HIGH ")).unwrap(), IssueSeverity::High);
    assert!(matches!(DispatchService::parse_issue_severity(Some("Severe")),
        Err(DispatchError::BusinessRuleViolation(m)) if m == "无效异常级别: severe"));
    assert_eq!(DispatchService::normalize_issue_type(Some(" Gate_Stand_Conflict ")), "gate_stand_conflict");
    assert_eq!(DispatchService::normalize_issue_type(None), "dispatch_issue");
    assert_eq!(DispatchService::normalize_issue_type(Some(&"x".repeat(65))), "dispatch_issue");
    assert_eq!(DispatchService::validate_issue_title(None).unwrap(), "");
    assert_eq!(DispatchService::validate_issue_title(Some("  t  ")).unwrap(), "t");
    assert!(DispatchService::validate_issue_title(Some(&"长".repeat(201))).is_err());
    assert_eq!(DispatchService::severity_rank("critical"), 4);
    assert_eq!(DispatchService::severity_rank("whatever"), 1);
    assert_eq!(DispatchService::parse_todo_priority(" 高 "), TodoPriority::High);
    assert_eq!(DispatchService::parse_todo_priority("nope"), TodoPriority::Medium);
}

#[test]
fn anomaly_identifier_is_deterministic() {
    let a = deterministic_issue_anomaly_id("order-1", "action-1");
    assert_eq!(a, "AI166ce1c740f8fb5f96365af1");
    assert_eq!(a, deterministic_issue_anomaly_id("order-1", "action-1"));
    assert_ne!(a, deterministic_issue_anomaly_id("order-1", "action-2"));
}

#[test]
fn draft_crew_must_fill_each_slot_exactly() {
    let mut o = order("d1", OrderStatus::Pending);
    o.team_id = Some("team-a".to_string());
    assert!(matches!(DispatchService::validate_draft_publication_assignment(&o),
        Err(DispatchError::ValidationError(m)) if m == "发布草稿必须提供 task_crew.members"));
    o.task_crew.members = Some(vec![payload(Some("u1"), Some("lead")), payload(Some(" u1 "), Some("driver"))]);
    assert!(matches!(DispatchService::validate_draft_publication_assignment(&o),
        Err(DispatchError::ValidationError(m)) if m == "人员 u1 被重复分配"));
    o.task_crew.members = Some(vec![payload(Some("u1"), Some("lead")), payload(Some("u2"), None)]);
    assert!(matches!(DispatchService::validate_draft_publication_assignment(&o),
        Err(DispatchError::ValidationError(m)) if m == "人员 u2 缺少 slot_code"));
    o.task_crew.members = Some(vec![payload(Some("u1"), Some("lead")), payload(Some("u2"), Some("lead"))]);
    o.crew_requirement_snapshot = vec![slot("lead", Some(1))];
    assert!(matches!(DispatchService::validate_draft_publication_assignment(&o),
        Err(DispatchError::ValidationError(m)) if m == "人员槽位 lead 需要 1 人，实际 2 人"));
    o.crew_requirement_snapshot = vec![slot("lead", Some(2))];
    let members = DispatchService::validate_draft_publication_assignment(&o).unwrap();
    assert_eq!(members.len(), 2);
    assert_eq!(members[1].user_id, "u2");
    assert_eq!(members[1].source_team_id.as_deref(), Some("team-a"));
}

#[test]
fn draft_equipment_must_fill_each_slot_exactly() {
    let mut o = order("d1", OrderStatus::Pending);
    o.equipment_assignment = vec![equipment("e1", Some("tractor"), None), equipment("e1", Some("tractor"), None)];
    assert!(matches!(DispatchService::validate_draft_publication_equipment(&o),
        Err(DispatchError::ValidationError(m)) if m == "设备 e1 被重复分配"));
    o.equipment_assignment = vec![equipment("e1", Some("tractor"), None)];
    o.equipment_requirement_snapshot = vec![slot("tractor", None), slot("belt", Some(1))];
    assert!(matches!(DispatchService::validate_draft_publication_equipment(&o),
        Err(DispatchError::ValidationError(m)) if m == "设备槽位 belt 需要 1 台，实际 0 台"));
    o.equipment_requirement_snapshot = vec![slot("tractor", None)];
    assert_eq!(DispatchService::validate_draft_publication_equipment(&o).unwrap(), vec!["e1"]);
}

#[test]
fn required_assignments_cover_crew_and_equipment() {
    let mut o = order("o", OrderStatus::Pending);
    assert_eq!(DispatchService::order_has_required_assignments(&o), Err("缺少执行编组".to_string()));
    o.team_id = Some("t".to_string());
    assert!(DispatchService::order_has_required_assignments(&o).is_ok());
    let mut req = slot("tractor", Some(1));
    req.requires_driver = Some(true);
    o.equipment_requirement_snapshot = vec![req];
    assert_eq!(DispatchService::order_has_required_assignments(&o), Err("缺少设备分配".to_string()));
    o.equipment_assignment = vec![equipment("e1", Some(" tractor "), None)];
    assert_eq!(DispatchService::order_has_required_assignments(&o), Err("设备司机需求未完全覆盖".to_string()));
    o.equipment_assignment = vec![equipment("e1", Some("tractor"), Some("d1"))];
    assert!(DispatchService::order_has_required_assignments(&o).is_ok());
    o.equipment_gap_count = 1;
    assert_eq!(DispatchService::order_has_required_assignments(&o), Err("设备需求未完全覆盖".to_string()));
}

fn template_item(code: &str, required: Option<bool>, level: Option<&str>) -> ChecklistTemplateItem {
    ChecklistTemplateItem {
        item_code: Some(code.to_string()),
        title: None,
        required,
        allow_na: None,
        order: None,
        level: level.map(str::to_string),
    }
}

fn record(code: &str, result: Option<&str>) -> ChecklistRecord {
    ChecklistRecord {
        item_code: Some(code.to_string()),
        result: result.map(str::to_string),
        checked_by: None,
        checked_by_username: None,
        checked_at: None,
        note: None,
    }
}

#[test]
fn checklist_gate_counts_required_and_routine_items() {
    let template = ChecklistTemplate {
        template_id: Some("t1".to_string()),
        checklist_version: Some("v1".to_string()),
        items: vec![
            template_item("c1", None, None),
            template_item("c2", None, Some("critical")),
            template_item("r1", Some(true), Some("routine")),
            template_item("o1", Some(false), None),
        ],
    };
    let records = vec![record("c1", Some("fail")), record("c1", Some("pass")), record("r1", Some("na"))];
    let gate = DispatchService::build_checklist_status("o", "boarding", Some(&template), &records).unwrap();
    assert!(gate.enforced);
    assert!(!gate.ready);
    assert_eq!(gate.required_total, 2);
    assert_eq!(gate.completed_required, 1);
    assert_eq!(gate.pending_required_items, vec!["c2"]);
    assert_eq!(gate.blocking_issues, vec!["未检查: c2"]);
    assert_eq!(gate.failed_routine_items, vec!["r1"]);
    assert_eq!(gate.soft_missing_count, 1);
    assert!(!gate.can_soft_complete);
    assert!(DispatchService::checklist_blocks_completion(&gate));
    assert_eq!(gate.items[0].status, "pass");
    assert_eq!(gate.items[3].order, 4);
}

#[test]
fn checklist_without_template_lists_recorded_items() {
    let records = vec![record("b", Some("pass")), record("a", None), record("b", Some("fail"))];
    let gate = DispatchService::build_checklist_status("o", "boarding", None, &records).unwrap();
    assert!(!gate.enforced && gate.ready && gate.can_soft_complete);
    assert_eq!(gate.items.len(), 2);
    assert_eq!(gate.items[0].item_code, "a");
    assert_eq!(gate.items[0].status, "pending");
    assert_eq!(gate.items[1].status, "fail");
    assert_eq!(gate.routine_total, 2);
    assert_eq!(gate.completed_routine, 0);
}

#[test]
fn checklist_template_without_code_is_an_internal_error() {
    let mut item = template_item("x", None, None);
    item.item_code = None;
    let template = ChecklistTemplate { template_id: None, checklist_version: None, items: vec![item] };
    assert!(matches!(DispatchService::build_checklist_status("o", "t", Some(&template), &vec![]),
        Err(DispatchError::Internal(m)) if m == "安全检查模板缺少 item_code"));
}

fn input(code: &str, order: ItemOrderInput, level: Option<&str>) -> TemplateItemInput {
    TemplateItemInput {
        is_object: true,
        item_code: Some(code.to_string()),
        title: None,
        required: None,
        allow_na: None,
        order,
        level: level.map(str::to_string),
    }
}

#[test]
fn template_items_are_normalised_and_sorted() {
    let items = vec![
        input(" b ", ItemOrderInput::Int(2), None),
        input("a", ItemOrderInput::Int(2), Some("routine")),
        input("c", ItemOrderInput::Missing, None),
    ];
    let v = DispatchService::normalize_safety_template_items(&items).unwrap();
    let codes: Vec<&str> = v.iter().map(|i| i.item_code.as_str()).collect();
    assert_eq!(codes, vec!["a", "b", "c"]);
    assert_eq!(v[2].order, 3);
    assert_eq!(v[1].level, "critical");
    assert_eq!(v[1].title, "b");
    assert!(DispatchService::normalize_safety_template_items(&vec![]).is_err());
    let dup = vec![input("a", ItemOrderInput::Null, None), input(" a", ItemOrderInput::Null, None)];
    assert!(DispatchService::normalize_safety_template_items(&dup).is_err());
    let neg = vec![input("a", ItemOrderInput::Int(-1), None)];
    assert!(DispatchService::normalize_safety_template_items(&neg).is_err());
    assert_eq!(DispatchService::normalize_checklist_result(Some(" pass ")).unwrap(), "pass");
    assert!(DispatchService::normalize_checklist_result(Some("ok")).is_err());
    assert!(DispatchService::normalize_checklist_level(Some("critical"), false).is_err());
    assert_eq!(DispatchService::normalize_checklist_level(None, false).unwrap(), "routine");
    assert_eq!(DispatchService::normalize_safety_template_version(" v2 ").unwrap(), "v2");
}

fn args(pairs: Vec<(&str, ArgValue)>) -> Vec<ActionArgument> {
    pairs.into_iter().map(|(k, v)| ActionArgument { key: k.to_string(), value: v }).collect()
}

#[test]
fn executor_arguments_and_errors() {
    let a = args(vec![
        ("note", ArgValue::Text("  hello ".to_string())),
        ("blank", ArgValue::Text("  ".to_string())),
        ("num", ArgValue::Other),
        ("starts_at", ArgValue::Text("2026-08-12T10:00:00Z".to_string())),
        ("bad", ArgValue::Text("not-a-datetime".to_string())),
        ("nothing", ArgValue::Null),
    ]);
    assert_eq!(optional_string(&a, &["note_content", "note"]), Some("hello"));
    assert_eq!(optional_string(&a, &["blank", "note"]), None);
    assert_eq!(optional_string(&a, &["num", "note"]), Some("hello"));
    assert_eq!(required_string(&a, &["note"], "note").unwrap(), "hello");
    match required_string(&a, &["missing"], "status") {
        Err(e) => assert_eq!(e.message(), "validation failed: status is required"),
        Ok(_) => panic!("missing argument must be refused"),
    }
    assert_eq!(parse_dt_arg(&a, "starts_at").unwrap(), 1786183200 + 2 * 86400 * 2);
    assert!(matches!(parse_dt_arg(&a, "bad"), Err(DomainActionError::Validation(m)) if m == "`bad` is not an RFC3339 datetime"));
    assert!(matches!(parse_dt_arg(&a, "nothing"), Err(DomainActionError::Validation(m)) if m == "`nothing` is required as an RFC3339 datetime"));
    assert_eq!(parse_dt_arg_opt(&a, "nothing").unwrap(), None);
    assert!(matches!(parse_dt_arg_opt(&a, "num"), Err(DomainActionError::Validation(m)) if m == "`num` must be an RFC3339 datetime string"));
    assert!(matches!(delay_update_arguments(&a), Err(DomainActionError::Validation(m)) if m == "at least one of estimated_departure / estimated_arrival is required"));
    let d = args(vec![("estimated_departure", ArgValue::Text("2026-08-08T10:00:00Z".to_string()))]);
    assert_eq!(delay_update_arguments(&d).unwrap(), (Some(1786183200), None));
    assert_eq!(action_key("Flight", "add_note"), "Flight.add_note");
    assert!(matches!(map_ontology_error(OntologyError::Forbidden("no".to_string())), DomainActionError::Validation(m) if m == "no"));
    assert!(matches!(map_ontology_error(OntologyError::Conflict("busy".to_string())), DomainActionError::Execution(m) if m == "conflict: busy"));
    assert!(matches!(map_ontology_error(OntologyError::NotFound("x".to_string())), DomainActionError::NotFound(m) if m == "x"));
    assert_eq!(DomainActionError::Internal("boom".to_string()).message(), "boom");
}

fn action_args(items: Vec<(&str, ArgValue)>) -> Vec<ActionArgument> {
    items.into_iter().map(|(k, v)| ActionArgument { key: k.to_string(), value: v }).collect()
}

fn text(s: &str) -> ArgValue {
    ArgValue::Text(s.to_string())
}

#[test]
fn approved_actions_read_their_arguments() {
    match plan_action("Flight.add_note", &action_args(vec![("note", text(" gate changed "))])) {
        Ok(ActionPlan::FlightAddNote { note }) => assert_eq!(note, "gate changed"),
        _ => panic!("expected a note"),
    }
    match plan_action("Flight.add_note", &action_args(vec![("note_content", text("  "))])) {
        Err(DomainActionError::Validation(m)) => assert_eq!(m, "note is required"),
        _ => panic!("expected a validation error"),
    }
    match plan_action("Anomaly.escalate", &action_args(vec![("severity", text(" low "))])) {
        Ok(ActionPlan::AnomalyEscalate { severity, reason }) => {
            assert_eq!(severity, " low ");
            assert_eq!(reason, "AI recommended escalation");
        }
        _ => panic!("expected an escalation"),
    }
    match plan_action("DispatchOrder.recommend_replan", &action_args(vec![("apply", ArgValue::Bool(true))])) {
        Err(DomainActionError::Execution(m)) => {
            assert_eq!(m, "AI recommend_replan should be advisory-only. apply=true is not permitted in this context.")
        }
        _ => panic!("expected an execution error"),
    }
    match plan_action("DispatchOrder.recommend_replan", &action_args(vec![("apply", ArgValue::Bool(false))])) {
        Ok(ActionPlan::DispatchOrderRecommendReplan { strategy, reason }) => {
            assert_eq!(strategy, "balanced");
            assert_eq!(reason, "AI recommended replan");
        }
        _ => panic!("expected a replan"),
    }
    match plan_action("BusinessCase.close_case", &action_args(vec![("status", text(" open "))])) {
        Ok(ActionPlan::BusinessCaseClose { target_status, reason, .. }) => {
            assert_eq!(target_status, "open");
            assert_eq!(reason, None);
        }
        _ => panic!("expected a close"),
    }
    match plan_action("BusinessCase.close_case", &Vec::new()) {
        Ok(ActionPlan::BusinessCaseClose { target_status, .. }) => assert_eq!(target_status, "COMPLETED"),
        _ => panic!("expected a close"),
    }
    let span = action_args(vec![
        ("stand_code", text("S1")),
        ("registration", text("B-1234")),
        ("starts_at", text("2026-08-08T10:00:00Z")),
        ("ends_at", text("nope")),
    ]);
    match plan_action("StandOccupation.allocate", &span) {
        Err(DomainActionError::Validation(m)) => assert_eq!(m, "`ends_at` is not an RFC3339 datetime"),
        _ => panic!("expected a validation error"),
    }
    let ok = action_args(vec![
        ("gate_code", text("G1")),
        ("flight_id", text("F1")),
        ("starts_at", text("2026-08-08T10:00:00Z")),
        ("ends_at", text("2026-08-08T11:00:00Z")),
    ]);
    let plan = plan_action("GateAssignment.allocate", &ok).unwrap();
    match &plan {
        ActionPlan::GateAllocate { gate_code, registration, starts_at, ends_at, .. } => {
            assert_eq!(gate_code, "G1");
            assert_eq!(registration, "");
            assert_eq!((*starts_at, *ends_at), (1786183200, 1786186800));
        }
        _ => panic!("expected a gate allocation"),
    }
    assert_eq!(ontology_permission(&plan), Some("ontology:gate.manage"));
    match plan_action("GateAssignment.allocate", &action_args(vec![("flight_id", text("F1"))])) {
        Err(DomainActionError::Validation(m)) => assert_eq!(m, "gate_code is required"),
        _ => panic!("expected a validation error"),
    }
    match plan_action("Todo.create", &Vec::new()) {
        Err(DomainActionError::NotFound(m)) => assert_eq!(m, "unknown action: Todo.create"),
        _ => panic!("expected not found"),
    }
    assert_eq!(post_commit_hook("DispatchOrder.publish"), PostCommit::SyncChatAndNotify);
    assert_eq!(post_commit_hook("BusinessCase.close_case"), PostCommit::RefreshFlightProjection);
    assert_eq!(post_commit_hook("Flight.add_note"), PostCommit::Nothing);
}
