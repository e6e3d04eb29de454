use fms_dispatch::auto_dispatch::{AutoDispatchDecision, PreparationReport};
use fms_dispatch::order_create::RequirementSource;
use fms_dispatch::model::{
    SlotRequirement, AlertSeverity, AssigneeType, DispatchError, DispatchOrder, LeadSource, LockLevel, OrderStatus, TaskCrew,
};
use fms_dispatch::mobile_sync::{MobileCommand, MobileSyncStep};
use fms_dispatch::overrun_alerts::{alert_severity_value, lead_source_value};
use fms_dispatch::lifecycle::CheckinPath;
use fms_dispatch::preparation::{apply_preparation, preparation_stop, PreparationStop};
use fms_dispatch::rules::DispatchService;

fn order(status: OrderStatus) -> DispatchOrder {
    DispatchOrder {
        id: "o-1".to_string(),
        flight_id: "fl-1".to_string(),
        task_type: "T".to_string(),
        status,
        publication_state: "published".to_string(),
        assignee_type: AssigneeType::Team,
        individual_user_id: None,
        team_id: None,
        team_name: None,
        individual_username: None,
        stand_code: None,
        stand_id: None,
        department_id: None,
        leg_scope: "none".to_string(),
        lock_level: LockLevel::ManualLock,
        planned_start_time: None,
        planned_end_time: None,
        actual_start_time: None,
        actual_end_time: None,
        estimated_completion_time: None,
        dispatched_at: None,
        created_at: None,
        assignment_deadline: None,
        completion_warning_lead_minutes: None,
        members: Vec::new(),
        task_crew: TaskCrew { members: None, first_source_team_id: None },
        dispatched_by: None,
        equipment_ids: Vec::new(),
        equipment_assignment: Vec::new(),
        crew_requirement_snapshot: Vec::new(),
        equipment_requirement_snapshot: Vec::new(),
        equipment_gap_count: 2,
    }
}

#[test]
fn checkin_is_verified_by_position_then_by_code() {
    let v = |r: Option<bool>, q: Option<&str>| DispatchService::checkin_verification(r, q, "o-1");
    assert_eq!(v(Some(true), None), ("verified".to_string(), "geo".to_string()));
    assert_eq!(v(Some(false), Some(" dispatch:o-1 ")), ("verified".to_string(), "qr".to_string()));
    assert_eq!(v(None, Some("dispatch_order:o-1")), ("verified".to_string(), "qr".to_string()));
    assert_eq!(v(None, Some("o-1")), ("verified".to_string(), "qr".to_string()));
    assert_eq!(v(Some(false), Some("dispatch:o-2")), ("pending_verification".to_string(), "manual".to_string()));
    assert_eq!(v(None, None), ("pending_verification".to_string(), "manual".to_string()));
}

#[test]
fn new_order_needs_a_task_type_or_a_template() {
    assert_eq!(DispatchService::resolve_task_type(Some(" boarding ".to_string()), Some("x".to_string())).unwrap(), "boarding");
    assert_eq!(DispatchService::resolve_task_type(Some("  ".to_string()), Some(" cleaning ".to_string())).unwrap(), "cleaning");
    match DispatchService::resolve_task_type(None, None) {
        Err(DispatchError::ValidationError(m)) => assert_eq!(m, "task_type 与 temporary_task_template_code 至少提供一个"),
        _ => panic!("expected a validation error"),
    }
}

#[test]
fn new_order_status_follows_its_preparation() {
    let prepared = DispatchService::plan_new_order_assignment(None, None, None, false, false, "", "", "", "actor").unwrap();
    assert!(prepared.prepare_for_optimization);
    assert_eq!(DispatchService::created_order_status(&prepared, true), OrderStatus::Assigned);
    assert_eq!(DispatchService::created_order_status(&prepared, false), OrderStatus::Pending);
    let locked = DispatchService::plan_new_order_assignment(None, None, None, false, true, "", "", "", "actor").unwrap();
    assert_eq!(DispatchService::created_order_status(&locked, true), OrderStatus::Pending);
    let draft = DispatchService::plan_new_order_assignment(None, Some("t1".to_string()), None, false, false, "prepublished", "", "", "a").unwrap();
    assert_eq!(DispatchService::created_order_status(&draft, true), OrderStatus::Pending);
    let named = DispatchService::plan_new_order_assignment(None, Some("t1".to_string()), None, false, false, "", "", "", "a").unwrap();
    assert_eq!(DispatchService::created_order_status(&named, false), OrderStatus::Assigned);
}

#[test]
fn preparation_applies_only_when_crew_and_equipment_are_complete() {
    let mut o = order(OrderStatus::Pending);
    assert!(!apply_preparation(&mut o, true, false, 100));
    assert_eq!(o.status, OrderStatus::Pending);
    assert_eq!(o.lock_level, LockLevel::ManualLock);
    assert_eq!(o.equipment_gap_count, 2);
    assert!(apply_preparation(&mut o, true, true, 100));
    assert_eq!(o.status, OrderStatus::Assigned);
    assert_eq!(o.lock_level, LockLevel::Optimizable);
    assert_eq!(o.dispatched_at, Some(100));
    assert_eq!(o.equipment_gap_count, 0);
    let mut running = order(OrderStatus::InProgress);
    running.dispatched_at = Some(7);
    assert!(apply_preparation(&mut running, true, true, 100));
    assert_eq!(running.status, OrderStatus::InProgress);
    assert_eq!(running.dispatched_at, Some(7));
}

fn report(updated: bool, gaps: Vec<Option<&str>>, equipment: usize, reason: Option<&str>) -> PreparationReport {
    PreparationReport {
        updated,
        qualification_gap_reasons: gaps.into_iter().map(|g| g.map(str::to_string)).collect(),
        equipment_gap_count: equipment,
        reason: reason.map(str::to_string),
    }
}

#[test]
fn auto_dispatch_decides_skip_alert_or_assign() {
    let ok = Ok(report(true, vec![], 0, None));
    match DispatchService::auto_dispatch_decision("F1", "S9", false, "T", true, &ok) {
        AutoDispatchDecision::Skip { message } => assert_eq!(message, "机位不存在: S9"),
        _ => panic!("expected a skip"),
    }
    match DispatchService::auto_dispatch_decision("F1", "S1", true, "TT", false, &ok) {
        AutoDispatchDecision::Skip { message } => assert_eq!(message, "作业类型不存在: TT"),
        _ => panic!("expected a skip"),
    }
    assert!(matches!(DispatchService::auto_dispatch_decision("F1", "S1", true, "T", true, &ok), AutoDispatchDecision::Assign));
    match DispatchService::auto_dispatch_decision("F1", "S1", true, "T", true, &Err("db down".to_string())) {
        AutoDispatchDecision::Alert { alert_type, alert_message, severity, message } => {
            assert_eq!(alert_type, "dispatch_error");
            assert_eq!(alert_message, "派工系统错误: db down");
            assert_eq!(severity, AlertSeverity::Critical);
            assert_eq!(message, "派工失败: db down");
        },
        _ => panic!("expected an alert"),
    }
    let gaps = Ok(report(false, vec![None], 0, Some("当前无法补齐执行编组")));
    match DispatchService::auto_dispatch_decision("F1", "S1", true, "T", true, &gaps) {
        AutoDispatchDecision::Alert { alert_type, alert_message, severity, message } => {
            assert_eq!(alert_type, "qualification_crew_unavailable");
            assert_eq!(alert_message, "航班 F1 作业类型 T 无法组出满足资质要求的执行编组");
            assert_eq!(severity, AlertSeverity::Warning);
            assert_eq!(message, "当前无法补齐执行编组");
        },
        _ => panic!("expected an alert"),
    }
    let silent = Ok(report(false, vec![], 0, None));
    match DispatchService::auto_dispatch_decision("F1", "S1", true, "T", true, &silent) {
        AutoDispatchDecision::Alert { alert_message, message, .. } => {
            assert_eq!(alert_message, "航班 F1 作业类型 T 自动派工失败: 当前无法自动分派");
            assert_eq!(message, "当前无法自动分派");
        },
        _ => panic!("expected an alert"),
    }
}

#[test]
fn issue_reports_are_filed_under_their_client_action() {
    let (a, derived) = DispatchService::issue_anomaly_id("o-1", Some(" c-1 "));
    assert!(derived);
    assert_eq!(a, fms_dispatch::ids::deterministic_issue_anomaly_id("o-1", "c-1"));
    let (b, derived) = DispatchService::issue_anomaly_id("o-1", Some("  "));
    assert!(!derived);
    assert_eq!(b.len(), 26);
    assert!(DispatchService::issue_report_is_duplicate(Some("c-1"), true, true));
    assert!(!DispatchService::issue_report_is_duplicate(None, true, true));
    assert!(DispatchService::issue_report_is_duplicate(None, false, false));
    assert!(!DispatchService::issue_report_is_duplicate(Some("c-1"), false, true));
}

#[test]
fn mobile_actions_step_duplicate_run_or_unsupported() {
    assert_eq!(DispatchService::mobile_sync_step(" checkin ", Some(true)), MobileSyncStep::Duplicate);
    assert_eq!(DispatchService::mobile_sync_step(" checkin ", Some(false)), MobileSyncStep::Run(MobileCommand::Checkin));
    assert_eq!(DispatchService::mobile_sync_step("report_issue", None), MobileSyncStep::Run(MobileCommand::ReportIssue));
    assert_eq!(DispatchService::mobile_sync_step("dance", None), MobileSyncStep::Unsupported);
}

#[test]
fn alert_texts_are_lower_case() {
    assert_eq!(lead_source_value(LeadSource::Department), "department");
    assert_eq!(lead_source_value(LeadSource::Order), "order");
    assert_eq!(lead_source_value(LeadSource::System), "system");
    assert_eq!(alert_severity_value(AlertSeverity::Critical), "critical");
    assert_eq!(alert_severity_value(AlertSeverity::Warning), "warning");
}

#[test]
fn preparation_stops_at_the_first_missing_piece() {
    assert_eq!(preparation_stop(" ", true, true, true, 0, None, 0), Some((PreparationStop::MissingId, "工单缺少ID".to_string())));
    assert_eq!(
        preparation_stop(" o-1 ", false, false, true, 0, None, 0),
        Some((PreparationStop::MissingStand, "工单 o-1 缺少机位信息".to_string()))
    );
    assert_eq!(preparation_stop("o-1", true, false, false, 0, None, 0).unwrap().0, PreparationStop::MissingDepartment);
    assert_eq!(
        preparation_stop("o-1", true, true, false, 0, None, 0),
        Some((PreparationStop::MissingRule, "作业类型缺少已发布资质规则".to_string()))
    );
    assert_eq!(
        preparation_stop("o-1", true, true, true, 1, Some("人员不足"), 3),
        Some((PreparationStop::CrewGap, "人员不足".to_string()))
    );
    assert_eq!(
        preparation_stop("o-1", true, true, true, 0, None, 3),
        Some((PreparationStop::EquipmentGap, "当前无法补齐设备分配".to_string()))
    );
    assert_eq!(preparation_stop("o-1", true, true, true, 0, None, 0), None);
}

#[test]
fn checkin_marks_creates_or_answers_the_member() {
    assert_eq!(DispatchService::checkin_member_decision("o-1", "u1", Some(true), false).unwrap(), CheckinPath::AlreadyCheckedIn);
    assert_eq!(DispatchService::checkin_member_decision("o-1", "u1", Some(false), false).unwrap(), CheckinPath::MarkArrived);
    assert_eq!(DispatchService::checkin_member_decision("o-1", "u1", None, true).unwrap(), CheckinPath::CreateMember);
    match DispatchService::checkin_member_decision("o-1", "u1", None, false) {
        Err(DispatchError::NotFound { entity_type, id }) => {
            assert_eq!(entity_type, "DispatchOrderMember");
            assert_eq!(id, "o-1:u1");
        },
        _ => panic!("expected not found"),
    }
}

#[test]
fn checkin_starts_assigned_orders_and_follows_up_unverified_arrivals() {
    let f = DispatchService::checkin_followup("o-1", OrderStatus::Assigned, "pending_verification", 1000);
    assert!(f.auto_start);
    assert_eq!(f.verification_followup, Some(("补核到场记录 - o-1".to_string(), 1000 + 7200)));
    let g = DispatchService::checkin_followup("o-1", OrderStatus::InProgress, "verified", 1000);
    assert!(!g.auto_start);
    assert_eq!(g.verification_followup, None);
}

fn req(code: &str) -> SlotRequirement {
    SlotRequirement {
        is_object: true,
        slot_code: Some(code.to_string()),
        required_count: Some(1),
        requires_driver: None,
        qualification_code: None,
        min_level_code: None,
        equipment_type_id: None,
        equipment_type_code: None,
    }
}

fn source(id: &str, active: bool, task: Option<&str>, crew: usize, equipment: usize) -> RequirementSource {
    RequirementSource {
        id: id.to_string(),
        is_active: active,
        task_type: task.map(str::to_string),
        crew: (0..crew).map(|i| req(&format!("c{i}"))).collect(),
        equipment: (0..equipment).map(|i| req(&format!("e{i}"))).collect(),
    }
}

fn invalid_message(r: Result<fms_dispatch::order_create::ResolvedRequirements, DispatchError>) -> String {
    match r {
        Err(DispatchError::ValidationError(m)) => m,
        _ => panic!("expected a validation error"),
    }
}

#[test]
fn new_order_requirements_come_from_template_then_rule() {
    let s = |x: &str| Some(x.to_string());
    let r = DispatchService::resolve_order_requirements(
        None, s("TPL"), s("D1"), Vec::new(), Vec::new(), Some(source("9", true, Some("cleaning"), 2, 1)), None,
    )
    .unwrap();
    assert_eq!(r.task_type, "cleaning");
    assert_eq!(r.crew.len(), 2);
    assert_eq!(r.equipment.len(), 1);
    assert_eq!(r.rule_version.as_deref(), Some("temporary-template:9"));
    assert_eq!(
        invalid_message(DispatchService::resolve_order_requirements(None, s("TPL"), None, Vec::new(), Vec::new(), None, None)),
        "temporary_task_template_code 提供时必须指定 department_id"
    );
    assert_eq!(
        invalid_message(DispatchService::resolve_order_requirements(None, s("TPL"), s("D1"), Vec::new(), Vec::new(), None, None)),
        "临时任务模板 TPL 不存在"
    );
    assert_eq!(
        invalid_message(DispatchService::resolve_order_requirements(
            None, s("TPL"), s("D1"), Vec::new(), Vec::new(), Some(source("9", false, Some("x"), 1, 1)), None,
        )),
        "临时任务模板 TPL 未启用"
    );
    assert_eq!(
        invalid_message(DispatchService::resolve_order_requirements(
            None, s("TPL"), s("D1"), Vec::new(), Vec::new(), Some(source("9", true, Some("x"), 1, 0)), None,
        )),
        "临时任务模板 TPL 缺少设备类型要求"
    );
    let r = DispatchService::resolve_order_requirements(
        s("boarding"), None, s("D1"), vec![req("lead")], Vec::new(), None, Some(source("v3", true, None, 4, 2)),
    )
    .unwrap();
    assert_eq!(r.crew.len(), 1);
    assert_eq!(r.equipment.len(), 2);
    assert_eq!(r.rule_version.as_deref(), Some("v3"));
    assert_eq!(
        invalid_message(DispatchService::resolve_order_requirements(s("boarding"), None, None, Vec::new(), Vec::new(), None, None)),
        "必须指定 task_type 或 temporary_task_template_code"
    );
    assert_eq!(
        invalid_message(DispatchService::resolve_order_requirements(s("boarding"), None, s("D1"), Vec::new(), Vec::new(), None, None)),
        "作业类型 boarding 缺少已发布作业类型规则"
    );
    assert_eq!(
        invalid_message(DispatchService::resolve_order_requirements(
            s("boarding"), None, s("D1"), Vec::new(), Vec::new(), None, Some(source("v3", true, None, 0, 2)),
        )),
        "作业类型 boarding 缺少人员资质要求"
    );
    assert_eq!(
        invalid_message(DispatchService::resolve_order_requirements(None, None, s("D1"), Vec::new(), Vec::new(), None, None)),
        "task_type 与 temporary_task_template_code 至少提供一个"
    );
    let r = DispatchService::resolve_order_requirements(s("b"), None, None, vec![req("a")], vec![req("t")], None, None).unwrap();
    assert_eq!(r.rule_version, None);
}
