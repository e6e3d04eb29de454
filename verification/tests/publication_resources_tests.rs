use fms_dispatch::model::{
    AssigneeType, DispatchError, DispatchOrder, EquipmentAssignment, LockLevel, OrderMember, MemberRole, OrderStatus,
    SlotRequirement, TaskCrew,
};
use fms_dispatch::batch_publication::BatchReservations;
use fms_dispatch::publication::DraftMember;
use fms_dispatch::publication_resources::{EquipmentState, PublicationResources, QualificationGrant};
use fms_dispatch::rules::{DispatchService, LevelCoverage};

const HOUR: i64 = 3600;

fn order(id: &str) -> DispatchOrder {
    DispatchOrder {
        id: id.to_string(),
        flight_id: "fl-1".to_string(),
        task_type: "boarding".to_string(),
        status: OrderStatus::Pending,
        publication_state: "prepublished".to_string(),
        assignee_type: AssigneeType::Team,
        individual_user_id: None,
        team_id: None,
        team_name: None,
        individual_username: None,
        stand_code: None,
        stand_id: None,
        department_id: Some("dept-1".to_string()),
        leg_scope: "outbound".to_string(),
        lock_level: LockLevel::Optimizable,
        planned_start_time: Some(10 * HOUR),
        planned_end_time: Some(11 * HOUR),
        actual_start_time: None,
        actual_end_time: None,
        estimated_completion_time: None,
        dispatched_at: None,
        created_at: None,
        assignment_deadline: None,
        completion_warning_lead_minutes: None,
        members: Vec::new(),
        task_crew: TaskCrew { members: None, first_source_team_id: None },
        dispatched_by: None,
        equipment_ids: Vec::new(),
        equipment_assignment: Vec::new(),
        crew_requirement_snapshot: Vec::new(),
        equipment_requirement_snapshot: Vec::new(),
        equipment_gap_count: 0,
    }
}

fn crew_slot(code: &str, qualification: &str, min_level: Option<&str>) -> SlotRequirement {
    SlotRequirement {
        is_object: true,
        slot_code: Some(code.to_string()),
        required_count: Some(1),
        requires_driver: None,
        qualification_code: Some(qualification.to_string()),
        min_level_code: min_level.map(str::to_string),
        equipment_type_id: None,
        equipment_type_code: None,
    }
}

fn equipment_slot(code: &str, type_id: Option<&str>, type_code: Option<&str>) -> SlotRequirement {
    SlotRequirement {
        is_object: true,
        slot_code: Some(code.to_string()),
        required_count: Some(1),
        requires_driver: None,
        qualification_code: None,
        min_level_code: None,
        equipment_type_id: type_id.map(str::to_string),
        equipment_type_code: type_code.map(str::to_string),
    }
}

fn draft_member(user: &str, slot: &str) -> DraftMember {
    DraftMember {
        id: format!("m-{user}"),
        order_id: "o-1".to_string(),
        user_id: user.to_string(),
        slot_code: slot.to_string(),
        source_team_id: None,
        qualification_code: None,
        qualification_level_code: None,
        username: None,
        assigned_at: 0,
    }
}

fn grant(user: &str, qualification: &str, level: &str, valid_to: Option<i64>) -> QualificationGrant {
    QualificationGrant {
        user_id: user.to_string(),
        qualification_code: qualification.to_string(),
        level_code: level.to_string(),
        valid_to,
        source_team_id: None,
    }
}

fn equipment(id: &str, type_id: &str) -> EquipmentState {
    EquipmentState {
        id: id.to_string(),
        is_active: true,
        is_available: true,
        current_dispatch_id: None,
        equipment_type_id: Some(type_id.to_string()),
        equipment_type_code: Some(format!("{type_id}-code")),
    }
}

fn assignment(equipment_id: &str, slot: &str) -> EquipmentAssignment {
    EquipmentAssignment {
        text: None,
        has_equipment_id: true,
        equipment_id: Some(equipment_id.to_string()),
        id: None,
        slot_code: Some(slot.to_string()),
        driver_user_id: None,
    }
}

fn nothing_found() -> PublicationResources {
    PublicationResources {
        grants: Vec::new(),
        levels: Vec::new(),
        overlapping_orders: Vec::new(),
        equipment: Vec::new(),
        equipment_conflict_count: 0,
    }
}

fn validation(r: Result<(), DispatchError>) -> String {
    match r {
        Err(DispatchError::ValidationError(m)) => m,
        _ => panic!("expected a validation error"),
    }
}

fn violation(r: Result<(), DispatchError>) -> String {
    match r {
        Err(DispatchError::BusinessRuleViolation(m)) => m,
        _ => panic!("expected a rule violation"),
    }
}

fn check(o: &DispatchOrder, ms: &Vec<DraftMember>, ids: &Vec<String>, res: &PublicationResources) -> Result<(), DispatchError> {
    DispatchService::validate_draft_publication_resources(o, ms, ids, res)
}

#[test]
fn publication_requires_a_planned_window() {
    let mut o = order("o-1");
    o.planned_start_time = None;
    assert_eq!(validation(check(&o, &Vec::new(), &Vec::new(), &nothing_found())), "派工单 o-1 缺少计划开始时间");
    let mut o = order("o-1");
    o.planned_end_time = None;
    assert_eq!(validation(check(&o, &Vec::new(), &Vec::new(), &nothing_found())), "派工单 o-1 缺少计划完成时间");
    let mut o = order("o-1");
    o.planned_end_time = o.planned_start_time;
    assert_eq!(
        validation(check(&o, &Vec::new(), &Vec::new(), &nothing_found())),
        "派工单 o-1 的计划完成时间必须晚于计划开始时间"
    );
}

#[test]
fn publication_without_requirements_passes() {
    assert!(check(&order("o-1"), &Vec::new(), &Vec::new(), &nothing_found()).is_ok());
}

#[test]
fn required_crew_needs_a_department() {
    let mut o = order("o-1");
    o.crew_requirement_snapshot = vec![crew_slot("lead", "q-lead", None)];
    o.department_id = Some("  ".to_string());
    assert_eq!(validation(check(&o, &Vec::new(), &Vec::new(), &nothing_found())), "派工单 o-1 缺少部门上下文");
}

#[test]
fn member_slot_must_be_required() {
    let mut o = order("o-1");
    o.crew_requirement_snapshot = vec![crew_slot("lead", "q-lead", None)];
    let ms = vec![draft_member("u1", "tug")];
    assert_eq!(validation(check(&o, &ms, &Vec::new(), &nothing_found())), "人员槽位 tug 不在规则快照中");
}

#[test]
fn member_needs_a_grant_valid_to_the_planned_end() {
    let mut o = order("o-1");
    o.crew_requirement_snapshot = vec![crew_slot("lead", "q-lead", None)];
    let ms = vec![draft_member("u1", "lead")];
    let mut res = nothing_found();
    res.grants = vec![grant("u1", "q-lead", "L1", Some(10 * HOUR + 1))];
    assert_eq!(violation(check(&o, &ms, &Vec::new(), &res)), "人员 u1 不满足槽位 lead 的有效资质要求");
    res.grants = vec![grant("u1", "q-lead", "L1", Some(11 * HOUR))];
    assert!(check(&o, &ms, &Vec::new(), &res).is_ok());
    res.grants = vec![grant("u1", "q-other", "L1", None)];
    assert!(check(&o, &ms, &Vec::new(), &res).is_err());
}

#[test]
fn member_level_must_cover_the_minimum() {
    let mut o = order("o-1");
    o.crew_requirement_snapshot = vec![crew_slot("lead", "q-lead", Some(" L2 "))];
    let ms = vec![draft_member("u1", "lead")];
    let mut res = nothing_found();
    res.grants = vec![grant("u1", "q-lead", "L1", None)];
    assert_eq!(violation(check(&o, &ms, &Vec::new(), &res)), "人员 u1 不满足槽位 lead 的有效资质要求");
    res.levels = vec![LevelCoverage { level_code: "L1".to_string(), covered: vec!["L1".to_string(), "L2".to_string()] }];
    assert!(check(&o, &ms, &Vec::new(), &res).is_ok());
    res.grants = vec![grant("u1", "q-lead", "L2", None)];
    res.levels = Vec::new();
    assert!(check(&o, &ms, &Vec::new(), &res).is_ok());
}

#[test]
fn overlapping_order_that_books_a_member_is_refused() {
    let o = order("o-1");
    let ms = vec![draft_member("u1", "lead")];
    let mut other = order("o-2");
    other.members = vec![OrderMember {
        user_id: " u1 ".to_string(),
        is_active: true,
        role: MemberRole::Member,
        slot_code: None,
        check_in_time: None,
        check_out_time: None,
    }];
    let mut res = nothing_found();
    res.overlapping_orders = vec![order("o-1"), other];
    assert_eq!(violation(check(&o, &ms, &Vec::new(), &res)), "派工单 o-1 的人员与工单 o-2 存在时间冲突");
    let mut itself = order("o-1");
    itself.individual_user_id = Some("u1".to_string());
    res.overlapping_orders = vec![itself];
    assert!(check(&o, &ms, &Vec::new(), &res).is_ok());
}

#[test]
fn equipment_checks_follow_the_assignment() {
    let mut o = order("o-1");
    o.equipment_requirement_snapshot = vec![equipment_slot("tug", Some("tractor"), None)];
    o.equipment_assignment = vec![assignment("e1", "tug")];
    let ids = vec!["e1".to_string()];
    let mut res = nothing_found();
    assert_eq!(validation(check(&o, &Vec::new(), &ids, &res)), "设备 e1 不存在");
    let mut busy = equipment("e1", "tractor");
    busy.is_available = false;
    res.equipment = vec![busy];
    assert_eq!(violation(check(&o, &Vec::new(), &ids, &res)), "设备 e1 当前不可用");
    res.equipment[0].current_dispatch_id = Some("o-1".to_string());
    assert!(check(&o, &Vec::new(), &ids, &res).is_ok());
    res.equipment = vec![equipment("e1", "stairs")];
    assert_eq!(violation(check(&o, &Vec::new(), &ids, &res)), "设备 e1 不符合槽位 tug 的设备类型要求");
    res.equipment = vec![equipment("e1", "tractor")];
    res.equipment_conflict_count = 1;
    assert_eq!(violation(check(&o, &Vec::new(), &ids, &res)), "派工单 o-1 存在设备时间冲突");
    assert!(check(&o, &Vec::new(), &Vec::new(), &res).is_ok());
}

#[test]
fn equipment_type_code_is_checked_when_no_type_id_is_required() {
    let mut o = order("o-1");
    o.equipment_requirement_snapshot = vec![equipment_slot("tug", None, Some("tractor-code"))];
    o.equipment_assignment = vec![assignment("e1", "tug")];
    let ids = vec!["e1".to_string()];
    let mut res = nothing_found();
    res.equipment = vec![equipment("e1", "tractor")];
    assert!(check(&o, &Vec::new(), &ids, &res).is_ok());
    o.equipment_assignment = vec![assignment("e1", "belt")];
    assert_eq!(validation(check(&o, &Vec::new(), &ids, &res)), "设备槽位 belt 不在规则快照中");
}

#[test]
fn batch_admits_each_order_once() {
    let mut batch = BatchReservations::new();
    assert_eq!(batch.admit_order_id(Some(" o-1 ")).ok(), Some("o-1".to_string()));
    match batch.admit_order_id(Some("o-1")) {
        Err(DispatchError::ValidationError(m)) => assert_eq!(m, "派工单 o-1 在批量发布请求中重复出现"),
        _ => panic!("expected a validation error"),
    }
    match batch.admit_order_id(None) {
        Err(DispatchError::ValidationError(m)) => assert_eq!(m, "order_id 不能为空"),
        _ => panic!("expected a validation error"),
    }
    assert!(batch.admit_order_id(Some("  ")).is_err());
    assert_eq!(batch.seen_order_ids, vec!["o-1".to_string()]);
}

#[test]
fn batch_refuses_a_person_booked_twice_over_meeting_windows() {
    let mut batch = BatchReservations::new();
    let crew = vec![draft_member("u1", "lead"), draft_member("u2", "tug")];
    assert!(batch.reserve_people("o-1", 10 * HOUR, 11 * HOUR, &crew).is_ok());
    assert_eq!(batch.people.len(), 2);
    let later = vec![draft_member("u2", "lead")];
    assert!(batch.reserve_people("o-2", 11 * HOUR, 12 * HOUR, &later).is_ok());
    let overlapping = vec![draft_member("u3", "lead"), draft_member("u1", "tug")];
    let r = batch.reserve_people("o-3", 10 * HOUR + 1800, 12 * HOUR, &overlapping);
    assert_eq!(violation(r), "批量发布中的派工单 o-3 与 o-1 重复占用人员 u1");
    assert_eq!(batch.people.len(), 4);
    assert_eq!(batch.people[3].resource, "u3");
}

#[test]
fn batch_refuses_equipment_booked_twice_over_meeting_windows() {
    let mut batch = BatchReservations::new();
    let ids = vec!["e1".to_string()];
    assert!(batch.reserve_equipment("o-1", 10 * HOUR, 11 * HOUR, &ids).is_ok());
    let r = batch.reserve_equipment("o-2", 9 * HOUR, 10 * HOUR + 1, &ids);
    assert_eq!(violation(r), "批量发布中的派工单 o-2 与 o-1 重复占用设备 e1");
    assert!(batch.reserve_equipment("o-3", 9 * HOUR, 10 * HOUR, &ids).is_ok());
    assert!(batch.people.is_empty());
    assert_eq!(batch.equipment.len(), 2);
}
