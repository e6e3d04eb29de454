use fms_dispatch::model::{DispatchError, EquipmentAssignment, MemberRole, OrderMember, OrderStatus, SlotRequirement};
use fms_dispatch::rules::{DispatchService, LevelCoverage};
use fms_dispatch::slots::SlotGrant;

fn entry(slot: Option<&str>, equipment: Option<&str>) -> EquipmentAssignment {
    EquipmentAssignment {
        text: None,
        has_equipment_id: equipment.is_some(),
        equipment_id: equipment.map(str::to_string),
        id: None,
        slot_code: slot.map(str::to_string),
        driver_user_id: None,
    }
}

fn slot(code: Option<&str>) -> SlotRequirement {
    SlotRequirement { is_object: true, slot_code: code.map(str::to_string), required_count: None, requires_driver: None, qualification_code: None, min_level_code: None, equipment_type_id: None, equipment_type_code: None }
}

fn rule_violation(r: Result<(), DispatchError>) -> String {
    match r {
        Err(DispatchError::BusinessRuleViolation(m)) => m,
        _ => panic!("expected a rule violation"),
    }
}

#[test]
fn finished_orders_cannot_be_edited() {
    assert!(DispatchService::assert_order_assignable("o1", OrderStatus::Assigned).is_ok());
    assert_eq!(rule_violation(DispatchService::assert_order_assignable("o1", OrderStatus::Cancelled)), "工单 o1 已cancelled，不允许修改槽位");
}

#[test]
fn order_status_updates_name_a_known_status() {
    assert_eq!(DispatchService::parse_order_status(" in_progress ").unwrap(), OrderStatus::InProgress);
    match DispatchService::parse_order_status(" done ") {
        Err(DispatchError::ValidationError(m)) => assert_eq!(m, "invalid dispatch order status: done"),
        _ => panic!("expected a validation error"),
    }
}

#[test]
fn slots_are_found_by_exact_code() {
    let slots = vec![slot(None), slot(Some(" lead")), slot(Some("lead")), slot(Some("lead"))];
    assert_eq!(DispatchService::find_slot(&slots, "lead"), Some(2));
    assert_eq!(DispatchService::require_slot(&slots, "o", "lead").unwrap(), 2);
    match DispatchService::require_slot(&slots, "o9", "aux") {
        Err(DispatchError::ValidationError(m)) => assert_eq!(m, "工单 o9 不存在槽位 aux"),
        _ => panic!("expected a validation error"),
    }
    match DispatchService::require_equipment_slot(&slots, "o9", "tug") {
        Err(DispatchError::ValidationError(m)) => assert_eq!(m, "工单 o9 不存在设备槽位 tug"),
        _ => panic!("expected a validation error"),
    }
}

#[test]
fn removing_a_slot_keeps_the_others() {
    let slots = vec![slot(Some("a")), slot(Some("b")), slot(Some("a"))];
    assert_eq!(DispatchService::slots_after_removal(&slots, "o", "a").unwrap(), vec![1]);
    match DispatchService::slots_after_removal(&slots, "o", "c") {
        Err(DispatchError::ValidationError(m)) => assert_eq!(m, "工单 o 不存在槽位 c"),
        _ => panic!("expected a validation error"),
    }
}

#[test]
fn active_members_of_a_slot_are_released() {
    let m = |u: &str, active: bool, s: Option<&str>| OrderMember {
        user_id: u.to_string(),
        is_active: active,
        role: MemberRole::Member,
        slot_code: s.map(str::to_string),
        check_in_time: None,
        check_out_time: None,
    };
    let members = vec![m("a", true, Some("lead")), m("b", false, Some("lead")), m("c", true, Some("aux")), m("d", true, Some("lead"))];
    assert_eq!(DispatchService::members_in_slot(&members, "lead"), vec![0, 3]);
}

#[test]
fn required_fields_are_trimmed() {
    assert_eq!(DispatchService::require_text(" s1 ", "slot_code").unwrap(), "s1");
    match DispatchService::require_text("  ", "equipment_id") {
        Err(DispatchError::ValidationError(m)) => assert_eq!(m, "equipment_id is required"),
        _ => panic!("expected a validation error"),
    }
}

#[test]
fn equipment_ids_are_listed_once_in_order() {
    let items = vec![entry(Some("a"), Some(" e2 ")), entry(None, Some("e1")), entry(None, Some("e2")), entry(None, Some(" ")), entry(None, None)];
    assert_eq!(DispatchService::equipment_ids_of(&items), vec!["e2", "e1"]);
}

#[test]
fn law_equipment_slot_holds_one_piece_on_values() {
    let items = vec![entry(Some("tug"), Some("e1")), entry(Some("belt"), Some("e2")), entry(Some("stairs"), Some("e3"))];
    let kept = DispatchService::equipment_kept_on_assign(&items, "tug", "e2");
    assert_eq!(kept, vec![2]);
}

#[test]
fn releasing_equipment_removes_its_entries() {
    let items = vec![entry(Some("tug"), Some("e1")), entry(Some("belt"), Some("e1")), entry(Some("belt"), Some("e2"))];
    assert_eq!(DispatchService::equipment_kept_on_release(&items, "o", Some(" belt "), "e1").unwrap(), vec![0, 2]);
    assert_eq!(DispatchService::equipment_kept_on_release(&items, "o", Some("  "), "e1").unwrap(), vec![2]);
    match DispatchService::equipment_kept_on_release(&items, "o1", Some("stairs"), "e1") {
        Err(DispatchError::ValidationError(m)) => assert_eq!(m, "设备 e1 未指派到工单 o1 的槽位 stairs"),
        _ => panic!("expected a validation error"),
    }
    match DispatchService::equipment_kept_on_release(&items, "o1", None, "e9") {
        Err(DispatchError::ValidationError(m)) => assert_eq!(m, "设备 e9 未指派到工单 o1"),
        _ => panic!("expected a validation error"),
    }
}

#[test]
fn equipment_type_must_match_the_slot() {
    assert!(DispatchService::check_equipment_type(Some(" tractor "), Some("tractor"), "e1", "tug").is_ok());
    assert!(DispatchService::check_equipment_type(Some(" "), None, "e1", "tug").is_ok());
    assert_eq!(
        rule_violation(DispatchService::check_equipment_type(Some("tractor"), Some("belt"), "e1", "tug")),
        "设备 e1 的类型与槽位 tug 要求的设备类型不一致"
    );
}

#[test]
fn reassignment_goes_to_a_person() {
    assert_eq!(DispatchService::reassign_assignee(" u1 ", None).unwrap(), "u1");
    assert_eq!(DispatchService::reassign_assignee("u1", Some(" user ")).unwrap(), "u1");
    match DispatchService::reassign_assignee("u1", Some("team")) {
        Err(DispatchError::ValidationError(m)) => assert_eq!(m, "班组指派已废止：请改用 assign_slot 按槽挂人"),
        _ => panic!("expected a validation error"),
    }
    match DispatchService::reassign_assignee("u1", Some("robot")) {
        Err(DispatchError::ValidationError(m)) => assert_eq!(m, "unsupported assignee_type: robot"),
        _ => panic!("expected a validation error"),
    }
    match DispatchService::reassign_assignee(" ", Some("team")) {
        Err(DispatchError::ValidationError(m)) => assert_eq!(m, "assignee_id is required"),
        _ => panic!("expected a validation error"),
    }
}

#[test]
fn slot_personnel_prechecks() {
    match DispatchService::slot_personnel_precheck("u1", "lead", false, None, None, true, None, None) {
        Err(DispatchError::ValidationError(m)) => assert_eq!(m, "人员 u1 不存在"),
        _ => panic!("expected a validation error"),
    }
    match DispatchService::slot_personnel_precheck("u1", "lead", true, Some("d1"), Some("d2"), true, None, None) {
        Err(DispatchError::BusinessRuleViolation(m)) => assert_eq!(m, "人员 u1 与工单科室不一致（cannot assign cross-department）"),
        _ => panic!("expected a rule violation"),
    }
    match DispatchService::slot_personnel_precheck("u1", "lead", true, Some("d1"), None, false, None, None) {
        Err(DispatchError::BusinessRuleViolation(m)) => assert_eq!(m, "人员 u1 不在岗（off duty），不能指派到槽位 lead"),
        _ => panic!("expected a rule violation"),
    }
    assert!(DispatchService::slot_personnel_precheck("u1", "lead", true, None, None, true, Some(""), None).unwrap().is_none());
    match DispatchService::slot_personnel_precheck("u1", "lead", true, Some(""), None, true, Some("tow"), None) {
        Err(DispatchError::ValidationError(m)) => assert_eq!(m, "工单缺少部门上下文"),
        _ => panic!("expected a validation error"),
    }
    let c = DispatchService::slot_personnel_precheck("u1", "lead", true, Some("d1"), Some("d1"), true, Some("tow"), Some("L2")).unwrap().unwrap();
    assert_eq!((c.department_id.as_str(), c.qualification_code.as_str(), c.min_level_code.as_deref()), ("d1", "tow", Some("L2")));
}

#[test]
fn slot_grants_must_be_valid_and_reach_the_level() {
    let g = |q: &str, l: &str, from: Option<i64>, to: Option<i64>| SlotGrant { qualification_code: q.to_string(), level_code: l.to_string(), valid_from: from, valid_to: to };
    let levels = vec![LevelCoverage { level_code: "L3".to_string(), covered: vec!["L2".to_string()] }];
    let grants = vec![g("tow", "L1", Some(0), Some(50)), g("tow", "L3", None, None), g("push", "L3", None, None)];
    assert!(DispatchService::slot_grants_satisfy("u", "s", "tow", Some("L2"), &grants, 100, &levels).is_ok());
    assert_eq!(
        rule_violation(DispatchService::slot_grants_satisfy("u", "s", "tow", Some("L4"), &grants, 100, &levels)),
        "人员 u 不满足槽位 s 的资质级别要求 tow:L4"
    );
    assert_eq!(
        rule_violation(DispatchService::slot_grants_satisfy("u", "s", "tow", None, &vec![g("tow", "L1", Some(200), None)], 100, &levels)),
        "人员 u 不满足槽位 s 的资质要求 tow"
    );
}

fn tpl_item(code: &str, allow_na: Option<bool>, level: Option<&str>) -> fms_dispatch::checklist::ChecklistTemplateItem {
    fms_dispatch::checklist::ChecklistTemplateItem {
        item_code: Some(code.to_string()),
        title: None,
        required: Some(true),
        allow_na,
        order: None,
        level: level.map(str::to_string),
    }
}

fn violation_text(r: Result<String, DispatchError>) -> String {
    match r {
        Err(DispatchError::BusinessRuleViolation(m)) => m,
        _ => panic!("expected a rule violation"),
    }
}

#[test]
fn checklist_item_submissions_follow_the_template() {
    let template = fms_dispatch::checklist::ChecklistTemplate {
        template_id: None,
        checklist_version: None,
        items: vec![tpl_item("c1", None, None), tpl_item("r1", Some(true), Some("routine")), tpl_item("c2", Some(false), Some("critical"))],
    };
    let t = Some(&template);
    assert_eq!(DispatchService::validate_checklist_item_submission(t, "c1", Some(" pass "), None, false).unwrap(), "pass");
    assert_eq!(violation_text(DispatchService::validate_checklist_item_submission(None, "c1", Some("pass"), None, false)), "invalid safety checklist item result");
    assert_eq!(violation_text(DispatchService::validate_checklist_item_submission(t, "c1", Some("maybe"), None, false)), "invalid safety checklist item result");
    assert_eq!(violation_text(DispatchService::validate_checklist_item_submission(t, "zz", Some("pass"), None, false)), "invalid safety checklist item result");
    assert_eq!(violation_text(DispatchService::validate_checklist_item_submission(t, "c2", Some("na"), None, false)), "invalid safety checklist item result");
    assert_eq!(DispatchService::validate_checklist_item_submission(t, "r1", Some("na"), None, false).unwrap(), "na");
    assert_eq!(
        violation_text(DispatchService::validate_checklist_item_submission(t, "c1", Some("fail"), Some("  "), false)),
        "critical fail item requires note or handled_on_site flag"
    );
    assert_eq!(DispatchService::validate_checklist_item_submission(t, "c1", Some("fail"), Some("fixed"), false).unwrap(), "fail");
    assert_eq!(DispatchService::validate_checklist_item_submission(t, "c2", Some("fail"), None, true).unwrap(), "fail");
    assert_eq!(DispatchService::validate_checklist_item_submission(t, "r1", Some("fail"), None, false).unwrap(), "fail");
}

#[test]
fn checklist_batches_name_each_item_once() {
    let seen = vec!["a".to_string()];
    assert_eq!(DispatchService::batch_item_code(" b ", &seen).unwrap(), "b");
    assert_eq!(violation_text(DispatchService::batch_item_code(" a", &seen)), "invalid safety checklist batch submission");
    assert_eq!(violation_text(DispatchService::batch_item_code("  ", &seen)), "invalid safety checklist batch submission");
}
