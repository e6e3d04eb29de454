use fms_dispatch::action_effects::{
    check_terminal_membership, equipment_assign_effect, equipment_release_target, release_from_assignment,
};
use fms_dispatch::actions::{plan_action, ActionPlan, TerminalMember};
use fms_dispatch::executor::{action_key, map_status_update_error, ActionArgument, ArgValue, DomainActionError};
use fms_dispatch::model::{
    AssigneeType, DispatchError, DispatchOrder, EquipmentAssignment, LockLevel, OrderStatus, SlotRequirement, TaskCrew,
};
use fms_dispatch::publication_resources::EquipmentState;

fn no_args() -> Vec<ActionArgument> {
    Vec::new()
}

fn args(items: Vec<(&str, &str)>) -> Vec<ActionArgument> {
    items
        .into_iter()
        .map(|(k, v)| ActionArgument { key: k.to_string(), value: ArgValue::Text(v.to_string()) })
        .collect()
}

fn plan(object_type: &str, action: &str, arguments: &Vec<ActionArgument>) -> Result<ActionPlan, DomainActionError> {
    plan_action(&action_key(object_type, action), arguments)
}

fn order(id: &str) -> DispatchOrder {
    DispatchOrder {
        id: id.to_string(),
        flight_id: id.to_string(),
        task_type: "T".to_string(),
        status: OrderStatus::Pending,
        publication_state: "prepublished".to_string(),
        assignee_type: AssigneeType::Team,
        individual_user_id: None,
        team_id: None,
        team_name: None,
        individual_username: None,
        stand_code: None,
        stand_id: None,
        department_id: None,
        leg_scope: "none".to_string(),
        lock_level: LockLevel::Optimizable,
        planned_start_time: None,
        planned_end_time: None,
        actual_start_time: None,
        actual_end_time: None,
        estimated_completion_time: None,
        dispatched_at: None,
        created_at: None,
        assignment_deadline: None,
        completion_warning_lead_minutes: None,
        members: Vec::new(),
        task_crew: TaskCrew { members: None, first_source_team_id: None },
        dispatched_by: None,
        equipment_ids: Vec::new(),
        equipment_assignment: Vec::new(),
        crew_requirement_snapshot: Vec::new(),
        equipment_requirement_snapshot: vec![SlotRequirement {
            is_object: true,
            slot_code: Some("tractor".to_string()),
            required_count: Some(1),
            requires_driver: None,
            qualification_code: None,
            min_level_code: None,
            equipment_type_id: None,
            equipment_type_code: None,
        }],
        equipment_gap_count: 0,
    }
}

fn available(id: &str) -> EquipmentState {
    EquipmentState {
        id: id.to_string(),
        is_active: true,
        is_available: true,
        current_dispatch_id: None,
        equipment_type_id: Some("ET_TRACTOR".to_string()),
        equipment_type_code: None,
    }
}

#[test]
fn test_flight_add_note_validation() {
    assert!(matches!(plan("Flight", "add_note", &no_args()), Err(DomainActionError::Validation(_))));
}

#[test]
fn test_flight_update_delay_validation() {
    assert!(matches!(plan("Flight", "update_delay", &no_args()), Err(DomainActionError::Validation(_))));
    let bad = args(vec![("estimated_departure", "not-a-datetime")]);
    assert!(matches!(plan("Flight", "update_delay", &bad), Err(DomainActionError::Validation(_))));
}

#[test]
fn test_business_case_create_validation() {
    assert!(matches!(plan("BusinessCase", "create", &no_args()), Err(DomainActionError::Validation(_))));
}

#[test]
fn test_notification_send_fail_closed() {
    let a = args(vec![("user_id", "test_user_1"), ("title", "Alert"), ("body", "This is a test notification.")]);
    assert!(matches!(plan("Notification", "send", &a), Err(DomainActionError::NotFound(_))));
}

#[test]
fn test_todo_create_fail_closed() {
    assert!(matches!(plan("Todo", "create", &args(vec![("title", "Test Todo")])), Err(DomainActionError::NotFound(_))));
}

#[test]
fn test_label_add_fail_closed() {
    assert!(matches!(plan("Label", "add", &args(vec![("flight_id", "FL123")])), Err(DomainActionError::NotFound(_))));
}

#[test]
fn test_workflow_start_fail_closed() {
    let a = args(vec![("workflow_template_id", "delay-process")]);
    assert!(matches!(plan("Workflow", "start", &a), Err(DomainActionError::NotFound(_))));
}

#[test]
fn test_terminal_member_actions_validation() {
    for action in ["add_stand", "remove_stand", "add_gate", "remove_gate", "add_carousel", "remove_carousel"] {
        assert!(
            matches!(plan("Terminal", action, &no_args()), Err(DomainActionError::Validation(_))),
            "Terminal.{action} with empty args must be Validation"
        );
    }
}

#[test]
fn test_terminal_unmapped_and_legacy_key_fail_closed() {
    assert!(matches!(plan("Terminal", "deactivate", &no_args()), Err(DomainActionError::NotFound(_))));
    assert!(matches!(
        plan("terminal", "add_stand", &args(vec![("stand_id", "ST1")])),
        Err(DomainActionError::NotFound(_))
    ));
}

#[test]
fn test_equipment_assign_validation() {
    assert!(matches!(plan("Equipment", "assign", &no_args()), Err(DomainActionError::Validation(_))));
    let a = args(vec![("equipment_id", "EQ1"), ("dispatch_order_id", "DP1")]);
    match plan("Equipment", "assign", &a) {
        Err(DomainActionError::Validation(m)) => assert_eq!(m, "slot_code is required"),
        _ => panic!("missing slot_code must be Validation"),
    }
}

#[test]
fn terminal_member_actions_read_their_member() {
    match plan("Terminal", "add_gate", &args(vec![("gate_id", " GT_EXEC_1 ")])) {
        Ok(ActionPlan::TerminalAddMember { member, member_id }) => {
            assert_eq!(member, TerminalMember::Gate);
            assert_eq!(member_id, "GT_EXEC_1");
        },
        _ => panic!("add_gate must be planned"),
    }
    match plan("Terminal", "remove_stand", &args(vec![("stand_id", "ST_EXEC_1")])) {
        Ok(ActionPlan::TerminalRemoveMember { member, member_id }) => {
            assert_eq!(member, TerminalMember::Stand);
            assert_eq!(member_id, "ST_EXEC_1");
        },
        _ => panic!("remove_stand must be planned"),
    }
    match plan("Equipment", "release", &args(vec![("equipment_id", "EQ_EXEC_1")])) {
        Ok(ActionPlan::EquipmentRelease { equipment_id, dispatch_order_id }) => {
            assert_eq!(equipment_id, "EQ_EXEC_1");
            assert_eq!(dispatch_order_id, None);
        },
        _ => panic!("release must be planned"),
    }
}

#[test]
fn test_terminal_remove_stand_conflict_on_active_occupation() {
    match check_terminal_membership("TM_EXEC_T", Some(true), false, TerminalMember::Stand, "ST_EXEC_1", 1) {
        Err(DomainActionError::Execution(m)) => assert!(m.contains("conflict")),
        _ => panic!("expected a conflict"),
    }
    assert!(check_terminal_membership("TM_EXEC_T", Some(true), false, TerminalMember::Stand, "ST_EXEC_1", 0).is_ok());
    assert!(check_terminal_membership("TM_EXEC_T", Some(true), false, TerminalMember::Gate, "GT_EXEC_1", 3).is_ok());
}

#[test]
fn test_terminal_add_member_terminal_not_found() {
    assert!(matches!(
        check_terminal_membership("TM_NONEXISTENT", None, true, TerminalMember::Gate, "GT_EXEC_1", 0),
        Err(DomainActionError::NotFound(m)) if m == "terminal TM_NONEXISTENT"
    ));
    assert!(matches!(
        check_terminal_membership("TM1", Some(false), true, TerminalMember::Gate, "GT1", 0),
        Err(DomainActionError::Validation(_))
    ));
    assert!(check_terminal_membership("TM1", Some(true), true, TerminalMember::Carousel, "CR1", 0).is_ok());
}

#[test]
fn test_equipment_assign_order_not_found() {
    let eq = vec![available("EQ1")];
    assert!(matches!(
        equipment_assign_effect("DP_NONEXISTENT", None, "tractor", "EQ1", &eq),
        Err(DomainActionError::NotFound(_))
    ));
}

#[test]
fn test_equipment_assign_and_release_success() {
    let o = order("DP_EXEC_EQ");
    let eq = vec![available("EQ_EXEC_1")];
    let assigned = equipment_assign_effect("DP_EXEC_EQ", Some(&o), "tractor", "EQ_EXEC_1", &eq).unwrap();
    assert_eq!(assigned.len(), 1);
    assert_eq!(assigned[0].slot_code.as_deref(), Some("tractor"));
    assert_eq!(assigned[0].equipment_id.as_deref(), Some("EQ_EXEC_1"));
    let mut held = available("EQ_EXEC_1");
    held.is_available = false;
    held.current_dispatch_id = Some("DP_EXEC_EQ".to_string());
    assert_eq!(equipment_release_target("EQ_EXEC_1", None, Some(&held)).unwrap(), "DP_EXEC_EQ");
    assert!(release_from_assignment(&assigned, "EQ_EXEC_1").is_empty());
}

#[test]
fn test_equipment_release_without_assignment_validation() {
    let free = available("EQ_EXEC_2");
    assert!(matches!(
        equipment_release_target("EQ_EXEC_2", None, Some(&free)),
        Err(DomainActionError::Validation(_))
    ));
    assert_eq!(equipment_release_target("EQ_EXEC_2", Some("DP9"), Some(&free)).unwrap(), "DP9");
    assert!(matches!(equipment_release_target("EQ_X", None, None), Err(DomainActionError::NotFound(_))));
}

#[test]
fn test_equipment_assign_type_mismatch_rejected() {
    let mut o = order("DP_EXEC_EQ3");
    o.equipment_requirement_snapshot[0].equipment_type_id = Some("ET_OTHER".to_string());
    let eq = vec![available("EQ_EXEC_3")];
    match equipment_assign_effect("DP_EXEC_EQ3", Some(&o), "tractor", "EQ_EXEC_3", &eq) {
        Err(DomainActionError::Validation(m)) => assert!(m.contains("类型")),
        _ => panic!("expected type-mismatch validation"),
    }
}

#[test]
fn assigning_again_replaces_the_entry_of_the_equipment() {
    let mut o = order("DP1");
    o.equipment_assignment = vec![EquipmentAssignment {
        text: None,
        has_equipment_id: true,
        equipment_id: Some("EQ1".to_string()),
        id: None,
        slot_code: Some("old".to_string()),
        driver_user_id: None,
    }];
    let eq = vec![available("EQ1")];
    let v = equipment_assign_effect("DP1", Some(&o), "tractor", "EQ1", &eq).unwrap();
    assert_eq!(v.len(), 1);
    assert_eq!(v[0].slot_code.as_deref(), Some("tractor"));
    assert!(matches!(
        equipment_assign_effect("DP1", Some(&o), "belt", "EQ1", &eq),
        Err(DomainActionError::Validation(_))
    ));
}

#[test]
fn status_update_errors_map_to_executor_errors() {
    let nf = DispatchError::NotFound { entity_type: "DispatchOrder".to_string(), id: "DP1".to_string() };
    assert!(matches!(map_status_update_error(nf, String::new()), DomainActionError::NotFound(m) if m == "DispatchOrder DP1 not found"));
    let v = DispatchError::ValidationError("bad status".to_string());
    assert!(matches!(map_status_update_error(v, String::new()), DomainActionError::Validation(m) if m == "bad status"));
    let other = DispatchError::Internal("boom".to_string());
    assert!(matches!(map_status_update_error(other, "internal: boom".to_string()), DomainActionError::Execution(m) if m == "internal: boom"));
}

#[test]
fn advisory_replan_covers_six_hours_with_twenty_suggestions() {
    let p = fms_dispatch::action_effects::recommend_replan_request("DP1", true, "balanced", 1000).unwrap();
    assert_eq!((p.window_start, p.window_end, p.max_suggestions, p.apply_changes), (1000, 1000 + 6 * 3600, 20, false));
    assert_eq!(p.strategy, "balanced");
    assert!(matches!(
        fms_dispatch::action_effects::recommend_replan_request("DP9", false, "balanced", 1000),
        Err(DomainActionError::NotFound(m)) if m == "DispatchOrder DP9 not found"
    ));
}
