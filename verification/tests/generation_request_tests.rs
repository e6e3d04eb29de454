use fms_dispatch::crew::CrewSlot;
use fms_dispatch::equipment::EquipmentSlot;
use fms_dispatch::generation::{
    ContextValue, ExpectedValue, GenerationRule, LegContext, PublishTriggerMode, RuleCondition, TurnaroundConstraintMode,
};
use fms_dispatch::generation_requests::{
    AdjustmentAction, AdjustmentRule, DraftAction, ExistingDraft, GeneratedFlightDispatchRequest, RequirementVersion,
    TurnaroundRule,
};
use fms_dispatch::model::{DispatchError, LegScope, OrderStatus, RuleStatus};
use fms_dispatch::rules::DispatchService;

/// 2026-08-08T10:00:00Z.
const TEN: i64 = 1786183200;

fn context(entries: &[(&str, &str)]) -> LegContext {
    let mut c = LegContext::new();
    for (k, v) in entries {
        c.insert(k.to_string(), ContextValue::Text(v.to_string()));
    }
    c
}

fn crew(code: &str, count: Option<i64>) -> CrewSlot {
    CrewSlot {
        is_object: true,
        slot_code: Some(code.to_string()),
        qualification_code: Some("tow".to_string()),
        min_level_code: None,
        required_count: count,
        must_be_distinct: None,
        exclusive_group: None,
        remarks: None,
    }
}

fn equipment(code: &str) -> EquipmentSlot {
    EquipmentSlot {
        is_object: true,
        slot_code: Some(code.to_string()),
        equipment_type_id: Some("tractor".to_string()),
        equipment_type_code: None,
        required_count: None,
        must_be_distinct: None,
        requires_driver: None,
        driver_qualification_code: None,
        driver_min_level_code: None,
        remarks: None,
    }
}

fn action(kind: &str) -> AdjustmentAction {
    AdjustmentAction {
        action_type: Some(kind.to_string()),
        slot_code: None,
        delta: None,
        delta_minutes: None,
        min_level_code: None,
        slot: None,
        equipment_slot: None,
        driver_qualification_code: None,
        driver_min_level_code: None,
    }
}

fn request() -> GeneratedFlightDispatchRequest {
    GeneratedFlightDispatchRequest {
        task_type: "towing".to_string(),
        stand_id: "S1".to_string(),
        terminal: None,
        planned_start_time: TEN,
        planned_end_time: TEN + 1800,
        source_type: "generated".to_string(),
        department_id: "d1".to_string(),
        leg_scope: "inbound".to_string(),
        generation_rule_id: "r1".to_string(),
        generation_rule_version: 1,
        generation_anchor_type: "scheduled_time".to_string(),
        generation_anchor_time: TEN,
        completion_time_mode: "start_plus_duration".to_string(),
        completion_anchor_type: None,
        completion_anchor_time: None,
        completion_offset_minutes: None,
        completion_warning_lead_minutes: None,
        publish_trigger_mode: "time".to_string(),
        publish_at: Some(TEN - 3600),
        turnaround_pair_key: None,
        turnaround_constraint_mode: None,
        department_rule_version: "v1".to_string(),
        crew_requirement_snapshot: vec![crew("lead", None), crew("wing", Some(2))],
        equipment_requirement_snapshot: vec![equipment("tractor")],
    }
}

fn rule() -> GenerationRule {
    GenerationRule {
        id: "r1".to_string(),
        department_id: "d1".to_string(),
        task_type: "towing".to_string(),
        leg_scope: LegScope::Inbound,
        status: RuleStatus::Published,
        version_no: 3,
        conditions: Vec::new(),
        generation_anchor_type: "scheduled_time".to_string(),
        start_offset_minutes: -30,
        completion_time_mode: "start_plus_duration".to_string(),
        duration_minutes: None,
        completion_anchor_type: None,
        completion_offset_minutes: None,
        completion_warning_lead_minutes: Some(5),
        publish_trigger_mode: PublishTriggerMode::Either,
        publish_offset_minutes: Some(-120),
    }
}

fn version() -> RequirementVersion {
    RequirementVersion {
        id: "v7".to_string(),
        requirements: vec![crew("lead", None)],
        crew_requirements: Vec::new(),
        equipment_requirements: vec![equipment("tractor")],
        turnaround_continuity_rules: vec![
            TurnaroundRule { enabled: false, constraint_mode: TurnaroundConstraintMode::SamePerson },
            TurnaroundRule { enabled: true, constraint_mode: TurnaroundConstraintMode::HandoverRequired },
        ],
    }
}

fn leg() -> LegContext {
    context(&[
        ("scheduled_time", "2026-08-08T10:00:00Z"),
        ("terminal", " T2 "),
        ("turnaround_pair_key", "F1"),
        ("aircraft_type", "A320"),
    ])
}

#[test]
fn adjustments_raise_counts_levels_and_drivers_of_the_named_slot() {
    let mut r = request();
    let mut more = action("increase_slot_count");
    more.slot_code = Some("wing".to_string());
    more.delta = Some(3);
    let mut default_more = action("increase_slot_count");
    default_more.slot_code = Some("lead".to_string());
    let mut level = action("upgrade_min_level");
    level.slot_code = Some("lead".to_string());
    level.min_level_code = Some("L3".to_string());
    let mut driver = action("require_driver_for_equipment");
    driver.slot_code = Some("tractor".to_string());
    driver.driver_qualification_code = Some(Some("drive".to_string()));
    let mut extra = action("add_slot");
    extra.slot = Some(crew("spare", Some(1)));
    let mut untyped = action("increase_slot_count");
    untyped.action_type = None;
    untyped.slot_code = Some("wing".to_string());
    DispatchService::apply_generation_adjustments(
        &mut r,
        &vec![more, default_more, level, driver, extra, untyped, action("something_else")],
    );
    assert_eq!(r.crew_requirement_snapshot.len(), 3);
    assert_eq!(r.crew_requirement_snapshot[0].required_count, Some(2));
    assert_eq!(r.crew_requirement_snapshot[0].min_level_code.as_deref(), Some("L3"));
    assert_eq!(r.crew_requirement_snapshot[1].required_count, Some(5));
    assert_eq!(r.crew_requirement_snapshot[1].min_level_code, None);
    assert_eq!(r.crew_requirement_snapshot[2].slot_code.as_deref(), Some("spare"));
    assert_eq!(r.equipment_requirement_snapshot[0].requires_driver, Some(true));
    assert_eq!(r.equipment_requirement_snapshot[0].driver_qualification_code.as_deref(), Some("drive"));
    assert_eq!(r.equipment_requirement_snapshot[0].driver_min_level_code, None);
    assert_eq!(r.planned_end_time, TEN + 1800);
}

#[test]
fn adjustments_move_the_end_and_the_publication_time() {
    let mut r = request();
    let mut longer = action("extend_duration");
    longer.delta_minutes = Some(10);
    let mut earlier = action("advance_publish_offset");
    earlier.delta_minutes = Some(30);
    let mut later = action("delay_publish_offset");
    later.delta_minutes = Some(5);
    let mut more_equipment = action("increase_equipment_count");
    more_equipment.slot_code = Some("tractor".to_string());
    let mut other_equipment = action("add_equipment_type_requirement");
    other_equipment.equipment_slot = Some(equipment("stairs"));
    DispatchService::apply_generation_adjustments(&mut r, &vec![longer, earlier, later, more_equipment, other_equipment]);
    assert_eq!(r.planned_end_time, TEN + 2400);
    assert_eq!(r.publish_at, Some(TEN - 3600 - 1500));
    assert_eq!(r.equipment_requirement_snapshot.len(), 2);
    assert_eq!(r.equipment_requirement_snapshot[0].required_count, Some(2));
    assert_eq!(r.equipment_requirement_snapshot[1].slot_code.as_deref(), Some("stairs"));
    assert_eq!(r.planned_start_time, TEN);

    let mut none = request();
    none.publish_at = None;
    let mut earlier = action("advance_publish_offset");
    earlier.delta_minutes = Some(30);
    DispatchService::apply_generation_adjustments(&mut none, &vec![earlier]);
    assert_eq!(none.publish_at, None);
}

#[test]
fn a_rule_generates_an_order_from_its_anchor_and_requirements() {
    let built = DispatchService::build_generation_request(&leg(), "S1", &rule(), Some(&version()), Some(40), &Vec::new())
        .expect("in range")
        .expect("built");
    assert_eq!(built.task_type, "towing");
    assert_eq!(built.stand_id, "S1");
    assert_eq!(built.terminal.as_deref(), Some("T2"));
    assert_eq!(built.generation_anchor_time, TEN);
    assert_eq!(built.planned_start_time, TEN - 1800);
    assert_eq!(built.planned_end_time, TEN - 1800 + 40 * 60);
    assert_eq!(built.publish_at, Some(TEN - 7200));
    assert_eq!(built.source_type, "generated");
    assert_eq!(built.leg_scope, "inbound");
    assert_eq!(built.generation_rule_version, 3);
    assert_eq!(built.publish_trigger_mode, "either");
    assert_eq!(built.turnaround_pair_key.as_deref(), Some("F1"));
    assert_eq!(built.turnaround_constraint_mode.as_deref(), Some("handover_required"));
    assert_eq!(built.department_rule_version, "v7");
    assert_eq!(built.crew_requirement_snapshot.len(), 1);
    assert_eq!(built.equipment_requirement_snapshot.len(), 1);
    assert_eq!(built.completion_warning_lead_minutes, Some(5));

    let fallback = DispatchService::build_generation_request(&leg(), "S1", &rule(), Some(&version()), None, &Vec::new())
        .unwrap()
        .unwrap();
    assert_eq!(fallback.planned_end_time, TEN - 1800 + 15 * 60);
}

#[test]
fn matching_adjustment_rules_apply_and_others_do_not() {
    let mut longer = action("extend_duration");
    longer.delta_minutes = Some(20);
    let mut other_task = action("extend_duration");
    other_task.delta_minutes = Some(100);
    let mut unmet = action("extend_duration");
    unmet.delta_minutes = Some(1000);
    let rules = vec![
        AdjustmentRule { task_type: "towing".to_string(), conditions: Vec::new(), actions: vec![longer] },
        AdjustmentRule { task_type: "fueling".to_string(), conditions: Vec::new(), actions: vec![other_task] },
        AdjustmentRule {
            task_type: "towing".to_string(),
            conditions: vec![RuleCondition {
                key: "aircraft_type".to_string(),
                expected: ExpectedValue::Text("B777".to_string()),
            }],
            actions: vec![unmet],
        },
    ];
    let built = DispatchService::build_generation_request(&leg(), "S1", &rule(), Some(&version()), Some(40), &rules)
        .unwrap()
        .unwrap();
    assert_eq!(built.planned_end_time, TEN - 1800 + 60 * 60);
}

#[test]
fn generation_refuses_missing_requirements_anchors_and_short_orders() {
    let message = |r: Option<Result<GeneratedFlightDispatchRequest, DispatchError>>| match r {
        Some(Err(DispatchError::BusinessRuleViolation(m))) => m,
        _ => panic!("expected a rule violation"),
    };
    assert_eq!(
        message(DispatchService::build_generation_request(&leg(), "S1", &rule(), None, None, &Vec::new())),
        "规则 r1 命中，但作业类型 towing 缺少已发布作业类型规则"
    );
    let mut no_crew = version();
    no_crew.requirements = Vec::new();
    assert_eq!(
        message(DispatchService::build_generation_request(&leg(), "S1", &rule(), Some(&no_crew), None, &Vec::new())),
        "规则 r1 命中，但作业类型 towing 缺少人员资质要求"
    );
    let mut no_equipment = version();
    no_equipment.equipment_requirements = Vec::new();
    assert_eq!(
        message(DispatchService::build_generation_request(&leg(), "S1", &rule(), Some(&no_equipment), None, &Vec::new())),
        "规则 r1 命中，但作业类型 towing 缺少设备类型要求"
    );
    let mut unknown_anchor = rule();
    unknown_anchor.generation_anchor_type = "gate_open".to_string();
    assert_eq!(
        message(DispatchService::build_generation_request(&leg(), "S1", &unknown_anchor, Some(&version()), None, &Vec::new())),
        "规则 r1 命中，但无法解析生成锚点 gate_open"
    );
    let mut shorter = action("extend_duration");
    shorter.delta_minutes = Some(-40);
    let rules = vec![AdjustmentRule { task_type: "towing".to_string(), conditions: Vec::new(), actions: vec![shorter] }];
    assert_eq!(
        message(DispatchService::build_generation_request(&leg(), "S1", &rule(), Some(&version()), Some(40), &rules)),
        "规则 r1 调整后的预计完成时间必须晚于预计开始时间"
    );
}

#[test]
fn generation_reports_times_out_of_range_as_none() {
    let mut far = rule();
    far.publish_offset_minutes = None;
    let mut huge = action("extend_duration");
    huge.delta_minutes = Some(i64::MAX / 60);
    let rules = vec![AdjustmentRule { task_type: "towing".to_string(), conditions: Vec::new(), actions: vec![huge] }];
    assert!(DispatchService::build_generation_request(&leg(), "S1", &far, Some(&version()), Some(40), &rules).is_none());
}

#[test]
fn rules_apply_in_the_context_of_their_leg() {
    let inbound = Some(leg());
    let outbound: Option<LegContext> = None;
    assert!(DispatchService::generation_rule_context(&inbound, &outbound, &rule()).is_some());
    let mut outbound_rule = rule();
    outbound_rule.leg_scope = LegScope::Outbound;
    assert!(DispatchService::generation_rule_context(&inbound, &outbound, &outbound_rule).is_none());
    let mut neither = rule();
    neither.leg_scope = LegScope::Neither;
    assert!(DispatchService::generation_rule_context(&inbound, &outbound, &neither).is_none());
    let mut unmet = rule();
    unmet.conditions = vec![RuleCondition { key: "aircraft_type".to_string(), expected: ExpectedValue::Text(" a320 ".to_string()) }];
    assert!(DispatchService::generation_rule_context(&inbound, &outbound, &unmet).is_some());
    unmet.conditions = vec![RuleCondition { key: "aircraft_type".to_string(), expected: ExpectedValue::Text("B777".to_string()) }];
    assert!(DispatchService::generation_rule_context(&inbound, &outbound, &unmet).is_none());
}

fn draft(rule: &str, version: i32, leg: &str, status: OrderStatus, state: &str) -> ExistingDraft {
    ExistingDraft {
        generation_rule_id: Some(rule.to_string()),
        generation_rule_version: Some(version),
        leg_scope: leg.to_string(),
        status,
        publication_state: state.to_string(),
    }
}

#[test]
fn regeneration_reuses_the_draft_of_the_same_rule_version_and_leg() {
    let mut existing = vec![
        draft("r1", 3, "inbound", OrderStatus::Cancelled, "prepublished"),
        draft("r1", 2, "inbound", OrderStatus::Pending, "prepublished"),
        draft("r1", 3, "outbound", OrderStatus::Pending, "prepublished"),
    ];
    assert_eq!(DispatchService::draft_action(&existing, "r1", 3, "inbound"), DraftAction::Create);
    existing.push(draft("r1", 3, "inbound", OrderStatus::Pending, "prepublished"));
    assert_eq!(DispatchService::draft_action(&existing, "r1", 3, "inbound"), DraftAction::Rebase(3));
    existing[3].publication_state = "published".to_string();
    assert_eq!(DispatchService::draft_action(&existing, "r1", 3, "inbound"), DraftAction::Keep(3));
    assert_eq!(DispatchService::draft_action(&existing, "r1", 3, "outbound"), DraftAction::Rebase(2));
}

fn facts(status: OrderStatus, state: &str, generated: bool, leg: &str, anchor: Option<i64>, stand: Option<&str>) -> fms_dispatch::rebase::GeneratedOrderFacts {
    fms_dispatch::rebase::GeneratedOrderFacts {
        status,
        publication_state: state.to_string(),
        has_generation_rule: generated,
        leg_scope: leg.to_string(),
        generation_anchor_time: anchor,
        stand_id: stand.map(str::to_string),
    }
}

#[test]
fn regeneration_runs_for_pending_drafts_on_their_stands() {
    let orders = vec![
        facts(OrderStatus::Pending, "prepublished", true, "outbound", Some(TEN + 60), Some(" S2 ")),
        facts(OrderStatus::Assigned, "prepublished", true, "inbound", Some(TEN), Some("S9")),
        facts(OrderStatus::Pending, "published", true, "inbound", Some(TEN), Some("S8")),
        facts(OrderStatus::Pending, "prepublished", false, "inbound", Some(TEN), Some("S7")),
        facts(OrderStatus::Pending, "prepublished", true, "inbound", Some(TEN + 30), Some("S2")),
        facts(OrderStatus::Pending, "prepublished", true, "inbound", None, Some(" ")),
    ];
    let drafts = DispatchService::pending_generated_orders(&orders);
    assert_eq!(drafts.len(), 3);
    assert_eq!(DispatchService::rebase_stand_ids(&drafts), vec!["S2".to_string()]);
    let none = fms_dispatch::rebase::FlightTimes {
        estimated_arrival: None,
        scheduled_arrival: None,
        actual_arrival: None,
        estimated_departure: None,
        scheduled_departure: None,
        actual_departure: None,
    };
    assert_eq!(DispatchService::rebase_anchor_times(&none, &drafts), Some((TEN + 30, TEN + 60)));
    assert_eq!(DispatchService::rebase_anchor_times(&none, &Vec::new()), None);
    let mut arrival_only = none;
    arrival_only.scheduled_arrival = Some(TEN - 100);
    arrival_only.actual_arrival = Some(TEN - 50);
    assert_eq!(DispatchService::rebase_anchor_times(&arrival_only, &Vec::new()), Some((TEN - 100, TEN - 100)));
}
