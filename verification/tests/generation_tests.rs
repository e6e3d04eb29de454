use fms_dispatch::generation::{
    legacy_generation_conditions_match, legacy_resolve_generation_anchor_time, resolve_planned_completion_time,
    try_resolve_planned_completion_time, ContextValue, ExpectedValue, LegContext, RuleCondition,
};
use fms_dispatch::model::DispatchError;

/// 2026-08-08T10:00:00Z.
const TEN: i64 = 1786183200;

fn context(entries: &[(&str, &str)]) -> LegContext {
    let mut c = LegContext::new();
    for (k, v) in entries {
        c.insert(k.to_string(), ContextValue::Text(v.to_string()));
    }
    c
}

fn scheduled_context() -> LegContext {
    context(&[("scheduled_time", "2026-08-08T10:00:00Z")])
}

#[test]
fn scheduled_time_is_an_explicit_generation_anchor() {
    let resolved = legacy_resolve_generation_anchor_time(&scheduled_context(), "scheduled_time");
    assert_eq!(resolved, Some(TEN));
}

#[test]
fn unknown_generation_anchor_does_not_fall_back_to_scheduled_time() {
    let resolved = legacy_resolve_generation_anchor_time(&scheduled_context(), "estimated_time");
    assert!(resolved.is_none());
}

#[test]
fn planned_completion_can_be_start_plus_duration() {
    let start = TEN;
    let (end, completion_anchor) =
        resolve_planned_completion_time(&scheduled_context(), "start_plus_duration", None, None, start, 25)
            .expect("duration mode");
    assert_eq!(end, TEN + 25 * 60);
    assert_eq!(completion_anchor, None);
}

#[test]
fn planned_completion_can_be_anchor_plus_negative_offset() {
    let ctx = context(&[
        ("scheduled_time", "2026-08-08T10:00:00Z"),
        ("estimated_departure", "2026-08-08T11:00:00Z"),
    ]);
    let start = TEN;
    let (end, completion_anchor) = resolve_planned_completion_time(
        &ctx,
        "completion_anchor_offset",
        Some("estimated_departure"),
        Some(-10),
        start,
        0,
    )
    .expect("completion anchor mode");
    assert_eq!(end, TEN + 50 * 60);
    assert_eq!(completion_anchor, Some(TEN + 60 * 60));
}

#[test]
fn planned_completion_rejects_unresolvable_anchor() {
    let result = resolve_planned_completion_time(
        &scheduled_context(),
        "completion_anchor_offset",
        Some("unknown"),
        Some(10),
        TEN,
        0,
    );
    assert!(matches!(result, Err(DispatchError::BusinessRuleViolation(message)) if message.contains("无法解析")));
}

#[test]
fn planned_completion_must_be_later_than_start() {
    let result = resolve_planned_completion_time(&scheduled_context(), "start_plus_duration", None, None, TEN, 0);
    assert!(matches!(result, Err(DispatchError::BusinessRuleViolation(message)) if message.contains("必须晚于")));
}

#[test]
fn planned_completion_error_names_both_instants() {
    let result = resolve_planned_completion_time(&scheduled_context(), "start_plus_duration", None, None, TEN, -5);
    match result {
        Err(DispatchError::BusinessRuleViolation(message)) => assert_eq!(
            message,
            "预计完成时间 2026-08-08T09:55:00+00:00 必须晚于预计开始时间 2026-08-08T10:00:00+00:00"
        ),
        _ => panic!("expected a business rule violation"),
    }
}

#[test]
fn planned_completion_rejects_unknown_mode_and_missing_fields() {
    let ctx = scheduled_context();
    match resolve_planned_completion_time(&ctx, "bogus", None, None, TEN, 10) {
        Err(DispatchError::BusinessRuleViolation(m)) => assert_eq!(m, "未知预计完成时间模式: bogus"),
        _ => panic!("unknown mode must be refused"),
    }
    match resolve_planned_completion_time(&ctx, "completion_anchor_offset", None, Some(5), TEN, 0) {
        Err(DispatchError::BusinessRuleViolation(m)) => assert_eq!(m, "完成锚点模式缺少 completion_anchor_type"),
        _ => panic!("missing anchor type must be refused"),
    }
    match resolve_planned_completion_time(&ctx, "completion_anchor_offset", Some("scheduled_time"), None, TEN, 0) {
        Err(DispatchError::BusinessRuleViolation(m)) => assert_eq!(m, "完成锚点模式缺少 completion_offset_minutes"),
        _ => panic!("missing offset must be refused"),
    }
}

#[test]
fn anchor_falls_back_from_actual_to_scheduled_arrival() {
    let ctx = context(&[("scheduled_arrival", "2026-08-08T09:00:00Z"), ("actual_arrival", "not a time")]);
    assert_eq!(legacy_resolve_generation_anchor_time(&ctx, "actual_arrival"), Some(TEN - 3600));
    let ctx = context(&[("estimated_arrival", "2026-08-08T09:30:00+08:00"), ("scheduled_time", "2026-08-08T10:00:00Z")]);
    assert_eq!(legacy_resolve_generation_anchor_time(&ctx, "actual_arrival"), Some(TEN - 3600 - 30 * 60 - 7 * 3600));
}

#[test]
fn out_of_range_completion_is_reported_as_none() {
    let ctx = scheduled_context();
    assert!(try_resolve_planned_completion_time(&ctx, "start_plus_duration", None, None, 8210266876799 - 60, 5).is_none());
    assert!(try_resolve_planned_completion_time(&ctx, "start_plus_duration", None, None, TEN, 5).is_some());
}

#[test]
fn conditions_compare_trimmed_case_insensitive_text_lists_and_booleans() {
    let mut ctx = LegContext::new();
    ctx.insert("flight_nature".to_string(), ContextValue::Text(" Domestic ".to_string()));
    ctx.insert("is_vip".to_string(), ContextValue::Bool(true));
    ctx.insert("delta_t_minutes".to_string(), ContextValue::Other("45".to_string()));
    let cond = |key: &str, expected: ExpectedValue| RuleCondition { key: key.to_string(), expected };

    let ok = vec![
        cond("flight_nature", ExpectedValue::Text("DOMESTIC".to_string())),
        cond("is_vip", ExpectedValue::Bool(true)),
        cond("flight_nature", ExpectedValue::List(vec![Some("intl".to_string()), Some(" domestic".to_string()), None])),
        cond("delta_t_minutes", ExpectedValue::Other("45".to_string())),
        cond("anything", ExpectedValue::Null),
        cond("anything", ExpectedValue::Text("   ".to_string())),
        cond("anything", ExpectedValue::List(Vec::new())),
        cond("anything", ExpectedValue::EmptyObject),
    ];
    assert!(legacy_generation_conditions_match(&ctx, &ok));

    assert!(!legacy_generation_conditions_match(&ctx, &vec![cond("is_vip", ExpectedValue::Bool(false))]));
    assert!(!legacy_generation_conditions_match(&ctx, &vec![cond("missing", ExpectedValue::Bool(true))]));
    assert!(legacy_generation_conditions_match(&ctx, &vec![cond("missing", ExpectedValue::Bool(false))]));
    assert!(!legacy_generation_conditions_match(
        &ctx,
        &vec![cond("flight_nature", ExpectedValue::List(vec![Some("intl".to_string()), None]))]
    ));
    assert!(legacy_generation_conditions_match(&ctx, &vec![cond("is_vip", ExpectedValue::Text("TRUE".to_string()))]));
}

#[test]
fn context_insert_replaces_a_value() {
    let mut ctx = LegContext::new();
    ctx.insert("k".to_string(), ContextValue::Text("a".to_string()));
    ctx.insert("k".to_string(), ContextValue::Text("b".to_string()));
    assert_eq!(ctx.entries.len(), 1);
    assert!(matches!(ctx.get("k"), Some(ContextValue::Text(v)) if v == "b"));
    assert!(ctx.get("other").is_none());
}
