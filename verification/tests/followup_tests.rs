use fms_dispatch::followup::FollowupItem;
use fms_dispatch::model::DispatchError;
use fms_dispatch::rules::DispatchService;

fn item(position: usize, due: Option<&str>, title: &str, source: &str, terminal: bool) -> FollowupItem {
    FollowupItem {
        position,
        due_date: due.map(str::to_string),
        title: Some(title.to_string()),
        source_type: Some(source.to_string()),
        is_terminal: terminal,
    }
}

#[test]
fn followup_sources_are_both_or_the_one_asked_for() {
    let all = DispatchService::followup_sources(None).unwrap();
    assert_eq!(all, vec![("dispatch_soft_followup", "soft_followup"), ("dispatch_arrival_verification", "arrival_verification")]);
    assert_eq!(DispatchService::followup_sources(Some("  ")).unwrap().len(), 2);
    assert_eq!(
        DispatchService::followup_sources(Some(" dispatch_arrival_verification ")).unwrap(),
        vec![("dispatch_arrival_verification", "arrival_verification")]
    );
    match DispatchService::followup_sources(Some("other")) {
        Err(DispatchError::ValidationError(m)) => assert_eq!(m, "invalid source_type"),
        _ => panic!("expected a validation error"),
    }
}

#[test]
fn the_queue_shows_open_todos_earliest_due_first() {
    let items = vec![
        item(0, None, "a", "dispatch_soft_followup", false),
        item(1, Some("2026-08-09"), "b", "dispatch_soft_followup", false),
        item(2, Some("2026-08-08"), "z", "dispatch_arrival_verification", false),
        item(3, Some("2026-08-08"), "c", "dispatch_arrival_verification", true),
        item(4, Some("2026-08-08"), "m", "dispatch_arrival_verification", false),
    ];
    let q = DispatchService::followup_queue(&items, 10);
    assert_eq!(q.positions, vec![4, 2, 1, 0]);
    assert_eq!(q.total, 4);
    assert_eq!(q.pending_verification_count, 2);
    assert_eq!(q.soft_followup_count, 2);
    let short = DispatchService::followup_queue(&items, 0);
    assert_eq!(short.positions, vec![4]);
    assert_eq!(short.total, 4);
}

#[test]
fn checklist_progress_is_reported_once_per_order_and_task() {
    let pairs = vec![
        (" o1 ".to_string(), "tow".to_string()),
        ("o1".to_string(), " tow ".to_string()),
        ("o2".to_string(), " ".to_string()),
        ("o1".to_string(), "fuel".to_string()),
    ];
    assert_eq!(
        DispatchService::checklist_progress_keys(&pairs),
        vec![("o1".to_string(), "tow".to_string()), ("o1".to_string(), "fuel".to_string())]
    );
}
