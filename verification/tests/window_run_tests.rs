use fms_dispatch::model::{AssigneeType, DispatchError};
use fms_dispatch::publication_resources::QualificationGrant;
use fms_dispatch::rules::{DispatchService, UserBookings};
use fms_dispatch::window_candidates::Membership;
use fms_dispatch::window_crew::WindowPick;
use fms_dispatch::window_run::{book_window, book_window_picks};

fn grant(user: &str, code: &str, level: &str, team: Option<&str>) -> QualificationGrant {
    QualificationGrant {
        user_id: user.to_string(),
        qualification_code: code.to_string(),
        level_code: level.to_string(),
        valid_to: None,
        source_team_id: team.map(str::to_string),
    }
}

fn ids(v: &[&str]) -> Vec<String> {
    v.iter().map(|s| s.to_string()).collect()
}

fn member(user: &str, team: &str, active: bool) -> Membership {
    Membership { user_id: user.to_string(), team_id: team.to_string(), is_active: active }
}

fn invalid(r: Result<Vec<fms_dispatch::window_crew::WindowCandidate>, DispatchError>) -> String {
    match r {
        Err(DispatchError::ValidationError(m)) => m,
        _ => panic!("expected a validation error"),
    }
}

#[test]
fn window_candidates_fail_in_the_order_the_steps_run() {
    let g = vec![grant("u1", "q", "L1", None)];
    let a = ids(&["u1"]);
    let on_duty = ids(&["u1"]);
    let none: Vec<Membership> = Vec::new();
    let c = |stand, dept, crew, active: &Vec<String>, gs: &Vec<QualificationGrant>, av: &Vec<String>| {
        DispatchService::window_candidates("o-1", stand, dept, crew, active, gs, av, &none)
    };
    assert_eq!(invalid(c(false, false, 0, &on_duty, &g, &a)), "工单 o-1 缺少机位信息");
    assert_eq!(invalid(c(true, false, 0, &on_duty, &g, &a)), "工单 o-1 缺少科室规则上下文，无法执行窗口优化");
    assert_eq!(invalid(c(true, true, 0, &on_duty, &g, &a)), "工单 o-1 缺少已发布资质规则，无法执行窗口优化");
    assert_eq!(invalid(c(true, true, 1, &Vec::new(), &g, &a)), "工单 o-1 当前无在岗可用人员");
    assert_eq!(invalid(c(true, true, 1, &on_duty, &Vec::new(), &a)), "工单 o-1 当前无持证人员可用于窗口优化");
    assert_eq!(invalid(c(true, true, 1, &on_duty, &vec![grant("  ", "q", "L1", None)], &a)), "工单 o-1 当前无持证人员可用于窗口优化");
    assert_eq!(invalid(c(true, true, 1, &on_duty, &g, &Vec::new())), "工单 o-1 当前无在岗且可用的持证人员");
    assert_eq!(invalid(c(true, true, 1, &on_duty, &g, &ids(&["u9"]))), "工单 o-1 当前无在岗且可用的持证人员");
}

#[test]
fn window_candidates_are_sorted_with_their_qualifications_and_team() {
    let g = vec![
        grant("u2", "tug", "L2", None),
        grant("u1", "lead", "L1", Some(" T9 ")),
        grant("u2", "belt", "L1", Some("T7")),
        grant("u3", "tug", "L1", None),
    ];
    let memberships = vec![member("u2", "T0", false), member("u2", " T2 ", true), member("u1", "T1", true)];
    let r = DispatchService::window_candidates("o-1", true, true, 2, &ids(&["u1", "u2", "u3"]), &g, &ids(&["u2", "u1"]), &memberships)
        .unwrap();
    assert_eq!(r.len(), 2);
    assert_eq!(r[0].user_id, "u1");
    assert_eq!(r[0].source_team_id.as_deref(), Some("T1"));
    assert_eq!(r[0].qualifications.len(), 1);
    assert_eq!(r[0].qualifications[0].source_team_id.as_deref(), Some("T9"));
    assert_eq!(r[1].user_id, "u2");
    assert_eq!(r[1].source_team_id.as_deref(), Some("T2"));
    assert_eq!(r[1].qualifications.len(), 2);
    assert_eq!(r[1].qualifications[0].qualification_code, "tug");
    assert_eq!(r[1].qualifications[0].level_code.as_deref(), Some("L2"));
    assert_eq!(r[1].qualifications[0].source_team_id.as_deref(), Some("T2"));
    assert_eq!(r[1].qualifications[1].source_team_id.as_deref(), Some("T7"));
}

fn pick(user: &str) -> WindowPick {
    WindowPick {
        user_id: user.to_string(),
        source_team_id: None,
        slot_code: "lead".to_string(),
        qualification_code: "q".to_string(),
        qualification_level_code: None,
    }
}

#[test]
fn a_window_run_books_each_placed_person() {
    let mut bookings = vec![UserBookings { user_id: "u1".to_string(), windows: vec![(0, 100)] }];
    book_window_picks(&mut bookings, &vec![pick("u1"), pick("u2")], 200, 300);
    assert_eq!(bookings.len(), 2);
    assert_eq!(bookings[0].windows, vec![(0, 100), (200, 300)]);
    assert_eq!(bookings[1].user_id, "u2");
    assert_eq!(bookings[1].windows, vec![(200, 300)]);
    book_window(&mut bookings, "u2", 400, 500);
    assert_eq!(bookings[1].windows, vec![(200, 300), (400, 500)]);
}

#[test]
fn checkin_creates_members_only_on_individual_orders() {
    assert!(DispatchService::should_auto_create_checkin_member_for(AssigneeType::Individual, Some("u1"), "u1"));
    assert!(!DispatchService::should_auto_create_checkin_member_for(AssigneeType::Team, Some("u1"), "u1"));
    assert!(!DispatchService::should_auto_create_checkin_member_for(AssigneeType::Individual, Some("u2"), "u1"));
    assert!(!DispatchService::should_auto_create_checkin_member_for(AssigneeType::Individual, None, "u1"));
}

#[test]
fn replan_requests_check_the_window_and_clamp_the_limit() {
    match DispatchService::replan_request_limit(100, 100, None) {
        Err(DispatchError::ValidationError(m)) => assert_eq!(m, "window_end 必须晚于 window_start"),
        _ => panic!("expected a validation error"),
    }
    assert_eq!(DispatchService::replan_request_limit(0, 100, None).unwrap(), 20);
    assert_eq!(DispatchService::replan_request_limit(0, 100, Some(0)).unwrap(), 1);
    assert_eq!(DispatchService::replan_request_limit(0, 100, Some(9000)).unwrap(), 500);
    assert_eq!(DispatchService::replan_request_limit(0, 100, Some(7)).unwrap(), 7);
}

#[test]
fn generated_drafts_start_pending_and_prepublished() {
    let s = DispatchService::generated_draft_state();
    assert_eq!(s.status, "pending");
    assert_eq!(s.publication_state, "prepublished");
    assert_eq!(s.dispatch_type, "auto");
    assert_eq!(s.source, "system");
    assert_eq!(s.workflow_status, "pending_assignment");
    assert_eq!(s.lock_level, "optimizable");
}
