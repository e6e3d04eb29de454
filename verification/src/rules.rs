//! Stateless dispatch rules: actor and publication gates, identifier
//! normalisation, intervals, crew lists, conflict kinds and issue fields.

use vstd::prelude::*;
use crate::idset::{has_id, insert_sorted, sorted_ids};
use crate::model::{is_instant, DispatchError, DispatchOrder, MemberRole};
use crate::text::{blank, concat_views, folded_eq, is_blank, join_texts, lower_ascii, lower_code, text_eq, to_ascii_lowercase, trim, trimmed, trimmed_folded_eq};
use crate::model::AlertSeverity;

verus! {

/// The stateless rules of the dispatch service.
pub struct DispatchService {}

/// Priority of a follow-up to-do.
#[derive(Clone, Copy, Debug, PartialEq, Eq, Structural)]
pub enum TodoPriority {
    Critical,
    High,
    Medium,
    Low,
    Background,
}

/// Severity of a reported issue.
#[derive(Clone, Copy, Debug, PartialEq, Eq, Structural)]
pub enum IssueSeverity {
    Low,
    Medium,
    High,
    Critical,
}

/// Kind of a reported issue.
#[derive(Clone, Copy, Debug, PartialEq, Eq, Structural)]
pub enum IssueType {
    GateStandConflict,
    KpiDegradation,
    AiRisk,
    DispatchIssue,
}

/// `s` trimmed, or nothing when that leaves it empty.
pub open spec fn normalized_opt(s: Option<Seq<char>>) -> Option<Seq<char>> {
    match s {
        Some(t) => if is_blank(t) {
            None
        } else {
            Some(trimmed(t))
        },
        None => None,
    }
}

/// The first instant that is given among `a`, `b`, `c`, `d`, else `e`.
pub open spec fn first_given(a: Option<i64>, b: Option<i64>, c: Option<i64>, d: Option<i64>, e: i64) -> i64 {
    match a {
        Some(x) => x,
        None => match b {
            Some(x) => x,
            None => match c {
                Some(x) => x,
                None => match d {
                    Some(x) => x,
                    None => e,
                },
            },
        },
    }
}

/// The start of an order's busy interval for the service: actual start,
/// else planned start, dispatch or creation time, else `fallback_now`.
pub open spec fn service_interval_start(o: &DispatchOrder, fallback_now: i64) -> i64 {
    first_given(o.actual_start_time, o.planned_start_time, o.dispatched_at, o.created_at, fallback_now)
}

/// The start of an order's busy interval for conflict checks: actual
/// start, else planned start, assignment deadline or creation time, else
/// `fallback_now`.
pub open spec fn interval_start(o: &DispatchOrder, fallback_now: i64) -> i64 {
    first_given(o.actual_start_time, o.planned_start_time, o.assignment_deadline, o.created_at, fallback_now)
}

/// The busy interval of an order for conflict checks: it ends at the actual
/// end, else the estimated completion or the planned end, else twenty
/// minutes after the start; an end not after the start becomes eight
/// minutes after it.
pub open spec fn conflict_interval(o: &DispatchOrder, fallback_now: i64) -> (int, int) {
    let start = interval_start(o, fallback_now) as int;
    let end = match o.actual_end_time {
        Some(e) => e as int,
        None => match o.estimated_completion_time {
            Some(e) => e as int,
            None => match o.planned_end_time {
                Some(e) => e as int,
                None => start + 1200,
            },
        },
    };
    if end <= start {
        (start, start + 480)
    } else {
        (start, end)
    }
}

/// The busy interval of an order for conflict checks.
pub fn effective_interval(order: &DispatchOrder, fallback_now: i64) -> (r: (i64, i64))
    requires
        is_instant(interval_start(order, fallback_now) as int + 1200),
    ensures
        (r.0 as int, r.1 as int) == conflict_interval(order, fallback_now),
{
    let start = match order.actual_start_time {
        Some(x) => x,
        None => match order.planned_start_time {
            Some(x) => x,
            None => match order.assignment_deadline {
                Some(x) => x,
                None => match order.created_at {
                    Some(x) => x,
                    None => fallback_now,
                },
            },
        },
    };
    let end = match order.actual_end_time {
        Some(e) => e,
        None => match order.estimated_completion_time {
            Some(e) => e,
            None => match order.planned_end_time {
                Some(e) => e,
                None => start + 1200,
            },
        },
    };
    if end <= start {
        (start, start + 480)
    } else {
        (start, end)
    }
}

/// A duration in seconds, with anything not positive read as eight minutes.
pub fn normalize_duration(seconds: i64) -> (r: i64)
    ensures
        r == if seconds <= 0 {
            480
        } else {
            seconds
        },
{
    if seconds <= 0 {
        480
    } else {
        seconds
    }
}

/// The interval of a window task: its planned start (else `fallback_start`)
/// to its planned end (else fifteen minutes later), an end before the start
/// collapsing onto the start.
pub open spec fn window_interval(o: &DispatchOrder, fallback_start: i64) -> (int, int) {
    let start = match o.planned_start_time {
        Some(s) => s as int,
        None => fallback_start as int,
    };
    let end = match o.planned_end_time {
        Some(e) => e as int,
        None => start + 900,
    };
    if end < start {
        (start, start)
    } else {
        (start, end)
    }
}

/// `xs` with every sequence kept only at its first occurrence.
pub open spec fn dedup_views(xs: Seq<Seq<char>>) -> Seq<Seq<char>>
    decreases xs.len(),
{
    if xs.len() == 0 {
        xs
    } else {
        let r = dedup_views(xs.drop_last());
        if r.contains(xs.last()) {
            r
        } else {
            r.push(xs.last())
        }
    }
}

/// The normalised identifiers `xs` yields, blank ones dropped.
pub open spec fn nonblank_trimmed(xs: Seq<Option<Seq<char>>>) -> Seq<Seq<char>>
    decreases xs.len(),
{
    if xs.len() == 0 {
        Seq::empty()
    } else {
        let r = nonblank_trimmed(xs.drop_last());
        match normalized_opt(xs.last()) {
            Some(t) => r.push(t),
            None => r,
        }
    }
}

/// Candidate crew identifiers of an order: the individual assignee, then
/// the active members.
pub open spec fn crew_candidates(o: &DispatchOrder) -> Seq<Option<Seq<char>>> {
    seq![match o.individual_user_id {
        Some(u) => Some(u@),
        None => None,
    }] + Seq::new(
        o.members@.len(),
        |k: int| if o.members@[k].is_active {
            Some(o.members@[k].user_id@)
        } else {
            None
        },
    )
}

/// Candidate crew identifiers of an order for the service: those of
/// `crew_candidates`, then the crew payload's members.
pub open spec fn service_crew_candidates(o: &DispatchOrder) -> Seq<Option<Seq<char>>> {
    crew_candidates(o) + match o.task_crew.members {
        Some(ms) => Seq::new(
            ms@.len(),
            |k: int| match ms@[k].user_id {
                Some(u) => Some(u@),
                None => None,
            },
        ),
        None => Seq::empty(),
    }
}

/// The crew of an order, each person once, in order of first mention.
pub open spec fn order_crew(o: &DispatchOrder) -> Seq<Seq<char>> {
    dedup_views(nonblank_trimmed(crew_candidates(o)))
}

/// The crew of an order for the service, each person once.
pub open spec fn service_order_crew(o: &DispatchOrder) -> Seq<Seq<char>> {
    dedup_views(nonblank_trimmed(service_crew_candidates(o)))
}

/// The character sequences of a list of strings.
pub open spec fn string_views(v: Seq<String>) -> Seq<Seq<char>> {
    v.map_values(|s: String| s@)
}

fn contains_view(v: &Vec<String>, x: &str) -> (r: bool)
    ensures
        r == string_views(v@).contains(x@),
{
    let mut i: usize = 0;
    while i < v.len()
        invariant
            i <= v@.len(),
            forall|k: int| 0 <= k < i ==> (#[trigger] v@[k])@ != x@,
        decreases v@.len() - i,
    {
        if text_eq(v[i].as_str(), x) {
            assert(string_views(v@)[i as int] == x@);
            return true;
        }
        i = i + 1;
    }
    proof {
        if string_views(v@).contains(x@) {
            let k = choose|k: int| 0 <= k < string_views(v@).len() && string_views(v@)[k] == x@;
            assert(v@[k]@ == x@);
        }
    }
    false
}

/// Adds the normalised candidate `c` to the crew list `acc` unless it is
/// blank or already there.
fn add_candidate(acc: &mut Vec<String>, c: Option<&str>, Ghost(seen): Ghost<Seq<Option<Seq<char>>>>)
    requires
        string_views(old(acc)@) == dedup_views(nonblank_trimmed(seen)),
    ensures
        string_views(final(acc)@) == dedup_views(
            nonblank_trimmed(
                seen.push(
                    match c {
                        Some(s) => Some(s@),
                        None => None,
                    },
                ),
            ),
        ),
{
    let ghost cv = match c {
        Some(s) => Some(s@),
        None => None::<Seq<char>>,
    };
    assert(seen.push(cv).drop_last() =~= seen);
    match c {
        Some(s) => {
            let t = trim(s);
            if t.unicode_len() == 0 {
                return;
            }
            assert(nonblank_trimmed(seen.push(cv)) == nonblank_trimmed(seen).push(t@));
            assert(nonblank_trimmed(seen).push(t@).drop_last() =~= nonblank_trimmed(seen));
            if !contains_view(acc, t) {
                acc.push(String::from_str(t));
                assert(string_views(acc@) =~= string_views(old(acc)@).push(t@));
            }
        },
        None => {},
    }
}

impl DispatchService {
    /// An actor must be signed in: a blank actor is unauthorized.
    pub fn ensure_actor(actor_id: &str) -> (r: Result<(), DispatchError>)
        ensures
            r is Ok <==> !is_blank(actor_id@),
            r matches Err(e) ==> e matches DispatchError::Unauthorized(m) && m@ == "未登录"@,
    {
        if blank(actor_id) {
            return Err(DispatchError::Unauthorized(String::from_str("未登录")));
        }
        Ok(())
    }

    /// An order still prepublished cannot be executed (`action_label` names
    /// the refused action).
    pub fn ensure_order_execution_published(order: &DispatchOrder, action_label: &str) -> (r: Result<
        (),
        DispatchError,
    >)
        ensures
            r is Err <==> trimmed(order.publication_state@) == "prepublished"@,
            r matches Err(e) ==> e matches DispatchError::BusinessRuleViolation(m) && m@ == "预发布工单尚未正式发布，不能"@
                + action_label@,
    {
        if text_eq(trim(order.publication_state.as_str()), "prepublished") {
            let m = join_texts(&["预发布工单尚未正式发布，不能", action_label]);
            assert(concat_views(seq!["预发布工单尚未正式发布，不能", action_label]) =~= "预发布工单尚未正式发布，不能"@ + action_label@) by {
                reveal_with_fuel(concat_views, 3);
            }
            return Err(DispatchError::BusinessRuleViolation(m));
        }
        Ok(())
    }

    /// A reference trimmed, or nothing when it is missing or blank.
    pub fn normalize_optional_ref(value: Option<&str>) -> (r: Option<&str>)
        ensures
            match r {
                Some(s) => normalized_opt(
                    match value {
                        Some(v) => Some(v@),
                        None => None,
                    },
                ) == Some(s@),
                None => normalized_opt(
                    match value {
                        Some(v) => Some(v@),
                        None => None,
                    },
                ) is None,
            },
    {
        match value {
            Some(v) => {
                let t = trim(v);
                if t.unicode_len() == 0 {
                    None
                } else {
                    Some(t)
                }
            },
            None => None,
        }
    }

    /// A text trimmed, or nothing when it is missing or blank.
    pub fn normalize_optional_string(value: Option<String>) -> (r: Option<String>)
        ensures
            match r {
                Some(s) => normalized_opt(
                    match value {
                        Some(v) => Some(v@),
                        None => None,
                    },
                ) == Some(s@),
                None => normalized_opt(
                    match value {
                        Some(v) => Some(v@),
                        None => None,
                    },
                ) is None,
            },
    {
        match value {
            Some(v) => {
                let t = trim(v.as_str());
                if t.unicode_len() == 0 {
                    None
                } else {
                    Some(String::from_str(t))
                }
            },
            None => None,
        }
    }

    /// A check-in creates its own member record only for the order's
    /// individual assignee.
    pub fn should_auto_create_checkin_member(individual_user_id: Option<&str>, actor_id: &str) -> (r: bool)
        ensures
            r == (individual_user_id matches Some(u) && u@ == actor_id@),
    {
        match individual_user_id {
            Some(u) => text_eq(u, actor_id),
            None => false,
        }
    }

    /// A check-in creates its own member record only on an order assigned
    /// to one person, for that person.
    pub fn should_auto_create_checkin_member_for(
        assignee_type: crate::model::AssigneeType,
        individual_user_id: Option<&str>,
        actor_id: &str,
    ) -> (r: bool)
        ensures
            r == (assignee_type == crate::model::AssigneeType::Individual && (individual_user_id matches Some(u)
                && u@ == actor_id@)),
    {
        assignee_type == crate::model::AssigneeType::Individual && Self::should_auto_create_checkin_member(
            individual_user_id,
            actor_id,
        )
    }

    /// The rank of a severity: critical 4, high 3, medium 2, anything else 1.
    pub fn severity_rank(severity: &str) -> (r: i32)
        ensures
            r == if severity@ == "critical"@ {
                4i32
            } else if severity@ == "high"@ {
                3i32
            } else if severity@ == "medium"@ {
                2i32
            } else {
                1i32
            },
    {
        if text_eq(severity, "critical") {
            4
        } else if text_eq(severity, "high") {
            3
        } else if text_eq(severity, "medium") {
            2
        } else {
            1
        }
    }

    /// The priority a to-do text names (Chinese or English); medium otherwise.
    pub fn parse_todo_priority(value: &str) -> (r: TodoPriority)
        ensures
            r == if trimmed(value@) == "关键"@ || trimmed(value@) == "critical"@ {
                TodoPriority::Critical
            } else if trimmed(value@) == "高"@ || trimmed(value@) == "high"@ {
                TodoPriority::High
            } else if trimmed(value@) == "低"@ || trimmed(value@) == "low"@ {
                TodoPriority::Low
            } else if trimmed(value@) == "后台"@ || trimmed(value@) == "background"@ {
                TodoPriority::Background
            } else {
                TodoPriority::Medium
            },
    {
        let v = trim(value);
        if text_eq(v, "关键") || text_eq(v, "critical") {
            TodoPriority::Critical
        } else if text_eq(v, "高") || text_eq(v, "high") {
            TodoPriority::High
        } else if text_eq(v, "低") || text_eq(v, "low") {
            TodoPriority::Low
        } else if text_eq(v, "后台") || text_eq(v, "background") {
            TodoPriority::Background
        } else {
            TodoPriority::Medium
        }
    }

    /// The busy interval of an order for the service: from its actual
    /// start (else planned start, dispatch or creation time, else
    /// `fallback_now`) to its actual end (else planned end, else fifteen
    /// minutes later), an end before the start collapsing onto the start.
    pub fn effective_interval(order: &DispatchOrder, fallback_now: i64) -> (r: (i64, i64))
        requires
            is_instant(service_interval_start(order, fallback_now) as int + 900),
        ensures
            r.0 == service_interval_start(order, fallback_now),
            r.1 == {
                let start = service_interval_start(order, fallback_now) as int;
                let end = match order.actual_end_time {
                    Some(e) => e as int,
                    None => match order.planned_end_time {
                        Some(e) => e as int,
                        None => start + 900,
                    },
                };
                if end < start {
                    start
                } else {
                    end
                }
            },
    {
        let start = match order.actual_start_time {
            Some(x) => x,
            None => match order.planned_start_time {
                Some(x) => x,
                None => match order.dispatched_at {
                    Some(x) => x,
                    None => match order.created_at {
                        Some(x) => x,
                        None => fallback_now,
                    },
                },
            },
        };
        let mut end = match order.actual_end_time {
            Some(e) => e,
            None => match order.planned_end_time {
                Some(e) => e,
                None => start + 900,
            },
        };
        if end < start {
            end = start;
        }
        (start, end)
    }

    /// The interval of a window task.
    pub fn window_task_interval(order: &DispatchOrder, fallback_start: i64) -> (r: (i64, i64))
        requires
            order.planned_end_time is None ==> is_instant(
                match order.planned_start_time {
                    Some(s) => s as int,
                    None => fallback_start as int,
                } + 900,
            ),
        ensures
            (r.0 as int, r.1 as int) == window_interval(order, fallback_start),
    {
        let start = match order.planned_start_time {
            Some(s) => s,
            None => fallback_start,
        };
        let end = match order.planned_end_time {
            Some(e) => e,
            None => start + 900,
        };
        if end < start {
            (start, start)
        } else {
            (start, end)
        }
    }

    /// The crew of an order for the service: its individual assignee, its
    /// active members and the members of its crew payload, trimmed, blank
    /// ones dropped, each person once in order of first mention.
    pub fn order_member_user_ids(order: &DispatchOrder) -> (r: Vec<String>)
        ensures
            string_views(r@) == service_order_crew(order),
    {
        let mut acc: Vec<String> = Vec::new();
        let ghost mut seen: Seq<Option<Seq<char>>> = Seq::empty();
        let first: Option<&str> = match &order.individual_user_id {
            Some(u) => Some(u.as_str()),
            None => None,
        };
        assert(string_views(acc@) =~= dedup_views(nonblank_trimmed(seen)));
        add_candidate(&mut acc, first, Ghost(seen));
        proof {
            seen = seen.push(
                match first {
                    Some(s) => Some(s@),
                    None => None,
                },
            );
        }
        let mut i: usize = 0;
        while i < order.members.len()
            invariant
                i <= order.members@.len(),
                seen == crew_candidates(order).take(1 + i),
                string_views(acc@) == dedup_views(nonblank_trimmed(seen)),
            decreases order.members@.len() - i,
        {
            let m = &order.members[i];
            let c: Option<&str> = if m.is_active {
                Some(m.user_id.as_str())
            } else {
                None
            };
            add_candidate(&mut acc, c, Ghost(seen));
            proof {
                seen = seen.push(
                    match c {
                        Some(s) => Some(s@),
                        None => None,
                    },
                );
                assert(seen =~= crew_candidates(order).take(1 + i + 1));
            }
            i = i + 1;
        }
        assert(seen =~= crew_candidates(order));
        match &order.task_crew.members {
            Some(ms) => {
                let mut j: usize = 0;
                while j < ms.len()
                    invariant
                        j <= ms@.len(),
                        order.task_crew.members == Some(*ms),
                        seen == service_crew_candidates(order).take(crew_candidates(order).len() + j),
                        string_views(acc@) == dedup_views(nonblank_trimmed(seen)),
                    decreases ms@.len() - j,
                {
                    let c: Option<&str> = match &ms[j].user_id {
                        Some(u) => Some(u.as_str()),
                        None => None,
                    };
                    add_candidate(&mut acc, c, Ghost(seen));
                    proof {
                        seen = seen.push(
                            match c {
                                Some(s) => Some(s@),
                                None => None,
                            },
                        );
                        assert(seen =~= service_crew_candidates(order).take(crew_candidates(order).len() + j + 1));
                    }
                    j = j + 1;
                }
                assert(seen =~= service_crew_candidates(order));
            },
            None => {
                assert(seen =~= service_crew_candidates(order));
            },
        }
        acc
    }

    /// The role a crew slot gives its member: `lead` leads, `driver` drives.
    pub fn member_role_from_slot(slot_code: Option<&str>) -> (r: MemberRole)
        ensures
            r == match slot_code {
                Some(s) => if trimmed(s@) == "lead"@ {
                    MemberRole::Leader
                } else if trimmed(s@) == "driver"@ {
                    MemberRole::Driver
                } else {
                    MemberRole::Member
                },
                None => MemberRole::Member,
            },
    {
        match slot_code {
            Some(s) => {
                let t = trim(s);
                if text_eq(t, "lead") {
                    MemberRole::Leader
                } else if text_eq(t, "driver") {
                    MemberRole::Driver
                } else {
                    MemberRole::Member
                }
            },
            None => MemberRole::Member,
        }
    }
}

/// The crew of an order: its individual assignee and its active members,
/// trimmed, blank ones dropped, each person once in order of first mention.
pub fn order_member_user_ids(order: &DispatchOrder) -> (r: Vec<String>)
    ensures
        string_views(r@) == order_crew(order),
{
    let mut acc: Vec<String> = Vec::new();
    let ghost mut seen: Seq<Option<Seq<char>>> = Seq::empty();
    let first: Option<&str> = match &order.individual_user_id {
        Some(u) => Some(u.as_str()),
        None => None,
    };
    assert(string_views(acc@) =~= dedup_views(nonblank_trimmed(seen)));
    add_candidate(&mut acc, first, Ghost(seen));
    proof {
        seen = seen.push(
            match first {
                Some(s) => Some(s@),
                None => None,
            },
        );
    }
    let mut i: usize = 0;
    while i < order.members.len()
        invariant
            i <= order.members@.len(),
            seen == crew_candidates(order).take(1 + i),
            string_views(acc@) == dedup_views(nonblank_trimmed(seen)),
        decreases order.members@.len() - i,
    {
        let m = &order.members[i];
        let c: Option<&str> = if m.is_active {
            Some(m.user_id.as_str())
        } else {
            None
        };
        add_candidate(&mut acc, c, Ghost(seen));
        proof {
            seen = seen.push(
                match c {
                    Some(s) => Some(s@),
                    None => None,
                },
            );
            assert(seen =~= crew_candidates(order).take(1 + i + 1));
        }
        i = i + 1;
    }
    assert(seen =~= crew_candidates(order));
    acc
}

} // verus!

verus! {

/// Whether both orders name the same individual assignee.
pub open spec fn same_individual(a: &DispatchOrder, b: &DispatchOrder) -> bool {
    match (a.individual_user_id, b.individual_user_id) {
        (Some(x), Some(y)) => x@ == y@,
        _ => false,
    }
}

/// Whether both orders name the same stand.
pub open spec fn same_stand(a: &DispatchOrder, b: &DispatchOrder) -> bool {
    match (a.stand_id, b.stand_id) {
        (Some(x), Some(y)) => x@ == y@,
        _ => false,
    }
}

/// Whether the crews of two orders share a person.
pub open spec fn crews_overlap(a: &DispatchOrder, b: &DispatchOrder) -> bool {
    exists|x: Seq<char>| order_crew(a).contains(x) && order_crew(b).contains(x)
}

/// The kinds of conflict between an order and a candidate, in increasing
/// order: the same individual, else a shared crew member; the same stand.
pub open spec fn conflict_kinds(a: &DispatchOrder, b: &DispatchOrder) -> Seq<Seq<char>> {
    (if same_individual(a, b) {
        seq!["individual_overlap"@]
    } else {
        Seq::empty()
    }) + (if crews_overlap(a, b) && !same_individual(a, b) {
        seq!["person_time_overlap"@]
    } else {
        Seq::empty()
    }) + (if same_stand(a, b) {
        seq!["stand_overlap"@]
    } else {
        Seq::empty()
    })
}

fn same_opt_text(a: &Option<String>, b: &Option<String>) -> (r: bool)
    ensures
        r == match (*a, *b) {
            (Some(x), Some(y)) => x@ == y@,
            _ => false,
        },
{
    match (a, b) {
        (Some(x), Some(y)) => text_eq(x.as_str(), y.as_str()),
        _ => false,
    }
}

fn views_share(a: &Vec<String>, b: &Vec<String>) -> (r: bool)
    ensures
        r == exists|x: Seq<char>| string_views(a@).contains(x) && string_views(b@).contains(x),
{
    let mut i: usize = 0;
    while i < a.len()
        invariant
            i <= a@.len(),
            forall|k: int| 0 <= k < i ==> !string_views(b@).contains(#[trigger] a@[k]@),
        decreases a@.len() - i,
    {
        if contains_view(b, a[i].as_str()) {
            assert(string_views(a@)[i as int] == a@[i as int]@);
            return true;
        }
        i = i + 1;
    }
    proof {
        if exists|x: Seq<char>| string_views(a@).contains(x) && string_views(b@).contains(x) {
            let x = choose|x: Seq<char>| string_views(a@).contains(x) && string_views(b@).contains(x);
            let k = choose|k: int| 0 <= k < string_views(a@).len() && string_views(a@)[k] == x;
            assert(a@[k]@ == x);
        }
    }
    false
}

/// The kinds of conflict between an order and a candidate.
pub fn eta_conflict_kinds(current: &DispatchOrder, candidate: &DispatchOrder) -> (r: Vec<String>)
    ensures
        string_views(r@) == conflict_kinds(current, candidate),
{
    let same_ind = same_opt_text(&current.individual_user_id, &candidate.individual_user_id);
    let left = order_member_user_ids(current);
    let right = order_member_user_ids(candidate);
    let overlap = views_share(&left, &right);
    let mut r: Vec<String> = Vec::new();
    if same_ind {
        r.push(String::from_str("individual_overlap"));
    }
    if overlap && !same_ind {
        r.push(String::from_str("person_time_overlap"));
    }
    if same_opt_text(&current.stand_id, &candidate.stand_id) {
        r.push(String::from_str("stand_overlap"));
    }
    assert(string_views(r@) =~= conflict_kinds(current, candidate));
    r
}

/// The label of a conflict kind.
pub open spec fn conflict_label(kind: Seq<char>) -> Seq<char> {
    if kind == "team_overlap"@ {
        "班组时间冲突"@
    } else if kind == "individual_overlap"@ {
        "执行人重叠"@
    } else if kind == "person_time_overlap"@ {
        "成员编组重叠"@
    } else if kind == "stand_overlap"@ {
        "机位窗口重叠"@
    } else {
        "资源冲突"@
    }
}

/// The labels of `kinds`, separated by `/`.
pub open spec fn conflict_labels(kinds: Seq<Seq<char>>) -> Seq<char>
    decreases kinds.len(),
{
    if kinds.len() == 0 {
        Seq::empty()
    } else if kinds.len() == 1 {
        conflict_label(kinds[0])
    } else {
        conflict_labels(kinds.drop_last()) + "/"@ + conflict_label(kinds.last())
    }
}

fn conflict_label_exec(kind: &str) -> (r: &'static str)
    ensures
        r@ == conflict_label(kind@),
{
    if text_eq(kind, "team_overlap") {
        "班组时间冲突"
    } else if text_eq(kind, "individual_overlap") {
        "执行人重叠"
    } else if text_eq(kind, "person_time_overlap") {
        "成员编组重叠"
    } else if text_eq(kind, "stand_overlap") {
        "机位窗口重叠"
    } else {
        "资源冲突"
    }
}

/// A description of conflict kinds: their labels separated by `/`.
pub fn describe_conflict_kinds(conflict_kinds: &[String]) -> (r: String)
    ensures
        r@ == conflict_labels(string_views(conflict_kinds@)),
{
    let mut r = String::new();
    let mut i: usize = 0;
    while i < conflict_kinds.len()
        invariant
            i <= conflict_kinds@.len(),
            r@ == conflict_labels(string_views(conflict_kinds@.subrange(0, i as int))),
        decreases conflict_kinds@.len() - i,
    {
        let ghost pre = string_views(conflict_kinds@.subrange(0, i as int));
        let ghost post = string_views(conflict_kinds@.subrange(0, i + 1));
        assert(post.drop_last() =~= pre);
        if i > 0 {
            proof {
                reveal_strlit("/");
            }
            r.append("/");
        }
        r.append(conflict_label_exec(conflict_kinds[i].as_str()));
        assert(post.last() == conflict_kinds@[i as int]@);
        proof {
            if i == 0 {
                assert(r@ =~= conflict_labels(post));
            }
        }
        i = i + 1;
    }
    assert(conflict_kinds@.subrange(0, conflict_kinds@.len() as int) =~= conflict_kinds@);
    r
}

/// Whether the bookings of `user_id` meet the window `[start, end)`.
pub struct UserBookings {
    pub user_id: String,
    pub windows: Vec<(i64, i64)>,
}

/// Whether some booking of `user_id` overlaps `[start, end)`; the first
/// entry of a user holds that user's bookings.
pub open spec fn booking_overlaps(b: Seq<UserBookings>, user: Seq<char>, start: i64, end: i64) -> bool {
    exists|i: int|
        0 <= i < b.len() && b[i].user_id@ == user && (forall|k: int| 0 <= k < i ==> (#[trigger] b[k]).user_id@ != user)
            && exists|j: int| 0 <= j < b[i].windows@.len() && (#[trigger] b[i].windows@[j]).0 < end && start < b[i].windows@[j].1
}

/// Whether a user's bookings overlap the window `[start_time, end_time)`.
pub fn users_overlap_window(bookings: &Vec<UserBookings>, user_id: &str, start_time: i64, end_time: i64) -> (r: bool)
    ensures
        r == booking_overlaps(bookings@, user_id@, start_time, end_time),
{
    let mut i: usize = 0;
    while i < bookings.len()
        invariant
            i <= bookings@.len(),
            forall|k: int| 0 <= k < i ==> (#[trigger] bookings@[k]).user_id@ != user_id@,
        decreases bookings@.len() - i,
    {
        if text_eq(bookings[i].user_id.as_str(), user_id) {
            let w = &bookings[i].windows;
            let mut j: usize = 0;
            while j < w.len()
                invariant
                    j <= w@.len(),
                    i < bookings@.len(),
                    *w == bookings@[i as int].windows,
                    bookings@[i as int].user_id@ == user_id@,
                    forall|k: int| 0 <= k < i ==> (#[trigger] bookings@[k]).user_id@ != user_id@,
                    forall|k: int| 0 <= k < j ==> !((#[trigger] w@[k]).0 < end_time && start_time < w@[k].1),
                decreases w@.len() - j,
            {
                if w[j].0 < end_time && start_time < w[j].1 {
                    assert(bookings@[i as int].windows@[j as int] == w@[j as int]);
                    return true;
                }
                j = j + 1;
            }
            proof {
                if booking_overlaps(bookings@, user_id@, start_time, end_time) {
                    let p = choose|p: int|
                        0 <= p < bookings@.len() && bookings@[p].user_id@ == user_id@ && (forall|k: int|
                            0 <= k < p ==> (#[trigger] bookings@[k]).user_id@ != user_id@) && exists|q: int|
                            0 <= q < bookings@[p].windows@.len() && (#[trigger] bookings@[p].windows@[q]).0 < end_time
                                && start_time < bookings@[p].windows@[q].1;
                    if p < i {
                    } else if p > i {
                        assert(bookings@[i as int].user_id@ == user_id@);
                    }
                }
            }
            return false;
        }
        i = i + 1;
    }
    false
}

/// The levels a grant level covers.
pub struct LevelCoverage {
    pub level_code: String,
    pub covered: Vec<String>,
}

/// The levels `level` covers, by the first entry for it.
pub open spec fn covered_levels(index: Seq<LevelCoverage>, level: Seq<char>) -> Option<Seq<String>>
    decreases index.len(),
{
    if index.len() == 0 {
        None
    } else if index[0].level_code@ == level {
        Some(index[0].covered@)
    } else {
        covered_levels(index.drop_first(), level)
    }
}

fn find_coverage<'a>(index: &'a Vec<LevelCoverage>, level: &str) -> (r: Option<&'a Vec<String>>)
    ensures
        match r {
            Some(v) => covered_levels(index@, level@) == Some(v@),
            None => covered_levels(index@, level@) is None,
        },
{
    let mut i: usize = 0;
    assert(index@.skip(0) =~= index@);
    while i < index.len()
        invariant
            i <= index@.len(),
            covered_levels(index@, level@) == covered_levels(index@.skip(i as int), level@),
        decreases index@.len() - i,
    {
        proof {
            assert(index@.skip(i as int).drop_first() =~= index@.skip(i + 1));
            assert(index@.skip(i as int)[0] == index@[i as int]);
        }
        if text_eq(index[i].level_code.as_str(), level) {
            return Some(&index[i].covered);
        }
        i = i + 1;
    }
    None
}

impl DispatchService {
    /// Whether a person at `level_code` meets the minimum level: no minimum
    /// (or a blank one), the same level, or a level that covers it.
    pub fn level_covers_requirement(level_index: &Vec<LevelCoverage>, level_code: &str, min_level_code: Option<&str>) -> (r: bool)
        ensures
            r == match min_level_code {
                None => true,
                Some(m) => is_blank(m@) || level_code@ == trimmed(m@) || match covered_levels(level_index@, level_code@) {
                    Some(c) => string_views(c).contains(trimmed(m@)),
                    None => false,
                },
            },
    {
        let min = match min_level_code {
            Some(m) => trim(m),
            None => {
                return true;
            },
        };
        if min.unicode_len() == 0 {
            return true;
        }
        if text_eq(level_code, min) {
            return true;
        }
        match find_coverage(level_index, level_code) {
            Some(c) => contains_view(c, min),
            None => false,
        }
    }

    /// The first active leader of the order, else whoever dispatched it,
    /// trimmed; blank identifiers do not count.
    pub fn resolve_followup_owner(order: &DispatchOrder) -> (r: Option<String>)
        ensures
            match r {
                Some(o) => followup_owner(order.members@, order.dispatched_by) == Some(o@),
                None => followup_owner(order.members@, order.dispatched_by) is None,
            },
    {
        let mut i: usize = 0;
        assert(order.members@.skip(0) =~= order.members@);
        while i < order.members.len()
            invariant
                i <= order.members@.len(),
                followup_owner(order.members@, order.dispatched_by) == followup_owner(
                    order.members@.skip(i as int),
                    order.dispatched_by,
                ),
            decreases order.members@.len() - i,
        {
            proof {
                assert(order.members@.skip(i as int).drop_first() =~= order.members@.skip(i + 1));
                assert(order.members@.skip(i as int)[0] == order.members@[i as int]);
            }
            let m = &order.members[i];
            if m.is_active && m.role == MemberRole::Leader {
                let u = trim(m.user_id.as_str());
                if u.unicode_len() > 0 {
                    return Some(String::from_str(u));
                }
            }
            i = i + 1;
        }
        match &order.dispatched_by {
            Some(d) => {
                let t = trim(d.as_str());
                if t.unicode_len() == 0 {
                    None
                } else {
                    Some(String::from_str(t))
                }
            },
            None => None,
        }
    }
}

/// Whether a member can own a follow-up: an active leader with an identifier.
pub open spec fn is_lead_candidate(m: crate::model::OrderMember) -> bool {
    m.is_active && m.role == MemberRole::Leader && !is_blank(m.user_id@)
}

/// Who owns an order's follow-up: the first leader candidate among
/// `members`, else whoever dispatched it, trimmed and not blank.
pub open spec fn followup_owner(members: Seq<crate::model::OrderMember>, dispatched_by: Option<String>) -> Option<Seq<char>>
    decreases members.len(),
{
    if members.len() == 0 {
        normalized_opt(
            match dispatched_by {
                Some(d) => Some(d@),
                None => None,
            },
        )
    } else if is_lead_candidate(members[0]) {
        Some(trimmed(members[0].user_id@))
    } else {
        followup_owner(members.drop_first(), dispatched_by)
    }
}

} // verus!

verus! {

/// The identifier an equipment assignment names for the order's equipment
/// list: its `equipment_id`, else (when it has none) its `id`.
pub open spec fn assignment_equipment_ref(a: crate::model::EquipmentAssignment) -> Option<Seq<char>> {
    if a.has_equipment_id {
        match a.equipment_id {
            Some(e) => Some(e@),
            None => None,
        }
    } else {
        match a.id {
            Some(e) => Some(e@),
            None => None,
        }
    }
}

/// Candidate equipment identifiers of an order: its equipment list, then
/// its equipment assignments.
pub open spec fn equipment_candidates(o: &DispatchOrder) -> Seq<Option<Seq<char>>> {
    Seq::new(o.equipment_ids@.len(), |k: int| Some(o.equipment_ids@[k]@)) + Seq::new(
        o.equipment_assignment@.len(),
        |k: int| assignment_equipment_ref(o.equipment_assignment@[k]),
    )
}

/// The equipment of an order, trimmed, blank ones dropped, each once in
/// order of first mention.
pub open spec fn order_equipment(o: &DispatchOrder) -> Seq<Seq<char>> {
    dedup_views(nonblank_trimmed(equipment_candidates(o)))
}

/// Severity of an issue as the reporter wrote it: trimmed and ASCII
/// lower-cased; none (or blank) is medium.
pub open spec fn issue_severity(s: Option<&str>) -> Result<IssueSeverity, Seq<char>> {
    match normalized_opt(
        match s {
            Some(x) => Some(x@),
            None => None,
        },
    ) {
        None => Ok(IssueSeverity::Medium),
        Some(t) => {
            let l = lower_ascii(t);
            if l == "medium"@ {
                Ok(IssueSeverity::Medium)
            } else if l == "low"@ {
                Ok(IssueSeverity::Low)
            } else if l == "high"@ {
                Ok(IssueSeverity::High)
            } else if l == "critical"@ {
                Ok(IssueSeverity::Critical)
            } else {
                Err("无效异常级别: "@ + l)
            }
        },
    }
}

/// The type of an issue: the reporter's text trimmed and lower-cased, or
/// `dispatch_issue` when it is missing, blank or longer than 64 characters.
pub open spec fn issue_type_text(s: Option<&str>) -> Seq<char> {
    match normalized_opt(
        match s {
            Some(x) => Some(x@),
            None => None,
        },
    ) {
        None => "dispatch_issue"@,
        Some(t) => if lower_ascii(t).len() > 64 {
            "dispatch_issue"@
        } else {
            lower_ascii(t)
        },
    }
}

impl DispatchService {
    /// The equipment of an order: its equipment list, then the equipment
    /// its assignments name, trimmed, blank ones dropped, each once.
    pub fn equipment_ids_from_order(order: &DispatchOrder) -> (r: Vec<String>)
        ensures
            string_views(r@) == order_equipment(order),
    {
        let mut acc: Vec<String> = Vec::new();
        let ghost mut seen: Seq<Option<Seq<char>>> = Seq::empty();
        assert(string_views(acc@) =~= dedup_views(nonblank_trimmed(seen)));
        let mut i: usize = 0;
        while i < order.equipment_ids.len()
            invariant
                i <= order.equipment_ids@.len(),
                seen == equipment_candidates(order).take(i as int),
                string_views(acc@) == dedup_views(nonblank_trimmed(seen)),
            decreases order.equipment_ids@.len() - i,
        {
            let c: Option<&str> = Some(order.equipment_ids[i].as_str());
            add_candidate(&mut acc, c, Ghost(seen));
            proof {
                seen = seen.push(Some(order.equipment_ids@[i as int]@));
                assert(seen =~= equipment_candidates(order).take(i + 1));
            }
            i = i + 1;
        }
        let mut j: usize = 0;
        while j < order.equipment_assignment.len()
            invariant
                j <= order.equipment_assignment@.len(),
                seen == equipment_candidates(order).take(order.equipment_ids@.len() + j),
                string_views(acc@) == dedup_views(nonblank_trimmed(seen)),
            decreases order.equipment_assignment@.len() - j,
        {
            let a = &order.equipment_assignment[j];
            let c: Option<&str> = if a.has_equipment_id {
                match &a.equipment_id {
                    Some(e) => Some(e.as_str()),
                    None => None,
                }
            } else {
                match &a.id {
                    Some(e) => Some(e.as_str()),
                    None => None,
                }
            };
            add_candidate(&mut acc, c, Ghost(seen));
            proof {
                seen = seen.push(assignment_equipment_ref(order.equipment_assignment@[j as int]));
                assert(seen =~= equipment_candidates(order).take(order.equipment_ids@.len() + j + 1));
            }
            j = j + 1;
        }
        assert(seen =~= equipment_candidates(order));
        acc
    }

    /// The severity an issue report names.
    pub fn parse_issue_severity(severity: Option<&str>) -> (r: Result<IssueSeverity, DispatchError>)
        ensures
            match issue_severity(severity) {
                Ok(s) => r == Ok::<IssueSeverity, DispatchError>(s),
                Err(m) => r matches Err(DispatchError::BusinessRuleViolation(x)) && x@ == m,
            },
    {
        match Self::normalize_optional_ref(severity) {
            None => Ok(IssueSeverity::Medium),
            Some(t) => {
                let l = to_ascii_lowercase(t);
                if text_eq(l.as_str(), "medium") {
                    Ok(IssueSeverity::Medium)
                } else if text_eq(l.as_str(), "low") {
                    Ok(IssueSeverity::Low)
                } else if text_eq(l.as_str(), "high") {
                    Ok(IssueSeverity::High)
                } else if text_eq(l.as_str(), "critical") {
                    Ok(IssueSeverity::Critical)
                } else {
                    let ls = l.as_str();
                    let m = join_texts(&["无效异常级别: ", ls]);
                    assert(concat_views(seq!["无效异常级别: ", ls]) =~= "无效异常级别: "@ + ls@) by {
                        reveal_with_fuel(concat_views, 3);
                    }
                    Err(DispatchError::BusinessRuleViolation(m))
                }
            },
        }
    }

    /// The issue type a report names.
    pub fn normalize_issue_type(issue_type: Option<&str>) -> (r: String)
        ensures
            r@ == issue_type_text(issue_type),
    {
        match Self::normalize_optional_ref(issue_type) {
            None => String::from_str("dispatch_issue"),
            Some(t) => {
                let l = to_ascii_lowercase(t);
                if l.as_str().unicode_len() > 64 {
                    String::from_str("dispatch_issue")
                } else {
                    l
                }
            },
        }
    }

    /// The kind of anomaly an issue type names; anything unknown is a dispatch issue.
    pub fn parse_issue_type(issue_type: &str) -> (r: IssueType)
        ensures
            r == if issue_type@ == "gate_stand_conflict"@ {
                IssueType::GateStandConflict
            } else if issue_type@ == "kpi_degradation"@ {
                IssueType::KpiDegradation
            } else if issue_type@ == "ai_risk"@ {
                IssueType::AiRisk
            } else {
                IssueType::DispatchIssue
            },
    {
        if text_eq(issue_type, "gate_stand_conflict") {
            IssueType::GateStandConflict
        } else if text_eq(issue_type, "kpi_degradation") {
            IssueType::KpiDegradation
        } else if text_eq(issue_type, "ai_risk") {
            IssueType::AiRisk
        } else {
            IssueType::DispatchIssue
        }
    }

    /// The title of an issue, trimmed: at most 200 characters; none is empty.
    pub fn validate_issue_title(title: Option<&str>) -> (r: Result<String, DispatchError>)
        ensures
            match title {
                None => r matches Ok(s) && s@.len() == 0,
                Some(t) => if trimmed(t@).len() > 200 {
                    r matches Err(DispatchError::ValidationError(m)) && m@ == "title 长度不能超过 200 个字符"@
                } else {
                    r matches Ok(s) && s@ == trimmed(t@)
                },
            },
    {
        match title {
            None => Ok(String::new()),
            Some(t) => {
                let n = trim(t);
                if n.unicode_len() > 200 {
                    Err(DispatchError::ValidationError(String::from_str("title 长度不能超过 200 个字符")))
                } else {
                    Ok(String::from_str(n))
                }
            },
        }
    }

    /// Who hears of an order's publication: its individual assignee and the
    /// members of its crew payload, trimmed, blank ones dropped, each once,
    /// in increasing order.
    pub fn collect_publication_recipient_ids(order: &DispatchOrder) -> (r: Vec<String>)
        ensures
            sorted_ids(r@),
            forall|x: Seq<char>| has_id(r@, x) <==> publication_recipient(order, x),
    {
        let mut r: Vec<String> = Vec::new();
        match &order.individual_user_id {
            Some(u) => {
                let t = trim(u.as_str());
                if t.unicode_len() > 0 {
                    insert_sorted(&mut r, String::from_str(t));
                }
            },
            None => {},
        }
        assert forall|x: Seq<char>| has_id(r@, x) <==> individual_recipient(order, x) by {}
        match &order.task_crew.members {
            Some(ms) => {
                let mut i: usize = 0;
                while i < ms.len()
                    invariant
                        i <= ms@.len(),
                        order.task_crew.members == Some(*ms),
                        sorted_ids(r@),
                        forall|x: Seq<char>|
                            has_id(r@, x) <==> (individual_recipient(order, x) || exists|k: int|
                                0 <= k < i && crew_payload_names(#[trigger] ms@[k], x)),
                    decreases ms@.len() - i,
                {
                    let ghost old_r = r@;
                    let ghost pi = i as int;
                    match &ms[i].user_id {
                        Some(u) => {
                            let t = trim(u.as_str());
                            if t.unicode_len() > 0 {
                                insert_sorted(&mut r, String::from_str(t));
                            }
                        },
                        None => {},
                    }
                    i = i + 1;
                    proof {
                        assert forall|x: Seq<char>|
                            has_id(r@, x) <==> (individual_recipient(order, x) || exists|k: int|
                                0 <= k < i && crew_payload_names(#[trigger] ms@[k], x)) by {
                            assert(has_id(old_r, x) <==> (individual_recipient(order, x) || exists|k: int|
                                0 <= k < pi && crew_payload_names(#[trigger] ms@[k], x)));
                            assert(has_id(r@, x) <==> (has_id(old_r, x) || crew_payload_names(ms@[pi], x)));
                            if exists|k: int| 0 <= k < i && crew_payload_names(#[trigger] ms@[k], x) {
                                let k = choose|k: int| 0 <= k < i && crew_payload_names(#[trigger] ms@[k], x);
                                if k < pi {
                                    assert(exists|k2: int| 0 <= k2 < pi && crew_payload_names(#[trigger] ms@[k2], x));
                                }
                            }
                        }
                    }
                }
                assert forall|x: Seq<char>| has_id(r@, x) <==> publication_recipient(order, x) by {
                    assert(i == ms@.len());
                }
            },
            None => {},
        }
        r
    }

    /// Who hears of an action on an order, besides the actor: whoever
    /// dispatched it and its individual assignee, trimmed, blank ones
    /// dropped, each once, in increasing order.
    pub fn collect_notification_recipient_ids(order: &DispatchOrder, actor_id: &str) -> (r: Vec<String>)
        ensures
            sorted_ids(r@),
            forall|x: Seq<char>| has_id(r@, x) <==> (x != actor_id@ && (opt_names(order.dispatched_by, x) || opt_names(order.individual_user_id, x))),
    {
        let mut r: Vec<String> = Vec::new();
        match &order.dispatched_by {
            Some(u) => {
                let t = trim(u.as_str());
                if t.unicode_len() > 0 && !text_eq(t, actor_id) {
                    insert_sorted(&mut r, String::from_str(t));
                }
            },
            None => {},
        }
        match &order.individual_user_id {
            Some(u) => {
                let t = trim(u.as_str());
                if t.unicode_len() > 0 && !text_eq(t, actor_id) {
                    insert_sorted(&mut r, String::from_str(t));
                }
            },
            None => {},
        }
        r
    }
}

/// Whether an optional identifier, trimmed and not blank, is `x`.
pub open spec fn opt_names(o: Option<String>, x: Seq<char>) -> bool {
    match o {
        Some(u) => !is_blank(u@) && trimmed(u@) == x,
        None => false,
    }
}

/// Whether `x` is the order's individual assignee.
pub open spec fn individual_recipient(o: &DispatchOrder, x: Seq<char>) -> bool {
    opt_names(o.individual_user_id, x)
}

/// Whether a crew payload entry names `x`.
pub open spec fn crew_payload_names(m: crate::model::CrewMemberPayload, x: Seq<char>) -> bool {
    opt_names(m.user_id, x)
}

/// Whether `x` hears of the order's publication.
pub open spec fn publication_recipient(o: &DispatchOrder, x: Seq<char>) -> bool {
    individual_recipient(o, x) || match o.task_crew.members {
        Some(ms) => exists|k: int| 0 <= k < ms@.len() && crew_payload_names(#[trigger] ms@[k], x),
        None => false,
    }
}

} // verus!
