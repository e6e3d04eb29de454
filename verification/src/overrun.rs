//! Schedule-overrun warnings.
//!
//! A warning never blocks dispatch. It is raised for a pair "current order →
//! next order" when the current order is still in progress, the next one is
//! pending or assigned with a planned start, both share an actual assignee,
//! and the clock has entered the lead window before the next planned start.
//! The lead time is the order's own value, else the department's published
//! generation rule, else five minutes. With an estimated completion the
//! predicted conflict is counted in whole minutes; without one the warning
//! only flags `eta_missing`.
//!
//! Alerts are written idempotently per pair: a persisting conflict keeps one
//! alert and notifies once; a conflict that returns after its alert was
//! closed reopens that alert, counts one more occurrence, clears the
//! acknowledgement and notifies again; a conflict that disappears closes its
//! alert automatically.

use vstd::prelude::*;
use crate::generation::GenerationRule;
use crate::idset::{has_id, insert_sorted, sorted_ids};
use crate::model::{
    leg_scope_text, AlertSeverity, DispatchError, DispatchOrder, LeadSource, OrderStatus, RuleStatus,
};
use crate::text::{append_decimal, copy_list, decimal, owned, text_eq};

verus! {

/// Lead time used when neither the order nor its department sets one.
pub const DEFAULT_LEAD_MINUTES: i32 = 5;

/// Whether `x` is an actual assignee of `o`: its individual assignee or an
/// active crew member.
pub open spec fn is_actual_person(o: &DispatchOrder, x: Seq<char>) -> bool {
    ||| (o.individual_user_id matches Some(u) && u@ == x)
    ||| exists|i: int|
        0 <= i < o.members@.len() && (#[trigger] o.members@[i]).is_active && o.members@[i].user_id@
            == x
}

/// Whether `x` occurs in `v`.
pub fn contains_id(v: &Vec<String>, x: &str) -> (r: bool)
    ensures
        r == has_id(v@, x@),
{
    let mut i: usize = 0;
    while i < v.len()
        invariant
            i <= v@.len(),
            forall|k: int| 0 <= k < i ==> v@[k]@ != x@,
        decreases v@.len() - i,
    {
        if text_eq(v[i].as_str(), x) {
            return true;
        }
        i = i + 1;
    }
    false
}

/// The actual assignees of an order, in increasing order.
pub fn actual_person_ids(order: &DispatchOrder) -> (r: Vec<String>)
    ensures
        sorted_ids(r@),
        forall|x: Seq<char>| has_id(r@, x) <==> is_actual_person(order, x),
{
    let mut r: Vec<String> = Vec::new();
    match &order.individual_user_id {
        Some(u) => {
            insert_sorted(&mut r, u.clone());
        },
        None => {},
    }
    let mut i: usize = 0;
    while i < order.members.len()
        invariant
            i <= order.members@.len(),
            sorted_ids(r@),
            forall|x: Seq<char>|
                has_id(r@, x) <==> ((order.individual_user_id matches Some(u) && u@ == x) || exists|
                    k: int,
                |
                    0 <= k < i && (#[trigger] order.members@[k]).is_active
                        && order.members@[k].user_id@ == x),
        decreases order.members@.len() - i,
    {
        if order.members[i].is_active {
            insert_sorted(&mut r, order.members[i].user_id.clone());
        }
        proof {
            assert forall|x: Seq<char>|
                has_id(r@, x) <==> ((order.individual_user_id matches Some(u) && u@ == x) || exists|
                    k: int,
                |
                    0 <= k < i + 1 && (#[trigger] order.members@[k]).is_active
                        && order.members@[k].user_id@ == x) by {
                if order.members@[i as int].is_active && order.members@[i as int].user_id@ == x {
                    assert(0 <= i < i + 1);
                }
            }
        }
        i = i + 1;
    }
    r
}

/// The persons who are actual assignees of both orders, in increasing order.
pub fn shared_persons(a: &DispatchOrder, b: &DispatchOrder) -> (r: Vec<String>)
    ensures
        sorted_ids(r@),
        forall|x: Seq<char>| has_id(r@, x) <==> (is_actual_person(a, x) && is_actual_person(b, x)),
{
    let left = actual_person_ids(a);
    let right = actual_person_ids(b);
    let mut r: Vec<String> = Vec::new();
    let mut i: usize = 0;
    while i < left.len()
        invariant
            i <= left@.len(),
            sorted_ids(r@),
            forall|x: Seq<char>| has_id(left@, x) <==> is_actual_person(a, x),
            forall|x: Seq<char>| has_id(right@, x) <==> is_actual_person(b, x),
            forall|x: Seq<char>|
                has_id(r@, x) <==> (has_id(right@, x) && exists|k: int|
                    0 <= k < i && #[trigger] left@[k]@ == x),
        decreases left@.len() - i,
    {
        if contains_id(&right, left[i].as_str()) {
            insert_sorted(&mut r, left[i].clone());
        }
        proof {
            assert forall|x: Seq<char>|
                has_id(r@, x) <==> (has_id(right@, x) && exists|k: int|
                    0 <= k < i + 1 && #[trigger] left@[k]@ == x) by {
                if left@[i as int]@ == x {
                    assert(0 <= i < i + 1);
                }
            }
        }
        i = i + 1;
    }
    proof {
        assert forall|x: Seq<char>| has_id(r@, x) <==> (is_actual_person(a, x) && is_actual_person(b, x)) by {
            if has_id(left@, x) {
                let k = choose|k: int| 0 <= k < left@.len() && #[trigger] left@[k]@ == x;
                assert(0 <= k < i);
            }
        }
    }
    r
}

/// Whole minutes from `from` to `to`, and zero when `to` is not later.
pub open spec fn minutes_until(from: int, to: int) -> int {
    if to - from <= 0 {
        0
    } else {
        (to - from) / 60
    }
}

/// Whole minutes from `from` to `to`, and zero when `to` is not later.
pub fn whole_minutes_until(from: i64, to: i64) -> (r: i64)
    ensures
        r == minutes_until(from as int, to as int),
{
    let d: i128 = (to as i128) - (from as i128);
    if d <= 0 {
        0
    } else {
        (d / 60) as i64
    }
}

/// The conditions under which the pair `current → next` raises a warning.
pub open spec fn overrun_applies(current: &DispatchOrder, next: &DispatchOrder, lead: int, now: int) -> bool {
    &&& current.status == OrderStatus::InProgress
    &&& current.actual_end_time is None
    &&& (next.status == OrderStatus::Pending || next.status == OrderStatus::Assigned)
    &&& next.planned_start_time is Some
    &&& exists|x: Seq<char>| is_actual_person(current, x) && is_actual_person(next, x)
    &&& now >= next.planned_start_time->0 - lead * 60
}

/// A detected overrun for the pair `current → next`.
pub struct OverrunCandidate {
    pub current_order_id: String,
    pub next_order_id: String,
    pub next_flight_id: String,
    pub next_task_type: String,
    /// Actual assignees that both orders share, in increasing order.
    pub shared_personnel: Vec<String>,
    /// Whole minutes until the next order's planned start (never negative).
    pub countdown_minutes: i64,
    pub lead_minutes: i32,
    pub lead_source: LeadSource,
    /// The current order has reported no estimated completion.
    pub eta_missing: bool,
    /// Whole minutes by which the estimated completion passes the next planned start.
    pub predicted_conflict_minutes: Option<i64>,
}

/// What a candidate holds for the pair `current → next`.
pub open spec fn candidate_for(
    c: &OverrunCandidate,
    current: &DispatchOrder,
    next: &DispatchOrder,
    lead: i32,
    source: LeadSource,
    now: i64,
) -> bool {
    &&& c.current_order_id@ == current.id@
    &&& c.next_order_id@ == next.id@
    &&& c.next_flight_id@ == next.flight_id@
    &&& c.next_task_type@ == next.task_type@
    &&& sorted_ids(c.shared_personnel@)
    &&& forall|x: Seq<char>|
        has_id(c.shared_personnel@, x) <==> (is_actual_person(current, x) && is_actual_person(next, x))
    &&& c.countdown_minutes == minutes_until(now as int, next.planned_start_time->0 as int)
    &&& c.lead_minutes == lead
    &&& c.lead_source == source
    &&& c.eta_missing == (current.estimated_completion_time is None)
    &&& c.predicted_conflict_minutes == match current.estimated_completion_time {
        Some(eta) => Some(minutes_until(next.planned_start_time->0 as int, eta as int) as i64),
        None => None,
    }
}

/// Detects an overrun of `current` into `next` at instant `now`.
pub fn detect_overrun(
    current: &DispatchOrder,
    next: &DispatchOrder,
    lead_minutes: i32,
    lead_source: LeadSource,
    now: i64,
) -> (r: Option<OverrunCandidate>)
    ensures
        r is Some <==> overrun_applies(current, next, lead_minutes as int, now as int),
        r matches Some(c) ==> candidate_for(&c, current, next, lead_minutes, lead_source, now),
{
    if current.status != OrderStatus::InProgress || current.actual_end_time.is_some() {
        return None;
    }
    if !(next.status == OrderStatus::Pending || next.status == OrderStatus::Assigned) {
        return None;
    }
    let next_start = match next.planned_start_time {
        Some(t) => t,
        None => {
            return None;
        },
    };
    let shared = shared_persons(current, next);
    if shared.len() == 0 {
        proof {
            assert forall|x: Seq<char>| !(is_actual_person(current, x) && is_actual_person(next, x)) by {
                if is_actual_person(current, x) && is_actual_person(next, x) {
                    assert(has_id(shared@, x));
                }
            }
        }
        return None;
    }
    proof {
        let w = shared@[0]@;
        assert(has_id(shared@, w));
        assert(is_actual_person(current, w) && is_actual_person(next, w));
    }
    let window_start: i128 = (next_start as i128) - (lead_minutes as i128) * 60;
    if (now as i128) < window_start {
        return None;
    }
    let countdown = whole_minutes_until(now, next_start);
    let (eta_missing, predicted) = match current.estimated_completion_time {
        Some(eta) => (false, Some(whole_minutes_until(next_start, eta))),
        None => (true, None),
    };
    Some(
        OverrunCandidate {
            current_order_id: current.id.clone(),
            next_order_id: next.id.clone(),
            next_flight_id: next.flight_id.clone(),
            next_task_type: next.task_type.clone(),
            shared_personnel: shared,
            countdown_minutes: countdown,
            lead_minutes,
            lead_source,
            eta_missing,
            predicted_conflict_minutes: predicted,
        },
    )
}

/// Lead time and its source: the order's value, else the department's,
/// else the system default.
pub open spec fn effective_lead(order_value: Option<i32>, department_value: Option<i32>) -> (i32, LeadSource) {
    match order_value {
        Some(v) => (v, LeadSource::Order),
        None => match department_value {
            Some(v) => (v, LeadSource::Department),
            None => (DEFAULT_LEAD_MINUTES, LeadSource::System),
        },
    }
}

/// Lead time and its source: the order's value, else the department's,
/// else the system default of five minutes.
pub fn resolve_completion_warning_lead_minutes(order_value: Option<i32>, department_value: Option<i32>) -> (r: (
    i32,
    LeadSource,
))
    ensures
        r == effective_lead(order_value, department_value),
        order_value matches Some(v) ==> r == (v, LeadSource::Order),
        order_value is None && department_value is Some ==> r == (department_value->0, LeadSource::Department),
        order_value is None && department_value is None ==> r == (5i32, LeadSource::System),
{
    match order_value {
        Some(v) => (v, LeadSource::Order),
        None => match department_value {
            Some(v) => (v, LeadSource::Department),
            None => (DEFAULT_LEAD_MINUTES, LeadSource::System),
        },
    }
}

/// Whether a generation rule supplies the department lead time of `order`.
pub open spec fn rule_sets_lead(rule: &GenerationRule, order: &DispatchOrder) -> bool {
    &&& order.department_id matches Some(d) && rule.department_id@ == d@
    &&& rule.status == RuleStatus::Published
    &&& rule.task_type@ == order.task_type@
    &&& leg_scope_text(rule.leg_scope) == order.leg_scope@
    &&& rule.completion_warning_lead_minutes is Some
}

/// The department lead time of `order` among the first `n` rules.
pub open spec fn department_lead_among(rules: Seq<GenerationRule>, order: &DispatchOrder, n: int) -> Option<i32>
    decreases n,
{
    if n <= 0 {
        None
    } else {
        match department_lead_among(rules, order, n - 1) {
            Some(v) => Some(v),
            None => if rule_sets_lead(&rules[n - 1], order) {
                rules[n - 1].completion_warning_lead_minutes
            } else {
                None
            },
        }
    }
}

/// The department lead time of `order`: that of the first published rule
/// of its department for its task type and leg that sets one.
pub open spec fn department_lead(rules: Option<Seq<GenerationRule>>, order: &DispatchOrder) -> Option<i32> {
    match rules {
        Some(rs) => if order.department_id is Some {
            department_lead_among(rs, order, rs.len() as int)
        } else {
            None
        },
        None => None,
    }
}

fn rule_sets_lead_exec(rule: &GenerationRule, order: &DispatchOrder) -> (r: bool)
    ensures
        r == rule_sets_lead(rule, order),
{
    let dept_ok = match &order.department_id {
        Some(d) => text_eq(rule.department_id.as_str(), d.as_str()),
        None => false,
    };
    dept_ok && rule.status == RuleStatus::Published && text_eq(
        rule.task_type.as_str(),
        order.task_type.as_str(),
    ) && text_eq(crate::model::leg_scope_value(rule.leg_scope), order.leg_scope.as_str())
        && rule.completion_warning_lead_minutes.is_some()
}

/// The effective lead time of the next order of a pair.
pub fn resolve_effective_lead(rules: &Option<Vec<GenerationRule>>, order: &DispatchOrder) -> (r: (
    i32,
    LeadSource,
))
    ensures
        r == effective_lead(
            order.completion_warning_lead_minutes,
            department_lead(
                match rules {
                    Some(v) => Some(v@),
                    None => None,
                },
                order,
            ),
        ),
{
    let mut department_value: Option<i32> = None;
    match rules {
        Some(rs) => {
            if order.department_id.is_some() {
                let mut i: usize = 0;
                while i < rs.len()
                    invariant
                        i <= rs@.len(),
                        order.department_id is Some,
                        department_value == department_lead_among(rs@, order, i as int),
                    decreases rs@.len() - i,
                {
                    if department_value.is_none() && rule_sets_lead_exec(&rs[i], order) {
                        department_value = rs[i].completion_warning_lead_minutes;
                    }
                    i = i + 1;
                }
            }
        },
        None => {},
    }
    resolve_completion_warning_lead_minutes(order.completion_warning_lead_minutes, department_value)
}

/// The order's own lead wins: whenever the order names a lead, that lead
/// applies and comes from the order, whatever the department says; the
/// department's lead applies only when the order names none, and the
/// system's five minutes only when neither does.
pub proof fn law_order_lead_wins(order_value: Option<i32>, department_value: Option<i32>)
    ensures
        order_value matches Some(v) ==> effective_lead(order_value, department_value) == (v, LeadSource::Order),
        order_value is None && department_value is Some ==> effective_lead(order_value, department_value) == (
            department_value->0,
            LeadSource::Department,
        ),
        order_value is None && department_value is None ==> effective_lead(order_value, department_value) == (
            5i32,
            LeadSource::System,
        ),
{
}

} // verus!
