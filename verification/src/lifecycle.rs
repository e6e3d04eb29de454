//! The decisions of the mobile order lifecycle (accept, check in, start,
//! complete, check out, cancel): each takes the order and what the service
//! has read, and says how to go on.

use vstd::prelude::*;
use crate::checklist::ChecklistStatus;
use crate::model::{status_debug, status_debug_text, DispatchError, DispatchOrder, OrderMember, OrderStatus};
use crate::rules::DispatchService;
use crate::text::{concat_views, is_blank, join_texts, text_eq, trim, trimmed};

verus! {

/// How a start request goes on after its first checks.
#[derive(Clone, Copy, Debug, PartialEq, Eq, Structural)]
pub enum StartPath {
    /// The order runs already: answer that it started.
    AlreadyStarted,
    /// Check who may start it, then start it.
    Proceed,
}

/// How a completion request goes on after its first checks.
#[derive(Clone, Copy, Debug, PartialEq, Eq, Structural)]
pub enum CompletePath {
    AlreadyCompleted,
    Proceed,
}

/// How a cancellation goes on.
#[derive(Clone, Copy, Debug, PartialEq, Eq, Structural)]
pub enum CancelPath {
    /// Already cancelled: nothing to do.
    AlreadyCancelled,
    Proceed,
}

/// How a completed order was closed.
#[derive(Clone, Copy, Debug, PartialEq, Eq, Structural)]
pub enum CompletionMode {
    /// Every required routine item is done.
    Hard,
    /// Routine items are missing: a team lead follows up.
    Soft,
}

/// The member record of the actor on an order, as read for a check-out.
pub enum CheckoutMember {
    Missing,
    Found { check_in_time: Option<i64>, check_out_time: Option<i64> },
}

/// How a check-in goes on with the actor's member record.
#[derive(Clone, Copy, Debug, PartialEq, Eq, Structural)]
pub enum CheckinPath {
    /// The member had already arrived: answered as such, nothing written.
    AlreadyCheckedIn,
    /// The member's record gets the arrival time.
    MarkArrived,
    /// A member record is created for the actor, arrived now.
    CreateMember,
}

/// What follows a recorded check-in.
pub struct CheckinFollowup {
    /// The order is started right away (it was assigned).
    pub auto_start: bool,
    /// When the arrival awaits verification by hand: the follow-up's title
    /// and when it is due (two hours after the arrival).
    pub verification_followup: Option<(String, i64)>,
}

/// How a check-out goes on.
#[derive(Clone, Copy, Debug, PartialEq, Eq, Structural)]
pub enum CheckoutPath {
    AlreadyCheckedOut,
    Proceed,
}

/// The message of a business rule `e` breaks.
pub open spec fn violation_with(e: DispatchError, m: Seq<char>) -> bool {
    e matches DispatchError::BusinessRuleViolation(x) && x@ == m
}

/// Whether an order is still prepublished.
pub open spec fn prepublished(o: &DispatchOrder) -> bool {
    trimmed(o.publication_state@) == "prepublished"@
}

fn debug_message(prefix: &str, status: OrderStatus) -> (r: String)
    ensures
        r@ == prefix@ + status_debug_text(status),
{
    let st = status_debug(status);
    let r = join_texts(&[prefix, st]);
    assert(concat_views(seq![prefix, st]) =~= prefix@ + st@) by {
        reveal_with_fuel(concat_views, 3);
    }
    r
}

/// Whether a scanned code names the order `order_id`: trimmed, it is
/// `dispatch:<id>`, `dispatch_order:<id>` or the id itself.
pub open spec fn qr_verifies(qr_code: Option<&str>, order_id: Seq<char>) -> bool {
    match qr_code {
        Some(q) => trimmed(q@) == "dispatch:"@ + order_id || trimmed(q@) == "dispatch_order:"@ + order_id
            || trimmed(q@) == order_id,
        None => false,
    }
}

impl DispatchService {
    /// The first checks of a start request: the order must be published; a
    /// running order is answered as started; only an assigned order starts.
    pub fn start_order_precheck(order: &DispatchOrder) -> (r: Result<StartPath, DispatchError>)
        ensures
            prepublished(order) ==> (r matches Err(e) && violation_with(e, "预发布工单尚未正式发布，不能"@ + "开始执行"@)),
            !prepublished(order) ==> match order.status {
                OrderStatus::InProgress => r == Ok::<StartPath, DispatchError>(StartPath::AlreadyStarted),
                OrderStatus::Assigned => r == Ok::<StartPath, DispatchError>(StartPath::Proceed),
                _ => r matches Err(DispatchError::InvalidStateTransition { from, to }) && from@ == status_debug_text(
                    order.status,
                ) && to@ == "in_progress"@,
            },
    {
        match Self::ensure_order_execution_published(order, "开始执行") {
            Err(e) => {
                return Err(e);
            },
            Ok(()) => {},
        }
        if order.status == OrderStatus::InProgress {
            return Ok(StartPath::AlreadyStarted);
        }
        if order.status != OrderStatus::Assigned {
            return Err(
                DispatchError::InvalidStateTransition {
                    from: String::from_str(status_debug(order.status)),
                    to: String::from_str("in_progress"),
                },
            );
        }
        Ok(StartPath::Proceed)
    }

    /// Whether the actor may start now: the actor must have accepted the
    /// order and checked in (`check_in` is the actor's member record's
    /// check-in time, `None` when there is no record).
    pub fn start_readiness(accepted: bool, check_in: Option<Option<i64>>) -> (r: Result<(), DispatchError>)
        ensures
            !accepted ==> (r matches Err(e) && violation_with(e, "请先接单再开始执行"@)),
            accepted ==> match check_in {
                Some(Some(_)) => r is Ok,
                _ => r matches Err(e) && violation_with(e, "请先完成签到再开始执行"@),
            },
    {
        if !accepted {
            return Err(DispatchError::BusinessRuleViolation(String::from_str("请先接单再开始执行")));
        }
        match check_in {
            Some(Some(_)) => Ok(()),
            _ => Err(DispatchError::BusinessRuleViolation(String::from_str("请先完成签到再开始执行"))),
        }
    }

    /// The first checks of a completion request: the order must be
    /// published; a completed order is answered as completed; only a running
    /// order completes.
    pub fn complete_order_precheck(order: &DispatchOrder) -> (r: Result<CompletePath, DispatchError>)
        ensures
            prepublished(order) ==> (r matches Err(e) && violation_with(e, "预发布工单尚未正式发布，不能"@ + "完工"@)),
            !prepublished(order) ==> match order.status {
                OrderStatus::Completed => r == Ok::<CompletePath, DispatchError>(CompletePath::AlreadyCompleted),
                OrderStatus::InProgress => r == Ok::<CompletePath, DispatchError>(CompletePath::Proceed),
                _ => r matches Err(e) && violation_with(e, "派工单状态不正确，当前状态: "@ + status_debug_text(order.status)),
            },
    {
        match Self::ensure_order_execution_published(order, "完工") {
            Err(e) => {
                return Err(e);
            },
            Ok(()) => {},
        }
        if order.status == OrderStatus::Completed {
            return Ok(CompletePath::AlreadyCompleted);
        }
        if order.status != OrderStatus::InProgress {
            return Err(DispatchError::BusinessRuleViolation(debug_message("派工单状态不正确，当前状态: ", order.status)));
        }
        Ok(CompletePath::Proceed)
    }

    /// Whether the safety checklist blocks completion: it is enforced and
    /// not even a soft completion is possible.
    pub fn checklist_blocks_completion(gate: &ChecklistStatus) -> (r: bool)
        ensures
            r == (gate.enforced && !gate.can_soft_complete),
    {
        gate.enforced && !gate.can_soft_complete
    }

    /// The actual end of an order cannot come before its actual start.
    pub fn check_completion_time(actual_start: Option<i64>, actual_end: i64) -> (r: Result<(), DispatchError>)
        ensures
            (actual_start matches Some(s) && actual_end < s) ==> (r matches Err(e) && violation_with(
                e,
                "actual_end_time 不能早于 actual_start_time"@,
            )),
            !(actual_start matches Some(s) && actual_end < s) ==> r is Ok,
    {
        match actual_start {
            Some(s) => if actual_end < s {
                return Err(
                    DispatchError::BusinessRuleViolation(String::from_str("actual_end_time 不能早于 actual_start_time")),
                );
            },
            None => {},
        }
        Ok(())
    }

    /// A completion is soft when routine items are missing.
    pub fn completion_mode(gate: &ChecklistStatus) -> (r: CompletionMode)
        ensures
            r == if gate.soft_missing_count > 0 {
                CompletionMode::Soft
            } else {
                CompletionMode::Hard
            },
    {
        if gate.soft_missing_count > 0 {
            CompletionMode::Soft
        } else {
            CompletionMode::Hard
        }
    }

    /// The first checks of a cancellation: a cancelled order needs nothing,
    /// a completed one cannot be cancelled.
    pub fn cancel_precheck(order: &DispatchOrder) -> (r: Result<CancelPath, DispatchError>)
        ensures
            order.status == OrderStatus::Cancelled ==> r == Ok::<CancelPath, DispatchError>(CancelPath::AlreadyCancelled),
            order.status == OrderStatus::Completed ==> (r matches Err(e) && violation_with(e, "该派工单无法取消"@)),
            (order.status != OrderStatus::Cancelled && order.status != OrderStatus::Completed) ==> r
                == Ok::<CancelPath, DispatchError>(CancelPath::Proceed),
    {
        if order.status == OrderStatus::Cancelled {
            return Ok(CancelPath::AlreadyCancelled);
        }
        if order.status == OrderStatus::Completed {
            return Err(DispatchError::BusinessRuleViolation(String::from_str("该派工单无法取消")));
        }
        Ok(CancelPath::Proceed)
    }

    /// The first checks of accepting an order: it must be published, and
    /// assigned or running.
    pub fn accept_precheck(order: &DispatchOrder) -> (r: Result<(), DispatchError>)
        ensures
            prepublished(order) ==> (r matches Err(e) && violation_with(e, "预发布工单尚未正式发布，不能"@ + "接单"@)),
            !prepublished(order) ==> if order.status == OrderStatus::Assigned || order.status == OrderStatus::InProgress {
                r is Ok
            } else {
                r matches Err(e) && violation_with(e, "当前状态不允许接单: "@ + status_debug_text(order.status))
            },
    {
        match Self::ensure_order_execution_published(order, "接单") {
            Err(e) => {
                return Err(e);
            },
            Ok(()) => {},
        }
        if !(order.status == OrderStatus::Assigned || order.status == OrderStatus::InProgress) {
            return Err(DispatchError::BusinessRuleViolation(debug_message("当前状态不允许接单: ", order.status)));
        }
        Ok(())
    }

    /// The first checks of a check-in: the order must be published and
    /// neither completed nor cancelled.
    pub fn checkin_precheck(order: &DispatchOrder) -> (r: Result<(), DispatchError>)
        ensures
            prepublished(order) ==> (r matches Err(e) && violation_with(e, "预发布工单尚未正式发布，不能"@ + "签到"@)),
            !prepublished(order) ==> if order.status == OrderStatus::Completed || order.status == OrderStatus::Cancelled {
                r matches Err(e) && violation_with(e, "当前状态不可签到"@)
            } else {
                r is Ok
            },
    {
        match Self::ensure_order_execution_published(order, "签到") {
            Err(e) => {
                return Err(e);
            },
            Ok(()) => {},
        }
        if order.status == OrderStatus::Completed || order.status == OrderStatus::Cancelled {
            return Err(DispatchError::BusinessRuleViolation(String::from_str("当前状态不可签到")));
        }
        Ok(())
    }

    /// A position must give both coordinates or neither.
    pub fn check_position_pair(has_lat: bool, has_lng: bool) -> (r: Result<(), DispatchError>)
        ensures
            has_lat != has_lng ==> (r matches Err(e) && violation_with(e, "位置参数需要同时提供 lat 与 lng"@)),
            has_lat == has_lng ==> r is Ok,
    {
        if has_lat != has_lng {
            return Err(DispatchError::BusinessRuleViolation(String::from_str("位置参数需要同时提供 lat 与 lng")));
        }
        Ok(())
    }

    /// How an arrival at an order is verified: by position when the order's
    /// stand has a known (non-zero) position within 300 m of the reported
    /// one (`within_radius` is `None` when no position could be compared),
    /// else by the scanned code when it names the order, else it awaits
    /// verification by hand. The answer is the status and its source.
    pub fn checkin_verification(within_radius: Option<bool>, qr_code: Option<&str>, order_id: &str) -> (r: (
        String,
        String,
    ))
        ensures
            within_radius == Some(true) ==> r.0@ == "verified"@ && r.1@ == "geo"@,
            within_radius != Some(true) && qr_verifies(qr_code, order_id@) ==> r.0@ == "verified"@ && r.1@ == "qr"@,
            within_radius != Some(true) && !qr_verifies(qr_code, order_id@) ==> r.0@ == "pending_verification"@ && r.1@
                == "manual"@,
    {
        proof {
            reveal_strlit("verified");
            reveal_strlit("geo");
            reveal_strlit("qr");
            reveal_strlit("pending_verification");
            reveal_strlit("manual");
        }
        if within_radius == Some(true) {
            ("verified".to_string(), "geo".to_string())
        } else if Self::qr_code_verifies(qr_code, order_id) {
            ("verified".to_string(), "qr".to_string())
        } else {
            ("pending_verification".to_string(), "manual".to_string())
        }
    }

    /// Whether a scanned code verifies the arrival at an order: trimmed, it
    /// is `dispatch:<id>`, `dispatch_order:<id>` or the id itself.
    pub fn qr_code_verifies(qr_code: Option<&str>, order_id: &str) -> (r: bool)
        ensures
            r == qr_verifies(qr_code, order_id@),
    {
        match qr_code {
            Some(q) => {
                let t = trim(q);
                let expected = join_texts(&["dispatch:", order_id]);
                let legacy = join_texts(&["dispatch_order:", order_id]);
                assert(concat_views(seq!["dispatch:", order_id]) =~= "dispatch:"@ + order_id@) by {
                    reveal_with_fuel(concat_views, 3);
                }
                assert(concat_views(seq!["dispatch_order:", order_id]) =~= "dispatch_order:"@ + order_id@) by {
                    reveal_with_fuel(concat_views, 3);
                }
                text_eq(t, expected.as_str()) || text_eq(t, legacy.as_str()) || text_eq(t, order_id)
            },
            None => false,
        }
    }

    /// The first checks of a check-out: the order must be published, and
    /// running or assigned.
    pub fn checkout_precheck(order: &DispatchOrder) -> (r: Result<(), DispatchError>)
        ensures
            prepublished(order) ==> (r matches Err(e) && violation_with(e, "预发布工单尚未正式发布，不能"@ + "签退"@)),
            !prepublished(order) ==> if order.status == OrderStatus::InProgress || order.status == OrderStatus::Assigned {
                r is Ok
            } else {
                r matches Err(e) && violation_with(e, "仅进行中或已派发的工单可以签退"@)
            },
    {
        match Self::ensure_order_execution_published(order, "签退") {
            Err(e) => {
                return Err(e);
            },
            Ok(()) => {},
        }
        if order.status != OrderStatus::InProgress && order.status != OrderStatus::Assigned {
            return Err(DispatchError::BusinessRuleViolation(String::from_str("仅进行中或已派发的工单可以签退")));
        }
        Ok(())
    }

    /// How a check-in goes on given the actor's member record on the order
    /// (`None` when there is none; else whether it has an arrival time): an
    /// arrived member is answered as such; a member is marked arrived;
    /// without a record, one is created only when the check-in may create
    /// it (`may_create`, see `should_auto_create_checkin_member_for`), else the
    /// member is not found.
    pub fn checkin_member_decision(order_id: &str, actor_id: &str, member_checked_in: Option<bool>, may_create: bool) -> (r: Result<
        CheckinPath,
        DispatchError,
    >)
        ensures
            match member_checked_in {
                Some(true) => r == Ok::<CheckinPath, DispatchError>(CheckinPath::AlreadyCheckedIn),
                Some(false) => r == Ok::<CheckinPath, DispatchError>(CheckinPath::MarkArrived),
                None => if may_create {
                    r == Ok::<CheckinPath, DispatchError>(CheckinPath::CreateMember)
                } else {
                    r matches Err(DispatchError::NotFound { entity_type, id }) && entity_type@ == "DispatchOrderMember"@
                        && id@ == order_id@ + ":"@ + actor_id@
                },
            },
    {
        match member_checked_in {
            Some(true) => Ok(CheckinPath::AlreadyCheckedIn),
            Some(false) => Ok(CheckinPath::MarkArrived),
            None => {
                if may_create {
                    return Ok(CheckinPath::CreateMember);
                }
                let id = join_texts(&[order_id, ":", actor_id]);
                assert(concat_views(seq![order_id, ":", actor_id]) =~= order_id@ + ":"@ + actor_id@) by {
                    reveal_with_fuel(concat_views, 4);
                }
                Err(DispatchError::NotFound { entity_type: String::from_str("DispatchOrderMember"), id })
            },
        }
    }

    /// What follows a recorded check-in at `now` on an order with status
    /// `status`: an assigned order starts; an arrival whose verification
    /// status is `pending_verification` gets a follow-up, due two hours on.
    pub fn checkin_followup(order_id: &str, status: OrderStatus, verification_status: &str, now: i64) -> (r: CheckinFollowup)
        requires
            now + 7200 <= i64::MAX,
        ensures
            r.auto_start == (status == OrderStatus::Assigned),
            verification_status@ == "pending_verification"@ ==> (r.verification_followup matches Some((title, due))
                && title@ == "补核到场记录 - "@ + order_id@ && due == now + 7200),
            verification_status@ != "pending_verification"@ ==> r.verification_followup is None,
    {
        let followup = if text_eq(verification_status, "pending_verification") {
            let title = join_texts(&["补核到场记录 - ", order_id]);
            assert(concat_views(seq!["补核到场记录 - ", order_id]) =~= "补核到场记录 - "@ + order_id@) by {
                reveal_with_fuel(concat_views, 3);
            }
            Some((title, now + 7200))
        } else {
            None
        };
        proof {
            reveal_strlit("pending_verification");
        }
        CheckinFollowup { auto_start: status == OrderStatus::Assigned, verification_followup: followup }
    }

    /// How a check-out goes on given the actor's member record: without a
    /// record the member is not found; a checked-out member is answered as
    /// such; a member who never checked in cannot check out.
    pub fn checkout_member_decision(order_id: &str, actor_id: &str, member: &CheckoutMember) -> (r: Result<
        CheckoutPath,
        DispatchError,
    >)
        ensures
            match *member {
                CheckoutMember::Missing => r matches Err(DispatchError::NotFound { entity_type, id }) && entity_type@
                    == "DispatchOrderMember"@ && id@ == order_id@ + ":"@ + actor_id@,
                CheckoutMember::Found { check_in_time, check_out_time } => if check_out_time is Some {
                    r == Ok::<CheckoutPath, DispatchError>(CheckoutPath::AlreadyCheckedOut)
                } else if check_in_time is None {
                    r matches Err(DispatchError::ValidationError(m)) && m@ == "未找到签到记录，无法签退"@
                } else {
                    r == Ok::<CheckoutPath, DispatchError>(CheckoutPath::Proceed)
                },
            },
    {
        match member {
            CheckoutMember::Missing => {
                let id = join_texts(&[order_id, ":", actor_id]);
                assert(concat_views(seq![order_id, ":", actor_id]) =~= order_id@ + ":"@ + actor_id@) by {
                    reveal_with_fuel(concat_views, 4);
                }
                Err(DispatchError::NotFound { entity_type: String::from_str("DispatchOrderMember"), id })
            },
            CheckoutMember::Found { check_in_time, check_out_time } => {
                if check_out_time.is_some() {
                    return Ok(CheckoutPath::AlreadyCheckedOut);
                }
                if check_in_time.is_none() {
                    return Err(DispatchError::ValidationError(String::from_str("未找到签到记录，无法签退")));
                }
                Ok(CheckoutPath::Proceed)
            },
        }
    }

    /// Whether checking out completes the order: every member of a
    /// non-empty crew has checked out.
    pub fn all_members_checked_out(members: &Vec<OrderMember>) -> (r: bool)
        ensures
            r == (members@.len() > 0 && forall|k: int| 0 <= k < members@.len() ==> (#[trigger] members@[k]).check_out_time is Some),
    {
        if members.len() == 0 {
            return false;
        }
        let mut i: usize = 0;
        while i < members.len()
            invariant
                i <= members@.len(),
                forall|k: int| 0 <= k < i ==> (#[trigger] members@[k]).check_out_time is Some,
            decreases members@.len() - i,
        {
            if members[i].check_out_time.is_none() {
                return false;
            }
            i = i + 1;
        }
        true
    }

    /// The first checks of a checklist submission: the order must be
    /// published, not closed, and assigned or running.
    pub fn checklist_submission_precheck(order: &DispatchOrder) -> (r: Result<(), DispatchError>)
        ensures
            prepublished(order) ==> (r matches Err(e) && violation_with(e, "预发布工单尚未正式发布，不能"@ + "提交安全检查清单"@)),
            !prepublished(order) ==> if order.status == OrderStatus::Completed || order.status == OrderStatus::Cancelled {
                r matches Err(e) && violation_with(e, "当前状态不可提交安全检查清单"@)
            } else if order.status == OrderStatus::Assigned || order.status == OrderStatus::InProgress {
                r is Ok
            } else {
                r matches Err(e) && violation_with(e, "当前状态不可提交清单，当前状态: "@ + status_debug_text(order.status))
            },
    {
        match Self::ensure_order_execution_published(order, "提交安全检查清单") {
            Err(e) => {
                return Err(e);
            },
            Ok(()) => {},
        }
        if order.status == OrderStatus::Completed || order.status == OrderStatus::Cancelled {
            return Err(DispatchError::BusinessRuleViolation(String::from_str("当前状态不可提交安全检查清单")));
        }
        if !(order.status == OrderStatus::Assigned || order.status == OrderStatus::InProgress) {
            return Err(DispatchError::BusinessRuleViolation(debug_message("当前状态不可提交清单，当前状态: ", order.status)));
        }
        Ok(())
    }
}

} // verus!

verus! {

/// The answer to a start request for an order that runs already.
pub struct AlreadyStartedResponse {
    pub success: bool,
    pub message: String,
    /// When it started (RFC 3339).
    pub actual_start_time: String,
    pub compat_alias: bool,
}

/// The answer to a completion request for an order completed already.
pub struct AlreadyCompletedResponse {
    pub message: String,
    /// When it ended (RFC 3339).
    pub actual_end_time: String,
    pub completion_mode: String,
    pub followup_required: bool,
    pub followup_owner_role: Option<String>,
    pub followup_todo_id: Option<String>,
    pub compat_alias: bool,
}

/// The instant `t`, or `fallback` when it is missing.
pub open spec fn or_fallback(t: Option<i64>, fallback: i64) -> i64 {
    match t {
        Some(x) => x,
        None => fallback,
    }
}

impl DispatchService {
    /// The answer for an order that runs already: its persisted start, or
    /// `fallback` when none is recorded.
    pub fn already_started_response(actual_start_time: Option<i64>, fallback: i64) -> (r: AlreadyStartedResponse)
        requires
            crate::model::is_instant(or_fallback(actual_start_time, fallback) as int),
        ensures
            r.success,
            r.message@ == "派工单已在执行中"@,
            r.actual_start_time@ == crate::generation::rfc3339_text(or_fallback(actual_start_time, fallback) as int),
            r.compat_alias,
    {
        let t = match actual_start_time {
            Some(x) => x,
            None => fallback,
        };
        AlreadyStartedResponse {
            success: true,
            message: String::from_str("派工单已在执行中"),
            actual_start_time: crate::generation::instant_rfc3339(t),
            compat_alias: true,
        }
    }

    /// The answer for an order completed already: its persisted end, or
    /// `fallback` when none is recorded; no follow-up is due.
    pub fn already_completed_response(actual_end_time: Option<i64>, fallback: i64) -> (r: AlreadyCompletedResponse)
        requires
            crate::model::is_instant(or_fallback(actual_end_time, fallback) as int),
        ensures
            r.message@ == "派工单已完成"@,
            r.actual_end_time@ == crate::generation::rfc3339_text(or_fallback(actual_end_time, fallback) as int),
            r.completion_mode@ == "already_completed"@,
            !r.followup_required,
            r.followup_owner_role is None,
            r.followup_todo_id is None,
            r.compat_alias,
    {
        let t = match actual_end_time {
            Some(x) => x,
            None => fallback,
        };
        AlreadyCompletedResponse {
            message: String::from_str("派工单已完成"),
            actual_end_time: crate::generation::instant_rfc3339(t),
            completion_mode: String::from_str("already_completed"),
            followup_required: false,
            followup_owner_role: None,
            followup_todo_id: None,
            compat_alias: true,
        }
    }
}

} // verus!
