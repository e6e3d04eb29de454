//! Approved actions: which action a key names, the arguments it needs and
//! their defaults, checked before anything is read or written, and what is
//! done once an action is committed.

use vstd::prelude::*;
use crate::text::{text_eq, concat_views, join_texts};
use crate::publication::opt_chars;
use crate::executor::{
    ArgValue,
    ActionArgument,
    DomainActionError,
    arg_value,
    arg_get,
    first_string,
    parse_dt_arg,
    parse_dt_arg_opt,
    delay_update_arguments,
    dt_arg,
    dt_arg_opt,
    validation_with,
};

verus! {

/// An approved action with its arguments read.
pub enum ActionPlan {
    FlightAddNote { note: String },
    FlightUpdateStatus { status: String },
    FlightUpdateDelay { estimated_departure: Option<i64>, estimated_arrival: Option<i64> },
    AnomalyAcknowledge,
    AnomalyResolve { resolution_note: Option<String> },
    AnomalyEscalate { severity: String, reason: String },
    DispatchOrderRecommendReplan { strategy: String, reason: String },
    DispatchOrderUpdateStatus { new_status: String, notes: Option<String> },
    DispatchOrderPublish,
    BusinessCaseCreate {
        flight_id: String,
        case_type: String,
        description: String,
        flight_no: Option<String>,
        status: Option<String>,
    },
    BusinessCaseClose {
        reason: Option<String>,
        target_status: String,
        workflow_run_id: Option<String>,
        workflow_outcome: Option<String>,
        receipt_group_id: Option<String>,
    },
    StandAllocate {
        stand_code: String,
        registration: String,
        starts_at: i64,
        ends_at: i64,
        kind: String,
        moving_to_stand: Option<String>,
        flight_id: Option<String>,
    },
    StandAdjust {
        stand_code: Option<String>,
        starts_at: Option<i64>,
        ends_at: Option<i64>,
        kind: Option<String>,
        moving_to_stand: Option<String>,
    },
    StandRelease,
    GateAllocate { gate_code: String, flight_id: String, registration: String, starts_at: i64, ends_at: i64 },
    GateRelease,
    CarouselAllocate {
        carousel_code: String,
        flight_id: String,
        registration: Option<String>,
        starts_at: i64,
        ends_at: i64,
        client_action_id: Option<String>,
    },
    CarouselRelease,
    /// Link a stand, gate or carousel to the terminal the action is on.
    TerminalAddMember { member: TerminalMember, member_id: String },
    /// Unlink a stand, gate or carousel from the terminal the action is on.
    TerminalRemoveMember { member: TerminalMember, member_id: String },
    /// Put a piece of equipment into a slot of an order.
    EquipmentAssign { equipment_id: String, dispatch_order_id: String, slot_code: String },
    /// Take a piece of equipment off its order (the named one, else the one
    /// that holds it).
    EquipmentRelease { equipment_id: String, dispatch_order_id: Option<String> },
}

/// What a terminal links.
#[derive(Clone, Copy, Debug, PartialEq, Eq, Structural)]
pub enum TerminalMember {
    Stand,
    Gate,
    Carousel,
}

/// The argument that names a member of the kind `m`.
pub open spec fn member_key(m: TerminalMember) -> &'static str {
    match m {
        TerminalMember::Stand => "stand_id",
        TerminalMember::Gate => "gate_id",
        TerminalMember::Carousel => "carousel_id",
    }
}

/// The terminal membership action that `name` names, with whether it adds.
pub open spec fn terminal_action(name: Seq<char>) -> Option<(bool, TerminalMember)> {
    if name == "Terminal.add_stand"@ {
        Some((true, TerminalMember::Stand))
    } else if name == "Terminal.remove_stand"@ {
        Some((false, TerminalMember::Stand))
    } else if name == "Terminal.add_gate"@ {
        Some((true, TerminalMember::Gate))
    } else if name == "Terminal.remove_gate"@ {
        Some((false, TerminalMember::Gate))
    } else if name == "Terminal.add_carousel"@ {
        Some((true, TerminalMember::Carousel))
    } else if name == "Terminal.remove_carousel"@ {
        Some((false, TerminalMember::Carousel))
    } else {
        None
    }
}

/// A required string argument: the first of `keys` that is a nonblank
/// string, trimmed; else the error "`label` is required".
pub open spec fn req_text(args: Seq<ActionArgument>, keys: Seq<&str>, label: Seq<char>) -> Result<Seq<char>, Seq<char>> {
    match first_string(args, keys) {
        Some(s) => Ok(s),
        None => Err(label + " is required"@),
    }
}

/// An optional string argument, or `default`.
pub open spec fn text_or(args: Seq<ActionArgument>, keys: Seq<&str>, default: Seq<char>) -> Seq<char> {
    match first_string(args, keys) {
        Some(s) => s,
        None => default,
    }
}

/// The string argument `key` as given (untrimmed), or `default` when it is
/// not a string.
pub open spec fn raw_or(args: Seq<ActionArgument>, key: Seq<char>, default: Seq<char>) -> Seq<char> {
    match arg_value(args, key) {
        Some(ArgValue::Text(s)) => s@,
        _ => default,
    }
}

/// The boolean argument `key`, false when it is not a boolean.
pub open spec fn flag_of(args: Seq<ActionArgument>, key: Seq<char>) -> bool {
    match arg_value(args, key) {
        Some(ArgValue::Bool(b)) => b,
        _ => false,
    }
}

/// `r` fails validation with message `m`.
pub open spec fn fails_with(r: Result<ActionPlan, DomainActionError>, m: Seq<char>) -> bool {
    r matches Err(e) && validation_with(e, m)
}

/// The message of a replan recommendation that asks to apply itself.
pub open spec fn advisory_only_message() -> Seq<char> {
    "AI recommend_replan should be advisory-only. apply=true is not permitted in this context."@
}

/// What reading the arguments of `BusinessCase.create` gives: flight,
/// case type and description are required, in that order.
pub open spec fn case_create_planned(args: Seq<ActionArgument>, r: Result<ActionPlan, DomainActionError>) -> bool {
    match req_text(args, seq!["flight_id"], "flight_id"@) {
        Err(m) => fails_with(r, m),
        Ok(f) => match req_text(args, seq!["case_type"], "case_type"@) {
            Err(m) => fails_with(r, m),
            Ok(c) => match req_text(args, seq!["description", "summary"], "description"@) {
                Err(m) => fails_with(r, m),
                Ok(d) => r matches Ok(ActionPlan::BusinessCaseCreate { flight_id, case_type, description, flight_no, status })
                    && flight_id@ == f && case_type@ == c && description@ == d && opt_chars(flight_no) == first_string(
                    args,
                    seq!["flight_no", "flight_number"],
                ) && opt_chars(status) == first_string(args, seq!["status"]),
            },
        },
    }
}

/// What reading the arguments of `StandOccupation.allocate` gives: stand
/// and registration are required, then the span.
pub open spec fn stand_allocate_planned(args: Seq<ActionArgument>, r: Result<ActionPlan, DomainActionError>) -> bool {
    match req_text(args, seq!["stand_code"], "stand_code"@) {
        Err(m) => fails_with(r, m),
        Ok(sc) => match req_text(args, seq!["registration"], "registration"@) {
            Err(m) => fails_with(r, m),
            Ok(reg) => match dt_arg(args, "starts_at"@) {
                Err(m) => fails_with(r, m),
                Ok(s) => match dt_arg(args, "ends_at"@) {
                    Err(m) => fails_with(r, m),
                    Ok(e) => r matches Ok(
                        ActionPlan::StandAllocate {
                            stand_code,
                            registration,
                            starts_at,
                            ends_at,
                            kind,
                            moving_to_stand,
                            flight_id,
                        },
                    ) && stand_code@ == sc && registration@ == reg && starts_at == s && ends_at == e && kind@ == text_or(
                        args,
                        seq!["kind"],
                        "normal"@,
                    ) && opt_chars(moving_to_stand) == first_string(args, seq!["moving_to_stand"]) && opt_chars(
                        flight_id,
                    ) == first_string(args, seq!["flight_id"]),
                },
            },
        },
    }
}

/// What reading the arguments of `GateAssignment.allocate` gives: gate and
/// flight are required, then the span.
pub open spec fn gate_allocate_planned(args: Seq<ActionArgument>, r: Result<ActionPlan, DomainActionError>) -> bool {
    match req_text(args, seq!["gate_code"], "gate_code"@) {
        Err(m) => fails_with(r, m),
        Ok(g) => match req_text(args, seq!["flight_id"], "flight_id"@) {
            Err(m) => fails_with(r, m),
            Ok(f) => match dt_arg(args, "starts_at"@) {
                Err(m) => fails_with(r, m),
                Ok(s) => match dt_arg(args, "ends_at"@) {
                    Err(m) => fails_with(r, m),
                    Ok(e) => r matches Ok(ActionPlan::GateAllocate { gate_code, flight_id, registration, starts_at, ends_at })
                        && gate_code@ == g && flight_id@ == f && registration@ == text_or(args, seq!["registration"], ""@)
                        && starts_at == s && ends_at == e,
                },
            },
        },
    }
}

/// What reading the arguments of `CarouselAssignment.allocate` gives:
/// carousel and flight are required, then the span.
pub open spec fn carousel_allocate_planned(args: Seq<ActionArgument>, r: Result<ActionPlan, DomainActionError>) -> bool {
    match req_text(args, seq!["carousel_code"], "carousel_code"@) {
        Err(m) => fails_with(r, m),
        Ok(c) => match req_text(args, seq!["flight_id"], "flight_id"@) {
            Err(m) => fails_with(r, m),
            Ok(f) => match dt_arg(args, "starts_at"@) {
                Err(m) => fails_with(r, m),
                Ok(s) => match dt_arg(args, "ends_at"@) {
                    Err(m) => fails_with(r, m),
                    Ok(e) => r matches Ok(
                        ActionPlan::CarouselAllocate {
                            carousel_code,
                            flight_id,
                            registration,
                            starts_at,
                            ends_at,
                            client_action_id,
                        },
                    ) && carousel_code@ == c && flight_id@ == f && opt_chars(registration) == first_string(
                        args,
                        seq!["registration"],
                    ) && starts_at == s && ends_at == e && opt_chars(client_action_id) == first_string(
                        args,
                        seq!["client_action_id"],
                    ),
                },
            },
        },
    }
}

/// `r` is what reading the arguments of the action with key `key` gives.
pub open spec fn action_planned(key: Seq<char>, args: Seq<ActionArgument>, r: Result<ActionPlan, DomainActionError>) -> bool {
    if key == "Flight.add_note"@ {
        match req_text(args, seq!["note_content", "note"], "note"@) {
            Err(m) => fails_with(r, m),
            Ok(n) => r matches Ok(ActionPlan::FlightAddNote { note }) && note@ == n,
        }
    } else if key == "Flight.update_status"@ {
        match req_text(args, seq!["new_status", "status"], "status"@) {
            Err(m) => fails_with(r, m),
            Ok(st) => r matches Ok(ActionPlan::FlightUpdateStatus { status }) && status@ == st,
        }
    } else if key == "Flight.update_delay"@ {
        match dt_arg_opt(args, "estimated_departure"@) {
            Err(m) => fails_with(r, m),
            Ok(dep) => match dt_arg_opt(args, "estimated_arrival"@) {
                Err(m) => fails_with(r, m),
                Ok(arr) => if dep is None && arr is None {
                    fails_with(r, "at least one of estimated_departure / estimated_arrival is required"@)
                } else {
                    r matches Ok(ActionPlan::FlightUpdateDelay { estimated_departure, estimated_arrival })
                        && estimated_departure == dep && estimated_arrival == arr
                },
            },
        }
    } else if key == "Anomaly.acknowledge"@ {
        r matches Ok(ActionPlan::AnomalyAcknowledge)
    } else if key == "Anomaly.resolve"@ {
        r matches Ok(ActionPlan::AnomalyResolve { resolution_note }) && opt_chars(resolution_note) == first_string(
            args,
            seq!["resolution_note", "note"],
        )
    } else if key == "Anomaly.escalate"@ {
        r matches Ok(ActionPlan::AnomalyEscalate { severity, reason }) && severity@ == raw_or(
            args,
            "severity"@,
            "high"@,
        ) && reason@ == raw_or(args, "reason"@, "AI recommended escalation"@)
    } else if key == "DispatchOrder.recommend_replan"@ {
        if flag_of(args, "apply"@) {
            r matches Err(DomainActionError::Execution(m)) && m@ == advisory_only_message()
        } else {
            r matches Ok(ActionPlan::DispatchOrderRecommendReplan { strategy, reason }) && strategy@ == raw_or(
                args,
                "strategy"@,
                "balanced"@,
            ) && reason@ == raw_or(args, "reason"@, "AI recommended replan"@)
        }
    } else if key == "DispatchOrder.update_status"@ {
        match req_text(args, seq!["new_status", "status"], "new_status"@) {
            Err(m) => fails_with(r, m),
            Ok(st) => r matches Ok(ActionPlan::DispatchOrderUpdateStatus { new_status, notes }) && new_status@ == st
                && opt_chars(notes) == first_string(args, seq!["notes"]),
        }
    } else if key == "DispatchOrder.publish"@ {
        r matches Ok(ActionPlan::DispatchOrderPublish)
    } else if key == "BusinessCase.create"@ {
        case_create_planned(args, r)
    } else if key == "BusinessCase.close_case"@ {
        r matches Ok(
            ActionPlan::BusinessCaseClose {
                reason,
                target_status,
                workflow_run_id,
                workflow_outcome,
                receipt_group_id,
            },
        ) && opt_chars(reason) == first_string(args, seq!["reason"]) && target_status@ == text_or(
            args,
            seq!["target_status", "status"],
            "COMPLETED"@,
        ) && opt_chars(workflow_run_id) == first_string(args, seq!["workflow_run_id"]) && opt_chars(workflow_outcome)
            == first_string(args, seq!["workflow_outcome"]) && opt_chars(receipt_group_id) == first_string(
            args,
            seq!["receipt_group_id"],
        )
    } else if key == "StandOccupation.allocate"@ {
        stand_allocate_planned(args, r)
    } else if key == "StandOccupation.adjust"@ {
        match dt_arg_opt(args, "starts_at"@) {
            Err(m) => fails_with(r, m),
            Ok(s) => match dt_arg_opt(args, "ends_at"@) {
                Err(m) => fails_with(r, m),
                Ok(e) => r matches Ok(
                    ActionPlan::StandAdjust { stand_code, starts_at, ends_at, kind, moving_to_stand },
                ) && opt_chars(stand_code) == first_string(args, seq!["stand_code"]) && starts_at == s && ends_at == e
                    && opt_chars(kind) == first_string(args, seq!["kind"]) && opt_chars(moving_to_stand)
                    == first_string(args, seq!["moving_to_stand"]),
            },
        }
    } else if key == "StandOccupation.release"@ {
        r matches Ok(ActionPlan::StandRelease)
    } else if key == "GateAssignment.allocate"@ {
        gate_allocate_planned(args, r)
    } else if key == "GateAssignment.release"@ {
        r matches Ok(ActionPlan::GateRelease)
    } else if key == "CarouselAssignment.allocate"@ {
        carousel_allocate_planned(args, r)
    } else if key == "CarouselAssignment.release"@ {
        r matches Ok(ActionPlan::CarouselRelease)
    } else if terminal_action(key) is Some {
        let (adds, kind) = terminal_action(key).unwrap();
        match req_text(args, seq![member_key(kind)], member_key(kind)@) {
            Err(m) => fails_with(r, m),
            Ok(id) => if adds {
                r matches Ok(ActionPlan::TerminalAddMember { member, member_id }) && member == kind && member_id@ == id
            } else {
                r matches Ok(ActionPlan::TerminalRemoveMember { member, member_id }) && member == kind && member_id@ == id
            },
        }
    } else if key == "Equipment.assign"@ {
        match req_text(args, seq!["equipment_id"], "equipment_id"@) {
            Err(m) => fails_with(r, m),
            Ok(e) => match req_text(args, seq!["dispatch_order_id"], "dispatch_order_id"@) {
                Err(m) => fails_with(r, m),
                Ok(o) => match req_text(args, seq!["slot_code"], "slot_code"@) {
                    Err(m) => fails_with(r, m),
                    Ok(sc) => r matches Ok(ActionPlan::EquipmentAssign { equipment_id, dispatch_order_id, slot_code })
                        && equipment_id@ == e && dispatch_order_id@ == o && slot_code@ == sc,
                },
            },
        }
    } else if key == "Equipment.release"@ {
        match req_text(args, seq!["equipment_id"], "equipment_id"@) {
            Err(m) => fails_with(r, m),
            Ok(e) => r matches Ok(ActionPlan::EquipmentRelease { equipment_id, dispatch_order_id }) && equipment_id@ == e
                && opt_chars(dispatch_order_id) == first_string(args, seq!["dispatch_order_id"]),
        }
    } else {
        r matches Err(DomainActionError::NotFound(m)) && m@ == "unknown action: "@ + key
    }
}

/// The first string argument among `k1`, trimmed; none when blank.
fn opt1<'a>(args: &'a Vec<ActionArgument>, k1: &str) -> (r: Option<&'a str>)
    ensures
        match r {
            Some(s) => first_string(args@, seq![k1]) == Some(s@),
            None => first_string(args@, seq![k1]) is None,
        },
{
    let ghost keys = seq![k1];
    assert(keys.drop_first() =~= Seq::<&str>::empty());
    assert(keys[0] == k1);
    assert(keys.len() == 1);
    reveal_with_fuel(first_string, 2);
    match arg_get(args, k1) {
        Some(ArgValue::Text(s)) => {
            let t = crate::text::trim(s.as_str());
            if t.unicode_len() == 0 {
                None
            } else {
                Some(t)
            }
        },
        _ => None,
    }
}

/// The first string argument among `k1`, `k2`, trimmed; none when blank.
fn opt2<'a>(args: &'a Vec<ActionArgument>, k1: &str, k2: &str) -> (r: Option<&'a str>)
    ensures
        match r {
            Some(s) => first_string(args@, seq![k1, k2]) == Some(s@),
            None => first_string(args@, seq![k1, k2]) is None,
        },
{
    let ghost keys = seq![k1, k2];
    assert(keys.drop_first() =~= seq![k2]);
    match arg_get(args, k1) {
        Some(ArgValue::Text(s)) => {
            let t = crate::text::trim(s.as_str());
            if t.unicode_len() == 0 {
                None
            } else {
                Some(t)
            }
        },
        _ => opt1(args, k2),
    }
}

fn missing(label: &str) -> (e: DomainActionError)
    ensures
        validation_with(e, label@ + " is required"@),
{
    let m = join_texts(&[label, " is required"]);
    assert(concat_views(seq![label, " is required"]) =~= label@ + " is required"@) by {
        reveal_with_fuel(concat_views, 3);
    }
    DomainActionError::Validation(m)
}

/// A required string argument, owned.
fn req1(args: &Vec<ActionArgument>, k1: &str, label: &str) -> (r: Result<String, DomainActionError>)
    ensures
        match req_text(args@, seq![k1], label@) {
            Ok(s) => r matches Ok(x) && x@ == s,
            Err(m) => r matches Err(e) && validation_with(e, m),
        },
{
    match opt1(args, k1) {
        Some(s) => Ok(s.to_string()),
        None => Err(missing(label)),
    }
}

/// A required string argument among two names, owned.
fn req2(args: &Vec<ActionArgument>, k1: &str, k2: &str, label: &str) -> (r: Result<String, DomainActionError>)
    ensures
        match req_text(args@, seq![k1, k2], label@) {
            Ok(s) => r matches Ok(x) && x@ == s,
            Err(m) => r matches Err(e) && validation_with(e, m),
        },
{
    match opt2(args, k1, k2) {
        Some(s) => Ok(s.to_string()),
        None => Err(missing(label)),
    }
}

/// An optional string argument, or `default`.
fn opt_or1(args: &Vec<ActionArgument>, k1: &str, default: &str) -> (r: String)
    ensures
        r@ == text_or(args@, seq![k1], default@),
{
    match opt1(args, k1) {
        Some(s) => s.to_string(),
        None => default.to_string(),
    }
}

/// An optional string argument among two names, or `default`.
fn opt_or2(args: &Vec<ActionArgument>, k1: &str, k2: &str, default: &str) -> (r: String)
    ensures
        r@ == text_or(args@, seq![k1, k2], default@),
{
    match opt2(args, k1, k2) {
        Some(s) => s.to_string(),
        None => default.to_string(),
    }
}

fn opt_owned(o: Option<&str>) -> (r: Option<String>)
    ensures
        opt_chars(r) == match o {
            Some(s) => Some(s@),
            None => None,
        },
{
    match o {
        Some(s) => Some(s.to_string()),
        None => None,
    }
}

/// The string argument `key` as given, or `default`.
fn raw_text(args: &Vec<ActionArgument>, key: &str, default: &str) -> (r: String)
    ensures
        r@ == raw_or(args@, key@, default@),
{
    match arg_get(args, key) {
        Some(ArgValue::Text(s)) => s.clone(),
        _ => default.to_string(),
    }
}

/// The boolean argument `key`, false when it is not a boolean.
fn flag(args: &Vec<ActionArgument>, key: &str) -> (r: bool)
    ensures
        r == flag_of(args@, key@),
{
    match arg_get(args, key) {
        Some(ArgValue::Bool(b)) => *b,
        _ => false,
    }
}



fn plan_case_create(arguments: &Vec<ActionArgument>) -> (r: Result<ActionPlan, DomainActionError>)
    ensures
        case_create_planned(arguments@, r),
{
    let flight_id = req1(arguments, "flight_id", "flight_id")?;
    let case_type = req1(arguments, "case_type", "case_type")?;
    let description = req2(arguments, "description", "summary", "description")?;
    Ok(
        ActionPlan::BusinessCaseCreate {
            flight_id,
            case_type,
            description,
            flight_no: opt_owned(opt2(arguments, "flight_no", "flight_number")),
            status: opt_owned(opt1(arguments, "status")),
        },
    )
}

fn plan_stand_allocate(arguments: &Vec<ActionArgument>) -> (r: Result<ActionPlan, DomainActionError>)
    ensures
        stand_allocate_planned(arguments@, r),
{
    proof {
        reveal_strlit("normal");
    }
    let stand_code = req1(arguments, "stand_code", "stand_code")?;
    let registration = req1(arguments, "registration", "registration")?;
    let starts_at = parse_dt_arg(arguments, "starts_at")?;
    let ends_at = parse_dt_arg(arguments, "ends_at")?;
    Ok(
        ActionPlan::StandAllocate {
            stand_code,
            registration,
            starts_at,
            ends_at,
            kind: opt_or1(arguments, "kind", "normal"),
            moving_to_stand: opt_owned(opt1(arguments, "moving_to_stand")),
            flight_id: opt_owned(opt1(arguments, "flight_id")),
        },
    )
}

fn plan_gate_allocate(arguments: &Vec<ActionArgument>) -> (r: Result<ActionPlan, DomainActionError>)
    ensures
        gate_allocate_planned(arguments@, r),
{
    proof {
        reveal_strlit("");
    }
    let gate_code = req1(arguments, "gate_code", "gate_code")?;
    let flight_id = req1(arguments, "flight_id", "flight_id")?;
    let registration = opt_or1(arguments, "registration", "");
    let starts_at = parse_dt_arg(arguments, "starts_at")?;
    let ends_at = parse_dt_arg(arguments, "ends_at")?;
    Ok(ActionPlan::GateAllocate { gate_code, flight_id, registration, starts_at, ends_at })
}

fn plan_carousel_allocate(arguments: &Vec<ActionArgument>) -> (r: Result<ActionPlan, DomainActionError>)
    ensures
        carousel_allocate_planned(arguments@, r),
{
    let carousel_code = req1(arguments, "carousel_code", "carousel_code")?;
    let flight_id = req1(arguments, "flight_id", "flight_id")?;
    let registration = opt_owned(opt1(arguments, "registration"));
    let starts_at = parse_dt_arg(arguments, "starts_at")?;
    let ends_at = parse_dt_arg(arguments, "ends_at")?;
    Ok(
        ActionPlan::CarouselAllocate {
            carousel_code,
            flight_id,
            registration,
            starts_at,
            ends_at,
            client_action_id: opt_owned(opt1(arguments, "client_action_id")),
        },
    )
}

fn plan_terminal_member(arguments: &Vec<ActionArgument>, adds: bool, kind: TerminalMember) -> (r: Result<
    ActionPlan,
    DomainActionError,
>)
    ensures
        match req_text(arguments@, seq![member_key(kind)], member_key(kind)@) {
            Err(m) => fails_with(r, m),
            Ok(id) => if adds {
                r matches Ok(ActionPlan::TerminalAddMember { member, member_id }) && member == kind && member_id@ == id
            } else {
                r matches Ok(ActionPlan::TerminalRemoveMember { member, member_id }) && member == kind && member_id@ == id
            },
        },
{
    let key: &str = match kind {
        TerminalMember::Stand => "stand_id",
        TerminalMember::Gate => "gate_id",
        TerminalMember::Carousel => "carousel_id",
    };
    assert(key == member_key(kind));
    let member_id = req1(arguments, key, key)?;
    if adds {
        Ok(ActionPlan::TerminalAddMember { member: kind, member_id })
    } else {
        Ok(ActionPlan::TerminalRemoveMember { member: kind, member_id })
    }
}

fn plan_equipment_assign(arguments: &Vec<ActionArgument>) -> (r: Result<ActionPlan, DomainActionError>)
    ensures
        match req_text(arguments@, seq!["equipment_id"], "equipment_id"@) {
            Err(m) => fails_with(r, m),
            Ok(e) => match req_text(arguments@, seq!["dispatch_order_id"], "dispatch_order_id"@) {
                Err(m) => fails_with(r, m),
                Ok(o) => match req_text(arguments@, seq!["slot_code"], "slot_code"@) {
                    Err(m) => fails_with(r, m),
                    Ok(sc) => r matches Ok(ActionPlan::EquipmentAssign { equipment_id, dispatch_order_id, slot_code })
                        && equipment_id@ == e && dispatch_order_id@ == o && slot_code@ == sc,
                },
            },
        },
{
    let equipment_id = req1(arguments, "equipment_id", "equipment_id")?;
    let dispatch_order_id = req1(arguments, "dispatch_order_id", "dispatch_order_id")?;
    let slot_code = req1(arguments, "slot_code", "slot_code")?;
    Ok(ActionPlan::EquipmentAssign { equipment_id, dispatch_order_id, slot_code })
}

/// Reads the arguments of the approved action with key `action_key`
/// (`object_type.action_name`): each action's required arguments, in the
/// order the action reads them, its time spans and its defaults; an
/// unknown key is not found.
pub fn plan_action(action_key: &str, arguments: &Vec<ActionArgument>) -> (r: Result<ActionPlan, DomainActionError>)
    ensures
        action_planned(action_key@, arguments@, r),
{
    proof {
        reveal_strlit("high");
        reveal_strlit("AI recommended escalation");
        reveal_strlit("balanced");
        reveal_strlit("AI recommended replan");
        reveal_strlit("COMPLETED");
        reveal_strlit("normal");
        reveal_strlit("");
    }
    if text_eq(action_key, "Flight.add_note") {
        let note = req2(arguments, "note_content", "note", "note")?;
        Ok(ActionPlan::FlightAddNote { note })
    } else if text_eq(action_key, "Flight.update_status") {
        let status = req2(arguments, "new_status", "status", "status")?;
        Ok(ActionPlan::FlightUpdateStatus { status })
    } else if text_eq(action_key, "Flight.update_delay") {
        let (estimated_departure, estimated_arrival) = delay_update_arguments(arguments)?;
        Ok(ActionPlan::FlightUpdateDelay { estimated_departure, estimated_arrival })
    } else if text_eq(action_key, "Anomaly.acknowledge") {
        Ok(ActionPlan::AnomalyAcknowledge)
    } else if text_eq(action_key, "Anomaly.resolve") {
        Ok(ActionPlan::AnomalyResolve { resolution_note: opt_owned(opt2(arguments, "resolution_note", "note")) })
    } else if text_eq(action_key, "Anomaly.escalate") {
        Ok(
            ActionPlan::AnomalyEscalate {
                severity: raw_text(arguments, "severity", "high"),
                reason: raw_text(arguments, "reason", "AI recommended escalation"),
            },
        )
    } else if text_eq(action_key, "DispatchOrder.recommend_replan") {
        let strategy = raw_text(arguments, "strategy", "balanced");
        let apply = flag(arguments, "apply");
        let reason = raw_text(arguments, "reason", "AI recommended replan");
        if apply {
            proof {
                reveal_strlit(
                    "AI recommend_replan should be advisory-only. apply=true is not permitted in this context.",
                );
            }
            return Err(
                DomainActionError::Execution(
                    "AI recommend_replan should be advisory-only. apply=true is not permitted in this context.".to_string(),
                ),
            );
        }
        Ok(ActionPlan::DispatchOrderRecommendReplan { strategy, reason })
    } else if text_eq(action_key, "DispatchOrder.update_status") {
        let new_status = req2(arguments, "new_status", "status", "new_status")?;
        Ok(ActionPlan::DispatchOrderUpdateStatus { new_status, notes: opt_owned(opt1(arguments, "notes")) })
    } else if text_eq(action_key, "DispatchOrder.publish") {
        Ok(ActionPlan::DispatchOrderPublish)
    } else if text_eq(action_key, "BusinessCase.create") {
        plan_case_create(arguments)
    } else if text_eq(action_key, "BusinessCase.close_case") {
        Ok(
            ActionPlan::BusinessCaseClose {
                reason: opt_owned(opt1(arguments, "reason")),
                target_status: opt_or2(arguments, "target_status", "status", "COMPLETED"),
                workflow_run_id: opt_owned(opt1(arguments, "workflow_run_id")),
                workflow_outcome: opt_owned(opt1(arguments, "workflow_outcome")),
                receipt_group_id: opt_owned(opt1(arguments, "receipt_group_id")),
            },
        )
    } else if text_eq(action_key, "StandOccupation.allocate") {
        plan_stand_allocate(arguments)
    } else if text_eq(action_key, "StandOccupation.adjust") {
        let stand_code = opt_owned(opt1(arguments, "stand_code"));
        let starts_at = parse_dt_arg_opt(arguments, "starts_at")?;
        let ends_at = parse_dt_arg_opt(arguments, "ends_at")?;
        Ok(
            ActionPlan::StandAdjust {
                stand_code,
                starts_at,
                ends_at,
                kind: opt_owned(opt1(arguments, "kind")),
                moving_to_stand: opt_owned(opt1(arguments, "moving_to_stand")),
            },
        )
    } else if text_eq(action_key, "StandOccupation.release") {
        Ok(ActionPlan::StandRelease)
    } else if text_eq(action_key, "GateAssignment.allocate") {
        plan_gate_allocate(arguments)
    } else if text_eq(action_key, "GateAssignment.release") {
        Ok(ActionPlan::GateRelease)
    } else if text_eq(action_key, "CarouselAssignment.allocate") {
        plan_carousel_allocate(arguments)
    } else if text_eq(action_key, "CarouselAssignment.release") {
        Ok(ActionPlan::CarouselRelease)
    } else if text_eq(action_key, "Terminal.add_stand") {
        plan_terminal_member(arguments, true, TerminalMember::Stand)
    } else if text_eq(action_key, "Terminal.remove_stand") {
        plan_terminal_member(arguments, false, TerminalMember::Stand)
    } else if text_eq(action_key, "Terminal.add_gate") {
        plan_terminal_member(arguments, true, TerminalMember::Gate)
    } else if text_eq(action_key, "Terminal.remove_gate") {
        plan_terminal_member(arguments, false, TerminalMember::Gate)
    } else if text_eq(action_key, "Terminal.add_carousel") {
        plan_terminal_member(arguments, true, TerminalMember::Carousel)
    } else if text_eq(action_key, "Terminal.remove_carousel") {
        plan_terminal_member(arguments, false, TerminalMember::Carousel)
    } else if text_eq(action_key, "Equipment.assign") {
        plan_equipment_assign(arguments)
    } else if text_eq(action_key, "Equipment.release") {
        let equipment_id = req1(arguments, "equipment_id", "equipment_id")?;
        Ok(
            ActionPlan::EquipmentRelease {
                equipment_id,
                dispatch_order_id: opt_owned(opt1(arguments, "dispatch_order_id")),
            },
        )
    } else {
        proof {
            reveal_strlit("unknown action: ");
            reveal_with_fuel(concat_views, 3);
        }
        let m = join_texts(&["unknown action: ", action_key]);
        assert(concat_views(seq!["unknown action: ", action_key]) =~= "unknown action: "@ + action_key@);
        Err(DomainActionError::NotFound(m))
    }
}

/// The permission an occupation action runs under, if it is one.
pub open spec fn permission_of(p: ActionPlan) -> Option<Seq<char>> {
    match p {
        ActionPlan::StandAllocate { .. } => Some("ontology:stand.manage"@),
        ActionPlan::StandAdjust { .. } => Some("ontology:stand.manage"@),
        ActionPlan::StandRelease => Some("ontology:stand.manage"@),
        ActionPlan::GateAllocate { .. } => Some("ontology:gate.manage"@),
        ActionPlan::GateRelease => Some("ontology:gate.manage"@),
        ActionPlan::CarouselAllocate { .. } => Some("ontology:carousel.manage"@),
        ActionPlan::CarouselRelease => Some("ontology:carousel.manage"@),
        _ => None,
    }
}

/// The permission an occupation action runs under, if it is one.
pub fn ontology_permission(p: &ActionPlan) -> (r: Option<&'static str>)
    ensures
        match r {
            Some(s) => permission_of(*p) == Some(s@),
            None => permission_of(*p) is None,
        },
{
    proof {
        reveal_strlit("ontology:stand.manage");
        reveal_strlit("ontology:gate.manage");
        reveal_strlit("ontology:carousel.manage");
    }
    match p {
        ActionPlan::StandAllocate { .. } | ActionPlan::StandAdjust { .. } | ActionPlan::StandRelease => Some(
            "ontology:stand.manage",
        ),
        ActionPlan::GateAllocate { .. } | ActionPlan::GateRelease => Some("ontology:gate.manage"),
        ActionPlan::CarouselAllocate { .. } | ActionPlan::CarouselRelease => Some("ontology:carousel.manage"),
        _ => None,
    }
}

/// What follows the commit of an action.
#[derive(Clone, Copy, Debug, PartialEq, Eq, Structural)]
pub enum PostCommit {
    /// Sync the order's chat and notify about its publication.
    SyncChatAndNotify,
    /// Sync the order's chat.
    SyncChat,
    /// Refresh the flight's runtime projection.
    RefreshFlightProjection,
    Nothing,
}

/// What follows the commit of the action with key `k`.
pub open spec fn post_commit_of(k: Seq<char>) -> PostCommit {
    if k == "DispatchOrder.publish"@ {
        PostCommit::SyncChatAndNotify
    } else if k == "DispatchOrder.reassign"@ {
        PostCommit::SyncChat
    } else if k == "BusinessCase.create"@ || k == "BusinessCase.close_case"@ {
        PostCommit::RefreshFlightProjection
    } else {
        PostCommit::Nothing
    }
}

/// What follows the commit of the action with key `action_key`.
pub fn post_commit_hook(action_key: &str) -> (r: PostCommit)
    ensures
        r == post_commit_of(action_key@),
{
    if text_eq(action_key, "DispatchOrder.publish") {
        PostCommit::SyncChatAndNotify
    } else if text_eq(action_key, "DispatchOrder.reassign") {
        PostCommit::SyncChat
    } else if text_eq(action_key, "BusinessCase.create") || text_eq(action_key, "BusinessCase.close_case") {
        PostCommit::RefreshFlightProjection
    } else {
        PostCommit::Nothing
    }
}

} // verus!
