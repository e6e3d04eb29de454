//! What the terminal membership and equipment actions decide once their
//! arguments are read: whether the terminal, the order and the equipment
//! allow them, and what becomes of the order's equipment assignment.

use vstd::prelude::*;
use crate::actions::TerminalMember;
use crate::executor::DomainActionError;
use crate::model::{DispatchOrder, EquipmentAssignment};
use crate::publication::opt_chars;
use crate::publication_resources::{
    assignment_equipment, equipment_record, equipment_usable, find_equipment, find_requirement, opt_text_eq,
    requirement_for, type_matches, EquipmentState,
};
use crate::rules::normalized_opt;
use crate::text::{concat_views, join_texts, text_eq};

verus! {

/// The kind of an action failure.
#[derive(Clone, Copy, Debug, PartialEq, Eq, Structural)]
pub enum FailureKind {
    NotFound,
    Validation,
    Execution,
}

/// Whether `e` is a failure of kind `k` with message `m`.
pub open spec fn failure_is(e: DomainActionError, k: FailureKind, m: Seq<char>) -> bool {
    match k {
        FailureKind::NotFound => e matches DomainActionError::NotFound(x) && x@ == m,
        FailureKind::Validation => e matches DomainActionError::Validation(x) && x@ == m,
        FailureKind::Execution => e matches DomainActionError::Execution(x) && x@ == m,
    }
}

/// Whether `r` is the outcome `fault` names: success, or a failure of that
/// kind and message.
pub open spec fn settles<T>(r: Result<T, DomainActionError>, fault: Option<(FailureKind, Seq<char>)>) -> bool {
    match fault {
        None => r is Ok,
        Some((k, m)) => r matches Err(e) && failure_is(e, k, m),
    }
}

/// The name of a member kind in messages.
pub open spec fn member_noun(m: TerminalMember) -> Seq<char> {
    match m {
        TerminalMember::Stand => "stand"@,
        TerminalMember::Gate => "gate"@,
        TerminalMember::Carousel => "carousel"@,
    }
}

/// What stops a terminal membership change: linking needs the terminal to
/// exist (`terminal_active` is `None` when it does not) and to be active;
/// unlinking a stand that still has an active occupation is a conflict.
pub open spec fn membership_fault(
    terminal_id: Seq<char>,
    terminal_active: Option<bool>,
    adds: bool,
    kind: TerminalMember,
    member_id: Seq<char>,
    active_occupations: usize,
) -> Option<(FailureKind, Seq<char>)> {
    if adds {
        match terminal_active {
            None => Some((FailureKind::NotFound, "terminal "@ + terminal_id)),
            Some(false) => Some((FailureKind::Validation, "terminal "@ + terminal_id + " is not active"@)),
            Some(true) => None,
        }
    } else if kind == TerminalMember::Stand && active_occupations > 0 {
        Some((FailureKind::Execution, "conflict: stand "@ + member_id + " has an active occupation"@))
    } else {
        None
    }
}

fn failure(k: FailureKind, m: String) -> (e: DomainActionError)
    ensures
        failure_is(e, k, m@),
{
    match k {
        FailureKind::NotFound => DomainActionError::NotFound(m),
        FailureKind::Validation => DomainActionError::Validation(m),
        FailureKind::Execution => DomainActionError::Execution(m),
    }
}

/// Decides a terminal membership change: linking a member needs the
/// terminal to exist and be active; unlinking a stand needs it to have no
/// active occupation left.
pub fn check_terminal_membership(
    terminal_id: &str,
    terminal_active: Option<bool>,
    adds: bool,
    kind: TerminalMember,
    member_id: &str,
    active_occupations: usize,
) -> (r: Result<(), DomainActionError>)
    ensures
        settles(r, membership_fault(terminal_id@, terminal_active, adds, kind, member_id@, active_occupations)),
{
    if adds {
        match terminal_active {
            None => {
                let m = join_texts(&["terminal ", terminal_id]);
                assert(concat_views(seq!["terminal ", terminal_id]) =~= "terminal "@ + terminal_id@) by {
                    reveal_with_fuel(concat_views, 3);
                }
                Err(failure(FailureKind::NotFound, m))
            },
            Some(false) => {
                let m = join_texts(&["terminal ", terminal_id, " is not active"]);
                assert(concat_views(seq!["terminal ", terminal_id, " is not active"]) =~= "terminal "@ + terminal_id@
                    + " is not active"@) by {
                    reveal_with_fuel(concat_views, 4);
                }
                Err(failure(FailureKind::Validation, m))
            },
            Some(true) => Ok(()),
        }
    } else if kind == TerminalMember::Stand && active_occupations > 0 {
        let m = join_texts(&["conflict: stand ", member_id, " has an active occupation"]);
        assert(concat_views(seq!["conflict: stand ", member_id, " has an active occupation"]) =~= "conflict: stand "@
            + member_id@ + " has an active occupation"@) by {
            reveal_with_fuel(concat_views, 4);
        }
        Err(failure(FailureKind::Execution, m))
    } else {
        Ok(())
    }
}

/// `xs` without the entries that name the equipment `id`, in order.
pub open spec fn without_equipment(xs: Seq<EquipmentAssignment>, id: Seq<char>) -> Seq<EquipmentAssignment>
    decreases xs.len(),
{
    if xs.len() == 0 {
        Seq::empty()
    } else if assignment_equipment(xs.last()) == id {
        without_equipment(xs.drop_last(), id)
    } else {
        without_equipment(xs.drop_last(), id).push(xs.last())
    }
}

/// Whether `a` is the entry that puts equipment `id` into slot `slot`.
pub open spec fn is_slot_entry(a: EquipmentAssignment, id: Seq<char>, slot: Seq<char>) -> bool {
    &&& a.text is None
    &&& a.has_equipment_id
    &&& opt_chars(a.equipment_id) == Some(id)
    &&& a.id is None
    &&& opt_chars(a.slot_code) == Some(slot)
    &&& a.driver_user_id is None
}

/// What stops assigning equipment `id` to slot `slot` of order `order_id`:
/// the order is not found, the slot is not one it requires, the equipment
/// is not found, cannot serve the order, or is not of the slot's type.
pub open spec fn assign_fault(
    order_id: Seq<char>,
    order: Option<&DispatchOrder>,
    slot: Seq<char>,
    id: Seq<char>,
    states: Seq<EquipmentState>,
) -> Option<(FailureKind, Seq<char>)> {
    match order {
        None => Some((FailureKind::NotFound, "dispatch order "@ + order_id)),
        Some(o) => match requirement_for(o.equipment_requirement_snapshot@, slot) {
            None => Some(
                (FailureKind::Validation, "slot_code "@ + slot + " is not required by dispatch order "@ + order_id),
            ),
            Some(req) => match equipment_record(states, id) {
                None => Some((FailureKind::NotFound, "equipment "@ + id)),
                Some(e) => if !equipment_usable(e, o) {
                    Some((FailureKind::Validation, "设备 "@ + id + " 当前不可用"@))
                } else if !type_matches(req, e) {
                    Some((FailureKind::Validation, "设备 "@ + id + " 不符合槽位 "@ + slot + " 的设备类型要求"@))
                } else {
                    None
                },
            },
        },
    }
}

fn copy_opt(o: &Option<String>) -> (r: Option<String>)
    ensures
        r == *o,
{
    match o {
        Some(s) => Some(s.clone()),
        None => None,
    }
}

fn copy_assignment(a: &EquipmentAssignment) -> (r: EquipmentAssignment)
    ensures
        r == *a,
{
    EquipmentAssignment {
        text: copy_opt(&a.text),
        has_equipment_id: a.has_equipment_id,
        equipment_id: copy_opt(&a.equipment_id),
        id: copy_opt(&a.id),
        slot_code: copy_opt(&a.slot_code),
        driver_user_id: copy_opt(&a.driver_user_id),
    }
}

fn equipment_of(a: &EquipmentAssignment) -> (r: &str)
    ensures
        r@ == assignment_equipment(*a),
{
    match &a.equipment_id {
        Some(e) => e.as_str(),
        None => match &a.text {
            Some(t) => t.as_str(),
            None => {
                proof {
                    reveal_strlit("");
                }
                ""
            },
        },
    }
}

/// The entries of `xs` that do not name the equipment `equipment_id`, in
/// order.
pub fn release_from_assignment(xs: &Vec<EquipmentAssignment>, equipment_id: &str) -> (r: Vec<EquipmentAssignment>)
    ensures
        r@ == without_equipment(xs@, equipment_id@),
{
    let mut r: Vec<EquipmentAssignment> = Vec::new();
    let mut i: usize = 0;
    while i < xs.len()
        invariant
            i <= xs@.len(),
            r@ == without_equipment(xs@.take(i as int), equipment_id@),
        decreases xs@.len() - i,
    {
        proof {
            assert(xs@.take(i + 1).drop_last() =~= xs@.take(i as int));
            assert(xs@.take(i + 1).last() == xs@[i as int]);
        }
        if !text_eq(equipment_of(&xs[i]), equipment_id) {
            r.push(copy_assignment(&xs[i]));
        }
        i = i + 1;
    }
    assert(xs@.take(i as int) =~= xs@);
    r
}

/// Decides `Equipment.assign`: on success, the order's new equipment
/// assignment, which drops any entry naming the equipment and then puts
/// the equipment into the slot.
pub fn equipment_assign_effect(
    order_id: &str,
    order: Option<&DispatchOrder>,
    slot_code: &str,
    equipment_id: &str,
    equipment: &Vec<EquipmentState>,
) -> (r: Result<Vec<EquipmentAssignment>, DomainActionError>)
    ensures
        settles(r, assign_fault(order_id@, order, slot_code@, equipment_id@, equipment@)),
        r matches Ok(v) ==> order is Some && v@.len() > 0 && v@.drop_last() == without_equipment(
            order.unwrap().equipment_assignment@,
            equipment_id@,
        ) && is_slot_entry(v@.last(), equipment_id@, slot_code@),
{
    let o = match order {
        Some(o) => o,
        None => {
            let m = join_texts(&["dispatch order ", order_id]);
            assert(concat_views(seq!["dispatch order ", order_id]) =~= "dispatch order "@ + order_id@) by {
                reveal_with_fuel(concat_views, 3);
            }
            return Err(failure(FailureKind::NotFound, m));
        },
    };
    let req = match find_requirement(&o.equipment_requirement_snapshot, slot_code) {
        Some(q) => q,
        None => {
            let m = join_texts(&["slot_code ", slot_code, " is not required by dispatch order ", order_id]);
            assert(concat_views(seq!["slot_code ", slot_code, " is not required by dispatch order ", order_id])
                =~= "slot_code "@ + slot_code@ + " is not required by dispatch order "@ + order_id@) by {
                reveal_with_fuel(concat_views, 5);
            }
            return Err(failure(FailureKind::Validation, m));
        },
    };
    let e = match find_equipment(equipment, equipment_id) {
        Some(e) => e,
        None => {
            let m = join_texts(&["equipment ", equipment_id]);
            assert(concat_views(seq!["equipment ", equipment_id]) =~= "equipment "@ + equipment_id@) by {
                reveal_with_fuel(concat_views, 3);
            }
            return Err(failure(FailureKind::NotFound, m));
        },
    };
    let usable = e.is_active && (e.is_available || opt_text_eq(&e.current_dispatch_id, o.id.as_str()));
    if !usable {
        let m = join_texts(&["设备 ", equipment_id, " 当前不可用"]);
        assert(concat_views(seq!["设备 ", equipment_id, " 当前不可用"]) =~= "设备 "@ + equipment_id@ + " 当前不可用"@) by {
            reveal_with_fuel(concat_views, 4);
        }
        return Err(failure(FailureKind::Validation, m));
    }
    let matches_type = match &req.equipment_type_id {
        Some(t) => opt_text_eq(&e.equipment_type_id, t.as_str()),
        None => match &req.equipment_type_code {
            Some(c) => opt_text_eq(&e.equipment_type_code, c.as_str()),
            None => true,
        },
    };
    if !matches_type {
        let m = join_texts(&["设备 ", equipment_id, " 不符合槽位 ", slot_code, " 的设备类型要求"]);
        assert(concat_views(seq!["设备 ", equipment_id, " 不符合槽位 ", slot_code, " 的设备类型要求"]) =~= "设备 "@
            + equipment_id@ + " 不符合槽位 "@ + slot_code@ + " 的设备类型要求"@) by {
            reveal_with_fuel(concat_views, 6);
        }
        return Err(failure(FailureKind::Validation, m));
    }
    let mut v = release_from_assignment(&o.equipment_assignment, equipment_id);
    let ghost kept = v@;
    v.push(
        EquipmentAssignment {
            text: None,
            has_equipment_id: true,
            equipment_id: Some(equipment_id.to_string()),
            id: None,
            slot_code: Some(slot_code.to_string()),
            driver_user_id: None,
        },
    );
    assert(v@.drop_last() =~= kept);
    Ok(v)
}

/// What stops `Equipment.release`: with no order named, the equipment must
/// be known and held by an order.
pub open spec fn release_fault(equipment_id: Seq<char>, named_order: Option<Seq<char>>, state: Option<EquipmentState>) -> Option<
    (FailureKind, Seq<char>),
> {
    match named_order {
        Some(_) => None,
        None => match state {
            None => Some((FailureKind::NotFound, "equipment "@ + equipment_id)),
            Some(e) => if normalized_opt(opt_chars(e.current_dispatch_id)) is None {
                Some((FailureKind::Validation, "equipment "@ + equipment_id + " is not assigned to a dispatch order"@))
            } else {
                None
            },
        },
    }
}

/// Decides which order `Equipment.release` takes the equipment off: the
/// order named, else the order that holds the equipment.
pub fn equipment_release_target(equipment_id: &str, named_order: Option<&str>, state: Option<&EquipmentState>) -> (r: Result<
    String,
    DomainActionError,
>)
    ensures
        settles(
            r,
            release_fault(
                equipment_id@,
                match named_order {
                    Some(o) => Some(o@),
                    None => None,
                },
                match state {
                    Some(e) => Some(*e),
                    None => None,
                },
            ),
        ),
        r matches Ok(t) ==> match named_order {
            Some(o) => t@ == o@,
            None => normalized_opt(opt_chars(state.unwrap().current_dispatch_id)) == Some(t@),
        },
{
    match named_order {
        Some(o) => Ok(o.to_string()),
        None => match state {
            None => {
                let m = join_texts(&["equipment ", equipment_id]);
                assert(concat_views(seq!["equipment ", equipment_id]) =~= "equipment "@ + equipment_id@) by {
                    reveal_with_fuel(concat_views, 3);
                }
                Err(failure(FailureKind::NotFound, m))
            },
            Some(e) => {
                let held: Option<&str> = match &e.current_dispatch_id {
                    Some(d) => Some(d.as_str()),
                    None => None,
                };
                match crate::rules::DispatchService::normalize_optional_ref(held) {
                    Some(d) => Ok(d.to_string()),
                    None => {
                        let m = join_texts(&["equipment ", equipment_id, " is not assigned to a dispatch order"]);
                        assert(concat_views(seq!["equipment ", equipment_id, " is not assigned to a dispatch order"])
                            =~= "equipment "@ + equipment_id@ + " is not assigned to a dispatch order"@) by {
                            reveal_with_fuel(concat_views, 4);
                        }
                        Err(failure(FailureKind::Validation, m))
                    },
                }
            },
        },
    }
}

proof fn lemma_without_idempotent(xs: Seq<EquipmentAssignment>, id: Seq<char>)
    ensures
        without_equipment(without_equipment(xs, id), id) == without_equipment(xs, id),
    decreases xs.len(),
{
    if xs.len() > 0 {
        lemma_without_idempotent(xs.drop_last(), id);
        let w = without_equipment(xs.drop_last(), id);
        if assignment_equipment(xs.last()) != id {
            assert(w.push(xs.last()).drop_last() =~= w);
            assert(w.push(xs.last()).last() == xs.last());
        }
    }
}

proof fn lemma_without_absent(xs: Seq<EquipmentAssignment>, id: Seq<char>)
    requires
        forall|k: int| 0 <= k < xs.len() ==> assignment_equipment(#[trigger] xs[k]) != id,
    ensures
        without_equipment(xs, id) == xs,
    decreases xs.len(),
{
    if xs.len() > 0 {
        assert(assignment_equipment(xs[xs.len() - 1]) != id);
        assert forall|k: int| 0 <= k < xs.drop_last().len() implies assignment_equipment(
            #[trigger] xs.drop_last()[k],
        ) != id by {
            assert(xs.drop_last()[k] == xs[k]);
        }
        lemma_without_absent(xs.drop_last(), id);
        assert(xs.drop_last().push(xs.last()) =~= xs);
    }
}

/// Releasing a piece of equipment undoes assigning it: the order's
/// assignment comes back to what it was without that piece, and to exactly
/// what it was when no entry named the piece before.
pub proof fn law_release_undoes_assign(xs: Seq<EquipmentAssignment>, id: Seq<char>, slot: Seq<char>, entry: EquipmentAssignment)
    requires
        is_slot_entry(entry, id, slot),
    ensures
        without_equipment(without_equipment(xs, id).push(entry), id) == without_equipment(xs, id),
        (forall|k: int| 0 <= k < xs.len() ==> assignment_equipment(#[trigger] xs[k]) != id) ==> without_equipment(
            without_equipment(xs, id).push(entry),
            id,
        ) == xs,
{
    let w = without_equipment(xs, id);
    assert(w.push(entry).drop_last() =~= w);
    assert(w.push(entry).last() == entry);
    assert(assignment_equipment(entry) == id);
    lemma_without_idempotent(xs, id);
    if forall|k: int| 0 <= k < xs.len() ==> assignment_equipment(#[trigger] xs[k]) != id {
        lemma_without_absent(xs, id);
    }
}

/// The replan an advisory `DispatchOrder.recommend_replan` asks for.
pub struct ReplanRequestPlan {
    pub window_start: i64,
    pub window_end: i64,
    pub strategy: String,
    pub apply_changes: bool,
    pub max_suggestions: i64,
}

/// Decides the replan an advisory recommendation of order `order_id`
/// requests at `now`: the order must exist; the replan then covers the six
/// hours from now with the given strategy, changes nothing, and asks for
/// twenty suggestions.
pub fn recommend_replan_request(order_id: &str, order_found: bool, strategy: &str, now: i64) -> (r: Result<
    ReplanRequestPlan,
    DomainActionError,
>)
    requires
        now + 21600 <= i64::MAX,
    ensures
        !order_found ==> settles(r, Some((FailureKind::NotFound, "DispatchOrder "@ + order_id@ + " not found"@))),
        order_found ==> (r matches Ok(p) && p.window_start == now && p.window_end == now + 21600 && p.strategy@
            == strategy@ && !p.apply_changes && p.max_suggestions == 20),
{
    if !order_found {
        let m = join_texts(&["DispatchOrder ", order_id, " not found"]);
        assert(concat_views(seq!["DispatchOrder ", order_id, " not found"]) =~= "DispatchOrder "@ + order_id@
            + " not found"@) by {
            reveal_with_fuel(concat_views, 4);
        }
        return Err(failure(FailureKind::NotFound, m));
    }
    Ok(
        ReplanRequestPlan {
            window_start: now,
            window_end: now + 21600,
            strategy: strategy.to_string(),
            apply_changes: false,
            max_suggestions: 20,
        },
    )
}

} // verus!
