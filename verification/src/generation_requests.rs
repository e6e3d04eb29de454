//! Generated orders: the request a generation rule produces for a flight
//! leg, and the department adjustment rules applied to it before it is
//! stored (more people or equipment, higher levels, a longer duration, an
//! earlier or later publication).

use vstd::prelude::*;
use crate::crew::CrewSlot;
use crate::equipment::EquipmentSlot;
use crate::model::{is_instant, leg_scope_text, DispatchError};
use crate::text::{copy_opt, text_eq, trim, trimmed, owned, join_texts, concat_views};
use crate::generation::{
    GenerationRule, LegContext, ContextEntry, ContextValue, RuleCondition, PublishTriggerMode,
    TurnaroundConstraintMode, context_value, conditions_hold, anchor_instant, completion_anchor_of,
    completion_in_range, planned_completion, opt_view, legacy_resolve_generation_anchor_time,
    try_resolve_planned_completion_time, legacy_generation_conditions_match,
};
use crate::model::{leg_scope_value, LegScope};
use crate::publication::opt_chars;

verus! {

/// An order a generation rule produced for a flight leg, before it is stored.
pub struct GeneratedFlightDispatchRequest {
    pub task_type: String,
    pub stand_id: String,
    pub terminal: Option<String>,
    pub planned_start_time: i64,
    pub planned_end_time: i64,
    pub source_type: String,
    pub department_id: String,
    pub leg_scope: String,
    pub generation_rule_id: String,
    pub generation_rule_version: i32,
    pub generation_anchor_type: String,
    pub generation_anchor_time: i64,
    pub completion_time_mode: String,
    pub completion_anchor_type: Option<String>,
    pub completion_anchor_time: Option<i64>,
    pub completion_offset_minutes: Option<i32>,
    pub completion_warning_lead_minutes: Option<i32>,
    pub publish_trigger_mode: String,
    pub publish_at: Option<i64>,
    pub turnaround_pair_key: Option<String>,
    pub turnaround_constraint_mode: Option<String>,
    pub department_rule_version: String,
    pub crew_requirement_snapshot: Vec<CrewSlot>,
    pub equipment_requirement_snapshot: Vec<EquipmentSlot>,
}

/// One action of an adjustment rule; a field that is missing or not of its
/// type is `None`. The two driver fields are `Some` when the action has the
/// key at all, holding `None` for a value that is not text.
pub struct AdjustmentAction {
    pub action_type: Option<String>,
    pub slot_code: Option<String>,
    pub delta: Option<i64>,
    pub delta_minutes: Option<i64>,
    pub min_level_code: Option<String>,
    pub slot: Option<CrewSlot>,
    pub equipment_slot: Option<EquipmentSlot>,
    pub driver_qualification_code: Option<Option<String>>,
    pub driver_min_level_code: Option<Option<String>>,
}

/// The parts of a generated order that adjustments change.
pub struct AdjustedPlan {
    pub crew: Seq<CrewSlot>,
    pub equipment: Seq<EquipmentSlot>,
    pub end: int,
    pub publish_at: Option<int>,
}

/// The adjustable parts of a generated order.
pub open spec fn plan_of(r: GeneratedFlightDispatchRequest) -> AdjustedPlan {
    AdjustedPlan {
        crew: r.crew_requirement_snapshot@,
        equipment: r.equipment_requirement_snapshot@,
        end: r.planned_end_time as int,
        publish_at: match r.publish_at {
            Some(t) => Some(t as int),
            None => None,
        },
    }
}

/// Everything but the adjustable parts is the same in `a` and `b`.
pub open spec fn same_identity(a: GeneratedFlightDispatchRequest, b: GeneratedFlightDispatchRequest) -> bool {
    &&& a.task_type == b.task_type
    &&& a.stand_id == b.stand_id
    &&& a.terminal == b.terminal
    &&& a.planned_start_time == b.planned_start_time
    &&& a.source_type == b.source_type
    &&& a.department_id == b.department_id
    &&& a.leg_scope == b.leg_scope
    &&& a.generation_rule_id == b.generation_rule_id
    &&& a.generation_rule_version == b.generation_rule_version
    &&& a.generation_anchor_type == b.generation_anchor_type
    &&& a.generation_anchor_time == b.generation_anchor_time
    &&& a.completion_time_mode == b.completion_time_mode
    &&& a.completion_anchor_type == b.completion_anchor_type
    &&& a.completion_anchor_time == b.completion_anchor_time
    &&& a.completion_offset_minutes == b.completion_offset_minutes
    &&& a.completion_warning_lead_minutes == b.completion_warning_lead_minutes
    &&& a.publish_trigger_mode == b.publish_trigger_mode
    &&& a.turnaround_pair_key == b.turnaround_pair_key
    &&& a.turnaround_constraint_mode == b.turnaround_constraint_mode
    &&& a.department_rule_version == b.department_rule_version
}

/// The slot code an action names: empty when it names none.
pub open spec fn action_code(a: AdjustmentAction) -> Seq<char> {
    match a.slot_code {
        Some(s) => s@,
        None => Seq::empty(),
    }
}

/// Whether a requirement's slot code is exactly `code`.
pub open spec fn has_slot_code(slot_code: Option<String>, code: Seq<char>) -> bool {
    slot_code matches Some(c) && c@ == code
}

/// A count, one when unset.
pub open spec fn count_or_one(o: Option<i64>) -> int {
    match o {
        Some(n) => n as int,
        None => 1,
    }
}

/// A number of minutes, none when unset.
pub open spec fn minutes_or_zero(o: Option<i64>) -> int {
    match o {
        Some(n) => n as int,
        None => 0,
    }
}

/// Whether an action is of the type `name`.
pub open spec fn is_action(a: AdjustmentAction, name: Seq<char>) -> bool {
    a.action_type matches Some(t) && t@ == name
}

/// A crew requirement asking for `n` people.
pub open spec fn crew_with_count(s: CrewSlot, n: int) -> CrewSlot {
    CrewSlot {
        is_object: s.is_object,
        slot_code: s.slot_code,
        qualification_code: s.qualification_code,
        min_level_code: s.min_level_code,
        required_count: Some(n as i64),
        must_be_distinct: s.must_be_distinct,
        exclusive_group: s.exclusive_group,
        remarks: s.remarks,
    }
}

/// A crew requirement with the minimum level `level`.
pub open spec fn crew_with_level(s: CrewSlot, level: Option<String>) -> CrewSlot {
    CrewSlot {
        is_object: s.is_object,
        slot_code: s.slot_code,
        qualification_code: s.qualification_code,
        min_level_code: level,
        required_count: s.required_count,
        must_be_distinct: s.must_be_distinct,
        exclusive_group: s.exclusive_group,
        remarks: s.remarks,
    }
}

/// An equipment requirement asking for `n` pieces.
pub open spec fn equipment_with_count(s: EquipmentSlot, n: int) -> EquipmentSlot {
    EquipmentSlot {
        is_object: s.is_object,
        slot_code: s.slot_code,
        equipment_type_id: s.equipment_type_id,
        equipment_type_code: s.equipment_type_code,
        required_count: Some(n as i64),
        must_be_distinct: s.must_be_distinct,
        requires_driver: s.requires_driver,
        driver_qualification_code: s.driver_qualification_code,
        driver_min_level_code: s.driver_min_level_code,
        remarks: s.remarks,
    }
}

/// An equipment requirement that needs a driver; a driver field the action
/// carries replaces the requirement's own.
pub open spec fn equipment_with_driver(
    s: EquipmentSlot,
    qualification: Option<Option<String>>,
    min_level: Option<Option<String>>,
) -> EquipmentSlot {
    EquipmentSlot {
        is_object: s.is_object,
        slot_code: s.slot_code,
        equipment_type_id: s.equipment_type_id,
        equipment_type_code: s.equipment_type_code,
        required_count: s.required_count,
        must_be_distinct: s.must_be_distinct,
        requires_driver: Some(true),
        driver_qualification_code: match qualification {
            Some(v) => v,
            None => s.driver_qualification_code,
        },
        driver_min_level_code: match min_level {
            Some(v) => v,
            None => s.driver_min_level_code,
        },
        remarks: s.remarks,
    }
}

/// A crew requirement after an action that raises the count of its slot.
pub open spec fn crew_bumped(s: CrewSlot, code: Seq<char>, delta: int) -> CrewSlot {
    if has_slot_code(s.slot_code, code) {
        crew_with_count(s, count_or_one(s.required_count) + delta)
    } else {
        s
    }
}

/// A crew requirement after an action that sets the level of its slot.
pub open spec fn crew_leveled(s: CrewSlot, code: Seq<char>, level: Option<String>) -> CrewSlot {
    if has_slot_code(s.slot_code, code) {
        crew_with_level(s, level)
    } else {
        s
    }
}

/// An equipment requirement after an action that raises the count of its slot.
pub open spec fn equipment_bumped(s: EquipmentSlot, code: Seq<char>, delta: int) -> EquipmentSlot {
    if has_slot_code(s.slot_code, code) {
        equipment_with_count(s, count_or_one(s.required_count) + delta)
    } else {
        s
    }
}

/// An equipment requirement after an action that asks a driver for its slot.
pub open spec fn equipment_driven(s: EquipmentSlot, a: AdjustmentAction) -> EquipmentSlot {
    if has_slot_code(s.slot_code, action_code(a)) {
        equipment_with_driver(s, a.driver_qualification_code, a.driver_min_level_code)
    } else {
        s
    }
}

/// The crew requirements after one action.
pub open spec fn crew_step(items: Seq<CrewSlot>, a: AdjustmentAction) -> Seq<CrewSlot> {
    if is_action(a, "increase_slot_count"@) {
        Seq::new(items.len(), |i: int| crew_bumped(items[i], action_code(a), count_or_one(a.delta)))
    } else if is_action(a, "add_slot"@) {
        match a.slot {
            Some(s) => items.push(s),
            None => items,
        }
    } else if is_action(a, "upgrade_min_level"@) {
        Seq::new(items.len(), |i: int| crew_leveled(items[i], action_code(a), a.min_level_code))
    } else {
        items
    }
}

/// The equipment requirements after one action.
pub open spec fn equipment_step(items: Seq<EquipmentSlot>, a: AdjustmentAction) -> Seq<EquipmentSlot> {
    if is_action(a, "increase_equipment_count"@) {
        Seq::new(items.len(), |i: int| equipment_bumped(items[i], action_code(a), count_or_one(a.delta)))
    } else if is_action(a, "add_equipment_type_requirement"@) {
        match a.equipment_slot {
            Some(s) => items.push(s),
            None => items,
        }
    } else if is_action(a, "require_driver_for_equipment"@) {
        Seq::new(items.len(), |i: int| equipment_driven(items[i], a))
    } else {
        items
    }
}

/// The planned end after one action: `extend_duration` moves it later.
pub open spec fn end_step(end: int, a: AdjustmentAction) -> int {
    if is_action(a, "extend_duration"@) {
        end + minutes_or_zero(a.delta_minutes) * 60
    } else {
        end
    }
}

/// The publication time after one action: `advance_publish_offset` moves
/// it earlier and `delay_publish_offset` later; an order without one keeps none.
pub open spec fn publish_step(publish_at: Option<int>, a: AdjustmentAction) -> Option<int> {
    match publish_at {
        Some(t) => if is_action(a, "advance_publish_offset"@) {
            Some(t - minutes_or_zero(a.delta_minutes) * 60)
        } else if is_action(a, "delay_publish_offset"@) {
            Some(t + minutes_or_zero(a.delta_minutes) * 60)
        } else {
            Some(t)
        },
        None => None,
    }
}

/// An order's adjustable parts after one action.
pub open spec fn step(p: AdjustedPlan, a: AdjustmentAction) -> AdjustedPlan {
    AdjustedPlan {
        crew: crew_step(p.crew, a),
        equipment: equipment_step(p.equipment, a),
        end: end_step(p.end, a),
        publish_at: publish_step(p.publish_at, a),
    }
}

/// Whether each raised count of a slot named `code` stays a 64-bit integer.
pub open spec fn crew_counts_fit(items: Seq<CrewSlot>, code: Seq<char>, delta: int) -> bool {
    forall|i: int| 0 <= i < items.len() && has_slot_code(#[trigger] items[i].slot_code, code)
        ==> i64::MIN <= count_or_one(items[i].required_count) + delta <= i64::MAX
}

/// Whether each raised count of a slot named `code` stays a 64-bit integer.
pub open spec fn equipment_counts_fit(items: Seq<EquipmentSlot>, code: Seq<char>, delta: int) -> bool {
    forall|i: int| 0 <= i < items.len() && has_slot_code(#[trigger] items[i].slot_code, code)
        ==> i64::MIN <= count_or_one(items[i].required_count) + delta <= i64::MAX
}

/// Whether one action keeps every count it raises a 64-bit integer and
/// every time it moves a representable instant.
pub open spec fn step_fits(p: AdjustedPlan, a: AdjustmentAction) -> bool {
    &&& is_action(a, "increase_slot_count"@) ==> crew_counts_fit(p.crew, action_code(a), count_or_one(a.delta))
    &&& is_action(a, "increase_equipment_count"@) ==> equipment_counts_fit(p.equipment, action_code(a), count_or_one(a.delta))
    &&& is_action(a, "extend_duration"@) ==> is_instant(end_step(p.end, a))
    &&& (is_action(a, "advance_publish_offset"@) || is_action(a, "delay_publish_offset"@)) ==> (
        publish_step(p.publish_at, a) matches Some(t) ==> is_instant(t))
}

/// An order's adjustable parts after the actions, in order.
pub open spec fn adjusted(p: AdjustedPlan, actions: Seq<AdjustmentAction>) -> AdjustedPlan
    decreases actions.len(),
{
    if actions.len() == 0 {
        p
    } else {
        step(adjusted(p, actions.drop_last()), actions.last())
    }
}

/// Whether every action, applied in order, fits.
pub open spec fn adjustments_fit(p: AdjustedPlan, actions: Seq<AdjustmentAction>) -> bool
    decreases actions.len(),
{
    if actions.len() == 0 {
        true
    } else {
        adjustments_fit(p, actions.drop_last()) && step_fits(adjusted(p, actions.drop_last()), actions.last())
    }
}

proof fn lemma_fit_prefix(p: AdjustedPlan, actions: Seq<AdjustmentAction>, k: int)
    requires
        adjustments_fit(p, actions),
        0 <= k <= actions.len(),
    ensures
        adjustments_fit(p, actions.take(k)),
    decreases actions.len(),
{
    if k == actions.len() {
        assert(actions.take(k) =~= actions);
    } else {
        let shorter = actions.drop_last();
        assert(shorter.take(k) =~= actions.take(k));
        lemma_fit_prefix(p, shorter, k);
    }
}

fn copy_crew_slot(s: &CrewSlot) -> (r: CrewSlot)
    ensures
        r == *s,
{
    CrewSlot {
        is_object: s.is_object,
        slot_code: copy_opt(&s.slot_code),
        qualification_code: copy_opt(&s.qualification_code),
        min_level_code: copy_opt(&s.min_level_code),
        required_count: s.required_count,
        must_be_distinct: s.must_be_distinct,
        exclusive_group: copy_opt(&s.exclusive_group),
        remarks: copy_opt(&s.remarks),
    }
}

fn copy_equipment_slot(s: &EquipmentSlot) -> (r: EquipmentSlot)
    ensures
        r == *s,
{
    EquipmentSlot {
        is_object: s.is_object,
        slot_code: copy_opt(&s.slot_code),
        equipment_type_id: copy_opt(&s.equipment_type_id),
        equipment_type_code: copy_opt(&s.equipment_type_code),
        required_count: s.required_count,
        must_be_distinct: s.must_be_distinct,
        requires_driver: s.requires_driver,
        driver_qualification_code: copy_opt(&s.driver_qualification_code),
        driver_min_level_code: copy_opt(&s.driver_min_level_code),
        remarks: copy_opt(&s.remarks),
    }
}

fn slot_code_is(slot_code: &Option<String>, code: &str) -> (r: bool)
    ensures
        r == has_slot_code(*slot_code, code@),
{
    match slot_code {
        Some(c) => text_eq(c.as_str(), code),
        None => false,
    }
}

fn bump_crew_counts(items: &Vec<CrewSlot>, code: &str, delta: i64) -> (r: Vec<CrewSlot>)
    requires
        crew_counts_fit(items@, code@, delta as int),
    ensures
        r@ == Seq::new(items@.len(), |i: int| crew_bumped(items@[i], code@, delta as int)),
{
    let mut r: Vec<CrewSlot> = Vec::new();
    let mut i: usize = 0;
    while i < items.len()
        invariant
            i <= items.len(),
            crew_counts_fit(items@, code@, delta as int),
            r@.len() == i,
            forall|k: int| 0 <= k < i ==> r@[k] == crew_bumped(items@[k], code@, delta as int),
        decreases items.len() - i,
    {
        let mut c = copy_crew_slot(&items[i]);
        if slot_code_is(&items[i].slot_code, code) {
            assert(has_slot_code(items@[i as int].slot_code, code@));
            let current: i64 = match items[i].required_count {
                Some(n) => n,
                None => 1,
            };
            c.required_count = Some(current + delta);
        }
        r.push(c);
        i += 1;
    }
    assert(r@ =~= Seq::new(items@.len(), |i: int| crew_bumped(items@[i], code@, delta as int)));
    r
}

fn level_crew_slots(items: &Vec<CrewSlot>, code: &str, level: &Option<String>) -> (r: Vec<CrewSlot>)
    ensures
        r@ == Seq::new(items@.len(), |i: int| crew_leveled(items@[i], code@, *level)),
{
    let mut r: Vec<CrewSlot> = Vec::new();
    let mut i: usize = 0;
    while i < items.len()
        invariant
            i <= items.len(),
            r@.len() == i,
            forall|k: int| 0 <= k < i ==> r@[k] == crew_leveled(items@[k], code@, *level),
        decreases items.len() - i,
    {
        let mut c = copy_crew_slot(&items[i]);
        if slot_code_is(&items[i].slot_code, code) {
            c.min_level_code = copy_opt(level);
        }
        r.push(c);
        i += 1;
    }
    assert(r@ =~= Seq::new(items@.len(), |i: int| crew_leveled(items@[i], code@, *level)));
    r
}

fn bump_equipment_counts(items: &Vec<EquipmentSlot>, code: &str, delta: i64) -> (r: Vec<EquipmentSlot>)
    requires
        equipment_counts_fit(items@, code@, delta as int),
    ensures
        r@ == Seq::new(items@.len(), |i: int| equipment_bumped(items@[i], code@, delta as int)),
{
    let mut r: Vec<EquipmentSlot> = Vec::new();
    let mut i: usize = 0;
    while i < items.len()
        invariant
            i <= items.len(),
            equipment_counts_fit(items@, code@, delta as int),
            r@.len() == i,
            forall|k: int| 0 <= k < i ==> r@[k] == equipment_bumped(items@[k], code@, delta as int),
        decreases items.len() - i,
    {
        let mut c = copy_equipment_slot(&items[i]);
        if slot_code_is(&items[i].slot_code, code) {
            assert(has_slot_code(items@[i as int].slot_code, code@));
            let current: i64 = match items[i].required_count {
                Some(n) => n,
                None => 1,
            };
            c.required_count = Some(current + delta);
        }
        r.push(c);
        i += 1;
    }
    assert(r@ =~= Seq::new(items@.len(), |i: int| equipment_bumped(items@[i], code@, delta as int)));
    r
}

fn drive_equipment_slots(items: &Vec<EquipmentSlot>, code: &str, a: &AdjustmentAction) -> (r: Vec<EquipmentSlot>)
    requires
        code@ == action_code(*a),
    ensures
        r@ == Seq::new(items@.len(), |i: int| equipment_driven(items@[i], *a)),
{
    let mut r: Vec<EquipmentSlot> = Vec::new();
    let mut i: usize = 0;
    while i < items.len()
        invariant
            i <= items.len(),
            code@ == action_code(*a),
            r@.len() == i,
            forall|k: int| 0 <= k < i ==> r@[k] == equipment_driven(items@[k], *a),
        decreases items.len() - i,
    {
        let mut c = copy_equipment_slot(&items[i]);
        if slot_code_is(&items[i].slot_code, code) {
            c.requires_driver = Some(true);
            match &a.driver_qualification_code {
                Some(v) => {
                    c.driver_qualification_code = copy_opt(v);
                },
                None => {},
            }
            match &a.driver_min_level_code {
                Some(v) => {
                    c.driver_min_level_code = copy_opt(v);
                },
                None => {},
            }
        }
        r.push(c);
        i += 1;
    }
    assert(r@ =~= Seq::new(items@.len(), |i: int| equipment_driven(items@[i], *a)));
    r
}

fn apply_adjustment(request: &mut GeneratedFlightDispatchRequest, a: &AdjustmentAction)
    requires
        step_fits(plan_of(*old(request)), *a),
    ensures
        plan_of(*final(request)) == step(plan_of(*old(request)), *a),
        same_identity(*final(request), *old(request)),
{
    let ghost p = plan_of(*request);
    let t: &str = match &a.action_type {
        Some(t) => t.as_str(),
        None => {
            assert(plan_of(*request).crew =~= step(p, *a).crew);
            assert(plan_of(*request).equipment =~= step(p, *a).equipment);
            return;
        },
    };
    let code: &str = match &a.slot_code {
        Some(c) => c.as_str(),
        None => "",
    };
    proof {
        reveal_strlit("");
        reveal_strlit("increase_slot_count");
        reveal_strlit("add_slot");
        reveal_strlit("upgrade_min_level");
        reveal_strlit("extend_duration");
        reveal_strlit("advance_publish_offset");
        reveal_strlit("delay_publish_offset");
        reveal_strlit("increase_equipment_count");
        reveal_strlit("add_equipment_type_requirement");
        reveal_strlit("require_driver_for_equipment");
        assert("increase_slot_count"@.len() == 19);
        assert("add_slot"@.len() == 8);
        assert("upgrade_min_level"@.len() == 17);
        assert("extend_duration"@.len() == 15);
        assert("advance_publish_offset"@.len() == 22);
        assert("delay_publish_offset"@.len() == 20);
        assert("increase_equipment_count"@.len() == 24);
        assert("add_equipment_type_requirement"@.len() == 30);
        assert("require_driver_for_equipment"@.len() == 28);
    }
    assert(code@ == action_code(*a));
    if text_eq(t, "increase_slot_count") {
        let delta: i64 = match a.delta {
            Some(d) => d,
            None => 1,
        };
        let items = bump_crew_counts(&request.crew_requirement_snapshot, code, delta);
        request.crew_requirement_snapshot = items;
    } else if text_eq(t, "add_slot") {
        match &a.slot {
            Some(s) => {
                let c = copy_crew_slot(s);
                request.crew_requirement_snapshot.push(c);
            },
            None => {},
        }
    } else if text_eq(t, "upgrade_min_level") {
        let items = level_crew_slots(&request.crew_requirement_snapshot, code, &a.min_level_code);
        request.crew_requirement_snapshot = items;
    } else if text_eq(t, "extend_duration") {
        let delta: i64 = match a.delta_minutes {
            Some(d) => d,
            None => 0,
        };
        request.planned_end_time = (request.planned_end_time as i128 + (delta as i128) * 60) as i64;
    } else if text_eq(t, "advance_publish_offset") {
        match request.publish_at {
            Some(at) => {
                let delta: i64 = match a.delta_minutes {
                    Some(d) => d,
                    None => 0,
                };
                request.publish_at = Some((at as i128 - (delta as i128) * 60) as i64);
            },
            None => {},
        }
    } else if text_eq(t, "delay_publish_offset") {
        match request.publish_at {
            Some(at) => {
                let delta: i64 = match a.delta_minutes {
                    Some(d) => d,
                    None => 0,
                };
                request.publish_at = Some((at as i128 + (delta as i128) * 60) as i64);
            },
            None => {},
        }
    } else if text_eq(t, "increase_equipment_count") {
        let delta: i64 = match a.delta {
            Some(d) => d,
            None => 1,
        };
        let items = bump_equipment_counts(&request.equipment_requirement_snapshot, code, delta);
        request.equipment_requirement_snapshot = items;
    } else if text_eq(t, "add_equipment_type_requirement") {
        match &a.equipment_slot {
            Some(s) => {
                let c = copy_equipment_slot(s);
                request.equipment_requirement_snapshot.push(c);
            },
            None => {},
        }
    } else if text_eq(t, "require_driver_for_equipment") {
        let items = drive_equipment_slots(&request.equipment_requirement_snapshot, code, a);
        request.equipment_requirement_snapshot = items;
    }
    assert(plan_of(*request).crew =~= step(p, *a).crew);
    assert(plan_of(*request).equipment =~= step(p, *a).equipment);
}

impl crate::rules::DispatchService {
    /// Applies the actions of the adjustment rules that matched, in order;
    /// an action of an unknown type, or without a type, changes nothing.
    pub fn apply_generation_adjustments(request: &mut GeneratedFlightDispatchRequest, actions: &Vec<AdjustmentAction>)
        requires
            adjustments_fit(plan_of(*old(request)), actions@),
        ensures
            plan_of(*final(request)) == adjusted(plan_of(*old(request)), actions@),
            same_identity(*final(request), *old(request)),
    {
        let ghost start = *request;
        let mut i: usize = 0;
        while i < actions.len()
            invariant
                i <= actions.len(),
                adjustments_fit(plan_of(start), actions@),
                plan_of(*request) == adjusted(plan_of(start), actions@.take(i as int)),
                same_identity(*request, start),
            decreases actions.len() - i,
        {
            proof {
                lemma_fit_prefix(plan_of(start), actions@, i + 1);
                assert(actions@.take(i + 1).drop_last() =~= actions@.take(i as int));
            }
            apply_adjustment(request, &actions[i]);
            i += 1;
        }
        assert(actions@.take(actions.len() as int) =~= actions@);
    }
}


fn crew_counts_fit_exec(items: &Vec<CrewSlot>, code: &str, delta: i64) -> (r: bool)
    ensures
        r == crew_counts_fit(items@, code@, delta as int),
{
    let mut i: usize = 0;
    while i < items.len()
        invariant
            i <= items.len(),
            forall|k: int| 0 <= k < i && has_slot_code(#[trigger] items@[k].slot_code, code@)
                ==> i64::MIN <= count_or_one(items@[k].required_count) + delta <= i64::MAX,
        decreases items.len() - i,
    {
        if slot_code_is(&items[i].slot_code, code) {
            let current: i64 = match items[i].required_count {
                Some(n) => n,
                None => 1,
            };
            let sum: i128 = current as i128 + delta as i128;
            if sum < i64::MIN as i128 || sum > i64::MAX as i128 {
                return false;
            }
        }
        i += 1;
    }
    true
}

fn equipment_counts_fit_exec(items: &Vec<EquipmentSlot>, code: &str, delta: i64) -> (r: bool)
    ensures
        r == equipment_counts_fit(items@, code@, delta as int),
{
    let mut i: usize = 0;
    while i < items.len()
        invariant
            i <= items.len(),
            forall|k: int| 0 <= k < i && has_slot_code(#[trigger] items@[k].slot_code, code@)
                ==> i64::MIN <= count_or_one(items@[k].required_count) + delta <= i64::MAX,
        decreases items.len() - i,
    {
        if slot_code_is(&items[i].slot_code, code) {
            let current: i64 = match items[i].required_count {
                Some(n) => n,
                None => 1,
            };
            let sum: i128 = current as i128 + delta as i128;
            if sum < i64::MIN as i128 || sum > i64::MAX as i128 {
                return false;
            }
        }
        i += 1;
    }
    true
}

fn instant_fits(t: i128) -> (r: bool)
    ensures
        r == is_instant(t as int),
{
    crate::model::MIN_TIMESTAMP as i128 <= t && t <= crate::model::MAX_TIMESTAMP as i128
}

fn step_fits_exec(request: &GeneratedFlightDispatchRequest, a: &AdjustmentAction) -> (r: bool)
    ensures
        r == step_fits(plan_of(*request), *a),
{
    let t: &str = match &a.action_type {
        Some(t) => t.as_str(),
        None => {
            return true;
        },
    };
    let code: &str = match &a.slot_code {
        Some(c) => c.as_str(),
        None => "",
    };
    proof {
        reveal_strlit("");
        reveal_strlit("increase_slot_count");
        reveal_strlit("extend_duration");
        reveal_strlit("advance_publish_offset");
        reveal_strlit("delay_publish_offset");
        reveal_strlit("increase_equipment_count");
        assert("increase_slot_count"@.len() == 19);
        assert("extend_duration"@.len() == 15);
        assert("advance_publish_offset"@.len() == 22);
        assert("delay_publish_offset"@.len() == 20);
        assert("increase_equipment_count"@.len() == 24);
    }
    assert(code@ == action_code(*a));
    let minutes: i64 = match a.delta_minutes {
        Some(d) => d,
        None => 0,
    };
    let delta: i64 = match a.delta {
        Some(d) => d,
        None => 1,
    };
    if text_eq(t, "increase_slot_count") {
        crew_counts_fit_exec(&request.crew_requirement_snapshot, code, delta)
    } else if text_eq(t, "increase_equipment_count") {
        equipment_counts_fit_exec(&request.equipment_requirement_snapshot, code, delta)
    } else if text_eq(t, "extend_duration") {
        instant_fits(request.planned_end_time as i128 + (minutes as i128) * 60)
    } else if text_eq(t, "advance_publish_offset") {
        match request.publish_at {
            Some(at) => instant_fits(at as i128 - (minutes as i128) * 60),
            None => true,
        }
    } else if text_eq(t, "delay_publish_offset") {
        match request.publish_at {
            Some(at) => instant_fits(at as i128 + (minutes as i128) * 60),
            None => true,
        }
    } else {
        true
    }
}

proof fn lemma_adjusted_concat(p: AdjustedPlan, x: Seq<AdjustmentAction>, y: Seq<AdjustmentAction>)
    ensures
        adjusted(p, x + y) == adjusted(adjusted(p, x), y),
        adjustments_fit(p, x + y) == (adjustments_fit(p, x) && adjustments_fit(adjusted(p, x), y)),
    decreases y.len(),
{
    if y.len() == 0 {
        assert(x + y =~= x);
    } else {
        lemma_adjusted_concat(p, x, y.drop_last());
        assert((x + y).drop_last() =~= x + y.drop_last());
        assert((x + y).last() == y.last());
    }
}

/// Applies the actions in order where every one of them fits; where one
/// does not, says so and leaves the order's adjustable parts unspecified.
fn try_apply_generation_adjustments(request: &mut GeneratedFlightDispatchRequest, actions: &Vec<AdjustmentAction>) -> (ok: bool)
    ensures
        ok == adjustments_fit(plan_of(*old(request)), actions@),
        ok ==> plan_of(*final(request)) == adjusted(plan_of(*old(request)), actions@),
        same_identity(*final(request), *old(request)),
{
    let ghost start = *request;
    let mut i: usize = 0;
    while i < actions.len()
        invariant
            i <= actions.len(),
            start == *old(request),
            adjustments_fit(plan_of(start), actions@.take(i as int)),
            plan_of(*request) == adjusted(plan_of(start), actions@.take(i as int)),
            same_identity(*request, start),
        decreases actions.len() - i,
    {
        proof {
            assert(actions@.take(i + 1).drop_last() =~= actions@.take(i as int));
        }
        if !step_fits_exec(request, &actions[i]) {
            proof {
                if adjustments_fit(plan_of(start), actions@) {
                    lemma_fit_prefix(plan_of(start), actions@, i + 1);
                }
            }
            return false;
        }
        apply_adjustment(request, &actions[i]);
        i += 1;
    }
    assert(actions@.take(actions.len() as int) =~= actions@);
    true
}

/// A continuity rule of a requirement version.
pub struct TurnaroundRule {
    pub enabled: bool,
    pub constraint_mode: TurnaroundConstraintMode,
}

/// The published requirement version of a task type, as generation reads it.
pub struct RequirementVersion {
    pub id: String,
    pub requirements: Vec<CrewSlot>,
    pub crew_requirements: Vec<CrewSlot>,
    pub equipment_requirements: Vec<EquipmentSlot>,
    pub turnaround_continuity_rules: Vec<TurnaroundRule>,
}

/// A published adjustment rule of a department.
pub struct AdjustmentRule {
    pub task_type: String,
    pub conditions: Vec<RuleCondition>,
    pub actions: Vec<AdjustmentAction>,
}

/// The text the service stores for a publication trigger mode.
pub open spec fn publish_mode_text(m: PublishTriggerMode) -> Seq<char> {
    match m {
        PublishTriggerMode::Time => "time"@,
        PublishTriggerMode::Event => "event"@,
        PublishTriggerMode::Either => "either"@,
        PublishTriggerMode::BothRequired => "both_required"@,
    }
}

/// The text the service stores for a turnaround continuity mode.
pub open spec fn turnaround_mode_text(m: TurnaroundConstraintMode) -> Seq<char> {
    match m {
        TurnaroundConstraintMode::SamePerson => "same_person"@,
        TurnaroundConstraintMode::SoftPreferSamePerson => "soft_prefer_same_person"@,
        TurnaroundConstraintMode::HandoverRequired => "handover_required"@,
        TurnaroundConstraintMode::Disabled => "disabled"@,
    }
}

impl crate::rules::DispatchService {
    /// The text the service stores for a publication trigger mode.
    pub fn generation_publish_trigger_mode_value(m: PublishTriggerMode) -> (r: &'static str)
        ensures
            r@ == publish_mode_text(m),
    {
        match m {
            PublishTriggerMode::Time => "time",
            PublishTriggerMode::Event => "event",
            PublishTriggerMode::Either => "either",
            PublishTriggerMode::BothRequired => "both_required",
        }
    }

    /// The text the service stores for a turnaround continuity mode.
    pub fn generation_turnaround_constraint_mode_value(m: TurnaroundConstraintMode) -> (r: &'static str)
        ensures
            r@ == turnaround_mode_text(m),
    {
        match m {
            TurnaroundConstraintMode::SamePerson => "same_person",
            TurnaroundConstraintMode::SoftPreferSamePerson => "soft_prefer_same_person",
            TurnaroundConstraintMode::HandoverRequired => "handover_required",
            TurnaroundConstraintMode::Disabled => "disabled",
        }
    }
}

/// The mode of the first enabled continuity rule.
pub open spec fn first_enabled_mode(rules: Seq<TurnaroundRule>) -> Option<TurnaroundConstraintMode>
    decreases rules.len(),
{
    if rules.len() == 0 {
        None
    } else if rules[0].enabled {
        Some(rules[0].constraint_mode)
    } else {
        first_enabled_mode(rules.drop_first())
    }
}

fn first_enabled_mode_of(rules: &Vec<TurnaroundRule>) -> (r: Option<TurnaroundConstraintMode>)
    ensures
        r == first_enabled_mode(rules@),
{
    let mut i: usize = 0;
    assert(rules@.skip(0) =~= rules@);
    while i < rules.len()
        invariant
            i <= rules.len(),
            first_enabled_mode(rules@.skip(i as int)) == first_enabled_mode(rules@),
        decreases rules.len() - i,
    {
        assert(rules@.skip(i as int).drop_first() =~= rules@.skip(i + 1));
        if rules[i].enabled {
            return Some(rules[i].constraint_mode);
        }
        i += 1;
    }
    None
}

/// A text field of the context, trimmed; none when missing, not text or blank.
pub open spec fn context_text(c: Seq<ContextEntry>, key: Seq<char>) -> Option<Seq<char>> {
    match context_value(c, key) {
        Some(ContextValue::Text(s)) => if trimmed(s@).len() == 0 {
            None
        } else {
            Some(trimmed(s@))
        },
        _ => None,
    }
}

fn context_trimmed_text(context: &LegContext, key: &str) -> (r: Option<String>)
    ensures
        opt_chars(r) == context_text(context.entries@, key@),
{
    match context.get(key) {
        Some(ContextValue::Text(s)) => {
            let t = trim(s.as_str());
            if t.unicode_len() == 0 {
                None
            } else {
                Some(owned(t))
            }
        },
        _ => None,
    }
}

/// The crew requirements a version asks for: its crew slots, or its plain
/// requirements where it has no crew slots.
pub open spec fn crew_source(v: RequirementVersion) -> Seq<CrewSlot> {
    if v.crew_requirements@.len() == 0 {
        v.requirements@
    } else {
        v.crew_requirements@
    }
}

/// How long a generated order runs when its end is its start plus a
/// duration: the rule's duration, else the task type's default, else 15
/// minutes; no duration under any other mode.
pub open spec fn generation_duration(rule: GenerationRule, default_duration: Option<i32>) -> int {
    if rule.completion_time_mode@ == "start_plus_duration"@ {
        match rule.duration_minutes {
            Some(d) => d as int,
            None => match default_duration {
                Some(d) => d as int,
                None => 15,
            },
        }
    } else {
        0
    }
}

/// Whether an adjustment rule applies to an order of task type `task` in
/// the context: the same task type, and every condition met.
pub open spec fn adjustment_applies(c: Seq<ContextEntry>, task: Seq<char>, a: AdjustmentRule) -> bool {
    a.task_type@ == task && conditions_hold(c, a.conditions@)
}

/// The actions of the adjustment rules that apply, rule by rule, in order.
pub open spec fn matching_actions(c: Seq<ContextEntry>, task: Seq<char>, rules: Seq<AdjustmentRule>) -> Seq<AdjustmentAction>
    decreases rules.len(),
{
    if rules.len() == 0 {
        Seq::empty()
    } else {
        matching_actions(c, task, rules.drop_last()) + (if adjustment_applies(c, task, rules.last()) {
            rules.last().actions@
        } else {
            Seq::empty()
        })
    }
}

proof fn lemma_matching_prefix(c: Seq<ContextEntry>, task: Seq<char>, rules: Seq<AdjustmentRule>, j: int) -> (w: Seq<AdjustmentAction>)
    requires
        0 <= j <= rules.len(),
    ensures
        matching_actions(c, task, rules) == matching_actions(c, task, rules.take(j)) + w,
    decreases rules.len(),
{
    if j == rules.len() {
        assert(rules.take(j) =~= rules);
        assert(matching_actions(c, task, rules) + Seq::<AdjustmentAction>::empty() =~= matching_actions(c, task, rules));
        Seq::empty()
    } else {
        let w0 = lemma_matching_prefix(c, task, rules.drop_last(), j);
        assert(rules.drop_last().take(j) =~= rules.take(j));
        let tail = if adjustment_applies(c, task, rules.last()) {
            rules.last().actions@
        } else {
            Seq::empty()
        };
        assert((matching_actions(c, task, rules.take(j)) + w0) + tail =~= matching_actions(c, task, rules.take(j)) + (w0 + tail));
        w0 + tail
    }
}

/// What generating an order from a rule comes to.
pub enum GenerationOutcome {
    /// A time leaves the representable range, or a raised count a 64-bit integer.
    OutOfRange,
    /// The rule cannot produce an order, for the reason given.
    Refused(Seq<char>),
    /// The order is produced.
    Built { anchor: int, start: int, completion_anchor: Option<i64>, plan: AdjustedPlan },
}

/// What generating an order from `rule` in the leg context `c` comes to:
/// the task type needs a published requirement version with crew and
/// equipment requirements, and the rule's anchor must resolve; the start
/// is the anchor moved by the start offset, the end follows the rule's
/// completion mode, publication (where the rule has an offset) is the
/// anchor moved by it; then the matching adjustment rules apply, and the
/// adjusted end must still come after the start.
pub open spec fn generation_outcome(
    c: Seq<ContextEntry>,
    rule: GenerationRule,
    requirement: Option<RequirementVersion>,
    default_duration: Option<i32>,
    adjustments: Seq<AdjustmentRule>,
) -> GenerationOutcome {
    let id = rule.id@;
    let task = rule.task_type@;
    match requirement {
        None => GenerationOutcome::Refused("规则 "@ + id + " 命中，但作业类型 "@ + task + " 缺少已发布作业类型规则"@),
        Some(v) => if crew_source(v).len() == 0 {
            GenerationOutcome::Refused("规则 "@ + id + " 命中，但作业类型 "@ + task + " 缺少人员资质要求"@)
        } else if v.equipment_requirements@.len() == 0 {
            GenerationOutcome::Refused("规则 "@ + id + " 命中，但作业类型 "@ + task + " 缺少设备类型要求"@)
        } else {
            match anchor_instant(c, rule.generation_anchor_type@) {
                None => GenerationOutcome::Refused("规则 "@ + id + " 命中，但无法解析生成锚点 "@ + rule.generation_anchor_type@),
                Some(anchor) => {
                    let start = anchor + rule.start_offset_minutes * 60;
                    let duration = generation_duration(rule, default_duration);
                    let mode = rule.completion_time_mode@;
                    let cat = opt_chars(rule.completion_anchor_type);
                    let ca = completion_anchor_of(c, mode, cat);
                    if !is_instant(start) || !completion_in_range(mode, cat, ca, rule.completion_offset_minutes, start, duration) {
                        GenerationOutcome::OutOfRange
                    } else {
                        match planned_completion(mode, cat, ca, rule.completion_offset_minutes, start, duration) {
                            Err(m) => GenerationOutcome::Refused(m),
                            Ok((end, completion_anchor)) => {
                                let publish_at = match rule.publish_offset_minutes {
                                    Some(o) => Some(anchor + o * 60),
                                    None => None,
                                };
                                let p0 = AdjustedPlan {
                                    crew: crew_source(v),
                                    equipment: v.equipment_requirements@,
                                    end: end,
                                    publish_at: publish_at,
                                };
                                let actions = matching_actions(c, task, adjustments);
                                if publish_at matches Some(t) && !is_instant(t) {
                                    GenerationOutcome::OutOfRange
                                } else if !adjustments_fit(p0, actions) {
                                    GenerationOutcome::OutOfRange
                                } else if adjusted(p0, actions).end <= start {
                                    GenerationOutcome::Refused("规则 "@ + id + " 调整后的预计完成时间必须晚于预计开始时间"@)
                                } else {
                                    GenerationOutcome::Built {
                                        anchor: anchor as int,
                                        start: start,
                                        completion_anchor: completion_anchor,
                                        plan: adjusted(p0, actions),
                                    }
                                }
                            },
                        }
                    }
                },
            }
        }
    }
}

/// The generated order carries the rule, the leg and the requirement version
/// it came from, the times and plan of `outcome`, and the terminal and
/// turnaround pair key of the context.
pub open spec fn request_built(
    req: GeneratedFlightDispatchRequest,
    c: Seq<ContextEntry>,
    stand_id: Seq<char>,
    rule: GenerationRule,
    v: RequirementVersion,
    anchor: int,
    start: int,
    completion_anchor: Option<i64>,
    plan: AdjustedPlan,
) -> bool {
    &&& req.task_type@ == rule.task_type@
    &&& req.stand_id@ == stand_id
    &&& opt_chars(req.terminal) == context_text(c, "terminal"@)
    &&& req.planned_start_time == start
    &&& plan_of(req) == plan
    &&& req.source_type@ == "generated"@
    &&& req.department_id@ == rule.department_id@
    &&& req.leg_scope@ == leg_scope_text(rule.leg_scope)
    &&& req.generation_rule_id@ == rule.id@
    &&& req.generation_rule_version == rule.version_no
    &&& req.generation_anchor_type@ == rule.generation_anchor_type@
    &&& req.generation_anchor_time == anchor
    &&& req.completion_time_mode@ == rule.completion_time_mode@
    &&& opt_chars(req.completion_anchor_type) == opt_chars(rule.completion_anchor_type)
    &&& req.completion_anchor_time == completion_anchor
    &&& req.completion_offset_minutes == rule.completion_offset_minutes
    &&& req.completion_warning_lead_minutes == rule.completion_warning_lead_minutes
    &&& req.publish_trigger_mode@ == publish_mode_text(rule.publish_trigger_mode)
    &&& opt_chars(req.turnaround_pair_key) == context_text(c, "turnaround_pair_key"@)
    &&& opt_chars(req.turnaround_constraint_mode) == match first_enabled_mode(v.turnaround_continuity_rules@) {
        Some(m) => Some(turnaround_mode_text(m)),
        None => None,
    }
    &&& req.department_rule_version@ == v.id@
}

/// `r` answers `outcome`: nothing where it is out of range, the refusal as
/// a broken business rule, or the order it describes.
pub open spec fn generation_answer(
    r: Option<Result<GeneratedFlightDispatchRequest, DispatchError>>,
    outcome: GenerationOutcome,
    c: Seq<ContextEntry>,
    stand_id: Seq<char>,
    rule: GenerationRule,
    requirement: Option<RequirementVersion>,
) -> bool {
    match outcome {
        GenerationOutcome::OutOfRange => r is None,
        GenerationOutcome::Refused(m) => r matches Some(Err(DispatchError::BusinessRuleViolation(msg))) && msg@ == m,
        GenerationOutcome::Built { anchor, start, completion_anchor, plan } => r matches Some(Ok(req)) && match requirement {
            Some(v) => request_built(req, c, stand_id, rule, v, anchor, start, completion_anchor, plan),
            None => false,
        },
    }
}

fn refusal(parts: &[&str]) -> (e: DispatchError)
    ensures
        e matches DispatchError::BusinessRuleViolation(m) && m@ == concat_views(parts@),
{
    DispatchError::BusinessRuleViolation(join_texts(parts))
}

fn copy_crew_slots(v: &Vec<CrewSlot>) -> (r: Vec<CrewSlot>)
    ensures
        r@ == v@,
{
    let mut r: Vec<CrewSlot> = Vec::new();
    let mut i: usize = 0;
    while i < v.len()
        invariant
            i <= v.len(),
            r@ == v@.take(i as int),
        decreases v.len() - i,
    {
        r.push(copy_crew_slot(&v[i]));
        assert(v@.take(i + 1) =~= v@.take(i as int).push(v@[i as int]));
        i += 1;
    }
    assert(v@.take(v.len() as int) =~= v@);
    r
}

fn copy_equipment_slots(v: &Vec<EquipmentSlot>) -> (r: Vec<EquipmentSlot>)
    ensures
        r@ == v@,
{
    let mut r: Vec<EquipmentSlot> = Vec::new();
    let mut i: usize = 0;
    while i < v.len()
        invariant
            i <= v.len(),
            r@ == v@.take(i as int),
        decreases v.len() - i,
    {
        r.push(copy_equipment_slot(&v[i]));
        assert(v@.take(i + 1) =~= v@.take(i as int).push(v@[i as int]));
        i += 1;
    }
    assert(v@.take(v.len() as int) =~= v@);
    r
}


/// A borrowed requirement version, by value.
pub open spec fn requirement_of(o: Option<&RequirementVersion>) -> Option<RequirementVersion> {
    match o {
        Some(v) => Some(*v),
        None => None,
    }
}

impl crate::rules::DispatchService {
    /// The order `rule` generates in the leg context `context` for the stand
    /// `stand_id`, given the published requirement version of its task type
    /// (none where there is none), the task type's default duration, and the
    /// department's published adjustment rules. `None` where a time would
    /// leave the representable range or a raised count a 64-bit integer.
    #[verifier::rlimit(40)]
    pub fn build_generation_request(
        context: &LegContext,
        stand_id: &str,
        rule: &GenerationRule,
        requirement: Option<&RequirementVersion>,
        task_default_duration: Option<i32>,
        adjustment_rules: &Vec<AdjustmentRule>,
    ) -> (r: Option<Result<GeneratedFlightDispatchRequest, DispatchError>>)
        ensures
            generation_answer(
                r,
                generation_outcome(
                    context.entries@,
                    *rule,
                    requirement_of(requirement),
                    task_default_duration,
                    adjustment_rules@,
                ),
                context.entries@,
                stand_id@,
                *rule,
                requirement_of(requirement),
            ),
    {
        let ghost c = context.entries@;
        let id = rule.id.as_str();
        let task = rule.task_type.as_str();
        let v = match requirement {
            Some(v) => v,
            None => {
                let e = refusal(&["规则 ", id, " 命中，但作业类型 ", task, " 缺少已发布作业类型规则"]);
                assert(concat_views(seq!["规则 ", id, " 命中，但作业类型 ", task, " 缺少已发布作业类型规则"])
                    =~= "规则 "@ + id@ + " 命中，但作业类型 "@ + task@ + " 缺少已发布作业类型规则"@) by {
                    reveal_with_fuel(concat_views, 6);
                }
                return Some(Err(e));
            },
        };
        let crew_src: &Vec<CrewSlot> = if v.crew_requirements.len() == 0 {
            &v.requirements
        } else {
            &v.crew_requirements
        };
        if crew_src.len() == 0 {
            let e = refusal(&["规则 ", id, " 命中，但作业类型 ", task, " 缺少人员资质要求"]);
            assert(concat_views(seq!["规则 ", id, " 命中，但作业类型 ", task, " 缺少人员资质要求"])
                =~= "规则 "@ + id@ + " 命中，但作业类型 "@ + task@ + " 缺少人员资质要求"@) by {
                reveal_with_fuel(concat_views, 6);
            }
            return Some(Err(e));
        }
        if v.equipment_requirements.len() == 0 {
            let e = refusal(&["规则 ", id, " 命中，但作业类型 ", task, " 缺少设备类型要求"]);
            assert(concat_views(seq!["规则 ", id, " 命中，但作业类型 ", task, " 缺少设备类型要求"])
                =~= "规则 "@ + id@ + " 命中，但作业类型 "@ + task@ + " 缺少设备类型要求"@) by {
                reveal_with_fuel(concat_views, 6);
            }
            return Some(Err(e));
        }
        let anchor_type = rule.generation_anchor_type.as_str();
        let anchor = match legacy_resolve_generation_anchor_time(context, anchor_type) {
            Some(t) => t,
            None => {
                let e = refusal(&["规则 ", id, " 命中，但无法解析生成锚点 ", anchor_type]);
                assert(concat_views(seq!["规则 ", id, " 命中，但无法解析生成锚点 ", anchor_type])
                    =~= "规则 "@ + id@ + " 命中，但无法解析生成锚点 "@ + anchor_type@) by {
                    reveal_with_fuel(concat_views, 5);
                }
                return Some(Err(e));
            },
        };
        let start_wide: i128 = anchor as i128 + (rule.start_offset_minutes as i128) * 60;
        if !instant_fits(start_wide) {
            return None;
        }
        let start = start_wide as i64;
        let mode = rule.completion_time_mode.as_str();
        let duration: i32 = if text_eq(mode, "start_plus_duration") {
            match rule.duration_minutes {
                Some(d) => d,
                None => match task_default_duration {
                    Some(d) => d,
                    None => 15,
                },
            }
        } else {
            0
        };
        let cat: Option<&str> = match &rule.completion_anchor_type {
            Some(s) => Some(s.as_str()),
            None => None,
        };
        assert(opt_view(cat) == opt_chars(rule.completion_anchor_type));
        let (end, completion_anchor) = match try_resolve_planned_completion_time(
            context,
            mode,
            cat,
            rule.completion_offset_minutes,
            start,
            duration,
        ) {
            None => {
                return None;
            },
            Some(Err(e)) => {
                return Some(Err(e));
            },
            Some(Ok(x)) => x,
        };
        let publish_at: Option<i64> = match rule.publish_offset_minutes {
            Some(o) => {
                let w: i128 = anchor as i128 + (o as i128) * 60;
                if !instant_fits(w) {
                    return None;
                }
                Some(w as i64)
            },
            None => None,
        };
        let turnaround: Option<String> = match first_enabled_mode_of(&v.turnaround_continuity_rules) {
            Some(m) => Some(owned(Self::generation_turnaround_constraint_mode_value(m))),
            None => None,
        };
        let mut request = GeneratedFlightDispatchRequest {
            task_type: rule.task_type.clone(),
            stand_id: owned(stand_id),
            terminal: context_trimmed_text(context, "terminal"),
            planned_start_time: start,
            planned_end_time: end,
            source_type: owned("generated"),
            department_id: rule.department_id.clone(),
            leg_scope: owned(leg_scope_value(rule.leg_scope)),
            generation_rule_id: rule.id.clone(),
            generation_rule_version: rule.version_no,
            generation_anchor_type: rule.generation_anchor_type.clone(),
            generation_anchor_time: anchor,
            completion_time_mode: rule.completion_time_mode.clone(),
            completion_anchor_type: copy_opt(&rule.completion_anchor_type),
            completion_anchor_time: completion_anchor,
            completion_offset_minutes: rule.completion_offset_minutes,
            completion_warning_lead_minutes: rule.completion_warning_lead_minutes,
            publish_trigger_mode: owned(Self::generation_publish_trigger_mode_value(rule.publish_trigger_mode)),
            publish_at: publish_at,
            turnaround_pair_key: context_trimmed_text(context, "turnaround_pair_key"),
            turnaround_constraint_mode: turnaround,
            department_rule_version: v.id.clone(),
            crew_requirement_snapshot: copy_crew_slots(crew_src),
            equipment_requirement_snapshot: copy_equipment_slots(&v.equipment_requirements),
        };
        let ghost base = request;
        let ghost p0 = plan_of(request);
        assert(!adjustments_fit(p0, matching_actions(c, rule.task_type@, adjustment_rules@))
            ==> generation_outcome(c, *rule, requirement_of(requirement), task_default_duration, adjustment_rules@)
            is OutOfRange);
        let mut k: usize = 0;
        while k < adjustment_rules.len()
            invariant
                k <= adjustment_rules.len(),
                c == context.entries@,
                p0 == plan_of(base),
                plan_of(request) == adjusted(p0, matching_actions(c, rule.task_type@, adjustment_rules@.take(k as int))),
                adjustments_fit(p0, matching_actions(c, rule.task_type@, adjustment_rules@.take(k as int))),
                same_identity(request, base),
                !adjustments_fit(p0, matching_actions(c, rule.task_type@, adjustment_rules@))
                    ==> generation_outcome(c, *rule, requirement_of(requirement), task_default_duration, adjustment_rules@)
                    is OutOfRange,
            decreases adjustment_rules.len() - k,
        {
            let ar = &adjustment_rules[k];
            let ghost x = matching_actions(c, rule.task_type@, adjustment_rules@.take(k as int));
            proof {
                assert(adjustment_rules@.take(k + 1).drop_last() =~= adjustment_rules@.take(k as int));
                assert(adjustment_rules@.take(k + 1).last() == *ar);
            }
            if text_eq(ar.task_type.as_str(), rule.task_type.as_str())
                && legacy_generation_conditions_match(context, &ar.conditions) {
                let ok = try_apply_generation_adjustments(&mut request, &ar.actions);
                proof {
                    lemma_adjusted_concat(p0, x, ar.actions@);
                }
                if !ok {
                    proof {
                        let w = lemma_matching_prefix(c, rule.task_type@, adjustment_rules@, k + 1);
                        lemma_adjusted_concat(p0, x + ar.actions@, w);
                    }
                    return None;
                }
            } else {
                assert(x + Seq::<AdjustmentAction>::empty() =~= x);
            }
            k += 1;
        }
        assert(adjustment_rules@.take(adjustment_rules.len() as int) =~= adjustment_rules@);
        if request.planned_end_time <= request.planned_start_time {
            let e = refusal(&["规则 ", id, " 调整后的预计完成时间必须晚于预计开始时间"]);
            assert(concat_views(seq!["规则 ", id, " 调整后的预计完成时间必须晚于预计开始时间"])
                =~= "规则 "@ + id@ + " 调整后的预计完成时间必须晚于预计开始时间"@) by {
                reveal_with_fuel(concat_views, 4);
            }
            return Some(Err(e));
        }
        Some(Ok(request))
    }
}


/// The leg context a generation rule applies in: the context of its leg
/// scope, where the flight has that leg and the context meets every
/// condition of the rule.
pub open spec fn rule_context<'a>(
    inbound: &'a Option<LegContext>,
    outbound: &'a Option<LegContext>,
    rule: GenerationRule,
) -> Option<&'a LegContext> {
    let leg = match rule.leg_scope {
        LegScope::Inbound => inbound,
        LegScope::Outbound => outbound,
        LegScope::Neither => &None,
    };
    match leg {
        Some(c) => if conditions_hold(c.entries@, rule.conditions@) {
            Some(c)
        } else {
            None
        },
        None => None,
    }
}

impl crate::rules::DispatchService {
    /// The leg context `rule` generates an order in: that of its leg scope
    /// (a rule for neither leg has none), where the flight has the leg and
    /// the context meets every condition of the rule.
    pub fn generation_rule_context<'a>(
        inbound: &'a Option<LegContext>,
        outbound: &'a Option<LegContext>,
        rule: &GenerationRule,
    ) -> (r: Option<&'a LegContext>)
        ensures
            r == rule_context(inbound, outbound, *rule),
    {
        let leg: &Option<LegContext> = match rule.leg_scope {
            LegScope::Inbound => inbound,
            LegScope::Outbound => outbound,
            LegScope::Neither => {
                return None;
            },
        };
        match leg {
            Some(c) => if legacy_generation_conditions_match(c, &rule.conditions) {
                Some(c)
            } else {
                None
            },
            None => None,
        }
    }
}


/// An order already generated for the flight, by what identifies its draft.
pub struct ExistingDraft {
    pub generation_rule_id: Option<String>,
    pub generation_rule_version: Option<i32>,
    pub leg_scope: String,
    pub status: crate::model::OrderStatus,
    pub publication_state: String,
}

/// What generation does with a request.
#[derive(Clone, Copy, Debug, PartialEq, Eq, Structural)]
pub enum DraftAction {
    /// No order stands for the request yet: a new draft is created.
    Create,
    /// The order at this position is a pending, prepublished draft of the
    /// same rule, version and leg: it is moved to the request's times and
    /// requirements.
    Rebase(usize),
    /// The order at this position stands for the request but is no longer
    /// a draft: it is left as it is.
    Keep(usize),
}

/// Whether an existing order stands for a request: the same rule, rule
/// version and leg, and not cancelled.
pub open spec fn stands_for(d: ExistingDraft, rule_id: Seq<char>, version: i32, leg_scope: Seq<char>) -> bool {
    &&& opt_chars(d.generation_rule_id) == Some(rule_id)
    &&& d.generation_rule_version == Some(version)
    &&& d.leg_scope@ == leg_scope
    &&& d.status != crate::model::OrderStatus::Cancelled
}

/// The first existing order that stands for a request.
pub open spec fn first_standing(existing: Seq<ExistingDraft>, rule_id: Seq<char>, version: i32, leg_scope: Seq<char>) -> Option<int>
    decreases existing.len(),
{
    if existing.len() == 0 {
        None
    } else {
        match first_standing(existing.drop_last(), rule_id, version, leg_scope) {
            Some(i) => Some(i),
            None => if stands_for(existing.last(), rule_id, version, leg_scope) {
                Some(existing.len() - 1)
            } else {
                None
            },
        }
    }
}

/// What generation does with a request, given the orders the flight has.
pub open spec fn draft_action_for(existing: Seq<ExistingDraft>, rule_id: Seq<char>, version: i32, leg_scope: Seq<char>) -> DraftAction {
    match first_standing(existing, rule_id, version, leg_scope) {
        None => DraftAction::Create,
        Some(i) => if existing[i].status == crate::model::OrderStatus::Pending && existing[i].publication_state@ == "prepublished"@ {
            DraftAction::Rebase(i as usize)
        } else {
            DraftAction::Keep(i as usize)
        },
    }
}

/// The draft created for a request: pending and prepublished.
pub open spec fn created_draft(
    d: ExistingDraft,
    rule_id: Seq<char>,
    version: i32,
    leg_scope: Seq<char>,
) -> bool {
    &&& opt_chars(d.generation_rule_id) == Some(rule_id)
    &&& d.generation_rule_version == Some(version)
    &&& d.leg_scope@ == leg_scope
    &&& d.status == crate::model::OrderStatus::Pending
    &&& d.publication_state@ == "prepublished"@
}

proof fn lemma_first_standing(existing: Seq<ExistingDraft>, rule_id: Seq<char>, version: i32, leg_scope: Seq<char>)
    ensures
        match first_standing(existing, rule_id, version, leg_scope) {
            Some(i) => 0 <= i < existing.len() && stands_for(existing[i], rule_id, version, leg_scope) && forall|k: int|
                0 <= k < i ==> !stands_for(#[trigger] existing[k], rule_id, version, leg_scope),
            None => forall|k: int| 0 <= k < existing.len() ==> !stands_for(#[trigger] existing[k], rule_id, version, leg_scope),
        },
    decreases existing.len(),
{
    if existing.len() > 0 {
        lemma_first_standing(existing.drop_last(), rule_id, version, leg_scope);
        assert forall|k: int| 0 <= k < existing.len() - 1 implies existing.drop_last()[k] == existing[k] by {}
    }
}

/// Generating again for the same rule, version and leg reuses the draft
/// generated before instead of creating another order.
pub proof fn law_regeneration_reuses_the_draft(
    existing: Seq<ExistingDraft>,
    created: ExistingDraft,
    rule_id: Seq<char>,
    version: i32,
    leg_scope: Seq<char>,
)
    requires
        draft_action_for(existing, rule_id, version, leg_scope) == DraftAction::Create,
        created_draft(created, rule_id, version, leg_scope),
        existing.len() < usize::MAX,
    ensures
        draft_action_for(existing.push(created), rule_id, version, leg_scope) == DraftAction::Rebase(existing.len() as usize),
{
    lemma_first_standing(existing, rule_id, version, leg_scope);
    reveal_strlit("prepublished");
    assert(existing.push(created).drop_last() =~= existing);
}

impl crate::rules::DispatchService {
    /// What generation does with a request of rule `rule_id`, version
    /// `version`, for the leg `leg_scope`, given the orders the flight has.
    pub fn draft_action(existing: &Vec<ExistingDraft>, rule_id: &str, version: i32, leg_scope: &str) -> (r: DraftAction)
        ensures
            r == draft_action_for(existing@, rule_id@, version, leg_scope@),
    {
        proof {
            lemma_first_standing(existing@, rule_id@, version, leg_scope@);
        }
        let mut i: usize = 0;
        while i < existing.len()
            invariant
                i <= existing.len(),
                forall|k: int| 0 <= k < i ==> !stands_for(#[trigger] existing@[k], rule_id@, version, leg_scope@),
            decreases existing.len() - i,
        {
            let d = &existing[i];
            let same_rule = match &d.generation_rule_id {
                Some(id) => text_eq(id.as_str(), rule_id),
                None => false,
            };
            let same_version = match d.generation_rule_version {
                Some(v) => v == version,
                None => false,
            };
            let cancelled = match d.status {
                crate::model::OrderStatus::Cancelled => true,
                _ => false,
            };
            if same_rule && same_version && text_eq(d.leg_scope.as_str(), leg_scope) && !cancelled {
                proof {
                    lemma_first_standing(existing@, rule_id@, version, leg_scope@);
                    reveal_strlit("prepublished");
                }
                let pending = match d.status {
                    crate::model::OrderStatus::Pending => true,
                    _ => false,
                };
                if pending && text_eq(d.publication_state.as_str(), "prepublished") {
                    return DraftAction::Rebase(i);
                }
                return DraftAction::Keep(i);
            }
            i += 1;
        }
        DraftAction::Create
    }
}

/// The fields a newly generated draft order starts with, as stored.
pub struct GeneratedDraftState {
    pub status: &'static str,
    pub publication_state: &'static str,
    pub dispatch_type: &'static str,
    pub source: &'static str,
    pub workflow_status: &'static str,
    pub lock_level: &'static str,
}

impl crate::rules::DispatchService {
    /// A generated draft starts pending and prepublished, dispatched
    /// automatically by the system, awaiting assignment and open to
    /// optimisation.
    pub fn generated_draft_state() -> (r: GeneratedDraftState)
        ensures
            r.status@ == "pending"@,
            r.publication_state@ == "prepublished"@,
            r.dispatch_type@ == "auto"@,
            r.source@ == "system"@,
            r.workflow_status@ == "pending_assignment"@,
            r.lock_level@ == "optimizable"@,
    {
        proof {
            reveal_strlit("pending");
            reveal_strlit("prepublished");
            reveal_strlit("auto");
            reveal_strlit("system");
            reveal_strlit("pending_assignment");
            reveal_strlit("optimizable");
        }
        GeneratedDraftState {
            status: "pending",
            publication_state: "prepublished",
            dispatch_type: "auto",
            source: "system",
            workflow_status: "pending_assignment",
            lock_level: "optimizable",
        }
    }
}

} // verus!
