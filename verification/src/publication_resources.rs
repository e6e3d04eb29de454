//! The resource gate of draft publication: the planned window, the crew's
//! qualifications, crew double bookings and the assigned equipment, checked
//! against what the repositories hold for the order.

use vstd::prelude::*;
use crate::model::{DispatchError, DispatchOrder, EquipmentAssignment, SlotRequirement};
use crate::publication::{opt_chars, DraftMember};
use crate::rules::{normalized_opt, service_order_crew, string_views, DispatchService, LevelCoverage, covered_levels};
use crate::text::{concat_views, is_blank, join_texts, text_eq, trimmed};

verus! {

/// A qualification a person holds in a department.
pub struct QualificationGrant {
    pub user_id: String,
    pub qualification_code: String,
    pub level_code: String,
    /// The last instant the grant is valid, or `None` when it does not lapse.
    pub valid_to: Option<i64>,
    /// The team the grant was given through, where it names one.
    pub source_team_id: Option<String>,
}

/// A piece of equipment as the equipment register holds it.
pub struct EquipmentState {
    pub id: String,
    pub is_active: bool,
    /// Whether the register lists it as free for use.
    pub is_available: bool,
    /// The order that holds it, if any.
    pub current_dispatch_id: Option<String>,
    pub equipment_type_id: Option<String>,
    pub equipment_type_code: Option<String>,
}

/// What the repositories hold that bears on publishing one draft order.
pub struct PublicationResources {
    /// The department's grants for the order's crew, valid at the planned start.
    pub grants: Vec<QualificationGrant>,
    /// The department's qualification levels, each with the levels it covers.
    pub levels: Vec<LevelCoverage>,
    /// The active orders whose windows meet the planned window on the same terminal.
    pub overlapping_orders: Vec<DispatchOrder>,
    /// The register's record of each piece of equipment the order names.
    pub equipment: Vec<EquipmentState>,
    /// How many bookings of the order's equipment meet its planned window.
    pub equipment_conflict_count: usize,
}

/// Whether `r` reports `fault`: nothing, a validation error (`false`) or a
/// rule violation (`true`) with its message.
pub open spec fn reports(r: Result<(), DispatchError>, fault: Option<(bool, Seq<char>)>) -> bool {
    match fault {
        None => r is Ok,
        Some((false, msg)) => r matches Err(DispatchError::ValidationError(m)) && m@ == msg,
        Some((true, msg)) => r matches Err(DispatchError::BusinessRuleViolation(m)) && m@ == msg,
    }
}

/// An optional text, or the empty text.
pub open spec fn text_or_empty(s: Option<String>) -> Seq<char> {
    match s {
        Some(x) => x@,
        None => Seq::empty(),
    }
}

/// The first requirement of `reqs` for the slot `slot`.
pub open spec fn requirement_for(reqs: Seq<SlotRequirement>, slot: Seq<char>) -> Option<SlotRequirement>
    decreases reqs.len(),
{
    if reqs.len() == 0 {
        None
    } else if opt_chars(reqs[0].slot_code) == Some(slot) {
        Some(reqs[0])
    } else {
        requirement_for(reqs.drop_first(), slot)
    }
}

/// Whether a person at `level` meets the minimum level `min`: no minimum
/// (or a blank one), the same level, or a level that covers it.
pub open spec fn level_covers(index: Seq<LevelCoverage>, level: Seq<char>, min: Option<Seq<char>>) -> bool {
    match min {
        None => true,
        Some(m) => is_blank(m) || level == trimmed(m) || match covered_levels(index, level) {
            Some(c) => string_views(c).contains(trimmed(m)),
            None => false,
        },
    }
}

/// Whether grant `g` qualifies `user` for qualification `qual` at level
/// `min` until `end`.
pub open spec fn grant_qualifies(
    g: QualificationGrant,
    user: Seq<char>,
    qual: Seq<char>,
    min: Option<Seq<char>>,
    end: i64,
    levels: Seq<LevelCoverage>,
) -> bool {
    &&& g.user_id@ == user
    &&& g.qualification_code@ == qual
    &&& match g.valid_to {
        Some(t) => t >= end,
        None => true,
    }
    &&& level_covers(levels, g.level_code@, min)
}

/// Whether some grant qualifies `user` for requirement `req` until `end`.
pub open spec fn qualified(
    grants: Seq<QualificationGrant>,
    user: Seq<char>,
    req: SlotRequirement,
    end: i64,
    levels: Seq<LevelCoverage>,
) -> bool {
    exists|k: int|
        0 <= k < grants.len() && grant_qualifies(
            #[trigger] grants[k],
            user,
            text_or_empty(req.qualification_code),
            opt_chars(req.min_level_code),
            end,
            levels,
        )
}

/// The fault of the planned window: a missing start or end, or an end that
/// is not after the start.
pub open spec fn window_fault(o: &DispatchOrder) -> Option<(bool, Seq<char>)> {
    match (o.planned_start_time, o.planned_end_time) {
        (None, _) => Some((false, "派工单 "@ + o.id@ + " 缺少计划开始时间"@)),
        (Some(_), None) => Some((false, "派工单 "@ + o.id@ + " 缺少计划完成时间"@)),
        (Some(s), Some(e)) => if e <= s {
            Some((false, "派工单 "@ + o.id@ + " 的计划完成时间必须晚于计划开始时间"@))
        } else {
            None
        },
    }
}

/// The first member, in order, whose slot is not in the crew requirements
/// or who holds no grant that qualifies them for it until `end`.
pub open spec fn member_fault(
    ms: Seq<DraftMember>,
    reqs: Seq<SlotRequirement>,
    grants: Seq<QualificationGrant>,
    levels: Seq<LevelCoverage>,
    end: i64,
) -> Option<(bool, Seq<char>)>
    decreases ms.len(),
{
    if ms.len() == 0 {
        None
    } else {
        match requirement_for(reqs, ms[0].slot_code@) {
            None => Some((false, "人员槽位 "@ + ms[0].slot_code@ + " 不在规则快照中"@)),
            Some(req) => if qualified(grants, ms[0].user_id@, req, end, levels) {
                member_fault(ms.drop_first(), reqs, grants, levels, end)
            } else {
                Some((true, "人员 "@ + ms[0].user_id@ + " 不满足槽位 "@ + ms[0].slot_code@ + " 的有效资质要求"@))
            },
        }
    }
}

/// The fault of the crew's qualifications: none when the order requires no
/// crew; else a missing department, or the first member fault.
pub open spec fn crew_fault(o: &DispatchOrder, ms: Seq<DraftMember>, res: &PublicationResources, end: i64) -> Option<
    (bool, Seq<char>),
> {
    if o.crew_requirement_snapshot@.len() == 0 {
        None
    } else if normalized_opt(opt_chars(o.department_id)) is None {
        Some((false, "派工单 "@ + o.id@ + " 缺少部门上下文"@))
    } else {
        member_fault(ms, o.crew_requirement_snapshot@, res.grants@, res.levels@, end)
    }
}

/// Whether one of the members is the person `user`.
pub open spec fn has_member(ms: Seq<DraftMember>, user: Seq<char>) -> bool {
    exists|k: int| 0 <= k < ms.len() && (#[trigger] ms[k]).user_id@ == user
}

/// Whether another order `c` books one of the members.
pub open spec fn books_member(o: &DispatchOrder, c: DispatchOrder, ms: Seq<DraftMember>) -> bool {
    c.id@ != o.id@ && exists|j: int|
        0 <= j < service_order_crew(&c).len() && has_member(ms, #[trigger] service_order_crew(&c)[j])
}

/// The first overlapping order, in order, that books one of the members.
pub open spec fn crew_booking_fault(o: &DispatchOrder, cs: Seq<DispatchOrder>, ms: Seq<DraftMember>) -> Option<
    (bool, Seq<char>),
>
    decreases cs.len(),
{
    if cs.len() == 0 {
        None
    } else if books_member(o, cs[0], ms) {
        Some((true, "派工单 "@ + o.id@ + " 的人员与工单 "@ + cs[0].id@ + " 存在时间冲突"@))
    } else {
        crew_booking_fault(o, cs.drop_first(), ms)
    }
}

/// The equipment an assignment names: its `equipment_id`, else the payload
/// itself when it is a plain string, else the empty text.
pub open spec fn assignment_equipment(a: EquipmentAssignment) -> Seq<char> {
    match a.equipment_id {
        Some(e) => e@,
        None => text_or_empty(a.text),
    }
}

/// The register's first record of the equipment `id`.
pub open spec fn equipment_record(states: Seq<EquipmentState>, id: Seq<char>) -> Option<EquipmentState>
    decreases states.len(),
{
    if states.len() == 0 {
        None
    } else if states[0].id@ == id {
        Some(states[0])
    } else {
        equipment_record(states.drop_first(), id)
    }
}

/// Whether equipment `e` may serve order `o`: it is active, and free or
/// already held by `o`.
pub open spec fn equipment_usable(e: EquipmentState, o: &DispatchOrder) -> bool {
    e.is_active && (e.is_available || opt_chars(e.current_dispatch_id) == Some(o.id@))
}

/// Whether equipment `e` has the type requirement `req` asks for: by type
/// id when it names one, else by type code, else any type.
pub open spec fn type_matches(req: SlotRequirement, e: EquipmentState) -> bool {
    match req.equipment_type_id {
        Some(t) => opt_chars(e.equipment_type_id) == Some(t@),
        None => match req.equipment_type_code {
            Some(c) => opt_chars(e.equipment_type_code) == Some(c@),
            None => true,
        },
    }
}

/// The first assignment, in order, whose slot is not required, whose
/// equipment the register does not know, cannot serve the order, or is of
/// the wrong type.
pub open spec fn assignment_fault(o: &DispatchOrder, xs: Seq<EquipmentAssignment>, states: Seq<EquipmentState>) -> Option<
    (bool, Seq<char>),
>
    decreases xs.len(),
{
    if xs.len() == 0 {
        None
    } else {
        let id = assignment_equipment(xs[0]);
        let slot = text_or_empty(xs[0].slot_code);
        match requirement_for(o.equipment_requirement_snapshot@, slot) {
            None => Some((false, "设备槽位 "@ + slot + " 不在规则快照中"@)),
            Some(req) => match equipment_record(states, id) {
                None => Some((false, "设备 "@ + id + " 不存在"@)),
                Some(e) => if !equipment_usable(e, o) {
                    Some((true, "设备 "@ + id + " 当前不可用"@))
                } else if !type_matches(req, e) {
                    Some((true, "设备 "@ + id + " 不符合槽位 "@ + slot + " 的设备类型要求"@))
                } else {
                    assignment_fault(o, xs.drop_first(), states)
                },
            },
        }
    }
}

/// The fault of the equipment: none when the order publishes no equipment;
/// else the first assignment fault, or a booking of the equipment that
/// meets the planned window.
pub open spec fn equipment_fault(o: &DispatchOrder, equipment_ids: Seq<String>, res: &PublicationResources) -> Option<
    (bool, Seq<char>),
> {
    if equipment_ids.len() == 0 {
        None
    } else {
        match assignment_fault(o, o.equipment_assignment@, res.equipment@) {
            Some(f) => Some(f),
            None => if res.equipment_conflict_count > 0 {
                Some((true, "派工单 "@ + o.id@ + " 存在设备时间冲突"@))
            } else {
                None
            },
        }
    }
}

/// The first fault of publishing `o` with members `ms` and equipment
/// `equipment_ids`: the planned window, then the crew's qualifications,
/// then crew double bookings, then the equipment.
pub open spec fn publication_fault(
    o: &DispatchOrder,
    ms: Seq<DraftMember>,
    equipment_ids: Seq<String>,
    res: &PublicationResources,
) -> Option<(bool, Seq<char>)> {
    match window_fault(o) {
        Some(f) => Some(f),
        None => match crew_fault(o, ms, res, o.planned_end_time.unwrap()) {
            Some(f) => Some(f),
            None => match crew_booking_fault(o, res.overlapping_orders@, ms) {
                Some(f) => Some(f),
                None => equipment_fault(o, equipment_ids, res),
            },
        },
    }
}

pub(crate) fn find_requirement<'a>(reqs: &'a Vec<SlotRequirement>, slot: &str) -> (r: Option<&'a SlotRequirement>)
    ensures
        match r {
            Some(q) => requirement_for(reqs@, slot@) == Some(*q),
            None => requirement_for(reqs@, slot@) is None,
        },
{
    let mut i: usize = 0;
    assert(reqs@.skip(0) =~= reqs@);
    while i < reqs.len()
        invariant
            i <= reqs@.len(),
            requirement_for(reqs@, slot@) == requirement_for(reqs@.skip(i as int), slot@),
        decreases reqs@.len() - i,
    {
        proof {
            assert(reqs@.skip(i as int).drop_first() =~= reqs@.skip(i + 1));
            assert(reqs@.skip(i as int)[0] == reqs@[i as int]);
        }
        let hit = match &reqs[i].slot_code {
            Some(c) => text_eq(c.as_str(), slot),
            None => false,
        };
        if hit {
            return Some(&reqs[i]);
        }
        i = i + 1;
    }
    None
}

pub(crate) fn find_equipment<'a>(states: &'a Vec<EquipmentState>, id: &str) -> (r: Option<&'a EquipmentState>)
    ensures
        match r {
            Some(e) => equipment_record(states@, id@) == Some(*e),
            None => equipment_record(states@, id@) is None,
        },
{
    let mut i: usize = 0;
    assert(states@.skip(0) =~= states@);
    while i < states.len()
        invariant
            i <= states@.len(),
            equipment_record(states@, id@) == equipment_record(states@.skip(i as int), id@),
        decreases states@.len() - i,
    {
        proof {
            assert(states@.skip(i as int).drop_first() =~= states@.skip(i + 1));
            assert(states@.skip(i as int)[0] == states@[i as int]);
        }
        if text_eq(states[i].id.as_str(), id) {
            return Some(&states[i]);
        }
        i = i + 1;
    }
    None
}

fn opt_str(s: &Option<String>) -> (r: Option<&str>)
    ensures
        match r {
            Some(x) => opt_chars(*s) == Some(x@),
            None => s is None,
        },
{
    match s {
        Some(x) => Some(x.as_str()),
        None => None,
    }
}

fn str_or_empty(s: &Option<String>) -> (r: &str)
    ensures
        r@ == text_or_empty(*s),
{
    match s {
        Some(x) => x.as_str(),
        None => {
            proof {
                reveal_strlit("");
            }
            ""
        },
    }
}

pub(crate) fn opt_text_eq(a: &Option<String>, b: &str) -> (r: bool)
    ensures
        r == (opt_chars(*a) == Some(b@)),
{
    match a {
        Some(x) => text_eq(x.as_str(), b),
        None => false,
    }
}

fn any_grant_qualifies(
    grants: &Vec<QualificationGrant>,
    user: &str,
    req: &SlotRequirement,
    end: i64,
    levels: &Vec<LevelCoverage>,
) -> (r: bool)
    ensures
        r == qualified(grants@, user@, *req, end, levels@),
{
    let qual = str_or_empty(&req.qualification_code);
    let min = opt_str(&req.min_level_code);
    let mut i: usize = 0;
    while i < grants.len()
        invariant
            i <= grants@.len(),
            qual@ == text_or_empty(req.qualification_code),
            match min {
                Some(x) => opt_chars(req.min_level_code) == Some(x@),
                None => req.min_level_code is None,
            },
            forall|k: int|
                0 <= k < i ==> !grant_qualifies(
                    #[trigger] grants@[k],
                    user@,
                    text_or_empty(req.qualification_code),
                    opt_chars(req.min_level_code),
                    end,
                    levels@,
                ),
        decreases grants@.len() - i,
    {
        let g = &grants[i];
        let in_time = match g.valid_to {
            Some(t) => t >= end,
            None => true,
        };
        if text_eq(g.user_id.as_str(), user) && text_eq(g.qualification_code.as_str(), qual) && in_time
            && DispatchService::level_covers_requirement(levels, g.level_code.as_str(), min) {
            return true;
        }
        i = i + 1;
    }
    false
}

fn has_member_exec(ms: &Vec<DraftMember>, user: &str) -> (r: bool)
    ensures
        r == has_member(ms@, user@),
{
    let mut i: usize = 0;
    while i < ms.len()
        invariant
            i <= ms@.len(),
            forall|k: int| 0 <= k < i ==> (#[trigger] ms@[k]).user_id@ != user@,
        decreases ms@.len() - i,
    {
        if text_eq(ms[i].user_id.as_str(), user) {
            return true;
        }
        i = i + 1;
    }
    false
}

fn books_member_exec(o: &DispatchOrder, c: &DispatchOrder, ms: &Vec<DraftMember>) -> (r: bool)
    ensures
        r == books_member(o, *c, ms@),
{
    if text_eq(c.id.as_str(), o.id.as_str()) {
        return false;
    }
    let crew = DispatchService::order_member_user_ids(c);
    let mut j: usize = 0;
    while j < crew.len()
        invariant
            j <= crew@.len(),
            c.id@ != o.id@,
            string_views(crew@) == service_order_crew(c),
            forall|k: int| 0 <= k < j ==> !has_member(ms@, #[trigger] service_order_crew(c)[k]),
        decreases crew@.len() - j,
    {
        assert(string_views(crew@)[j as int] == crew@[j as int]@);
        if has_member_exec(ms, crew[j].as_str()) {
            assert(has_member(ms@, service_order_crew(c)[j as int]));
            return true;
        }
        j = j + 1;
    }
    assert(string_views(crew@).len() == crew@.len());
    false
}

fn check_members(order: &DispatchOrder, members: &Vec<DraftMember>, res: &PublicationResources, end: i64) -> (r: Result<
    (),
    DispatchError,
>)
    ensures
        reports(r, member_fault(members@, order.crew_requirement_snapshot@, res.grants@, res.levels@, end)),
{
    let ghost reqs = order.crew_requirement_snapshot@;
    let mut i: usize = 0;
    assert(members@.skip(0) =~= members@);
    while i < members.len()
        invariant
            i <= members@.len(),
            reqs == order.crew_requirement_snapshot@,
            member_fault(members@, reqs, res.grants@, res.levels@, end) == member_fault(
                members@.skip(i as int),
                reqs,
                res.grants@,
                res.levels@,
                end,
            ),
        decreases members@.len() - i,
    {
        proof {
            assert(members@.skip(i as int).drop_first() =~= members@.skip(i + 1));
            assert(members@.skip(i as int)[0] == members@[i as int]);
        }
        let m = &members[i];
        let slot = m.slot_code.as_str();
        let user = m.user_id.as_str();
        match find_requirement(&order.crew_requirement_snapshot, slot) {
            None => {
                let msg = join_texts(&["人员槽位 ", slot, " 不在规则快照中"]);
                assert(concat_views(seq!["人员槽位 ", slot, " 不在规则快照中"]) =~= "人员槽位 "@
                    + m.slot_code@ + " 不在规则快照中"@) by {
                    reveal_with_fuel(concat_views, 4);
                }
                return Err(DispatchError::ValidationError(msg));
            },
            Some(req) => {
                if !any_grant_qualifies(&res.grants, user, req, end, &res.levels) {
                    let msg = join_texts(
                        &["人员 ", user, " 不满足槽位 ", slot, " 的有效资质要求"],
                    );
                    assert(concat_views(
                        seq!["人员 ", user, " 不满足槽位 ", slot, " 的有效资质要求"],
                    ) =~= "人员 "@ + m.user_id@ + " 不满足槽位 "@ + m.slot_code@ + " 的有效资质要求"@) by {
                        reveal_with_fuel(concat_views, 6);
                    }
                    return Err(DispatchError::BusinessRuleViolation(msg));
                }
            },
        }
        i = i + 1;
    }
    assert(members@.skip(i as int).len() == 0);
    Ok(())
}

fn check_crew_bookings(order: &DispatchOrder, members: &Vec<DraftMember>, res: &PublicationResources) -> (r: Result<
    (),
    DispatchError,
>)
    ensures
        reports(r, crew_booking_fault(order, res.overlapping_orders@, members@)),
{
    let cs = &res.overlapping_orders;
    let mut i: usize = 0;
    assert(cs@.skip(0) =~= cs@);
    while i < cs.len()
        invariant
            i <= cs@.len(),
            *cs == res.overlapping_orders,
            crew_booking_fault(order, cs@, members@) == crew_booking_fault(order, cs@.skip(i as int), members@),
        decreases cs@.len() - i,
    {
        proof {
            assert(cs@.skip(i as int).drop_first() =~= cs@.skip(i + 1));
            assert(cs@.skip(i as int)[0] == cs@[i as int]);
        }
        if books_member_exec(order, &cs[i], members) {
            let cid = cs[i].id.as_str();
            let oid = order.id.as_str();
            let msg = join_texts(&["派工单 ", oid, " 的人员与工单 ", cid, " 存在时间冲突"]);
            assert(concat_views(seq!["派工单 ", oid, " 的人员与工单 ", cid, " 存在时间冲突"])
                =~= "派工单 "@ + order.id@ + " 的人员与工单 "@ + cs@[i as int].id@ + " 存在时间冲突"@) by {
                reveal_with_fuel(concat_views, 6);
            }
            return Err(DispatchError::BusinessRuleViolation(msg));
        }
        i = i + 1;
    }
    assert(cs@.skip(i as int).len() == 0);
    Ok(())
}

fn check_assignments(order: &DispatchOrder, states: &Vec<EquipmentState>) -> (r: Result<(), DispatchError>)
    ensures
        reports(r, assignment_fault(order, order.equipment_assignment@, states@)),
{
    let xs = &order.equipment_assignment;
    let mut i: usize = 0;
    assert(xs@.skip(0) =~= xs@);
    while i < xs.len()
        invariant
            i <= xs@.len(),
            *xs == order.equipment_assignment,
            assignment_fault(order, xs@, states@) == assignment_fault(order, xs@.skip(i as int), states@),
        decreases xs@.len() - i,
    {
        proof {
            assert(xs@.skip(i as int).drop_first() =~= xs@.skip(i + 1));
            assert(xs@.skip(i as int)[0] == xs@[i as int]);
        }
        let x = &xs[i];
        let id: &str = match &x.equipment_id {
            Some(e) => e.as_str(),
            None => str_or_empty(&x.text),
        };
        let slot = str_or_empty(&x.slot_code);
        match find_requirement(&order.equipment_requirement_snapshot, slot) {
            None => {
                let msg = join_texts(&["设备槽位 ", slot, " 不在规则快照中"]);
                assert(concat_views(seq!["设备槽位 ", slot, " 不在规则快照中"]) =~= "设备槽位 "@ + slot@
                    + " 不在规则快照中"@) by {
                    reveal_with_fuel(concat_views, 4);
                }
                return Err(DispatchError::ValidationError(msg));
            },
            Some(req) => match find_equipment(states, id) {
                None => {
                    let msg = join_texts(&["设备 ", id, " 不存在"]);
                    assert(concat_views(seq!["设备 ", id, " 不存在"]) =~= "设备 "@ + id@ + " 不存在"@) by {
                        reveal_with_fuel(concat_views, 4);
                    }
                    return Err(DispatchError::ValidationError(msg));
                },
                Some(e) => {
                    let usable = e.is_active && (e.is_available || opt_text_eq(&e.current_dispatch_id, order.id.as_str()));
                    if !usable {
                        let msg = join_texts(&["设备 ", id, " 当前不可用"]);
                        assert(concat_views(seq!["设备 ", id, " 当前不可用"]) =~= "设备 "@ + id@ + " 当前不可用"@) by {
                            reveal_with_fuel(concat_views, 4);
                        }
                        return Err(DispatchError::BusinessRuleViolation(msg));
                    }
                    let matches_type = match &req.equipment_type_id {
                        Some(t) => opt_text_eq(&e.equipment_type_id, t.as_str()),
                        None => match &req.equipment_type_code {
                            Some(c) => opt_text_eq(&e.equipment_type_code, c.as_str()),
                            None => true,
                        },
                    };
                    if !matches_type {
                        let msg = join_texts(&["设备 ", id, " 不符合槽位 ", slot, " 的设备类型要求"]);
                        assert(concat_views(seq!["设备 ", id, " 不符合槽位 ", slot, " 的设备类型要求"]) =~= "设备 "@
                            + id@ + " 不符合槽位 "@ + slot@ + " 的设备类型要求"@) by {
                            reveal_with_fuel(concat_views, 6);
                        }
                        return Err(DispatchError::BusinessRuleViolation(msg));
                    }
                },
            },
        }
        i = i + 1;
    }
    assert(xs@.skip(i as int).len() == 0);
    Ok(())
}

impl DispatchService {
    /// Checks the resources of a draft order about to be published, in
    /// order: its planned window; when it requires crew, its department and
    /// each member's qualification for their slot; that no other
    /// overlapping order books one of its members; and, when it publishes
    /// equipment, each assigned piece and the equipment's bookings.
    pub fn validate_draft_publication_resources(
        order: &DispatchOrder,
        members: &Vec<DraftMember>,
        equipment_ids: &Vec<String>,
        resources: &PublicationResources,
    ) -> (r: Result<(), DispatchError>)
        ensures
            reports(r, publication_fault(order, members@, equipment_ids@, resources)),
    {
        let oid = order.id.as_str();
        let start = match order.planned_start_time {
            Some(t) => t,
            None => {
                let msg = join_texts(&["派工单 ", oid, " 缺少计划开始时间"]);
                assert(concat_views(seq!["派工单 ", oid, " 缺少计划开始时间"]) =~= "派工单 "@ + oid@ + " 缺少计划开始时间"@) by {
                    reveal_with_fuel(concat_views, 4);
                }
                return Err(DispatchError::ValidationError(msg));
            },
        };
        let end = match order.planned_end_time {
            Some(t) => t,
            None => {
                let msg = join_texts(&["派工单 ", oid, " 缺少计划完成时间"]);
                assert(concat_views(seq!["派工单 ", oid, " 缺少计划完成时间"]) =~= "派工单 "@ + oid@ + " 缺少计划完成时间"@) by {
                    reveal_with_fuel(concat_views, 4);
                }
                return Err(DispatchError::ValidationError(msg));
            },
        };
        if end <= start {
            let msg = join_texts(&["派工单 ", oid, " 的计划完成时间必须晚于计划开始时间"]);
            assert(concat_views(seq!["派工单 ", oid, " 的计划完成时间必须晚于计划开始时间"]) =~= "派工单 "@ + oid@
                + " 的计划完成时间必须晚于计划开始时间"@) by {
                reveal_with_fuel(concat_views, 4);
            }
            return Err(DispatchError::ValidationError(msg));
        }
        if order.crew_requirement_snapshot.len() > 0 {
            let department = DispatchService::normalize_optional_ref(opt_str(&order.department_id));
            if department.is_none() {
                let msg = join_texts(&["派工单 ", oid, " 缺少部门上下文"]);
                assert(concat_views(seq!["派工单 ", oid, " 缺少部门上下文"]) =~= "派工单 "@ + oid@ + " 缺少部门上下文"@) by {
                    reveal_with_fuel(concat_views, 4);
                }
                return Err(DispatchError::ValidationError(msg));
            }
            match check_members(order, members, resources, end) {
                Err(e) => {
                    return Err(e);
                },
                Ok(()) => {},
            }
        }
        match check_crew_bookings(order, members, resources) {
            Err(e) => {
                return Err(e);
            },
            Ok(()) => {},
        }
        if equipment_ids.len() > 0 {
            match check_assignments(order, &resources.equipment) {
                Err(e) => {
                    return Err(e);
                },
                Ok(()) => {},
            }
            if resources.equipment_conflict_count > 0 {
                let msg = join_texts(&["派工单 ", oid, " 存在设备时间冲突"]);
                assert(concat_views(seq!["派工单 ", oid, " 存在设备时间冲突"]) =~= "派工单 "@ + oid@ + " 存在设备时间冲突"@) by {
                    reveal_with_fuel(concat_views, 4);
                }
                return Err(DispatchError::BusinessRuleViolation(msg));
            }
        }
        Ok(())
    }
}

} // verus!
