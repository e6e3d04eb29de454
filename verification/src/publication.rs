//! Publication gates of draft orders: draft state, crew and equipment
//! coverage of the requirement snapshots.

use vstd::prelude::*;
use crate::ids::{new_dispatch_id, wall_clock_now};
use crate::model::{
    is_instant, status_debug, status_debug_text, CrewMemberPayload, DispatchError, DispatchOrder, EquipmentAssignment,
    OrderStatus, SlotRequirement,
};
use crate::rules::{normalized_opt, DispatchService};
use crate::text::{append_decimal, append_decimal_nat, blank, concat_views, decimal, is_blank, join_texts, text_eq, trim, trimmed};

verus! {

/// An optional text by its characters.
pub open spec fn opt_chars(s: Option<String>) -> Option<Seq<char>> {
    match s {
        Some(x) => Some(x@),
        None => None,
    }
}

/// Only a pending, prepublished order is a draft that can be published.
pub fn ensure_publishable_draft_state(order_id: &str, status: OrderStatus, publication_state: &str) -> (r: Result<
    (),
    DispatchError,
>)
    ensures
        r is Ok <==> (status == OrderStatus::Pending && publication_state@ == "prepublished"@),
        r matches Err(e) ==> e matches DispatchError::BusinessRuleViolation(m) && m@ == "派工单 "@ + order_id@
            + " 不是待发布草稿，当前状态为 "@ + status_debug_text(status) + "/"@ + publication_state@,
{
    if status == OrderStatus::Pending && text_eq(publication_state, "prepublished") {
        return Ok(());
    }
    let st = status_debug(status);
    let m = join_texts(&["派工单 ", order_id, " 不是待发布草稿，当前状态为 ", st, "/", publication_state]);
    assert(concat_views(seq!["派工单 ", order_id, " 不是待发布草稿，当前状态为 ", st, "/", publication_state])
        =~= "派工单 "@ + order_id@ + " 不是待发布草稿，当前状态为 "@ + status_debug_text(status) + "/"@ + publication_state@) by {
        reveal_with_fuel(concat_views, 7);
    }
    Err(DispatchError::BusinessRuleViolation(m))
}

/// A payload's user, trimmed and not blank.
pub open spec fn payload_user(p: CrewMemberPayload) -> Option<Seq<char>> {
    normalized_opt(opt_chars(p.user_id))
}

/// A payload's slot, trimmed and not blank.
pub open spec fn payload_slot(p: CrewMemberPayload) -> Option<Seq<char>> {
    normalized_opt(opt_chars(p.slot_code))
}

/// The first fault of the crew payloads `ps`, taken in order: a member
/// without a user, a user listed twice, a member without a slot.
pub open spec fn crew_payload_error(ps: Seq<CrewMemberPayload>) -> Option<Seq<char>>
    decreases ps.len(),
{
    if ps.len() == 0 {
        None
    } else {
        match crew_payload_error(ps.drop_last()) {
            Some(m) => Some(m),
            None => match payload_user(ps.last()) {
                None => Some("task_crew.members.user_id 不能为空"@),
                Some(u) => if exists|k: int| 0 <= k < ps.len() - 1 && #[trigger] payload_user(ps[k]) == Some(u) {
                    Some("人员 "@ + u + " 被重复分配"@)
                } else {
                    match payload_slot(ps.last()) {
                        None => Some("人员 "@ + u + " 缺少 slot_code"@),
                        Some(_) => None,
                    }
                },
            },
        }
    }
}

/// How many payloads fill slot `s`.
pub open spec fn slot_count(ps: Seq<CrewMemberPayload>, s: Seq<char>) -> nat
    decreases ps.len(),
{
    if ps.len() == 0 {
        0
    } else {
        slot_count(ps.drop_last(), s) + if payload_slot(ps.last()) == Some(s) {
            1nat
        } else {
            0nat
        }
    }
}

/// The count a requirement asks for as a non-negative integer (one when it
/// gives none).
pub open spec fn required_of(r: SlotRequirement) -> int {
    match r.required_count {
        Some(v) => if v >= 0 {
            v as int
        } else {
            1
        },
        None => 1,
    }
}

/// The first crew requirement that the payloads do not fill exactly.
pub open spec fn crew_requirement_error(reqs: Seq<SlotRequirement>, ps: Seq<CrewMemberPayload>) -> Option<Seq<char>>
    decreases reqs.len(),
{
    if reqs.len() == 0 {
        None
    } else {
        match reqs[0].slot_code {
            Some(s) => if slot_count(ps, s@) != required_of(reqs[0]) {
                Some(
                    "人员槽位 "@ + s@ + " 需要 "@ + decimal(required_of(reqs[0])) + " 人"@ + "，实际 "@ + decimal(
                        slot_count(ps, s@) as int,
                    ) + " 人"@,
                )
            } else {
                crew_requirement_error(reqs.drop_first(), ps)
            },
            None => crew_requirement_error(reqs.drop_first(), ps),
        }
    }
}

proof fn lemma_crew_error_prefix(ps: Seq<CrewMemberPayload>, n: int)
    requires
        0 <= n <= ps.len(),
        crew_payload_error(ps.take(n)) is Some,
    ensures
        crew_payload_error(ps) == crew_payload_error(ps.take(n)),
    decreases ps.len() - n,
{
    if n < ps.len() {
        assert(ps.take(n + 1).drop_last() =~= ps.take(n));
        lemma_crew_error_prefix(ps, n + 1);
    } else {
        assert(ps.take(n) =~= ps);
    }
}

/// A crew member of a draft order about to be published.
pub struct DraftMember {
    /// A fresh identifier.
    pub id: String,
    pub order_id: String,
    pub user_id: String,
    pub slot_code: String,
    pub source_team_id: Option<String>,
    pub qualification_code: Option<String>,
    pub qualification_level_code: Option<String>,
    pub username: Option<String>,
    /// When the member was assigned.
    pub assigned_at: i64,
}

/// The team a draft's members come from when their payload names none:
/// the crew payload's first source team, else the order's team.
pub open spec fn team_reference(o: &DispatchOrder) -> Option<Seq<char>> {
    match normalized_opt(opt_chars(o.task_crew.first_source_team_id)) {
        Some(t) => Some(t),
        None => opt_chars(o.team_id),
    }
}

/// `m` is the member the payload `p` makes for order `o`.
pub open spec fn draft_member_of(m: DraftMember, p: CrewMemberPayload, o: &DispatchOrder) -> bool {
    &&& m.order_id@ == o.id@
    &&& Some(m.user_id@) == payload_user(p)
    &&& Some(m.slot_code@) == payload_slot(p)
    &&& opt_chars(m.source_team_id) == match normalized_opt(opt_chars(p.source_team_id)) {
        Some(t) => Some(t),
        None => team_reference(o),
    }
    &&& opt_chars(m.qualification_code) == opt_chars(p.qualification_code)
    &&& opt_chars(m.qualification_level_code) == opt_chars(p.qualification_level_code)
    &&& opt_chars(m.username) == opt_chars(p.username)
    &&& is_instant(m.assigned_at as int)
}

fn copy_opt_text(o: &Option<String>) -> (r: Option<String>)
    ensures
        opt_chars(r) == opt_chars(*o),
{
    match o {
        Some(s) => Some(s.clone()),
        None => None,
    }
}

fn normalized_text(o: &Option<String>) -> (r: Option<String>)
    ensures
        opt_chars(r) == normalized_opt(opt_chars(*o)),
{
    match o {
        Some(s) => {
            let t = trim(s.as_str());
            if t.unicode_len() == 0 {
                None
            } else {
                Some(String::from_str(t))
            }
        },
        None => None,
    }
}

proof fn lemma_slot_count_step(ps: Seq<CrewMemberPayload>, i: int, s: Seq<char>)
    requires
        0 <= i < ps.len(),
    ensures
        slot_count(ps.take(i + 1), s) == slot_count(ps.take(i), s) + if payload_slot(ps[i]) == Some(s) {
            1nat
        } else {
            0nat
        },
{
    assert(ps.take(i + 1).drop_last() =~= ps.take(i));
}

proof fn lemma_slot_count_bound(ps: Seq<CrewMemberPayload>, s: Seq<char>)
    ensures
        slot_count(ps, s) <= ps.len(),
    decreases ps.len(),
{
    if ps.len() > 0 {
        lemma_slot_count_bound(ps.drop_last(), s);
    }
}

fn count_slot(ps: &Vec<CrewMemberPayload>, s: &str) -> (r: usize)
    ensures
        r == slot_count(ps@, s@),
{
    let mut n: usize = 0;
    let mut i: usize = 0;
    while i < ps.len()
        invariant
            i <= ps@.len(),
            n == slot_count(ps@.take(i as int), s@),
            n <= i,
        decreases ps@.len() - i,
    {
        proof {
            lemma_slot_count_step(ps@, i as int, s@);
        }
        let matches = match &ps[i].slot_code {
            Some(x) => {
                let t = trim(x.as_str());
                t.unicode_len() > 0 && text_eq(t, s)
            },
            None => false,
        };
        if matches {
            n = n + 1;
        }
        i = i + 1;
    }
    assert(ps@.take(ps@.len() as int) =~= ps@);
    n
}

fn count_message(prefix: &str, slot: &str, required: i64, unit: &str, actual: usize) -> (r: String)
    ensures
        r@ == prefix@ + slot@ + " 需要 "@ + decimal(required as int) + unit@ + "，实际 "@ + decimal(actual as int)
            + unit@,
{
    let mut m = join_texts(&[prefix, slot, " 需要 "]);
    assert(concat_views(seq![prefix, slot, " 需要 "]) =~= prefix@ + slot@ + " 需要 "@) by {
        reveal_with_fuel(concat_views, 4);
    }
    append_decimal(&mut m, required);
    m.append(unit);
    m.append("，实际 ");
    append_decimal_nat(&mut m, actual as u64);
    m.append(unit);
    m
}

impl DispatchService {
    /// The crew of a draft about to be published, built from its crew
    /// payload: every member needs a user (listed once) and a slot, and
    /// each crew requirement with a slot must be filled by exactly the
    /// required number of members.
    pub fn validate_draft_publication_assignment(order: &DispatchOrder) -> (r: Result<Vec<DraftMember>, DispatchError>)
        ensures
            match order.task_crew.members {
                None => r matches Err(DispatchError::ValidationError(m)) && m@ == "发布草稿必须提供 task_crew.members"@,
                Some(ps) => match crew_payload_error(ps@) {
                    Some(msg) => r matches Err(DispatchError::ValidationError(m)) && m@ == msg,
                    None => match crew_requirement_error(order.crew_requirement_snapshot@, ps@) {
                        Some(msg) => r matches Err(DispatchError::ValidationError(m)) && m@ == msg,
                        None => r matches Ok(v) && v@.len() == ps@.len() && forall|k: int|
                            0 <= k < ps@.len() ==> draft_member_of(#[trigger] v@[k], ps@[k], order),
                    },
                },
            },
    {
        let ps = match &order.task_crew.members {
            Some(ps) => ps,
            None => {
                return Err(DispatchError::ValidationError(String::from_str("发布草稿必须提供 task_crew.members")));
            },
        };
        let team_ref: Option<String> = match normalized_text(&order.task_crew.first_source_team_id) {
            Some(t) => Some(t),
            None => copy_opt_text(&order.team_id),
        };
        let mut members: Vec<DraftMember> = Vec::new();
        let mut i: usize = 0;
        while i < ps.len()
            invariant
                i <= ps@.len(),
                order.task_crew.members == Some(*ps),
                opt_chars(team_ref) == team_reference(order),
                crew_payload_error(ps@.take(i as int)) is None,
                members@.len() == i,
                forall|k: int| 0 <= k < i ==> draft_member_of(#[trigger] members@[k], ps@[k], order),
            decreases ps@.len() - i,
        {
            let ghost pre = ps@.take(i as int);
            let ghost post = ps@.take(i + 1);
            proof {
                assert(post.drop_last() =~= pre);
                assert(post.last() == ps@[i as int]);
            }
            let p = &ps[i];
            proof {
                if crew_payload_error(post) is Some {
                    lemma_crew_error_prefix(ps@, i + 1);
                }
            }
            let user = match &p.user_id {
                Some(u) => {
                    let t = trim(u.as_str());
                    if t.unicode_len() == 0 {
                        return Err(DispatchError::ValidationError(String::from_str("task_crew.members.user_id 不能为空")));
                    }
                    t
                },
                None => {
                    return Err(DispatchError::ValidationError(String::from_str("task_crew.members.user_id 不能为空")));
                },
            };
            let mut j: usize = 0;
            while j < i
                invariant
                    j <= i,
                    order.task_crew.members == Some(*ps),
                    i < ps@.len(),
                    post == ps@.take(i + 1),
                    pre == ps@.take(i as int),
                    post.drop_last() == pre,
                    post.last() == ps@[i as int],
                    crew_payload_error(pre) is None,
                    payload_user(ps@[i as int]) == Some(user@),
                    crew_payload_error(post) is Some ==> crew_payload_error(ps@) == crew_payload_error(post),
                    forall|k: int| 0 <= k < j ==> #[trigger] payload_user(ps@[k]) != Some(user@),
                decreases i - j,
            {
                let same = match &ps[j].user_id {
                    Some(u) => {
                        let t = trim(u.as_str());
                        t.unicode_len() > 0 && text_eq(t, user)
                    },
                    None => false,
                };
                if same {
                    proof {
                        assert(post[j as int] == ps@[j as int]);
                        assert(payload_user(post[j as int]) == Some(user@));
                        assert(crew_payload_error(post) == Some("人员 "@ + user@ + " 被重复分配"@));
                    }
                    let m = join_texts(&["人员 ", user, " 被重复分配"]);
                    assert(concat_views(seq!["人员 ", user, " 被重复分配"]) =~= "人员 "@ + user@ + " 被重复分配"@) by {
                        reveal_with_fuel(concat_views, 4);
                    }
                    return Err(DispatchError::ValidationError(m));
                }
                j = j + 1;
            }
            proof {
                assert forall|k: int| 0 <= k < post.len() - 1 implies #[trigger] payload_user(post[k]) != Some(user@) by {
                    assert(post[k] == ps@[k]);
                }
            }
            let slot = match &p.slot_code {
                Some(s) => {
                    let t = trim(s.as_str());
                    if t.unicode_len() == 0 {
                        let m = join_texts(&["人员 ", user, " 缺少 slot_code"]);
                        assert(concat_views(seq!["人员 ", user, " 缺少 slot_code"]) =~= "人员 "@ + user@ + " 缺少 slot_code"@) by {
                            reveal_with_fuel(concat_views, 4);
                        }
                        return Err(DispatchError::ValidationError(m));
                    }
                    t
                },
                None => {
                    let m = join_texts(&["人员 ", user, " 缺少 slot_code"]);
                    assert(concat_views(seq!["人员 ", user, " 缺少 slot_code"]) =~= "人员 "@ + user@ + " 缺少 slot_code"@) by {
                        reveal_with_fuel(concat_views, 4);
                    }
                    return Err(DispatchError::ValidationError(m));
                },
            };
            let source_team_id = match normalized_text(&p.source_team_id) {
                Some(t) => Some(t),
                None => copy_opt_text(&team_ref),
            };
            let member = DraftMember {
                id: new_dispatch_id(),
                order_id: order.id.clone(),
                user_id: String::from_str(user),
                slot_code: String::from_str(slot),
                source_team_id,
                qualification_code: copy_opt_text(&p.qualification_code),
                qualification_level_code: copy_opt_text(&p.qualification_level_code),
                username: copy_opt_text(&p.username),
                assigned_at: wall_clock_now(),
            };
            members.push(member);
            i = i + 1;
        }
        assert(ps@.take(ps@.len() as int) =~= ps@);
        let reqs = &order.crew_requirement_snapshot;
        let mut q: usize = 0;
        assert(reqs@.skip(0) =~= reqs@);
        while q < reqs.len()
            invariant
                q <= reqs@.len(),
                reqs@ == order.crew_requirement_snapshot@,
                order.task_crew.members == Some(*ps),
                crew_payload_error(ps@) is None,
                members@.len() == ps@.len(),
                forall|k: int| 0 <= k < ps@.len() ==> draft_member_of(#[trigger] members@[k], ps@[k], order),
                crew_requirement_error(reqs@, ps@) == crew_requirement_error(reqs@.skip(q as int), ps@),
            decreases reqs@.len() - q,
        {
            proof {
                assert(reqs@.skip(q as int).drop_first() =~= reqs@.skip(q + 1));
                assert(reqs@.skip(q as int)[0] == reqs@[q as int]);
            }
            match &reqs[q].slot_code {
                Some(s) => {
                    let required: i64 = match reqs[q].required_count {
                        Some(v) => if v >= 0 {
                            v
                        } else {
                            1
                        },
                        None => 1,
                    };
                    let actual = count_slot(ps, s.as_str());
                    proof {
                        lemma_slot_count_bound(ps@, s@);
                    }
                    if actual as i128 != required as i128 {
                        let m = count_message("人员槽位 ", s.as_str(), required, " 人", actual);
                        assert(required_of(reqs@[q as int]) == required);
                        assert(crew_requirement_error(reqs@.skip(q as int), ps@) == Some(m@));
                        return Err(DispatchError::ValidationError(m));
                    }
                },
                None => {},
            }
            q = q + 1;
        }
        Ok(members)
    }
}

} // verus!

verus! {

/// The equipment an assignment payload names: the payload itself when it
/// is a string, else its `equipment_id`; trimmed and not blank.
pub open spec fn assigned_equipment(a: EquipmentAssignment) -> Option<Seq<char>> {
    normalized_opt(
        match a.text {
            Some(t) => Some(t@),
            None => opt_chars(a.equipment_id),
        },
    )
}

/// The slot an assignment fills, trimmed and not blank.
pub open spec fn assigned_slot(a: EquipmentAssignment) -> Option<Seq<char>> {
    normalized_opt(opt_chars(a.slot_code))
}

/// The first fault of the equipment assignments, taken in order: one
/// without equipment, equipment assigned twice, one without a slot.
pub open spec fn equipment_payload_error(xs: Seq<EquipmentAssignment>) -> Option<Seq<char>>
    decreases xs.len(),
{
    if xs.len() == 0 {
        None
    } else {
        match equipment_payload_error(xs.drop_last()) {
            Some(m) => Some(m),
            None => match assigned_equipment(xs.last()) {
                None => Some("equipment_assignment.equipment_id 不能为空"@),
                Some(e) => if exists|k: int| 0 <= k < xs.len() - 1 && #[trigger] assigned_equipment(xs[k]) == Some(e) {
                    Some("设备 "@ + e + " 被重复分配"@)
                } else {
                    match assigned_slot(xs.last()) {
                        None => Some("设备 "@ + e + " 缺少 slot_code"@),
                        Some(_) => None,
                    }
                },
            },
        }
    }
}

/// How many assignments fill slot `s`.
pub open spec fn equipment_slot_count(xs: Seq<EquipmentAssignment>, s: Seq<char>) -> nat
    decreases xs.len(),
{
    if xs.len() == 0 {
        0
    } else {
        equipment_slot_count(xs.drop_last(), s) + if assigned_slot(xs.last()) == Some(s) {
            1nat
        } else {
            0nat
        }
    }
}

/// The first equipment requirement that the assignments do not fill exactly.
pub open spec fn equipment_requirement_error(reqs: Seq<SlotRequirement>, xs: Seq<EquipmentAssignment>) -> Option<Seq<char>>
    decreases reqs.len(),
{
    if reqs.len() == 0 {
        None
    } else {
        match reqs[0].slot_code {
            Some(s) => if equipment_slot_count(xs, s@) != required_of(reqs[0]) {
                Some(
                    "设备槽位 "@ + s@ + " 需要 "@ + decimal(required_of(reqs[0])) + " 台"@ + "，实际 "@ + decimal(
                        equipment_slot_count(xs, s@) as int,
                    ) + " 台"@,
                )
            } else {
                equipment_requirement_error(reqs.drop_first(), xs)
            },
            None => equipment_requirement_error(reqs.drop_first(), xs),
        }
    }
}

proof fn lemma_equipment_error_prefix(xs: Seq<EquipmentAssignment>, n: int)
    requires
        0 <= n <= xs.len(),
        equipment_payload_error(xs.take(n)) is Some,
    ensures
        equipment_payload_error(xs) == equipment_payload_error(xs.take(n)),
    decreases xs.len() - n,
{
    if n < xs.len() {
        assert(xs.take(n + 1).drop_last() =~= xs.take(n));
        lemma_equipment_error_prefix(xs, n + 1);
    } else {
        assert(xs.take(n) =~= xs);
    }
}

fn equipment_ref_of(a: &EquipmentAssignment) -> (r: Option<&str>)
    ensures
        match r {
            Some(s) => assigned_equipment(*a) == Some(s@),
            None => assigned_equipment(*a) is None,
        },
{
    let raw: Option<&str> = match &a.text {
        Some(t) => Some(t.as_str()),
        None => match &a.equipment_id {
            Some(e) => Some(e.as_str()),
            None => None,
        },
    };
    match raw {
        Some(x) => {
            let t = trim(x);
            if t.unicode_len() == 0 {
                None
            } else {
                Some(t)
            }
        },
        None => None,
    }
}

fn count_equipment_slot(xs: &Vec<EquipmentAssignment>, s: &str) -> (r: usize)
    ensures
        r == equipment_slot_count(xs@, s@),
{
    let mut n: usize = 0;
    let mut i: usize = 0;
    while i < xs.len()
        invariant
            i <= xs@.len(),
            n == equipment_slot_count(xs@.take(i as int), s@),
            n <= i,
        decreases xs@.len() - i,
    {
        proof {
            assert(xs@.take(i + 1).drop_last() =~= xs@.take(i as int));
        }
        let matches = match &xs[i].slot_code {
            Some(x) => {
                let t = trim(x.as_str());
                t.unicode_len() > 0 && text_eq(t, s)
            },
            None => false,
        };
        if matches {
            n = n + 1;
        }
        i = i + 1;
    }
    assert(xs@.take(xs@.len() as int) =~= xs@);
    n
}

impl DispatchService {
    /// The equipment of a draft about to be published: every assignment
    /// needs equipment (assigned once) and a slot, and each equipment
    /// requirement with a slot must be filled by exactly the required
    /// number of assignments.
    pub fn validate_draft_publication_equipment(order: &DispatchOrder) -> (r: Result<Vec<String>, DispatchError>)
        ensures
            match equipment_payload_error(order.equipment_assignment@) {
                Some(msg) => r matches Err(DispatchError::ValidationError(m)) && m@ == msg,
                None => match equipment_requirement_error(order.equipment_requirement_snapshot@, order.equipment_assignment@) {
                    Some(msg) => r matches Err(DispatchError::ValidationError(m)) && m@ == msg,
                    None => r matches Ok(v) && v@.len() == order.equipment_assignment@.len() && forall|k: int|
                        0 <= k < v@.len() ==> assigned_equipment(order.equipment_assignment@[k]) == Some(
                            #[trigger] v@[k]@,
                        ),
                },
            },
    {
        let xs = &order.equipment_assignment;
        let mut ids: Vec<String> = Vec::new();
        let mut i: usize = 0;
        while i < xs.len()
            invariant
                i <= xs@.len(),
                xs@ == order.equipment_assignment@,
                equipment_payload_error(xs@.take(i as int)) is None,
                ids@.len() == i,
                forall|k: int| 0 <= k < i ==> assigned_equipment(xs@[k]) == Some(#[trigger] ids@[k]@),
            decreases xs@.len() - i,
        {
            let ghost pre = xs@.take(i as int);
            let ghost post = xs@.take(i + 1);
            proof {
                assert(post.drop_last() =~= pre);
                assert(post.last() == xs@[i as int]);
                if equipment_payload_error(post) is Some {
                    lemma_equipment_error_prefix(xs@, i + 1);
                }
            }
            let e = match equipment_ref_of(&xs[i]) {
                Some(e) => e,
                None => {
                    return Err(
                        DispatchError::ValidationError(String::from_str("equipment_assignment.equipment_id 不能为空")),
                    );
                },
            };
            let mut j: usize = 0;
            while j < i
                invariant
                    j <= i,
                    i < xs@.len(),
                    xs@ == order.equipment_assignment@,
                    post == xs@.take(i + 1),
                    pre == xs@.take(i as int),
                    post.drop_last() == pre,
                    post.last() == xs@[i as int],
                    equipment_payload_error(pre) is None,
                    assigned_equipment(xs@[i as int]) == Some(e@),
                    equipment_payload_error(post) is Some ==> equipment_payload_error(xs@) == equipment_payload_error(post),
                    forall|k: int| 0 <= k < j ==> #[trigger] assigned_equipment(xs@[k]) != Some(e@),
                decreases i - j,
            {
                let same = match equipment_ref_of(&xs[j]) {
                    Some(x) => text_eq(x, e),
                    None => false,
                };
                if same {
                    proof {
                        assert(post[j as int] == xs@[j as int]);
                        assert(assigned_equipment(post[j as int]) == Some(e@));
                        assert(equipment_payload_error(post) == Some("设备 "@ + e@ + " 被重复分配"@));
                    }
                    let m = join_texts(&["设备 ", e, " 被重复分配"]);
                    assert(concat_views(seq!["设备 ", e, " 被重复分配"]) =~= "设备 "@ + e@ + " 被重复分配"@) by {
                        reveal_with_fuel(concat_views, 4);
                    }
                    return Err(DispatchError::ValidationError(m));
                }
                j = j + 1;
            }
            proof {
                assert forall|k: int| 0 <= k < post.len() - 1 implies #[trigger] assigned_equipment(post[k]) != Some(e@) by {
                    assert(post[k] == xs@[k]);
                }
            }
            let has_slot = match &xs[i].slot_code {
                Some(s) => !blank(s.as_str()),
                None => false,
            };
            if !has_slot {
                let m = join_texts(&["设备 ", e, " 缺少 slot_code"]);
                assert(concat_views(seq!["设备 ", e, " 缺少 slot_code"]) =~= "设备 "@ + e@ + " 缺少 slot_code"@) by {
                    reveal_with_fuel(concat_views, 4);
                }
                return Err(DispatchError::ValidationError(m));
            }
            ids.push(String::from_str(e));
            i = i + 1;
        }
        assert(xs@.take(xs@.len() as int) =~= xs@);
        let reqs = &order.equipment_requirement_snapshot;
        let mut q: usize = 0;
        assert(reqs@.skip(0) =~= reqs@);
        while q < reqs.len()
            invariant
                q <= reqs@.len(),
                reqs@ == order.equipment_requirement_snapshot@,
                xs@ == order.equipment_assignment@,
                equipment_payload_error(xs@) is None,
                ids@.len() == xs@.len(),
                forall|k: int| 0 <= k < ids@.len() ==> assigned_equipment(xs@[k]) == Some(#[trigger] ids@[k]@),
                equipment_requirement_error(reqs@, xs@) == equipment_requirement_error(reqs@.skip(q as int), xs@),
            decreases reqs@.len() - q,
        {
            proof {
                assert(reqs@.skip(q as int).drop_first() =~= reqs@.skip(q + 1));
                assert(reqs@.skip(q as int)[0] == reqs@[q as int]);
            }
            match &reqs[q].slot_code {
                Some(s) => {
                    let required: i64 = match reqs[q].required_count {
                        Some(v) => if v >= 0 {
                            v
                        } else {
                            1
                        },
                        None => 1,
                    };
                    let actual = count_equipment_slot(xs, s.as_str());
                    if actual as i128 != required as i128 {
                        let m = count_message("设备槽位 ", s.as_str(), required, " 台", actual);
                        assert(required_of(reqs@[q as int]) == required);
                        assert(equipment_requirement_error(reqs@.skip(q as int), xs@) == Some(m@));
                        return Err(DispatchError::ValidationError(m));
                    }
                },
                None => {},
            }
            q = q + 1;
        }
        Ok(ids)
    }
}

} // verus!

verus! {

/// Whether an optional identifier is given and not blank.
pub open spec fn given(o: Option<String>) -> bool {
    o matches Some(s) && !is_blank(s@)
}

/// Whether an order has someone to execute it: a non-empty crew payload,
/// an individual assignee or a team.
pub open spec fn has_member_assignment(o: &DispatchOrder) -> bool {
    (o.task_crew.members matches Some(ms) && ms@.len() > 0) || given(o.individual_user_id) || given(o.team_id)
}

/// The slot a requirement names, trimmed (empty when it names none).
pub open spec fn requirement_slot(r: SlotRequirement) -> Seq<char> {
    match normalized_opt(opt_chars(r.slot_code)) {
        Some(t) => t,
        None => Seq::empty(),
    }
}

/// The slot an assignment fills, trimmed (empty when it names none).
pub open spec fn assignment_slot(a: EquipmentAssignment) -> Seq<char> {
    match a.slot_code {
        Some(s) => trimmed(s@),
        None => Seq::empty(),
    }
}

/// The count a requirement asks for, at least one.
pub open spec fn required_at_least_one(r: SlotRequirement) -> int {
    match r.required_count {
        Some(v) => if v < 1 {
            1
        } else {
            v as int
        },
        None => 1,
    }
}

/// How many assignments fill slot `s`, and how many of those have a driver.
pub open spec fn slot_coverage(xs: Seq<EquipmentAssignment>, s: Seq<char>) -> (nat, nat)
    decreases xs.len(),
{
    if xs.len() == 0 {
        (0, 0)
    } else {
        let (m, d) = slot_coverage(xs.drop_last(), s);
        if assignment_slot(xs.last()) == s {
            (m + 1, d + if given(xs.last().driver_user_id) {
                1nat
            } else {
                0nat
            })
        } else {
            (m, d)
        }
    }
}

/// The first equipment requirement the assignments leave uncovered.
pub open spec fn coverage_error(reqs: Seq<SlotRequirement>, xs: Seq<EquipmentAssignment>) -> Option<Seq<char>>
    decreases reqs.len(),
{
    if reqs.len() == 0 {
        None
    } else if !reqs[0].is_object {
        coverage_error(reqs.drop_first(), xs)
    } else {
        let (m, d) = slot_coverage(xs, requirement_slot(reqs[0]));
        if m < required_at_least_one(reqs[0]) {
            Some("设备需求未完全覆盖"@)
        } else if reqs[0].requires_driver == Some(true) && d < required_at_least_one(reqs[0]) {
            Some("设备司机需求未完全覆盖"@)
        } else {
            coverage_error(reqs.drop_first(), xs)
        }
    }
}

/// Why an order cannot be published yet, or nothing.
pub open spec fn required_assignment_error(o: &DispatchOrder) -> Option<Seq<char>> {
    if !has_member_assignment(o) {
        Some("缺少执行编组"@)
    } else if o.equipment_requirement_snapshot@.len() == 0 {
        None
    } else if o.equipment_gap_count > 0 {
        Some("设备需求未完全覆盖"@)
    } else if o.equipment_assignment@.len() == 0 {
        Some("缺少设备分配"@)
    } else {
        coverage_error(o.equipment_requirement_snapshot@, o.equipment_assignment@)
    }
}

fn given_exec(o: &Option<String>) -> (r: bool)
    ensures
        r == given(*o),
{
    match o {
        Some(s) => !blank(s.as_str()),
        None => false,
    }
}

fn coverage_of(xs: &Vec<EquipmentAssignment>, s: &str) -> (r: (usize, usize))
    ensures
        (r.0 as nat, r.1 as nat) == slot_coverage(xs@, s@),
{
    let mut m: usize = 0;
    let mut d: usize = 0;
    let mut i: usize = 0;
    while i < xs.len()
        invariant
            i <= xs@.len(),
            (m as nat, d as nat) == slot_coverage(xs@.take(i as int), s@),
            d <= m,
            m <= i,
        decreases xs@.len() - i,
    {
        proof {
            assert(xs@.take(i + 1).drop_last() =~= xs@.take(i as int));
            if s@.len() == 0 {
                assert(s@ =~= Seq::<char>::empty());
            }
        }
        let slot_matches = match &xs[i].slot_code {
            Some(x) => text_eq(trim(x.as_str()), s),
            None => s.unicode_len() == 0,
        };
        if slot_matches {
            if given_exec(&xs[i].driver_user_id) {
                d = d + 1;
            }
            m = m + 1;
        }
        i = i + 1;
    }
    assert(xs@.take(xs@.len() as int) =~= xs@);
    (m, d)
}

impl DispatchService {
    /// Whether an order is fully assigned for publication: someone executes
    /// it and, when it requires equipment, every equipment requirement is
    /// covered (with drivers where it asks for them); otherwise the reason.
    pub fn order_has_required_assignments(order: &DispatchOrder) -> (r: Result<(), String>)
        ensures
            match required_assignment_error(order) {
                None => r is Ok,
                Some(m) => r matches Err(x) && x@ == m,
            },
    {
        let has_crew = match &order.task_crew.members {
            Some(ms) => ms.len() > 0,
            None => false,
        };
        if !(has_crew || given_exec(&order.individual_user_id) || given_exec(&order.team_id)) {
            return Err(String::from_str("缺少执行编组"));
        }
        let reqs = &order.equipment_requirement_snapshot;
        if reqs.len() == 0 {
            return Ok(());
        }
        if order.equipment_gap_count > 0 {
            return Err(String::from_str("设备需求未完全覆盖"));
        }
        if order.equipment_assignment.len() == 0 {
            return Err(String::from_str("缺少设备分配"));
        }
        let mut q: usize = 0;
        assert(reqs@.skip(0) =~= reqs@);
        while q < reqs.len()
            invariant
                q <= reqs@.len(),
                reqs@ == order.equipment_requirement_snapshot@,
                required_assignment_error(order) == coverage_error(reqs@.skip(q as int), order.equipment_assignment@),
            decreases reqs@.len() - q,
        {
            proof {
                assert(reqs@.skip(q as int).drop_first() =~= reqs@.skip(q + 1));
                assert(reqs@.skip(q as int)[0] == reqs@[q as int]);
            }
            let req = &reqs[q];
            if req.is_object {
                let slot: &str = match &req.slot_code {
                    Some(s) => trim(s.as_str()),
                    None => "",
                };
                proof {
                    reveal_strlit("");
                    assert(slot@ == requirement_slot(*req));
                }
                let required: i64 = match req.required_count {
                    Some(v) => if v < 1 {
                        1
                    } else {
                        v
                    },
                    None => 1,
                };
                let (m, d) = coverage_of(&order.equipment_assignment, slot);
                if (m as i128) < (required as i128) {
                    return Err(String::from_str("设备需求未完全覆盖"));
                }
                let needs_driver = match req.requires_driver {
                    Some(b) => b,
                    None => false,
                };
                if needs_driver && (d as i128) < (required as i128) {
                    return Err(String::from_str("设备司机需求未完全覆盖"));
                }
            }
            q = q + 1;
        }
        Ok(())
    }
}

} // verus!
