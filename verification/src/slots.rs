//! Editing the named slots of an order: which orders may be edited, which
//! slot an edit names, who and what leaves a slot, and how the equipment
//! list keeps one piece per slot and one slot per piece.

use vstd::prelude::*;
use crate::text::{trim, trimmed, is_blank, text_eq, concat_views, join_texts};
use crate::model::{DispatchError, DispatchOrder, OrderStatus, OrderMember, EquipmentAssignment, SlotRequirement, status_text, status_value};
use crate::rules::{DispatchService, nonblank_trimmed, dedup_views, string_views};
use crate::publication::opt_chars;

verus! {

/// The positions `k < n` where `p` holds, in increasing order.
pub open spec fn positions_where(n: int, p: spec_fn(int) -> bool) -> Seq<int>
    decreases n,
{
    if n <= 0 {
        Seq::empty()
    } else if p(n - 1) {
        positions_where(n - 1, p).push(n - 1)
    } else {
        positions_where(n - 1, p)
    }
}

/// The positions as integers.
pub open spec fn as_ints(v: Seq<usize>) -> Seq<int> {
    v.map_values(|x: usize| x as int)
}

/// Whether an optional text is exactly `s`.
pub open spec fn is_text(o: Option<String>, s: Seq<char>) -> bool {
    match o {
        Some(x) => x@ == s,
        None => false,
    }
}

proof fn lemma_positions_step(n: int, p: spec_fn(int) -> bool)
    requires
        n >= 0,
    ensures
        positions_where(n + 1, p) == if p(n) {
            positions_where(n, p).push(n)
        } else {
            positions_where(n, p)
        },
{
}

proof fn lemma_positions_members(n: int, p: spec_fn(int) -> bool)
    ensures
        forall|k: int| 0 <= k < positions_where(n, p).len() ==> 0 <= #[trigger] positions_where(n, p)[k] < n && p(
            positions_where(n, p)[k],
        ),
        forall|x: int| 0 <= x < n && p(x) ==> #[trigger] positions_where(n, p).contains(x),
    decreases n,
{
    if n > 0 {
        lemma_positions_members(n - 1, p);
        let prev = positions_where(n - 1, p);
        if p(n - 1) {
            assert(positions_where(n, p) == prev.push(n - 1));
            assert forall|x: int| 0 <= x < n && p(x) implies #[trigger] positions_where(n, p).contains(x) by {
                if x < n - 1 {
                    assert(prev.contains(x));
                    let k = choose|k: int| 0 <= k < prev.len() && prev[k] == x;
                    assert(positions_where(n, p)[k] == x);
                } else {
                    assert(positions_where(n, p)[prev.len() as int] == x);
                }
            }
        } else {
            assert(positions_where(n, p) == prev);
            assert forall|x: int| 0 <= x < n && p(x) implies #[trigger] positions_where(n, p).contains(x) by {
                assert(prev.contains(x));
            }
        }
    }
}

/// The message of an edit to a finished order.
pub open spec fn finished_order_message(id: Seq<char>, s: OrderStatus) -> Seq<char> {
    "工单 "@ + id + " 已"@ + status_text(s) + "，不允许修改槽位"@
}

/// The message of an edit that names a crew slot the order does not have.
pub open spec fn missing_slot_message(order_id: Seq<char>, slot: Seq<char>) -> Seq<char> {
    "工单 "@ + order_id + " 不存在槽位 "@ + slot
}

/// The message of an edit that names an equipment slot the order does not
/// have.
pub open spec fn missing_equipment_slot_message(order_id: Seq<char>, slot: Seq<char>) -> Seq<char> {
    "工单 "@ + order_id + " 不存在设备槽位 "@ + slot
}

/// The message of a release of equipment that is not on the order (in the
/// slot, when one is named).
pub open spec fn not_assigned_message(equipment: Seq<char>, order_id: Seq<char>, slot: Option<Seq<char>>) -> Seq<char> {
    "设备 "@ + equipment + " 未指派到工单 "@ + order_id + match slot {
        Some(s) => " 的槽位 "@ + s,
        None => Seq::empty(),
    }
}

/// The equipment of an equipment list: trimmed, blank ones dropped, each
/// once, in order of first mention.
pub open spec fn listed_equipment(items: Seq<EquipmentAssignment>) -> Seq<Seq<char>> {
    dedup_views(nonblank_trimmed(Seq::new(items.len(), |k: int| opt_chars(items[k].equipment_id))))
}

/// The message of a status the service does not know.
pub open spec fn invalid_status_message(t: Seq<char>) -> Seq<char> {
    "invalid dispatch order status: "@ + t
}

/// The status a (trimmed) status text names.
pub open spec fn status_named(t: Seq<char>) -> Option<OrderStatus> {
    if t == "pending"@ {
        Some(OrderStatus::Pending)
    } else if t == "assigned"@ {
        Some(OrderStatus::Assigned)
    } else if t == "in_progress"@ {
        Some(OrderStatus::InProgress)
    } else if t == "completed"@ {
        Some(OrderStatus::Completed)
    } else if t == "cancelled"@ {
        Some(OrderStatus::Cancelled)
    } else {
        None
    }
}

fn message(parts: &[&str]) -> (r: String)
    ensures
        r@ == concat_views(parts@),
{
    join_texts(parts)
}

fn missing_slot_error(order_id: &str, slot: &str) -> (e: DispatchError)
    ensures
        e matches DispatchError::ValidationError(m) && m@ == missing_slot_message(order_id@, slot@),
{
    proof {
        reveal_strlit("工单 ");
        reveal_strlit(" 不存在槽位 ");
        reveal_with_fuel(concat_views, 5);
    }
    let m = message(&["工单 ", order_id, " 不存在槽位 ", slot]);
    assert(concat_views(seq!["工单 ", order_id, " 不存在槽位 ", slot]) =~= missing_slot_message(order_id@, slot@));
    DispatchError::ValidationError(m)
}

impl DispatchService {
    /// A finished (completed or cancelled) order's slots cannot be edited.
    pub fn assert_order_assignable(order_id: &str, status: OrderStatus) -> (r: Result<(), DispatchError>)
        ensures
            r is Err <==> (status == OrderStatus::Completed || status == OrderStatus::Cancelled),
            r matches Err(e) ==> e matches DispatchError::BusinessRuleViolation(m) && m@ == finished_order_message(
                order_id@,
                status,
            ),
    {
        if status == OrderStatus::Completed || status == OrderStatus::Cancelled {
            let s = status_value(status);
            let m = message(&["工单 ", order_id, " 已", s, "，不允许修改槽位"]);
            proof {
                reveal_strlit("工单 ");
                reveal_strlit(" 已");
                reveal_strlit("，不允许修改槽位");
                reveal_with_fuel(concat_views, 6);
                assert(concat_views(seq!["工单 ", order_id, " 已", s, "，不允许修改槽位"]) =~= finished_order_message(
                    order_id@,
                    status,
                ));
            }
            return Err(DispatchError::BusinessRuleViolation(m));
        }
        Ok(())
    }

    /// The status an update names (trimmed); an unknown one is a validation
    /// error quoting it.
    pub fn parse_order_status(new_status: &str) -> (r: Result<OrderStatus, DispatchError>)
        ensures
            match status_named(trimmed(new_status@)) {
                Some(s) => r == Ok::<OrderStatus, DispatchError>(s),
                None => r matches Err(DispatchError::ValidationError(m)) && m@ == invalid_status_message(
                    trimmed(new_status@),
                ),
            },
    {
        let t = trim(new_status);
        if text_eq(t, "pending") {
            Ok(OrderStatus::Pending)
        } else if text_eq(t, "assigned") {
            Ok(OrderStatus::Assigned)
        } else if text_eq(t, "in_progress") {
            Ok(OrderStatus::InProgress)
        } else if text_eq(t, "completed") {
            Ok(OrderStatus::Completed)
        } else if text_eq(t, "cancelled") {
            Ok(OrderStatus::Cancelled)
        } else {
            proof {
                reveal_strlit("invalid dispatch order status: ");
                reveal_with_fuel(concat_views, 3);
            }
            let m = message(&["invalid dispatch order status: ", t]);
            assert(concat_views(seq!["invalid dispatch order status: ", t]) =~= invalid_status_message(t@));
            Err(DispatchError::ValidationError(m))
        }
    }

    /// The first crew slot with code `slot` (as given, untrimmed).
    pub fn find_slot(slots: &Vec<SlotRequirement>, slot: &str) -> (r: Option<usize>)
        ensures
            match r {
                Some(k) => k < slots@.len() && is_text(slots@[k as int].slot_code, slot@) && forall|x: int|
                    0 <= x < k ==> !is_text((#[trigger] slots@[x]).slot_code, slot@),
                None => forall|x: int| 0 <= x < slots@.len() ==> !is_text((#[trigger] slots@[x]).slot_code, slot@),
            },
    {
        let mut k: usize = 0;
        while k < slots.len()
            invariant
                k <= slots@.len(),
                forall|x: int| 0 <= x < k ==> !is_text((#[trigger] slots@[x]).slot_code, slot@),
            decreases slots@.len() - k,
        {
            match &slots[k].slot_code {
                Some(c) => {
                    if text_eq(c.as_str(), slot) {
                        return Some(k);
                    }
                },
                None => {
                },
            }
            k = k + 1;
        }
        None
    }

    /// The crew slot an edit of `order_id` names: it must exist.
    pub fn require_slot(slots: &Vec<SlotRequirement>, order_id: &str, slot: &str) -> (r: Result<usize, DispatchError>)
        ensures
            match r {
                Ok(k) => k < slots@.len() && is_text(slots@[k as int].slot_code, slot@) && forall|x: int|
                    0 <= x < k ==> !is_text((#[trigger] slots@[x]).slot_code, slot@),
                Err(e) => (forall|x: int| 0 <= x < slots@.len() ==> !is_text((#[trigger] slots@[x]).slot_code, slot@))
                    && (e matches DispatchError::ValidationError(m) && m@ == missing_slot_message(order_id@, slot@)),
            },
    {
        match Self::find_slot(slots, slot) {
            Some(k) => Ok(k),
            None => Err(missing_slot_error(order_id, slot)),
        }
    }

    /// The equipment slot an edit of `order_id` names: it must exist.
    pub fn require_equipment_slot(slots: &Vec<SlotRequirement>, order_id: &str, slot: &str) -> (r: Result<
        usize,
        DispatchError,
    >)
        ensures
            match r {
                Ok(k) => k < slots@.len() && is_text(slots@[k as int].slot_code, slot@) && forall|x: int|
                    0 <= x < k ==> !is_text((#[trigger] slots@[x]).slot_code, slot@),
                Err(e) => (forall|x: int| 0 <= x < slots@.len() ==> !is_text((#[trigger] slots@[x]).slot_code, slot@))
                    && (e matches DispatchError::ValidationError(m) && m@ == missing_equipment_slot_message(
                    order_id@,
                    slot@,
                )),
            },
    {
        match Self::find_slot(slots, slot) {
            Some(k) => Ok(k),
            None => {
                proof {
                    reveal_strlit("工单 ");
                    reveal_strlit(" 不存在设备槽位 ");
                    reveal_with_fuel(concat_views, 5);
                }
                let m = message(&["工单 ", order_id, " 不存在设备槽位 ", slot]);
                assert(concat_views(seq!["工单 ", order_id, " 不存在设备槽位 ", slot]) =~= missing_equipment_slot_message(
                    order_id@,
                    slot@,
                ));
                Err(DispatchError::ValidationError(m))
            },
        }
    }

    /// The slots kept when slot `slot` is removed: all others, in order; a
    /// slot the order does not have cannot be removed.
    pub fn slots_after_removal(slots: &Vec<SlotRequirement>, order_id: &str, slot: &str) -> (r: Result<
        Vec<usize>,
        DispatchError,
    >)
        ensures
            match r {
                Ok(kept) => as_ints(kept@) == positions_where(
                    slots@.len() as int,
                    |k: int| !is_text(slots@[k].slot_code, slot@),
                ) && kept@.len() < slots@.len(),
                Err(e) => (forall|x: int| 0 <= x < slots@.len() ==> !is_text((#[trigger] slots@[x]).slot_code, slot@))
                    && (e matches DispatchError::ValidationError(m) && m@ == missing_slot_message(order_id@, slot@)),
            },
    {
        let ghost p = |k: int| !is_text(slots@[k].slot_code, slot@);
        let mut kept: Vec<usize> = Vec::new();
        let mut k: usize = 0;
        while k < slots.len()
            invariant
                k <= slots@.len(),
                p == (|k: int| !is_text(slots@[k].slot_code, slot@)),
                as_ints(kept@) == positions_where(k as int, p),
                kept@.len() <= k,
            decreases slots@.len() - k,
        {
            let matches = match &slots[k].slot_code {
                Some(c) => text_eq(c.as_str(), slot),
                None => false,
            };
            proof {
                lemma_positions_step(k as int, p);
            }
            if !matches {
                let ghost k0 = kept@;
                kept.push(k);
                assert(as_ints(kept@) =~= as_ints(k0).push(k as int));
            }
            k = k + 1;
        }
        if kept.len() == slots.len() {
            proof {
                lemma_positions_members(slots@.len() as int, p);
                assert forall|x: int| 0 <= x < slots@.len() implies !is_text((#[trigger] slots@[x]).slot_code, slot@) by {
                    lemma_all_positions(slots@.len() as int, p, x);
                }
            }
            return Err(missing_slot_error(order_id, slot));
        }
        Ok(kept)
    }

    /// The active members who hold slot `slot` (by its exact code): those
    /// an edit of the slot releases.
    pub fn members_in_slot(members: &Vec<OrderMember>, slot: &str) -> (r: Vec<usize>)
        ensures
            as_ints(r@) == positions_where(
                members@.len() as int,
                |k: int| members@[k].is_active && is_text(members@[k].slot_code, slot@),
            ),
    {
        let ghost p = |k: int| members@[k].is_active && is_text(members@[k].slot_code, slot@);
        let mut r: Vec<usize> = Vec::new();
        let mut k: usize = 0;
        while k < members.len()
            invariant
                k <= members@.len(),
                p == (|k: int| members@[k].is_active && is_text(members@[k].slot_code, slot@)),
                as_ints(r@) == positions_where(k as int, p),
            decreases members@.len() - k,
        {
            let holds = members[k].is_active && match &members[k].slot_code {
                Some(c) => text_eq(c.as_str(), slot),
                None => false,
            };
            proof {
                lemma_positions_step(k as int, p);
            }
            if holds {
                let ghost r0 = r@;
                r.push(k);
                assert(as_ints(r@) =~= as_ints(r0).push(k as int));
            }
            k = k + 1;
        }
        r
    }
}

proof fn lemma_all_positions(n: int, p: spec_fn(int) -> bool, x: int)
    requires
        0 <= x < n,
        positions_where(n, p).len() == n,
    ensures
        p(x),
    decreases n,
{
    lemma_positions_len(n - 1, p);
    if p(n - 1) {
        if x < n - 1 {
            lemma_all_positions(n - 1, p, x);
        }
    } else {
        assert(positions_where(n, p) == positions_where(n - 1, p));
    }
}

proof fn lemma_positions_len(n: int, p: spec_fn(int) -> bool)
    ensures
        positions_where(n, p).len() <= if n < 0 { 0 } else { n },
    decreases n,
{
    if n > 0 {
        lemma_positions_len(n - 1, p);
    }
}

/// Whether an equipment entry stays when `equipment` is put into `slot`:
/// it holds neither that slot nor that equipment.
pub open spec fn kept_on_assign(e: EquipmentAssignment, slot: Seq<char>, equipment: Seq<char>) -> bool {
    !is_text(e.slot_code, slot) && !is_text(e.equipment_id, equipment)
}

/// Whether an equipment entry stays when `equipment` is released (from
/// `slot`, when one is named).
pub open spec fn kept_on_release(e: EquipmentAssignment, slot: Option<Seq<char>>, equipment: Seq<char>) -> bool {
    !(is_text(e.equipment_id, equipment) && match slot {
        Some(s) => is_text(e.slot_code, s),
        None => true,
    })
}

/// The message of a missing required field.
pub open spec fn required_message(label: Seq<char>) -> Seq<char> {
    label + " is required"@
}

/// The message of equipment whose type the slot does not take.
pub open spec fn wrong_type_message(equipment: Seq<char>, slot: Seq<char>) -> Seq<char> {
    "设备 "@ + equipment + " 的类型与槽位 "@ + slot + " 要求的设备类型不一致"@
}

/// The message of a reassignment to a team.
pub open spec fn team_reassign_message() -> Seq<char> {
    "班组指派已废止：请改用 assign_slot 按槽挂人"@
}

/// The message of a reassignment to an unknown kind of assignee.
pub open spec fn unsupported_assignee_message(t: Seq<char>) -> Seq<char> {
    "unsupported assignee_type: "@ + t
}

impl DispatchService {
    /// A required field trimmed; a blank one is "`label` is required".
    pub fn require_text<'a>(value: &'a str, label: &str) -> (r: Result<&'a str, DispatchError>)
        ensures
            match r {
                Ok(t) => !is_blank(value@) && t@ == trimmed(value@),
                Err(e) => is_blank(value@) && (e matches DispatchError::ValidationError(m) && m@ == required_message(
                    label@,
                )),
            },
    {
        let t = trim(value);
        if t.unicode_len() == 0 {
            proof {
                reveal_strlit(" is required");
                reveal_with_fuel(concat_views, 3);
            }
            let m = message(&[label, " is required"]);
            assert(concat_views(seq![label, " is required"]) =~= required_message(label@));
            return Err(DispatchError::ValidationError(m));
        }
        Ok(t)
    }

    /// The equipment of an order's equipment list: trimmed, blank ones
    /// dropped, each once, in order of first mention.
    pub fn equipment_ids_of(items: &Vec<EquipmentAssignment>) -> (r: Vec<String>)
        ensures
            string_views(r@) == listed_equipment(items@),
    {
        let ghost full = Seq::new(items@.len(), |k: int| opt_chars(items@[k].equipment_id));
        let mut r: Vec<String> = Vec::new();
        let mut k: usize = 0;
        while k < items.len()
            invariant
                k <= items@.len(),
                full == Seq::new(items@.len(), |k: int| opt_chars(items@[k].equipment_id)),
                string_views(r@) == dedup_views(nonblank_trimmed(full.take(k as int))),
            decreases items@.len() - k,
        {
            proof {
                assert(full.take(k + 1).drop_last() =~= full.take(k as int));
                assert(full.take(k + 1).last() == opt_chars(items@[k as int].equipment_id));
            }
            let ghost prev_ids = nonblank_trimmed(full.take(k as int));
            match &items[k].equipment_id {
                Some(x) => {
                    let t = trim(x.as_str());
                    proof {
                        if t@.len() > 0 {
                            assert(nonblank_trimmed(full.take(k + 1)) == prev_ids.push(t@));
                            assert(prev_ids.push(t@).drop_last() =~= prev_ids);
                        } else {
                            assert(nonblank_trimmed(full.take(k + 1)) == prev_ids);
                        }
                    }
                    if t.unicode_len() > 0 {
                        let mut seen = false;
                        let mut j: usize = 0;
                        while j < r.len()
                            invariant
                                j <= r@.len(),
                                seen == exists|y: int| 0 <= y < j && (#[trigger] r@[y])@ == t@,
                            decreases r@.len() - j,
                        {
                            if text_eq(r[j].as_str(), t) {
                                seen = true;
                            }
                            j = j + 1;
                        }
                        proof {
                            if string_views(r@).contains(t@) {
                                let y = choose|y: int| 0 <= y < r@.len() && string_views(r@)[y] == t@;
                                assert(r@[y]@ == t@);
                            }
                            if seen {
                                let y = choose|y: int| 0 <= y < r@.len() && (#[trigger] r@[y])@ == t@;
                                assert(string_views(r@)[y] == t@);
                            }
                        }
                        if !seen {
                            let ghost r0 = r@;
                            r.push(t.to_string());
                            assert(string_views(r@) =~= string_views(r0).push(t@));
                        }
                    }
                },
                None => {
                    assert(nonblank_trimmed(full.take(k + 1)) == prev_ids);
                },
            }
            k = k + 1;
        }
        assert(full.take(items@.len() as int) =~= full);
        r
    }

    /// The equipment entries kept when `equipment` is put into `slot`: those
    /// that hold neither, in order (the new entry is added after them).
    pub fn equipment_kept_on_assign(items: &Vec<EquipmentAssignment>, slot: &str, equipment: &str) -> (r: Vec<usize>)
        ensures
            as_ints(r@) == positions_where(items@.len() as int, |k: int| kept_on_assign(items@[k], slot@, equipment@)),
    {
        let ghost p = |k: int| kept_on_assign(items@[k], slot@, equipment@);
        let mut r: Vec<usize> = Vec::new();
        let mut k: usize = 0;
        while k < items.len()
            invariant
                k <= items@.len(),
                p == (|k: int| kept_on_assign(items@[k], slot@, equipment@)),
                as_ints(r@) == positions_where(k as int, p),
            decreases items@.len() - k,
        {
            let same_slot = match &items[k].slot_code {
                Some(c) => text_eq(c.as_str(), slot),
                None => false,
            };
            let same_equipment = match &items[k].equipment_id {
                Some(c) => text_eq(c.as_str(), equipment),
                None => false,
            };
            proof {
                lemma_positions_step(k as int, p);
            }
            if !same_slot && !same_equipment {
                let ghost r0 = r@;
                r.push(k);
                assert(as_ints(r@) =~= as_ints(r0).push(k as int));
            }
            k = k + 1;
        }
        r
    }

    /// The equipment entries kept when `equipment` is released from `slot`
    /// (trimmed; every slot when none or blank): all others, in order; a
    /// release that matches nothing is refused.
    pub fn equipment_kept_on_release(
        items: &Vec<EquipmentAssignment>,
        order_id: &str,
        slot: Option<&str>,
        equipment: &str,
    ) -> (r: Result<Vec<usize>, DispatchError>)
        ensures
            ({
                let s = crate::rules::normalized_opt(
                    match slot {
                        Some(x) => Some(x@),
                        None => None,
                    },
                );
                let kept = positions_where(items@.len() as int, |k: int| kept_on_release(items@[k], s, equipment@));
                match r {
                    Ok(v) => as_ints(v@) == kept && kept.len() < items@.len(),
                    Err(e) => kept.len() == items@.len() && (e matches DispatchError::ValidationError(m) && m@
                        == not_assigned_message(equipment@, order_id@, s)),
                }
            }),
    {
        let s = Self::normalize_optional_ref(slot);
        let ghost sv = crate::rules::normalized_opt(
            match slot {
                Some(x) => Some(x@),
                None => None,
            },
        );
        let ghost p = |k: int| kept_on_release(items@[k], sv, equipment@);
        let mut r: Vec<usize> = Vec::new();
        let mut k: usize = 0;
        while k < items.len()
            invariant
                k <= items@.len(),
                p == (|k: int| kept_on_release(items@[k], sv, equipment@)),
                match s {
                    Some(x) => sv == Some(x@),
                    None => sv is None,
                },
                as_ints(r@) == positions_where(k as int, p),
                r@.len() <= k,
            decreases items@.len() - k,
        {
            let same_equipment = match &items[k].equipment_id {
                Some(c) => text_eq(c.as_str(), equipment),
                None => false,
            };
            let slot_matches = match s {
                Some(x) => match &items[k].slot_code {
                    Some(c) => text_eq(c.as_str(), x),
                    None => false,
                },
                None => true,
            };
            proof {
                lemma_positions_step(k as int, p);
            }
            if !(same_equipment && slot_matches) {
                let ghost r0 = r@;
                r.push(k);
                assert(as_ints(r@) =~= as_ints(r0).push(k as int));
            }
            k = k + 1;
        }
        if r.len() == items.len() {
            proof {
                reveal_strlit("设备 ");
                reveal_strlit(" 未指派到工单 ");
                reveal_strlit(" 的槽位 ");
                reveal_strlit("");
                reveal_with_fuel(concat_views, 7);
            }
            let m = match s {
                Some(x) => {
                    let m = message(&["设备 ", equipment, " 未指派到工单 ", order_id, " 的槽位 ", x]);
                    assert(concat_views(seq!["设备 ", equipment, " 未指派到工单 ", order_id, " 的槽位 ", x])
                        =~= not_assigned_message(equipment@, order_id@, sv));
                    m
                },
                None => {
                    let m = message(&["设备 ", equipment, " 未指派到工单 ", order_id]);
                    assert(concat_views(seq!["设备 ", equipment, " 未指派到工单 ", order_id]) =~= not_assigned_message(
                        equipment@,
                        order_id@,
                        sv,
                    ));
                    m
                },
            };
            return Err(DispatchError::ValidationError(m));
        }
        Ok(r)
    }

    /// A slot that names an equipment type (trimmed, non-blank) takes only
    /// equipment of that type.
    pub fn check_equipment_type(
        required_type: Option<&str>,
        equipment_type: Option<&str>,
        equipment_id: &str,
        slot: &str,
    ) -> (r: Result<(), DispatchError>)
        ensures
            ({
                let req = crate::rules::normalized_opt(
                    match required_type {
                        Some(x) => Some(x@),
                        None => None,
                    },
                );
                let actual = match equipment_type {
                    Some(x) => Some(x@),
                    None => None,
                };
                match req {
                    Some(t) => if actual == Some(t) {
                        r is Ok
                    } else {
                        r matches Err(DispatchError::BusinessRuleViolation(m)) && m@ == wrong_type_message(
                            equipment_id@,
                            slot@,
                        )
                    },
                    None => r is Ok,
                }
            }),
    {
        match Self::normalize_optional_ref(required_type) {
            Some(t) => {
                let same = match equipment_type {
                    Some(a) => text_eq(a, t),
                    None => false,
                };
                if same {
                    Ok(())
                } else {
                    proof {
                        reveal_strlit("设备 ");
                        reveal_strlit(" 的类型与槽位 ");
                        reveal_strlit(" 要求的设备类型不一致");
                        reveal_with_fuel(concat_views, 6);
                    }
                    let m = message(&["设备 ", equipment_id, " 的类型与槽位 ", slot, " 要求的设备类型不一致"]);
                    assert(concat_views(seq!["设备 ", equipment_id, " 的类型与槽位 ", slot, " 要求的设备类型不一致"])
                        =~= wrong_type_message(equipment_id@, slot@));
                    Err(DispatchError::BusinessRuleViolation(m))
                }
            },
            None => Ok(()),
        }
    }

    /// The person an order is reassigned to: the identifier is required,
    /// and the assignee must be a person (`individual` or `user`, the
    /// default); a team is refused, as is anything else.
    pub fn reassign_assignee(assignee_id: &str, assignee_type: Option<&str>) -> (r: Result<String, DispatchError>)
        ensures
            ({
                let kind = match crate::rules::normalized_opt(
                    match assignee_type {
                        Some(x) => Some(x@),
                        None => None,
                    },
                ) {
                    Some(k) => k,
                    None => "individual"@,
                };
                if is_blank(assignee_id@) {
                    r matches Err(DispatchError::ValidationError(m)) && m@ == required_message("assignee_id"@)
                } else if kind == "team"@ {
                    r matches Err(DispatchError::ValidationError(m)) && m@ == team_reassign_message()
                } else if kind == "individual"@ || kind == "user"@ {
                    r matches Ok(id) && id@ == trimmed(assignee_id@)
                } else {
                    r matches Err(DispatchError::ValidationError(m)) && m@ == unsupported_assignee_message(kind)
                }
            }),
    {
        proof {
            reveal_strlit("individual");
        }
        let id = Self::require_text(assignee_id, "assignee_id")?;
        let kind: &str = match Self::normalize_optional_ref(assignee_type) {
            Some(k) => k,
            None => "individual",
        };
        if text_eq(kind, "team") {
            proof {
                reveal_strlit("班组指派已废止：请改用 assign_slot 按槽挂人");
            }
            return Err(DispatchError::ValidationError("班组指派已废止：请改用 assign_slot 按槽挂人".to_string()));
        }
        if text_eq(kind, "individual") || text_eq(kind, "user") {
            return Ok(id.to_string());
        }
        proof {
            reveal_strlit("unsupported assignee_type: ");
            reveal_with_fuel(concat_views, 3);
        }
        let m = message(&["unsupported assignee_type: ", kind]);
        assert(concat_views(seq!["unsupported assignee_type: ", kind]) =~= unsupported_assignee_message(kind@));
        Err(DispatchError::ValidationError(m))
    }
}

/// Putting `equipment` into `slot` leaves one piece in the slot and the
/// piece in one slot: no kept entry holds the slot or the piece, so with
/// the new entry added the slot holds exactly that piece and the piece
/// exactly that slot.
pub proof fn law_equipment_slot_holds_one_piece(
    items: Seq<EquipmentAssignment>,
    slot: Seq<char>,
    equipment: Seq<char>,
    kept: Seq<usize>,
)
    requires
        as_ints(kept) == positions_where(items.len() as int, |k: int| kept_on_assign(items[k], slot, equipment)),
    ensures
        forall|k: int|
            0 <= k < kept.len() ==> 0 <= #[trigger] kept[k] < items.len() && !is_text(items[kept[k] as int].slot_code, slot)
                && !is_text(items[kept[k] as int].equipment_id, equipment),
{
    let p = |k: int| kept_on_assign(items[k], slot, equipment);
    lemma_positions_members(items.len() as int, p);
    assert forall|k: int| 0 <= k < kept.len() implies 0 <= #[trigger] kept[k] < items.len() && !is_text(
        items[kept[k] as int].slot_code,
        slot,
    ) && !is_text(items[kept[k] as int].equipment_id, equipment) by {
        assert(as_ints(kept)[k] == kept[k] as int);
        assert(positions_where(items.len() as int, p)[k] == kept[k] as int);
    }
}

/// After a release no kept entry holds the released equipment (in the
/// named slot, when one is named).
pub proof fn law_released_equipment_is_gone(
    items: Seq<EquipmentAssignment>,
    slot: Option<Seq<char>>,
    equipment: Seq<char>,
    kept: Seq<usize>,
)
    requires
        as_ints(kept) == positions_where(items.len() as int, |k: int| kept_on_release(items[k], slot, equipment)),
    ensures
        forall|k: int| 0 <= k < kept.len() ==> 0 <= #[trigger] kept[k] < items.len() && kept_on_release(items[kept[k] as int], slot, equipment),
{
    let p = |k: int| kept_on_release(items[k], slot, equipment);
    lemma_positions_members(items.len() as int, p);
    assert forall|k: int| 0 <= k < kept.len() implies 0 <= #[trigger] kept[k] < items.len() && kept_on_release(
        items[kept[k] as int],
        slot,
        equipment,
    ) by {
        assert(as_ints(kept)[k] == kept[k] as int);
        assert(positions_where(items.len() as int, p)[k] == kept[k] as int);
    }
}

/// A qualification grant as the slot check reads it.
pub struct SlotGrant {
    pub qualification_code: String,
    pub level_code: String,
    pub valid_from: Option<i64>,
    pub valid_to: Option<i64>,
}

/// What the slot check needs next: the department and qualification whose
/// grants must be read.
pub struct SlotQualificationCheck {
    pub department_id: String,
    pub qualification_code: String,
    pub min_level_code: Option<String>,
}

/// The message of a person from another department.
pub open spec fn cross_department_message(user: Seq<char>) -> Seq<char> {
    "人员 "@ + user + " 与工单科室不一致（cannot assign cross-department）"@
}

/// The message of a person who is off duty.
pub open spec fn off_duty_message(user: Seq<char>, slot: Seq<char>) -> Seq<char> {
    "人员 "@ + user + " 不在岗（off duty），不能指派到槽位 "@ + slot
}

/// The message of a person the service does not know.
pub open spec fn unknown_person_message(user: Seq<char>) -> Seq<char> {
    "人员 "@ + user + " 不存在"@
}

/// The message of a person without the slot's qualification.
pub open spec fn unqualified_message(user: Seq<char>, slot: Seq<char>, q: Seq<char>) -> Seq<char> {
    "人员 "@ + user + " 不满足槽位 "@ + slot + " 的资质要求 "@ + q
}

/// The message of a person below the slot's level.
pub open spec fn under_level_message(user: Seq<char>, slot: Seq<char>, q: Seq<char>, m: Seq<char>) -> Seq<char> {
    "人员 "@ + user + " 不满足槽位 "@ + slot + " 的资质级别要求 "@ + q + ":"@ + m
}

/// Whether grant `g` is valid at `at`.
pub open spec fn grant_valid_at(g: SlotGrant, at: i64) -> bool {
    (match g.valid_to {
        Some(t) => t >= at,
        None => true,
    }) && (match g.valid_from {
        Some(f) => f <= at,
        None => true,
    })
}

/// Whether a grant at `level` reaches `min`: the level itself or one it
/// covers, by the first entry for it.
pub open spec fn reaches_level(index: Seq<crate::rules::LevelCoverage>, level: Seq<char>, min: Seq<char>) -> bool {
    level == min || match crate::rules::covered_levels(index, level) {
        Some(c) => string_views(c).contains(min),
        None => false,
    }
}

impl DispatchService {
    /// The checks of a person for a crew slot before their grants are read:
    /// the person must exist, belong to the order's department (when both
    /// have one) and be on duty; a slot without a qualification takes
    /// anyone (`None`), otherwise the order must have a department.
    pub fn slot_personnel_precheck(
        user_id: &str,
        slot: &str,
        user_exists: bool,
        order_department: Option<&str>,
        user_department: Option<&str>,
        on_duty: bool,
        slot_qualification: Option<&str>,
        slot_min_level: Option<&str>,
    ) -> (r: Result<Option<SlotQualificationCheck>, DispatchError>)
        ensures
            !user_exists ==> (r matches Err(DispatchError::ValidationError(m)) && m@ == unknown_person_message(user_id@)),
            user_exists && order_department is Some && user_department is Some && order_department.unwrap()@
                != user_department.unwrap()@ ==> (r matches Err(DispatchError::BusinessRuleViolation(m)) && m@
                == cross_department_message(user_id@)),
            user_exists && !(order_department is Some && user_department is Some && order_department.unwrap()@
                != user_department.unwrap()@) ==> {
                if !on_duty {
                    r matches Err(DispatchError::BusinessRuleViolation(m)) && m@ == off_duty_message(user_id@, slot@)
                } else {
                    match slot_qualification {
                        Some(q) => if q@.len() == 0 {
                            r matches Ok(None)
                        } else {
                            match order_department {
                                Some(d) => if d@.len() == 0 {
                                    r matches Err(DispatchError::ValidationError(m)) && m@ == "工单缺少部门上下文"@
                                } else {
                                    r matches Ok(Some(c)) && c.department_id@ == d@ && c.qualification_code@ == q@
                                        && opt_chars(c.min_level_code) == match slot_min_level {
                                        Some(x) => Some(x@),
                                        None => None,
                                    }
                                },
                                None => r matches Err(DispatchError::ValidationError(m)) && m@ == "工单缺少部门上下文"@,
                            }
                        },
                        None => r matches Ok(None),
                    }
                }
            },
    {
        proof {
            reveal_strlit("人员 ");
            reveal_strlit(" 不存在");
            reveal_strlit(" 与工单科室不一致（cannot assign cross-department）");
            reveal_strlit(" 不在岗（off duty），不能指派到槽位 ");
            reveal_strlit("工单缺少部门上下文");
            reveal_with_fuel(concat_views, 5);
        }
        if !user_exists {
            let m = message(&["人员 ", user_id, " 不存在"]);
            assert(concat_views(seq!["人员 ", user_id, " 不存在"]) =~= unknown_person_message(user_id@));
            return Err(DispatchError::ValidationError(m));
        }
        match (order_department, user_department) {
            (Some(o), Some(u)) => {
                if !text_eq(o, u) {
                    let m = message(&["人员 ", user_id, " 与工单科室不一致（cannot assign cross-department）"]);
                    assert(concat_views(seq!["人员 ", user_id, " 与工单科室不一致（cannot assign cross-department）"])
                        =~= cross_department_message(user_id@));
                    return Err(DispatchError::BusinessRuleViolation(m));
                }
            },
            _ => {
            },
        }
        if !on_duty {
            let m = message(&["人员 ", user_id, " 不在岗（off duty），不能指派到槽位 ", slot]);
            assert(concat_views(seq!["人员 ", user_id, " 不在岗（off duty），不能指派到槽位 ", slot]) =~= off_duty_message(
                user_id@,
                slot@,
            ));
            return Err(DispatchError::BusinessRuleViolation(m));
        }
        let q = match slot_qualification {
            Some(q) => {
                if q.unicode_len() == 0 {
                    return Ok(None);
                }
                q
            },
            None => {
                return Ok(None);
            },
        };
        let d = match order_department {
            Some(d) => {
                if d.unicode_len() == 0 {
                    return Err(DispatchError::ValidationError("工单缺少部门上下文".to_string()));
                }
                d
            },
            None => {
                return Err(DispatchError::ValidationError("工单缺少部门上下文".to_string()));
            },
        };
        Ok(
            Some(
                SlotQualificationCheck {
                    department_id: d.to_string(),
                    qualification_code: q.to_string(),
                    min_level_code: match slot_min_level {
                        Some(m) => Some(m.to_string()),
                        None => None,
                    },
                },
            ),
        )
    }

    /// Whether a person's grants satisfy a crew slot at time `at`: some
    /// grant of the qualification is valid then, and, when the slot names
    /// a minimum level, some grant of the qualification reaches it.
    pub fn slot_grants_satisfy(
        user_id: &str,
        slot: &str,
        qualification_code: &str,
        min_level: Option<&str>,
        grants: &Vec<SlotGrant>,
        at: i64,
        level_index: &Vec<crate::rules::LevelCoverage>,
    ) -> (r: Result<(), DispatchError>)
        ensures
            ({
                let valid = exists|k: int|
                    0 <= k < grants@.len() && (#[trigger] grants@[k]).qualification_code@ == qualification_code@
                        && grant_valid_at(grants@[k], at);
                if !valid {
                    r matches Err(DispatchError::BusinessRuleViolation(m)) && m@ == unqualified_message(
                        user_id@,
                        slot@,
                        qualification_code@,
                    )
                } else {
                    match min_level {
                        Some(mn) => if exists|k: int|
                            0 <= k < grants@.len() && (#[trigger] grants@[k]).qualification_code@
                                == qualification_code@ && reaches_level(level_index@, grants@[k].level_code@, mn@) {
                            r is Ok
                        } else {
                            r matches Err(DispatchError::BusinessRuleViolation(m)) && m@ == under_level_message(
                                user_id@,
                                slot@,
                                qualification_code@,
                                mn@,
                            )
                        },
                        None => r is Ok,
                    }
                }
            }),
    {
        let mut valid = false;
        let mut k: usize = 0;
        while k < grants.len()
            invariant
                k <= grants@.len(),
                valid == exists|x: int|
                    0 <= x < k && (#[trigger] grants@[x]).qualification_code@ == qualification_code@ && grant_valid_at(
                        grants@[x],
                        at,
                    ),
            decreases grants@.len() - k,
        {
            let g = &grants[k];
            let to_ok = match g.valid_to {
                Some(t) => t >= at,
                None => true,
            };
            let from_ok = match g.valid_from {
                Some(f) => f <= at,
                None => true,
            };
            if text_eq(g.qualification_code.as_str(), qualification_code) && to_ok && from_ok {
                valid = true;
            }
            k = k + 1;
        }
        if !valid {
            proof {
                reveal_strlit("人员 ");
                reveal_strlit(" 不满足槽位 ");
                reveal_strlit(" 的资质要求 ");
                reveal_with_fuel(concat_views, 7);
            }
            let m = message(&["人员 ", user_id, " 不满足槽位 ", slot, " 的资质要求 ", qualification_code]);
            assert(concat_views(seq!["人员 ", user_id, " 不满足槽位 ", slot, " 的资质要求 ", qualification_code])
                =~= unqualified_message(user_id@, slot@, qualification_code@));
            return Err(DispatchError::BusinessRuleViolation(m));
        }
        match min_level {
            Some(mn) => {
                let mut reached = false;
                let mut j: usize = 0;
                while j < grants.len()
                    invariant
                        j <= grants@.len(),
                        reached == exists|x: int|
                            0 <= x < j && (#[trigger] grants@[x]).qualification_code@ == qualification_code@
                                && reaches_level(level_index@, grants@[x].level_code@, mn@),
                    decreases grants@.len() - j,
                {
                    let g = &grants[j];
                    if text_eq(g.qualification_code.as_str(), qualification_code) && level_reaches(
                        level_index,
                        g.level_code.as_str(),
                        mn,
                    ) {
                        reached = true;
                    }
                    j = j + 1;
                }
                if !reached {
                    proof {
                        reveal_strlit("人员 ");
                        reveal_strlit(" 不满足槽位 ");
                        reveal_strlit(" 的资质级别要求 ");
                        reveal_strlit(":");
                        reveal_with_fuel(concat_views, 9);
                    }
                    let m = message(
                        &["人员 ", user_id, " 不满足槽位 ", slot, " 的资质级别要求 ", qualification_code, ":", mn],
                    );
                    assert(concat_views(
                        seq!["人员 ", user_id, " 不满足槽位 ", slot, " 的资质级别要求 ", qualification_code, ":", mn],
                    ) =~= under_level_message(user_id@, slot@, qualification_code@, mn@));
                    return Err(DispatchError::BusinessRuleViolation(m));
                }
                Ok(())
            },
            None => Ok(()),
        }
    }
}

/// Whether a grant at `level` reaches `min`.
fn level_reaches(index: &Vec<crate::rules::LevelCoverage>, level: &str, min: &str) -> (r: bool)
    ensures
        r == reaches_level(index@, level@, min@),
{
    if text_eq(level, min) {
        return true;
    }
    let mut i: usize = 0;
    assert(index@.skip(0) =~= index@);
    while i < index.len()
        invariant
            i <= index@.len(),
            level@ != min@,
            crate::rules::covered_levels(index@, level@) == crate::rules::covered_levels(index@.skip(i as int), level@),
        decreases index@.len() - i,
    {
        proof {
            assert(index@.skip(i as int).drop_first() =~= index@.skip(i + 1));
            assert(index@.skip(i as int)[0] == index@[i as int]);
        }
        if text_eq(index[i].level_code.as_str(), level) {
            let c = &index[i].covered;
            assert(crate::rules::covered_levels(index@, level@) == Some(c@));
            let mut j: usize = 0;
            while j < c.len()
                invariant
                    j <= c@.len(),
                    level@ != min@,
                    crate::rules::covered_levels(index@, level@) == Some(c@),
                    forall|x: int| 0 <= x < j ==> (#[trigger] c@[x])@ != min@,
                decreases c@.len() - j,
            {
                if text_eq(c[j].as_str(), min) {
                    assert(string_views(c@)[j as int] == min@);
                    return true;
                }
                j = j + 1;
            }
            proof {
                if string_views(c@).contains(min@) {
                    let y = choose|y: int| 0 <= y < c@.len() && string_views(c@)[y] == min@;
                    assert(c@[y]@ == min@);
                }
            }
            return false;
        }
        i = i + 1;
    }
    false
}

} // verus!
