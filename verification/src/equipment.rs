//! Equipment planning: which available equipment fills the equipment slots
//! of an order, and which crew member drives it.

use vstd::prelude::*;
use crate::text::{trim, trimmed, is_blank, text_eq, normalized_ref};
use crate::idset::{has_id, list_has};
use crate::rules::DispatchService;
use crate::publication::opt_chars;
use crate::crew::{CrewPick, text_of, count_of};

verus! {

/// One equipment slot of a requirement snapshot; a field that is missing or
/// not of its type is `None`.
pub struct EquipmentSlot {
    /// Whether the requirement is an object at all (anything else is skipped).
    pub is_object: bool,
    pub slot_code: Option<String>,
    pub equipment_type_id: Option<String>,
    pub equipment_type_code: Option<String>,
    pub required_count: Option<i64>,
    pub must_be_distinct: Option<bool>,
    pub requires_driver: Option<bool>,
    pub driver_qualification_code: Option<String>,
    pub driver_min_level_code: Option<String>,
    pub remarks: Option<String>,
}

/// A piece of equipment offered for a slot.
pub struct EquipmentCandidate {
    pub id: String,
    pub code: String,
}

/// A piece of equipment assigned to a slot.
pub struct EquipmentPick {
    pub slot_code: String,
    pub equipment_id: String,
    pub equipment_code: String,
    /// Who drives it, for a slot that needs a driver.
    pub driver_user_id: Option<String>,
}

/// An equipment slot that could not be filled.
pub struct EquipmentGap {
    pub slot_code: String,
    pub equipment_type_id: Option<String>,
    pub equipment_type_code: Option<String>,
    pub required_count: i64,
    pub assigned_count: i64,
}

/// The equipment assigned to an order.
pub struct EquipmentPlan {
    /// The equipment of each slot, in slot order (none for a slot that is
    /// not an object).
    pub picks: Vec<Vec<EquipmentPick>>,
    /// The slots that could not be filled, in slot order.
    pub gaps: Vec<EquipmentGap>,
}

/// Whether equipment `id` was assigned to one of the slots in `prev`.
pub open spec fn equipment_taken(prev: Seq<Vec<EquipmentPick>>, id: Seq<char>) -> bool {
    exists|a: int, b: int| 0 <= a < prev.len() && 0 <= b < prev[a]@.len() && (#[trigger] prev[a]@[b]).equipment_id@ == id
}

/// Whether candidate `c` may be assigned after the slots in `prev`: not
/// busy in the order's window and not assigned already.
pub open spec fn equipment_available(c: EquipmentCandidate, busy: Seq<String>, prev: Seq<Vec<EquipmentPick>>) -> bool {
    !has_id(busy, c.id@) && !equipment_taken(prev, c.id@)
}

/// The first `k` available candidates, in the order offered.
pub open spec fn take_available(
    cands: Seq<EquipmentCandidate>,
    busy: Seq<String>,
    prev: Seq<Vec<EquipmentPick>>,
    k: int,
) -> Seq<EquipmentCandidate>
    decreases cands.len(),
{
    if cands.len() == 0 || k <= 0 {
        Seq::empty()
    } else if equipment_available(cands[0], busy, prev) {
        seq![cands[0]] + take_available(cands.drop_first(), busy, prev, k - 1)
    } else {
        take_available(cands.drop_first(), busy, prev, k)
    }
}

/// Whether a slot needs a driver (not unless it says so).
pub open spec fn needs_driver(s: EquipmentSlot) -> bool {
    s.requires_driver == Some(true)
}

/// An assigned piece of equipment as plain values: slot, equipment
/// identifier and code, driver.
pub open spec fn equipment_pick_view(p: EquipmentPick) -> (Seq<char>, Seq<char>, Seq<char>, Option<Seq<char>>) {
    (p.slot_code@, p.equipment_id@, p.equipment_code@, opt_chars(p.driver_user_id))
}

/// What assigning candidate `c` to slot `s` with driver `driver` records.
pub open spec fn assigned_view(s: EquipmentSlot, driver: Option<Seq<char>>, c: EquipmentCandidate) -> (
    Seq<char>,
    Seq<char>,
    Seq<char>,
    Option<Seq<char>>,
) {
    (text_of(s.slot_code), c.id@, c.code@, if needs_driver(s) { driver } else { None })
}

/// `block` is what slot `s` gets after the slots in `prev`: the first
/// available candidates offered for it, as many as it needs.
pub open spec fn equipment_slot_filled(
    s: EquipmentSlot,
    cands: Seq<EquipmentCandidate>,
    busy: Seq<String>,
    driver: Option<Seq<char>>,
    prev: Seq<Vec<EquipmentPick>>,
    block: Seq<EquipmentPick>,
) -> bool {
    if !s.is_object {
        block.len() == 0
    } else {
        block.map_values(|p: EquipmentPick| equipment_pick_view(p)) == take_available(
            cands,
            busy,
            prev,
            count_of(s.required_count),
        ).map_values(|c: EquipmentCandidate| assigned_view(s, driver, c))
    }
}

/// A gap as plain values: slot, equipment type identifier and code,
/// required and assigned counts.
pub open spec fn equipment_gap_view(g: EquipmentGap) -> (Seq<char>, Option<Seq<char>>, Option<Seq<char>>, int, int) {
    (
        g.slot_code@,
        opt_chars(g.equipment_type_id),
        opt_chars(g.equipment_type_code),
        g.required_count as int,
        g.assigned_count as int,
    )
}

/// The gaps left by the equipment assigned to the first slots: one for
/// each object slot that got less than it needs.
pub open spec fn expected_equipment_gaps(slots: Seq<EquipmentSlot>, picks: Seq<Vec<EquipmentPick>>) -> Seq<
    (Seq<char>, Option<Seq<char>>, Option<Seq<char>>, int, int),
>
    decreases picks.len(),
{
    if picks.len() == 0 {
        Seq::empty()
    } else {
        let n = picks.len() - 1;
        let prev = expected_equipment_gaps(slots, picks.drop_last());
        let s = slots[n];
        if s.is_object && picks[n]@.len() < count_of(s.required_count) {
            prev.push(
                (
                    text_of(s.slot_code),
                    normalized_ref(opt_chars(s.equipment_type_id)),
                    normalized_ref(opt_chars(s.equipment_type_code)),
                    count_of(s.required_count),
                    picks[n]@.len() as int,
                ),
            )
        } else {
            prev
        }
    }
}

/// `plan` assigns equipment to `slots` slot by slot from the candidates
/// offered for each, and records a gap for each slot left short.
pub open spec fn equipment_planned(
    slots: Seq<EquipmentSlot>,
    cands: Seq<Vec<EquipmentCandidate>>,
    busy: Seq<String>,
    driver: Option<Seq<char>>,
    plan: EquipmentPlan,
) -> bool {
    &&& plan.picks@.len() == slots.len()
    &&& forall|j: int|
        0 <= j < slots.len() ==> equipment_slot_filled(
            slots[j],
            cands[j]@,
            busy,
            driver,
            plan.picks@.take(j),
            #[trigger] plan.picks@[j]@,
        )
    &&& plan.gaps@.map_values(|g: EquipmentGap| equipment_gap_view(g)) == expected_equipment_gaps(slots, plan.picks@)
}

/// The first crew member with an identifier, trimmed.
pub open spec fn first_member(m: Seq<CrewPick>) -> Option<Seq<char>>
    decreases m.len(),
{
    if m.len() == 0 {
        None
    } else if !is_blank(m[0].user_id@) {
        Some(trimmed(m[0].user_id@))
    } else {
        first_member(m.drop_first())
    }
}

/// Whether equipment `id` was assigned to one of the slots in `prev`.
fn taken_any(prev: &Vec<Vec<EquipmentPick>>, id: &str) -> (r: bool)
    ensures
        r == equipment_taken(prev@, id@),
{
    let mut a: usize = 0;
    while a < prev.len()
        invariant
            a <= prev@.len(),
            forall|x: int, y: int|
                0 <= x < a && 0 <= y < prev@[x]@.len() ==> (#[trigger] prev@[x]@[y]).equipment_id@ != id@,
        decreases prev@.len() - a,
    {
        let block = &prev[a];
        let mut b: usize = 0;
        while b < block.len()
            invariant
                a < prev@.len(),
                *block == prev@[a as int],
                b <= block@.len(),
                forall|y: int| 0 <= y < b ==> (#[trigger] block@[y]).equipment_id@ != id@,
            decreases block@.len() - b,
        {
            if text_eq(block[b].equipment_id.as_str(), id) {
                assert(prev@[a as int]@[b as int].equipment_id@ == id@);
                return true;
            }
            b = b + 1;
        }
        a = a + 1;
    }
    false
}

fn copy_text_opt(o: &Option<&str>) -> (r: Option<String>)
    ensures
        opt_chars(r) == match o {
            Some(x) => Some(x@),
            None => None,
        },
{
    match *o {
        Some(x) => Some(x.to_string()),
        None => None,
    }
}

/// A text field trimmed, none when blank.
fn normalized_field(o: &Option<String>) -> (r: Option<String>)
    ensures
        opt_chars(r) == normalized_ref(opt_chars(*o)),
{
    match o {
        Some(s) => {
            let t = trim(s.as_str());
            if t.unicode_len() == 0 {
                None
            } else {
                Some(t.to_string())
            }
        },
        None => None,
    }
}

fn slot_text(o: &Option<String>) -> (r: String)
    ensures
        r@ == text_of(*o),
{
    match o {
        Some(s) => trim(s.as_str()).to_string(),
        None => String::new(),
    }
}

fn slot_count(o: Option<i64>) -> (r: i64)
    ensures
        r == count_of(o),
        r >= 1,
{
    match o {
        Some(n) => if n < 1 {
            1
        } else {
            n
        },
        None => 1,
    }
}

proof fn lemma_take_available_step(
    cands: Seq<EquipmentCandidate>,
    busy: Seq<String>,
    prev: Seq<Vec<EquipmentPick>>,
    i: int,
    k: int,
)
    requires
        0 <= i < cands.len(),
        k > 0,
    ensures
        take_available(cands.skip(i), busy, prev, k) == if equipment_available(cands[i], busy, prev) {
            seq![cands[i]] + take_available(cands.skip(i + 1), busy, prev, k - 1)
        } else {
            take_available(cands.skip(i + 1), busy, prev, k)
        },
{
    assert(cands.skip(i).drop_first() =~= cands.skip(i + 1));
    assert(cands.skip(i)[0] == cands[i]);
}

impl DispatchService {
    /// The driver for equipment that needs one: the first crew member with
    /// an identifier, trimmed.
    pub fn crew_driver(members: &Vec<CrewPick>) -> (r: Option<String>)
        ensures
            opt_chars(r) == first_member(members@),
    {
        let mut i: usize = 0;
        assert(members@.skip(0) =~= members@);
        while i < members.len()
            invariant
                i <= members@.len(),
                first_member(members@) == first_member(members@.skip(i as int)),
            decreases members@.len() - i,
        {
            proof {
                assert(members@.skip(i as int).drop_first() =~= members@.skip(i + 1));
                assert(members@.skip(i as int)[0] == members@[i as int]);
            }
            let t = trim(members[i].user_id.as_str());
            if t.unicode_len() > 0 {
                return Some(t.to_string());
            }
            i = i + 1;
        }
        None
    }

    /// Fills one equipment slot after the slots in `prev`: the first
    /// available candidates offered, as many as the slot needs.
    fn fill_equipment_slot(
        s: &EquipmentSlot,
        cands: &Vec<EquipmentCandidate>,
        busy_equipment_ids: &Vec<String>,
        driver: &Option<&str>,
        prev: &Vec<Vec<EquipmentPick>>,
    ) -> (r: Vec<EquipmentPick>)
        ensures
            equipment_slot_filled(
                *s,
                cands@,
                busy_equipment_ids@,
                match driver {
                    Some(d) => Some(d@),
                    None => None,
                },
                prev@,
                r@,
            ),
    {
        let ghost dv = match driver {
            Some(d) => Some(d@),
            None => None,
        };
        let mut block: Vec<EquipmentPick> = Vec::new();
        if !s.is_object {
            return block;
        }
        let k = slot_count(s.required_count);
        let slot_code = slot_text(&s.slot_code);
        let with_driver = match s.requires_driver {
            Some(b) => b,
            None => false,
        };
        let ghost want = take_available(cands@, busy_equipment_ids@, prev@, k as int).map_values(
            |c: EquipmentCandidate| assigned_view(*s, dv, c),
        );
        let mut i: usize = 0;
        assert(cands@.skip(0) =~= cands@);
        while i < cands.len() && (block.len() as u64) < (k as u64)
            invariant
                i <= cands@.len(),
                block@.len() <= k,
                slot_code@ == text_of(s.slot_code),
                with_driver == needs_driver(*s),
                dv == match driver {
                    Some(d) => Some(d@),
                    None => None,
                },
                s.is_object,
                want == take_available(cands@, busy_equipment_ids@, prev@, k as int).map_values(
                    |c: EquipmentCandidate| assigned_view(*s, dv, c),
                ),
                want == block@.map_values(|p: EquipmentPick| equipment_pick_view(p)) + take_available(
                    cands@.skip(i as int),
                    busy_equipment_ids@,
                    prev@,
                    k - block@.len(),
                ).map_values(|c: EquipmentCandidate| assigned_view(*s, dv, c)),
            decreases cands@.len() - i,
        {
            let c = &cands[i];
            proof {
                lemma_take_available_step(cands@, busy_equipment_ids@, prev@, i as int, k - block@.len());
            }
            let ghost b0 = block@;
            if !list_has(busy_equipment_ids, c.id.as_str()) && !taken_any(prev, c.id.as_str()) {
                let p = EquipmentPick {
                    slot_code: slot_code.clone(),
                    equipment_id: c.id.clone(),
                    equipment_code: c.code.clone(),
                    driver_user_id: if with_driver {
                        copy_text_opt(driver)
                    } else {
                        None
                    },
                };
                assert(equipment_pick_view(p) == assigned_view(*s, dv, cands@[i as int]));
                block.push(p);
                proof {
                    let rest = take_available(cands@.skip(i + 1), busy_equipment_ids@, prev@, k - block@.len());
                    assert(block@.map_values(|p: EquipmentPick| equipment_pick_view(p)) =~= b0.map_values(
                        |p: EquipmentPick| equipment_pick_view(p),
                    ).push(assigned_view(*s, dv, cands@[i as int])));
                    assert((seq![cands@[i as int]] + rest).map_values(|c: EquipmentCandidate| assigned_view(*s, dv, c))
                        =~= seq![assigned_view(*s, dv, cands@[i as int])] + rest.map_values(
                        |c: EquipmentCandidate| assigned_view(*s, dv, c),
                    ));
                    assert(want =~= block@.map_values(|p: EquipmentPick| equipment_pick_view(p)) + rest.map_values(
                        |c: EquipmentCandidate| assigned_view(*s, dv, c),
                    ));
                }
            }
            i = i + 1;
        }
        proof {
            let rest = take_available(cands@.skip(i as int), busy_equipment_ids@, prev@, k - block@.len());
            if block@.len() >= k {
                assert(rest.len() == 0);
            } else {
                assert(cands@.skip(i as int).len() == 0);
            }
            assert(rest.map_values(|c: EquipmentCandidate| assigned_view(*s, dv, c)) =~= Seq::empty());
            assert(want =~= block@.map_values(|p: EquipmentPick| equipment_pick_view(p)));
        }
        block
    }

    /// Assigns equipment to the equipment slots of an order, slot by slot:
    /// from the candidates offered for each slot (one list per slot, best
    /// first), the first that are neither busy in the order's window nor
    /// assigned already, as many as the slot needs; a slot that needs a
    /// driver gets the crew's first member. A slot left short is a gap.
    pub fn assign_equipment_for_publication(
        slots: &Vec<EquipmentSlot>,
        candidates: &Vec<Vec<EquipmentCandidate>>,
        busy_equipment_ids: &Vec<String>,
        crew: &Vec<CrewPick>,
    ) -> (r: EquipmentPlan)
        requires
            candidates@.len() == slots@.len(),
        ensures
            equipment_planned(slots@, candidates@, busy_equipment_ids@, first_member(crew@), r),
    {
        let driver_owned = Self::crew_driver(crew);
        let driver: Option<&str> = match &driver_owned {
            Some(d) => Some(d.as_str()),
            None => None,
        };
        let mut picks: Vec<Vec<EquipmentPick>> = Vec::new();
        let mut gaps: Vec<EquipmentGap> = Vec::new();
        let mut j: usize = 0;
        while j < slots.len()
            invariant
                j <= slots@.len(),
                candidates@.len() == slots@.len(),
                picks@.len() == j,
                match driver {
                    Some(d) => Some(d@),
                    None => None,
                } == first_member(crew@),
                forall|x: int|
                    0 <= x < j ==> equipment_slot_filled(
                        slots@[x],
                        candidates@[x]@,
                        busy_equipment_ids@,
                        first_member(crew@),
                        picks@.take(x),
                        #[trigger] picks@[x]@,
                    ),
                gaps@.map_values(|g: EquipmentGap| equipment_gap_view(g)) == expected_equipment_gaps(slots@, picks@),
            decreases slots@.len() - j,
        {
            let s = &slots[j];
            let block = Self::fill_equipment_slot(s, &candidates[j], busy_equipment_ids, &driver, &picks);
            let k = slot_count(s.required_count);
            let ghost old_picks = picks@;
            let ghost old_gaps = gaps@;
            if s.is_object && (block.len() as u64) < (k as u64) {
                let g = EquipmentGap {
                    slot_code: slot_text(&s.slot_code),
                    equipment_type_id: normalized_field(&s.equipment_type_id),
                    equipment_type_code: normalized_field(&s.equipment_type_code),
                    required_count: k,
                    assigned_count: block.len() as i64,
                };
                gaps.push(g);
            }
            picks.push(block);
            proof {
                assert(picks@.drop_last() =~= old_picks);
                assert(picks@.take(j as int) =~= old_picks);
                assert forall|x: int|
                    0 <= x < j + 1 implies equipment_slot_filled(
                    slots@[x],
                    candidates@[x]@,
                    busy_equipment_ids@,
                    first_member(crew@),
                    picks@.take(x),
                    #[trigger] picks@[x]@,
                ) by {
                    if x < j {
                        assert(picks@.take(x) =~= old_picks.take(x));
                    }
                }
                if gaps@.len() > old_gaps.len() {
                    assert(gaps@.map_values(|g: EquipmentGap| equipment_gap_view(g)) =~= old_gaps.map_values(
                        |g: EquipmentGap| equipment_gap_view(g),
                    ).push(equipment_gap_view(gaps@.last())));
                }
            }
            j = j + 1;
        }
        EquipmentPlan { picks, gaps }
    }
}

proof fn lemma_take_available_props(
    cands: Seq<EquipmentCandidate>,
    busy: Seq<String>,
    prev: Seq<Vec<EquipmentPick>>,
    k: int,
)
    ensures
        forall|i: int|
            0 <= i < take_available(cands, busy, prev, k).len() ==> equipment_available(
                #[trigger] take_available(cands, busy, prev, k)[i],
                busy,
                prev,
            ) && exists|x: int| 0 <= x < cands.len() && cands[x] == take_available(cands, busy, prev, k)[i],
        (forall|a: int, b: int| 0 <= a < b < cands.len() ==> (#[trigger] cands[a]).id@ != (#[trigger] cands[b]).id@)
            ==> forall|a: int, b: int|
            0 <= a < b < take_available(cands, busy, prev, k).len() ==> (#[trigger] take_available(
                cands,
                busy,
                prev,
                k,
            )[a]).id@ != (#[trigger] take_available(cands, busy, prev, k)[b]).id@,
    decreases cands.len(),
{
    if cands.len() == 0 || k <= 0 {
    } else {
        let rest_c = cands.drop_first();
        let k2 = if equipment_available(cands[0], busy, prev) { k - 1 } else { k };
        lemma_take_available_props(rest_c, busy, prev, k2);
        let rest = take_available(rest_c, busy, prev, k2);
        let t = take_available(cands, busy, prev, k);
        assert forall|i: int| 0 <= i < t.len() implies equipment_available(#[trigger] t[i], busy, prev) && exists|x: int|
            0 <= x < cands.len() && cands[x] == t[i] by {
            if equipment_available(cands[0], busy, prev) {
                if i == 0 {
                    assert(cands[0] == t[0]);
                } else {
                    assert(t[i] == rest[i - 1]);
                    let x = choose|x: int| 0 <= x < rest_c.len() && rest_c[x] == rest[i - 1];
                    assert(cands[x + 1] == t[i]);
                }
            } else {
                let x = choose|x: int| 0 <= x < rest_c.len() && rest_c[x] == rest[i];
                assert(cands[x + 1] == t[i]);
            }
        }
        if forall|a: int, b: int| 0 <= a < b < cands.len() ==> (#[trigger] cands[a]).id@ != (#[trigger] cands[b]).id@ {
            assert forall|a: int, b: int| 0 <= a < b < rest_c.len() implies (#[trigger] rest_c[a]).id@ != (
            #[trigger] rest_c[b]).id@ by {
                assert(rest_c[a] == cands[a + 1] && rest_c[b] == cands[b + 1]);
            }
            assert forall|a: int, b: int| 0 <= a < b < t.len() implies (#[trigger] t[a]).id@ != (#[trigger] t[b]).id@ by {
                if equipment_available(cands[0], busy, prev) {
                    if a == 0 {
                        assert(t[b] == rest[b - 1]);
                        let x = choose|x: int| 0 <= x < rest_c.len() && rest_c[x] == rest[b - 1];
                        assert(cands[x + 1] == t[b]);
                        assert(cands[0].id@ != cands[x + 1].id@);
                    } else {
                        assert(t[a] == rest[a - 1] && t[b] == rest[b - 1]);
                    }
                }
            }
        }
    }
}

/// Within one assignment no piece of equipment is given to two places, and
/// none that is busy in the order's window is given at all, provided each
/// slot's candidate list offers a piece once.
pub proof fn law_equipment_never_double_books(
    slots: Seq<EquipmentSlot>,
    cands: Seq<Vec<EquipmentCandidate>>,
    busy: Seq<String>,
    driver: Option<Seq<char>>,
    plan: EquipmentPlan,
)
    requires
        equipment_planned(slots, cands, busy, driver, plan),
        cands.len() == slots.len(),
        forall|j: int, a: int, b: int|
            0 <= j < cands.len() && 0 <= a < b < cands[j]@.len() ==> (#[trigger] cands[j]@[a]).id@ != (
            #[trigger] cands[j]@[b]).id@,
    ensures
        forall|a: int, b: int, c: int, d: int|
            0 <= a < plan.picks@.len() && 0 <= b < plan.picks@[a]@.len() && 0 <= c < plan.picks@.len() && 0 <= d
                < plan.picks@[c]@.len() && (a, b) != (c, d) ==> (#[trigger] plan.picks@[a]@[b]).equipment_id@
                != (#[trigger] plan.picks@[c]@[d]).equipment_id@,
        forall|a: int, b: int|
            0 <= a < plan.picks@.len() && 0 <= b < plan.picks@[a]@.len() ==> !has_id(
                busy,
                (#[trigger] plan.picks@[a]@[b]).equipment_id@,
            ),
{
    let p = plan.picks@;
    assert forall|a: int, b: int|
        0 <= a < p.len() && 0 <= b < p[a]@.len() implies !has_id(busy, (#[trigger] p[a]@[b]).equipment_id@)
        && !equipment_taken(p.take(a), p[a]@[b].equipment_id@) by {
        assert(equipment_slot_filled(slots[a], cands[a]@, busy, driver, p.take(a), p[a]@));
        if slots[a].is_object {
            let t = take_available(cands[a]@, busy, p.take(a), count_of(slots[a].required_count));
            lemma_take_available_props(cands[a]@, busy, p.take(a), count_of(slots[a].required_count));
            assert(p[a]@.map_values(|q: EquipmentPick| equipment_pick_view(q)) == t.map_values(
                |e: EquipmentCandidate| assigned_view(slots[a], driver, e),
            ));
            assert(p[a]@.map_values(|q: EquipmentPick| equipment_pick_view(q)).len() == p[a]@.len());
            assert(t.map_values(|e: EquipmentCandidate| assigned_view(slots[a], driver, e)).len() == t.len());
            assert(b < t.len());
            assert(p[a]@.map_values(|q: EquipmentPick| equipment_pick_view(q))[b] == equipment_pick_view(p[a]@[b]));
            assert(t.map_values(|c: EquipmentCandidate| assigned_view(slots[a], driver, c))[b] == assigned_view(
                slots[a],
                driver,
                t[b],
            ));
            assert(equipment_available(t[b], busy, p.take(a)));
        }
    }
    assert forall|a: int, b: int, c: int, d: int|
        0 <= a < p.len() && 0 <= b < p[a]@.len() && 0 <= c < p.len() && 0 <= d < p[c]@.len() && (a, b) != (c, d) implies (
    #[trigger] p[a]@[b]).equipment_id@ != (#[trigger] p[c]@[d]).equipment_id@ by {
        if a == c {
            assert(equipment_slot_filled(slots[a], cands[a]@, busy, driver, p.take(a), p[a]@));
            if slots[a].is_object {
                let t = take_available(cands[a]@, busy, p.take(a), count_of(slots[a].required_count));
                lemma_take_available_props(cands[a]@, busy, p.take(a), count_of(slots[a].required_count));
                assert(forall|x: int, y: int|
                    0 <= x < y < cands[a]@.len() ==> (#[trigger] cands[a]@[x]).id@ != (#[trigger] cands[a]@[y]).id@);
                assert(p[a]@.map_values(|q: EquipmentPick| equipment_pick_view(q)) == t.map_values(
                    |e: EquipmentCandidate| assigned_view(slots[a], driver, e),
                ));
                assert(p[a]@.map_values(|q: EquipmentPick| equipment_pick_view(q)).len() == p[a]@.len());
                assert(t.map_values(|e: EquipmentCandidate| assigned_view(slots[a], driver, e)).len() == t.len());
                assert(p[a]@.map_values(|q: EquipmentPick| equipment_pick_view(q))[b] == equipment_pick_view(p[a]@[b]));
                assert(p[a]@.map_values(|q: EquipmentPick| equipment_pick_view(q))[d] == equipment_pick_view(p[a]@[d]));
                assert(t.map_values(|e: EquipmentCandidate| assigned_view(slots[a], driver, e))[b] == assigned_view(
                    slots[a],
                    driver,
                    t[b],
                ));
                assert(t.map_values(|e: EquipmentCandidate| assigned_view(slots[a], driver, e))[d] == assigned_view(
                    slots[a],
                    driver,
                    t[d],
                ));
            }
        } else if a < c {
            assert(!equipment_taken(p.take(c), p[c]@[d].equipment_id@));
            assert(p.take(c)[a]@[b] == p[a]@[b]);
        } else {
            assert(!equipment_taken(p.take(a), p[a]@[b].equipment_id@));
            assert(p.take(a)[c]@[d] == p[c]@[d]);
        }
    }
}

} // verus!
