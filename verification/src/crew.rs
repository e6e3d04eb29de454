//! Crew planning: which qualified people fill the crew slots of an order
//! when it is prepared for publication.

use vstd::prelude::*;
use crate::text::{trim, trimmed, is_blank, text_eq, normalized_ref};
use crate::idset::{seq_lt, sorted_ids, has_id, insert_sorted, list_has, lemma_lt_irreflexive, lemma_lt_asymmetric};
use crate::rules::{DispatchService, LevelCoverage, covered_levels, string_views};
use crate::publication::opt_chars;

verus! {

/// A qualification a person holds in the department.
pub struct Grant {
    pub user_id: String,
    pub qualification_code: String,
    pub level_code: String,
    pub source_team_id: Option<String>,
}

/// One crew slot of a requirement snapshot; a field that is missing or not
/// of its type is `None`.
pub struct CrewSlot {
    /// Whether the requirement is an object at all (anything else is skipped).
    pub is_object: bool,
    pub slot_code: Option<String>,
    pub qualification_code: Option<String>,
    pub min_level_code: Option<String>,
    pub required_count: Option<i64>,
    pub must_be_distinct: Option<bool>,
    pub exclusive_group: Option<String>,
    pub remarks: Option<String>,
}

/// A person picked for a crew slot, with the grant that qualifies them.
pub struct CrewPick {
    pub user_id: String,
    pub source_team_id: Option<String>,
    pub slot_code: String,
    pub qualification_code: String,
    pub qualification_level_code: String,
}

/// A crew slot that could not be filled.
pub struct CrewGap {
    pub slot_code: String,
    pub qualification_code: String,
    pub min_level_code: Option<String>,
    pub required_count: i64,
    pub assigned_count: i64,
}

/// The crew picked for an order.
pub struct CrewPlan {
    /// The people picked for each slot, in slot order (none for a slot that
    /// is not an object).
    pub picks: Vec<Vec<CrewPick>>,
    /// The slots that could not be filled, in slot order.
    pub gaps: Vec<CrewGap>,
    /// The team most of the crew comes from (only for a complete crew).
    pub dominant_team_id: Option<String>,
}

/// A text field trimmed; a missing one is empty.
pub open spec fn text_of(o: Option<String>) -> Seq<char> {
    match o {
        Some(s) => trimmed(s@),
        None => Seq::empty(),
    }
}

/// The minimum level of a slot: trimmed, and none when blank.
pub open spec fn min_level_of(o: Option<String>) -> Option<Seq<char>> {
    normalized_ref(opt_chars(o))
}

/// How many people a slot needs: at least one, one when unset.
pub open spec fn count_of(o: Option<i64>) -> int {
    match o {
        Some(n) => if n < 1 { 1 } else { n as int },
        None => 1,
    }
}

/// Whether a person at `level` meets the minimum level `min`: no minimum,
/// the same level, or a level that covers it.
pub open spec fn level_fits(index: Seq<LevelCoverage>, level: Seq<char>, min: Option<Seq<char>>) -> bool {
    match min {
        None => true,
        Some(m) => is_blank(m) || level == trimmed(m) || match covered_levels(index, level) {
            Some(c) => string_views(c).contains(trimmed(m)),
            None => false,
        },
    }
}

/// Whether grant `g` qualifies its holder for slot `s`.
pub open spec fn grant_fits(g: Grant, s: CrewSlot, index: Seq<LevelCoverage>) -> bool {
    g.qualification_code@ == text_of(s.qualification_code) && level_fits(
        index,
        g.level_code@,
        min_level_of(s.min_level_code),
    )
}

/// Whether `u` was picked for one of the slots in `prev`.
pub open spec fn picked_in(prev: Seq<Vec<CrewPick>>, u: Seq<char>) -> bool {
    exists|a: int, b: int| 0 <= a < prev.len() && 0 <= b < prev[a]@.len() && (#[trigger] prev[a]@[b]).user_id@ == u
}

/// Whether `u` can fill slot `s` after the slots in `prev`: not busy, not
/// picked already, and holding a grant that fits.
pub open spec fn crew_eligible(
    grants: Seq<Grant>,
    busy: Seq<String>,
    index: Seq<LevelCoverage>,
    s: CrewSlot,
    prev: Seq<Vec<CrewPick>>,
    u: Seq<char>,
) -> bool {
    &&& !has_id(busy, u)
    &&& !picked_in(prev, u)
    &&& exists|i: int| 0 <= i < grants.len() && (#[trigger] grants[i]).user_id@ == u && grant_fits(grants[i], s, index)
}

/// `i` is the first grant of `u` that fits slot `s`.
pub open spec fn first_fit(grants: Seq<Grant>, index: Seq<LevelCoverage>, s: CrewSlot, u: Seq<char>, i: int) -> bool {
    &&& 0 <= i < grants.len()
    &&& grants[i].user_id@ == u
    &&& grant_fits(grants[i], s, index)
    &&& forall|k: int| 0 <= k < i && (#[trigger] grants[k]).user_id@ == u ==> !grant_fits(grants[k], s, index)
}

/// `p` is person `u` picked for slot `s` on their first fitting grant.
pub open spec fn pick_of(grants: Seq<Grant>, index: Seq<LevelCoverage>, s: CrewSlot, p: CrewPick) -> bool {
    &&& p.slot_code@ == text_of(s.slot_code)
    &&& p.qualification_code@ == text_of(s.qualification_code)
    &&& exists|i: int|
        first_fit(grants, index, s, p.user_id@, i) && p.qualification_level_code@ == (#[trigger] grants[i]).level_code@
            && opt_chars(p.source_team_id) == opt_chars(grants[i].source_team_id)
}

/// `block` is what the planner picks for slot `s` after the slots in
/// `prev`: the eligible people with the smallest identifiers, as many as the
/// slot needs when there are enough, in increasing order.
pub open spec fn slot_filled(
    grants: Seq<Grant>,
    busy: Seq<String>,
    index: Seq<LevelCoverage>,
    s: CrewSlot,
    prev: Seq<Vec<CrewPick>>,
    block: Seq<CrewPick>,
) -> bool {
    if !s.is_object {
        block.len() == 0
    } else {
        &&& block.len() <= count_of(s.required_count)
        &&& forall|a: int, b: int|
            0 <= a < b < block.len() ==> seq_lt(#[trigger] block[a].user_id@, #[trigger] block[b].user_id@)
        &&& forall|a: int|
            0 <= a < block.len() ==> crew_eligible(grants, busy, index, s, prev, (#[trigger] block[a]).user_id@)
                && pick_of(grants, index, s, block[a])
        &&& forall|u: Seq<char>|
            #[trigger] crew_eligible(grants, busy, index, s, prev, u) && !(exists|a: int|
                0 <= a < block.len() && (#[trigger] block[a]).user_id@ == u) ==> block.len() == count_of(
                s.required_count,
            ) && seq_lt(block.last().user_id@, u)
    }
}

/// Whether `u` was picked for one of the slots in `prev`.
fn picked_any(prev: &Vec<Vec<CrewPick>>, u: &str) -> (r: bool)
    ensures
        r == picked_in(prev@, u@),
{
    let mut a: usize = 0;
    while a < prev.len()
        invariant
            a <= prev@.len(),
            forall|x: int, y: int| 0 <= x < a && 0 <= y < prev@[x]@.len() ==> (#[trigger] prev@[x]@[y]).user_id@ != u@,
        decreases prev@.len() - a,
    {
        let block = &prev[a];
        let mut b: usize = 0;
        while b < block.len()
            invariant
                a < prev@.len(),
                *block == prev@[a as int],
                b <= block@.len(),
                forall|y: int| 0 <= y < b ==> (#[trigger] block@[y]).user_id@ != u@,
            decreases block@.len() - b,
        {
            if text_eq(block[b].user_id.as_str(), u) {
                assert(prev@[a as int]@[b as int].user_id@ == u@);
                return true;
            }
            b = b + 1;
        }
        a = a + 1;
    }
    false
}

/// The trimmed text of a field, empty when missing.
fn text_field(o: &Option<String>) -> (r: &str)
    ensures
        r@ == text_of(*o),
{
    match o {
        Some(s) => trim(s.as_str()),
        None => {
            proof {
                reveal_strlit("");
            }
            ""
        },
    }
}

/// The minimum level of a slot, trimmed; none when blank.
fn min_level_field(o: &Option<String>) -> (r: Option<&str>)
    ensures
        match r {
            Some(m) => min_level_of(*o) == Some(m@),
            None => min_level_of(*o) is None,
        },
{
    match o {
        Some(s) => {
            let t = trim(s.as_str());
            if t.unicode_len() == 0 {
                None
            } else {
                Some(t)
            }
        },
        None => None,
    }
}

/// How many people a slot needs.
fn count_field(o: Option<i64>) -> (r: i64)
    ensures
        r == count_of(o),
        r >= 1,
{
    match o {
        Some(n) => if n < 1 {
            1
        } else {
            n
        },
        None => 1,
    }
}

/// Whether grant `g` qualifies its holder for the slot with qualification
/// `qc` and minimum level `min`.
fn fits(g: &Grant, s: &CrewSlot, level_index: &Vec<LevelCoverage>) -> (r: bool)
    ensures
        r == grant_fits(*g, *s, level_index@),
{
    let qc = text_field(&s.qualification_code);
    let min = min_level_field(&s.min_level_code);
    text_eq(g.qualification_code.as_str(), qc) && DispatchService::level_covers_requirement(
        level_index,
        g.level_code.as_str(),
        min,
    )
}

/// The index of the first grant of `u` that fits slot `s`, given that one
/// exists.
fn first_fitting_grant(grants: &Vec<Grant>, level_index: &Vec<LevelCoverage>, s: &CrewSlot, u: &str) -> (r: usize)
    requires
        exists|i: int| 0 <= i < grants@.len() && (#[trigger] grants@[i]).user_id@ == u@ && grant_fits(grants@[i], *s, level_index@),
    ensures
        first_fit(grants@, level_index@, *s, u@, r as int),
{
    let mut i: usize = 0;
    while i < grants.len()
        invariant
            i <= grants@.len(),
            forall|k: int| 0 <= k < i && (#[trigger] grants@[k]).user_id@ == u@ ==> !grant_fits(grants@[k], *s, level_index@),
            exists|j: int| i <= j < grants@.len() && (#[trigger] grants@[j]).user_id@ == u@ && grant_fits(grants@[j], *s, level_index@),
        decreases grants@.len() - i,
    {
        if text_eq(grants[i].user_id.as_str(), u) && fits(&grants[i], s, level_index) {
            return i;
        }
        i = i + 1;
    }
    i
}

impl DispatchService {
    /// Fills one crew slot after the slots in `prev`: the eligible people
    /// with the smallest identifiers, as many as the slot needs.
    fn fill_crew_slot(
        grants: &Vec<Grant>,
        busy_user_ids: &Vec<String>,
        level_index: &Vec<LevelCoverage>,
        s: &CrewSlot,
        prev: &Vec<Vec<CrewPick>>,
    ) -> (r: Vec<CrewPick>)
        ensures
            slot_filled(grants@, busy_user_ids@, level_index@, *s, prev@, r@),
    {
        let mut block: Vec<CrewPick> = Vec::new();
        if !s.is_object {
            return block;
        }
        let mut cands: Vec<String> = Vec::new();
        let mut i: usize = 0;
        while i < grants.len()
            invariant
                i <= grants@.len(),
                sorted_ids(cands@),
                forall|y: Seq<char>|
                    #![trigger has_id(cands@, y)]
                    has_id(cands@, y) <==> (!has_id(busy_user_ids@, y) && !picked_in(prev@, y) && exists|k: int|
                        0 <= k < i && (#[trigger] grants@[k]).user_id@ == y && grant_fits(grants@[k], *s, level_index@)),
            decreases grants@.len() - i,
        {
            let g = &grants[i];
            if fits(g, s, level_index) && !list_has(busy_user_ids, g.user_id.as_str()) && !picked_any(
                prev,
                g.user_id.as_str(),
            ) {
                insert_sorted(&mut cands, g.user_id.clone());
            }
            proof {
                assert forall|y: Seq<char>|
                    #![trigger has_id(cands@, y)]
                    has_id(cands@, y) <==> (!has_id(busy_user_ids@, y) && !picked_in(prev@, y) && exists|k: int|
                        0 <= k < i + 1 && (#[trigger] grants@[k]).user_id@ == y && grant_fits(
                            grants@[k],
                            *s,
                            level_index@,
                        )) by {
                    if exists|k: int|
                        0 <= k < i + 1 && (#[trigger] grants@[k]).user_id@ == y && grant_fits(
                            grants@[k],
                            *s,
                            level_index@,
                        ) {
                        let k = choose|k: int|
                            0 <= k < i + 1 && (#[trigger] grants@[k]).user_id@ == y && grant_fits(
                                grants@[k],
                                *s,
                                level_index@,
                            );
                        if k < i {
                        }
                    }
                }
            }
            i = i + 1;
        }
        let k = count_field(s.required_count);
        let m: usize = if (cands.len() as u64) < (k as u64) {
            cands.len()
        } else {
            k as usize
        };
        let slot_code = text_field(&s.slot_code);
        let qc = text_field(&s.qualification_code);
        let mut t: usize = 0;
        while t < m
            invariant
                m <= cands@.len(),
                m <= count_of(s.required_count),
                t <= m,
                sorted_ids(cands@),
                slot_code@ == text_of(s.slot_code),
                qc@ == text_of(s.qualification_code),
                block@.len() == t,
                forall|a: int| 0 <= a < t ==> (#[trigger] block@[a]).user_id@ == cands@[a]@,
                forall|a: int| 0 <= a < t ==> pick_of(grants@, level_index@, *s, #[trigger] block@[a]),
                forall|y: Seq<char>|
                    #![trigger has_id(cands@, y)]
                    has_id(cands@, y) <==> (!has_id(busy_user_ids@, y) && !picked_in(prev@, y) && exists|k: int|
                        0 <= k < grants@.len() && (#[trigger] grants@[k]).user_id@ == y && grant_fits(
                            grants@[k],
                            *s,
                            level_index@,
                        )),
            decreases m - t,
        {
            let u = cands[t].as_str();
            assert(has_id(cands@, cands@[t as int]@));
            let gi = first_fitting_grant(grants, level_index, s, u);
            let g = &grants[gi];
            let p = CrewPick {
                user_id: cands[t].clone(),
                source_team_id: match &g.source_team_id {
                    Some(x) => Some(x.clone()),
                    None => None,
                },
                slot_code: slot_code.to_string(),
                qualification_code: qc.to_string(),
                qualification_level_code: g.level_code.clone(),
            };
            assert(pick_of(grants@, level_index@, *s, p));
            block.push(p);
            t = t + 1;
        }
        proof {
            assert forall|a: int, b: int| 0 <= a < b < block@.len() implies seq_lt(
                #[trigger] block@[a].user_id@,
                #[trigger] block@[b].user_id@,
            ) by {
                assert(seq_lt(cands@[a]@, cands@[b]@));
            }
            assert forall|a: int| 0 <= a < block@.len() implies crew_eligible(
                grants@,
                busy_user_ids@,
                level_index@,
                *s,
                prev@,
                (#[trigger] block@[a]).user_id@,
            ) && pick_of(grants@, level_index@, *s, block@[a]) by {
                assert(has_id(cands@, cands@[a]@));
            }
            assert forall|u: Seq<char>|
                #[trigger] crew_eligible(grants@, busy_user_ids@, level_index@, *s, prev@, u) && !(exists|a: int|
                    0 <= a < block@.len() && (#[trigger] block@[a]).user_id@ == u) implies block@.len() == count_of(
                s.required_count,
            ) && seq_lt(block@.last().user_id@, u) by {
                assert(has_id(cands@, u));
                let p = choose|p: int| 0 <= p < cands@.len() && #[trigger] cands@[p]@ == u;
                if p < m {
                    assert(block@[p].user_id@ == u);
                } else {
                    assert(seq_lt(cands@[m - 1]@, cands@[p]@));
                }
            }
        }
        block
    }
}

/// A gap as plain values: slot, qualification, minimum level, required and
/// assigned counts.
pub open spec fn gap_view(g: CrewGap) -> (Seq<char>, Seq<char>, Option<Seq<char>>, int, int) {
    (g.slot_code@, g.qualification_code@, opt_chars(g.min_level_code), g.required_count as int, g.assigned_count as int)
}

/// The gaps left by the picks made for the first slots: one for each object
/// slot that got fewer people than it needs.
pub open spec fn expected_gaps(slots: Seq<CrewSlot>, picks: Seq<Vec<CrewPick>>) -> Seq<
    (Seq<char>, Seq<char>, Option<Seq<char>>, int, int),
>
    decreases picks.len(),
{
    if picks.len() == 0 {
        Seq::empty()
    } else {
        let n = picks.len() - 1;
        let prev = expected_gaps(slots, picks.drop_last());
        let s = slots[n];
        if s.is_object && picks[n]@.len() < count_of(s.required_count) {
            prev.push(
                (
                    text_of(s.slot_code),
                    text_of(s.qualification_code),
                    min_level_of(s.min_level_code),
                    count_of(s.required_count),
                    picks[n]@.len() as int,
                ),
            )
        } else {
            prev
        }
    }
}

/// The source teams of a slot's picks, in order (picks without one skipped).
pub open spec fn block_teams(b: Seq<CrewPick>) -> Seq<Seq<char>>
    decreases b.len(),
{
    if b.len() == 0 {
        Seq::empty()
    } else {
        let t = block_teams(b.drop_last());
        match b.last().source_team_id {
            Some(x) => t.push(x@),
            None => t,
        }
    }
}

/// The source teams of all picks, slot by slot.
pub open spec fn pick_teams(p: Seq<Vec<CrewPick>>) -> Seq<Seq<char>>
    decreases p.len(),
{
    if p.len() == 0 {
        Seq::empty()
    } else {
        pick_teams(p.drop_last()) + block_teams(p.last()@)
    }
}

/// How often `t` occurs in `ts`.
pub open spec fn occurrences(ts: Seq<Seq<char>>, t: Seq<char>) -> nat
    decreases ts.len(),
{
    if ts.len() == 0 {
        0
    } else {
        occurrences(ts.drop_last(), t) + if ts.last() == t {
            1nat
        } else {
            0nat
        }
    }
}

/// `t` is the team that occurs most often in `ts`; among teams that occur
/// equally often, the one with the greatest identifier.
pub open spec fn is_dominant(ts: Seq<Seq<char>>, t: Seq<char>) -> bool {
    &&& ts.contains(t)
    &&& forall|k: int|
        0 <= k < ts.len() ==> occurrences(ts, #[trigger] ts[k]) < occurrences(ts, t) || (occurrences(ts, ts[k])
            == occurrences(ts, t) && (ts[k] == t || seq_lt(ts[k], t)))
}

/// `plan` is the crew for `slots`: each slot filled in turn, a gap for each
/// slot left short, and, when no slot is short, the team most of the crew
/// comes from.
pub open spec fn crew_planned(
    grants: Seq<Grant>,
    busy: Seq<String>,
    index: Seq<LevelCoverage>,
    slots: Seq<CrewSlot>,
    plan: CrewPlan,
) -> bool {
    &&& plan.picks@.len() == slots.len()
    &&& forall|j: int|
        0 <= j < slots.len() ==> slot_filled(grants, busy, index, slots[j], plan.picks@.take(j), #[trigger] plan.picks@[j]@)
    &&& plan.gaps@.map_values(|g: CrewGap| gap_view(g)) == expected_gaps(slots, plan.picks@)
    &&& if plan.gaps@.len() == 0 {
        match plan.dominant_team_id {
            Some(t) => is_dominant(pick_teams(plan.picks@), t@),
            None => pick_teams(plan.picks@).len() == 0,
        }
    } else {
        plan.dominant_team_id is None
    }
}

/// The string views of a list.
pub open spec fn team_views(v: Seq<String>) -> Seq<Seq<char>> {
    v.map_values(|x: String| x@)
}

/// The source teams of all picks, slot by slot.
fn team_list(picks: &Vec<Vec<CrewPick>>) -> (r: Vec<String>)
    ensures
        team_views(r@) == pick_teams(picks@),
{
    let mut r: Vec<String> = Vec::new();
    let mut a: usize = 0;
    while a < picks.len()
        invariant
            a <= picks@.len(),
            team_views(r@) == pick_teams(picks@.take(a as int)),
        decreases picks@.len() - a,
    {
        let block = &picks[a];
        let ghost before = r@;
        let mut b: usize = 0;
        while b < block.len()
            invariant
                a < picks@.len(),
                *block == picks@[a as int],
                b <= block@.len(),
                team_views(before) == pick_teams(picks@.take(a as int)),
                team_views(r@) == team_views(before) + block_teams(block@.take(b as int)),
            decreases block@.len() - b,
        {
            proof {
                assert(block@.take(b + 1).drop_last() =~= block@.take(b as int));
            }
            match &block[b].source_team_id {
                Some(x) => {
                    let ghost r0 = r@;
                    r.push(x.clone());
                    assert(block@.take(b + 1).last() == block@[b as int]);
                    assert(block_teams(block@.take(b + 1)) == block_teams(block@.take(b as int)).push(x@));
                    assert(team_views(r@) =~= team_views(r0).push(x@));
                    assert(team_views(r@) =~= team_views(before) + block_teams(block@.take(b + 1)));
                },
                None => {
                },
            }
            b = b + 1;
        }
        proof {
            assert(block@.take(block@.len() as int) =~= block@);
            assert(picks@.take(a + 1).drop_last() =~= picks@.take(a as int));
        }
        a = a + 1;
    }
    assert(picks@.take(picks@.len() as int) =~= picks@);
    r
}

/// How often `t` occurs in `ts`.
fn count_in(ts: &Vec<String>, t: &str) -> (r: usize)
    ensures
        r == occurrences(team_views(ts@), t@),
{
    let mut c: usize = 0;
    let mut i: usize = 0;
    while i < ts.len()
        invariant
            i <= ts@.len(),
            c == occurrences(team_views(ts@).take(i as int), t@),
            c <= i,
        decreases ts@.len() - i,
    {
        proof {
            assert(team_views(ts@).take(i + 1).drop_last() =~= team_views(ts@).take(i as int));
        }
        if text_eq(ts[i].as_str(), t) {
            c = c + 1;
        }
        i = i + 1;
    }
    assert(team_views(ts@).take(ts@.len() as int) =~= team_views(ts@));
    c
}

/// The team that occurs most often in `ts`, the greatest identifier among
/// equals; none for an empty list.
fn dominant_team(ts: &Vec<String>) -> (r: Option<String>)
    ensures
        match r {
            Some(t) => is_dominant(team_views(ts@), t@),
            None => ts@.len() == 0,
        },
{
    let ghost v = team_views(ts@);
    let mut best: Option<(usize, usize)> = None;
    let mut i: usize = 0;
    while i < ts.len()
        invariant
            i <= ts@.len(),
            v == team_views(ts@),
            v.len() == ts@.len(),
            best is None <==> i == 0,
            match best {
                Some((bi, bc)) => {
                    &&& bi < i
                    &&& bc == occurrences(v, v[bi as int])
                    &&& forall|k: int|
                        0 <= k < i ==> occurrences(v, #[trigger] v[k]) < bc || (occurrences(v, v[k]) == bc && (v[k]
                            == v[bi as int] || seq_lt(v[k], v[bi as int])))
                },
                None => true,
            },
        decreases ts@.len() - i,
    {
        let c = count_in(ts, ts[i].as_str());
        assert(v[i as int] == ts@[i as int]@);
        match best {
            None => {
                best = Some((i, c));
            },
            Some((bi, bc)) => {
                if c > bc || (c == bc && crate::idset::text_lt(ts[bi].as_str(), ts[i].as_str())) {
                    proof {
                        assert forall|k: int|
                            0 <= k < i + 1 implies occurrences(v, #[trigger] v[k]) < c || (occurrences(v, v[k]) == c
                            && (v[k] == v[i as int] || seq_lt(v[k], v[i as int]))) by {
                            if k < i && c == bc && occurrences(v, v[k]) == bc {
                                if v[k] == v[bi as int] {
                                } else {
                                    crate::idset::lemma_lt_transitive(v[k], v[bi as int], v[i as int]);
                                }
                            }
                        }
                    }
                    best = Some((i, c));
                } else {
                    proof {
                        if c == bc && v[i as int] != v[bi as int] {
                            crate::idset::lemma_lt_total(v[i as int], v[bi as int]);
                        }
                    }
                }
            },
        }
        i = i + 1;
    }
    match best {
        Some((bi, _)) => {
            assert(v[bi as int] == ts@[bi as int]@);
            Some(ts[bi].clone())
        },
        None => None,
    }
}

impl DispatchService {
    /// Picks the crew of an order from the grants of the people on duty:
    /// slot by slot, the qualified people who are neither busy in the
    /// order's window nor picked already, smallest identifiers first. A slot
    /// left short is a gap; a complete crew names the team most of it comes
    /// from. Without any grant there is nothing to plan.
    pub fn select_preparation_members(
        grants: &Vec<Grant>,
        busy_user_ids: &Vec<String>,
        level_index: &Vec<LevelCoverage>,
        slots: &Vec<CrewSlot>,
    ) -> (r: Option<CrewPlan>)
        ensures
            r is None <==> grants@.len() == 0,
            r matches Some(plan) ==> crew_planned(grants@, busy_user_ids@, level_index@, slots@, plan),
    {
        if grants.len() == 0 {
            return None;
        }
        let mut picks: Vec<Vec<CrewPick>> = Vec::new();
        let mut gaps: Vec<CrewGap> = Vec::new();
        let mut j: usize = 0;
        while j < slots.len()
            invariant
                j <= slots@.len(),
                picks@.len() == j,
                forall|x: int|
                    0 <= x < j ==> slot_filled(
                        grants@,
                        busy_user_ids@,
                        level_index@,
                        slots@[x],
                        picks@.take(x),
                        #[trigger] picks@[x]@,
                    ),
                gaps@.map_values(|g: CrewGap| gap_view(g)) == expected_gaps(slots@, picks@),
            decreases slots@.len() - j,
        {
            let s = &slots[j];
            let block = Self::fill_crew_slot(grants, busy_user_ids, level_index, s, &picks);
            let k = count_field(s.required_count);
            let ghost old_picks = picks@;
            let ghost old_gaps = gaps@;
            if s.is_object && (block.len() as u64) < (k as u64) {
                let min = match min_level_field(&s.min_level_code) {
                    Some(m) => Some(m.to_string()),
                    None => None,
                };
                let g = CrewGap {
                    slot_code: text_field(&s.slot_code).to_string(),
                    qualification_code: text_field(&s.qualification_code).to_string(),
                    min_level_code: min,
                    required_count: k,
                    assigned_count: block.len() as i64,
                };
                gaps.push(g);
            }
            picks.push(block);
            proof {
                assert(picks@.drop_last() =~= old_picks);
                assert(picks@.take(j as int) =~= old_picks);
                assert forall|x: int|
                    0 <= x < j + 1 implies slot_filled(
                    grants@,
                    busy_user_ids@,
                    level_index@,
                    slots@[x],
                    picks@.take(x),
                    #[trigger] picks@[x]@,
                ) by {
                    if x < j {
                        assert(picks@.take(x) =~= old_picks.take(x));
                    }
                }
                if gaps@.len() > old_gaps.len() {
                    assert(gaps@.map_values(|g: CrewGap| gap_view(g)) =~= old_gaps.map_values(|g: CrewGap| gap_view(g)).push(
                        gap_view(gaps@.last()),
                    ));
                }
            }
            j = j + 1;
        }
        let dominant_team_id = if gaps.len() == 0 {
            let teams = team_list(&picks);
            dominant_team(&teams)
        } else {
            None
        };
        Some(CrewPlan { picks, gaps, dominant_team_id })
    }
}

/// Nobody is picked for two places of a crew, and nobody busy in the
/// order's window is picked at all.
pub proof fn law_crew_never_double_books(
    grants: Seq<Grant>,
    busy: Seq<String>,
    index: Seq<LevelCoverage>,
    slots: Seq<CrewSlot>,
    plan: CrewPlan,
)
    requires
        crew_planned(grants, busy, index, slots, plan),
    ensures
        forall|a: int, b: int, c: int, d: int|
            0 <= a < plan.picks@.len() && 0 <= b < plan.picks@[a]@.len() && 0 <= c < plan.picks@.len() && 0 <= d
                < plan.picks@[c]@.len() && (a, b) != (c, d) ==> (#[trigger] plan.picks@[a]@[b]).user_id@
                != (#[trigger] plan.picks@[c]@[d]).user_id@,
        forall|a: int, b: int|
            0 <= a < plan.picks@.len() && 0 <= b < plan.picks@[a]@.len() ==> !has_id(
                busy,
                (#[trigger] plan.picks@[a]@[b]).user_id@,
            ),
{
    let p = plan.picks@;
    assert forall|a: int, b: int, c: int, d: int|
        0 <= a < p.len() && 0 <= b < p[a]@.len() && 0 <= c < p.len() && 0 <= d < p[c]@.len() && (a, b) != (c, d) implies (
    #[trigger] p[a]@[b]).user_id@ != (#[trigger] p[c]@[d]).user_id@ by {
        assert(slot_filled(grants, busy, index, slots[a], p.take(a), p[a]@));
        assert(slot_filled(grants, busy, index, slots[c], p.take(c), p[c]@));
        if a == c {
            if b < d {
                lemma_lt_irreflexive(p[a]@[b].user_id@);
            } else {
                lemma_lt_irreflexive(p[a]@[b].user_id@);
            }
        } else if a < c {
            if p[a]@[b].user_id@ == p[c]@[d].user_id@ {
                assert(p.take(c)[a]@[b] == p[a]@[b]);
                assert(picked_in(p.take(c), p[c]@[d].user_id@));
            }
        } else {
            if p[a]@[b].user_id@ == p[c]@[d].user_id@ {
                assert(p.take(a)[c]@[d] == p[c]@[d]);
                assert(picked_in(p.take(a), p[a]@[b].user_id@));
            }
        }
    }
    assert forall|a: int, b: int| 0 <= a < p.len() && 0 <= b < p[a]@.len() implies !has_id(
        busy,
        (#[trigger] p[a]@[b]).user_id@,
    ) by {
        assert(slot_filled(grants, busy, index, slots[a], p.take(a), p[a]@));
    }
}

/// A pick as plain values.
pub open spec fn pick_view(p: CrewPick) -> (Seq<char>, Option<Seq<char>>, Seq<char>, Seq<char>, Seq<char>) {
    (p.user_id@, opt_chars(p.source_team_id), p.slot_code@, p.qualification_code@, p.qualification_level_code@)
}

/// All picks, slot by slot.
pub open spec fn flat_picks(p: Seq<Vec<CrewPick>>) -> Seq<CrewPick>
    decreases p.len(),
{
    if p.len() == 0 {
        Seq::empty()
    } else {
        flat_picks(p.drop_last()) + p.last()@
    }
}

/// The source teams of a crew, trimmed, blank ones skipped.
pub open spec fn source_teams(m: Seq<CrewPick>) -> Seq<Seq<char>>
    decreases m.len(),
{
    if m.len() == 0 {
        Seq::empty()
    } else {
        let t = source_teams(m.drop_last());
        match m.last().source_team_id {
            Some(x) => if is_blank(x@) {
                t
            } else {
                t.push(trimmed(x@))
            },
            None => t,
        }
    }
}

/// Who a prepared order goes to once its crew is complete.
pub struct CrewAssignment {
    /// One person makes an individual assignment, more a team assignment.
    pub assignee_type: crate::model::AssigneeType,
    pub individual_user_id: Option<String>,
    pub team_id: Option<String>,
    /// The crew, slot by slot.
    pub members: Vec<CrewPick>,
    /// The crew's source teams, trimmed, blank ones skipped.
    pub source_team_ids: Vec<String>,
}

fn copy_pick(p: &CrewPick) -> (r: CrewPick)
    ensures
        pick_view(r) == pick_view(*p),
{
    CrewPick {
        user_id: p.user_id.clone(),
        source_team_id: match &p.source_team_id {
            Some(x) => Some(x.clone()),
            None => None,
        },
        slot_code: p.slot_code.clone(),
        qualification_code: p.qualification_code.clone(),
        qualification_level_code: p.qualification_level_code.clone(),
    }
}

impl DispatchService {
    /// The assignment a complete crew gives its order: the crew in slot
    /// order, an individual assignment to its only member or a team
    /// assignment to the dominant team, and its source teams. A crew with
    /// gaps gives none.
    pub fn prepared_crew_assignment(plan: &CrewPlan) -> (r: Option<CrewAssignment>)
        ensures
            r is None <==> plan.gaps@.len() > 0,
            r matches Some(a) ==> {
                let m = flat_picks(plan.picks@);
                &&& a.members@.map_values(|p: CrewPick| pick_view(p)) == m.map_values(|p: CrewPick| pick_view(p))
                &&& a.assignee_type == if m.len() == 1 {
                    crate::model::AssigneeType::Individual
                } else {
                    crate::model::AssigneeType::Team
                }
                &&& opt_chars(a.individual_user_id) == if m.len() == 1 {
                    Some(m[0].user_id@)
                } else {
                    None
                }
                &&& opt_chars(a.team_id) == opt_chars(plan.dominant_team_id)
                &&& team_views(a.source_team_ids@) == source_teams(m)
            },
    {
        if plan.gaps.len() > 0 {
            return None;
        }
        let mut members: Vec<CrewPick> = Vec::new();
        let mut teams: Vec<String> = Vec::new();
        let mut a: usize = 0;
        while a < plan.picks.len()
            invariant
                a <= plan.picks@.len(),
                members@.map_values(|p: CrewPick| pick_view(p)) == flat_picks(plan.picks@.take(a as int)).map_values(
                    |p: CrewPick| pick_view(p),
                ),
                team_views(teams@) == source_teams(members@),
            decreases plan.picks@.len() - a,
        {
            let block = &plan.picks[a];
            let ghost before = members@;
            let mut b: usize = 0;
            while b < block.len()
                invariant
                    a < plan.picks@.len(),
                    *block == plan.picks@[a as int],
                    b <= block@.len(),
                    members@.len() == before.len() + b,
                    before.map_values(|p: CrewPick| pick_view(p)) == flat_picks(plan.picks@.take(a as int)).map_values(
                        |p: CrewPick| pick_view(p),
                    ),
                    forall|k: int| 0 <= k < before.len() ==> pick_view(#[trigger] members@[k]) == pick_view(before[k]),
                    forall|k: int| 0 <= k < b ==> pick_view(#[trigger] members@[before.len() + k]) == pick_view(block@[k]),
                    team_views(teams@) == source_teams(members@),
                decreases block@.len() - b,
            {
                let p = copy_pick(&block[b]);
                let ghost m0 = members@;
                let ghost t0 = teams@;
                match &p.source_team_id {
                    Some(x) => {
                        let t = trim(x.as_str());
                        if t.unicode_len() > 0 {
                            teams.push(t.to_string());
                        }
                    },
                    None => {
                    },
                }
                members.push(p);
                proof {
                    assert(members@.drop_last() =~= m0);
                    assert(team_views(teams@) =~= source_teams(members@));
                }
                b = b + 1;
            }
            proof {
                assert(plan.picks@.take(a + 1).drop_last() =~= plan.picks@.take(a as int));
                assert(plan.picks@.take(a + 1).last() == plan.picks@[a as int]);
                let fa = flat_picks(plan.picks@.take(a as int));
                let fb = flat_picks(plan.picks@.take(a + 1));
                assert(fb == fa + block@);
                assert(fa.len() == before.len()) by {
                    assert(before.map_values(|p: CrewPick| pick_view(p)).len() == fa.map_values(|p: CrewPick| pick_view(p)).len());
                }
                assert forall|k: int| 0 <= k < members@.len() implies pick_view(#[trigger] members@[k]) == pick_view(fb[k]) by {
                    if k < before.len() {
                        assert(before.map_values(|p: CrewPick| pick_view(p))[k] == pick_view(before[k]));
                        assert(fa.map_values(|p: CrewPick| pick_view(p))[k] == pick_view(fa[k]));
                    } else {
                        assert(pick_view(members@[before.len() + (k - before.len())]) == pick_view(block@[k - before.len()]));
                    }
                }
                assert(members@.map_values(|p: CrewPick| pick_view(p)) =~= flat_picks(
                    plan.picks@.take(a + 1),
                ).map_values(|p: CrewPick| pick_view(p)));
            }
            a = a + 1;
        }
        assert(plan.picks@.take(plan.picks@.len() as int) =~= plan.picks@);
        let ghost m = flat_picks(plan.picks@);
        assert(members@.len() == m.len());
        let single = members.len() == 1;
        let assignee_type = if single {
            crate::model::AssigneeType::Individual
        } else {
            crate::model::AssigneeType::Team
        };
        let individual_user_id = if single {
            assert(members@.map_values(|p: CrewPick| pick_view(p))[0] == pick_view(members@[0]));
            assert(m.map_values(|p: CrewPick| pick_view(p))[0] == pick_view(m[0]));
            assert(pick_view(members@[0]) == pick_view(m[0]));
            Some(members[0].user_id.clone())
        } else {
            None
        };
        let team_id = match &plan.dominant_team_id {
            Some(t) => Some(t.clone()),
            None => None,
        };
        proof {
            assert(source_teams(members@) == source_teams(m)) by {
                lemma_source_teams_views(members@, m);
            }
        }
        Some(CrewAssignment { assignee_type, individual_user_id, team_id, members, source_team_ids: teams })
    }
}

proof fn lemma_source_teams_views(a: Seq<CrewPick>, b: Seq<CrewPick>)
    requires
        a.map_values(|p: CrewPick| pick_view(p)) == b.map_values(|p: CrewPick| pick_view(p)),
    ensures
        source_teams(a) == source_teams(b),
    decreases a.len(),
{
    assert(a.len() == b.map_values(|p: CrewPick| pick_view(p)).len());
    if a.len() > 0 {
        assert(a.drop_last().map_values(|p: CrewPick| pick_view(p)) =~= b.drop_last().map_values(|p: CrewPick| pick_view(p))) by {
            assert forall|k: int| 0 <= k < a.len() - 1 implies pick_view(a[k]) == pick_view(b[k]) by {
                assert(a.map_values(|p: CrewPick| pick_view(p))[k] == pick_view(a[k]));
                assert(b.map_values(|p: CrewPick| pick_view(p))[k] == pick_view(b[k]));
            }
        }
        lemma_source_teams_views(a.drop_last(), b.drop_last());
        assert(a.map_values(|p: CrewPick| pick_view(p))[a.len() - 1] == pick_view(a.last()));
        assert(b.map_values(|p: CrewPick| pick_view(p))[a.len() - 1] == pick_view(b.last()));
        assert(opt_chars(a.last().source_team_id) == opt_chars(b.last().source_team_id));
    }
}

} // verus!
