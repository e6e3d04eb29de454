//! Window crew planning: for each place of each crew slot, the person
//! the order already had there if they can still do it, else the qualified
//! person with the smallest identifier who is free in the order's window.

use vstd::prelude::*;
use crate::text::{trim, trimmed, is_blank, text_eq, decimal_nat, append_decimal_nat};
use crate::idset::{seq_lt, has_id, list_has, text_lt, lemma_lt_irreflexive, lemma_lt_transitive, lemma_lt_total};
use crate::rules::{DispatchService, LevelCoverage, UserBookings, booking_overlaps, users_overlap_window};
use crate::publication::opt_chars;
use crate::crew::{CrewSlot, text_of, min_level_of, count_of, level_fits};
use crate::model::DispatchOrder;
use crate::window::{frozen_books, meets};
use crate::rules::{window_interval, service_order_crew};

verus! {

/// A qualification a window candidate holds.
pub struct CandidateQualification {
    pub qualification_code: String,
    pub level_code: Option<String>,
    pub source_team_id: Option<String>,
}

/// A person on duty and available in the window, with their qualifications.
pub struct WindowCandidate {
    pub user_id: String,
    /// The team of the person's active membership.
    pub source_team_id: Option<String>,
    pub qualifications: Vec<CandidateQualification>,
}

/// The people an order already had in a slot, by slot code.
pub struct BaselineSlot {
    pub slot_code: String,
    pub user_ids: Vec<String>,
}

/// A person placed in one place of a crew slot.
pub struct WindowPick {
    pub user_id: String,
    pub source_team_id: Option<String>,
    /// The slot's code, numbered (`code#n`) when the slot has several places.
    pub slot_code: String,
    pub qualification_code: String,
    pub qualification_level_code: Option<String>,
}

/// The code of a slot: trimmed, `slot` when blank or missing.
pub open spec fn base_code(o: Option<String>) -> Seq<char> {
    if text_of(o).len() == 0 {
        "slot"@
    } else {
        text_of(o)
    }
}

/// The code of place `idx` of slot `s`: the slot's code, numbered from one
/// when the slot has several places.
pub open spec fn place_code(s: CrewSlot, idx: int) -> Seq<char> {
    if count_of(s.required_count) == 1 {
        base_code(s.slot_code)
    } else {
        base_code(s.slot_code) + "#"@ + decimal_nat((idx + 1) as nat)
    }
}

/// Whether qualification `q` fits slot `s`: the same code, and a level that
/// meets the minimum (no level meets only no minimum).
pub open spec fn qual_fits(q: CandidateQualification, s: CrewSlot, index: Seq<LevelCoverage>) -> bool {
    q.qualification_code@ == text_of(s.qualification_code) && match q.level_code {
        Some(l) => level_fits(index, l@, min_level_of(s.min_level_code)),
        None => min_level_of(s.min_level_code) is None,
    }
}

/// `i` is the first qualification in `qs` that fits slot `s`.
pub open spec fn first_qual_fit(qs: Seq<CandidateQualification>, s: CrewSlot, index: Seq<LevelCoverage>, i: int) -> bool {
    &&& 0 <= i < qs.len()
    &&& qual_fits(qs[i], s, index)
    &&& forall|k: int| 0 <= k < i ==> !qual_fits(#[trigger] qs[k], s, index)
}

/// Whether person `c` can take a place of slot `s` after the picks `prev`:
/// not picked already, free in `[start, end)`, and qualified.
pub open spec fn window_eligible(
    c: WindowCandidate,
    s: CrewSlot,
    index: Seq<LevelCoverage>,
    bookings: Seq<UserBookings>,
    start: i64,
    end: i64,
    prev: Seq<WindowPick>,
) -> bool {
    &&& !(exists|m: int| 0 <= m < prev.len() && (#[trigger] prev[m]).user_id@ == c.user_id@)
    &&& !booking_overlaps(bookings, c.user_id@, start, end)
    &&& exists|q: int| 0 <= q < c.qualifications@.len() && qual_fits(#[trigger] c.qualifications@[q], s, index)
}

/// The person the order had in place `idx` of the slot with code `code`:
/// by the first baseline entry for that code.
pub open spec fn baseline_user(baseline: Seq<BaselineSlot>, code: Seq<char>, idx: int) -> Option<Seq<char>>
    decreases baseline.len(),
{
    if baseline.len() == 0 {
        None
    } else if baseline[0].slot_code@ == code {
        if 0 <= idx < baseline[0].user_ids@.len() {
            Some(baseline[0].user_ids@[idx]@)
        } else {
            None
        }
    } else {
        baseline_user(baseline.drop_first(), code, idx)
    }
}

/// The order of preference: the baseline person first, then by identifier.
pub open spec fn prefers(a: Seq<char>, b: Seq<char>, bu: Option<Seq<char>>) -> bool {
    let ab = bu == Some(a);
    let bb = bu == Some(b);
    (ab && !bb) || (ab == bb && seq_lt(a, b))
}

/// `c` is the candidate chosen for a place whose baseline person is `bu`:
/// eligible, and preferred to every other eligible candidate (the first
/// of those with its identifier).
pub open spec fn window_choice(
    cands: Seq<WindowCandidate>,
    s: CrewSlot,
    index: Seq<LevelCoverage>,
    bookings: Seq<UserBookings>,
    start: i64,
    end: i64,
    prev: Seq<WindowPick>,
    bu: Option<Seq<char>>,
    c: int,
) -> bool {
    &&& 0 <= c < cands.len()
    &&& window_eligible(cands[c], s, index, bookings, start, end, prev)
    &&& forall|x: int|
        0 <= x < cands.len() && x != c && window_eligible(#[trigger] cands[x], s, index, bookings, start, end, prev)
            ==> prefers(cands[c].user_id@, cands[x].user_id@, bu) || (x > c && cands[x].user_id@ == cands[c].user_id@)
}

/// `p` places candidate `c` in place `idx` of slot `s`, on the first of its
/// qualifications that fits (its team, else the person's team).
pub open spec fn window_pick_of(c: WindowCandidate, s: CrewSlot, index: Seq<LevelCoverage>, idx: int, p: WindowPick) -> bool {
    &&& p.user_id@ == c.user_id@
    &&& p.slot_code@ == place_code(s, idx)
    &&& p.qualification_code@ == text_of(s.qualification_code)
    &&& exists|q: int|
        first_qual_fit(c.qualifications@, s, index, q) && opt_chars(p.qualification_level_code) == opt_chars(
            (#[trigger] c.qualifications@[q]).level_code,
        ) && opt_chars(p.source_team_id) == match c.qualifications@[q].source_team_id {
            Some(t) => Some(t@),
            None => opt_chars(c.source_team_id),
        }
}

/// The places to fill: for each object slot `j`, its places `(j, 0)`,
/// `(j, 1)`, ..., in slot order.
pub open spec fn window_places(slots: Seq<CrewSlot>) -> Seq<(int, int)>
    decreases slots.len(),
{
    if slots.len() == 0 {
        Seq::empty()
    } else {
        let j = slots.len() - 1;
        let prev = window_places(slots.drop_last());
        if slots[j].is_object {
            prev + Seq::new(count_of(slots[j].required_count) as nat, |x: int| (j, x))
        } else {
            prev
        }
    }
}

/// The pick for place `pl` after the picks `prev` is `p`.
pub open spec fn window_place_filled(
    cands: Seq<WindowCandidate>,
    slots: Seq<CrewSlot>,
    baseline: Seq<BaselineSlot>,
    index: Seq<LevelCoverage>,
    bookings: Seq<UserBookings>,
    start: i64,
    end: i64,
    pl: (int, int),
    prev: Seq<WindowPick>,
    p: WindowPick,
) -> bool {
    let s = slots[pl.0];
    exists|c: int|
        window_choice(cands, s, index, bookings, start, end, prev, baseline_user(baseline, base_code(s.slot_code), pl.1), c)
            && window_pick_of(#[trigger] cands[c], s, index, pl.1, p)
}

/// No candidate can take place `pl` after the picks `prev`.
pub open spec fn window_place_open(
    cands: Seq<WindowCandidate>,
    slots: Seq<CrewSlot>,
    index: Seq<LevelCoverage>,
    bookings: Seq<UserBookings>,
    start: i64,
    end: i64,
    pl: (int, int),
    prev: Seq<WindowPick>,
) -> bool {
    forall|c: int| 0 <= c < cands.len() ==> !window_eligible(#[trigger] cands[c], slots[pl.0], index, bookings, start, end, prev)
}

/// The picks `picks` fill the first `picks.len()` places in turn.
pub open spec fn window_picks_valid(
    cands: Seq<WindowCandidate>,
    slots: Seq<CrewSlot>,
    baseline: Seq<BaselineSlot>,
    index: Seq<LevelCoverage>,
    bookings: Seq<UserBookings>,
    start: i64,
    end: i64,
    picks: Seq<WindowPick>,
) -> bool {
    &&& picks.len() <= window_places(slots).len()
    &&& forall|n: int|
        0 <= n < picks.len() ==> window_place_filled(
            cands,
            slots,
            baseline,
            index,
            bookings,
            start,
            end,
            window_places(slots)[n],
            picks.take(n),
            #[trigger] picks[n],
        )
}

/// The person for the place of slot `s` after `prev`, if any can take it.
fn choose_window_candidate(
    cands: &Vec<WindowCandidate>,
    s: &CrewSlot,
    level_index: &Vec<LevelCoverage>,
    bookings: &Vec<UserBookings>,
    start: i64,
    end: i64,
    taken: &Vec<String>,
    bu: Option<&str>,
    Ghost(prev): Ghost<Seq<WindowPick>>,
) -> (r: Option<(usize, usize)>)
    requires
        forall|u: Seq<char>|
            #![trigger has_id(taken@, u)]
            has_id(taken@, u) <==> exists|m: int| 0 <= m < prev.len() && (#[trigger] prev[m]).user_id@ == u,
    ensures
        match r {
            Some((c, q)) => window_choice(
                cands@,
                *s,
                level_index@,
                bookings@,
                start,
                end,
                prev,
                match bu {
                    Some(b) => Some(b@),
                    None => None,
                },
                c as int,
            ) && first_qual_fit(cands@[c as int].qualifications@, *s, level_index@, q as int),
            None => forall|c: int|
                0 <= c < cands@.len() ==> !window_eligible(
                    #[trigger] cands@[c],
                    *s,
                    level_index@,
                    bookings@,
                    start,
                    end,
                    prev,
                ),
        },
{
    let ghost bv = match bu {
        Some(b) => Some(b@),
        None => None,
    };
    let mut best: Option<(usize, usize)> = None;
    let mut x: usize = 0;
    while x < cands.len()
        invariant
            x <= cands@.len(),
            bv == match bu {
                Some(b) => Some(b@),
                None => None,
            },
            forall|u: Seq<char>|
                #![trigger has_id(taken@, u)]
                has_id(taken@, u) <==> exists|m: int| 0 <= m < prev.len() && (#[trigger] prev[m]).user_id@ == u,
            match best {
                Some((c, q)) => {
                    &&& c < x
                    &&& window_eligible(cands@[c as int], *s, level_index@, bookings@, start, end, prev)
                    &&& first_qual_fit(cands@[c as int].qualifications@, *s, level_index@, q as int)
                    &&& forall|y: int|
                        0 <= y < x && y != c && window_eligible(
                            #[trigger] cands@[y],
                            *s,
                            level_index@,
                            bookings@,
                            start,
                            end,
                            prev,
                        ) ==> prefers(cands@[c as int].user_id@, cands@[y].user_id@, bv) || (y > c && cands@[y].user_id@
                            == cands@[c as int].user_id@)
                },
                None => forall|y: int|
                    0 <= y < x ==> !window_eligible(#[trigger] cands@[y], *s, level_index@, bookings@, start, end, prev),
            },
        decreases cands@.len() - x,
    {
        let c = &cands[x];
        let qf = first_fitting_qualification(&c.qualifications, s, level_index);
        let free = !list_has(taken, c.user_id.as_str()) && !users_overlap_window(bookings, c.user_id.as_str(), start, end);
        proof {
            if list_has_spec(taken@, c.user_id@) {
                assert(has_id(taken@, c.user_id@));
            }
            assert(window_eligible(cands@[x as int], *s, level_index@, bookings@, start, end, prev) <==> (free
                && qf is Some)) by {
                if exists|q: int| 0 <= q < c.qualifications@.len() && qual_fits(#[trigger] c.qualifications@[q], *s, level_index@) {
                    let q = choose|q: int| 0 <= q < c.qualifications@.len() && qual_fits(#[trigger] c.qualifications@[q], *s, level_index@);
                    assert(!qual_fits(c.qualifications@[q], *s, level_index@) || qf is Some);
                }
                if (exists|m: int| 0 <= m < prev.len() && (#[trigger] prev[m]).user_id@ == c.user_id@) {
                    assert(has_id(taken@, c.user_id@));
                }
            }
        }
        if free {
            match qf {
                Some(q) => {
                    let better = match best {
                        None => true,
                        Some((bc, _)) => window_prefers(c.user_id.as_str(), cands[bc].user_id.as_str(), bu),
                    };
                    if better {
                        proof {
                            assert forall|y: int|
                                0 <= y < x + 1 && y != x && window_eligible(
                                    #[trigger] cands@[y],
                                    *s,
                                    level_index@,
                                    bookings@,
                                    start,
                                    end,
                                    prev,
                                ) implies prefers(cands@[x as int].user_id@, cands@[y].user_id@, bv) || (y > x
                                && cands@[y].user_id@ == cands@[x as int].user_id@) by {
                                match best {
                                    Some((bc, _)) => {
                                        let a = cands@[x as int].user_id@;
                                        let b = cands@[bc as int].user_id@;
                                        let d = cands@[y].user_id@;
                                        if y != bc as int {
                                            if prefers(b, d, bv) {
                                                lemma_prefers_transitive(a, b, d, bv);
                                            } else {
                                                assert(d == b);
                                            }
                                        }
                                    },
                                    None => {
                                    },
                                }
                            }
                        }
                        best = Some((x, q));
                    } else {
                        proof {
                            match best {
                                Some((bc, _)) => {
                                    let a = cands@[x as int].user_id@;
                                    let b = cands@[bc as int].user_id@;
                                    lemma_prefers_total(a, b, bv);
                                },
                                None => {
                                },
                            }
                        }
                    }
                },
                None => {
                },
            }
        }
        x = x + 1;
    }
    best
}

/// Whether `a` is preferred to `b` for a place whose baseline person is `bu`.
fn window_prefers(a: &str, b: &str, bu: Option<&str>) -> (r: bool)
    ensures
        r == prefers(
            a@,
            b@,
            match bu {
                Some(x) => Some(x@),
                None => None,
            },
        ),
{
    let (ab, bb) = match bu {
        Some(u) => (text_eq(a, u), text_eq(b, u)),
        None => (false, false),
    };
    (ab && !bb) || (ab == bb && text_lt(a, b))
}

pub open spec fn list_has_spec(v: Seq<String>, x: Seq<char>) -> bool {
    has_id(v, x)
}

proof fn lemma_prefers_transitive(a: Seq<char>, b: Seq<char>, c: Seq<char>, bu: Option<Seq<char>>)
    requires
        prefers(a, b, bu),
        prefers(b, c, bu),
    ensures
        prefers(a, c, bu),
{
    let fa = bu == Some(a);
    let fb = bu == Some(b);
    let fc = bu == Some(c);
    if fa == fb && fb == fc {
        lemma_lt_transitive(a, b, c);
    }
}

proof fn lemma_prefers_total(a: Seq<char>, b: Seq<char>, bu: Option<Seq<char>>)
    requires
        !prefers(a, b, bu),
    ensures
        a == b || prefers(b, a, bu),
{
    if a != b && (bu == Some(a)) == (bu == Some(b)) {
        lemma_lt_total(a, b);
    }
}

/// The first qualification in `qs` that fits slot `s`, if any.
fn first_fitting_qualification(qs: &Vec<CandidateQualification>, s: &CrewSlot, level_index: &Vec<LevelCoverage>) -> (r:
    Option<usize>)
    ensures
        match r {
            Some(q) => first_qual_fit(qs@, *s, level_index@, q as int),
            None => forall|q: int| 0 <= q < qs@.len() ==> !qual_fits(#[trigger] qs@[q], *s, level_index@),
        },
{
    let qc = slot_text(&s.qualification_code);
    let min = min_level_ref(&s.min_level_code);
    let mut i: usize = 0;
    while i < qs.len()
        invariant
            i <= qs@.len(),
            qc@ == text_of(s.qualification_code),
            match min {
                Some(m) => min_level_of(s.min_level_code) == Some(m@),
                None => min_level_of(s.min_level_code) is None,
            },
            forall|k: int| 0 <= k < i ==> !qual_fits(#[trigger] qs@[k], *s, level_index@),
        decreases qs@.len() - i,
    {
        let q = &qs[i];
        let level_ok = match &q.level_code {
            Some(l) => DispatchService::level_covers_requirement(level_index, l.as_str(), min),
            None => min.is_none(),
        };
        if text_eq(q.qualification_code.as_str(), qc) && level_ok {
            return Some(i);
        }
        i = i + 1;
    }
    None
}

fn slot_text(o: &Option<String>) -> (r: &str)
    ensures
        r@ == text_of(*o),
{
    match o {
        Some(s) => trim(s.as_str()),
        None => {
            proof {
                reveal_strlit("");
            }
            ""
        },
    }
}

fn min_level_ref(o: &Option<String>) -> (r: Option<&str>)
    ensures
        match r {
            Some(m) => min_level_of(*o) == Some(m@),
            None => min_level_of(*o) is None,
        },
{
    match o {
        Some(s) => {
            let t = trim(s.as_str());
            if t.unicode_len() == 0 {
                None
            } else {
                Some(t)
            }
        },
        None => None,
    }
}

/// The person the order had in place `idx` of the slot with code `code`.
fn find_baseline_user<'a>(baseline: &'a Vec<BaselineSlot>, code: &str, idx: u64) -> (r: Option<&'a str>)
    ensures
        match r {
            Some(u) => baseline_user(baseline@, code@, idx as int) == Some(u@),
            None => baseline_user(baseline@, code@, idx as int) is None,
        },
{
    let mut i: usize = 0;
    assert(baseline@.skip(0) =~= baseline@);
    while i < baseline.len()
        invariant
            i <= baseline@.len(),
            baseline_user(baseline@, code@, idx as int) == baseline_user(baseline@.skip(i as int), code@, idx as int),
        decreases baseline@.len() - i,
    {
        proof {
            assert(baseline@.skip(i as int).drop_first() =~= baseline@.skip(i + 1));
            assert(baseline@.skip(i as int)[0] == baseline@[i as int]);
        }
        if text_eq(baseline[i].slot_code.as_str(), code) {
            let users = &baseline[i].user_ids;
            if idx < users.len() as u64 {
                return Some(users[idx as usize].as_str());
            } else {
                return None;
            }
        }
        i = i + 1;
    }
    None
}

/// The code of a slot, `slot` when blank or missing.
fn base_code_text(o: &Option<String>) -> (r: String)
    ensures
        r@ == base_code(*o),
{
    let t = slot_text(o);
    if t.unicode_len() == 0 {
        proof {
            reveal_strlit("slot");
        }
        "slot".to_string()
    } else {
        t.to_string()
    }
}

/// The code of place `idx` of a slot with `count` places.
fn place_code_text(s: &CrewSlot, idx: u64) -> (r: String)
    requires
        idx < count_of(s.required_count),
    ensures
        r@ == place_code(*s, idx as int),
{
    let mut code = base_code_text(&s.slot_code);
    let single = match s.required_count {
        Some(n) => n <= 1,
        None => true,
    };
    if !single {
        proof {
            reveal_strlit("#");
        }
        code.append("#");
        append_decimal_nat(&mut code, idx + 1);
    }
    code
}

impl DispatchService {
    /// Fills the crew slots of an order in the window `[start, end)`, place
    /// by place: the person the order had in that place if they can still
    /// take it, else the eligible person with the smallest identifier
    /// (eligible: not placed already, free in the window, qualified). A
    /// place nobody can take leaves the order unassigned (`None`), and so
    /// does a crew with no place at all.
    pub fn assign_window_crew(
        candidates: &Vec<WindowCandidate>,
        slots: &Vec<CrewSlot>,
        baseline: &Vec<BaselineSlot>,
        level_index: &Vec<LevelCoverage>,
        bookings: &Vec<UserBookings>,
        start: i64,
        end: i64,
    ) -> (r: Option<Vec<WindowPick>>)
        ensures
            match r {
                Some(picks) => picks@.len() == window_places(slots@).len() && picks@.len() > 0 && window_picks_valid(
                    candidates@,
                    slots@,
                    baseline@,
                    level_index@,
                    bookings@,
                    start,
                    end,
                    picks@,
                ),
                None => window_places(slots@).len() == 0 || exists|prev: Seq<WindowPick>|
                    prev.len() < window_places(slots@).len() && window_picks_valid(
                        candidates@,
                        slots@,
                        baseline@,
                        level_index@,
                        bookings@,
                        start,
                        end,
                        prev,
                    ) && window_place_open(
                        candidates@,
                        slots@,
                        level_index@,
                        bookings@,
                        start,
                        end,
                        window_places(slots@)[prev.len() as int],
                        prev,
                    ),
            },
    {
        let mut picks: Vec<WindowPick> = Vec::new();
        let mut taken: Vec<String> = Vec::new();
        let mut j: usize = 0;
        while j < slots.len()
            invariant
                j <= slots@.len(),
                picks@.len() == window_places(slots@.take(j as int)).len(),
                window_places(slots@.take(j as int)).len() <= window_places(slots@).len(),
                window_places(slots@.take(j as int)) == window_places(slots@).take(picks@.len() as int),
                window_picks_valid(candidates@, slots@, baseline@, level_index@, bookings@, start, end, picks@),
                forall|u: Seq<char>|
                    #![trigger has_id(taken@, u)]
                    has_id(taken@, u) <==> exists|m: int| 0 <= m < picks@.len() && (#[trigger] picks@[m]).user_id@ == u,
            decreases slots@.len() - j,
        {
            let s = &slots[j];
            proof {
                lemma_places_prefix(slots@, j as int);
            }
            if s.is_object {
                let k = match s.required_count {
                    Some(n) => if n < 1 {
                        1i64
                    } else {
                        n
                    },
                    None => 1i64,
                };
                let code = base_code_text(&s.slot_code);
                let ghost p0 = picks@.len();
                let mut idx: u64 = 0;
                while idx < k as u64
                    invariant
                        j < slots@.len(),
                        *s == slots@[j as int],
                        s.is_object,
                        k == count_of(s.required_count),
                        code@ == base_code(s.slot_code),
                        idx <= k,
                        p0 == window_places(slots@.take(j as int)).len(),
                        picks@.len() == p0 + idx,
                        window_places(slots@.take(j + 1)) == window_places(slots@.take(j as int)) + Seq::new(
                            k as nat,
                            |x: int| (j as int, x),
                        ),
                        window_places(slots@.take(j + 1)) == window_places(slots@).take(
                            window_places(slots@.take(j + 1)).len() as int,
                        ),
                        window_places(slots@.take(j + 1)).len() <= window_places(slots@).len(),
                        window_picks_valid(candidates@, slots@, baseline@, level_index@, bookings@, start, end, picks@),
                        forall|u: Seq<char>|
                            #![trigger has_id(taken@, u)]
                            has_id(taken@, u) <==> exists|m: int|
                                0 <= m < picks@.len() && (#[trigger] picks@[m]).user_id@ == u,
                    decreases k - idx,
                {
                    let bu = find_baseline_user(baseline, code.as_str(), idx);
                    let ghost places = window_places(slots@);
                    proof {
                        assert(window_places(slots@.take(j + 1))[picks@.len() as int] == (j as int, idx as int));
                        assert(places[picks@.len() as int] == (j as int, idx as int));
                    }
                    match choose_window_candidate(
                        candidates,
                        s,
                        level_index,
                        bookings,
                        start,
                        end,
                        &taken,
                        bu,
                        Ghost(picks@),
                    ) {
                        None => {
                            proof {
                                assert(window_place_open(
                                    candidates@,
                                    slots@,
                                    level_index@,
                                    bookings@,
                                    start,
                                    end,
                                    places[picks@.len() as int],
                                    picks@,
                                ));
                            }
                            return None;
                        },
                        Some((c, q)) => {
                            let cand = &candidates[c];
                            let qual = &cand.qualifications[q];
                            let p = WindowPick {
                                user_id: cand.user_id.clone(),
                                source_team_id: match &qual.source_team_id {
                                    Some(t) => Some(t.clone()),
                                    None => match &cand.source_team_id {
                                        Some(t) => Some(t.clone()),
                                        None => None,
                                    },
                                },
                                slot_code: place_code_text(s, idx),
                                qualification_code: slot_text(&s.qualification_code).to_string(),
                                qualification_level_code: match &qual.level_code {
                                    Some(l) => Some(l.clone()),
                                    None => None,
                                },
                            };
                            let ghost prev = picks@;
                            assert(window_pick_of(candidates@[c as int], *s, level_index@, idx as int, p));
                            let ghost taken0 = taken@;
                            taken.push(cand.user_id.clone());
                            picks.push(p);
                            proof {
                                assert(picks@.take(prev.len() as int) =~= prev);
                                assert forall|n: int| 0 <= n < picks@.len() implies window_place_filled(
                                    candidates@,
                                    slots@,
                                    baseline@,
                                    level_index@,
                                    bookings@,
                                    start,
                                    end,
                                    places[n],
                                    picks@.take(n),
                                    #[trigger] picks@[n],
                                ) by {
                                    if n < prev.len() {
                                        assert(picks@.take(n) =~= prev.take(n));
                                        assert(picks@[n] == prev[n]);
                                    } else {
                                        assert(window_choice(
                                            candidates@,
                                            slots@[j as int],
                                            level_index@,
                                            bookings@,
                                            start,
                                            end,
                                            prev,
                                            baseline_user(baseline@, base_code(slots@[j as int].slot_code), idx as int),
                                            c as int,
                                        ));
                                    }
                                }
                                assert forall|u: Seq<char>|
                                    #![trigger has_id(taken@, u)]
                                    has_id(taken@, u) <==> exists|m: int|
                                        0 <= m < picks@.len() && (#[trigger] picks@[m]).user_id@ == u by {
                                    if has_id(taken@, u) {
                                        let t = choose|t: int| 0 <= t < taken@.len() && #[trigger] taken@[t]@ == u;
                                        if t < taken@.len() - 1 {
                                            assert(taken@[t] == taken0[t]);
                                            assert(has_id(taken0, u));
                                            let m = choose|m: int| 0 <= m < prev.len() && (#[trigger] prev[m]).user_id@ == u;
                                            assert(picks@[m] == prev[m]);
                                        } else {
                                            assert(picks@[prev.len() as int].user_id@ == u);
                                        }
                                    }
                                    if exists|m: int| 0 <= m < picks@.len() && (#[trigger] picks@[m]).user_id@ == u {
                                        let m = choose|m: int| 0 <= m < picks@.len() && (#[trigger] picks@[m]).user_id@ == u;
                                        if m < prev.len() {
                                            assert(picks@[m] == prev[m]);
                                            assert(exists|m2: int| 0 <= m2 < prev.len() && (#[trigger] prev[m2]).user_id@ == u);
                                            assert(has_id(taken0, u));
                                            let t = choose|t: int| 0 <= t < taken0.len() && #[trigger] taken0[t]@ == u;
                                            assert(taken@[t] == taken0[t]);
                                        } else {
                                            assert(taken@[taken@.len() - 1]@ == u);
                                        }
                                    }
                                }
                            }
                        },
                    }
                    idx = idx + 1;
                }
            }
            j = j + 1;
        }
        proof {
            assert(slots@.take(slots@.len() as int) =~= slots@);
        }
        if picks.len() == 0 {
            return None;
        }
        Some(picks)
    }
}

/// The places of the first `j + 1` slots extend those of the first `j`.
proof fn lemma_places_prefix(slots: Seq<CrewSlot>, j: int)
    requires
        0 <= j < slots.len(),
    ensures
        window_places(slots.take(j + 1)) == if slots[j].is_object {
            window_places(slots.take(j)) + Seq::new(count_of(slots[j].required_count) as nat, |x: int| (j, x))
        } else {
            window_places(slots.take(j))
        },
        window_places(slots.take(j + 1)) == window_places(slots).take(window_places(slots.take(j + 1)).len() as int),
        window_places(slots.take(j + 1)).len() <= window_places(slots).len(),
{
    assert(slots.take(j + 1).drop_last() =~= slots.take(j));
    lemma_places_take(slots, j + 1);
}

proof fn lemma_places_take(slots: Seq<CrewSlot>, n: int)
    requires
        0 <= n <= slots.len(),
    ensures
        window_places(slots.take(n)) == window_places(slots).take(window_places(slots.take(n)).len() as int),
        window_places(slots.take(n)).len() <= window_places(slots).len(),
    decreases slots.len() - n,
{
    if n == slots.len() {
        assert(slots.take(n) =~= slots);
    } else {
        lemma_places_take(slots, n + 1);
        assert(slots.take(n + 1).drop_last() =~= slots.take(n));
        let a = window_places(slots.take(n));
        let b = window_places(slots.take(n + 1));
        assert(b.take(a.len() as int) =~= a);
        assert(window_places(slots).take(b.len() as int).take(a.len() as int) =~= window_places(slots).take(
            a.len() as int,
        ));
    }
}

/// The window optimiser never places one person twice, nor a person whom a
/// frozen order of the window books at a time that meets the order's
/// window: given the bookings built from the frozen orders, no pick is on
/// the crew of a frozen order whose interval meets `[start, end)`.
pub proof fn law_window_crew_respects_frozen_orders(
    orders: Seq<DispatchOrder>,
    frozen: Seq<usize>,
    window_start: i64,
    bookings: Seq<UserBookings>,
    cands: Seq<WindowCandidate>,
    slots: Seq<CrewSlot>,
    baseline: Seq<BaselineSlot>,
    index: Seq<LevelCoverage>,
    start: i64,
    end: i64,
    picks: Seq<WindowPick>,
)
    requires
        forall|u: Seq<char>, s: i64, e: i64|
            #![trigger booking_overlaps(bookings, u, s, e)]
            booking_overlaps(bookings, u, s, e) <==> frozen_books(orders, frozen, window_start, frozen.len() as int, u, s, e),
        window_picks_valid(cands, slots, baseline, index, bookings, start, end, picks),
    ensures
        forall|m: int, n: int| 0 <= m < n < picks.len() ==> (#[trigger] picks[m]).user_id@ != (#[trigger] picks[n]).user_id@,
        forall|n: int, k: int|
            0 <= n < picks.len() && 0 <= k < frozen.len() && service_order_crew(&orders[frozen[k] as int]).contains(
                (#[trigger] picks[n]).user_id@,
            ) ==> !meets(window_interval(&orders[#[trigger] frozen[k] as int], window_start), start as int, end as int),
{
    assert forall|n: int| 0 <= n < picks.len() implies !booking_overlaps(bookings, (#[trigger] picks[n]).user_id@, start, end)
        && forall|m: int| 0 <= m < n ==> (#[trigger] picks.take(n)[m]).user_id@ != picks[n].user_id@ by {
        let pl = window_places(slots)[n];
        assert(window_place_filled(cands, slots, baseline, index, bookings, start, end, pl, picks.take(n), picks[n]));
        let s = slots[pl.0];
        let c = choose|c: int|
            window_choice(
                cands,
                s,
                index,
                bookings,
                start,
                end,
                picks.take(n),
                baseline_user(baseline, base_code(s.slot_code), pl.1),
                c,
            ) && window_pick_of(#[trigger] cands[c], s, index, pl.1, picks[n]);
        assert(window_eligible(cands[c], s, index, bookings, start, end, picks.take(n)));
    }
    assert forall|m: int, n: int| 0 <= m < n < picks.len() implies (#[trigger] picks[m]).user_id@ != (
    #[trigger] picks[n]).user_id@ by {
        assert(picks.take(n)[m] == picks[m]);
        assert(forall|x: int| 0 <= x < n ==> (#[trigger] picks.take(n)[x]).user_id@ != picks[n].user_id@);
    }
    assert forall|n: int, k: int|
        0 <= n < picks.len() && 0 <= k < frozen.len() && service_order_crew(&orders[frozen[k] as int]).contains(
            (#[trigger] picks[n]).user_id@,
        ) implies !meets(window_interval(&orders[#[trigger] frozen[k] as int], window_start), start as int, end as int) by {
        assert(!booking_overlaps(bookings, picks[n].user_id@, start, end));
        assert(!frozen_books(orders, frozen, window_start, frozen.len() as int, picks[n].user_id@, start, end));
    }
}

} // verus!
