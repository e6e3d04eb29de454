//! The people a window optimisation may place on one order: the holders of
//! the department's grants who are on duty and available in the order's
//! window, each with the qualifications they hold and their team.

use vstd::prelude::*;
use crate::idset::{has_id, insert_sorted, list_has, seq_lt, sorted_ids};
use crate::model::DispatchError;
use crate::publication::opt_chars;
use crate::publication_resources::QualificationGrant;
use crate::rules::{normalized_opt, DispatchService};
use crate::text::{concat_views, join_texts, text_eq, trim, trimmed};
use crate::window_crew::{CandidateQualification, WindowCandidate};

verus! {

/// A person's membership of a team.
pub struct Membership {
    pub user_id: String,
    pub team_id: String,
    pub is_active: bool,
}

/// Whether some grant's holder, trimmed, is `u`.
pub open spec fn granted_trimmed(gs: Seq<QualificationGrant>, u: Seq<char>) -> bool {
    exists|k: int| 0 <= k < gs.len() && trimmed((#[trigger] gs[k]).user_id@) == u
}

/// Whether some grant is held by `u` as written.
pub open spec fn holds_grant(gs: Seq<QualificationGrant>, u: Seq<char>) -> bool {
    exists|k: int| 0 <= k < gs.len() && (#[trigger] gs[k]).user_id@ == u
}

/// Whether `u` is a window candidate: a grant holder (trimmed, not blank)
/// who is available and holds a grant under that very identifier.
pub open spec fn is_window_candidate(gs: Seq<QualificationGrant>, available: Seq<String>, u: Seq<char>) -> bool {
    &&& u.len() > 0
    &&& granted_trimmed(gs, u)
    &&& holds_grant(gs, u)
    &&& has_id(available, u)
}

/// The team of `u`'s first active membership, trimmed; none when blank.
pub open spec fn fallback_team(ms: Seq<Membership>, u: Seq<char>) -> Option<Seq<char>>
    decreases ms.len(),
{
    if ms.len() == 0 {
        None
    } else if ms[0].user_id@ == u && ms[0].is_active {
        normalized_opt(Some(ms[0].team_id@))
    } else {
        fallback_team(ms.drop_first(), u)
    }
}

/// A qualification by its code, level and team.
pub open spec fn qual_view(q: CandidateQualification) -> (Seq<char>, Option<Seq<char>>, Option<Seq<char>>) {
    (q.qualification_code@, opt_chars(q.level_code), opt_chars(q.source_team_id))
}

/// The qualifications `u` holds through the grants `gs`, in grant order:
/// each grant's code and level, and its team, else the fallback team.
pub open spec fn quals_of(gs: Seq<QualificationGrant>, u: Seq<char>, fallback: Option<Seq<char>>) -> Seq<
    (Seq<char>, Option<Seq<char>>, Option<Seq<char>>),
>
    decreases gs.len(),
{
    if gs.len() == 0 {
        Seq::empty()
    } else {
        let rest = quals_of(gs.drop_last(), u, fallback);
        let g = gs.last();
        if g.user_id@ == u {
            rest.push(
                (
                    g.qualification_code@,
                    Some(g.level_code@),
                    match normalized_opt(opt_chars(g.source_team_id)) {
                        Some(t) => Some(t),
                        None => fallback,
                    },
                ),
            )
        } else {
            rest
        }
    }
}

/// Whether `c` is the window candidate `u` built from the grants and the
/// memberships.
pub open spec fn candidate_built(c: WindowCandidate, u: Seq<char>, gs: Seq<QualificationGrant>, ms: Seq<Membership>) -> bool {
    &&& c.user_id@ == u
    &&& opt_chars(c.source_team_id) == fallback_team(ms, u)
    &&& c.qualifications@.map_values(|q: CandidateQualification| qual_view(q)) == quals_of(gs, u, fallback_team(ms, u))
}

/// Whether any grant's holder is not blank once trimmed.
pub open spec fn any_holder(gs: Seq<QualificationGrant>) -> bool {
    exists|k: int| 0 <= k < gs.len() && trimmed((#[trigger] gs[k]).user_id@).len() > 0
}

/// The first reason a window optimisation cannot staff order `id`, in the
/// order the steps run; none when it can go on to the candidates.
pub open spec fn window_staffing_fault(
    id: Seq<char>,
    stand_found: bool,
    department_found: bool,
    crew_requirement_count: usize,
    active_user_count: usize,
    gs: Seq<QualificationGrant>,
    available: Seq<String>,
) -> Option<Seq<char>> {
    if !stand_found {
        Some("工单 "@ + id + " 缺少机位信息"@)
    } else if !department_found {
        Some("工单 "@ + id + " 缺少科室规则上下文，无法执行窗口优化"@)
    } else if crew_requirement_count == 0 {
        Some("工单 "@ + id + " 缺少已发布资质规则，无法执行窗口优化"@)
    } else if active_user_count == 0 {
        Some("工单 "@ + id + " 当前无在岗可用人员"@)
    } else if gs.len() == 0 || !any_holder(gs) {
        Some("工单 "@ + id + " 当前无持证人员可用于窗口优化"@)
    } else if available.len() == 0 {
        Some("工单 "@ + id + " 当前无在岗且可用的持证人员"@)
    } else {
        None
    }
}

fn order_message(id: &str, tail: &str) -> (r: DispatchError)
    ensures
        r matches DispatchError::ValidationError(m) && m@ == "工单 "@ + id@ + tail@,
{
    let m = join_texts(&["工单 ", id, tail]);
    assert(concat_views(seq!["工单 ", id, tail]) =~= "工单 "@ + id@ + tail@) by {
        reveal_with_fuel(concat_views, 4);
    }
    DispatchError::ValidationError(m)
}

fn holds_grant_exec(gs: &Vec<QualificationGrant>, u: &str) -> (r: bool)
    ensures
        r == holds_grant(gs@, u@),
{
    let mut i: usize = 0;
    while i < gs.len()
        invariant
            i <= gs@.len(),
            forall|k: int| 0 <= k < i ==> (#[trigger] gs@[k]).user_id@ != u@,
        decreases gs@.len() - i,
    {
        if text_eq(gs[i].user_id.as_str(), u) {
            return true;
        }
        i = i + 1;
    }
    false
}

fn fallback_team_exec(ms: &Vec<Membership>, u: &str) -> (r: Option<String>)
    ensures
        opt_chars(r) == fallback_team(ms@, u@),
{
    let mut i: usize = 0;
    assert(ms@.skip(0) =~= ms@);
    while i < ms.len()
        invariant
            i <= ms@.len(),
            fallback_team(ms@, u@) == fallback_team(ms@.skip(i as int), u@),
        decreases ms@.len() - i,
    {
        proof {
            assert(ms@.skip(i as int).drop_first() =~= ms@.skip(i + 1));
            assert(ms@.skip(i as int)[0] == ms@[i as int]);
        }
        if ms[i].is_active && text_eq(ms[i].user_id.as_str(), u) {
            let t = trim(ms[i].team_id.as_str());
            if t.unicode_len() == 0 {
                return None;
            }
            return Some(t.to_string());
        }
        i = i + 1;
    }
    assert(ms@.skip(i as int).len() == 0);
    None
}

fn copy_opt(o: &Option<String>) -> (r: Option<String>)
    ensures
        r == *o,
{
    match o {
        Some(s) => Some(s.clone()),
        None => None,
    }
}

fn quals_exec(gs: &Vec<QualificationGrant>, u: &str, fallback: &Option<String>) -> (r: Vec<CandidateQualification>)
    ensures
        r@.map_values(|q: CandidateQualification| qual_view(q)) == quals_of(gs@, u@, opt_chars(*fallback)),
{
    let mut r: Vec<CandidateQualification> = Vec::new();
    let mut i: usize = 0;
    while i < gs.len()
        invariant
            i <= gs@.len(),
            r@.map_values(|q: CandidateQualification| qual_view(q)) == quals_of(
                gs@.take(i as int),
                u@,
                opt_chars(*fallback),
            ),
        decreases gs@.len() - i,
    {
        proof {
            assert(gs@.take(i + 1).drop_last() =~= gs@.take(i as int));
            assert(gs@.take(i + 1).last() == gs@[i as int]);
        }
        let g = &gs[i];
        if text_eq(g.user_id.as_str(), u) {
            let team: Option<String> = match DispatchService::normalize_optional_ref(
                match &g.source_team_id {
                    Some(t) => Some(t.as_str()),
                    None => None,
                },
            ) {
                Some(t) => Some(t.to_string()),
                None => copy_opt(fallback),
            };
            let q = CandidateQualification {
                qualification_code: g.qualification_code.clone(),
                level_code: Some(g.level_code.clone()),
                source_team_id: team,
            };
            let ghost before = r@;
            r.push(q);
            assert(r@.map_values(|q: CandidateQualification| qual_view(q)) =~= before.map_values(
                |q: CandidateQualification| qual_view(q),
            ).push(qual_view(q)));
        }
        i = i + 1;
    }
    assert(gs@.take(i as int) =~= gs@);
    r
}

/// The identifiers of the window candidates, sorted.
fn candidate_ids(gs: &Vec<QualificationGrant>, available: &Vec<String>) -> (r: Vec<String>)
    ensures
        sorted_ids(r@),
        forall|u: Seq<char>| has_id(r@, u) <==> is_window_candidate(gs@, available@, u),
{
    let mut ids: Vec<String> = Vec::new();
    let mut i: usize = 0;
    while i < gs.len()
        invariant
            i <= gs@.len(),
            sorted_ids(ids@),
            forall|u: Seq<char>|
                has_id(ids@, u) <==> (exists|k: int|
                    0 <= k < i && trimmed((#[trigger] gs@[k]).user_id@) == u && u.len() > 0 && holds_grant(gs@, u)
                        && has_id(available@, u)),
        decreases gs@.len() - i,
    {
        let t = trim(gs[i].user_id.as_str());
        let take = t.unicode_len() > 0 && list_has(available, t) && holds_grant_exec(gs, t);
        let ghost before = ids@;
        if take {
            insert_sorted(&mut ids, t.to_string());
        }
        proof {
            assert forall|u: Seq<char>|
                has_id(ids@, u) <==> (exists|k: int|
                    0 <= k < i + 1 && trimmed((#[trigger] gs@[k]).user_id@) == u && u.len() > 0 && holds_grant(gs@, u)
                        && has_id(available@, u)) by {
                if has_id(ids@, u) && !has_id(before, u) {
                    assert(trimmed(gs@[i as int].user_id@) == u);
                }
                if exists|k: int|
                    0 <= k < i + 1 && trimmed((#[trigger] gs@[k]).user_id@) == u && u.len() > 0 && holds_grant(gs@, u)
                        && has_id(available@, u) {
                    let k = choose|k: int|
                        0 <= k < i + 1 && trimmed((#[trigger] gs@[k]).user_id@) == u && u.len() > 0 && holds_grant(
                            gs@,
                            u,
                        ) && has_id(available@, u);
                    if k == i {
                        assert(t@ == u);
                    }
                }
            }
        }
        i = i + 1;
    }
    ids
}

impl DispatchService {
    /// The people a window optimisation may place on order `order_id`:
    /// after its stand, department rule context and crew requirements are
    /// found and people are on duty, the holders of the department's grants
    /// (`grants`, read for the people on duty) who are available in the
    /// window (`available`: the identifiers the availability service marked
    /// available), sorted by identifier, each with their team (first active
    /// membership) and the qualifications they hold. Each way it can fail
    /// is a validation error naming the order.
    pub fn window_candidates(
        order_id: &str,
        stand_found: bool,
        department_found: bool,
        crew_requirement_count: usize,
        active_user_ids: &Vec<String>,
        grants: &Vec<QualificationGrant>,
        available: &Vec<String>,
        memberships: &Vec<Membership>,
    ) -> (r: Result<Vec<WindowCandidate>, DispatchError>)
        ensures
            match window_staffing_fault(
                order_id@,
                stand_found,
                department_found,
                crew_requirement_count,
                active_user_ids@.len() as usize,
                grants@,
                available@,
            ) {
                Some(m) => r matches Err(DispatchError::ValidationError(x)) && x@ == m,
                None => if exists|u: Seq<char>| is_window_candidate(grants@, available@, u) {
                    r matches Ok(v) && (forall|i: int, j: int|
                        0 <= i < j < v@.len() ==> seq_lt(#[trigger] v@[i].user_id@, #[trigger] v@[j].user_id@)) && (
                    forall|u: Seq<char>|
                        is_window_candidate(grants@, available@, u) <==> exists|i: int|
                            0 <= i < v@.len() && #[trigger] v@[i].user_id@ == u) && (forall|i: int|
                        0 <= i < v@.len() ==> candidate_built(
                            #[trigger] v@[i],
                            v@[i].user_id@,
                            grants@,
                            memberships@,
                        ))
                } else {
                    r matches Err(DispatchError::ValidationError(x)) && x@ == "工单 "@ + order_id@
                        + " 当前无在岗且可用的持证人员"@
                },
            },
    {
        if !stand_found {
            return Err(order_message(order_id, " 缺少机位信息"));
        }
        if !department_found {
            return Err(order_message(order_id, " 缺少科室规则上下文，无法执行窗口优化"));
        }
        if crew_requirement_count == 0 {
            return Err(order_message(order_id, " 缺少已发布资质规则，无法执行窗口优化"));
        }
        if active_user_ids.len() == 0 {
            return Err(order_message(order_id, " 当前无在岗可用人员"));
        }
        let mut any = false;
        let mut k: usize = 0;
        while k < grants.len()
            invariant
                k <= grants@.len(),
                any == exists|x: int| 0 <= x < k && trimmed((#[trigger] grants@[x]).user_id@).len() > 0,
            decreases grants@.len() - k,
        {
            if trim(grants[k].user_id.as_str()).unicode_len() > 0 {
                any = true;
            }
            k = k + 1;
        }
        if grants.len() == 0 || !any {
            return Err(order_message(order_id, " 当前无持证人员可用于窗口优化"));
        }
        if available.len() == 0 {
            return Err(order_message(order_id, " 当前无在岗且可用的持证人员"));
        }
        let ids = candidate_ids(grants, available);
        let mut out: Vec<WindowCandidate> = Vec::new();
        let mut i: usize = 0;
        while i < ids.len()
            invariant
                i <= ids@.len(),
                out@.len() == i,
                forall|x: int| 0 <= x < i ==> (#[trigger] out@[x]).user_id@ == ids@[x]@,
                forall|x: int| 0 <= x < i ==> candidate_built(#[trigger] out@[x], out@[x].user_id@, grants@, memberships@),
            decreases ids@.len() - i,
        {
            let u = ids[i].as_str();
            let team = fallback_team_exec(memberships, u);
            let quals = quals_exec(grants, u, &team);
            out.push(WindowCandidate { user_id: ids[i].clone(), source_team_id: team, qualifications: quals });
            i = i + 1;
        }
        if out.len() == 0 {
            proof {
                assert forall|u: Seq<char>| !is_window_candidate(grants@, available@, u) by {
                    if is_window_candidate(grants@, available@, u) {
                        assert(has_id(ids@, u));
                    }
                }
            }
            return Err(order_message(order_id, " 当前无在岗且可用的持证人员"));
        }
        proof {
            assert forall|u: Seq<char>|
                is_window_candidate(grants@, available@, u) <==> exists|x: int|
                    0 <= x < out@.len() && #[trigger] out@[x].user_id@ == u by {
                if is_window_candidate(grants@, available@, u) {
                    assert(has_id(ids@, u));
                    let x = choose|x: int| 0 <= x < ids@.len() && #[trigger] ids@[x]@ == u;
                    assert(out@[x].user_id@ == u);
                }
                if exists|x: int| 0 <= x < out@.len() && #[trigger] out@[x].user_id@ == u {
                    let x = choose|x: int| 0 <= x < out@.len() && #[trigger] out@[x].user_id@ == u;
                    assert(ids@[x]@ == u);
                    assert(has_id(ids@, u));
                }
            }
            assert(exists|u: Seq<char>| is_window_candidate(grants@, available@, u)) by {
                assert(has_id(ids@, ids@[0]@));
            }
        }
        Ok(out)
    }
}

} // verus!
