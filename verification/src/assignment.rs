//! Assignment payloads: what an assignment names (equipment, driver,
//! crew), the member records it asks for, how those are reconciled with
//! the members an order has, and how it rewrites an order's assignee.

use vstd::prelude::*;
use crate::text::{trim, trimmed, is_blank, text_eq, lemma_trimmed_idempotent};
use crate::model::{AssigneeType, MemberRole, LockLevel, EquipmentAssignment, CrewMemberPayload};
use crate::rules::{DispatchService, normalized_opt, nonblank_trimmed, string_views};
use crate::publication::opt_chars;

verus! {

/// An assignment payload as the service reads it; a field that is missing
/// or not of its type is `None`.
pub struct AssignmentPayload {
    pub assignee_type: Option<String>,
    pub team_id: Option<String>,
    pub team_name: Option<String>,
    pub individual_user_id: Option<String>,
    pub individual_username: Option<String>,
    pub driver_type: Option<String>,
    pub driver_team_id: Option<String>,
    pub driver_user_id: Option<String>,
    pub department_rule_version: Option<String>,
    pub availability_reason: Option<String>,
    pub lock_level: Option<String>,
    /// The `equipment_assignment` list, when it is an array.
    pub equipment_assignment: Option<Vec<EquipmentAssignment>>,
    /// The `equipment_ids` list, when it is an array.
    pub equipment_ids: Option<Vec<Option<String>>>,
    /// The crew payload's members, when `task_crew.members` is an array.
    pub crew_members: Option<Vec<CrewMemberPayload>>,
    /// The `member_user_ids` list, when it is an array.
    pub member_user_ids: Option<Vec<Option<String>>>,
}

/// A field trimmed; none when blank or missing.
pub open spec fn norm(o: Option<String>) -> Option<Seq<char>> {
    normalized_opt(opt_chars(o))
}

/// The texts of an optional list of optional texts (nothing for no list).
pub open spec fn opt_texts(o: Option<Vec<Option<String>>>) -> Seq<Option<Seq<char>>> {
    match o {
        Some(v) => Seq::new(v@.len(), |k: int| opt_chars(v@[k])),
        None => Seq::empty(),
    }
}

/// The equipment identifiers of an equipment list.
pub open spec fn equipment_field(o: Option<Vec<EquipmentAssignment>>) -> Seq<Option<Seq<char>>> {
    match o {
        Some(v) => Seq::new(v@.len(), |k: int| opt_chars(v@[k].equipment_id)),
        None => Seq::empty(),
    }
}

/// The drivers of an equipment list.
pub open spec fn driver_field(o: Option<Vec<EquipmentAssignment>>) -> Seq<Option<Seq<char>>> {
    match o {
        Some(v) => Seq::new(v@.len(), |k: int| opt_chars(v@[k].driver_user_id)),
        None => Seq::empty(),
    }
}

/// The crew members' identifiers.
pub open spec fn crew_user_field(o: Option<Vec<CrewMemberPayload>>) -> Seq<Option<Seq<char>>> {
    match o {
        Some(v) => Seq::new(v@.len(), |k: int| opt_chars(v@[k].user_id)),
        None => Seq::empty(),
    }
}

/// The equipment an assignment names: the identifiers of its equipment
/// list, else its `equipment_ids`; trimmed, blank ones dropped.
pub open spec fn payload_equipment_ids(a: AssignmentPayload) -> Seq<Seq<char>> {
    let first = nonblank_trimmed(equipment_field(a.equipment_assignment));
    if first.len() > 0 {
        first
    } else {
        nonblank_trimmed(opt_texts(a.equipment_ids))
    }
}

/// The people an assignment names: its crew members, else its
/// `member_user_ids`; trimmed, blank ones dropped.
pub open spec fn payload_member_ids(a: AssignmentPayload) -> Seq<Seq<char>> {
    let first = nonblank_trimmed(crew_user_field(a.crew_members));
    if first.len() > 0 {
        first
    } else {
        nonblank_trimmed(opt_texts(a.member_user_ids))
    }
}

/// The first equipment driver an assignment names.
pub open spec fn equipment_driver(a: AssignmentPayload) -> Option<Seq<char>> {
    let d = nonblank_trimmed(driver_field(a.equipment_assignment));
    if d.len() > 0 {
        Some(d[0])
    } else {
        None
    }
}

/// The kind of driver an assignment asks for: as it says (`individual` or
/// `team`), else a person when its equipment names a driver.
pub open spec fn payload_driver_type(a: AssignmentPayload) -> Option<AssigneeType> {
    if norm(a.driver_type) == Some("individual"@) {
        Some(AssigneeType::Individual)
    } else if norm(a.driver_type) == Some("team"@) {
        Some(AssigneeType::Team)
    } else if equipment_driver(a) is Some {
        Some(AssigneeType::Individual)
    } else {
        None
    }
}

/// The driver an assignment names: its own field, else its equipment's
/// first driver.
pub open spec fn payload_driver_user(a: AssignmentPayload) -> Option<Seq<char>> {
    match norm(a.driver_user_id) {
        Some(u) => Some(u),
        None => equipment_driver(a),
    }
}

/// The first of the nonblank identifiers `xs` yields, trimmed.
fn first_nonblank(xs: &Vec<Option<String>>) -> (r: Option<String>)
    ensures
        opt_chars(r) == if nonblank_trimmed(Seq::new(xs@.len(), |k: int| opt_chars(xs@[k]))).len() > 0 {
            Some(nonblank_trimmed(Seq::new(xs@.len(), |k: int| opt_chars(xs@[k])))[0])
        } else {
            None
        },
{
    let all = collect_nonblank(xs);
    if all.len() > 0 {
        assert(string_views(all@)[0] == all@[0]@);
        Some(all[0].clone())
    } else {
        None
    }
}

/// The nonblank identifiers `xs` yields, trimmed, in order.
fn collect_nonblank(xs: &Vec<Option<String>>) -> (r: Vec<String>)
    ensures
        string_views(r@) == nonblank_trimmed(Seq::new(xs@.len(), |k: int| opt_chars(xs@[k]))),
{
    let ghost full = Seq::new(xs@.len(), |k: int| opt_chars(xs@[k]));
    let mut r: Vec<String> = Vec::new();
    let mut i: usize = 0;
    while i < xs.len()
        invariant
            i <= xs@.len(),
            full == Seq::new(xs@.len(), |k: int| opt_chars(xs@[k])),
            string_views(r@) == nonblank_trimmed(full.take(i as int)),
        decreases xs@.len() - i,
    {
        proof {
            assert(full.take(i + 1).drop_last() =~= full.take(i as int));
            assert(full.take(i + 1).last() == opt_chars(xs@[i as int]));
        }
        match &xs[i] {
            Some(x) => {
                let t = trim(x.as_str());
                if t.unicode_len() > 0 {
                    let ghost r0 = r@;
                    r.push(t.to_string());
                    assert(string_views(r@) =~= string_views(r0).push(t@));
                }
            },
            None => {
            },
        }
        i = i + 1;
    }
    assert(full.take(xs@.len() as int) =~= full);
    r
}

fn equipment_ids_list(v: &Vec<EquipmentAssignment>) -> (r: Vec<Option<String>>)
    ensures
        Seq::new(r@.len(), |k: int| opt_chars(r@[k])) == Seq::new(v@.len(), |k: int| opt_chars(v@[k].equipment_id)),
{
    let mut r: Vec<Option<String>> = Vec::new();
    let mut i: usize = 0;
    while i < v.len()
        invariant
            i <= v@.len(),
            r@.len() == i,
            forall|k: int| 0 <= k < i ==> opt_chars(#[trigger] r@[k]) == opt_chars(v@[k].equipment_id),
        decreases v@.len() - i,
    {
        r.push(
            match &v[i].equipment_id {
                Some(x) => Some(x.clone()),
                None => None,
            },
        );
        i = i + 1;
    }
    assert(Seq::new(r@.len(), |k: int| opt_chars(r@[k])) =~= Seq::new(v@.len(), |k: int| opt_chars(v@[k].equipment_id)));
    r
}

fn drivers_list(v: &Vec<EquipmentAssignment>) -> (r: Vec<Option<String>>)
    ensures
        Seq::new(r@.len(), |k: int| opt_chars(r@[k])) == Seq::new(v@.len(), |k: int| opt_chars(v@[k].driver_user_id)),
{
    let mut r: Vec<Option<String>> = Vec::new();
    let mut i: usize = 0;
    while i < v.len()
        invariant
            i <= v@.len(),
            r@.len() == i,
            forall|k: int| 0 <= k < i ==> opt_chars(#[trigger] r@[k]) == opt_chars(v@[k].driver_user_id),
        decreases v@.len() - i,
    {
        r.push(
            match &v[i].driver_user_id {
                Some(x) => Some(x.clone()),
                None => None,
            },
        );
        i = i + 1;
    }
    assert(Seq::new(r@.len(), |k: int| opt_chars(r@[k])) =~= Seq::new(v@.len(), |k: int| opt_chars(v@[k].driver_user_id)));
    r
}

fn crew_users_list(v: &Vec<CrewMemberPayload>) -> (r: Vec<Option<String>>)
    ensures
        Seq::new(r@.len(), |k: int| opt_chars(r@[k])) == Seq::new(v@.len(), |k: int| opt_chars(v@[k].user_id)),
{
    let mut r: Vec<Option<String>> = Vec::new();
    let mut i: usize = 0;
    while i < v.len()
        invariant
            i <= v@.len(),
            r@.len() == i,
            forall|k: int| 0 <= k < i ==> opt_chars(#[trigger] r@[k]) == opt_chars(v@[k].user_id),
        decreases v@.len() - i,
    {
        r.push(
            match &v[i].user_id {
                Some(x) => Some(x.clone()),
                None => None,
            },
        );
        i = i + 1;
    }
    assert(Seq::new(r@.len(), |k: int| opt_chars(r@[k])) =~= Seq::new(v@.len(), |k: int| opt_chars(v@[k].user_id)));
    r
}

fn optional_list(o: &Option<Vec<Option<String>>>) -> (r: Vec<Option<String>>)
    ensures
        Seq::new(r@.len(), |k: int| opt_chars(r@[k])) == opt_texts(*o),
{
    let mut r: Vec<Option<String>> = Vec::new();
    match o {
        Some(v) => {
            let mut i: usize = 0;
            while i < v.len()
                invariant
                    i <= v@.len(),
                    r@.len() == i,
                    forall|k: int| 0 <= k < i ==> opt_chars(#[trigger] r@[k]) == opt_chars(v@[k]),
                decreases v@.len() - i,
            {
                r.push(
                    match &v[i] {
                        Some(x) => Some(x.clone()),
                        None => None,
                    },
                );
                i = i + 1;
            }
            assert(Seq::new(r@.len(), |k: int| opt_chars(r@[k])) =~= opt_texts(*o));
        },
        None => {
            assert(Seq::new(r@.len(), |k: int| opt_chars(r@[k])) =~= opt_texts(*o));
        },
    }
    r
}

impl DispatchService {
    /// The equipment an assignment names: the identifiers of its equipment
    /// list, else its `equipment_ids`; trimmed, blank ones dropped.
    pub fn assignment_equipment_ids(a: &AssignmentPayload) -> (r: Vec<String>)
        ensures
            string_views(r@) == payload_equipment_ids(*a),
    {
        let items = match &a.equipment_assignment {
            Some(v) => equipment_ids_list(v),
            None => Vec::new(),
        };
        let first = collect_nonblank(&items);
        proof {
            assert(Seq::new(items@.len(), |k: int| opt_chars(items@[k])) =~= equipment_field(a.equipment_assignment));
        }
        if first.len() > 0 {
            return first;
        }
        let rest = optional_list(&a.equipment_ids);
        collect_nonblank(&rest)
    }

    /// The people an assignment names: its crew members, else its
    /// `member_user_ids`; trimmed, blank ones dropped.
    pub fn assignment_member_user_ids(a: &AssignmentPayload) -> (r: Vec<String>)
        ensures
            string_views(r@) == payload_member_ids(*a),
    {
        let items = match &a.crew_members {
            Some(v) => crew_users_list(v),
            None => Vec::new(),
        };
        let first = collect_nonblank(&items);
        proof {
            assert(Seq::new(items@.len(), |k: int| opt_chars(items@[k])) =~= crew_user_field(a.crew_members));
        }
        if first.len() > 0 {
            return first;
        }
        let rest = optional_list(&a.member_user_ids);
        collect_nonblank(&rest)
    }

    /// The driver binding an assignment asks for: the kind of driver, the
    /// driving team and the driver (see `payload_driver_type` and
    /// `payload_driver_user`).
    pub fn assignment_driver_binding(a: &AssignmentPayload) -> (r: (Option<AssigneeType>, Option<String>, Option<String>))
        ensures
            r.0 == payload_driver_type(*a),
            opt_chars(r.1) == norm(a.driver_team_id),
            opt_chars(r.2) == payload_driver_user(*a),
    {
        proof {
            reveal_strlit("individual");
            reveal_strlit("team");
        }
        let drivers = match &a.equipment_assignment {
            Some(v) => drivers_list(v),
            None => Vec::new(),
        };
        let equipment_driver = first_nonblank(&drivers);
        proof {
            assert(Seq::new(drivers@.len(), |k: int| opt_chars(drivers@[k])) =~= driver_field(a.equipment_assignment));
        }
        let kind = Self::normalize_optional_string(copy(&a.driver_type));
        let driver_type = match &kind {
            Some(k) => if text_eq(k.as_str(), "individual") {
                Some(AssigneeType::Individual)
            } else if text_eq(k.as_str(), "team") {
                Some(AssigneeType::Team)
            } else if equipment_driver.is_some() {
                Some(AssigneeType::Individual)
            } else {
                None
            },
            None => if equipment_driver.is_some() {
                Some(AssigneeType::Individual)
            } else {
                None
            },
        };
        let team = Self::normalize_optional_string(copy(&a.driver_team_id));
        let user = match Self::normalize_optional_string(copy(&a.driver_user_id)) {
            Some(u) => Some(u),
            None => equipment_driver,
        };
        (driver_type, team, user)
    }
}

fn copy(o: &Option<String>) -> (r: Option<String>)
    ensures
        opt_chars(r) == opt_chars(*o),
{
    match o {
        Some(x) => Some(x.clone()),
        None => None,
    }
}

/// A member record an assignment asks for (its identifier and time are
/// given when it is stored).
pub struct AssignedMember {
    pub user_id: String,
    pub role: MemberRole,
    pub source_type: AssigneeType,
    pub source_team_id: Option<String>,
    pub slot_code: Option<String>,
    pub qualification_code: Option<String>,
    pub qualification_level_code: Option<String>,
    pub username: Option<String>,
}

/// A member record as plain values.
pub open spec fn assigned_view(m: AssignedMember) -> (
    Seq<char>,
    MemberRole,
    AssigneeType,
    Option<Seq<char>>,
    Option<Seq<char>>,
    Option<Seq<char>>,
    Option<Seq<char>>,
    Option<Seq<char>>,
) {
    (
        m.user_id@,
        m.role,
        m.source_type,
        opt_chars(m.source_team_id),
        opt_chars(m.slot_code),
        opt_chars(m.qualification_code),
        opt_chars(m.qualification_level_code),
        opt_chars(m.username),
    )
}

/// The role a (trimmed) slot code gives: `lead` leads, `driver` drives.
pub open spec fn slot_role(slot: Option<Seq<char>>) -> MemberRole {
    match slot {
        Some(s) => if s == "lead"@ {
            MemberRole::Leader
        } else if s == "driver"@ {
            MemberRole::Driver
        } else {
            MemberRole::Member
        },
        None => MemberRole::Member,
    }
}

/// Where an assignment's members come from: an individual assignment, else
/// a team.
pub open spec fn payload_source_type(a: AssignmentPayload) -> AssigneeType {
    if norm(a.assignee_type) == Some("individual"@) {
        AssigneeType::Individual
    } else {
        AssigneeType::Team
    }
}

/// The records of the crew members with an identifier, in order.
pub open spec fn crew_records(
    ms: Seq<CrewMemberPayload>,
    st: AssigneeType,
    fallback: Option<Seq<char>>,
) -> Seq<
    (
        Seq<char>,
        MemberRole,
        AssigneeType,
        Option<Seq<char>>,
        Option<Seq<char>>,
        Option<Seq<char>>,
        Option<Seq<char>>,
        Option<Seq<char>>,
    ),
>
    decreases ms.len(),
{
    if ms.len() == 0 {
        Seq::empty()
    } else {
        let prev = crew_records(ms.drop_last(), st, fallback);
        let m = ms.last();
        match norm(m.user_id) {
            Some(u) => prev.push(
                (
                    u,
                    slot_role(norm(m.slot_code)),
                    st,
                    match norm(m.source_team_id) {
                        Some(t) => Some(t),
                        None => fallback,
                    },
                    norm(m.slot_code),
                    opt_chars(m.qualification_code),
                    opt_chars(m.qualification_level_code),
                    opt_chars(m.username),
                ),
            ),
            None => prev,
        }
    }
}

/// The member records an assignment asks for: one per crew member with an
/// identifier; else one plain member per person it names; else its
/// individual assignee in the `primary` slot; else none.
pub open spec fn desired_records(a: AssignmentPayload) -> Seq<
    (
        Seq<char>,
        MemberRole,
        AssigneeType,
        Option<Seq<char>>,
        Option<Seq<char>>,
        Option<Seq<char>>,
        Option<Seq<char>>,
        Option<Seq<char>>,
    ),
> {
    let st = payload_source_type(a);
    let fallback = norm(a.team_id);
    let from_crew = match a.crew_members {
        Some(ms) => crew_records(ms@, st, fallback),
        None => Seq::empty(),
    };
    if from_crew.len() > 0 {
        from_crew
    } else if payload_member_ids(a).len() > 0 {
        payload_member_ids(a).map_values(
            |u: Seq<char>| (u, MemberRole::Member, st, fallback, None::<Seq<char>>, None::<Seq<char>>, None::<Seq<char>>, None::<Seq<char>>),
        )
    } else {
        match norm(a.individual_user_id) {
            Some(u) => seq![(u, MemberRole::Member, st, fallback, Some("primary"@), None, None, norm(a.individual_username))],
            None => Seq::empty(),
        }
    }
}

fn normalized(o: &Option<String>) -> (r: Option<String>)
    ensures
        opt_chars(r) == norm(*o),
{
    DispatchService::normalize_optional_string(copy(o))
}

impl DispatchService {
    /// The member records an assignment asks for (see `desired_records`).
    pub fn build_dispatch_members_from_assignment(a: &AssignmentPayload) -> (r: Vec<AssignedMember>)
        ensures
            r@.map_values(|m: AssignedMember| assigned_view(m)) == desired_records(*a),
    {
        proof {
            reveal_strlit("individual");
            reveal_strlit("primary");
            reveal_strlit("lead");
            reveal_strlit("driver");
        }
        let kind = normalized(&a.assignee_type);
        let source_type = match &kind {
            Some(k) => if text_eq(k.as_str(), "individual") {
                AssigneeType::Individual
            } else {
                AssigneeType::Team
            },
            None => AssigneeType::Team,
        };
        let fallback = normalized(&a.team_id);
        let ghost st = payload_source_type(*a);
        let ghost fb = norm(a.team_id);
        let mut r: Vec<AssignedMember> = Vec::new();
        match &a.crew_members {
            Some(ms) => {
                let mut i: usize = 0;
                while i < ms.len()
                    invariant
                        i <= ms@.len(),
                        source_type == st,
                        opt_chars(fallback) == fb,
                        r@.map_values(|m: AssignedMember| assigned_view(m)) == crew_records(
                            ms@.take(i as int),
                            st,
                            fb,
                        ),
                    decreases ms@.len() - i,
                {
                    let m = &ms[i];
                    proof {
                        assert(ms@.take(i + 1).drop_last() =~= ms@.take(i as int));
                        assert(ms@.take(i + 1).last() == ms@[i as int]);
                    }
                    match normalized(&m.user_id) {
                        Some(u) => {
                            let slot = normalized(&m.slot_code);
                            let role = Self::member_role_from_slot(
                                match &slot {
                                    Some(x) => Some(x.as_str()),
                                    None => None,
                                },
                            );
                            proof {
                                if slot is Some {
                                    lemma_trimmed_idempotent(m.slot_code.unwrap()@);
                                }
                            }
                            let team = match normalized(&m.source_team_id) {
                                Some(t) => Some(t),
                                None => copy(&fallback),
                            };
                            let rec = AssignedMember {
                                user_id: u,
                                role,
                                source_type,
                                source_team_id: team,
                                slot_code: slot,
                                qualification_code: copy(&m.qualification_code),
                                qualification_level_code: copy(&m.qualification_level_code),
                                username: copy(&m.username),
                            };
                            let ghost r0 = r@;
                            r.push(rec);
                            assert(r@.map_values(|m: AssignedMember| assigned_view(m)) =~= r0.map_values(
                                |m: AssignedMember| assigned_view(m),
                            ).push(assigned_view(r@.last())));
                        },
                        None => {
                        },
                    }
                    i = i + 1;
                }
                assert(ms@.take(ms@.len() as int) =~= ms@);
            },
            None => {
            },
        }
        if r.len() > 0 {
            return r;
        }
        let ids = Self::assignment_member_user_ids(a);
        let mut k: usize = 0;
        while k < ids.len()
            invariant
                k <= ids@.len(),
                source_type == st,
                opt_chars(fallback) == fb,
                string_views(ids@) == payload_member_ids(*a),
                r@.len() == k,
                forall|x: int|
                    0 <= x < k ==> assigned_view(#[trigger] r@[x]) == (
                        ids@[x]@,
                        MemberRole::Member,
                        st,
                        fb,
                        None::<Seq<char>>,
                        None::<Seq<char>>,
                        None::<Seq<char>>,
                        None::<Seq<char>>,
                    ),
            decreases ids@.len() - k,
        {
            r.push(
                AssignedMember {
                    user_id: ids[k].clone(),
                    role: MemberRole::Member,
                    source_type,
                    source_team_id: copy(&fallback),
                    slot_code: None,
                    qualification_code: None,
                    qualification_level_code: None,
                    username: None,
                },
            );
            k = k + 1;
        }
        proof {
            let lhs = r@.map_values(|m: AssignedMember| assigned_view(m));
            let rhs = payload_member_ids(*a).map_values(
                |u: Seq<char>|
                    (u, MemberRole::Member, st, fb, None::<Seq<char>>, None::<Seq<char>>, None::<Seq<char>>, None::<Seq<char>>),
            );
            assert forall|x: int| 0 <= x < lhs.len() implies #[trigger] lhs[x] == rhs[x] by {
                assert(string_views(ids@)[x] == ids@[x]@);
            }
            assert(lhs =~= rhs);
        }
        if r.len() > 0 {
            return r;
        }
        match normalized(&a.individual_user_id) {
            Some(u) => {
                r.push(
                    AssignedMember {
                        user_id: u,
                        role: MemberRole::Member,
                        source_type,
                        source_team_id: fallback,
                        slot_code: Some("primary".to_string()),
                        qualification_code: None,
                        qualification_level_code: None,
                        username: normalized(&a.individual_username),
                    },
                );
                assert(r@.map_values(|m: AssignedMember| assigned_view(m)) =~= desired_records(*a));
            },
            None => {
                assert(r@.map_values(|m: AssignedMember| assigned_view(m)) =~= desired_records(*a));
            },
        }
        r
    }
}

/// How the member records of an order are reconciled with the records an
/// assignment asks for.
pub struct MemberSyncPlan {
    /// For each existing member: the record it is updated from (the last
    /// one for its person, and the member is active), or none when it is
    /// deactivated.
    pub updates: Vec<Option<usize>>,
    /// The records stored anew: for each person who is not a member yet,
    /// their last record, in order.
    pub inserts: Vec<usize>,
}

/// `d` is the last record for person `u`.
pub open spec fn last_for(desired: Seq<AssignedMember>, u: Seq<char>, d: int) -> bool {
    &&& 0 <= d < desired.len()
    &&& desired[d].user_id@ == u
    &&& forall|k: int| d < k < desired.len() ==> (#[trigger] desired[k]).user_id@ != u
}

/// `p` reconciles the members `existing` (by person) with `desired`.
pub open spec fn member_sync_planned(existing: Seq<String>, desired: Seq<AssignedMember>, p: MemberSyncPlan) -> bool {
    &&& p.updates@.len() == existing.len()
    &&& forall|e: int|
        0 <= e < existing.len() ==> match #[trigger] p.updates@[e] {
            Some(d) => last_for(desired, existing[e]@, d as int),
            None => forall|k: int| 0 <= k < desired.len() ==> (#[trigger] desired[k]).user_id@ != existing[e]@,
        }
    &&& forall|a: int, b: int| 0 <= a < b < p.inserts@.len() ==> #[trigger] p.inserts@[a] < #[trigger] p.inserts@[b]
    &&& forall|k: int|
        0 <= k < p.inserts@.len() ==> last_for(desired, desired[#[trigger] p.inserts@[k] as int].user_id@, p.inserts@[k] as int)
            && !has_member(existing, desired[p.inserts@[k] as int].user_id@)
    &&& forall|d: int|
        last_for(desired, (#[trigger] desired[d]).user_id@, d) && !has_member(existing, desired[d].user_id@) ==> exists|k: int|
            0 <= k < p.inserts@.len() && p.inserts@[k] == d
}

/// Whether `u` is among the members `existing`.
pub open spec fn has_member(existing: Seq<String>, u: Seq<char>) -> bool {
    exists|e: int| 0 <= e < existing.len() && (#[trigger] existing[e])@ == u
}

/// The last record for person `u`, if any.
fn last_record(desired: &Vec<AssignedMember>, u: &str) -> (r: Option<usize>)
    ensures
        match r {
            Some(d) => last_for(desired@, u@, d as int),
            None => forall|k: int| 0 <= k < desired@.len() ==> (#[trigger] desired@[k]).user_id@ != u@,
        },
{
    let mut found: Option<usize> = None;
    let mut k: usize = 0;
    while k < desired.len()
        invariant
            k <= desired@.len(),
            match found {
                Some(d) => d < k && desired@[d as int].user_id@ == u@ && forall|x: int|
                    d < x < k ==> (#[trigger] desired@[x]).user_id@ != u@,
                None => forall|x: int| 0 <= x < k ==> (#[trigger] desired@[x]).user_id@ != u@,
            },
        decreases desired@.len() - k,
    {
        if text_eq(desired[k].user_id.as_str(), u) {
            found = Some(k);
        }
        k = k + 1;
    }
    found
}

/// Whether some member is person `u`.
fn is_member(existing: &Vec<String>, u: &str) -> (r: bool)
    ensures
        r == has_member(existing@, u@),
{
    let mut e: usize = 0;
    while e < existing.len()
        invariant
            e <= existing@.len(),
            forall|x: int| 0 <= x < e ==> (#[trigger] existing@[x])@ != u@,
        decreases existing@.len() - e,
    {
        if text_eq(existing[e].as_str(), u) {
            return true;
        }
        e = e + 1;
    }
    false
}

proof fn lemma_last_exists(desired: Seq<AssignedMember>, u: Seq<char>, d: int)
    requires
        0 <= d < desired.len(),
        desired[d].user_id@ == u,
    ensures
        exists|x: int| last_for(desired, u, x),
    decreases desired.len() - d,
{
    if exists|k: int| d < k < desired.len() && (#[trigger] desired[k]).user_id@ == u {
        let k = choose|k: int| d < k < desired.len() && (#[trigger] desired[k]).user_id@ == u;
        lemma_last_exists(desired, u, k);
    } else {
        assert(last_for(desired, u, d));
    }
}

/// Whether member `u` stays active under plan `p`.
pub open spec fn stays_active(existing: Seq<String>, p: MemberSyncPlan, u: Seq<char>) -> bool {
    exists|e: int| 0 <= e < existing.len() && (#[trigger] existing[e])@ == u && p.updates@[e] is Some
}

/// Whether plan `p` adds person `u`.
pub open spec fn added(desired: Seq<AssignedMember>, p: MemberSyncPlan, u: Seq<char>) -> bool {
    exists|k: int| 0 <= k < p.inserts@.len() && desired[#[trigger] p.inserts@[k] as int].user_id@ == u
}

/// Whether the assignment asks for person `u`.
pub open spec fn asked_for(desired: Seq<AssignedMember>, u: Seq<char>) -> bool {
    exists|d: int| 0 <= d < desired.len() && (#[trigger] desired[d]).user_id@ == u
}

/// After a reconciliation the active members are exactly the people the
/// assignment asks for: an existing member stays active when, and only
/// when, the assignment names them, and everyone else it names is added.
pub proof fn law_member_sync_reaches_desired_crew(existing: Seq<String>, desired: Seq<AssignedMember>, p: MemberSyncPlan)
    requires
        member_sync_planned(existing, desired, p),
    ensures
        forall|u: Seq<char>|
            #![trigger asked_for(desired, u)]
            #![trigger stays_active(existing, p, u)]
            #![trigger added(desired, p, u)]
            (stays_active(existing, p, u) || added(desired, p, u)) <==> asked_for(desired, u),
{
    assert forall|u: Seq<char>| (stays_active(existing, p, u) || added(desired, p, u)) <==> asked_for(desired, u) by {
        if stays_active(existing, p, u) {
            let e = choose|e: int| 0 <= e < existing.len() && (#[trigger] existing[e])@ == u && p.updates@[e] is Some;
            let d = p.updates@[e].unwrap() as int;
            assert(last_for(desired, existing[e]@, d));
        }
        if added(desired, p, u) {
            let k = choose|k: int| 0 <= k < p.inserts@.len() && desired[#[trigger] p.inserts@[k] as int].user_id@ == u;
            assert(last_for(desired, desired[p.inserts@[k] as int].user_id@, p.inserts@[k] as int));
        }
        if asked_for(desired, u) {
            let d = choose|d: int| 0 <= d < desired.len() && (#[trigger] desired[d]).user_id@ == u;
            lemma_last_exists(desired, u, d);
            let x = choose|x: int| last_for(desired, u, x);
            if has_member(existing, u) {
                let e = choose|e: int| 0 <= e < existing.len() && (#[trigger] existing[e])@ == u;
                match p.updates@[e] {
                    Some(dd) => {
                    },
                    None => {
                        assert(desired[d].user_id@ != existing[e]@);
                    },
                }
            } else {
                assert(last_for(desired, desired[x].user_id@, x));
                let k = choose|k: int| 0 <= k < p.inserts@.len() && p.inserts@[k] == x;
                assert(desired[p.inserts@[k] as int].user_id@ == u);
            }
        }
    }
}

impl DispatchService {
    /// Reconciles the members of an order (by person) with the records an
    /// assignment asks for: members it names are updated from their last
    /// record and stay active, the others are deactivated, and the people
    /// who are not members yet are added from their last record.
    pub fn plan_member_sync(existing_user_ids: &Vec<String>, desired: &Vec<AssignedMember>) -> (r: MemberSyncPlan)
        ensures
            member_sync_planned(existing_user_ids@, desired@, r),
    {
        let mut updates: Vec<Option<usize>> = Vec::new();
        let mut e: usize = 0;
        while e < existing_user_ids.len()
            invariant
                e <= existing_user_ids@.len(),
                updates@.len() == e,
                forall|x: int|
                    0 <= x < e ==> match #[trigger] updates@[x] {
                        Some(d) => last_for(desired@, existing_user_ids@[x]@, d as int),
                        None => forall|k: int|
                            0 <= k < desired@.len() ==> (#[trigger] desired@[k]).user_id@ != existing_user_ids@[x]@,
                    },
            decreases existing_user_ids@.len() - e,
        {
            updates.push(last_record(desired, existing_user_ids[e].as_str()));
            e = e + 1;
        }
        let mut inserts: Vec<usize> = Vec::new();
        let mut d: usize = 0;
        while d < desired.len()
            invariant
                d <= desired@.len(),
                forall|a: int, b: int| 0 <= a < b < inserts@.len() ==> #[trigger] inserts@[a] < #[trigger] inserts@[b],
                forall|k: int| 0 <= k < inserts@.len() ==> #[trigger] inserts@[k] < d,
                forall|k: int|
                    0 <= k < inserts@.len() ==> last_for(
                        desired@,
                        desired@[#[trigger] inserts@[k] as int].user_id@,
                        inserts@[k] as int,
                    ) && !has_member(existing_user_ids@, desired@[inserts@[k] as int].user_id@),
                forall|x: int|
                    0 <= x < d && last_for(desired@, (#[trigger] desired@[x]).user_id@, x) && !has_member(
                        existing_user_ids@,
                        desired@[x].user_id@,
                    ) ==> exists|k: int| 0 <= k < inserts@.len() && inserts@[k] == x,
            decreases desired@.len() - d,
        {
            let u = desired[d].user_id.as_str();
            let last = last_record(desired, u);
            if last == Some(d) && !is_member(existing_user_ids, u) {
                let ghost i0 = inserts@;
                inserts.push(d);
                proof {
                    assert forall|x: int|
                        0 <= x < d + 1 && last_for(desired@, (#[trigger] desired@[x]).user_id@, x) && !has_member(
                            existing_user_ids@,
                            desired@[x].user_id@,
                        ) implies exists|k: int| 0 <= k < inserts@.len() && inserts@[k] == x by {
                        if x < d {
                            let k = choose|k: int| 0 <= k < i0.len() && i0[k] == x;
                            assert(inserts@[k] == x);
                        } else {
                            assert(inserts@[i0.len() as int] == x);
                        }
                    }
                }
            } else {
                proof {
                    if last_for(desired@, desired@[d as int].user_id@, d as int) {
                        match last {
                            Some(l) => {
                                if l != d {
                                    if l < d {
                                        assert(desired@[d as int].user_id@ != u@);
                                    } else {
                                        assert(desired@[l as int].user_id@ != u@);
                                    }
                                }
                            },
                            None => {
                                assert(desired@[d as int].user_id@ != u@);
                            },
                        }
                    }
                }
            }
            d = d + 1;
        }
        MemberSyncPlan { updates, inserts }
    }
}

/// The fields of an order an assignment rewrites.
pub struct AssigneeFields {
    pub assignee_type: AssigneeType,
    pub team_id: Option<String>,
    pub team_name: Option<String>,
    pub individual_user_id: Option<String>,
    pub individual_username: Option<String>,
    pub driver_type: Option<AssigneeType>,
    pub driver_team_id: Option<String>,
    pub driver_user_id: Option<String>,
    pub department_rule_version: Option<String>,
    pub availability_reason: Option<String>,
    pub lock_level: LockLevel,
}

/// The lock a (trimmed) lock text names; anything unknown is optimisable.
pub open spec fn lock_of(t: Seq<char>) -> LockLevel {
    if t == "active"@ {
        LockLevel::Active
    } else if t == "frozen"@ {
        LockLevel::Frozen
    } else if t == "manual_lock"@ {
        LockLevel::ManualLock
    } else {
        LockLevel::Optimizable
    }
}

impl DispatchService {
    /// Rewrites an order's assignee from an assignment: a team assignment
    /// takes its team (and clears the person), an individual one its person
    /// (and clears the team), anything else leaves the assignee; the driver
    /// binding, rule version and availability reason are replaced, and a
    /// lock it names replaces the order's.
    pub fn apply_assignment_json(fields: &mut AssigneeFields, a: &AssignmentPayload)
        ensures
            ({
                let k = norm(a.assignee_type);
                if k == Some("team"@) {
                    &&& final(fields).assignee_type == AssigneeType::Team
                    &&& opt_chars(final(fields).team_id) == opt_chars(a.team_id)
                    &&& opt_chars(final(fields).team_name) == opt_chars(a.team_name)
                    &&& final(fields).individual_user_id is None
                    &&& final(fields).individual_username is None
                } else if k == Some("individual"@) {
                    &&& final(fields).assignee_type == AssigneeType::Individual
                    &&& opt_chars(final(fields).individual_user_id) == opt_chars(a.individual_user_id)
                    &&& opt_chars(final(fields).individual_username) == opt_chars(a.individual_username)
                    &&& final(fields).team_id is None
                    &&& final(fields).team_name is None
                } else {
                    &&& final(fields).assignee_type == old(fields).assignee_type
                    &&& final(fields).team_id == old(fields).team_id
                    &&& final(fields).team_name == old(fields).team_name
                    &&& final(fields).individual_user_id == old(fields).individual_user_id
                    &&& final(fields).individual_username == old(fields).individual_username
                }
            }),
            final(fields).driver_type == payload_driver_type(*a),
            opt_chars(final(fields).driver_team_id) == norm(a.driver_team_id),
            opt_chars(final(fields).driver_user_id) == payload_driver_user(*a),
            opt_chars(final(fields).department_rule_version) == norm(a.department_rule_version),
            opt_chars(final(fields).availability_reason) == opt_chars(a.availability_reason),
            final(fields).lock_level == match norm(a.lock_level) {
                Some(l) => lock_of(l),
                None => old(fields).lock_level,
            },
    {
        proof {
            reveal_strlit("team");
            reveal_strlit("individual");
            reveal_strlit("active");
            reveal_strlit("frozen");
            reveal_strlit("manual_lock");
        }
        let kind = normalized(&a.assignee_type);
        match &kind {
            Some(k) => {
                if text_eq(k.as_str(), "team") {
                    fields.assignee_type = AssigneeType::Team;
                    fields.team_id = copy(&a.team_id);
                    fields.team_name = copy(&a.team_name);
                    fields.individual_user_id = None;
                    fields.individual_username = None;
                } else if text_eq(k.as_str(), "individual") {
                    fields.assignee_type = AssigneeType::Individual;
                    fields.individual_user_id = copy(&a.individual_user_id);
                    fields.individual_username = copy(&a.individual_username);
                    fields.team_id = None;
                    fields.team_name = None;
                }
            },
            None => {
            },
        }
        let (driver_type, driver_team_id, driver_user_id) = Self::assignment_driver_binding(a);
        fields.driver_type = driver_type;
        fields.driver_team_id = driver_team_id;
        fields.driver_user_id = driver_user_id;
        fields.department_rule_version = normalized(&a.department_rule_version);
        fields.availability_reason = copy(&a.availability_reason);
        match normalized(&a.lock_level) {
            Some(l) => {
                fields.lock_level = if text_eq(l.as_str(), "active") {
                    LockLevel::Active
                } else if text_eq(l.as_str(), "frozen") {
                    LockLevel::Frozen
                } else if text_eq(l.as_str(), "manual_lock") {
                    LockLevel::ManualLock
                } else {
                    LockLevel::Optimizable
                };
            },
            None => {
            },
        }
    }
}

} // verus!
