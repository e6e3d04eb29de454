//! Checking a proposed order against the plan: which active orders it
//! overlaps for the same team, person or stand, which equipment is taken,
//! and the deduplicated, most-severe-first list of conflicts reported.

use vstd::prelude::*;
use crate::model::{is_instant, status_text, DispatchOrder, OrderStatus};
use crate::rules::{DispatchService, normalized_opt, service_interval_start, service_order_crew, string_views};
use crate::publication::opt_chars;
use crate::idset::{seq_lt, lemma_lt_asymmetric, lemma_lt_transitive};
use crate::generation::opt_view;
use crate::text::{copy_opt, copy_list, owned, text_eq, trim, trimmed, is_blank};
use crate::idset::text_lt;

verus! {

/// A conflict a proposed order has with the plan.
pub struct OrderConflict {
    pub conflict_type: String,
    pub severity: String,
    pub resource_id: Option<String>,
    pub resource_name: Option<String>,
    /// The order it conflicts with, where it names one.
    pub related_dispatch_order_id: Option<String>,
    pub message: String,
    pub suggested_action: Option<String>,
    /// The status of the order it conflicts with, where the conflict reports it.
    pub conflict_order_status: Option<String>,
    /// The people the two orders share, for a conflict over a person.
    pub matched_user_ids: Option<Vec<String>>,
}

/// A booking of requested equipment by another order in the window; a
/// field that is missing or not text is `None`.
pub struct EquipmentConflictRow {
    pub equipment_id: Option<String>,
    pub dispatch_order_id: Option<String>,
}

/// One problem found with a proposed order.
pub struct ValidationIssue {
    pub field: String,
    pub message: String,
    pub conflict_order_id: Option<String>,
    pub conflict_type: Option<String>,
    pub severity: Option<String>,
}

/// The verdict on a proposed order.
pub struct OrderValidation {
    pub valid: bool,
    pub has_conflicts: bool,
    pub errors: Vec<ValidationIssue>,
    pub conflicts: Vec<OrderConflict>,
}

/// A conflict by its values.
pub struct ConflictView {
    pub kind: Seq<char>,
    pub severity: Seq<char>,
    pub resource_id: Option<Seq<char>>,
    pub resource_name: Option<Seq<char>>,
    pub related: Option<Seq<char>>,
    pub message: Seq<char>,
    pub action: Option<Seq<char>>,
    pub status: Option<Seq<char>>,
    pub matched: Option<Seq<Seq<char>>>,
}

/// A conflict by its values.
pub open spec fn conflict_view(c: OrderConflict) -> ConflictView {
    ConflictView {
        kind: c.conflict_type@,
        severity: c.severity@,
        resource_id: opt_chars(c.resource_id),
        resource_name: opt_chars(c.resource_name),
        related: opt_chars(c.related_dispatch_order_id),
        message: c.message@,
        action: opt_chars(c.suggested_action),
        status: opt_chars(c.conflict_order_status),
        matched: match c.matched_user_ids {
            Some(v) => Some(string_views(v@)),
            None => None,
        },
    }
}

/// Conflicts by their values.
pub open spec fn conflict_views(cs: Seq<OrderConflict>) -> Seq<ConflictView> {
    Seq::new(cs.len(), |i: int| conflict_view(cs[i]))
}

/// The lower-cased `{:?}` text of a status.
pub open spec fn status_debug_lower(s: OrderStatus) -> Seq<char> {
    match s {
        OrderStatus::Pending => "pending"@,
        OrderStatus::Assigned => "assigned"@,
        OrderStatus::InProgress => "inprogress"@,
        OrderStatus::Completed => "completed"@,
        OrderStatus::Cancelled => "cancelled"@,
    }
}

fn status_debug_lower_value(s: OrderStatus) -> (r: &'static str)
    ensures
        r@ == status_debug_lower(s),
{
    match s {
        OrderStatus::Pending => "pending",
        OrderStatus::Assigned => "assigned",
        OrderStatus::InProgress => "inprogress",
        OrderStatus::Completed => "completed",
        OrderStatus::Cancelled => "cancelled",
    }
}

/// The end of an order's busy interval for the service.
pub open spec fn service_interval_end(o: &DispatchOrder, now: i64) -> int {
    let start = service_interval_start(o, now) as int;
    let end = match o.actual_end_time {
        Some(e) => e as int,
        None => match o.planned_end_time {
            Some(e) => e as int,
            None => start + 900,
        },
    };
    if end < start {
        start
    } else {
        end
    }
}

/// Whether an order's busy interval meets the window from `start` to `end`
/// (touching counts).
pub open spec fn meets_window(o: &DispatchOrder, start: i64, end: i64) -> bool {
    !(service_interval_end(o, start) < start || end < service_interval_start(o, start))
}

/// The people of a crew who are `user`.
pub open spec fn matched_users(crew: Seq<Seq<char>>, user: Seq<char>) -> Seq<Seq<char>>
    decreases crew.len(),
{
    if crew.len() == 0 {
        Seq::empty()
    } else {
        matched_users(crew.drop_last(), user) + if crew.last() == user {
            seq![crew.last()]
        } else {
            Seq::empty()
        }
    }
}

/// The conflict of a proposed order with an order of the same team.
pub open spec fn team_conflict(o: DispatchOrder, team: Seq<char>) -> ConflictView {
    ConflictView {
        kind: "team_overlap"@,
        severity: "high"@,
        resource_id: Some(team),
        resource_name: opt_chars(o.team_name),
        related: Some(o.id@),
        message: "班组在目标时间段已被占用"@,
        action: Some("更换班组或调整任务时间"@),
        status: Some(status_text(o.status)),
        matched: None,
    }
}

/// The conflict of a proposed order with an order of the same person.
pub open spec fn person_conflict(o: DispatchOrder, user: Seq<char>, matched: Seq<Seq<char>>) -> ConflictView {
    ConflictView {
        kind: "individual_overlap"@,
        severity: "high"@,
        resource_id: Some(user),
        resource_name: opt_chars(o.individual_username),
        related: Some(o.id@),
        message: "人员在目标时间段已有派工任务"@,
        action: Some("更换人员或调整任务时间"@),
        status: Some(status_debug_lower(o.status)),
        matched: Some(matched),
    }
}

/// The conflict of a proposed order with an order on the same stand.
pub open spec fn stand_conflict(o: DispatchOrder, stand: Seq<char>) -> ConflictView {
    ConflictView {
        kind: "stand_overlap"@,
        severity: "medium"@,
        resource_id: Some(stand),
        resource_name: opt_chars(o.stand_code),
        related: Some(o.id@),
        message: "机位同时间段存在保障任务重叠"@,
        action: Some("确认机位占用计划并调整时间窗口"@),
        status: Some(status_text(o.status)),
        matched: None,
    }
}

/// The conflicts of a proposed order for `team`, `user` and `stand` with
/// one order it meets: the same team, the person in its crew, the same
/// stand, in that order.
pub open spec fn order_conflicts(
    o: DispatchOrder,
    team: Option<Seq<char>>,
    user: Option<Seq<char>>,
    stand: Option<Seq<char>>,
) -> Seq<ConflictView> {
    let team_part = match team {
        Some(t) => if opt_chars(o.team_id) == Some(t) {
            seq![team_conflict(o, t)]
        } else {
            Seq::empty()
        },
        None => Seq::empty(),
    };
    let person_part = match user {
        Some(u) => {
            let m = matched_users(service_order_crew(&o), u);
            if m.len() > 0 {
                seq![person_conflict(o, u, m)]
            } else {
                Seq::empty()
            }
        },
        None => Seq::empty(),
    };
    let stand_part = match stand {
        Some(s) => if opt_chars(o.stand_id) == Some(s) {
            seq![stand_conflict(o, s)]
        } else {
            Seq::empty()
        },
        None => Seq::empty(),
    };
    team_part + person_part + stand_part
}

/// The conflicts with the active orders, order by order: an order the
/// proposal replaces (`exclude`) or whose busy interval misses the window
/// has none.
pub open spec fn window_conflicts(
    orders: Seq<DispatchOrder>,
    start: i64,
    end: i64,
    exclude: Option<Seq<char>>,
    team: Option<Seq<char>>,
    user: Option<Seq<char>>,
    stand: Option<Seq<char>>,
) -> Seq<ConflictView>
    decreases orders.len(),
{
    if orders.len() == 0 {
        Seq::empty()
    } else {
        let o = orders.last();
        window_conflicts(orders.drop_last(), start, end, exclude, team, user, stand) + if exclude == Some(o.id@)
            || !meets_window(&o, start, end) {
            Seq::empty()
        } else {
            order_conflicts(o, team, user, stand)
        }
    }
}

/// The conflict of a booking of requested equipment.
pub open spec fn equipment_conflict(row: EquipmentConflictRow) -> ConflictView {
    ConflictView {
        kind: "equipment_overlap"@,
        severity: "high"@,
        resource_id: opt_chars(row.equipment_id),
        resource_name: None,
        related: match row.dispatch_order_id {
            Some(id) => if id@.len() == 0 {
                None
            } else {
                Some(id@)
            },
            None => None,
        },
        message: "设备在目标时间段已被占用"@,
        action: Some("更换设备或调整任务时间"@),
        status: None,
        matched: None,
    }
}

/// The conflicts of the bookings of requested equipment, in order.
pub open spec fn equipment_conflicts(rows: Seq<EquipmentConflictRow>) -> Seq<ConflictView> {
    Seq::new(rows.len(), |i: int| equipment_conflict(rows[i]))
}

/// The rank of a conflict's severity: critical 4, high 3, medium 2, else 1.
pub open spec fn severity_rank_of(s: Seq<char>) -> int {
    if s == "critical"@ {
        4
    } else if s == "high"@ {
        3
    } else if s == "medium"@ {
        2
    } else {
        1
    }
}

/// What makes two conflicts the same: type, resource and related order
/// (a missing one counting as empty).
pub open spec fn same_conflict(a: ConflictView, b: ConflictView) -> bool {
    &&& a.kind == b.kind
    &&& (match a.resource_id { Some(x) => x, None => Seq::empty() }) == (match b.resource_id { Some(x) => x, None => Seq::empty() })
    &&& (match a.related { Some(x) => x, None => Seq::empty() }) == (match b.related { Some(x) => x, None => Seq::empty() })
}

/// The first position of a conflict the same as `c`.
pub open spec fn same_position(kept: Seq<ConflictView>, c: ConflictView) -> Option<int>
    decreases kept.len(),
{
    if kept.len() == 0 {
        None
    } else {
        match same_position(kept.drop_last(), c) {
            Some(i) => Some(i),
            None => if same_conflict(kept.last(), c) {
                Some(kept.len() - 1)
            } else {
                None
            },
        }
    }
}

/// One conflict of each kind, in order of first report: of conflicts the
/// same, the first of the most severe.
pub open spec fn kept_conflicts(items: Seq<ConflictView>) -> Seq<ConflictView>
    decreases items.len(),
{
    if items.len() == 0 {
        Seq::empty()
    } else {
        let kept = kept_conflicts(items.drop_last());
        let x = items.last();
        match same_position(kept, x) {
            Some(i) => if severity_rank_of(x.severity) <= severity_rank_of(kept[i].severity) {
                kept
            } else {
                kept.update(i, x)
            },
            None => kept.push(x),
        }
    }
}

/// Whether conflict `a` is reported before `b`: more severe first, then by type.
pub open spec fn reported_before(a: ConflictView, b: ConflictView) -> bool {
    severity_rank_of(a.severity) > severity_rank_of(b.severity) || (severity_rank_of(a.severity)
        == severity_rank_of(b.severity) && seq_lt(a.kind, b.kind))
}

/// The position at which `x` joins a sorted list: before the first entry
/// it is reported before.
pub open spec fn report_position(sorted: Seq<ConflictView>, x: ConflictView) -> int
    decreases sorted.len(),
{
    if sorted.len() == 0 {
        0
    } else if reported_before(x, sorted[0]) {
        0
    } else {
        1 + report_position(sorted.drop_first(), x)
    }
}

/// The conflicts in report order: more severe first, then by type, equal
/// ones in the order given.
pub open spec fn report_order(items: Seq<ConflictView>) -> Seq<ConflictView>
    decreases items.len(),
{
    if items.len() == 0 {
        Seq::empty()
    } else {
        let s = report_order(items.drop_last());
        s.insert(report_position(s, items.last()), items.last())
    }
}

/// The trimmed, non-blank texts of a list, in order.
pub open spec fn trimmed_nonblank(xs: Seq<Seq<char>>) -> Seq<Seq<char>>
    decreases xs.len(),
{
    if xs.len() == 0 {
        Seq::empty()
    } else {
        trimmed_nonblank(xs.drop_last()) + if is_blank(xs.last()) {
            Seq::empty()
        } else {
            seq![trimmed(xs.last())]
        }
    }
}

/// A problem by its values: field, message, conflicting order, type and severity.
pub open spec fn issue_view(e: ValidationIssue) -> (Seq<char>, Seq<char>, Option<Seq<char>>, Option<Seq<char>>, Option<Seq<char>>) {
    (e.field@, e.message@, opt_chars(e.conflict_order_id), opt_chars(e.conflict_type), opt_chars(e.severity))
}

/// The problem a reported conflict stands for.
pub open spec fn conflict_issue(c: ConflictView) -> (Seq<char>, Seq<char>, Option<Seq<char>>, Option<Seq<char>>, Option<Seq<char>>) {
    (
        "time_window"@,
        c.message,
        match c.related {
            Some(id) => if id.len() == 0 {
                None
            } else {
                Some(id)
            },
            None => None,
        },
        Some(c.kind),
        Some(c.severity),
    )
}

/// Whether `t` seconds since the epoch, and fifteen minutes after, are
/// representable instants for each order's busy interval.
pub open spec fn intervals_representable(orders: Seq<DispatchOrder>, start: i64) -> bool {
    forall|i: int| 0 <= i < orders.len() ==> is_instant(service_interval_start(&#[trigger] orders[i], start) as int + 900)
}


fn copy_conflict(c: &OrderConflict) -> (r: OrderConflict)
    ensures
        conflict_view(r) == conflict_view(*c),
{
    OrderConflict {
        conflict_type: c.conflict_type.clone(),
        severity: c.severity.clone(),
        resource_id: copy_opt(&c.resource_id),
        resource_name: copy_opt(&c.resource_name),
        related_dispatch_order_id: copy_opt(&c.related_dispatch_order_id),
        message: c.message.clone(),
        suggested_action: copy_opt(&c.suggested_action),
        conflict_order_status: copy_opt(&c.conflict_order_status),
        matched_user_ids: match &c.matched_user_ids {
            Some(v) => Some(copy_list(v)),
            None => None,
        },
    }
}

proof fn lemma_views_push(cs: Seq<OrderConflict>, c: OrderConflict)
    ensures
        conflict_views(cs.push(c)) == conflict_views(cs).push(conflict_view(c)),
{
    assert(conflict_views(cs.push(c)) =~= conflict_views(cs).push(conflict_view(c)));
}

fn matched_user_ids(crew: &Vec<String>, user: &str) -> (r: Vec<String>)
    ensures
        string_views(r@) == matched_users(string_views(crew@), user@),
{
    let mut r: Vec<String> = Vec::new();
    let mut i: usize = 0;
    while i < crew.len()
        invariant
            i <= crew.len(),
            string_views(r@) == matched_users(string_views(crew@).take(i as int), user@),
        decreases crew.len() - i,
    {
        proof {
            let sv = string_views(crew@);
            assert(sv.take(i + 1).drop_last() =~= sv.take(i as int));
            assert(sv.take(i + 1).last() == crew@[i as int]@);
        }
        if text_eq(crew[i].as_str(), user) {
            let ghost before = r@;
            r.push(crew[i].clone());
            assert(string_views(r@) =~= string_views(before) + seq![crew@[i as int]@]);
        } else {
            assert(matched_users(string_views(crew@).take(i as int), user@) + Seq::<Seq<char>>::empty()
                =~= matched_users(string_views(crew@).take(i as int), user@));
        }
        i += 1;
    }
    assert(string_views(crew@).take(crew.len() as int) =~= string_views(crew@));
    r
}

fn same_text_opt(a: &Option<String>, b: Option<&str>) -> (r: bool)
    ensures
        r == (opt_chars(*a) == opt_view(b)),
{
    match (a, b) {
        (Some(x), Some(y)) => text_eq(x.as_str(), y),
        (None, None) => true,
        _ => false,
    }
}

fn push_order_conflicts(
    o: &DispatchOrder,
    team: Option<&str>,
    user: Option<&str>,
    stand: Option<&str>,
    out: &mut Vec<OrderConflict>,
)
    ensures
        conflict_views(final(out)@) == conflict_views(old(out)@) + order_conflicts(
            *o,
            opt_view(team),
            opt_view(user),
            opt_view(stand),
        ),
{
    let ghost start = conflict_views(out@);
    let ghost team_part: Seq<ConflictView> = match opt_view(team) {
        Some(t) => if opt_chars(o.team_id) == Some(t) {
            seq![team_conflict(*o, t)]
        } else {
            Seq::empty()
        },
        None => Seq::empty(),
    };
    let ghost person_part: Seq<ConflictView> = match opt_view(user) {
        Some(u) => {
            let m = matched_users(service_order_crew(o), u);
            if m.len() > 0 {
                seq![person_conflict(*o, u, m)]
            } else {
                Seq::empty()
            }
        },
        None => Seq::empty(),
    };
    match team {
        Some(t) => {
            if same_text_opt(&o.team_id, Some(t)) {
                let c = OrderConflict {
                    conflict_type: owned("team_overlap"),
                    severity: owned("high"),
                    resource_id: Some(owned(t)),
                    resource_name: copy_opt(&o.team_name),
                    related_dispatch_order_id: Some(o.id.clone()),
                    message: owned("班组在目标时间段已被占用"),
                    suggested_action: Some(owned("更换班组或调整任务时间")),
                    conflict_order_status: Some(owned(crate::model::status_value(o.status))),
                    matched_user_ids: None,
                };
                proof { lemma_views_push(out@, c); }
                out.push(c);
            }
        },
        None => {},
    }
    assert(conflict_views(out@) =~= start + team_part);
    match user {
        Some(u) => {
            let crew = DispatchService::order_member_user_ids(o);
            let matched = matched_user_ids(&crew, u);
            if matched.len() > 0 {
                let c = OrderConflict {
                    conflict_type: owned("individual_overlap"),
                    severity: owned("high"),
                    resource_id: Some(owned(u)),
                    resource_name: copy_opt(&o.individual_username),
                    related_dispatch_order_id: Some(o.id.clone()),
                    message: owned("人员在目标时间段已有派工任务"),
                    suggested_action: Some(owned("更换人员或调整任务时间")),
                    conflict_order_status: Some(owned(status_debug_lower_value(o.status))),
                    matched_user_ids: Some(matched),
                };
                proof { lemma_views_push(out@, c); }
                out.push(c);
            }
        },
        None => {},
    }
    assert(conflict_views(out@) =~= start + team_part + person_part);
    match stand {
        Some(st) => {
            if same_text_opt(&o.stand_id, Some(st)) {
                let c = OrderConflict {
                    conflict_type: owned("stand_overlap"),
                    severity: owned("medium"),
                    resource_id: Some(owned(st)),
                    resource_name: copy_opt(&o.stand_code),
                    related_dispatch_order_id: Some(o.id.clone()),
                    message: owned("机位同时间段存在保障任务重叠"),
                    suggested_action: Some(owned("确认机位占用计划并调整时间窗口")),
                    conflict_order_status: Some(owned(crate::model::status_value(o.status))),
                    matched_user_ids: None,
                };
                proof { lemma_views_push(out@, c); }
                out.push(c);
            }
        },
        None => {},
    }
    assert(conflict_views(out@) =~= start + order_conflicts(*o, opt_view(team), opt_view(user), opt_view(stand)));
}

fn exclusion_matches(exclude: Option<&str>, id: &String) -> (r: bool)
    ensures
        r == (opt_view(exclude) == Some(id@)),
{
    match exclude {
        Some(e) => text_eq(e, id.as_str()),
        None => false,
    }
}

fn push_window_conflicts(
    orders: &Vec<DispatchOrder>,
    start: i64,
    end: i64,
    exclude: Option<&str>,
    team: Option<&str>,
    user: Option<&str>,
    stand: Option<&str>,
    out: &mut Vec<OrderConflict>,
)
    requires
        intervals_representable(orders@, start),
        old(out)@.len() == 0,
    ensures
        conflict_views(final(out)@) == window_conflicts(
            orders@,
            start,
            end,
            opt_view(exclude),
            opt_view(team),
            opt_view(user),
            opt_view(stand),
        ),
{
    assert(conflict_views(out@) =~= Seq::<ConflictView>::empty());
    let mut i: usize = 0;
    while i < orders.len()
        invariant
            i <= orders.len(),
            intervals_representable(orders@, start),
            conflict_views(out@) == window_conflicts(
                orders@.take(i as int),
                start,
                end,
                opt_view(exclude),
                opt_view(team),
                opt_view(user),
                opt_view(stand),
            ),
        decreases orders.len() - i,
    {
        let o = &orders[i];
        proof {
            assert(orders@.take(i + 1).drop_last() =~= orders@.take(i as int));
            assert(orders@.take(i + 1).last() == *o);
        }
        let ghost before = conflict_views(out@);
        if exclusion_matches(exclude, &o.id) {
            assert(before + Seq::<ConflictView>::empty() =~= before);
        } else {
            assert(is_instant(service_interval_start(&orders@[i as int], start) as int + 900));
            let (os, oe) = DispatchService::effective_interval(o, start);
            if oe < start || end < os {
                assert(before + Seq::<ConflictView>::empty() =~= before);
            } else {
                push_order_conflicts(o, team, user, stand, out);
            }
        }
        i += 1;
    }
    assert(orders@.take(orders.len() as int) =~= orders@);
}

fn push_equipment_conflicts(rows: &Vec<EquipmentConflictRow>, out: &mut Vec<OrderConflict>)
    ensures
        conflict_views(final(out)@) == conflict_views(old(out)@) + equipment_conflicts(rows@),
{
    let ghost start = conflict_views(out@);
    let mut i: usize = 0;
    while i < rows.len()
        invariant
            i <= rows.len(),
            conflict_views(out@) == start + equipment_conflicts(rows@.take(i as int)),
        decreases rows.len() - i,
    {
        let row = &rows[i];
        let related: Option<String> = match &row.dispatch_order_id {
            Some(id) => if id.unicode_len() == 0 {
                None
            } else {
                Some(id.clone())
            },
            None => None,
        };
        let c = OrderConflict {
            conflict_type: owned("equipment_overlap"),
            severity: owned("high"),
            resource_id: copy_opt(&row.equipment_id),
            resource_name: None,
            related_dispatch_order_id: related,
            message: owned("设备在目标时间段已被占用"),
            suggested_action: Some(owned("更换设备或调整任务时间")),
            conflict_order_status: None,
            matched_user_ids: None,
        };
        proof { lemma_views_push(out@, c); }
        out.push(c);
        assert(equipment_conflicts(rows@.take(i + 1)) =~= equipment_conflicts(rows@.take(i as int)).push(equipment_conflict(*row)));
        i += 1;
    }
    assert(rows@.take(rows.len() as int) =~= rows@);
}

proof fn lemma_same_position(kept: Seq<ConflictView>, c: ConflictView)
    ensures
        match same_position(kept, c) {
            Some(i) => 0 <= i < kept.len() && same_conflict(kept[i], c) && forall|k: int| 0 <= k < i ==> !same_conflict(#[trigger] kept[k], c),
            None => forall|k: int| 0 <= k < kept.len() ==> !same_conflict(#[trigger] kept[k], c),
        },
    decreases kept.len(),
{
    if kept.len() > 0 {
        lemma_same_position(kept.drop_last(), c);
        assert forall|k: int| 0 <= k < kept.len() - 1 implies kept.drop_last()[k] == kept[k] by {}
    }
}

fn resource_text(o: &Option<String>) -> (r: &str)
    ensures
        r@ == match *o {
            Some(x) => x@,
            None => Seq::<char>::empty(),
        },
{
    match o {
        Some(x) => x.as_str(),
        None => {
            proof { reveal_strlit(""); }
            ""
        },
    }
}

fn same_conflict_exec(a: &OrderConflict, b: &OrderConflict) -> (r: bool)
    ensures
        r == same_conflict(conflict_view(*a), conflict_view(*b)),
{
    text_eq(a.conflict_type.as_str(), b.conflict_type.as_str())
        && text_eq(resource_text(&a.resource_id), resource_text(&b.resource_id))
        && text_eq(resource_text(&a.related_dispatch_order_id), resource_text(&b.related_dispatch_order_id))
}

fn rank_of(c: &OrderConflict) -> (r: i32)
    ensures
        r == severity_rank_of(c.severity@),
{
    DispatchService::severity_rank(c.severity.as_str())
}

fn keep_conflicts(items: &Vec<OrderConflict>) -> (r: Vec<OrderConflict>)
    ensures
        conflict_views(r@) == kept_conflicts(conflict_views(items@)),
{
    let mut kept: Vec<OrderConflict> = Vec::new();
    let mut i: usize = 0;
    assert(conflict_views(kept@) =~= kept_conflicts(conflict_views(items@).take(0)));
    while i < items.len()
        invariant
            i <= items.len(),
            conflict_views(kept@) == kept_conflicts(conflict_views(items@).take(i as int)),
        decreases items.len() - i,
    {
        let x = &items[i];
        let ghost vs = conflict_views(items@);
        let ghost kv = conflict_views(kept@);
        proof {
            assert(vs.take(i + 1).drop_last() =~= vs.take(i as int));
            assert(vs.take(i + 1).last() == conflict_view(*x));
            lemma_same_position(kv, conflict_view(*x));
        }
        let mut j: usize = 0;
        let mut found = false;
        while j < kept.len()
            invariant_except_break
                !found,
            invariant
                j <= kept.len(),
                kv == conflict_views(kept@),
                forall|k: int| 0 <= k < j ==> !same_conflict(#[trigger] kv[k], conflict_view(*x)),
            ensures
                found ==> j < kept.len() && same_conflict(kv[j as int], conflict_view(*x)),
                !found ==> j == kept.len(),
            decreases kept.len() - j,
        {
            if same_conflict_exec(&kept[j], x) {
                found = true;
                break;
            }
            j += 1;
        }
        if found {
            assert(same_position(kv, conflict_view(*x)) == Some(j as int));
            if rank_of(x) > rank_of(&kept[j]) {
                let c = copy_conflict(x);
                kept.set(j, c);
                assert(conflict_views(kept@) =~= kv.update(j as int, conflict_view(*x)));
            }
        } else {
            assert(same_position(kv, conflict_view(*x)) is None);
            let c = copy_conflict(x);
            proof { lemma_views_push(kept@, c); }
            kept.push(c);
        }
        i += 1;
    }
    assert(conflict_views(items@).take(items.len() as int) =~= conflict_views(items@));
    kept
}


proof fn lemma_report_position(sorted: Seq<ConflictView>, x: ConflictView)
    ensures
        0 <= report_position(sorted, x) <= sorted.len(),
        forall|k: int| 0 <= k < report_position(sorted, x) ==> !reported_before(x, #[trigger] sorted[k]),
        report_position(sorted, x) < sorted.len() ==> reported_before(x, sorted[report_position(sorted, x)]),
    decreases sorted.len(),
{
    if sorted.len() > 0 && !reported_before(x, sorted[0]) {
        let t = sorted.drop_first();
        lemma_report_position(t, x);
        assert forall|k: int| 0 <= k < report_position(sorted, x) implies !reported_before(x, #[trigger] sorted[k]) by {
            if k > 0 {
                assert(sorted[k] == t[k - 1]);
            }
        }
        if report_position(sorted, x) < sorted.len() {
            assert(sorted[report_position(sorted, x)] == t[report_position(t, x)]);
        }
    }
}

fn reported_before_exec(a: &OrderConflict, b: &OrderConflict) -> (r: bool)
    ensures
        r == reported_before(conflict_view(*a), conflict_view(*b)),
{
    let ra = rank_of(a);
    let rb = rank_of(b);
    ra > rb || (ra == rb && text_lt(a.conflict_type.as_str(), b.conflict_type.as_str()))
}

fn report_sorted(items: &Vec<OrderConflict>) -> (r: Vec<OrderConflict>)
    ensures
        conflict_views(r@) == report_order(conflict_views(items@)),
{
    let mut sorted: Vec<OrderConflict> = Vec::new();
    let mut i: usize = 0;
    assert(conflict_views(sorted@) =~= report_order(conflict_views(items@).take(0)));
    while i < items.len()
        invariant
            i <= items.len(),
            conflict_views(sorted@) == report_order(conflict_views(items@).take(i as int)),
        decreases items.len() - i,
    {
        let x = &items[i];
        let ghost vs = conflict_views(items@);
        let ghost sv = conflict_views(sorted@);
        proof {
            assert(vs.take(i + 1).drop_last() =~= vs.take(i as int));
            assert(vs.take(i + 1).last() == conflict_view(*x));
            lemma_report_position(sv, conflict_view(*x));
        }
        let mut p: usize = 0;
        while p < sorted.len() && !reported_before_exec(x, &sorted[p])
            invariant
                p <= sorted.len(),
                sv == conflict_views(sorted@),
                forall|k: int| 0 <= k < p ==> !reported_before(conflict_view(*x), #[trigger] sv[k]),
            decreases sorted.len() - p,
        {
            p += 1;
        }
        assert(p as int == report_position(sv, conflict_view(*x))) by {
            let q = report_position(sv, conflict_view(*x));
            if q < p {
                assert(!reported_before(conflict_view(*x), sv[q]));
            }
            if p < q {
                assert(reported_before(conflict_view(*x), sv[p as int]));
            }
        }
        let c = copy_conflict(x);
        let ghost before = sorted@;
        sorted.insert(p, c);
        assert(conflict_views(sorted@) =~= sv.insert(p as int, conflict_view(*x)));
        i += 1;
    }
    assert(conflict_views(items@).take(items.len() as int) =~= conflict_views(items@));
    sorted
}

impl DispatchService {
    /// The conflicts reported for a proposed order: of conflicts of the same
    /// type, resource and related order, the first of the most severe, then
    /// the more severe first and, among equally severe ones, by type.
    pub fn deduplicate_conflicts(items: &Vec<OrderConflict>) -> (r: Vec<OrderConflict>)
        ensures
            conflict_views(r@) == report_order(kept_conflicts(conflict_views(items@))),
    {
        let kept = keep_conflicts(items);
        report_sorted(&kept)
    }
}


/// Problems by their values.
pub open spec fn issue_views(es: Seq<ValidationIssue>) -> Seq<(Seq<char>, Seq<char>, Option<Seq<char>>, Option<Seq<char>>, Option<Seq<char>>)> {
    Seq::new(es.len(), |i: int| issue_view(es[i]))
}

/// The conflicts reported for a proposed order from `start` to `end` for
/// `team`, `user` and `stand` (each trimmed, blank ones ignored): none for
/// an empty window; else the conflicts with the active orders, then those
/// of the bookings of its requested equipment (where it requests any),
/// deduplicated and in report order.
pub open spec fn validation_conflicts(
    start: i64,
    end: i64,
    exclude: Option<Seq<char>>,
    team: Option<Seq<char>>,
    user: Option<Seq<char>>,
    stand: Option<Seq<char>>,
    equipment_ids: Seq<Seq<char>>,
    orders: Seq<DispatchOrder>,
    bookings: Seq<EquipmentConflictRow>,
) -> Seq<ConflictView> {
    if end <= start {
        Seq::empty()
    } else {
        let found = window_conflicts(
            orders,
            start,
            end,
            normalized_opt(exclude),
            normalized_opt(team),
            normalized_opt(user),
            normalized_opt(stand),
        ) + if trimmed_nonblank(equipment_ids).len() > 0 {
            equipment_conflicts(bookings)
        } else {
            Seq::empty()
        };
        report_order(kept_conflicts(found))
    }
}

/// The problems reported for a proposed order: an empty window alone, or
/// one per reported conflict.
pub open spec fn validation_issues(start: i64, end: i64, conflicts: Seq<ConflictView>) -> Seq<
    (Seq<char>, Seq<char>, Option<Seq<char>>, Option<Seq<char>>, Option<Seq<char>>),
> {
    if end <= start {
        seq![("planned_end_time"@, "planned_end_time 必须晚于 planned_start_time"@, None, None, None)]
    } else {
        Seq::new(conflicts.len(), |i: int| conflict_issue(conflicts[i]))
    }
}

fn normalized(value: Option<&str>) -> (r: Option<&str>)
    ensures
        opt_view(r) == normalized_opt(opt_view(value)),
{
    DispatchService::normalize_optional_ref(value)
}

impl DispatchService {
    /// The trimmed, non-blank equipment identifiers of a proposal, in order.
    pub fn requested_equipment_ids(ids: &Vec<String>) -> (r: Vec<String>)
        ensures
            string_views(r@) == trimmed_nonblank(string_views(ids@)),
    {
        let mut r: Vec<String> = Vec::new();
        let mut i: usize = 0;
        while i < ids.len()
            invariant
                i <= ids.len(),
                string_views(r@) == trimmed_nonblank(string_views(ids@).take(i as int)),
            decreases ids.len() - i,
        {
            proof {
                let sv = string_views(ids@);
                assert(sv.take(i + 1).drop_last() =~= sv.take(i as int));
                assert(sv.take(i + 1).last() == ids@[i as int]@);
            }
            let t = trim(ids[i].as_str());
            if t.unicode_len() == 0 {
                assert(trimmed_nonblank(string_views(ids@).take(i as int)) + Seq::<Seq<char>>::empty()
                    =~= trimmed_nonblank(string_views(ids@).take(i as int)));
            } else {
                let ghost before = r@;
                r.push(owned(t));
                assert(string_views(r@) =~= string_views(before) + seq![t@]);
            }
            i += 1;
        }
        assert(string_views(ids@).take(ids.len() as int) =~= string_views(ids@));
        r
    }

    /// Checks a proposed order from `planned_start_time` to
    /// `planned_end_time` against the active orders in its window and the
    /// bookings of its requested equipment (both read only for a non-empty
    /// window, the bookings only where equipment is requested).
    pub fn validate_order(
        planned_start_time: i64,
        planned_end_time: i64,
        dispatch_order_id: Option<&str>,
        team_id: Option<&str>,
        individual_user_id: Option<&str>,
        stand_id: Option<&str>,
        equipment_ids: &Vec<String>,
        active_orders: &Vec<DispatchOrder>,
        equipment_bookings: &Vec<EquipmentConflictRow>,
    ) -> (r: OrderValidation)
        requires
            intervals_representable(active_orders@, planned_start_time),
        ensures
            conflict_views(r.conflicts@) == validation_conflicts(
                planned_start_time,
                planned_end_time,
                opt_view(dispatch_order_id),
                opt_view(team_id),
                opt_view(individual_user_id),
                opt_view(stand_id),
                string_views(equipment_ids@),
                active_orders@,
                equipment_bookings@,
            ),
            issue_views(r.errors@) == validation_issues(planned_start_time, planned_end_time, conflict_views(r.conflicts@)),
            r.valid == (r.errors@.len() == 0),
            r.has_conflicts == (r.conflicts@.len() > 0),
    {
        let mut errors: Vec<ValidationIssue> = Vec::new();
        if planned_end_time <= planned_start_time {
            errors.push(ValidationIssue {
                field: owned("planned_end_time"),
                message: owned("planned_end_time 必须晚于 planned_start_time"),
                conflict_order_id: None,
                conflict_type: None,
                severity: None,
            });
            let conflicts: Vec<OrderConflict> = Vec::new();
            assert(issue_views(errors@) =~= validation_issues(planned_start_time, planned_end_time, conflict_views(conflicts@)));
            assert(conflict_views(conflicts@) =~= Seq::<ConflictView>::empty());
            return OrderValidation { valid: false, has_conflicts: false, errors, conflicts };
        }
        let exclude = normalized(dispatch_order_id);
        let team = normalized(team_id);
        let user = normalized(individual_user_id);
        let stand = normalized(stand_id);
        let mut found: Vec<OrderConflict> = Vec::new();
        push_window_conflicts(active_orders, planned_start_time, planned_end_time, exclude, team, user, stand, &mut found);
        let requested = Self::requested_equipment_ids(equipment_ids);
        if requested.len() > 0 {
            push_equipment_conflicts(equipment_bookings, &mut found);
        } else {
            assert(conflict_views(found@) + Seq::<ConflictView>::empty() =~= conflict_views(found@));
        }
        let conflicts = Self::deduplicate_conflicts(&found);
        let ghost cv = conflict_views(conflicts@);
        let mut i: usize = 0;
        while i < conflicts.len()
            invariant
                i <= conflicts.len(),
                cv == conflict_views(conflicts@),
                errors@.len() == i,
                issue_views(errors@) == Seq::new(i as nat, |k: int| conflict_issue(cv[k])),
            decreases conflicts.len() - i,
        {
            let c = &conflicts[i];
            let related: Option<String> = match &c.related_dispatch_order_id {
                Some(id) => if id.unicode_len() == 0 {
                    None
                } else {
                    Some(id.clone())
                },
                None => None,
            };
            let ghost before = errors@;
            errors.push(ValidationIssue {
                field: owned("time_window"),
                message: c.message.clone(),
                conflict_order_id: related,
                conflict_type: Some(c.conflict_type.clone()),
                severity: Some(c.severity.clone()),
            });
            assert(errors@ == before.push(errors@[i as int]));
            assert(cv[i as int] == conflict_view(*c));
            assert(issue_view(errors@[i as int]) == conflict_issue(cv[i as int]));
            assert(issue_views(errors@) =~= Seq::new((i + 1) as nat, |k: int| conflict_issue(cv[k]))) by {
                assert forall|k: int| 0 <= k < i + 1 implies issue_views(errors@)[k] == conflict_issue(cv[k]) by {
                    if k < i {
                        assert(errors@[k] == before[k]);
                        assert(issue_views(before)[k] == Seq::new(i as nat, |k: int| conflict_issue(cv[k]))[k]);
                    }
                }
            }
            i += 1;
        }
        let valid = errors.len() == 0;
        let has_conflicts = conflicts.len() > 0;
        OrderValidation { valid, has_conflicts, errors, conflicts }
    }
}


proof fn lemma_before_strict(a: ConflictView, b: ConflictView, c: ConflictView)
    ensures
        reported_before(a, b) ==> !reported_before(b, a),
        reported_before(a, b) && reported_before(b, c) ==> reported_before(a, c),
{
    if reported_before(a, b) && severity_rank_of(a.severity) == severity_rank_of(b.severity) {
        lemma_lt_asymmetric(a.kind, b.kind);
    }
    if reported_before(a, b) && reported_before(b, c) && severity_rank_of(a.severity) == severity_rank_of(b.severity)
        && severity_rank_of(b.severity) == severity_rank_of(c.severity) {
        lemma_lt_transitive(a.kind, b.kind, c.kind);
    }
}

/// Whether no conflict of `s` is reported before one that comes ahead of it.
pub open spec fn in_report_order(s: Seq<ConflictView>) -> bool {
    forall|i: int, j: int| 0 <= i < j < s.len() ==> !reported_before(#[trigger] s[j], #[trigger] s[i])
}

/// The conflicts come most severe first and, among equally severe ones, by type.
pub proof fn law_conflicts_reported_most_severe_first(items: Seq<ConflictView>)
    ensures
        in_report_order(report_order(items)),
    decreases items.len(),
{
    if items.len() > 0 {
        let t = report_order(items.drop_last());
        let x = items.last();
        law_conflicts_reported_most_severe_first(items.drop_last());
        lemma_report_position(t, x);
        let p = report_position(t, x);
        let r = t.insert(p, x);
        assert(r == report_order(items));
        assert forall|i: int, j: int| 0 <= i < j < r.len() implies !reported_before(#[trigger] r[j], #[trigger] r[i]) by {
            if j < p {
                assert(r[i] == t[i] && r[j] == t[j]);
            } else if j == p {
                assert(r[i] == t[i]);
            } else if i == p {
                assert(r[j] == t[j - 1]);
                assert(reported_before(x, t[p]));
                if reported_before(t[j - 1], x) {
                    lemma_before_strict(t[j - 1], x, t[p]);
                    if j - 1 > p {
                        assert(!reported_before(t[j - 1], t[p]));
                    } else {
                        lemma_before_strict(t[p], x, t[p]);
                    }
                }
            } else if i < p {
                assert(r[i] == t[i] && r[j] == t[j - 1]);
            } else {
                assert(r[i] == t[i - 1] && r[j] == t[j - 1]);
            }
        }
    }
}

proof fn lemma_report_order_multiset(items: Seq<ConflictView>)
    ensures
        report_order(items).to_multiset() == items.to_multiset(),
    decreases items.len(),
{
    broadcast use vstd::seq_lib::group_to_multiset_ensures;
    if items.len() > 0 {
        lemma_report_order_multiset(items.drop_last());
        let t = report_order(items.drop_last());
        lemma_report_position(t, items.last());
        assert(items =~= items.drop_last().push(items.last()));
    }
}

/// Whether no two conflicts of `s` are the same conflict.
pub open spec fn distinct_conflicts(s: Seq<ConflictView>) -> bool {
    forall|i: int, j: int| 0 <= i < j < s.len() ==> !same_conflict(#[trigger] s[i], #[trigger] s[j])
}

/// Whether `out` reports a conflict the same as `c` and at least as severe.
pub open spec fn reported_as_severe(out: Seq<ConflictView>, c: ConflictView) -> bool {
    exists|j: int| 0 <= j < out.len() && same_conflict(#[trigger] out[j], c)
        && severity_rank_of(out[j].severity) >= severity_rank_of(c.severity)
}

proof fn lemma_kept_distinct(items: Seq<ConflictView>)
    ensures
        distinct_conflicts(kept_conflicts(items)),
        forall|k: int| 0 <= k < items.len() ==> reported_as_severe(kept_conflicts(items), #[trigger] items[k]),
    decreases items.len(),
{
    if items.len() > 0 {
        let pre = items.drop_last();
        lemma_kept_distinct(pre);
        let kept = kept_conflicts(pre);
        let x = items.last();
        lemma_same_position(kept, x);
        let r = kept_conflicts(items);
        assert forall|k: int| 0 <= k < items.len() implies reported_as_severe(r, #[trigger] items[k]) by {
            if k == items.len() - 1 {
                match same_position(kept, x) {
                    Some(i) => {
                        assert(same_conflict(r[i], x));
                    },
                    None => {
                        assert(r[kept.len() as int] == x);
                    },
                }
            } else {
                assert(items[k] == pre[k]);
                assert(reported_as_severe(kept, pre[k]));
                let j = choose|j: int| 0 <= j < kept.len() && same_conflict(#[trigger] kept[j], pre[k])
                    && severity_rank_of(kept[j].severity) >= severity_rank_of(pre[k].severity);
                match same_position(kept, x) {
                    Some(i) => {
                        if j == i && severity_rank_of(x.severity) > severity_rank_of(kept[i].severity) {
                            assert(same_conflict(r[j], items[k]));
                        } else {
                            assert(r[j] == kept[j]);
                        }
                    },
                    None => {
                        assert(r[j] == kept[j]);
                    },
                }
            }
        }
    }
}

/// Every conflict found is reported once: for each there is a reported
/// conflict the same as it and at least as severe, and no two reported
/// conflicts are the same.
pub proof fn law_each_conflict_reported_once(found: Seq<ConflictView>)
    ensures
        distinct_conflicts(report_order(kept_conflicts(found))),
        forall|k: int| 0 <= k < found.len() ==> reported_as_severe(report_order(kept_conflicts(found)), #[trigger] found[k]),
{
    broadcast use vstd::seq_lib::group_to_multiset_ensures;
    let kept = kept_conflicts(found);
    let r = report_order(kept);
    lemma_kept_distinct(found);
    lemma_report_order_multiset(kept);
    assert forall|i: int, j: int| 0 <= i < j < r.len() implies !same_conflict(#[trigger] r[i], #[trigger] r[j]) by {
        assert(r.to_multiset().count(r[i]) > 0);
        assert(kept.contains(r[i]));
        assert(r.to_multiset().count(r[j]) > 0);
        assert(kept.contains(r[j]));
        let a = choose|a: int| 0 <= a < kept.len() && kept[a] == r[i];
        let b = choose|b: int| 0 <= b < kept.len() && kept[b] == r[j];
        if a == b {
            assert(r.to_multiset().count(r[i]) >= 2) by {
                assert(r =~= r.take(j).push(r[j]) + r.skip(j + 1));
                assert(r.take(j) =~= r.take(i).push(r[i]) + r.take(j).skip(i + 1));
                vstd::seq_lib::lemma_multiset_commutative(r.take(j).push(r[j]), r.skip(j + 1));
                vstd::seq_lib::lemma_multiset_commutative(r.take(i).push(r[i]), r.take(j).skip(i + 1));
            }
            assert(kept.to_multiset().count(r[i]) >= 2);
            assert(kept.remove(a).contains(r[i])) by {
                assert(kept.remove(a).to_multiset().count(r[i]) > 0);
            }
            let c = choose|c: int| 0 <= c < kept.remove(a).len() && kept.remove(a)[c] == r[i];
            if c < a {
                assert(kept[c] == r[i]);
            } else {
                assert(kept[c + 1] == r[i]);
            }
        }
    }
    assert forall|k: int| 0 <= k < found.len() implies reported_as_severe(r, #[trigger] found[k]) by {
        assert(reported_as_severe(kept, found[k]));
        let j = choose|j: int| 0 <= j < kept.len() && same_conflict(#[trigger] kept[j], found[k])
            && severity_rank_of(kept[j].severity) >= severity_rank_of(found[k].severity);
        assert(kept.to_multiset().count(kept[j]) > 0);
        assert(r.contains(kept[j]));
        let m = choose|m: int| 0 <= m < r.len() && r[m] == kept[j];
        assert(same_conflict(r[m], found[k]));
    }
}

} // verus!
