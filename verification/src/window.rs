//! Window re-optimisation: the window itself, which orders in it stay
//! frozen, and what the frozen orders book of their crews.

use vstd::prelude::*;
use crate::text::{trim, trimmed, is_blank, text_eq};
use crate::idset::{sorted_ids, has_id, insert_sorted};
use crate::model::{DispatchOrder, DispatchError, OrderStatus, LockLevel, is_instant};
use crate::rules::{
    DispatchService,
    UserBookings,
    booking_overlaps,
    window_interval,
    service_order_crew,
    string_views,
};

verus! {

/// The message of a window scope without both bounds.
pub open spec fn window_bounds_missing() -> Seq<char> {
    "window scope 需要 window_start/window_end"@
}

/// The message of a window that does not end after it starts.
pub open spec fn window_not_after() -> Seq<char> {
    "window_end 必须晚于 window_start"@
}

/// How long before its start an order is frozen automatically (seconds).
pub const AUTO_FREEZE_LEAD_SECONDS: i64 = 900;

/// Whether an order in the window stays as it is: frozen by request (its
/// trimmed identifier among the trimmed `explicit` ones), started or
/// finished, locked, or starting by `cutoff`.
pub open spec fn frozen_in_window(o: DispatchOrder, explicit: Seq<String>, cutoff: int) -> bool {
    ||| exists|k: int| 0 <= k < explicit.len() && trimmed((#[trigger] explicit[k])@) == trimmed(o.id@)
    ||| o.status == OrderStatus::InProgress
    ||| o.status == OrderStatus::Completed
    ||| o.status == OrderStatus::Cancelled
    ||| o.lock_level == LockLevel::Frozen
    ||| o.lock_level == LockLevel::ManualLock
    ||| match o.planned_start_time {
        Some(t) => t <= cutoff,
        None => false,
    }
}

/// The positions of the orders with an identifier that are frozen (or, for
/// `frozen == false`, free), in increasing order.
pub open spec fn window_positions(orders: Seq<DispatchOrder>, explicit: Seq<String>, cutoff: int, frozen: bool) -> Seq<
    int,
>
    decreases orders.len(),
{
    if orders.len() == 0 {
        Seq::empty()
    } else {
        let prev = window_positions(orders.drop_last(), explicit, cutoff, frozen);
        let o = orders.last();
        if !is_blank(o.id@) && frozen_in_window(o, explicit, cutoff) == frozen {
            prev.push(orders.len() - 1)
        } else {
            prev
        }
    }
}

/// The orders of a window split for re-optimisation.
pub struct WindowPartition {
    /// Identifiers of the frozen orders, trimmed, in increasing order, each once.
    pub frozen_order_ids: Vec<String>,
    /// Positions of the frozen orders, in increasing order.
    pub frozen: Vec<usize>,
    /// Positions of the orders the optimiser may reassign, in increasing order.
    pub candidates: Vec<usize>,
}

/// The positions as integers.
pub open spec fn positions(v: Seq<usize>) -> Seq<int> {
    v.map_values(|x: usize| x as int)
}

/// Whether the order with window interval `w` books its crew in `[s, e)`.
pub open spec fn meets(w: (int, int), s: int, e: int) -> bool {
    w.0 < e && s < w.1
}

/// The window interval of an order can be formed: one without a planned
/// end ends fifteen minutes after it starts, which must stay representable.
pub open spec fn window_interval_defined(o: DispatchOrder, fallback_start: i64) -> bool {
    o.planned_end_time is None ==> is_instant(
        match o.planned_start_time {
            Some(s) => s as int,
            None => fallback_start as int,
        } + 900,
    )
}

/// Each user has at most one entry.
pub open spec fn users_unique(b: Seq<UserBookings>) -> bool {
    forall|i: int, j: int| 0 <= i < j < b.len() ==> (#[trigger] b[i]).user_id@ != (#[trigger] b[j]).user_id@
}

/// Whether `u` has a booking in `b` that meets `[s, e)`.
pub open spec fn has_booking(b: Seq<UserBookings>, u: Seq<char>, s: i64, e: i64) -> bool {
    exists|i: int, j: int|
        0 <= i < b.len() && (#[trigger] b[i]).user_id@ == u && 0 <= j < b[i].windows@.len() && (
        #[trigger] b[i].windows@[j]).0 < e && s < b[i].windows@[j].1
}

proof fn lemma_unique_overlaps(b: Seq<UserBookings>, u: Seq<char>, s: i64, e: i64)
    requires
        users_unique(b),
    ensures
        booking_overlaps(b, u, s, e) <==> has_booking(b, u, s, e),
{
    if has_booking(b, u, s, e) {
        let (i, j) = choose|i: int, j: int|
            0 <= i < b.len() && (#[trigger] b[i]).user_id@ == u && 0 <= j < b[i].windows@.len() && (
            #[trigger] b[i].windows@[j]).0 < e && s < b[i].windows@[j].1;
        assert forall|k: int| 0 <= k < i implies (#[trigger] b[k]).user_id@ != u by {
            assert(b[k].user_id@ != b[i].user_id@);
        }
        assert(b[i].windows@[j].0 < e && s < b[i].windows@[j].1);
    }
}

/// Whether a frozen order (by position in `frozen`) books `u` in `[s, e)`.
pub open spec fn frozen_books(
    orders: Seq<DispatchOrder>,
    frozen: Seq<usize>,
    window_start: i64,
    n: int,
    u: Seq<char>,
    s: i64,
    e: i64,
) -> bool {
    exists|k: int|
        0 <= k < n && service_order_crew(&orders[#[trigger] frozen[k] as int]).contains(u) && meets(
            window_interval(&orders[frozen[k] as int], window_start),
            s as int,
            e as int,
        )
}

/// Adds window `w` to the bookings of `u`.
fn add_booking(b: &mut Vec<UserBookings>, u: &str, w: (i64, i64))
    requires
        users_unique(old(b)@),
    ensures
        users_unique(final(b)@),
        forall|x: Seq<char>, s: i64, e: i64|
            #![trigger has_booking(final(b)@, x, s, e)]
            has_booking(final(b)@, x, s, e) <==> (has_booking(old(b)@, x, s, e) || (x == u@ && w.0 < e && s < w.1)),
{
    let mut i: usize = 0;
    while i < b.len()
        invariant
            i <= b@.len(),
            b@ == old(b)@,
            users_unique(b@),
            forall|k: int| 0 <= k < i ==> (#[trigger] b@[k]).user_id@ != u@,
        decreases b@.len() - i,
    {
        if text_eq(b[i].user_id.as_str(), u) {
            let ghost b0 = b@;
            let mut entry = b.remove(i);
            assert(entry == b0[i as int]);
            let ghost w0 = entry.windows@;
            entry.windows.push(w);
            let ghost e1 = entry;
            b.insert(i, entry);
            proof {
                assert(b@ =~= b0.update(i as int, e1));
                assert(e1.user_id == b0[i as int].user_id);
                assert forall|p: int, q: int| 0 <= p < q < b@.len() implies (#[trigger] b@[p]).user_id@ != (
                #[trigger] b@[q]).user_id@ by {
                    assert(b@[p].user_id@ == b0[p].user_id@);
                    assert(b@[q].user_id@ == b0[q].user_id@);
                }
                assert forall|x: Seq<char>, s: i64, e: i64|
                    #![trigger has_booking(b@, x, s, e)]
                    has_booking(b@, x, s, e) <==> (has_booking(b0, x, s, e) || (x == u@ && w.0 < e && s < w.1)) by {
                    if has_booking(b@, x, s, e) {
                        let (p, q) = choose|p: int, q: int|
                            0 <= p < b@.len() && (#[trigger] b@[p]).user_id@ == x && 0 <= q < b@[p].windows@.len() && (
                            #[trigger] b@[p].windows@[q]).0 < e && s < b@[p].windows@[q].1;
                        if p != i || q < w0.len() {
                            assert(b0[p].windows@[q] == b@[p].windows@[q]);
                        }
                    }
                    if has_booking(b0, x, s, e) {
                        let (p, q) = choose|p: int, q: int|
                            0 <= p < b0.len() && (#[trigger] b0[p]).user_id@ == x && 0 <= q < b0[p].windows@.len() && (
                            #[trigger] b0[p].windows@[q]).0 < e && s < b0[p].windows@[q].1;
                        assert(b@[p].windows@[q] == b0[p].windows@[q]);
                    }
                    if x == u@ && w.0 < e && s < w.1 {
                        assert(b@[i as int].windows@[w0.len() as int] == w);
                    }
                }
            }
            return;
        }
        i = i + 1;
    }
    let ghost b0 = b@;
    let mut windows: Vec<(i64, i64)> = Vec::new();
    windows.push(w);
    b.push(UserBookings { user_id: u.to_string(), windows });
    proof {
        assert forall|x: Seq<char>, s: i64, e: i64|
            #![trigger has_booking(b@, x, s, e)]
            has_booking(b@, x, s, e) <==> (has_booking(b0, x, s, e) || (x == u@ && w.0 < e && s < w.1)) by {
            if has_booking(b@, x, s, e) {
                let (p, q) = choose|p: int, q: int|
                    0 <= p < b@.len() && (#[trigger] b@[p]).user_id@ == x && 0 <= q < b@[p].windows@.len() && (
                    #[trigger] b@[p].windows@[q]).0 < e && s < b@[p].windows@[q].1;
                if p < b0.len() {
                    assert(b0[p] == b@[p]);
                }
            }
            if has_booking(b0, x, s, e) {
                let (p, q) = choose|p: int, q: int|
                    0 <= p < b0.len() && (#[trigger] b0[p]).user_id@ == x && 0 <= q < b0[p].windows@.len() && (
                    #[trigger] b0[p].windows@[q]).0 < e && s < b0[p].windows@[q].1;
                assert(b@[p] == b0[p]);
            }
            if x == u@ && w.0 < e && s < w.1 {
                assert(b@[b0.len() as int].windows@[0] == w);
            }
        }
    }
}

impl DispatchService {
    /// The bounds of a window scope: both are needed, and the window must
    /// end after it starts.
    pub fn window_scope_bounds(window_start: Option<i64>, window_end: Option<i64>) -> (r: Result<(i64, i64), DispatchError>)
        ensures
            match (window_start, window_end) {
                (Some(s), Some(e)) => if e <= s {
                    r matches Err(DispatchError::BusinessRuleViolation(m)) && m@ == window_not_after()
                } else {
                    r == Ok::<(i64, i64), DispatchError>((s, e))
                },
                _ => r matches Err(DispatchError::BusinessRuleViolation(m)) && m@ == window_bounds_missing(),
            },
    {
        match (window_start, window_end) {
            (Some(s), Some(e)) => {
                if e <= s {
                    proof {
                        reveal_strlit("window_end 必须晚于 window_start");
                    }
                    Err(DispatchError::BusinessRuleViolation("window_end 必须晚于 window_start".to_string()))
                } else {
                    Ok((s, e))
                }
            },
            _ => {
                proof {
                    reveal_strlit("window scope 需要 window_start/window_end");
                }
                Err(DispatchError::BusinessRuleViolation("window scope 需要 window_start/window_end".to_string()))
            },
        }
    }

    /// Whether an order in the window stays as it is (see
    /// `frozen_in_window`), given the explicitly frozen identifiers and the
    /// time by which a start freezes an order.
    pub fn is_frozen_in_window(order: &DispatchOrder, freeze_order_ids: &Vec<String>, cutoff: i64) -> (r: bool)
        ensures
            r == frozen_in_window(*order, freeze_order_ids@, cutoff as int),
    {
        let id = trim(order.id.as_str());
        let mut k: usize = 0;
        let mut explicit = false;
        while k < freeze_order_ids.len()
            invariant
                k <= freeze_order_ids@.len(),
                id@ == trimmed(order.id@),
                explicit == exists|x: int|
                    0 <= x < k && trimmed((#[trigger] freeze_order_ids@[x])@) == trimmed(order.id@),
            decreases freeze_order_ids@.len() - k,
        {
            if text_eq(trim(freeze_order_ids[k].as_str()), id) {
                explicit = true;
            }
            k = k + 1;
        }
        explicit || order.status == OrderStatus::InProgress || order.status == OrderStatus::Completed
            || order.status == OrderStatus::Cancelled || order.lock_level == LockLevel::Frozen || order.lock_level
            == LockLevel::ManualLock || match order.planned_start_time {
            Some(t) => t <= cutoff,
            None => false,
        }
    }

    /// Splits the orders of a window: those without an identifier are
    /// dropped; the rest are frozen (requested by identifier, started or
    /// finished, locked, or starting within fifteen minutes of `now`) or
    /// left to the optimiser.
    pub fn partition_window_orders(orders: &Vec<DispatchOrder>, freeze_order_ids: &Vec<String>, now: i64) -> (r:
        WindowPartition)
        requires
            is_instant(now + AUTO_FREEZE_LEAD_SECONDS),
        ensures
            positions(r.frozen@) == window_positions(orders@, freeze_order_ids@, now + AUTO_FREEZE_LEAD_SECONDS, true),
            positions(r.candidates@) == window_positions(
                orders@,
                freeze_order_ids@,
                now + AUTO_FREEZE_LEAD_SECONDS,
                false,
            ),
            sorted_ids(r.frozen_order_ids@),
            forall|x: Seq<char>|
                #![trigger has_id(r.frozen_order_ids@, x)]
                has_id(r.frozen_order_ids@, x) <==> exists|k: int|
                    0 <= k < r.frozen@.len() && trimmed(orders@[#[trigger] r.frozen@[k] as int].id@) == x,
    {
        let cutoff = now + AUTO_FREEZE_LEAD_SECONDS;
        let mut frozen: Vec<usize> = Vec::new();
        let mut candidates: Vec<usize> = Vec::new();
        let mut ids: Vec<String> = Vec::new();
        let mut i: usize = 0;
        while i < orders.len()
            invariant
                i <= orders@.len(),
                cutoff == now + AUTO_FREEZE_LEAD_SECONDS,
                positions(frozen@) == window_positions(orders@.take(i as int), freeze_order_ids@, cutoff as int, true),
                positions(candidates@) == window_positions(
                    orders@.take(i as int),
                    freeze_order_ids@,
                    cutoff as int,
                    false,
                ),
                forall|k: int| 0 <= k < frozen@.len() ==> (#[trigger] frozen@[k]) < i,
                sorted_ids(ids@),
                forall|x: Seq<char>|
                    #![trigger has_id(ids@, x)]
                    has_id(ids@, x) <==> exists|k: int|
                        0 <= k < frozen@.len() && trimmed(orders@[#[trigger] frozen@[k] as int].id@) == x,
            decreases orders@.len() - i,
        {
            let o = &orders[i];
            let id = trim(o.id.as_str());
            let ghost f0 = frozen@;
            let ghost c0 = candidates@;
            proof {
                assert(orders@.take(i + 1).drop_last() =~= orders@.take(i as int));
                assert(orders@.take(i + 1).last() == orders@[i as int]);
            }
            if id.unicode_len() > 0 {
                if Self::is_frozen_in_window(o, freeze_order_ids, cutoff) {
                    let ghost ids0 = ids@;
                    frozen.push(i);
                    insert_sorted(&mut ids, id.to_string());
                    proof {
                        assert(positions(frozen@) =~= positions(f0).push(i as int));
                        assert forall|x: Seq<char>|
                            #![trigger has_id(ids@, x)]
                            has_id(ids@, x) <==> exists|k: int|
                                0 <= k < frozen@.len() && trimmed(orders@[#[trigger] frozen@[k] as int].id@) == x by {
                            assert(frozen@[f0.len() as int] == i);
                            assert(trimmed(orders@[frozen@[f0.len() as int] as int].id@) == id@);
                            if x == id@ {
                                assert(0 <= f0.len() < frozen@.len());
                            }
                            if has_id(ids0, x) {
                                let k = choose|k: int|
                                    0 <= k < f0.len() && trimmed(orders@[#[trigger] f0[k] as int].id@) == x;
                                assert(frozen@[k] == f0[k]);
                            }
                            if exists|k: int|
                                0 <= k < frozen@.len() && trimmed(orders@[#[trigger] frozen@[k] as int].id@) == x {
                                let k = choose|k: int|
                                    0 <= k < frozen@.len() && trimmed(orders@[#[trigger] frozen@[k] as int].id@) == x;
                                if k < f0.len() {
                                    assert(frozen@[k] == f0[k]);
                                }
                            }
                        }
                    }
                } else {
                    candidates.push(i);
                    proof {
                        assert(positions(candidates@) =~= positions(c0).push(i as int));
                    }
                }
            }
            i = i + 1;
        }
        assert(orders@.take(orders@.len() as int) =~= orders@);
        WindowPartition { frozen_order_ids: ids, frozen, candidates }
    }

    /// What the frozen orders book of their crews: for each person on a
    /// frozen order, one entry holding the window intervals of the frozen
    /// orders they are on.
    pub fn frozen_bookings(orders: &Vec<DispatchOrder>, frozen: &Vec<usize>, window_start: i64) -> (r: Vec<UserBookings>)
        requires
            forall|k: int| 0 <= k < frozen@.len() ==> (#[trigger] frozen@[k]) < orders@.len(),
            forall|k: int|
                0 <= k < frozen@.len() ==> window_interval_defined(orders@[#[trigger] frozen@[k] as int], window_start),
        ensures
            users_unique(r@),
            forall|u: Seq<char>, s: i64, e: i64|
                #![trigger booking_overlaps(r@, u, s, e)]
                booking_overlaps(r@, u, s, e) <==> frozen_books(orders@, frozen@, window_start, frozen@.len() as int, u, s, e),
    {
        let mut b: Vec<UserBookings> = Vec::new();
        let mut k: usize = 0;
        while k < frozen.len()
            invariant
                k <= frozen@.len(),
                forall|x: int| 0 <= x < frozen@.len() ==> (#[trigger] frozen@[x]) < orders@.len(),
                forall|x: int|
                    0 <= x < frozen@.len() ==> window_interval_defined(orders@[#[trigger] frozen@[x] as int], window_start),
                users_unique(b@),
                forall|u: Seq<char>, s: i64, e: i64|
                    #![trigger has_booking(b@, u, s, e)]
                    has_booking(b@, u, s, e) <==> frozen_books(orders@, frozen@, window_start, k as int, u, s, e),
            decreases frozen@.len() - k,
        {
            let o = &orders[frozen[k]];
            assert(window_interval_defined(orders@[frozen@[k as int] as int], window_start));
            let w = Self::window_task_interval(o, window_start);
            let users = Self::order_member_user_ids(o);
            let ghost crew = service_order_crew(o);
            let ghost bk = b@;
            let mut t: usize = 0;
            while t < users.len()
                invariant
                    t <= users@.len(),
                    string_views(users@) == crew,
                    users_unique(b@),
                    forall|u: Seq<char>, s: i64, e: i64|
                        #![trigger has_booking(b@, u, s, e)]
                        has_booking(b@, u, s, e) <==> (has_booking(bk, u, s, e) || (exists|y: int|
                            0 <= y < t && (#[trigger] users@[y])@ == u) && w.0 < e && s < w.1),
                decreases users@.len() - t,
            {
                let ghost b1 = b@;
                add_booking(&mut b, users[t].as_str(), w);
                proof {
                    assert forall|u: Seq<char>, s: i64, e: i64|
                        #![trigger has_booking(b@, u, s, e)]
                        has_booking(b@, u, s, e) <==> (has_booking(bk, u, s, e) || (exists|y: int|
                            0 <= y < t + 1 && (#[trigger] users@[y])@ == u) && w.0 < e && s < w.1) by {
                        assert(has_booking(b1, u, s, e) <==> (has_booking(bk, u, s, e) || (exists|y: int|
                            0 <= y < t && (#[trigger] users@[y])@ == u) && w.0 < e && s < w.1));
                        if exists|y: int| 0 <= y < t + 1 && (#[trigger] users@[y])@ == u {
                            let y = choose|y: int| 0 <= y < t + 1 && (#[trigger] users@[y])@ == u;
                            if y < t {
                            }
                        }
                    }
                }
                t = t + 1;
            }
            proof {
                assert forall|u: Seq<char>, s: i64, e: i64|
                    #![trigger has_booking(b@, u, s, e)]
                    has_booking(b@, u, s, e) <==> frozen_books(orders@, frozen@, window_start, k + 1, u, s, e) by {
                    assert((exists|y: int| 0 <= y < users@.len() && (#[trigger] users@[y])@ == u) <==> crew.contains(u)) by {
                        if crew.contains(u) {
                            let y = choose|y: int| 0 <= y < crew.len() && crew[y] == u;
                            assert(string_views(users@)[y] == users@[y]@);
                        }
                        if exists|y: int| 0 <= y < users@.len() && (#[trigger] users@[y])@ == u {
                            let y = choose|y: int| 0 <= y < users@.len() && (#[trigger] users@[y])@ == u;
                            assert(string_views(users@)[y] == users@[y]@);
                        }
                    }
                    if frozen_books(orders@, frozen@, window_start, k + 1, u, s, e) {
                        let x = choose|x: int|
                            0 <= x < k + 1 && service_order_crew(&orders@[#[trigger] frozen@[x] as int]).contains(u)
                                && meets(window_interval(&orders@[frozen@[x] as int], window_start), s as int, e as int);
                        if x < k {
                            assert(frozen_books(orders@, frozen@, window_start, k as int, u, s, e));
                        }
                    }
                    if frozen_books(orders@, frozen@, window_start, k as int, u, s, e) {
                        let x = choose|x: int|
                            0 <= x < k && service_order_crew(&orders@[#[trigger] frozen@[x] as int]).contains(u) && meets(
                                window_interval(&orders@[frozen@[x] as int], window_start),
                                s as int,
                                e as int,
                            );
                        assert(0 <= x < k + 1);
                    }
                }
            }
            k = k + 1;
        }
        proof {
            assert forall|u: Seq<char>, s: i64, e: i64|
                #![trigger booking_overlaps(b@, u, s, e)]
                booking_overlaps(b@, u, s, e) <==> frozen_books(
                    orders@,
                    frozen@,
                    window_start,
                    frozen@.len() as int,
                    u,
                    s,
                    e,
                ) by {
                lemma_unique_overlaps(b@, u, s, e);
            }
        }
        b
    }
}

} // verus!
