//! The mobile workbench of a person: how many of their orders are in each
//! status, and the feed of their orders as events, latest first.

use vstd::prelude::*;
use crate::model::{DispatchOrder, OrderStatus, is_instant};
use crate::rules::DispatchService;
use crate::generation::{instant_rfc3339, rfc3339_text};
use crate::idset::{seq_lt, text_lt};

verus! {

/// How many orders are in each status.
pub struct WorkbenchCounts {
    pub pending: usize,
    pub assigned: usize,
    pub in_progress: usize,
    pub completed: usize,
    pub cancelled: usize,
    pub total: usize,
}

/// How many orders are in status `s`.
pub open spec fn count_status(orders: Seq<DispatchOrder>, s: OrderStatus) -> nat
    decreases orders.len(),
{
    if orders.len() == 0 {
        0
    } else {
        count_status(orders.drop_last(), s) + if orders.last().status == s {
            1nat
        } else {
            0nat
        }
    }
}

/// An order as an event of the feed: where it stands in the list read, its
/// severity, and when it happens.
pub struct FeedEvent {
    pub position: usize,
    pub severity: &'static str,
    pub occurred_at: i64,
    pub occurred_at_text: String,
}

/// The event feed: the events shown, latest first, and how many of them
/// have each severity.
pub struct EventFeed {
    pub events: Vec<FeedEvent>,
    pub critical_count: usize,
    pub warning_count: usize,
    pub info_count: usize,
}

/// The severity of an order's event: critical while it waits to start,
/// warning while it runs, information once it is over.
pub open spec fn event_severity(s: OrderStatus) -> Seq<char> {
    match s {
        OrderStatus::Pending | OrderStatus::Assigned => "critical"@,
        OrderStatus::InProgress => "warning"@,
        _ => "info"@,
    }
}

/// When an order's event happens: its actual start, else planned start,
/// else creation time, else `now`.
pub open spec fn event_time(o: DispatchOrder, now: i64) -> i64 {
    match o.actual_start_time {
        Some(t) => t,
        None => match o.planned_start_time {
            Some(t) => t,
            None => match o.created_at {
                Some(t) => t,
                None => now,
            },
        },
    }
}

/// The events of the orders, in the order read.
pub open spec fn feed_events(orders: Seq<DispatchOrder>, now: i64) -> Seq<(int, Seq<char>, i64, Seq<char>)> {
    Seq::new(
        orders.len(),
        |i: int| (i, event_severity(orders[i].status), event_time(orders[i], now), rfc3339_text(event_time(orders[i], now) as int)),
    )
}

/// Whether event `a` is shown before `b`: its time text comes later.
pub open spec fn feed_before(a: (int, Seq<char>, i64, Seq<char>), b: (int, Seq<char>, i64, Seq<char>)) -> bool {
    seq_lt(b.3, a.3)
}

/// Where `x` joins a feed: before the first event it is shown before.
pub open spec fn feed_position(sorted: Seq<(int, Seq<char>, i64, Seq<char>)>, x: (int, Seq<char>, i64, Seq<char>)) -> int
    decreases sorted.len(),
{
    if sorted.len() == 0 {
        0
    } else if feed_before(x, sorted[0]) {
        0
    } else {
        1 + feed_position(sorted.drop_first(), x)
    }
}

/// Events latest first, equal ones in the order read.
pub open spec fn feed_order(events: Seq<(int, Seq<char>, i64, Seq<char>)>) -> Seq<(int, Seq<char>, i64, Seq<char>)>
    decreases events.len(),
{
    if events.len() == 0 {
        Seq::empty()
    } else {
        let s = feed_order(events.drop_last());
        s.insert(feed_position(s, events.last()), events.last())
    }
}

/// How many events have severity `s`.
pub open spec fn count_severity(events: Seq<(int, Seq<char>, i64, Seq<char>)>, s: Seq<char>) -> nat
    decreases events.len(),
{
    if events.len() == 0 {
        0
    } else {
        count_severity(events.drop_last(), s) + if events.last().1 == s {
            1nat
        } else {
            0nat
        }
    }
}

/// How many entries a list shows at most: `limit`, at least one.
pub open spec fn shown_count(limit: i64, len: int) -> int {
    let l = if limit < 1 {
        1
    } else {
        limit as int
    };
    if l < len {
        l
    } else {
        len
    }
}

/// An event by its values.
pub open spec fn event_view(e: FeedEvent) -> (int, Seq<char>, i64, Seq<char>) {
    (e.position as int, e.severity@, e.occurred_at, e.occurred_at_text@)
}

proof fn lemma_feed_position(sorted: Seq<(int, Seq<char>, i64, Seq<char>)>, x: (int, Seq<char>, i64, Seq<char>))
    ensures
        0 <= feed_position(sorted, x) <= sorted.len(),
        forall|k: int| 0 <= k < feed_position(sorted, x) ==> !feed_before(x, #[trigger] sorted[k]),
        feed_position(sorted, x) < sorted.len() ==> feed_before(x, sorted[feed_position(sorted, x)]),
    decreases sorted.len(),
{
    if sorted.len() > 0 && !feed_before(x, sorted[0]) {
        let t = sorted.drop_first();
        lemma_feed_position(t, x);
        assert forall|k: int| 0 <= k < feed_position(sorted, x) implies !feed_before(x, #[trigger] sorted[k]) by {
            if k > 0 {
                assert(sorted[k] == t[k - 1]);
            }
        }
        if feed_position(sorted, x) < sorted.len() {
            assert(sorted[feed_position(sorted, x)] == t[feed_position(t, x)]);
        }
    }
}

fn severity_of(s: OrderStatus) -> (r: &'static str)
    ensures
        r@ == event_severity(s),
{
    match s {
        OrderStatus::Pending | OrderStatus::Assigned => "critical",
        OrderStatus::InProgress => "warning",
        _ => "info",
    }
}

impl DispatchService {
    /// How many of the orders are in each status, and how many there are.
    pub fn workbench_counts(orders: &Vec<DispatchOrder>) -> (r: WorkbenchCounts)
        ensures
            r.pending == count_status(orders@, OrderStatus::Pending),
            r.assigned == count_status(orders@, OrderStatus::Assigned),
            r.in_progress == count_status(orders@, OrderStatus::InProgress),
            r.completed == count_status(orders@, OrderStatus::Completed),
            r.cancelled == count_status(orders@, OrderStatus::Cancelled),
            r.total == orders@.len(),
    {
        let mut c = WorkbenchCounts { pending: 0, assigned: 0, in_progress: 0, completed: 0, cancelled: 0, total: orders.len() };
        let mut i: usize = 0;
        while i < orders.len()
            invariant
                i <= orders.len(),
                c.total == orders@.len(),
                c.pending == count_status(orders@.take(i as int), OrderStatus::Pending),
                c.assigned == count_status(orders@.take(i as int), OrderStatus::Assigned),
                c.in_progress == count_status(orders@.take(i as int), OrderStatus::InProgress),
                c.completed == count_status(orders@.take(i as int), OrderStatus::Completed),
                c.cancelled == count_status(orders@.take(i as int), OrderStatus::Cancelled),
                c.pending <= i && c.assigned <= i && c.in_progress <= i && c.completed <= i && c.cancelled <= i,
            decreases orders.len() - i,
        {
            proof {
                assert(orders@.take(i + 1).drop_last() =~= orders@.take(i as int));
                assert(orders@.take(i + 1).last() == orders@[i as int]);
            }
            match orders[i].status {
                OrderStatus::Pending => c.pending += 1,
                OrderStatus::Assigned => c.assigned += 1,
                OrderStatus::InProgress => c.in_progress += 1,
                OrderStatus::Completed => c.completed += 1,
                OrderStatus::Cancelled => c.cancelled += 1,
            }
            i += 1;
        }
        assert(orders@.take(orders.len() as int) =~= orders@);
        c
    }

    /// How many orders the workbench lists: `max_orders`, at least one, of
    /// the `total` there are.
    pub fn workbench_shown(total: usize, max_orders: i64) -> (r: usize)
        ensures
            r == shown_count(max_orders, total as int),
    {
        if max_orders < 1 {
            if total < 1 {
                total
            } else {
                1
            }
        } else if (max_orders as u64) < (total as u64) {
            max_orders as usize
        } else {
            total
        }
    }

    /// The event feed of the orders, read at `now`: each order as an event
    /// with its severity and time, latest first (by the time's text, equal
    /// ones in the order read), at most `limit` (at least one), and the
    /// counts of each severity among those shown.
    pub fn event_feed(orders: &Vec<DispatchOrder>, now: i64, limit: i64) -> (r: EventFeed)
        requires
            is_instant(now as int),
            forall|i: int| 0 <= i < orders@.len() ==> is_instant(event_time(#[trigger] orders@[i], now) as int),
        ensures
            r.events@.len() == shown_count(limit, orders@.len() as int),
            forall|k: int| 0 <= k < r.events@.len() ==> event_view(#[trigger] r.events@[k]) == feed_order(feed_events(orders@, now))[k],
            r.critical_count == count_severity(feed_order(feed_events(orders@, now)).take(r.events@.len() as int), "critical"@),
            r.warning_count == count_severity(feed_order(feed_events(orders@, now)).take(r.events@.len() as int), "warning"@),
            r.info_count == count_severity(feed_order(feed_events(orders@, now)).take(r.events@.len() as int), "info"@),
    {
        let ghost all = feed_events(orders@, now);
        let mut sorted: Vec<FeedEvent> = Vec::new();
        let mut i: usize = 0;
        while i < orders.len()
            invariant
                i <= orders.len(),
                all == feed_events(orders@, now),
                is_instant(now as int),
                forall|j: int| 0 <= j < orders@.len() ==> is_instant(event_time(#[trigger] orders@[j], now) as int),
                sorted@.len() == i,
                Seq::new(sorted@.len(), |k: int| event_view(sorted@[k])) == feed_order(all.take(i as int)),
            decreases orders.len() - i,
        {
            let o = &orders[i];
            let at: i64 = match o.actual_start_time {
                Some(t) => t,
                None => match o.planned_start_time {
                    Some(t) => t,
                    None => match o.created_at {
                        Some(t) => t,
                        None => now,
                    },
                },
            };
            assert(at == event_time(orders@[i as int], now));
            assert(is_instant(event_time(orders@[i as int], now) as int));
            let e = FeedEvent { position: i, severity: severity_of(o.status), occurred_at: at, occurred_at_text: instant_rfc3339(at) };
            let ghost sv = Seq::new(sorted@.len(), |k: int| event_view(sorted@[k]));
            proof {
                assert(all.take(i + 1).drop_last() =~= all.take(i as int));
                assert(all.take(i + 1).last() == event_view(e));
                lemma_feed_position(sv, event_view(e));
            }
            let mut p: usize = 0;
            while p < sorted.len() && !text_lt(sorted[p].occurred_at_text.as_str(), e.occurred_at_text.as_str())
                invariant
                    p <= sorted.len(),
                    sv == Seq::new(sorted@.len(), |k: int| event_view(sorted@[k])),
                    forall|k: int| 0 <= k < p ==> !feed_before(event_view(e), #[trigger] sv[k]),
                decreases sorted.len() - p,
            {
                assert(sv[p as int] == event_view(sorted@[p as int]));
                p += 1;
            }
            assert(p as int == feed_position(sv, event_view(e))) by {
                let q = feed_position(sv, event_view(e));
                if p < sorted.len() {
                    assert(sv[p as int] == event_view(sorted@[p as int]));
                }
                if q < p {
                    assert(!feed_before(event_view(e), sv[q]));
                }
                if p < q {
                    assert(feed_before(event_view(e), sv[p as int]));
                }
            }
            let ghost ev = event_view(e);
            let ghost before = sorted@;
            sorted.insert(p, e);
            assert(Seq::new(sorted@.len(), |k: int| event_view(sorted@[k])) =~= sv.insert(p as int, ev)) by {
                assert(sorted@ =~= before.insert(p as int, sorted@[p as int]));
            }
            i += 1;
        }
        assert(all.take(orders.len() as int) =~= all);
        let n: usize = Self::workbench_shown(sorted.len(), limit);
        let ghost fo = feed_order(all);
        let mut events: Vec<FeedEvent> = Vec::new();
        let mut critical: usize = 0;
        let mut warning: usize = 0;
        let mut info: usize = 0;
        let mut k: usize = 0;
        while k < n
            invariant
                k <= n,
                n <= sorted@.len(),
                fo == Seq::new(sorted@.len(), |m: int| event_view(sorted@[m])),
                events@.len() == k,
                forall|m: int| 0 <= m < k ==> event_view(#[trigger] events@[m]) == fo[m],
                critical == count_severity(fo.take(k as int), "critical"@),
                warning == count_severity(fo.take(k as int), "warning"@),
                info == count_severity(fo.take(k as int), "info"@),
                critical <= k && warning <= k && info <= k,
            decreases n - k,
        {
            let e = &sorted[k];
            let c = FeedEvent {
                position: e.position,
                severity: e.severity,
                occurred_at: e.occurred_at,
                occurred_at_text: e.occurred_at_text.clone(),
            };
            proof {
                assert(fo.take(k + 1).drop_last() =~= fo.take(k as int));
                assert(fo.take(k + 1).last() == fo[k as int]);
                assert(fo[k as int] == event_view(sorted@[k as int]));
                reveal_strlit("critical");
                reveal_strlit("warning");
                reveal_strlit("info");
                assert("critical"@.len() == 8);
                assert("warning"@.len() == 7);
                assert("info"@.len() == 4);
            }
            if crate::text::text_eq(c.severity, "critical") {
                critical += 1;
            } else if crate::text::text_eq(c.severity, "warning") {
                warning += 1;
            } else if crate::text::text_eq(c.severity, "info") {
                info += 1;
            }
            events.push(c);
            k += 1;
        }
        EventFeed { events, critical_count: critical, warning_count: warning, info_count: info }
    }
}

} // verus!
