//! What a later estimated completion does to the plan: the window searched
//! for affected orders, and for each order it now overlaps over a shared
//! person or stand, a suggestion to move that order out of the way.

use vstd::prelude::*;
use crate::model::{is_instant, DispatchOrder, OrderStatus};
use crate::rules::{
    conflict_interval, conflict_kinds, conflict_labels, describe_conflict_kinds, effective_interval,
    eta_conflict_kinds, string_views,
};
use crate::generation::{instant_rfc3339, rfc3339_text};
use crate::text::{join_texts, concat_views};

verus! {

/// The window in which orders affected by a new estimated completion are
/// searched, and the busy interval of the reporting order.
pub struct EtaReportWindow {
    pub horizon_start: i64,
    pub search_end: i64,
    pub current_start: i64,
    pub current_end: i64,
}

/// A suggestion to move an order the reporting order now overlaps.
pub struct EtaShiftSuggestion {
    pub dispatch_order_id: String,
    pub reason: String,
    pub original_start: i64,
    pub original_end: i64,
    pub suggested_start: i64,
    pub suggested_end: i64,
    pub original_start_time: String,
    pub original_end_time: String,
    pub suggested_start_time: String,
    pub suggested_end_time: String,
    pub related_dispatch_order_id: String,
    /// How long the two orders overlap, in seconds.
    pub overlap_seconds: i64,
    /// `shift_later` or `shift_earlier`.
    pub suggestion_type: String,
    pub conflict_types: Vec<String>,
}

/// The smaller of two instants.
pub open spec fn min_instant(a: int, b: int) -> int {
    if a <= b {
        a
    } else {
        b
    }
}

/// The larger of two instants.
pub open spec fn max_instant(a: int, b: int) -> int {
    if a >= b {
        a
    } else {
        b
    }
}

/// Where the search for affected orders starts: the earliest of the
/// order's actual start, planned start and `now`.
pub open spec fn horizon_start_of(o: DispatchOrder, now: i64) -> int {
    let a = match o.actual_start_time {
        Some(t) => min_instant(t as int, now as int),
        None => now as int,
    };
    match o.planned_start_time {
        Some(t) => min_instant(t as int, a),
        None => a,
    }
}

/// Where the search ends: the latest of the new completion, the planned
/// end (else the new completion) and thirty minutes after the horizon
/// start, then as long again as from the horizon start.
pub open spec fn search_end_of(o: DispatchOrder, eta: i64, horizon_start: int) -> int {
    let base_end = match o.planned_end_time {
        Some(t) => t as int,
        None => eta as int,
    };
    let horizon_end = max_instant(max_instant(eta as int, base_end), horizon_start + 1800);
    horizon_end + (horizon_end - horizon_start)
}

/// The start of the reporting order: actual, planned, deadline or creation
/// time, else the horizon start.
pub open spec fn current_start_of(o: DispatchOrder, horizon_start: int) -> int {
    match o.actual_start_time {
        Some(t) => t as int,
        None => match o.planned_start_time {
            Some(t) => t as int,
            None => match o.assignment_deadline {
                Some(t) => t as int,
                None => match o.created_at {
                    Some(t) => t as int,
                    None => horizon_start,
                },
            },
        },
    }
}

/// The window of an estimated completion `eta` reported at `now`; an
/// estimate not after the order's start keeps it busy eight minutes.
pub open spec fn eta_window(o: DispatchOrder, eta: i64, now: i64) -> (int, int, int, int) {
    let h = horizon_start_of(o, now);
    let s = current_start_of(o, h);
    (h, search_end_of(o, eta, h), s, if eta <= s { s + 480 } else { eta as int })
}

/// Whether the window of an estimated completion is made of representable instants.
pub open spec fn eta_window_representable(o: DispatchOrder, eta: i64, now: i64) -> bool {
    let w = eta_window(o, eta, now);
    is_instant(w.0) && is_instant(w.1) && is_instant(w.2) && is_instant(w.3) && is_instant(w.0 + 1800)
}

/// How an affected order is moved, and where to, or nothing for an order
/// that is the reporting one, finished, not overlapping it, or sharing no
/// person or stand with it: after the reporting order (five minutes' gap),
/// unless it started first, then before it, if that is no more than four
/// hours before the horizon start.
pub open spec fn eta_shift(
    o: DispatchOrder,
    candidate: DispatchOrder,
    horizon_start: i64,
    current_start: i64,
    current_end: i64,
) -> Option<(int, int, int, int, int, bool)> {
    let (cs, ce) = conflict_interval(&candidate, horizon_start);
    if candidate.id@ == o.id@ || candidate.status == OrderStatus::Completed || candidate.status == OrderStatus::Cancelled
        || ce <= current_start || current_end <= cs || conflict_kinds(&o, &candidate).len() == 0 {
        None
    } else {
        let overlap = min_instant(current_end as int, ce) - max_instant(current_start as int, cs);
        let duration = ce - cs;
        if overlap <= 0 {
            None
        } else if cs >= current_start {
            Some((cs, ce, current_end + 300, current_end + 300 + duration, overlap, true))
        } else if current_start - 300 - duration < horizon_start - 14400 {
            Some((cs, ce, current_end + 300, current_end + 300 + duration, overlap, true))
        } else {
            Some((cs, ce, current_start - 300 - duration, current_start - 300, overlap, false))
        }
    }
}

/// Whether every time a suggestion writes is a representable instant.
pub open spec fn eta_shift_representable(
    o: DispatchOrder,
    candidate: DispatchOrder,
    horizon_start: i64,
    current_start: i64,
    current_end: i64,
) -> bool {
    &&& is_instant(crate::rules::interval_start(&candidate, horizon_start) as int + 1200)
    &&& (eta_shift(o, candidate, horizon_start, current_start, current_end) matches Some(
        x,
    ) ==> is_instant(x.0) && is_instant(x.1) && is_instant(x.2) && is_instant(x.3))
}

impl crate::rules::DispatchService {
    /// The window searched for orders affected by the estimated completion
    /// `eta` of `order`, reported at `now`.
    pub fn eta_report_window(order: &DispatchOrder, eta: i64, now: i64) -> (r: EtaReportWindow)
        requires
            eta_window_representable(*order, eta, now),
        ensures
            (r.horizon_start as int, r.search_end as int, r.current_start as int, r.current_end as int) == eta_window(
                *order,
                eta,
                now,
            ),
    {
        let mut h = now;
        match order.actual_start_time {
            Some(t) => if t < h {
                h = t;
            },
            None => {},
        }
        match order.planned_start_time {
            Some(t) => if t < h {
                h = t;
            },
            None => {},
        }
        let base_end = match order.planned_end_time {
            Some(t) => t,
            None => eta,
        };
        let mut horizon_end = if eta >= base_end {
            eta
        } else {
            base_end
        };
        if horizon_end < h + 1800 {
            horizon_end = h + 1800;
        }
        let search_end = horizon_end + crate::rules::normalize_duration(horizon_end - h);
        let current_start = match order.actual_start_time {
            Some(t) => t,
            None => match order.planned_start_time {
                Some(t) => t,
                None => match order.assignment_deadline {
                    Some(t) => t,
                    None => match order.created_at {
                        Some(t) => t,
                        None => h,
                    },
                },
            },
        };
        let current_end = if eta <= current_start {
            current_start + 480
        } else {
            eta
        };
        EtaReportWindow { horizon_start: h, search_end, current_start, current_end }
    }

    /// The suggestion for an order found in the window of a new estimated
    /// completion, or none where it is not affected.
    pub fn eta_shift_suggestion(
        order: &DispatchOrder,
        candidate: &DispatchOrder,
        horizon_start: i64,
        current_start: i64,
        current_end: i64,
    ) -> (r: Option<EtaShiftSuggestion>)
        requires
            eta_shift_representable(*order, *candidate, horizon_start, current_start, current_end),
            is_instant(current_start as int),
            is_instant(current_end as int),
        ensures
            match eta_shift(*order, *candidate, horizon_start, current_start, current_end) {
                None => r is None,
                Some(x) => r matches Some(s) && {
                    &&& s.dispatch_order_id@ == candidate.id@
                    &&& s.related_dispatch_order_id@ == order.id@
                    &&& s.reason@ == "ETA 延长后与 "@ + order.id@ + " 发生"@ + conflict_labels(conflict_kinds(order, candidate))
                    &&& string_views(s.conflict_types@) == conflict_kinds(order, candidate)
                    &&& s.original_start == x.0 && s.original_end == x.1
                    &&& s.suggested_start == x.2 && s.suggested_end == x.3
                    &&& s.overlap_seconds == x.4
                    &&& s.suggestion_type@ == (if x.5 { "shift_later"@ } else { "shift_earlier"@ })
                    &&& s.original_start_time@ == rfc3339_text(x.0) && s.original_end_time@ == rfc3339_text(x.1)
                    &&& s.suggested_start_time@ == rfc3339_text(x.2) && s.suggested_end_time@ == rfc3339_text(x.3)
                },
            },
    {
        if crate::text::text_eq(candidate.id.as_str(), order.id.as_str()) {
            return None;
        }
        match candidate.status {
            OrderStatus::Completed | OrderStatus::Cancelled => {
                return None;
            },
            _ => {},
        }
        let (cs, ce) = effective_interval(candidate, horizon_start);
        if ce <= current_start || current_end <= cs {
            return None;
        }
        let kinds = eta_conflict_kinds(order, candidate);
        if kinds.len() == 0 {
            return None;
        }
        let overlap_start = if current_start >= cs {
            current_start
        } else {
            cs
        };
        let overlap_end = if current_end <= ce {
            current_end
        } else {
            ce
        };
        let overlap = overlap_end - overlap_start;
        if overlap <= 0 {
            return None;
        }
        let duration = crate::rules::normalize_duration(ce - cs);
        let (start, end, later): (i64, i64, bool) = if cs >= current_start {
            (current_end + 300, current_end + 300 + duration, true)
        } else if (current_start as i128) - 300 - (duration as i128) < (horizon_start as i128) - 14400 {
            (current_end + 300, current_end + 300 + duration, true)
        } else {
            (current_start - 300 - duration, current_start - 300, false)
        };
        let labels = describe_conflict_kinds(kinds.as_slice());
        let oid = order.id.as_str();
        let lt = labels.as_str();
        let reason = join_texts(&["ETA 延长后与 ", oid, " 发生", lt]);
        assert(concat_views(seq!["ETA 延长后与 ", oid, " 发生", lt])
            =~= "ETA 延长后与 "@ + order.id@ + " 发生"@ + labels@) by {
            reveal_with_fuel(concat_views, 5);
        }
        Some(EtaShiftSuggestion {
            dispatch_order_id: candidate.id.clone(),
            reason,
            original_start: cs,
            original_end: ce,
            suggested_start: start,
            suggested_end: end,
            original_start_time: instant_rfc3339(cs),
            original_end_time: instant_rfc3339(ce),
            suggested_start_time: instant_rfc3339(start),
            suggested_end_time: instant_rfc3339(end),
            related_dispatch_order_id: order.id.clone(),
            overlap_seconds: overlap,
            suggestion_type: if later {
                crate::text::owned("shift_later")
            } else {
                crate::text::owned("shift_earlier")
            },
            conflict_types: kinds,
        })
    }
}

} // verus!
