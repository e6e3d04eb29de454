//! Regenerating the drafts of a flight after its times change: which
//! generated orders are still drafts, which times anchor the regeneration,
//! and on which stands it runs.

use vstd::prelude::*;
use crate::model::OrderStatus;
use crate::rules::{DispatchService, string_views};
use crate::text::{owned, text_eq, trim, trimmed};

verus! {

/// A generated order of a flight, as regeneration reads it.
pub struct GeneratedOrderFacts {
    pub status: OrderStatus,
    pub publication_state: String,
    /// Whether a generation rule produced it.
    pub has_generation_rule: bool,
    pub leg_scope: String,
    pub generation_anchor_time: Option<i64>,
    pub stand_id: Option<String>,
}

/// The times of a flight that can anchor regeneration.
pub struct FlightTimes {
    pub estimated_arrival: Option<i64>,
    pub scheduled_arrival: Option<i64>,
    pub actual_arrival: Option<i64>,
    pub estimated_departure: Option<i64>,
    pub scheduled_departure: Option<i64>,
    pub actual_departure: Option<i64>,
}

/// Whether an order is a draft a rule generated: pending and prepublished.
pub open spec fn is_pending_generated(o: GeneratedOrderFacts) -> bool {
    o.status == OrderStatus::Pending && o.publication_state@ == "prepublished"@ && o.has_generation_rule
}

/// The drafts a rule generated, in order.
pub open spec fn pending_generated(orders: Seq<GeneratedOrderFacts>) -> Seq<GeneratedOrderFacts>
    decreases orders.len(),
{
    if orders.len() == 0 {
        Seq::empty()
    } else {
        pending_generated(orders.drop_last()) + if is_pending_generated(orders.last()) {
            seq![orders.last()]
        } else {
            Seq::empty()
        }
    }
}

/// The anchor time of the first draft of leg `leg`.
pub open spec fn first_leg_anchor(drafts: Seq<GeneratedOrderFacts>, leg: Seq<char>) -> Option<i64>
    decreases drafts.len(),
{
    if drafts.len() == 0 {
        None
    } else if drafts[0].leg_scope@ == leg {
        drafts[0].generation_anchor_time
    } else {
        first_leg_anchor(drafts.drop_first(), leg)
    }
}

/// The first of three times that is given, else `d`.
pub open spec fn first_time(a: Option<i64>, b: Option<i64>, c: Option<i64>, d: Option<i64>) -> Option<i64> {
    match a {
        Some(t) => Some(t),
        None => match b {
            Some(t) => Some(t),
            None => match c {
                Some(t) => Some(t),
                None => d,
            },
        },
    }
}

/// The arrival and departure that anchor regeneration: the flight's
/// estimated, scheduled or actual times, else the anchor of the first
/// draft of that leg; one standing for both where only one is known, none
/// where neither is.
pub open spec fn rebase_anchors(f: FlightTimes, drafts: Seq<GeneratedOrderFacts>) -> Option<(i64, i64)> {
    let eta = first_time(f.estimated_arrival, f.scheduled_arrival, f.actual_arrival, first_leg_anchor(drafts, "inbound"@));
    let etd = first_time(f.estimated_departure, f.scheduled_departure, f.actual_departure, first_leg_anchor(drafts, "outbound"@));
    match (eta, etd) {
        (Some(a), Some(d)) => Some((a, d)),
        (Some(a), None) => Some((a, a)),
        (None, Some(d)) => Some((d, d)),
        (None, None) => None,
    }
}

/// The stands of the drafts: trimmed, blank ones dropped, each once in
/// order of first mention.
pub open spec fn draft_stands(drafts: Seq<GeneratedOrderFacts>) -> Seq<Seq<char>>
    decreases drafts.len(),
{
    if drafts.len() == 0 {
        Seq::empty()
    } else {
        let pre = draft_stands(drafts.drop_last());
        match drafts.last().stand_id {
            Some(s) => if trimmed(s@).len() == 0 || pre.contains(trimmed(s@)) {
                pre
            } else {
                pre.push(trimmed(s@))
            },
            None => pre,
        }
    }
}

fn copy_facts(o: &GeneratedOrderFacts) -> (r: GeneratedOrderFacts)
    ensures
        r == *o,
{
    GeneratedOrderFacts {
        status: o.status,
        publication_state: o.publication_state.clone(),
        has_generation_rule: o.has_generation_rule,
        leg_scope: o.leg_scope.clone(),
        generation_anchor_time: o.generation_anchor_time,
        stand_id: crate::text::copy_opt(&o.stand_id),
    }
}

fn first_leg_anchor_of(drafts: &Vec<GeneratedOrderFacts>, leg: &str) -> (r: Option<i64>)
    ensures
        r == first_leg_anchor(drafts@, leg@),
{
    let mut i: usize = 0;
    assert(drafts@.skip(0) =~= drafts@);
    while i < drafts.len()
        invariant
            i <= drafts.len(),
            first_leg_anchor(drafts@.skip(i as int), leg@) == first_leg_anchor(drafts@, leg@),
        decreases drafts.len() - i,
    {
        assert(drafts@.skip(i as int).drop_first() =~= drafts@.skip(i + 1));
        if text_eq(drafts[i].leg_scope.as_str(), leg) {
            return drafts[i].generation_anchor_time;
        }
        i += 1;
    }
    None
}

fn first_time_of(a: Option<i64>, b: Option<i64>, c: Option<i64>, d: Option<i64>) -> (r: Option<i64>)
    ensures
        r == first_time(a, b, c, d),
{
    match a {
        Some(t) => Some(t),
        None => match b {
            Some(t) => Some(t),
            None => match c {
                Some(t) => Some(t),
                None => d,
            },
        },
    }
}

impl DispatchService {
    /// The drafts a rule generated among the orders of a flight: pending,
    /// prepublished and from a generation rule, in order.
    pub fn pending_generated_orders(orders: &Vec<GeneratedOrderFacts>) -> (r: Vec<GeneratedOrderFacts>)
        ensures
            r@ == pending_generated(orders@),
    {
        let mut r: Vec<GeneratedOrderFacts> = Vec::new();
        let mut i: usize = 0;
        while i < orders.len()
            invariant
                i <= orders.len(),
                r@ == pending_generated(orders@.take(i as int)),
            decreases orders.len() - i,
        {
            proof {
                assert(orders@.take(i + 1).drop_last() =~= orders@.take(i as int));
                assert(orders@.take(i + 1).last() == orders@[i as int]);
                reveal_strlit("prepublished");
            }
            let o = &orders[i];
            let pending = match o.status {
                OrderStatus::Pending => true,
                _ => false,
            };
            if pending && text_eq(o.publication_state.as_str(), "prepublished") && o.has_generation_rule {
                let ghost before = r@;
                r.push(copy_facts(o));
                assert(r@ =~= before + seq![orders@[i as int]]);
            } else {
                assert(r@ + Seq::<GeneratedOrderFacts>::empty() =~= r@);
            }
            i += 1;
        }
        assert(orders@.take(orders.len() as int) =~= orders@);
        r
    }

    /// The arrival and departure that anchor the regeneration of the
    /// drafts of a flight with times `flight`.
    pub fn rebase_anchor_times(flight: &FlightTimes, drafts: &Vec<GeneratedOrderFacts>) -> (r: Option<(i64, i64)>)
        ensures
            r == rebase_anchors(*flight, drafts@),
    {
        let inbound = first_leg_anchor_of(drafts, "inbound");
        let outbound = first_leg_anchor_of(drafts, "outbound");
        let eta = first_time_of(flight.estimated_arrival, flight.scheduled_arrival, flight.actual_arrival, inbound);
        let etd = first_time_of(flight.estimated_departure, flight.scheduled_departure, flight.actual_departure, outbound);
        match (eta, etd) {
            (Some(a), Some(d)) => Some((a, d)),
            (Some(a), None) => Some((a, a)),
            (None, Some(d)) => Some((d, d)),
            (None, None) => None,
        }
    }

    /// The stands regeneration runs on: those of the drafts, trimmed, blank
    /// ones dropped, each once.
    pub fn rebase_stand_ids(drafts: &Vec<GeneratedOrderFacts>) -> (r: Vec<String>)
        ensures
            string_views(r@) == draft_stands(drafts@),
    {
        let mut r: Vec<String> = Vec::new();
        let mut i: usize = 0;
        while i < drafts.len()
            invariant
                i <= drafts.len(),
                string_views(r@) == draft_stands(drafts@.take(i as int)),
            decreases drafts.len() - i,
        {
            proof {
                assert(drafts@.take(i + 1).drop_last() =~= drafts@.take(i as int));
                assert(drafts@.take(i + 1).last() == drafts@[i as int]);
            }
            match &drafts[i].stand_id {
                Some(s) => {
                    let t = trim(s.as_str());
                    if t.unicode_len() > 0 {
                        let ghost pre = string_views(r@);
                        let mut seen = false;
                        let mut k: usize = 0;
                        while k < r.len()
                            invariant_except_break
                                !seen,
                            invariant
                                k <= r.len(),
                                pre == string_views(r@),
                                forall|m: int| 0 <= m < k ==> pre[m] != t@,
                            ensures
                                seen <==> pre.contains(t@),
                            decreases r.len() - k,
                        {
                            if text_eq(r[k].as_str(), t) {
                                seen = true;
                                assert(pre[k as int] == t@);
                                break;
                            }
                            k += 1;
                        }
                        if !seen {
                            r.push(owned(t));
                            assert(string_views(r@) =~= pre.push(t@));
                        }
                    }
                },
                None => {},
            }
            i += 1;
        }
        assert(drafts@.take(drafts.len() as int) =~= drafts@);
        r
    }
}

} // verus!
