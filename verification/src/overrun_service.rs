//! The overrun warning service: evaluates the chain of orders of a flight
//! pair by pair against the alert table, and scans all flights in a window.

use vstd::prelude::*;
use crate::generation::GenerationRule;
use crate::ids::{new_dispatch_id, wall_clock_now};
use crate::model::{is_instant, DispatchError, DispatchOrder, OrderStatus};
use crate::overrun::{detect_overrun, effective_lead, department_lead, overrun_applies, resolve_effective_lead, candidate_for, OverrunCandidate};
use crate::overrun_alerts::{
    alert_built_from, alert_same, auto_notes, build_overrun_alert, copy_alert, dispatch_overrun_dedupe_key,
    has_key, id_index, is_open_alert, key_index, overrun_dedupe_key, refreshed, store_wf, upsert_alerts, upsert_notifies, OverrunAlert,
    OverrunAlertStore,
};
use crate::text::text_eq;
use crate::idset::{has_id, lemma_lt_irreflexive, lemma_sorted_insert, seq_lt, sorted_ids, sorted_position};

verus! {

/// `a` comes no later than `b` in planned-start order (a missing start first).
pub open spec fn start_le(a: Option<i64>, b: Option<i64>) -> bool {
    match (a, b) {
        (None, _) => true,
        (Some(_), None) => false,
        (Some(x), Some(y)) => x <= y,
    }
}

/// `x` inserted into `s` after every order that starts no later than it.
pub open spec fn insert_by_start(s: Seq<DispatchOrder>, x: DispatchOrder) -> Seq<DispatchOrder>
    decreases s.len(),
{
    if s.len() == 0 {
        seq![x]
    } else if start_le(s.last().planned_start_time, x.planned_start_time) {
        s.push(x)
    } else {
        insert_by_start(s.drop_last(), x).push(s.last())
    }
}

/// `s` stably sorted by planned start.
pub open spec fn sort_by_start(s: Seq<DispatchOrder>) -> Seq<DispatchOrder>
    decreases s.len(),
{
    if s.len() == 0 {
        s
    } else {
        insert_by_start(sort_by_start(s.drop_last()), s.last())
    }
}

proof fn lemma_insert_at(s: Seq<DispatchOrder>, x: DispatchOrder, p: int)
    requires
        0 <= p <= s.len(),
        forall|k: int| p <= k < s.len() ==> !start_le(#[trigger] s[k].planned_start_time, x.planned_start_time),
        p == 0 || start_le(s[p - 1].planned_start_time, x.planned_start_time),
    ensures
        insert_by_start(s, x) == s.insert(p, x),
    decreases s.len(),
{
    if s.len() == 0 {
        assert(s.insert(p, x) =~= seq![x]);
    } else if p == s.len() {
        assert(s.insert(p, x) =~= s.push(x));
    } else {
        let t = s.drop_last();
        assert forall|k: int| p <= k < t.len() implies !start_le(#[trigger] t[k].planned_start_time, x.planned_start_time) by {
            assert(t[k] == s[k]);
        }
        assert(p == 0 || t[p - 1] == s[p - 1]);
        lemma_insert_at(t, x, p);
        assert(t.insert(p, x).push(s.last()) =~= s.insert(p, x));
    }
}

/// The orders stably sorted by planned start (a missing start first).
pub fn sort_orders_by_start(orders: Vec<DispatchOrder>) -> (r: Vec<DispatchOrder>)
    ensures
        r@ == sort_by_start(orders@),
{
    let ghost input = orders@;
    let total: usize = orders.len();
    let mut rest = orders;
    let mut sorted: Vec<DispatchOrder> = Vec::new();
    let mut taken: usize = 0;
    while rest.len() > 0
        invariant
            input.len() == total,
            taken + rest@.len() == input.len(),
            rest@ == input.subrange(taken as int, input.len() as int),
            sorted@ == sort_by_start(input.subrange(0, taken as int)),
        decreases rest@.len(),
    {
        let x = rest.remove(0);
        let mut p: usize = sorted.len();
        while p > 0 && !start_le_exec(sorted[p - 1].planned_start_time, x.planned_start_time)
            invariant
                p <= sorted@.len(),
                forall|k: int| p <= k < sorted@.len() ==> !start_le(#[trigger] sorted@[k].planned_start_time, x.planned_start_time),
            decreases p,
        {
            p = p - 1;
        }
        proof {
            lemma_insert_at(sorted@, x, p as int);
            let pre = input.subrange(0, taken + 1);
            assert(pre.drop_last() =~= input.subrange(0, taken as int));
            assert(pre.last() == x);
        }
        sorted.insert(p, x);
        taken = taken + 1;
        assert(rest@ =~= input.subrange(taken as int, input.len() as int));
    }
    assert(input.subrange(0, taken as int) =~= input);
    sorted
}

fn start_le_exec(a: Option<i64>, b: Option<i64>) -> (r: bool)
    ensures
        r == start_le(a, b),
{
    match (a, b) {
        (None, _) => true,
        (Some(_), None) => false,
        (Some(x), Some(y)) => x <= y,
    }
}

/// Outcome of evaluating one pair `current → next`.
pub struct OverrunEvaluationOutcome {
    pub candidate: Option<OverrunCandidate>,
    /// The alert written (new, refreshed or reopened) or closed.
    pub alert: Option<OverrunAlert>,
    /// A notification is due: the alert is new or was reopened.
    pub notify: bool,
    /// Identifier of the alert closed because the conflict disappeared.
    pub auto_resolved_alert_id: Option<String>,
}

/// Process counters of the warning service.
#[derive(Clone, Copy, Debug, PartialEq, Eq, Structural)]
pub struct OverrunMetrics {
    pub detections: u64,
    pub notifications: u64,
    pub auto_resolved: u64,
    pub eta_missing: u64,
    pub scan_duration_ms: u64,
    pub event_failures: u64,
}

/// Totals of one scan.
#[derive(Clone, Copy, Debug, PartialEq, Eq, Structural)]
pub struct ScanSummary {
    /// Adjacent pairs evaluated.
    pub evaluated_pairs: usize,
    /// Notifications due (new or reopened alerts).
    pub notifications: usize,
    /// Alerts still open after their pair was evaluated.
    pub active_alerts: usize,
    /// Alerts closed automatically.
    pub auto_resolved: usize,
    /// Conflicts without an estimated completion.
    pub eta_missing: usize,
}

/// Whether an open alert of flight `flight` is stored under `key`.
pub open spec fn has_active_alert(s: Seq<OverrunAlert>, flight: Seq<char>, key: Seq<char>) -> bool {
    &&& has_key(s, key)
    &&& !s[key_index(s, key)].is_resolved
    &&& s[key_index(s, key)].flight_id matches Some(f) && f@ == flight
}

/// The warning service over an in-memory view of orders and alerts.
pub struct OverrunWarningService {
    pub alerts: OverrunAlertStore,
    /// The department generation rules; `None` when no rule source is wired.
    pub generation_rules: Option<Vec<GenerationRule>>,
    /// When false, evaluations and scans write nothing.
    pub warning_enabled: bool,
    /// When false, alerts are not broadcast.
    pub sse_enabled: bool,
    /// The instant detection runs at.
    pub clock: i64,
    pub metrics: OverrunMetrics,
    pub scanner_running: bool,
}

/// The effective lead of `next` under the service's rules.
pub open spec fn lead_of(rules: Option<Vec<GenerationRule>>, next: &DispatchOrder) -> (i32, crate::model::LeadSource) {
    effective_lead(
        next.completion_warning_lead_minutes,
        department_lead(
            match rules {
                Some(v) => Some(v@),
                None => None,
            },
            next,
        ),
    )
}

/// Whether a closed alert stored under `key` has reached the largest
/// occurrence count, so that it cannot be reopened.
pub open spec fn reopen_overflows(s: Seq<OverrunAlert>, key: Seq<char>) -> bool {
    has_key(s, key) && s[key_index(s, key)].is_resolved && s[key_index(s, key)].occurrence_count == i64::MAX
}

/// What evaluating the pair `current → next` does to the alerts `s0`,
/// leaving `s1` and answering `r`: a detected conflict writes its alert
/// (new, refreshed or reopened, notifying when new or reopened); a conflict
/// that is gone closes its open alert with the note "auto".
pub open spec fn pair_evaluated(
    s0: Seq<OverrunAlert>,
    s1: Seq<OverrunAlert>,
    rules: Option<Vec<GenerationRule>>,
    clock: i64,
    current: DispatchOrder,
    next: DispatchOrder,
    r: Result<OverrunEvaluationOutcome, DispatchError>,
) -> bool {
    let (lead, source) = lead_of(rules, &next);
    let key = overrun_dedupe_key(current.id@, next.id@);
    if overrun_applies(&current, &next, lead as int, clock as int) {
        match r {
            Ok(o) => {
                &&& !reopen_overflows(s0, key)
                &&& o.candidate is Some
                &&& candidate_for(&o.candidate->0, &current, &next, lead, source, clock)
                &&& o.notify == (!has_key(s0, key) || s0[key_index(s0, key)].is_resolved)
                &&& o.auto_resolved_alert_id is None
                &&& o.alert is Some
                &&& has_key(s1, key)
                &&& alert_same(&o.alert->0, &s1[key_index(s1, key)])
                &&& exists|a: OverrunAlert|
                    #![trigger upsert_alerts(s0, a)]
                    s1 == upsert_alerts(s0, a) && alert_built_from(&a, &o.candidate->0, key, a.created_at->0)
            },
            Err(_) => reopen_overflows(s0, key) && s1 == s0,
        }
    } else {
        &&& r is Ok
        &&& r->Ok_0.candidate is None
        &&& !r->Ok_0.notify
        &&& if has_active_alert(s0, next.flight_id@, key) {
            let i = key_index(s0, key);
            &&& s1.len() == s0.len()
            &&& s1[i].is_resolved
            &&& s1[i].resolved_by is None
            &&& s1[i].resolution_notes matches Some(n) && n@ == auto_notes()
            &&& s1[i].id == s0[i].id
            &&& s1[i].dedupe_key == s0[i].dedupe_key
            &&& s1[i].occurrence_count == s0[i].occurrence_count
            &&& s1[i].acknowledged_at == s0[i].acknowledged_at
            &&& forall|k: int| 0 <= k < s0.len() && k != i ==> s1[k] == s0[k]
            &&& r->Ok_0.auto_resolved_alert_id == Some(s0[i].id)
            &&& r->Ok_0.alert is Some
            &&& alert_same(&r->Ok_0.alert->0, &s1[i])
        } else {
            &&& s1 == s0
            &&& r->Ok_0.auto_resolved_alert_id is None
            &&& r->Ok_0.alert is None
        }
    }
}

impl OverrunWarningService {
    /// A service with no alerts, warnings and broadcasts on, detecting at `clock`.
    pub fn new(clock: i64) -> (r: Self)
        ensures
            r.alerts.alerts@.len() == 0,
            r.generation_rules is None,
            r.warning_enabled,
            r.sse_enabled,
            r.clock == clock,
            !r.scanner_running,
    {
        OverrunWarningService {
            alerts: OverrunAlertStore::new(),
            generation_rules: None,
            warning_enabled: true,
            sse_enabled: true,
            clock,
            metrics: OverrunMetrics {
                detections: 0,
                notifications: 0,
                auto_resolved: 0,
                eta_missing: 0,
                scan_duration_ms: 0,
                event_failures: 0,
            },
            scanner_running: false,
        }
    }

    fn find_active_alert(&self, flight: &str, key: &str) -> (r: Option<usize>)
        requires
            store_wf(self.alerts.alerts@),
        ensures
            r is Some <==> has_active_alert(self.alerts.alerts@, flight@, key@),
            r matches Some(i) ==> i == key_index(self.alerts.alerts@, key@),
    {
        match self.alerts.find_key(key) {
            Some(i) => {
                if self.alerts.alerts[i].is_resolved {
                    return None;
                }
                let flight_ok = match &self.alerts.alerts[i].flight_id {
                    Some(f) => text_eq(f.as_str(), flight),
                    None => false,
                };
                if flight_ok {
                    Some(i)
                } else {
                    None
                }
            },
            None => None,
        }
    }

    /// Evaluates the pair `current → next`: writes the alert of a detected
    /// conflict, or closes the open alert of a conflict that is gone.
    pub fn evaluate_pair(&mut self, current: &DispatchOrder, next: &DispatchOrder) -> (r: Result<
        OverrunEvaluationOutcome,
        DispatchError,
    >)
        requires
            store_wf(old(self).alerts.alerts@),
        ensures
            store_wf(final(self).alerts.alerts@),
            final(self).metrics == old(self).metrics,
            final(self).sse_enabled == old(self).sse_enabled,
            final(self).scanner_running == old(self).scanner_running,
            final(self).generation_rules == old(self).generation_rules,
            final(self).clock == old(self).clock,
            final(self).warning_enabled == old(self).warning_enabled,
            pair_evaluated(
                old(self).alerts.alerts@,
                final(self).alerts.alerts@,
                old(self).generation_rules,
                old(self).clock,
                *current,
                *next,
                r,
            ),
    {
        let (lead, source) = resolve_effective_lead(&self.generation_rules, next);
        let key = dispatch_overrun_dedupe_key(current.id.as_str(), next.id.as_str());
        let now = self.clock;
        let candidate = detect_overrun(current, next, lead, source, now);
        match candidate {
            Some(c) => {
                let id = new_dispatch_id();
                let at = wall_clock_now();
                let alert = build_overrun_alert(&c, key.as_str(), id, at);
                let ghost a = alert;
                let upserted = self.alerts.upsert_overrun(alert);
                match upserted {
                    Ok(u) => {
                        proof {
                            let s1 = self.alerts.alerts@;
                            assert(has_key(s1, key@)) by {
                                let s0 = old(self).alerts.alerts@;
                                if has_key(s0, key@) {
                                    let i = key_index(s0, key@);
                                    assert(s1[i].dedupe_key@ == key@);
                                } else {
                                    assert(s1[s0.len() as int].dedupe_key@ == key@);
                                }
                            }
                            let j = key_index(s1, key@);
                            let s0 = old(self).alerts.alerts@;
                            let expected = if u.inserted { s0.len() as int } else { key_index(s0, key@) };
                            assert(s1[expected].dedupe_key@ == key@) by {
                                if !u.inserted {
                                    assert(s0[expected].dedupe_key@ == key@);
                                }
                            }
                            if j != expected {
                                if j < expected {
                                    let sj = s1[j];
                                    let se = s1[expected];
                                    assert(sj.dedupe_key@ != se.dedupe_key@);
                                } else {
                                    let sj = s1[j];
                                    let se = s1[expected];
                                    assert(se.dedupe_key@ != sj.dedupe_key@);
                                }
                            }
                            assert(upsert_alerts(s0, a) == s1);
                        }
                        Ok(
                            OverrunEvaluationOutcome {
                                candidate: Some(c),
                                alert: Some(u.alert),
                                notify: u.inserted || u.reopened,
                                auto_resolved_alert_id: None,
                            },
                        )
                    },
                    Err(e) => Err(e),
                }
            },
            None => {
                match self.find_active_alert(next.flight_id.as_str(), key.as_str()) {
                    Some(i) => {
                        let alert_id = self.alerts.alerts[i].id.clone();
                        let at = wall_clock_now();
                        let ghost s0 = self.alerts.alerts@;
                        self.alerts.close_at(i, at, None, Some(String::from_str("auto")));
                        let out = copy_alert(&self.alerts.alerts[i]);
                        Ok(
                            OverrunEvaluationOutcome {
                                candidate: None,
                                alert: Some(out),
                                notify: false,
                                auto_resolved_alert_id: Some(alert_id),
                            },
                        )
                    },
                    None => Ok(
                        OverrunEvaluationOutcome {
                            candidate: None,
                            alert: None,
                            notify: false,
                            auto_resolved_alert_id: None,
                        },
                    ),
                }
            },
        }
    }
}

} // verus!

verus! {

/// Adjacent pairs in a list of `n` orders.
pub open spec fn pair_count(n: nat) -> nat {
    if n == 0 {
        0
    } else {
        (n - 1) as nat
    }
}

/// Step `k` of a chain: evaluating the pair `sorted[k] → sorted[k + 1]`
/// took the alerts from `st[k]` to `st[k + 1]` with outcome `outs[k]`.
pub open spec fn chain_step(
    st: Seq<Seq<OverrunAlert>>,
    outs: Seq<OverrunEvaluationOutcome>,
    sorted: Seq<DispatchOrder>,
    rules: Option<Vec<GenerationRule>>,
    clock: i64,
    k: int,
) -> bool {
    pair_evaluated(st[k], st[k + 1], rules, clock, sorted[k], sorted[k + 1], Ok(outs[k]))
}

/// `st` is a run of alert tables from `s0` to `s1` in which the first
/// `outs.len()` adjacent pairs of `sorted` were evaluated in turn.
pub open spec fn chain_holds(
    st: Seq<Seq<OverrunAlert>>,
    s0: Seq<OverrunAlert>,
    s1: Seq<OverrunAlert>,
    rules: Option<Vec<GenerationRule>>,
    clock: i64,
    sorted: Seq<DispatchOrder>,
    outs: Seq<OverrunEvaluationOutcome>,
) -> bool {
    &&& outs.len() <= pair_count(sorted.len())
    &&& st.len() == outs.len() + 1
    &&& st[0] == s0
    &&& st[outs.len() as int] == s1
    &&& forall|k: int| 0 <= k < outs.len() ==> #[trigger] chain_step(st, outs, sorted, rules, clock, k)
}

/// Evaluating every adjacent pair of `sorted` in turn took `s0` to `s1`
/// with outcomes `outs`.
pub open spec fn chain_evaluated(
    s0: Seq<OverrunAlert>,
    s1: Seq<OverrunAlert>,
    rules: Option<Vec<GenerationRule>>,
    clock: i64,
    sorted: Seq<DispatchOrder>,
    outs: Seq<OverrunEvaluationOutcome>,
) -> bool {
    &&& outs.len() == pair_count(sorted.len())
    &&& exists|st: Seq<Seq<OverrunAlert>>| #[trigger] chain_holds(st, s0, s1, rules, clock, sorted, outs)
}

/// `st` and `outs` are a run that evaluated the first pairs of `sorted`
/// and then failed with `e` on the next one, leaving `s1`.
pub open spec fn chain_fails(
    st: Seq<Seq<OverrunAlert>>,
    outs: Seq<OverrunEvaluationOutcome>,
    s0: Seq<OverrunAlert>,
    s1: Seq<OverrunAlert>,
    rules: Option<Vec<GenerationRule>>,
    clock: i64,
    sorted: Seq<DispatchOrder>,
    e: DispatchError,
) -> bool {
    &&& outs.len() < pair_count(sorted.len())
    &&& chain_holds(st, s0, st.last(), rules, clock, sorted, outs)
    &&& pair_evaluated(
        st.last(),
        s1,
        rules,
        clock,
        sorted[outs.len() as int],
        sorted[outs.len() as int + 1],
        Err(e),
    )
}

/// What evaluating the orders `sorted` (already in planned-start order) did.
pub open spec fn orders_evaluated(
    s0: Seq<OverrunAlert>,
    s1: Seq<OverrunAlert>,
    rules: Option<Vec<GenerationRule>>,
    clock: i64,
    sorted: Seq<DispatchOrder>,
    r: Result<Vec<OverrunEvaluationOutcome>, DispatchError>,
) -> bool {
    match r {
        Ok(v) => chain_evaluated(s0, s1, rules, clock, sorted, v@),
        Err(e) => exists|st: Seq<Seq<OverrunAlert>>, outs: Seq<OverrunEvaluationOutcome>|
            #[trigger] chain_fails(st, outs, s0, s1, rules, clock, sorted, e),
    }
}

/// What an outcome counts as in the metrics and summaries.
#[derive(Clone, Copy, Debug, PartialEq, Eq, Structural)]
pub enum OutcomeKind {
    /// A conflict was detected.
    Detection,
    /// A notification is due.
    Notification,
    /// An alert was closed automatically.
    AutoResolution,
    /// A conflict without an estimated completion.
    EtaMissing,
    /// The outcome's alert is open.
    OpenAlert,
}

/// Whether `o` counts as `kind`.
pub open spec fn has_kind(o: OverrunEvaluationOutcome, kind: OutcomeKind) -> bool {
    match kind {
        OutcomeKind::Detection => o.candidate is Some,
        OutcomeKind::Notification => o.notify,
        OutcomeKind::AutoResolution => o.auto_resolved_alert_id is Some,
        OutcomeKind::EtaMissing => o.candidate is Some && o.candidate->0.eta_missing,
        OutcomeKind::OpenAlert => o.alert is Some && !o.alert->0.is_resolved,
    }
}

/// How many outcomes of `v` count as `kind`.
pub open spec fn count_kind(v: Seq<OverrunEvaluationOutcome>, kind: OutcomeKind) -> nat
    decreases v.len(),
{
    if v.len() == 0 {
        0
    } else {
        count_kind(v.drop_last(), kind) + if has_kind(v.last(), kind) {
            1nat
        } else {
            0nat
        }
    }
}

/// `a` advanced `n` times by one, wrapping around at the top.
pub open spec fn wrapped_add(a: u64, n: nat) -> u64
    decreases n,
{
    if n == 0 {
        a
    } else {
        let b = wrapped_add(a, (n - 1) as nat);
        if b == u64::MAX {
            0
        } else {
            (b + 1) as u64
        }
    }
}

/// The counters `m1` are `m0` after recording the outcomes `v`.
pub open spec fn metrics_recorded(m0: OverrunMetrics, m1: OverrunMetrics, v: Seq<OverrunEvaluationOutcome>) -> bool {
    &&& m1.detections == wrapped_add(m0.detections, count_kind(v, OutcomeKind::Detection))
    &&& m1.notifications == wrapped_add(m0.notifications, count_kind(v, OutcomeKind::Notification))
    &&& m1.auto_resolved == wrapped_add(m0.auto_resolved, count_kind(v, OutcomeKind::AutoResolution))
    &&& m1.eta_missing == wrapped_add(m0.eta_missing, count_kind(v, OutcomeKind::EtaMissing))
    &&& m1.scan_duration_ms == m0.scan_duration_ms
    &&& m1.event_failures == m0.event_failures
}

pub proof fn lemma_count_kind_concat(a: Seq<OverrunEvaluationOutcome>, b: Seq<OverrunEvaluationOutcome>, kind: OutcomeKind)
    ensures
        count_kind(a + b, kind) == count_kind(a, kind) + count_kind(b, kind),
    decreases b.len(),
{
    if b.len() > 0 {
        lemma_count_kind_concat(a, b.drop_last(), kind);
        assert((a + b).drop_last() =~= a + b.drop_last());
    } else {
        assert(a + b =~= a);
    }
}

proof fn lemma_count_kind_bound(v: Seq<OverrunEvaluationOutcome>, kind: OutcomeKind)
    ensures
        count_kind(v, kind) <= v.len(),
    decreases v.len(),
{
    if v.len() > 0 {
        lemma_count_kind_bound(v.drop_last(), kind);
    }
}

proof fn lemma_count_kind_step(v: Seq<OverrunEvaluationOutcome>, i: int, kind: OutcomeKind)
    requires
        0 <= i < v.len(),
    ensures
        count_kind(v.take(i + 1), kind) == count_kind(v.take(i), kind) + if has_kind(v[i], kind) {
            1nat
        } else {
            0nat
        },
{
    assert(v.take(i + 1).drop_last() =~= v.take(i));
}

pub proof fn lemma_wrapped_add_assoc(a: u64, n: nat, m: nat)
    ensures
        wrapped_add(wrapped_add(a, n), m) == wrapped_add(a, n + m),
    decreases m,
{
    if m > 0 {
        lemma_wrapped_add_assoc(a, n, (m - 1) as nat);
    }
}

fn bump(c: u64, yes: bool) -> (r: u64)
    ensures
        r == if yes {
            wrapped_add(c, 1)
        } else {
            c
        },
{
    if yes {
        assert(wrapped_add(c, 0) == c);
        c.wrapping_add(1)
    } else {
        c
    }
}

fn has_kind_exec(o: &OverrunEvaluationOutcome, kind: OutcomeKind) -> (r: bool)
    ensures
        r == has_kind(*o, kind),
{
    match kind {
        OutcomeKind::Detection => o.candidate.is_some(),
        OutcomeKind::Notification => o.notify,
        OutcomeKind::AutoResolution => o.auto_resolved_alert_id.is_some(),
        OutcomeKind::EtaMissing => match &o.candidate {
            Some(c) => c.eta_missing,
            None => false,
        },
        OutcomeKind::OpenAlert => match &o.alert {
            Some(a) => !a.is_resolved,
            None => false,
        },
    }
}

/// The metrics after recording the outcomes of one evaluation.
pub fn record_outcomes(m: OverrunMetrics, v: &Vec<OverrunEvaluationOutcome>) -> (r: OverrunMetrics)
    ensures
        metrics_recorded(m, r, v@),
{
    let mut r = m;
    let mut i: usize = 0;
    while i < v.len()
        invariant
            i <= v@.len(),
            metrics_recorded(m, r, v@.take(i as int)),
        decreases v@.len() - i,
    {
        proof {
            lemma_count_kind_step(v@, i as int, OutcomeKind::Detection);
            lemma_count_kind_step(v@, i as int, OutcomeKind::Notification);
            lemma_count_kind_step(v@, i as int, OutcomeKind::AutoResolution);
            lemma_count_kind_step(v@, i as int, OutcomeKind::EtaMissing);
            let t = v@.take(i as int);
            lemma_wrapped_add_assoc(m.detections, count_kind(t, OutcomeKind::Detection), 1);
            lemma_wrapped_add_assoc(m.notifications, count_kind(t, OutcomeKind::Notification), 1);
            lemma_wrapped_add_assoc(m.auto_resolved, count_kind(t, OutcomeKind::AutoResolution), 1);
            lemma_wrapped_add_assoc(m.eta_missing, count_kind(t, OutcomeKind::EtaMissing), 1);
        }
        r.detections = bump(r.detections, has_kind_exec(&v[i], OutcomeKind::Detection));
        r.notifications = bump(r.notifications, has_kind_exec(&v[i], OutcomeKind::Notification));
        r.auto_resolved = bump(r.auto_resolved, has_kind_exec(&v[i], OutcomeKind::AutoResolution));
        r.eta_missing = bump(r.eta_missing, has_kind_exec(&v[i], OutcomeKind::EtaMissing));
        i = i + 1;
    }
    assert(v@.take(v@.len() as int) =~= v@);
    r
}

pub proof fn lemma_sort_len(s: Seq<DispatchOrder>)
    ensures
        sort_by_start(s).len() == s.len(),
    decreases s.len(),
{
    if s.len() > 0 {
        lemma_sort_len(s.drop_last());
        lemma_insert_len(sort_by_start(s.drop_last()), s.last());
    }
}

proof fn lemma_insert_len(s: Seq<DispatchOrder>, x: DispatchOrder)
    ensures
        insert_by_start(s, x).len() == s.len() + 1,
    decreases s.len(),
{
    if s.len() > 0 && !start_le(s.last().planned_start_time, x.planned_start_time) {
        lemma_insert_len(s.drop_last(), x);
    }
}

} // verus!

verus! {

impl OverrunWarningService {
    /// Evaluates the adjacent pairs of `orders`, taken in planned-start
    /// order, one after the other, and records the outcomes in the metrics.
    /// Nothing happens while warnings are off.
    pub fn evaluate_orders(&mut self, orders: Vec<DispatchOrder>) -> (r: Result<
        Vec<OverrunEvaluationOutcome>,
        DispatchError,
    >)
        requires
            store_wf(old(self).alerts.alerts@),
        ensures
            store_wf(final(self).alerts.alerts@),
            final(self).generation_rules == old(self).generation_rules,
            final(self).clock == old(self).clock,
            final(self).warning_enabled == old(self).warning_enabled,
            final(self).sse_enabled == old(self).sse_enabled,
            final(self).scanner_running == old(self).scanner_running,
            !old(self).warning_enabled ==> {
                &&& r is Ok
                &&& r->Ok_0@.len() == 0
                &&& final(self).alerts.alerts@ == old(self).alerts.alerts@
                &&& final(self).metrics == old(self).metrics
            },
            old(self).warning_enabled ==> orders_evaluated(
                old(self).alerts.alerts@,
                final(self).alerts.alerts@,
                old(self).generation_rules,
                old(self).clock,
                sort_by_start(orders@),
                r,
            ),
            old(self).warning_enabled ==> match r {
                Ok(v) => metrics_recorded(old(self).metrics, final(self).metrics, v@),
                Err(_) => final(self).metrics == old(self).metrics,
            },
    {
        if !self.warning_enabled {
            return Ok(Vec::new());
        }
        let ghost input = orders@;
        let sorted = sort_orders_by_start(orders);
        let n = sorted.len();
        let ghost s0 = self.alerts.alerts@;
        let ghost rules = self.generation_rules;
        let ghost clock = self.clock;
        let ghost m0 = self.metrics;
        let ghost sse = self.sse_enabled;
        let ghost running = self.scanner_running;
        let ghost mut states: Seq<Seq<OverrunAlert>> = seq![s0];
        let mut outs: Vec<OverrunEvaluationOutcome> = Vec::new();
        let mut i: usize = 0;
        while i + 1 < n
            invariant
                n == sorted@.len(),
                i <= pair_count(n as nat),
                outs@.len() == i,
                store_wf(self.alerts.alerts@),
                self.generation_rules == rules,
                self.clock == clock,
                self.metrics == m0,
                self.warning_enabled,
                self.sse_enabled == sse,
                self.scanner_running == running,
                rules == old(self).generation_rules,
                clock == old(self).clock,
                sse == old(self).sse_enabled,
                running == old(self).scanner_running,
                m0 == old(self).metrics,
                s0 == old(self).alerts.alerts@,
                old(self).warning_enabled,
                sorted@ == sort_by_start(input),
                input == orders@,
                chain_holds(states, s0, self.alerts.alerts@, rules, clock, sorted@, outs@),
            decreases n - i,
        {
            let ghost before = self.alerts.alerts@;
            let ghost old_states = states;
            let ghost old_outs = outs@;
            let res = self.evaluate_pair(&sorted[i], &sorted[i + 1]);
            match res {
                Ok(o) => {
                    outs.push(o);
                    proof {
                        states = old_states.push(self.alerts.alerts@);
                        assert forall|k: int| 0 <= k < outs@.len() implies #[trigger] chain_step(
                            states,
                            outs@,
                            sorted@,
                            rules,
                            clock,
                            k,
                        ) by {
                            if k < i {
                                assert(chain_step(old_states, old_outs, sorted@, rules, clock, k));
                                assert(states[k] == old_states[k]);
                                assert(states[k + 1] == old_states[k + 1]);
                                assert(outs@[k] == old_outs[k]);
                            } else {
                                assert(states[k] == before);
                            }
                        }
                    }
                    i = i + 1;
                },
                Err(e) => {
                    proof {
                        assert(chain_fails(states, outs@, s0, self.alerts.alerts@, rules, clock, sorted@, e));
                    }
                    return Err(e);
                },
            }
        }
        self.metrics = record_outcomes(self.metrics, &outs);
        proof {
            assert(chain_holds(states, s0, self.alerts.alerts@, rules, clock, sorted@, outs@));
        }
        Ok(outs)
    }
}

} // verus!

verus! {

/// Minutes the scan looks back from now.
pub const SCAN_LOOK_BACK_MINUTES: i64 = 240;

/// Minutes the scan looks ahead of now, besides the hour of the next order.
pub const SCAN_LOOK_AHEAD_MINUTES: i64 = 15;

/// Most orders one scan takes.
pub const SCAN_MAX_ORDERS: usize = 5000;

/// First instant of the scan window at `now`.
pub open spec fn scan_window_start(now: int) -> int {
    now - SCAN_LOOK_BACK_MINUTES * 60
}

/// Last instant of the scan window at `now`.
pub open spec fn scan_window_end(now: int) -> int {
    now + (SCAN_LOOK_AHEAD_MINUTES + 60) * 60
}

/// Statuses the scan looks at (cancelled ones included, so that their
/// alerts close).
pub open spec fn scan_status(s: OrderStatus) -> bool {
    s == OrderStatus::InProgress || s == OrderStatus::Pending || s == OrderStatus::Assigned
        || s == OrderStatus::Cancelled
}

/// Whether the scan at `now` takes `o`: a scanned status, and a planned
/// interval (a missing end counting as the start) that meets the window.
pub open spec fn in_scan(o: DispatchOrder, now: int) -> bool {
    &&& scan_status(o.status)
    &&& match o.planned_start_time {
        Some(start) => {
            let end = match o.planned_end_time {
                Some(e) => e,
                None => start,
            };
            end >= scan_window_start(now) && start <= scan_window_end(now)
        },
        None => false,
    }
}

/// The orders of `s` that the scan at `now` takes, in order.
pub open spec fn scan_selection(s: Seq<DispatchOrder>, now: int) -> Seq<DispatchOrder>
    decreases s.len(),
{
    if s.len() == 0 {
        s
    } else if in_scan(s.last(), now) {
        scan_selection(s.drop_last(), now).push(s.last())
    } else {
        scan_selection(s.drop_last(), now)
    }
}

/// At most the first `SCAN_MAX_ORDERS` orders of `s`.
pub open spec fn capped(s: Seq<DispatchOrder>) -> Seq<DispatchOrder> {
    if s.len() > SCAN_MAX_ORDERS {
        s.take(SCAN_MAX_ORDERS as int)
    } else {
        s
    }
}

/// The orders one scan at `now` works on.
pub open spec fn scan_batch(s: Seq<DispatchOrder>, now: int) -> Seq<DispatchOrder> {
    capped(scan_selection(s, now))
}

/// The orders of `s` on flight `f`, in order.
pub open spec fn orders_of_flight(s: Seq<DispatchOrder>, f: Seq<char>) -> Seq<DispatchOrder>
    decreases s.len(),
{
    if s.len() == 0 {
        s
    } else if s.last().flight_id@ == f {
        orders_of_flight(s.drop_last(), f).push(s.last())
    } else {
        orders_of_flight(s.drop_last(), f)
    }
}

/// `keys` are the flights of `s` in increasing order, and `groups[k]` the
/// orders of `s` on flight `keys[k]`, in order.
pub open spec fn flights_grouped(keys: Seq<String>, groups: Seq<Seq<DispatchOrder>>, s: Seq<DispatchOrder>) -> bool {
    &&& keys.len() == groups.len()
    &&& sorted_ids(keys)
    &&& forall|k: int| 0 <= k < groups.len() ==> #[trigger] groups[k] == orders_of_flight(s, keys[k]@)
    &&& forall|x: Seq<char>|
        has_id(keys, x) <==> exists|i: int| 0 <= i < s.len() && (#[trigger] s[i]).flight_id@ == x
}

/// The order lists of a list of groups.
pub open spec fn group_views(g: Seq<Vec<DispatchOrder>>) -> Seq<Seq<DispatchOrder>> {
    g.map_values(|v: Vec<DispatchOrder>| v@)
}

/// The outcomes of several evaluations, one after the other.
pub open spec fn concat_outcomes(outs: Seq<Seq<OverrunEvaluationOutcome>>) -> Seq<OverrunEvaluationOutcome>
    decreases outs.len(),
{
    if outs.len() == 0 {
        Seq::empty()
    } else {
        concat_outcomes(outs.drop_last()) + outs.last()
    }
}

/// `sum` counts the outcomes `v`.
pub open spec fn summary_counts(sum: ScanSummary, v: Seq<OverrunEvaluationOutcome>) -> bool {
    &&& sum.evaluated_pairs == v.len()
    &&& sum.notifications == count_kind(v, OutcomeKind::Notification)
    &&& sum.active_alerts == count_kind(v, OutcomeKind::OpenAlert)
    &&& sum.auto_resolved == count_kind(v, OutcomeKind::AutoResolution)
    &&& sum.eta_missing == count_kind(v, OutcomeKind::EtaMissing)
}

/// A run of a scan: the flights `keys` with their orders `groups` were
/// evaluated one after the other from `s0`, the first `outs.len()` of them
/// successfully, through the alert tables `st`.
pub open spec fn scan_run(
    keys: Seq<String>,
    groups: Seq<Seq<DispatchOrder>>,
    st: Seq<Seq<OverrunAlert>>,
    outs: Seq<Seq<OverrunEvaluationOutcome>>,
    s0: Seq<OverrunAlert>,
    rules: Option<Vec<GenerationRule>>,
    clock: i64,
    batch: Seq<DispatchOrder>,
) -> bool {
    &&& flights_grouped(keys, groups, batch)
    &&& outs.len() <= groups.len()
    &&& st.len() == outs.len() + 1
    &&& st[0] == s0
    &&& forall|k: int|
        0 <= k < outs.len() ==> #[trigger] chain_evaluated(
            st[k],
            st[k + 1],
            rules,
            clock,
            sort_by_start(groups[k]),
            outs[k],
        )
}

/// What a scan of `batch` did to the alerts and the metrics, and answered.
pub open spec fn scan_evaluated(
    s0: Seq<OverrunAlert>,
    s1: Seq<OverrunAlert>,
    m0: OverrunMetrics,
    m1: OverrunMetrics,
    rules: Option<Vec<GenerationRule>>,
    clock: i64,
    batch: Seq<DispatchOrder>,
    r: Result<ScanSummary, DispatchError>,
) -> bool {
    exists|
        keys: Seq<String>,
        groups: Seq<Seq<DispatchOrder>>,
        st: Seq<Seq<OverrunAlert>>,
        outs: Seq<Seq<OverrunEvaluationOutcome>>,
    |
        #[trigger] scan_run(keys, groups, st, outs, s0, rules, clock, batch) && metrics_recorded(
            m0,
            m1,
            concat_outcomes(outs),
        ) && match r {
            Ok(sum) => outs.len() == groups.len() && st.last() == s1 && summary_counts(
                sum,
                concat_outcomes(outs),
            ),
            Err(e) => outs.len() < groups.len() && orders_evaluated(
                st.last(),
                s1,
                rules,
                clock,
                sort_by_start(groups[outs.len() as int]),
                Err(e),
            ),
        }
}

fn in_scan_exec(o: &DispatchOrder, now: i64) -> (r: bool)
    ensures
        r == in_scan(*o, now as int),
{
    let status_ok = match o.status {
        OrderStatus::InProgress | OrderStatus::Pending | OrderStatus::Assigned | OrderStatus::Cancelled => true,
        _ => false,
    };
    if !status_ok {
        return false;
    }
    let window_start: i128 = now as i128 - (SCAN_LOOK_BACK_MINUTES as i128) * 60;
    let window_end: i128 = now as i128 + (SCAN_LOOK_AHEAD_MINUTES as i128 + 60) * 60;
    match o.planned_start_time {
        Some(start) => {
            let end = match o.planned_end_time {
                Some(e) => e,
                None => start,
            };
            end as i128 >= window_start && start as i128 <= window_end
        },
        None => false,
    }
}

/// The orders a scan at `now` works on: those of a scanned status whose
/// planned interval meets the window, at most `SCAN_MAX_ORDERS` of them.
pub fn select_scan_orders(orders: Vec<DispatchOrder>, now: i64) -> (r: Vec<DispatchOrder>)
    ensures
        r@ == scan_batch(orders@, now as int),
{
    let ghost input = orders@;
    let total: usize = orders.len();
    let mut rest = orders;
    let mut r: Vec<DispatchOrder> = Vec::new();
    let mut taken: usize = 0;
    while rest.len() > 0
        invariant
            input.len() == total,
            taken + rest@.len() == input.len(),
            rest@ == input.subrange(taken as int, input.len() as int),
            r@ == capped(scan_selection(input.subrange(0, taken as int), now as int)),
        decreases rest@.len(),
    {
        let o = rest.remove(0);
        proof {
            let pre = input.subrange(0, taken + 1);
            assert(pre.drop_last() =~= input.subrange(0, taken as int));
            assert(pre.last() == o);
        }
        if in_scan_exec(&o, now) {
            let ghost sel = scan_selection(input.subrange(0, taken as int), now as int);
            if r.len() < SCAN_MAX_ORDERS {
                r.push(o);
            } else {
                assert(sel.push(o).take(SCAN_MAX_ORDERS as int) =~= sel.take(SCAN_MAX_ORDERS as int));
            }
        }
        taken = taken + 1;
        assert(rest@ =~= input.subrange(taken as int, input.len() as int));
    }
    assert(input.subrange(0, taken as int) =~= input);
    r
}

proof fn lemma_no_flight_orders(s: Seq<DispatchOrder>, f: Seq<char>)
    requires
        forall|i: int| 0 <= i < s.len() ==> (#[trigger] s[i]).flight_id@ != f,
    ensures
        orders_of_flight(s, f).len() == 0,
    decreases s.len(),
{
    if s.len() > 0 {
        assert(s.last() == s[s.len() - 1]);
        lemma_no_flight_orders(s.drop_last(), f);
    }
}

proof fn lemma_flight_orders_len(s: Seq<DispatchOrder>, f: Seq<char>)
    ensures
        orders_of_flight(s, f).len() <= s.len(),
    decreases s.len(),
{
    if s.len() > 0 {
        lemma_flight_orders_len(s.drop_last(), f);
    }
}

/// The orders grouped by flight, flights in increasing order, each group
/// keeping the orders' order.
pub fn group_by_flight(orders: Vec<DispatchOrder>) -> (r: (Vec<String>, Vec<Vec<DispatchOrder>>))
    ensures
        flights_grouped(r.0@, group_views(r.1@), orders@),
        r.0@.len() <= orders@.len(),
{
    let ghost input = orders@;
    let total: usize = orders.len();
    let mut rest = orders;
    let mut keys: Vec<String> = Vec::new();
    let mut groups: Vec<Vec<DispatchOrder>> = Vec::new();
    let mut taken: usize = 0;
    while rest.len() > 0
        invariant
            input.len() == total,
            taken + rest@.len() == input.len(),
            rest@ == input.subrange(taken as int, input.len() as int),
            keys@.len() <= taken,
            flights_grouped(keys@, group_views(groups@), input.subrange(0, taken as int)),
        decreases rest@.len(),
    {
        let o = rest.remove(0);
        let ghost pre = input.subrange(0, taken as int);
        let ghost post = input.subrange(0, taken + 1);
        let ghost f = o.flight_id@;
        let ghost old_keys = keys@;
        let ghost old_groups = group_views(groups@);
        proof {
            assert(post.drop_last() =~= pre);
            assert(post.last() == o);
            assert(post =~= pre.push(o));
        }
        let (p, found) = sorted_position(&keys, o.flight_id.as_str());
        if found {
            let mut g = groups.remove(p);
            g.push(o);
            groups.insert(p, g);
            proof {
                let ng = group_views(groups@);
                assert forall|k: int| 0 <= k < ng.len() implies #[trigger] ng[k] == orders_of_flight(
                    post,
                    keys@[k]@,
                ) by {
                    assert(old_groups[k] == orders_of_flight(pre, old_keys[k]@));
                    if k != p {
                        assert(ng[k] == old_groups[k]);
                        if k < p {
                            assert(seq_lt(keys@[k]@, keys@[p as int]@));
                        } else {
                            assert(seq_lt(keys@[p as int]@, keys@[k]@));
                        }
                        lemma_lt_irreflexive(f);
                    }
                }
                assert forall|x: Seq<char>| has_id(keys@, x) <==> exists|i: int|
                    0 <= i < post.len() && (#[trigger] post[i]).flight_id@ == x by {
                    if exists|i: int| 0 <= i < post.len() && (#[trigger] post[i]).flight_id@ == x {
                        let i = choose|i: int| 0 <= i < post.len() && (#[trigger] post[i]).flight_id@ == x;
                        if i < pre.len() {
                            assert(pre[i] == post[i]);
                        }
                    }
                    if has_id(keys@, x) {
                        let i = choose|i: int| 0 <= i < pre.len() && (#[trigger] pre[i]).flight_id@ == x;
                        assert(post[i] == pre[i]);
                    }
                }
            }
        } else {
            let key = o.flight_id.clone();
            proof {
                lemma_sorted_insert(keys@, p as int, key);
                assert forall|i: int| 0 <= i < pre.len() implies (#[trigger] pre[i]).flight_id@ != f by {
                    if pre[i].flight_id@ == f {
                        assert(has_id(old_keys, f));
                    }
                }
                lemma_no_flight_orders(pre, f);
            }
            keys.insert(p, key);
            let mut g: Vec<DispatchOrder> = Vec::new();
            g.push(o);
            groups.insert(p, g);
            proof {
                let ng = group_views(groups@);
                assert(ng =~= old_groups.insert(p as int, seq![o]));
                assert forall|k: int| 0 <= k < ng.len() implies #[trigger] ng[k] == orders_of_flight(
                    post,
                    keys@[k]@,
                ) by {
                    if k < p {
                        assert(old_groups[k] == orders_of_flight(pre, old_keys[k]@));
                        assert(seq_lt(old_keys[k]@, f));
                        lemma_lt_irreflexive(f);
                    } else if k > p {
                        assert(old_groups[k - 1] == orders_of_flight(pre, old_keys[k - 1]@));
                        assert(seq_lt(f, old_keys[k - 1]@));
                        lemma_lt_irreflexive(f);
                    } else {
                        assert(orders_of_flight(pre, f) =~= Seq::<DispatchOrder>::empty());
                        assert(orders_of_flight(pre, f).push(o) =~= seq![o]);
                    }
                }
                assert forall|x: Seq<char>| has_id(keys@, x) <==> exists|i: int|
                    0 <= i < post.len() && (#[trigger] post[i]).flight_id@ == x by {
                    if exists|i: int| 0 <= i < post.len() && (#[trigger] post[i]).flight_id@ == x {
                        let i = choose|i: int| 0 <= i < post.len() && (#[trigger] post[i]).flight_id@ == x;
                        if i < pre.len() {
                            assert(pre[i] == post[i]);
                        }
                    }
                    if has_id(old_keys, x) {
                        let i = choose|i: int| 0 <= i < pre.len() && (#[trigger] pre[i]).flight_id@ == x;
                        assert(post[i] == pre[i]);
                    }
                    if x == f {
                        assert(post[pre.len() as int] == o);
                    }
                }
            }
        }
        taken = taken + 1;
        assert(rest@ =~= input.subrange(taken as int, input.len() as int));
    }
    assert(input.subrange(0, taken as int) =~= input);
    (keys, groups)
}

} // verus!

verus! {

proof fn lemma_metrics_compose(
    m0: OverrunMetrics,
    m1: OverrunMetrics,
    m2: OverrunMetrics,
    a: Seq<OverrunEvaluationOutcome>,
    b: Seq<OverrunEvaluationOutcome>,
)
    requires
        metrics_recorded(m0, m1, a),
        metrics_recorded(m1, m2, b),
    ensures
        metrics_recorded(m0, m2, a + b),
{
    lemma_count_kind_concat(a, b, OutcomeKind::Detection);
    lemma_count_kind_concat(a, b, OutcomeKind::Notification);
    lemma_count_kind_concat(a, b, OutcomeKind::AutoResolution);
    lemma_count_kind_concat(a, b, OutcomeKind::EtaMissing);
    lemma_wrapped_add_assoc(m0.detections, count_kind(a, OutcomeKind::Detection), count_kind(b, OutcomeKind::Detection));
    lemma_wrapped_add_assoc(
        m0.notifications,
        count_kind(a, OutcomeKind::Notification),
        count_kind(b, OutcomeKind::Notification),
    );
    lemma_wrapped_add_assoc(
        m0.auto_resolved,
        count_kind(a, OutcomeKind::AutoResolution),
        count_kind(b, OutcomeKind::AutoResolution),
    );
    lemma_wrapped_add_assoc(m0.eta_missing, count_kind(a, OutcomeKind::EtaMissing), count_kind(b, OutcomeKind::EtaMissing));
}

proof fn lemma_count_after_step(all: Seq<OverrunEvaluationOutcome>, v: Seq<OverrunEvaluationOutcome>, t: int, kind: OutcomeKind)
    requires
        0 <= t < v.len(),
    ensures
        count_kind(all + v.take(t + 1), kind) == count_kind(all + v.take(t), kind) + if has_kind(v[t], kind) {
            1nat
        } else {
            0nat
        },
{
    lemma_count_kind_concat(all, v.take(t + 1), kind);
    lemma_count_kind_concat(all, v.take(t), kind);
    lemma_count_kind_step(v, t, kind);
}

fn add_outcomes(sum: ScanSummary, v: &Vec<OverrunEvaluationOutcome>, Ghost(all): Ghost<Seq<OverrunEvaluationOutcome>>) -> (r: ScanSummary)
    requires
        summary_counts(sum, all),
        all.len() + v@.len() <= usize::MAX,
    ensures
        summary_counts(r, all + v@),
{
    let mut r = sum;
    let mut t: usize = 0;
    assert(all + v@.take(0) =~= all);
    while t < v.len()
        invariant
            t <= v@.len(),
            all.len() + v@.len() <= usize::MAX,
            summary_counts(r, all + v@.take(t as int)),
        decreases v@.len() - t,
    {
        proof {
            lemma_count_after_step(all, v@, t as int, OutcomeKind::Notification);
            lemma_count_after_step(all, v@, t as int, OutcomeKind::OpenAlert);
            lemma_count_after_step(all, v@, t as int, OutcomeKind::AutoResolution);
            lemma_count_after_step(all, v@, t as int, OutcomeKind::EtaMissing);
            let next = all + v@.take(t + 1);
            lemma_count_kind_bound(next, OutcomeKind::Notification);
            lemma_count_kind_bound(next, OutcomeKind::OpenAlert);
            lemma_count_kind_bound(next, OutcomeKind::AutoResolution);
            lemma_count_kind_bound(next, OutcomeKind::EtaMissing);
        }
        r.evaluated_pairs = r.evaluated_pairs + 1;
        if has_kind_exec(&v[t], OutcomeKind::Notification) {
            r.notifications = r.notifications + 1;
        }
        if has_kind_exec(&v[t], OutcomeKind::OpenAlert) {
            r.active_alerts = r.active_alerts + 1;
        }
        if has_kind_exec(&v[t], OutcomeKind::AutoResolution) {
            r.auto_resolved = r.auto_resolved + 1;
        }
        if has_kind_exec(&v[t], OutcomeKind::EtaMissing) {
            r.eta_missing = r.eta_missing + 1;
        }
        t = t + 1;
    }
    assert(v@.take(v@.len() as int) =~= v@);
    r
}

/// The summary of a scan that evaluated nothing.
pub open spec fn empty_summary() -> ScanSummary {
    ScanSummary { evaluated_pairs: 0, notifications: 0, active_alerts: 0, auto_resolved: 0, eta_missing: 0 }
}

impl OverrunWarningService {
    /// One recovery scan at the service's clock over `orders`, the orders
    /// known around now: the orders in the scan window are grouped by
    /// flight, and each flight's chain is evaluated in turn. A scan while
    /// warnings are off evaluates nothing.
    pub fn scan_once(&mut self, orders: Vec<DispatchOrder>) -> (r: Result<ScanSummary, DispatchError>)
        requires
            store_wf(old(self).alerts.alerts@),
            old(self).warning_enabled ==> is_instant(scan_window_start(old(self).clock as int)),
            old(self).warning_enabled ==> is_instant(scan_window_end(old(self).clock as int)),
        ensures
            store_wf(final(self).alerts.alerts@),
            final(self).generation_rules == old(self).generation_rules,
            final(self).clock == old(self).clock,
            final(self).warning_enabled == old(self).warning_enabled,
            final(self).sse_enabled == old(self).sse_enabled,
            final(self).scanner_running == old(self).scanner_running,
            !old(self).warning_enabled ==> {
                &&& r == Ok::<ScanSummary, DispatchError>(empty_summary())
                &&& final(self).alerts.alerts@ == old(self).alerts.alerts@
                &&& final(self).metrics == old(self).metrics
            },
            old(self).warning_enabled ==> scan_evaluated(
                old(self).alerts.alerts@,
                final(self).alerts.alerts@,
                old(self).metrics,
                final(self).metrics,
                old(self).generation_rules,
                old(self).clock,
                scan_batch(orders@, old(self).clock as int),
                r,
            ),
    {
        let mut summary = ScanSummary {
            evaluated_pairs: 0,
            notifications: 0,
            active_alerts: 0,
            auto_resolved: 0,
            eta_missing: 0,
        };
        if !self.warning_enabled {
            return Ok(summary);
        }
        let batch = select_scan_orders(orders, self.clock);
        let ghost b = batch@;
        let (keys, groups) = group_by_flight(batch);
        let ghost ks = keys@;
        let ghost gs = group_views(groups@);
        let ghost s0 = self.alerts.alerts@;
        let ghost m0 = self.metrics;
        let ghost rules = self.generation_rules;
        let ghost clock = self.clock;
        let ghost sse = self.sse_enabled;
        let ghost running = self.scanner_running;
        let ghost mut st: Seq<Seq<OverrunAlert>> = seq![s0];
        let ghost mut outs: Seq<Seq<OverrunEvaluationOutcome>> = Seq::empty();
        proof {
            assert(concat_outcomes(outs) =~= Seq::<OverrunEvaluationOutcome>::empty());
            assert(scan_run(ks, gs, st, outs, s0, rules, clock, b));
        }
        let total = groups.len();
        let mut rest = groups;
        let mut j: usize = 0;
        while rest.len() > 0
            invariant
                total == gs.len(),
                j + rest@.len() == total,
                group_views(rest@) == gs.subrange(j as int, total as int),
                ks.len() <= b.len(),
                b.len() <= SCAN_MAX_ORDERS,
                flights_grouped(ks, gs, b),
                scan_run(ks, gs, st, outs, s0, rules, clock, b),
                outs.len() == j,
                st.last() == self.alerts.alerts@,
                metrics_recorded(m0, self.metrics, concat_outcomes(outs)),
                summary_counts(summary, concat_outcomes(outs)),
                concat_outcomes(outs).len() <= j * SCAN_MAX_ORDERS,
                store_wf(self.alerts.alerts@),
                self.warning_enabled,
                self.generation_rules == rules,
                self.clock == clock,
                self.sse_enabled == sse,
                self.scanner_running == running,
                rules == old(self).generation_rules,
                clock == old(self).clock,
                sse == old(self).sse_enabled,
                running == old(self).scanner_running,
                m0 == old(self).metrics,
                s0 == old(self).alerts.alerts@,
                old(self).warning_enabled,
                b == scan_batch(orders@, clock as int),
            decreases rest@.len(),
        {
            let ghost old_rest = rest@;
            let g = rest.remove(0);
            let ghost before = self.alerts.alerts@;
            let ghost m_before = self.metrics;
            let ghost all = concat_outcomes(outs);
            proof {
                assert(group_views(old_rest)[0] == old_rest[0]@);
                assert(gs.subrange(j as int, total as int)[0] == gs[j as int]);
                assert(gs[j as int] == g@);
                assert(group_views(rest@) =~= gs.subrange(j as int + 1, total as int)) by {
                    assert(rest@ =~= old_rest.subrange(1, old_rest.len() as int));
                    assert forall|k: int| 0 <= k < rest@.len() implies #[trigger] group_views(rest@)[k] == gs.subrange(j as int + 1, total as int)[k] by {
                        assert(group_views(old_rest)[k + 1] == gs.subrange(j as int, total as int)[k + 1]);
                    }
                }
                assert(gs[j as int] == orders_of_flight(b, ks[j as int]@));
                lemma_flight_orders_len(b, ks[j as int]@);
                lemma_sort_len(g@);
            }
            let res = self.evaluate_orders(g);
            match res {
                Ok(v) => {
                    proof {
                        assert(v@.len() <= SCAN_MAX_ORDERS);
                        assert(j < SCAN_MAX_ORDERS);
                    }
                    summary = add_outcomes(summary, &v, Ghost(all));
                    proof {
                        lemma_metrics_compose(m0, m_before, self.metrics, all, v@);
                        let old_st = st;
                        let old_outs = outs;
                        st = st.push(self.alerts.alerts@);
                        outs = outs.push(v@);
                        assert(outs.drop_last() =~= old_outs);
                        assert(concat_outcomes(outs) == all + v@);
                        assert forall|k: int| 0 <= k < outs.len() implies #[trigger] chain_evaluated(
                            st[k],
                            st[k + 1],
                            rules,
                            clock,
                            sort_by_start(gs[k]),
                            outs[k],
                        ) by {
                            if k < j {
                                assert(chain_evaluated(
                                    old_st[k],
                                    old_st[k + 1],
                                    rules,
                                    clock,
                                    sort_by_start(gs[k]),
                                    old_outs[k],
                                ));
                                assert(st[k] == old_st[k] && st[k + 1] == old_st[k + 1] && outs[k] == old_outs[k]);
                            } else {
                                assert(st[k] == before);
                            }
                        }
                        assert(scan_run(ks, gs, st, outs, s0, rules, clock, b));
                    }
                    j = j + 1;
                    proof {
                        assert(group_views(rest@) =~= gs.subrange(j as int, total as int));
                    }
                },
                Err(e) => {
                    proof {
                        assert(scan_run(ks, gs, st, outs, s0, rules, clock, b));
                    }
                    return Err(e);
                },
            }
        }
        proof {
            assert(scan_run(ks, gs, st, outs, s0, rules, clock, b));
        }
        Ok(summary)
    }
}

} // verus!

verus! {

/// The error for an alert that is missing or already closed.
pub open spec fn alert_not_found(e: DispatchError, id: Seq<char>) -> bool {
    e matches DispatchError::NotFound { entity_type, id: missing } && entity_type@ == "DispatchAlert"@ && missing@ == id
}

fn alert_not_found_error(id: &str) -> (e: DispatchError)
    ensures
        alert_not_found(e, id@),
{
    DispatchError::NotFound { entity_type: String::from_str("DispatchAlert"), id: String::from_str(id) }
}

/// The open alerts of `s`, of flight `flight` when one is given, in order.
pub open spec fn unresolved_of(s: Seq<OverrunAlert>, flight: Option<Seq<char>>) -> Seq<OverrunAlert>
    decreases s.len(),
{
    if s.len() == 0 {
        s
    } else {
        let a = s.last();
        let keep = !a.is_resolved && match flight {
            Some(f) => a.flight_id matches Some(x) && x@ == f,
            None => true,
        };
        if keep {
            unresolved_of(s.drop_last(), flight).push(a)
        } else {
            unresolved_of(s.drop_last(), flight)
        }
    }
}

/// The alerts of the outcomes that are to be broadcast: those that are
/// due a notification or were closed automatically.
pub open spec fn broadcast_of(v: Seq<OverrunEvaluationOutcome>) -> Seq<OverrunAlert>
    decreases v.len(),
{
    if v.len() == 0 {
        Seq::empty()
    } else {
        let o = v.last();
        if (o.notify || o.auto_resolved_alert_id is Some) && o.alert is Some {
            broadcast_of(v.drop_last()).push(o.alert->0)
        } else {
            broadcast_of(v.drop_last())
        }
    }
}

/// `r` holds the same alerts as `s`, in order.
pub open spec fn alerts_same(r: Seq<OverrunAlert>, s: Seq<OverrunAlert>) -> bool {
    r.len() == s.len() && forall|k: int| 0 <= k < s.len() ==> alert_same(&#[trigger] r[k], &s[k])
}

impl OverrunWarningService {
    /// The service detecting at `clock` from now on.
    pub fn with_clock(self, clock: i64) -> (r: Self)
        ensures
            r.clock == clock,
            r.alerts.alerts@ == self.alerts.alerts@,
            r.generation_rules == self.generation_rules,
            r.warning_enabled == self.warning_enabled,
            r.sse_enabled == self.sse_enabled,
            r.metrics == self.metrics,
            r.scanner_running == self.scanner_running,
    {
        let mut r = self;
        r.clock = clock;
        r
    }

    /// The service reading department lead times from `rules`.
    pub fn with_generation_rules(self, rules: Vec<GenerationRule>) -> (r: Self)
        ensures
            r.generation_rules == Some(rules),
            r.clock == self.clock,
            r.alerts.alerts@ == self.alerts.alerts@,
            r.warning_enabled == self.warning_enabled,
            r.sse_enabled == self.sse_enabled,
            r.metrics == self.metrics,
            r.scanner_running == self.scanner_running,
    {
        let mut r = self;
        r.generation_rules = Some(rules);
        r
    }

    /// The service with warnings and broadcasts switched as given.
    pub fn with_feature_flags(self, warning_enabled: bool, sse_enabled: bool) -> (r: Self)
        ensures
            r.warning_enabled == warning_enabled,
            r.sse_enabled == sse_enabled,
            r.clock == self.clock,
            r.alerts.alerts@ == self.alerts.alerts@,
            r.generation_rules == self.generation_rules,
            r.metrics == self.metrics,
            r.scanner_running == self.scanner_running,
    {
        let mut r = self;
        r.warning_enabled = warning_enabled;
        r.sse_enabled = sse_enabled;
        r
    }

    pub fn is_warning_enabled(&self) -> (r: bool)
        ensures
            r == self.warning_enabled,
    {
        self.warning_enabled
    }

    pub fn is_sse_enabled(&self) -> (r: bool)
        ensures
            r == self.sse_enabled,
    {
        self.sse_enabled
    }

    /// Counts one event that failed to trigger an evaluation.
    pub fn record_event_failure(&mut self)
        ensures
            final(self).metrics == (OverrunMetrics {
                event_failures: wrapped_add(old(self).metrics.event_failures, 1),
                ..old(self).metrics
            }),
            final(self).alerts.alerts@ == old(self).alerts.alerts@,
            final(self).clock == old(self).clock,
            final(self).warning_enabled == old(self).warning_enabled,
            final(self).scanner_running == old(self).scanner_running,
    {
        self.metrics.event_failures = bump(self.metrics.event_failures, true);
    }

    /// Records how long the last scan took.
    pub fn record_scan_duration(&mut self, elapsed_ms: u64)
        ensures
            final(self).metrics == (OverrunMetrics { scan_duration_ms: elapsed_ms, ..old(self).metrics }),
            final(self).alerts.alerts@ == old(self).alerts.alerts@,
            final(self).clock == old(self).clock,
            final(self).warning_enabled == old(self).warning_enabled,
            final(self).scanner_running == old(self).scanner_running,
    {
        self.metrics.scan_duration_ms = elapsed_ms;
    }

    /// Marks the scanner as running; true when it was not yet and warnings
    /// are on, so that the caller starts it.
    pub fn start_scanner(&mut self) -> (r: bool)
        ensures
            r == (old(self).warning_enabled && !old(self).scanner_running),
            final(self).scanner_running == (old(self).scanner_running || r),
            final(self).alerts.alerts@ == old(self).alerts.alerts@,
            final(self).metrics == old(self).metrics,
            final(self).warning_enabled == old(self).warning_enabled,
    {
        if !self.warning_enabled || self.scanner_running {
            return false;
        }
        self.scanner_running = true;
        true
    }

    /// Marks the scanner as stopped; its loop ends at its next tick.
    pub fn stop_scanner(&mut self)
        ensures
            !final(self).scanner_running,
            final(self).alerts.alerts@ == old(self).alerts.alerts@,
            final(self).metrics == old(self).metrics,
            final(self).warning_enabled == old(self).warning_enabled,
    {
        self.scanner_running = false;
    }

    /// Whether a scanner tick should scan: the scanner runs and warnings are on.
    pub fn scanner_should_scan(&self) -> (r: bool)
        ensures
            r == (self.scanner_running && self.warning_enabled),
    {
        self.scanner_running && self.warning_enabled
    }

    /// The open alerts, of `flight_id` when one is given; listed whether or
    /// not warnings are on.
    pub fn list_unresolved(&self, flight_id: Option<&str>) -> (r: Vec<OverrunAlert>)
        ensures
            alerts_same(
                r@,
                unresolved_of(
                    self.alerts.alerts@,
                    match flight_id {
                        Some(f) => Some(f@),
                        None => None,
                    },
                ),
            ),
    {
        let ghost flight = match flight_id {
            Some(f) => Some(f@),
            None => None,
        };
        let s = &self.alerts.alerts;
        let mut r: Vec<OverrunAlert> = Vec::new();
        let mut i: usize = 0;
        while i < s.len()
            invariant
                i <= s@.len(),
                flight == match flight_id {
                    Some(f) => Some(f@),
                    None => None::<Seq<char>>,
                },
                alerts_same(r@, unresolved_of(s@.take(i as int), flight)),
            decreases s@.len() - i,
        {
            proof {
                assert(s@.take(i + 1).drop_last() =~= s@.take(i as int));
            }
            let a = &s[i];
            let keep = !a.is_resolved && match flight_id {
                Some(f) => match &a.flight_id {
                    Some(x) => text_eq(x.as_str(), f),
                    None => false,
                },
                None => true,
            };
            if keep {
                let c = copy_alert(a);
                let ghost before = r@;
                r.push(c);
                proof {
                    assert forall|k: int| 0 <= k < r@.len() implies alert_same(
                        &#[trigger] r@[k],
                        &unresolved_of(s@.take(i + 1), flight)[k],
                    ) by {
                        if k < before.len() {
                            assert(r@[k] == before[k]);
                        }
                    }
                }
            }
            i = i + 1;
        }
        assert(s@.take(s@.len() as int) =~= s@);
        r
    }

    /// The alerts of `outcomes` to broadcast: none while broadcasts are off.
    pub fn alerts_to_broadcast(&self, outcomes: &Vec<OverrunEvaluationOutcome>) -> (r: Vec<OverrunAlert>)
        ensures
            !self.sse_enabled ==> r@.len() == 0,
            self.sse_enabled ==> alerts_same(r@, broadcast_of(outcomes@)),
    {
        let mut r: Vec<OverrunAlert> = Vec::new();
        if !self.sse_enabled {
            return r;
        }
        let mut i: usize = 0;
        while i < outcomes.len()
            invariant
                i <= outcomes@.len(),
                alerts_same(r@, broadcast_of(outcomes@.take(i as int))),
            decreases outcomes@.len() - i,
        {
            proof {
                assert(outcomes@.take(i + 1).drop_last() =~= outcomes@.take(i as int));
            }
            let o = &outcomes[i];
            if o.notify || o.auto_resolved_alert_id.is_some() {
                match &o.alert {
                    Some(a) => {
                        let c = copy_alert(a);
                        let ghost before = r@;
                        r.push(c);
                        proof {
                            assert forall|k: int| 0 <= k < r@.len() implies alert_same(
                                &#[trigger] r@[k],
                                &broadcast_of(outcomes@.take(i + 1))[k],
                            ) by {
                                if k < before.len() {
                                    assert(r@[k] == before[k]);
                                }
                            }
                        }
                    },
                    None => {},
                }
            }
            i = i + 1;
        }
        assert(outcomes@.take(outcomes@.len() as int) =~= outcomes@);
        r
    }

    /// The dispatcher `by` acknowledges the open alert `id`, which stays
    /// open; the acknowledged alert comes back.
    pub fn acknowledge(&mut self, id: &str, by: &str) -> (r: Result<OverrunAlert, DispatchError>)
        requires
            store_wf(old(self).alerts.alerts@),
        ensures
            store_wf(final(self).alerts.alerts@),
            r is Ok <==> is_open_alert(old(self).alerts.alerts@, id@),
            r matches Err(e) ==> alert_not_found(e, id@) && final(self).alerts.alerts@ == old(self).alerts.alerts@,
            r matches Ok(a) ==> {
                let s0 = old(self).alerts.alerts@;
                let i = id_index(s0, id@);
                &&& !final(self).alerts.alerts@[i].is_resolved
                &&& final(self).alerts.alerts@[i].acknowledged_by matches Some(b) && b@ == by@
                &&& final(self).alerts.alerts@[i].acknowledged_at is Some
                &&& final(self).alerts.alerts@ == s0.update(
                    i,
                    OverrunAlert {
                        acknowledged_at: final(self).alerts.alerts@[i].acknowledged_at,
                        acknowledged_by: final(self).alerts.alerts@[i].acknowledged_by,
                        ..s0[i]
                    },
                )
                &&& alert_same(&a, &final(self).alerts.alerts@[i])
            },
            final(self).clock == old(self).clock,
            final(self).metrics == old(self).metrics,
            final(self).warning_enabled == old(self).warning_enabled,
            final(self).generation_rules == old(self).generation_rules,
    {
        let at = wall_clock_now();
        let ghost s0 = self.alerts.alerts@;
        let ok = self.alerts.acknowledge(id, String::from_str(by), at);
        proof {
            crate::overrun_alerts::lemma_id_pos_bounds(s0, id@, 0);
            if ok {
                let i = id_index(s0, id@);
                crate::overrun_alerts::lemma_id_pos_update(s0, id@, 0, i, self.alerts.alerts@[i]);
                assert(self.alerts.alerts@ == s0.update(i, self.alerts.alerts@[i]));
            }
        }
        if !ok {
            return Err(alert_not_found_error(id));
        }
        match self.alerts.find_id(id) {
            Some(i) => Ok(copy_alert(&self.alerts.alerts[i])),
            None => Err(alert_not_found_error(id)),
        }
    }

    /// `by` closes the open alert `id` with `notes`; the closed alert comes back.
    pub fn resolve(&mut self, id: &str, by: &str, notes: Option<&str>) -> (r: Result<OverrunAlert, DispatchError>)
        requires
            store_wf(old(self).alerts.alerts@),
        ensures
            store_wf(final(self).alerts.alerts@),
            r is Ok <==> is_open_alert(old(self).alerts.alerts@, id@),
            r matches Err(e) ==> alert_not_found(e, id@) && final(self).alerts.alerts@ == old(self).alerts.alerts@,
            r matches Ok(a) ==> {
                let s0 = old(self).alerts.alerts@;
                let i = id_index(s0, id@);
                let c = final(self).alerts.alerts@[i];
                &&& c.is_resolved
                &&& c.resolved_at is Some
                &&& c.resolved_by matches Some(b) && b@ == by@
                &&& match notes {
                    Some(n) => c.resolution_notes matches Some(x) && x@ == n@,
                    None => c.resolution_notes is None,
                }
                &&& final(self).alerts.alerts@ == s0.update(
                    i,
                    OverrunAlert {
                        is_resolved: true,
                        resolved_at: c.resolved_at,
                        resolved_by: c.resolved_by,
                        resolution_notes: c.resolution_notes,
                        ..s0[i]
                    },
                )
                &&& alert_same(&a, &c)
            },
            final(self).clock == old(self).clock,
            final(self).metrics == old(self).metrics,
            final(self).warning_enabled == old(self).warning_enabled,
            final(self).generation_rules == old(self).generation_rules,
    {
        let at = wall_clock_now();
        let note = match notes {
            Some(n) => Some(String::from_str(n)),
            None => None,
        };
        let ghost s0 = self.alerts.alerts@;
        let ok = self.alerts.close_alert(id, at, Some(String::from_str(by)), note);
        proof {
            crate::overrun_alerts::lemma_id_pos_bounds(s0, id@, 0);
            if ok {
                let i = id_index(s0, id@);
                crate::overrun_alerts::lemma_id_pos_update(s0, id@, 0, i, self.alerts.alerts@[i]);
                assert(self.alerts.alerts@ == s0.update(i, self.alerts.alerts@[i]));
            }
        }
        if !ok {
            return Err(alert_not_found_error(id));
        }
        match self.alerts.find_id(id) {
            Some(i) => Ok(copy_alert(&self.alerts.alerts[i])),
            None => Err(alert_not_found_error(id)),
        }
    }
}

} // verus!

verus! {

proof fn lemma_key_index_at(s: Seq<OverrunAlert>, key: Seq<char>, i: int)
    requires
        0 <= i < s.len(),
        s[i].dedupe_key@ == key,
        forall|p: int, q: int| 0 <= p < q < s.len() ==> (#[trigger] s[p]).dedupe_key@ != (#[trigger] s[q]).dedupe_key@,
    ensures
        has_key(s, key),
        key_index(s, key) == i,
{
    assert(has_key(s, key));
    let j = key_index(s, key);
    if j < i {
        assert(s[j].dedupe_key@ != s[i].dedupe_key@);
    } else if j > i {
        assert(s[i].dedupe_key@ != s[j].dedupe_key@);
    }
}

proof fn lemma_update_keeps_keys(s: Seq<OverrunAlert>, i: int, a: OverrunAlert)
    requires
        store_wf(s),
        0 <= i < s.len(),
        a.dedupe_key == s[i].dedupe_key,
    ensures
        forall|p: int, q: int|
            0 <= p < q < s.len() ==> (#[trigger] s.update(i, a)[p]).dedupe_key@ != (#[trigger] s.update(i, a)[q]).dedupe_key@,
{
    let t = s.update(i, a);
    assert forall|p: int, q: int| 0 <= p < q < s.len() implies (#[trigger] t[p]).dedupe_key@ != (#[trigger] t[q]).dedupe_key@ by {
        assert(s[p].dedupe_key@ != s[q].dedupe_key@);
    }
}

/// Where the alert of a conflict stands after the conflict was written.
proof fn lemma_written_alert(s0: Seq<OverrunAlert>, a: OverrunAlert, key: Seq<char>)
    requires
        store_wf(s0),
        a.dedupe_key@ == key,
        !a.is_resolved,
    ensures
        has_key(upsert_alerts(s0, a), key),
        !upsert_alerts(s0, a)[key_index(upsert_alerts(s0, a), key)].is_resolved,
        has_key(s0, key) ==> key_index(upsert_alerts(s0, a), key) == key_index(s0, key),
        !has_key(s0, key) ==> key_index(upsert_alerts(s0, a), key) == s0.len(),
        forall|p: int, q: int|
            0 <= p < q < upsert_alerts(s0, a).len() ==> (#[trigger] upsert_alerts(s0, a)[p]).dedupe_key@
                != (#[trigger] upsert_alerts(s0, a)[q]).dedupe_key@,
{
    let s1 = upsert_alerts(s0, a);
    if has_key(s0, key) {
        let i = key_index(s0, key);
        let n = s1[i];
        assert(n.dedupe_key == s0[i].dedupe_key);
        lemma_update_keeps_keys(s0, i, n);
        assert(s1 == s0.update(i, n));
        lemma_key_index_at(s1, key, i);
    } else {
        assert forall|p: int, q: int| 0 <= p < q < s1.len() implies (#[trigger] s1[p]).dedupe_key@
            != (#[trigger] s1[q]).dedupe_key@ by {
            if q == s0.len() {
                assert(s1[p] == s0[p]);
                assert(!(0 <= p < s0.len() && s0[p].dedupe_key@ == key));
            } else {
                assert(s0[p].dedupe_key@ != s0[q].dedupe_key@);
            }
        }
        lemma_key_index_at(s1, key, s0.len() as int);
    }
}

/// A conflict that persists is written under one alert and notified once:
/// evaluating the same pair again, while the conflict still applies, does
/// not notify, keeps the number of alerts, and keeps the alert's identifier
/// and occurrence count.
pub proof fn law_persisting_conflict_notifies_once(
    s0: Seq<OverrunAlert>,
    s1: Seq<OverrunAlert>,
    s2: Seq<OverrunAlert>,
    rules: Option<Vec<GenerationRule>>,
    clock: i64,
    current: DispatchOrder,
    next: DispatchOrder,
    o1: OverrunEvaluationOutcome,
    o2: OverrunEvaluationOutcome,
)
    requires
        store_wf(s0),
        overrun_applies(&current, &next, lead_of(rules, &next).0 as int, clock as int),
        pair_evaluated(s0, s1, rules, clock, current, next, Ok(o1)),
        pair_evaluated(s1, s2, rules, clock, current, next, Ok(o2)),
    ensures
        !o2.notify,
        s2.len() == s1.len(),
        o2.alert->0.id == o1.alert->0.id,
        o2.alert->0.occurrence_count == o1.alert->0.occurrence_count,
        !o2.alert->0.is_resolved,
{
    let key = overrun_dedupe_key(current.id@, next.id@);
    let a1 = choose|a: OverrunAlert|
        #![trigger upsert_alerts(s0, a)]
        s1 == upsert_alerts(s0, a) && alert_built_from(&a, &o1.candidate->0, key, a.created_at->0);
    lemma_written_alert(s0, a1, key);
    let i = key_index(s1, key);
    let a2 = choose|a: OverrunAlert|
        #![trigger upsert_alerts(s1, a)]
        s2 == upsert_alerts(s1, a) && alert_built_from(&a, &o2.candidate->0, key, a.created_at->0);
    assert(has_key(s1, key) && !s1[i].is_resolved);
    assert(s2 == s1.update(i, refreshed(s1[i], a2)));
    assert(s2[i].dedupe_key == s1[i].dedupe_key);
    assert forall|p: int, q: int| 0 <= p < q < s2.len() implies (#[trigger] s2[p]).dedupe_key@
        != (#[trigger] s2[q]).dedupe_key@ by {
        assert(s1[p].dedupe_key@ != s1[q].dedupe_key@);
    }
    lemma_key_index_at(s2, key, i);
}

/// A conflict that comes back after its alert was closed reopens that
/// alert: a notification is due again, the identifier stays, the
/// occurrence count grows by one, and the acknowledgement is cleared.
pub proof fn law_returning_conflict_reopens_alert(
    s0: Seq<OverrunAlert>,
    s1: Seq<OverrunAlert>,
    rules: Option<Vec<GenerationRule>>,
    clock: i64,
    current: DispatchOrder,
    next: DispatchOrder,
    o: OverrunEvaluationOutcome,
)
    requires
        store_wf(s0),
        overrun_applies(&current, &next, lead_of(rules, &next).0 as int, clock as int),
        has_key(s0, overrun_dedupe_key(current.id@, next.id@)),
        s0[key_index(s0, overrun_dedupe_key(current.id@, next.id@))].is_resolved,
        pair_evaluated(s0, s1, rules, clock, current, next, Ok(o)),
    ensures
        o.notify,
        ({
            let prev = s0[key_index(s0, overrun_dedupe_key(current.id@, next.id@))];
            &&& o.alert->0.id == prev.id
            &&& o.alert->0.occurrence_count == prev.occurrence_count + 1
            &&& !o.alert->0.is_resolved
            &&& o.alert->0.acknowledged_at is None
            &&& o.alert->0.acknowledged_by is None
            &&& o.alert->0.resolved_at is None
        }),
{
    let key = overrun_dedupe_key(current.id@, next.id@);
    let a = choose|a: OverrunAlert|
        #![trigger upsert_alerts(s0, a)]
        s1 == upsert_alerts(s0, a) && alert_built_from(&a, &o.candidate->0, key, a.created_at->0);
    lemma_written_alert(s0, a, key);
}

/// A conflict that is gone closes its open alert: the identifier of the
/// closed alert comes back, and no open alert of the flight stays under
/// the pair's key.
pub proof fn law_vanished_conflict_closes_alert(
    s0: Seq<OverrunAlert>,
    s1: Seq<OverrunAlert>,
    rules: Option<Vec<GenerationRule>>,
    clock: i64,
    current: DispatchOrder,
    next: DispatchOrder,
    r: Result<OverrunEvaluationOutcome, DispatchError>,
)
    requires
        store_wf(s0),
        !overrun_applies(&current, &next, lead_of(rules, &next).0 as int, clock as int),
        has_active_alert(s0, next.flight_id@, overrun_dedupe_key(current.id@, next.id@)),
        pair_evaluated(s0, s1, rules, clock, current, next, r),
    ensures
        r is Ok,
        r->Ok_0.auto_resolved_alert_id == Some(s0[key_index(s0, overrun_dedupe_key(current.id@, next.id@))].id),
        !has_active_alert(s1, next.flight_id@, overrun_dedupe_key(current.id@, next.id@)),
{
    let key = overrun_dedupe_key(current.id@, next.id@);
    let i = key_index(s0, key);
    assert forall|p: int, q: int| 0 <= p < q < s1.len() implies (#[trigger] s1[p]).dedupe_key@
        != (#[trigger] s1[q]).dedupe_key@ by {
        if p != i && q != i {
            assert(s0[p].dedupe_key@ != s0[q].dedupe_key@);
        } else if p == i {
            assert(s1[q] == s0[q]);
            assert(s0[p].dedupe_key@ != s0[q].dedupe_key@);
        } else {
            assert(s1[p] == s0[p]);
            assert(s0[p].dedupe_key@ != s0[q].dedupe_key@);
        }
    }
    lemma_key_index_at(s1, key, i);
}

proof fn lemma_single_pair_chain(
    s0: Seq<OverrunAlert>,
    s1: Seq<OverrunAlert>,
    rules: Option<Vec<GenerationRule>>,
    clock: i64,
    sorted: Seq<DispatchOrder>,
    outs: Seq<OverrunEvaluationOutcome>,
)
    requires
        chain_evaluated(s0, s1, rules, clock, sorted, outs),
        sorted.len() == 2,
    ensures
        outs.len() == 1,
        pair_evaluated(s0, s1, rules, clock, sorted[0], sorted[1], Ok(outs[0])),
{
    let st = choose|st: Seq<Seq<OverrunAlert>>| #[trigger] chain_holds(st, s0, s1, rules, clock, sorted, outs);
    assert(chain_step(st, outs, sorted, rules, clock, 0));
}

/// For a flight of two orders (in planned-start order `sorted`), as
/// `evaluate_orders` evaluates it: evaluating the flight again while its
/// conflict persists gives one outcome that does not notify, keeps the
/// number of alerts, and keeps the alert's identifier and occurrence count.
pub proof fn law_flight_conflict_notifies_once(
    s0: Seq<OverrunAlert>,
    s1: Seq<OverrunAlert>,
    s2: Seq<OverrunAlert>,
    rules: Option<Vec<GenerationRule>>,
    clock: i64,
    sorted: Seq<DispatchOrder>,
    first: Seq<OverrunEvaluationOutcome>,
    second: Seq<OverrunEvaluationOutcome>,
)
    requires
        store_wf(s0),
        sorted.len() == 2,
        overrun_applies(&sorted[0], &sorted[1], lead_of(rules, &sorted[1]).0 as int, clock as int),
        chain_evaluated(s0, s1, rules, clock, sorted, first),
        chain_evaluated(s1, s2, rules, clock, sorted, second),
    ensures
        first.len() == 1,
        second.len() == 1,
        !second[0].notify,
        s2.len() == s1.len(),
        second[0].alert->0.id == first[0].alert->0.id,
        second[0].alert->0.occurrence_count == first[0].alert->0.occurrence_count,
        !second[0].alert->0.is_resolved,
{
    lemma_single_pair_chain(s0, s1, rules, clock, sorted, first);
    lemma_single_pair_chain(s1, s2, rules, clock, sorted, second);
    law_persisting_conflict_notifies_once(s0, s1, s2, rules, clock, sorted[0], sorted[1], first[0], second[0]);
}

/// For a flight of two orders whose conflict is gone, as `evaluate_orders`
/// evaluates it: the open alert of the pair is closed, its identifier comes
/// back, and no open alert of the flight stays under the pair's key.
pub proof fn law_flight_vanished_conflict_closes_alert(
    s0: Seq<OverrunAlert>,
    s1: Seq<OverrunAlert>,
    rules: Option<Vec<GenerationRule>>,
    clock: i64,
    sorted: Seq<DispatchOrder>,
    outs: Seq<OverrunEvaluationOutcome>,
)
    requires
        store_wf(s0),
        sorted.len() == 2,
        !overrun_applies(&sorted[0], &sorted[1], lead_of(rules, &sorted[1]).0 as int, clock as int),
        has_active_alert(s0, sorted[1].flight_id@, overrun_dedupe_key(sorted[0].id@, sorted[1].id@)),
        chain_evaluated(s0, s1, rules, clock, sorted, outs),
    ensures
        outs.len() == 1,
        outs[0].auto_resolved_alert_id == Some(s0[key_index(s0, overrun_dedupe_key(sorted[0].id@, sorted[1].id@))].id),
        !has_active_alert(s1, sorted[1].flight_id@, overrun_dedupe_key(sorted[0].id@, sorted[1].id@)),
{
    lemma_single_pair_chain(s0, s1, rules, clock, sorted, outs);
    law_vanished_conflict_closes_alert(s0, s1, rules, clock, sorted[0], sorted[1], Ok(outs[0]));
}

/// For a flight of two orders whose conflict comes back after its alert
/// was closed, as `evaluate_orders` evaluates it: the alert is reopened
/// with a notification, the same identifier, one more occurrence, and its
/// acknowledgement cleared.
pub proof fn law_flight_returning_conflict_reopens_alert(
    s0: Seq<OverrunAlert>,
    s1: Seq<OverrunAlert>,
    rules: Option<Vec<GenerationRule>>,
    clock: i64,
    sorted: Seq<DispatchOrder>,
    outs: Seq<OverrunEvaluationOutcome>,
)
    requires
        store_wf(s0),
        sorted.len() == 2,
        overrun_applies(&sorted[0], &sorted[1], lead_of(rules, &sorted[1]).0 as int, clock as int),
        has_key(s0, overrun_dedupe_key(sorted[0].id@, sorted[1].id@)),
        s0[key_index(s0, overrun_dedupe_key(sorted[0].id@, sorted[1].id@))].is_resolved,
        chain_evaluated(s0, s1, rules, clock, sorted, outs),
    ensures
        outs.len() == 1,
        outs[0].notify,
        ({
            let prev = s0[key_index(s0, overrun_dedupe_key(sorted[0].id@, sorted[1].id@))];
            &&& outs[0].alert->0.id == prev.id
            &&& outs[0].alert->0.occurrence_count == prev.occurrence_count + 1
            &&& !outs[0].alert->0.is_resolved
            &&& outs[0].alert->0.acknowledged_at is None
            &&& outs[0].alert->0.acknowledged_by is None
        }),
{
    lemma_single_pair_chain(s0, s1, rules, clock, sorted, outs);
    law_returning_conflict_reopens_alert(s0, s1, rules, clock, sorted[0], sorted[1], outs[0]);
}

proof fn lemma_one_flight(s: Seq<DispatchOrder>, f: Seq<char>)
    requires
        forall|i: int| 0 <= i < s.len() ==> (#[trigger] s[i]).flight_id@ == f,
    ensures
        orders_of_flight(s, f) == s,
    decreases s.len(),
{
    if s.len() > 0 {
        assert forall|i: int| 0 <= i < s.drop_last().len() implies (#[trigger] s.drop_last()[i]).flight_id@ == f by {
            assert(s.drop_last()[i] == s[i]);
        }
        lemma_one_flight(s.drop_last(), f);
        assert(s.drop_last().push(s.last()) =~= s);
    }
}

/// A scan over the orders of one flight with two orders, whose conflict is
/// gone, closes the pair's open alert: the scan counts one pair, one alert
/// closed automatically and no open alert, and no open alert of the flight
/// stays under the pair's key. (`batch` is the scan's selection of orders,
/// `scan_batch`, and `sorted` those orders in planned-start order.)
pub proof fn law_scan_closes_vanished_conflict(
    s0: Seq<OverrunAlert>,
    s1: Seq<OverrunAlert>,
    m0: OverrunMetrics,
    m1: OverrunMetrics,
    rules: Option<Vec<GenerationRule>>,
    clock: i64,
    batch: Seq<DispatchOrder>,
    f: Seq<char>,
    sum: ScanSummary,
)
    requires
        store_wf(s0),
        batch.len() == 2,
        forall|i: int| 0 <= i < batch.len() ==> (#[trigger] batch[i]).flight_id@ == f,
        !overrun_applies(
            &sort_by_start(batch)[0],
            &sort_by_start(batch)[1],
            lead_of(rules, &sort_by_start(batch)[1]).0 as int,
            clock as int,
        ),
        has_active_alert(
            s0,
            sort_by_start(batch)[1].flight_id@,
            overrun_dedupe_key(sort_by_start(batch)[0].id@, sort_by_start(batch)[1].id@),
        ),
        scan_evaluated(s0, s1, m0, m1, rules, clock, batch, Ok(sum)),
    ensures
        sum.evaluated_pairs == 1,
        sum.auto_resolved == 1,
        sum.active_alerts == 0,
        sum.notifications == 0,
        !has_active_alert(
            s1,
            sort_by_start(batch)[1].flight_id@,
            overrun_dedupe_key(sort_by_start(batch)[0].id@, sort_by_start(batch)[1].id@),
        ),
{
    let (keys, groups, st, outs) = choose|
        keys: Seq<String>,
        groups: Seq<Seq<DispatchOrder>>,
        st: Seq<Seq<OverrunAlert>>,
        outs: Seq<Seq<OverrunEvaluationOutcome>>,
    |
        #[trigger] scan_run(keys, groups, st, outs, s0, rules, clock, batch) && metrics_recorded(
            m0,
            m1,
            concat_outcomes(outs),
        ) && outs.len() == groups.len() && st.last() == s1 && summary_counts(sum, concat_outcomes(outs));
    lemma_one_flight(batch, f);
    assert(has_id(keys, f)) by {
        assert(batch[0].flight_id@ == f);
    }
    let p = choose|i: int| 0 <= i < keys.len() && #[trigger] keys[i]@ == f;
    assert(keys.len() == 1) by {
        if keys.len() > 1 {
            let q = if p == 0 { 1int } else { 0int };
            assert(has_id(keys, keys[q]@));
            assert(keys[q]@ == f);
            if p < q {
                assert(seq_lt(keys[p]@, keys[q]@));
            } else {
                assert(seq_lt(keys[q]@, keys[p]@));
            }
            crate::idset::lemma_lt_irreflexive(f);
        }
    }
    assert(groups.len() == 1);
    assert(outs.len() == 1);
    assert(groups[0] == orders_of_flight(batch, keys[0]@));
    assert(keys[0]@ == f);
    assert(groups[0] == batch);
    assert(chain_evaluated(st[0], st[0int + 1], rules, clock, sort_by_start(groups[0]), outs[0]));
    assert(st[0] == s0);
    assert(st[1] == s1);
    lemma_sort_len(batch);
    lemma_single_pair_chain(s0, s1, rules, clock, sort_by_start(batch), outs[0]);
    law_vanished_conflict_closes_alert(s0, s1, rules, clock, sort_by_start(batch)[0], sort_by_start(batch)[1], Ok(outs[0][0]));
    let v = concat_outcomes(outs);
    assert(outs.drop_last().len() == 0);
    assert(concat_outcomes(outs.drop_last()) =~= Seq::<OverrunEvaluationOutcome>::empty());
    assert(v =~= outs[0]);
    let o = v[0];
    assert(v.drop_last() =~= Seq::<OverrunEvaluationOutcome>::empty());
    assert(v.last() == o);
    assert(o.alert is Some && o.alert->0.is_resolved) by {
        let key = overrun_dedupe_key(sort_by_start(batch)[0].id@, sort_by_start(batch)[1].id@);
        assert(has_active_alert(s0, sort_by_start(batch)[1].flight_id@, key));
    }
    reveal_with_fuel(count_kind, 2);
    assert(v.len() == 1);
    assert(count_kind(v, OutcomeKind::AutoResolution) == 1);
    assert(count_kind(v, OutcomeKind::Notification) == 0);
    assert(count_kind(v, OutcomeKind::OpenAlert) == 0);
}

} // verus!
