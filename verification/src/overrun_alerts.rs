//! The table of overrun alerts: one alert per "current → next" pair, written
//! idempotently, reopened when a closed conflict returns, closed
//! automatically when the conflict is gone.

use vstd::prelude::*;
use crate::model::{AlertSeverity, LeadSource};
use crate::overrun::OverrunCandidate;
use crate::text::{copy_list, copy_opt, decimal, append_decimal, text_eq};

verus! {

/// The alert kind of overrun warnings.
pub open spec fn overrun_alert_type() -> Seq<char> {
    "dispatch_schedule_overrun"@
}

/// The notes written when an alert is closed automatically.
pub open spec fn auto_notes() -> Seq<char> {
    "auto"@
}

/// The key that identifies the alert of the pair `current → next`.
pub open spec fn overrun_dedupe_key(current: Seq<char>, next: Seq<char>) -> Seq<char> {
    "dispatch_overrun:"@ + current + "->"@ + next
}

/// The text an alert's severity is stored and sent as.
pub open spec fn severity_text(s: AlertSeverity) -> Seq<char> {
    match s {
        AlertSeverity::Info => "info"@,
        AlertSeverity::Warning => "warning"@,
        AlertSeverity::Critical => "critical"@,
    }
}

/// The text an alert's severity is stored and sent as.
pub fn alert_severity_value(s: AlertSeverity) -> (r: &'static str)
    ensures
        r@ == severity_text(s),
{
    proof {
        reveal_strlit("info");
        reveal_strlit("warning");
        reveal_strlit("critical");
    }
    match s {
        AlertSeverity::Info => "info",
        AlertSeverity::Warning => "warning",
        AlertSeverity::Critical => "critical",
    }
}

/// The text a lead source is sent as in an alert's details, in lower case.
pub open spec fn lead_source_text(s: LeadSource) -> Seq<char> {
    match s {
        LeadSource::Order => "order"@,
        LeadSource::Department => "department"@,
        LeadSource::System => "system"@,
    }
}

/// The text a lead source is sent as in an alert's details, in lower case.
pub fn lead_source_value(s: LeadSource) -> (r: &'static str)
    ensures
        r@ == lead_source_text(s),
{
    proof {
        reveal_strlit("order");
        reveal_strlit("department");
        reveal_strlit("system");
    }
    match s {
        LeadSource::Order => "order",
        LeadSource::Department => "department",
        LeadSource::System => "system",
    }
}

/// The key that identifies the alert of the pair `current → next`.
pub fn dispatch_overrun_dedupe_key(current: &str, next: &str) -> (r: String)
    ensures
        r@ == overrun_dedupe_key(current@, next@),
{
    let mut r = String::from_str("dispatch_overrun:");
    r.append(current);
    r.append("->");
    r.append(next);
    r
}

/// The message of an overrun alert.
pub open spec fn overrun_message(c: &OverrunCandidate) -> Seq<char> {
    if !c.eta_missing && c.predicted_conflict_minutes is Some {
        "工单 "@ + c.current_order_id@ + " 预计完成时间晚于下一单 "@ + c.next_order_id@
            + " 的计划开始时间,预计冲突 "@ + decimal(c.predicted_conflict_minutes->0 as int) + " 分钟"@
    } else {
        "工单 "@ + c.current_order_id@ + " 仍在执行且未回报预计完成时间,下一单 "@ + c.next_order_id@
            + " 可能无法按时开始"@
    }
}

/// The message of an overrun alert.
pub fn overrun_alert_message(c: &OverrunCandidate) -> (r: String)
    ensures
        r@ == overrun_message(c),
{
    let mut r = String::from_str("工单 ");
    r.append(c.current_order_id.as_str());
    if !c.eta_missing && c.predicted_conflict_minutes.is_some() {
        r.append(" 预计完成时间晚于下一单 ");
        r.append(c.next_order_id.as_str());
        r.append(" 的计划开始时间,预计冲突 ");
        match c.predicted_conflict_minutes {
            Some(m) => append_decimal(&mut r, m),
            None => {},
        }
        r.append(" 分钟");
    } else {
        r.append(" 仍在执行且未回报预计完成时间,下一单 ");
        r.append(c.next_order_id.as_str());
        r.append(" 可能无法按时开始");
    }
    r
}

/// Two candidates hold the same data.
pub open spec fn candidate_same(a: &OverrunCandidate, b: &OverrunCandidate) -> bool {
    &&& a.current_order_id == b.current_order_id
    &&& a.next_order_id == b.next_order_id
    &&& a.next_flight_id == b.next_flight_id
    &&& a.next_task_type == b.next_task_type
    &&& a.shared_personnel@ == b.shared_personnel@
    &&& a.countdown_minutes == b.countdown_minutes
    &&& a.lead_minutes == b.lead_minutes
    &&& a.lead_source == b.lead_source
    &&& a.eta_missing == b.eta_missing
    &&& a.predicted_conflict_minutes == b.predicted_conflict_minutes
}

/// A copy of a candidate.
pub fn copy_candidate(c: &OverrunCandidate) -> (r: OverrunCandidate)
    ensures
        candidate_same(&r, c),
{
    OverrunCandidate {
        current_order_id: c.current_order_id.clone(),
        next_order_id: c.next_order_id.clone(),
        next_flight_id: c.next_flight_id.clone(),
        next_task_type: c.next_task_type.clone(),
        shared_personnel: copy_list(&c.shared_personnel),
        countdown_minutes: c.countdown_minutes,
        lead_minutes: c.lead_minutes,
        lead_source: c.lead_source,
        eta_missing: c.eta_missing,
        predicted_conflict_minutes: c.predicted_conflict_minutes,
    }
}

/// An overrun alert as stored.
pub struct OverrunAlert {
    pub id: String,
    pub flight_id: Option<String>,
    pub task_type: Option<String>,
    pub alert_type: String,
    pub severity: AlertSeverity,
    pub message: String,
    pub is_resolved: bool,
    pub resolved_at: Option<i64>,
    pub resolved_by: Option<String>,
    pub resolution_notes: Option<String>,
    pub notify_users: Vec<String>,
    pub created_at: Option<i64>,
    pub dedupe_key: String,
    pub current_order_id: String,
    pub next_order_id: String,
    pub last_detected_at: Option<i64>,
    pub occurrence_count: i64,
    pub acknowledged_at: Option<i64>,
    pub acknowledged_by: Option<String>,
    pub details: OverrunCandidate,
}

/// Two alerts hold the same data.
pub open spec fn alert_same(a: &OverrunAlert, b: &OverrunAlert) -> bool {
    &&& a.id == b.id
    &&& a.flight_id == b.flight_id
    &&& a.task_type == b.task_type
    &&& a.alert_type == b.alert_type
    &&& a.severity == b.severity
    &&& a.message == b.message
    &&& a.is_resolved == b.is_resolved
    &&& a.resolved_at == b.resolved_at
    &&& a.resolved_by == b.resolved_by
    &&& a.resolution_notes == b.resolution_notes
    &&& a.notify_users@ == b.notify_users@
    &&& a.created_at == b.created_at
    &&& a.dedupe_key == b.dedupe_key
    &&& a.current_order_id == b.current_order_id
    &&& a.next_order_id == b.next_order_id
    &&& a.last_detected_at == b.last_detected_at
    &&& a.occurrence_count == b.occurrence_count
    &&& a.acknowledged_at == b.acknowledged_at
    &&& a.acknowledged_by == b.acknowledged_by
    &&& candidate_same(&a.details, &b.details)
}

/// A copy of an alert.
pub fn copy_alert(a: &OverrunAlert) -> (r: OverrunAlert)
    ensures
        alert_same(&r, a),
{
    OverrunAlert {
        id: a.id.clone(),
        flight_id: copy_opt(&a.flight_id),
        task_type: copy_opt(&a.task_type),
        alert_type: a.alert_type.clone(),
        severity: a.severity,
        message: a.message.clone(),
        is_resolved: a.is_resolved,
        resolved_at: a.resolved_at,
        resolved_by: copy_opt(&a.resolved_by),
        resolution_notes: copy_opt(&a.resolution_notes),
        notify_users: copy_list(&a.notify_users),
        created_at: a.created_at,
        dedupe_key: a.dedupe_key.clone(),
        current_order_id: a.current_order_id.clone(),
        next_order_id: a.next_order_id.clone(),
        last_detected_at: a.last_detected_at,
        occurrence_count: a.occurrence_count,
        acknowledged_at: a.acknowledged_at,
        acknowledged_by: copy_opt(&a.acknowledged_by),
        details: copy_candidate(&a.details),
    }
}

/// The alert a candidate produces, to be written under `key`.
pub open spec fn alert_built_from(a: &OverrunAlert, c: &OverrunCandidate, key: Seq<char>, at: i64) -> bool {
    &&& a.flight_id == Some(c.next_flight_id)
    &&& a.task_type == Some(c.next_task_type)
    &&& a.alert_type@ == overrun_alert_type()
    &&& a.severity == AlertSeverity::Warning
    &&& a.message@ == overrun_message(c)
    &&& !a.is_resolved
    &&& a.resolved_at is None
    &&& a.resolved_by is None
    &&& a.resolution_notes is None
    &&& a.notify_users@ == c.shared_personnel@
    &&& a.created_at == Some(at)
    &&& a.dedupe_key@ == key
    &&& a.current_order_id == c.current_order_id
    &&& a.next_order_id == c.next_order_id
    &&& a.last_detected_at == Some(at)
    &&& a.occurrence_count == 1
    &&& a.acknowledged_at is None
    &&& a.acknowledged_by is None
    &&& candidate_same(&a.details, c)
}

/// Builds the alert of a candidate, with identifier `id`, detected at `at`.
pub fn build_overrun_alert(c: &OverrunCandidate, dedupe_key: &str, id: String, at: i64) -> (r: OverrunAlert)
    ensures
        alert_built_from(&r, c, dedupe_key@, at),
        r.id == id,
{
    OverrunAlert {
        id,
        flight_id: Some(c.next_flight_id.clone()),
        task_type: Some(c.next_task_type.clone()),
        alert_type: String::from_str("dispatch_schedule_overrun"),
        severity: AlertSeverity::Warning,
        message: overrun_alert_message(c),
        is_resolved: false,
        resolved_at: None,
        resolved_by: None,
        resolution_notes: None,
        notify_users: copy_list(&c.shared_personnel),
        created_at: Some(at),
        dedupe_key: String::from_str(dedupe_key),
        current_order_id: c.current_order_id.clone(),
        next_order_id: c.next_order_id.clone(),
        last_detected_at: Some(at),
        occurrence_count: 1,
        acknowledged_at: None,
        acknowledged_by: None,
        details: copy_candidate(c),
    }
}

} // verus!

verus! {

/// No two alerts share a key, and every alert has occurred at least once.
pub open spec fn store_wf(s: Seq<OverrunAlert>) -> bool {
    &&& forall|i: int, j: int|
        0 <= i < j < s.len() ==> (#[trigger] s[i]).dedupe_key@ != (#[trigger] s[j]).dedupe_key@
    &&& forall|i: int| 0 <= i < s.len() ==> (#[trigger] s[i]).occurrence_count >= 1
}

/// Whether an alert is stored under `key`.
pub open spec fn has_key(s: Seq<OverrunAlert>, key: Seq<char>) -> bool {
    exists|i: int| 0 <= i < s.len() && (#[trigger] s[i]).dedupe_key@ == key
}

/// The position of the alert stored under `key`.
pub open spec fn key_index(s: Seq<OverrunAlert>, key: Seq<char>) -> int {
    choose|i: int| 0 <= i < s.len() && (#[trigger] s[i]).dedupe_key@ == key
}

/// An existing alert refreshed by a new detection of its conflict.
pub open spec fn refreshed(cur: OverrunAlert, a: OverrunAlert) -> OverrunAlert {
    OverrunAlert { message: a.message, details: a.details, last_detected_at: a.last_detected_at, ..cur }
}

/// A closed alert opened again for one more occurrence.
pub open spec fn reopened(cur: OverrunAlert) -> OverrunAlert {
    OverrunAlert {
        is_resolved: false,
        resolved_at: None,
        resolved_by: None,
        resolution_notes: None,
        acknowledged_at: None,
        acknowledged_by: None,
        occurrence_count: (cur.occurrence_count + 1) as i64,
        ..cur
    }
}

/// Whether writing `a` would overflow the occurrence count of a closed alert.
pub open spec fn upsert_overflows(s: Seq<OverrunAlert>, a: OverrunAlert) -> bool {
    has_key(s, a.dedupe_key@) && s[key_index(s, a.dedupe_key@)].is_resolved
        && s[key_index(s, a.dedupe_key@)].occurrence_count == i64::MAX
}

/// The alerts after writing the detected alert `a`.
pub open spec fn upsert_alerts(s: Seq<OverrunAlert>, a: OverrunAlert) -> Seq<OverrunAlert> {
    if has_key(s, a.dedupe_key@) {
        let i = key_index(s, a.dedupe_key@);
        if s[i].is_resolved {
            s.update(i, reopened(refreshed(s[i], a)))
        } else {
            s.update(i, refreshed(s[i], a))
        }
    } else {
        s.push(a)
    }
}

/// Whether writing the detected alert `a` calls for a notification: the
/// alert is new, or it reopens a closed one.
pub open spec fn upsert_notifies(s: Seq<OverrunAlert>, a: OverrunAlert) -> bool {
    !has_key(s, a.dedupe_key@) || s[key_index(s, a.dedupe_key@)].is_resolved
}

/// The position of the first alert with identifier `id` at or after `from`, or -1.
pub open spec fn id_pos(s: Seq<OverrunAlert>, id: Seq<char>, from: int) -> int
    decreases s.len() - from,
{
    if from < 0 || from >= s.len() {
        -1
    } else if s[from].id@ == id {
        from
    } else {
        id_pos(s, id, from + 1)
    }
}

/// The position of the first alert with identifier `id`, or -1.
pub open spec fn id_index(s: Seq<OverrunAlert>, id: Seq<char>) -> int {
    id_pos(s, id, 0)
}

/// Whether the alert with identifier `id` exists and is still open.
pub open spec fn is_open_alert(s: Seq<OverrunAlert>, id: Seq<char>) -> bool {
    id_index(s, id) >= 0 && !s[id_index(s, id)].is_resolved
}

/// Result of writing a detected alert.
pub struct UpsertOutcome {
    pub alert: OverrunAlert,
    pub inserted: bool,
    pub reopened: bool,
}

/// The alert table.
pub struct OverrunAlertStore {
    pub alerts: Vec<OverrunAlert>,
}

/// The search for an identifier finds it or reports -1.
pub proof fn lemma_id_pos_bounds(s: Seq<OverrunAlert>, id: Seq<char>, from: int)
    ensures
        id_pos(s, id, from) == -1 || (from <= id_pos(s, id, from) < s.len() && s[id_pos(s, id, from)].id@ == id),
    decreases s.len() - from,
{
    if 0 <= from < s.len() && s[from].id@ != id {
        lemma_id_pos_bounds(s, id, from + 1);
    }
}

/// Replacing an alert by one with the same identifier moves no identifier.
pub proof fn lemma_id_pos_update(s: Seq<OverrunAlert>, id: Seq<char>, from: int, i: int, a: OverrunAlert)
    requires
        0 <= i < s.len(),
        a.id == s[i].id,
    ensures
        id_pos(s.update(i, a), id, from) == id_pos(s, id, from),
    decreases s.len() - from,
{
    if 0 <= from < s.len() && s[from].id@ != id {
        lemma_id_pos_update(s, id, from + 1, i, a);
    }
}

impl OverrunAlertStore {
    /// An empty table.
    pub fn new() -> (r: Self)
        ensures
            r.alerts@.len() == 0,
    {
        OverrunAlertStore { alerts: Vec::new() }
    }

    /// The position of the alert stored under `key`.
    pub fn find_key(&self, key: &str) -> (r: Option<usize>)
        requires
            store_wf(self.alerts@),
        ensures
            r is Some <==> has_key(self.alerts@, key@),
            r matches Some(i) ==> i == key_index(self.alerts@, key@),
    {
        let mut i: usize = 0;
        while i < self.alerts.len()
            invariant
                i <= self.alerts@.len(),
                store_wf(self.alerts@),
                forall|k: int| 0 <= k < i ==> (#[trigger] self.alerts@[k]).dedupe_key@ != key@,
            decreases self.alerts@.len() - i,
        {
            if text_eq(self.alerts[i].dedupe_key.as_str(), key) {
                proof {
                    assert(has_key(self.alerts@, key@));
                    let j = key_index(self.alerts@, key@);
                    assert(0 <= j < self.alerts@.len() && self.alerts@[j].dedupe_key@ == key@);
                    if j != i {
                        if j < i {
                            assert(self.alerts@[j].dedupe_key@ != key@);
                        } else {
                            let si = self.alerts@[i as int];
                            let sj = self.alerts@[j];
                            assert(si.dedupe_key@ != sj.dedupe_key@);
                        }
                    }
                }
                return Some(i);
            }
            i = i + 1;
        }
        None
    }

    /// The position of the first alert with identifier `id`.
    pub fn find_id(&self, id: &str) -> (r: Option<usize>)
        ensures
            r is Some <==> id_index(self.alerts@, id@) >= 0,
            r matches Some(i) ==> i == id_index(self.alerts@, id@),
            id_index(self.alerts@, id@) >= 0 ==> id_index(self.alerts@, id@) < self.alerts@.len()
                && self.alerts@[id_index(self.alerts@, id@)].id@ == id@,
    {
        let mut i: usize = 0;
        proof {
            lemma_id_pos_bounds(self.alerts@, id@, 0);
        }
        while i < self.alerts.len()
            invariant
                i <= self.alerts@.len(),
                id_pos(self.alerts@, id@, 0) == id_pos(self.alerts@, id@, i as int),
            decreases self.alerts@.len() - i,
        {
            if text_eq(self.alerts[i].id.as_str(), id) {
                return Some(i);
            }
            i = i + 1;
        }
        None
    }

    /// Writes a detected alert: a new key is inserted; an open alert under
    /// the key is refreshed; a closed one is refreshed and reopened with one
    /// more occurrence and its acknowledgement cleared.
    pub fn upsert_overrun(&mut self, alert: OverrunAlert) -> (r: Result<UpsertOutcome, crate::model::DispatchError>)
        requires
            store_wf(old(self).alerts@),
            alert.occurrence_count == 1,
        ensures
            store_wf(final(self).alerts@),
            r is Err <==> upsert_overflows(old(self).alerts@, alert),
            r is Err ==> final(self).alerts@ == old(self).alerts@,
            r matches Ok(o) ==> {
                &&& final(self).alerts@ == upsert_alerts(old(self).alerts@, alert)
                &&& o.inserted == !has_key(old(self).alerts@, alert.dedupe_key@)
                &&& o.reopened == (has_key(old(self).alerts@, alert.dedupe_key@)
                    && old(self).alerts@[key_index(old(self).alerts@, alert.dedupe_key@)].is_resolved)
                &&& alert_same(
                    &o.alert,
                    &final(self).alerts@[if o.inserted {
                        old(self).alerts@.len() as int
                    } else {
                        key_index(old(self).alerts@, alert.dedupe_key@)
                    }],
                )
            },
    {
        let ghost old_s = self.alerts@;
        match self.find_key(alert.dedupe_key.as_str()) {
            Some(i) => {
                let was_resolved = self.alerts[i].is_resolved;
                if was_resolved && self.alerts[i].occurrence_count == i64::MAX {
                    return Err(
                        crate::model::DispatchError::Internal(
                            String::from_str("overrun alert occurrence count overflow"),
                        ),
                    );
                }
                let mut cur = self.alerts.remove(i);
                cur.message = alert.message;
                cur.details = alert.details;
                cur.last_detected_at = alert.last_detected_at;
                if was_resolved {
                    cur.is_resolved = false;
                    cur.resolved_at = None;
                    cur.resolved_by = None;
                    cur.resolution_notes = None;
                    cur.acknowledged_at = None;
                    cur.acknowledged_by = None;
                    cur.occurrence_count = cur.occurrence_count + 1;
                }
                let ghost new_cur = cur;
                let out = copy_alert(&cur);
                self.alerts.insert(i, cur);
                proof {
                    let k = key_index(old_s, alert.dedupe_key@);
                    assert(k == i);
                    if was_resolved {
                        assert(new_cur == reopened(refreshed(old_s[k], alert)));
                    } else {
                        assert(new_cur == refreshed(old_s[k], alert));
                    }
                    assert(self.alerts@ =~= old_s.update(i as int, new_cur));
                    assert(self.alerts@ =~= upsert_alerts(old_s, alert));
                    let s = self.alerts@;
                    assert forall|p: int, q: int| 0 <= p < q < s.len() implies (#[trigger] s[p]).dedupe_key@
                        != (#[trigger] s[q]).dedupe_key@ by {
                        assert(old_s[p].dedupe_key@ != old_s[q].dedupe_key@);
                    }
                    assert forall|p: int| 0 <= p < s.len() implies (#[trigger] s[p]).occurrence_count >= 1 by {
                        assert(old_s[p].occurrence_count >= 1);
                    }
                }
                Ok(UpsertOutcome { alert: out, inserted: false, reopened: was_resolved })
            },
            None => {
                let out = copy_alert(&alert);
                self.alerts.push(alert);
                proof {
                    let s = self.alerts@;
                    assert(s =~= upsert_alerts(old_s, alert));
                    assert forall|p: int, q: int| 0 <= p < q < s.len() implies (#[trigger] s[p]).dedupe_key@
                        != (#[trigger] s[q]).dedupe_key@ by {
                        if q == old_s.len() {
                            assert(s[p] == old_s[p]);
                        } else {
                            assert(old_s[p].dedupe_key@ != old_s[q].dedupe_key@);
                        }
                    }
                    assert forall|p: int| 0 <= p < s.len() implies (#[trigger] s[p]).occurrence_count >= 1 by {
                        if p < old_s.len() {
                            assert(old_s[p].occurrence_count >= 1);
                        }
                    }
                }
                Ok(UpsertOutcome { alert: out, inserted: true, reopened: false })
            },
        }
    }

    /// Closes the alert at position `i` at `at`, by `by`, with `notes`.
    pub fn close_at(&mut self, i: usize, at: i64, by: Option<String>, notes: Option<String>)
        requires
            store_wf(old(self).alerts@),
            i < old(self).alerts@.len(),
        ensures
            store_wf(final(self).alerts@),
            final(self).alerts@ == old(self).alerts@.update(
                i as int,
                OverrunAlert {
                    is_resolved: true,
                    resolved_at: Some(at),
                    resolved_by: by,
                    resolution_notes: notes,
                    ..old(self).alerts@[i as int]
                },
            ),
    {
        let ghost old_s = self.alerts@;
        let mut cur = self.alerts.remove(i);
        cur.is_resolved = true;
        cur.resolved_at = Some(at);
        cur.resolved_by = by;
        cur.resolution_notes = notes;
        self.alerts.insert(i, cur);
        proof {
            let s = self.alerts@;
            assert(s =~= old_s.update(i as int, s[i as int]));
            assert forall|p: int, q: int| 0 <= p < q < s.len() implies (#[trigger] s[p]).dedupe_key@
                != (#[trigger] s[q]).dedupe_key@ by {
                assert(old_s[p].dedupe_key@ != old_s[q].dedupe_key@);
            }
            assert forall|p: int| 0 <= p < s.len() implies (#[trigger] s[p]).occurrence_count >= 1 by {
                assert(old_s[p].occurrence_count >= 1);
            }
        }
    }

    /// Closes the open alert `id` at `at` with `notes`; false when no open
    /// alert has that identifier.
    pub fn close_alert(&mut self, id: &str, at: i64, by: Option<String>, notes: Option<String>) -> (r: bool)
        requires
            store_wf(old(self).alerts@),
        ensures
            store_wf(final(self).alerts@),
            r == is_open_alert(old(self).alerts@, id@),
            r ==> final(self).alerts@ == old(self).alerts@.update(
                id_index(old(self).alerts@, id@),
                OverrunAlert {
                    is_resolved: true,
                    resolved_at: Some(at),
                    resolved_by: by,
                    resolution_notes: notes,
                    ..old(self).alerts@[id_index(old(self).alerts@, id@)]
                },
            ),
            !r ==> final(self).alerts@ == old(self).alerts@,
    {
        match self.find_id(id) {
            Some(i) => {
                if self.alerts[i].is_resolved {
                    return false;
                }
                self.close_at(i, at, by, notes);
                true
            },
            None => false,
        }
    }

    /// Records that `by` acknowledged the open alert `id` at `at`; the alert
    /// stays open. False when no open alert has that identifier.
    pub fn acknowledge(&mut self, id: &str, by: String, at: i64) -> (r: bool)
        requires
            store_wf(old(self).alerts@),
        ensures
            store_wf(final(self).alerts@),
            r == is_open_alert(old(self).alerts@, id@),
            r ==> final(self).alerts@ == old(self).alerts@.update(
                id_index(old(self).alerts@, id@),
                OverrunAlert {
                    acknowledged_at: Some(at),
                    acknowledged_by: Some(by),
                    ..old(self).alerts@[id_index(old(self).alerts@, id@)]
                },
            ),
            !r ==> final(self).alerts@ == old(self).alerts@,
    {
        let ghost old_s = self.alerts@;
        match self.find_id(id) {
            Some(i) => {
                if self.alerts[i].is_resolved {
                    return false;
                }
                let mut cur = self.alerts.remove(i);
                cur.acknowledged_at = Some(at);
                cur.acknowledged_by = Some(by);
                self.alerts.insert(i, cur);
                proof {
                    let s = self.alerts@;
                    assert(s =~= old_s.update(i as int, s[i as int]));
                    assert forall|p: int, q: int| 0 <= p < q < s.len() implies (#[trigger] s[p]).dedupe_key@
                        != (#[trigger] s[q]).dedupe_key@ by {
                        assert(old_s[p].dedupe_key@ != old_s[q].dedupe_key@);
                    }
                    assert forall|p: int| 0 <= p < s.len() implies (#[trigger] s[p]).occurrence_count >= 1 by {
                        assert(old_s[p].occurrence_count >= 1);
                    }
                }
                true
            },
            None => false,
        }
    }
}

} // verus!
