//! Flight-driven order generation: rule conditions, anchor instants,
//! planned completion and rule adjustments.

use vstd::prelude::*;
use crate::model::{is_instant, DispatchError, LegScope, RuleStatus, MAX_TIMESTAMP, MIN_TIMESTAMP};
use crate::text::{blank, folded_eq, is_blank, text_eq, trimmed, trimmed_folded_eq};

verus! {

/// When a generated order is published.
#[derive(Clone, Copy, Debug, PartialEq, Eq, Structural)]
pub enum PublishTriggerMode {
    Time,
    Event,
    Either,
    BothRequired,
}

/// Continuity requirement between the inbound and outbound legs.
#[derive(Clone, Copy, Debug, PartialEq, Eq, Structural)]
pub enum TurnaroundConstraintMode {
    SamePerson,
    SoftPreferSamePerson,
    HandoverRequired,
    Disabled,
}

/// What a rule condition expects of a context field.
pub enum ExpectedValue {
    Null,
    Bool(bool),
    Text(String),
    /// A list; `None` stands for an item that is not a string.
    List(Vec<Option<String>>),
    EmptyObject,
    /// Any other value, by its JSON rendering (numbers, non-empty objects).
    Other(String),
}

/// One `key => expected` condition of a rule.
pub struct RuleCondition {
    pub key: String,
    pub expected: ExpectedValue,
}

/// A department's rule for generating orders from a flight.
pub struct GenerationRule {
    pub id: String,
    pub department_id: String,
    pub task_type: String,
    pub leg_scope: LegScope,
    pub status: RuleStatus,
    pub version_no: i32,
    pub conditions: Vec<RuleCondition>,
    pub generation_anchor_type: String,
    pub start_offset_minutes: i32,
    pub completion_time_mode: String,
    pub duration_minutes: Option<i32>,
    pub completion_anchor_type: Option<String>,
    pub completion_offset_minutes: Option<i32>,
    pub completion_warning_lead_minutes: Option<i32>,
    pub publish_trigger_mode: PublishTriggerMode,
    pub publish_offset_minutes: Option<i32>,
}

} // verus!

verus! {

/// A value of a flight-leg context field, as the rules read it.
pub enum ContextValue {
    Null,
    Bool(bool),
    Text(String),
    /// Any other value, by its JSON rendering (numbers, arrays, objects).
    Other(String),
}

/// One field of a flight-leg context.
pub struct ContextEntry {
    pub key: String,
    pub value: ContextValue,
}

/// The fields of one flight leg (inbound or outbound) that rules read.
pub struct LegContext {
    pub entries: Vec<ContextEntry>,
}

/// The value stored under `key` (the first entry with that key).
pub open spec fn context_value(c: Seq<ContextEntry>, key: Seq<char>) -> Option<ContextValue>
    decreases c.len(),
{
    if c.len() == 0 {
        None
    } else if c[0].key@ == key {
        Some(c[0].value)
    } else {
        context_value(c.drop_first(), key)
    }
}

/// No two entries share a key.
pub open spec fn context_wf(c: Seq<ContextEntry>) -> bool {
    forall|i: int, j: int| 0 <= i < j < c.len() ==> (#[trigger] c[i]).key@ != (#[trigger] c[j]).key@
}

proof fn lemma_context_value_at(c: Seq<ContextEntry>, i: int)
    requires
        0 <= i < c.len(),
        forall|k: int| 0 <= k < i ==> (#[trigger] c[k]).key@ != c[i].key@,
    ensures
        context_value(c, c[i].key@) == Some(c[i].value),
    decreases i,
{
    if i > 0 {
        let t = c.drop_first();
        assert forall|k: int| 0 <= k < i - 1 implies (#[trigger] t[k]).key@ != t[i - 1].key@ by {
            assert(t[k] == c[k + 1]);
        }
        assert(c[0].key@ != c[i].key@);
        lemma_context_value_at(t, i - 1);
    }
}

proof fn lemma_context_value_absent(c: Seq<ContextEntry>, key: Seq<char>)
    requires
        forall|k: int| 0 <= k < c.len() ==> (#[trigger] c[k]).key@ != key,
    ensures
        context_value(c, key) is None,
    decreases c.len(),
{
    if c.len() > 0 {
        let t = c.drop_first();
        assert forall|k: int| 0 <= k < t.len() implies (#[trigger] t[k]).key@ != key by {
            assert(t[k] == c[k + 1]);
        }
        assert(c[0].key@ != key);
        lemma_context_value_absent(t, key);
    }
}

impl LegContext {
    /// An empty context.
    pub fn new() -> (r: Self)
        ensures
            r.entries@.len() == 0,
    {
        LegContext { entries: Vec::new() }
    }

    /// Sets `key` to `value`, replacing a value already there.
    pub fn insert(&mut self, key: String, value: ContextValue)
        requires
            context_wf(old(self).entries@),
        ensures
            context_wf(final(self).entries@),
            context_value(final(self).entries@, key@) == Some(value),
            forall|k: Seq<char>| k != key@ ==> context_value(final(self).entries@, k) == context_value(old(self).entries@, k),
    {
        let ghost old_c = self.entries@;
        let mut i: usize = 0;
        while i < self.entries.len()
            invariant
                i <= self.entries@.len(),
                self.entries@ == old_c,
                old_c == old(self).entries@,
                context_wf(old_c),
                forall|k: int| 0 <= k < i ==> (#[trigger] self.entries@[k]).key@ != key@,
            decreases self.entries@.len() - i,
        {
            if text_eq(self.entries[i].key.as_str(), key.as_str()) {
                let ghost kv = key@;
                self.entries.set(i, ContextEntry { key: key.clone(), value });
                proof {
                    let c = self.entries@;
                    assert(c =~= old_c.update(i as int, c[i as int]));
                    assert forall|p: int, q: int| 0 <= p < q < c.len() implies (#[trigger] c[p]).key@ != (#[trigger] c[q]).key@ by {
                        assert(old_c[p].key@ != old_c[q].key@);
                    }
                    lemma_context_value_at(c, i as int);
                    assert forall|k: Seq<char>| k != key@ implies context_value(c, k) == context_value(old_c, k) by {
                        lemma_context_same(old_c, c, k, i as int);
                    }
                }
                return;
            }
            i = i + 1;
        }
        let ghost kv = key@;
        self.entries.push(ContextEntry { key: key.clone(), value });
        proof {
            let c = self.entries@;
            assert forall|p: int, q: int| 0 <= p < q < c.len() implies (#[trigger] c[p]).key@ != (#[trigger] c[q]).key@ by {
                if q < old_c.len() {
                    assert(old_c[p].key@ != old_c[q].key@);
                } else {
                    assert(c[p] == old_c[p]);
                }
            }
            lemma_context_value_at(c, old_c.len() as int);
            assert(c =~= old_c.push(c[old_c.len() as int]));
            assert forall|k: Seq<char>| k != key@ implies context_value(c, k) == context_value(old_c, k) by {
                lemma_context_push(old_c, c[old_c.len() as int], k);
            }
        }
    }

    /// The value stored under `key`.
    pub fn get(&self, key: &str) -> (r: Option<&ContextValue>)
        ensures
            match r {
                Some(v) => context_value(self.entries@, key@) == Some(*v),
                None => context_value(self.entries@, key@) is None,
            },
    {
        let mut i: usize = 0;
        while i < self.entries.len()
            invariant
                i <= self.entries@.len(),
                forall|k: int| 0 <= k < i ==> (#[trigger] self.entries@[k]).key@ != key@,
            decreases self.entries@.len() - i,
        {
            if text_eq(self.entries[i].key.as_str(), key) {
                proof {
                    lemma_context_value_at(self.entries@, i as int);
                }
                return Some(&self.entries[i].value);
            }
            i = i + 1;
        }
        proof {
            lemma_context_value_absent(self.entries@, key@);
        }
        None
    }
}

proof fn lemma_context_same(a: Seq<ContextEntry>, b: Seq<ContextEntry>, k: Seq<char>, i: int)
    requires
        0 <= i < a.len(),
        b.len() == a.len(),
        forall|j: int| 0 <= j < a.len() && j != i ==> a[j] == b[j],
        a[i].key@ != k,
        b[i].key@ != k,
    ensures
        context_value(a, k) == context_value(b, k),
    decreases a.len(),
{
    if a.len() > 0 {
        if i == 0 {
            assert(a.drop_first() =~= b.drop_first());
        } else {
            assert(a[0] == b[0]);
            let ta = a.drop_first();
            let tb = b.drop_first();
            assert forall|j: int| 0 <= j < ta.len() && j != i - 1 implies ta[j] == tb[j] by {
                assert(ta[j] == a[j + 1] && tb[j] == b[j + 1]);
            }
            lemma_context_same(ta, tb, k, i - 1);
        }
    }
}

proof fn lemma_context_push(a: Seq<ContextEntry>, e: ContextEntry, k: Seq<char>)
    requires
        e.key@ != k,
    ensures
        context_value(a.push(e), k) == context_value(a, k),
    decreases a.len(),
{
    if a.len() > 0 {
        assert(a.push(e)[0] == a[0]);
        assert(a.push(e).drop_first() =~= a.drop_first().push(e));
        lemma_context_push(a.drop_first(), e, k);
    } else {
        assert(a.push(e)[0] == e);
        assert(a.push(e).drop_first() =~= Seq::<ContextEntry>::empty());
        assert(context_value(Seq::<ContextEntry>::empty(), k) is None);
    }
}

/// What `chrono::DateTime::parse_from_rfc3339` makes of `s`, as whole
/// seconds since the epoch (`timestamp()`), or `None` when it rejects `s`.
pub uninterp spec fn rfc3339_seconds(s: Seq<char>) -> Option<i64>;

/// What `to_rfc3339()` writes for the UTC instant `t` whole seconds after the epoch.
pub uninterp spec fn rfc3339_text(t: int) -> Seq<char>;

/// `chrono::DateTime::parse_from_rfc3339(s)`, then `timestamp()`: the
/// instant `s` writes, in whole seconds. Its result is named, not written
/// out; an accepted text always names a representable instant.
#[verifier::external_body]
pub(crate) fn parse_rfc3339_seconds(s: &str) -> (r: Option<i64>)
    ensures
        r == rfc3339_seconds(s@),
        r matches Some(t) ==> is_instant(t as int),
{
    chrono::DateTime::parse_from_rfc3339(s).ok().map(|d| d.timestamp())
}

/// `chrono::DateTime::from_timestamp(t, 0)` then `to_rfc3339()`: the RFC 3339
/// text of a representable instant. The text is named, not written out.
#[verifier::external_body]
pub(crate) fn instant_rfc3339(t: i64) -> (r: String)
    requires
        is_instant(t as int),
    ensures
        r@ == rfc3339_text(t as int),
{
    match chrono::DateTime::from_timestamp(t, 0) {
        Some(d) => d.to_rfc3339(),
        None => String::new(),
    }
}

/// The instant a context field holds: a text field that parses as RFC 3339.
pub open spec fn context_instant(c: Seq<ContextEntry>, field: Seq<char>) -> Option<i64> {
    match context_value(c, field) {
        Some(ContextValue::Text(s)) => rfc3339_seconds(s@),
        _ => None,
    }
}

/// The instant in the field `field` of the context.
pub fn resolve_context_datetime(context: &LegContext, field: &str) -> (r: Option<i64>)
    ensures
        r == context_instant(context.entries@, field@),
        r matches Some(t) ==> is_instant(t as int),
{
    match context.get(field) {
        Some(ContextValue::Text(s)) => parse_rfc3339_seconds(s.as_str()),
        _ => None,
    }
}

/// The first of `fields` whose instant the context holds.
pub open spec fn first_instant(c: Seq<ContextEntry>, fields: Seq<&str>) -> Option<i64>
    decreases fields.len(),
{
    if fields.len() == 0 {
        None
    } else {
        match context_instant(c, fields[0]@) {
            Some(t) => Some(t),
            None => first_instant(c, fields.drop_first()),
        }
    }
}

/// The fields an anchor type is read from, in order of preference; an
/// unknown anchor type reads none.
pub open spec fn anchor_fields(anchor_type: Seq<char>) -> Seq<&'static str> {
    if anchor_type == "actual_arrival"@ {
        seq!["actual_arrival", "estimated_arrival", "scheduled_arrival", "scheduled_time"]
    } else if anchor_type == "estimated_arrival"@ {
        seq!["estimated_arrival", "scheduled_arrival", "scheduled_time"]
    } else if anchor_type == "scheduled_arrival"@ {
        seq!["scheduled_arrival", "scheduled_time"]
    } else if anchor_type == "actual_departure"@ {
        seq!["actual_departure", "estimated_departure", "scheduled_departure", "scheduled_time"]
    } else if anchor_type == "estimated_departure"@ {
        seq!["estimated_departure", "scheduled_departure", "scheduled_time"]
    } else if anchor_type == "scheduled_departure"@ {
        seq!["scheduled_departure", "scheduled_time"]
    } else if anchor_type == "scheduled_time"@ {
        seq!["scheduled_time"]
    } else {
        seq![]
    }
}

/// The instant an anchor type resolves to in a context.
pub open spec fn anchor_instant(c: Seq<ContextEntry>, anchor_type: Seq<char>) -> Option<i64> {
    first_instant(c, anchor_fields(anchor_type))
}

fn first_instant_of(context: &LegContext, fields: &Vec<&str>) -> (r: Option<i64>)
    ensures
        r == first_instant(context.entries@, fields@),
        r matches Some(t) ==> is_instant(t as int),
{
    let mut i: usize = 0;
    assert(fields@.skip(0) =~= fields@);
    while i < fields.len()
        invariant
            i <= fields@.len(),
            first_instant(context.entries@, fields@) == first_instant(context.entries@, fields@.skip(i as int)),
        decreases fields@.len() - i,
    {
        proof {
            assert(fields@.skip(i as int).drop_first() =~= fields@.skip(i + 1));
            assert(fields@.skip(i as int)[0] == fields@[i as int]);
        }
        match resolve_context_datetime(context, fields[i]) {
            Some(t) => {
                return Some(t);
            },
            None => {},
        }
        i = i + 1;
    }
    None
}

/// The instant a rule's anchor type resolves to, falling back from actual
/// to estimated to scheduled times; an unknown anchor type resolves to nothing.
pub fn legacy_resolve_generation_anchor_time(context: &LegContext, anchor_type: &str) -> (r: Option<i64>)
    ensures
        r == anchor_instant(context.entries@, anchor_type@),
        r matches Some(t) ==> is_instant(t as int),
{
    let fields: Vec<&str> = if text_eq(anchor_type, "actual_arrival") {
        vec!["actual_arrival", "estimated_arrival", "scheduled_arrival", "scheduled_time"]
    } else if text_eq(anchor_type, "estimated_arrival") {
        vec!["estimated_arrival", "scheduled_arrival", "scheduled_time"]
    } else if text_eq(anchor_type, "scheduled_arrival") {
        vec!["scheduled_arrival", "scheduled_time"]
    } else if text_eq(anchor_type, "actual_departure") {
        vec!["actual_departure", "estimated_departure", "scheduled_departure", "scheduled_time"]
    } else if text_eq(anchor_type, "estimated_departure") {
        vec!["estimated_departure", "scheduled_departure", "scheduled_time"]
    } else if text_eq(anchor_type, "scheduled_departure") {
        vec!["scheduled_departure", "scheduled_time"]
    } else if text_eq(anchor_type, "scheduled_time") {
        vec!["scheduled_time"]
    } else {
        Vec::new()
    };
    assert(fields@ =~= anchor_fields(anchor_type@));
    first_instant_of(context, &fields)
}

/// `a` where it holds an instant, else `b`.
pub open spec fn instant_or(a: Option<i64>, b: Option<i64>) -> Option<i64> {
    match a {
        Some(_) => a,
        None => b,
    }
}

/// The seven anchor types are distinct texts.
proof fn lemma_anchor_names_distinct()
    ensures
        "actual_arrival"@.len() == 14,
        "estimated_arrival"@.len() == 17,
        "scheduled_arrival"@.len() == 17,
        "actual_departure"@.len() == 16,
        "estimated_departure"@.len() == 19,
        "scheduled_departure"@.len() == 19,
        "scheduled_time"@.len() == 14,
        "actual_arrival"@ != "scheduled_time"@,
        "estimated_arrival"@ != "scheduled_arrival"@,
        "estimated_departure"@ != "scheduled_departure"@,
{
    reveal_strlit("actual_arrival");
    reveal_strlit("estimated_arrival");
    reveal_strlit("scheduled_arrival");
    reveal_strlit("actual_departure");
    reveal_strlit("estimated_departure");
    reveal_strlit("scheduled_departure");
    reveal_strlit("scheduled_time");
    assert("actual_arrival"@[0] != "scheduled_time"@[0]);
    assert("estimated_arrival"@[0] != "scheduled_arrival"@[0]);
    assert("estimated_departure"@[0] != "scheduled_departure"@[0]);
}

/// An anchor type resolves to the instant held in the context field of the
/// same name, and where there is none, falls back from actual to estimated
/// to scheduled time of the same leg, then to the scheduled time; an unknown
/// anchor type resolves to nothing.
pub proof fn law_anchor_reads_its_own_field_first(c: Seq<ContextEntry>, anchor_type: Seq<char>)
    ensures
        anchor_type == "actual_arrival"@ ==> anchor_instant(c, anchor_type) == instant_or(
            context_instant(c, "actual_arrival"@),
            instant_or(
                context_instant(c, "estimated_arrival"@),
                instant_or(context_instant(c, "scheduled_arrival"@), context_instant(c, "scheduled_time"@)),
            ),
        ),
        anchor_type == "estimated_arrival"@ ==> anchor_instant(c, anchor_type) == instant_or(
            context_instant(c, "estimated_arrival"@),
            instant_or(context_instant(c, "scheduled_arrival"@), context_instant(c, "scheduled_time"@)),
        ),
        anchor_type == "scheduled_arrival"@ ==> anchor_instant(c, anchor_type) == instant_or(
            context_instant(c, "scheduled_arrival"@),
            context_instant(c, "scheduled_time"@),
        ),
        anchor_type == "actual_departure"@ ==> anchor_instant(c, anchor_type) == instant_or(
            context_instant(c, "actual_departure"@),
            instant_or(
                context_instant(c, "estimated_departure"@),
                instant_or(context_instant(c, "scheduled_departure"@), context_instant(c, "scheduled_time"@)),
            ),
        ),
        anchor_type == "estimated_departure"@ ==> anchor_instant(c, anchor_type) == instant_or(
            context_instant(c, "estimated_departure"@),
            instant_or(context_instant(c, "scheduled_departure"@), context_instant(c, "scheduled_time"@)),
        ),
        anchor_type == "scheduled_departure"@ ==> anchor_instant(c, anchor_type) == instant_or(
            context_instant(c, "scheduled_departure"@),
            context_instant(c, "scheduled_time"@),
        ),
        anchor_type == "scheduled_time"@ ==> anchor_instant(c, anchor_type) == context_instant(c, "scheduled_time"@),
        anchor_type != "actual_arrival"@ && anchor_type != "estimated_arrival"@ && anchor_type != "scheduled_arrival"@
            && anchor_type != "actual_departure"@ && anchor_type != "estimated_departure"@ && anchor_type
            != "scheduled_departure"@ && anchor_type != "scheduled_time"@ ==> anchor_instant(c, anchor_type) is None,
        (anchor_type == "actual_arrival"@ || anchor_type == "estimated_arrival"@ || anchor_type == "scheduled_arrival"@
            || anchor_type == "actual_departure"@ || anchor_type == "estimated_departure"@ || anchor_type
            == "scheduled_departure"@ || anchor_type == "scheduled_time"@) && context_instant(c, anchor_type) is Some
            ==> anchor_instant(c, anchor_type) == context_instant(c, anchor_type),
{
    lemma_anchor_names_distinct();
    reveal_with_fuel(first_instant, 5);
    let f = anchor_fields(anchor_type);
    if f.len() > 0 {
        assert(f.drop_first().len() + 1 == f.len());
    }
    if f.len() > 1 {
        assert(f.drop_first()[0] == f[1]);
        assert(f.drop_first().drop_first()[0] == f[2] || f.len() == 2);
    }
    if f.len() > 2 {
        assert(f.drop_first().drop_first()[0] == f[2]);
    }
    if f.len() > 3 {
        assert(f.drop_first().drop_first().drop_first()[0] == f[3]);
        assert(f.drop_first().drop_first().drop_first().drop_first().len() == 0);
    }
    if f.len() == 3 {
        assert(f.drop_first().drop_first().drop_first().len() == 0);
    }
    if f.len() == 2 {
        assert(f.drop_first().drop_first().len() == 0);
    }
    if f.len() == 1 {
        assert(f.drop_first().len() == 0);
    }
}

} // verus!

verus! {

/// The end of an order under a completion mode, before the end is checked
/// against the start; the error is the message of the broken rule.
pub open spec fn completion_end(
    mode: Seq<char>,
    anchor_type: Option<Seq<char>>,
    anchor: Option<i64>,
    offset: Option<i32>,
    start: int,
    duration: int,
) -> Result<(int, Option<i64>), Seq<char>> {
    if mode == "start_plus_duration"@ {
        Ok((start + duration * 60, None))
    } else if mode == "completion_anchor_offset"@ {
        match anchor_type {
            None => Err("完成锚点模式缺少 completion_anchor_type"@),
            Some(a) => match anchor {
                None => Err("无法解析完成锚点 "@ + a),
                Some(t) => match offset {
                    None => Err("完成锚点模式缺少 completion_offset_minutes"@),
                    Some(o) => Ok((t + o * 60, Some(t))),
                },
            },
        }
    } else {
        Err("未知预计完成时间模式: "@ + mode)
    }
}

/// Whether the end an order's completion mode computes is a representable instant.
pub open spec fn completion_in_range(
    mode: Seq<char>,
    anchor_type: Option<Seq<char>>,
    anchor: Option<i64>,
    offset: Option<i32>,
    start: int,
    duration: int,
) -> bool {
    match completion_end(mode, anchor_type, anchor, offset, start, duration) {
        Ok((end, _)) => is_instant(end),
        Err(_) => true,
    }
}

/// The planned end and completion anchor of an order that starts at
/// `start`, or the message of the rule it breaks; the end must come after
/// the start.
pub open spec fn planned_completion(
    mode: Seq<char>,
    anchor_type: Option<Seq<char>>,
    anchor: Option<i64>,
    offset: Option<i32>,
    start: int,
    duration: int,
) -> Result<(int, Option<i64>), Seq<char>> {
    match completion_end(mode, anchor_type, anchor, offset, start, duration) {
        Ok((end, a)) => if end <= start {
            Err("预计完成时间 "@ + rfc3339_text(end) + " 必须晚于预计开始时间 "@ + rfc3339_text(start))
        } else {
            Ok((end, a))
        },
        Err(m) => Err(m),
    }
}

/// `r` is what `planned_completion` describes, an error as a broken business rule.
pub open spec fn completion_answer(
    r: Result<(i64, Option<i64>), DispatchError>,
    expected: Result<(int, Option<i64>), Seq<char>>,
) -> bool {
    match expected {
        Ok((end, a)) => r matches Ok(x) && x.0 == end && x.1 == a,
        Err(m) => r matches Err(DispatchError::BusinessRuleViolation(msg)) && msg@ == m,
    }
}

/// A planned completion always ends after the start: a computed end that
/// does not is refused as a broken rule; the start-plus-duration mode ends
/// exactly the duration after the start with no anchor; an unknown mode is
/// refused by name. Holds of every answer `completion_answer` allows, so of
/// `planned_completion_from_anchor`, `resolve_planned_completion_time` and
/// `try_resolve_planned_completion_time` alike.
pub proof fn law_planned_completion_after_start(
    mode: Seq<char>,
    anchor_type: Option<Seq<char>>,
    anchor: Option<i64>,
    offset: Option<i32>,
    start: int,
    duration: int,
    r: Result<(i64, Option<i64>), DispatchError>,
)
    requires
        completion_answer(r, planned_completion(mode, anchor_type, anchor, offset, start, duration)),
    ensures
        r matches Ok(x) ==> x.0 > start,
        mode == "start_plus_duration"@ && r is Ok ==> r->Ok_0.0 == start + 60 * duration && r->Ok_0.1 is None,
        mode == "start_plus_duration"@ && duration <= 0 ==> r matches Err(DispatchError::BusinessRuleViolation(_)),
        mode != "start_plus_duration"@ && mode != "completion_anchor_offset"@ ==> (r matches Err(
            DispatchError::BusinessRuleViolation(m),
        ) && m@ == "未知预计完成时间模式: "@ + mode),
{
}

/// An optional text by its characters.
pub open spec fn opt_view(s: Option<&str>) -> Option<Seq<char>> {
    match s {
        Some(x) => Some(x@),
        None => None,
    }
}

fn violation(parts: &[&str]) -> (e: DispatchError)
    ensures
        e matches DispatchError::BusinessRuleViolation(m) && m@ == crate::text::concat_views(parts@),
{
    DispatchError::BusinessRuleViolation(crate::text::join_texts(parts))
}

/// The planned end and completion anchor of an order that starts at
/// `start`, given the completion anchor `anchor` already resolved (none
/// when it could not be).
pub fn planned_completion_from_anchor(
    mode: &str,
    anchor_type: Option<&str>,
    anchor: Option<i64>,
    offset: Option<i32>,
    start: i64,
    duration: i32,
) -> (r: Result<(i64, Option<i64>), DispatchError>)
    requires
        is_instant(start as int),
        completion_in_range(mode@, opt_view(anchor_type), anchor, offset, start as int, duration as int),
    ensures
        completion_answer(r, planned_completion(mode@, opt_view(anchor_type), anchor, offset, start as int, duration as int)),
{
    let (end, completion_anchor): (i64, Option<i64>) = if text_eq(mode, "start_plus_duration") {
        (start + (duration as i64) * 60, None)
    } else if text_eq(mode, "completion_anchor_offset") {
        let a = match anchor_type {
            Some(a) => a,
            None => {
                return Err(DispatchError::BusinessRuleViolation(String::from_str("完成锚点模式缺少 completion_anchor_type")));
            },
        };
        let t = match anchor {
            Some(t) => t,
            None => {
                let e = violation(&["无法解析完成锚点 ", a]);
                assert(crate::text::concat_views(seq!["无法解析完成锚点 ", a]) =~= "无法解析完成锚点 "@ + a@) by {
                    reveal_with_fuel(crate::text::concat_views, 3);
                }
                return Err(e);
            },
        };
        let o = match offset {
            Some(o) => o,
            None => {
                return Err(DispatchError::BusinessRuleViolation(String::from_str("完成锚点模式缺少 completion_offset_minutes")));
            },
        };
        (t + (o as i64) * 60, Some(t))
    } else {
        let e = violation(&["未知预计完成时间模式: ", mode]);
        assert(crate::text::concat_views(seq!["未知预计完成时间模式: ", mode]) =~= "未知预计完成时间模式: "@ + mode@) by {
            reveal_with_fuel(crate::text::concat_views, 3);
        }
        return Err(e);
    };
    if end <= start {
        let end_text = instant_rfc3339(end);
        let start_text = instant_rfc3339(start);
        let et = end_text.as_str();
        let st = start_text.as_str();
        let e = violation(&["预计完成时间 ", et, " 必须晚于预计开始时间 ", st]);
        assert(crate::text::concat_views(seq!["预计完成时间 ", et, " 必须晚于预计开始时间 ", st])
            =~= "预计完成时间 "@ + rfc3339_text(end as int) + " 必须晚于预计开始时间 "@ + rfc3339_text(start as int)) by {
            reveal_with_fuel(crate::text::concat_views, 5);
        }
        return Err(e);
    }
    Ok((end, completion_anchor))
}

/// The completion anchor an order's rule reads from the context: only the
/// completion-anchor mode with an anchor type reads one.
pub open spec fn completion_anchor_of(c: Seq<ContextEntry>, mode: Seq<char>, anchor_type: Option<Seq<char>>) -> Option<i64> {
    if mode == "completion_anchor_offset"@ {
        match anchor_type {
            Some(a) => anchor_instant(c, a),
            None => None,
        }
    } else {
        None
    }
}

fn resolve_completion_anchor(context: &LegContext, mode: &str, anchor_type: Option<&str>) -> (r: Option<i64>)
    ensures
        r == completion_anchor_of(context.entries@, mode@, opt_view(anchor_type)),
        r matches Some(t) ==> is_instant(t as int),
{
    if text_eq(mode, "completion_anchor_offset") {
        match anchor_type {
            Some(a) => legacy_resolve_generation_anchor_time(context, a),
            None => None,
        }
    } else {
        None
    }
}

/// The planned end and completion anchor of a generated order that starts
/// at `start`: `start_plus_duration` adds the duration to the start;
/// `completion_anchor_offset` adds the offset to the completion anchor read
/// from the context. The end must come after the start.
pub fn resolve_planned_completion_time(
    context: &LegContext,
    mode: &str,
    completion_anchor_type: Option<&str>,
    completion_offset_minutes: Option<i32>,
    planned_start_time: i64,
    duration_minutes: i32,
) -> (r: Result<(i64, Option<i64>), DispatchError>)
    requires
        is_instant(planned_start_time as int),
        completion_in_range(
            mode@,
            opt_view(completion_anchor_type),
            completion_anchor_of(context.entries@, mode@, opt_view(completion_anchor_type)),
            completion_offset_minutes,
            planned_start_time as int,
            duration_minutes as int,
        ),
    ensures
        completion_answer(
            r,
            planned_completion(
                mode@,
                opt_view(completion_anchor_type),
                completion_anchor_of(context.entries@, mode@, opt_view(completion_anchor_type)),
                completion_offset_minutes,
                planned_start_time as int,
                duration_minutes as int,
            ),
        ),
{
    let anchor = resolve_completion_anchor(context, mode, completion_anchor_type);
    planned_completion_from_anchor(
        mode,
        completion_anchor_type,
        anchor,
        completion_offset_minutes,
        planned_start_time,
        duration_minutes,
    )
}

/// `resolve_planned_completion_time` where the end it computes is a
/// representable instant, and `None` where it is not.
pub fn try_resolve_planned_completion_time(
    context: &LegContext,
    mode: &str,
    completion_anchor_type: Option<&str>,
    completion_offset_minutes: Option<i32>,
    planned_start_time: i64,
    duration_minutes: i32,
) -> (r: Option<Result<(i64, Option<i64>), DispatchError>>)
    requires
        is_instant(planned_start_time as int),
    ensures
        r is None <==> !completion_in_range(
            mode@,
            opt_view(completion_anchor_type),
            completion_anchor_of(context.entries@, mode@, opt_view(completion_anchor_type)),
            completion_offset_minutes,
            planned_start_time as int,
            duration_minutes as int,
        ),
        r matches Some(x) ==> completion_answer(
            x,
            planned_completion(
                mode@,
                opt_view(completion_anchor_type),
                completion_anchor_of(context.entries@, mode@, opt_view(completion_anchor_type)),
                completion_offset_minutes,
                planned_start_time as int,
                duration_minutes as int,
            ),
        ),
{
    let anchor = resolve_completion_anchor(context, mode, completion_anchor_type);
    let end: Option<i128> = if text_eq(mode, "start_plus_duration") {
        Some(planned_start_time as i128 + (duration_minutes as i128) * 60)
    } else if text_eq(mode, "completion_anchor_offset") {
        match (completion_anchor_type, anchor, completion_offset_minutes) {
            (Some(_), Some(t), Some(o)) => Some(t as i128 + (o as i128) * 60),
            _ => None,
        }
    } else {
        None
    };
    match end {
        Some(e) => {
            if e < MIN_TIMESTAMP as i128 || e > MAX_TIMESTAMP as i128 {
                return None;
            }
        },
        None => {},
    }
    Some(
        planned_completion_from_anchor(
            mode,
            completion_anchor_type,
            anchor,
            completion_offset_minutes,
            planned_start_time,
            duration_minutes,
        ),
    )
}

} // verus!

verus! {

/// The text a context value compares as: a string as itself, any other
/// value by its JSON rendering.
pub open spec fn value_text(v: ContextValue) -> Seq<char> {
    match v {
        ContextValue::Null => "null"@,
        ContextValue::Bool(b) => if b {
            "true"@
        } else {
            "false"@
        },
        ContextValue::Text(s) => s@,
        ContextValue::Other(r) => r@,
    }
}

/// A condition that expects nothing: null, a blank string, an empty list
/// or an empty object.
pub open spec fn condition_skipped(e: ExpectedValue) -> bool {
    match e {
        ExpectedValue::Null => true,
        ExpectedValue::Text(t) => is_blank(t@),
        ExpectedValue::List(items) => items@.len() == 0,
        ExpectedValue::EmptyObject => true,
        _ => false,
    }
}

/// A listed item names the text `actual`: a non-blank string equal to it,
/// both trimmed, ignoring ASCII case.
pub open spec fn item_matches(item: Option<String>, actual: Seq<char>) -> bool {
    match item {
        Some(x) => !is_blank(x@) && folded_eq(trimmed(x@), trimmed(actual)),
        None => false,
    }
}

/// Whether the context meets one condition: a list lists the field's
/// string (trimmed, ignoring ASCII case); a boolean equals the field's
/// boolean (a missing or non-boolean field counting as false); any other
/// value equals the field's text (trimmed, ignoring ASCII case, a missing
/// field counting as empty).
pub open spec fn condition_holds(c: Seq<ContextEntry>, cond: RuleCondition) -> bool {
    let actual = context_value(c, cond.key@);
    if condition_skipped(cond.expected) {
        true
    } else {
        match cond.expected {
            ExpectedValue::List(items) => {
                let actual_str = match actual {
                    Some(ContextValue::Text(s)) => s@,
                    _ => Seq::<char>::empty(),
                };
                exists|i: int| 0 <= i < items@.len() && item_matches(#[trigger] items@[i], actual_str)
            },
            ExpectedValue::Bool(b) => (match actual {
                Some(ContextValue::Bool(a)) => a,
                _ => false,
            }) == b,
            ExpectedValue::Text(t) => folded_eq(
                trimmed(
                    match actual {
                        Some(v) => value_text(v),
                        None => Seq::<char>::empty(),
                    },
                ),
                trimmed(t@),
            ),
            ExpectedValue::Other(r) => folded_eq(
                trimmed(
                    match actual {
                        Some(v) => value_text(v),
                        None => Seq::<char>::empty(),
                    },
                ),
                trimmed(r@),
            ),
            _ => true,
        }
    }
}

/// Whether the context meets every condition.
pub open spec fn conditions_hold(c: Seq<ContextEntry>, conditions: Seq<RuleCondition>) -> bool {
    forall|k: int| 0 <= k < conditions.len() ==> condition_holds(c, #[trigger] conditions[k])
}

fn value_text_exec(v: &ContextValue) -> (r: &str)
    ensures
        r@ == value_text(*v),
{
    match v {
        ContextValue::Null => "null",
        ContextValue::Bool(b) => if *b {
            "true"
        } else {
            "false"
        },
        ContextValue::Text(s) => s.as_str(),
        ContextValue::Other(r) => r.as_str(),
    }
}

fn condition_holds_exec(context: &LegContext, cond: &RuleCondition) -> (r: bool)
    ensures
        r == condition_holds(context.entries@, *cond),
{
    let actual = context.get(cond.key.as_str());
    match &cond.expected {
        ExpectedValue::Null => true,
        ExpectedValue::EmptyObject => true,
        ExpectedValue::Text(t) => {
            if blank(t.as_str()) {
                return true;
            }
            let text: &str = match actual {
                Some(v) => value_text_exec(v),
                None => "",
            };
            proof {
                reveal_strlit("");
            }
            trimmed_folded_eq(text, t.as_str())
        },
        ExpectedValue::Other(x) => {
            let text: &str = match actual {
                Some(v) => value_text_exec(v),
                None => "",
            };
            proof {
                reveal_strlit("");
            }
            trimmed_folded_eq(text, x.as_str())
        },
        ExpectedValue::Bool(b) => {
            let a = match actual {
                Some(ContextValue::Bool(a)) => *a,
                _ => false,
            };
            a == *b
        },
        ExpectedValue::List(items) => {
            if items.len() == 0 {
                return true;
            }
            let actual_str: &str = match actual {
                Some(ContextValue::Text(s)) => s.as_str(),
                _ => "",
            };
            proof {
                reveal_strlit("");
            }
            let mut i: usize = 0;
            while i < items.len()
                invariant
                    i <= items@.len(),
                    cond.expected == ExpectedValue::List(*items),
                    actual_str@ == match context_value(context.entries@, cond.key@) {
                        Some(ContextValue::Text(s)) => s@,
                        _ => Seq::<char>::empty(),
                    },
                    forall|k: int| 0 <= k < i ==> !item_matches(#[trigger] items@[k], actual_str@),
                decreases items@.len() - i,
            {
                match &items[i] {
                    Some(x) => {
                        if !blank(x.as_str()) && trimmed_folded_eq(x.as_str(), actual_str) {
                            assert(item_matches(items@[i as int], actual_str@));
                            return true;
                        }
                    },
                    None => {},
                }
                i = i + 1;
            }
            false
        },
    }
}

/// Whether a flight-leg context meets every condition of a rule.
pub fn legacy_generation_conditions_match(context: &LegContext, conditions: &Vec<RuleCondition>) -> (r: bool)
    ensures
        r == conditions_hold(context.entries@, conditions@),
{
    let mut k: usize = 0;
    while k < conditions.len()
        invariant
            k <= conditions@.len(),
            forall|j: int| 0 <= j < k ==> condition_holds(context.entries@, #[trigger] conditions@[j]),
        decreases conditions@.len() - k,
    {
        if !condition_holds_exec(context, &conditions[k]) {
            return false;
        }
        k = k + 1;
    }
    true
}

} // verus!
