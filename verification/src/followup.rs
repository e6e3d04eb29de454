//! The follow-up queue: which todo sources it reads, and the open todos it
//! shows, earliest due first.

use vstd::prelude::*;
use crate::model::DispatchError;
use crate::rules::{DispatchService, normalized_opt};
use crate::generation::opt_view;
use crate::publication::opt_chars;
use crate::idset::{seq_lt, text_lt, lemma_lt_asymmetric, lemma_lt_transitive};
use crate::text::text_eq;

verus! {

/// An open or closed todo of a follow-up source, as the queue orders it;
/// `position` says where it stands in the list it was read from.
pub struct FollowupItem {
    pub position: usize,
    /// The due date as the todo is written out; none when it has none.
    pub due_date: Option<String>,
    pub title: Option<String>,
    pub source_type: Option<String>,
    pub is_terminal: bool,
}

/// The follow-up queue: the positions of the todos shown, in order, and
/// the counts of all open ones.
pub struct FollowupQueue {
    pub positions: Vec<usize>,
    pub total: usize,
    pub pending_verification_count: usize,
    pub soft_followup_count: usize,
}

/// The follow-up sources and the kind of follow-up each holds.
pub open spec fn followup_source_table() -> Seq<(Seq<char>, Seq<char>)> {
    seq![
        ("dispatch_soft_followup"@, "soft_followup"@),
        ("dispatch_arrival_verification"@, "arrival_verification"@),
    ]
}

/// The sources the queue reads for a requested source type (trimmed; a
/// blank one asks for all), or the refusal of a type that is not a source.
pub open spec fn followup_sources_for(source_type: Option<Seq<char>>) -> Result<Seq<(Seq<char>, Seq<char>)>, Seq<char>> {
    match normalized_opt(source_type) {
        None => Ok(followup_source_table()),
        Some(s) => if s == "dispatch_soft_followup"@ {
            Ok(seq![followup_source_table()[0]])
        } else if s == "dispatch_arrival_verification"@ {
            Ok(seq![followup_source_table()[1]])
        } else {
            Err("invalid source_type"@)
        },
    }
}

/// A todo by what orders it: due date (`9999` when none) and title.
pub open spec fn followup_key(i: FollowupItem) -> (Seq<char>, Seq<char>) {
    (
        match i.due_date {
            Some(d) => d@,
            None => "9999"@,
        },
        match i.title {
            Some(t) => t@,
            None => Seq::empty(),
        },
    )
}

/// Whether todo `a` is shown before `b`: an earlier due date, then an earlier title.
pub open spec fn shown_before(a: FollowupItem, b: FollowupItem) -> bool {
    seq_lt(followup_key(a).0, followup_key(b).0) || (followup_key(a).0 == followup_key(b).0 && seq_lt(
        followup_key(a).1,
        followup_key(b).1,
    ))
}

/// The open todos, in the order read.
pub open spec fn open_items(items: Seq<FollowupItem>) -> Seq<FollowupItem>
    decreases items.len(),
{
    if items.len() == 0 {
        Seq::empty()
    } else {
        open_items(items.drop_last()) + if items.last().is_terminal {
            Seq::empty()
        } else {
            seq![items.last()]
        }
    }
}

/// Where `x` joins a list in queue order: before the first todo it is shown before.
pub open spec fn queue_position(sorted: Seq<FollowupItem>, x: FollowupItem) -> int
    decreases sorted.len(),
{
    if sorted.len() == 0 {
        0
    } else if shown_before(x, sorted[0]) {
        0
    } else {
        1 + queue_position(sorted.drop_first(), x)
    }
}

/// Todos in queue order, equal ones in the order read.
pub open spec fn queue_order(items: Seq<FollowupItem>) -> Seq<FollowupItem>
    decreases items.len(),
{
    if items.len() == 0 {
        Seq::empty()
    } else {
        let s = queue_order(items.drop_last());
        s.insert(queue_position(s, items.last()), items.last())
    }
}

/// How many todos come from source `source`.
pub open spec fn count_source(items: Seq<FollowupItem>, source: Seq<char>) -> nat
    decreases items.len(),
{
    if items.len() == 0 {
        0
    } else {
        count_source(items.drop_last(), source) + if opt_chars(items.last().source_type) == Some(source) {
            1nat
        } else {
            0nat
        }
    }
}

/// How many todos the queue shows at most: `limit`, at least one and at most 200.
pub open spec fn queue_limit(limit: i64) -> int {
    if limit < 1 {
        1
    } else if limit > 200 {
        200
    } else {
        limit as int
    }
}

proof fn lemma_queue_position(sorted: Seq<FollowupItem>, x: FollowupItem)
    ensures
        0 <= queue_position(sorted, x) <= sorted.len(),
        forall|k: int| 0 <= k < queue_position(sorted, x) ==> !shown_before(x, #[trigger] sorted[k]),
        queue_position(sorted, x) < sorted.len() ==> shown_before(x, sorted[queue_position(sorted, x)]),
    decreases sorted.len(),
{
    if sorted.len() > 0 && !shown_before(x, sorted[0]) {
        let t = sorted.drop_first();
        lemma_queue_position(t, x);
        assert forall|k: int| 0 <= k < queue_position(sorted, x) implies !shown_before(x, #[trigger] sorted[k]) by {
            if k > 0 {
                assert(sorted[k] == t[k - 1]);
            }
        }
        if queue_position(sorted, x) < sorted.len() {
            assert(sorted[queue_position(sorted, x)] == t[queue_position(t, x)]);
        }
    }
}

fn key_text<'a>(o: &'a Option<String>, default: &'static str) -> (r: &'a str)
    ensures
        r@ == match *o {
            Some(s) => s@,
            None => default@,
        },
{
    match o {
        Some(s) => s.as_str(),
        None => default,
    }
}

fn shown_before_exec(a: &FollowupItem, b: &FollowupItem) -> (r: bool)
    ensures
        r == shown_before(*a, *b),
{
    proof {
        reveal_strlit("");
    }
    let ad = key_text(&a.due_date, "9999");
    let bd = key_text(&b.due_date, "9999");
    let at = key_text(&a.title, "");
    let bt = key_text(&b.title, "");
    text_lt(ad, bd) || (text_eq(ad, bd) && text_lt(at, bt))
}

fn copy_item(i: &FollowupItem) -> (r: FollowupItem)
    ensures
        r == *i,
{
    FollowupItem {
        position: i.position,
        due_date: crate::text::copy_opt(&i.due_date),
        title: crate::text::copy_opt(&i.title),
        source_type: crate::text::copy_opt(&i.source_type),
        is_terminal: i.is_terminal,
    }
}

fn source_is(o: &Option<String>, source: &str) -> (r: bool)
    ensures
        r == (opt_chars(*o) == Some(source@)),
{
    match o {
        Some(s) => text_eq(s.as_str(), source),
        None => false,
    }
}

impl DispatchService {
    /// The sources the follow-up queue reads, each with its kind of
    /// follow-up: both, or the one asked for; another type is refused.
    pub fn followup_sources(source_type: Option<&str>) -> (r: Result<Vec<(&'static str, &'static str)>, DispatchError>)
        ensures
            match followup_sources_for(opt_view(source_type)) {
                Ok(sources) => r matches Ok(v) && v@.len() == sources.len() && forall|k: int|
                    0 <= k < sources.len() ==> (#[trigger] v@[k]).0@ == sources[k].0 && v@[k].1@ == sources[k].1,
                Err(m) => r matches Err(DispatchError::ValidationError(msg)) && msg@ == m,
            },
    {
        let normalized = Self::normalize_optional_ref(source_type);
        assert(opt_view(normalized) == normalized_opt(opt_view(source_type)));
        match normalized {
            None => Ok(vec![("dispatch_soft_followup", "soft_followup"), ("dispatch_arrival_verification", "arrival_verification")]),
            Some(s) => if text_eq(s, "dispatch_soft_followup") {
                Ok(vec![("dispatch_soft_followup", "soft_followup")])
            } else if text_eq(s, "dispatch_arrival_verification") {
                Ok(vec![("dispatch_arrival_verification", "arrival_verification")])
            } else {
                Err(DispatchError::ValidationError(String::from_str("invalid source_type")))
            },
        }
    }

    /// The follow-up queue of the todos read from its sources, in the order
    /// read: the open ones, earliest due date first (none counting as
    /// `9999`), then by title; at most `limit` of them (between one and
    /// 200), with the counts of all open ones.
    pub fn followup_queue(items: &Vec<FollowupItem>, limit: i64) -> (r: FollowupQueue)
        ensures
            r.total == open_items(items@).len(),
            r.pending_verification_count == count_source(open_items(items@), "dispatch_arrival_verification"@),
            r.soft_followup_count == count_source(open_items(items@), "dispatch_soft_followup"@),
            r.positions@.len() == if queue_limit(limit) < open_items(items@).len() {
                queue_limit(limit)
            } else {
                open_items(items@).len() as int
            },
            forall|k: int| 0 <= k < r.positions@.len() ==> r.positions@[k] == (#[trigger] queue_order(open_items(items@))[k]).position,
    {
        let mut open: Vec<FollowupItem> = Vec::new();
        let mut pending: usize = 0;
        let mut soft: usize = 0;
        let mut i: usize = 0;
        while i < items.len()
            invariant
                i <= items.len(),
                open@ == open_items(items@.take(i as int)),
                pending == count_source(open@, "dispatch_arrival_verification"@),
                soft == count_source(open@, "dispatch_soft_followup"@),
                pending <= open@.len(),
                soft <= open@.len(),
                open@.len() <= i,
            decreases items.len() - i,
        {
            proof {
                assert(items@.take(i + 1).drop_last() =~= items@.take(i as int));
                assert(items@.take(i + 1).last() == items@[i as int]);
            }
            if !items[i].is_terminal {
                let c = copy_item(&items[i]);
                let ghost before = open@;
                open.push(c);
                proof {
                    assert(open@.drop_last() =~= before);
                }
                if source_is(&items[i].source_type, "dispatch_arrival_verification") {
                    pending += 1;
                }
                if source_is(&items[i].source_type, "dispatch_soft_followup") {
                    soft += 1;
                }
            } else {
                assert(open@ + Seq::<FollowupItem>::empty() =~= open@);
            }
            i += 1;
        }
        assert(items@.take(items.len() as int) =~= items@);
        let mut sorted: Vec<FollowupItem> = Vec::new();
        let mut j: usize = 0;
        assert(sorted@ =~= queue_order(open@.take(0)));
        while j < open.len()
            invariant
                j <= open.len(),
                sorted@ == queue_order(open@.take(j as int)),
                sorted@.len() == j,
            decreases open.len() - j,
        {
            let x = &open[j];
            let ghost sv = sorted@;
            proof {
                assert(open@.take(j + 1).drop_last() =~= open@.take(j as int));
                assert(open@.take(j + 1).last() == *x);
                lemma_queue_position(sv, *x);
            }
            let mut p: usize = 0;
            while p < sorted.len() && !shown_before_exec(x, &sorted[p])
                invariant
                    p <= sorted.len(),
                    sv == sorted@,
                    forall|k: int| 0 <= k < p ==> !shown_before(*x, #[trigger] sv[k]),
                decreases sorted.len() - p,
            {
                p += 1;
            }
            assert(p as int == queue_position(sv, *x)) by {
                let q = queue_position(sv, *x);
                if q < p {
                    assert(!shown_before(*x, sv[q]));
                }
                if p < q {
                    assert(shown_before(*x, sv[p as int]));
                }
            }
            let c = copy_item(x);
            sorted.insert(p, c);
            j += 1;
        }
        assert(open@.take(open.len() as int) =~= open@);
        let n: usize = if limit < 1 {
            1
        } else if limit > 200 {
            200
        } else {
            limit as usize
        };
        let mut positions: Vec<usize> = Vec::new();
        let mut k: usize = 0;
        while k < sorted.len() && k < n
            invariant
                k <= sorted.len(),
                k <= n,
                positions@.len() == k,
                forall|m: int| 0 <= m < k ==> positions@[m] == (#[trigger] sorted@[m]).position,
            decreases sorted.len() - k,
        {
            positions.push(sorted[k].position);
            k += 1;
        }
        FollowupQueue { positions, total: open.len(), pending_verification_count: pending, soft_followup_count: soft }
    }
}


proof fn lemma_shown_strict(a: FollowupItem, b: FollowupItem, c: FollowupItem)
    ensures
        shown_before(a, b) ==> !shown_before(b, a),
        shown_before(a, b) && shown_before(b, c) ==> shown_before(a, c),
{
    let (ad, at) = followup_key(a);
    let (bd, bt) = followup_key(b);
    let (cd, ct) = followup_key(c);
    if seq_lt(ad, bd) {
        lemma_lt_asymmetric(ad, bd);
    }
    if ad == bd && seq_lt(at, bt) {
        lemma_lt_asymmetric(at, bt);
    }
    if shown_before(a, b) && shown_before(b, c) {
        if seq_lt(ad, bd) && seq_lt(bd, cd) {
            lemma_lt_transitive(ad, bd, cd);
        }
        if ad == bd && bd == cd && seq_lt(at, bt) && seq_lt(bt, ct) {
            lemma_lt_transitive(at, bt, ct);
        }
    }
}

/// Whether no todo of `s` is shown before one that comes ahead of it.
pub open spec fn in_queue_order(s: Seq<FollowupItem>) -> bool {
    forall|i: int, j: int| 0 <= i < j < s.len() ==> !shown_before(#[trigger] s[j], #[trigger] s[i])
}

/// The queue shows the earliest due todos first and, among those due
/// together, the earliest titles first.
pub proof fn law_queue_earliest_due_first(items: Seq<FollowupItem>)
    ensures
        in_queue_order(queue_order(items)),
    decreases items.len(),
{
    if items.len() > 0 {
        let t = queue_order(items.drop_last());
        let x = items.last();
        law_queue_earliest_due_first(items.drop_last());
        lemma_queue_position(t, x);
        let p = queue_position(t, x);
        let r = t.insert(p, x);
        assert(r == queue_order(items));
        assert forall|i: int, j: int| 0 <= i < j < r.len() implies !shown_before(#[trigger] r[j], #[trigger] r[i]) by {
            if j < p {
                assert(r[i] == t[i] && r[j] == t[j]);
            } else if j == p {
                assert(r[i] == t[i]);
            } else if i == p {
                assert(r[j] == t[j - 1]);
                if shown_before(t[j - 1], x) {
                    lemma_shown_strict(t[j - 1], x, t[p]);
                    if j - 1 == p {
                        lemma_shown_strict(t[p], x, t[p]);
                    }
                }
            } else if i < p {
                assert(r[i] == t[i] && r[j] == t[j - 1]);
            } else {
                assert(r[i] == t[i - 1] && r[j] == t[j - 1]);
            }
        }
    }
}

/// The orders and task types to report checklist progress for: trimmed,
/// pairs with a blank part dropped, each pair once, in order of first mention.
pub open spec fn progress_keys(items: Seq<(Seq<char>, Seq<char>)>) -> Seq<(Seq<char>, Seq<char>)>
    decreases items.len(),
{
    if items.len() == 0 {
        Seq::empty()
    } else {
        let pre = progress_keys(items.drop_last());
        let key = (crate::text::trimmed(items.last().0), crate::text::trimmed(items.last().1));
        if key.0.len() == 0 || key.1.len() == 0 || pre.contains(key) {
            pre
        } else {
            pre.push(key)
        }
    }
}

/// A pair of texts by their characters.
pub open spec fn pair_views(v: Seq<(String, String)>) -> Seq<(Seq<char>, Seq<char>)> {
    Seq::new(v.len(), |i: int| (v[i].0@, v[i].1@))
}

impl DispatchService {
    /// The orders and task types to report checklist progress for: each
    /// pair trimmed, pairs with a blank part dropped, each pair once in
    /// order of first mention.
    pub fn checklist_progress_keys(items: &Vec<(String, String)>) -> (r: Vec<(String, String)>)
        ensures
            pair_views(r@) == progress_keys(pair_views(items@)),
    {
        let mut r: Vec<(String, String)> = Vec::new();
        let mut i: usize = 0;
        while i < items.len()
            invariant
                i <= items.len(),
                pair_views(r@) == progress_keys(pair_views(items@).take(i as int)),
            decreases items.len() - i,
        {
            let ghost pv = pair_views(items@);
            proof {
                assert(pv.take(i + 1).drop_last() =~= pv.take(i as int));
                assert(pv.take(i + 1).last() == (items@[i as int].0@, items@[i as int].1@));
            }
            let order_id = crate::text::trim(items[i].0.as_str());
            let task_type = crate::text::trim(items[i].1.as_str());
            if order_id.unicode_len() > 0 && task_type.unicode_len() > 0 {
                let ghost key = (order_id@, task_type@);
                let ghost pre = pair_views(r@);
                let mut seen = false;
                let mut k: usize = 0;
                while k < r.len()
                    invariant_except_break
                        !seen,
                    invariant
                        k <= r.len(),
                        key == (order_id@, task_type@),
                        pre == pair_views(r@),
                        forall|m: int| 0 <= m < k ==> pre[m] != key,
                    ensures
                        seen <==> pre.contains(key),
                    decreases r.len() - k,
                {
                    assert(pre[k as int] == (r@[k as int].0@, r@[k as int].1@));
                    if text_eq(r[k].0.as_str(), order_id) && text_eq(r[k].1.as_str(), task_type) {
                        seen = true;
                        assert(pre[k as int] == key);
                        break;
                    }
                    k += 1;
                }
                if !seen {
                    r.push((crate::text::owned(order_id), crate::text::owned(task_type)));
                    assert(pair_views(r@) =~= pre.push(key));
                }
            }
            i += 1;
        }
        assert(pair_views(items@).take(items.len() as int) =~= pair_views(items@));
        r
    }
}

} // verus!
