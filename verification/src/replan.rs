//! Replanning a window: orders that share a person or a stand and follow
//! each other too closely are delayed, each order by the least delay any
//! of its conflicts asks for, the least disruptive suggestions first.

use vstd::prelude::*;
use crate::model::{is_instant, DispatchError, DispatchOrder};
use crate::rules::{DispatchService, normalized_opt, service_interval_start, service_order_crew, string_views};
use crate::validation::service_interval_end;
use crate::publication::opt_chars;
use crate::generation::opt_view;
use crate::text::{owned, text_eq};
use crate::idset::seq_lt;
use crate::flight_context::rfc3339_utc_text;

verus! {

/// A resource two orders can compete for: a person (`true`) or a stand
/// (`false`), by identifier.
pub type ResourceKey = (bool, Seq<char>);

/// The resources of an order: the people of its crew, then its stand.
pub open spec fn order_resources(o: DispatchOrder) -> Seq<ResourceKey> {
    Seq::new(service_order_crew(&o).len(), |i: int| (true, service_order_crew(&o)[i])) + match normalized_opt(
        opt_chars(o.stand_id),
    ) {
        Some(s) => seq![(false, s)],
        None => Seq::empty(),
    }
}

/// `keys` added to `acc`, those it lacks, in order.
pub open spec fn add_resources(acc: Seq<ResourceKey>, keys: Seq<ResourceKey>) -> Seq<ResourceKey>
    decreases keys.len(),
{
    if keys.len() == 0 {
        acc
    } else {
        add_resources(if acc.contains(keys[0]) { acc } else { acc.push(keys[0]) }, keys.drop_first())
    }
}

/// The resources of the orders, each once, in order of first mention.
pub open spec fn resources_of(orders: Seq<DispatchOrder>) -> Seq<ResourceKey>
    decreases orders.len(),
{
    if orders.len() == 0 {
        Seq::empty()
    } else {
        add_resources(resources_of(orders.drop_last()), order_resources(orders.last()))
    }
}

/// The orders that use a resource, in order.
pub open spec fn users_of(orders: Seq<DispatchOrder>, key: ResourceKey) -> Seq<DispatchOrder>
    decreases orders.len(),
{
    if orders.len() == 0 {
        Seq::empty()
    } else {
        users_of(orders.drop_last(), key) + if order_resources(orders.last()).contains(key) {
            seq![orders.last()]
        } else {
            Seq::empty()
        }
    }
}

/// A resource key by its values.
pub open spec fn key_view(k: (bool, String)) -> ResourceKey {
    (k.0, k.1@)
}

/// Resource keys by their values.
pub open spec fn key_views(ks: Seq<(bool, String)>) -> Seq<ResourceKey> {
    Seq::new(ks.len(), |i: int| key_view(ks[i]))
}

fn order_resource_keys(o: &DispatchOrder) -> (r: Vec<(bool, String)>)
    ensures
        key_views(r@) == order_resources(*o),
{
    let crew = DispatchService::order_member_user_ids(o);
    let mut r: Vec<(bool, String)> = Vec::new();
    let mut i: usize = 0;
    while i < crew.len()
        invariant
            i <= crew.len(),
            string_views(crew@) == service_order_crew(o),
            r@.len() == i,
            key_views(r@) == Seq::new(i as nat, |k: int| (true, service_order_crew(o)[k])),
        decreases crew.len() - i,
    {
        let ghost before = key_views(r@);
        let ghost old_r = r@;
        r.push((true, crew[i].clone()));
        assert(key_views(r@) =~= Seq::new((i + 1) as nat, |k: int| (true, service_order_crew(o)[k]))) by {
            assert(string_views(crew@)[i as int] == crew@[i as int]@);
            assert forall|k: int| 0 <= k < i + 1 implies key_views(r@)[k] == (true, service_order_crew(o)[k]) by {
                if k < i {
                    assert(r@[k] == old_r[k]);
                    assert(before[k] == Seq::new(i as nat, |m: int| (true, service_order_crew(o)[m]))[k]);
                } else {
                    assert(r@[k] == (true, crew@[i as int]));
                }
            }
        }
        i += 1;
    }
    let stand: Option<&str> = match &o.stand_id {
        Some(s) => Some(s.as_str()),
        None => None,
    };
    assert(opt_view(stand) == opt_chars(o.stand_id));
    let normalized = DispatchService::normalize_optional_ref(stand);
    assert(opt_view(normalized) == normalized_opt(opt_view(stand)));
    let ghost crew_part = key_views(r@);
    match normalized {
        Some(s) => {
            r.push((false, owned(s)));
            assert(key_views(r@) =~= crew_part + seq![(false, s@)]);
        },
        None => {
            assert(key_views(r@) =~= crew_part + Seq::<ResourceKey>::empty());
        },
    }
    r
}

fn has_key(ks: &Vec<(bool, String)>, key: &(bool, String)) -> (r: bool)
    ensures
        r == key_views(ks@).contains(key_view(*key)),
{
    let mut i: usize = 0;
    while i < ks.len()
        invariant
            i <= ks.len(),
            forall|k: int| 0 <= k < i ==> key_views(ks@)[k] != key_view(*key),
        decreases ks.len() - i,
    {
        if ks[i].0 == key.0 && text_eq(ks[i].1.as_str(), key.1.as_str()) {
            assert(key_views(ks@)[i as int] == key_view(*key));
            return true;
        }
        i += 1;
    }
    false
}

fn resource_keys(orders: &Vec<DispatchOrder>) -> (r: Vec<(bool, String)>)
    ensures
        key_views(r@) == resources_of(orders@),
{
    let mut acc: Vec<(bool, String)> = Vec::new();
    let mut i: usize = 0;
    assert(key_views(acc@) =~= resources_of(orders@.take(0)));
    while i < orders.len()
        invariant
            i <= orders.len(),
            key_views(acc@) == resources_of(orders@.take(i as int)),
        decreases orders.len() - i,
    {
        proof {
            assert(orders@.take(i + 1).drop_last() =~= orders@.take(i as int));
            assert(orders@.take(i + 1).last() == orders@[i as int]);
        }
        let keys = order_resource_keys(&orders[i]);
        let ghost target = resources_of(orders@.take(i + 1));
        let mut j: usize = 0;
        assert(key_views(keys@).skip(0) =~= key_views(keys@));
        while j < keys.len()
            invariant
                j <= keys.len(),
                target == add_resources(key_views(acc@), key_views(keys@).skip(j as int)),
            decreases keys.len() - j,
        {
            let ghost rest = key_views(keys@).skip(j as int);
            assert(rest[0] == key_view(keys@[j as int]));
            assert(rest.drop_first() =~= key_views(keys@).skip(j + 1));
            if !has_key(&acc, &keys[j]) {
                let k = (keys[j].0, keys[j].1.clone());
                let ghost before = key_views(acc@);
                acc.push(k);
                assert(key_views(acc@) =~= before.push(key_view(keys@[j as int])));
            }
            j += 1;
        }
        assert(key_views(keys@).skip(keys.len() as int) =~= Seq::<ResourceKey>::empty());
        i += 1;
    }
    assert(orders@.take(orders.len() as int) =~= orders@);
    acc
}


/// How long after an order another on the same resource may start, by
/// strategy, in seconds: ten minutes for stability, none for efficiency,
/// five minutes otherwise.
pub open spec fn replan_buffer(strategy: Seq<char>) -> int {
    if strategy == "stability"@ {
        600
    } else if strategy == "efficiency"@ {
        0
    } else {
        300
    }
}

/// Whether an order may be moved: any order where no list is given, else
/// one the list names.
pub open spec fn may_move(mutable: Option<Seq<Seq<char>>>, id: Seq<char>) -> bool {
    match mutable {
        Some(ids) => ids.contains(id),
        None => true,
    }
}

/// A suggested delay by its values.
pub struct DelayView {
    pub id: Seq<char>,
    pub related: Seq<char>,
    pub flight: Seq<char>,
    pub original_start: Option<i64>,
    pub original_end: Option<i64>,
    pub start: int,
    pub end: int,
    pub delay: int,
}

/// The suggestion to start order `o`, busy from `s` to `e`, at `target`
/// instead: it keeps its length (at least five minutes) and is delayed by
/// the difference (none when it moves earlier).
pub open spec fn delay_view(o: DispatchOrder, related: Seq<char>, s: int, e: int, target: int) -> DelayView {
    DelayView {
        id: o.id@,
        related: related,
        flight: o.flight_id@,
        original_start: o.planned_start_time,
        original_end: o.planned_end_time,
        start: target,
        end: target + if e - s > 300 { e - s } else { 300 },
        delay: if target - s > 0 { target - s } else { 0 },
    }
}

/// The suggestion for two consecutive orders on a resource, or none: where
/// the later one starts before the earlier one ends plus the buffer, the
/// later one (if it may move) starts at that time, else the earlier one (if
/// it may move) starts the buffer after the later one ends; an order
/// without an identifier gets no suggestion.
pub open spec fn pair_suggestion(
    prev: DispatchOrder,
    cur: DispatchOrder,
    now: i64,
    buffer: int,
    mutable: Option<Seq<Seq<char>>>,
) -> Option<DelayView> {
    let ps = service_interval_start(&prev, now) as int;
    let pe = service_interval_end(&prev, now);
    let cs = service_interval_start(&cur, now) as int;
    let ce = service_interval_end(&cur, now);
    let target = pe + buffer;
    let candidate = if cs >= target {
        None
    } else if may_move(mutable, cur.id@) {
        Some(delay_view(cur, prev.id@, cs, ce, target))
    } else if may_move(mutable, prev.id@) {
        Some(delay_view(prev, cur.id@, ps, pe, ce + buffer))
    } else {
        None
    };
    match candidate {
        Some(c) => if c.id.len() == 0 {
            None
        } else {
            Some(c)
        },
        None => None,
    }
}

/// Where `x` joins a list ordered by start: before the first order that
/// starts later.
pub open spec fn start_position(sorted: Seq<DispatchOrder>, x: DispatchOrder, now: i64) -> int
    decreases sorted.len(),
{
    if sorted.len() == 0 {
        0
    } else if service_interval_start(&x, now) < service_interval_start(&sorted[0], now) {
        0
    } else {
        1 + start_position(sorted.drop_first(), x, now)
    }
}

/// Orders by start, equal ones in the order given.
pub open spec fn by_start(orders: Seq<DispatchOrder>, now: i64) -> Seq<DispatchOrder>
    decreases orders.len(),
{
    if orders.len() == 0 {
        Seq::empty()
    } else {
        let s = by_start(orders.drop_last(), now);
        s.insert(start_position(s, orders.last(), now), orders.last())
    }
}

/// The suggestions for the consecutive orders of a resource, in order.
pub open spec fn chain_suggestions(g: Seq<DispatchOrder>, now: i64, buffer: int, mutable: Option<Seq<Seq<char>>>) -> Seq<DelayView>
    decreases g.len(),
{
    if g.len() < 2 {
        Seq::empty()
    } else {
        chain_suggestions(g.drop_last(), now, buffer, mutable) + match pair_suggestion(
            g[g.len() - 2],
            g.last(),
            now,
            buffer,
            mutable,
        ) {
            Some(c) => seq![c],
            None => Seq::empty(),
        }
    }
}

/// The suggestions of every resource, resource by resource.
pub open spec fn all_suggestions(
    orders: Seq<DispatchOrder>,
    keys: Seq<ResourceKey>,
    now: i64,
    buffer: int,
    mutable: Option<Seq<Seq<char>>>,
) -> Seq<DelayView>
    decreases keys.len(),
{
    if keys.len() == 0 {
        Seq::empty()
    } else {
        all_suggestions(orders, keys.drop_last(), now, buffer, mutable) + chain_suggestions(
            by_start(users_of(orders, keys.last()), now),
            now,
            buffer,
            mutable,
        )
    }
}

/// A suggested delay of the service.
pub struct ReplanSuggestion {
    pub dispatch_order_id: String,
    pub related_dispatch_order_id: String,
    pub flight_id: String,
    pub original_start_time: Option<i64>,
    pub original_end_time: Option<i64>,
    pub suggested_start: i64,
    pub suggested_end: i64,
    /// How far the order moves later, in seconds (none when it moves earlier).
    pub delay_seconds: i64,
}

/// A suggestion by its values.
pub open spec fn suggestion_view(s: ReplanSuggestion) -> DelayView {
    DelayView {
        id: s.dispatch_order_id@,
        related: s.related_dispatch_order_id@,
        flight: s.flight_id@,
        original_start: s.original_start_time,
        original_end: s.original_end_time,
        start: s.suggested_start as int,
        end: s.suggested_end as int,
        delay: s.delay_seconds as int,
    }
}

/// Suggestions by their values.
pub open spec fn suggestion_views(v: Seq<ReplanSuggestion>) -> Seq<DelayView> {
    Seq::new(v.len(), |i: int| suggestion_view(v[i]))
}

/// Whether every busy interval of the orders can be computed.
pub open spec fn intervals_computable(orders: Seq<DispatchOrder>, now: i64) -> bool {
    forall|i: int| 0 <= i < orders.len() ==> is_instant(service_interval_start(&#[trigger] orders[i], now) as int + 900)
}

/// Whether every suggested time is a representable instant.
pub open spec fn suggestions_representable(v: Seq<DelayView>) -> bool {
    forall|i: int| 0 <= i < v.len() ==> is_instant((#[trigger] v[i]).start) && is_instant(v[i].end)
}


/// The orders at the given positions.
pub open spec fn at_positions(orders: Seq<DispatchOrder>, idx: Seq<usize>) -> Seq<DispatchOrder> {
    Seq::new(idx.len(), |k: int| orders[idx[k] as int])
}

/// Whether every position is one of the orders.
pub open spec fn positions_valid(orders: Seq<DispatchOrder>, idx: Seq<usize>) -> bool {
    forall|k: int| 0 <= k < idx.len() ==> (#[trigger] idx[k]) < orders.len()
}

fn group_positions(orders: &Vec<DispatchOrder>, key: &(bool, String)) -> (r: Vec<usize>)
    ensures
        positions_valid(orders@, r@),
        at_positions(orders@, r@) == users_of(orders@, key_view(*key)),
{
    let mut r: Vec<usize> = Vec::new();
    let mut i: usize = 0;
    while i < orders.len()
        invariant
            i <= orders.len(),
            positions_valid(orders@, r@),
            at_positions(orders@, r@) == users_of(orders@.take(i as int), key_view(*key)),
        decreases orders.len() - i,
    {
        proof {
            assert(orders@.take(i + 1).drop_last() =~= orders@.take(i as int));
            assert(orders@.take(i + 1).last() == orders@[i as int]);
        }
        let keys = order_resource_keys(&orders[i]);
        let ghost before = at_positions(orders@, r@);
        if has_key(&keys, key) {
            r.push(i);
            assert(at_positions(orders@, r@) =~= before + seq![orders@[i as int]]);
        } else {
            assert(at_positions(orders@, r@) =~= before + Seq::<DispatchOrder>::empty());
        }
        i += 1;
    }
    assert(orders@.take(orders.len() as int) =~= orders@);
    r
}

proof fn lemma_start_position(sorted: Seq<DispatchOrder>, x: DispatchOrder, now: i64)
    ensures
        0 <= start_position(sorted, x, now) <= sorted.len(),
        forall|k: int| 0 <= k < start_position(sorted, x, now) ==> !(service_interval_start(&x, now) < service_interval_start(&#[trigger] sorted[k], now)),
        start_position(sorted, x, now) < sorted.len() ==> service_interval_start(&x, now) < service_interval_start(&sorted[start_position(sorted, x, now)], now),
    decreases sorted.len(),
{
    if sorted.len() > 0 && !(service_interval_start(&x, now) < service_interval_start(&sorted[0], now)) {
        let t = sorted.drop_first();
        lemma_start_position(t, x, now);
        assert forall|k: int| 0 <= k < start_position(sorted, x, now) implies !(service_interval_start(&x, now) < service_interval_start(&#[trigger] sorted[k], now)) by {
            if k > 0 {
                assert(sorted[k] == t[k - 1]);
            }
        }
        if start_position(sorted, x, now) < sorted.len() {
            assert(sorted[start_position(sorted, x, now)] == t[start_position(t, x, now)]);
        }
    }
}

fn sort_positions_by_start(orders: &Vec<DispatchOrder>, idx: &Vec<usize>, now: i64) -> (r: Vec<usize>)
    requires
        positions_valid(orders@, idx@),
        intervals_computable(orders@, now),
    ensures
        positions_valid(orders@, r@),
        at_positions(orders@, r@) == by_start(at_positions(orders@, idx@), now),
{
    let ghost all = at_positions(orders@, idx@);
    let mut sorted: Vec<usize> = Vec::new();
    let mut i: usize = 0;
    assert(at_positions(orders@, sorted@) =~= by_start(all.take(0), now));
    while i < idx.len()
        invariant
            i <= idx.len(),
            all == at_positions(orders@, idx@),
            positions_valid(orders@, idx@),
            intervals_computable(orders@, now),
            positions_valid(orders@, sorted@),
            at_positions(orders@, sorted@) == by_start(all.take(i as int), now),
        decreases idx.len() - i,
    {
        let x = idx[i];
        let ghost sv = at_positions(orders@, sorted@);
        proof {
            assert(all.take(i + 1).drop_last() =~= all.take(i as int));
            assert(all.take(i + 1).last() == orders@[x as int]);
            lemma_start_position(sv, orders@[x as int], now);
        }
        let xs = DispatchService::effective_interval(&orders[x], now).0;
        let mut p: usize = 0;
        while p < sorted.len()
            invariant
                p <= sorted.len(),
                sv == at_positions(orders@, sorted@),
                positions_valid(orders@, sorted@),
                intervals_computable(orders@, now),
                x < orders@.len(),
                xs == service_interval_start(&orders@[x as int], now),
                forall|k: int| 0 <= k < p ==> !(service_interval_start(&orders@[x as int], now) < service_interval_start(&#[trigger] sv[k], now)),
            ensures
                p <= sorted.len(),
                forall|k: int| 0 <= k < p ==> !(service_interval_start(&orders@[x as int], now) < service_interval_start(&#[trigger] sv[k], now)),
                p < sorted.len() ==> service_interval_start(&orders@[x as int], now) < service_interval_start(&sv[p as int], now),
            decreases sorted.len() - p,
        {
            let q = sorted[p];
            assert(sv[p as int] == orders@[q as int]);
            let qs = DispatchService::effective_interval(&orders[q], now).0;
            if xs < qs {
                break;
            }
            p += 1;
        }
        assert(p as int == start_position(sv, orders@[x as int], now)) by {
            let q = start_position(sv, orders@[x as int], now);
            if q < p {
                assert(!(service_interval_start(&orders@[x as int], now) < service_interval_start(&sv[q], now)));
            }
        }
        let ghost before = sorted@;
        sorted.insert(p, x);
        assert(at_positions(orders@, sorted@) =~= sv.insert(p as int, orders@[x as int]));
        i += 1;
    }
    assert(all.take(idx.len() as int) =~= all);
    sorted
}


/// The orders that may move, by their identifiers.
pub open spec fn movable_view(m: Option<&Vec<String>>) -> Option<Seq<Seq<char>>> {
    match m {
        Some(v) => Some(string_views(v@)),
        None => None,
    }
}

fn may_move_exec(mutable: Option<&Vec<String>>, id: &str) -> (r: bool)
    ensures
        r == may_move(movable_view(mutable), id@),
{
    match mutable {
        None => true,
        Some(ids) => {
            let mut i: usize = 0;
            while i < ids.len()
                invariant
                    i <= ids.len(),
                    mutable == Some(ids),
                    forall|k: int| 0 <= k < i ==> string_views(ids@)[k] != id@,
                decreases ids.len() - i,
            {
                if text_eq(ids[i].as_str(), id) {
                    assert(string_views(ids@).len() == ids@.len());
                    assert(string_views(ids@)[i as int] == id@);
                    assert(string_views(ids@).contains(id@));
                    return true;
                }
                i += 1;
            }
            false
        },
    }
}

fn pair_suggestion_exec(
    prev: &DispatchOrder,
    cur: &DispatchOrder,
    now: i64,
    buffer: i64,
    mutable: Option<&Vec<String>>,
) -> (r: Option<ReplanSuggestion>)
    requires
        is_instant(service_interval_start(prev, now) as int + 900),
        is_instant(service_interval_start(cur, now) as int + 900),
        0 <= buffer <= 600,
        pair_suggestion(*prev, *cur, now, buffer as int, movable_view(mutable)) matches Some(c) ==> is_instant(c.start) && is_instant(c.end),
    ensures
        match pair_suggestion(*prev, *cur, now, buffer as int, movable_view(mutable)) {
            Some(c) => r matches Some(x) && suggestion_view(x) == c,
            None => r is None,
        },
{
    let (ps, pe) = DispatchService::effective_interval(prev, now);
    let (cs, ce) = DispatchService::effective_interval(cur, now);
    assert(pe as int == service_interval_end(prev, now));
    assert(ce as int == service_interval_end(cur, now));
    let target: i128 = pe as i128 + buffer as i128;
    if cs as i128 >= target {
        return None;
    }
    let (o, related, s, e, t): (&DispatchOrder, &String, i64, i64, i128) = if may_move_exec(mutable, cur.id.as_str()) {
        (cur, &prev.id, cs, ce, target)
    } else if may_move_exec(mutable, prev.id.as_str()) {
        (prev, &cur.id, ps, pe, ce as i128 + buffer as i128)
    } else {
        return None;
    };
    if o.id.unicode_len() == 0 {
        return None;
    }
    let length: i128 = if (e as i128) - (s as i128) > 300 {
        (e as i128) - (s as i128)
    } else {
        300
    };
    let end: i128 = t + length;
    let delay: i128 = if t - (s as i128) > 0 {
        t - (s as i128)
    } else {
        0
    };
    Some(ReplanSuggestion {
        dispatch_order_id: o.id.clone(),
        related_dispatch_order_id: related.clone(),
        flight_id: o.flight_id.clone(),
        original_start_time: o.planned_start_time,
        original_end_time: o.planned_end_time,
        suggested_start: t as i64,
        suggested_end: end as i64,
        delay_seconds: delay as i64,
    })
}

proof fn lemma_chain_prefix(g: Seq<DispatchOrder>, j: int, now: i64, buffer: int, mutable: Option<Seq<Seq<char>>>) -> (w: Seq<DelayView>)
    requires
        0 <= j <= g.len(),
    ensures
        chain_suggestions(g, now, buffer, mutable) == chain_suggestions(g.take(j), now, buffer, mutable) + w,
    decreases g.len(),
{
    if j == g.len() {
        assert(g.take(j) =~= g);
        assert(chain_suggestions(g, now, buffer, mutable) + Seq::<DelayView>::empty() =~= chain_suggestions(g, now, buffer, mutable));
        Seq::empty()
    } else if g.len() < 2 {
        assert(chain_suggestions(g.take(j), now, buffer, mutable) =~= Seq::<DelayView>::empty());
        assert(chain_suggestions(g, now, buffer, mutable) =~= Seq::<DelayView>::empty());
        Seq::empty()
    } else {
        let w0 = lemma_chain_prefix(g.drop_last(), j, now, buffer, mutable);
        assert(g.drop_last().take(j) =~= g.take(j));
        let tail = match pair_suggestion(g[g.len() - 2], g.last(), now, buffer, mutable) {
            Some(c) => seq![c],
            None => Seq::empty(),
        };
        assert(g.drop_last()[g.len() - 2] == g[g.len() - 2]);
        assert((chain_suggestions(g.take(j), now, buffer, mutable) + w0) + tail =~= chain_suggestions(g.take(j), now, buffer, mutable) + (w0 + tail));
        w0 + tail
    }
}

proof fn lemma_views_push(v: Seq<ReplanSuggestion>, x: ReplanSuggestion)
    ensures
        suggestion_views(v.push(x)) == suggestion_views(v).push(suggestion_view(x)),
{
    assert(suggestion_views(v.push(x)) =~= suggestion_views(v).push(suggestion_view(x)));
}

fn push_chain(
    orders: &Vec<DispatchOrder>,
    g: &Vec<usize>,
    now: i64,
    buffer: i64,
    mutable: Option<&Vec<String>>,
    out: &mut Vec<ReplanSuggestion>,
)
    requires
        positions_valid(orders@, g@),
        intervals_computable(orders@, now),
        0 <= buffer <= 600,
        suggestions_representable(chain_suggestions(at_positions(orders@, g@), now, buffer as int, movable_view(mutable))),
    ensures
        suggestion_views(final(out)@) == suggestion_views(old(out)@) + chain_suggestions(
            at_positions(orders@, g@),
            now,
            buffer as int,
            movable_view(mutable),
        ),
{
    let ghost og = at_positions(orders@, g@);
    let ghost mv = movable_view(mutable);
    let ghost start = suggestion_views(out@);
    if g.len() < 2 {
        assert(start + chain_suggestions(og, now, buffer as int, mv) =~= start);
        return;
    }
    let mut k: usize = 1;
    assert(chain_suggestions(og.take(1), now, buffer as int, mv) =~= Seq::<DelayView>::empty());
    assert(start + Seq::<DelayView>::empty() =~= start);
    while k < g.len()
        invariant
            1 <= k <= g.len(),
            og == at_positions(orders@, g@),
            mv == movable_view(mutable),
            positions_valid(orders@, g@),
            intervals_computable(orders@, now),
            0 <= buffer <= 600,
            suggestions_representable(chain_suggestions(og, now, buffer as int, mv)),
            suggestion_views(out@) == start + chain_suggestions(og.take(k as int), now, buffer as int, mv),
        decreases g.len() - k,
    {
        let a = g[k - 1];
        let b = g[k];
        let ghost part = chain_suggestions(og.take(k as int), now, buffer as int, mv);
        proof {
            let t = og.take(k + 1);
            assert(t.drop_last() =~= og.take(k as int));
            assert(t[t.len() - 2] == orders@[a as int]);
            assert(t.last() == orders@[b as int]);
            let w = lemma_chain_prefix(og, k + 1, now, buffer as int, mv);
            match pair_suggestion(orders@[a as int], orders@[b as int], now, buffer as int, mv) {
                Some(c) => {
                    assert(chain_suggestions(og, now, buffer as int, mv)[part.len() as int] == c);
                },
                None => {},
            }
        }
        match pair_suggestion_exec(&orders[a], &orders[b], now, buffer, mutable) {
            Some(x) => {
                proof {
                    lemma_views_push(out@, x);
                }
                out.push(x);
                assert(suggestion_views(out@) =~= start + (part + seq![suggestion_view(x)]));
            },
            None => {
                assert(part + Seq::<DelayView>::empty() =~= part);
            },
        }
        k += 1;
    }
    assert(og.take(g.len() as int) =~= og);
}


proof fn lemma_all_prefix(
    orders: Seq<DispatchOrder>,
    keys: Seq<ResourceKey>,
    j: int,
    now: i64,
    buffer: int,
    mutable: Option<Seq<Seq<char>>>,
) -> (w: Seq<DelayView>)
    requires
        0 <= j <= keys.len(),
    ensures
        all_suggestions(orders, keys, now, buffer, mutable) == all_suggestions(orders, keys.take(j), now, buffer, mutable) + w,
    decreases keys.len(),
{
    if j == keys.len() {
        assert(keys.take(j) =~= keys);
        assert(all_suggestions(orders, keys, now, buffer, mutable) + Seq::<DelayView>::empty() =~= all_suggestions(orders, keys, now, buffer, mutable));
        Seq::empty()
    } else {
        let w0 = lemma_all_prefix(orders, keys.drop_last(), j, now, buffer, mutable);
        assert(keys.drop_last().take(j) =~= keys.take(j));
        let tail = chain_suggestions(by_start(users_of(orders, keys.last()), now), now, buffer, mutable);
        assert((all_suggestions(orders, keys.take(j), now, buffer, mutable) + w0) + tail =~= all_suggestions(orders, keys.take(j), now, buffer, mutable) + (w0 + tail));
        w0 + tail
    }
}

/// The first suggestion for order `id`.
pub open spec fn order_position(kept: Seq<DelayView>, id: Seq<char>) -> Option<int>
    decreases kept.len(),
{
    if kept.len() == 0 {
        None
    } else {
        match order_position(kept.drop_last(), id) {
            Some(i) => Some(i),
            None => if kept.last().id == id {
                Some(kept.len() - 1)
            } else {
                None
            },
        }
    }
}

/// One suggestion per order, in order of first suggestion: the first of
/// the least delay.
pub open spec fn least_delays(items: Seq<DelayView>) -> Seq<DelayView>
    decreases items.len(),
{
    if items.len() == 0 {
        Seq::empty()
    } else {
        let kept = least_delays(items.drop_last());
        let x = items.last();
        match order_position(kept, x.id) {
            Some(i) => if x.delay < kept[i].delay {
                kept.update(i, x)
            } else {
                kept
            },
            None => kept.push(x),
        }
    }
}

/// Where `x` joins suggestions ordered by delay: before the first with a larger one.
pub open spec fn delay_position(sorted: Seq<DelayView>, x: DelayView) -> int
    decreases sorted.len(),
{
    if sorted.len() == 0 {
        0
    } else if x.delay < sorted[0].delay {
        0
    } else {
        1 + delay_position(sorted.drop_first(), x)
    }
}

/// Suggestions by delay, least first, equal ones in the order given.
pub open spec fn by_delay(items: Seq<DelayView>) -> Seq<DelayView>
    decreases items.len(),
{
    if items.len() == 0 {
        Seq::empty()
    } else {
        let s = by_delay(items.drop_last());
        s.insert(delay_position(s, items.last()), items.last())
    }
}

/// The suggestions of a replan: one per order (its least delay), least
/// delay first, at most `max`.
pub open spec fn replan_result(
    orders: Seq<DispatchOrder>,
    strategy: Seq<char>,
    max: usize,
    mutable: Option<Seq<Seq<char>>>,
    now: i64,
) -> Seq<DelayView> {
    let ranked = by_delay(least_delays(all_suggestions(orders, resources_of(orders), now, replan_buffer(strategy), mutable)));
    if (max as int) < ranked.len() {
        ranked.take(max as int)
    } else {
        ranked
    }
}

proof fn lemma_order_position(kept: Seq<DelayView>, id: Seq<char>)
    ensures
        match order_position(kept, id) {
            Some(i) => 0 <= i < kept.len() && kept[i].id == id && forall|k: int| 0 <= k < i ==> (#[trigger] kept[k]).id != id,
            None => forall|k: int| 0 <= k < kept.len() ==> (#[trigger] kept[k]).id != id,
        },
    decreases kept.len(),
{
    if kept.len() > 0 {
        lemma_order_position(kept.drop_last(), id);
        assert forall|k: int| 0 <= k < kept.len() - 1 implies kept.drop_last()[k] == kept[k] by {}
    }
}

proof fn lemma_delay_position(sorted: Seq<DelayView>, x: DelayView)
    ensures
        0 <= delay_position(sorted, x) <= sorted.len(),
        forall|k: int| 0 <= k < delay_position(sorted, x) ==> !(x.delay < (#[trigger] sorted[k]).delay),
        delay_position(sorted, x) < sorted.len() ==> x.delay < sorted[delay_position(sorted, x)].delay,
    decreases sorted.len(),
{
    if sorted.len() > 0 && !(x.delay < sorted[0].delay) {
        let t = sorted.drop_first();
        lemma_delay_position(t, x);
        assert forall|k: int| 0 <= k < delay_position(sorted, x) implies !(x.delay < (#[trigger] sorted[k]).delay) by {
            if k > 0 {
                assert(sorted[k] == t[k - 1]);
            }
        }
        if delay_position(sorted, x) < sorted.len() {
            assert(sorted[delay_position(sorted, x)] == t[delay_position(t, x)]);
        }
    }
}

fn copy_suggestion(s: &ReplanSuggestion) -> (r: ReplanSuggestion)
    ensures
        suggestion_view(r) == suggestion_view(*s),
{
    ReplanSuggestion {
        dispatch_order_id: s.dispatch_order_id.clone(),
        related_dispatch_order_id: s.related_dispatch_order_id.clone(),
        flight_id: s.flight_id.clone(),
        original_start_time: s.original_start_time,
        original_end_time: s.original_end_time,
        suggested_start: s.suggested_start,
        suggested_end: s.suggested_end,
        delay_seconds: s.delay_seconds,
    }
}

fn keep_least_delays(items: &Vec<ReplanSuggestion>) -> (r: Vec<ReplanSuggestion>)
    ensures
        suggestion_views(r@) == least_delays(suggestion_views(items@)),
{
    let mut kept: Vec<ReplanSuggestion> = Vec::new();
    let mut i: usize = 0;
    assert(suggestion_views(kept@) =~= least_delays(suggestion_views(items@).take(0)));
    while i < items.len()
        invariant
            i <= items.len(),
            suggestion_views(kept@) == least_delays(suggestion_views(items@).take(i as int)),
        decreases items.len() - i,
    {
        let x = &items[i];
        let ghost vs = suggestion_views(items@);
        let ghost kv = suggestion_views(kept@);
        proof {
            assert(vs.take(i + 1).drop_last() =~= vs.take(i as int));
            assert(vs.take(i + 1).last() == suggestion_view(*x));
            lemma_order_position(kv, x.dispatch_order_id@);
        }
        let mut j: usize = 0;
        let mut found = false;
        while j < kept.len()
            invariant_except_break
                !found,
            invariant
                j <= kept.len(),
                kv == suggestion_views(kept@),
                forall|k: int| 0 <= k < j ==> (#[trigger] kv[k]).id != x.dispatch_order_id@,
            ensures
                found ==> j < kept.len() && kv[j as int].id == x.dispatch_order_id@,
                !found ==> j == kept.len(),
            decreases kept.len() - j,
        {
            assert(kv[j as int] == suggestion_view(kept@[j as int]));
            if text_eq(kept[j].dispatch_order_id.as_str(), x.dispatch_order_id.as_str()) {
                found = true;
                break;
            }
            j += 1;
        }
        if found {
            assert(order_position(kv, x.dispatch_order_id@) == Some(j as int));
            assert(kv[j as int] == suggestion_view(kept@[j as int]));
            if x.delay_seconds < kept[j].delay_seconds {
                let c = copy_suggestion(x);
                kept.set(j, c);
                assert(suggestion_views(kept@) =~= kv.update(j as int, suggestion_view(*x)));
            }
        } else {
            assert(order_position(kv, x.dispatch_order_id@) is None);
            let c = copy_suggestion(x);
            proof {
                lemma_views_push(kept@, c);
            }
            kept.push(c);
        }
        i += 1;
    }
    assert(suggestion_views(items@).take(items.len() as int) =~= suggestion_views(items@));
    kept
}

fn sort_by_delay(items: &Vec<ReplanSuggestion>) -> (r: Vec<ReplanSuggestion>)
    ensures
        suggestion_views(r@) == by_delay(suggestion_views(items@)),
{
    let mut sorted: Vec<ReplanSuggestion> = Vec::new();
    let mut i: usize = 0;
    assert(suggestion_views(sorted@) =~= by_delay(suggestion_views(items@).take(0)));
    while i < items.len()
        invariant
            i <= items.len(),
            suggestion_views(sorted@) == by_delay(suggestion_views(items@).take(i as int)),
        decreases items.len() - i,
    {
        let x = &items[i];
        let ghost vs = suggestion_views(items@);
        let ghost sv = suggestion_views(sorted@);
        proof {
            assert(vs.take(i + 1).drop_last() =~= vs.take(i as int));
            assert(vs.take(i + 1).last() == suggestion_view(*x));
            lemma_delay_position(sv, suggestion_view(*x));
        }
        let mut p: usize = 0;
        while p < sorted.len()
            invariant
                p <= sorted.len(),
                sv == suggestion_views(sorted@),
                forall|k: int| 0 <= k < p ==> !(x.delay_seconds < (#[trigger] sv[k]).delay),
            ensures
                p <= sorted.len(),
                forall|k: int| 0 <= k < p ==> !(x.delay_seconds < (#[trigger] sv[k]).delay),
                p < sorted.len() ==> x.delay_seconds < sv[p as int].delay,
            decreases sorted.len() - p,
        {
            assert(sv[p as int] == suggestion_view(sorted@[p as int]));
            if x.delay_seconds < sorted[p].delay_seconds {
                break;
            }
            p += 1;
        }
        assert(p as int == delay_position(sv, suggestion_view(*x))) by {
            let q = delay_position(sv, suggestion_view(*x));
            if q < p {
                assert(!(x.delay_seconds < sv[q].delay));
            }
        }
        let c = copy_suggestion(x);
        let ghost cv = suggestion_view(c);
        let ghost before = sorted@;
        sorted.insert(p, c);
        assert(suggestion_views(sorted@) =~= sv.insert(p as int, cv)) by {
            assert(sorted@ =~= before.insert(p as int, sorted@[p as int]));
        }
        i += 1;
    }
    assert(suggestion_views(items@).take(items.len() as int) =~= suggestion_views(items@));
    sorted
}

fn buffer_seconds(strategy: &str) -> (r: i64)
    ensures
        r == replan_buffer(strategy@),
        0 <= r <= 600,
{
    if text_eq(strategy, "stability") {
        600
    } else if text_eq(strategy, "efficiency") {
        0
    } else {
        300
    }
}

impl DispatchService {
    /// The suggestions of a replan of `orders` under `strategy` at `now`:
    /// for each person and stand (in order of first mention), its orders by
    /// start; where one starts before the previous one ends plus the
    /// strategy's buffer, the later one (if it may move, else the earlier
    /// one) is delayed; each order keeps its least delay, least delays
    /// first, at most `max_suggestions`. The impact score the service
    /// reports grows with the delay, so this is also the order by score.
    pub fn replan_suggestions(
        orders: &Vec<DispatchOrder>,
        strategy: &str,
        max_suggestions: usize,
        mutable_order_ids: Option<&Vec<String>>,
        now: i64,
    ) -> (r: Vec<ReplanSuggestion>)
        requires
            intervals_computable(orders@, now),
            suggestions_representable(
                all_suggestions(orders@, resources_of(orders@), now, replan_buffer(strategy@), movable_view(mutable_order_ids)),
            ),
        ensures
            suggestion_views(r@) == replan_result(orders@, strategy@, max_suggestions, movable_view(mutable_order_ids), now),
    {
        let buffer = buffer_seconds(strategy);
        let ghost mv = movable_view(mutable_order_ids);
        let keys = resource_keys(orders);
        let ghost ks = key_views(keys@);
        let mut found: Vec<ReplanSuggestion> = Vec::new();
        let mut k: usize = 0;
        assert(suggestion_views(found@) =~= all_suggestions(orders@, ks.take(0), now, buffer as int, mv));
        while k < keys.len()
            invariant
                k <= keys.len(),
                ks == key_views(keys@),
                ks == resources_of(orders@),
                mv == movable_view(mutable_order_ids),
                buffer == replan_buffer(strategy@),
                0 <= buffer <= 600,
                intervals_computable(orders@, now),
                suggestions_representable(all_suggestions(orders@, ks, now, buffer as int, mv)),
                suggestion_views(found@) == all_suggestions(orders@, ks.take(k as int), now, buffer as int, mv),
            decreases keys.len() - k,
        {
            let group = group_positions(orders, &keys[k]);
            let sorted = sort_positions_by_start(orders, &group, now);
            let ghost chain = chain_suggestions(at_positions(orders@, sorted@), now, buffer as int, mv);
            let ghost before = suggestion_views(found@);
            proof {
                assert(ks.take(k + 1).drop_last() =~= ks.take(k as int));
                assert(ks.take(k + 1).last() == key_view(keys@[k as int]));
                let w = lemma_all_prefix(orders@, ks, k + 1, now, buffer as int, mv);
                let whole = all_suggestions(orders@, ks, now, buffer as int, mv);
                assert forall|m: int| 0 <= m < chain.len() implies is_instant((#[trigger] chain[m]).start) && is_instant(chain[m].end) by {
                    assert(whole[before.len() + m] == chain[m]);
                }
            }
            push_chain(orders, &sorted, now, buffer, mutable_order_ids, &mut found);
            k += 1;
        }
        assert(ks.take(keys.len() as int) =~= ks);
        let kept = keep_least_delays(&found);
        let mut ranked = sort_by_delay(&kept);
        if max_suggestions < ranked.len() {
            ranked.truncate(max_suggestions);
            assert(suggestion_views(ranked@) =~= by_delay(least_delays(suggestion_views(found@))).take(max_suggestions as int));
        }
        ranked
    }
}


/// The summary of a replan's suggestions.
pub struct ReplanSummary {
    /// The flights of the suggested orders, sorted, each once.
    pub affected_flight_ids: Vec<String>,
    /// The suggested orders, sorted, each once.
    pub changed_orders: Vec<String>,
    /// Suggestions that start their order later than it was planned to.
    pub delayed_orders: usize,
    /// The minutes those suggestions add, each rounded.
    pub added_delay_minutes: i128,
    pub risk_level: &'static str,
    pub requires_manual_confirmation: bool,
}

/// Whether a suggestion starts its order later than planned, comparing
/// the times as written out.
pub open spec fn starts_later(v: DelayView) -> bool {
    match v.original_start {
        Some(t) => seq_lt(rfc3339_utc_text(t as int), rfc3339_utc_text(v.start)),
        None => false,
    }
}

/// A delay in minutes, rounded half up.
pub open spec fn lateness_minutes(v: DelayView) -> int {
    (v.delay + 30) / 60
}

/// How many suggestions start their order later than planned.
pub open spec fn delayed_count(vs: Seq<DelayView>) -> nat
    decreases vs.len(),
{
    if vs.len() == 0 {
        0
    } else {
        delayed_count(vs.drop_last()) + if starts_later(vs.last()) {
            1nat
        } else {
            0nat
        }
    }
}

/// The minutes the later-starting suggestions add.
pub open spec fn added_minutes(vs: Seq<DelayView>) -> int
    decreases vs.len(),
{
    if vs.len() == 0 {
        0
    } else {
        added_minutes(vs.drop_last()) + if starts_later(vs.last()) {
            lateness_minutes(vs.last())
        } else {
            0
        }
    }
}

/// The risk of a replan by the minutes it adds: critical from an hour,
/// high from half an hour, medium for any, low for none.
pub open spec fn risk_text(added: int) -> Seq<char> {
    if added >= 60 {
        "critical"@
    } else if added >= 30 {
        "high"@
    } else if added > 0 {
        "medium"@
    } else {
        "low"@
    }
}

/// Whether every time a suggestion writes out is a representable instant.
pub open spec fn summary_times_representable(vs: Seq<DelayView>) -> bool {
    forall|i: int| 0 <= i < vs.len() ==> is_instant((#[trigger] vs[i]).start) && is_instant(vs[i].end)
        && 0 <= vs[i].delay <= is_instant_span() && (vs[i].original_start matches Some(t) ==> is_instant(t as int))
}

/// The longest span between two representable instants.
pub open spec fn is_instant_span() -> int {
    crate::model::MAX_TIMESTAMP - crate::model::MIN_TIMESTAMP
}

impl DispatchService {
    /// The summary of a replan's suggestions: the flights and orders they
    /// touch, how many start their order later than planned and by how many
    /// minutes in all, the risk that total means, and whether someone must
    /// confirm (any suggestion resolves a conflict of assigned orders, so
    /// whenever there is one).
    pub fn summarize_replan_suggestions(suggestions: &Vec<ReplanSuggestion>) -> (r: ReplanSummary)
        requires
            summary_times_representable(suggestion_views(suggestions@)),
        ensures
            crate::idset::sorted_ids(r.affected_flight_ids@),
            forall|y: Seq<char>| crate::idset::has_id(r.affected_flight_ids@, y) <==> exists|k: int| 0 <= k < suggestions@.len() && (#[trigger] suggestions@[k]).flight_id@ == y,
            crate::idset::sorted_ids(r.changed_orders@),
            forall|y: Seq<char>| crate::idset::has_id(r.changed_orders@, y) <==> exists|k: int| 0 <= k < suggestions@.len() && (#[trigger] suggestions@[k]).dispatch_order_id@ == y && y.len() > 0,
            r.delayed_orders == delayed_count(suggestion_views(suggestions@)),
            r.added_delay_minutes == added_minutes(suggestion_views(suggestions@)),
            r.risk_level@ == risk_text(added_minutes(suggestion_views(suggestions@))),
            r.added_delay_minutes >= 60 ==> r.risk_level@ == "critical"@,
            30 <= r.added_delay_minutes < 60 ==> r.risk_level@ == "high"@,
            0 < r.added_delay_minutes < 30 ==> r.risk_level@ == "medium"@,
            r.added_delay_minutes <= 0 ==> r.risk_level@ == "low"@,
            r.requires_manual_confirmation == (suggestions@.len() > 0),
    {
        let ghost vs = suggestion_views(suggestions@);
        let mut flights: Vec<String> = Vec::new();
        let mut changed: Vec<String> = Vec::new();
        let mut delayed: usize = 0;
        let mut added: i128 = 0;
        let mut i: usize = 0;
        while i < suggestions.len()
            invariant
                i <= suggestions.len(),
                vs == suggestion_views(suggestions@),
                summary_times_representable(vs),
                crate::idset::sorted_ids(flights@),
                forall|y: Seq<char>| crate::idset::has_id(flights@, y) <==> exists|k: int| 0 <= k < i && (#[trigger] suggestions@[k]).flight_id@ == y,
                crate::idset::sorted_ids(changed@),
                forall|y: Seq<char>| crate::idset::has_id(changed@, y) <==> exists|k: int| 0 <= k < i && (#[trigger] suggestions@[k]).dispatch_order_id@ == y && y.len() > 0,
                delayed == delayed_count(vs.take(i as int)),
                added == added_minutes(vs.take(i as int)),
                delayed <= i,
                0 <= added <= i * 275747803200,
            decreases suggestions.len() - i,
        {
            let s = &suggestions[i];
            proof {
                assert(vs.take(i + 1).drop_last() =~= vs.take(i as int));
                assert(vs.take(i + 1).last() == suggestion_view(*s));
                assert(vs[i as int] == suggestion_view(*s));
            }
            crate::idset::insert_sorted(&mut flights, s.flight_id.clone());
            if s.dispatch_order_id.unicode_len() > 0 {
                crate::idset::insert_sorted(&mut changed, s.dispatch_order_id.clone());
            }
            assert forall|y: Seq<char>| crate::idset::has_id(flights@, y) <==> exists|k: int| 0 <= k < i + 1 && (#[trigger] suggestions@[k]).flight_id@ == y by {
                if y == s.flight_id@ {
                    assert(suggestions@[i as int].flight_id@ == y);
                }
            }
            assert forall|y: Seq<char>| crate::idset::has_id(changed@, y) <==> exists|k: int| 0 <= k < i + 1 && (#[trigger] suggestions@[k]).dispatch_order_id@ == y && y.len() > 0 by {
                if y == s.dispatch_order_id@ && y.len() > 0 {
                    assert(suggestions@[i as int].dispatch_order_id@ == y);
                }
            }
            let later = match s.original_start_time {
                Some(t) => {
                    let original = crate::flight_context::instant_json_text(t);
                    let suggested = crate::flight_context::instant_json_text(s.suggested_start);
                    crate::idset::text_lt(original.as_str(), suggested.as_str())
                },
                None => false,
            };
            if later {
                delayed += 1;
                let minutes: i128 = (s.delay_seconds as i128 + 30) / 60;
                assert(minutes <= 275747803200);
                added = added + minutes;
            }
            i += 1;
        }
        assert(vs.take(suggestions.len() as int) =~= vs);
        let risk: &'static str = if added >= 60 {
            "critical"
        } else if added >= 30 {
            "high"
        } else if added > 0 {
            "medium"
        } else {
            "low"
        };
        ReplanSummary {
            affected_flight_ids: flights,
            changed_orders: changed,
            delayed_orders: delayed,
            added_delay_minutes: added,
            risk_level: risk,
            requires_manual_confirmation: suggestions.len() > 0,
        }
    }
}


proof fn lemma_by_delay_sorted(items: Seq<DelayView>)
    ensures
        forall|i: int, j: int| 0 <= i < j < by_delay(items).len() ==> (#[trigger] by_delay(items)[i]).delay <= (#[trigger] by_delay(items)[j]).delay,
    decreases items.len(),
{
    if items.len() > 0 {
        let t = by_delay(items.drop_last());
        let x = items.last();
        lemma_by_delay_sorted(items.drop_last());
        lemma_delay_position(t, x);
        let p = delay_position(t, x);
        let r = t.insert(p, x);
        assert(r == by_delay(items));
        assert forall|i: int, j: int| 0 <= i < j < r.len() implies (#[trigger] r[i]).delay <= (#[trigger] r[j]).delay by {
            if j < p {
                assert(r[i] == t[i] && r[j] == t[j]);
            } else if j == p {
                assert(r[i] == t[i]);
            } else if i == p {
                assert(r[j] == t[j - 1]);
                assert(t[p].delay <= t[j - 1].delay || j - 1 == p);
            } else if i < p {
                assert(r[i] == t[i] && r[j] == t[j - 1]);
            } else {
                assert(r[i] == t[i - 1] && r[j] == t[j - 1]);
            }
        }
    }
}

/// The suggestions of a replan come least delay first.
pub proof fn law_replan_least_delay_first(
    orders: Seq<DispatchOrder>,
    strategy: Seq<char>,
    max: usize,
    mutable: Option<Seq<Seq<char>>>,
    now: i64,
)
    ensures
        forall|i: int, j: int| 0 <= i < j < replan_result(orders, strategy, max, mutable, now).len()
            ==> (#[trigger] replan_result(orders, strategy, max, mutable, now)[i]).delay
                <= (#[trigger] replan_result(orders, strategy, max, mutable, now)[j]).delay,
{
    let ranked = by_delay(least_delays(all_suggestions(orders, resources_of(orders), now, replan_buffer(strategy), mutable)));
    lemma_by_delay_sorted(least_delays(all_suggestions(orders, resources_of(orders), now, replan_buffer(strategy), mutable)));
    let r = replan_result(orders, strategy, max, mutable, now);
    assert forall|i: int, j: int| 0 <= i < j < r.len() implies (#[trigger] r[i]).delay <= (#[trigger] r[j]).delay by {
        assert(r[i] == ranked[i] && r[j] == ranked[j]);
    }
}

proof fn lemma_least_delays_distinct(items: Seq<DelayView>)
    ensures
        forall|i: int, j: int| 0 <= i < j < least_delays(items).len() ==> (#[trigger] least_delays(items)[i]).id != (#[trigger] least_delays(items)[j]).id,
    decreases items.len(),
{
    if items.len() > 0 {
        let kept = least_delays(items.drop_last());
        lemma_least_delays_distinct(items.drop_last());
        lemma_order_position(kept, items.last().id);
    }
}

proof fn lemma_by_delay_multiset(items: Seq<DelayView>)
    ensures
        by_delay(items).to_multiset() == items.to_multiset(),
    decreases items.len(),
{
    broadcast use vstd::seq_lib::group_to_multiset_ensures;
    if items.len() > 0 {
        lemma_by_delay_multiset(items.drop_last());
        lemma_delay_position(by_delay(items.drop_last()), items.last());
        assert(items =~= items.drop_last().push(items.last()));
    }
}

/// A replan suggests at most one move per order.
pub proof fn law_replan_moves_each_order_once(
    orders: Seq<DispatchOrder>,
    strategy: Seq<char>,
    max: usize,
    mutable: Option<Seq<Seq<char>>>,
    now: i64,
)
    ensures
        forall|i: int, j: int| 0 <= i < j < replan_result(orders, strategy, max, mutable, now).len()
            ==> (#[trigger] replan_result(orders, strategy, max, mutable, now)[i]).id
                != (#[trigger] replan_result(orders, strategy, max, mutable, now)[j]).id,
{
    broadcast use vstd::seq_lib::group_to_multiset_ensures;
    let kept = least_delays(all_suggestions(orders, resources_of(orders), now, replan_buffer(strategy), mutable));
    let ranked = by_delay(kept);
    lemma_least_delays_distinct(all_suggestions(orders, resources_of(orders), now, replan_buffer(strategy), mutable));
    lemma_by_delay_multiset(kept);
    let r = replan_result(orders, strategy, max, mutable, now);
    assert forall|i: int, j: int| 0 <= i < j < r.len() implies (#[trigger] r[i]).id != (#[trigger] r[j]).id by {
        assert(r[i] == ranked[i] && r[j] == ranked[j]);
        assert(ranked.to_multiset().count(ranked[i]) > 0);
        assert(ranked.to_multiset().count(ranked[j]) > 0);
        assert(kept.contains(ranked[i]));
        assert(kept.contains(ranked[j]));
        let a = choose|a: int| 0 <= a < kept.len() && kept[a] == ranked[i];
        let b = choose|b: int| 0 <= b < kept.len() && kept[b] == ranked[j];
        if ranked[i].id == ranked[j].id {
            assert(a == b);
            assert(ranked[i] == ranked[j]);
            assert(ranked.to_multiset().count(ranked[i]) >= 2) by {
                assert(ranked =~= ranked.take(j).push(ranked[j]) + ranked.skip(j + 1));
                assert(ranked.take(j) =~= ranked.take(i).push(ranked[i]) + ranked.take(j).skip(i + 1));
                vstd::seq_lib::lemma_multiset_commutative(ranked.take(j).push(ranked[j]), ranked.skip(j + 1));
                vstd::seq_lib::lemma_multiset_commutative(ranked.take(i).push(ranked[i]), ranked.take(j).skip(i + 1));
            }
            assert(kept.to_multiset().count(ranked[i]) >= 2);
            assert(kept.remove(a).contains(ranked[i])) by {
                assert(kept.remove(a).to_multiset().count(ranked[i]) > 0);
            }
            let c = choose|c: int| 0 <= c < kept.remove(a).len() && kept.remove(a)[c] == ranked[i];
            if c < a {
                assert(kept[c] == ranked[i]);
            } else {
                assert(kept[c + 1] == ranked[i]);
            }
        }
    }
}

impl DispatchService {
    /// The checks of a replan request: the window must end after it starts;
    /// the number of suggestions asked for (twenty when not given) is kept
    /// within one to five hundred.
    pub fn replan_request_limit(window_start: i64, window_end: i64, max_suggestions: Option<i64>) -> (r: Result<
        usize,
        DispatchError,
    >)
        ensures
            window_end <= window_start ==> (r matches Err(DispatchError::ValidationError(m)) && m@
                == "window_end 必须晚于 window_start"@),
            window_end > window_start ==> (r matches Ok(n) && n == ({
                let asked = match max_suggestions {
                    Some(x) => x as int,
                    None => 20,
                };
                if asked < 1 {
                    1
                } else if asked > 500 {
                    500
                } else {
                    asked
                }
            })),
    {
        if window_end <= window_start {
            proof {
                reveal_strlit("window_end 必须晚于 window_start");
            }
            return Err(DispatchError::ValidationError("window_end 必须晚于 window_start".to_string()));
        }
        let asked: i64 = match max_suggestions {
            Some(x) => x,
            None => 20,
        };
        let n: i64 = if asked < 1 {
            1
        } else if asked > 500 {
            500
        } else {
            asked
        };
        Ok(n as usize)
    }
}

/// The risk of a replan follows the minutes of delay it adds: critical from
/// sixty minutes on, high from thirty to under sixty, medium for any fewer
/// positive minutes, and low for none.
pub proof fn law_replan_risk_follows_added_delay(added: int)
    ensures
        added >= 60 ==> risk_text(added) == "critical"@,
        30 <= added < 60 ==> risk_text(added) == "high"@,
        0 < added < 30 ==> risk_text(added) == "medium"@,
        added <= 0 ==> risk_text(added) == "low"@,
{
}

} // verus!
