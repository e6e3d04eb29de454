//! Bookings made while one batch of draft orders is published: no person
//! and no piece of equipment may serve two orders of the batch whose
//! planned windows meet.

use vstd::prelude::*;
use crate::model::DispatchError;
use crate::publication::DraftMember;
use crate::rules::string_views;
use crate::text::{concat_views, join_texts, text_eq, trim, trimmed};

verus! {

/// One booking of a person or a piece of equipment by an order of the batch.
pub struct BatchBooking {
    pub resource: String,
    pub start: i64,
    pub end: i64,
    pub order_id: String,
}

/// A booking by its resource, window and order.
pub open spec fn booking_view(b: BatchBooking) -> (Seq<char>, i64, i64, Seq<char>) {
    (b.resource@, b.start, b.end, b.order_id@)
}

/// Bookings by their views.
pub open spec fn bookings_view(bs: Seq<BatchBooking>) -> Seq<(Seq<char>, i64, i64, Seq<char>)> {
    bs.map_values(|b: BatchBooking| booking_view(b))
}

/// Whether booking `b` holds `resource` over a window that meets `[start, end)`.
pub open spec fn meets(b: (Seq<char>, i64, i64, Seq<char>), resource: Seq<char>, start: i64, end: i64) -> bool {
    b.0 == resource && start < b.2 && b.1 < end
}

/// The first booking of `bs` that holds `resource` over a window meeting
/// `[start, end)`.
pub open spec fn first_clash(bs: Seq<(Seq<char>, i64, i64, Seq<char>)>, resource: Seq<char>, start: i64, end: i64) -> Option<
    (Seq<char>, i64, i64, Seq<char>),
>
    decreases bs.len(),
{
    if bs.len() == 0 {
        None
    } else if meets(bs[0], resource, start, end) {
        Some(bs[0])
    } else {
        first_clash(bs.drop_first(), resource, start, end)
    }
}

/// Books each of `resources` in turn for `order` over `[start, end)`: the
/// bookings afterwards, and the first clash met as the conflicting order
/// and the resource, where one stopped the booking.
pub open spec fn reserve(
    bs: Seq<(Seq<char>, i64, i64, Seq<char>)>,
    resources: Seq<Seq<char>>,
    order: Seq<char>,
    start: i64,
    end: i64,
) -> (Seq<(Seq<char>, i64, i64, Seq<char>)>, Option<(Seq<char>, Seq<char>)>)
    decreases resources.len(),
{
    if resources.len() == 0 {
        (bs, None)
    } else {
        match first_clash(bs, resources[0], start, end) {
            Some(c) => (bs, Some((c.3, resources[0]))),
            None => reserve(bs.push((resources[0], start, end, order)), resources.drop_first(), order, start, end),
        }
    }
}

/// Whether no two bookings hold the same resource over windows that meet.
pub open spec fn no_double_booking(bs: Seq<(Seq<char>, i64, i64, Seq<char>)>) -> bool {
    forall|i: int, j: int|
        0 <= i < j < bs.len() ==> !meets(#[trigger] bs[i], (#[trigger] bs[j]).0, bs[j].1, bs[j].2)
}

/// The orders named, and the people and the equipment booked, so far in a batch.
pub struct BatchReservations {
    pub seen_order_ids: Vec<String>,
    pub people: Vec<BatchBooking>,
    pub equipment: Vec<BatchBooking>,
}

/// The message of a clash between two orders of the batch over a resource
/// of the kind `kind`.
pub open spec fn clash_message(order: Seq<char>, other: Seq<char>, kind: Seq<char>, resource: Seq<char>) -> Seq<char> {
    "批量发布中的派工单 "@ + order + " 与 "@ + other + " 重复占用"@ + kind + " "@ + resource
}

/// Whether `r` reports the clash `c` of `order` over a resource of the kind `kind`.
pub open spec fn reports_clash(r: Result<(), DispatchError>, c: Option<(Seq<char>, Seq<char>)>, order: Seq<char>, kind: Seq<char>) -> bool {
    match c {
        None => r is Ok,
        Some((other, resource)) => r matches Err(DispatchError::BusinessRuleViolation(m)) && m@ == clash_message(
            order,
            other,
            kind,
            resource,
        ),
    }
}

fn find_clash(bs: &Vec<BatchBooking>, resource: &str, start: i64, end: i64) -> (r: Option<usize>)
    ensures
        match r {
            Some(k) => k < bs@.len() && first_clash(bookings_view(bs@), resource@, start, end) == Some(
                booking_view(bs@[k as int]),
            ),
            None => first_clash(bookings_view(bs@), resource@, start, end) is None,
        },
{
    let ghost v = bookings_view(bs@);
    let mut i: usize = 0;
    assert(v.skip(0) =~= v);
    while i < bs.len()
        invariant
            i <= bs@.len(),
            v == bookings_view(bs@),
            v.len() == bs@.len(),
            first_clash(v, resource@, start, end) == first_clash(v.skip(i as int), resource@, start, end),
        decreases bs@.len() - i,
    {
        proof {
            assert(v.skip(i as int).drop_first() =~= v.skip(i + 1));
            assert(v.skip(i as int)[0] == v[i as int]);
            assert(v[i as int] == booking_view(bs@[i as int]));
        }
        if text_eq(bs[i].resource.as_str(), resource) && start < bs[i].end && bs[i].start < end {
            return Some(i);
        }
        i = i + 1;
    }
    assert(v.skip(i as int).len() == 0);
    None
}

fn reserve_all(bs: &mut Vec<BatchBooking>, resources: &Vec<String>, order_id: &str, start: i64, end: i64) -> (r: Option<(String, String)>)
    ensures
        reserve(bookings_view(old(bs)@), resources@.map_values(|s: String| s@), order_id@, start, end) == (
            bookings_view(final(bs)@),
            match r {
                Some((other, resource)) => Some((other@, resource@)),
                None => None,
            },
        ),
{
    let ghost items = resources@.map_values(|s: String| s@);
    let ghost whole = reserve(bookings_view(bs@), items, order_id@, start, end);
    let mut i: usize = 0;
    assert(items.skip(0) =~= items);
    while i < resources.len()
        invariant
            i <= resources@.len(),
            items == resources@.map_values(|s: String| s@),
            whole == reserve(bookings_view(old(bs)@), items, order_id@, start, end),
            whole == reserve(bookings_view(bs@), items.skip(i as int), order_id@, start, end),
        decreases resources@.len() - i,
    {
        proof {
            assert(items.skip(i as int).drop_first() =~= items.skip(i + 1));
            assert(items.skip(i as int)[0] == resources@[i as int]@);
        }
        let resource = resources[i].as_str();
        match find_clash(bs, resource, start, end) {
            Some(k) => {
                let other = bs[k].order_id.clone();
                return Some((other, resources[i].clone()));
            },
            None => {
                let ghost before = bookings_view(bs@);
                bs.push(BatchBooking { resource: resources[i].clone(), start, end, order_id: String::from_str(order_id) });
                assert(bookings_view(bs@) =~= before.push((resource@, start, end, order_id@)));
            },
        }
        i = i + 1;
    }
    assert(items.skip(i as int).len() == 0);
    None
}

/// The people of a draft's members, in order.
pub open spec fn member_users(ms: Seq<DraftMember>) -> Seq<Seq<char>> {
    ms.map_values(|m: DraftMember| m.user_id@)
}

/// The resources of `resources`, by their characters.
pub open spec fn resource_views(resources: Seq<String>) -> Seq<Seq<char>> {
    resources.map_values(|s: String| s@)
}

fn clash_error(order_id: &str, other: &String, kind: &str, resource: &String) -> (r: DispatchError)
    ensures
        r matches DispatchError::BusinessRuleViolation(m) && m@ == clash_message(order_id@, other@, kind@, resource@),
{
    let o = other.as_str();
    let x = resource.as_str();
    let m = join_texts(&["批量发布中的派工单 ", order_id, " 与 ", o, " 重复占用", kind, " ", x]);
    assert(concat_views(seq!["批量发布中的派工单 ", order_id, " 与 ", o, " 重复占用", kind, " ", x]) =~= clash_message(order_id@, other@, kind@, resource@)) by {
        reveal_with_fuel(concat_views, 9);
    }
    DispatchError::BusinessRuleViolation(m)
}

impl BatchReservations {
    /// No bookings yet.
    pub fn new() -> (r: Self)
        ensures
            r.seen_order_ids@.len() == 0,
            r.people@.len() == 0,
            r.equipment@.len() == 0,
    {
        BatchReservations { seen_order_ids: Vec::new(), people: Vec::new(), equipment: Vec::new() }
    }

    /// Books the members of order `order_id` over `[start, end)`, in turn;
    /// the first member already booked by an order of the batch over a
    /// window that meets it stops the booking and is reported.
    pub fn reserve_people(&mut self, order_id: &str, start: i64, end: i64, members: &Vec<DraftMember>) -> (r: Result<
        (),
        DispatchError,
    >)
        ensures
            bookings_view(final(self).people@) == reserve(
                bookings_view(old(self).people@),
                member_users(members@),
                order_id@,
                start,
                end,
            ).0,
            final(self).equipment@ == old(self).equipment@,
            final(self).seen_order_ids@ == old(self).seen_order_ids@,
            reports_clash(
                r,
                reserve(bookings_view(old(self).people@), member_users(members@), order_id@, start, end).1,
                order_id@,
                "人员"@,
            ),
    {
        let mut users: Vec<String> = Vec::new();
        let mut i: usize = 0;
        while i < members.len()
            invariant
                i <= members@.len(),
                resource_views(users@) == member_users(members@).take(i as int),
            decreases members@.len() - i,
        {
            let u = members[i].user_id.clone();
            let ghost before = users@;
            users.push(u);
            assert(users@ == before.push(u));
            assert(resource_views(users@) =~= resource_views(before).push(u@));
            assert(member_users(members@).take(i + 1) =~= member_users(members@).take(i as int).push(
                members@[i as int].user_id@,
            ));
            i = i + 1;
        }
        assert(member_users(members@).take(i as int) =~= member_users(members@));
        match reserve_all(&mut self.people, &users, order_id, start, end) {
            None => Ok(()),
            Some((other, resource)) => Err(clash_error(order_id, &other, "人员", &resource)),
        }
    }

    /// Books the equipment of order `order_id` over `[start, end)`, in
    /// turn; the first piece already booked by an order of the batch over a
    /// window that meets it stops the booking and is reported.
    pub fn reserve_equipment(&mut self, order_id: &str, start: i64, end: i64, equipment_ids: &Vec<String>) -> (r: Result<
        (),
        DispatchError,
    >)
        ensures
            bookings_view(final(self).equipment@) == reserve(
                bookings_view(old(self).equipment@),
                resource_views(equipment_ids@),
                order_id@,
                start,
                end,
            ).0,
            final(self).people@ == old(self).people@,
            final(self).seen_order_ids@ == old(self).seen_order_ids@,
            reports_clash(
                r,
                reserve(bookings_view(old(self).equipment@), resource_views(equipment_ids@), order_id@, start, end).1,
                order_id@,
                "设备"@,
            ),
    {
        match reserve_all(&mut self.equipment, equipment_ids, order_id, start, end) {
            None => Ok(()),
            Some((other, resource)) => Err(clash_error(order_id, &other, "设备", &resource)),
        }
    }
}

proof fn lemma_no_clash_meets_none(bs: Seq<(Seq<char>, i64, i64, Seq<char>)>, resource: Seq<char>, start: i64, end: i64)
    requires
        first_clash(bs, resource, start, end) is None,
    ensures
        forall|k: int| 0 <= k < bs.len() ==> !meets(#[trigger] bs[k], resource, start, end),
    decreases bs.len(),
{
    if bs.len() > 0 {
        lemma_no_clash_meets_none(bs.drop_first(), resource, start, end);
        assert forall|k: int| 0 <= k < bs.len() implies !meets(#[trigger] bs[k], resource, start, end) by {
            if k > 0 {
                assert(bs[k] == bs.drop_first()[k - 1]);
            }
        }
    }
}

/// A batch never books one person or one piece of equipment for two orders
/// whose windows meet: booking a further order keeps the bookings free of
/// double bookings.
pub proof fn law_batch_never_double_books(
    bs: Seq<(Seq<char>, i64, i64, Seq<char>)>,
    resources: Seq<Seq<char>>,
    order: Seq<char>,
    start: i64,
    end: i64,
)
    requires
        no_double_booking(bs),
    ensures
        no_double_booking(reserve(bs, resources, order, start, end).0),
    decreases resources.len(),
{
    if resources.len() > 0 {
        if first_clash(bs, resources[0], start, end) is None {
            let x = (resources[0], start, end, order);
            let next = bs.push(x);
            lemma_no_clash_meets_none(bs, resources[0], start, end);
            assert forall|i: int, j: int| 0 <= i < j < next.len() implies !meets(
                #[trigger] next[i],
                (#[trigger] next[j]).0,
                next[j].1,
                next[j].2,
            ) by {
                if j < bs.len() {
                    assert(next[i] == bs[i] && next[j] == bs[j]);
                } else {
                    assert(next[i] == bs[i] && next[j] == x);
                }
            }
            law_batch_never_double_books(next, resources.drop_first(), order, start, end);
        }
    }
}

/// The order a batch item names: its `order_id` trimmed, or the empty text.
pub open spec fn item_order_id(raw: Option<&str>) -> Seq<char> {
    match raw {
        Some(x) => trimmed(x@),
        None => Seq::empty(),
    }
}

impl BatchReservations {
    /// Admits the order a batch item names: a missing or blank `order_id`
    /// is refused, so is an order the batch already named; an admitted
    /// order is remembered.
    pub fn admit_order_id(&mut self, raw: Option<&str>) -> (r: Result<String, DispatchError>)
        ensures
            final(self).people@ == old(self).people@,
            final(self).equipment@ == old(self).equipment@,
            item_order_id(raw).len() == 0 ==> (r matches Err(DispatchError::ValidationError(m)) && m@
                == "order_id 不能为空"@ && final(self).seen_order_ids@ == old(self).seen_order_ids@),
            item_order_id(raw).len() > 0 && string_views(old(self).seen_order_ids@).contains(item_order_id(raw)) ==> (r matches Err(
                DispatchError::ValidationError(m),
            ) && m@ == "派工单 "@ + item_order_id(raw) + " 在批量发布请求中重复出现"@ && final(self).seen_order_ids@ == old(self).seen_order_ids@),
            item_order_id(raw).len() > 0 && !string_views(old(self).seen_order_ids@).contains(item_order_id(raw)) ==> (r matches Ok(
                id,
            ) && id@ == item_order_id(raw) && final(self).seen_order_ids@ == old(self).seen_order_ids@.push(id)),
    {
        let id: &str = match raw {
            Some(x) => trim(x),
            None => {
                proof {
                    reveal_strlit("");
                }
                ""
            },
        };
        if id.unicode_len() == 0 {
            return Err(DispatchError::ValidationError(String::from_str("order_id 不能为空")));
        }
        let mut i: usize = 0;
        while i < self.seen_order_ids.len()
            invariant
                i <= self.seen_order_ids@.len(),
                id@ == item_order_id(raw),
                id@.len() > 0,
                self.seen_order_ids@ == old(self).seen_order_ids@,
                forall|k: int| 0 <= k < i ==> (#[trigger] self.seen_order_ids@[k])@ != id@,
            decreases self.seen_order_ids@.len() - i,
        {
            if text_eq(self.seen_order_ids[i].as_str(), id) {
                assert(string_views(self.seen_order_ids@)[i as int] == id@);
                let m = join_texts(&["派工单 ", id, " 在批量发布请求中重复出现"]);
                assert(concat_views(seq!["派工单 ", id, " 在批量发布请求中重复出现"]) =~= "派工单 "@ + id@
                    + " 在批量发布请求中重复出现"@) by {
                    reveal_with_fuel(concat_views, 4);
                }
                return Err(DispatchError::ValidationError(m));
            }
            i = i + 1;
        }
        assert(!string_views(self.seen_order_ids@).contains(id@)) by {
            if string_views(self.seen_order_ids@).contains(id@) {
                let k = choose|k: int| 0 <= k < string_views(self.seen_order_ids@).len() && string_views(self.seen_order_ids@)[k] == id@;
                assert(self.seen_order_ids@[k]@ == id@);
            }
        }
        let owned = String::from_str(id);
        self.seen_order_ids.push(owned.clone());
        Ok(owned)
    }
}

/// A batch names each order once: admitting a further order keeps the
/// orders it has named distinct.
pub proof fn law_batch_names_each_order_once(seen: Seq<Seq<char>>, raw: Option<&str>)
    requires
        seen.no_duplicates(),
        item_order_id(raw).len() > 0,
        !seen.contains(item_order_id(raw)),
    ensures
        seen.push(item_order_id(raw)).no_duplicates(),
{
    let next = seen.push(item_order_id(raw));
    assert forall|i: int, j: int| 0 <= i < next.len() && 0 <= j < next.len() && i != j implies next[i] != next[j] by {
        if i < seen.len() && j < seen.len() {
            assert(next[i] == seen[i] && next[j] == seen[j]);
        } else if i < seen.len() {
            assert(next[i] == seen[i]);
            assert(seen.contains(seen[i]));
        } else if j < seen.len() {
            assert(next[j] == seen[j]);
            assert(seen.contains(seen[j]));
        }
    }
}

} // verus!
