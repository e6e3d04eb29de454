//! The bookings a window optimisation run accumulates: once an order's
//! crew is placed, each person placed is booked over the order's window, so
//! that the orders placed after it see them busy.

use vstd::prelude::*;
use crate::rules::{booking_overlaps, UserBookings};
use crate::text::text_eq;
use crate::window::users_unique;
use crate::window_crew::{
    base_code, baseline_user, window_choice, window_eligible, window_pick_of, window_place_filled, window_picks_valid,
    window_places, BaselineSlot, WindowCandidate, WindowPick,
};
use crate::crew::CrewSlot;
use crate::rules::LevelCoverage;

verus! {

/// The windows `u` is booked over: those of the first entry for `u`.
pub open spec fn windows_of(b: Seq<UserBookings>, u: Seq<char>) -> Seq<(i64, i64)>
    decreases b.len(),
{
    if b.len() == 0 {
        Seq::empty()
    } else if b[0].user_id@ == u {
        b[0].windows@
    } else {
        windows_of(b.drop_first(), u)
    }
}

/// How many of `picks` place `u`.
pub open spec fn times_picked(picks: Seq<WindowPick>, u: Seq<char>) -> nat
    decreases picks.len(),
{
    if picks.len() == 0 {
        0
    } else {
        times_picked(picks.drop_last(), u) + if picks.last().user_id@ == u {
            1nat
        } else {
            0nat
        }
    }
}

/// `n` copies of the window `w`.
pub open spec fn copies(w: (i64, i64), n: nat) -> Seq<(i64, i64)> {
    Seq::new(n, |i: int| w)
}

/// Where the first entry for `u` stands, or the length when there is none.
pub open spec fn first_entry(b: Seq<UserBookings>, u: Seq<char>) -> int
    decreases b.len(),
{
    if b.len() == 0 {
        0
    } else if b[0].user_id@ == u {
        0
    } else {
        1 + first_entry(b.drop_first(), u)
    }
}

proof fn lemma_first_entry(b: Seq<UserBookings>, u: Seq<char>)
    ensures
        0 <= first_entry(b, u) <= b.len(),
        forall|k: int| 0 <= k < first_entry(b, u) ==> (#[trigger] b[k]).user_id@ != u,
        first_entry(b, u) < b.len() ==> b[first_entry(b, u)].user_id@ == u,
        windows_of(b, u) == if first_entry(b, u) < b.len() {
            b[first_entry(b, u)].windows@
        } else {
            Seq::<(i64, i64)>::empty()
        },
    decreases b.len(),
{
    if b.len() > 0 && b[0].user_id@ != u {
        lemma_first_entry(b.drop_first(), u);
        assert forall|k: int| 0 <= k < first_entry(b, u) implies (#[trigger] b[k]).user_id@ != u by {
            if k > 0 {
                assert(b[k] == b.drop_first()[k - 1]);
            }
        }
        if first_entry(b, u) < b.len() {
            assert(b[first_entry(b, u)] == b.drop_first()[first_entry(b, u) - 1]);
        }
    }
}

/// An entry for `u` at `x` with none before it is the first entry.
proof fn lemma_first_at(b: Seq<UserBookings>, u: Seq<char>, x: int)
    requires
        0 <= x < b.len(),
        b[x].user_id@ == u,
        forall|k: int| 0 <= k < x ==> (#[trigger] b[k]).user_id@ != u,
    ensures
        first_entry(b, u) == x,
{
    lemma_first_entry(b, u);
    if first_entry(b, u) < x {
        assert(b[first_entry(b, u)].user_id@ == u);
    }
}

/// Whether some window of `u`'s meets `[s, e)`.
pub open spec fn window_met(ws: Seq<(i64, i64)>, s: i64, e: i64) -> bool {
    exists|j: int| 0 <= j < ws.len() && (#[trigger] ws[j]).0 < e && s < ws[j].1
}

proof fn lemma_overlaps_windows(b: Seq<UserBookings>, u: Seq<char>, s: i64, e: i64)
    ensures
        booking_overlaps(b, u, s, e) <==> window_met(windows_of(b, u), s, e),
{
    lemma_first_entry(b, u);
    let f = first_entry(b, u);
    if booking_overlaps(b, u, s, e) {
        let i = choose|i: int|
            0 <= i < b.len() && b[i].user_id@ == u && (forall|k: int| 0 <= k < i ==> (#[trigger] b[k]).user_id@ != u)
                && exists|j: int| 0 <= j < b[i].windows@.len() && (#[trigger] b[i].windows@[j]).0 < e && s < b[i].windows@[j].1;
        lemma_first_at(b, u, i);
        let j = choose|j: int| 0 <= j < b[i].windows@.len() && (#[trigger] b[i].windows@[j]).0 < e && s < b[i].windows@[j].1;
        assert(windows_of(b, u)[j] == b[i].windows@[j]);
    }
    if window_met(windows_of(b, u), s, e) {
        assert(f < b.len());
        let j = choose|j: int| 0 <= j < windows_of(b, u).len() && (#[trigger] windows_of(b, u)[j]).0 < e && s
            < windows_of(b, u)[j].1;
        assert(b[f].windows@[j].0 < e && s < b[f].windows@[j].1);
        assert(forall|k: int| 0 <= k < f ==> (#[trigger] b[k]).user_id@ != u);
    }
}

fn copy_windows(w: &Vec<(i64, i64)>) -> (r: Vec<(i64, i64)>)
    ensures
        r@ == w@,
{
    let mut r: Vec<(i64, i64)> = Vec::new();
    let mut i: usize = 0;
    while i < w.len()
        invariant
            i <= w@.len(),
            r@ == w@.take(i as int),
        decreases w@.len() - i,
    {
        r.push(w[i]);
        assert(r@ =~= w@.take(i + 1));
        i = i + 1;
    }
    assert(w@.take(i as int) =~= w@);
    r
}

/// Books `user` over `[start, end)`: the window joins the user's entry, or
/// a new entry for a user with none.
pub fn book_window(bookings: &mut Vec<UserBookings>, user: &str, start: i64, end: i64)
    requires
        users_unique(old(bookings)@),
    ensures
        users_unique(final(bookings)@),
        forall|u: Seq<char>|
            #[trigger] windows_of(final(bookings)@, u) == if u == user@ {
                windows_of(old(bookings)@, u).push((start, end))
            } else {
                windows_of(old(bookings)@, u)
            },
{
    let ghost b0 = bookings@;
    let mut i: usize = 0;
    while i < bookings.len()
        invariant
            i <= bookings@.len(),
            bookings@ == b0,
            b0 == old(bookings)@,
            users_unique(b0),
            forall|k: int| 0 <= k < i ==> (#[trigger] b0[k]).user_id@ != user@,
        decreases bookings@.len() - i,
    {
        if text_eq(bookings[i].user_id.as_str(), user) {
            let mut ws = copy_windows(&bookings[i].windows);
            ws.push((start, end));
            let ghost ew = ws@;
            assert(ew == b0[i as int].windows@.push((start, end)));
            let name = bookings[i].user_id.clone();
            let entry = UserBookings { user_id: name, windows: ws };
            bookings.set(i, entry);
            proof {
                let b1 = bookings@;
                assert(b1 == b0.update(i as int, entry));
                assert(b1[i as int].user_id@ == user@);
                assert(b1[i as int].windows@ == ew);
                assert(users_unique(b1)) by {
                    assert forall|p: int, q: int| 0 <= p < q < b1.len() implies (#[trigger] b1[p]).user_id@
                        != (#[trigger] b1[q]).user_id@ by {
                        assert(b0[p].user_id@ != b0[q].user_id@);
                    }
                }
                assert forall|u: Seq<char>|
                    #[trigger] windows_of(b1, u) == if u == user@ {
                        windows_of(b0, u).push((start, end))
                    } else {
                        windows_of(b0, u)
                    } by {
                    lemma_first_entry(b0, u);
                    lemma_first_entry(b1, u);
                    if u == user@ {
                        lemma_first_at(b0, u, i as int);
                        assert forall|k: int| 0 <= k < i implies (#[trigger] b1[k]).user_id@ != u by {
                            assert(b1[k] == b0[k]);
                        }
                        lemma_first_at(b1, u, i as int);
                        assert(b1[i as int].windows@ == ew);
                    } else {
                        let f0 = first_entry(b0, u);
                        assert forall|k: int| 0 <= k < f0 implies (#[trigger] b1[k]).user_id@ != u by {
                            if k != i {
                                assert(b1[k] == b0[k]);
                            }
                        }
                        if f0 < b0.len() {
                            assert(f0 != i);
                            assert(b1[f0] == b0[f0]);
                            lemma_first_at(b1, u, f0);
                        } else {
                            assert(first_entry(b1, u) == b1.len()) by {
                                if first_entry(b1, u) < b1.len() {
                                    let x = first_entry(b1, u);
                                    if x != i {
                                        assert(b1[x] == b0[x]);
                                    }
                                }
                            }
                        }
                    }
                }
            }
            return;
        }
        i = i + 1;
    }
    let mut ws: Vec<(i64, i64)> = Vec::new();
    ws.push((start, end));
    let entry = UserBookings { user_id: user.to_string(), windows: ws };
    bookings.push(entry);
    proof {
        let b1 = bookings@;
        assert(b1 == b0.push(entry));
        assert(users_unique(b1)) by {
            assert forall|p: int, q: int| 0 <= p < q < b1.len() implies (#[trigger] b1[p]).user_id@
                != (#[trigger] b1[q]).user_id@ by {
                if q < b0.len() {
                    assert(b0[p].user_id@ != b0[q].user_id@);
                } else {
                    assert(b1[p] == b0[p]);
                }
            }
        }
        assert forall|u: Seq<char>|
            #[trigger] windows_of(b1, u) == if u == user@ {
                windows_of(b0, u).push((start, end))
            } else {
                windows_of(b0, u)
            } by {
            lemma_first_entry(b0, u);
            lemma_first_entry(b1, u);
            let f0 = first_entry(b0, u);
            assert forall|k: int| 0 <= k < f0 implies (#[trigger] b1[k]).user_id@ != u by {
                assert(b1[k] == b0[k]);
            }
            if u == user@ {
                assert(f0 == b0.len()) by {
                    if f0 < b0.len() {
                        assert(b0[f0].user_id@ == u);
                    }
                }
                lemma_first_at(b1, u, b0.len() as int);
                assert(windows_of(b0, u).push((start, end)) =~= seq![(start, end)]);
            } else if f0 < b0.len() {
                assert(b1[f0] == b0[f0]);
                lemma_first_at(b1, u, f0);
            } else {
                assert(first_entry(b1, u) == b1.len()) by {
                    if first_entry(b1, u) < b1.len() {
                        let x = first_entry(b1, u);
                        if x < b0.len() {
                            assert(b1[x] == b0[x]);
                        }
                    }
                }
            }
        }
    }
}

/// Books each person of `picks` over `[start, end)`, in turn.
pub fn book_window_picks(bookings: &mut Vec<UserBookings>, picks: &Vec<WindowPick>, start: i64, end: i64)
    requires
        users_unique(old(bookings)@),
    ensures
        users_unique(final(bookings)@),
        forall|u: Seq<char>|
            #[trigger] windows_of(final(bookings)@, u) == windows_of(old(bookings)@, u) + copies(
                (start, end),
                times_picked(picks@, u),
            ),
{
    let mut i: usize = 0;
    proof {
        assert forall|u: Seq<char>|
            #[trigger] windows_of(bookings@, u) == windows_of(old(bookings)@, u) + copies(
                (start, end),
                times_picked(picks@.take(0), u),
            ) by {
            assert(windows_of(old(bookings)@, u) + copies((start, end), 0) =~= windows_of(old(bookings)@, u));
        }
    }
    while i < picks.len()
        invariant
            i <= picks@.len(),
            users_unique(bookings@),
            forall|u: Seq<char>|
                #[trigger] windows_of(bookings@, u) == windows_of(old(bookings)@, u) + copies(
                    (start, end),
                    times_picked(picks@.take(i as int), u),
                ),
        decreases picks@.len() - i,
    {
        let ghost before = bookings@;
        book_window(bookings, picks[i].user_id.as_str(), start, end);
        proof {
            assert(picks@.take(i + 1).drop_last() =~= picks@.take(i as int));
            assert(picks@.take(i + 1).last() == picks@[i as int]);
            assert forall|u: Seq<char>|
                #[trigger] windows_of(bookings@, u) == windows_of(old(bookings)@, u) + copies(
                    (start, end),
                    times_picked(picks@.take(i + 1), u),
                ) by {
                let n = times_picked(picks@.take(i as int), u);
                assert(windows_of(before, u) == windows_of(old(bookings)@, u) + copies((start, end), n));
                if u == picks@[i as int].user_id@ {
                    assert(copies((start, end), n + 1) =~= copies((start, end), n).push((start, end)));
                    assert(windows_of(old(bookings)@, u) + copies((start, end), n + 1) =~= (windows_of(
                        old(bookings)@,
                        u,
                    ) + copies((start, end), n)).push((start, end)));
                }
            }
        }
        i = i + 1;
    }
    assert(picks@.take(i as int) =~= picks@);
}

proof fn lemma_times_picked(picks: Seq<WindowPick>, u: Seq<char>)
    requires
        forall|m: int, n: int| 0 <= m < n < picks.len() ==> (#[trigger] picks[m]).user_id@ != (#[trigger] picks[n]).user_id@,
    ensures
        times_picked(picks, u) <= 1,
        times_picked(picks, u) == 1 ==> exists|n: int| 0 <= n < picks.len() && (#[trigger] picks[n]).user_id@ == u,
        times_picked(picks, u) == 0 ==> forall|n: int| 0 <= n < picks.len() ==> (#[trigger] picks[n]).user_id@ != u,
    decreases picks.len(),
{
    if picks.len() > 0 {
        let d = picks.drop_last();
        assert forall|m: int, n: int| 0 <= m < n < d.len() implies (#[trigger] d[m]).user_id@ != (#[trigger] d[n]).user_id@ by {
            assert(d[m] == picks[m] && d[n] == picks[n]);
        }
        lemma_times_picked(d, u);
        if picks.last().user_id@ == u {
            if times_picked(d, u) == 1 {
                let n = choose|n: int| 0 <= n < d.len() && (#[trigger] d[n]).user_id@ == u;
                assert(picks[n] == d[n]);
                assert(picks[picks.len() - 1].user_id@ == u);
            }
            assert(picks[picks.len() - 1].user_id@ == u);
        } else {
            if times_picked(d, u) == 1 {
                let n = choose|n: int| 0 <= n < d.len() && (#[trigger] d[n]).user_id@ == u;
                assert(picks[n] == d[n]);
            } else {
                assert forall|n: int| 0 <= n < picks.len() implies (#[trigger] picks[n]).user_id@ != u by {
                    if n < d.len() {
                        assert(picks[n] == d[n]);
                    }
                }
            }
        }
    }
}

/// A window run never double-books a person: booking the crew placed on an
/// order (by `assign_window_crew` against the bookings so far) books each
/// person at most once over the order's window, and only a person whose
/// earlier bookings do not meet that window.
pub proof fn law_window_run_never_double_books(
    bookings: Seq<UserBookings>,
    cands: Seq<WindowCandidate>,
    slots: Seq<CrewSlot>,
    baseline: Seq<BaselineSlot>,
    index: Seq<LevelCoverage>,
    start: i64,
    end: i64,
    picks: Seq<WindowPick>,
    u: Seq<char>,
)
    requires
        window_picks_valid(cands, slots, baseline, index, bookings, start, end, picks),
    ensures
        times_picked(picks, u) <= 1,
        times_picked(picks, u) == 1 ==> !window_met(windows_of(bookings, u), start, end),
{
    assert forall|n: int| 0 <= n < picks.len() implies !booking_overlaps(bookings, (#[trigger] picks[n]).user_id@, start, end)
        && forall|m: int| 0 <= m < n ==> (#[trigger] picks.take(n)[m]).user_id@ != picks[n].user_id@ by {
        let pl = window_places(slots)[n];
        assert(window_place_filled(cands, slots, baseline, index, bookings, start, end, pl, picks.take(n), picks[n]));
        let s = slots[pl.0];
        let c = choose|c: int|
            window_choice(
                cands,
                s,
                index,
                bookings,
                start,
                end,
                picks.take(n),
                baseline_user(baseline, base_code(s.slot_code), pl.1),
                c,
            ) && window_pick_of(#[trigger] cands[c], s, index, pl.1, picks[n]);
        assert(window_eligible(cands[c], s, index, bookings, start, end, picks.take(n)));
    }
    assert forall|m: int, n: int| 0 <= m < n < picks.len() implies (#[trigger] picks[m]).user_id@ != (
    #[trigger] picks[n]).user_id@ by {
        assert(picks.take(n)[m] == picks[m]);
        assert(forall|x: int| 0 <= x < n ==> (#[trigger] picks.take(n)[x]).user_id@ != picks[n].user_id@);
    }
    lemma_times_picked(picks, u);
    if times_picked(picks, u) == 1 {
        let n = choose|n: int| 0 <= n < picks.len() && (#[trigger] picks[n]).user_id@ == u;
        assert(!booking_overlaps(bookings, picks[n].user_id@, start, end));
        lemma_overlaps_windows(bookings, u, start, end);
    }
}

} // verus!
