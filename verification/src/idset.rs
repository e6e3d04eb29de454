//! Ordered sets of identifiers: strictly increasing vectors of strings under
//! the lexicographic order of their characters (the order of `str::cmp`).

use vstd::prelude::*;

verus! {

/// Lexicographic "less than" on character sequences (code point order).
pub open spec fn seq_lt(a: Seq<char>, b: Seq<char>) -> bool
    decreases a.len(),
{
    if a.len() == 0 {
        b.len() > 0
    } else if b.len() == 0 {
        false
    } else if a[0] == b[0] {
        seq_lt(a.drop_first(), b.drop_first())
    } else {
        a[0] < b[0]
    }
}

pub proof fn lemma_lt_irreflexive(a: Seq<char>)
    ensures
        !seq_lt(a, a),
    decreases a.len(),
{
    if a.len() > 0 {
        lemma_lt_irreflexive(a.drop_first());
    }
}

pub proof fn lemma_lt_asymmetric(a: Seq<char>, b: Seq<char>)
    requires
        seq_lt(a, b),
    ensures
        !seq_lt(b, a),
    decreases a.len(),
{
    if a.len() > 0 && b.len() > 0 && a[0] == b[0] {
        lemma_lt_asymmetric(a.drop_first(), b.drop_first());
    }
}

pub proof fn lemma_lt_transitive(a: Seq<char>, b: Seq<char>, c: Seq<char>)
    requires
        seq_lt(a, b),
        seq_lt(b, c),
    ensures
        seq_lt(a, c),
    decreases a.len(),
{
    if a.len() > 0 && b.len() > 0 && c.len() > 0 {
        if a[0] == b[0] && b[0] == c[0] {
            lemma_lt_transitive(a.drop_first(), b.drop_first(), c.drop_first());
        }
    }
}

pub proof fn lemma_lt_total(a: Seq<char>, b: Seq<char>)
    requires
        a != b,
    ensures
        seq_lt(a, b) || seq_lt(b, a),
    decreases a.len(),
{
    if a.len() > 0 && b.len() > 0 {
        if a[0] == b[0] {
            if a.drop_first() == b.drop_first() {
                assert(a =~= seq![a[0]] + a.drop_first());
                assert(b =~= seq![b[0]] + b.drop_first());
            }
            lemma_lt_total(a.drop_first(), b.drop_first());
        } else {
        }
    } else if a.len() == 0 && b.len() == 0 {
        assert(a =~= b);
    }
}

/// Lexicographic comparison of two strings.
pub fn text_lt(a: &str, b: &str) -> (r: bool)
    ensures
        r == seq_lt(a@, b@),
{
    let n = a.unicode_len();
    let m = b.unicode_len();
    let mut i: usize = 0;
    assert(a@.skip(0) =~= a@);
    assert(b@.skip(0) =~= b@);
    while i < n && i < m && a.get_char(i) == b.get_char(i)
        invariant
            n == a@.len(),
            m == b@.len(),
            i <= n,
            i <= m,
            forall|k: int| 0 <= k < i ==> a@[k] == b@[k],
            seq_lt(a@, b@) == seq_lt(a@.skip(i as int), b@.skip(i as int)),
        decreases n - i,
    {
        proof {
            let sa = a@.skip(i as int);
            let sb = b@.skip(i as int);
            assert(sa.drop_first() =~= a@.skip(i + 1));
            assert(sb.drop_first() =~= b@.skip(i + 1));
        }
        i = i + 1;
    }
    if i == n {
        i < m
    } else if i == m {
        false
    } else {
        a.get_char(i) < b.get_char(i)
    }
}

/// The character sequences of a list of strings.
pub open spec fn views(s: Seq<String>) -> Seq<Seq<char>> {
    s.map_values(|x: String| x@)
}

/// `s` lists its elements in strictly increasing order.
pub open spec fn sorted_ids(s: Seq<String>) -> bool {
    forall|i: int, j: int| 0 <= i < j < s.len() ==> seq_lt(#[trigger] s[i]@, #[trigger] s[j]@)
}

/// Whether `x` occurs in `s`.
pub open spec fn has_id(s: Seq<String>, x: Seq<char>) -> bool {
    exists|i: int| 0 <= i < s.len() && #[trigger] s[i]@ == x
}

/// Two sorted lists with the same members are the same list.
pub proof fn lemma_sorted_unique(a: Seq<String>, b: Seq<String>)
    requires
        sorted_ids(a),
        sorted_ids(b),
        forall|x: Seq<char>| has_id(a, x) <==> has_id(b, x),
    ensures
        views(a) == views(b),
    decreases a.len() + b.len(),
{
    if a.len() == 0 {
        if b.len() > 0 {
            assert(has_id(b, b[0]@));
        }
        assert(views(a) =~= views(b));
    } else if b.len() == 0 {
        assert(has_id(a, a[0]@));
    } else {
        // The least members agree.
        assert(has_id(a, a[0]@));
        let jb = choose|j: int| 0 <= j < b.len() && #[trigger] b[j]@ == a[0]@;
        assert(has_id(b, b[0]@));
        let ja = choose|j: int| 0 <= j < a.len() && #[trigger] a[j]@ == b[0]@;
        if jb > 0 {
            assert(seq_lt(b[0]@, b[jb]@));
            if ja > 0 {
                assert(seq_lt(a[0]@, a[ja]@));
                lemma_lt_asymmetric(b[0]@, a[0]@);
            } else {
                lemma_lt_irreflexive(a[0]@);
            }
        }
        assert(a[0]@ == b[0]@);
        let ta = a.drop_first();
        let tb = b.drop_first();
        assert forall|i: int, j: int| 0 <= i < j < ta.len() implies seq_lt(
            #[trigger] ta[i]@,
            #[trigger] ta[j]@,
        ) by {
            assert(ta[i] == a[i + 1] && ta[j] == a[j + 1]);
        }
        assert forall|i: int, j: int| 0 <= i < j < tb.len() implies seq_lt(
            #[trigger] tb[i]@,
            #[trigger] tb[j]@,
        ) by {
            assert(tb[i] == b[i + 1] && tb[j] == b[j + 1]);
        }
        assert forall|x: Seq<char>| has_id(ta, x) <==> has_id(tb, x) by {
            if has_id(ta, x) {
                let i = choose|i: int| 0 <= i < ta.len() && #[trigger] ta[i]@ == x;
                assert(a[i + 1]@ == x);
                assert(seq_lt(a[0]@, a[i + 1]@));
                assert(has_id(a, x));
                let j = choose|j: int| 0 <= j < b.len() && #[trigger] b[j]@ == x;
                if j == 0 {
                    lemma_lt_irreflexive(x);
                }
                assert(tb[j - 1]@ == x);
            }
            if has_id(tb, x) {
                let i = choose|i: int| 0 <= i < tb.len() && #[trigger] tb[i]@ == x;
                assert(b[i + 1]@ == x);
                assert(seq_lt(b[0]@, b[i + 1]@));
                assert(has_id(b, x));
                let j = choose|j: int| 0 <= j < a.len() && #[trigger] a[j]@ == x;
                if j == 0 {
                    lemma_lt_irreflexive(x);
                }
                assert(ta[j - 1]@ == x);
            }
        }
        lemma_sorted_unique(ta, tb);
        assert(views(a) =~= seq![a[0]@] + views(ta));
        assert(views(b) =~= seq![b[0]@] + views(tb));
    }
}

/// Inserting `x` at a position between the members below it and those above
/// it keeps a sorted list sorted, and adds exactly `x`.
pub proof fn lemma_sorted_insert(v: Seq<String>, p: int, x: String)
    requires
        sorted_ids(v),
        0 <= p <= v.len(),
        forall|k: int| 0 <= k < p ==> seq_lt(#[trigger] v[k]@, x@),
        forall|k: int| p <= k < v.len() ==> seq_lt(x@, #[trigger] v[k]@),
    ensures
        sorted_ids(v.insert(p, x)),
        forall|y: Seq<char>| has_id(v.insert(p, x), y) <==> (has_id(v, y) || y == x@),
{
    let w = v.insert(p, x);
    assert forall|i: int, j: int| 0 <= i < j < w.len() implies seq_lt(#[trigger] w[i]@, #[trigger] w[j]@) by {
        if j < p {
            assert(w[i] == v[i] && w[j] == v[j]);
        } else if j == p {
            assert(w[i] == v[i]);
        } else if i == p {
            assert(w[j] == v[j - 1]);
        } else if i < p {
            assert(w[i] == v[i] && w[j] == v[j - 1]);
        } else {
            assert(w[i] == v[i - 1] && w[j] == v[j - 1]);
        }
    }
    assert forall|y: Seq<char>| has_id(w, y) <==> (has_id(v, y) || y == x@) by {
        if has_id(w, y) {
            let i = choose|i: int| 0 <= i < w.len() && #[trigger] w[i]@ == y;
            if i < p {
                assert(v[i]@ == y);
            } else if i > p {
                assert(v[i - 1]@ == y);
            }
        }
        if has_id(v, y) {
            let i = choose|i: int| 0 <= i < v.len() && #[trigger] v[i]@ == y;
            if i < p {
                assert(w[i]@ == y);
            } else {
                assert(w[i + 1]@ == y);
            }
        }
        if y == x@ {
            assert(w[p]@ == y);
        }
    }
}

/// Where `x` stands in the sorted list `v`: the members before position
/// `p` are below `x`; `found` tells whether `v[p]` is `x`, and otherwise
/// every member from `p` on is above `x`.
pub fn sorted_position(v: &Vec<String>, x: &str) -> (r: (usize, bool))
    requires
        sorted_ids(v@),
    ensures
        r.0 <= v@.len(),
        forall|k: int| 0 <= k < r.0 ==> seq_lt(#[trigger] v@[k]@, x@),
        r.1 ==> r.0 < v@.len() && v@[r.0 as int]@ == x@,
        !r.1 ==> forall|k: int| r.0 <= k < v@.len() ==> seq_lt(x@, #[trigger] v@[k]@),
        r.1 <==> has_id(v@, x@),
{
    let n = v.len();
    let mut p: usize = 0;
    while p < n && text_lt(v[p].as_str(), x)
        invariant
            n == v@.len(),
            p <= n,
            forall|k: int| 0 <= k < p ==> seq_lt(#[trigger] v@[k]@, x@),
        decreases n - p,
    {
        p = p + 1;
    }
    if p < n && crate::text::text_eq(v[p].as_str(), x) {
        assert(has_id(v@, x@));
        return (p, true);
    }
    proof {
        if p < n {
            lemma_lt_total(v@[p as int]@, x@);
        }
        assert forall|k: int| p <= k < v@.len() implies seq_lt(x@, #[trigger] v@[k]@) by {
            if k > p {
                assert(seq_lt(v@[p as int]@, v@[k]@));
                lemma_lt_transitive(x@, v@[p as int]@, v@[k]@);
            }
        }
        if has_id(v@, x@) {
            let i = choose|i: int| 0 <= i < v@.len() && #[trigger] v@[i]@ == x@;
            if i < p {
                lemma_lt_irreflexive(x@);
            } else {
                lemma_lt_irreflexive(x@);
            }
        }
    }
    (p, false)
}

/// Adds `x` to the sorted list `v`; an element already present is kept once.
pub fn insert_sorted(v: &mut Vec<String>, x: String)
    requires
        sorted_ids(old(v)@),
    ensures
        sorted_ids(final(v)@),
        forall|y: Seq<char>| has_id(final(v)@, y) <==> (has_id(old(v)@, y) || y == x@),
        final(v)@.len() <= old(v)@.len() + 1,
{
    let (p, found) = sorted_position(v, x.as_str());
    if found {
        return;
    }
    proof {
        lemma_sorted_insert(v@, p as int, x);
    }
    v.insert(p, x);
}

/// Whether `x` occurs in the list `v` (in any order).
pub fn list_has(v: &Vec<String>, x: &str) -> (r: bool)
    ensures
        r == has_id(v@, x@),
{
    let mut i: usize = 0;
    while i < v.len()
        invariant
            i <= v@.len(),
            forall|k: int| 0 <= k < i ==> (#[trigger] v@[k])@ != x@,
        decreases v@.len() - i,
    {
        if crate::text::text_eq(v[i].as_str(), x) {
            return true;
        }
        i = i + 1;
    }
    false
}

} // verus!
