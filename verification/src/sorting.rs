//! Stable sorting by a strict order.

use vstd::prelude::*;

verus! {

/// Values with a strict order to sort them by.
pub trait SortOrder: Sized {
    /// `self` sorts strictly before `other`.
    spec fn sorts_before(&self, other: &Self) -> bool;

    /// Decides [`SortOrder::sorts_before`].
    fn before(&self, other: &Self) -> (b: bool)
        ensures
            b == self.sorts_before(other),
    ;
}

/// Inserts `x` after every value it does not sort before (so after equal
/// values).
pub open spec fn insert_stable<T: SortOrder>(s: Seq<T>, x: T) -> Seq<T>
    decreases s.len(),
{
    if s.len() == 0 {
        seq![x]
    } else if !x.sorts_before(&s[0]) {
        seq![s[0]] + insert_stable(s.drop_first(), x)
    } else {
        seq![x] + s
    }
}

/// The values sorted by the order, values that compare equal keeping their
/// input order.
pub open spec fn sort_stable<T: SortOrder>(s: Seq<T>) -> Seq<T>
    decreases s.len(),
{
    if s.len() == 0 {
        s
    } else {
        insert_stable(sort_stable(s.drop_last()), s.last())
    }
}

proof fn lemma_insert_stable_at<T: SortOrder>(s: Seq<T>, x: T, i: int)
    requires
        0 <= i <= s.len(),
        forall|j: int| 0 <= j < i ==> !x.sorts_before(#[trigger] &s[j]),
        i == s.len() || x.sorts_before(&s[i]),
    ensures
        insert_stable(s, x) == s.insert(i, x),
    decreases i,
{
    if s.len() == 0 {
        assert(s.insert(i, x) =~= seq![x]);
    } else if i == 0 {
        assert(s.insert(0, x) =~= seq![x] + s);
    } else {
        let rest = s.drop_first();
        assert forall|j: int| 0 <= j < i - 1 implies !x.sorts_before(#[trigger] &rest[j]) by {
            assert(rest[j] == s[j + 1]);
        }
        if i < s.len() {
            assert(rest[i - 1] == s[i]);
        }
        lemma_insert_stable_at(rest, x, i - 1);
        assert(s.insert(i, x) =~= seq![s[0]] + rest.insert(i - 1, x));
    }
}

fn insert_into_sorted<T: SortOrder>(v: &mut Vec<T>, x: T)
    ensures
        final(v)@ == insert_stable(old(v)@, x),
{
    let mut i: usize = 0;
    while i < v.len() && !x.before(&v[i])
        invariant
            i <= v@.len(),
            v@ == old(v)@,
            forall|j: int| 0 <= j < i ==> !x.sorts_before(#[trigger] &v@[j]),
        decreases v@.len() - i,
    {
        i = i + 1;
    }
    proof {
        lemma_insert_stable_at(old(v)@, x, i as int);
    }
    v.insert(i, x);
}

/// Sorts values by the order; values that compare equal keep their order.
pub fn sort_by_order<T: SortOrder>(v: Vec<T>) -> (r: Vec<T>)
    ensures
        r@ == sort_stable(v@),
{
    let ghost orig = v@;
    let mut rest = v;
    let mut stack: Vec<T> = Vec::new();
    while rest.len() > 0
        invariant
            rest@ == orig.take(rest@.len() as int),
            stack@.len() + rest@.len() == orig.len(),
            forall|k: int| 0 <= k < stack@.len() ==> #[trigger] stack@[k] == orig[orig.len() - 1 - k],
        decreases rest@.len(),
    {
        let x = rest.pop().unwrap();
        proof {
            assert(rest@ =~= orig.take(rest@.len() as int));
        }
        stack.push(x);
    }
    let mut out: Vec<T> = Vec::new();
    while stack.len() > 0
        invariant
            stack@.len() <= orig.len(),
            forall|k: int| 0 <= k < stack@.len() ==> #[trigger] stack@[k] == orig[orig.len() - 1 - k],
            out@ == sort_stable(orig.take(orig.len() - stack@.len())),
        decreases stack@.len(),
    {
        let ghost m = orig.len() - stack@.len();
        let x = stack.pop().unwrap();
        proof {
            let t = orig.take(m + 1);
            assert(t.drop_last() =~= orig.take(m));
            assert(t.last() == x);
        }
        insert_into_sorted(&mut out, x);
    }
    proof {
        assert(orig.take(orig.len() as int) =~= orig);
    }
    out
}

/// [`insert_stable`] on plain values, for an order given as a function.
pub open spec fn insert_stable_by<V>(s: Seq<V>, x: V, lt: spec_fn(V, V) -> bool) -> Seq<V>
    decreases s.len(),
{
    if s.len() == 0 {
        seq![x]
    } else if !lt(x, s[0]) {
        seq![s[0]] + insert_stable_by(s.drop_first(), x, lt)
    } else {
        seq![x] + s
    }
}

/// [`sort_stable`] on plain values, for an order given as a function.
pub open spec fn sort_stable_by<V>(s: Seq<V>, lt: spec_fn(V, V) -> bool) -> Seq<V>
    decreases s.len(),
{
    if s.len() == 0 {
        s
    } else {
        insert_stable_by(sort_stable_by(s.drop_last(), lt), s.last(), lt)
    }
}

proof fn lemma_insert_stable_view<T: SortOrder, V>(s: Seq<T>, x: T, view: spec_fn(T) -> V, lt: spec_fn(V, V) -> bool)
    requires
        forall|a: T, b: T| #[trigger] a.sorts_before(&b) == lt(view(a), view(b)),
    ensures
        insert_stable(s, x).map_values(view) == insert_stable_by(s.map_values(view), view(x), lt),
    decreases s.len(),
{
    if s.len() == 0 {
        assert(seq![x].map_values(view) =~= seq![view(x)]);
    } else {
        let vs = s.map_values(view);
        assert(vs[0] == view(s[0]));
        assert(x.sorts_before(&s[0]) == lt(view(x), view(s[0])));
        if !x.sorts_before(&s[0]) {
            lemma_insert_stable_view(s.drop_first(), x, view, lt);
            assert(s.drop_first().map_values(view) =~= vs.drop_first());
            assert((seq![s[0]] + insert_stable(s.drop_first(), x)).map_values(view) =~= seq![view(s[0])]
                + insert_stable(s.drop_first(), x).map_values(view));
        } else {
            assert((seq![x] + s).map_values(view) =~= seq![view(x)] + vs);
        }
    }
}

/// Sorting values and then taking their views gives the views sorted, when
/// the order only looks at the views.
pub proof fn lemma_sort_stable_view<T: SortOrder, V>(s: Seq<T>, view: spec_fn(T) -> V, lt: spec_fn(V, V) -> bool)
    requires
        forall|a: T, b: T| #[trigger] a.sorts_before(&b) == lt(view(a), view(b)),
    ensures
        sort_stable(s).map_values(view) == sort_stable_by(s.map_values(view), lt),
    decreases s.len(),
{
    if s.len() > 0 {
        lemma_sort_stable_view(s.drop_last(), view, lt);
        lemma_insert_stable_view(sort_stable(s.drop_last()), s.last(), view, lt);
        assert(s.drop_last().map_values(view) =~= s.map_values(view).drop_last());
        assert(s.map_values(view).last() == view(s.last()));
    } else {
        assert(s.map_values(view) =~= Seq::<V>::empty());
    }
}


/// Inserting `x` keeps every value and adds `x`, one more in all.
pub proof fn lemma_insert_stable_by_contains<V>(s: Seq<V>, x: V, lt: spec_fn(V, V) -> bool)
    ensures
        insert_stable_by(s, x, lt).len() == s.len() + 1,
        forall|y: V| #[trigger] insert_stable_by(s, x, lt).contains(y) <==> (s.contains(y) || y == x),
    decreases s.len(),
{
    let r = insert_stable_by(s, x, lt);
    if s.len() == 0 {
        assert(r[0] == x);
    } else if !lt(x, s[0]) {
        let t = s.drop_first();
        lemma_insert_stable_by_contains(t, x, lt);
        let rt = insert_stable_by(t, x, lt);
        assert(r == seq![s[0]] + rt);
        assert forall|y: V| #[trigger] r.contains(y) <==> (s.contains(y) || y == x) by {
            if r.contains(y) {
                let k = choose|k: int| 0 <= k < r.len() && r[k] == y;
                if k == 0 {
                    assert(s[0] == y);
                } else {
                    assert(rt[k - 1] == y);
                    assert(rt.contains(y));
                    if t.contains(y) {
                        let m = choose|m: int| 0 <= m < t.len() && t[m] == y;
                        assert(s[m + 1] == y);
                    }
                }
            }
            if s.contains(y) {
                let m = choose|m: int| 0 <= m < s.len() && s[m] == y;
                if m == 0 {
                    assert(r[0] == y);
                } else {
                    assert(t[m - 1] == y);
                    assert(rt.contains(y));
                    let k = choose|k: int| 0 <= k < rt.len() && rt[k] == y;
                    assert(r[k + 1] == y);
                }
            }
            if y == x {
                assert(rt.contains(y));
                let k = choose|k: int| 0 <= k < rt.len() && rt[k] == y;
                assert(r[k + 1] == y);
            }
        }
    } else {
        assert(r == seq![x] + s);
        assert forall|y: V| #[trigger] r.contains(y) <==> (s.contains(y) || y == x) by {
            if r.contains(y) {
                let k = choose|k: int| 0 <= k < r.len() && r[k] == y;
                if k > 0 {
                    assert(s[k - 1] == y);
                }
            }
            if s.contains(y) {
                let m = choose|m: int| 0 <= m < s.len() && s[m] == y;
                assert(r[m + 1] == y);
            }
            if y == x {
                assert(r[0] == y);
            }
        }
    }
}

/// Sorting keeps exactly the values it was given, as many as it was given.
pub proof fn lemma_sort_stable_by_contains<V>(s: Seq<V>, lt: spec_fn(V, V) -> bool)
    ensures
        sort_stable_by(s, lt).len() == s.len(),
        forall|y: V| #[trigger] sort_stable_by(s, lt).contains(y) <==> s.contains(y),
    decreases s.len(),
{
    if s.len() > 0 {
        let t = s.drop_last();
        lemma_sort_stable_by_contains(t, lt);
        lemma_insert_stable_by_contains(sort_stable_by(t, lt), s.last(), lt);
        assert forall|y: V| #[trigger] sort_stable_by(s, lt).contains(y) <==> s.contains(y) by {
            if t.contains(y) {
                let m = choose|m: int| 0 <= m < t.len() && t[m] == y;
                assert(s[m] == y);
            }
            if y == s.last() {
                assert(s[s.len() - 1] == y);
            }
            if s.contains(y) {
                let m = choose|m: int| 0 <= m < s.len() && s[m] == y;
                if m < s.len() - 1 {
                    assert(t[m] == y);
                }
            }
        }
    }
}

} // verus!
