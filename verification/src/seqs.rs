//! Facts about sequences.
use vstd::prelude::*;

verus! {

/// Filtering one more item.
pub proof fn lemma_filter_take<A>(s: Seq<A>, i: int, p: spec_fn(A) -> bool)
    requires
        0 <= i < s.len(),
    ensures
        s.take(i + 1).filter(p) == if p(s[i]) {
            s.take(i).filter(p).push(s[i])
        } else {
            s.take(i).filter(p)
        },
{
    reveal(Seq::filter);
    assert(s.take(i + 1).drop_last() == s.take(i));
}

/// A filter keeps exactly the items that pass.
pub proof fn lemma_filter_members<A>(s: Seq<A>, p: spec_fn(A) -> bool)
    ensures
        s.filter(p).len() <= s.len(),
        forall|x: A| s.filter(p).contains(x) <==> s.contains(x) && p(x),
    decreases s.len(),
{
    reveal(Seq::filter);
    if s.len() > 0 {
        let t = s.drop_last();
        lemma_filter_members(t, p);
        assert forall|x: A| s.filter(p).contains(x) <==> s.contains(x) && p(x) by {
            if s.contains(x) && p(x) {
                let i = s.index_of(x);
                if i < t.len() {
                    assert(t[i] == x);
                    assert(t.filter(p).contains(x));
                    let j = t.filter(p).index_of(x);
                    assert(s.filter(p)[j] == x);
                } else {
                    assert(s.filter(p)[t.filter(p).len() as int] == x);
                }
            }
            if s.filter(p).contains(x) {
                let j = s.filter(p).index_of(x);
                if j < t.filter(p).len() {
                    assert(t.filter(p)[j] == x);
                    assert(t.contains(x));
                    let i = t.index_of(x);
                    assert(s[i] == x);
                } else {
                    assert(s.last() == x);
                }
            }
        }
    }
}

/// A filter that everything passes changes nothing.
pub proof fn lemma_filter_all<A>(s: Seq<A>, p: spec_fn(A) -> bool)
    requires
        forall|x: A| #[trigger] p(x),
    ensures
        s.filter(p) == s,
    decreases s.len(),
{
    reveal(Seq::filter);
    if s.len() > 0 {
        lemma_filter_all(s.drop_last(), p);
        assert(p(s.last()));
        assert(s.drop_last().push(s.last()) == s);
    }
}

/// The first place from `i` on where an item stands that `x` comes before; the end where there is
/// none.
pub open spec fn place<A>(s: Seq<A>, x: A, less: spec_fn(A, A) -> bool, i: int) -> int
    decreases s.len() - i,
{
    if i >= s.len() {
        s.len() as int
    } else if less(x, s[i]) {
        i
    } else {
        place(s, x, less, i + 1)
    }
}

/// The items in order: each one, as it comes, goes before the first that it precedes.
pub open spec fn ordered<A>(s: Seq<A>, less: spec_fn(A, A) -> bool) -> Seq<A>
    decreases s.len(),
{
    if s.len() == 0 {
        s
    } else {
        let t = ordered(s.drop_last(), less);
        t.insert(place(t, s.last(), less, 0), s.last())
    }
}

/// Whether a relation can order items.
pub open spec fn is_order<A>(less: spec_fn(A, A) -> bool) -> bool {
    &&& forall|a: A, b: A| #[trigger] less(a, b) ==> !less(b, a)
    &&& forall|a: A, b: A, c: A| #[trigger] less(a, b) && #[trigger] less(b, c) ==> less(a, c)
}

/// Where `place` points.
pub proof fn lemma_place<A>(s: Seq<A>, x: A, less: spec_fn(A, A) -> bool, i: int)
    requires
        0 <= i <= s.len(),
    ensures
        i <= place(s, x, less, i) <= s.len(),
        forall|j: int| i <= j < place(s, x, less, i) ==> !less(x, #[trigger] s[j]),
        place(s, x, less, i) < s.len() ==> less(x, s[place(s, x, less, i)]),
    decreases s.len() - i,
{
    if i < s.len() && !less(x, s[i]) {
        lemma_place(s, x, less, i + 1);
    }
}

/// Ordering keeps the number of items and puts none before one that it follows.
pub proof fn lemma_ordered_sorted<A>(s: Seq<A>, less: spec_fn(A, A) -> bool)
    requires
        is_order(less),
    ensures
        ordered(s, less).len() == s.len(),
        forall|i: int, j: int|
            0 <= i < j < s.len() ==> !less(
                #[trigger] ordered(s, less)[j],
                #[trigger] ordered(s, less)[i],
            ),
    decreases s.len(),
{
    if s.len() > 0 {
        let t = ordered(s.drop_last(), less);
        let x = s.last();
        lemma_ordered_sorted(s.drop_last(), less);
        lemma_place(t, x, less, 0);
        let p = place(t, x, less, 0);
        let r = ordered(s, less);
        assert(r == t.insert(p, x));
        assert forall|i: int, j: int| 0 <= i < j < s.len() implies !less(
            #[trigger] r[j],
            #[trigger] r[i],
        ) by {
            if j < p {
                assert(r[j] == t[j] && r[i] == t[i]);
            } else if j == p {
                assert(r[j] == x && r[i] == t[i]);
            } else if i < p {
                assert(r[j] == t[j - 1] && r[i] == t[i]);
            } else if i == p {
                assert(r[j] == t[j - 1] && r[i] == x);
                if less(t[j - 1], x) {
                    assert(less(x, t[p]));
                    assert(less(t[j - 1], t[p]));
                    if j - 1 > p {
                        assert(!less(t[j - 1], t[p]));
                    }
                }
            } else {
                assert(r[j] == t[j - 1] && r[i] == t[i - 1]);
            }
        }
    }
}

/// Ordering keeps the items.
pub proof fn lemma_ordered_items<A>(s: Seq<A>, less: spec_fn(A, A) -> bool)
    ensures
        ordered(s, less).to_multiset() == s.to_multiset(),
    decreases s.len(),
{
    if s.len() > 0 {
        let t = ordered(s.drop_last(), less);
        lemma_ordered_items(s.drop_last(), less);
        lemma_place(t, s.last(), less, 0);
        vstd::seq_lib::to_multiset_insert(t, place(t, s.last(), less, 0), s.last());
        vstd::seq_lib::to_multiset_insert(s.drop_last(), s.len() - 1, s.last());
        assert(s.drop_last().insert(s.len() - 1, s.last()) =~= s);
    }
}

/// Ordering keeps items in their order where none of them precedes another.
pub proof fn lemma_ordered_stable<A>(s: Seq<A>, less: spec_fn(A, A) -> bool, alike: spec_fn(A) -> bool)
    requires
        is_order(less),
        forall|a: A, b: A| #[trigger] alike(a) && #[trigger] alike(b) ==> !less(a, b),
        forall|a: A, b: A, c: A|
            #[trigger] alike(a) && #[trigger] alike(c) && #[trigger] less(a, b) ==> less(c, b),
    ensures
        ordered(s, less).filter(alike) == s.filter(alike),
    decreases s.len(),
{
    reveal(Seq::filter);
    if s.len() > 0 {
        let t = ordered(s.drop_last(), less);
        let x = s.last();
        lemma_ordered_stable(s.drop_last(), less, alike);
        lemma_ordered_sorted(s.drop_last(), less);
        lemma_place(t, x, less, 0);
        let p = place(t, x, less, 0);
        let front = t.take(p);
        let back = t.skip(p);
        assert(t.insert(p, x) =~= front.push(x) + back);
        assert(t =~= front + back);
        lemma_filter_concat(front.push(x), back, alike);
        lemma_filter_concat(front, back, alike);
        assert(front.push(x).drop_last() =~= front);
        if alike(x) {
            assert forall|j: int| 0 <= j < back.len() implies !alike(#[trigger] back[j]) by {
                assert(back[j] == t[p + j]);
                if alike(back[j]) {
                    assert(less(x, t[p]));
                    assert(less(t[p + j], t[p]));
                    if j > 0 {
                        assert(!less(t[p + j], t[p]));
                    }
                }
            }
            lemma_filter_none(back, alike);
        }
        assert(ordered(s, less).filter(alike) =~= s.filter(alike));
    }
}

/// Filtering two sequences in a row.
pub proof fn lemma_filter_concat<A>(a: Seq<A>, b: Seq<A>, p: spec_fn(A) -> bool)
    ensures
        (a + b).filter(p) == a.filter(p) + b.filter(p),
    decreases b.len(),
{
    reveal(Seq::filter);
    if b.len() == 0 {
        assert(a + b =~= a);
    } else {
        lemma_filter_concat(a, b.drop_last(), p);
        assert((a + b).drop_last() =~= a + b.drop_last());
        assert((a + b).filter(p) =~= a.filter(p) + b.filter(p));
    }
}

/// A filter that nothing passes leaves nothing.
pub proof fn lemma_filter_none<A>(s: Seq<A>, p: spec_fn(A) -> bool)
    requires
        forall|i: int| 0 <= i < s.len() ==> !p(#[trigger] s[i]),
    ensures
        s.filter(p).len() == 0,
    decreases s.len(),
{
    reveal(Seq::filter);
    if s.len() > 0 {
        assert forall|i: int| 0 <= i < s.drop_last().len() implies !p(
            #[trigger] s.drop_last()[i],
        ) by {
            assert(s.drop_last()[i] == s[i]);
        }
        lemma_filter_none(s.drop_last(), p);
        assert(!p(s[s.len() - 1]));
    }
}

/// Filtering one item.
pub proof fn lemma_filter_one<A>(x: A, p: spec_fn(A) -> bool)
    ensures
        seq![x].filter(p) == if p(x) {
            seq![x]
        } else {
            Seq::empty()
        },
{
    reveal_with_fuel(Seq::filter, 2);
    assert(seq![x].drop_last() =~= Seq::<A>::empty());
    assert(seq![x].filter(p) =~= if p(x) {
        seq![x]
    } else {
        Seq::empty()
    });
}

} // verus!
