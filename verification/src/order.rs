//! Stable sorting.

use vstd::prelude::*;

verus! {

/// `s` with `x` put behind the last item that `x` does not rank before.
pub open spec fn insert_by<V>(s: Seq<V>, x: V, before: spec_fn(V, V) -> bool) -> Seq<V>
    decreases s.len(),
{
    if s.len() > 0 && before(x, s.last()) {
        insert_by(s.drop_last(), x, before).push(s.last())
    } else {
        s.push(x)
    }
}

/// The items of `s` by rank; items of the same rank stay in their order.
pub open spec fn sort_by<V>(s: Seq<V>, before: spec_fn(V, V) -> bool) -> Seq<V>
    decreases s.len(),
{
    if s.len() == 0 {
        s
    } else {
        insert_by(sort_by(s.drop_last(), before), s.last(), before)
    }
}

/// Whether neither of two items ranks before the other.
pub open spec fn same_rank<V>(a: V, b: V, before: spec_fn(V, V) -> bool) -> bool {
    !before(a, b) && !before(b, a)
}

/// A ranking: no item ranks before one that ranks before it, and not ranking before carries over
/// from item to item.
pub open spec fn is_ranking<V>(before: spec_fn(V, V) -> bool) -> bool {
    &&& forall|a: V, b: V| #[trigger] before(a, b) ==> !before(b, a)
    &&& forall|a: V, b: V, c: V|
        #![trigger before(a, b), before(b, c)]
        !before(a, b) && !before(b, c) ==> !before(a, c)
}

/// No item of `s` ranks before an earlier one.
pub open spec fn is_ordered<V>(s: Seq<V>, before: spec_fn(V, V) -> bool) -> bool {
    forall|i: int, j: int| 0 <= i < j < s.len() ==> !before(#[trigger] s[j], #[trigger] s[i])
}

/// Items that can be put in order.
pub trait Ranked: View + Sized {
    /// Whether `a` ranks before `b`.
    spec fn ranks_before(a: Self::V, b: Self::V) -> bool;

    /// Whether this item ranks before `other`.
    fn is_before(&self, other: &Self) -> (r: bool)
        ensures
            r == Self::ranks_before(self@, other@),
    ;
}

/// The ranking of the items of type `T`.
pub open spec fn rank<T: Ranked>() -> spec_fn(T::V, T::V) -> bool {
    |a: T::V, b: T::V| T::ranks_before(a, b)
}

/// The views of the items of a list.
pub open spec fn views<T: View>(s: Seq<T>) -> Seq<T::V> {
    s.map_values(|x: T| x@)
}

/// Puts `x` behind the last item that it does not rank before.
pub fn insert_ranked<T: Ranked>(list: &mut Vec<T>, x: T)
    ensures
        views(final(list)@) == insert_by(views(old(list)@), x@, rank::<T>()),
{
    let mut pos: usize = list.len();
    let ghost all = views(list@);
    proof {
        assert(all.take(pos as int) =~= all);
        assert(insert_by(all, x@, rank::<T>()) =~= insert_by(
            all.take(pos as int),
            x@,
            rank::<T>(),
        ) + all.skip(pos as int));
    }
    while pos > 0 && x.is_before(&list[pos - 1])
        invariant
            pos <= list@.len(),
            all == views(list@),
            insert_by(all, x@, rank::<T>()) == insert_by(all.take(pos as int), x@, rank::<T>())
                + all.skip(pos as int),
        decreases pos,
    {
        proof {
            let head = all.take(pos as int);
            assert(head.drop_last() =~= all.take(pos - 1));
            assert(insert_by(head, x@, rank::<T>()) + all.skip(pos as int) =~= insert_by(
                all.take(pos - 1),
                x@,
                rank::<T>(),
            ) + all.skip(pos - 1));
        }
        pos -= 1;
    }
    proof {
        assert(insert_by(all, x@, rank::<T>()) =~= all.take(pos as int).push(x@) + all.skip(
            pos as int,
        ));
    }
    list.insert(pos, x);
    proof {
        assert(views(list@) =~= all.take(pos as int).push(x@) + all.skip(pos as int));
    }
}

/// Sorts a list by rank; items of the same rank stay in their order.
pub fn sort_ranked<T: Ranked>(items: Vec<T>) -> (r: Vec<T>)
    ensures
        views(r@) == sort_by(views(items@), rank::<T>()),
{
    let mut out: Vec<T> = Vec::new();
    let ghost all = views(items@);
    proof {
        assert(views(out@) =~= Seq::<T::V>::empty());
        assert(all.take(0) =~= Seq::<T::V>::empty());
    }
    for x in it: items
        invariant
            it.seq() == items@,
            all == views(items@),
            views(out@) == sort_by(all.take(it.index()), rank::<T>()),
    {
        proof {
            assert(all.take(it.index() + 1).drop_last() =~= all.take(it.index()));
        }
        insert_ranked(&mut out, x);
    }
    proof {
        assert(all.take(all.len() as int) =~= all);
    }
    out
}

/// Taking in one item more: it is kept where it meets `keep`.
pub proof fn lemma_filter_step<V>(s: Seq<V>, keep: spec_fn(V) -> bool, i: int)
    requires
        0 <= i < s.len(),
    ensures
        keep(s[i]) ==> s.take(i + 1).filter(keep) == s.take(i).filter(keep).push(s[i]),
        !keep(s[i]) ==> s.take(i + 1).filter(keep) == s.take(i).filter(keep),
{
    reveal(Seq::filter);
    assert(s.take(i + 1).drop_last() =~= s.take(i));
}

/// The kept items are those that meet `keep`.
pub proof fn lemma_filter_contains<V>(s: Seq<V>, keep: spec_fn(V) -> bool, y: V)
    ensures
        s.filter(keep).contains(y) <==> (s.contains(y) && keep(y)),
    decreases s.len(),
{
    reveal(Seq::filter);
    if s.len() > 0 {
        let t = s.drop_last();
        lemma_filter_contains(t, keep, y);
        assert(s =~= t.push(s.last()));
        lemma_push_contains(t, s.last(), y);
        lemma_push_contains(t.filter(keep), s.last(), y);
    }
}

/// An inserted item and the items that were there make up the list.
proof fn lemma_insert_contains<V>(s: Seq<V>, x: V, before: spec_fn(V, V) -> bool, y: V)
    ensures
        insert_by(s, x, before).contains(y) <==> (s.contains(y) || y == x),
    decreases s.len(),
{
    let r = insert_by(s, x, before);
    if s.len() > 0 && before(x, s.last()) {
        let t = s.drop_last();
        let q = insert_by(t, x, before);
        lemma_insert_contains(t, x, before, y);
        assert(s =~= t.push(s.last()));
        lemma_push_contains(q, s.last(), y);
        lemma_push_contains(t, s.last(), y);
    } else {
        lemma_push_contains(s, x, y);
    }
}

/// Pushing adds one item.
pub proof fn lemma_push_contains<V>(s: Seq<V>, x: V, y: V)
    ensures
        s.push(x).contains(y) <==> (s.contains(y) || y == x),
{
    if s.contains(y) {
        let k = choose|k: int| 0 <= k < s.len() && s[k] == y;
        assert(s.push(x)[k] == y);
    }
    if y == x {
        assert(s.push(x)[s.len() as int] == y);
    }
}

/// Sorting keeps the items.
pub proof fn lemma_sort_contains<V>(s: Seq<V>, before: spec_fn(V, V) -> bool, y: V)
    ensures
        sort_by(s, before).contains(y) <==> s.contains(y),
    decreases s.len(),
{
    if s.len() > 0 {
        let t = s.drop_last();
        lemma_sort_contains(t, before, y);
        lemma_insert_contains(sort_by(t, before), s.last(), before, y);
        assert(s =~= t.push(s.last()));
        lemma_push_contains(t, s.last(), y);
    }
}

proof fn lemma_insert_map<A, B>(
    s: Seq<A>,
    x: A,
    f: spec_fn(A) -> B,
    before_a: spec_fn(A, A) -> bool,
    before_b: spec_fn(B, B) -> bool,
)
    requires
        forall|i: int|
            0 <= i < s.len() ==> before_a(x, #[trigger] s[i]) == before_b(f(x), f(s[i])),
    ensures
        insert_by(s, x, before_a).map_values(f) == insert_by(s.map_values(f), f(x), before_b),
    decreases s.len(),
{
    let m = s.map_values(f);
    if s.len() > 0 {
        let t = s.drop_last();
        assert(m.drop_last() =~= t.map_values(f));
        assert(m.last() == f(s.last()));
        assert(before_a(x, s[s.len() - 1]) == before_b(f(x), f(s[s.len() - 1])));
        if before_a(x, s.last()) {
            assert forall|i: int| 0 <= i < t.len() implies before_a(x, #[trigger] t[i])
                == before_b(f(x), f(t[i])) by {
                assert(t[i] == s[i]);
            }
            lemma_insert_map(t, x, f, before_a, before_b);
            assert(insert_by(s, x, before_a).map_values(f) =~= insert_by(t, x, before_a).map_values(
                f,
            ).push(f(s.last())));
        } else {
            assert(s.push(x).map_values(f) =~= m.push(f(x)));
        }
    } else {
        assert(s.push(x).map_values(f) =~= m.push(f(x)));
    }
}

/// Sorting commutes with a mapping that keeps ranks.
pub proof fn lemma_sort_map<A, B>(
    s: Seq<A>,
    f: spec_fn(A) -> B,
    before_a: spec_fn(A, A) -> bool,
    before_b: spec_fn(B, B) -> bool,
)
    requires
        forall|a: A, b: A|
            s.contains(a) && s.contains(b) ==> #[trigger] before_a(a, b) == before_b(f(a), f(b)),
    ensures
        sort_by(s, before_a).map_values(f) == sort_by(s.map_values(f), before_b),
    decreases s.len(),
{
    if s.len() == 0 {
        assert(s.map_values(f) =~= Seq::<B>::empty());
        assert(sort_by(s, before_a).map_values(f) =~= Seq::<B>::empty());
    } else {
        let t = s.drop_last();
        let x = s.last();
        assert(s =~= t.push(x));
        assert forall|a: A, b: A| t.contains(a) && t.contains(b) implies #[trigger] before_a(a, b)
            == before_b(f(a), f(b)) by {
            lemma_push_contains(t, x, a);
            lemma_push_contains(t, x, b);
        }
        lemma_sort_map(t, f, before_a, before_b);
        let r = sort_by(t, before_a);
        assert forall|i: int| 0 <= i < r.len() implies before_a(x, #[trigger] r[i]) == before_b(
            f(x),
            f(r[i]),
        ) by {
            assert(r.contains(r[i]));
            lemma_sort_contains(t, before_a, r[i]);
            lemma_push_contains(t, x, r[i]);
            assert(s.contains(x)) by {
                assert(s[s.len() - 1] == x);
            }
            assert(before_a(x, r[i]) == before_b(f(x), f(r[i])));
        }
        lemma_insert_map(r, x, f, before_a, before_b);
        assert(s.map_values(f).drop_last() =~= t.map_values(f));
    }
}

/// Sorting puts the items in order, for every ranking.
pub proof fn sorting_orders<V>(s: Seq<V>, before: spec_fn(V, V) -> bool)
    requires
        is_ranking(before),
    ensures
        is_ordered(sort_by(s, before), before),
    decreases s.len(),
{
    if s.len() > 0 {
        sorting_orders(s.drop_last(), before);
        lemma_insert_ordered(sort_by(s.drop_last(), before), s.last(), before);
    }
}

/// Sorting neither adds nor drops an item.
pub proof fn sorting_permutes<V>(s: Seq<V>, before: spec_fn(V, V) -> bool)
    ensures
        sort_by(s, before).to_multiset() == s.to_multiset(),
        sort_by(s, before).len() == s.len(),
    decreases s.len(),
{
    broadcast use vstd::seq_lib::group_to_multiset_ensures;

    if s.len() > 0 {
        let t = s.drop_last();
        sorting_permutes(t, before);
        lemma_insert_multiset(sort_by(t, before), s.last(), before);
        assert(s =~= t.push(s.last()));
    }
}

/// Sorting keeps the order of items of the same rank.
pub proof fn sorting_is_stable<V>(s: Seq<V>, before: spec_fn(V, V) -> bool, x: V)
    requires
        is_ranking(before),
    ensures
        sort_by(s, before).filter(|y: V| same_rank(y, x, before)) == s.filter(
            |y: V| same_rank(y, x, before),
        ),
    decreases s.len(),
{
    reveal(Seq::filter);
    if s.len() > 0 {
        sorting_is_stable(s.drop_last(), before, x);
        lemma_insert_class(sort_by(s.drop_last(), before), s.last(), before, x);
    }
}

proof fn lemma_insert_ordered<V>(s: Seq<V>, x: V, before: spec_fn(V, V) -> bool)
    requires
        is_ranking(before),
        is_ordered(s, before),
    ensures
        is_ordered(insert_by(s, x, before), before),
    decreases s.len(),
{
    let r = insert_by(s, x, before);
    if s.len() > 0 && before(x, s.last()) {
        let t = s.drop_last();
        let q = insert_by(t, x, before);
        assert forall|i: int, j: int| 0 <= i < j < t.len() implies !before(
            #[trigger] t[j],
            #[trigger] t[i],
        ) by {
            assert(t[i] == s[i] && t[j] == s[j]);
        }
        lemma_insert_ordered(t, x, before);
        assert forall|i: int, j: int| 0 <= i < j < r.len() implies !before(
            #[trigger] r[j],
            #[trigger] r[i],
        ) by {
            if j < q.len() {
                assert(r[i] == q[i] && r[j] == q[j]);
            } else {
                let y = q[i];
                assert(r[i] == y && r[j] == s[s.len() - 1]);
                lemma_insert_contains(t, x, before, y);
                assert(q.contains(y));
                if t.contains(y) {
                    let k = choose|k: int| 0 <= k < t.len() && t[k] == y;
                    assert(s[k] == y);
                }
            }
        }
    } else {
        assert forall|i: int, j: int| 0 <= i < j < r.len() implies !before(
            #[trigger] r[j],
            #[trigger] r[i],
        ) by {
            if j < s.len() {
                assert(r[i] == s[i] && r[j] == s[j]);
            } else {
                assert(r[i] == s[i] && r[j] == x);
                let last = s[s.len() - 1];
                if i < s.len() - 1 {
                    assert(!before(x, last) && !before(last, s[i]));
                }
            }
        }
    }
}

proof fn lemma_insert_multiset<V>(s: Seq<V>, x: V, before: spec_fn(V, V) -> bool)
    ensures
        insert_by(s, x, before).to_multiset() == s.to_multiset().insert(x),
        insert_by(s, x, before).len() == s.len() + 1,
    decreases s.len(),
{
    broadcast use vstd::seq_lib::group_to_multiset_ensures;

    if s.len() > 0 && before(x, s.last()) {
        let t = s.drop_last();
        lemma_insert_multiset(t, x, before);
        assert(s =~= t.push(s.last()));
        assert(insert_by(s, x, before).to_multiset() =~= s.to_multiset().insert(x));
    }
}

proof fn lemma_insert_class<V>(s: Seq<V>, y: V, before: spec_fn(V, V) -> bool, x: V)
    requires
        is_ranking(before),
    ensures
        insert_by(s, y, before).filter(|z: V| same_rank(z, x, before)) == (if same_rank(
            y,
            x,
            before,
        ) {
            s.filter(|z: V| same_rank(z, x, before)).push(y)
        } else {
            s.filter(|z: V| same_rank(z, x, before))
        }),
    decreases s.len(),
{
    reveal(Seq::filter);
    let class = |z: V| same_rank(z, x, before);
    if s.len() > 0 && before(y, s.last()) {
        let t = s.drop_last();
        let q = insert_by(t, y, before);
        lemma_insert_class(t, y, before, x);
        assert(q.push(s.last()).drop_last() =~= q);
        if class(y) && class(s.last()) {
            assert(!before(y, x) && !before(x, s.last()));
            assert(false);
        }
    } else {
        assert(s.push(y).drop_last() =~= s);
    }
}

/// Whether no two items have the same key.
pub open spec fn is_distinct_by<V, K>(s: Seq<V>, key: spec_fn(V) -> K) -> bool {
    forall|i: int, j: int| 0 <= i < j < s.len() ==> key(#[trigger] s[i]) != key(#[trigger] s[j])
}

proof fn lemma_insert_distinct<V, K>(
    s: Seq<V>,
    x: V,
    before: spec_fn(V, V) -> bool,
    key: spec_fn(V) -> K,
)
    requires
        is_distinct_by(s, key),
        forall|y: V| #[trigger] s.contains(y) ==> key(y) != key(x),
    ensures
        is_distinct_by(insert_by(s, x, before), key),
    decreases s.len(),
{
    let r = insert_by(s, x, before);
    if s.len() > 0 && before(x, s.last()) {
        let t = s.drop_last();
        let q = insert_by(t, x, before);
        assert(is_distinct_by(t, key)) by {
            assert forall|i: int, j: int| 0 <= i < j < t.len() implies key(#[trigger] t[i]) != key(
                #[trigger] t[j],
            ) by {
                assert(t[i] == s[i] && t[j] == s[j]);
            }
        }
        assert(s =~= t.push(s.last()));
        assert forall|y: V| #[trigger] t.contains(y) implies key(y) != key(x) by {
            lemma_push_contains(t, s.last(), y);
        }
        lemma_insert_distinct(t, x, before, key);
        assert forall|i: int, j: int| 0 <= i < j < r.len() implies key(#[trigger] r[i]) != key(
            #[trigger] r[j],
        ) by {
            if j < q.len() {
                assert(r[i] == q[i] && r[j] == q[j]);
            } else {
                let y = q[i];
                assert(r[i] == y && r[j] == s[s.len() - 1]);
                lemma_insert_contains(t, x, before, y);
                assert(q.contains(y));
                assert(s.contains(s[s.len() - 1]));
                if t.contains(y) {
                    let k = choose|k: int| 0 <= k < t.len() && t[k] == y;
                    assert(s[k] == y);
                }
            }
        }
    } else {
        assert forall|i: int, j: int| 0 <= i < j < r.len() implies key(#[trigger] r[i]) != key(
            #[trigger] r[j],
        ) by {
            if j < s.len() {
                assert(r[i] == s[i] && r[j] == s[j]);
            } else {
                assert(r[i] == s[i] && r[j] == x);
                assert(s.contains(s[i]));
            }
        }
    }
}

/// Items that are told apart by a key still are when sorted.
pub proof fn lemma_sort_distinct<V, K>(
    s: Seq<V>,
    before: spec_fn(V, V) -> bool,
    key: spec_fn(V) -> K,
)
    requires
        is_distinct_by(s, key),
    ensures
        is_distinct_by(sort_by(s, before), key),
    decreases s.len(),
{
    if s.len() > 0 {
        let t = s.drop_last();
        assert forall|i: int, j: int| 0 <= i < j < t.len() implies key(#[trigger] t[i]) != key(
            #[trigger] t[j],
        ) by {
            assert(t[i] == s[i] && t[j] == s[j]);
        }
        lemma_sort_distinct(t, before, key);
        let r = sort_by(t, before);
        assert forall|y: V| #[trigger] r.contains(y) implies key(y) != key(s.last()) by {
            lemma_sort_contains(t, before, y);
            let k = choose|k: int| 0 <= k < t.len() && t[k] == y;
            assert(s[k] == y && s[s.len() - 1] == s.last());
        }
        lemma_insert_distinct(r, s.last(), before, key);
    }
}

/// Leaving items out keeps the others in order.
pub proof fn lemma_filter_ordered<V>(
    s: Seq<V>,
    keep: spec_fn(V) -> bool,
    before: spec_fn(V, V) -> bool,
)
    requires
        is_ordered(s, before),
    ensures
        is_ordered(s.filter(keep), before),
    decreases s.len(),
{
    reveal(Seq::filter);
    if s.len() > 0 {
        let t = s.drop_last();
        assert forall|i: int, j: int| 0 <= i < j < t.len() implies !before(
            #[trigger] t[j],
            #[trigger] t[i],
        ) by {
            assert(t[i] == s[i] && t[j] == s[j]);
        }
        lemma_filter_ordered(t, keep, before);
        let q = t.filter(keep);
        let r = s.filter(keep);
        assert forall|i: int, j: int| 0 <= i < j < r.len() implies !before(
            #[trigger] r[j],
            #[trigger] r[i],
        ) by {
            if j < q.len() {
                assert(r[i] == q[i] && r[j] == q[j]);
            } else {
                let y = q[i];
                assert(q.contains(y));
                lemma_filter_contains(t, keep, y);
                let k = choose|k: int| 0 <= k < t.len() && t[k] == y;
                assert(s[k] == y && r[j] == s[s.len() - 1]);
            }
        }
    }
}

/// Where no item meets `keep`, none is kept.
pub proof fn lemma_filter_none<V>(s: Seq<V>, keep: spec_fn(V) -> bool)
    requires
        forall|x: V| !#[trigger] keep(x),
    ensures
        s.filter(keep) == Seq::<V>::empty(),
    decreases s.len(),
{
    reveal(Seq::filter);
    if s.len() > 0 {
        lemma_filter_none(s.drop_last(), keep);
    }
}

/// How often an item is kept depends only on how often it was there.
pub proof fn lemma_filter_multiset<V>(s: Seq<V>, keep: spec_fn(V) -> bool)
    ensures
        s.filter(keep).to_multiset() == s.to_multiset().filter(keep),
    decreases s.len(),
{
    reveal(Seq::filter);
    broadcast use vstd::seq_lib::group_to_multiset_ensures;

    if s.len() == 0 {
        assert(s.filter(keep).to_multiset() =~= s.to_multiset().filter(keep));
    } else {
        let t = s.drop_last();
        lemma_filter_multiset(t, keep);
        assert(s =~= t.push(s.last()));
        assert(s.filter(keep).to_multiset() =~= s.to_multiset().filter(keep));
    }
}

/// The views of a list are those of its items, in their order.
pub proof fn views_are_those_of_the_items<T: View>(s: Seq<T>)
    ensures
        views(s).len() == s.len(),
        forall|i: int| 0 <= i < s.len() ==> #[trigger] views(s)[i] == s[i]@,
{
}

/// Two choices after each other are one choice by both.
pub proof fn lemma_filter_filter<V>(s: Seq<V>, a: spec_fn(V) -> bool, b: spec_fn(V) -> bool)
    ensures
        s.filter(a).filter(b) == s.filter(|x: V| a(x) && b(x)),
    decreases s.len(),
{
    reveal(Seq::filter);
    if s.len() > 0 {
        let t = s.drop_last();
        lemma_filter_filter(t, a, b);
        if a(s.last()) {
            assert(t.filter(a).push(s.last()).drop_last() =~= t.filter(a));
        }
    } else {
        assert(s.filter(a).filter(b) =~= Seq::<V>::empty());
        assert(s.filter(|x: V| a(x) && b(x)) =~= Seq::<V>::empty());
    }
}

} // verus!
