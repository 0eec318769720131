//! Putting a run of items in order without disturbing the items that the
//! order does not tell apart.

use vstd::prelude::*;

verus! {

/// Puts an item into a run that is in order: behind every item that is not
/// behind it in the order, before every item that is.
pub open spec fn insert_by<T>(sorted: Seq<T>, x: T, before: spec_fn(T, T) -> bool) -> Seq<T>
    decreases sorted.len(),
{
    if sorted.len() == 0 {
        seq![x]
    } else if before(x, sorted.last()) {
        insert_by(sorted.drop_last(), x, before).push(sorted.last())
    } else {
        sorted.push(x)
    }
}

/// The items of a run in order. Items that the order does not tell apart
/// stay in the order in which the run has them.
pub open spec fn sorted_by<T>(items: Seq<T>, before: spec_fn(T, T) -> bool) -> Seq<T>
    decreases items.len(),
{
    if items.len() == 0 {
        Seq::empty()
    } else {
        insert_by(sorted_by(items.drop_last(), before), items.last(), before)
    }
}

/// No item of the run stands before one that the order puts before it.
pub open spec fn in_order<T>(items: Seq<T>, before: spec_fn(T, T) -> bool) -> bool {
    forall|i: int, j: int| 0 <= i <= j < items.len() ==> !before(items[j], items[i])
}

/// The relation orders: nothing is before itself or before what is before
/// it, and what is not before a thing is not before what that thing is not
/// before.
pub open spec fn orders<T>(before: spec_fn(T, T) -> bool) -> bool {
    &&& forall|a: T, b: T| #[trigger] before(a, b) ==> !before(b, a)
    &&& forall|a: T, b: T, c: T|
        !(#[trigger] before(a, b)) && !(#[trigger] before(b, c)) ==> !before(a, c)
}

/// Where `insert_by` puts an item: at the place `j` such that the item is
/// before every item from `j` on, and not before the item in front of `j`.
pub proof fn lemma_insert_place<T>(sorted: Seq<T>, x: T, before: spec_fn(T, T) -> bool, j: int)
    requires
        0 <= j <= sorted.len(),
        forall|k: int| j <= k < sorted.len() ==> before(x, #[trigger] sorted[k]),
        j > 0 ==> !before(x, sorted[j - 1]),
    ensures
        insert_by(sorted, x, before) == sorted.insert(j, x),
    decreases sorted.len(),
{
    if sorted.len() == 0 {
        assert(seq![x] =~= sorted.insert(j, x));
    } else if j == sorted.len() {
        assert(sorted.push(x) =~= sorted.insert(j, x));
    } else {
        assert(before(x, sorted[sorted.len() - 1]));
        let front = sorted.drop_last();
        assert forall|k: int| j <= k < front.len() implies before(x, #[trigger] front[k]) by {
            assert(front[k] == sorted[k]);
        }
        lemma_insert_place(front, x, before, j);
        assert(front.insert(j, x).push(sorted.last()) =~= sorted.insert(j, x));
    }
}

/// An item that is put into a run goes to one place of it, and the run is
/// otherwise as it was.
pub proof fn lemma_insert_is_insert<T>(sorted: Seq<T>, x: T, before: spec_fn(T, T) -> bool) -> (j:
    int)
    ensures
        0 <= j <= sorted.len(),
        insert_by(sorted, x, before) == sorted.insert(j, x),
        forall|k: int| j <= k < sorted.len() ==> before(x, #[trigger] sorted[k]),
        j > 0 ==> !before(x, sorted[j - 1]),
    decreases sorted.len(),
{
    if sorted.len() == 0 {
        assert(seq![x] =~= sorted.insert(0, x));
        0
    } else if before(x, sorted.last()) {
        let front = sorted.drop_last();
        let j = lemma_insert_is_insert(front, x, before);
        assert(front.insert(j, x).push(sorted.last()) =~= sorted.insert(j, x));
        assert forall|k: int| j <= k < sorted.len() implies before(x, #[trigger] sorted[k]) by {
            if k < front.len() {
                assert(front[k] == sorted[k]);
            }
        }
        if j > 0 {
            assert(front[j - 1] == sorted[j - 1]);
        }
        j
    } else {
        assert(sorted.push(x) =~= sorted.insert(sorted.len() as int, x));
        sorted.len() as int
    }
}

/// Putting a run in order neither adds nor drops an item.
pub proof fn lemma_sorted_len<T>(items: Seq<T>, before: spec_fn(T, T) -> bool)
    ensures
        sorted_by(items, before).len() == items.len(),
    decreases items.len(),
{
    if items.len() > 0 {
        lemma_sorted_len(items.drop_last(), before);
        let j = lemma_insert_is_insert(sorted_by(items.drop_last(), before), items.last(), before);
    }
}

/// The run in order holds exactly the items of the run, each as often as the
/// run holds it.
pub proof fn lemma_sorted_is_permutation<T>(items: Seq<T>, before: spec_fn(T, T) -> bool)
    ensures
        sorted_by(items, before).to_multiset() == items.to_multiset(),
    decreases items.len(),
{
    broadcast use vstd::seq_lib::group_to_multiset_ensures;

    if items.len() == 0 {
    } else {
        let front = items.drop_last();
        let last = items.last();
        lemma_sorted_is_permutation(front, before);
        let sorted = sorted_by(front, before);
        let j = lemma_insert_is_insert(sorted, last, before);
        vstd::seq_lib::to_multiset_insert(sorted, j, last);
        assert(items =~= front.push(last));
    }
}

/// Under a relation that orders, the run in order is in order.
pub proof fn lemma_sorted_in_order<T>(items: Seq<T>, before: spec_fn(T, T) -> bool)
    requires
        orders(before),
    ensures
        in_order(sorted_by(items, before), before),
    decreases items.len(),
{
    if items.len() > 0 {
        let front = items.drop_last();
        let last = items.last();
        lemma_sorted_in_order(front, before);
        let sorted = sorted_by(front, before);
        let j = lemma_insert_is_insert(sorted, last, before);
        let after = sorted.insert(j, last);
        assert forall|a: int, b: int| 0 <= a <= b < after.len() implies !before(
            after[b],
            after[a],
        ) by {
            if a == b {
                if before(after[a], after[a]) {
                    assert(!before(after[a], after[a]));
                }
            } else if b < j {
                assert(after[a] == sorted[a] && after[b] == sorted[b]);
            } else if a > j {
                assert(after[a] == sorted[a - 1] && after[b] == sorted[b - 1]);
            } else if a == j {
                assert(after[b] == sorted[b - 1]);
                assert(before(last, sorted[b - 1]));
            } else if b == j {
                assert(after[a] == sorted[a]);
                assert(!before(last, sorted[j - 1]));
                assert(!before(sorted[j - 1], sorted[a]));
            } else {
                assert(after[a] == sorted[a] && after[b] == sorted[b - 1]);
            }
        }
    }
}

/// What holds of every item of the run holds of every item of the run in
/// order.
pub proof fn lemma_sorted_keeps<T>(
    items: Seq<T>,
    before: spec_fn(T, T) -> bool,
    p: spec_fn(T) -> bool,
)
    requires
        forall|i: int| 0 <= i < items.len() ==> p(#[trigger] items[i]),
    ensures
        forall|i: int|
            0 <= i < sorted_by(items, before).len() ==> p(#[trigger] sorted_by(items, before)[i]),
    decreases items.len(),
{
    if items.len() > 0 {
        let front = items.drop_last();
        let last = items.last();
        assert forall|i: int| 0 <= i < front.len() implies p(#[trigger] front[i]) by {
            assert(front[i] == items[i]);
        }
        lemma_sorted_keeps(front, before, p);
        let sorted = sorted_by(front, before);
        let j = lemma_insert_is_insert(sorted, last, before);
        let after = sorted.insert(j, last);
        assert forall|i: int| 0 <= i < after.len() implies p(#[trigger] after[i]) by {
            if i < j {
                assert(after[i] == sorted[i]);
            } else if i == j {
                assert(after[i] == items[items.len() - 1]);
            } else {
                assert(after[i] == sorted[i - 1]);
            }
        }
    }
}

/// Picking from a run with one more item picks that item too if it is one to
/// pick, and changes nothing otherwise.
pub proof fn lemma_filter_push<T>(s: Seq<T>, x: T, p: spec_fn(T) -> bool)
    ensures
        s.push(x).filter(p) == if p(x) {
            s.filter(p).push(x)
        } else {
            s.filter(p)
        },
{
    reveal(Seq::filter);
    assert(s.push(x).drop_last() =~= s);
}

/// What holds of every item of a run holds of every item picked from it.
pub proof fn lemma_filter_keeps<T>(s: Seq<T>, p: spec_fn(T) -> bool, q: spec_fn(T) -> bool)
    requires
        forall|k: int| 0 <= k < s.len() ==> q(#[trigger] s[k]),
    ensures
        forall|k: int| 0 <= k < s.filter(p).len() ==> q(#[trigger] s.filter(p)[k]),
    decreases s.len(),
{
    if s.len() == 0 {
        reveal(Seq::filter);
    } else {
        let front = s.drop_last();
        let last = s.last();
        assert forall|k: int| 0 <= k < front.len() implies q(#[trigger] front[k]) by {
            assert(front[k] == s[k]);
        }
        lemma_filter_keeps(front, p, q);
        assert(s =~= front.push(last));
        lemma_filter_push(front, last, p);
        assert(q(s[s.len() - 1]));
        assert forall|k: int| 0 <= k < s.filter(p).len() implies q(#[trigger] s.filter(p)[k]) by {
            if k < front.filter(p).len() {
                assert(s.filter(p)[k] == front.filter(p)[k]);
            }
        }
    }
}

/// Picking from a run that holds nothing to pick gives the empty run.
pub proof fn lemma_filter_none<T>(s: Seq<T>, p: spec_fn(T) -> bool)
    requires
        forall|k: int| 0 <= k < s.len() ==> !p(#[trigger] s[k]),
    ensures
        s.filter(p) == Seq::<T>::empty(),
    decreases s.len(),
{
    reveal(Seq::filter);
    if s.len() > 0 {
        assert forall|k: int| 0 <= k < s.drop_last().len() implies !p(
            #[trigger] s.drop_last()[k],
        ) by {
            assert(s.drop_last()[k] == s[k]);
        }
        lemma_filter_none(s.drop_last(), p);
        assert(!p(s[s.len() - 1]));
    }
}

/// Items that the order does not tell apart keep their places towards each
/// other. Take a kind of item of which the order puts none before another:
/// picking out the items of that kind gives the same run before and after
/// the run is put in order.
pub proof fn lemma_sorted_is_stable<T>(
    items: Seq<T>,
    before: spec_fn(T, T) -> bool,
    kind: spec_fn(T) -> bool,
)
    requires
        forall|a: T, b: T| kind(a) && kind(b) ==> !(#[trigger] before(a, b)),
    ensures
        sorted_by(items, before).filter(kind) == items.filter(kind),
    decreases items.len(),
{
    if items.len() == 0 {
    } else {
        let front = items.drop_last();
        let last = items.last();
        lemma_sorted_is_stable(front, before, kind);
        let sorted = sorted_by(front, before);
        let j = lemma_insert_is_insert(sorted, last, before);
        let head = sorted.take(j);
        let tail = sorted.skip(j);
        assert(sorted =~= head + tail);
        assert(sorted.insert(j, last) =~= head.push(last) + tail);
        Seq::filter_distributes_over_add(head, tail, kind);
        Seq::filter_distributes_over_add(head.push(last), tail, kind);
        assert(items =~= front.push(last));
        lemma_filter_push(front, last, kind);
        lemma_filter_push(head, last, kind);
        if kind(last) {
            assert forall|k: int| 0 <= k < tail.len() implies !kind(#[trigger] tail[k]) by {
                assert(tail[k] == sorted[j + k]);
                assert(before(last, sorted[j + k]));
            }
            lemma_filter_none(tail, kind);
            assert(head.filter(kind) + Seq::<T>::empty() =~= head.filter(kind));
            assert(head.filter(kind).push(last) + Seq::<T>::empty() =~= head.filter(kind).push(
                last,
            ));
        }
    }
}

} // verus!
