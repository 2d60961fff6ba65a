//! Lists in order: stable sorting, and the place of an item in a sorted list.

use vstd::prelude::*;

verus! {

/// Items that come in an order. Neither of two items need come before the other.
pub trait Ranked: DeepView + Sized {
    spec fn before(a: Self::V, b: Self::V) -> bool;

    proof fn before_is_transitive(a: Self::V, b: Self::V, c: Self::V)
        requires
            Self::before(a, b),
            Self::before(b, c),
        ensures
            Self::before(a, c),
    ;

    proof fn before_is_irreflexive(a: Self::V)
        ensures
            !Self::before(a, a),
    ;

    /// Items of which neither comes first stand alike towards every other.
    proof fn before_is_weak(a: Self::V, b: Self::V, c: Self::V)
        requires
            Self::before(a, c),
        ensures
            Self::before(a, b) || Self::before(b, c),
    ;

    fn precedes(&self, other: &Self) -> (r: bool)
        ensures
            r == Self::before(self.deep_view(), other.deep_view()),
    ;
}

/// How many leading items `x` does not come before.
pub open spec fn place_behind<T: Ranked>(items: Seq<T::V>, x: T::V) -> int
    decreases items.len(),
{
    if items.len() == 0 || T::before(x, items[0]) {
        0
    } else {
        1 + place_behind::<T>(items.drop_first(), x)
    }
}

/// The items in order. Items of which neither comes first keep their order.
pub open spec fn in_order<T: Ranked>(items: Seq<T::V>) -> Seq<T::V>
    decreases items.len(),
{
    if items.len() == 0 {
        Seq::empty()
    } else {
        let rest = in_order::<T>(items.drop_last());
        rest.insert(place_behind::<T>(rest, items.last()), items.last())
    }
}

/// No item comes before one that stands ahead of it.
pub open spec fn is_sorted<T: Ranked>(items: Seq<T::V>) -> bool {
    forall|i: int, j: int|
        0 <= i < j < items.len() ==> !T::before(#[trigger] items[j], #[trigger] items[i])
}

pub proof fn lemma_place_behind<T: Ranked>(items: Seq<T::V>, x: T::V)
    ensures
        0 <= place_behind::<T>(items, x) <= items.len(),
        forall|i: int|
            0 <= i < place_behind::<T>(items, x) ==> !T::before(x, #[trigger] items[i]),
        place_behind::<T>(items, x) < items.len() ==> T::before(
            x,
            items[place_behind::<T>(items, x)],
        ),
    decreases items.len(),
{
    if items.len() > 0 && !T::before(x, items[0]) {
        let rest = items.drop_first();
        lemma_place_behind::<T>(rest, x);
        assert forall|i: int| 0 <= i < place_behind::<T>(items, x) implies !T::before(
            x,
            #[trigger] items[i],
        ) by {
            if i > 0 {
                assert(items[i] == rest[i - 1]);
            }
        }
    }
}

/// Sorting puts the items in order, and keeps each of them.
pub proof fn law_sorting_orders_and_keeps<T: Ranked>(items: Seq<T::V>)
    ensures
        is_sorted::<T>(in_order::<T>(items)),
        in_order::<T>(items).to_multiset() == items.to_multiset(),
        in_order::<T>(items).len() == items.len(),
    decreases items.len(),
{
    if items.len() > 0 {
        let before = items.drop_last();
        let x = items.last();
        law_sorting_orders_and_keeps::<T>(before);
        let rest = in_order::<T>(before);
        lemma_place_behind::<T>(rest, x);
        let p = place_behind::<T>(rest, x);
        let after = rest.insert(p, x);
        assert forall|i: int, j: int| 0 <= i < j < after.len() implies !T::before(
            #[trigger] after[j],
            #[trigger] after[i],
        ) by {
            let old_i = if i < p {
                i
            } else {
                i - 1
            };
            let old_j = if j < p {
                j
            } else {
                j - 1
            };
            if i == p {
                assert(after[j] == rest[j - 1]);
                if T::before(rest[j - 1], x) {
                    if p < j - 1 {
                        T::before_is_transitive(rest[j - 1], x, rest[p]);
                    } else {
                        T::before_is_transitive(x, rest[p], x);
                        T::before_is_irreflexive(x);
                    }
                }
            } else if j == p {
                assert(after[i] == rest[i]);
            } else {
                assert(after[i] == rest[old_i]);
                assert(after[j] == rest[old_j]);
            }
        }
        after.to_multiset_ensures();
        before.to_multiset_ensures();
        assert(after[p] == x);
        assert(after.contains(x));
        assert(after.remove(p) =~= rest);
        assert(rest.to_multiset() =~= after.to_multiset().remove(x));
        assert(after.to_multiset() =~= rest.to_multiset().insert(x));
        assert(items =~= before.push(x));
    } else {
        assert(in_order::<T>(items) =~= items);
    }
}

proof fn lemma_place_found<T: Ranked>(items: Seq<T::V>, x: T::V, p: int)
    requires
        is_sorted::<T>(items),
        0 <= p <= items.len(),
        p > 0 ==> !T::before(x, items[p - 1]),
        p < items.len() ==> T::before(x, items[p]),
    ensures
        place_behind::<T>(items, x) == p,
{
    lemma_place_behind::<T>(items, x);
    let q = place_behind::<T>(items, x);
    if q < p {
        if q < p - 1 {
            T::before_is_weak(x, items[p - 1], items[q]);
        }
    }
}

fn find_behind<T: Ranked>(items: &Vec<T>, x: &T) -> (r: usize)
    requires
        is_sorted::<T>(items.deep_view()),
    ensures
        r == place_behind::<T>(items.deep_view(), x.deep_view()),
        r <= items@.len(),
{
    let mut i: usize = items.len();
    while i > 0 && x.precedes(&items[i - 1])
        invariant
            i <= items@.len(),
            i < items@.len() ==> T::before(x.deep_view(), items.deep_view()[i as int]),
        decreases i,
    {
        i = i - 1;
    }
    proof {
        if i > 0 {
            assert(items.deep_view()[i - 1] == items@[i - 1].deep_view());
        }
        lemma_place_found::<T>(items.deep_view(), x.deep_view(), i as int);
    }
    i
}

/// Sorts a list. Items of which neither comes first keep their order.
pub fn sort<T: Ranked>(items: Vec<T>) -> (r: Vec<T>)
    ensures
        r.deep_view() == in_order::<T>(items.deep_view()),
{
    let ghost all = items.deep_view();
    let mut items = items;
    let mut waiting: Vec<T> = Vec::new();
    while items.len() > 0
        invariant
            all.len() == items@.len() + waiting@.len(),
            items.deep_view() =~= all.take(items@.len() as int),
            forall|i: int|
                0 <= i < waiting@.len() ==> (#[trigger] waiting@[i]).deep_view() == all[all.len()
                    - 1 - i],
        decreases items@.len(),
    {
        let ghost before = items.deep_view();
        let item = items.pop();
        if let Some(item) = item {
            assert(item.deep_view() == before.last());
            assert(items.deep_view() =~= before.drop_last());
            waiting.push(item);
        }
    }
    let mut r: Vec<T> = Vec::new();
    assert(all.take(0) =~= seq![]);
    assert(r.deep_view() =~= seq![]);
    while waiting.len() > 0
        invariant
            all.len() == r@.len() + waiting@.len(),
            r.deep_view() == in_order::<T>(all.take(r@.len() as int)),
            forall|i: int|
                0 <= i < waiting@.len() ==> (#[trigger] waiting@[i]).deep_view() == all[all.len()
                    - 1 - i],
        decreases waiting@.len(),
    {
        let ghost n = r@.len() as int;
        let ghost before = r.deep_view();
        assert(waiting@[waiting@.len() - 1].deep_view() == all[n]);
        assert(all.take(n + 1).drop_last() =~= all.take(n));
        let item = waiting.pop();
        if let Some(item) = item {
            proof {
                law_sorting_orders_and_keeps::<T>(all.take(n));
            }
            let at = find_behind(&r, &item);
            r.insert(at, item);
            assert(r.deep_view() =~= before.insert(at as int, item.deep_view()));
        }
    }
    assert(all.take(r@.len() as int) =~= all);
    r
}

/// The rows for which `keep` says so.
pub(crate) fn retain<T: DeepView>(
    rows: Vec<T>,
    keep: &Vec<bool>,
    Ghost(wanted): Ghost<spec_fn(T::V) -> bool>,
) -> (r: Vec<T>)
    requires
        keep@.len() == rows@.len(),
        forall|i: int| 0 <= i < keep@.len() ==> #[trigger] keep@[i] == wanted(rows.deep_view()[i]),
    ensures
        r.deep_view() == rows.deep_view().filter(wanted),
{
    let ghost all = rows.deep_view();
    let total: usize = keep.len();
    let mut r: Vec<T> = Vec::new();
    let mut i: usize = 0;
    proof {
        reveal(Seq::filter);
    }
    assert(all.take(0) =~= seq![]);
    assert(r.deep_view() =~= seq![]);
    for row in it: rows
        invariant
            it.seq() == rows@,
            all == rows.deep_view(),
            i == it.index(),
            total == keep@.len(),
            keep@.len() == rows@.len(),
            forall|j: int|
                0 <= j < keep@.len() ==> #[trigger] keep@[j] == wanted(rows.deep_view()[j]),
            r.deep_view() == all.take(i as int).filter(wanted),
    {
        let ghost before = r.deep_view();
        proof {
            reveal(Seq::filter);
        }
        assert(row == rows@[i as int]);
        assert(all.take(i + 1).drop_last() =~= all.take(i as int));
        assert(all.take(i + 1).last() == row.deep_view());
        if keep[i] {
            r.push(row);
            assert(r.deep_view() =~= before.push(row.deep_view()));
        }
        i = i + 1;
    }
    assert(all.take(i as int) =~= all);
    r
}

/// What holds of every item holds of every sorted item.
pub proof fn lemma_in_order_keeps<T: Ranked>(items: Seq<T::V>, holds: spec_fn(T::V) -> bool)
    requires
        forall|i: int| 0 <= i < items.len() ==> holds(#[trigger] items[i]),
    ensures
        forall|i: int|
            0 <= i < in_order::<T>(items).len() ==> holds(#[trigger] in_order::<T>(items)[i]),
    decreases items.len(),
{
    if items.len() > 0 {
        let before = items.drop_last();
        assert forall|i: int| 0 <= i < before.len() implies holds(#[trigger] before[i]) by {
            assert(before[i] == items[i]);
        }
        lemma_in_order_keeps::<T>(before, holds);
        let rest = in_order::<T>(before);
        let p = place_behind::<T>(rest, items.last());
        lemma_place_behind::<T>(rest, items.last());
        let after = rest.insert(p, items.last());
        assert(holds(items[items.len() - 1]));
        assert forall|i: int| 0 <= i < after.len() implies holds(#[trigger] after[i]) by {
            if i < p {
                assert(after[i] == rest[i]);
            } else if i > p {
                assert(after[i] == rest[i - 1]);
            }
        }
    }
}

/// An item is among the sorted ones if and only if it is among the items.
pub proof fn lemma_in_order_contains<T: Ranked>(items: Seq<T::V>, x: T::V)
    ensures
        in_order::<T>(items).contains(x) <==> items.contains(x),
{
    law_sorting_orders_and_keeps::<T>(items);
    items.to_multiset_ensures();
    in_order::<T>(items).to_multiset_ensures();
    assert(items.contains(x) <==> items.to_multiset().count(x) > 0);
    assert(in_order::<T>(items).contains(x) <==> in_order::<T>(items).to_multiset().count(x) > 0);
}

/// Items that all differ still do once they are sorted.
pub proof fn lemma_in_order_stays_distinct<T: Ranked>(items: Seq<T::V>, id: spec_fn(T::V) -> int)
    requires
        forall|i: int, j: int|
            0 <= i < j < items.len() ==> id(#[trigger] items[i]) != id(#[trigger] items[j]),
    ensures
        forall|i: int, j: int|
            0 <= i < j < items.len() ==> id(#[trigger] in_order::<T>(items)[i]) != id(
                #[trigger] in_order::<T>(items)[j],
            ),
        in_order::<T>(items).len() == items.len(),
    decreases items.len(),
{
    law_sorting_orders_and_keeps::<T>(items);
    if items.len() > 0 {
        let front = items.drop_last();
        let x = items.last();
        assert forall|i: int, j: int| 0 <= i < j < front.len() implies id(#[trigger] front[i]) != id(
            #[trigger] front[j],
        ) by {
            assert(front[i] == items[i] && front[j] == items[j]);
        }
        lemma_in_order_stays_distinct::<T>(front, id);
        let rest = in_order::<T>(front);
        lemma_place_behind::<T>(rest, x);
        let p = place_behind::<T>(rest, x);
        let after = rest.insert(p, x);
        assert forall|i: int| 0 <= i < rest.len() implies id(#[trigger] rest[i]) != id(x) by {
            lemma_in_order_contains::<T>(front, rest[i]);
            let k = choose|k: int| 0 <= k < front.len() && front[k] == rest[i];
            assert(items[k] == rest[i]);
            assert(items[items.len() - 1] == x);
        }
        assert forall|i: int, j: int| 0 <= i < j < after.len() implies id(#[trigger] after[i]) != id(
            #[trigger] after[j],
        ) by {
            let old_i = if i < p {
                i
            } else {
                i - 1
            };
            let old_j = if j < p {
                j
            } else {
                j - 1
            };
            if i == p {
                assert(after[j] == rest[j - 1]);
            } else if j == p {
                assert(after[i] == rest[i]);
            } else {
                assert(after[i] == rest[old_i] && after[j] == rest[old_j]);
            }
        }
    }
}

} // verus!
