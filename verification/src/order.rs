//! Stable sorting, as insertion of one item after another, and what it promises.

use vstd::prelude::*;

verus! {

/// Where `item` goes among sorted items: behind everything it is not less than.
pub open spec fn slot<T>(sorted: Seq<T>, item: T, less: spec_fn(T, T) -> bool) -> int
    decreases sorted.len(),
{
    if sorted.len() > 0 && less(item, sorted.last()) {
        slot(sorted.drop_last(), item, less)
    } else {
        sorted.len() as int
    }
}

/// The items in order; those that are equal to each other stay as they stood.
pub open spec fn sorted<T>(items: Seq<T>, less: spec_fn(T, T) -> bool) -> Seq<T>
    decreases items.len(),
{
    if items.len() == 0 {
        items
    } else {
        let rest = sorted(items.drop_last(), less);
        rest.insert(slot(rest, items.last(), less), items.last())
    }
}

/// `less` orders items into classes of equals: nothing is less than itself, and
/// not being less carries over.
pub open spec fn is_order<T>(less: spec_fn(T, T) -> bool) -> bool {
    &&& forall|a: T| !#[trigger] less(a, a)
    &&& forall|a: T, b: T| #[trigger] less(a, b) ==> !less(b, a)
    &&& forall|a: T, b: T, c: T| !#[trigger] less(a, b) && !#[trigger] less(b, c) ==> !less(a, c)
}

/// Neither is less than the other.
pub open spec fn equals<T>(less: spec_fn(T, T) -> bool, a: T, b: T) -> bool {
    !less(a, b) && !less(b, a)
}

pub proof fn slot_bounds<T>(sorted: Seq<T>, item: T, less: spec_fn(T, T) -> bool)
    ensures
        0 <= slot(sorted, item, less) <= sorted.len(),
        forall|i: int| slot(sorted, item, less) <= i < sorted.len() ==> less(item, #[trigger] sorted[i]),
        slot(sorted, item, less) > 0 ==> !less(item, sorted[slot(sorted, item, less) - 1]),
    decreases sorted.len(),
{
    if sorted.len() > 0 && less(item, sorted.last()) {
        slot_bounds(sorted.drop_last(), item, less);
        assert forall|i: int| slot(sorted, item, less) <= i < sorted.len() implies less(item, #[trigger] sorted[i]) by {
            if i < sorted.len() - 1 {
                assert(sorted.drop_last()[i] == sorted[i]);
            }
        }
    }
}

/// Sorting keeps every item, as often as it occurred.
pub proof fn sorted_is_a_permutation<T>(items: Seq<T>, less: spec_fn(T, T) -> bool)
    ensures
        sorted(items, less).len() == items.len(),
        sorted(items, less).to_multiset() == items.to_multiset(),
    decreases items.len(),
{
    broadcast use vstd::seq_lib::group_to_multiset_ensures;

    if items.len() > 0 {
        let rest = sorted(items.drop_last(), less);
        sorted_is_a_permutation(items.drop_last(), less);
        slot_bounds(rest, items.last(), less);
        let at = slot(rest, items.last(), less);
        assert(items =~= items.drop_last().push(items.last()));
        assert(rest.insert(at, items.last()).to_multiset() =~= rest.to_multiset().insert(items.last()));
    }
}

/// Sorting keeps the items and adds none.
pub proof fn sorted_keeps_items<T>(items: Seq<T>, less: spec_fn(T, T) -> bool)
    ensures
        sorted(items, less).len() == items.len(),
        forall|item: T| #[trigger] sorted(items, less).contains(item) <==> items.contains(item),
        items.no_duplicates() ==> sorted(items, less).no_duplicates(),
    decreases items.len(),
{
    if items.len() > 0 {
        let rest = sorted(items.drop_last(), less);
        let last = items.last();
        sorted_keeps_items(items.drop_last(), less);
        slot_bounds(rest, last, less);
        let at = slot(rest, last, less);
        let all = sorted(items, less);
        assert forall|item: T| #[trigger] all.contains(item) <==> items.contains(item) by {
            if all.contains(item) {
                let i = choose|i: int| 0 <= i < all.len() && all[i] == item;
                if i < at {
                    assert(rest[i] == item);
                    assert(rest.contains(item));
                    let j = choose|j: int| 0 <= j < items.drop_last().len() && items.drop_last()[j] == item;
                    assert(items[j] == item);
                } else if i == at {
                    assert(items[items.len() - 1] == item);
                } else {
                    assert(rest[i - 1] == item);
                    assert(rest.contains(item));
                    let j = choose|j: int| 0 <= j < items.drop_last().len() && items.drop_last()[j] == item;
                    assert(items[j] == item);
                }
            }
            if items.contains(item) {
                let j = choose|j: int| 0 <= j < items.len() && items[j] == item;
                if j == items.len() - 1 {
                    assert(all[at] == item);
                } else {
                    assert(items.drop_last()[j] == item);
                    assert(items.drop_last().contains(item));
                    assert(rest.contains(item));
                    let i = choose|i: int| 0 <= i < rest.len() && rest[i] == item;
                    if i < at {
                        assert(all[i] == item);
                    } else {
                        assert(all[i + 1] == item);
                    }
                }
            }
        }
        if items.no_duplicates() {
            assert(items.drop_last().no_duplicates());
            assert forall|i: int, j: int| 0 <= i < j < all.len() implies all[i] != all[j] by {
                let fresh = last;
                assert(!rest.contains(fresh)) by {
                    if rest.contains(fresh) {
                        assert(items.drop_last().contains(fresh));
                        let k = choose|k: int| 0 <= k < items.drop_last().len() && items.drop_last()[k] == fresh;
                        assert(items[k] == items[items.len() - 1]);
                    }
                }
                let a = if i < at { i } else { i - 1 };
                let b = if j < at { j } else { j - 1 };
                if i == at {
                    assert(all[j] == rest[b]);
                } else if j == at {
                    assert(all[i] == rest[a]);
                } else {
                    assert(all[i] == rest[a] && all[j] == rest[b]);
                }
            }
        }
    }
}

/// Nothing sorted stands behind something it is less than.
pub proof fn sorted_is_in_order<T>(items: Seq<T>, less: spec_fn(T, T) -> bool)
    requires
        is_order(less),
    ensures
        forall|i: int, j: int|
            0 <= i < j < sorted(items, less).len() ==> !less(#[trigger] sorted(items, less)[j], #[trigger] sorted(items, less)[i]),
    decreases items.len(),
{
    if items.len() > 0 {
        let rest = sorted(items.drop_last(), less);
        let last = items.last();
        sorted_is_in_order(items.drop_last(), less);
        slot_bounds(rest, last, less);
        let at = slot(rest, last, less);
        let all = sorted(items, less);
        assert forall|i: int, j: int| 0 <= i < j < all.len() implies !less(#[trigger] all[j], #[trigger] all[i]) by {
            if i == at {
                assert(all[j] == rest[j - 1]);
                assert(less(last, rest[j - 1]));
            } else if j == at {
                assert(all[i] == rest[i]);
                assert(!less(last, rest[at - 1]));
                if i < at - 1 {
                    assert(!less(rest[at - 1], rest[i]));
                }
            } else {
                let a = if i < at { i } else { i - 1 };
                let b = if j < at { j } else { j - 1 };
                assert(all[i] == rest[a] && all[j] == rest[b]);
            }
        }
    }
}

proof fn filter_of_none<T>(items: Seq<T>, kept: spec_fn(T) -> bool)
    requires
        forall|i: int| 0 <= i < items.len() ==> !kept(#[trigger] items[i]),
    ensures
        items.filter(kept) == Seq::<T>::empty(),
    decreases items.len(),
{
    reveal(Seq::filter);
    if items.len() > 0 {
        assert forall|i: int| 0 <= i < items.drop_last().len() implies !kept(#[trigger] items.drop_last()[i]) by {
            assert(items.drop_last()[i] == items[i]);
        }
        filter_of_none(items.drop_last(), kept);
        assert(!kept(items[items.len() - 1]));
    }
    assert(items.filter(kept) =~= Seq::<T>::empty());
}

/// Items that are equal to each other stay in the order in which they stood.
pub proof fn sorted_is_stable<T>(items: Seq<T>, less: spec_fn(T, T) -> bool, like: T)
    requires
        is_order(less),
    ensures
        sorted(items, less).filter(|item: T| equals(less, item, like)) == items.filter(
            |item: T| equals(less, item, like),
        ),
    decreases items.len(),
{
    let kept = |item: T| equals(less, item, like);
    if items.len() == 0 {
        assert(sorted(items, less) =~= items);
    } else {
        let rest = sorted(items.drop_last(), less);
        let last = items.last();
        sorted_is_stable(items.drop_last(), less, like);
        slot_bounds(rest, last, less);
        let at = slot(rest, last, less);
        let front = rest.take(at);
        let back = rest.skip(at);
        assert(rest =~= front + back);
        assert(rest.insert(at, last) =~= front + (seq![last] + back));
        Seq::filter_distributes_over_add(front, back, kept);
        Seq::filter_distributes_over_add(front, seq![last] + back, kept);
        Seq::filter_distributes_over_add(seq![last], back, kept);
        assert(items =~= items.drop_last() + seq![last]);
        Seq::filter_distributes_over_add(items.drop_last(), seq![last], kept);
        let one = seq![last];
        assert(one.filter(kept) == if kept(last) { one } else { Seq::<T>::empty() }) by {
            reveal(Seq::filter);
            assert(one.drop_last() =~= Seq::<T>::empty());
            assert(one.drop_last().filter(kept) =~= Seq::<T>::empty());
            assert(one.filter(kept) =~= if kept(last) { one } else { Seq::<T>::empty() });
        }
        if kept(last) {
            assert forall|i: int| 0 <= i < back.len() implies !kept(#[trigger] back[i]) by {
                assert(back[i] == rest[at + i]);
                assert(less(last, rest[at + i]));
                if !less(like, back[i]) {
                    assert(!less(last, like));
                }
            }
            filter_of_none(back, kept);
            assert(rest.insert(at, last).filter(kept) =~= front.filter(kept) + one);
            assert(rest.filter(kept) =~= front.filter(kept));
        } else {
            assert((one + back).filter(kept) =~= back.filter(kept));
        }
    }
}


/// The values of the items, added up.
pub open spec fn total<T>(items: Seq<T>, value: spec_fn(T) -> nat) -> nat
    decreases items.len(),
{
    if items.len() == 0 {
        0
    } else {
        total(items.drop_last(), value) + value(items.last())
    }
}

proof fn total_of_insert<T>(items: Seq<T>, at: int, item: T, value: spec_fn(T) -> nat)
    requires
        0 <= at <= items.len(),
    ensures
        total(items.insert(at, item), value) == total(items, value) + value(item),
    decreases items.len(),
{
    let more = items.insert(at, item);
    if at == items.len() {
        assert(more.drop_last() =~= items);
    } else {
        total_of_insert(items.drop_last(), at, item, value);
        assert(more.drop_last() =~= items.drop_last().insert(at, item));
        assert(more.last() == items.last());
    }
}

/// Sorting does not change what the items add up to.
pub proof fn sorted_keeps_total<T>(items: Seq<T>, less: spec_fn(T, T) -> bool, value: spec_fn(T) -> nat)
    ensures
        total(sorted(items, less), value) == total(items, value),
    decreases items.len(),
{
    if items.len() > 0 {
        let rest = sorted(items.drop_last(), less);
        sorted_keeps_total(items.drop_last(), less, value);
        slot_bounds(rest, items.last(), less);
        total_of_insert(rest, slot(rest, items.last(), less), items.last(), value);
    }
}

} // verus!
