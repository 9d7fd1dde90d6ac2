//! Names in order: a set of names as the one list that ascends.

use vstd::prelude::*;
use crate::keyed::{Keyed, Names};
use crate::text;

verus! {

broadcast use vstd::string::group_string_axioms;

/// Every name comes before all that follow it.
pub open spec fn ascending(names: Seq<Seq<char>>) -> bool {
    forall|i: int, j: int| 0 <= i < j < names.len() ==> text::before(#[trigger] names[i], #[trigger] names[j])
}

/// The list is of exactly these names, in order.
pub open spec fn lists(list: Seq<Seq<char>>, names: Set<Seq<char>>) -> bool {
    &&& ascending(list)
    &&& forall|name: Seq<char>| #[trigger] list.contains(name) <==> names.contains(name)
}

/// The names in order.
pub open spec fn in_order(names: Set<Seq<char>>) -> Seq<Seq<char>> {
    choose|list: Seq<Seq<char>>| lists(list, names)
}

/// There is one way to list names in order.
pub proof fn an_order_is_the_order(list: Seq<Seq<char>>, other: Seq<Seq<char>>, names: Set<Seq<char>>)
    requires
        lists(list, names),
        lists(other, names),
    ensures
        list == other,
    decreases list.len(),
{
    if list.len() == 0 {
        if other.len() > 0 {
            assert(other.contains(other[0]));
            assert(list.contains(other[0]));
        }
        assert(list =~= other);
    } else if other.len() == 0 {
        assert(list.contains(list[0]));
        assert(other.contains(list[0]));
    } else {
        let last = list.last();
        let end = other.last();
        assert(list.contains(list[list.len() - 1]));
        assert(other.contains(other[other.len() - 1]));
        assert(other.contains(last) && list.contains(end));
        let i = choose|i: int| 0 <= i < other.len() && other[i] == last;
        let j = choose|j: int| 0 <= j < list.len() && list[j] == end;
        if i < other.len() - 1 && j < list.len() - 1 {
            assert(text::before(other[i], other[other.len() - 1]));
            assert(text::before(list[j], list[list.len() - 1]));
            text::before_is_transitive(last, end, last);
            text::before_is_irreflexive(last);
        }
        assert(last == end);
        shorter(list, names);
        shorter(other, names);
        an_order_is_the_order(list.drop_last(), other.drop_last(), names.remove(last));
        assert(list =~= list.drop_last().push(last));
        assert(other =~= other.drop_last().push(last));
    }
}

proof fn shorter(list: Seq<Seq<char>>, names: Set<Seq<char>>)
    requires
        lists(list, names),
        list.len() > 0,
    ensures
        lists(list.drop_last(), names.remove(list.last())),
{
    let rest = list.drop_last();
    let last = list.last();
    assert forall|i: int, j: int| 0 <= i < j < rest.len() implies text::before(#[trigger] rest[i], #[trigger] rest[j]) by {
        assert(text::before(list[i], list[j]));
    }
    assert forall|name: Seq<char>| #[trigger] rest.contains(name) <==> names.remove(last).contains(name) by {
        if rest.contains(name) {
            let i = choose|i: int| 0 <= i < rest.len() && rest[i] == name;
            assert(list[i] == name);
            assert(list.contains(name));
            assert(text::before(list[i], list[list.len() - 1]));
            text::before_is_irreflexive(name);
        }
        if names.remove(last).contains(name) {
            assert(list.contains(name));
            let i = choose|i: int| 0 <= i < list.len() && list[i] == name;
            assert(rest[i] == name);
        }
    }
}

/// A list of the names in order is the list of the names in order.
pub proof fn in_order_is(list: Seq<Seq<char>>, names: Set<Seq<char>>)
    requires
        lists(list, names),
    ensures
        in_order(names) == list,
{
    an_order_is_the_order(in_order(names), list, names);
}

/// Puts a name in its place; nothing happens when it is there.
pub fn place_in_order(list: &mut Vec<String>, name: String)
    requires
        ascending(text::texts(old(list)@)),
    ensures
        ascending(text::texts(final(list)@)),
        forall|other: Seq<char>|
            #[trigger] text::texts(final(list)@).contains(other) <==> text::texts(old(list)@).contains(other) || other
                == name@,
{
    let ghost before = text::texts(list@);
    let ghost new = name@;
    let mut at: usize = list.len();
    while at > 0
        invariant
            at <= list@.len(),
            before == text::texts(list@),
            new == name@,
            ascending(before),
            forall|j: int| at <= j < before.len() ==> text::before(new, #[trigger] before[j]),
        ensures
            at <= list@.len(),
            forall|j: int| at <= j < before.len() ==> text::before(new, #[trigger] before[j]),
            at > 0 ==> !text::before(new, before[at - 1]),
        decreases at,
    {
        assert(before[at - 1] == list@[at - 1]@);
        if !text::is_before(&name, &list[at - 1]) {
            break;
        }
        at -= 1;
    }
    if at > 0 && text::same(&list[at - 1], &name) {
        assert(before[at - 1] == new);
        assert(before.contains(new));
        return;
    }
    proof {
        if at > 0 && !text::before(before[at - 1], new) {
            text::before_is_total(new, before[at - 1]);
        }
    }
    list.insert(at, name);
    proof {
        let after = text::texts(list@);
        assert(after =~= before.insert(at as int, new));
        assert forall|i: int, j: int| 0 <= i < j < after.len() implies text::before(#[trigger] after[i], #[trigger] after[j]) by {
            let a = if i < at { i } else { i - 1 };
            let b = if j < at { j } else { j - 1 };
            if i == at {
                assert(after[j] == before[b]);
            } else if j == at {
                assert(after[i] == before[a]);
                if a < at - 1 {
                    assert(text::before(before[a], before[at - 1]));
                    text::before_is_transitive(before[a], before[at - 1], new);
                }
            } else {
                assert(after[i] == before[a] && after[j] == before[b]);
            }
        }
        assert forall|other: Seq<char>| #[trigger] after.contains(other) <==> before.contains(other) || other == new by {
            if after.contains(other) {
                let i = choose|i: int| 0 <= i < after.len() && after[i] == other;
                if i != at {
                    assert(before[if i < at { i } else { i - 1 }] == other);
                }
            }
            if before.contains(other) {
                let i = choose|i: int| 0 <= i < before.len() && before[i] == other;
                assert(after[if i < at { i } else { i + 1 }] == other);
            }
            assert(after[at as int] == new);
        }
    }
}

/// The names of a set, in order.
pub fn sorted_names(names: &Names) -> (list: Vec<String>)
    ensures
        text::texts(list@) == in_order(names@),
        lists(text::texts(list@), names@),
{
    let ghost all = names.listed();
    let mut list: Vec<String> = Vec::new();
    let mut i: usize = 0;
    assert(text::texts(list@) =~= Seq::empty());
    while i < names.len()
        invariant
            i <= all.len(),
            all == names.listed(),
            ascending(text::texts(list@)),
            forall|name: Seq<char>|
                #[trigger] text::texts(list@).contains(name) <==> all.take(i as int).contains(name),
        decreases all.len() - i,
    {
        let name: String = names.at(i).clone();
        place_in_order(&mut list, name);
        proof {
            taken_more(all, i as int);
        }
        i += 1;
    }
    proof {
        assert(all.take(all.len() as int) =~= all);
        names.listed_is_the_set();
        in_order_is(text::texts(list@), names@);
    }
    list
}

/// The names of a table, in order.
pub fn sorted_keys<V>(table: &Keyed<V>) -> (list: Vec<String>)
    ensures
        text::texts(list@) == in_order(table@.dom()),
        lists(text::texts(list@), table@.dom()),
{
    let ghost all = table.listed();
    let mut list: Vec<String> = Vec::new();
    let mut i: usize = 0;
    assert(text::texts(list@) =~= Seq::empty());
    while i < table.len()
        invariant
            i <= all.len(),
            all == table.listed(),
            ascending(text::texts(list@)),
            forall|name: Seq<char>|
                #[trigger] text::texts(list@).contains(name) <==> all.take(i as int).contains(name),
        decreases all.len() - i,
    {
        let name: String = table.name_at(i).clone();
        place_in_order(&mut list, name);
        proof {
            taken_more(all, i as int);
        }
        i += 1;
    }
    proof {
        assert(all.take(all.len() as int) =~= all);
        table.listed_is_the_domain();
        in_order_is(text::texts(list@), table@.dom());
    }
    list
}

/// One name more is taken from a list.
pub proof fn taken_more(all: Seq<Seq<char>>, i: int)
    requires
        0 <= i < all.len(),
    ensures
        forall|name: Seq<char>|
            #[trigger] all.take(i + 1).contains(name) <==> all.take(i).contains(name) || name == all[i],
{
    let front = all.take(i);
    let more = all.take(i + 1);
    assert(more =~= front.push(all[i]));
    assert forall|name: Seq<char>| #[trigger] more.contains(name) <==> front.contains(name) || name == all[i] by {
        if front.contains(name) {
            let j = choose|j: int| 0 <= j < front.len() && front[j] == name;
            assert(more[j] == name);
        }
        if more.contains(name) {
            let j = choose|j: int| 0 <= j < more.len() && more[j] == name;
            if j < i {
                assert(front[j] == name);
            }
        }
        assert(more[i] == all[i]);
    }
}

} // verus!
