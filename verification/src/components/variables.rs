//! The list of variables of a file that has many: under a canvas and in the row of a
//! layer. Where the variables come from and what an item sends is the caller's.

use vstd::prelude::*;
use crate::components::menu::{self, Item};
use crate::message::Msg;
use crate::number;
use crate::text;

verus! {

broadcast use vstd::string::group_string_axioms;

/// How many variables are listed; the others are counted.
pub const LISTED: usize = 16;

/// A variable as it is called: its path in the file, the words of the file, and the
/// units.
pub struct Named<'a> {
    pub path: &'a str,
    pub said: &'a str,
    pub units: &'a str,
}

/// The first variable of this path; their number when there is none.
pub open spec fn place_of(variables: Seq<Named<'_>>, path: Seq<char>) -> int
    decreases variables.len(),
{
    if variables.len() == 0 || variables[0].path@ == path { 0 } else { 1 + place_of(variables.skip(1), path) }
}

/// The variables that are listed, by their numbers: the first ones, and in place of the
/// last of them the one that is shown when it is behind them. A list in which none is
/// ticked would read as though none were shown.
pub open spec fn listed(variables: Seq<Named<'_>>, shown: Seq<char>) -> Seq<int> {
    let at = place_of(variables, shown);
    let count = if variables.len() < LISTED { variables.len() as int } else { LISTED as int };
    let first = Seq::new(count as nat, |i: int| i);
    if LISTED <= at < variables.len() { first.update(count - 1, at) } else { first }
}

/// An item stands for a variable.
pub open spec fn stands_for<F: Fn(String) -> Msg>(item: Item, variable: Named<'_>, shown: Seq<char>, pick: F) -> bool {
    &&& item.label@ == crate::components::format::described(variable.path@, variable.said@, variable.units@)
    &&& item.selected == (shown.len() > 0 && variable.path@ == shown)
    &&& item.mark == if item.selected { Some(menu::Glyph::Tick) } else { None }
    &&& item.count is None
    &&& !item.danger
    &&& item.message matches Some(message) && exists|path: String|
        path@ == variable.path@ && #[trigger] call_ensures(pick, (path,), message)
}

fn item_for<F: Fn(String) -> Msg>(variable: &Named<'_>, shown: &str, pick: &F) -> (item: Item)
    requires
        forall|path: String| #[trigger] call_requires(*pick, (path,)),
    ensures
        stands_for(item, *variable, shown@, *pick),
{
    let label: String = crate::components::format::variable(variable.path, variable.said, variable.units);
    let path: String = variable.path.to_owned();
    let ghost named = path;
    let message: Msg = pick(path);
    assert(call_ensures(*pick, (named,), message));
    Item::new(label, message).selected(!shown.is_empty() && text::same(variable.path, shown))
}

fn find(variables: &[Named<'_>], path: &str) -> (at: usize)
    ensures
        at == place_of(variables@, path@),
        at <= variables@.len(),
        at < variables@.len() ==> variables@[at as int].path@ == path@,
{
    let ghost all = variables@;
    let mut at: usize = 0;
    assert(all.skip(0) =~= all);
    while at < variables.len() && !text::same(variables[at].path, path)
        invariant
            at <= all.len(),
            all == variables@,
            at + place_of(all.skip(at as int), path@) == place_of(all, path@),
        decreases all.len() - at,
    {
        assert(all.skip(at as int)[0] == all[at as int]);
        assert(all.skip(at as int).skip(1) =~= all.skip(at + 1));
        at += 1;
    }
    proof {
        if at < all.len() {
            assert(all.skip(at as int)[0] == all[at as int]);
        }
    }
    at
}

/// The items of the list: variables in their own order, the one that is shown with a
/// tick. A long list is cut and the rest is counted, but what is shown has its place in
/// any case. Where nothing is shown there is no tick.
pub fn items<F: Fn(String) -> Msg>(variables: &[Named<'_>], shown: &str, pick: F) -> (items: Vec<Item>)
    requires
        forall|path: String| #[trigger] call_requires(pick, (path,)),
    ensures
        ({
            let named = listed(variables@, shown@);
            let more = variables@.len() > LISTED;
            &&& items@.len() == named.len() + if more { 1int } else { 0 }
            &&& forall|i: int|
                0 <= i < named.len() ==> stands_for(#[trigger] items@[i], variables@[named[i]], shown@, pick)
            &&& more ==> items@.last()@ == (menu::ItemView {
                label: "и ещё "@ + number::written((variables@.len() - LISTED) as nat),
                deed: None,
                mark: None,
                count: None,
                selected: false,
                danger: false,
            })
        }),
{
    let ghost named = listed(variables@, shown@);
    let at: usize = find(variables, shown);
    let behind: bool = LISTED <= at && at < variables.len();
    let count: usize = if variables.len() < LISTED { variables.len() } else { LISTED };
    let mut items: Vec<Item> = Vec::new();
    let mut i: usize = 0;
    while i < count
        invariant
            i <= count <= LISTED,
            count <= variables@.len(),
            items@.len() == i,
            named == listed(variables@, shown@),
            named.len() == count,
            at == place_of(variables@, shown@),
            behind == (LISTED <= at && at < variables@.len()),
            count == if variables@.len() < LISTED { variables@.len() as int } else { LISTED as int },
            forall|path: String| #[trigger] call_requires(pick, (path,)),
            forall|j: int| 0 <= j < i ==> stands_for(#[trigger] items@[j], variables@[named[j]], shown@, pick),
        decreases count - i,
    {
        let place: usize = if behind && i == count - 1 { at } else { i };
        assert(named[i as int] == place);
        items.push(item_for(&variables[place], shown, &pick));
        i += 1;
    }
    if variables.len() > LISTED {
        let note: Item = Item::note(text::concat("и ещё ", &number::decimal((variables.len() - LISTED) as u128)));
        items.push(note);
    }
    items
}

// -- Laws --

/// The variables are listed from the first on, as many as there is room for; the one that is
/// shown is always among them, in the last place where it would not be.
pub proof fn the_shown_variable_is_listed(variables: Seq<Named<'_>>, shown: Seq<char>, at: int)
    requires
        0 <= at <= variables.len(),
        forall|j: int| 0 <= j < at ==> (#[trigger] variables[j]).path@ != shown,
        at < variables.len() ==> variables[at].path@ == shown,
    ensures
        ({
            let all = listed(variables, shown);
            &&& variables.len() <= 16 ==> all.len() == variables.len()
            &&& variables.len() > 16 ==> all.len() == 16
            &&& at < variables.len() ==> all.contains(at)
            &&& forall|i: int| 0 <= i < all.len() - 1 ==> #[trigger] all[i] == i
            &&& all.len() > 0 && (at < 16 || at == variables.len()) ==> all.last() == all.len() - 1
            &&& 16 <= at < variables.len() ==> all.last() == at
        }),
{
    the_variable_is_found(variables, shown, at);
    let all = listed(variables, shown);
    if at < variables.len() {
        if at < 16 {
            assert(all[at] == at);
        } else {
            assert(all[15] == at);
        }
    }
}

proof fn the_variable_is_found(variables: Seq<Named<'_>>, path: Seq<char>, at: int)
    requires
        0 <= at <= variables.len(),
        forall|j: int| 0 <= j < at ==> (#[trigger] variables[j]).path@ != path,
        at < variables.len() ==> variables[at].path@ == path,
    ensures
        place_of(variables, path) == at,
    decreases variables.len(),
{
    if at > 0 {
        assert(variables[0].path@ != path);
        assert forall|j: int| 0 <= j < at - 1 implies (#[trigger] variables.skip(1)[j]).path@ != path by {
            assert(variables.skip(1)[j] == variables[j + 1]);
        }
        the_variable_is_found(variables.skip(1), path, at - 1);
    }
}

} // verus!
