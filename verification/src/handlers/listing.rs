//! How a list is shown: what is left out, in what order, in what groups, on what
//! page, and with what menu open. One way for all lists.

use vstd::prelude::*;
use crate::handlers::browse;
use crate::state::ids::ViewId;
use crate::state::listing::{Filter, Grouping, ListingState, Menu, Sorting};
use crate::state::screen::{self, Screen, Tab};
use crate::state::{self, Open, State};

verus! {

/// The tabs, with the list of one shown from its first page in another way.
pub open spec fn shown_anew(views: Seq<Tab>, view: ViewId, how: spec_fn(ListingState) -> ListingState) -> Seq<Tab> {
    match screen::listing_in(views, view) {
        Some(listing) => screen::with_listing(views, view, ListingState { page: 0, ..how(listing) }),
        None => views,
    }
}

/// The state with a list shown anew: menus are closed, and the row that its tab
/// was walked to is left.
pub open spec fn narrowed(before: State, after: State, view: ViewId, how: spec_fn(ListingState) -> ListingState) -> bool {
    &&& after.screen.views@ == shown_anew(before.screen.views@, view, how)
    &&& after == (State {
        screen: Screen { views: after.screen.views, ..before.screen },
        open: None,
        highlight: state::untargeted(before.highlight, view),
        ..before
    })
}

/// A list with another filter.
pub open spec fn filtered_by(filter: Filter) -> spec_fn(ListingState) -> ListingState {
    |listing: ListingState| ListingState { filter, ..listing }
}

pub fn on_filter(state: &mut State, view: ViewId, filter: Filter)
    ensures
        narrowed(*old(state), *final(state), view, filtered_by(filter)),
        old(state).screen.whole() ==> final(state).screen.whole(),
{
    let ghost before = state.screen.views@;
    if let Some(listing) = state.listing_mut(view) {
        listing.filter = filter;
    }
    proof {
        if let Some(listing) = screen::listing_in(before, view) {
            screen::with_listing_is_told(before, view, ListingState { filter, ..listing });
        }
    }
    state.refine(view);
}

/// A list in other groups.
pub open spec fn grouped_by(grouping: Grouping) -> spec_fn(ListingState) -> ListingState {
    |listing: ListingState| ListingState { grouping, ..listing }
}

pub fn on_group(state: &mut State, view: ViewId, grouping: Grouping)
    ensures
        narrowed(*old(state), *final(state), view, grouped_by(grouping)),
        old(state).screen.whole() ==> final(state).screen.whole(),
{
    let ghost before = state.screen.views@;
    if let Some(listing) = state.listing_mut(view) {
        listing.grouping = grouping;
    }
    proof {
        if let Some(listing) = screen::listing_in(before, view) {
            screen::with_listing_is_told(before, view, ListingState { grouping, ..listing });
        }
    }
    state.refine(view);
}

/// A list in another order.
pub open spec fn sorted_by(sorting: Sorting) -> spec_fn(ListingState) -> ListingState {
    |listing: ListingState| ListingState { sorting, ..listing }
}

pub fn on_sort(state: &mut State, view: ViewId, sorting: Sorting)
    ensures
        narrowed(*old(state), *final(state), view, sorted_by(sorting)),
        old(state).screen.whole() ==> final(state).screen.whole(),
{
    let ghost before = state.screen.views@;
    if let Some(listing) = state.listing_mut(view) {
        listing.sorting = sorting;
    }
    proof {
        if let Some(listing) = screen::listing_in(before, view) {
            screen::with_listing_is_told(before, view, ListingState { sorting, ..listing });
        }
    }
    state.refine(view);
}

/// A list with other words in its field.
pub open spec fn asked_by(query: String) -> spec_fn(ListingState) -> ListingState {
    |listing: ListingState| ListingState { query, ..listing }
}

pub fn on_query(state: &mut State, view: ViewId, query: String)
    ensures
        narrowed(*old(state), *final(state), view, asked_by(query)),
        old(state).screen.whole() ==> final(state).screen.whole(),
{
    let ghost before = state.screen.views@;
    let ghost typed = query;
    if let Some(listing) = state.listing_mut(view) {
        listing.query = query;
    }
    proof {
        if let Some(listing) = screen::listing_in(before, view) {
            screen::with_listing_is_told(before, view, ListingState { query: typed, ..listing });
        }
    }
    state.refine(view);
}

/// Turns to a page. The row that the tab was walked to is left: its highlight on
/// another page would be untrue.
pub fn on_page(state: &mut State, view: ViewId, page: usize)
    ensures
        final(state).screen.views@ == match screen::listing_in(old(state).screen.views@, view) {
            Some(listing) => screen::with_listing(
                old(state).screen.views@,
                view,
                (ListingState { page, ..listing }),
            ),
            None => old(state).screen.views@,
        },
        *final(state) == (State {
            screen: Screen { views: final(state).screen.views, ..old(state).screen },
            open: None,
            highlight: state::untargeted(old(state).highlight, view),
            ..*old(state)
        }),
        old(state).screen.whole() ==> final(state).screen.whole(),
{
    state.close_menus();
    if let Some(listing) = state.listing_mut(view) {
        listing.page = page;
    }
    state.drop_target_in(view);
}

/// Opens a menu, closes the open one (`None`), or closes this one when it is open
/// already.
pub fn on_menu(state: &mut State, view: ViewId, menu: Option<Menu>)
    ensures
        *final(state) == (State {
            open: match menu {
                Some(menu) => {
                    let open = Open::Listing(view, menu);
                    if old(state).open matches Some(other) && other.same_spec(open) { None } else { Some(open) }
                },
                None => None,
            },
            ..*old(state)
        }),
{
    match menu {
        Some(menu) => state.toggle_open(Open::Listing(view, menu)),
        None => state.close_menus(),
    }
}

/// Opens a row, or closes it. What a folder holds is asked for here and nowhere else:
/// without opening it there is nobody to show it to.
pub fn on_expand(state: &mut State, view: ViewId, key: String)
    ensures
        match screen::listing_in(old(state).screen.views@, view) {
            Some(listing) => exists|now: ListingState, middle: State| {
                &&& now == (ListingState { expanded: now.expanded, ..listing })
                &&& now.expanded@ == if listing.expanded@.contains(key@) {
                    listing.expanded@.remove(key@)
                } else {
                    listing.expanded@.insert(key@)
                }
                &&& middle == (State {
                    screen: Screen { views: middle.screen.views, ..old(state).screen },
                    ..*old(state)
                })
                &&& middle.screen.views@ == #[trigger] screen::with_listing(old(state).screen.views@, view, now)
                &&& #[trigger] row_switched(middle, *final(state), view, key@, now)
            },
            None => *final(state) == *old(state),
        },
        old(state).screen.whole() ==> final(state).screen.whole(),
{
    let ghost before = *state;
    let ghost name = key@;
    if state.screen.listing(view).is_none() {
        return;
    }
    let mut open: bool = false;
    let ghost mut now: ListingState = arbitrary();
    if let Some(listing) = state.listing_mut(view) {
        open = listing.expand(key.clone());
        proof {
            now = *listing;
        }
    }
    let ghost middle = *state;
    if open {
        browse::request_children(state, view, key);
    }
    assert(middle.screen.views@ == screen::with_listing(before.screen.views@, view, now));
    assert(row_switched(middle, *state, view, name, now));
}

/// A row that was opened has its contents asked for; one that was closed has not.
pub open spec fn row_switched(before: State, after: State, view: ViewId, key: Seq<char>, now: ListingState) -> bool {
    if now.expanded@.contains(key) { browse::opened(before, after, view, key) } else { after == before }
}

// -- Laws --

/// A list that is shown in another way starts from its first page, with its menus closed
/// and no row to walk to; no other tab is touched.
pub proof fn a_list_starts_from_its_first_page(
    before: State,
    after: State,
    view: ViewId,
    how: spec_fn(ListingState) -> ListingState,
    was: ListingState,
)
    requires
        narrowed(before, after, view, how),
        screen::listing_in(before.screen.views@, view) == Some(was),
    ensures
        screen::listing_in(after.screen.views@, view) matches Some(now) && now.page == 0,
        after.open is None,
        state::target_of(after.highlight, view).len() == 0,
        after.calls == before.calls,
        forall|other: ViewId|
            other != view ==> #[trigger] screen::kind_in(after.screen.views@, other) == screen::kind_in(
                before.screen.views@,
                other,
            ),
{
    screen::with_listing_is_told(before.screen.views@, view, ListingState { page: 0, ..how(was) });
}

/// What is chosen over a list holds of it from then on, and the rest of what was chosen
/// stays.
pub proof fn a_list_is_shown_as_it_was_chosen(
    before: State,
    after: State,
    view: ViewId,
    was: ListingState,
    filter: Filter,
    grouping: Grouping,
    sorting: Sorting,
    query: String,
)
    requires
        screen::listing_in(before.screen.views@, view) == Some(was),
    ensures
        narrowed(before, after, view, filtered_by(filter)) ==> (screen::listing_in(after.screen.views@, view) matches Some(now)
            && now.filter == filter && now.grouping == was.grouping && now.sorting == was.sorting && now.query == was.query
            && now.selected == was.selected && now.expanded == was.expanded),
        narrowed(before, after, view, grouped_by(grouping)) ==> (screen::listing_in(after.screen.views@, view) matches Some(
            now,
        ) && now.grouping == grouping && now.filter == was.filter && now.sorting == was.sorting && now.query == was.query
            && now.selected == was.selected && now.expanded == was.expanded),
        narrowed(before, after, view, sorted_by(sorting)) ==> (screen::listing_in(after.screen.views@, view) matches Some(now)
            && now.sorting == sorting && now.filter == was.filter && now.grouping == was.grouping && now.query == was.query
            && now.selected == was.selected && now.expanded == was.expanded),
        narrowed(before, after, view, asked_by(query)) ==> (screen::listing_in(after.screen.views@, view) matches Some(now)
            && now.query == query && now.filter == was.filter && now.grouping == was.grouping && now.sorting == was.sorting
            && now.selected == was.selected && now.expanded == was.expanded),
{
    screen::with_listing_is_told(before.screen.views@, view, ListingState { page: 0, ..filtered_by(filter)(was) });
    screen::with_listing_is_told(before.screen.views@, view, ListingState { page: 0, ..grouped_by(grouping)(was) });
    screen::with_listing_is_told(before.screen.views@, view, ListingState { page: 0, ..sorted_by(sorting)(was) });
    screen::with_listing_is_told(before.screen.views@, view, ListingState { page: 0, ..asked_by(query)(was) });
}

/// A row that is opened is asked for, and one that is closed asks for nothing.
pub proof fn only_an_opened_row_is_asked_for(before: State, after: State, view: ViewId, key: Seq<char>, now: ListingState)
    requires
        row_switched(before, after, view, key, now),
    ensures
        !now.expanded@.contains(key) ==> after == before,
        now.expanded@.contains(key) ==> browse::opened(before, after, view, key),
{
}

} // verus!
