//! Tabs: to open one, to turn to one, to close one.

use vstd::prelude::*;
use crate::calls::{self, Call};
use crate::handlers::browse;
use crate::handlers::search;
use crate::message::NewTab;
use crate::state::browse::{Branch, BrowseState};
use crate::state::globe::GlobeState;
use crate::state::ids::{PaneId, ViewId};
use crate::state::listing::ListingState;
use crate::state::preview::PreviewState;
use crate::state::screen::{self, Leaf, Screen, Tab, ViewKind};
use crate::state::search::{Cloud, Mission, Period, SearchState};
use crate::state::side::Side;
use crate::state::{self, Open, State};

verus! {

broadcast use vstd::string::group_string_axioms;

/// The bits of one half.
pub const HALF: u32 = 0x3f00_0000;

/// A tab is of a kind of which there are never two. The contents of a search and of
/// the downloaded list do not depend on their tab, and there is one globe and one set
/// of layers.
pub open spec fn is_only(kind: ViewKind, new: NewTab) -> bool {
    match new {
        NewTab::Search => kind is Search,
        NewTab::Downloaded => kind is Downloaded,
        NewTab::Globe => kind is Globe,
        NewTab::Shown => kind is Shown,
        NewTab::Browse => false,
        NewTab::Empty => false,
    }
}

/// The first tab of such a kind.
pub open spec fn only_one(views: Seq<Tab>, new: NewTab) -> Option<ViewId>
    decreases views.len(),
{
    if views.len() == 0 {
        None
    } else if is_only(views[0].kind, new) {
        Some(views[0].id)
    } else {
        only_one(views.skip(1), new)
    }
}

fn is_one(kind: &ViewKind, new: NewTab) -> (yes: bool)
    ensures
        yes == is_only(*kind, new),
{
    match new {
        NewTab::Search => matches!(kind, ViewKind::Search(_)),
        NewTab::Downloaded => matches!(kind, ViewKind::Downloaded(_)),
        NewTab::Globe => matches!(kind, ViewKind::Globe(_)),
        NewTab::Shown => matches!(kind, ViewKind::Shown),
        NewTab::Browse => false,
        NewTab::Empty => false,
    }
}

/// The open tab of a kind of which there are never two.
pub fn singleton(state: &State, new: NewTab) -> (view: Option<ViewId>)
    ensures
        view == only_one(state.screen.views@, new),
{
    let ghost all = state.screen.views@;
    let mut i: usize = 0;
    assert(all.skip(0) =~= all);
    while i < state.screen.views.len()
        invariant
            i <= all.len(),
            all == state.screen.views@,
            only_one(all.skip(i as int), new) == only_one(all, new),
        decreases all.len() - i,
    {
        assert(all.skip(i as int)[0] == all[i as int]);
        if is_one(&state.screen.views[i].kind, new) {
            return Some(state.screen.views[i].id);
        }
        assert(all.skip(i as int).skip(1) =~= all.skip(i + 1));
        i += 1;
    }
    None
}

/// What a tab shows that was just opened.
pub open spec fn is_fresh(kind: ViewKind, new: NewTab) -> bool {
    match new {
        NewTab::Browse => kind matches ViewKind::Browse(browse) && {
            &&& browse.current_path@ == Seq::<char>::empty()
            &&& browse.items@.len() == 0
            &&& browse.children.branches() == Map::<Seq<char>, Branch>::empty()
            &&& browse.listing.is_fresh()
            &&& browse.error is None
            &&& browse.request.waiting() is None
        },
        NewTab::Search => kind matches ViewKind::Search(search) && {
            &&& search.query@ == Seq::<char>::empty()
            &&& search.mission == Mission::All
            &&& search.period == Period::Any
            &&& search.from@ == Seq::<char>::empty()
            &&& search.to@ == Seq::<char>::empty()
            &&& search.cloud == Cloud::Any
            &&& search.results@.len() == 0
            &&& search.children.branches() == Map::<Seq<char>, Branch>::empty()
            &&& search.listing.is_fresh()
            &&& search.error is None
            &&& search.request.waiting() is None
        },
        NewTab::Downloaded => kind matches ViewKind::Downloaded(listing) && listing.is_fresh(),
        NewTab::Globe => kind == ViewKind::Globe(GlobeState { surface: None, dragging: None }),
        NewTab::Shown => kind is Shown,
        NewTab::Empty => kind is Empty,
    }
}

/// What a tab asks for once it is opened: the catalogue its root, the search the
/// newest, the downloaded list the state of the library.
pub open spec fn first_asked(before: State, after: State, new: NewTab, view: ViewId, now: i64) -> bool {
    match new {
        NewTab::Browse => browse::entered(before, after, view, Seq::empty()),
        NewTab::Search => search::ran(before, after, view, now),
        NewTab::Downloaded => {
            &&& after == (State { calls: after.calls, ..before })
            &&& after.said() == before.said().push(calls::CallView::ListLibrary)
        },
        _ => after == before,
    }
}

/// A tab was opened in a pane. Of a kind of which there are never two, the open one
/// moves into the pane and is turned to.
pub open spec fn tab_opened(before: State, after: State, pane: PaneId, new: NewTab, now: i64) -> bool {
    match only_one(before.screen.views@, new) {
        Some(view) => exists|there: Screen| {
            &&& #[trigger] screen::moved(before.screen, there, view, pane)
            &&& after == (State { screen: screen::turned(there, view), open: None, ..before })
        },
        None => exists|kind: ViewKind, there: State| {
            &&& is_fresh(kind, new)
            &&& there == (State { screen: there.screen, open: None, ..before })
            &&& #[trigger] screen::opened(before.screen, there.screen, pane, kind)
            &&& first_asked(there, after, new, ViewId { number: before.screen.next }, now)
        },
    }
}

/// Asks the library to report its state. The answer is an ordinary message.
pub fn request_library(state: &mut State)
    ensures
        *final(state) == (State { calls: final(state).calls, ..*old(state) }),
        final(state).said() == old(state).said().push(calls::CallView::ListLibrary),
{
    proof {
        calls::said_push(state.calls@, Call::ListLibrary);
    }
    state.calls.push(Call::ListLibrary);
}

/// Opens a tab in a pane. The catalogue always opens anew, for two folders side by
/// side are what tabs are for.
pub fn on_new_tab(state: &mut State, pane: PaneId, kind: NewTab, now: i64)
    requires
        old(state).screen.whole(),
        old(state).screen.next < u64::MAX,
    ensures
        tab_opened(*old(state), *final(state), pane, kind, now),
        final(state).screen.whole(),
{
    let ghost before = *state;
    state.close_menus();
    if let Some(id) = singleton(state, kind) {
        state.screen.move_to(id, pane);
        let ghost there = state.screen;
        state.screen.focus(id);
        assert(screen::moved(before.screen, there, id, pane));
        return;
    }
    match kind {
        NewTab::Browse => {
            let fresh: ViewKind = ViewKind::Browse(BrowseState::default());
            let ghost shown = fresh;
            let id: ViewId = state.open_in(pane, fresh);
            let ghost there = *state;
            browse::request_path(state, id, String::new());
            assert(screen::opened(before.screen, there.screen, pane, shown));
            assert(is_fresh(shown, kind));
            assert(first_asked(there, *state, kind, id, now));
        },
        NewTab::Search => {
            let fresh: ViewKind = ViewKind::Search(SearchState::default());
            let ghost shown = fresh;
            let id: ViewId = state.open_in(pane, fresh);
            let ghost there = *state;
            search::run(state, id, now);
            assert(screen::opened(before.screen, there.screen, pane, shown));
            assert(is_fresh(shown, kind));
            assert(first_asked(there, *state, kind, id, now));
        },
        NewTab::Downloaded => {
            let fresh: ViewKind = ViewKind::Downloaded(ListingState::default());
            let ghost shown = fresh;
            let id: ViewId = state.open_in(pane, fresh);
            let ghost there = *state;
            request_library(state);
            assert(screen::opened(before.screen, there.screen, pane, shown));
            assert(is_fresh(shown, kind));
            assert(first_asked(there, *state, kind, id, now));
        },
        NewTab::Globe => {
            let fresh: ViewKind = ViewKind::Globe(GlobeState::default());
            let ghost shown = fresh;
            let id: ViewId = state.open_in(pane, fresh);
            assert(screen::opened(before.screen, state.screen, pane, shown));
            assert(is_fresh(shown, kind));
            assert(first_asked(*state, *state, kind, id, now));
        },
        NewTab::Shown => {
            let id: ViewId = state.open_in(pane, ViewKind::Shown);
            assert(screen::opened(before.screen, state.screen, pane, ViewKind::Shown));
            assert(first_asked(*state, *state, kind, id, now));
        },
        NewTab::Empty => {
            let id: ViewId = state.open_in(pane, ViewKind::Empty);
            assert(screen::opened(before.screen, state.screen, pane, ViewKind::Empty));
            assert(first_asked(*state, *state, kind, id, now));
        },
    }
}

/// The globe is to be seen. An open one stays where it is: a snapshot is laid while
/// one looks at it.
pub open spec fn globe_turned_to(before: State, after: State) -> bool {
    match only_one(before.screen.views@, NewTab::Globe) {
        Some(view) => after == (State { screen: screen::turned(before.screen, view), ..before }),
        None => {
            &&& after == (State { screen: after.screen, open: None, ..before })
            &&& screen::opened(
                before.screen,
                after.screen,
                before.screen.focused,
                ViewKind::Globe(GlobeState { surface: None, dragging: None }),
            )
        },
    }
}

/// Shows the tab of the globe: whenever a snapshot is shown there.
pub fn on_new_globe(state: &mut State)
    requires
        old(state).screen.whole(),
        old(state).screen.next < u64::MAX,
    ensures
        globe_turned_to(*old(state), *final(state)),
        final(state).screen.whole(),
{
    match singleton(state, NewTab::Globe) {
        Some(id) => state.screen.focus(id),
        None => {
            state.close_menus();
            let pane: PaneId = state.screen.focused;
            state.open_in(pane, ViewKind::Globe(GlobeState::default()));
        },
    }
}

/// The menu of new tabs of a pane; `None` closes it. Any other menu closes, for only
/// one is open at a time.
pub fn on_tab_menu(state: &mut State, pane: Option<PaneId>)
    ensures
        *final(state) == (State {
            open: match pane {
                Some(pane) => Some(Open::NewTabs(pane)),
                None => None,
            },
            ..*old(state)
        }),
{
    state.open = match pane {
        Some(pane) => Some(Open::NewTabs(pane)),
        None => None,
    };
}

/// The menu of a tab; `None` closes it.
pub fn on_tab_options(state: &mut State, id: Option<ViewId>)
    ensures
        *final(state) == (State {
            open: match id {
                Some(id) => Some(Open::Tab(id)),
                None => None,
            },
            ..*old(state)
        }),
{
    state.open = match id {
        Some(id) => Some(Open::Tab(id)),
        None => None,
    };
}

/// A tab was sent into a new pane beside its own.
pub open spec fn sent_aside(before: Screen, after: Screen, id: ViewId, side: Side) -> bool {
    match screen::kind_in(before.views@, id) {
        Some(_) => {
            let cut = screen::split(before, screen::pane_in(before, id), side, HALF);
            exists|there: Screen| #[trigger]
                screen::moved(cut, there, id, PaneId { number: before.next }) && after == screen::turned(there, id)
        },
        None => after == before,
    }
}

fn send_aside(screen: &mut Screen, id: ViewId, side: Side)
    requires
        old(screen).whole(),
        old(screen).next < u64::MAX - 1,
    ensures
        sent_aside(*old(screen), *final(screen), id, side),
        final(screen).whole(),
{
    let ghost before = *screen;
    if screen.get(id).is_none() {
        return;
    }
    let pane: PaneId = screen.pane_of(id);
    proof {
        screen::view_place_is_first(before.views@, id);
        let at = screen::view_place(before.views@, id);
        assert(screen::has_pane(before.panes(), before.views@[at].pane));
    }
    if let Some(fresh) = screen.split_pane(pane, side, HALF) {
        let ghost cut = *screen;
        screen.move_to(id, fresh);
        let ghost there = *screen;
        screen.focus(id);
        assert(screen::moved(cut, there, id, PaneId { number: before.next }));
    }
}

/// Divides the pane of a tab and sends the tab into the new part.
pub fn on_tab_split(state: &mut State, id: ViewId, side: Side)
    requires
        old(state).screen.whole(),
        old(state).screen.next < u64::MAX - 1,
    ensures
        *final(state) == (State { screen: final(state).screen, open: None, ..*old(state) }),
        sent_aside(old(state).screen, final(state).screen, id, side),
        final(state).screen.whole(),
{
    state.close_menus();
    send_aside(&mut state.screen, id, side);
}

/// The pane behind this one in the walk, or the first behind the last.
pub open spec fn next_pane(leaves: Seq<Leaf>, pane: PaneId) -> PaneId
    decreases leaves.len(),
{
    next_in(leaves, pane, 0)
}

pub open spec fn next_in(leaves: Seq<Leaf>, pane: PaneId, at: int) -> PaneId
    decreases leaves.len() - at,
{
    if 0 <= at < leaves.len() {
        if leaves[at].id == pane {
            if at + 1 < leaves.len() { leaves[at + 1].id } else { leaves[0].id }
        } else {
            next_in(leaves, pane, at + 1)
        }
    } else {
        pane
    }
}

fn other_pane(screen: &Screen, pane: PaneId) -> (other: PaneId)
    ensures
        other == next_pane(screen.panes(), pane),
{
    let leaves: Vec<Leaf> = screen.all_panes();
    let mut at: usize = 0;
    while at < leaves.len()
        invariant
            at <= leaves@.len(),
            leaves@ == screen.panes(),
            next_in(leaves@, pane, at as int) == next_pane(screen.panes(), pane),
        decreases leaves@.len() - at,
    {
        if leaves[at].id == pane {
            return if at + 1 < leaves.len() { leaves[at + 1].id } else { leaves[0].id };
        }
        at += 1;
    }
    pane
}

/// Moves a tab into the next pane. While there is but one, the screen is divided
/// first.
pub fn on_tab_move(state: &mut State, id: ViewId)
    requires
        old(state).screen.whole(),
        old(state).screen.next < u64::MAX - 1,
    ensures
        *final(state) == (State { screen: final(state).screen, open: None, ..*old(state) }),
        if old(state).screen.panes().len() == 1 {
            sent_aside(old(state).screen, final(state).screen, id, Side::Right)
        } else {
            screen::moved(
                old(state).screen,
                final(state).screen,
                id,
                next_pane(old(state).screen.panes(), screen::pane_in(old(state).screen, id)),
            )
        },
        final(state).screen.whole(),
{
    state.close_menus();
    if state.screen.layout.count() == 1 {
        send_aside(&mut state.screen, id, Side::Right);
        return;
    }
    let pane: PaneId = state.screen.pane_of(id);
    let target: PaneId = other_pane(&state.screen, pane);
    state.screen.move_to(id, target);
}

/// Brings all panes together into one.
pub fn on_tab_unsplit(state: &mut State)
    requires
        old(state).screen.whole(),
    ensures
        *final(state) == (State { screen: final(state).screen, open: None, ..*old(state) }),
        screen::collapsed(old(state).screen, final(state).screen),
        final(state).screen.whole(),
{
    state.close_menus();
    state.screen.collapse();
}

/// Turns to a tab.
pub fn on_tab_select(state: &mut State, id: ViewId)
    requires
        old(state).screen.whole(),
    ensures
        *final(state) == (State { screen: screen::turned(old(state).screen, id), open: None, ..*old(state) }),
        final(state).screen.whole(),
{
    state.close_menus();
    state.screen.focus(id);
}

/// What is left to others of a tab that was closed: the canvas and the globe are told
/// that their place is gone, and a search takes its layers with it.
pub open spec fn cleared_up(before: State, after: State, id: ViewId, tab: Tab) -> bool {
    match tab.kind {
        ViewKind::Preview(_) => {
            &&& after == (State { calls: after.calls, ..before })
            &&& after.said() == before.said().push(calls::CallView::CloseView { view: id })
        },
        ViewKind::Globe(globe) => {
            &&& after == (State { calls: after.calls, ..before })
            &&& after.said() == before.said().push(calls::CallView::RevokeGlobe { surface: globe.surface })
        },
        ViewKind::Search(_) => exists|laid: State| #[trigger]
            crate::handlers::overlay::narrowed(before, laid, id, Set::empty()) && crate::handlers::outline::redrawn(
                laid,
                after,
            ),
        _ => after == before,
    }
}

/// Closes a tab. A pane may be left empty, but when no tab is left there is nothing
/// to divide.
pub fn on_tab_close(state: &mut State, id: ViewId)
    requires
        old(state).screen.whole(),
    ensures
        match screen::kind_in(old(state).screen.views@, id) {
            None => *final(state) == *old(state),
            Some(_) => exists|tab: Tab, shut: State, clear: State| {
                &&& shut == (State { screen: shut.screen, ..*old(state) })
                &&& #[trigger] screen::closed_at(old(state).screen, shut.screen, id, tab)
                &&& #[trigger] cleared_up(shut, clear, id, tab)
                &&& *final(state) == (State { screen: final(state).screen, ..clear })
                &&& if clear.screen.views@.len() == 0 {
                    screen::collapsed(clear.screen, final(state).screen)
                } else {
                    final(state).screen == clear.screen
                }
            },
        },
        final(state).screen.whole(),
{
    let ghost before = *state;
    let Some(tab) = state.screen.close(id) else {
        return;
    };
    let ghost shut = *state;
    let ghost gone = tab;
    match tab.kind {
        ViewKind::Preview(_) => {
            let call: Call = Call::CloseView { view: id };
            proof {
                calls::said_push(state.calls@, call);
            }
            state.calls.push(call);
        },
        ViewKind::Globe(globe) => {
            let call: Call = Call::RevokeGlobe { surface: globe.surface };
            proof {
                calls::said_push(state.calls@, call);
            }
            state.calls.push(call);
        },
        ViewKind::Search(_) => {
            search::on_source_closed(state, id);
        },
        _ => {},
    }
    let ghost clear = *state;
    assert(screen::closed_at(before.screen, shut.screen, id, gone));
    assert(cleared_up(shut, clear, id, gone));
    proof {
        screen::view_place_is_first(before.screen.views@, id);
    }
    if state.screen.views.len() == 0 {
        state.screen.collapse();
    }
}

/// What a tab shows that was just opened on a snapshot.
pub open spec fn fresh_preview(kind: ViewKind, label: String, entry: Option<String>) -> bool {
    kind matches ViewKind::Preview(preview) && {
        &&& preview == (PreviewState {
            label,
            entry,
            error: None,
            surface: None,
            dragging: None,
            view_state: None,
            replaced: false,
            request: preview.request,
        })
        &&& preview.request.waiting() is None
    }
}

/// Opens a snapshot in a new tab of a pane: to look at two in turn without losing the
/// first is what tabs are for.
pub fn open_preview(state: &mut State, pane: PaneId, label: String, entry: Option<String>) -> (view: ViewId)
    requires
        old(state).screen.whole(),
        old(state).screen.next < u64::MAX,
    ensures
        view.number == old(state).screen.next,
        *final(state) == (State { screen: final(state).screen, ..*old(state) }),
        final(state).screen.whole(),
        screen::kind_in(final(state).screen.views@, view) matches Some(kind) && fresh_preview(kind, label, entry)
            && screen::opened(old(state).screen, final(state).screen, pane, kind),
{
    let ghost before = *state;
    let fresh: ViewKind = ViewKind::Preview(PreviewState::new(label, entry));
    state.open_in(pane, fresh)
}

/// The pane that a tab stands in; for one that is closed, the pane at hand.
pub fn half_of(state: &State, id: ViewId) -> (pane: PaneId)
    ensures
        pane == screen::pane_in(state.screen, id),
{
    state.screen.pane_of(id)
}

/// The first open tab of the catalogue.
pub open spec fn first_catalogue(views: Seq<Tab>) -> Option<ViewId>
    decreases views.len(),
{
    if views.len() == 0 {
        None
    } else if views[0].kind is Browse {
        Some(views[0].id)
    } else {
        first_catalogue(views.skip(1))
    }
}

/// A catalogue is at hand: an open one is turned to, and only where there is none a
/// tab is opened beside the one that asked.
pub open spec fn catalogue_at_hand(before: State, after: State, view: ViewId, opened: ViewId) -> bool {
    match first_catalogue(before.screen.views@) {
        Some(id) => opened == id && after == (State { screen: screen::turned(before.screen, id), ..before }),
        None => {
            &&& opened.number == before.screen.next
            &&& after == (State { screen: after.screen, ..before })
            &&& screen::kind_in(after.screen.views@, opened) matches Some(kind) && is_fresh(kind, NewTab::Browse)
                && screen::opened(before.screen, after.screen, screen::pane_in(before.screen, view), kind)
        },
    }
}

/// The catalogue to show something in.
pub fn catalog(state: &mut State, view: ViewId) -> (opened: ViewId)
    requires
        old(state).screen.whole(),
        old(state).screen.next < u64::MAX,
    ensures
        catalogue_at_hand(*old(state), *final(state), view, opened),
        final(state).screen.whole(),
{
    let ghost all = state.screen.views@;
    let mut i: usize = 0;
    let mut found: Option<ViewId> = None;
    assert(all.skip(0) =~= all);
    while i < state.screen.views.len() && found.is_none()
        invariant
            i <= all.len(),
            all == state.screen.views@,
            match found {
                Some(id) => first_catalogue(all) == Some(id),
                None => first_catalogue(all.skip(i as int)) == first_catalogue(all),
            },
        decreases all.len() - i,
    {
        assert(all.skip(i as int)[0] == all[i as int]);
        if matches!(state.screen.views[i].kind, ViewKind::Browse(_)) {
            found = Some(state.screen.views[i].id);
        }
        assert(all.skip(i as int).skip(1) =~= all.skip(i + 1));
        i += 1;
    }
    match found {
        Some(id) => {
            state.screen.focus(id);
            id
        },
        None => {
            let pane: PaneId = state.screen.pane_of(view);
            state.open_in(pane, ViewKind::Browse(BrowseState::default()))
        },
    }
}

/// The tabs of the catalogue, in order.
pub open spec fn catalogues(views: Seq<Tab>) -> Seq<ViewId>
    decreases views.len(),
{
    if views.len() == 0 {
        Seq::empty()
    } else {
        let rest = catalogues(views.drop_last());
        if views.last().kind is Browse { rest.push(views.last().id) } else { rest }
    }
}

/// All these tabs were sent to the root, one after another.
pub open spec fn all_at_root(before: State, after: State, views: Seq<ViewId>) -> bool
    decreases views.len(),
{
    if views.len() == 0 {
        after == before
    } else {
        exists|middle: State|
            all_at_root(before, middle, views.drop_last()) && #[trigger] browse::entered(
                middle,
                after,
                views.last(),
                Seq::empty(),
            )
    }
}

/// All that the first tabs live by, asked for: the state of the library, and then the
/// root for every tab of the catalogue.
pub open spec fn bootstrapped(before: State, after: State) -> bool {
    exists|listed: State| {
        &&& listed == (State { calls: listed.calls, ..before })
        &&& listed.said() == before.said().push(calls::CallView::ListLibrary)
        &&& #[trigger] all_at_root(listed, after, catalogues(before.screen.views@))
    }
}

/// Asks for all that the first tabs live by. Not when the state is made: nobody is
/// there yet to ask.
pub fn bootstrap(state: &mut State)
    ensures
        bootstrapped(*old(state), *final(state)),
        old(state).screen.whole() ==> final(state).screen.whole(),
{
    request_library(state);
    let ghost listed = *state;
    let ghost all = state.screen.views@;
    let mut empty: Vec<ViewId> = Vec::new();
    let mut i: usize = 0;
    while i < state.screen.views.len()
        invariant
            i <= all.len(),
            all == state.screen.views@,
            empty@ == catalogues(all.take(i as int)),
        decreases all.len() - i,
    {
        assert(all.take(i + 1).drop_last() =~= all.take(i as int));
        if matches!(state.screen.views[i].kind, ViewKind::Browse(_)) {
            empty.push(state.screen.views[i].id);
        }
        i += 1;
    }
    assert(all.take(all.len() as int) =~= all);
    let mut j: usize = 0;
    assert(all_at_root(listed, listed, empty@.take(0)));
    while j < empty.len()
        invariant
            j <= empty@.len(),
            all_at_root(listed, *state, empty@.take(j as int)),
            listed.screen.whole() ==> state.screen.whole(),
        decreases empty@.len() - j,
    {
        let ghost middle = *state;
        assert(empty@.take(j + 1).drop_last() =~= empty@.take(j as int));
        browse::request_path(state, empty[j], String::new());
        assert(empty@.take(j + 1).last() == empty@[j as int]);
        assert(browse::entered(middle, *state, empty@[j as int], Seq::empty()));
        j += 1;
    }
    assert(empty@.take(empty@.len() as int) =~= empty@);
}

// -- Laws --

/// Of a search, of the downloaded list, of the globe and of the layers there is one tab, and
/// it is found; a catalogue and an empty tab are opened anew every time.
pub proof fn the_only_tab_is_found(views: Seq<Tab>, new: NewTab)
    ensures
        new is Browse || new is Empty ==> only_one(views, new) is None,
        only_one(views, new) is None ==> forall|i: int| 0 <= i < views.len() ==> !is_only((#[trigger] views[i]).kind, new),
        only_one(views, new) matches Some(view) ==> exists|i: int|
            0 <= i < views.len() && (#[trigger] views[i]).id == view && is_only(views[i].kind, new),
    decreases views.len(),
{
    if views.len() > 0 && !is_only(views[0].kind, new) {
        let rest = views.skip(1);
        the_only_tab_is_found(rest, new);
        if only_one(views, new) is None {
            assert forall|i: int| 0 <= i < views.len() implies !is_only((#[trigger] views[i]).kind, new) by {
                if i > 0 {
                    assert(rest[i - 1] == views[i]);
                }
            }
        }
        if let Some(view) = only_one(views, new) {
            let i = choose|i: int| 0 <= i < rest.len() && (#[trigger] rest[i]).id == view && is_only(rest[i].kind, new);
            assert(views[i + 1] == rest[i]);
        }
    } else if views.len() > 0 {
        assert(views[0].id == only_one(views, new)->0);
    }
}

/// Which tab is the only one of its kind.
pub proof fn which_tabs_are_the_only_ones(kind: ViewKind)
    ensures
        is_only(kind, NewTab::Search) == kind is Search,
        is_only(kind, NewTab::Downloaded) == kind is Downloaded,
        is_only(kind, NewTab::Globe) == kind is Globe,
        is_only(kind, NewTab::Shown) == kind is Shown,
        !is_only(kind, NewTab::Browse),
        !is_only(kind, NewTab::Empty),
{
}

/// A new tab is what was asked for: there is one more, it shows that kind, is at hand, and
/// the downloaded list is asked for where it is to be shown.
pub proof fn a_new_tab_is_what_was_asked_for(before: State, after: State, pane: PaneId, new: NewTab, now: i64)
    requires
        before.screen.whole(),
        tab_opened(before, after, pane, new, now),
        only_one(before.screen.views@, new) is None,
    ensures
        after.open is None,
        after.screen.views@.len() == before.screen.views@.len() + 1,
        after.screen.views@.last().id.number == before.screen.next,
        new is Browse ==> after.screen.views@.last().kind is Browse,
        new is Search ==> after.screen.views@.last().kind is Search,
        new is Downloaded ==> after.screen.views@.last().kind is Downloaded && after.said() == before.said().push(
            calls::CallView::ListLibrary,
        ),
        new is Globe ==> after.screen.views@.last().kind is Globe && after.said() == before.said(),
        new is Shown ==> after.screen.views@.last().kind is Shown && after.said() == before.said(),
        new is Empty ==> after.screen.views@.last().kind is Empty && after.said() == before.said(),
{
    let (kind, there) = choose|kind: ViewKind, there: State| {
        &&& is_fresh(kind, new)
        &&& there == (State { screen: there.screen, open: None, ..before })
        &&& #[trigger] screen::opened(before.screen, there.screen, pane, kind)
        &&& first_asked(there, after, new, ViewId { number: before.screen.next }, now)
    };
    let view = ViewId { number: before.screen.next };
    let tab = there.screen.views@.last();
    assert forall|i: int| 0 <= i < before.screen.views@.len() implies (#[trigger] before.screen.views@[i]).id != view by {
        assert(before.screen.views@[i].id.number < before.screen.next);
    }
    screen::opened_is_found(before.screen.views@, tab);
    assert(there.screen.views@ =~= before.screen.views@.push(tab));
    screen::view_place_is_first(there.screen.views@, view);
    assert(screen::kind_in(there.screen.views@, view) == Some(kind));
    assert(screen::view_place(there.screen.views@, view) == before.screen.views@.len());
    if new is Search {
        let calm = choose|calm: State| #[trigger]
            state::narrowed_anew(there, calm, view) && search::asked(calm, after, view, now);
        if let ViewKind::Search(was) = kind {
            let paged = ListingState { page: 0, ..was.listing };
            screen::with_listing_is_told(there.screen.views@, view, paged);
            screen::with_kind_keeps_places(there.screen.views@, view, kind.with_listing(paged));
            assert(calm.screen.views@ == screen::with_kind(there.screen.views@, view, kind.with_listing(paged)));
            screen::view_place_is_first(calm.screen.views@, view);
            assert(screen::kind_in(calm.screen.views@, view) == Some(kind.with_listing(paged)));
        }
    }
    if let Some(later) = screen::kind_in(after.screen.views@, view) {
        screen::with_kind_keeps_places(there.screen.views@, view, later);
    }
}

/// The pane behind a pane is the next in the walk, and behind the last is the first.
pub proof fn panes_follow_each_other(leaves: Seq<Leaf>, pane: PaneId, at: int)
    requires
        0 <= at < leaves.len(),
        leaves[at].id == pane,
        forall|j: int| 0 <= j < at ==> (#[trigger] leaves[j]).id != pane,
    ensures
        at + 1 < leaves.len() ==> next_pane(leaves, pane) == leaves[at + 1].id,
        at + 1 == leaves.len() ==> next_pane(leaves, pane) == leaves[0].id,
{
    it_is_met_in_the_walk(leaves, pane, at, 0);
}

proof fn it_is_met_in_the_walk(leaves: Seq<Leaf>, pane: PaneId, at: int, from: int)
    requires
        0 <= from <= at < leaves.len(),
        leaves[at].id == pane,
        forall|j: int| 0 <= j < at ==> (#[trigger] leaves[j]).id != pane,
    ensures
        next_in(leaves, pane, from) == next_in(leaves, pane, at),
    decreases at - from,
{
    if from < at {
        assert(leaves[from].id != pane);
        it_is_met_in_the_walk(leaves, pane, at, from + 1);
    }
}

/// A closed tab gives back what it had: a picture its canvas, the globe its surface; any
/// other tab but a search leaves nothing to give back.
pub proof fn a_closed_tab_gives_back_what_it_had(before: State, after: State, id: ViewId, tab: Tab)
    requires
        cleared_up(before, after, id, tab),
    ensures
        tab.kind is Preview ==> after.said() == before.said().push(calls::CallView::CloseView { view: id }),
        tab.kind matches ViewKind::Globe(globe) ==> after.said() == before.said().push(
            calls::CallView::RevokeGlobe { surface: globe.surface },
        ),
        tab.kind is Empty || tab.kind is Browse || tab.kind is Downloaded || tab.kind is Shown ==> after == before,
        tab.kind is Search ==> forall|i: int|
            0 <= i < after.overlays@.len() ==> (#[trigger] after.overlays@[i]).source != Some(id),
        after.screen == before.screen,
{
    if tab.kind is Search {
        let laid = choose|laid: State| #[trigger]
            crate::handlers::overlay::narrowed(before, laid, id, Set::empty()) && crate::handlers::outline::redrawn(
                laid,
                after,
            );
        crate::handlers::overlay::what_stays_is_not_from_there(before.overlays@, id);
        assert(after.overlays == laid.overlays);
    }
}

/// The catalogue at hand is the first that there is, and a new one at the root where there is
/// none.
pub proof fn the_catalogue_at_hand_is_the_first(before: State, after: State, view: ViewId, opened: ViewId)
    requires
        catalogue_at_hand(before, after, view, opened),
    ensures
        forall|i: int|
            0 <= i < before.screen.views@.len() && (#[trigger] before.screen.views@[i]).kind is Browse && (forall|j: int|
                0 <= j < i ==> !((#[trigger] before.screen.views@[j]).kind is Browse)) ==> opened
                == before.screen.views@[i].id,
        (forall|i: int| 0 <= i < before.screen.views@.len() ==> !((#[trigger] before.screen.views@[i]).kind is Browse))
            ==> opened.number == before.screen.next && (screen::kind_in(after.screen.views@, opened) matches Some(
            ViewKind::Browse(browse),
        ) && browse.current_path@.len() == 0),
        after.said() == before.said(),
{
    let views = before.screen.views@;
    assert forall|i: int|
        0 <= i < views.len() && (#[trigger] views[i]).kind is Browse && (forall|j: int|
            0 <= j < i ==> !((#[trigger] views[j]).kind is Browse)) implies opened == views[i].id by {
        the_first_catalogue(views, i);
    }
    if forall|i: int| 0 <= i < views.len() ==> !((#[trigger] views[i]).kind is Browse) {
        no_catalogue(views);
    }
}

proof fn the_first_catalogue(views: Seq<Tab>, at: int)
    requires
        0 <= at < views.len(),
        views[at].kind is Browse,
        forall|j: int| 0 <= j < at ==> !((#[trigger] views[j]).kind is Browse),
    ensures
        first_catalogue(views) == Some(views[at].id),
    decreases views.len(),
{
    if at > 0 {
        assert(!(views[0].kind is Browse));
        assert forall|j: int| 0 <= j < at - 1 implies !((#[trigger] views.skip(1)[j]).kind is Browse) by {
            assert(views.skip(1)[j] == views[j + 1]);
        }
        assert(views.skip(1)[at - 1] == views[at]);
        the_first_catalogue(views.skip(1), at - 1);
    }
}

proof fn no_catalogue(views: Seq<Tab>)
    requires
        forall|i: int| 0 <= i < views.len() ==> !((#[trigger] views[i]).kind is Browse),
    ensures
        first_catalogue(views) is None,
    decreases views.len(),
{
    if views.len() > 0 {
        assert(!(views[0].kind is Browse));
        assert forall|j: int| 0 <= j < views.skip(1).len() implies !((#[trigger] views.skip(1)[j]).kind is Browse) by {
            assert(views.skip(1)[j] == views[j + 1]);
        }
        no_catalogue(views.skip(1));
    }
}

/// The catalogues are the tabs that are catalogues, in their order.
pub proof fn the_catalogues_are_counted(views: Seq<Tab>, tab: Tab)
    ensures
        catalogues(Seq::empty()).len() == 0,
        tab.kind is Browse ==> catalogues(views.push(tab)) == catalogues(views).push(tab.id),
        !(tab.kind is Browse) ==> catalogues(views.push(tab)) == catalogues(views),
{
    assert(views.push(tab).drop_last() =~= views);
}

/// Once there is a window, the library is listed first.
pub proof fn the_library_is_listed_first(before: State, after: State)
    requires
        bootstrapped(before, after),
    ensures
        after.said().len() > before.said().len(),
        after.said()[before.said().len() as int] == calls::CallView::ListLibrary,
{
    let listed = choose|listed: State| {
        &&& listed == (State { calls: listed.calls, ..before })
        &&& listed.said() == before.said().push(calls::CallView::ListLibrary)
        &&& #[trigger] all_at_root(listed, after, catalogues(before.screen.views@))
    };
    questions_only_come(listed, after, catalogues(before.screen.views@));
    assert(after.said()[before.said().len() as int] == listed.said()[before.said().len() as int]);
}

proof fn questions_only_come(before: State, after: State, views: Seq<ViewId>)
    requires
        all_at_root(before, after, views),
    ensures
        after.said().len() >= before.said().len(),
        after.said().take(before.said().len() as int) == before.said(),
    decreases views.len(),
{
    if views.len() == 0 {
        assert(after.said().take(before.said().len() as int) =~= before.said());
    } else {
        let middle = choose|middle: State|
            all_at_root(before, middle, views.drop_last()) && #[trigger] browse::entered(
                middle,
                after,
                views.last(),
                Seq::empty(),
            );
        questions_only_come(before, middle, views.drop_last());
        assert(after.said().take(before.said().len() as int) =~= middle.said().take(before.said().len() as int));
    }
}

/// A tab that is sent aside stands alone in a new pane on that side of its own, is shown
/// there, and its pane is at hand; the other tabs stay where they are.
pub proof fn a_tab_is_sent_to_its_side(before: Screen, after: Screen, id: ViewId, side: Side, at: int, spot: int)
    requires
        before.whole(),
        before.next < u64::MAX - 1,
        sent_aside(before, after, id, side),
        0 <= at < before.views@.len(),
        before.views@[at].id == id,
        0 <= spot < before.panes().len(),
        before.panes()[spot].id == before.views@[at].pane,
    ensures
        after.views@.len() == before.views@.len(),
        after.views@[at].pane.number == before.next,
        after.views@[at].kind == before.views@[at].kind,
        forall|i: int| 0 <= i < before.views@.len() && i != at ==> #[trigger] after.views@[i] == before.views@[i],
        after.focused.number == before.next,
        screen::active_of(after.panes(), after.focused) == Some(id),
        after.panes().len() == before.panes().len() + 1,
        side is Right || side is Below ==> after.panes()[spot + 1].id.number == before.next,
        side is Left || side is Above ==> after.panes()[spot].id.number == before.next,
{
    let pane = before.views@[at].pane;
    let fresh = PaneId { number: before.next };
    screen::view_place_is_first(before.views@, id);
    let place = screen::view_place(before.views@, id);
    if place < at {
        assert(before.views@[place].id != before.views@[at].id);
    } else if place > at {
        assert(before.views@[at].id != id);
    }
    let cut = screen::split(before, pane, side, HALF);
    screen::split_keeps_whole(before, pane, side, HALF);
    screen::a_new_pane_lies_on_its_side(before, pane, side, HALF, spot);
    let there = choose|there: Screen| #[trigger]
        screen::moved(cut, there, id, PaneId { number: before.next }) && after == screen::turned(there, id);
    let new_spot = if side is Right || side is Below { spot + 1 } else { spot };
    assert(cut.panes()[new_spot].id == fresh);
    assert(screen::has_pane(cut.panes(), fresh));
    assert(pane.number < before.next);
    screen::what_is_moved_is_shown_there(cut, there, id, fresh, at);
    screen::a_move_keeps_the_panes(cut, there, id, fresh);
    assert(there.panes()[new_spot].id == fresh);
    the_tab_is_turned_to(there, id, at, fresh);
}

proof fn the_tab_is_turned_to(screen: Screen, id: ViewId, at: int, pane: PaneId)
    requires
        0 <= at < screen.views@.len(),
        screen.views@[at].id == id,
        screen.views@[at].pane == pane,
        forall|j: int| 0 <= j < at ==> (#[trigger] screen.views@[j]).id != id,
        screen::has_pane(screen.panes(), pane),
    ensures
        screen::turned(screen, id).focused == pane,
        screen::turned(screen, id).views == screen.views,
        screen::active_of(screen::turned(screen, id).panes(), pane) == Some(id),
        screen::turned(screen, id).panes().len() == screen.panes().len(),
        forall|i: int|
            0 <= i < screen.panes().len() ==> (#[trigger] screen::turned(screen, id).panes()[i]).id == screen.panes()[i].id,
{
    screen::view_place_is(screen.views@, id, at);
    screen::showing_is_shown(screen.layout.root, pane, Some(id));
    screen::showing_keeps_the_panes(screen.layout.root, pane, Some(id));
}

/// The globe is turned to where there is one, and else opened in the pane at hand; nothing is
/// asked for it.
pub proof fn the_globe_is_turned_to_or_opened(before: State, after: State)
    requires
        globe_turned_to(before, after),
    ensures
        after.said() == before.said(),
        after.overlays == before.overlays,
        only_one(before.screen.views@, NewTab::Globe) matches Some(view) ==> after.screen == screen::turned(
            before.screen,
            view,
        ),
        only_one(before.screen.views@, NewTab::Globe) is None ==> {
            &&& after.screen.views@.len() == before.screen.views@.len() + 1
            &&& after.screen.views@.last().kind is Globe
            &&& after.open is None
        },
{
}

} // verus!
