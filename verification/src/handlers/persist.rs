//! The layout between two runs: as the screen was left, so it opens.
//!
//! Only what says what is shown is remembered: the shape of the tree, the shares of its
//! parts, the kind of every tab, and the little out of which its contents are asked for
//! anew. What is remembered is a cache: where it is lost, the screen opens as it was
//! configured.

use vstd::prelude::*;
use crate::calls::{self, Call};
use crate::handlers::browse;
use crate::handlers::nav;
use crate::handlers::preview;
use crate::handlers::search;
use crate::message::NewTab;
use crate::state::browse::BrowseState;
use crate::state::globe::GlobeState;
use crate::state::ids::{PaneId, ViewId};
use crate::state::listing::ListingState;
use crate::state::overlay::Handle;
use crate::state::request::Reply;
use crate::state::screen::{self, Leaf, Node, Screen, Split, Tab, ViewKind};
use crate::state::search::{Cloud, Mission, Period, SearchState};
use crate::state::side::Axis;
use crate::state::{self, State};

verus! {

broadcast use vstd::string::group_string_axioms;

/// Where the layout lies.
pub const PATH: &'static str = "state/data-browser.json";

// -- What is remembered --

/// A remembered layout.
#[derive(PartialEq, Debug)]
pub struct Saved {
    pub root: SavedNode,
    /// The pane that was at hand, by its number in the walk.
    pub focus: usize,
}

#[derive(PartialEq, Debug)]
pub enum SavedNode {
    Pane {
        tabs: Vec<SavedTab>,
        /// The tab that was shown, by its number in the list.
        active: usize,
    },
    Split {
        axis: String,
        /// The bits of the share.
        fraction: u32,
        first: Box<SavedNode>,
        second: Box<SavedNode>,
    },
}

#[derive(PartialEq, Debug)]
pub enum SavedTab {
    Empty,
    Browse { path: String },
    /// What was searched for, and not what was found.
    Search { query: String, mission: String, period: String, from: String, to: String, cloud: String },
    Downloaded,
    Globe,
    Shown,
    /// What the snapshot is called, and its record when it is downloaded.
    Preview { label: String, entry: Option<String> },
}

/// A remembered tab, in words.
pub ghost enum TabView {
    Empty,
    Browse { path: Seq<char> },
    Search {
        query: Seq<char>,
        mission: Seq<char>,
        period: Seq<char>,
        from: Seq<char>,
        to: Seq<char>,
        cloud: Seq<char>,
    },
    Downloaded,
    Globe,
    Shown,
    Preview { label: Seq<char>, entry: Option<Seq<char>> },
}

/// A remembered part of the screen, in words.
pub ghost enum NodeView {
    Pane { tabs: Seq<TabView>, active: int },
    Split { axis: Seq<char>, fraction: u32, first: Box<NodeView>, second: Box<NodeView> },
}

/// A remembered layout, in words.
pub ghost struct SavedView {
    pub root: NodeView,
    pub focus: int,
}

pub open spec fn tab_seen(tab: SavedTab) -> TabView {
    match tab {
        SavedTab::Empty => TabView::Empty,
        SavedTab::Browse { path } => TabView::Browse { path: path@ },
        SavedTab::Search { query, mission, period, from, to, cloud } => TabView::Search {
            query: query@,
            mission: mission@,
            period: period@,
            from: from@,
            to: to@,
            cloud: cloud@,
        },
        SavedTab::Downloaded => TabView::Downloaded,
        SavedTab::Globe => TabView::Globe,
        SavedTab::Shown => TabView::Shown,
        SavedTab::Preview { label, entry } => TabView::Preview { label: label@, entry: preview::entry_of(entry) },
    }
}

pub open spec fn tabs_seen(tabs: Seq<SavedTab>) -> Seq<TabView> {
    tabs.map_values(|tab: SavedTab| tab_seen(tab))
}

pub open spec fn node_seen(node: SavedNode) -> NodeView
    decreases node,
{
    match node {
        SavedNode::Pane { tabs, active } => NodeView::Pane { tabs: tabs_seen(tabs@), active: active as int },
        SavedNode::Split { axis, fraction, first, second } => NodeView::Split {
            axis: axis@,
            fraction,
            first: Box::new(node_seen(*first)),
            second: Box::new(node_seen(*second)),
        },
    }
}

impl View for Saved {
    type V = SavedView;

    open spec fn view(&self) -> SavedView {
        SavedView { root: node_seen(self.root), focus: self.focus as int }
    }
}

// -- To take down --

/// What is remembered of a tab.
pub open spec fn tab_saved(kind: ViewKind) -> TabView {
    match kind {
        ViewKind::Empty => TabView::Empty,
        ViewKind::Browse(browse) => TabView::Browse { path: browse.current_path@ },
        ViewKind::Search(search) => TabView::Search {
            query: search.query@,
            mission: search.mission.key_spec(),
            period: search.period.key_spec(),
            from: search.from@,
            to: search.to@,
            cloud: search.cloud.key_spec(),
        },
        ViewKind::Downloaded(_) => TabView::Downloaded,
        ViewKind::Globe(_) => TabView::Globe,
        ViewKind::Shown => TabView::Shown,
        ViewKind::Preview(preview) => TabView::Preview { label: preview.label@, entry: preview::entry_of(preview.entry) },
    }
}

pub open spec fn tabs_saved(tabs: Seq<Tab>) -> Seq<TabView> {
    tabs.map_values(|tab: Tab| tab_saved(tab.kind))
}

/// The number of a tab in a list; 0 when it is not there.
pub open spec fn number_in(tabs: Seq<Tab>, shown: Option<ViewId>) -> int {
    match shown {
        Some(id) => {
            let at = screen::view_place(tabs, id);
            if 0 <= at < tabs.len() { at } else { 0 }
        },
        None => 0,
    }
}

/// What is remembered of a part of the screen.
pub open spec fn node_saved(views: Seq<Tab>, node: Node) -> NodeView
    decreases node,
{
    match node {
        Node::Leaf(leaf) => {
            let tabs = screen::views_of(views, leaf.id);
            NodeView::Pane { tabs: tabs_saved(tabs), active: number_in(tabs, leaf.active) }
        },
        Node::Split(split) => NodeView::Split {
            axis: split.axis.key_spec(),
            fraction: split.fraction,
            first: Box::new(node_saved(views, *split.first)),
            second: Box::new(node_saved(views, *split.second)),
        },
    }
}

/// The number of a pane in the walk; 0 when it is not there.
pub open spec fn walk_number(leaves: Seq<Leaf>, pane: PaneId) -> int {
    let at = first_at(leaves, pane);
    if at < leaves.len() { at } else { 0 }
}

pub open spec fn first_at(leaves: Seq<Leaf>, pane: PaneId) -> int
    decreases leaves.len(),
{
    if leaves.len() == 0 || leaves[0].id == pane { 0 } else { 1 + first_at(leaves.skip(1), pane) }
}

/// What is remembered of a screen.
pub open spec fn screen_saved(screen: Screen) -> SavedView {
    SavedView {
        root: node_saved(screen.views@, screen.layout.root),
        focus: walk_number(screen.panes(), screen.focused),
    }
}

fn save_tab(kind: &ViewKind) -> (tab: SavedTab)
    ensures
        tab_seen(tab) == tab_saved(*kind),
{
    match kind {
        ViewKind::Empty => SavedTab::Empty,
        ViewKind::Browse(browse) => SavedTab::Browse { path: browse.current_path.clone() },
        ViewKind::Search(search) => SavedTab::Search {
            query: search.query.clone(),
            mission: search.mission.key().to_owned(),
            period: search.period.key().to_owned(),
            from: search.from.clone(),
            to: search.to.clone(),
            cloud: search.cloud.key().to_owned(),
        },
        ViewKind::Downloaded(_) => SavedTab::Downloaded,
        ViewKind::Globe(_) => SavedTab::Globe,
        ViewKind::Shown => SavedTab::Shown,
        ViewKind::Preview(preview) => SavedTab::Preview {
            label: preview.label.clone(),
            entry: match &preview.entry {
                Some(entry) => Some(entry.clone()),
                None => None,
            },
        },
    }
}

fn save_pane(state: &State, leaf: &Leaf) -> (node: SavedNode)
    ensures
        node_seen(node) == node_saved(state.screen.views@, Node::Leaf(*leaf)),
{
    let list: Vec<&Tab> = state.views_in(leaf.id);
    let ghost all = screen::views_of(state.screen.views@, leaf.id);
    let mut tabs: Vec<SavedTab> = Vec::new();
    let mut i: usize = 0;
    assert(list@.map_values(|tab: &Tab| *tab) == all);
    assert(list@.len() == all.len());
    assert(tabs_seen(tabs@) =~= tabs_saved(all.take(0)));
    let mut active: Option<usize> = None;
    while i < list.len()
        invariant
            i <= list@.len(),
            list@.len() == all.len(),
            list@.map_values(|tab: &Tab| *tab) == all,
            tabs_seen(tabs@) == tabs_saved(all.take(i as int)),
            match active {
                Some(at) => at < i && (leaf.active matches Some(id) && all[at as int].id == id && (forall|j: int|
                    0 <= j < at ==> (#[trigger] all[j]).id != id)),
                None => leaf.active matches Some(id) ==> forall|j: int| 0 <= j < i ==> (#[trigger] all[j]).id != id,
            },
        decreases list@.len() - i,
    {
        let ghost before = tabs@;
        assert(all[i as int] == list@.map_values(|tab: &Tab| *tab)[i as int]);
        assert(all[i as int] == *list@[i as int]);
        tabs.push(save_tab(&list[i].kind));
        assert(tabs_seen(tabs@) =~= tabs_seen(before).push(tab_saved(all[i as int].kind)));
        assert(tabs_saved(all.take(i + 1)) =~= tabs_saved(all.take(i as int)).push(tab_saved(all[i as int].kind)));
        if active.is_none() {
            if let Some(id) = leaf.active {
                if list[i].id == id {
                    active = Some(i);
                }
            }
        }
        i += 1;
    }
    assert(all.take(all.len() as int) =~= all);
    proof {
        if let Some(id) = leaf.active {
            screen::view_place_is_first(all, id);
            let place = screen::view_place(all, id);
            match active {
                Some(at) => {
                    if place < at {
                        assert(all[place].id != id);
                    } else if at < place {
                        assert(all[at as int].id != id);
                    }
                },
                None => {
                    if place < all.len() {
                        assert(all[place].id != id);
                    }
                },
            }
        }
    }
    SavedNode::Pane {
        tabs,
        active: match active {
            Some(at) => at,
            None => 0,
        },
    }
}

fn save_node(state: &State, node: &Node) -> (saved: SavedNode)
    ensures
        node_seen(saved) == node_saved(state.screen.views@, *node),
    decreases *node,
{
    match node {
        Node::Leaf(leaf) => save_pane(state, leaf),
        Node::Split(split) => SavedNode::Split {
            axis: split.axis.key().to_owned(),
            fraction: split.fraction,
            first: Box::new(save_node(state, &split.first)),
            second: Box::new(save_node(state, &split.second)),
        },
    }
}

/// What is remembered of the screen.
pub fn snapshot(state: &State) -> (saved: Saved)
    ensures
        saved@ == screen_saved(state.screen),
{
    let root: SavedNode = save_node(state, state.screen.layout.root());
    let panes: Vec<Leaf> = state.screen.all_panes();
    let ghost all = panes@;
    let mut at: usize = 0;
    assert(all.skip(0) =~= all);
    while at < panes.len() && panes[at].id != state.screen.focused
        invariant
            at <= all.len(),
            all == panes@,
            at + first_at(all.skip(at as int), state.screen.focused) == first_at(all, state.screen.focused),
        decreases all.len() - at,
    {
        assert(all.skip(at as int)[0] == all[at as int]);
        assert(all.skip(at as int).skip(1) =~= all.skip(at + 1));
        at += 1;
    }
    proof {
        if at < all.len() {
            assert(all.skip(at as int)[0] == all[at as int]);
        }
    }
    Saved { root, focus: if at < panes.len() { at } else { 0 } }
}

// -- To put together --

/// The kind of a remembered tab of which there are never two.
pub open spec fn kind_of(tab: TabView) -> Option<NewTab> {
    match tab {
        TabView::Downloaded => Some(NewTab::Downloaded),
        TabView::Globe => Some(NewTab::Globe),
        TabView::Shown => Some(NewTab::Shown),
        TabView::Search { .. } => Some(NewTab::Search),
        _ => None,
    }
}

fn singleton_kind(tab: &SavedTab) -> (kind: Option<NewTab>)
    ensures
        kind == kind_of(tab_seen(*tab)),
{
    match tab {
        SavedTab::Downloaded => Some(NewTab::Downloaded),
        SavedTab::Globe => Some(NewTab::Globe),
        SavedTab::Shown => Some(NewTab::Shown),
        SavedTab::Search { .. } => Some(NewTab::Search),
        _ => None,
    }
}

/// There is a tab of this kind already.
pub open spec fn is_open(views: Seq<Tab>, kind: Option<NewTab>) -> bool {
    kind matches Some(kind) && nav::only_one(views, kind) is Some
}

/// A search for what is remembered. A key that is not known, as of another version,
/// stands for the choice that narrows nothing.
pub open spec fn is_search(search: SearchState, tab: TabView) -> bool {
    tab matches TabView::Search { query, mission, period, from, to, cloud } && {
        &&& search.query@ == query
        &&& search.from@ == from
        &&& search.to@ == to
        &&& search.mission.key_spec() == mission || search.mission == Mission::All && forall|one: Mission|
            #[trigger] one.key_spec() != mission
        &&& search.period.key_spec() == period || search.period == Period::Any && forall|one: Period|
            #[trigger] one.key_spec() != period
        &&& search.cloud.key_spec() == cloud || search.cloud == Cloud::Any && forall|one: Cloud|
            #[trigger] one.key_spec() != cloud
        &&& search.results@.len() == 0
        &&& search.error is None
    }
}

/// What a remembered tab shows at first.
pub open spec fn is_start(kind: ViewKind, tab: TabView) -> bool {
    match tab {
        TabView::Empty => nav::is_fresh(kind, NewTab::Empty),
        TabView::Browse { .. } => nav::is_fresh(kind, NewTab::Browse),
        TabView::Search { .. } => kind matches ViewKind::Search(search) && is_search(search, tab),
        TabView::Downloaded => nav::is_fresh(kind, NewTab::Downloaded),
        TabView::Globe => nav::is_fresh(kind, NewTab::Globe),
        TabView::Shown => nav::is_fresh(kind, NewTab::Shown),
        TabView::Preview { .. } => false,
    }
}

/// What a remembered tab asks for. The library was asked when the screen came up, and
/// its answer comes to all.
pub open spec fn is_asked(before: State, after: State, view: ViewId, tab: TabView, now: i64) -> bool {
    match tab {
        TabView::Browse { path } => browse::entered(before, after, view, path),
        TabView::Search { .. } => search::ran(before, after, view, now),
        _ => after == before,
    }
}

/// A remembered tab was opened in a pane. Of a kind of which there are never two, a
/// second one is left out.
pub open spec fn tab_restored(before: State, after: State, pane: PaneId, tab: TabView, now: i64) -> bool {
    if is_open(before.screen.views@, kind_of(tab)) {
        after == before
    } else {
        match tab {
            TabView::Preview { label, entry } => if label.len() == 0 {
                after == before
            } else {
                preview::tab_opened(
                    before,
                    after,
                    pane,
                    label,
                    entry,
                    preview::Awaited::File,
                    preview::opening(label, entry, before.next_mark()),
                )
            },
            _ => exists|kind: ViewKind, there: State| {
                &&& is_start(kind, tab)
                &&& there == (State { screen: there.screen, ..before })
                &&& #[trigger] screen::opened(before.screen, there.screen, pane, kind)
                &&& is_asked(there, after, ViewId { number: before.screen.next }, tab, now)
            },
        }
    }
}

fn named_mission(key: &str) -> (mission: Mission)
    ensures
        mission.key_spec() == key@ || mission == Mission::All && forall|one: Mission| #[trigger] one.key_spec() != key@,
{
    match Mission::from_key(key) {
        Some(mission) => mission,
        None => Mission::default(),
    }
}

fn named_period(key: &str) -> (period: Period)
    ensures
        period.key_spec() == key@ || period == Period::Any && forall|one: Period| #[trigger] one.key_spec() != key@,
{
    match Period::from_key(key) {
        Some(period) => period,
        None => Period::default(),
    }
}

fn named_cloud(key: &str) -> (cloud: Cloud)
    ensures
        cloud.key_spec() == key@ || cloud == Cloud::Any && forall|one: Cloud| #[trigger] one.key_spec() != key@,
{
    match Cloud::from_key(key) {
        Some(cloud) => cloud,
        None => Cloud::default(),
    }
}

/// Opens a tab and asks for what it lives by, as a person would.
fn open_tab(state: &mut State, pane: PaneId, tab: &SavedTab, now: i64)
    requires
        old(state).screen.whole(),
        old(state).screen.next < u64::MAX,
    ensures
        tab_restored(*old(state), *final(state), pane, tab_seen(*tab), now),
        final(state).screen.whole(),
        old(state).screen.next <= final(state).screen.next <= old(state).screen.next + 1,
{
    let ghost before = *state;
    let ghost seen = tab_seen(*tab);
    if let Some(kind) = singleton_kind(tab) {
        if nav::singleton(state, kind).is_some() {
            return;
        }
    }
    match tab {
        SavedTab::Empty => {
            let id: ViewId = state.open_in(pane, ViewKind::Empty);
            assert(screen::opened(before.screen, state.screen, pane, ViewKind::Empty));
            assert(is_asked(*state, *state, id, seen, now));
        },
        SavedTab::Browse { path } => {
            let fresh: ViewKind = ViewKind::Browse(BrowseState::default());
            let ghost kind = fresh;
            let id: ViewId = state.open_in(pane, fresh);
            let ghost there = *state;
            browse::request_path(state, id, path.clone());
            assert(screen::opened(before.screen, there.screen, pane, kind));
            assert(is_start(kind, seen));
            assert(is_asked(there, *state, id, seen, now));
        },
        SavedTab::Search { query, mission, period, from, to, cloud } => {
            let mut search: SearchState = SearchState::default();
            search.query = query.clone();
            search.mission = named_mission(mission);
            search.period = named_period(period);
            search.from = from.clone();
            search.to = to.clone();
            search.cloud = named_cloud(cloud);
            let ghost kind = ViewKind::Search(search);
            let id: ViewId = state.open_in(pane, ViewKind::Search(search));
            let ghost there = *state;
            search::run(state, id, now);
            assert(screen::opened(before.screen, there.screen, pane, kind));
            assert(is_start(kind, seen));
            assert(is_asked(there, *state, id, seen, now));
        },
        SavedTab::Downloaded => {
            let fresh: ViewKind = ViewKind::Downloaded(ListingState::default());
            let ghost kind = fresh;
            let id: ViewId = state.open_in(pane, fresh);
            assert(screen::opened(before.screen, state.screen, pane, kind));
            assert(is_start(kind, seen));
            assert(is_asked(*state, *state, id, seen, now));
        },
        SavedTab::Globe => {
            let fresh: ViewKind = ViewKind::Globe(GlobeState::default());
            let ghost kind = fresh;
            let id: ViewId = state.open_in(pane, fresh);
            assert(screen::opened(before.screen, state.screen, pane, kind));
            assert(is_start(kind, seen));
            assert(is_asked(*state, *state, id, seen, now));
        },
        SavedTab::Shown => {
            let id: ViewId = state.open_in(pane, ViewKind::Shown);
            assert(screen::opened(before.screen, state.screen, pane, ViewKind::Shown));
            assert(is_asked(*state, *state, id, seen, now));
        },
        SavedTab::Preview { label, entry } => {
            let entry: Option<String> = match entry {
                Some(entry) => Some(entry.clone()),
                None => None,
            };
            preview::reopen(state, pane, label.clone(), entry);
        },
    }
}

/// Remembered tabs were opened in a pane, one after another.
pub open spec fn tabs_restored(before: State, after: State, pane: PaneId, tabs: Seq<TabView>, now: i64) -> bool
    decreases tabs.len(),
{
    if tabs.len() == 0 {
        after == before
    } else {
        exists|middle: State| {
            &&& tabs_restored(before, middle, pane, tabs.drop_last(), now)
            &&& middle.screen.whole()
            &&& #[trigger] tab_restored(middle, after, pane, tabs.last(), now)
        }
    }
}

/// The screen turned to the tab of this number in a pane, if there is one.
pub open spec fn shown_in(screen: Screen, pane: PaneId, number: int) -> Screen {
    let tabs = screen::views_of(screen.views@, pane);
    if 0 <= number < tabs.len() { screen::turned(screen, tabs[number].id) } else { screen }
}

/// A remembered part of the screen was put together in place of a pane; `panes` are
/// its panes in the order of the walk. Where the way of a division is not known, as of
/// another version, nothing is divided and all its tabs come into one pane.
pub open spec fn node_restored(
    before: State,
    after: State,
    pane: PaneId,
    node: NodeView,
    panes: Seq<PaneId>,
    now: i64,
) -> bool
    decreases node,
{
    match node {
        NodeView::Pane { tabs, active } => {
            &&& panes == seq![pane]
            &&& exists|filled: State| {
                &&& #[trigger] tabs_restored(before, filled, pane, tabs, now)
                &&& filled.screen.whole()
                &&& after == (State { screen: shown_in(filled.screen, pane, active), ..filled })
            }
        },
        NodeView::Split { axis, fraction, first, second } => match named_axis(axis) {
            Some(axis) => {
                let cut = State {
                    screen: screen::split(before.screen, pane, axis.tail_spec(), fraction),
                    ..before
                };
                let fresh = PaneId { number: before.screen.next };
                if screen::has_pane(before.screen.panes(), pane) {
                    exists|half: State, count: int| {
                        &&& #[trigger] half.screen.whole()
                        &&& node_restored(cut, half, pane, *first, #[trigger] panes.take(count), now)
                        &&& 0 <= count <= panes.len()
                        &&& node_restored(half, after, fresh, *second, panes.skip(count), now)
                    }
                } else {
                    after == before && panes.len() == 0
                }
            },
            None => exists|half: State, count: int| {
                &&& #[trigger] half.screen.whole()
                &&& node_restored(before, half, pane, *first, #[trigger] panes.take(count), now)
                &&& 0 <= count <= panes.len()
                &&& node_restored(half, after, pane, *second, panes.skip(count), now)
            },
        },
    }
}

/// The way of a division that is written so.
pub open spec fn named_axis(key: Seq<char>) -> Option<Axis> {
    if key == Axis::Horizontal.key_spec() {
        Some(Axis::Horizontal)
    } else if key == Axis::Vertical.key_spec() {
        Some(Axis::Vertical)
    } else {
        None
    }
}

/// The most names that a remembered part of the screen takes.
pub open spec fn room(node: NodeView) -> nat
    decreases node,
{
    match node {
        NodeView::Pane { tabs, .. } => tabs.len(),
        NodeView::Split { first, second, .. } => 2 + room(*first) + room(*second),
    }
}

fn rebuild_pane(state: &mut State, pane: PaneId, tabs: &Vec<SavedTab>, active: usize, now: i64)
    requires
        old(state).screen.whole(),
        old(state).screen.next + tabs@.len() <= u64::MAX,
    ensures
        exists|filled: State| {
            &&& #[trigger] tabs_restored(*old(state), filled, pane, tabs_seen(tabs@), now)
            &&& filled.screen.whole()
            &&& *final(state) == (State { screen: shown_in(filled.screen, pane, active as int), ..filled })
        },
        final(state).screen.whole(),
        old(state).screen.next <= final(state).screen.next <= old(state).screen.next + tabs@.len(),
{
    let ghost before = *state;
    let ghost all = tabs_seen(tabs@);
    let mut i: usize = 0;
    assert(tabs_restored(before, before, pane, all.take(0), now));
    while i < tabs.len()
        invariant
            i <= tabs@.len(),
            all == tabs_seen(tabs@),
            all.len() == tabs@.len(),
            state.screen.whole(),
            tabs_restored(before, *state, pane, all.take(i as int), now),
            before.screen.next <= state.screen.next <= before.screen.next + i,
            before.screen.next + tabs@.len() <= u64::MAX,
        decreases tabs@.len() - i,
    {
        let ghost middle = *state;
        assert(all.take(i + 1).drop_last() =~= all.take(i as int));
        assert(all.take(i + 1).last() == tab_seen(tabs@[i as int]));
        open_tab(state, pane, &tabs[i], now);
        assert(tab_restored(middle, *state, pane, all.take(i + 1).last(), now));
        i += 1;
    }
    assert(all.take(all.len() as int) =~= all);
    let ghost filled = *state;
    let ghost listed = screen::views_of(filled.screen.views@, pane);
    let shown: Option<ViewId> = {
        let list: Vec<&Tab> = state.views_in(pane);
        assert(list@.map_values(|tab: &Tab| *tab) == listed);
        assert(list@.len() == listed.len());
        if active < list.len() {
            assert(listed[active as int] == list@.map_values(|tab: &Tab| *tab)[active as int]);
            Some(list[active].id)
        } else {
            None
        }
    };
    if let Some(view) = shown {
        state.focus(view);
    }
    assert(tabs_restored(before, filled, pane, all, now));
}

fn rebuild(state: &mut State, pane: PaneId, node: &SavedNode, panes: &mut Vec<PaneId>, now: i64)
    requires
        old(state).screen.whole(),
        old(state).screen.next + room(node_seen(*node)) <= u64::MAX,
    ensures
        old(panes)@.len() <= final(panes)@.len(),
        final(panes)@.take(old(panes)@.len() as int) == old(panes)@,
        node_restored(
            *old(state),
            *final(state),
            pane,
            node_seen(*node),
            final(panes)@.skip(old(panes)@.len() as int),
            now,
        ),
        final(state).screen.whole(),
        old(state).screen.next <= final(state).screen.next <= old(state).screen.next + room(node_seen(*node)),
    decreases *node,
{
    let ghost before = *state;
    let ghost seen = node_seen(*node);
    let ghost walked = panes@;
    match node {
        SavedNode::Pane { tabs, active } => {
            panes.push(pane);
            assert(panes@.take(walked.len() as int) =~= walked);
            assert(panes@.skip(walked.len() as int) =~= seq![pane]);
            rebuild_pane(state, pane, tabs, *active, now);
        },
        SavedNode::Split { axis, fraction, first, second } => {
            proof {
                Axis::keys_differ(Axis::Horizontal, Axis::Vertical);
            }
            let fresh: PaneId = match Axis::from_key(axis) {
                Some(axis) => match state.split_pane(pane, axis.tail(), *fraction) {
                    Some(fresh) => fresh,
                    None => {
                        assert(panes@.take(walked.len() as int) =~= walked);
                        assert(panes@.skip(walked.len() as int).len() == 0);
                        return;
                    },
                },
                None => pane,
            };
            rebuild(state, pane, first, panes, now);
            let ghost half = *state;
            let ghost middle = panes@;
            rebuild(state, fresh, second, panes, now);
            proof {
                let all = panes@.skip(walked.len() as int);
                let count = middle.len() - walked.len();
                assert(panes@.take(walked.len() as int) =~= panes@.take(middle.len() as int).take(walked.len() as int));
                assert(all.take(count) =~= panes@.take(middle.len() as int).skip(walked.len() as int));
                assert(all.take(count) =~= middle.skip(walked.len() as int));
                assert(all.skip(count) =~= panes@.skip(middle.len() as int));
                assert(half.screen.whole());
            }
        },
    }
}

/// The screen with the remembered pane at hand: the one of this number, or else the
/// first. A pane that shows nothing cannot be turned to.
pub open spec fn refocused(screen: Screen, panes: Seq<PaneId>, focus: int) -> Screen {
    let pane = if 0 <= focus < panes.len() {
        Some(panes[focus])
    } else if panes.len() > 0 {
        Some(panes[0])
    } else {
        None
    };
    match pane {
        Some(pane) => match screen::active_of(screen.panes(), pane) {
            Some(view) => screen::turned(screen, view),
            None => screen,
        },
        None => screen,
    }
}

/// A remembered layout was put together in the pane at hand.
pub open spec fn layout_restored(before: State, after: State, saved: SavedView, now: i64) -> bool {
    exists|there: State, panes: Seq<PaneId>| {
        &&& there.screen.whole()
        &&& #[trigger] node_restored(before, there, before.screen.focused, saved.root, panes, now)
        &&& after == (State { screen: refocused(there.screen, panes, saved.focus), ..there })
    }
}

/// Puts a remembered layout together.
pub fn restore(state: &mut State, saved: &Saved, now: i64)
    requires
        old(state).screen.whole(),
        old(state).screen.next + room(saved@.root) <= u64::MAX,
    ensures
        layout_restored(*old(state), *final(state), saved@, now),
        final(state).screen.whole(),
{
    let ghost before = *state;
    let mut panes: Vec<PaneId> = Vec::new();
    let pane: PaneId = state.screen.focused;
    rebuild(state, pane, &saved.root, &mut panes, now);
    let ghost there = *state;
    assert(panes@.skip(0) =~= panes@);
    assert(node_restored(before, there, before.screen.focused, saved@.root, panes@, now));
    let target: Option<PaneId> = if saved.focus < panes.len() {
        Some(panes[saved.focus])
    } else if panes.len() > 0 {
        Some(panes[0])
    } else {
        None
    };
    if let Some(pane) = target {
        if let Some(view) = state.active_in(pane) {
            state.focus(view);
        }
    }
}

// -- To write and to read --

/// Writes the layout if it is not the one that was written last. `body` is the layout
/// as it is written and `mark` a mark of it. Two marks are compared, and not the actions
/// that may have changed the layout: one would be forgotten.
pub fn save_if_changed(state: &mut State, body: Vec<u8>, mark: u64)
    ensures
        if mark == old(state).last_saved {
            *final(state) == *old(state)
        } else {
            &&& *final(state) == (State {
                last_saved: mark,
                asked: state::one_more(old(state).asked),
                calls: final(state).calls,
                ..*old(state)
            })
            &&& final(state).said() == old(state).said().push(
                calls::CallView::WriteLayout { path: PATH@, body: body@, correlation: old(state).next_mark() },
            )
        },
{
    if mark == state.last_saved {
        return;
    }
    state.last_saved = mark;
    let correlation: String = state.mark();
    let call: Call = Call::WriteLayout { path: PATH.to_owned(), body, correlation };
    proof {
        calls::said_push(state.calls@, call);
    }
    state.calls.push(call);
}

/// The layout of this question lies in memory, on its way to the file.
pub fn on_writing(state: &mut State, correlation: String, memory: Handle)
    ensures
        *final(state) == (State { layout_writes: final(state).layout_writes, ..*old(state) }),
        final(state).layout_writes@ == old(state).layout_writes@.insert(correlation@, memory),
{
    state.layout_writes.insert(correlation, memory);
}

/// The layout was written, or it was not: a lost one costs one setting of tabs. Either way
/// the memory that held it is let go, and let go once.
pub fn on_write_result(state: &mut State, correlation: &str)
    ensures
        if old(state).layout_writes@.contains_key(correlation@) {
            &&& *final(state) == (State {
                layout_writes: final(state).layout_writes,
                calls: final(state).calls,
                ..*old(state)
            })
            &&& final(state).layout_writes@ == old(state).layout_writes@.remove(correlation@)
            &&& final(state).said() == old(state).said().push(
                calls::CallView::Release { handle: old(state).layout_writes@[correlation@] },
            )
        } else {
            *final(state) == *old(state)
        },
{
    if !state.layout_writes.contains_key(correlation) {
        return;
    }
    if let Some(handle) = state.layout_writes.remove(correlation) {
        let call: Call = Call::Release { handle };
        proof {
            calls::said_push(state.calls@, call);
        }
        state.calls.push(call);
    }
}

/// Takes the layout of this mark as written, so that a restored one does not write
/// itself over with the same.
pub fn remember(state: &mut State, mark: u64)
    ensures
        *final(state) == (State { last_saved: mark, ..*old(state) }),
{
    state.last_saved = mark;
}

/// Asks for the remembered layout. Until it comes the screen is empty: what to show is
/// not known.
pub fn load(state: &mut State)
    ensures
        *final(state) == (State {
            layout_read: final(state).layout_read,
            asked: state::one_more(old(state).asked),
            calls: final(state).calls,
            ..*old(state)
        }),
        final(state).layout_read.waiting() == Some(old(state).next_mark()),
        final(state).said() == old(state).said().push(
            calls::CallView::ReadLayout { path: PATH@, correlation: old(state).next_mark() },
        ),
{
    let correlation: String = state.mark();
    state.layout_read.begin(correlation.clone());
    let call: Call = Call::ReadLayout { path: PATH.to_owned(), correlation };
    proof {
        calls::said_push(state.calls@, call);
    }
    state.calls.push(call);
}

/// What became of an answer to the question for the layout.
#[derive(Clone, Copy, PartialEq, Eq, Structural, Debug)]
pub enum Read {
    /// It was not the answer to the last question.
    Stale,
    /// There was nothing to remember.
    Fresh,
    /// The screen is as it was left.
    Restored,
}

/// The remembered layout has come, or there is none: at the first run, after it was
/// lost, or in the words of another version. All three mean one thing, that the screen
/// opens as it was configured. An answer to an earlier question puts nothing together
/// for the second time.
pub fn on_read_result(state: &mut State, correlation: &str, saved: Option<Saved>, now: i64) -> (read: Read)
    requires
        old(state).screen.whole(),
        old(state).screen.next < u64::MAX,
        saved matches Some(saved) ==> old(state).screen.next + room(saved@.root) <= u64::MAX,
    ensures
        if old(state).layout_read.waiting() == Some(correlation@) {
            exists|middle: State| {
                &&& middle == (State { layout_read: middle.layout_read, ..*old(state) })
                &&& #[trigger] middle.layout_read.waiting() is None
                &&& match saved {
                    Some(saved) => read == Read::Restored && layout_restored(middle, *final(state), saved@, now),
                    None => read == Read::Fresh && nav::tab_opened(
                        middle,
                        *final(state),
                        old(state).screen.focused,
                        old(state).start,
                        now,
                    ),
                }
            }
        } else {
            read == Read::Stale && *final(state) == *old(state)
        },
        final(state).screen.whole(),
{
    if state.layout_read.status(correlation) != Reply::Current {
        return Read::Stale;
    }
    state.layout_read.settle(correlation);
    let ghost middle = *state;
    assert(middle.layout_read.waiting() is None);
    match saved {
        Some(saved) => {
            restore(state, &saved, now);
            Read::Restored
        },
        None => {
            fresh(state, now);
            Read::Fresh
        },
    }
}

/// One tab, as it was configured.
fn fresh(state: &mut State, now: i64)
    requires
        old(state).screen.whole(),
        old(state).screen.next < u64::MAX,
    ensures
        nav::tab_opened(*old(state), *final(state), old(state).screen.focused, old(state).start, now),
        final(state).screen.whole(),
{
    let pane: PaneId = state.screen.focused;
    let start: NewTab = state.start;
    nav::on_new_tab(state, pane, start, now);
}

// -- Laws --

/// Two tabs that are remembered alike are of one kind and stand for the same: catalogues for
/// one folder, searches for one question, pictures for one snapshot.
pub proof fn what_is_remembered_of_a_tab(one: ViewKind, other: ViewKind)
    requires
        tab_saved(one) == tab_saved(other),
    ensures
        one is Empty <==> other is Empty,
        one is Downloaded <==> other is Downloaded,
        one is Globe <==> other is Globe,
        one is Shown <==> other is Shown,
        one matches ViewKind::Browse(a) ==> (other matches ViewKind::Browse(b) && a.current_path@ == b.current_path@),
        one matches ViewKind::Search(a) ==> (other matches ViewKind::Search(b) && {
            &&& a.query@ == b.query@
            &&& a.mission == b.mission
            &&& a.period == b.period
            &&& a.from@ == b.from@
            &&& a.to@ == b.to@
            &&& a.cloud == b.cloud
        }),
        one matches ViewKind::Preview(a) ==> (other matches ViewKind::Preview(b) && a.label@ == b.label@
            && preview::entry_of(a.entry) == preview::entry_of(b.entry)),
{
    if let ViewKind::Search(a) = one {
        if let ViewKind::Search(b) = other {
            Mission::keys_differ(a.mission, b.mission);
            Period::keys_differ(a.period, b.period);
            Cloud::keys_differ(a.cloud, b.cloud);
        }
    }
}

/// What is remembered of a tab is what it shows.
pub proof fn a_tab_is_remembered_by_what_it_shows(kind: ViewKind)
    ensures
        kind matches ViewKind::Browse(browse) ==> tab_saved(kind) == (TabView::Browse { path: browse.current_path@ }),
        kind matches ViewKind::Search(search) ==> (tab_saved(kind) matches TabView::Search {
            query,
            mission,
            period,
            from,
            to,
            cloud,
        } && {
            &&& query == search.query@
            &&& mission == search.mission.key_spec()
            &&& period == search.period.key_spec()
            &&& from == search.from@
            &&& to == search.to@
            &&& cloud == search.cloud.key_spec()
        }),
        kind matches ViewKind::Preview(preview) ==> (tab_saved(kind) matches TabView::Preview { label, entry } && label
            == preview.label@ && (entry is Some <==> preview.entry is Some)),
        kind is Empty ==> tab_saved(kind) is Empty,
        kind is Downloaded ==> tab_saved(kind) is Downloaded,
        kind is Globe ==> tab_saved(kind) is Globe,
        kind is Shown ==> tab_saved(kind) is Shown,
{
}

/// A search comes back as the question it was, without what it had found.
pub proof fn a_search_comes_back_as_its_question(was: SearchState, now: SearchState)
    requires
        is_search(now, tab_saved(ViewKind::Search(was))),
    ensures
        now.query@ == was.query@,
        now.mission == was.mission,
        now.period == was.period,
        now.from@ == was.from@,
        now.to@ == was.to@,
        now.cloud == was.cloud,
        now.results@.len() == 0,
        now.error is None,
{
    Mission::keys_differ(now.mission, was.mission);
    Period::keys_differ(now.period, was.period);
    Cloud::keys_differ(now.cloud, was.cloud);
}

/// A tab comes back as the kind it was: a catalogue asks for its folder, a search asks its
/// question, a picture asks for its file.
pub proof fn a_tab_comes_back_as_its_kind(kind: ViewKind, tab: TabView, before: State, after: State, view: ViewId, now: i64)
    ensures
        is_start(kind, tab) ==> {
            &&& tab is Empty <==> kind is Empty
            &&& tab is Browse <==> kind is Browse
            &&& tab is Search <==> kind is Search
            &&& tab is Downloaded <==> kind is Downloaded
            &&& tab is Globe <==> kind is Globe
            &&& tab is Shown <==> kind is Shown
        },
        is_asked(before, after, view, tab, now) ==> {
            &&& tab matches TabView::Browse { path } ==> browse::entered(before, after, view, path)
            &&& tab is Search ==> search::ran(before, after, view, now)
            &&& !(tab is Browse) && !(tab is Search) ==> after == before
        },
        kind_of(tab) == Some(NewTab::Search) <==> tab is Search,
        kind_of(tab) == Some(NewTab::Downloaded) <==> tab is Downloaded,
        kind_of(tab) == Some(NewTab::Globe) <==> tab is Globe,
        kind_of(tab) == Some(NewTab::Shown) <==> tab is Shown,
        tab is Browse || tab is Empty || tab is Preview ==> kind_of(tab) is None,
{
}

/// A pane is remembered with its tabs in their order and with the number of the one that it
/// shows.
pub proof fn a_pane_is_remembered_with_its_tabs(views: Seq<Tab>, leaf: Leaf, i: int)
    ensures
        node_saved(views, Node::Leaf(leaf)) matches NodeView::Pane { tabs, active } && {
            let own = screen::views_of(views, leaf.id);
            &&& tabs.len() == own.len()
            &&& 0 <= i < own.len() ==> tabs[i] == tab_saved(own[i].kind)
            &&& leaf.active is None ==> active == 0
            &&& 0 <= i < own.len() && leaf.active == Some(own[i].id) && (forall|j: int|
                0 <= j < i ==> (#[trigger] own[j]).id != own[i].id) ==> active == i
        },
{
    let own = screen::views_of(views, leaf.id);
    if 0 <= i < own.len() && leaf.active == Some(own[i].id) && (forall|j: int|
        0 <= j < i ==> (#[trigger] own[j]).id != own[i].id) {
        screen::view_place_is(own, own[i].id, i);
    }
}

/// A division is remembered with its axis, its share and its two parts, the first first; and
/// its axis is read back.
pub proof fn a_division_is_remembered_with_its_parts(views: Seq<Tab>, split: Split)
    ensures
        node_saved(views, Node::Split(split)) matches NodeView::Split { axis, fraction, first, second } && {
            &&& axis == split.axis.key_spec()
            &&& named_axis(axis) == Some(split.axis)
            &&& fraction == split.fraction
            &&& *first == node_saved(views, *split.first)
            &&& *second == node_saved(views, *split.second)
        },
{
    Axis::keys_differ(Axis::Horizontal, split.axis);
    Axis::keys_differ(Axis::Vertical, split.axis);
}

/// The pane at hand is remembered by its number in the walk.
pub proof fn the_pane_at_hand_is_remembered(leaves: Seq<Leaf>, pane: PaneId, at: int)
    requires
        0 <= at < leaves.len(),
        leaves[at].id == pane,
        forall|j: int| 0 <= j < at ==> (#[trigger] leaves[j]).id != pane,
    ensures
        walk_number(leaves, pane) == at,
{
    it_is_counted_to(leaves, pane, at);
}

proof fn it_is_counted_to(leaves: Seq<Leaf>, pane: PaneId, at: int)
    requires
        0 <= at < leaves.len(),
        leaves[at].id == pane,
        forall|j: int| 0 <= j < at ==> (#[trigger] leaves[j]).id != pane,
    ensures
        first_at(leaves, pane) == at,
    decreases at,
{
    if at > 0 {
        assert(leaves[0].id != pane);
        assert forall|j: int| 0 <= j < at - 1 implies (#[trigger] leaves.skip(1)[j]).id != pane by {
            assert(leaves.skip(1)[j] == leaves[j + 1]);
        }
        it_is_counted_to(leaves.skip(1), pane, at - 1);
    }
}

/// The tab that a pane showed is turned to by its number, and a pane whose number is not
/// there is left as it is; at last the pane that was at hand is at hand.
pub proof fn what_was_shown_is_turned_to(screen: Screen, pane: PaneId, number: int, panes: Seq<PaneId>, focus: int)
    ensures
        ({
            let tabs = screen::views_of(screen.views@, pane);
            &&& 0 <= number < tabs.len() ==> shown_in(screen, pane, number) == screen::turned(screen, tabs[number].id)
            &&& number < 0 || number >= tabs.len() ==> shown_in(screen, pane, number) == screen
        }),
        0 <= focus < panes.len() ==> (screen::active_of(screen.panes(), panes[focus]) matches Some(view) ==> refocused(
            screen,
            panes,
            focus,
        ) == screen::turned(screen, view)),
        panes.len() > 0 && (focus < 0 || focus >= panes.len()) ==> (screen::active_of(screen.panes(), panes[0]) matches Some(
            view,
        ) ==> refocused(screen, panes, focus) == screen::turned(screen, view)),
        panes.len() == 0 ==> refocused(screen, panes, focus) == screen,
{
}

} // verus!
