//! A layout that was taken down and put together again is the same layout.

use vstd::prelude::*;
use crate::calls;
use crate::handlers::browse;
use crate::handlers::nav;
use crate::handlers::persist;
use crate::handlers::search;
use crate::message::NewTab;
use crate::state::ids::{PaneId, SplitId, ViewId};
use crate::state::listing::ListingState;
use crate::state::screen::{self, Leaf, Node, Screen, Split, Tab, ViewKind};
use crate::state::search::{Cloud, Mission, Period};
use crate::state::{self, State};

verus! {

broadcast use vstd::string::group_string_axioms;

// -- Layouts that last --

/// A remembered tab that comes back as it was: a folder is written with its slash, a
/// snapshot has a name, and what was searched for is known.
pub open spec fn tab_lasts(tab: persist::TabView) -> bool {
    match tab {
        persist::TabView::Browse { path } => browse::slashed(path) == path,
        persist::TabView::Search { mission, period, cloud, .. } => {
            &&& exists|one: Mission| #[trigger] one.key_spec() == mission
            &&& exists|one: Period| #[trigger] one.key_spec() == period
            &&& exists|one: Cloud| #[trigger] one.key_spec() == cloud
        },
        persist::TabView::Preview { label, .. } => label.len() > 0,
        _ => true,
    }
}

/// A remembered part of the screen that comes back as it was.
pub open spec fn node_lasts(node: persist::NodeView) -> bool
    decreases node,
{
    match node {
        persist::NodeView::Pane { tabs, active } => {
            &&& forall|i: int| 0 <= i < tabs.len() ==> tab_lasts(#[trigger] tabs[i])
            &&& 0 <= active
            &&& active < tabs.len() || active == 0 && tabs.len() == 0
        },
        persist::NodeView::Split { axis, first, second, .. } => {
            &&& persist::named_axis(axis) is Some
            &&& node_lasts(*first)
            &&& node_lasts(*second)
        },
    }
}

/// How many remembered tabs are of a kind.
pub open spec fn tabs_of_kind(tabs: Seq<persist::TabView>, kind: NewTab) -> nat
    decreases tabs.len(),
{
    if tabs.len() == 0 {
        0
    } else {
        tabs_of_kind(tabs.drop_last(), kind) + if persist::kind_of(tabs.last()) == Some(kind) { 1nat } else { 0 }
    }
}

pub open spec fn of_kind(node: persist::NodeView, kind: NewTab) -> nat
    decreases node,
{
    match node {
        persist::NodeView::Pane { tabs, .. } => tabs_of_kind(tabs, kind),
        persist::NodeView::Split { first, second, .. } => of_kind(*first, kind) + of_kind(*second, kind),
    }
}

/// The tabs of every pane, in the order of the walk.
pub open spec fn by_panes(node: persist::NodeView) -> Seq<Seq<persist::TabView>>
    decreases node,
{
    match node {
        persist::NodeView::Pane { tabs, .. } => seq![tabs],
        persist::NodeView::Split { first, second, .. } => by_panes(*first) + by_panes(*second),
    }
}

/// A remembered layout that comes back as it was: all its parts do, no tab of which
/// there are never two is there twice, and the pane at hand shows something.
pub open spec fn lasts(saved: persist::SavedView) -> bool {
    &&& node_lasts(saved.root)
    &&& forall|kind: NewTab| #[trigger] of_kind(saved.root, kind) <= 1
    &&& 0 <= saved.focus < by_panes(saved.root).len()
    &&& by_panes(saved.root)[saved.focus].len() > 0
}

// -- The tree --

proof fn not_in_parts(split: Split, pane: PaneId)
    ensures
        screen::has_pane(Node::Split(split).leaves(), pane) == (screen::has_pane(split.first.leaves(), pane)
            || screen::has_pane(split.second.leaves(), pane)),
{
    let front = split.first.leaves();
    let back = split.second.leaves();
    let all = front + back;
    assert(Node::Split(split).leaves() == all);
    if screen::has_pane(all, pane) {
        let i = choose|i: int| 0 <= i < all.len() && (#[trigger] all[i]).id == pane;
        if i < front.len() {
            assert(front[i].id == pane);
        } else {
            assert(back[i - front.len()].id == pane);
        }
    }
    if screen::has_pane(front, pane) {
        let i = choose|i: int| 0 <= i < front.len() && (#[trigger] front[i]).id == pane;
        assert(all[i].id == pane);
    }
    if screen::has_pane(back, pane) {
        let i = choose|i: int| 0 <= i < back.len() && (#[trigger] back[i]).id == pane;
        assert(all[front.len() + i].id == pane);
    }
}

/// A tree without a pane stays when that pane is changed.
proof fn replaced_nowhere(node: Node, pane: PaneId, part: Node)
    requires
        !screen::has_pane(node.leaves(), pane),
    ensures
        node.replaced(pane, part) == node,
    decreases node,
{
    match node {
        Node::Leaf(leaf) => {
            assert(node.leaves()[0].id == leaf.id);
        },
        Node::Split(split) => {
            not_in_parts(split, pane);
            replaced_nowhere(*split.first, pane, part);
            replaced_nowhere(*split.second, pane, part);
        },
    }
}

/// A change inside of what a pane was changed into.
proof fn replaced_inside(node: Node, pane: PaneId, part: Node, other: PaneId, inner: Node)
    requires
        other == pane || !screen::has_pane(node.leaves(), other),
    ensures
        node.replaced(pane, part).replaced(other, inner) == node.replaced(pane, part.replaced(other, inner)),
    decreases node,
{
    match node {
        Node::Leaf(leaf) => {
            assert(node.leaves()[0].id == leaf.id);
        },
        Node::Split(split) => {
            not_in_parts(split, other);
            replaced_inside(*split.first, pane, part, other, inner);
            replaced_inside(*split.second, pane, part, other, inner);
        },
    }
}

/// A pane that is told to show what it shows.
proof fn replaced_by_itself(node: Node, leaf: Leaf)
    requires
        forall|i: int| 0 <= i < node.leaves().len() && (#[trigger] node.leaves()[i]).id == leaf.id ==> node.leaves()[i] == leaf,
    ensures
        node.replaced(leaf.id, Node::Leaf(leaf)) == node,
    decreases node,
{
    match node {
        Node::Leaf(one) => {
            assert(node.leaves()[0] == one);
        },
        Node::Split(split) => {
            let front = split.first.leaves();
            let back = split.second.leaves();
            let all = node.leaves();
            assert forall|i: int| 0 <= i < front.len() && (#[trigger] front[i]).id == leaf.id implies front[i] == leaf by {
                assert(all[i] == front[i]);
            }
            assert forall|i: int| 0 <= i < back.len() && (#[trigger] back[i]).id == leaf.id implies back[i] == leaf by {
                assert(all[front.len() + i] == back[i]);
            }
            replaced_by_itself(*split.first, leaf);
            replaced_by_itself(*split.second, leaf);
        },
    }
}

// -- The tabs --

proof fn views_of_both(front: Seq<Tab>, back: Seq<Tab>, pane: PaneId)
    ensures
        screen::views_of(front + back, pane) == screen::views_of(front, pane) + screen::views_of(back, pane),
    decreases back.len(),
{
    let both = screen::views_of(front, pane) + screen::views_of(back, pane);
    if back.len() == 0 {
        assert(front + back =~= front);
        assert(both =~= screen::views_of(front, pane));
    } else {
        views_of_both(front, back.drop_last(), pane);
        assert((front + back).drop_last() =~= front + back.drop_last());
        assert((front + back).last() == back.last());
        assert(screen::views_of(front + back, pane) =~= both);
    }
}

/// Tabs of other panes are none of this one's.
proof fn views_of_others(views: Seq<Tab>, pane: PaneId)
    requires
        forall|i: int| 0 <= i < views.len() ==> (#[trigger] views[i]).pane != pane,
    ensures
        screen::views_of(views, pane).len() == 0,
    decreases views.len(),
{
    if views.len() > 0 {
        views_of_others(views.drop_last(), pane);
    }
}

/// Tabs of one pane are all of them its own.
proof fn views_of_own(views: Seq<Tab>, pane: PaneId)
    requires
        forall|i: int| 0 <= i < views.len() ==> (#[trigger] views[i]).pane == pane,
    ensures
        screen::views_of(views, pane) == views,
    decreases views.len(),
{
    if views.len() > 0 {
        views_of_own(views.drop_last(), pane);
        assert(views.drop_last().push(views.last()) =~= views);
    } else {
        assert(screen::views_of(views, pane) =~= views);
    }
}

/// More tabs in other panes change nothing of what is remembered of a part.
proof fn more_elsewhere(views: Seq<Tab>, more: Seq<Tab>, node: Node)
    requires
        forall|i: int| 0 <= i < more.len() ==> !screen::has_pane(node.leaves(), (#[trigger] more[i]).pane),
    ensures
        persist::node_saved(views + more, node) == persist::node_saved(views, node),
    decreases node,
{
    match node {
        Node::Leaf(leaf) => {
            assert forall|i: int| 0 <= i < more.len() implies (#[trigger] more[i]).pane != leaf.id by {
                assert(node.leaves()[0].id == leaf.id);
            }
            views_of_others(more, leaf.id);
            views_of_both(views, more, leaf.id);
            assert(screen::views_of(views + more, leaf.id) =~= screen::views_of(views, leaf.id));
        },
        Node::Split(split) => {
            assert forall|i: int| 0 <= i < more.len() implies !screen::has_pane(
                split.first.leaves(),
                (#[trigger] more[i]).pane,
            ) && !screen::has_pane(split.second.leaves(), more[i].pane) by {
                not_in_parts(split, more[i].pane);
            }
            more_elsewhere(views, more, *split.first);
            more_elsewhere(views, more, *split.second);
        },
    }
}

/// How many tabs are of a kind.
pub open spec fn count_of(views: Seq<Tab>, kind: NewTab) -> nat
    decreases views.len(),
{
    if views.len() == 0 {
        0
    } else {
        count_of(views.drop_last(), kind) + if nav::is_only(views.last().kind, kind) { 1nat } else { 0 }
    }
}

proof fn counted_none(views: Seq<Tab>, kind: NewTab)
    requires
        count_of(views, kind) == 0,
    ensures
        forall|i: int| 0 <= i < views.len() ==> !nav::is_only((#[trigger] views[i]).kind, kind),
        nav::only_one(views, kind) is None,
    decreases views.len(),
{
    if views.len() > 0 {
        counted_none(views.drop_last(), kind);
        assert forall|i: int| 0 <= i < views.len() implies !nav::is_only((#[trigger] views[i]).kind, kind) by {
            if i < views.len() - 1 {
                assert(views.drop_last()[i] == views[i]);
            }
        }
    }
    none_is_none(views, kind);
}

proof fn none_is_none(views: Seq<Tab>, kind: NewTab)
    requires
        forall|i: int| 0 <= i < views.len() ==> !nav::is_only((#[trigger] views[i]).kind, kind),
    ensures
        nav::only_one(views, kind) is None,
    decreases views.len(),
{
    if views.len() > 0 {
        assert forall|i: int| 0 <= i < views.skip(1).len() implies !nav::is_only((#[trigger] views.skip(1)[i]).kind, kind) by {
            assert(views.skip(1)[i] == views[i + 1]);
        }
        none_is_none(views.skip(1), kind);
    }
}

// -- One tab --

/// A remembered tab that lasts is opened as it was.
proof fn tab_is_put(before: State, after: State, pane: PaneId, tab: persist::TabView, now: i64) -> (kind: ViewKind)
    requires
        before.screen.whole(),
        before.screen.next < u64::MAX,
        tab_lasts(tab),
        persist::kind_of(tab) matches Some(kind) ==> count_of(before.screen.views@, kind) == 0,
        persist::tab_restored(before, after, pane, tab, now),
    ensures
        screen::opened(before.screen, after.screen, pane, kind),
        persist::tab_saved(kind) == tab,
{
    let view = ViewId { number: before.screen.next };
    if let Some(only) = persist::kind_of(tab) {
        counted_none(before.screen.views@, only);
    }
    if tab is Preview {
        screen::kind_in(after.screen.views@, view)->0
    } else {
        started_is_put(before, after, pane, tab, now)
    }
}

proof fn started_is_put(before: State, after: State, pane: PaneId, tab: persist::TabView, now: i64) -> (put: ViewKind)
    requires
        before.screen.whole(),
        before.screen.next < u64::MAX,
        tab !is Preview,
        !persist::is_open(before.screen.views@, persist::kind_of(tab)),
        persist::tab_restored(before, after, pane, tab, now),
    ensures
        screen::opened(before.screen, after.screen, pane, put),
        tab_lasts(tab) ==> persist::tab_saved(put) == tab,
        persist::kind_of(persist::tab_saved(put)) == persist::kind_of(tab),
{
    let view = ViewId { number: before.screen.next };
    let (kind, there) = choose|kind: ViewKind, there: State| {
        &&& persist::is_start(kind, tab)
        &&& there == (State { screen: there.screen, ..before })
        &&& #[trigger] screen::opened(before.screen, there.screen, pane, kind)
        &&& persist::is_asked(there, after, view, tab, now)
    };
    let target = if screen::has_pane(before.screen.panes(), pane) { pane } else { before.screen.focused };
    screen::opened_is_found(before.screen.views@, Tab { id: view, pane: target, kind });
    match tab {
        persist::TabView::Browse { path } => {
            let now_kind = screen::kind_in(after.screen.views@, view)->0;
            screen::opened_and_told(before.screen, there.screen, after.screen, pane, kind, now_kind);
            now_kind
        },
        persist::TabView::Search { .. } => {
            let calm = choose|calm: State| #[trigger]
                state::narrowed_anew(there, calm, view) && search::asked(calm, after, view, now);
            let listing = screen::listing_in(there.screen.views@, view)->0;
            let calm_kind = kind.with_listing(ListingState { page: 0, ..listing });
            screen::opened_and_told(before.screen, there.screen, calm.screen, pane, kind, calm_kind);
            let now_kind = screen::kind_in(after.screen.views@, view)->0;
            screen::opened_and_told(before.screen, calm.screen, after.screen, pane, calm_kind, now_kind);
            now_kind
        },
        _ => kind,
    }
}

// -- The tabs of a pane --

/// A tab of which there are never two is remembered as one.
proof fn kinds_agree(kind: ViewKind, new: NewTab)
    ensures
        nav::is_only(kind, new) == (persist::kind_of(persist::tab_saved(kind)) == Some(new)),
{
}

proof fn one_more_counted(views: Seq<Tab>, tab: Tab, tabs: Seq<persist::TabView>)
    ensures
        forall|kind: NewTab| #[trigger]
            count_of(views.push(tab), kind) == count_of(views, kind) + if nav::is_only(tab.kind, kind) { 1nat } else { 0 },
        forall|kind: NewTab| #[trigger]
            tabs_of_kind(tabs.push(persist::tab_saved(tab.kind)), kind) == tabs_of_kind(tabs, kind) + if nav::is_only(
                tab.kind,
                kind,
            ) {
                1nat
            } else {
                0
            },
{
    assert(views.push(tab).drop_last() =~= views);
    let seen = persist::tab_saved(tab.kind);
    assert(tabs.push(seen).drop_last() =~= tabs);
    assert forall|kind: NewTab| #[trigger]
        tabs_of_kind(tabs.push(seen), kind) == tabs_of_kind(tabs, kind) + if nav::is_only(tab.kind, kind) {
            1nat
        } else {
            0
        } by {
        kinds_agree(tab.kind, kind);
    }
}

proof fn same_names(node: Node, pane: PaneId, active: Option<ViewId>, other: PaneId)
    ensures
        screen::has_pane(screen::showing(node, pane, active).leaves(), other) == screen::has_pane(node.leaves(), other),
    decreases node,
{
    match node {
        Node::Leaf(leaf) => {
            let shown = screen::showing(node, pane, active);
            assert(node.leaves()[0].id == leaf.id);
            assert(shown.leaves()[0].id == leaf.id);
        },
        Node::Split(split) => {
            same_names(*split.first, pane, active, other);
            same_names(*split.second, pane, active, other);
            let shown = screen::showing(node, pane, active);
            not_in_parts(split, other);
            not_in_parts(shown->Split_0, other);
        },
    }
}

/// Remembered tabs that last are opened as they were, in a pane that had none.
#[verifier::rlimit(40)]
proof fn tabs_are_put(before: State, after: State, pane: PaneId, tabs: Seq<persist::TabView>, now: i64) -> (more: Seq<Tab>)
    requires
        before.screen.whole(),
        screen::has_pane(before.screen.panes(), pane),
        before.screen.next + tabs.len() <= u64::MAX,
        forall|i: int| 0 <= i < tabs.len() ==> tab_lasts(#[trigger] tabs[i]),
        forall|kind: NewTab| #[trigger] tabs_of_kind(tabs, kind) + count_of(before.screen.views@, kind) <= 1,
        persist::tabs_restored(before, after, pane, tabs, now),
    ensures
        after.screen.views@ == before.screen.views@ + more,
        persist::tabs_saved(more) == tabs,
        forall|i: int| 0 <= i < more.len() ==> (#[trigger] more[i]).pane == pane,
        after.screen.next == before.screen.next + tabs.len(),
        tabs.len() == 0 ==> after.screen.layout.root == before.screen.layout.root,
        tabs.len() > 0 ==> exists|id: ViewId| after.screen.layout.root == #[trigger] screen::showing(
            before.screen.layout.root,
            pane,
            Some(id),
        ),
        screen::has_pane(after.screen.panes(), pane),
        forall|kind: NewTab| #[trigger]
            count_of(after.screen.views@, kind) == count_of(before.screen.views@, kind) + tabs_of_kind(tabs, kind),
    decreases tabs.len(),
{
    if tabs.len() == 0 {
        assert(before.screen.views@ + Seq::<Tab>::empty() =~= before.screen.views@);
        assert(persist::tabs_saved(Seq::empty()) =~= tabs);
        Seq::empty()
    } else {
        let front = tabs.drop_last();
        let tab = tabs.last();
        let middle = choose|middle: State| {
            &&& persist::tabs_restored(before, middle, pane, front, now)
            &&& middle.screen.whole()
            &&& #[trigger] persist::tab_restored(middle, after, pane, tab, now)
        };
        assert forall|kind: NewTab| #[trigger] tabs_of_kind(front, kind) + count_of(before.screen.views@, kind) <= 1 by {
            assert(tabs_of_kind(tabs, kind) >= tabs_of_kind(front, kind));
        }
        assert forall|i: int| 0 <= i < front.len() implies tab_lasts(#[trigger] front[i]) by {
            assert(front[i] == tabs[i]);
        }
        let some = tabs_are_put(before, middle, pane, front, now);
        if let Some(kind) = persist::kind_of(tab) {
            assert(tabs_of_kind(tabs, kind) == tabs_of_kind(front, kind) + 1);
            assert(count_of(middle.screen.views@, kind) == 0);
        }
        assert(tab_lasts(tabs[tabs.len() - 1]));
        let kind = tab_is_put(middle, after, pane, tab, now);
        let id = ViewId { number: middle.screen.next };
        let one = Tab { id, pane, kind };
        let more = some.push(one);
        assert(after.screen.views@ =~= before.screen.views@ + more);
        assert(persist::tabs_saved(more) =~= persist::tabs_saved(some).push(tab));
        assert(front.push(tab) =~= tabs);
        assert(after.screen.layout.root == screen::showing(middle.screen.layout.root, pane, Some(id)));
        if front.len() > 0 {
            let last = choose|last: ViewId| middle.screen.layout.root == #[trigger] screen::showing(
                before.screen.layout.root,
                pane,
                Some(last),
            );
            let leaf = Node::Leaf(Leaf { id: pane, active: Some(last) });
            replaced_inside(
                before.screen.layout.root,
                pane,
                leaf,
                pane,
                Node::Leaf(Leaf { id: pane, active: Some(id) }),
            );
        }
        assert(after.screen.layout.root == screen::showing(before.screen.layout.root, pane, Some(id)));
        same_names(before.screen.layout.root, pane, Some(id), pane);
        one_more_counted(middle.screen.views@, one, front);
        assert(after.screen.views@ == middle.screen.views@.push(one));
        more
    }
}

// -- A part of the screen --

/// A part of the screen was put in place of a pane: new tabs stand in its panes, and
/// its panes are the pane itself and new ones.
spec fn put(before: Screen, after: Screen, pane: PaneId, part: Node, more: Seq<Tab>) -> bool {
    &&& after.views@ == before.views@ + more
    &&& after.layout.root == before.layout.root.replaced(pane, part)
    &&& before.next <= after.next
    &&& forall|i: int|
        0 <= i < part.leaves().len() ==> ((#[trigger] part.leaves()[i]).id == pane || before.next
            <= part.leaves()[i].id.number < after.next)
    &&& forall|i: int| 0 <= i < more.len() ==> screen::has_pane(part.leaves(), (#[trigger] more[i]).pane)
}

/// The pane shows nothing where nothing stands in it.
proof fn bare_shows_nothing(screen: Screen, pane: PaneId)
    requires
        screen.whole(),
        screen::is_bare(screen.views@, pane),
    ensures
        screen::showing(screen.layout.root, pane, None) == screen.layout.root,
{
    let leaves = screen.panes();
    let leaf = Leaf { id: pane, active: None };
    assert forall|i: int| 0 <= i < leaves.len() && (#[trigger] leaves[i]).id == pane implies leaves[i] == leaf by {
        assert(screen::shows_right(screen.views@, leaves[i]));
        if let Some(id) = leaves[i].active {
            let v = choose|v: int|
                0 <= v < screen.views@.len() && (#[trigger] screen.views@[v]).id == id && screen.views@[v].pane == pane;
            assert(screen.views@[v].pane != pane);
        }
    }
    replaced_by_itself(screen.layout.root, leaf);
}

proof fn pane_is_put(
    before: State,
    after: State,
    pane: PaneId,
    node: persist::NodeView,
    panes: Seq<PaneId>,
    now: i64,
) -> (both: (Node, Seq<Tab>))
    requires
        before.screen.whole(),
        screen::has_pane(before.screen.panes(), pane),
        screen::is_bare(before.screen.views@, pane),
        before.screen.next + persist::room(node) <= u64::MAX,
        node is Pane,
        node_lasts(node),
        forall|kind: NewTab| #[trigger] of_kind(node, kind) + count_of(before.screen.views@, kind) <= 1,
        persist::node_restored(before, after, pane, node, panes, now),
    ensures
        put(before.screen, after.screen, pane, both.0, both.1),
        persist::node_saved(after.screen.views@, both.0) == node,
        panes == screen::pane_names(both.0.leaves()),
        after.screen.next <= before.screen.next + persist::room(node),
        forall|kind: NewTab| #[trigger]
            count_of(after.screen.views@, kind) == count_of(before.screen.views@, kind) + of_kind(node, kind),
{
    let tabs = node->tabs;
    let active = node->active;
    let filled = choose|filled: State| {
        &&& #[trigger] persist::tabs_restored(before, filled, pane, tabs, now)
        &&& filled.screen.whole()
        &&& after == (State { screen: persist::shown_in(filled.screen, pane, active), ..filled })
    };
    assert forall|kind: NewTab| #[trigger] tabs_of_kind(tabs, kind) + count_of(before.screen.views@, kind) <= 1 by {
        assert(of_kind(node, kind) + count_of(before.screen.views@, kind) <= 1);
    }
    let more = tabs_are_put(before, filled, pane, tabs, now);
    assert(more.len() == persist::tabs_saved(more).len());
    views_of_both(before.screen.views@, more, pane);
    views_of_others(before.screen.views@, pane);
    views_of_own(more, pane);
    let listed = screen::views_of(filled.screen.views@, pane);
    assert(listed =~= more);
    let start = before.screen.views@.len();
    let root = before.screen.layout.root;
    if tabs.len() == 0 {
        bare_shows_nothing(before.screen, pane);
        let leaf = Leaf { id: pane, active: None };
        let part = Node::Leaf(leaf);
        assert(part.leaves()[0].id == pane);
        assert(panes =~= screen::pane_names(part.leaves()));
        assert(persist::tabs_saved(listed) =~= tabs);
        assert forall|kind: NewTab| #[trigger]
            count_of(after.screen.views@, kind) == count_of(before.screen.views@, kind) + of_kind(node, kind) by {
            assert(of_kind(node, kind) == tabs_of_kind(tabs, kind));
        }
        (part, more)
    } else {
        let id = more[active].id;
        let at = start + active;
        let views = filled.screen.views@;
        assert(views[at] == more[active]);
        assert forall|j: int| 0 <= j < at implies (#[trigger] views[j]).id != id by {
            assert(views[j].id != views[at].id);
        }
        screen::view_place_is(views, id, at);
        assert forall|j: int| 0 <= j < active implies (#[trigger] more[j]).id != id by {
            assert(views[start + j] == more[j]);
            assert(views[start + j].id != views[at].id);
        }
        screen::view_place_is(more, id, active);
        let leaf = Leaf { id: pane, active: Some(id) };
        let part = Node::Leaf(leaf);
        let last = choose|last: ViewId| filled.screen.layout.root == #[trigger] screen::showing(root, pane, Some(last));
        replaced_inside(root, pane, Node::Leaf(Leaf { id: pane, active: Some(last) }), pane, part);
        assert(after.screen.layout.root == root.replaced(pane, part));
        assert(part.leaves()[0].id == pane);
        assert(panes =~= screen::pane_names(part.leaves()));
        assert(persist::tabs_saved(listed) == tabs);
        assert forall|kind: NewTab| #[trigger]
            count_of(after.screen.views@, kind) == count_of(before.screen.views@, kind) + of_kind(node, kind) by {
            assert(of_kind(node, kind) == tabs_of_kind(tabs, kind));
        }
        (part, more)
    }
}

/// What a pane was changed into is in the tree.
proof fn replaced_has(node: Node, pane: PaneId, part: Node, other: PaneId)
    requires
        screen::has_pane(node.leaves(), pane),
        screen::has_pane(part.leaves(), other),
    ensures
        screen::has_pane(node.replaced(pane, part).leaves(), other),
    decreases node,
{
    match node {
        Node::Leaf(leaf) => {
            let i = choose|i: int| 0 <= i < node.leaves().len() && (#[trigger] node.leaves()[i]).id == pane;
            assert(node.leaves()[i] == leaf);
        },
        Node::Split(split) => {
            not_in_parts(split, pane);
            not_in_parts(node.replaced(pane, part)->Split_0, other);
            if screen::has_pane(split.first.leaves(), pane) {
                replaced_has(*split.first, pane, part, other);
            } else {
                replaced_has(*split.second, pane, part, other);
            }
        },
    }
}

/// The panes of what was put are none of these.
proof fn put_elsewhere(before: Screen, after: Screen, pane: PaneId, part: Node, more: Seq<Tab>, other: PaneId)
    requires
        put(before, after, pane, part, more),
        other != pane,
        other.number < before.next || after.next <= other.number,
    ensures
        !screen::has_pane(part.leaves(), other),
{
    if screen::has_pane(part.leaves(), other) {
        let i = choose|i: int| 0 <= i < part.leaves().len() && (#[trigger] part.leaves()[i]).id == other;
        assert(part.leaves()[i].id == pane || before.next <= part.leaves()[i].id.number < after.next);
    }
}

/// A remembered part that lasts is put together as it was, in place of a pane that had
/// no tabs.
#[verifier::rlimit(60)]
proof fn node_is_put(
    before: State,
    after: State,
    pane: PaneId,
    node: persist::NodeView,
    panes: Seq<PaneId>,
    now: i64,
) -> (both: (Node, Seq<Tab>))
    requires
        before.screen.whole(),
        screen::has_pane(before.screen.panes(), pane),
        screen::is_bare(before.screen.views@, pane),
        before.screen.next + persist::room(node) <= u64::MAX,
        node_lasts(node),
        forall|kind: NewTab| #[trigger] of_kind(node, kind) + count_of(before.screen.views@, kind) <= 1,
        persist::node_restored(before, after, pane, node, panes, now),
    ensures
        put(before.screen, after.screen, pane, both.0, both.1),
        persist::node_saved(after.screen.views@, both.0) == node,
        panes == screen::pane_names(both.0.leaves()),
        after.screen.next <= before.screen.next + persist::room(node),
        forall|kind: NewTab| #[trigger]
            count_of(after.screen.views@, kind) == count_of(before.screen.views@, kind) + of_kind(node, kind),
    decreases node,
{
    match node {
        persist::NodeView::Pane { .. } => pane_is_put(before, after, pane, node, panes, now),
        persist::NodeView::Split { axis, fraction, first, second } => {
            let way = persist::named_axis(axis)->0;
            let side = way.tail_spec();
            let root = before.screen.layout.root;
            let cut = State { screen: screen::split(before.screen, pane, side, fraction), ..before };
            let fresh = PaneId { number: before.screen.next };
            let (half, count) = choose|half: State, count: int| {
                &&& #[trigger] half.screen.whole()
                &&& persist::node_restored(cut, half, pane, *first, #[trigger] panes.take(count), now)
                &&& 0 <= count <= panes.len()
                &&& persist::node_restored(half, after, fresh, *second, panes.skip(count), now)
            };
            screen::split_keeps_whole(before.screen, pane, side, fraction);
            let stays = Node::Leaf(Leaf { id: pane, active: screen::active_of(before.screen.panes(), pane) });
            let comes = Node::Leaf(Leaf { id: fresh, active: None });
            let halves = Split {
                id: SplitId { number: (before.screen.next + 1) as u64 },
                axis: way,
                fraction,
                first: Box::new(stays),
                second: Box::new(comes),
            };
            assert(cut.screen.layout.root == root.replaced(pane, Node::Split(halves)));
            assert(stays.leaves()[0].id == pane);
            assert(comes.leaves()[0].id == fresh);
            not_in_parts(halves, pane);
            replaced_has(root, pane, Node::Split(halves), pane);
            pane_is_older(before.screen, pane);
            assert forall|kind: NewTab| #[trigger] of_kind(*first, kind) + count_of(cut.screen.views@, kind) <= 1 by {
                assert(of_kind(node, kind) + count_of(before.screen.views@, kind) <= 1);
            }
            let (front, some) = node_is_put(cut, half, pane, *first, panes.take(count), now);
            replaced_inside(root, pane, Node::Split(halves), pane, front);
            let filled = Split { first: Box::new(front), ..halves };
            assert(Node::Split(halves).replaced(pane, front) == Node::Split(filled)) by {
                reveal_with_fuel(Node::replaced, 3);
            }
            not_in_parts(filled, fresh);
            replaced_has(root, pane, Node::Split(filled), fresh);
            new_is_bare(before.screen, cut.screen, half.screen, pane, front, some);
            assert forall|kind: NewTab| #[trigger] of_kind(*second, kind) + count_of(half.screen.views@, kind) <= 1 by {
                assert(of_kind(node, kind) + count_of(before.screen.views@, kind) <= 1);
                assert(count_of(half.screen.views@, kind) == count_of(cut.screen.views@, kind) + of_kind(*first, kind));
            }
            let (back, rest) = node_is_put(half, after, fresh, *second, panes.skip(count), now);
            let part = Node::Split(Split { second: Box::new(back), ..filled });
            put_elsewhere(cut.screen, half.screen, pane, front, some, fresh);
            replaced_nowhere(front, fresh, back);
            assert(!screen::has_pane(root.leaves(), fresh)) by {
                if screen::has_pane(root.leaves(), fresh) {
                    pane_is_older(before.screen, fresh);
                }
            }
            replaced_inside(root, pane, Node::Split(filled), fresh, back);
            assert(Node::Split(filled).replaced(fresh, back) == part) by {
                reveal_with_fuel(Node::replaced, 3);
            }
            assert(after.screen.layout.root == root.replaced(pane, part));
            halves_are_put(before.screen, cut.screen, half.screen, after.screen, pane, front, some, back, rest, part->Split_0);
            assert(panes =~= panes.take(count) + panes.skip(count));
            assert(screen::pane_names(part.leaves()) =~= screen::pane_names(front.leaves()) + screen::pane_names(
                back.leaves(),
            ));
            assert forall|kind: NewTab| #[trigger]
                count_of(after.screen.views@, kind) == count_of(before.screen.views@, kind) + of_kind(node, kind) by {
                assert(count_of(half.screen.views@, kind) == count_of(cut.screen.views@, kind) + of_kind(*first, kind));
                assert(count_of(after.screen.views@, kind) == count_of(half.screen.views@, kind) + of_kind(*second, kind));
            }
            (part, some + rest)
        },
    }
}

/// A pane of a whole screen was named before what comes next.
proof fn pane_is_older(screen: Screen, pane: PaneId)
    requires
        screen.whole(),
        screen::has_pane(screen.panes(), pane),
    ensures
        pane.number < screen.next,
{
    let i = choose|i: int| 0 <= i < screen.panes().len() && (#[trigger] screen.panes()[i]).id == pane;
    assert(screen.panes()[i].id.number < screen.next);
}

/// No tab stands in the new half yet.
proof fn new_is_bare(before: Screen, cut: Screen, half: Screen, pane: PaneId, front: Node, some: Seq<Tab>)
    requires
        before.whole(),
        cut.views == before.views,
        cut.next == before.next + 2,
        pane.number < before.next,
        put(cut, half, pane, front, some),
    ensures
        screen::is_bare(half.views@, PaneId { number: before.next }),
{
    let fresh = PaneId { number: before.next };
    let views = half.views@;
    assert forall|i: int| 0 <= i < views.len() implies (#[trigger] views[i]).pane != fresh by {
        if i < before.views@.len() {
            assert(views[i] == before.views@[i]);
            pane_is_older(before, views[i].pane);
        } else {
            let one = some[i - before.views@.len()];
            assert(views[i] == one);
            put_elsewhere(cut, half, pane, front, some, fresh);
        }
    }
}

proof fn halves_are_put(
    before: Screen,
    cut: Screen,
    half: Screen,
    after: Screen,
    pane: PaneId,
    front: Node,
    some: Seq<Tab>,
    back: Node,
    rest: Seq<Tab>,
    part: Split,
)
    requires
        before.whole(),
        cut.views == before.views,
        cut.next == before.next + 2,
        pane.number < before.next,
        put(cut, half, pane, front, some),
        put(half, after, PaneId { number: before.next }, back, rest),
        part.first == Box::new(front),
        part.second == Box::new(back),
        after.layout.root == before.layout.root.replaced(pane, Node::Split(part)),
    ensures
        put(before, after, pane, Node::Split(part), some + rest),
        persist::node_saved(after.views@, front) == persist::node_saved(half.views@, front),
{
    let fresh = PaneId { number: before.next };
    let whole = Node::Split(part);
    let leaves = whole.leaves();
    let more = some + rest;
    assert(leaves == front.leaves() + back.leaves());
    assert(after.views@ =~= before.views@ + more);
    assert forall|i: int| 0 <= i < leaves.len() implies ((#[trigger] leaves[i]).id == pane || before.next
        <= leaves[i].id.number < after.next) by {
        if i < front.leaves().len() {
            assert(leaves[i] == front.leaves()[i]);
        } else {
            assert(leaves[i] == back.leaves()[i - front.leaves().len()]);
        }
    }
    assert forall|i: int| 0 <= i < more.len() implies screen::has_pane(leaves, (#[trigger] more[i]).pane) by {
        not_in_parts(part, more[i].pane);
        if i < some.len() {
            assert(more[i] == some[i]);
        } else {
            assert(more[i] == rest[i - some.len()]);
        }
    }
    assert forall|i: int| 0 <= i < rest.len() implies !screen::has_pane(front.leaves(), (#[trigger] rest[i]).pane) by {
        let there = rest[i].pane;
        let j = choose|j: int| 0 <= j < back.leaves().len() && (#[trigger] back.leaves()[j]).id == there;
        assert(back.leaves()[j].id == fresh || half.next <= back.leaves()[j].id.number < after.next);
        put_elsewhere(cut, half, pane, front, some, there);
    }
    more_elsewhere(half.views@, rest, front);
}

// -- The layout --

/// The tabs that are remembered of every pane.
proof fn panes_by_number(views: Seq<Tab>, node: Node)
    ensures
        by_panes(persist::node_saved(views, node)).len() == node.leaves().len(),
        forall|i: int|
            0 <= i < node.leaves().len() ==> #[trigger] by_panes(persist::node_saved(views, node))[i] == persist::tabs_saved(
                screen::views_of(views, node.leaves()[i].id),
            ),
    decreases node,
{
    if let Node::Split(split) = node {
        panes_by_number(views, *split.first);
        panes_by_number(views, *split.second);
    }
}

/// The number of the one pane of a name.
proof fn walk_number_is(leaves: Seq<Leaf>, pane: PaneId, at: int)
    requires
        0 <= at < leaves.len(),
        leaves[at].id == pane,
        forall|i: int| 0 <= i < at ==> (#[trigger] leaves[i]).id != pane,
    ensures
        persist::first_at(leaves, pane) == at,
    decreases leaves.len(),
{
    if at > 0 {
        assert(leaves[0].id != pane);
        assert forall|i: int| 0 <= i < at - 1 implies (#[trigger] leaves.skip(1)[i]).id != pane by {
            assert(leaves.skip(1)[i] == leaves[i + 1]);
        }
        walk_number_is(leaves.skip(1), pane, at - 1);
    }
}

/// A screen turned to what a pane shows already is remembered as before, but for the
/// pane at hand.
proof fn turned_to_shown(screen: Screen, at: int)
    requires
        screen.whole(),
        0 <= at < screen.panes().len(),
        screen.panes()[at].active is Some,
    ensures
        ({
            let leaf = screen.panes()[at];
            let turned = screen::turned(screen, leaf.active->0);
            &&& screen::active_of(screen.panes(), leaf.id) == leaf.active
            &&& turned.views == screen.views
            &&& turned.layout.root == screen.layout.root
            &&& turned.focused == leaf.id
            &&& persist::walk_number(screen.panes(), leaf.id) == at
        }),
{
    let leaves = screen.panes();
    let leaf = leaves[at];
    let id = leaf.active->0;
    let views = screen.views@;
    assert forall|i: int| 0 <= i < at implies (#[trigger] leaves[i]).id != leaf.id by {
        assert(leaves[i].id != leaves[at].id);
    }
    screen::active_of_is(leaves, leaf.id, at);
    walk_number_is(leaves, leaf.id, at);
    assert(screen::shows_right(views, leaf));
    let v = choose|v: int| 0 <= v < views.len() && (#[trigger] views[v]).id == id && views[v].pane == leaf.id;
    assert forall|j: int| 0 <= j < v implies (#[trigger] views[j]).id != id by {
        assert(views[j].id != views[v].id);
    }
    screen::view_place_is(views, id, v);
    assert forall|i: int| 0 <= i < leaves.len() && (#[trigger] leaves[i]).id == leaf.id implies leaves[i] == leaf by {
        if i < at {
            assert(leaves[i].id != leaves[at].id);
        } else if at < i {
            assert(leaves[at].id != leaves[i].id);
        }
    }
    replaced_by_itself(screen.layout.root, leaf);
}

/// A remembered layout that lasts, put together on an empty screen, is the layout that
/// was remembered.
pub proof fn a_layout_comes_back(saved: persist::SavedView, before: State, after: State, now: i64)
    requires
        lasts(saved),
        before.screen.whole(),
        before.screen.views@.len() == 0,
        before.screen.layout.root == Node::Leaf(Leaf { id: before.screen.focused, active: None }),
        before.screen.next + persist::room(saved.root) <= u64::MAX,
        persist::layout_restored(before, after, saved, now),
    ensures
        persist::screen_saved(after.screen) == saved,
{
    let pane = before.screen.focused;
    let (there, panes) = choose|there: State, panes: Seq<PaneId>| {
        &&& there.screen.whole()
        &&& #[trigger] persist::node_restored(before, there, pane, saved.root, panes, now)
        &&& after == (State { screen: persist::refocused(there.screen, panes, saved.focus), ..there })
    };
    assert forall|kind: NewTab| #[trigger] of_kind(saved.root, kind) + count_of(before.screen.views@, kind) <= 1 by {
        assert(count_of(before.screen.views@, kind) == 0);
    }
    let (part, more) = node_is_put(before, there, pane, saved.root, panes, now);
    let leaves = there.screen.panes();
    assert(there.screen.layout.root == part);
    panes_by_number(there.screen.views@, part);
    let at = saved.focus;
    let leaf = leaves[at];
    assert(panes[at] == leaf.id);
    assert(by_panes(persist::node_saved(there.screen.views@, part))[at] == persist::tabs_saved(
        screen::views_of(there.screen.views@, leaf.id),
    ));
    assert(screen::shows_right(there.screen.views@, leaf));
    if leaf.active is None {
        views_of_others(there.screen.views@, leaf.id);
    }
    turned_to_shown(there.screen, at);
}

// -- Screens that last --

/// What a tab shows can be remembered: a folder is written with its slash, and a
/// snapshot has a name.
pub open spec fn kind_lasts(kind: ViewKind) -> bool {
    match kind {
        ViewKind::Browse(browse) => browse::slashed(browse.current_path@) == browse.current_path@,
        ViewKind::Preview(preview) => preview.label@.len() > 0,
        _ => true,
    }
}

/// A screen that comes back as it was left: no tab of which there are never two is
/// there twice, and the pane at hand shows something.
pub open spec fn comes_back(screen: Screen) -> bool {
    &&& screen.whole()
    &&& forall|i: int| 0 <= i < screen.views@.len() ==> kind_lasts((#[trigger] screen.views@[i]).kind)
    &&& forall|kind: NewTab| #[trigger] count_of(screen.views@, kind) <= 1
    &&& !screen::is_bare(screen.views@, screen.focused)
}

proof fn views_of_are_views(views: Seq<Tab>, pane: PaneId)
    ensures
        forall|i: int|
            0 <= i < screen::views_of(views, pane).len() ==> (#[trigger] screen::views_of(views, pane)[i]).pane == pane
                && views.contains(screen::views_of(views, pane)[i]),
    decreases views.len(),
{
    let all = screen::views_of(views, pane);
    if views.len() > 0 {
        let front = views.drop_last();
        views_of_are_views(front, pane);
        assert forall|i: int| 0 <= i < all.len() implies (#[trigger] all[i]).pane == pane && views.contains(all[i]) by {
            let some = screen::views_of(front, pane);
            if i < some.len() {
                assert(all[i] == some[i]);
                assert(front.contains(some[i]));
                let j = choose|j: int| 0 <= j < front.len() && front[j] == some[i];
                assert(views[j] == all[i]);
            } else {
                assert(views[views.len() - 1] == all[i]);
            }
        }
    }
}

proof fn known_search(kind: ViewKind)
    requires
        kind_lasts(kind),
    ensures
        tab_lasts(persist::tab_saved(kind)),
{
    if let ViewKind::Search(search) = kind {
        assert(search.mission.key_spec() == search.mission.key_spec());
        assert(search.period.key_spec() == search.period.key_spec());
        assert(search.cloud.key_spec() == search.cloud.key_spec());
    }
}

proof fn parts_last(views: Seq<Tab>, node: Node)
    requires
        forall|i: int| 0 <= i < views.len() ==> kind_lasts((#[trigger] views[i]).kind),
        forall|i: int| 0 <= i < node.leaves().len() ==> screen::shows_right(views, #[trigger] node.leaves()[i]),
    ensures
        node_lasts(persist::node_saved(views, node)),
    decreases node,
{
    match node {
        Node::Leaf(leaf) => {
            let tabs = screen::views_of(views, leaf.id);
            let saved = persist::tabs_saved(tabs);
            views_of_are_views(views, leaf.id);
            assert forall|i: int| 0 <= i < saved.len() implies tab_lasts(#[trigger] saved[i]) by {
                assert(views.contains(tabs[i]));
                let j = choose|j: int| 0 <= j < views.len() && views[j] == tabs[i];
                assert(kind_lasts(views[j].kind));
                known_search(tabs[i].kind);
            }
            assert(node.leaves()[0] == leaf);
            assert(screen::shows_right(views, leaf));
            if leaf.active is None {
                views_of_others(views, leaf.id);
            } else {
                let id = leaf.active->0;
                let v = choose|v: int| 0 <= v < views.len() && (#[trigger] views[v]).id == id && views[v].pane == leaf.id;
                one_stands(views, leaf.id, v);
            }
        },
        Node::Split(split) => {
            let front = split.first.leaves();
            let back = split.second.leaves();
            assert forall|i: int| 0 <= i < front.len() implies screen::shows_right(views, #[trigger] front[i]) by {
                assert(node.leaves()[i] == front[i]);
            }
            assert forall|i: int| 0 <= i < back.len() implies screen::shows_right(views, #[trigger] back[i]) by {
                assert(node.leaves()[front.len() + i] == back[i]);
            }
            parts_last(views, *split.first);
            parts_last(views, *split.second);
        },
    }
}

/// A pane in which a tab stands has tabs.
proof fn one_stands(views: Seq<Tab>, pane: PaneId, at: int)
    requires
        0 <= at < views.len(),
        views[at].pane == pane,
    ensures
        screen::views_of(views, pane).len() > 0,
    decreases views.len(),
{
    if at < views.len() - 1 {
        assert(views.drop_last()[at] == views[at]);
        one_stands(views.drop_last(), pane, at);
    }
}

/// How many tabs of a kind stand in these panes.
spec fn in_panes(leaves: Seq<Leaf>, views: Seq<Tab>, kind: NewTab) -> nat
    decreases leaves.len(),
{
    if leaves.len() == 0 {
        0
    } else {
        in_panes(leaves.drop_last(), views, kind) + count_of(screen::views_of(views, leaves.last().id), kind)
    }
}

proof fn in_panes_both(front: Seq<Leaf>, back: Seq<Leaf>, views: Seq<Tab>, kind: NewTab)
    ensures
        in_panes(front + back, views, kind) == in_panes(front, views, kind) + in_panes(back, views, kind),
    decreases back.len(),
{
    if back.len() == 0 {
        assert(front + back =~= front);
    } else {
        in_panes_both(front, back.drop_last(), views, kind);
        assert((front + back).drop_last() =~= front + back.drop_last());
    }
}

proof fn saved_counted(tabs: Seq<Tab>, kind: NewTab)
    ensures
        tabs_of_kind(persist::tabs_saved(tabs), kind) == count_of(tabs, kind),
    decreases tabs.len(),
{
    let saved = persist::tabs_saved(tabs);
    if tabs.len() > 0 {
        saved_counted(tabs.drop_last(), kind);
        assert(saved.drop_last() =~= persist::tabs_saved(tabs.drop_last()));
        kinds_agree(tabs.last().kind, kind);
    }
}

proof fn node_counted(views: Seq<Tab>, node: Node, kind: NewTab)
    ensures
        of_kind(persist::node_saved(views, node), kind) == in_panes(node.leaves(), views, kind),
    decreases node,
{
    match node {
        Node::Leaf(leaf) => {
            saved_counted(screen::views_of(views, leaf.id), kind);
            reveal_with_fuel(in_panes, 2);
            assert(node.leaves().drop_last() =~= Seq::empty());
        },
        Node::Split(split) => {
            node_counted(views, *split.first, kind);
            node_counted(views, *split.second, kind);
            in_panes_both(split.first.leaves(), split.second.leaves(), views, kind);
        },
    }
}

/// One tab more counts in one pane at most.
proof fn one_more_in_panes(leaves: Seq<Leaf>, views: Seq<Tab>, kind: NewTab)
    requires
        views.len() > 0,
        forall|i: int, j: int| 0 <= i < j < leaves.len() ==> (#[trigger] leaves[i]).id != (#[trigger] leaves[j]).id,
    ensures
        in_panes(leaves, views, kind) <= in_panes(leaves, views.drop_last(), kind) + if screen::has_pane(
            leaves,
            views.last().pane,
        ) && nav::is_only(views.last().kind, kind) {
            1nat
        } else {
            0
        },
    decreases leaves.len(),
{
    if leaves.len() > 0 {
        let front = leaves.drop_last();
        let last = leaves.last();
        let tab = views.last();
        assert forall|i: int, j: int| 0 <= i < j < front.len() implies (#[trigger] front[i]).id != (#[trigger] front[j]).id by {
            assert(leaves[i].id != leaves[j].id);
        }
        one_more_in_panes(front, views, kind);
        let was = screen::views_of(views.drop_last(), last.id);
        if tab.pane == last.id {
            assert(was.push(tab).drop_last() =~= was);
            assert(!screen::has_pane(front, last.id)) by {
                if screen::has_pane(front, last.id) {
                    let i = choose|i: int| 0 <= i < front.len() && (#[trigger] front[i]).id == last.id;
                    assert(leaves[i].id != leaves[leaves.len() - 1].id);
                }
            }
            assert(leaves[leaves.len() - 1].id == tab.pane);
        } else if screen::has_pane(front, tab.pane) {
            let i = choose|i: int| 0 <= i < front.len() && (#[trigger] front[i]).id == tab.pane;
            assert(leaves[i].id == tab.pane);
        }
    }
}

proof fn in_panes_at_most(leaves: Seq<Leaf>, views: Seq<Tab>, kind: NewTab)
    requires
        forall|i: int, j: int| 0 <= i < j < leaves.len() ==> (#[trigger] leaves[i]).id != (#[trigger] leaves[j]).id,
    ensures
        in_panes(leaves, views, kind) <= count_of(views, kind),
    decreases views.len(), leaves.len(),
{
    if views.len() == 0 {
        if leaves.len() > 0 {
            let front = leaves.drop_last();
            assert forall|i: int, j: int| 0 <= i < j < front.len() implies (#[trigger] front[i]).id != (#[trigger] front[j]).id by {
                assert(leaves[i].id != leaves[j].id);
            }
            in_panes_at_most(front, views, kind);
        }
    } else {
        one_more_in_panes(leaves, views, kind);
        in_panes_at_most(leaves, views.drop_last(), kind);
    }
}

/// What is remembered of a screen that comes back lasts.
proof fn a_screen_lasts(screen: Screen)
    requires
        comes_back(screen),
    ensures
        lasts(persist::screen_saved(screen)),
{
    let views = screen.views@;
    let root = screen.layout.root;
    let leaves = screen.panes();
    let saved = persist::screen_saved(screen);
    parts_last(views, root);
    assert forall|kind: NewTab| #[trigger] of_kind(saved.root, kind) <= 1 by {
        node_counted(views, root, kind);
        in_panes_at_most(leaves, views, kind);
        assert(count_of(views, kind) <= 1);
    }
    panes_by_number(views, root);
    let at = choose|i: int| 0 <= i < leaves.len() && (#[trigger] leaves[i]).id == screen.focused;
    assert forall|i: int| 0 <= i < at implies (#[trigger] leaves[i]).id != screen.focused by {
        assert(leaves[i].id != leaves[at].id);
    }
    walk_number_is(leaves, screen.focused, at);
    let v = choose|v: int| 0 <= v < views.len() && (#[trigger] views[v]).pane == screen.focused;
    one_stands(views, screen.focused, v);
    assert(by_panes(saved.root)[at] == persist::tabs_saved(screen::views_of(views, leaves[at].id)));
}

// -- Tabs of which there are never two --

/// A remembered tab brings no second one of a kind of which there are never two.
proof fn tab_keeps_singles(before: State, after: State, pane: PaneId, tab: persist::TabView, now: i64)
    requires
        before.screen.whole(),
        before.screen.next < u64::MAX,
        forall|kind: NewTab| #[trigger] count_of(before.screen.views@, kind) <= 1,
        persist::tab_restored(before, after, pane, tab, now),
    ensures
        forall|kind: NewTab| #[trigger] count_of(after.screen.views@, kind) <= 1,
        before.screen.next <= after.screen.next <= before.screen.next + 1,
{
    let views = before.screen.views@;
    let view = ViewId { number: before.screen.next };
    if persist::is_open(views, persist::kind_of(tab)) {
    } else if tab is Preview && tab->label.len() == 0 {
    } else {
        let kind = if tab is Preview {
            screen::kind_in(after.screen.views@, view)->0
        } else {
            started_is_put(before, after, pane, tab, now)
        };
        let target = if screen::has_pane(before.screen.panes(), pane) { pane } else { before.screen.focused };
        let one = Tab { id: view, pane: target, kind };
        one_more_counted(views, one, Seq::empty());
        assert forall|other: NewTab| #[trigger] count_of(after.screen.views@, other) <= 1 by {
            kinds_agree(kind, other);
            if nav::is_only(kind, other) {
                not_open_is_none(views, other);
            }
            assert(count_of(views, other) <= 1);
        }
    }
}

proof fn not_open_is_none(views: Seq<Tab>, kind: NewTab)
    requires
        nav::only_one(views, kind) is None,
    ensures
        count_of(views, kind) == 0,
    decreases views.len(),
{
    if views.len() > 0 {
        let front = views.drop_last();
        none_in_front(views, kind);
        not_open_is_none(front, kind);
        none_at(views, kind, views.len() - 1);
    }
}

proof fn none_at(views: Seq<Tab>, kind: NewTab, at: int)
    requires
        nav::only_one(views, kind) is None,
        0 <= at < views.len(),
    ensures
        !nav::is_only(views[at].kind, kind),
    decreases views.len(),
{
    if at > 0 {
        none_at(views.skip(1), kind, at - 1);
    }
}

proof fn none_in_front(views: Seq<Tab>, kind: NewTab)
    requires
        nav::only_one(views, kind) is None,
        views.len() > 0,
    ensures
        nav::only_one(views.drop_last(), kind) is None,
{
    let front = views.drop_last();
    assert forall|i: int| 0 <= i < front.len() implies !nav::is_only((#[trigger] front[i]).kind, kind) by {
        none_at(views, kind, i);
    }
    none_is_none(front, kind);
}

proof fn tabs_keep_singles(before: State, after: State, pane: PaneId, tabs: Seq<persist::TabView>, now: i64)
    requires
        before.screen.whole(),
        before.screen.next + tabs.len() <= u64::MAX,
        forall|kind: NewTab| #[trigger] count_of(before.screen.views@, kind) <= 1,
        persist::tabs_restored(before, after, pane, tabs, now),
    ensures
        forall|kind: NewTab| #[trigger] count_of(after.screen.views@, kind) <= 1,
        before.screen.next <= after.screen.next <= before.screen.next + tabs.len(),
    decreases tabs.len(),
{
    if tabs.len() > 0 {
        let middle = choose|middle: State| {
            &&& persist::tabs_restored(before, middle, pane, tabs.drop_last(), now)
            &&& middle.screen.whole()
            &&& #[trigger] persist::tab_restored(middle, after, pane, tabs.last(), now)
        };
        tabs_keep_singles(before, middle, pane, tabs.drop_last(), now);
        tab_keeps_singles(middle, after, pane, tabs.last(), now);
    }
}

proof fn node_keeps_singles(
    before: State,
    after: State,
    pane: PaneId,
    node: persist::NodeView,
    panes: Seq<PaneId>,
    now: i64,
)
    requires
        before.screen.whole(),
        before.screen.next + persist::room(node) <= u64::MAX,
        forall|kind: NewTab| #[trigger] count_of(before.screen.views@, kind) <= 1,
        persist::node_restored(before, after, pane, node, panes, now),
    ensures
        forall|kind: NewTab| #[trigger] count_of(after.screen.views@, kind) <= 1,
        before.screen.next <= after.screen.next <= before.screen.next + persist::room(node),
    decreases node,
{
    match node {
        persist::NodeView::Pane { tabs, active } => {
            let filled = choose|filled: State| {
                &&& #[trigger] persist::tabs_restored(before, filled, pane, tabs, now)
                &&& filled.screen.whole()
                &&& after == (State { screen: persist::shown_in(filled.screen, pane, active), ..filled })
            };
            tabs_keep_singles(before, filled, pane, tabs, now);
        },
        persist::NodeView::Split { axis, fraction, first, second } => match persist::named_axis(axis) {
            Some(way) => {
                let side = way.tail_spec();
                let cut = State { screen: screen::split(before.screen, pane, side, fraction), ..before };
                let fresh = PaneId { number: before.screen.next };
                if screen::has_pane(before.screen.panes(), pane) {
                    let (half, count) = choose|half: State, count: int| {
                        &&& #[trigger] half.screen.whole()
                        &&& persist::node_restored(cut, half, pane, *first, #[trigger] panes.take(count), now)
                        &&& 0 <= count <= panes.len()
                        &&& persist::node_restored(half, after, fresh, *second, panes.skip(count), now)
                    };
                    screen::split_keeps_whole(before.screen, pane, side, fraction);
                    node_keeps_singles(cut, half, pane, *first, panes.take(count), now);
                    node_keeps_singles(half, after, fresh, *second, panes.skip(count), now);
                }
            },
            None => {
                let (half, count) = choose|half: State, count: int| {
                    &&& #[trigger] half.screen.whole()
                    &&& persist::node_restored(before, half, pane, *first, #[trigger] panes.take(count), now)
                    &&& 0 <= count <= panes.len()
                    &&& persist::node_restored(half, after, pane, *second, panes.skip(count), now)
                };
                node_keeps_singles(before, half, pane, *first, panes.take(count), now);
                node_keeps_singles(half, after, pane, *second, panes.skip(count), now);
            },
        },
    }
}

/// Whatever is remembered, no tab of which there are never two comes back twice: not
/// even where somebody wrote it down so by hand.
pub proof fn a_second_singleton_is_dropped(saved: persist::SavedView, before: State, after: State, now: i64)
    requires
        before.screen.whole(),
        before.screen.next + persist::room(saved.root) <= u64::MAX,
        forall|kind: NewTab| #[trigger] count_of(before.screen.views@, kind) <= 1,
        persist::layout_restored(before, after, saved, now),
    ensures
        forall|kind: NewTab| #[trigger] count_of(after.screen.views@, kind) <= 1,
{
    let (there, panes) = choose|there: State, panes: Seq<PaneId>| {
        &&& there.screen.whole()
        &&& #[trigger] persist::node_restored(before, there, before.screen.focused, saved.root, panes, now)
        &&& after == (State { screen: persist::refocused(there.screen, panes, saved.focus), ..there })
    };
    node_keeps_singles(before, there, before.screen.focused, saved.root, panes, now);
}

/// Moving a tab into another pane makes no second one.
proof fn moved_is_counted_once(views: Seq<Tab>, at: int, pane: PaneId, kind: NewTab)
    requires
        0 <= at < views.len(),
    ensures
        count_of(views.update(at, Tab { pane, ..views[at] }), kind) == count_of(views, kind),
    decreases views.len(),
{
    let now = views.update(at, Tab { pane, ..views[at] });
    if at < views.len() - 1 {
        assert(now.drop_last() =~= views.drop_last().update(at, Tab { pane, ..views.drop_last()[at] }));
        moved_is_counted_once(views.drop_last(), at, pane, kind);
    } else {
        assert(now.drop_last() =~= views.drop_last());
    }
}

/// A tab shows what was asked for.
pub open spec fn shows(kind: ViewKind, new: NewTab) -> bool {
    match new {
        NewTab::Browse => kind is Browse,
        NewTab::Empty => kind is Empty,
        _ => nav::is_only(kind, new),
    }
}

/// The open tab of which there are never two is among the tabs.
proof fn the_open_one_is_there(views: Seq<Tab>, new: NewTab) -> (at: int)
    requires
        nav::only_one(views, new) is Some,
    ensures
        0 <= at < views.len(),
        nav::only_one(views, new) == Some(views[at].id),
        nav::is_only(views[at].kind, new),
    decreases views.len(),
{
    if nav::is_only(views[0].kind, new) {
        0
    } else {
        let at = the_open_one_is_there(views.skip(1), new);
        assert(views.skip(1)[at] == views[at + 1]);
        at + 1
    }
}

proof fn no_catalogue_is_the_only_one(views: Seq<Tab>)
    ensures
        nav::only_one(views, NewTab::Browse) is None,
    decreases views.len(),
{
    if views.len() > 0 {
        no_catalogue_is_the_only_one(views.skip(1));
    }
}

/// The open tab comes into the pane where one is, and is turned to.
proof fn the_open_one_comes(before: State, after: State, pane: PaneId, new: NewTab, now: i64)
    requires
        before.screen.whole(),
        nav::only_one(before.screen.views@, new) is Some,
        nav::tab_opened(before, after, pane, new, now),
    ensures
        ({
            let views = before.screen.views@;
            let open = nav::only_one(views, new)->0;
            let at = screen::view_place(views, open);
            let goes = if screen::has_pane(before.screen.panes(), pane) { pane } else { views[at].pane };
            &&& 0 <= at < views.len()
            &&& nav::is_only(views[at].kind, new)
            &&& after.screen.views@ == views.update(at, Tab { pane: goes, ..views[at] })
            &&& after.screen.focused == goes
            &&& screen::active_of(after.screen.panes(), goes) == Some(open)
            &&& after == (State { screen: after.screen, open: None, ..before })
        }),
{
    let views = before.screen.views@;
    let open = nav::only_one(views, new)->0;
    let there = choose|there: Screen| {
        &&& #[trigger] screen::moved(before.screen, there, open, pane)
        &&& after == (State { screen: screen::turned(there, open), open: None, ..before })
    };
    let at = the_open_one_is_there(views, new);
    screen::view_place_is(views, open, at);
    let goes = if screen::has_pane(before.screen.panes(), pane) { pane } else { views[at].pane };
    let root = before.screen.layout.root;
    assert(there.views@ =~= views.update(at, Tab { pane: goes, ..views[at] }));
    screen::view_place_is(there.views@, open, at);
    if there != before.screen {
        screen::showing_is_shown(root, views[at].pane, screen::beside(there.views@, views[at].pane, at));
        let cleared = screen::left(root, there.views@, views[at].pane, open, at);
        assert(screen::has_pane(cleared.leaves(), pane));
        screen::showing_is_shown(cleared, pane, Some(open));
    }
    assert(screen::has_pane(root.leaves(), views[at].pane));
    screen::showing_is_shown(there.layout.root, goes, Some(open));
}

/// What is opened by asking for a tab. The catalogue opens anew each time and asks for its
/// root. Of the others there are never two: the open one comes into the pane and is turned
/// to, and nothing is opened; where there is none, one is opened in the pane and turned to.
/// No second one comes about, whatever is asked for.
pub proof fn what_a_new_tab_opens(before: State, after: State, pane: PaneId, new: NewTab, now: i64)
    requires
        before.screen.whole(),
        before.screen.next < u64::MAX,
        forall|kind: NewTab| #[trigger] count_of(before.screen.views@, kind) <= 1,
        nav::tab_opened(before, after, pane, new, now),
    ensures
        ({
            let views = before.screen.views@;
            let there = screen::has_pane(before.screen.panes(), pane);
            match nav::only_one(views, new) {
                Some(open) => {
                    let at = screen::view_place(views, open);
                    let goes = if there { pane } else { views[at].pane };
                    &&& 0 <= at < views.len()
                    &&& nav::is_only(views[at].kind, new)
                    &&& after.screen.views@ == views.update(at, Tab { pane: goes, ..views[at] })
                    &&& after.screen.focused == goes
                    &&& screen::active_of(after.screen.panes(), goes) == Some(open)
                    &&& after.said() == before.said()
                },
                None => {
                    let goes = if there { pane } else { before.screen.focused };
                    let tab = after.screen.views@.last();
                    &&& after.screen.views@ == views.push(tab)
                    &&& tab.id == ViewId { number: before.screen.next }
                    &&& tab.pane == goes
                    &&& shows(tab.kind, new)
                    &&& after.screen.focused == goes
                    &&& screen::active_of(after.screen.panes(), goes) == Some(tab.id)
                },
            }
        }),
        new == NewTab::Browse ==> {
            &&& nav::only_one(before.screen.views@, new) is None
            &&& after.said() == before.said().push(
                calls::CallView::ListPath {
                    path: Seq::empty(),
                    token: Seq::empty(),
                    recursive: false,
                    correlation: before.next_mark(),
                },
            )
        },
        forall|kind: NewTab| #[trigger] count_of(after.screen.views@, kind) <= 1,
{
    let views = before.screen.views@;
    let view = ViewId { number: before.screen.next };
    if new == NewTab::Browse {
        no_catalogue_is_the_only_one(views);
    }
    match nav::only_one(views, new) {
        Some(open) => {
            the_open_one_comes(before, after, pane, new, now);
            let at = screen::view_place(views, open);
            let goes = after.screen.views@[at].pane;
            assert forall|kind: NewTab| #[trigger] count_of(after.screen.views@, kind) <= 1 by {
                assert(count_of(views, kind) <= 1);
                moved_is_counted_once(views, at, goes, kind);
            }
        },
        None => {
            let (kind, there) = choose|kind: ViewKind, there: State| {
                &&& nav::is_fresh(kind, new)
                &&& there == (State { screen: there.screen, open: None, ..before })
                &&& #[trigger] screen::opened(before.screen, there.screen, pane, kind)
                &&& nav::first_asked(there, after, new, view, now)
            };
            let target = if screen::has_pane(before.screen.panes(), pane) { pane } else { before.screen.focused };
            screen::opened_is_found(views, Tab { id: view, pane: target, kind });
            let put = match new {
                NewTab::Browse => {
                    let asked = screen::kind_in(after.screen.views@, view)->0;
                    screen::opened_and_told(before.screen, there.screen, after.screen, pane, kind, asked);
                    asked
                },
                NewTab::Search => {
                    let calm = choose|calm: State| #[trigger]
                        state::narrowed_anew(there, calm, view) && search::asked(calm, after, view, now);
                    let listing = screen::listing_in(there.screen.views@, view)->0;
                    let calm_kind = kind.with_listing(ListingState { page: 0, ..listing });
                    screen::opened_and_told(before.screen, there.screen, calm.screen, pane, kind, calm_kind);
                    let asked = screen::kind_in(after.screen.views@, view)->0;
                    screen::opened_and_told(before.screen, calm.screen, after.screen, pane, calm_kind, asked);
                    asked
                },
                _ => kind,
            };
            assert(screen::opened(before.screen, after.screen, pane, put));
            screen::showing_is_shown(before.screen.layout.root, target, Some(view));
            one_more_counted(views, Tab { id: view, pane: target, kind: put }, Seq::empty());
            assert forall|other: NewTab| #[trigger] count_of(after.screen.views@, other) <= 1 by {
                assert(count_of(views, other) <= 1);
                if nav::is_only(put, other) {
                    not_open_is_none(views, other);
                }
            }
        },
    }
}

/// A screen that was put together outlives being taken down and put together again: the
/// same panes, the same shares, and the same tabs in the same places.
pub proof fn a_layout_survives_a_round_trip(screen: Screen, before: State, after: State, now: i64)
    requires
        comes_back(screen),
        before.screen.whole(),
        before.screen.views@.len() == 0,
        before.screen.layout.root == Node::Leaf(Leaf { id: before.screen.focused, active: None }),
        before.screen.next + persist::room(persist::screen_saved(screen).root) <= u64::MAX,
        persist::layout_restored(before, after, persist::screen_saved(screen), now),
    ensures
        persist::screen_saved(after.screen) == persist::screen_saved(screen),
        after.screen.panes().len() == screen.panes().len(),
{
    a_screen_lasts(screen);
    a_layout_comes_back(persist::screen_saved(screen), before, after, now);
    panes_by_number(screen.views@, screen.layout.root);
    panes_by_number(after.screen.views@, after.screen.layout.root);
}

} // verus!
