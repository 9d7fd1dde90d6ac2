//! Tabs and panes: what is open, and where on the screen it stands.
//!
//! The screen is a tree of divisions whose leaves are panes. Every tab stands in
//! one pane, and a pane that has tabs shows one of them.

use vstd::prelude::*;
use crate::state::browse::{BrowseState, Children};
use crate::state::globe::GlobeState;
use crate::state::ids::{PaneId, SplitId, ViewId};
use crate::state::listing::ListingState;
use crate::state::preview::PreviewState;
use crate::state::search::SearchState;
use crate::state::side::{Axis, Side};

verus! {

broadcast use vstd::string::group_string_axioms;

/// What a tab shows.
pub enum ViewKind {
    /// Nothing yet.
    Empty,
    Browse(BrowseState),
    Search(SearchState),
    Downloaded(ListingState),
    Globe(GlobeState),
    /// The layers that are shown.
    Shown,
    Preview(PreviewState),
}

impl ViewKind {
    /// How its list is shown, where it has one.
    pub open spec fn listing_spec(self) -> Option<ListingState> {
        match self {
            ViewKind::Browse(browse) => Some(browse.listing),
            ViewKind::Search(search) => Some(search.listing),
            ViewKind::Downloaded(listing) => Some(listing),
            _ => None,
        }
    }

    /// The same, with its list shown so.
    pub open spec fn with_listing(self, listing: ListingState) -> ViewKind {
        match self {
            ViewKind::Browse(browse) => ViewKind::Browse(BrowseState { listing, ..browse }),
            ViewKind::Search(search) => ViewKind::Search(SearchState { listing, ..search }),
            ViewKind::Downloaded(_) => ViewKind::Downloaded(listing),
            _ => self,
        }
    }

    /// The folders open in it, where it has such.
    pub open spec fn children_spec(self) -> Option<Children> {
        match self {
            ViewKind::Browse(browse) => Some(browse.children),
            ViewKind::Search(search) => Some(search.children),
            _ => None,
        }
    }

    /// The same, with these folders open.
    pub open spec fn with_children(self, children: Children) -> ViewKind {
        match self {
            ViewKind::Browse(browse) => ViewKind::Browse(BrowseState { children, ..browse }),
            ViewKind::Search(search) => ViewKind::Search(SearchState { children, ..search }),
            _ => self,
        }
    }

    pub fn listing(&self) -> (listing: Option<&ListingState>)
        ensures
            match listing {
                Some(listing) => self.listing_spec() == Some(*listing),
                None => self.listing_spec() is None,
            },
    {
        match self {
            ViewKind::Browse(browse) => Some(&browse.listing),
            ViewKind::Search(search) => Some(&search.listing),
            ViewKind::Downloaded(listing) => Some(listing),
            _ => None,
        }
    }

    pub fn listing_mut(&mut self) -> (listing: Option<&mut ListingState>)
        ensures
            match listing {
                Some(listing) => old(self).listing_spec() == Some(*listing) && *final(self) == old(self).with_listing(
                    *final(listing),
                ),
                None => old(self).listing_spec() is None && *final(self) == *old(self),
            },
    {
        match self {
            ViewKind::Browse(browse) => Some(&mut browse.listing),
            ViewKind::Search(search) => Some(&mut search.listing),
            ViewKind::Downloaded(listing) => Some(listing),
            _ => None,
        }
    }

    pub fn children_mut(&mut self) -> (children: Option<&mut Children>)
        ensures
            match children {
                Some(children) => old(self).children_spec() == Some(*children) && *final(self)
                    == old(self).with_children(*final(children)),
                None => old(self).children_spec() is None && *final(self) == *old(self),
            },
    {
        match self {
            ViewKind::Browse(browse) => Some(&mut browse.children),
            ViewKind::Search(search) => Some(&mut search.children),
            _ => None,
        }
    }
}

/// A tab.
pub struct Tab {
    pub id: ViewId,
    pub pane: PaneId,
    pub kind: ViewKind,
}

/// A pane, and the tab it shows.
#[derive(Clone, Copy, PartialEq, Eq, Structural, Debug)]
pub struct Leaf {
    pub id: PaneId,
    pub active: Option<ViewId>,
}

/// A division of the screen.
pub struct Split {
    pub id: SplitId,
    pub axis: Axis,
    /// How much of it the first part takes, by the bits of the share.
    pub fraction: u32,
    pub first: Box<Node>,
    pub second: Box<Node>,
}

/// A part of the screen.
pub enum Node {
    Leaf(Leaf),
    Split(Split),
}

impl Node {
    /// The panes, in the order of the walk.
    pub open spec fn leaves(self) -> Seq<Leaf>
        decreases self,
    {
        match self {
            Node::Leaf(leaf) => seq![leaf],
            Node::Split(split) => split.first.leaves() + split.second.leaves(),
        }
    }

    /// The same with every pane of this name changed into something.
    pub open spec fn replaced(self, pane: PaneId, part: Node) -> Node
        decreases self,
    {
        match self {
            Node::Leaf(leaf) => if leaf.id == pane { part } else { self },
            Node::Split(split) => Node::Split(Split {
                first: Box::new(split.first.replaced(pane, part)),
                second: Box::new(split.second.replaced(pane, part)),
                ..split
            }),
        }
    }
}

/// The names of panes.
pub open spec fn pane_names(leaves: Seq<Leaf>) -> Seq<PaneId> {
    leaves.map_values(|leaf: Leaf| leaf.id)
}

/// The tree of the screen.
pub struct Layout {
    pub root: Node,
}

impl Layout {
    pub fn root(&self) -> (root: &Node)
        ensures
            *root == self.root,
    {
        &self.root
    }

    /// How many panes there are.
    pub fn count(&self) -> (count: usize)
        ensures
            count == self.root.leaves().len(),
    {
        let mut leaves: Vec<Leaf> = Vec::new();
        collect_leaves(&self.root, &mut leaves);
        leaves.len()
    }
}

/// The panes of a part of the screen, behind those already found.
pub fn collect_leaves(node: &Node, leaves: &mut Vec<Leaf>)
    ensures
        final(leaves)@ == old(leaves)@ + node.leaves(),
    decreases node,
{
    match node {
        Node::Leaf(leaf) => {
            leaves.push(*leaf);
            assert(leaves@ =~= old(leaves)@ + node.leaves());
        },
        Node::Split(split) => {
            collect_leaves(&split.first, leaves);
            collect_leaves(&split.second, leaves);
            assert(leaves@ =~= old(leaves)@ + node.leaves());
        },
    }
}

/// Where the first tab of this name stands; the number of tabs when there is
/// none.
pub open spec fn view_place(views: Seq<Tab>, id: ViewId) -> int
    decreases views.len(),
{
    if views.len() == 0 {
        0
    } else if views[0].id == id {
        0
    } else {
        1 + view_place(views.skip(1), id)
    }
}

pub proof fn view_place_is(views: Seq<Tab>, id: ViewId, at: int)
    requires
        0 <= at <= views.len(),
        forall|j: int| 0 <= j < at ==> (#[trigger] views[j]).id != id,
        at < views.len() ==> views[at].id == id,
    ensures
        view_place(views, id) == at,
    decreases views.len(),
{
    if views.len() > 0 && views[0].id != id {
        assert forall|j: int| 0 <= j < at - 1 implies (#[trigger] views.skip(1)[j]).id != id by {
            assert(views.skip(1)[j] == views[j + 1]);
        }
        view_place_is(views.skip(1), id, at - 1);
    }
}

/// The first tab of a name is where nothing before it has the name.
pub proof fn view_place_is_first(views: Seq<Tab>, id: ViewId)
    ensures
        0 <= view_place(views, id) <= views.len(),
        forall|j: int| 0 <= j < view_place(views, id) ==> (#[trigger] views[j]).id != id,
        view_place(views, id) < views.len() ==> views[view_place(views, id)].id == id,
    decreases views.len(),
{
    if views.len() > 0 && views[0].id != id {
        view_place_is_first(views.skip(1), id);
        assert forall|j: int| 0 <= j < view_place(views, id) implies (#[trigger] views[j]).id != id by {
            if j > 0 {
                assert(views.skip(1)[j - 1] == views[j]);
            }
        }
    }
}

/// What the tab of this name shows.
pub open spec fn kind_in(views: Seq<Tab>, id: ViewId) -> Option<ViewKind> {
    let at = view_place(views, id);
    if 0 <= at < views.len() { Some(views[at].kind) } else { None }
}

/// The tabs, with the one of this name showing this.
pub open spec fn with_kind(views: Seq<Tab>, id: ViewId, kind: ViewKind) -> Seq<Tab> {
    let at = view_place(views, id);
    if 0 <= at < views.len() { views.update(at, Tab { kind, ..views[at] }) } else { views }
}

/// How the list of a tab is shown.
pub open spec fn listing_in(views: Seq<Tab>, id: ViewId) -> Option<ListingState> {
    match kind_in(views, id) {
        Some(kind) => kind.listing_spec(),
        None => None,
    }
}

/// The tabs, with the list of the one of this name shown so.
pub open spec fn with_listing(views: Seq<Tab>, id: ViewId, listing: ListingState) -> Seq<Tab> {
    match kind_in(views, id) {
        Some(kind) => with_kind(views, id, kind.with_listing(listing)),
        None => views,
    }
}

/// The tabs of a pane, in order.
pub open spec fn views_of(views: Seq<Tab>, pane: PaneId) -> Seq<Tab>
    decreases views.len(),
{
    if views.len() == 0 {
        Seq::empty()
    } else {
        let rest = views_of(views.drop_last(), pane);
        if views.last().pane == pane { rest.push(views.last()) } else { rest }
    }
}

/// All tabs and panes.
pub struct Screen {
    pub views: Vec<Tab>,
    pub layout: Layout,
    /// The pane at hand.
    pub focused: PaneId,
    /// The number of the next tab, pane or division.
    pub next: u64,
}

impl Screen {
    pub fn get(&self, id: ViewId) -> (kind: Option<&ViewKind>)
        ensures
            match kind {
                Some(kind) => kind_in(self.views@, id) == Some(*kind),
                None => kind_in(self.views@, id) is None,
            },
    {
        let at: usize = self.place(id);
        if at < self.views.len() { Some(&self.views[at].kind) } else { None }
    }

    fn place(&self, id: ViewId) -> (at: usize)
        ensures
            at == view_place(self.views@, id),
            at <= self.views@.len(),
    {
        let mut at: usize = 0;
        while at < self.views.len() && self.views[at].id != id
            invariant
                at <= self.views@.len(),
                forall|j: int| 0 <= j < at ==> (#[trigger] self.views@[j]).id != id,
            decreases self.views@.len() - at,
        {
            at += 1;
        }
        proof {
            view_place_is(self.views@, id, at as int);
        }
        at
    }

    pub fn get_mut(&mut self, id: ViewId) -> (kind: Option<&mut ViewKind>)
        ensures
            *final(self) == (Screen { views: final(self).views, ..*old(self) }),
            old(self).whole() ==> final(self).whole(),
            match kind {
                Some(kind) => kind_in(old(self).views@, id) == Some(*kind) && final(self).views@ == with_kind(
                    old(self).views@,
                    id,
                    *final(kind),
                ),
                None => kind_in(old(self).views@, id) is None && *final(self) == *old(self),
            },
    {
        proof {
            any_kind_keeps_whole(*self, id);
        }
        let at: usize = self.place(id);
        if at < self.views.len() { Some(&mut self.views[at].kind) } else { None }
    }

    pub fn listing(&self, id: ViewId) -> (listing: Option<&ListingState>)
        ensures
            match listing {
                Some(listing) => listing_in(self.views@, id) == Some(*listing),
                None => listing_in(self.views@, id) is None,
            },
    {
        match self.get(id) {
            Some(kind) => kind.listing(),
            None => None,
        }
    }

    pub fn listing_mut(&mut self, id: ViewId) -> (listing: Option<&mut ListingState>)
        ensures
            *final(self) == (Screen { views: final(self).views, ..*old(self) }),
            old(self).whole() ==> final(self).whole(),
            match listing {
                Some(listing) => listing_in(old(self).views@, id) == Some(*listing) && final(self).views@ == with_listing(
                    old(self).views@,
                    id,
                    *final(listing),
                ),
                None => listing_in(old(self).views@, id) is None && final(self).views@ == old(self).views@,
            },
    {
        proof {
            view_place_is_first(self.views@, id);
        }
        match self.get_mut(id) {
            Some(kind) => kind.listing_mut(),
            None => None,
        }
    }

    pub fn browse_mut(&mut self, id: ViewId) -> (browse: Option<&mut BrowseState>)
        ensures
            *final(self) == (Screen { views: final(self).views, ..*old(self) }),
            old(self).whole() ==> final(self).whole(),
            match browse {
                Some(browse) => kind_in(old(self).views@, id) == Some(ViewKind::Browse(*browse)) && final(self).views@
                    == with_kind(old(self).views@, id, ViewKind::Browse(*final(browse))),
                None => !(kind_in(old(self).views@, id) matches Some(ViewKind::Browse(_))) && final(self).views@
                    == old(self).views@,
            },
    {
        match self.get_mut(id) {
            Some(ViewKind::Browse(browse)) => Some(browse),
            _ => None,
        }
    }

    pub fn search_mut(&mut self, id: ViewId) -> (search: Option<&mut SearchState>)
        ensures
            *final(self) == (Screen { views: final(self).views, ..*old(self) }),
            old(self).whole() ==> final(self).whole(),
            match search {
                Some(search) => kind_in(old(self).views@, id) == Some(ViewKind::Search(*search)) && final(self).views@
                    == with_kind(old(self).views@, id, ViewKind::Search(*final(search))),
                None => !(kind_in(old(self).views@, id) matches Some(ViewKind::Search(_))) && final(self).views@
                    == old(self).views@,
            },
    {
        match self.get_mut(id) {
            Some(ViewKind::Search(search)) => Some(search),
            _ => None,
        }
    }

    pub fn preview_mut(&mut self, id: ViewId) -> (preview: Option<&mut PreviewState>)
        ensures
            *final(self) == (Screen { views: final(self).views, ..*old(self) }),
            old(self).whole() ==> final(self).whole(),
            match preview {
                Some(preview) => kind_in(old(self).views@, id) == Some(ViewKind::Preview(*preview)) && final(self).views@
                    == with_kind(old(self).views@, id, ViewKind::Preview(*final(preview))),
                None => !(kind_in(old(self).views@, id) matches Some(ViewKind::Preview(_))) && final(self).views@
                    == old(self).views@,
            },
    {
        match self.get_mut(id) {
            Some(ViewKind::Preview(preview)) => Some(preview),
            _ => None,
        }
    }

    pub fn globe_mut(&mut self, id: ViewId) -> (globe: Option<&mut GlobeState>)
        ensures
            *final(self) == (Screen { views: final(self).views, ..*old(self) }),
            old(self).whole() ==> final(self).whole(),
            match globe {
                Some(globe) => kind_in(old(self).views@, id) == Some(ViewKind::Globe(*globe)) && final(self).views@
                    == with_kind(old(self).views@, id, ViewKind::Globe(*final(globe))),
                None => !(kind_in(old(self).views@, id) matches Some(ViewKind::Globe(_))) && final(self).views@
                    == old(self).views@,
            },
    {
        match self.get_mut(id) {
            Some(ViewKind::Globe(globe)) => Some(globe),
            _ => None,
        }
    }
}

// -- The tree --

/// Panes with every one of this name changed into others.
pub open spec fn spliced(leaves: Seq<Leaf>, pane: PaneId, part: Seq<Leaf>) -> Seq<Leaf>
    decreases leaves.len(),
{
    if leaves.len() == 0 {
        Seq::empty()
    } else {
        spliced(leaves.drop_last(), pane, part) + if leaves.last().id == pane { part } else { seq![leaves.last()] }
    }
}

proof fn spliced_together(front: Seq<Leaf>, back: Seq<Leaf>, pane: PaneId, part: Seq<Leaf>)
    ensures
        spliced(front + back, pane, part) == spliced(front, pane, part) + spliced(back, pane, part),
    decreases back.len(),
{
    if back.len() == 0 {
        assert(front + back =~= front);
        assert(spliced(front, pane, part) + spliced(back, pane, part) =~= spliced(front, pane, part));
    } else {
        spliced_together(front, back.drop_last(), pane, part);
        assert((front + back).drop_last() =~= front + back.drop_last());
        let tail = if back.last().id == pane { part } else { seq![back.last()] };
        assert(spliced(front, pane, part) + (spliced(back.drop_last(), pane, part) + tail) =~= (spliced(front, pane, part)
            + spliced(back.drop_last(), pane, part)) + tail);
    }
}

proof fn spliced_one(leaf: Leaf, pane: PaneId, part: Seq<Leaf>)
    ensures
        spliced(seq![leaf], pane, part) == if leaf.id == pane { part } else { seq![leaf] },
{
    reveal_with_fuel(spliced, 2);
    assert(seq![leaf].drop_last() =~= Seq::empty());
    let tail = if leaf.id == pane { part } else { seq![leaf] };
    assert(Seq::<Leaf>::empty() + tail =~= tail);
}

/// What a tree has for panes when one is changed into a part of its own.
pub proof fn replaced_leaves(node: Node, pane: PaneId, part: Node)
    ensures
        node.replaced(pane, part).leaves() == spliced(node.leaves(), pane, part.leaves()),
    decreases node,
{
    match node {
        Node::Leaf(leaf) => {
            spliced_one(leaf, pane, part.leaves());
        },
        Node::Split(split) => {
            replaced_leaves(*split.first, pane, part);
            replaced_leaves(*split.second, pane, part);
            spliced_together(split.first.leaves(), split.second.leaves(), pane, part.leaves());
        },
    }
}

proof fn spliced_elsewhere(leaves: Seq<Leaf>, pane: PaneId, part: Seq<Leaf>)
    requires
        forall|i: int| 0 <= i < leaves.len() ==> (#[trigger] leaves[i]).id != pane,
    ensures
        spliced(leaves, pane, part) == leaves,
    decreases leaves.len(),
{
    if leaves.len() > 0 {
        spliced_elsewhere(leaves.drop_last(), pane, part);
        assert(spliced(leaves, pane, part) =~= leaves);
    }
}

/// Where the one pane of this name is changed, the others stay around it.
pub proof fn spliced_at(leaves: Seq<Leaf>, pane: PaneId, part: Seq<Leaf>, at: int)
    requires
        0 <= at < leaves.len(),
        leaves[at].id == pane,
        forall|i: int| 0 <= i < leaves.len() && i != at ==> (#[trigger] leaves[i]).id != pane,
    ensures
        spliced(leaves, pane, part) == leaves.take(at) + part + leaves.skip(at + 1),
{
    let front = leaves.take(at);
    let back = leaves.skip(at + 1);
    let middle = seq![leaves[at]];
    assert(leaves =~= (front + middle) + back);
    spliced_together(front + middle, back, pane, part);
    spliced_together(front, middle, pane, part);
    spliced_elsewhere(front, pane, part);
    assert forall|i: int| 0 <= i < back.len() implies (#[trigger] back[i]).id != pane by {
        assert(back[i] == leaves[at + 1 + i]);
    }
    spliced_elsewhere(back, pane, part);
    spliced_one(leaves[at], pane, part);
}

/// The tree with a pane showing this tab.
pub open spec fn showing(root: Node, pane: PaneId, active: Option<ViewId>) -> Node {
    root.replaced(pane, Node::Leaf(Leaf { id: pane, active }))
}

/// The tab a pane shows; `None` for a pane that is not there, too.
pub open spec fn active_of(leaves: Seq<Leaf>, pane: PaneId) -> Option<ViewId>
    decreases leaves.len(),
{
    if leaves.len() == 0 {
        None
    } else if leaves[0].id == pane {
        leaves[0].active
    } else {
        active_of(leaves.skip(1), pane)
    }
}

pub proof fn active_of_is(leaves: Seq<Leaf>, pane: PaneId, at: int)
    requires
        0 <= at <= leaves.len(),
        forall|j: int| 0 <= j < at ==> (#[trigger] leaves[j]).id != pane,
        at < leaves.len() ==> leaves[at].id == pane,
    ensures
        active_of(leaves, pane) == if at < leaves.len() { leaves[at].active } else { None },
    decreases leaves.len(),
{
    if leaves.len() > 0 && leaves[0].id != pane {
        assert forall|j: int| 0 <= j < at - 1 implies (#[trigger] leaves.skip(1)[j]).id != pane by {
            assert(leaves.skip(1)[j] == leaves[j + 1]);
        }
        active_of_is(leaves.skip(1), pane, at - 1);
    }
}

fn show_in(node: &mut Node, pane: PaneId, active: Option<ViewId>)
    ensures
        *final(node) == showing(*old(node), pane, active),
    decreases *old(node),
{
    match node {
        Node::Leaf(leaf) => {
            if leaf.id == pane {
                leaf.active = active;
            }
        },
        Node::Split(split) => {
            show_in(&mut split.first, pane, active);
            show_in(&mut split.second, pane, active);
        },
    }
}

/// The tree with a pane divided: the new one stands on this side of it.
pub open spec fn divided(root: Node, pane: PaneId, active: Option<ViewId>, side: Side, fraction: u32, split: SplitId, fresh: PaneId) -> Node {
    let stays = Node::Leaf(Leaf { id: pane, active });
    let comes = Node::Leaf(Leaf { id: fresh, active: None });
    root.replaced(
        pane,
        Node::Split(
            Split {
                id: split,
                axis: side.axis_spec(),
                fraction,
                first: Box::new(if side.is_tail_spec() { stays } else { comes }),
                second: Box::new(if side.is_tail_spec() { comes } else { stays }),
            },
        ),
    )
}

fn divide(node: &mut Node, pane: PaneId, active: Option<ViewId>, side: Side, fraction: u32, split: SplitId, fresh: PaneId)
    ensures
        *final(node) == divided(*old(node), pane, active, side, fraction, split, fresh),
    decreases *old(node),
{
    match node {
        Node::Leaf(leaf) => {
            if leaf.id == pane {
                let stays: Box<Node> = Box::new(Node::Leaf(Leaf { id: pane, active }));
                let comes: Box<Node> = Box::new(Node::Leaf(Leaf { id: fresh, active: None }));
                let axis: Axis = side.axis();
                *node = if side.is_tail() {
                    Node::Split(Split { id: split, axis, fraction, first: stays, second: comes })
                } else {
                    Node::Split(Split { id: split, axis, fraction, first: comes, second: stays })
                };
            }
        },
        Node::Split(parts) => {
            divide(&mut parts.first, pane, active, side, fraction, split, fresh);
            divide(&mut parts.second, pane, active, side, fraction, split, fresh);
        },
    }
}

// -- The whole screen --

/// Some tab of this name stands in this pane.
pub open spec fn stands_in(views: Seq<Tab>, id: ViewId, pane: PaneId) -> bool {
    exists|i: int| 0 <= i < views.len() && (#[trigger] views[i]).id == id && views[i].pane == pane
}

/// No tab stands in this pane.
pub open spec fn is_bare(views: Seq<Tab>, pane: PaneId) -> bool {
    forall|i: int| 0 <= i < views.len() ==> (#[trigger] views[i]).pane != pane
}

/// There is a pane of this name.
pub open spec fn has_pane(leaves: Seq<Leaf>, pane: PaneId) -> bool {
    exists|i: int| 0 <= i < leaves.len() && (#[trigger] leaves[i]).id == pane
}

/// A pane that has tabs shows one of them, and one that has none shows nothing.
pub open spec fn shows_right(views: Seq<Tab>, leaf: Leaf) -> bool {
    match leaf.active {
        Some(id) => stands_in(views, id, leaf.id),
        None => is_bare(views, leaf.id),
    }
}

impl Screen {
    /// The panes, in the order of the walk.
    pub open spec fn panes(self) -> Seq<Leaf> {
        self.layout.root.leaves()
    }

    /// The screen is whole: no two tabs and no two panes have one name, every tab
    /// stands in a pane, every pane shows what it should, and no name was given
    /// out that is still to come.
    pub open spec fn whole(self) -> bool {
        let views = self.views@;
        let leaves = self.panes();
        &&& forall|i: int| 0 <= i < views.len() ==> (#[trigger] views[i]).id.number < self.next && has_pane(
            leaves,
            views[i].pane,
        )
        &&& forall|i: int, j: int| 0 <= i < j < views.len() ==> (#[trigger] views[i]).id != (#[trigger] views[j]).id
        &&& forall|i: int| 0 <= i < leaves.len() ==> (#[trigger] leaves[i]).id.number < self.next && shows_right(
            views,
            leaves[i],
        )
        &&& forall|i: int, j: int| 0 <= i < j < leaves.len() ==> (#[trigger] leaves[i]).id != (#[trigger] leaves[j]).id
        &&& has_pane(leaves, self.focused)
    }

    /// One empty pane.
    pub fn new() -> (screen: Screen)
        ensures
            screen.whole(),
            screen.views@.len() == 0,
            screen.panes() == seq![Leaf { id: screen.focused, active: None }],
            screen.layout.root == Node::Leaf(Leaf { id: screen.focused, active: None }),
            screen.next == 1,
    {
        let screen: Screen = Screen {
            views: Vec::new(),
            layout: Layout { root: Node::Leaf(Leaf { id: PaneId { number: 0 }, active: None }) },
            focused: PaneId { number: 0 },
            next: 1,
        };
        assert(screen.panes()[0].id == screen.focused);
        screen
    }

    /// All panes, in the order of the walk.
    pub fn all_panes(&self) -> (panes: Vec<Leaf>)
        ensures
            panes@ == self.panes(),
    {
        let mut panes: Vec<Leaf> = Vec::new();
        collect_leaves(&self.layout.root, &mut panes);
        assert(panes@ =~= self.panes());
        panes
    }

    pub fn has(&self, pane: PaneId) -> (yes: bool)
        ensures
            yes == has_pane(self.panes(), pane),
    {
        let panes: Vec<Leaf> = self.all_panes();
        let mut i: usize = 0;
        while i < panes.len()
            invariant
                i <= panes@.len(),
                panes@ == self.panes(),
                forall|j: int| 0 <= j < i ==> (#[trigger] panes@[j]).id != pane,
            decreases panes@.len() - i,
        {
            if panes[i].id == pane {
                return true;
            }
            i += 1;
        }
        false
    }

    /// The tab a pane shows.
    pub fn active_in(&self, pane: PaneId) -> (active: Option<ViewId>)
        ensures
            active == active_of(self.panes(), pane),
    {
        let panes: Vec<Leaf> = self.all_panes();
        let mut i: usize = 0;
        while i < panes.len()
            invariant
                i <= panes@.len(),
                panes@ == self.panes(),
                forall|j: int| 0 <= j < i ==> (#[trigger] panes@[j]).id != pane,
            decreases panes@.len() - i,
        {
            if panes[i].id == pane {
                proof {
                    active_of_is(panes@, pane, i as int);
                }
                return panes[i].active;
            }
            i += 1;
        }
        proof {
            active_of_is(panes@, pane, i as int);
        }
        None
    }

    /// Where in the walk a pane of this name stands.
    proof fn pane_at(self, pane: PaneId) -> (at: int)
        requires
            self.whole(),
            has_pane(self.panes(), pane),
        ensures
            0 <= at < self.panes().len(),
            self.panes()[at].id == pane,
            forall|i: int| 0 <= i < self.panes().len() && i != at ==> (#[trigger] self.panes()[i]).id != pane,
            active_of(self.panes(), pane) == self.panes()[at].active,
            forall|active: Option<ViewId>|
                (#[trigger] showing(self.layout.root, pane, active)).leaves() == self.panes().update(
                    at,
                    Leaf { id: pane, active },
                ),
    {
        let leaves = self.panes();
        let at = choose|i: int| 0 <= i < leaves.len() && (#[trigger] leaves[i]).id == pane;
        assert forall|i: int| 0 <= i < leaves.len() && i != at implies (#[trigger] leaves[i]).id != pane by {
            if i < at {
                assert(leaves[i].id != leaves[at].id);
            } else {
                assert(leaves[at].id != leaves[i].id);
            }
        }
        active_of_is(leaves, pane, at);
        assert forall|active: Option<ViewId>|
            (#[trigger] showing(self.layout.root, pane, active)).leaves() == leaves.update(at, Leaf { id: pane, active }) by {
            let leaf = Leaf { id: pane, active };
            replaced_leaves(self.layout.root, pane, Node::Leaf(leaf));
            spliced_at(leaves, pane, seq![leaf], at);
            assert(leaves.take(at) + seq![leaf] + leaves.skip(at + 1) =~= leaves.update(at, leaf));
        }
        at
    }

    /// Opens a tab in a pane, or in the one at hand when that pane is gone. The
    /// new tab is shown, and its pane is at hand.
    pub fn open_in(&mut self, pane: PaneId, kind: ViewKind) -> (id: ViewId)
        requires
            old(self).whole(),
            old(self).next < u64::MAX,
        ensures
            final(self).whole(),
            id.number == old(self).next,
            opened(*old(self), *final(self), pane, kind),
            kind_in(final(self).views@, id) == Some(kind),
            forall|other: ViewId|
                other != id ==> #[trigger] kind_in(final(self).views@, other) == kind_in(old(self).views@, other),
    {
        let target: PaneId = if self.has(pane) { pane } else { self.focused };
        let id: ViewId = ViewId { number: self.next };
        let ghost before = *self;
        let ghost at = self.pane_at(target);
        self.next = self.next + 1;
        self.views.push(Tab { id, pane: target, kind });
        show_in(&mut self.layout.root, target, Some(id));
        self.focused = target;
        proof {
            let views = self.views@;
            let leaves = self.panes();
            assert(leaves == before.panes().update(at, Leaf { id: target, active: Some(id) }));
            let last = before.views@.len() as int;
            assert(views[last].id == id && views[last].pane == target);
            assert forall|i: int| 0 <= i < views.len() implies (#[trigger] views[i]).id.number < self.next && has_pane(
                leaves,
                views[i].pane,
            ) by {
                if i < last {
                    assert(views[i] == before.views@[i]);
                    let p = choose|p: int| 0 <= p < before.panes().len() && (#[trigger] before.panes()[p]).id == views[i].pane;
                    assert(leaves[p].id == views[i].pane);
                } else {
                    assert(leaves[at].id == target);
                }
            }
            assert forall|i: int, j: int| 0 <= i < j < views.len() implies (#[trigger] views[i]).id != (#[trigger] views[j]).id by {
                assert(views[i] == before.views@[i]);
                if j < last {
                    assert(views[j] == before.views@[j]);
                }
            }
            assert forall|i: int| 0 <= i < leaves.len() implies (#[trigger] leaves[i]).id.number < self.next && shows_right(
                views,
                leaves[i],
            ) by {
                if i != at {
                    assert(leaves[i] == before.panes()[i]);
                    assert(shows_right(before.views@, before.panes()[i]));
                    match leaves[i].active {
                        Some(shown) => {
                            let v = choose|v: int|
                                0 <= v < last && (#[trigger] before.views@[v]).id == shown && before.views@[v].pane == leaves[i].id;
                            assert(views[v] == before.views@[v]);
                        },
                        None => {
                            assert forall|v: int| 0 <= v < views.len() implies (#[trigger] views[v]).pane != leaves[i].id by {
                                if v < last {
                                    assert(views[v] == before.views@[v]);
                                }
                            }
                        },
                    }
                } else {
                    assert(before.panes()[at].id.number < before.next);
                }
            }
            assert forall|i: int, j: int| 0 <= i < j < leaves.len() implies (#[trigger] leaves[i]).id != (#[trigger] leaves[j]).id by {
                assert(leaves[i].id == before.panes()[i].id);
                assert(leaves[j].id == before.panes()[j].id);
            }
            assert(leaves[at].id == self.focused);
            opened_is_found(before.views@, views[last]);
        }
        id
    }
}

/// A tab with a new name is found under it, and the others as they were.
pub proof fn opened_is_found(views: Seq<Tab>, tab: Tab)
    requires
        forall|i: int| 0 <= i < views.len() ==> (#[trigger] views[i]).id != tab.id,
    ensures
        view_place(views.push(tab), tab.id) == views.len(),
        kind_in(views.push(tab), tab.id) == Some(tab.kind),
        forall|other: ViewId|
            other != tab.id ==> #[trigger] kind_in(views.push(tab), other) == kind_in(views, other),
{
    let all = views.push(tab);
    assert forall|j: int| 0 <= j < views.len() implies (#[trigger] all[j]).id != tab.id by {
        assert(all[j] == views[j]);
    }
    view_place_is(all, tab.id, views.len() as int);
    assert forall|other: ViewId| other != tab.id implies #[trigger] kind_in(all, other) == kind_in(views, other) by {
        view_place_is_first(views, other);
        let at = view_place(views, other);
        assert forall|j: int| 0 <= j < at implies (#[trigger] all[j]).id != other by {
            assert(all[j] == views[j]);
        }
        if at < views.len() {
            assert(all[at] == views[at]);
            view_place_is(all, other, at);
        } else {
            assert(all[at] == tab);
            view_place_is(all, other, at + 1);
        }
    }
}

/// A tab that was opened and then told to show something else was opened to show that.
pub proof fn opened_and_told(before: Screen, middle: Screen, after: Screen, pane: PaneId, kind: ViewKind, now: ViewKind)
    requires
        before.whole(),
        opened(before, middle, pane, kind),
        after == (Screen { views: after.views, ..middle }),
        after.views@ == with_kind(middle.views@, ViewId { number: before.next }, now),
    ensures
        opened(before, after, pane, now),
        kind_in(after.views@, ViewId { number: before.next }) == Some(now),
        forall|other: ViewId|
            other.number != before.next ==> #[trigger] kind_in(after.views@, other) == kind_in(before.views@, other),
{
    let id = ViewId { number: before.next };
    let target = if has_pane(before.panes(), pane) { pane } else { before.focused };
    let tab = Tab { id, pane: target, kind: now };
    opened_is_found(before.views@, Tab { kind, ..tab });
    opened_is_found(before.views@, tab);
    assert(after.views@ =~= before.views@.push(tab));
}

/// The screen turned to a tab: its pane shows it and is at hand.
pub open spec fn turned(screen: Screen, id: ViewId) -> Screen {
    let at = view_place(screen.views@, id);
    if 0 <= at < screen.views@.len() {
        let pane = screen.views@[at].pane;
        Screen { layout: Layout { root: showing(screen.layout.root, pane, Some(id)) }, focused: pane, ..screen }
    } else {
        screen
    }
}

/// The screen with a pane divided.
pub open spec fn split(screen: Screen, pane: PaneId, side: Side, fraction: u32) -> Screen {
    Screen {
        layout: Layout {
            root: divided(
                screen.layout.root,
                pane,
                active_of(screen.panes(), pane),
                side,
                fraction,
                SplitId { number: (screen.next + 1) as u64 },
                PaneId { number: screen.next },
            ),
        },
        next: (screen.next + 2) as u64,
        ..screen
    }
}

/// A tab was opened in a pane, or in the one at hand when that pane is gone. It is
/// shown, and its pane is at hand.
pub open spec fn opened(before: Screen, after: Screen, pane: PaneId, kind: ViewKind) -> bool {
    let id = ViewId { number: before.next };
    let target = if has_pane(before.panes(), pane) { pane } else { before.focused };
    &&& after.views@ == before.views@.push(Tab { id, pane: target, kind })
    &&& after.layout.root == showing(before.layout.root, target, Some(id))
    &&& after.focused == target
    &&& after.next == before.next + 1
}

/// A tab was closed. A pane that showed it shows the tab before it, or else the one
/// behind it.
pub open spec fn closed_at(before: Screen, after: Screen, id: ViewId, tab: Tab) -> bool {
    let at = view_place(before.views@, id);
    &&& 0 <= at < before.views@.len()
    &&& tab == before.views@[at]
    &&& after == (Screen { views: after.views, layout: after.layout, ..before })
    &&& after.views@ == before.views@.remove(at)
    &&& after.layout.root == left(before.layout.root, after.views@, tab.pane, id, at)
}

/// A tab was moved into a pane, which shows it. Nothing happens where the tab or the
/// pane is not there, or the tab is in the pane already.
pub open spec fn moved(before: Screen, after: Screen, id: ViewId, pane: PaneId) -> bool {
    let at = view_place(before.views@, id);
    if 0 <= at < before.views@.len() && has_pane(before.panes(), pane) && before.views@[at].pane != pane {
        &&& after == (Screen { views: after.views, layout: after.layout, ..before })
        &&& after.views@ == before.views@.update(at, Tab { pane, ..before.views@[at] })
        &&& after.layout.root == showing(
            left(before.layout.root, after.views@, before.views@[at].pane, id, at),
            pane,
            Some(id),
        )
    } else {
        after == before
    }
}

/// All panes were brought together into the one at hand, which goes on showing what
/// it showed, or else the first tab there is.
pub open spec fn collapsed(before: Screen, after: Screen) -> bool {
    &&& after == (Screen { views: after.views, layout: after.layout, ..before })
    &&& after.views@ == gathered(before.views@, before.focused)
    &&& after.layout.root == Node::Leaf(
        Leaf {
            id: before.focused,
            active: match active_of(before.panes(), before.focused) {
                Some(active) => Some(active),
                None => if before.views@.len() > 0 { Some(before.views@[0].id) } else { None },
            },
        },
    )
}

/// The last tab of a pane.
pub open spec fn last_in(views: Seq<Tab>, pane: PaneId) -> Option<ViewId>
    decreases views.len(),
{
    if views.len() == 0 {
        None
    } else if views.last().pane == pane {
        Some(views.last().id)
    } else {
        last_in(views.drop_last(), pane)
    }
}

/// The first tab of a pane.
pub open spec fn first_in(views: Seq<Tab>, pane: PaneId) -> Option<ViewId>
    decreases views.len(),
{
    if views.len() == 0 {
        None
    } else if views[0].pane == pane {
        Some(views[0].id)
    } else {
        first_in(views.skip(1), pane)
    }
}

/// What a pane shows once the tab it showed is gone from this place: the tab
/// before it, or else the one behind it.
pub open spec fn beside(views: Seq<Tab>, pane: PaneId, at: int) -> Option<ViewId> {
    match last_in(views.take(at), pane) {
        Some(id) => Some(id),
        None => first_in(views.skip(at), pane),
    }
}

proof fn last_in_is_right(views: Seq<Tab>, pane: PaneId)
    ensures
        shows_right(views, Leaf { id: pane, active: last_in(views, pane) }),
    decreases views.len(),
{
    if views.len() > 0 {
        let last = views.len() - 1;
        if views.last().pane == pane {
            assert(views[last].id == views.last().id);
        } else {
            let rest = views.drop_last();
            last_in_is_right(rest, pane);
            match last_in(views, pane) {
                Some(id) => {
                    let i = choose|i: int| 0 <= i < rest.len() && (#[trigger] rest[i]).id == id && rest[i].pane == pane;
                    assert(views[i] == rest[i]);
                },
                None => {
                    assert forall|i: int| 0 <= i < views.len() implies (#[trigger] views[i]).pane != pane by {
                        if i < last {
                            assert(rest[i] == views[i]);
                        }
                    }
                },
            }
        }
    }
}

proof fn first_in_is_right(views: Seq<Tab>, pane: PaneId)
    ensures
        shows_right(views, Leaf { id: pane, active: first_in(views, pane) }),
    decreases views.len(),
{
    if views.len() > 0 {
        if views[0].pane == pane {
            assert(views[0].id == first_in(views, pane)->0);
        } else {
            let rest = views.skip(1);
            first_in_is_right(rest, pane);
            match first_in(views, pane) {
                Some(id) => {
                    let i = choose|i: int| 0 <= i < rest.len() && (#[trigger] rest[i]).id == id && rest[i].pane == pane;
                    assert(views[i + 1] == rest[i]);
                },
                None => {
                    assert forall|i: int| 0 <= i < views.len() implies (#[trigger] views[i]).pane != pane by {
                        if i > 0 {
                            assert(rest[i - 1] == views[i]);
                        }
                    }
                },
            }
        }
    }
}

proof fn beside_is_right(views: Seq<Tab>, pane: PaneId, at: int)
    requires
        0 <= at <= views.len(),
    ensures
        shows_right(views, Leaf { id: pane, active: beside(views, pane, at) }),
{
    let front = views.take(at);
    let back = views.skip(at);
    last_in_is_right(front, pane);
    first_in_is_right(back, pane);
    match last_in(front, pane) {
        Some(id) => {
            let i = choose|i: int| 0 <= i < front.len() && (#[trigger] front[i]).id == id && front[i].pane == pane;
            assert(views[i] == front[i]);
        },
        None => match first_in(back, pane) {
            Some(id) => {
                let i = choose|i: int| 0 <= i < back.len() && (#[trigger] back[i]).id == id && back[i].pane == pane;
                assert(views[at + i] == back[i]);
            },
            None => {
                assert forall|i: int| 0 <= i < views.len() implies (#[trigger] views[i]).pane != pane by {
                    if i < at {
                        assert(front[i] == views[i]);
                    } else {
                        assert(back[i - at] == views[i]);
                    }
                }
            },
        },
    }
}

/// A screen stays whole where only what one pane shows has changed, and rightly.
proof fn showing_keeps_whole(before: Screen, after: Screen, pane: PaneId, active: Option<ViewId>)
    requires
        before.whole(),
        has_pane(before.panes(), pane),
        has_pane(before.panes(), after.focused),
        after.layout.root == showing(before.layout.root, pane, active),
        after.views@ == before.views@,
        after.next == before.next,
        shows_right(before.views@, Leaf { id: pane, active }),
    ensures
        after.whole(),
{
    let at = before.pane_at(pane);
    let leaves = after.panes();
    let names = before.panes();
    assert(leaves == names.update(at, Leaf { id: pane, active }));
    assert forall|other: PaneId| has_pane(names, other) implies has_pane(leaves, other) by {
        let i = choose|i: int| 0 <= i < names.len() && (#[trigger] names[i]).id == other;
        assert(leaves[i].id == other);
    }
    assert forall|i: int| 0 <= i < leaves.len() implies (#[trigger] leaves[i]).id.number < after.next && shows_right(
        after.views@,
        leaves[i],
    ) by {
        assert(names[i].id.number < before.next && shows_right(before.views@, names[i]));
    }
    assert forall|i: int, j: int| 0 <= i < j < leaves.len() implies (#[trigger] leaves[i]).id != (#[trigger] leaves[j]).id by {
        assert(names[i].id != names[j].id);
    }
}

/// A screen stays whole when a tab is taken away and its pane shows the next.
proof fn closing_keeps_whole(before: Screen, after: Screen, id: ViewId, at: int)
    requires
        before.whole(),
        0 <= at < before.views@.len(),
        before.views@[at].id == id,
        after.views@ == before.views@.remove(at),
        after.next == before.next,
        after.focused == before.focused,
        after.layout.root == if active_of(before.panes(), before.views@[at].pane) == Some(id) {
            showing(before.layout.root, before.views@[at].pane, beside(after.views@, before.views@[at].pane, at))
        } else {
            before.layout.root
        },
    ensures
        after.whole(),
{
    let pane = before.views@[at].pane;
    let shown = active_of(before.panes(), pane) == Some(id);
    assert(has_pane(before.panes(), pane));
    let p = before.pane_at(pane);
    let old_views = before.views@;
    let views = after.views@;
    let names = before.panes();
    let leaves = after.panes();
    let k = at;
    beside_is_right(views, pane, k);
    assert(leaves.len() == names.len());
    assert forall|i: int| 0 <= i < leaves.len() implies (#[trigger] leaves[i]).id == names[i].id by {}
    assert forall|other: PaneId| has_pane(names, other) implies has_pane(leaves, other) by {
        let i = choose|i: int| 0 <= i < names.len() && (#[trigger] names[i]).id == other;
        assert(leaves[i].id == other);
    }
    assert forall|i: int| 0 <= i < views.len() implies (#[trigger] views[i]).id.number < after.next && has_pane(
        leaves,
        views[i].pane,
    ) by {
        let from = if i < k { i } else { i + 1 };
        assert(views[i] == old_views[from]);
        assert(has_pane(names, old_views[from].pane));
    }
    assert forall|i: int, j: int| 0 <= i < j < views.len() implies (#[trigger] views[i]).id != (#[trigger] views[j]).id by {
        assert(views[i] == old_views[if i < k { i } else { i + 1 }]);
        assert(views[j] == old_views[if j < k { j } else { j + 1 }]);
    }
    assert forall|i: int| 0 <= i < leaves.len() implies (#[trigger] leaves[i]).id.number < after.next && shows_right(
        views,
        leaves[i],
    ) by {
        assert(names[i].id.number < before.next && shows_right(old_views, names[i]));
        if !(shown && i == p) {
            assert(leaves[i] == names[i]);
            match names[i].active {
                Some(active) => {
                    let v = choose|v: int|
                        0 <= v < old_views.len() && (#[trigger] old_views[v]).id == active && old_views[v].pane
                            == names[i].id;
                    if v == k {
                        assert(names[i].id == pane);
                        assert(i == p);
                        assert(active == id);
                    }
                    assert(views[if v < k { v } else { v - 1 }] == old_views[v]);
                },
                None => {
                    assert forall|v: int| 0 <= v < views.len() implies (#[trigger] views[v]).pane != names[i].id by {
                        assert(views[v] == old_views[if v < k { v } else { v + 1 }]);
                    }
                },
            }
        }
    }
    assert forall|i: int, j: int| 0 <= i < j < leaves.len() implies (#[trigger] leaves[i]).id != (#[trigger] leaves[j]).id by {
        assert(names[i].id != names[j].id);
    }
}

impl Screen {
    fn beside_in(&self, pane: PaneId, at: usize) -> (active: Option<ViewId>)
        requires
            at <= self.views@.len(),
        ensures
            active == beside(self.views@, pane, at as int),
    {
        let ghost front = self.views@.take(at as int);
        let ghost back = self.views@.skip(at as int);
        let mut i: usize = at;
        assert(front.take(at as int) =~= front);
        while i > 0
            invariant
                i <= at <= self.views@.len(),
                front == self.views@.take(at as int),
                last_in(front.take(i as int), pane) == last_in(front, pane),
            decreases i,
        {
            assert(front.take(i as int).last() == self.views@[i - 1]);
            assert(front.take(i as int).drop_last() =~= front.take(i - 1));
            if self.views[i - 1].pane == pane {
                return Some(self.views[i - 1].id);
            }
            i -= 1;
        }
        let mut j: usize = at;
        assert(back.skip(0) =~= back);
        while j < self.views.len()
            invariant
                at <= j <= self.views@.len(),
                back == self.views@.skip(at as int),
                first_in(back.skip(j - at), pane) == first_in(back, pane),
                last_in(front, pane) is None,
                front == self.views@.take(at as int),
            decreases self.views@.len() - j,
        {
            assert(back.skip(j - at)[0] == self.views@[j as int]);
            assert(back.skip(j - at).skip(1) =~= back.skip(j + 1 - at));
            if self.views[j].pane == pane {
                return Some(self.views[j].id);
            }
            j += 1;
        }
        None
    }

    /// Turns to a tab: its pane shows it and is at hand. Nothing happens for a
    /// tab that is not there.
    pub fn focus(&mut self, id: ViewId)
        requires
            old(self).whole(),
        ensures
            final(self).whole(),
            *final(self) == turned(*old(self), id),
    {
        let at: usize = self.place(id);
        proof {
            view_place_is_first(self.views@, id);
        }
        if at < self.views.len() {
            let ghost before = *self;
            let pane: PaneId = self.views[at].pane;
            show_in(&mut self.layout.root, pane, Some(id));
            self.focused = pane;
            proof {
                assert(before.views@[at as int].id == id);
                showing_keeps_whole(before, *self, pane, Some(id));
            }
        }
    }

    /// Closes a tab. A pane that showed it shows the tab before it, or else the
    /// one behind it.
    pub fn close(&mut self, id: ViewId) -> (closed: Option<Tab>)
        requires
            old(self).whole(),
        ensures
            final(self).whole(),
            match closed {
                Some(tab) => closed_at(*old(self), *final(self), id, tab),
                None => kind_in(old(self).views@, id) is None && *final(self) == *old(self),
            },
    {
        let at: usize = self.place(id);
        proof {
            view_place_is_first(self.views@, id);
        }
        if at >= self.views.len() {
            return None;
        }
        let ghost before = *self;
        let pane: PaneId = self.views[at].pane;
        let shown: bool = match self.active_in(pane) {
            Some(active) => active == id,
            None => false,
        };
        let tab: Tab = self.views.remove(at);
        if shown {
            let active: Option<ViewId> = self.beside_in(pane, at);
            show_in(&mut self.layout.root, pane, active);
        }
        proof {
            closing_keeps_whole(before, *self, id, at as int);
        }
        Some(tab)
    }

    /// Divides a pane: the new one stands on this side of it and is empty. `None`
    /// when there is no such pane.
    pub fn split_pane(&mut self, pane: PaneId, side: Side, fraction: u32) -> (fresh: Option<PaneId>)
        requires
            old(self).whole(),
            old(self).next < u64::MAX - 1,
        ensures
            final(self).whole(),
            match fresh {
                Some(fresh) => has_pane(old(self).panes(), pane) && fresh.number == old(self).next && *final(self) == split(
                    *old(self),
                    pane,
                    side,
                    fraction,
                ),
                None => !has_pane(old(self).panes(), pane) && *final(self) == *old(self),
            },
    {
        if !self.has(pane) {
            return None;
        }
        let ghost before = *self;
        let active: Option<ViewId> = self.active_in(pane);
        let fresh: PaneId = PaneId { number: self.next };
        let split: SplitId = SplitId { number: self.next + 1 };
        self.next = self.next + 2;
        divide(&mut self.layout.root, pane, active, side, fraction, split, fresh);
        proof {
            split_keeps_whole(before, pane, side, fraction);
        }
        Some(fresh)
    }
}

/// A screen with a pane divided is whole.
pub proof fn split_keeps_whole(before: Screen, pane: PaneId, side: Side, fraction: u32)
    requires
        before.whole(),
        before.next < u64::MAX - 1,
        has_pane(before.panes(), pane),
    ensures
        split(before, pane, side, fraction).whole(),
{
    let after = split(before, pane, side, fraction);
    let at = before.pane_at(pane);
    let active = active_of(before.panes(), pane);
    let fresh = PaneId { number: before.next };
    let names = before.panes();
    let stays = Leaf { id: pane, active };
    let comes = Leaf { id: fresh, active: None };
    let part = if side.is_tail_spec() { seq![stays, comes] } else { seq![comes, stays] };
    let node = Node::Split(
        Split {
            id: SplitId { number: (before.next + 1) as u64 },
            axis: side.axis_spec(),
            fraction,
            first: Box::new(Node::Leaf(if side.is_tail_spec() { stays } else { comes })),
            second: Box::new(Node::Leaf(if side.is_tail_spec() { comes } else { stays })),
        },
    );
    reveal_with_fuel(Node::leaves, 2);
    assert(node.leaves() =~= part);
    replaced_leaves(before.layout.root, pane, node);
    spliced_at(names, pane, part, at);
    let leaves = after.panes();
    assert(leaves =~= names.take(at) + part + names.skip(at + 1));
    let views = after.views@;
    let was = if side.is_tail_spec() { at } else { at + 1 };
    let new = if side.is_tail_spec() { at + 1 } else { at };
    assert(leaves[was] == stays && names[at] == stays);
    assert(leaves[new] == comes);
    // Where each pane stood before.
    assert forall|i: int| 0 <= i < leaves.len() && i != new implies #[trigger] leaves[i] == names[if i < at {
        i
    } else if i == was {
        at
    } else {
        i - 1
    }] by {}
    assert forall|other: PaneId| has_pane(names, other) implies has_pane(leaves, other) by {
        let i = choose|i: int| 0 <= i < names.len() && (#[trigger] names[i]).id == other;
        let to = if i < at { i } else if i == at { was } else { i + 1 };
        assert(leaves[to] == names[i]);
    }
    assert forall|i: int| 0 <= i < views.len() implies (#[trigger] views[i]).id.number < after.next && has_pane(
        leaves,
        views[i].pane,
    ) by {
        assert(has_pane(names, before.views@[i].pane));
    }
    assert forall|i: int| 0 <= i < leaves.len() implies (#[trigger] leaves[i]).id.number < after.next && shows_right(
        views,
        leaves[i],
    ) by {
        if i != new {
            let from = if i < at { i } else if i == was { at } else { i - 1 };
            assert(leaves[i] == names[from]);
        } else {
            assert forall|v: int| 0 <= v < views.len() implies (#[trigger] views[v]).pane != fresh by {
                let q = choose|q: int| 0 <= q < names.len() && (#[trigger] names[q]).id == views[v].pane;
                assert(names[q].id.number < before.next);
            }
        }
    }
    assert forall|i: int, j: int| 0 <= i < j < leaves.len() implies (#[trigger] leaves[i]).id != (#[trigger] leaves[j]).id by {
        let f = if i < at { i } else if i == was { at } else { i - 1 };
        let t = if j < at { j } else if j == was { at } else { j - 1 };
        if i != new && j != new {
            assert(leaves[i] == names[f] && leaves[j] == names[t]);
        } else if i == new {
            assert(leaves[j] == names[t] && names[t].id.number < before.next);
        } else {
            assert(leaves[i] == names[f] && names[f].id.number < before.next);
        }
    }
}

/// Tabs that stand where these stand, whatever they show.
pub open spec fn same_places(views: Seq<Tab>, others: Seq<Tab>) -> bool {
    &&& views.len() == others.len()
    &&& forall|i: int|
        0 <= i < views.len() ==> (#[trigger] views[i]).id == others[i].id && views[i].pane == others[i].pane
}

/// A screen stays whole when only what its tabs show has changed.
pub proof fn showing_other_things_keeps_whole(before: Screen, after: Screen)
    requires
        before.whole(),
        same_places(before.views@, after.views@),
        after.layout == before.layout,
        after.focused == before.focused,
        after.next == before.next,
    ensures
        after.whole(),
{
    let old_views = before.views@;
    let views = after.views@;
    let leaves = before.panes();
    assert forall|i: int| 0 <= i < views.len() implies (#[trigger] views[i]).id.number < after.next && has_pane(
        leaves,
        views[i].pane,
    ) by {
        assert(old_views[i].id == views[i].id);
    }
    assert forall|i: int, j: int| 0 <= i < j < views.len() implies (#[trigger] views[i]).id != (#[trigger] views[j]).id by {
        assert(old_views[i].id == views[i].id && old_views[j].id == views[j].id);
    }
    assert forall|i: int| 0 <= i < leaves.len() implies (#[trigger] leaves[i]).id.number < after.next && shows_right(
        views,
        leaves[i],
    ) by {
        assert(shows_right(old_views, leaves[i]));
        match leaves[i].active {
            Some(active) => {
                let v = choose|v: int|
                    0 <= v < old_views.len() && (#[trigger] old_views[v]).id == active && old_views[v].pane == leaves[i].id;
                assert(views[v].id == active);
            },
            None => {
                assert forall|v: int| 0 <= v < views.len() implies (#[trigger] views[v]).pane != leaves[i].id by {
                    assert(old_views[v].pane == views[v].pane);
                }
            },
        }
    }
}

/// Showing something else in a tab moves no tab.
pub proof fn with_kind_keeps_places(views: Seq<Tab>, id: ViewId, kind: ViewKind)
    ensures
        same_places(views, with_kind(views, id, kind)),
        kind_in(views, id) is Some ==> kind_in(with_kind(views, id, kind), id) == Some(kind),
        forall|other: ViewId|
            other != id ==> #[trigger] kind_in(with_kind(views, id, kind), other) == kind_in(views, other),
{
    let after = with_kind(views, id, kind);
    let at = view_place(views, id);
    view_place_is_first(views, id);
    assert forall|i: int| 0 <= i < views.len() implies (#[trigger] views[i]).id == after[i].id && views[i].pane
        == after[i].pane by {}
    if at < views.len() {
        assert forall|j: int| 0 <= j < at implies (#[trigger] after[j]).id != id by {
            assert(views[j].id != id);
        }
        view_place_is(after, id, at);
    }
    assert forall|other: ViewId| other != id implies #[trigger] kind_in(after, other) == kind_in(views, other) by {
        view_place_is_first(views, other);
        let place = view_place(views, other);
        assert forall|j: int| 0 <= j < place implies (#[trigger] after[j]).id != other by {
            assert(views[j].id != other);
        }
        view_place_is(after, other, place);
    }
}

/// Whatever a tab shows, the screen stays whole.
pub proof fn any_kind_keeps_whole(before: Screen, id: ViewId)
    ensures
        forall|kind: ViewKind| same_places(before.views@, #[trigger] with_kind(before.views@, id, kind)),
        before.whole() ==> forall|after: Screen|
            after == (Screen { views: after.views, ..before }) && same_places(before.views@, after.views@)
                ==> #[trigger] after.whole(),
{
    assert forall|kind: ViewKind| same_places(before.views@, #[trigger] with_kind(before.views@, id, kind)) by {
        with_kind_keeps_places(before.views@, id, kind);
    }
    if before.whole() {
        assert forall|after: Screen|
            after == (Screen { views: after.views, ..before }) && same_places(
                before.views@,
                after.views@,
            ) implies #[trigger] after.whole() by {
            showing_other_things_keeps_whole(before, after);
        }
    }
}

/// A list that is shown anew is shown as it was last told.
pub proof fn with_listing_is_told(views: Seq<Tab>, id: ViewId, listing: ListingState)
    ensures
        same_places(views, with_listing(views, id, listing)),
        listing_in(views, id) is Some ==> listing_in(with_listing(views, id, listing), id) == Some(listing),
        forall|other: ListingState|
            #[trigger] with_listing(with_listing(views, id, listing), id, other) == with_listing(views, id, other),
        forall|other: ViewId|
            other != id ==> #[trigger] kind_in(with_listing(views, id, listing), other) == kind_in(views, other),
{
    if let Some(kind) = kind_in(views, id) {
        let told = kind.with_listing(listing);
        with_kind_keeps_places(views, id, told);
        view_place_is_first(views, id);
        let once = with_kind(views, id, told);
        let at = view_place(views, id);
        assert forall|j: int| 0 <= j < at implies (#[trigger] once[j]).id != id by {
            assert(views[j].id != id);
        }
        view_place_is(once, id, at);
        assert forall|other: ListingState| #[trigger] with_listing(once, id, other) == with_listing(views, id, other) by {
            assert(told.with_listing(other) == kind.with_listing(other));
            assert(with_listing(once, id, other) =~= with_listing(views, id, other));
        }
    }
}

/// The panes of a tree of which one, with a name of its own, shows this.
proof fn showing_leaves(root: Node, pane: PaneId, active: Option<ViewId>, at: int)
    requires
        0 <= at < root.leaves().len(),
        root.leaves()[at].id == pane,
        forall|i: int| 0 <= i < root.leaves().len() && i != at ==> (#[trigger] root.leaves()[i]).id != pane,
    ensures
        showing(root, pane, active).leaves() == root.leaves().update(at, Leaf { id: pane, active }),
{
    let leaves = root.leaves();
    let leaf = Leaf { id: pane, active };
    replaced_leaves(root, pane, Node::Leaf(leaf));
    spliced_at(leaves, pane, seq![leaf], at);
    assert(leaves.take(at) + seq![leaf] + leaves.skip(at + 1) =~= leaves.update(at, leaf));
}

/// A screen stays whole when a tab moves from one pane into another.
proof fn moving_keeps_whole(before: Screen, after: Screen, id: ViewId, at: int, to: PaneId)
    requires
        before.whole(),
        0 <= at < before.views@.len(),
        before.views@[at].id == id,
        before.views@[at].pane != to,
        has_pane(before.panes(), to),
        after.views@ == before.views@.update(at, Tab { pane: to, ..before.views@[at] }),
        after.next == before.next,
        after.focused == before.focused,
        after.layout.root == showing(
            left(before.layout.root, after.views@, before.views@[at].pane, id, at),
            to,
            Some(id),
        ),
    ensures
        after.whole(),
{
    let old_views = before.views@;
    let views = after.views@;
    let from = old_views[at].pane;
    let names = before.panes();
    assert(has_pane(names, from));
    let p = before.pane_at(from);
    let q = before.pane_at(to);
    let middle = left(before.layout.root, views, from, id, at);
    let between = middle.leaves();
    let shown = active_of(names, from) == Some(id);
    let next = beside(views, from, at);
    if shown {
        assert(between == names.update(p, Leaf { id: from, active: next }));
    }
    assert forall|i: int| 0 <= i < between.len() && i != q implies (#[trigger] between[i]).id != to by {
        assert(between[i].id == names[i].id);
    }
    showing_leaves(middle, to, Some(id), q);
    let leaves = after.panes();
    assert(leaves == between.update(q, Leaf { id: to, active: Some(id) }));
    beside_is_right(views, from, at);
    assert forall|i: int| 0 <= i < leaves.len() implies (#[trigger] leaves[i]).id == names[i].id by {}
    assert forall|other: PaneId| has_pane(names, other) implies has_pane(leaves, other) by {
        let i = choose|i: int| 0 <= i < names.len() && (#[trigger] names[i]).id == other;
        assert(leaves[i].id == other);
    }
    assert forall|i: int| 0 <= i < views.len() implies (#[trigger] views[i]).id.number < after.next && has_pane(
        leaves,
        views[i].pane,
    ) by {
        assert(old_views[i].id == views[i].id);
        assert(has_pane(names, old_views[i].pane));
    }
    assert forall|i: int, j: int| 0 <= i < j < views.len() implies (#[trigger] views[i]).id != (#[trigger] views[j]).id by {
        assert(old_views[i].id == views[i].id && old_views[j].id == views[j].id);
    }
    assert forall|i: int| 0 <= i < leaves.len() implies (#[trigger] leaves[i]).id.number < after.next && shows_right(
        views,
        leaves[i],
    ) by {
        assert(names[i].id.number < before.next && shows_right(old_views, names[i]));
        if i == q {
            assert(views[at].id == id && views[at].pane == to);
        } else if !(shown && i == p) {
            assert(leaves[i] == names[i]);
            match names[i].active {
                Some(active) => {
                    let v = choose|v: int|
                        0 <= v < old_views.len() && (#[trigger] old_views[v]).id == active && old_views[v].pane == names[i].id;
                    if v == at {
                        assert(i == p);
                        assert(active == id);
                    }
                    assert(views[v] == old_views[v]);
                },
                None => {
                    assert forall|v: int| 0 <= v < views.len() implies (#[trigger] views[v]).pane != names[i].id by {
                        if v != at {
                            assert(views[v] == old_views[v]);
                        } else {
                            assert(names[q].id == to);
                        }
                    }
                },
            }
        }
    }
    assert forall|i: int, j: int| 0 <= i < j < leaves.len() implies (#[trigger] leaves[i]).id != (#[trigger] leaves[j]).id by {
        assert(names[i].id != names[j].id);
    }
}

/// The tree once a tab has left a pane: if the pane showed it, it shows the one
/// beside it.
pub open spec fn left(root: Node, views: Seq<Tab>, pane: PaneId, id: ViewId, at: int) -> Node {
    if active_of(root.leaves(), pane) == Some(id) { showing(root, pane, beside(views, pane, at)) } else { root }
}

/// A pane that was made to show a tab shows it, and no pane is lost by it.
pub proof fn showing_is_shown(root: Node, pane: PaneId, active: Option<ViewId>)
    ensures
        has_pane(root.leaves(), pane) ==> active_of(showing(root, pane, active).leaves(), pane) == active,
        forall|other: PaneId| #[trigger]
            has_pane(showing(root, pane, active).leaves(), other) == has_pane(root.leaves(), other),
{
    let now = showing(root, pane, active).leaves();
    showing_place_by_place(root, pane, active);
    assert forall|other: PaneId| #[trigger] has_pane(now, other) == has_pane(root.leaves(), other) by {
        if has_pane(now, other) {
            let i = choose|i: int| 0 <= i < now.len() && (#[trigger] now[i]).id == other;
            assert(root.leaves()[i].id == other);
        }
        if has_pane(root.leaves(), other) {
            let i = choose|i: int| 0 <= i < root.leaves().len() && (#[trigger] root.leaves()[i]).id == other;
            assert(now[i].id == other);
        }
    }
    if has_pane(root.leaves(), pane) {
        assert(has_pane(now, pane));
        all_alike_is_told(now, pane, active);
    }
}

proof fn showing_place_by_place(root: Node, pane: PaneId, active: Option<ViewId>)
    ensures
        showing(root, pane, active).leaves().len() == root.leaves().len(),
        forall|i: int|
            #![trigger showing(root, pane, active).leaves()[i]]
            #![trigger root.leaves()[i]]
            0 <= i < root.leaves().len() ==> {
                &&& showing(root, pane, active).leaves()[i].id == root.leaves()[i].id
                &&& root.leaves()[i].id == pane ==> showing(root, pane, active).leaves()[i].active == active
            },
    decreases root,
{
    match root {
        Node::Leaf(leaf) => {
            assert(root.leaves()[0] == leaf);
        },
        Node::Split(split) => {
            showing_place_by_place(*split.first, pane, active);
            showing_place_by_place(*split.second, pane, active);
            let front = split.first.leaves();
            assert(showing(root, pane, active).leaves() == showing(*split.first, pane, active).leaves() + showing(
                *split.second,
                pane,
                active,
            ).leaves());
            assert(root.leaves() == front + split.second.leaves());
        },
    }
}

proof fn all_alike_is_told(leaves: Seq<Leaf>, pane: PaneId, active: Option<ViewId>)
    requires
        has_pane(leaves, pane),
        forall|i: int| 0 <= i < leaves.len() && (#[trigger] leaves[i]).id == pane ==> leaves[i].active == active,
    ensures
        active_of(leaves, pane) == active,
    decreases leaves.len(),
{
    if leaves[0].id != pane {
        let at = choose|i: int| 0 <= i < leaves.len() && (#[trigger] leaves[i]).id == pane;
        let rest = leaves.skip(1);
        assert(rest[at - 1].id == pane);
        assert forall|i: int| 0 <= i < rest.len() && (#[trigger] rest[i]).id == pane implies rest[i].active == active by {
            assert(rest[i] == leaves[i + 1]);
        }
        all_alike_is_told(rest, pane, active);
    }
}

/// The tabs, all in one pane.
pub open spec fn gathered(views: Seq<Tab>, pane: PaneId) -> Seq<Tab> {
    views.map_values(|tab: Tab| Tab { pane, ..tab })
}

impl Screen {
    /// Moves a tab into a pane, which shows it. Nothing happens where the tab or
    /// the pane is not there, or the tab is in the pane already.
    pub fn move_to(&mut self, id: ViewId, pane: PaneId)
        requires
            old(self).whole(),
        ensures
            final(self).whole(),
            moved(*old(self), *final(self), id, pane),
    {
        let at: usize = self.place(id);
        proof {
            view_place_is_first(self.views@, id);
        }
        if at >= self.views.len() || !self.has(pane) {
            return;
        }
        let from: PaneId = self.views[at].pane;
        if from == pane {
            return;
        }
        let ghost before = *self;
        let shown: bool = match self.active_in(from) {
            Some(active) => active == id,
            None => false,
        };
        self.views[at].pane = pane;
        if shown {
            let active: Option<ViewId> = self.beside_in(from, at);
            show_in(&mut self.layout.root, from, active);
        }
        show_in(&mut self.layout.root, pane, Some(id));
        proof {
            moving_keeps_whole(before, *self, id, at as int, pane);
        }
    }

    /// Brings all panes together into the one at hand, which goes on showing what
    /// it showed, or else the first tab there is.
    pub fn collapse(&mut self)
        requires
            old(self).whole(),
        ensures
            final(self).whole(),
            collapsed(*old(self), *final(self)),
    {
        let ghost before = *self;
        let pane: PaneId = self.focused;
        let ghost at = before.pane_at(pane);
        let active: Option<ViewId> = match self.active_in(pane) {
            Some(active) => Some(active),
            None => if self.views.len() > 0 { Some(self.views[0].id) } else { None },
        };
        let mut i: usize = 0;
        while i < self.views.len()
            invariant
                i <= self.views@.len(),
                self.views@.len() == before.views@.len(),
                *self == (Screen { views: self.views, ..before }),
                forall|j: int| 0 <= j < i ==> #[trigger] self.views@[j] == (Tab { pane, ..before.views@[j] }),
                forall|j: int| i <= j < self.views@.len() ==> #[trigger] self.views@[j] == before.views@[j],
            decreases self.views@.len() - i,
        {
            self.views[i].pane = pane;
            i += 1;
        }
        self.layout = Layout { root: Node::Leaf(Leaf { id: pane, active }) };
        proof {
            let views = self.views@;
            let leaves = self.panes();
            assert(views =~= gathered(before.views@, pane));
            assert(leaves =~= seq![Leaf { id: pane, active }]);
            assert(leaves[0].id == pane);
            assert(before.panes()[at].id.number < before.next && shows_right(before.views@, before.panes()[at]));
            assert forall|j: int| 0 <= j < views.len() implies (#[trigger] views[j]).id.number < self.next && has_pane(
                leaves,
                views[j].pane,
            ) by {
                assert(before.views@[j].id == views[j].id);
            }
            assert forall|j: int, k: int| 0 <= j < k < views.len() implies (#[trigger] views[j]).id != (#[trigger] views[k]).id by {
                assert(before.views@[j].id != before.views@[k].id);
            }
            match active_of(before.panes(), pane) {
                Some(shown) => {
                    let v = choose|v: int|
                        0 <= v < before.views@.len() && (#[trigger] before.views@[v]).id == shown && before.views@[v].pane
                            == pane;
                    assert(views[v].id == shown && views[v].pane == pane);
                },
                None => {
                    if views.len() > 0 {
                        assert(views[0].pane == pane);
                    }
                },
            }
            assert(shows_right(views, leaves[0]));
        }
    }

    /// The tabs of a pane, in order.
    pub fn views_in(&self, pane: PaneId) -> (tabs: Vec<&Tab>)
        ensures
            tabs@.map_values(|tab: &Tab| *tab) == views_of(self.views@, pane),
    {
        let ghost all = self.views@;
        let mut tabs: Vec<&Tab> = Vec::new();
        let mut i: usize = 0;
        assert(tabs@.map_values(|tab: &Tab| *tab) =~= views_of(all.take(0), pane));
        while i < self.views.len()
            invariant
                i <= all.len(),
                all == self.views@,
                tabs@.map_values(|tab: &Tab| *tab) == views_of(all.take(i as int), pane),
            decreases all.len() - i,
        {
            assert(all.take(i + 1).drop_last() =~= all.take(i as int));
            if self.views[i].pane == pane {
                let ghost before = tabs@;
                tabs.push(&self.views[i]);
                assert(tabs@.map_values(|tab: &Tab| *tab) =~= before.map_values(|tab: &Tab| *tab).push(all[i as int]));
            }
            i += 1;
        }
        assert(all.take(all.len() as int) =~= all);
        tabs
    }

    /// The pane a tab stands in; for one that is not there, the pane at hand.
    pub fn pane_of(&self, id: ViewId) -> (pane: PaneId)
        ensures
            pane == pane_in(*self, id),
    {
        let at: usize = self.place(id);
        if at < self.views.len() { self.views[at].pane } else { self.focused }
    }
}

/// The pane a tab stands in; for one that is not there, the pane at hand.
pub open spec fn pane_in(screen: Screen, id: ViewId) -> PaneId {
    let at = view_place(screen.views@, id);
    if 0 <= at < screen.views@.len() { screen.views@[at].pane } else { screen.focused }
}

// -- What a change of the screen comes to --

/// A tab that is turned to is shown in its pane, the pane is at hand, and no tab moves.
pub proof fn what_is_turned_to_is_shown(before: Screen, id: ViewId, at: int)
    requires
        before.whole(),
        0 <= at < before.views@.len(),
        before.views@[at].id == id,
    ensures
        ({
            let after = turned(before, id);
            &&& after.focused == before.views@[at].pane
            &&& active_of(after.panes(), before.views@[at].pane) == Some(id)
            &&& after.views == before.views
            &&& after.panes().len() == before.panes().len()
            &&& forall|i: int|
                0 <= i < before.panes().len() ==> {
                    &&& (#[trigger] after.panes()[i]).id == before.panes()[i].id
                    &&& before.panes()[i].id != before.views@[at].pane ==> after.panes()[i] == before.panes()[i]
                }
        }),
{
    view_place_is_first(before.views@, id);
    let place = view_place(before.views@, id);
    if place < at {
        assert(before.views@[place].id != before.views@[at].id);
    } else if place > at {
        assert(before.views@[at].id != id);
    }
    let pane = before.views@[at].pane;
    assert(has_pane(before.panes(), pane));
    let spot = before.pane_at(pane);
    showing_is_shown(before.layout.root, pane, Some(id));
}

/// A tab is opened in the pane that was asked for, or in the one at hand where there is no
/// such pane; it is shown there, and stands behind the tabs that were there.
pub proof fn what_is_opened_is_shown(before: Screen, after: Screen, pane: PaneId, kind: ViewKind)
    requires
        before.whole(),
        opened(before, after, pane, kind),
    ensures
        after.views@.len() == before.views@.len() + 1,
        after.views@.drop_last() == before.views@,
        after.views@.last().kind == kind,
        after.views@.last().id.number == before.next,
        after.focused == after.views@.last().pane,
        has_pane(before.panes(), pane) ==> after.focused == pane,
        !has_pane(before.panes(), pane) ==> after.focused == before.focused,
        active_of(after.panes(), after.focused) == Some(after.views@.last().id),
        after.panes().len() == before.panes().len(),
{
    let target = if has_pane(before.panes(), pane) { pane } else { before.focused };
    assert(after.views@.drop_last() =~= before.views@);
    let spot = before.pane_at(target);
    showing_is_shown(before.layout.root, target, Some(ViewId { number: before.next }));
}

/// A tab that is closed is gone, and the others keep their order and their panes. Where it
/// was shown, the one before it in its pane is shown, or the one behind where none was
/// before.
pub proof fn what_is_closed_is_gone(before: Screen, after: Screen, id: ViewId, tab: Tab, at: int)
    requires
        before.whole(),
        closed_at(before, after, id, tab),
        0 <= at < before.views@.len(),
        before.views@[at].id == id,
    ensures
        tab == before.views@[at],
        after.views@.len() == before.views@.len() - 1,
        forall|i: int| 0 <= i < after.views@.len() ==> (#[trigger] after.views@[i]).id != id,
        forall|i: int| 0 <= i < at ==> #[trigger] after.views@[i] == before.views@[i],
        forall|i: int| at <= i < after.views@.len() ==> #[trigger] after.views@[i] == before.views@[i + 1],
        after.focused == before.focused,
        active_of(before.panes(), tab.pane) != Some(id) ==> after.layout == before.layout,
        active_of(before.panes(), tab.pane) == Some(id) ==> {
            let shown = active_of(after.panes(), tab.pane);
            &&& forall|i: int|
                0 <= i < at && (#[trigger] before.views@[i]).pane == tab.pane && (forall|j: int|
                    i < j < at ==> (#[trigger] before.views@[j]).pane != tab.pane) ==> shown == Some(before.views@[i].id)
            &&& (forall|i: int| 0 <= i < at ==> (#[trigger] before.views@[i]).pane != tab.pane) ==> {
                &&& forall|i: int|
                    at < i < before.views@.len() && (#[trigger] before.views@[i]).pane == tab.pane && (forall|j: int|
                        at < j < i ==> (#[trigger] before.views@[j]).pane != tab.pane) ==> shown == Some(
                        before.views@[i].id,
                    )
                &&& (forall|i: int| at < i < before.views@.len() ==> (#[trigger] before.views@[i]).pane != tab.pane)
                    ==> shown is None
            }
        },
{
    let views = before.views@;
    view_place_is_first(views, id);
    let place = view_place(views, id);
    if place < at {
        assert(views[place].id != views[at].id);
    } else if place > at {
        assert(views[at].id != id);
    }
    assert forall|i: int| 0 <= i < after.views@.len() implies (#[trigger] after.views@[i]).id != id by {
        if i < at {
            assert(views[i].id != views[at].id);
        } else {
            assert(views[at].id != views[i + 1].id);
        }
    }
    if active_of(before.panes(), tab.pane) == Some(id) {
        assert(has_pane(before.panes(), tab.pane));
        showing_is_shown(before.layout.root, tab.pane, beside(after.views@, tab.pane, at));
        let front = after.views@.take(at);
        let back = after.views@.skip(at);
        assert forall|i: int|
            0 <= i < at && (#[trigger] views[i]).pane == tab.pane && (forall|j: int|
                i < j < at ==> (#[trigger] views[j]).pane != tab.pane) implies active_of(after.panes(), tab.pane) == Some(
            views[i].id,
        ) by {
            assert(front[i] == views[i]);
            assert forall|j: int| i < j < front.len() implies (#[trigger] front[j]).pane != tab.pane by {
                assert(front[j] == views[j]);
            }
            the_last_is_taken(front, tab.pane, i);
        }
        if forall|i: int| 0 <= i < at ==> (#[trigger] views[i]).pane != tab.pane {
            assert forall|j: int| 0 <= j < front.len() implies (#[trigger] front[j]).pane != tab.pane by {
                assert(front[j] == views[j]);
            }
            none_is_taken(front, tab.pane);
            assert forall|i: int|
                at < i < views.len() && (#[trigger] views[i]).pane == tab.pane && (forall|j: int|
                    at < j < i ==> (#[trigger] views[j]).pane != tab.pane) implies active_of(after.panes(), tab.pane)
                == Some(views[i].id) by {
                assert(back[i - at - 1] == views[i]);
                assert forall|j: int| 0 <= j < i - at - 1 implies (#[trigger] back[j]).pane != tab.pane by {
                    assert(back[j] == views[j + at + 1]);
                }
                the_first_is_taken(back, tab.pane, i - at - 1);
            }
            if forall|i: int| at < i < views.len() ==> (#[trigger] views[i]).pane != tab.pane {
                assert forall|j: int| 0 <= j < back.len() implies (#[trigger] back[j]).pane != tab.pane by {
                    assert(back[j] == views[j + at + 1]);
                }
                none_is_taken(back, tab.pane);
            }
        }
    }
}

/// The last tab of a pane.
proof fn the_last_is_taken(views: Seq<Tab>, pane: PaneId, at: int)
    requires
        0 <= at < views.len(),
        views[at].pane == pane,
        forall|j: int| at < j < views.len() ==> (#[trigger] views[j]).pane != pane,
    ensures
        last_in(views, pane) == Some(views[at].id),
    decreases views.len(),
{
    if at < views.len() - 1 {
        assert(views[views.len() - 1].pane != pane);
        assert forall|j: int| at < j < views.drop_last().len() implies (#[trigger] views.drop_last()[j]).pane != pane by {
            assert(views.drop_last()[j] == views[j]);
        }
        the_last_is_taken(views.drop_last(), pane, at);
    }
}

/// The first tab of a pane.
proof fn the_first_is_taken(views: Seq<Tab>, pane: PaneId, at: int)
    requires
        0 <= at < views.len(),
        views[at].pane == pane,
        forall|j: int| 0 <= j < at ==> (#[trigger] views[j]).pane != pane,
    ensures
        first_in(views, pane) == Some(views[at].id),
    decreases views.len(),
{
    if at > 0 {
        assert(views[0].pane != pane);
        assert forall|j: int| 0 <= j < at - 1 implies (#[trigger] views.skip(1)[j]).pane != pane by {
            assert(views.skip(1)[j] == views[j + 1]);
        }
        assert(views.skip(1)[at - 1] == views[at]);
        the_first_is_taken(views.skip(1), pane, at - 1);
    }
}

/// A pane without tabs has no first and no last.
proof fn none_is_taken(views: Seq<Tab>, pane: PaneId)
    requires
        forall|j: int| 0 <= j < views.len() ==> (#[trigger] views[j]).pane != pane,
    ensures
        last_in(views, pane) is None,
        first_in(views, pane) is None,
    decreases views.len(),
{
    if views.len() > 0 {
        assert(views[0].pane != pane && views[views.len() - 1].pane != pane);
        assert forall|j: int| 0 <= j < views.drop_last().len() implies (#[trigger] views.drop_last()[j]).pane != pane by {
            assert(views.drop_last()[j] == views[j]);
        }
        none_is_taken(views.drop_last(), pane);
        assert forall|j: int| 0 <= j < views.skip(1).len() implies (#[trigger] views.skip(1)[j]).pane != pane by {
            assert(views.skip(1)[j] == views[j + 1]);
        }
        none_is_taken(views.skip(1), pane);
    }
}

/// A tab that moves stands in the other pane and is shown there; nothing else about it
/// changes, and no other tab moves.
pub proof fn what_is_moved_is_shown_there(before: Screen, after: Screen, id: ViewId, pane: PaneId, at: int)
    requires
        before.whole(),
        moved(before, after, id, pane),
        0 <= at < before.views@.len(),
        before.views@[at].id == id,
        has_pane(before.panes(), pane),
    ensures
        after.views@.len() == before.views@.len(),
        after.views@[at] == (Tab { pane, ..before.views@[at] }),
        forall|i: int| 0 <= i < before.views@.len() && i != at ==> #[trigger] after.views@[i] == before.views@[i],
        before.views@[at].pane != pane ==> active_of(after.panes(), pane) == Some(id),
        before.views@[at].pane == pane ==> after == before,
{
    let views = before.views@;
    view_place_is_first(views, id);
    let place = view_place(views, id);
    if place < at {
        assert(views[place].id != views[at].id);
    } else if place > at {
        assert(views[at].id != id);
    }
    if views[at].pane != pane {
        let root = left(before.layout.root, after.views@, views[at].pane, id, at);
        showing_is_shown(before.layout.root, views[at].pane, beside(after.views@, views[at].pane, at));
        assert(has_pane(root.leaves(), pane));
        showing_is_shown(root, pane, Some(id));
    }
}

/// A pane that is divided keeps its tabs and what it shows; the new pane is bare and lies
/// on the side that was asked for, next to it; no other pane is touched.
pub proof fn a_new_pane_lies_on_its_side(before: Screen, pane: PaneId, side: Side, fraction: u32, at: int)
    requires
        before.whole(),
        before.next < u64::MAX - 1,
        0 <= at < before.panes().len(),
        before.panes()[at].id == pane,
    ensures
        ({
            let after = split(before, pane, side, fraction);
            let fresh = Leaf { id: PaneId { number: before.next }, active: None };
            &&& after.views == before.views
            &&& after.focused == before.focused
            &&& side is Right || side is Below ==> after.panes() == before.panes().insert(at + 1, fresh)
            &&& side is Left || side is Above ==> after.panes() == before.panes().insert(at, fresh)
        }),
{
    let spot = before.pane_at(pane);
    if spot != at {
        assert(before.panes()[at].id != pane);
    }
    let active = active_of(before.panes(), pane);
    let stays = Leaf { id: pane, active };
    let comes = Leaf { id: PaneId { number: before.next }, active: None };
    let part = if side.is_tail_spec() { seq![stays, comes] } else { seq![comes, stays] };
    let node = Node::Split(
        Split {
            id: SplitId { number: (before.next + 1) as u64 },
            axis: side.axis_spec(),
            fraction,
            first: Box::new(if side.is_tail_spec() { Node::Leaf(stays) } else { Node::Leaf(comes) }),
            second: Box::new(if side.is_tail_spec() { Node::Leaf(comes) } else { Node::Leaf(stays) }),
        },
    );
    assert(node.leaves() =~= part) by {
        reveal_with_fuel(Node::leaves, 3);
    }
    replaced_leaves(before.layout.root, pane, node);
    spliced_at(before.panes(), pane, part, at);
    let after = split(before, pane, side, fraction);
    assert(after.panes() == before.panes().take(at) + part + before.panes().skip(at + 1));
    assert(before.panes()[at] == stays);
    if side.is_tail_spec() {
        assert(before.panes().take(at) + part + before.panes().skip(at + 1) =~= before.panes().insert(at + 1, comes));
    } else {
        assert(before.panes().take(at) + part + before.panes().skip(at + 1) =~= before.panes().insert(at, comes));
    }
}

/// A division of a screen of one pane lies along the axis of its side, and takes the share
/// that was asked for.
pub proof fn a_division_lies_along_its_side(screen: Screen, pane: PaneId, active: Option<ViewId>, side: Side, fraction: u32)
    requires
        screen.layout.root == Node::Leaf(Leaf { id: pane, active }),
    ensures
        split(screen, pane, side, fraction).layout.root matches Node::Split(cut) && {
            &&& cut.fraction == fraction
            &&& cut.axis is Horizontal <==> side is Left || side is Right
            &&& cut.axis is Vertical <==> side is Above || side is Below
        },
{
}

/// To do away with the divisions leaves one pane, the one at hand, with all tabs in their
/// order; what it showed it still shows, and a pane that showed nothing shows the first tab.
pub proof fn all_tabs_come_together(before: Screen, after: Screen)
    requires
        collapsed(before, after),
    ensures
        after.panes().len() == 1,
        after.panes()[0].id == before.focused,
        after.focused == before.focused,
        after.views@.len() == before.views@.len(),
        forall|i: int|
            0 <= i < before.views@.len() ==> {
                &&& (#[trigger] after.views@[i]).pane == before.focused
                &&& after.views@[i].id == before.views@[i].id
                &&& after.views@[i].kind == before.views@[i].kind
            },
        active_of(before.panes(), before.focused) is Some ==> after.panes()[0].active == active_of(
            before.panes(),
            before.focused,
        ),
        active_of(before.panes(), before.focused) is None && before.views@.len() > 0 ==> after.panes()[0].active == Some(
            before.views@[0].id,
        ),
{
}

/// The tabs of a pane are those that stand in it, in their order.
pub proof fn the_tabs_of_a_pane(views: Seq<Tab>, tab: Tab, pane: PaneId)
    ensures
        views_of(Seq::empty(), pane).len() == 0,
        tab.pane == pane ==> views_of(views.push(tab), pane) == views_of(views, pane).push(tab),
        tab.pane != pane ==> views_of(views.push(tab), pane) == views_of(views, pane),
{
    assert(views.push(tab).drop_last() =~= views);
}

/// A tab stands where it stands, and one that is not there is looked for in the pane at
/// hand.
pub proof fn a_tab_stands_in_its_pane(screen: Screen, id: ViewId, at: int)
    requires
        0 <= at <= screen.views@.len(),
        forall|j: int| 0 <= j < at ==> (#[trigger] screen.views@[j]).id != id,
        at < screen.views@.len() ==> screen.views@[at].id == id,
    ensures
        at < screen.views@.len() ==> pane_in(screen, id) == screen.views@[at].pane && kind_in(screen.views@, id) == Some(
            screen.views@[at].kind,
        ),
        at == screen.views@.len() ==> pane_in(screen, id) == screen.focused && kind_in(screen.views@, id) is None,
{
    view_place_is(screen.views@, id, at);
}

/// A catalogue, a search and the downloaded list have a list; only the first two have rows
/// that are asked for when they are opened.
pub proof fn which_tabs_have_a_list(kind: ViewKind, listing: ListingState, children: Children)
    ensures
        kind.listing_spec() is Some <==> kind is Browse || kind is Search || kind is Downloaded,
        kind.children_spec() is Some <==> kind is Browse || kind is Search,
        kind.listing_spec() is Some ==> kind.with_listing(listing).listing_spec() == Some(listing),
        kind.with_listing(listing).children_spec() == kind.children_spec(),
        kind.children_spec() is Some ==> kind.with_children(children).children_spec() == Some(children),
        kind.with_children(children).listing_spec() == kind.listing_spec(),
{
}

/// To show another tab in a pane leaves the panes in their order.
pub proof fn showing_keeps_the_panes(root: Node, pane: PaneId, active: Option<ViewId>)
    ensures
        showing(root, pane, active).leaves().len() == root.leaves().len(),
        forall|i: int|
            0 <= i < root.leaves().len() ==> (#[trigger] showing(root, pane, active).leaves()[i]).id == root.leaves()[i].id,
{
    showing_place_by_place(root, pane, active);
}

/// A tab that moves leaves the panes in their order.
pub proof fn a_move_keeps_the_panes(before: Screen, after: Screen, id: ViewId, pane: PaneId)
    requires
        moved(before, after, id, pane),
    ensures
        after.panes().len() == before.panes().len(),
        forall|i: int| 0 <= i < before.panes().len() ==> (#[trigger] after.panes()[i]).id == before.panes()[i].id,
{
    let at = view_place(before.views@, id);
    if 0 <= at < before.views@.len() && has_pane(before.panes(), pane) && before.views@[at].pane != pane {
        let own = before.views@[at].pane;
        let next = beside(after.views@, own, at);
        let root = left(before.layout.root, after.views@, own, id, at);
        showing_keeps_the_panes(before.layout.root, own, next);
        showing_keeps_the_panes(root, pane, Some(id));
        assert forall|i: int| 0 <= i < before.panes().len() implies (#[trigger] after.panes()[i]).id == before.panes()[i].id by {
            assert(root.leaves()[i].id == before.layout.root.leaves()[i].id);
        }
    }
}

} // verus!
