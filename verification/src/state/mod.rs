//! All that the module remembers.

pub mod browse;
pub mod globe;
pub mod ids;
pub mod library;
pub mod listing;
pub mod overlay;
pub mod preview;
pub mod request;
pub mod screen;
pub mod search;
pub mod side;

use vstd::prelude::*;
use crate::calls::{self, Call};
use crate::keyed::{Keyed, Names};
use crate::message::NewTab;
use crate::number;
use crate::state::globe::{Highlight, Locate, Located, Outlined};
use crate::state::ids::{PaneId, ViewId};
use crate::state::library::LibraryState;
use crate::state::listing::{ListingState, Menu};
use crate::state::overlay::{Handle, Opening, OverlayState};
use crate::state::request::Latest;
use crate::state::screen::{Layout, Screen, Tab, ViewKind};
use crate::state::side::Side;
use crate::text;

verus! {

broadcast use vstd::string::group_string_axioms;

/// What the application was told when it was started.
pub struct Config {
    /// What the first tab shows: the search, unless another kind is named.
    pub initial_view: Option<String>,
}

/// The one menu that is open.
pub enum Open {
    /// A menu over the list of a tab.
    Listing(ViewId, Menu),
    /// The menu of a layer.
    Layer(String),
    /// The menu of new tabs of a pane.
    NewTabs(PaneId),
    /// The menu of a tab.
    Tab(ViewId),
}

impl Open {
    pub open spec fn same_spec(self, other: Open) -> bool {
        match (self, other) {
            (Open::Listing(view, menu), Open::Listing(other_view, other_menu)) => view == other_view && menu.key_spec()
                == other_menu.key_spec(),
            (Open::Layer(key), Open::Layer(other_key)) => key@ == other_key@,
            (Open::NewTabs(pane), Open::NewTabs(other_pane)) => pane == other_pane,
            (Open::Tab(view), Open::Tab(other_view)) => view == other_view,
            _ => false,
        }
    }

    pub fn same(&self, other: &Open) -> (yes: bool)
        ensures
            yes == self.same_spec(*other),
    {
        match (self, other) {
            (Open::Listing(view, menu), Open::Listing(other_view, other_menu)) => *view == *other_view && text::same(
                &menu.key(),
                &other_menu.key(),
            ),
            (Open::Layer(key), Open::Layer(other_key)) => text::same(key, other_key),
            (Open::NewTabs(pane), Open::NewTabs(other_pane)) => *pane == *other_pane,
            (Open::Tab(view), Open::Tab(other_view)) => *view == *other_view,
            _ => false,
        }
    }
}

/// What a listing was asked for.
pub enum Listing {
    /// The folder that a tab shows.
    Path(ViewId),
    /// A row that was opened in a tab.
    Children(ViewId, String),
    /// The files of a snapshot that is to be downloaded, and how many of them
    /// were named and queued.
    Snapshot { product: String, files: u32, queued: usize },
}

/// What a listing was asked for, in words.
pub ghost enum ListingView {
    Path(ViewId),
    Children(ViewId, Seq<char>),
    Snapshot { product: Seq<char>, files: u32, queued: usize },
}

impl View for Listing {
    type V = ListingView;

    open spec fn view(&self) -> ListingView {
        match *self {
            Listing::Path(view) => ListingView::Path(view),
            Listing::Children(view, key) => ListingView::Children(view, key@),
            Listing::Snapshot { product, files, queued } => ListingView::Snapshot { product: product@, files, queued },
        }
    }
}

/// What the questions for listings were asked for.
pub open spec fn listings_seen(listings: Map<Seq<char>, Listing>) -> Map<Seq<char>, ListingView> {
    listings.map_values(|listing: Listing| listing@)
}

/// The count of questions after one more; it starts anew at its end.
pub open spec fn one_more(asked: u64) -> u64 {
    if asked < u64::MAX { (asked + 1) as u64 } else { 0 }
}

/// What the buttons of a choice have to do.
#[derive(Clone, Copy, PartialEq, Eq, Structural, Debug)]
pub struct Batch {
    pub deletable: bool,
    pub fetchable: bool,
}

/// How fast downloads go: so many bytes in so many seconds.
#[derive(Clone, Copy, PartialEq, Eq, Structural, Debug)]
pub struct Speed {
    pub bytes: u64,
    pub seconds: i64,
}

/// How many bytes were here at a moment.
#[derive(Clone, Copy, PartialEq, Eq, Structural, Debug)]
pub struct Measured {
    pub at: i64,
    pub done: u64,
}

pub struct State {
    pub screen: Screen,
    /// What the first tab shows.
    pub start: NewTab,
    pub open: Option<Open>,
    pub highlight: Option<Highlight>,
    /// Something to say once.
    pub notice: Option<String>,
    /// What is wrong until it is not.
    pub error: Option<String>,
    pub library: LibraryState,
    /// `None` while nothing is measured.
    pub speed: Option<Speed>,
    pub measured: Option<Measured>,
    /// The snapshots that are to be outlined.
    pub outlines: Names,
    /// The outlines that are drawn.
    pub outlined: Vec<Outlined>,
    /// What the catalogue answered, by keys.
    pub located: Keyed<Located>,
    /// The layers, bottom to top.
    pub overlays: Vec<OverlayState>,
    /// The snapshots that are to be laid on the globe once the catalogue has
    /// found them.
    pub showing: Names,
    /// How many questions were asked.
    pub asked: u64,
    // The questions that have no answer yet, by their marks.
    pub listings: Keyed<Listing>,
    pub searches: Keyed<ViewId>,
    pub previews: Keyed<ViewId>,
    pub preview_imagery: Keyed<ViewId>,
    pub locates: Keyed<Locate>,
    pub imageries: Keyed<String>,
    pub opens: Keyed<Opening>,
    pub probe: Latest,
    pub layout_read: Latest,
    /// The memory that holds a layout while it is written.
    pub layout_writes: Keyed<Handle>,
    /// The mark of the layout that was written last.
    pub last_saved: u64,
    /// The requests that wait to be sent.
    pub calls: Vec<Call>,
}

/// The key of the row picked on the globe; empty when none is.
pub open spec fn picked_of(highlight: Option<Highlight>) -> Seq<char> {
    match highlight {
        Some(highlight) => if highlight.on_globe { highlight.key@ } else { Seq::empty() },
        None => Seq::empty(),
    }
}

/// The key of the row that a tab was walked to; empty when none is.
pub open spec fn target_of(highlight: Option<Highlight>, view: ViewId) -> Seq<char> {
    match highlight {
        Some(highlight) => if highlight.view == Some(view) { highlight.key@ } else { Seq::empty() },
        None => Seq::empty(),
    }
}

/// The highlight without what it says of the globe.
pub open spec fn unpicked(highlight: Option<Highlight>) -> Option<Highlight> {
    match highlight {
        Some(highlight) => if !highlight.on_globe {
            Some(highlight)
        } else if highlight.view is Some {
            Some(Highlight { on_globe: false, ..highlight })
        } else {
            None
        },
        None => None,
    }
}

/// The highlight without what it says of a tab.
pub open spec fn untargeted(highlight: Option<Highlight>, view: ViewId) -> Option<Highlight> {
    match highlight {
        Some(highlight) => if highlight.view != Some(view) {
            Some(highlight)
        } else if highlight.on_globe {
            Some(Highlight { view: None, ..highlight })
        } else {
            None
        },
        None => None,
    }
}

/// What a tab shows when its list is narrowed anew: the first page.
pub open spec fn refined(views: Seq<Tab>, view: ViewId) -> Seq<Tab> {
    match screen::listing_in(views, view) {
        Some(listing) => screen::with_listing(views, view, ListingState { page: 0, ..listing }),
        None => views,
    }
}

/// The list of a tab was narrowed anew: menus close, the first page comes up, and
/// the row it was walked to is left.
pub open spec fn narrowed_anew(before: State, after: State, view: ViewId) -> bool {
    &&& after.screen.views@ == refined(before.screen.views@, view)
    &&& after == (State {
        screen: Screen { views: after.screen.views, ..before.screen },
        open: None,
        highlight: untargeted(before.highlight, view),
        ..before
    })
}

impl State {
    /// The requests that wait.
    pub open spec fn said(self) -> Seq<calls::CallView> {
        calls::said(self.calls@)
    }

    /// One empty pane and nothing known. An unknown kind of first tab is refused
    /// by its name.
    pub fn new(config: Config) -> (state: Result<State, String>)
        ensures
            match state {
                Ok(state) => {
                    &&& match config.initial_view {
                        Some(name) => state.start.key_spec() == name@,
                        None => state.start == NewTab::Search,
                    }
                    &&& state.screen.whole()
                    &&& state.screen.views@.len() == 0
                    &&& state.screen.layout.root == screen::Node::Leaf(
                        screen::Leaf { id: state.screen.focused, active: None },
                    )
                    &&& state.screen.next == 1
                    &&& state.open is None
                    &&& state.highlight is None
                    &&& state.notice is None
                    &&& state.error is None
                    &&& state.library.entries@.len() == 0
                    &&& state.outlines@ == Set::<Seq<char>>::empty()
                    &&& state.outlined@.len() == 0
                    &&& state.located@ == Map::<Seq<char>, Located>::empty()
                    &&& state.overlays@.len() == 0
                    &&& state.showing@ == Set::<Seq<char>>::empty()
                    &&& state.speed is None
                    &&& state.measured is None
                    &&& state.nothing_asked()
                    &&& state.last_saved == 0
                    &&& state.said().len() == 0
                },
                Err(name) => {
                    &&& config.initial_view == Some(name)
                    &&& forall|kind: NewTab| #[trigger] kind.key_spec() != name@
                },
            },
    {
        let start: NewTab = match config.initial_view {
            None => NewTab::Search,
            Some(name) => match NewTab::from_key(&name) {
                Some(kind) => kind,
                None => {
                    return Err(name);
                },
            },
        };
        Ok(
            State {
                screen: Screen::new(),
                start,
                open: None,
                highlight: None,
                notice: None,
                error: None,
                library: LibraryState::new(),
                speed: None,
                measured: None,
                outlines: Names::new(),
                outlined: Vec::new(),
                located: Keyed::new(),
                overlays: Vec::new(),
                showing: Names::new(),
                asked: 0,
                listings: Keyed::new(),
                searches: Keyed::new(),
                previews: Keyed::new(),
                preview_imagery: Keyed::new(),
                locates: Keyed::new(),
                imageries: Keyed::new(),
                opens: Keyed::new(),
                probe: Latest::new(),
                layout_read: Latest::new(),
                layout_writes: Keyed::new(),
                last_saved: 0,
                calls: Vec::new(),
            },
        )
    }

    /// No question was asked yet.
    pub open spec fn nothing_asked(self) -> bool {
        &&& self.asked == 0
        &&& self.listings@ == Map::<Seq<char>, Listing>::empty()
        &&& self.searches@ == Map::<Seq<char>, ViewId>::empty()
        &&& self.previews@ == Map::<Seq<char>, ViewId>::empty()
        &&& self.preview_imagery@ == Map::<Seq<char>, ViewId>::empty()
        &&& self.locates@ == Map::<Seq<char>, Locate>::empty()
        &&& self.imageries@ == Map::<Seq<char>, String>::empty()
        &&& self.opens@ == Map::<Seq<char>, Opening>::empty()
        &&& self.probe.waiting() is None
        &&& self.layout_read.waiting() is None
        &&& self.layout_writes@ == Map::<Seq<char>, Handle>::empty()
    }

    /// The mark of the next question.
    pub open spec fn next_mark(self) -> Seq<char> {
        number::written(self.asked as nat)
    }

    /// A mark for a question.
    pub fn mark(&mut self) -> (mark: String)
        ensures
            mark@ == old(self).next_mark(),
            *final(self) == (State { asked: one_more(old(self).asked), ..*old(self) }),
    {
        let mark: String = number::decimal(self.asked as u128);
        self.asked = self.asked.wrapping_add(1);
        mark
    }

    pub fn close_menus(&mut self)
        ensures
            *final(self) == (State { open: None, ..*old(self) }),
    {
        self.open = None;
    }

    /// Opens a menu in place of any other; closes it if it was open.
    pub fn toggle_open(&mut self, open: Open)
        ensures
            *final(self) == (State {
                open: if old(self).open matches Some(other) && other.same_spec(open) { None } else { Some(open) },
                ..*old(self)
            }),
    {
        let again: bool = match &self.open {
            Some(other) => other.same(&open),
            None => false,
        };
        self.open = if again { None } else { Some(open) };
    }

    /// The key of the row picked on the globe.
    pub fn picked_key(&self) -> (key: &str)
        ensures
            key@ == picked_of(self.highlight),
    {
        proof {
            reveal_strlit("");
            assert(""@ =~= Seq::<char>::empty());
        }
        match &self.highlight {
            Some(highlight) => if highlight.on_globe { highlight.key.as_str() } else { "" },
            None => "",
        }
    }

    /// The key of the row that a tab was walked to.
    pub fn target_in(&self, view: ViewId) -> (key: &str)
        ensures
            key@ == target_of(self.highlight, view),
    {
        proof {
            reveal_strlit("");
            assert(""@ =~= Seq::<char>::empty());
        }
        match &self.highlight {
            Some(highlight) => {
                let here: bool = match highlight.view {
                    Some(walked) => walked == view,
                    None => false,
                };
                if here { highlight.key.as_str() } else { "" }
            },
            None => "",
        }
    }

    /// Takes back what is picked on the globe, and only that; says whether
    /// anything was.
    pub fn deselect(&mut self) -> (was: bool)
        ensures
            was == (old(self).highlight matches Some(highlight) && highlight.on_globe),
            *final(self) == (State { highlight: unpicked(old(self).highlight), ..*old(self) }),
    {
        let (was, walked): (bool, bool) = match &self.highlight {
            Some(highlight) => (highlight.on_globe, highlight.view.is_some()),
            None => (false, false),
        };
        if was {
            if walked {
                match &mut self.highlight {
                    Some(highlight) => {
                        highlight.on_globe = false;
                    },
                    None => {},
                }
            } else {
                self.highlight = None;
            }
        }
        was
    }

    /// A tab has left the row it was walked to.
    pub fn drop_target_in(&mut self, view: ViewId)
        ensures
            *final(self) == (State { highlight: untargeted(old(self).highlight, view), ..*old(self) }),
    {
        let (here, picked): (bool, bool) = match &self.highlight {
            Some(highlight) => (
                match highlight.view {
                    Some(walked) => walked == view,
                    None => false,
                },
                highlight.on_globe,
            ),
            None => (false, false),
        };
        if here {
            if picked {
                match &mut self.highlight {
                    Some(highlight) => {
                        highlight.view = None;
                    },
                    None => {},
                }
            } else {
                self.highlight = None;
            }
        }
    }

    /// The list of a tab is narrowed anew: menus close, the first page comes up,
    /// and the row it was walked to is left.
    pub fn refine(&mut self, view: ViewId)
        ensures
            narrowed_anew(*old(self), *final(self), view),
            old(self).screen.whole() ==> final(self).screen.whole(),
    {
        let ghost before = self.screen;
        self.close_menus();
        match self.screen.listing_mut(view) {
            Some(listing) => {
                listing.page = 0;
            },
            None => {},
        }
        proof {
            if let Some(listing) = screen::listing_in(before.views@, view) {
                screen::with_listing_is_told(before.views@, view, ListingState { page: 0, ..listing });
            }
            if before.whole() {
                screen::showing_other_things_keeps_whole(before, self.screen);
            }
        }
        self.drop_target_in(view);
    }

    // -- The screen --

    pub fn views(&self) -> (views: &Vec<Tab>)
        ensures
            *views == self.screen.views,
    {
        &self.screen.views
    }

    pub fn layout(&self) -> (layout: &Layout)
        ensures
            *layout == self.screen.layout,
    {
        &self.screen.layout
    }

    /// The pane at hand.
    pub fn focused(&self) -> (pane: PaneId)
        ensures
            pane == self.screen.focused,
    {
        self.screen.focused
    }

    pub fn get(&self, view: ViewId) -> (kind: Option<&ViewKind>)
        ensures
            match kind {
                Some(kind) => screen::kind_in(self.screen.views@, view) == Some(*kind),
                None => screen::kind_in(self.screen.views@, view) is None,
            },
    {
        self.screen.get(view)
    }

    pub fn get_mut(&mut self, view: ViewId) -> (kind: Option<&mut ViewKind>)
        ensures
            *final(self) == (State { screen: Screen { views: final(self).screen.views, ..old(self).screen }, ..*old(self) }),
            old(self).screen.whole() ==> final(self).screen.whole(),
            match kind {
                Some(kind) => screen::kind_in(old(self).screen.views@, view) == Some(*kind) && final(self).screen.views@
                    == screen::with_kind(old(self).screen.views@, view, *final(kind)),
                None => screen::kind_in(old(self).screen.views@, view) is None && *final(self) == *old(self),
            },
    {
        self.screen.get_mut(view)
    }

    pub fn listing_mut(&mut self, view: ViewId) -> (listing: Option<&mut ListingState>)
        ensures
            *final(self) == (State { screen: Screen { views: final(self).screen.views, ..old(self).screen }, ..*old(self) }),
            old(self).screen.whole() ==> final(self).screen.whole(),
            match listing {
                Some(listing) => screen::listing_in(old(self).screen.views@, view) == Some(*listing)
                    && final(self).screen.views@ == screen::with_listing(old(self).screen.views@, view, *final(listing)),
                None => screen::listing_in(old(self).screen.views@, view) is None && final(self).screen.views@
                    == old(self).screen.views@,
            },
    {
        self.screen.listing_mut(view)
    }

    /// Opens a tab in a pane and turns to it.
    pub fn open_in(&mut self, pane: PaneId, kind: ViewKind) -> (view: ViewId)
        requires
            old(self).screen.whole(),
            old(self).screen.next < u64::MAX,
        ensures
            final(self).screen.whole(),
            view.number == old(self).screen.next,
            *final(self) == (State { screen: final(self).screen, ..*old(self) }),
            screen::opened(old(self).screen, final(self).screen, pane, kind),
            screen::kind_in(final(self).screen.views@, view) == Some(kind),
            forall|other: ViewId|
                other != view ==> #[trigger] screen::kind_in(final(self).screen.views@, other) == screen::kind_in(
                    old(self).screen.views@,
                    other,
                ),
    {
        self.screen.open_in(pane, kind)
    }

    pub fn views_in(&self, pane: PaneId) -> (tabs: Vec<&Tab>)
        ensures
            tabs@.map_values(|tab: &Tab| *tab) == screen::views_of(self.screen.views@, pane),
    {
        self.screen.views_in(pane)
    }

    pub fn active_in(&self, pane: PaneId) -> (view: Option<ViewId>)
        ensures
            view == screen::active_of(self.screen.panes(), pane),
    {
        self.screen.active_in(pane)
    }

    /// Turns to a tab.
    pub fn focus(&mut self, view: ViewId)
        requires
            old(self).screen.whole(),
        ensures
            final(self).screen.whole(),
            *final(self) == (State { screen: final(self).screen, ..*old(self) }),
            final(self).screen == screen::turned(old(self).screen, view),
    {
        self.screen.focus(view)
    }

    /// Divides a pane: the new one stands on this side of it.
    pub fn split_pane(&mut self, pane: PaneId, side: Side, fraction: u32) -> (fresh: Option<PaneId>)
        requires
            old(self).screen.whole(),
            old(self).screen.next < u64::MAX - 1,
        ensures
            final(self).screen.whole(),
            *final(self) == (State { screen: final(self).screen, ..*old(self) }),
            match fresh {
                Some(fresh) => screen::has_pane(old(self).screen.panes(), pane) && fresh.number == old(self).screen.next
                    && final(self).screen == screen::split(old(self).screen, pane, side, fraction),
                None => !screen::has_pane(old(self).screen.panes(), pane) && final(self).screen == old(self).screen,
            },
    {
        self.screen.split_pane(pane, side, fraction)
    }
}

// -- Laws --

/// What is picked is the key that is lit on the globe, and what a tab was walked to is the
/// key that is lit in it.
pub proof fn what_is_lit_is_its_key(lit: Highlight, view: ViewId)
    ensures
        lit.on_globe ==> picked_of(Some(lit)) == lit.key@,
        !lit.on_globe ==> picked_of(Some(lit)).len() == 0,
        lit.view == Some(view) ==> target_of(Some(lit), view) == lit.key@,
        lit.view != Some(view) ==> target_of(Some(lit), view).len() == 0,
        picked_of(None).len() == 0,
        target_of(None, view).len() == 0,
{
}

/// To let go of what is picked leaves nothing picked, and leaves every tab where it was
/// walked to.
pub proof fn letting_go_of_the_pick(lit: Option<Highlight>, view: ViewId)
    ensures
        picked_of(unpicked(lit)).len() == 0,
        target_of(unpicked(lit), view) == target_of(lit, view),
{
}

/// To leave the row that a tab was walked to leaves the other tabs and the pick alone.
pub proof fn leaving_the_row_of_a_tab(lit: Option<Highlight>, view: ViewId, other: ViewId)
    ensures
        target_of(untargeted(lit, view), view).len() == 0,
        other != view ==> target_of(untargeted(lit, view), other) == target_of(lit, other),
        picked_of(untargeted(lit, view)) == picked_of(lit),
{
}

/// A list that is narrowed anew is shown from its first page, its tab is walked to nothing,
/// and the lists of the other tabs stay as they are.
pub proof fn a_narrowed_list_starts_anew(before: State, after: State, view: ViewId, was: ListingState)
    requires
        narrowed_anew(before, after, view),
        screen::listing_in(before.screen.views@, view) == Some(was),
    ensures
        screen::listing_in(after.screen.views@, view) == Some(ListingState { page: 0, ..was }),
        after.open is None,
        target_of(after.highlight, view).len() == 0,
        picked_of(after.highlight) == picked_of(before.highlight),
        after.calls == before.calls,
        forall|other: ViewId|
            other != view ==> #[trigger] screen::kind_in(after.screen.views@, other) == screen::kind_in(
                before.screen.views@,
                other,
            ),
{
    screen::with_listing_is_told(before.screen.views@, view, ListingState { page: 0, ..was });
}

/// Two menus are one where they hang on one thing: on one list with one key, on one layer,
/// on one pane or on one tab.
pub proof fn one_menu_hangs_on_one_thing(view: ViewId, other: ViewId, one: Menu, two: Menu, key: String, name: String, pane: PaneId, beside: PaneId)
    ensures
        Open::Listing(view, one).same_spec(Open::Listing(other, two)) == (view == other && one.key_spec() == two.key_spec()),
        Open::Layer(key).same_spec(Open::Layer(name)) == (key@ == name@),
        Open::NewTabs(pane).same_spec(Open::NewTabs(beside)) == (pane == beside),
        Open::Tab(view).same_spec(Open::Tab(other)) == (view == other),
        !Open::Tab(view).same_spec(Open::NewTabs(pane)),
        !Open::Layer(key).same_spec(Open::Tab(view)),
        !Open::Listing(view, one).same_spec(Open::Layer(key)),
{
}

/// Two questions in a row go by different marks.
pub proof fn marks_differ(asked: u64)
    ensures
        one_more(asked) != asked,
        number::written(one_more(asked) as nat) != number::written(asked as nat),
{
    number::written_reads_back(asked as nat);
    number::written_reads_back(one_more(asked) as nat);
}

} // verus!
