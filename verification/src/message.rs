//! What the markup says to the module: one message for every press and every
//! input.
//!
//! A message travels as the name of its method, what it carries and whom it
//! addresses. Whom it addresses travels apart: what an input field, an area or a
//! slider carries is put there by whoever draws it.

use vstd::prelude::*;
use crate::number;
use crate::state::ids::{self, PaneId, SplitId, ViewId};
use crate::state::listing::{self, Filter, Grouping, Menu, Sorting};
use crate::state::search::{Cloud, Mission, Period};
use crate::state::side::{Shift, Side};
use crate::text;

verus! {

broadcast use vstd::string::group_string_axioms;

/// What can be opened as a new tab.
#[derive(Clone, Copy, PartialEq, Eq, Structural, Debug)]
pub enum NewTab {
    Browse,
    Search,
    Downloaded,
    Globe,
    Shown,
    /// A tab that shows nothing yet.
    Empty,
}

impl NewTab {
    /// The key it travels by.
    pub open spec fn key_spec(self) -> Seq<char> {
        match self {
            NewTab::Browse => "browse"@,
            NewTab::Search => "search"@,
            NewTab::Downloaded => "downloaded"@,
            NewTab::Globe => "globe"@,
            NewTab::Shown => "shown"@,
            NewTab::Empty => "empty"@,
        }
    }

    /// What it is called on the screen.
    pub open spec fn label_spec(self) -> Seq<char> {
        match self {
            NewTab::Browse => "Сетевой каталог"@,
            NewTab::Search => "Поиск снимков"@,
            NewTab::Downloaded => "Скачанное"@,
            NewTab::Globe => "Глобус"@,
            NewTab::Shown => "На просмотре"@,
            NewTab::Empty => "Пустая вкладка"@,
        }
    }

    /// All of them, in the order in which they are offered.
    pub open spec fn all_spec() -> Seq<NewTab> {
        seq![NewTab::Browse, NewTab::Search, NewTab::Downloaded, NewTab::Globe, NewTab::Shown, NewTab::Empty]
    }

    pub fn key(self) -> (key: &'static str)
        ensures
            key@ == self.key_spec(),
    {
        match self {
            NewTab::Browse => "browse",
            NewTab::Search => "search",
            NewTab::Downloaded => "downloaded",
            NewTab::Globe => "globe",
            NewTab::Shown => "shown",
            NewTab::Empty => "empty",
        }
    }

    pub fn label(self) -> (label: &'static str)
        ensures
            label@ == self.label_spec(),
    {
        match self {
            NewTab::Browse => "Сетевой каталог",
            NewTab::Search => "Поиск снимков",
            NewTab::Downloaded => "Скачанное",
            NewTab::Globe => "Глобус",
            NewTab::Shown => "На просмотре",
            NewTab::Empty => "Пустая вкладка",
        }
    }

    pub fn all() -> (all: Vec<NewTab>)
        ensures
            all@ == NewTab::all_spec(),
    {
        let mut all: Vec<NewTab> = Vec::new();
        all.push(NewTab::Browse);
        all.push(NewTab::Search);
        all.push(NewTab::Downloaded);
        all.push(NewTab::Globe);
        all.push(NewTab::Shown);
        all.push(NewTab::Empty);
        assert(all@ =~= NewTab::all_spec());
        all
    }

    /// The one that travels by this key.
    pub fn from_key(key: &str) -> (found: Option<NewTab>)
        ensures
            match found {
                Some(one) => one.key_spec() == key@,
                None => forall|one: NewTab| #[trigger] one.key_spec() != key@,
            },
    {
        if text::same(key, "browse") {
            Some(NewTab::Browse)
        } else if text::same(key, "search") {
            Some(NewTab::Search)
        } else if text::same(key, "downloaded") {
            Some(NewTab::Downloaded)
        } else if text::same(key, "globe") {
            Some(NewTab::Globe)
        } else if text::same(key, "shown") {
            Some(NewTab::Shown)
        } else if text::same(key, "empty") {
            Some(NewTab::Empty)
        } else {
            None
        }
    }

    /// No two travel by the same key.
    pub proof fn keys_differ(a: NewTab, b: NewTab)
        ensures
            a.key_spec() == b.key_spec() ==> a == b,
    {
        reveal_strlit("browse");
        reveal_strlit("search");
        reveal_strlit("downloaded");
        reveal_strlit("globe");
        reveal_strlit("shown");
        reveal_strlit("empty");
        assert("browse"@.len() == 6);
        assert("search"@.len() == 6);
        assert("downloaded"@.len() == 10);
        assert("globe"@.len() == 5);
        assert("shown"@.len() == 5);
        assert("empty"@.len() == 5);
        assert("browse"@[0] != "search"@[0]);
        assert("globe"@[0] != "shown"@[0]);
        assert("globe"@[0] != "empty"@[0]);
        assert("shown"@[0] != "empty"@[0]);
    }
}

impl NewTab {
    /// What an empty tab can be made into: all but an empty one.
    pub open spec fn kinds_spec() -> Seq<NewTab> {
        seq![NewTab::Browse, NewTab::Search, NewTab::Downloaded, NewTab::Globe, NewTab::Shown]
    }

    pub fn kinds() -> (kinds: Vec<NewTab>)
        ensures
            kinds@ == NewTab::kinds_spec(),
    {
        let mut kinds: Vec<NewTab> = Vec::new();
        kinds.push(NewTab::Browse);
        kinds.push(NewTab::Search);
        kinds.push(NewTab::Downloaded);
        kinds.push(NewTab::Globe);
        kinds.push(NewTab::Shown);
        assert(kinds@ =~= NewTab::kinds_spec());
        kinds
    }
}

/// How large an area is, in pixels of its texture.
#[derive(Clone, Copy, PartialEq, Eq, Structural, Debug)]
pub struct ViewportSize {
    pub width: u32,
    pub height: u32,
}

/// What a pointer does over an area.
#[derive(Clone, Copy, PartialEq, Eq, Structural, Debug)]
pub enum PointerAction {
    Moved,
    Pressed,
    Released,
    Left,
    Scrolled,
}

/// A pointer over an area. Places and scrolling are the bits of their numbers.
#[derive(Clone, Copy, PartialEq, Eq, Structural, Debug)]
pub struct PointerEvent {
    pub action: PointerAction,
    pub x: u32,
    pub y: u32,
    pub button: u32,
    pub scroll_y: u32,
}

impl Default for PointerEvent {
    fn default() -> (event: PointerEvent)
        ensures
            event == (PointerEvent { action: PointerAction::Moved, x: 0, y: 0, button: 0, scroll_y: 0 }),
    {
        PointerEvent { action: PointerAction::Moved, x: 0, y: 0, button: 0, scroll_y: 0 }
    }
}

/// What was dropped onto a pane, and onto which of its edges.
pub struct DropEvent {
    pub carried: String,
    pub zone: String,
}

impl Clone for DropEvent {
    fn clone(&self) -> (copy: DropEvent)
        ensures
            copy == *self,
    {
        DropEvent { carried: self.carried.clone(), zone: self.zone.clone() }
    }
}

/// A number with a fraction, as it is written. It travels on in the same words: to write it
/// anew in the fewest digits is the matter of floating point, which is not computed here.
pub struct Number {
    pub written: String,
}

impl Number {
    /// The number that a text writes; `None` when it writes none.
    pub fn read(written: &str) -> (number: Option<Number>)
        ensures
            match number {
                Some(number) => number.written@ == written@ && number::is_number(written@),
                None => !number::is_number(written@),
            },
    {
        if number::reads_as_number(written) {
            Some(Number { written: written.to_owned() })
        } else {
            None
        }
    }
}

/// What an event carries.
pub enum Payload {
    Value(String),
    Size(ViewportSize),
    Pointer(PointerEvent),
    Drop(DropEvent),
}

/// An event of the screen.
pub struct UiEventResponse {
    pub method: String,
    pub key: String,
    pub payload: Option<Payload>,
}

impl UiEventResponse {
    /// The text it carries; empty when it carries something else.
    pub open spec fn carried(self) -> Seq<char> {
        match self.payload {
            Some(Payload::Value(value)) => value@,
            _ => Seq::empty(),
        }
    }

    pub fn value(&self) -> (value: &str)
        ensures
            value@ == self.carried(),
    {
        proof {
            reveal_strlit("");
        }
        match &self.payload {
            Some(Payload::Value(value)) => value.as_str(),
            _ => {
                assert(""@ =~= Seq::<char>::empty());
                ""
            },
        }
    }

    pub fn size(&self) -> (size: Option<ViewportSize>)
        ensures
            match size {
                Some(size) => self.payload == Some(Payload::Size(size)),
                None => forall|other: ViewportSize| self.payload != Some(Payload::Size(other)),
            },
    {
        match &self.payload {
            Some(Payload::Size(size)) => Some(*size),
            _ => None,
        }
    }

    pub fn pointer(&self) -> (pointer: Option<PointerEvent>)
        ensures
            match pointer {
                Some(pointer) => self.payload == Some(Payload::Pointer(pointer)),
                None => forall|other: PointerEvent| self.payload != Some(Payload::Pointer(other)),
            },
    {
        match &self.payload {
            Some(Payload::Pointer(pointer)) => Some(*pointer),
            _ => None,
        }
    }

    pub fn drop(&self) -> (dropped: Option<DropEvent>)
        ensures
            match dropped {
                Some(dropped) => self.payload == Some(Payload::Drop(dropped)),
                None => forall|other: DropEvent| self.payload != Some(Payload::Drop(other)),
            },
    {
        match &self.payload {
            Some(Payload::Drop(dropped)) => Some(dropped.clone()),
            _ => None,
        }
    }
}

/// How a yes or a no is written.
pub open spec fn flag(yes: bool) -> Seq<char> {
    if yes { "true"@ } else { "false"@ }
}

/// How the open menu is written; nothing when none is open.
pub open spec fn menu_key(menu: Option<Menu>) -> Seq<char> {
    match menu {
        Some(menu) => menu.key_spec(),
        None => Seq::empty(),
    }
}

/// A number that tells the names of the methods apart.
spec fn fingerprint(name: Seq<char>) -> int {
    ((name.len() as int) * 128 + (name[1] as int)) * 128 + (name[2 * name.len() as int / 3] as int)
}

fn read_page(written: &str) -> (page: Option<usize>)
    ensures
        match page {
            Some(page) => number::read_up_to(written@, usize::MAX as nat) == Some(page as nat),
            None => number::read_up_to(written@, usize::MAX as nat) is None,
        },
{
    match number::parse_up_to(written, usize::MAX as u64) {
        Some(page) => Some(page as usize),
        None => None,
    }
}

/// What a widget inside a tab says.
pub enum ViewMsg {
    /// Make this of an empty tab.
    Fill(NewTab),
    /// Open a menu; `None` closes the open one.
    OpenMenu(Option<Menu>),
    Filter(Filter),
    Group(Grouping),
    Sort(Sorting),
    /// What is typed into the filter field.
    Query(String),
    Page(usize),
    /// Open a row into its contents, or close it.
    Expand(String),
    /// Choose a row, or take the choice back.
    Check(String),
    /// Choose all that is shown, or take the choice of it back.
    CheckShown(bool),
    /// Take the whole choice back.
    CheckClear,
    /// Download all that is chosen.
    CheckDownload,
    /// Delete all that is chosen.
    CheckDelete,
    /// What is typed into the search field.
    SearchQuery(String),
    SearchMission(Mission),
    SearchPeriod(Period),
    SearchFrom(String),
    SearchTo(String),
    SearchCloud(Cloud),
    /// Ask the catalogue.
    RunSearch,
    /// Enter a folder; an empty key reads the present one anew.
    Enter(String),
    Up,
    /// Show a record in the catalogue.
    InCatalog(String),
    /// Look at a downloaded record.
    Preview(String),
    /// Look at a record that is not downloaded.
    PreviewRemote(String),
    /// Look at a snapshot that is a folder.
    PreviewProduct(String),
    PreviewResized(ViewportSize),
    PreviewPointer(PointerEvent),
    /// Fit the snapshot into its canvas.
    PreviewFit,
    /// One step of scale: the sign is the direction.
    PreviewZoom(Number),
    /// Open the list of variables, or close it.
    PreviewVariables(bool),
    /// Show another variable of the file.
    PreviewVariable(String),
    GlobeResized(ViewportSize),
    GlobePointer(PointerEvent),
    /// Lay a snapshot on the globe, or take it off.
    GlobeToggle(String),
}

/// What the markup says.
pub enum Msg {
    /// Turn to a tab.
    TabSelect(ViewId),
    /// Close a tab.
    TabClose(ViewId),
    /// The menu of new tabs of a pane; `None` closes the open one.
    TabMenu(Option<PaneId>),
    /// The menu of a tab itself; `None` closes the open one.
    TabOptions(Option<ViewId>),
    /// Open a tab in a pane.
    NewTab(PaneId, NewTab),
    /// Move a tab to where this side of its pane is.
    TabMove(ViewId, Side),
    /// Bring all panes together into one.
    TabCollapse,
    /// A division is dragged by so many points.
    Divide(SplitId, Number),
    /// A division is let go.
    Divided,
    /// A tab is dropped onto a pane.
    TabDrop(PaneId, DropEvent),
    /// Download a record, go on with it or pause it; then the snapshot it belongs to.
    Download(String, String),
    /// Throw a record away.
    Delete(String),
    /// Throw away all files of a snapshot.
    DeleteSnapshot(String),
    /// Download a whole snapshot.
    DownloadSnapshot(String),
    /// Pause all downloads of a snapshot.
    PauseSnapshot(String),
    /// Show a record in the file manager.
    Reveal(String),
    /// Take everything off the globe.
    GlobeClear,
    /// How opaque a layer is, from 0 to 1.
    OverlayOpacity(String, Number),
    /// Hide a layer, or bring it back.
    OverlayHidden(String, bool),
    /// Take a layer away.
    OverlayRemove(String),
    /// Move a layer among the others.
    OverlayShift(String, Shift),
    /// Hide all layers, or show them.
    OverlayHideAll(bool),
    /// The menu of a layer; `None` closes the open one.
    OverlayMenu(Option<String>),
    /// The list of variables of a layer; `None` closes the open one.
    OverlayVariables(Option<String>),
    /// Show another variable of a layer.
    OverlayVariable(String, String),
    /// Outline a snapshot on the globe, or take its outline away.
    OutlineToggle(String),
    /// Take an outline away.
    OutlineRemove(String),
    /// Turn the globe to an outline and pick it.
    OutlineFocus(String),
    /// What a widget inside this tab says.
    In(ViewId, ViewMsg),
}

impl ViewMsg {
    /// The name of its method.
    pub open spec fn method(self) -> Seq<char> {
        match self {
            ViewMsg::Fill(_) => "fill"@,
            ViewMsg::OpenMenu(_) => "open_menu"@,
            ViewMsg::Filter(_) => "filter"@,
            ViewMsg::Group(_) => "group"@,
            ViewMsg::Sort(_) => "sort"@,
            ViewMsg::Query(_) => "query"@,
            ViewMsg::Page(_) => "page"@,
            ViewMsg::Expand(_) => "expand"@,
            ViewMsg::Check(_) => "check"@,
            ViewMsg::CheckShown(_) => "check_shown"@,
            ViewMsg::CheckClear => "check_clear"@,
            ViewMsg::CheckDownload => "check_download"@,
            ViewMsg::CheckDelete => "check_delete"@,
            ViewMsg::SearchQuery(_) => "search_query"@,
            ViewMsg::SearchMission(_) => "search_mission"@,
            ViewMsg::SearchPeriod(_) => "search_period"@,
            ViewMsg::SearchFrom(_) => "search_from"@,
            ViewMsg::SearchTo(_) => "search_to"@,
            ViewMsg::SearchCloud(_) => "search_cloud"@,
            ViewMsg::RunSearch => "run_search"@,
            ViewMsg::Enter(_) => "enter"@,
            ViewMsg::Up => "up"@,
            ViewMsg::InCatalog(_) => "in_catalog"@,
            ViewMsg::Preview(_) => "preview"@,
            ViewMsg::PreviewRemote(_) => "preview_remote"@,
            ViewMsg::PreviewProduct(_) => "preview_product"@,
            ViewMsg::PreviewResized(_) => "preview_resized"@,
            ViewMsg::PreviewPointer(_) => "preview_pointer"@,
            ViewMsg::PreviewFit => "preview_fit"@,
            ViewMsg::PreviewZoom(_) => "preview_zoom"@,
            ViewMsg::PreviewVariables(_) => "preview_variables"@,
            ViewMsg::PreviewVariable(_) => "preview_variable"@,
            ViewMsg::GlobeResized(_) => "globe_resized"@,
            ViewMsg::GlobePointer(_) => "globe_pointer"@,
            ViewMsg::GlobeToggle(_) => "globe_toggle"@,
        }
    }

    /// What the markup declares it to carry; nothing where whoever draws puts it
    /// there.
    pub open spec fn payload(self) -> Seq<char> {
        match self {
            ViewMsg::Fill(it) => it.key_spec(),
            ViewMsg::OpenMenu(it) => menu_key(it),
            ViewMsg::Filter(it) => it.key_spec(),
            ViewMsg::Group(it) => it.key_spec(),
            ViewMsg::Sort(it) => it.key_spec(),
            ViewMsg::Query(it) => it@,
            ViewMsg::Page(it) => number::written(it as nat),
            ViewMsg::Expand(it) => it@,
            ViewMsg::Check(it) => it@,
            ViewMsg::CheckShown(it) => flag(it),
            ViewMsg::SearchQuery(it) => it@,
            ViewMsg::SearchMission(it) => it.key_spec(),
            ViewMsg::SearchPeriod(it) => it.key_spec(),
            ViewMsg::SearchFrom(it) => it@,
            ViewMsg::SearchTo(it) => it@,
            ViewMsg::SearchCloud(it) => it.key_spec(),
            ViewMsg::Enter(it) => it@,
            ViewMsg::InCatalog(it) => it@,
            ViewMsg::Preview(it) => it@,
            ViewMsg::PreviewRemote(it) => it@,
            ViewMsg::PreviewProduct(it) => it@,
            ViewMsg::PreviewZoom(it) => it.written@,
            ViewMsg::PreviewVariables(it) => flag(it),
            ViewMsg::PreviewVariable(it) => it@,
            ViewMsg::GlobeToggle(it) => it@,
            _ => Seq::empty(),
        }
    }

    /// The markup alone says all of it: nothing in it is put there by whoever
    /// draws, and what should be a number is one.
    pub open spec fn is_declared(self) -> bool {
        match self {
            ViewMsg::PreviewResized(_) => false,
            ViewMsg::PreviewPointer(_) => false,
            ViewMsg::PreviewZoom(it) => number::is_number(it.written@),
            ViewMsg::GlobeResized(_) => false,
            ViewMsg::GlobePointer(_) => false,
            _ => true,
        }
    }

    /// The event carries this message.
    pub open spec fn carried_by(self, event: UiEventResponse) -> bool {
        &&& event.method@ == self.method()
        &&& match self {
            ViewMsg::Fill(it) => it.key_spec() == event.carried(),
            ViewMsg::OpenMenu(it) => (match it {
                Some(menu) => menu.key_spec() == event.carried(),
                None => !listing::is_menu_key(event.carried()),
            }),
            ViewMsg::Filter(it) => it.key_spec() == event.carried(),
            ViewMsg::Group(it) => it.key_spec() == event.carried(),
            ViewMsg::Sort(it) => it.key_spec() == event.carried(),
            ViewMsg::Query(it) => it@ == event.carried(),
            ViewMsg::Page(it) => number::read_up_to(event.carried(), usize::MAX as nat) == Some(it as nat),
            ViewMsg::Expand(it) => it@ == event.carried(),
            ViewMsg::Check(it) => it@ == event.carried(),
            ViewMsg::CheckShown(it) => it == (event.carried() == "true"@),
            ViewMsg::SearchQuery(it) => it@ == event.carried(),
            ViewMsg::SearchMission(it) => it.key_spec() == event.carried(),
            ViewMsg::SearchPeriod(it) => it.key_spec() == event.carried(),
            ViewMsg::SearchFrom(it) => it@ == event.carried(),
            ViewMsg::SearchTo(it) => it@ == event.carried(),
            ViewMsg::SearchCloud(it) => it.key_spec() == event.carried(),
            ViewMsg::Enter(it) => it@ == event.carried(),
            ViewMsg::InCatalog(it) => it@ == event.carried(),
            ViewMsg::Preview(it) => it@ == event.carried(),
            ViewMsg::PreviewRemote(it) => it@ == event.carried(),
            ViewMsg::PreviewProduct(it) => it@ == event.carried(),
            ViewMsg::PreviewResized(it) => event.payload == Some(Payload::Size(it)),
            ViewMsg::PreviewPointer(it) => event.payload == Some(Payload::Pointer(it)),
            ViewMsg::PreviewZoom(it) => it.written@ == event.carried() && number::is_number(event.carried()),
            ViewMsg::PreviewVariables(it) => it == (event.carried() == "true"@),
            ViewMsg::PreviewVariable(it) => it@ == event.carried(),
            ViewMsg::GlobeResized(it) => event.payload == Some(Payload::Size(it)),
            ViewMsg::GlobePointer(it) => event.payload == Some(Payload::Pointer(it)),
            ViewMsg::GlobeToggle(it) => it@ == event.carried(),
            _ => true,
        }
    }

    /// A number that tells the methods apart.
    spec fn tag(self) -> int {
        match self {
            ViewMsg::Fill(_) => 79084,
            ViewMsg::OpenMenu(_) => 161893,
            ViewMsg::Filter(_) => 111845,
            ViewMsg::Group(_) => 96629,
            ViewMsg::Sort(_) => 79858,
            ViewMsg::Query(_) => 97010,
            ViewMsg::Page(_) => 78055,
            ViewMsg::Expand(_) => 113774,
            ViewMsg::Check(_) => 95331,
            ViewMsg::CheckShown(_) => 193640,
            ViewMsg::CheckClear => 193644,
            ViewMsg::CheckDownload => 242798,
            ViewMsg::CheckDelete => 210028,
            ViewMsg::SearchQuery(_) => 209653,
            ViewMsg::SearchMission(_) => 242419,
            ViewMsg::SearchPeriod(_) => 226021,
            ViewMsg::SearchFrom(_) => 193254,
            ViewMsg::SearchTo(_) => 160479,
            ViewMsg::SearchCloud(_) => 209644,
            ViewMsg::RunSearch => 178913,
            ViewMsg::Enter(_) => 96101,
            ViewMsg::Up => 47216,
            ViewMsg::InCatalog(_) => 178017,
            ViewMsg::Preview(_) => 129385,
            ViewMsg::PreviewRemote(_) => 244069,
            ViewMsg::PreviewProduct(_) => 260463,
            ViewMsg::PreviewResized(_) => 260467,
            ViewMsg::PreviewPointer(_) => 260457,
            ViewMsg::PreviewFit => 194911,
            ViewMsg::PreviewZoom(_) => 211322,
            ViewMsg::PreviewVariables(_) => 293225,
            ViewMsg::PreviewVariable(_) => 276850,
            ViewMsg::GlobeResized(_) => 226931,
            ViewMsg::GlobePointer(_) => 226921,
            ViewMsg::GlobeToggle(_) => 210535,
        }
    }

    proof fn tag_is_of_the_method(self)
        ensures
            fingerprint(self.method()) == self.tag(),
    {
        match self {
            ViewMsg::Fill(_) => {
                reveal_strlit("fill");
                assert("fill"@.len() == 4);
            },
            ViewMsg::OpenMenu(_) => {
                reveal_strlit("open_menu");
                assert("open_menu"@.len() == 9);
            },
            ViewMsg::Filter(_) => {
                reveal_strlit("filter");
                assert("filter"@.len() == 6);
            },
            ViewMsg::Group(_) => {
                reveal_strlit("group");
                assert("group"@.len() == 5);
            },
            ViewMsg::Sort(_) => {
                reveal_strlit("sort");
                assert("sort"@.len() == 4);
            },
            ViewMsg::Query(_) => {
                reveal_strlit("query");
                assert("query"@.len() == 5);
            },
            ViewMsg::Page(_) => {
                reveal_strlit("page");
                assert("page"@.len() == 4);
            },
            ViewMsg::Expand(_) => {
                reveal_strlit("expand");
                assert("expand"@.len() == 6);
            },
            ViewMsg::Check(_) => {
                reveal_strlit("check");
                assert("check"@.len() == 5);
            },
            ViewMsg::CheckShown(_) => {
                reveal_strlit("check_shown");
                assert("check_shown"@.len() == 11);
            },
            ViewMsg::CheckClear => {
                reveal_strlit("check_clear");
                assert("check_clear"@.len() == 11);
            },
            ViewMsg::CheckDownload => {
                reveal_strlit("check_download");
                assert("check_download"@.len() == 14);
            },
            ViewMsg::CheckDelete => {
                reveal_strlit("check_delete");
                assert("check_delete"@.len() == 12);
            },
            ViewMsg::SearchQuery(_) => {
                reveal_strlit("search_query");
                assert("search_query"@.len() == 12);
            },
            ViewMsg::SearchMission(_) => {
                reveal_strlit("search_mission");
                assert("search_mission"@.len() == 14);
            },
            ViewMsg::SearchPeriod(_) => {
                reveal_strlit("search_period");
                assert("search_period"@.len() == 13);
            },
            ViewMsg::SearchFrom(_) => {
                reveal_strlit("search_from");
                assert("search_from"@.len() == 11);
            },
            ViewMsg::SearchTo(_) => {
                reveal_strlit("search_to");
                assert("search_to"@.len() == 9);
            },
            ViewMsg::SearchCloud(_) => {
                reveal_strlit("search_cloud");
                assert("search_cloud"@.len() == 12);
            },
            ViewMsg::RunSearch => {
                reveal_strlit("run_search");
                assert("run_search"@.len() == 10);
            },
            ViewMsg::Enter(_) => {
                reveal_strlit("enter");
                assert("enter"@.len() == 5);
            },
            ViewMsg::Up => {
                reveal_strlit("up");
                assert("up"@.len() == 2);
            },
            ViewMsg::InCatalog(_) => {
                reveal_strlit("in_catalog");
                assert("in_catalog"@.len() == 10);
            },
            ViewMsg::Preview(_) => {
                reveal_strlit("preview");
                assert("preview"@.len() == 7);
            },
            ViewMsg::PreviewRemote(_) => {
                reveal_strlit("preview_remote");
                assert("preview_remote"@.len() == 14);
            },
            ViewMsg::PreviewProduct(_) => {
                reveal_strlit("preview_product");
                assert("preview_product"@.len() == 15);
            },
            ViewMsg::PreviewResized(_) => {
                reveal_strlit("preview_resized");
                assert("preview_resized"@.len() == 15);
            },
            ViewMsg::PreviewPointer(_) => {
                reveal_strlit("preview_pointer");
                assert("preview_pointer"@.len() == 15);
            },
            ViewMsg::PreviewFit => {
                reveal_strlit("preview_fit");
                assert("preview_fit"@.len() == 11);
            },
            ViewMsg::PreviewZoom(_) => {
                reveal_strlit("preview_zoom");
                assert("preview_zoom"@.len() == 12);
            },
            ViewMsg::PreviewVariables(_) => {
                reveal_strlit("preview_variables");
                assert("preview_variables"@.len() == 17);
            },
            ViewMsg::PreviewVariable(_) => {
                reveal_strlit("preview_variable");
                assert("preview_variable"@.len() == 16);
            },
            ViewMsg::GlobeResized(_) => {
                reveal_strlit("globe_resized");
                assert("globe_resized"@.len() == 13);
            },
            ViewMsg::GlobePointer(_) => {
                reveal_strlit("globe_pointer");
                assert("globe_pointer"@.len() == 13);
            },
            ViewMsg::GlobeToggle(_) => {
                reveal_strlit("globe_toggle");
                assert("globe_toggle"@.len() == 12);
            },
        }
    }

    /// The name of its method, and what the markup declares it to carry.
    fn declared(&self) -> (both: (&'static str, String))
        ensures
            both.0@ == self.method(),
            both.1@ == self.payload(),
    {
        match self {
            ViewMsg::Fill(it) => ("fill", it.key().to_owned()),
            ViewMsg::OpenMenu(it) => ("open_menu", match it {
                Some(menu) => menu.key(),
                None => String::new(),
            }),
            ViewMsg::Filter(it) => ("filter", it.key().to_owned()),
            ViewMsg::Group(it) => ("group", it.key().to_owned()),
            ViewMsg::Sort(it) => ("sort", it.key().to_owned()),
            ViewMsg::Query(it) => ("query", it.clone()),
            ViewMsg::Page(it) => ("page", number::decimal(*it as u128)),
            ViewMsg::Expand(it) => ("expand", it.clone()),
            ViewMsg::Check(it) => ("check", it.clone()),
            ViewMsg::CheckShown(it) => ("check_shown", if *it { "true".to_owned() } else { "false".to_owned() }),
            ViewMsg::CheckClear => ("check_clear", String::new()),
            ViewMsg::CheckDownload => ("check_download", String::new()),
            ViewMsg::CheckDelete => ("check_delete", String::new()),
            ViewMsg::SearchQuery(it) => ("search_query", it.clone()),
            ViewMsg::SearchMission(it) => ("search_mission", it.key().to_owned()),
            ViewMsg::SearchPeriod(it) => ("search_period", it.key().to_owned()),
            ViewMsg::SearchFrom(it) => ("search_from", it.clone()),
            ViewMsg::SearchTo(it) => ("search_to", it.clone()),
            ViewMsg::SearchCloud(it) => ("search_cloud", it.key().to_owned()),
            ViewMsg::RunSearch => ("run_search", String::new()),
            ViewMsg::Enter(it) => ("enter", it.clone()),
            ViewMsg::Up => ("up", String::new()),
            ViewMsg::InCatalog(it) => ("in_catalog", it.clone()),
            ViewMsg::Preview(it) => ("preview", it.clone()),
            ViewMsg::PreviewRemote(it) => ("preview_remote", it.clone()),
            ViewMsg::PreviewProduct(it) => ("preview_product", it.clone()),
            ViewMsg::PreviewResized(_) => ("preview_resized", String::new()),
            ViewMsg::PreviewPointer(_) => ("preview_pointer", String::new()),
            ViewMsg::PreviewFit => ("preview_fit", String::new()),
            ViewMsg::PreviewZoom(it) => ("preview_zoom", it.written.clone()),
            ViewMsg::PreviewVariables(it) => ("preview_variables", if *it { "true".to_owned() } else { "false".to_owned() }),
            ViewMsg::PreviewVariable(it) => ("preview_variable", it.clone()),
            ViewMsg::GlobeResized(_) => ("globe_resized", String::new()),
            ViewMsg::GlobePointer(_) => ("globe_pointer", String::new()),
            ViewMsg::GlobeToggle(it) => ("globe_toggle", it.clone()),
        }
    }

    /// The message that the event carries; `None` when it carries none.
    fn parse(event: &UiEventResponse) -> (message: Option<ViewMsg>)
        ensures
            match message {
                Some(message) => message.carried_by(*event),
                None => forall|other: ViewMsg| !#[trigger] other.carried_by(*event),
            },
    {
        proof {
            assert forall|other: ViewMsg| #[trigger] other.carried_by(*event) implies other.tag() == fingerprint(event.method@) by {
                other.tag_is_of_the_method();
            }
        }
        let method: &str = event.method.as_str();
        if text::same(method, "fill") {
            proof {
                reveal_strlit("fill");
                assert("fill"@.len() == 4);
            }
            match NewTab::from_key(event.value()) {
                Some(it) => Some(ViewMsg::Fill(it)),
                None => None,
            }
        } else if text::same(method, "open_menu") {
            Some(ViewMsg::OpenMenu(Menu::from_key(event.value())))
        } else if text::same(method, "filter") {
            proof {
                reveal_strlit("filter");
                assert("filter"@.len() == 6);
            }
            match Filter::from_key(event.value()) {
                Some(it) => Some(ViewMsg::Filter(it)),
                None => None,
            }
        } else if text::same(method, "group") {
            proof {
                reveal_strlit("group");
                assert("group"@.len() == 5);
            }
            match Grouping::from_key(event.value()) {
                Some(it) => Some(ViewMsg::Group(it)),
                None => None,
            }
        } else if text::same(method, "sort") {
            proof {
                reveal_strlit("sort");
                assert("sort"@.len() == 4);
            }
            match Sorting::from_key(event.value()) {
                Some(it) => Some(ViewMsg::Sort(it)),
                None => None,
            }
        } else if text::same(method, "query") {
            Some(ViewMsg::Query(event.value().to_owned()))
        } else if text::same(method, "page") {
            proof {
                reveal_strlit("page");
                assert("page"@.len() == 4);
            }
            match read_page(event.value()) {
                Some(it) => Some(ViewMsg::Page(it)),
                None => None,
            }
        } else if text::same(method, "expand") {
            Some(ViewMsg::Expand(event.value().to_owned()))
        } else if text::same(method, "check") {
            Some(ViewMsg::Check(event.value().to_owned()))
        } else if text::same(method, "check_shown") {
            Some(ViewMsg::CheckShown(text::same(event.value(), "true")))
        } else if text::same(method, "check_clear") {
            Some(ViewMsg::CheckClear)
        } else if text::same(method, "check_download") {
            Some(ViewMsg::CheckDownload)
        } else if text::same(method, "check_delete") {
            Some(ViewMsg::CheckDelete)
        } else if text::same(method, "search_query") {
            Some(ViewMsg::SearchQuery(event.value().to_owned()))
        } else if text::same(method, "search_mission") {
            proof {
                reveal_strlit("search_mission");
                assert("search_mission"@.len() == 14);
            }
            match Mission::from_key(event.value()) {
                Some(it) => Some(ViewMsg::SearchMission(it)),
                None => None,
            }
        } else if text::same(method, "search_period") {
            proof {
                reveal_strlit("search_period");
                assert("search_period"@.len() == 13);
            }
            match Period::from_key(event.value()) {
                Some(it) => Some(ViewMsg::SearchPeriod(it)),
                None => None,
            }
        } else if text::same(method, "search_from") {
            Some(ViewMsg::SearchFrom(event.value().to_owned()))
        } else if text::same(method, "search_to") {
            Some(ViewMsg::SearchTo(event.value().to_owned()))
        } else if text::same(method, "search_cloud") {
            proof {
                reveal_strlit("search_cloud");
                assert("search_cloud"@.len() == 12);
            }
            match Cloud::from_key(event.value()) {
                Some(it) => Some(ViewMsg::SearchCloud(it)),
                None => None,
            }
        } else if text::same(method, "run_search") {
            Some(ViewMsg::RunSearch)
        } else if text::same(method, "enter") {
            Some(ViewMsg::Enter(event.value().to_owned()))
        } else if text::same(method, "up") {
            Some(ViewMsg::Up)
        } else if text::same(method, "in_catalog") {
            Some(ViewMsg::InCatalog(event.value().to_owned()))
        } else if text::same(method, "preview") {
            Some(ViewMsg::Preview(event.value().to_owned()))
        } else if text::same(method, "preview_remote") {
            Some(ViewMsg::PreviewRemote(event.value().to_owned()))
        } else if text::same(method, "preview_product") {
            Some(ViewMsg::PreviewProduct(event.value().to_owned()))
        } else if text::same(method, "preview_resized") {
            proof {
                reveal_strlit("preview_resized");
                assert("preview_resized"@.len() == 15);
            }
            match event.size() {
                Some(it) => Some(ViewMsg::PreviewResized(it)),
                None => None,
            }
        } else if text::same(method, "preview_pointer") {
            proof {
                reveal_strlit("preview_pointer");
                assert("preview_pointer"@.len() == 15);
            }
            match event.pointer() {
                Some(it) => Some(ViewMsg::PreviewPointer(it)),
                None => None,
            }
        } else if text::same(method, "preview_fit") {
            Some(ViewMsg::PreviewFit)
        } else if text::same(method, "preview_zoom") {
            proof {
                reveal_strlit("preview_zoom");
                assert("preview_zoom"@.len() == 12);
            }
            match Number::read(event.value()) {
                Some(it) => Some(ViewMsg::PreviewZoom(it)),
                None => None,
            }
        } else if text::same(method, "preview_variables") {
            Some(ViewMsg::PreviewVariables(text::same(event.value(), "true")))
        } else if text::same(method, "preview_variable") {
            Some(ViewMsg::PreviewVariable(event.value().to_owned()))
        } else if text::same(method, "globe_resized") {
            proof {
                reveal_strlit("globe_resized");
                assert("globe_resized"@.len() == 13);
            }
            match event.size() {
                Some(it) => Some(ViewMsg::GlobeResized(it)),
                None => None,
            }
        } else if text::same(method, "globe_pointer") {
            proof {
                reveal_strlit("globe_pointer");
                assert("globe_pointer"@.len() == 13);
            }
            match event.pointer() {
                Some(it) => Some(ViewMsg::GlobePointer(it)),
                None => None,
            }
        } else if text::same(method, "globe_toggle") {
            Some(ViewMsg::GlobeToggle(event.value().to_owned()))
        } else {
            None
        }
    }
}

impl Msg {
    /// The name of its method.
    pub open spec fn method(self) -> Seq<char> {
        match self {
            Msg::TabSelect(_) => "tab_select"@,
            Msg::TabClose(_) => "tab_close"@,
            Msg::TabMenu(_) => "tab_menu"@,
            Msg::TabOptions(_) => "tab_options"@,
            Msg::NewTab(_, _) => "new_tab"@,
            Msg::TabMove(_, _) => "tab_move"@,
            Msg::TabCollapse => "tab_collapse"@,
            Msg::Divide(_, _) => "divide"@,
            Msg::Divided => "divided"@,
            Msg::TabDrop(_, _) => "tab_drop"@,
            Msg::Download(_, _) => "download"@,
            Msg::Delete(_) => "delete"@,
            Msg::DeleteSnapshot(_) => "delete_snapshot"@,
            Msg::DownloadSnapshot(_) => "download_snapshot"@,
            Msg::PauseSnapshot(_) => "pause_snapshot"@,
            Msg::Reveal(_) => "reveal"@,
            Msg::GlobeClear => "globe_clear"@,
            Msg::OverlayOpacity(_, _) => "overlay_opacity"@,
            Msg::OverlayHidden(_, _) => "overlay_hidden"@,
            Msg::OverlayRemove(_) => "overlay_remove"@,
            Msg::OverlayShift(_, _) => "overlay_shift"@,
            Msg::OverlayHideAll(_) => "overlay_hide_all"@,
            Msg::OverlayMenu(_) => "overlay_menu"@,
            Msg::OverlayVariables(_) => "overlay_variables"@,
            Msg::OverlayVariable(_, _) => "overlay_variable"@,
            Msg::OutlineToggle(_) => "outline_toggle"@,
            Msg::OutlineRemove(_) => "outline_remove"@,
            Msg::OutlineFocus(_) => "outline_focus"@,
            Msg::In(_, inner) => inner.method(),
        }
    }

    /// What the markup declares it to carry; nothing where whoever draws puts it
    /// there.
    pub open spec fn payload(self) -> Seq<char> {
        match self {
            Msg::NewTab(_, it) => it.key_spec(),
            Msg::TabMove(_, it) => it.key_spec(),
            Msg::Download(it, _) => it@,
            Msg::Delete(it) => it@,
            Msg::DeleteSnapshot(it) => it@,
            Msg::DownloadSnapshot(it) => it@,
            Msg::PauseSnapshot(it) => it@,
            Msg::Reveal(it) => it@,
            Msg::OverlayHidden(_, it) => flag(it),
            Msg::OverlayShift(_, it) => it.key_spec(),
            Msg::OverlayHideAll(it) => flag(it),
            Msg::OverlayVariable(_, it) => it@,
            Msg::In(_, inner) => inner.payload(),
            _ => Seq::empty(),
        }
    }

    /// Whom it addresses; nobody is a lawful answer.
    pub open spec fn addressee(self) -> Seq<char> {
        match self {
            Msg::TabSelect(it) => number::written(it.number as nat),
            Msg::TabClose(it) => number::written(it.number as nat),
            Msg::TabMenu(it) => match it {
                Some(id) => number::written(id.number as nat),
                None => Seq::empty(),
            },
            Msg::TabOptions(it) => match it {
                Some(id) => number::written(id.number as nat),
                None => Seq::empty(),
            },
            Msg::NewTab(it, _) => number::written(it.number as nat),
            Msg::TabMove(it, _) => number::written(it.number as nat),
            Msg::Divide(it, _) => number::written(it.number as nat),
            Msg::TabDrop(it, _) => number::written(it.number as nat),
            Msg::Download(_, it) => it@,
            Msg::OverlayOpacity(it, _) => it@,
            Msg::OverlayHidden(it, _) => it@,
            Msg::OverlayRemove(it) => it@,
            Msg::OverlayShift(it, _) => it@,
            Msg::OverlayMenu(it) => match it {
                Some(key) => key@,
                None => Seq::empty(),
            },
            Msg::OverlayVariables(it) => match it {
                Some(key) => key@,
                None => Seq::empty(),
            },
            Msg::OverlayVariable(it, _) => it@,
            Msg::OutlineToggle(it) => it@,
            Msg::OutlineRemove(it) => it@,
            Msg::OutlineFocus(it) => it@,
            Msg::In(view, _) => number::written(view.number as nat),
            _ => Seq::empty(),
        }
    }

    /// The markup alone says all of it: nothing in it is put there by whoever
    /// draws, and what should be a number is one.
    pub open spec fn is_declared(self) -> bool {
        match self {
            Msg::Divide(_, _) => false,
            Msg::TabDrop(_, _) => false,
            Msg::OverlayOpacity(_, _) => false,
            Msg::In(_, inner) => inner.is_declared(),
            _ => true,
        }
    }

    /// The event carries this message.
    pub open spec fn carried_by(self, event: UiEventResponse) -> bool {
        &&& event.method@ == self.method()
        &&& match self {
            Msg::TabSelect(whom) => ids::read_id(event.key@) == Some(whom.number as nat),
            Msg::TabClose(whom) => ids::read_id(event.key@) == Some(whom.number as nat),
            Msg::TabMenu(whom) => (match whom {
                Some(id) => ids::read_id(event.key@) == Some(id.number as nat),
                None => ids::read_id(event.key@) is None,
            }),
            Msg::TabOptions(whom) => (match whom {
                Some(id) => ids::read_id(event.key@) == Some(id.number as nat),
                None => ids::read_id(event.key@) is None,
            }),
            Msg::NewTab(whom, it) => ids::read_id(event.key@) == Some(whom.number as nat) && it.key_spec() == event.carried(),
            Msg::TabMove(whom, it) => ids::read_id(event.key@) == Some(whom.number as nat) && it.key_spec() == event.carried(),
            Msg::Divide(whom, it) => ids::read_id(event.key@) == Some(whom.number as nat) && it.written@ == event.carried() && number::is_number(event.carried()),
            Msg::TabDrop(whom, it) => ids::read_id(event.key@) == Some(whom.number as nat) && event.payload == Some(Payload::Drop(it)),
            Msg::Download(it, whom) => it@ == event.carried() && whom@ == event.key@,
            Msg::Delete(it) => it@ == event.carried(),
            Msg::DeleteSnapshot(it) => it@ == event.carried(),
            Msg::DownloadSnapshot(it) => it@ == event.carried(),
            Msg::PauseSnapshot(it) => it@ == event.carried(),
            Msg::Reveal(it) => it@ == event.carried(),
            Msg::OverlayOpacity(whom, it) => whom@ == event.key@ && it.written@ == event.carried() && number::is_number(event.carried()),
            Msg::OverlayHidden(whom, it) => whom@ == event.key@ && it == (event.carried() == "true"@),
            Msg::OverlayRemove(whom) => whom@ == event.key@,
            Msg::OverlayShift(whom, it) => whom@ == event.key@ && it.key_spec() == event.carried(),
            Msg::OverlayHideAll(it) => it == (event.carried() == "true"@),
            Msg::OverlayMenu(whom) => (match whom {
                Some(key) => key@ == event.key@ && event.key@.len() > 0,
                None => event.key@.len() == 0,
            }),
            Msg::OverlayVariables(whom) => (match whom {
                Some(key) => key@ == event.key@ && event.key@.len() > 0,
                None => event.key@.len() == 0,
            }),
            Msg::OverlayVariable(whom, it) => whom@ == event.key@ && it@ == event.carried(),
            Msg::OutlineToggle(whom) => whom@ == event.key@,
            Msg::OutlineRemove(whom) => whom@ == event.key@,
            Msg::OutlineFocus(whom) => whom@ == event.key@,
            Msg::In(whom, inner) => ids::read_id(event.key@) == Some(whom.number as nat) && inner.carried_by(event),
            _ => true,
        }
    }

    /// A number that tells the methods apart.
    spec fn tag(self) -> int {
        match self {
            Msg::TabSelect(_) => 176364,
            Msg::TabClose(_) => 159983,
            Msg::TabMenu(_) => 143589,
            Msg::TabOptions(_) => 192745,
            Msg::NewTab(_, _) => 127732,
            Msg::TabMove(_, _) => 143599,
            Msg::TabCollapse => 209121,
            Msg::Divide(_, _) => 111844,
            Msg::Divided => 128228,
            Msg::TabDrop(_, _) => 143602,
            Msg::Download(_, _) => 145391,
            Msg::Delete(_) => 111348,
            Msg::DeleteSnapshot(_) => 258800,
            Msg::DownloadSnapshot(_) => 292833,
            Msg::PauseSnapshot(_) => 241904,
            Msg::Reveal(_) => 111329,
            Msg::GlobeClear => 194156,
            Msg::OverlayOpacity(_, _) => 260961,
            Msg::OverlayHidden(_, _) => 244585,
            Msg::OverlayRemove(_) => 244581,
            Msg::OverlayShift(_, _) => 228211,
            Msg::OverlayHideAll(_) => 277348,
            Msg::OverlayMenu(_) => 211821,
            Msg::OverlayVariables(_) => 293737,
            Msg::OverlayVariable(_, _) => 277362,
            Msg::OutlineToggle(_) => 244463,
            Msg::OutlineRemove(_) => 244453,
            Msg::OutlineFocus(_) => 228070,
            Msg::In(_, inner) => inner.tag(),
        }
    }

    proof fn tag_is_of_the_method(self)
        ensures
            fingerprint(self.method()) == self.tag(),
    {
        match self {
            Msg::TabSelect(_) => {
                reveal_strlit("tab_select");
                assert("tab_select"@.len() == 10);
            },
            Msg::TabClose(_) => {
                reveal_strlit("tab_close");
                assert("tab_close"@.len() == 9);
            },
            Msg::TabMenu(_) => {
                reveal_strlit("tab_menu");
                assert("tab_menu"@.len() == 8);
            },
            Msg::TabOptions(_) => {
                reveal_strlit("tab_options");
                assert("tab_options"@.len() == 11);
            },
            Msg::NewTab(_, _) => {
                reveal_strlit("new_tab");
                assert("new_tab"@.len() == 7);
            },
            Msg::TabMove(_, _) => {
                reveal_strlit("tab_move");
                assert("tab_move"@.len() == 8);
            },
            Msg::TabCollapse => {
                reveal_strlit("tab_collapse");
                assert("tab_collapse"@.len() == 12);
            },
            Msg::Divide(_, _) => {
                reveal_strlit("divide");
                assert("divide"@.len() == 6);
            },
            Msg::Divided => {
                reveal_strlit("divided");
                assert("divided"@.len() == 7);
            },
            Msg::TabDrop(_, _) => {
                reveal_strlit("tab_drop");
                assert("tab_drop"@.len() == 8);
            },
            Msg::Download(_, _) => {
                reveal_strlit("download");
                assert("download"@.len() == 8);
            },
            Msg::Delete(_) => {
                reveal_strlit("delete");
                assert("delete"@.len() == 6);
            },
            Msg::DeleteSnapshot(_) => {
                reveal_strlit("delete_snapshot");
                assert("delete_snapshot"@.len() == 15);
            },
            Msg::DownloadSnapshot(_) => {
                reveal_strlit("download_snapshot");
                assert("download_snapshot"@.len() == 17);
            },
            Msg::PauseSnapshot(_) => {
                reveal_strlit("pause_snapshot");
                assert("pause_snapshot"@.len() == 14);
            },
            Msg::Reveal(_) => {
                reveal_strlit("reveal");
                assert("reveal"@.len() == 6);
            },
            Msg::GlobeClear => {
                reveal_strlit("globe_clear");
                assert("globe_clear"@.len() == 11);
            },
            Msg::OverlayOpacity(_, _) => {
                reveal_strlit("overlay_opacity");
                assert("overlay_opacity"@.len() == 15);
            },
            Msg::OverlayHidden(_, _) => {
                reveal_strlit("overlay_hidden");
                assert("overlay_hidden"@.len() == 14);
            },
            Msg::OverlayRemove(_) => {
                reveal_strlit("overlay_remove");
                assert("overlay_remove"@.len() == 14);
            },
            Msg::OverlayShift(_, _) => {
                reveal_strlit("overlay_shift");
                assert("overlay_shift"@.len() == 13);
            },
            Msg::OverlayHideAll(_) => {
                reveal_strlit("overlay_hide_all");
                assert("overlay_hide_all"@.len() == 16);
            },
            Msg::OverlayMenu(_) => {
                reveal_strlit("overlay_menu");
                assert("overlay_menu"@.len() == 12);
            },
            Msg::OverlayVariables(_) => {
                reveal_strlit("overlay_variables");
                assert("overlay_variables"@.len() == 17);
            },
            Msg::OverlayVariable(_, _) => {
                reveal_strlit("overlay_variable");
                assert("overlay_variable"@.len() == 16);
            },
            Msg::OutlineToggle(_) => {
                reveal_strlit("outline_toggle");
                assert("outline_toggle"@.len() == 14);
            },
            Msg::OutlineRemove(_) => {
                reveal_strlit("outline_remove");
                assert("outline_remove"@.len() == 14);
            },
            Msg::OutlineFocus(_) => {
                reveal_strlit("outline_focus");
                assert("outline_focus"@.len() == 13);
            },
            Msg::In(_, inner) => {
                inner.tag_is_of_the_method();
            },
        }
    }

    /// The name of its method, and what the markup declares it to carry.
    fn declared(&self) -> (both: (&'static str, String))
        ensures
            both.0@ == self.method(),
            both.1@ == self.payload(),
    {
        match self {
            Msg::TabSelect(_) => ("tab_select", String::new()),
            Msg::TabClose(_) => ("tab_close", String::new()),
            Msg::TabMenu(_) => ("tab_menu", String::new()),
            Msg::TabOptions(_) => ("tab_options", String::new()),
            Msg::NewTab(_, it) => ("new_tab", it.key().to_owned()),
            Msg::TabMove(_, it) => ("tab_move", it.key().to_owned()),
            Msg::TabCollapse => ("tab_collapse", String::new()),
            Msg::Divide(_, _) => ("divide", String::new()),
            Msg::Divided => ("divided", String::new()),
            Msg::TabDrop(_, _) => ("tab_drop", String::new()),
            Msg::Download(it, _) => ("download", it.clone()),
            Msg::Delete(it) => ("delete", it.clone()),
            Msg::DeleteSnapshot(it) => ("delete_snapshot", it.clone()),
            Msg::DownloadSnapshot(it) => ("download_snapshot", it.clone()),
            Msg::PauseSnapshot(it) => ("pause_snapshot", it.clone()),
            Msg::Reveal(it) => ("reveal", it.clone()),
            Msg::GlobeClear => ("globe_clear", String::new()),
            Msg::OverlayOpacity(_, _) => ("overlay_opacity", String::new()),
            Msg::OverlayHidden(_, it) => ("overlay_hidden", if *it { "true".to_owned() } else { "false".to_owned() }),
            Msg::OverlayRemove(_) => ("overlay_remove", String::new()),
            Msg::OverlayShift(_, it) => ("overlay_shift", it.key().to_owned()),
            Msg::OverlayHideAll(it) => ("overlay_hide_all", if *it { "true".to_owned() } else { "false".to_owned() }),
            Msg::OverlayMenu(_) => ("overlay_menu", String::new()),
            Msg::OverlayVariables(_) => ("overlay_variables", String::new()),
            Msg::OverlayVariable(_, it) => ("overlay_variable", it.clone()),
            Msg::OutlineToggle(_) => ("outline_toggle", String::new()),
            Msg::OutlineRemove(_) => ("outline_remove", String::new()),
            Msg::OutlineFocus(_) => ("outline_focus", String::new()),
            Msg::In(_, inner) => inner.declared(),
        }
    }

    /// Whom it addresses.
    pub fn key(&self) -> (whom: String)
        ensures
            whom@ == self.addressee(),
    {
        match self {
            Msg::TabSelect(it) => it.to_text(),
            Msg::TabClose(it) => it.to_text(),
            Msg::TabMenu(it) => match it {
                Some(id) => id.to_text(),
                None => String::new(),
            },
            Msg::TabOptions(it) => match it {
                Some(id) => id.to_text(),
                None => String::new(),
            },
            Msg::NewTab(it, _) => it.to_text(),
            Msg::TabMove(it, _) => it.to_text(),
            Msg::Divide(it, _) => it.to_text(),
            Msg::TabDrop(it, _) => it.to_text(),
            Msg::Download(_, it) => it.clone(),
            Msg::OverlayOpacity(it, _) => it.clone(),
            Msg::OverlayHidden(it, _) => it.clone(),
            Msg::OverlayRemove(it) => it.clone(),
            Msg::OverlayShift(it, _) => it.clone(),
            Msg::OverlayMenu(it) => match it {
                Some(key) => key.clone(),
                None => String::new(),
            },
            Msg::OverlayVariables(it) => match it {
                Some(key) => key.clone(),
                None => String::new(),
            },
            Msg::OverlayVariable(it, _) => it.clone(),
            Msg::OutlineToggle(it) => it.clone(),
            Msg::OutlineRemove(it) => it.clone(),
            Msg::OutlineFocus(it) => it.clone(),
            Msg::In(view, _) => view.to_text(),
            _ => String::new(),
        }
    }

    /// The name of its method, and what it carries.
    pub fn encode(&self) -> (both: (String, String))
        ensures
            both.0@ == self.method(),
            both.1@ == self.payload(),
    {
        let (method, value): (&'static str, String) = self.declared();
        (method.to_owned(), value)
    }

    /// The message that the event carries; `None` when it carries none.
    pub fn decode(event: &UiEventResponse) -> (message: Option<Msg>)
        ensures
            match message {
                Some(message) => message.carried_by(*event),
                None => forall|other: Msg| !#[trigger] other.carried_by(*event),
            },
    {
        proof {
            assert forall|other: Msg| #[trigger] other.carried_by(*event) implies other.tag() == fingerprint(event.method@) by {
                other.tag_is_of_the_method();
            }
        }
        let method: &str = event.method.as_str();
        if text::same(method, "tab_select") {
            proof {
                reveal_strlit("tab_select");
                assert("tab_select"@.len() == 10);
            }
            match ViewId::parse(&event.key) {
                Some(whom) => Some(Msg::TabSelect(whom)),
                None => None,
            }
        } else if text::same(method, "tab_close") {
            proof {
                reveal_strlit("tab_close");
                assert("tab_close"@.len() == 9);
            }
            match ViewId::parse(&event.key) {
                Some(whom) => Some(Msg::TabClose(whom)),
                None => None,
            }
        } else if text::same(method, "tab_menu") {
            Some(Msg::TabMenu(PaneId::parse(&event.key)))
        } else if text::same(method, "tab_options") {
            Some(Msg::TabOptions(ViewId::parse(&event.key)))
        } else if text::same(method, "new_tab") {
            proof {
                reveal_strlit("new_tab");
                assert("new_tab"@.len() == 7);
            }
            match PaneId::parse(&event.key) {
                Some(whom) => match NewTab::from_key(event.value()) {
                    Some(it) => Some(Msg::NewTab(whom, it)),
                    None => None,
                },
                None => None,
            }
        } else if text::same(method, "tab_move") {
            proof {
                reveal_strlit("tab_move");
                assert("tab_move"@.len() == 8);
            }
            match ViewId::parse(&event.key) {
                Some(whom) => match Side::from_key(event.value()) {
                    Some(it) => Some(Msg::TabMove(whom, it)),
                    None => None,
                },
                None => None,
            }
        } else if text::same(method, "tab_collapse") {
            Some(Msg::TabCollapse)
        } else if text::same(method, "divide") {
            proof {
                reveal_strlit("divide");
                assert("divide"@.len() == 6);
            }
            match SplitId::parse(&event.key) {
                Some(whom) => match Number::read(event.value()) {
                    Some(it) => Some(Msg::Divide(whom, it)),
                    None => None,
                },
                None => None,
            }
        } else if text::same(method, "divided") {
            Some(Msg::Divided)
        } else if text::same(method, "tab_drop") {
            proof {
                reveal_strlit("tab_drop");
                assert("tab_drop"@.len() == 8);
            }
            match PaneId::parse(&event.key) {
                Some(whom) => match event.drop() {
                    Some(it) => Some(Msg::TabDrop(whom, it)),
                    None => None,
                },
                None => None,
            }
        } else if text::same(method, "download") {
            Some(Msg::Download(event.value().to_owned(), event.key.clone()))
        } else if text::same(method, "delete") {
            Some(Msg::Delete(event.value().to_owned()))
        } else if text::same(method, "delete_snapshot") {
            Some(Msg::DeleteSnapshot(event.value().to_owned()))
        } else if text::same(method, "download_snapshot") {
            Some(Msg::DownloadSnapshot(event.value().to_owned()))
        } else if text::same(method, "pause_snapshot") {
            Some(Msg::PauseSnapshot(event.value().to_owned()))
        } else if text::same(method, "reveal") {
            Some(Msg::Reveal(event.value().to_owned()))
        } else if text::same(method, "globe_clear") {
            Some(Msg::GlobeClear)
        } else if text::same(method, "overlay_opacity") {
            proof {
                reveal_strlit("overlay_opacity");
                assert("overlay_opacity"@.len() == 15);
            }
            match Number::read(event.value()) {
                Some(it) => Some(Msg::OverlayOpacity(event.key.clone(), it)),
                None => None,
            }
        } else if text::same(method, "overlay_hidden") {
            Some(Msg::OverlayHidden(event.key.clone(), text::same(event.value(), "true")))
        } else if text::same(method, "overlay_remove") {
            Some(Msg::OverlayRemove(event.key.clone()))
        } else if text::same(method, "overlay_shift") {
            proof {
                reveal_strlit("overlay_shift");
                assert("overlay_shift"@.len() == 13);
            }
            match Shift::from_key(event.value()) {
                Some(it) => Some(Msg::OverlayShift(event.key.clone(), it)),
                None => None,
            }
        } else if text::same(method, "overlay_hide_all") {
            Some(Msg::OverlayHideAll(text::same(event.value(), "true")))
        } else if text::same(method, "overlay_menu") {
            Some(Msg::OverlayMenu(if event.key.as_str().is_empty() { None } else { Some(event.key.clone()) }))
        } else if text::same(method, "overlay_variables") {
            Some(Msg::OverlayVariables(if event.key.as_str().is_empty() { None } else { Some(event.key.clone()) }))
        } else if text::same(method, "overlay_variable") {
            Some(Msg::OverlayVariable(event.key.clone(), event.value().to_owned()))
        } else if text::same(method, "outline_toggle") {
            Some(Msg::OutlineToggle(event.key.clone()))
        } else if text::same(method, "outline_remove") {
            Some(Msg::OutlineRemove(event.key.clone()))
        } else if text::same(method, "outline_focus") {
            Some(Msg::OutlineFocus(event.key.clone()))
        } else {
            match ViewId::parse(&event.key) {
                Some(view) => match ViewMsg::parse(event) {
                    Some(inner) => {
                        let message: Msg = Msg::In(view, inner);
                        assert(message.carried_by(*event));
                        Some(message)
                    },
                    None => {
                        assert forall|other: Msg| !#[trigger] other.carried_by(*event) by {
                            if other.carried_by(*event) {
                                if let Msg::In(_, inner) = other {
                                    assert(inner.carried_by(*event));
                                }
                            }
                        }
                        None
                    },
                },
                None => None,
            }
        }
    }
}

proof fn nothing_is_no_menu()
    ensures
        !listing::is_menu_key(Seq::empty()),
{
    reveal_strlit("filter");
    reveal_strlit("grouping");
    reveal_strlit("sorting");
    reveal_strlit("mission");
    reveal_strlit("period");
    reveal_strlit("cloud");
    reveal_strlit("row:");
    assert("filter"@.len() == 6);
    assert("grouping"@.len() == 8);
    assert("sorting"@.len() == 7);
    assert("mission"@.len() == 7);
    assert("period"@.len() == 6);
    assert("cloud"@.len() == 5);
    assert("row:"@.len() == 4);
}

proof fn flags_differ()
    ensures
        flag(true) != flag(false),
{
    reveal_strlit("true");
    reveal_strlit("false");
    assert("true"@.len() == 4);
    assert("false"@.len() == 5);
}

/// What a widget inside a tab declares is what comes back: an event that carries
/// it is read, and whatever is read from it is declared by the same method and
/// carries the same.
pub proof fn a_declared_view_message_survives_the_wire(message: ViewMsg, event: UiEventResponse)
    requires
        message.is_declared(),
        event.method@ == message.method(),
        event.carried() == message.payload(),
    ensures
        message.carried_by(event),
        forall|back: ViewMsg| #[trigger]
            back.carried_by(event) ==> back.method() == message.method() && back.payload() == message.payload(),
{
    flags_differ();
    nothing_is_no_menu();
    if let ViewMsg::Page(page) = message {
        number::written_reads_back(page as nat);
    }
    assert(message.carried_by(event));
    assert forall|back: ViewMsg| #[trigger] back.carried_by(event) implies back.method() == message.method()
        && back.payload() == message.payload() by {
        back.tag_is_of_the_method();
        message.tag_is_of_the_method();
        if let ViewMsg::OpenMenu(Some(menu)) = message {
            listing::menu_keys_are_menu_keys(menu);
        }
        if let ViewMsg::OpenMenu(Some(menu)) = back {
            listing::menu_keys_are_menu_keys(menu);
        }
    }
}

/// What the markup declares is what comes back: an event that carries it is
/// read, and whatever is read from it is declared by the same method, carries the
/// same and addresses the same.
pub proof fn a_declared_message_survives_the_wire(message: Msg, event: UiEventResponse)
    requires
        message.is_declared(),
        event.method@ == message.method(),
        event.key@ == message.addressee(),
        event.carried() == message.payload(),
    ensures
        exists|back: Msg| #[trigger] back.carried_by(event),
        forall|back: Msg| #[trigger]
            back.carried_by(event) ==> back.method() == message.method() && back.payload() == message.payload()
                && back.addressee() == message.addressee(),
{
    flags_differ();
    every_id_reads_back();
    match message {
        Msg::OverlayMenu(Some(key)) if key@.len() == 0 => {
            assert(Msg::OverlayMenu(None).carried_by(event));
        },
        Msg::OverlayVariables(Some(key)) if key@.len() == 0 => {
            assert(Msg::OverlayVariables(None).carried_by(event));
        },
        Msg::In(_, inner) => {
            a_declared_view_message_survives_the_wire(inner, event);
            assert(message.carried_by(event));
        },
        _ => {
            assert(message.carried_by(event));
        },
    }
    assert forall|back: Msg| #[trigger] back.carried_by(event) implies back.method() == message.method()
        && back.payload() == message.payload() && back.addressee() == message.addressee() by {
        back.tag_is_of_the_method();
        message.tag_is_of_the_method();
        if let Msg::In(_, inner) = message {
            a_declared_view_message_survives_the_wire(inner, event);
        }
    }
}

proof fn every_id_reads_back()
    ensures
        forall|id: u64| #[trigger] ids::read_id(number::written(id as nat)) == Some(id as nat),
{
    assert forall|id: u64| #[trigger] ids::read_id(number::written(id as nat)) == Some(id as nat) by {
        ids::an_id_reads_back(id);
    }
}

/// Nothing but a tab's own name makes a message of one that was born in a tab:
/// addressed to nobody, it is none.
pub proof fn a_view_message_needs_its_tab(message: ViewMsg, event: UiEventResponse)
    requires
        event.method@ == message.method(),
        ids::read_id(event.key@) is None,
    ensures
        forall|back: Msg| !#[trigger] back.carried_by(event),
{
    assert forall|back: Msg| !#[trigger] back.carried_by(event) by {
        if back.carried_by(event) {
            back.tag_is_of_the_method();
            message.tag_is_of_the_method();
        }
    }
}

/// What the kinds of tabs are called, on the screen and in writing.
pub proof fn what_the_tabs_are_called()
    ensures
        NewTab::Browse.label_spec() == "Сетевой каталог"@ && NewTab::Browse.key_spec() == "browse"@,
        NewTab::Search.label_spec() == "Поиск снимков"@ && NewTab::Search.key_spec() == "search"@,
        NewTab::Downloaded.label_spec() == "Скачанное"@ && NewTab::Downloaded.key_spec() == "downloaded"@,
        NewTab::Globe.label_spec() == "Глобус"@ && NewTab::Globe.key_spec() == "globe"@,
        NewTab::Shown.label_spec() == "На просмотре"@ && NewTab::Shown.key_spec() == "shown"@,
        NewTab::Empty.label_spec() == "Пустая вкладка"@ && NewTab::Empty.key_spec() == "empty"@,
{
}

/// Every kind of tab can be named, once; every kind but the empty one is offered.
pub proof fn which_tabs_are_offered(new: NewTab)
    ensures
        NewTab::all_spec().contains(new) && NewTab::all_spec().no_duplicates(),
        NewTab::kinds_spec().contains(new) <==> !(new is Empty),
        NewTab::kinds_spec().no_duplicates(),
{
    let all = NewTab::all_spec();
    assert(all[0] is Browse && all[1] is Search && all[2] is Downloaded && all[3] is Globe && all[4] is Shown && all[5]
        is Empty);
    let kinds = NewTab::kinds_spec();
    assert(kinds[0] is Browse && kinds[1] is Search && kinds[2] is Downloaded && kinds[3] is Globe && kinds[4] is Shown);
}

/// Yes and no are written as they are, and no open menu as nothing.
pub proof fn yes_and_no_are_written_as_they_are(menu: Menu)
    ensures
        flag(true) == "true"@,
        flag(false) == "false"@,
        menu_key(None).len() == 0,
        menu_key(Some(menu)) == menu.key_spec(),
{
}

} // verus!
