//! How a list is shown: what passes, in what order, on which page, and what is
//! chosen in it.

use vstd::prelude::*;
use crate::components::row::{self, RowStatus};
use crate::keyed::{Keyed, Names};
use crate::text;

verus! {

broadcast use vstd::string::group_string_axioms;

/// Which rows pass by their state.
#[derive(Clone, Copy, PartialEq, Eq, Structural, Debug)]
pub enum Filter {
    All,
    OnDisk,
    Downloading,
    Paused,
    Remote,
}

impl Filter {
    /// The key it travels by.
    pub open spec fn key_spec(self) -> Seq<char> {
        match self {
            Filter::All => "all"@,
            Filter::OnDisk => "on_disk"@,
            Filter::Downloading => "downloading"@,
            Filter::Paused => "paused"@,
            Filter::Remote => "remote"@,
        }
    }

    /// What it is called on the screen.
    pub open spec fn label_spec(self) -> Seq<char> {
        match self {
            Filter::All => "все"@,
            Filter::OnDisk => "на диске"@,
            Filter::Downloading => "скачивается"@,
            Filter::Paused => "прервано"@,
            Filter::Remote => "в хранилище"@,
        }
    }

    /// All of them, in the order in which they are offered.
    pub open spec fn all_spec() -> Seq<Filter> {
        seq![Filter::All, Filter::OnDisk, Filter::Downloading, Filter::Paused, Filter::Remote]
    }

    pub fn key(self) -> (key: &'static str)
        ensures
            key@ == self.key_spec(),
    {
        match self {
            Filter::All => "all",
            Filter::OnDisk => "on_disk",
            Filter::Downloading => "downloading",
            Filter::Paused => "paused",
            Filter::Remote => "remote",
        }
    }

    pub fn label(self) -> (label: &'static str)
        ensures
            label@ == self.label_spec(),
    {
        match self {
            Filter::All => "все",
            Filter::OnDisk => "на диске",
            Filter::Downloading => "скачивается",
            Filter::Paused => "прервано",
            Filter::Remote => "в хранилище",
        }
    }

    pub fn all() -> (all: Vec<Filter>)
        ensures
            all@ == Filter::all_spec(),
    {
        let mut all: Vec<Filter> = Vec::new();
        all.push(Filter::All);
        all.push(Filter::OnDisk);
        all.push(Filter::Downloading);
        all.push(Filter::Paused);
        all.push(Filter::Remote);
        assert(all@ =~= Filter::all_spec());
        all
    }

    /// The one that travels by this key.
    pub fn from_key(key: &str) -> (found: Option<Filter>)
        ensures
            match found {
                Some(one) => one.key_spec() == key@,
                None => forall|one: Filter| #[trigger] one.key_spec() != key@,
            },
    {
        if text::same(key, "all") {
            Some(Filter::All)
        } else if text::same(key, "on_disk") {
            Some(Filter::OnDisk)
        } else if text::same(key, "downloading") {
            Some(Filter::Downloading)
        } else if text::same(key, "paused") {
            Some(Filter::Paused)
        } else if text::same(key, "remote") {
            Some(Filter::Remote)
        } else {
            None
        }
    }

    /// No two travel by the same key.
    pub proof fn keys_differ(a: Filter, b: Filter)
        ensures
            a.key_spec() == b.key_spec() ==> a == b,
    {
        reveal_strlit("all");
        reveal_strlit("on_disk");
        reveal_strlit("downloading");
        reveal_strlit("paused");
        reveal_strlit("remote");
        assert("all"@.len() == 3);
        assert("on_disk"@.len() == 7);
        assert("downloading"@.len() == 11);
        assert("paused"@.len() == 6);
        assert("remote"@.len() == 6);
        assert("paused"@[0] != "remote"@[0]);
    }
}

impl Default for Filter {
    fn default() -> (one: Filter)
        ensures
            one == Filter::All,
    {
        Filter::All
    }
}

/// How rows are put together by their folders.
#[derive(Clone, Copy, PartialEq, Eq, Structural, Debug)]
pub enum Grouping {
    Flat,
    /// One heading per folder.
    Folder,
    /// A heading per segment of the path.
    Tree,
}

impl Grouping {
    /// The key it travels by.
    pub open spec fn key_spec(self) -> Seq<char> {
        match self {
            Grouping::Flat => "none"@,
            Grouping::Folder => "folder"@,
            Grouping::Tree => "tree"@,
        }
    }

    /// What it is called on the screen.
    pub open spec fn label_spec(self) -> Seq<char> {
        match self {
            Grouping::Flat => "нет"@,
            Grouping::Folder => "по папкам"@,
            Grouping::Tree => "деревом"@,
        }
    }

    /// All of them, in the order in which they are offered.
    pub open spec fn all_spec() -> Seq<Grouping> {
        seq![Grouping::Flat, Grouping::Folder, Grouping::Tree]
    }

    pub fn key(self) -> (key: &'static str)
        ensures
            key@ == self.key_spec(),
    {
        match self {
            Grouping::Flat => "none",
            Grouping::Folder => "folder",
            Grouping::Tree => "tree",
        }
    }

    pub fn label(self) -> (label: &'static str)
        ensures
            label@ == self.label_spec(),
    {
        match self {
            Grouping::Flat => "нет",
            Grouping::Folder => "по папкам",
            Grouping::Tree => "деревом",
        }
    }

    pub fn all() -> (all: Vec<Grouping>)
        ensures
            all@ == Grouping::all_spec(),
    {
        let mut all: Vec<Grouping> = Vec::new();
        all.push(Grouping::Flat);
        all.push(Grouping::Folder);
        all.push(Grouping::Tree);
        assert(all@ =~= Grouping::all_spec());
        all
    }

    /// The one that travels by this key.
    pub fn from_key(key: &str) -> (found: Option<Grouping>)
        ensures
            match found {
                Some(one) => one.key_spec() == key@,
                None => forall|one: Grouping| #[trigger] one.key_spec() != key@,
            },
    {
        if text::same(key, "none") {
            Some(Grouping::Flat)
        } else if text::same(key, "folder") {
            Some(Grouping::Folder)
        } else if text::same(key, "tree") {
            Some(Grouping::Tree)
        } else {
            None
        }
    }

    /// No two travel by the same key.
    pub proof fn keys_differ(a: Grouping, b: Grouping)
        ensures
            a.key_spec() == b.key_spec() ==> a == b,
    {
        reveal_strlit("none");
        reveal_strlit("folder");
        reveal_strlit("tree");
        assert("none"@.len() == 4);
        assert("folder"@.len() == 6);
        assert("tree"@.len() == 4);
        assert("none"@[0] != "tree"@[0]);
    }
}

impl Default for Grouping {
    fn default() -> (one: Grouping)
        ensures
            one == Grouping::Flat,
    {
        Grouping::Flat
    }
}

/// What rows are ordered by.
#[derive(Clone, Copy, PartialEq, Eq, Structural, Debug)]
pub enum Sorting {
    Newest,
    Name,
    Size,
}

impl Sorting {
    /// The key it travels by.
    pub open spec fn key_spec(self) -> Seq<char> {
        match self {
            Sorting::Newest => "newest"@,
            Sorting::Name => "name"@,
            Sorting::Size => "size"@,
        }
    }

    /// What it is called on the screen.
    pub open spec fn label_spec(self) -> Seq<char> {
        match self {
            Sorting::Newest => "сначала новые"@,
            Sorting::Name => "по имени"@,
            Sorting::Size => "сначала большие"@,
        }
    }

    /// All of them, in the order in which they are offered.
    pub open spec fn all_spec() -> Seq<Sorting> {
        seq![Sorting::Newest, Sorting::Name, Sorting::Size]
    }

    pub fn key(self) -> (key: &'static str)
        ensures
            key@ == self.key_spec(),
    {
        match self {
            Sorting::Newest => "newest",
            Sorting::Name => "name",
            Sorting::Size => "size",
        }
    }

    pub fn label(self) -> (label: &'static str)
        ensures
            label@ == self.label_spec(),
    {
        match self {
            Sorting::Newest => "сначала новые",
            Sorting::Name => "по имени",
            Sorting::Size => "сначала большие",
        }
    }

    pub fn all() -> (all: Vec<Sorting>)
        ensures
            all@ == Sorting::all_spec(),
    {
        let mut all: Vec<Sorting> = Vec::new();
        all.push(Sorting::Newest);
        all.push(Sorting::Name);
        all.push(Sorting::Size);
        assert(all@ =~= Sorting::all_spec());
        all
    }

    /// The one that travels by this key.
    pub fn from_key(key: &str) -> (found: Option<Sorting>)
        ensures
            match found {
                Some(one) => one.key_spec() == key@,
                None => forall|one: Sorting| #[trigger] one.key_spec() != key@,
            },
    {
        if text::same(key, "newest") {
            Some(Sorting::Newest)
        } else if text::same(key, "name") {
            Some(Sorting::Name)
        } else if text::same(key, "size") {
            Some(Sorting::Size)
        } else {
            None
        }
    }

    /// No two travel by the same key.
    pub proof fn keys_differ(a: Sorting, b: Sorting)
        ensures
            a.key_spec() == b.key_spec() ==> a == b,
    {
        reveal_strlit("newest");
        reveal_strlit("name");
        reveal_strlit("size");
        assert("newest"@.len() == 6);
        assert("name"@.len() == 4);
        assert("size"@.len() == 4);
        assert("name"@[0] != "size"@[0]);
    }
}

impl Default for Sorting {
    fn default() -> (one: Sorting)
        ensures
            one == Sorting::Newest,
    {
        Sorting::Newest
    }
}

impl Filter {
    /// A state passes: what is on disk in part passes with what is there whole.
    pub open spec fn passes(self, status: row::StatusView) -> bool {
        match self {
            Filter::All => true,
            Filter::OnDisk => status is Complete || status is Partial,
            Filter::Downloading => status is Downloading,
            Filter::Paused => status is Paused,
            Filter::Remote => status is Remote,
        }
    }

    pub fn matches(self, status: &RowStatus) -> (yes: bool)
        ensures
            yes == self.passes(status@),
    {
        match self {
            Filter::All => true,
            Filter::OnDisk => matches!(status, RowStatus::Complete | RowStatus::Partial { .. }),
            Filter::Downloading => matches!(status, RowStatus::Downloading { .. }),
            Filter::Paused => matches!(status, RowStatus::Paused { .. }),
            Filter::Remote => matches!(status, RowStatus::Remote),
        }
    }
}

/// A menu that can be open over a list.
pub enum Menu {
    Filter,
    Grouping,
    Sorting,
    Mission,
    Period,
    Cloud,
    /// The menu of the row with this key.
    Row(String),
}

/// What stands before the key of a row in the key of its menu.
pub open spec fn row_menu_prefix() -> Seq<char> {
    "row:"@
}

impl Menu {
    /// The key it travels by.
    pub open spec fn key_spec(self) -> Seq<char> {
        match self {
            Menu::Filter => "filter"@,
            Menu::Grouping => "grouping"@,
            Menu::Sorting => "sorting"@,
            Menu::Mission => "mission"@,
            Menu::Period => "period"@,
            Menu::Cloud => "cloud"@,
            Menu::Row(key) => row_menu_prefix() + key@,
        }
    }

    pub fn key(&self) -> (key: String)
        ensures
            key@ == self.key_spec(),
    {
        match self {
            Menu::Filter => "filter".to_owned(),
            Menu::Grouping => "grouping".to_owned(),
            Menu::Sorting => "sorting".to_owned(),
            Menu::Mission => "mission".to_owned(),
            Menu::Period => "period".to_owned(),
            Menu::Cloud => "cloud".to_owned(),
            Menu::Row(key) => text::concat("row:", key),
        }
    }

    /// The menu that travels by this key; `None` when none does.
    pub fn from_key(key: &str) -> (menu: Option<Menu>)
        ensures
            match menu {
                Some(menu) => menu.key_spec() == key@,
                None => !is_menu_key(key@),
            },
    {
        if text::same(key, "filter") {
            Some(Menu::Filter)
        } else if text::same(key, "grouping") {
            Some(Menu::Grouping)
        } else if text::same(key, "sorting") {
            Some(Menu::Sorting)
        } else if text::same(key, "mission") {
            Some(Menu::Mission)
        } else if text::same(key, "period") {
            Some(Menu::Period)
        } else if text::same(key, "cloud") {
            Some(Menu::Cloud)
        } else if text::starts_with(key, "row:") {
            proof {
                reveal_strlit("row:");
            }
            let length: usize = text::length(key);
            let row: String = text::slice(key, 4, length);
            assert(row_menu_prefix() + row@ =~= key@);
            Some(Menu::Row(row))
        } else {
            None
        }
    }
}

/// Some menu travels by this key.
pub open spec fn is_menu_key(key: Seq<char>) -> bool {
    ||| key == "filter"@
    ||| key == "grouping"@
    ||| key == "sorting"@
    ||| key == "mission"@
    ||| key == "period"@
    ||| key == "cloud"@
    ||| text::begins_with(key, row_menu_prefix())
}

/// Every menu's key is a menu's key.
pub proof fn menu_keys_are_menu_keys(menu: Menu)
    ensures
        is_menu_key(menu.key_spec()),
{
    if let Menu::Row(key) = menu {
        let whole = row_menu_prefix() + key@;
        assert(whole.subrange(0, row_menu_prefix().len() as int) =~= row_menu_prefix());
    }
}

/// What stands behind a chosen row. A file's keys are taken down when it is
/// chosen: by the time of the action its row may be gone from the screen.
pub enum Chosen {
    Snapshot,
    File { identifier: String, product: String, name: String },
}

/// What a choice says.
pub ghost enum ChosenView {
    Snapshot,
    File { identifier: Seq<char>, product: Seq<char>, name: Seq<char> },
}

impl View for Chosen {
    type V = ChosenView;

    open spec fn view(&self) -> ChosenView {
        match *self {
            Chosen::Snapshot => ChosenView::Snapshot,
            Chosen::File { identifier, product, name } => ChosenView::File {
                identifier: identifier@,
                product: product@,
                name: name@,
            },
        }
    }
}

impl Clone for Chosen {
    fn clone(&self) -> (copy: Chosen)
        ensures
            copy == *self,
    {
        match self {
            Chosen::Snapshot => Chosen::Snapshot,
            Chosen::File { identifier, product, name } => Chosen::File {
                identifier: identifier.clone(),
                product: product.clone(),
                name: name.clone(),
            },
        }
    }
}

/// How one list is shown.
pub struct ListingState {
    pub filter: Filter,
    pub grouping: Grouping,
    pub sorting: Sorting,
    /// What was typed into the filter field.
    pub query: String,
    pub page: usize,
    /// The keys of the rows that are open.
    pub expanded: Names,
    /// What is chosen, by the keys of the rows.
    pub selected: Keyed<Chosen>,
    /// Grows with every request to walk to a row, so that a repeated one is told
    /// from the same one.
    pub aim: u64,
}

impl ListingState {
    /// A list that was just opened.
    pub open spec fn is_fresh(self) -> bool {
        &&& self.filter == Filter::All
        &&& self.grouping == Grouping::Flat
        &&& self.sorting == Sorting::Newest
        &&& self.query@ == Seq::<char>::empty()
        &&& self.page == 0
        &&& self.expanded@ == Set::<Seq<char>>::empty()
        &&& self.selected@ == Map::<Seq<char>, Chosen>::empty()
        &&& self.aim == 0
    }
}

impl Default for ListingState {
    fn default() -> (listing: ListingState)
        ensures
            listing.is_fresh(),
    {
        ListingState {
            filter: Filter::All,
            grouping: Grouping::Flat,
            sorting: Sorting::Newest,
            query: String::new(),
            page: 0,
            expanded: Names::new(),
            selected: Keyed::new(),
            aim: 0,
        }
    }
}

impl ListingState {
    /// Chooses a row, or takes the choice back.
    pub fn select(&mut self, key: String, what: Chosen)
        ensures
            *final(self) == (ListingState { selected: final(self).selected, ..*old(self) }),
            final(self).selected@ == if old(self).selected@.contains_key(key@) {
                old(self).selected@.remove(key@)
            } else {
                old(self).selected@.insert(key@, what)
            },
    {
        match self.selected.remove(&key) {
            Some(_) => {},
            None => {
                assert(self.selected@ =~= old(self).selected@);
                self.selected.insert(key, what);
            },
        }
    }

    /// Opens a row, or closes it; says whether it is open now.
    pub fn expand(&mut self, key: String) -> (open: bool)
        ensures
            open == !old(self).expanded@.contains(key@),
            *final(self) == (ListingState { expanded: final(self).expanded, ..*old(self) }),
            final(self).expanded@ == if open { old(self).expanded@.insert(key@) } else { old(self).expanded@.remove(key@) },
    {
        if self.expanded.remove(&key) {
            false
        } else {
            assert(self.expanded@ =~= old(self).expanded@);
            self.expanded.insert(key);
            true
        }
    }
}

// -- Laws --

/// What a filter lets pass: all, what is on disk in whole or in part, what is on its way,
/// what was broken off, or what only the provider has.
pub proof fn a_filter_lets_its_own_pass(status: row::StatusView)
    ensures
        Filter::All.passes(status),
        Filter::OnDisk.passes(status) <==> status is Complete || status is Partial,
        Filter::Downloading.passes(status) <==> status is Downloading,
        Filter::Paused.passes(status) <==> status is Paused,
        Filter::Remote.passes(status) <==> status is Remote,
{
}

/// What the filters, the groupings and the orders are called, on the screen and in writing.
pub proof fn what_they_are_called()
    ensures
        Filter::All.label_spec() == "все"@ && Filter::All.key_spec() == "all"@,
        Filter::OnDisk.label_spec() == "на диске"@ && Filter::OnDisk.key_spec() == "on_disk"@,
        Filter::Downloading.label_spec() == "скачивается"@ && Filter::Downloading.key_spec() == "downloading"@,
        Filter::Paused.label_spec() == "прервано"@ && Filter::Paused.key_spec() == "paused"@,
        Filter::Remote.label_spec() == "в хранилище"@ && Filter::Remote.key_spec() == "remote"@,
        Grouping::Flat.label_spec() == "нет"@ && Grouping::Flat.key_spec() == "none"@,
        Grouping::Folder.label_spec() == "по папкам"@ && Grouping::Folder.key_spec() == "folder"@,
        Grouping::Tree.label_spec() == "деревом"@ && Grouping::Tree.key_spec() == "tree"@,
        Sorting::Newest.label_spec() == "сначала новые"@ && Sorting::Newest.key_spec() == "newest"@,
        Sorting::Name.label_spec() == "по имени"@ && Sorting::Name.key_spec() == "name"@,
        Sorting::Size.label_spec() == "сначала большие"@ && Sorting::Size.key_spec() == "size"@,
{
}

/// Every filter, every grouping and every order is offered, once.
pub proof fn each_is_offered_once(filter: Filter, grouping: Grouping, sorting: Sorting)
    ensures
        Filter::all_spec().contains(filter) && Filter::all_spec().no_duplicates(),
        Grouping::all_spec().contains(grouping) && Grouping::all_spec().no_duplicates(),
        Sorting::all_spec().contains(sorting) && Sorting::all_spec().no_duplicates(),
{
    let filters = Filter::all_spec();
    assert(filters[0] is All && filters[1] is OnDisk && filters[2] is Downloading && filters[3] is Paused && filters[4]
        is Remote);
    let groupings = Grouping::all_spec();
    assert(groupings[0] is Flat && groupings[1] is Folder && groupings[2] is Tree);
    let sortings = Sorting::all_spec();
    assert(sortings[0] is Newest && sortings[1] is Name && sortings[2] is Size);
}

/// What the menus go by; a row's menu goes by its row.
pub proof fn a_menu_goes_by_its_key(key: String)
    ensures
        Menu::Filter.key_spec() == "filter"@,
        Menu::Grouping.key_spec() == "grouping"@,
        Menu::Sorting.key_spec() == "sorting"@,
        Menu::Mission.key_spec() == "mission"@,
        Menu::Period.key_spec() == "period"@,
        Menu::Cloud.key_spec() == "cloud"@,
        Menu::Row(key).key_spec() == "row:"@ + key@,
{
}

} // verus!
