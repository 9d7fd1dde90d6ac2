//! A tab of the network catalogue: a folder, and the folders open in it.

use vstd::prelude::*;
use crate::keyed::Keyed;
use crate::state::listing::ListingState;
use crate::state::request::Latest;
use crate::text;

verus! {

broadcast use vstd::string::group_string_axioms;

/// A record of a listing, as a tab remembers it.
pub struct BrowseItem {
    pub identifier: String,
    pub name: String,
    pub size: u64,
    pub modified: i64,
    pub is_folder: bool,
    pub product: String,
    pub unviewable: String,
}

/// What a record of a listing says.
pub ghost struct ItemView {
    pub identifier: Seq<char>,
    pub name: Seq<char>,
    pub size: u64,
    pub modified: i64,
    pub is_folder: bool,
    pub product: Seq<char>,
    pub unviewable: Seq<char>,
}

impl View for BrowseItem {
    type V = ItemView;

    open spec fn view(&self) -> ItemView {
        ItemView {
            identifier: self.identifier@,
            name: self.name@,
            size: self.size,
            modified: self.modified,
            is_folder: self.is_folder,
            product: self.product@,
            unviewable: self.unviewable@,
        }
    }
}

pub open spec fn items_seen(items: Seq<BrowseItem>) -> Seq<ItemView> {
    items.map_values(|item: BrowseItem| item@)
}

/// One open folder: what is known of its contents.
pub struct Branch {
    pub items: Vec<BrowseItem>,
    /// More of it is on its way.
    pub waiting: bool,
}

/// The contents of open folders, by their paths.
pub struct Children {
    branches: Keyed<Branch>,
}

impl Children {
    /// The folders that were asked for, by their paths.
    pub closed spec fn branches(&self) -> Map<Seq<char>, Branch> {
        self.branches@
    }

    /// What is known of a folder's contents; nothing of one nobody asked for.
    pub open spec fn items(&self, path: Seq<char>) -> Seq<ItemView> {
        if self.branches().contains_key(path) { items_seen(self.branches()[path].items@) } else { Seq::empty() }
    }

    pub open spec fn is_waiting(&self, path: Seq<char>) -> bool {
        self.branches().contains_key(path) && self.branches()[path].waiting
    }

    /// How many folders were asked for.
    pub closed spec fn count(&self) -> nat {
        self.branches.listed().len()
    }

    /// No more folders are known than were asked for.
    pub proof fn count_covers_the_branches(&self)
        ensures
            self.branches().dom().finite(),
            self.branches().dom().len() <= self.count(),
    {
        self.branches.listed_is_the_domain();
    }

    pub fn new() -> (children: Children)
        ensures
            children.branches() == Map::<Seq<char>, Branch>::empty(),
            children.count() == 0,
    {
        Children { branches: Keyed::new() }
    }

    /// How many folders were asked for.
    pub fn len(&self) -> (count: usize)
        ensures
            count == self.count(),
    {
        self.branches.len()
    }

    /// Whether the folder was asked for.
    pub fn known(&self, path: &str) -> (yes: bool)
        ensures
            yes == self.branches().contains_key(path@),
    {
        self.branches.contains_key(path)
    }

    /// Whether more of the folder is on its way.
    pub fn waiting(&self, path: &str) -> (yes: bool)
        ensures
            yes == self.is_waiting(path@),
    {
        match self.branches.get(path) {
            Some(branch) => branch.waiting,
            None => false,
        }
    }

    /// What is known of a folder's contents.
    pub fn get(&self, path: &str) -> (items: &[BrowseItem])
        ensures
            items_seen(items@) == self.items(path@),
            !self.branches().contains_key(path@) ==> items@.len() == 0,
    {
        match self.branches.get(path) {
            Some(branch) => branch.items.as_slice(),
            None => {
                let none: &[BrowseItem] = &[];
                assert(items_seen(none@) =~= Seq::empty());
                none
            },
        }
    }

    /// A folder is asked for: nothing of it is known, and all is on its way.
    pub fn begin(&mut self, path: String)
        ensures
            final(self).branches().dom() == old(self).branches().dom().insert(path@),
            final(self).branches()[path@].items@.len() == 0,
            final(self).branches()[path@].waiting,
            forall|other: Seq<char>|
                other != path@ && old(self).branches().contains_key(other) ==> #[trigger] final(self).branches()[other]
                    == old(self).branches()[other],
    {
        let ghost key = path@;
        self.branches.insert(path, Branch { items: Vec::new(), waiting: true });
        assert(self.branches().dom() =~= old(self).branches().dom().insert(key));
    }

    /// More of a folder has come; says whether the folder is still remembered.
    pub fn extend(&mut self, path: &str, more: Vec<BrowseItem>) -> (remembered: bool)
        ensures
            remembered == old(self).branches().contains_key(path@),
            !remembered ==> final(self).branches() == old(self).branches(),
            remembered ==> {
                &&& final(self).branches().dom() == old(self).branches().dom()
                &&& final(self).branches()[path@].items@ == old(self).branches()[path@].items@ + more@
                &&& final(self).branches()[path@].waiting == old(self).branches()[path@].waiting
                &&& forall|other: Seq<char>|
                    other != path@ && old(self).branches().contains_key(other) ==> #[trigger] final(self).branches()[other]
                        == old(self).branches()[other]
            },
    {
        match self.branches.remove(path) {
            Some(mut branch) => {
                let mut more: Vec<BrowseItem> = more;
                branch.items.append(&mut more);
                self.branches.insert(path.to_owned(), branch);
                assert(self.branches().dom() =~= old(self).branches().dom());
                true
            },
            None => {
                assert(self.branches() =~= old(self).branches());
                false
            },
        }
    }

    /// All of a folder has come.
    pub fn settle(&mut self, path: &str)
        ensures
            final(self).branches().dom() == old(self).branches().dom(),
            old(self).branches().contains_key(path@) ==> final(self).branches()[path@] == (Branch {
                waiting: false,
                ..old(self).branches()[path@]
            }),
            forall|other: Seq<char>|
                other != path@ && old(self).branches().contains_key(other) ==> #[trigger] final(self).branches()[other]
                    == old(self).branches()[other],
    {
        match self.branches.remove(path) {
            Some(mut branch) => {
                branch.waiting = false;
                self.branches.insert(path.to_owned(), branch);
            },
            None => {},
        }
        assert(self.branches().dom() =~= old(self).branches().dom());
    }

    /// Forgets a folder: it will be asked for anew.
    pub fn forget(&mut self, path: &str)
        ensures
            final(self).branches() == old(self).branches().remove(path@),
    {
        self.branches.remove(path);
    }

    pub fn clear(&mut self)
        ensures
            final(self).branches() == Map::<Seq<char>, Branch>::empty(),
            final(self).count() == 0,
    {
        self.branches.clear();
    }
}

/// A tab of the catalogue.
pub struct BrowseState {
    /// The folder that is shown: with a slash at its end, empty for the root.
    pub current_path: String,
    pub items: Vec<BrowseItem>,
    pub children: Children,
    pub listing: ListingState,
    pub error: Option<String>,
    pub request: Latest,
}

impl Default for BrowseState {
    fn default() -> (browse: BrowseState)
        ensures
            browse.current_path@ == Seq::<char>::empty(),
            browse.items@.len() == 0,
            browse.children.branches() == Map::<Seq<char>, Branch>::empty(),
            browse.listing.is_fresh(),
            browse.error is None,
            browse.request.waiting() is None,
    {
        BrowseState {
            current_path: String::new(),
            items: Vec::new(),
            children: Children::new(),
            listing: ListingState::default(),
            error: None,
            request: Latest::new(),
        }
    }
}

impl BrowseState {
    /// The folder is the one shown, and its listing did not fail.
    pub open spec fn shows_spec(self, folder: Seq<char>) -> bool {
        self.current_path@ == folder && self.error is None
    }

    pub fn shows(&self, folder: &str) -> (yes: bool)
        ensures
            yes == self.shows_spec(folder@),
    {
        text::same(&self.current_path, folder) && self.error.is_none()
    }
}

} // verus!
