//! The network catalogue: folders that are entered, and rows that are opened.

use vstd::prelude::*;
use crate::calls::{self, Call};
use crate::components::arrange;
use crate::components::row::{self, Row};
use crate::components::rows;
use crate::handlers::library::{self, Counted};
use crate::handlers::nav;
use crate::handlers::outline;
use crate::number;
use crate::proto::{ListEntry, ListPathResponse};
use crate::state::browse::{self, BrowseItem, BrowseState, Children};
use crate::state::globe::Highlight;
use crate::state::ids::ViewId;
use crate::state::listing::ListingState;
use crate::state::request::Reply;
use crate::state::screen::{self, Screen, Tab, ViewKind};
use crate::state::{self, Listing, State};
use crate::text;

verus! {

broadcast use vstd::string::group_string_axioms;

/// How many records of one folder are read. The storage lists page by page, and a
/// root never ends.
pub const MAX_ITEMS: usize = 1000;

// -- To ask for a folder --

/// The path of a folder: with a slash at its end, and the root empty.
pub open spec fn slashed(path: Seq<char>) -> Seq<char> {
    if path.len() == 0 || path.last() == '/' { path } else { path + "/"@ }
}

/// A folder that was asked for and of which nothing has come.
pub open spec fn asked_anew(was: BrowseState, now: BrowseState, path: Seq<char>, mark: Seq<char>) -> bool {
    &&& now.current_path@ == path
    &&& now.error is None
    &&& now.items@.len() == 0
    &&& now.children.branches() == Map::<Seq<char>, browse::Branch>::empty()
    &&& now.children.count() == 0
    &&& now.listing == (ListingState { expanded: now.listing.expanded, page: 0, ..was.listing })
    &&& now.listing.expanded@ == Set::<Seq<char>>::empty()
    &&& now.request.waiting() == Some(mark)
}

/// A tab of the catalogue was sent to a folder; nothing happens to another tab.
pub open spec fn entered(before: State, after: State, view: ViewId, path: Seq<char>) -> bool {
    let mark = before.next_mark();
    match screen::kind_in(before.screen.views@, view) {
        Some(ViewKind::Browse(was)) => {
            &&& after == (State {
                screen: Screen { views: after.screen.views, ..before.screen },
                highlight: state::untargeted(before.highlight, view),
                asked: state::one_more(before.asked),
                listings: after.listings,
                calls: after.calls,
                ..before
            })
            &&& screen::kind_in(after.screen.views@, view) matches Some(ViewKind::Browse(now)) && {
                &&& asked_anew(was, now, slashed(path), mark)
                &&& after.screen.views@ == screen::with_kind(before.screen.views@, view, ViewKind::Browse(now))
            }
            &&& state::listings_seen(after.listings@) == state::listings_seen(before.listings@).insert(
                mark,
                state::ListingView::Path(view),
            )
            &&& after.said() == before.said().push(
                calls::CallView::ListPath {
                    path: slashed(path),
                    token: Seq::empty(),
                    recursive: false,
                    correlation: mark,
                },
            )
        },
        _ => after == before,
    }
}

proof fn ends_in_a_slash(path: Seq<char>)
    ensures
        text::ends_in(path, "/"@) == (path.len() > 0 && path.last() == '/'),
{
    reveal_strlit("/");
    assert("/"@ =~= seq!['/']);
    if path.len() > 0 {
        let end = path.subrange(path.len() - 1, path.len() as int);
        assert(end =~= seq![path.last()]);
        assert(end[0] == path.last());
        assert("/"@[0] == '/');
    }
}

fn with_slash(path: String) -> (whole: String)
    ensures
        whole@ == slashed(path@),
{
    proof {
        ends_in_a_slash(path@);
    }
    if path.as_str().is_empty() || text::ends_with(&path, "/") { path } else { text::concat(&path, "/") }
}

/// Asks for the contents of a folder for a tab, which shows an empty list until
/// they come. The one way in: for entering, for going up and for a new tab.
pub fn request_path(state: &mut State, view: ViewId, path: String)
    ensures
        entered(*old(state), *final(state), view, path@),
        old(state).screen.whole() ==> final(state).screen.whole(),
{
    let ghost before = *state;
    let ghost views = state.screen.views@;
    let ghost mark = state.next_mark();
    let is_browse: bool = match state.screen.get(view) {
        Some(ViewKind::Browse(_)) => true,
        _ => false,
    };
    if !is_browse {
        return;
    }
    let path: String = with_slash(path);
    let correlation: String = state.mark();
    if let Some(browse) = state.screen.browse_mut(view) {
        browse.current_path = path.clone();
        browse.error = None;
        browse.items.clear();
        browse.children.clear();
        browse.listing.expanded.clear();
        browse.listing.page = 0;
        browse.request.begin(correlation.clone());
    }
    proof {
        told_kind(views, view);
        if before.screen.whole() {
            screen::showing_other_things_keeps_whole(before.screen, state.screen);
        }
    }
    state.drop_target_in(view);
    state.listings.insert(correlation.clone(), Listing::Path(view));
    let call: Call = Call::ListPath { path, token: String::new(), recursive: false, correlation };
    proof {
        calls::said_push(state.calls@, call);
    }
    state.calls.push(call);
    assert(state::listings_seen(state.listings@) =~= state::listings_seen(before.listings@).insert(
        mark,
        state::ListingView::Path(view),
    ));
}

/// What a tab is told to show it shows, and no tab moves.
pub proof fn told_kind(views: Seq<Tab>, view: ViewId)
    ensures
        forall|kind: ViewKind| #[trigger]
            screen::with_kind(views, view, kind).len() == views.len() && screen::same_places(
                views,
                screen::with_kind(views, view, kind),
            ),
        screen::kind_in(views, view) is Some ==> forall|kind: ViewKind|
            #[trigger] screen::kind_in(screen::with_kind(views, view, kind), view) == Some(kind),
{
    assert forall|kind: ViewKind| #[trigger]
        screen::with_kind(views, view, kind).len() == views.len() && screen::same_places(
            views,
            screen::with_kind(views, view, kind),
        ) by {
        screen::with_kind_keeps_places(views, view, kind);
    }
    if screen::kind_in(views, view) is Some {
        assert forall|kind: ViewKind|
            #[trigger] screen::kind_in(screen::with_kind(views, view, kind), view) == Some(kind) by {
            screen::with_kind_keeps_places(views, view, kind);
        }
    }
}

/// The children of a tab once a folder was asked for.
pub open spec fn begun(was: Children, now: Children, path: Seq<char>) -> bool {
    &&& now.branches().dom() == was.branches().dom().insert(path)
    &&& now.branches()[path].items@.len() == 0
    &&& now.branches()[path].waiting
    &&& forall|other: Seq<char>|
        other != path && was.branches().contains_key(other) ==> #[trigger] now.branches()[other] == was.branches()[other]
}

/// A row was opened in a tab: its contents are asked for, once.
pub open spec fn opened(before: State, after: State, view: ViewId, key: Seq<char>) -> bool {
    let mark = before.next_mark();
    let path = row::listing_path(key);
    let children = match screen::kind_in(before.screen.views@, view) {
        Some(kind) => kind.children_spec(),
        None => None,
    };
    match children {
        Some(was) => if text::begins_with(key, row::scene_prefix()) || was.branches().contains_key(path) {
            after == before
        } else {
            &&& after == (State {
                screen: Screen { views: after.screen.views, ..before.screen },
                asked: state::one_more(before.asked),
                listings: after.listings,
                calls: after.calls,
                ..before
            })
            &&& screen::kind_in(before.screen.views@, view) matches Some(kind) && screen::kind_in(
                after.screen.views@,
                view,
            ) matches Some(now) && now.children_spec() matches Some(children) && {
                &&& begun(was, children, path)
                &&& now == kind.with_children(children)
                &&& after.screen.views@ == screen::with_kind(before.screen.views@, view, now)
            }
            &&& state::listings_seen(after.listings@) == state::listings_seen(before.listings@).insert(
                mark,
                state::ListingView::Children(view, path),
            )
            &&& after.said() == before.said().push(
                calls::CallView::ListPath { path, token: Seq::empty(), recursive: false, correlation: mark },
            )
        },
        None => after == before,
    }
}

/// Asks for the contents of a row that was opened. Asked once: what a folder holds
/// does not change by opening and closing it. The key of a snapshot of several parts
/// is no path, and nothing is listed under it.
pub fn request_children(state: &mut State, view: ViewId, key: String)
    ensures
        opened(*old(state), *final(state), view, key@),
        old(state).screen.whole() ==> final(state).screen.whole(),
{
    let ghost before = *state;
    let ghost views = state.screen.views@;
    let ghost mark = state.next_mark();
    let path: String = row::folder_path(&key);
    let fresh: bool = match state.screen.get(view) {
        Some(ViewKind::Browse(browse)) => !browse.children.known(&path),
        Some(ViewKind::Search(search)) => !search.children.known(&path),
        _ => false,
    };
    if !fresh || row::is_scene_key(&key) {
        return;
    }
    let correlation: String = state.mark();
    if let Some(kind) = state.screen.get_mut(view) {
        if let Some(children) = kind.children_mut() {
            children.begin(path.clone());
        }
    }
    proof {
        told_kind(views, view);
        if before.screen.whole() {
            screen::showing_other_things_keeps_whole(before.screen, state.screen);
        }
    }
    let ghost name = path@;
    state.listings.insert(correlation.clone(), Listing::Children(view, path.clone()));
    let call: Call = Call::ListPath { path, token: String::new(), recursive: false, correlation };
    proof {
        calls::said_push(state.calls@, call);
    }
    state.calls.push(call);
    assert(state::listings_seen(state.listings@) =~= state::listings_seen(before.listings@).insert(
        mark,
        state::ListingView::Children(view, name),
    ));
}

/// A tab was told to go to a folder; no path stands for the folder it shows. A tab
/// that is no catalogue leads into one.
pub open spec fn gone_to(before: State, after: State, view: ViewId, path: Seq<char>) -> bool {
    match screen::kind_in(before.screen.views@, view) {
        Some(ViewKind::Browse(browse)) => entered(
            before,
            after,
            view,
            if path.len() == 0 { browse.current_path@ } else { path },
        ),
        _ => if path.len() == 0 {
            after == before
        } else {
            exists|there: State, opened: ViewId| #[trigger]
                nav::catalogue_at_hand(before, there, view, opened) && entered(there, after, opened, path)
        },
    }
}

/// Goes to a folder, or reads the one that is shown anew. From a tab that is no
/// catalogue it goes into an open one: to show a folder is to go there.
pub fn on_enter(state: &mut State, view: ViewId, path: String)
    requires
        old(state).screen.whole(),
        old(state).screen.next < u64::MAX,
    ensures
        gone_to(*old(state), *final(state), view, path@),
        final(state).screen.whole(),
{
    let ghost before = *state;
    let current: Option<String> = match state.screen.get(view) {
        Some(ViewKind::Browse(browse)) => Some(browse.current_path.clone()),
        _ => None,
    };
    match current {
        None => {
            if !path.as_str().is_empty() {
                let opened: ViewId = nav::catalog(state, view);
                let ghost there = *state;
                request_path(state, opened, path);
                assert(nav::catalogue_at_hand(before, there, view, opened));
            }
        },
        Some(current) => {
            let target: String = if path.as_str().is_empty() { current } else { path };
            request_path(state, view, target);
        },
    }
}

/// The folder above a folder: the path without its last segment.
pub open spec fn above(path: Seq<char>) -> Seq<char> {
    let bare = if path.len() > 0 && path.last() == '/' { path.drop_last() } else { path };
    let cut = text::last_index(bare, '/');
    if cut >= 0 { bare.take(cut + 1) } else { Seq::empty() }
}

/// Goes to the folder above.
pub fn on_up(state: &mut State, view: ViewId)
    ensures
        match screen::kind_in(old(state).screen.views@, view) {
            Some(ViewKind::Browse(browse)) => entered(*old(state), *final(state), view, above(browse.current_path@)),
            _ => *final(state) == *old(state),
        },
        old(state).screen.whole() ==> final(state).screen.whole(),
{
    let path: String = match state.screen.get(view) {
        Some(ViewKind::Browse(browse)) => browse.current_path.clone(),
        _ => {
            return;
        },
    };
    proof {
        ends_in_a_slash(path@);
    }
    let length: usize = text::length(&path);
    let bare: String = if text::ends_with(&path, "/") {
        assert(path@.subrange(0, length - 1) =~= path@.drop_last());
        text::slice(&path, 0, length - 1)
    } else {
        path.clone()
    };
    let target: String = match text::rfind(&bare, '/') {
        Some(cut) => {
            assert(bare@.subrange(0, cut + 1) =~= bare@.take(cut + 1));
            text::slice(&bare, 0, cut + 1)
        },
        None => String::new(),
    };
    assert(target@ == above(path@));
    request_path(state, view, target);
}

// -- To walk to a row --

/// The state once a tab stands on the page of the row that it was walked to. Where
/// the row is in the folder but was left out of the list, that is said: led nowhere
/// and did not work look the same.
pub open spec fn aimed(before: State, after: State, view: ViewId) -> bool {
    let key = state::target_of(before.highlight, view);
    let rows = rows::sky(before).rows(screen::kind_in(before.screen.views@, view));
    match screen::listing_in(before.screen.views@, view) {
        Some(listing) => {
            let at = arrange::first_named(arrange::shown_rows(rows, listing), key);
            if key.len() == 0 {
                after == before
            } else if at >= 0 {
                &&& after == (State { screen: Screen { views: after.screen.views, ..before.screen }, ..before })
                &&& after.screen.views@ == screen::with_listing(
                    before.screen.views@,
                    view,
                    ListingState { page: (at / arrange::PAGE_SIZE as int) as usize, ..listing },
                )
            } else if arrange::first_named(rows, key) >= 0 {
                &&& after == (State { notice: after.notice, ..before })
                &&& library::notices(after, "Строка есть в папке, но её скрыл отбор"@)
            } else {
                after == before
            }
        },
        None => after == before,
    }
}

fn any_named(rows: &Vec<Row>, key: &str) -> (yes: bool)
    ensures
        yes == (arrange::first_named(row::all_seen(rows@), key@) >= 0),
{
    let ghost all = row::all_seen(rows@);
    proof {
        row::all_seen_by_one(rows@);
    }
    let mut i: usize = 0;
    while i < rows.len()
        invariant
            i <= rows@.len(),
            all == row::all_seen(rows@),
            all.len() == rows@.len(),
            forall|j: int| 0 <= j < all.len() ==> #[trigger] all[j] == rows@[j]@,
            arrange::first_named(all.take(i as int), key@) == -1,
        decreases rows@.len() - i,
    {
        assert(all.take(i + 1).drop_last() =~= all.take(i as int));
        assert(all.take(i + 1).last() == rows@[i as int]@);
        if rows[i].named(key) {
            proof {
                named_stays_named(all, key@, i + 1);
            }
            return true;
        }
        i += 1;
    }
    assert(all.take(all.len() as int) =~= all);
    false
}

proof fn named_stays_named(rows: Seq<row::RowView>, key: Seq<char>, cut: int)
    requires
        0 <= cut <= rows.len(),
        arrange::first_named(rows.take(cut), key) >= 0,
    ensures
        arrange::first_named(rows, key) >= 0,
    decreases rows.len() - cut,
{
    if cut == rows.len() {
        assert(rows.take(cut) =~= rows);
    } else {
        assert(rows.take(cut + 1).drop_last() =~= rows.take(cut));
        named_stays_named(rows, key, cut + 1);
    }
}

/// Stands on the page of the row that the tab was walked to: by the rows and the
/// order that are shown.
fn aim(state: &mut State, view: ViewId)
    ensures
        aimed(*old(state), *final(state), view),
        old(state).screen.whole() ==> final(state).screen.whole(),
{
    let ghost before = *state;
    let rows: Vec<Row> = rows::of(state, view);
    let (page, hidden): (Option<usize>, bool) = match state.screen.listing(view) {
        Some(listing) => {
            let key: &str = state.target_in(view);
            if key.is_empty() {
                return;
            }
            let page: Option<usize> = arrange::page_of(rows.as_slice(), listing, key);
            (page, page.is_none() && any_named(&rows, key))
        },
        None => {
            return;
        },
    };
    match page {
        Some(page) => {
            if let Some(listing) = state.screen.listing_mut(view) {
                listing.page = page;
            }
            proof {
                if let Some(listing) = screen::listing_in(before.screen.views@, view) {
                    screen::with_listing_is_told(before.screen.views@, view, ListingState { page, ..listing });
                }
                if before.screen.whole() {
                    screen::showing_other_things_keeps_whole(before.screen, state.screen);
                }
            }
        },
        None => {
            if hidden {
                state.notice = Some("Строка есть в папке, но её скрыл отбор".to_owned());
            }
        },
    }
}

/// The folder that a record lies in, as it is shown.
pub open spec fn home(key: Seq<char>) -> Seq<char> {
    let folder = row::parent(key);
    if folder.len() == 0 { Seq::empty() } else { folder + "/"@ }
}

/// The tab shows this folder already.
pub open spec fn is_here(state: State, view: ViewId, folder: Seq<char>) -> bool {
    screen::kind_in(state.screen.views@, view) matches Some(ViewKind::Browse(browse)) && browse.shows_spec(folder)
}

/// The list of a tab is to be walked anew, even to the same row.
pub open spec fn aim_renewed(before: State, after: State, view: ViewId) -> bool {
    &&& after == (State { screen: Screen { views: after.screen.views, ..before.screen }, ..before })
    &&& after.screen.views@ == match screen::listing_in(before.screen.views@, view) {
        Some(listing) => screen::with_listing(
            before.screen.views@,
            view,
            ListingState { aim: if listing.aim < u64::MAX { (listing.aim + 1) as u64 } else { 0 }, ..listing },
        ),
        None => before.screen.views@,
    }
}

/// The pick on the globe is taken back.
pub open spec fn pick_dropped(before: State, after: State) -> bool {
    &&& after == (State { highlight: state::unpicked(before.highlight), calls: after.calls, ..before })
    &&& after.said() == if before.highlight matches Some(highlight) && highlight.on_globe {
        before.said().push(outline::outlines_call(after))
    } else {
        before.said()
    }
}

/// A tab was walked to a record: into its folder, unless it is there, and onto its
/// row. Another row than the one picked on the globe takes the pick back: one row is
/// highlighted on the screen.
pub open spec fn walked(before: State, after: State, view: ViewId, key: Seq<char>) -> bool {
    let here = is_here(before, view, home(key));
    let same = state::picked_of(before.highlight) == key;
    exists|there: State, lone: State, again: State, lit: State| {
        &&& if here { there == before } else { entered(before, there, view, home(key)) }
        &&& if same { lone == there } else { pick_dropped(there, lone) }
        &&& #[trigger] aim_renewed(lone, again, view)
        &&& lit == (State { highlight: lit.highlight, ..again })
        &&& lit.highlight matches Some(highlight) && {
            &&& highlight.key@ == key
            &&& highlight.view == Some(view)
            &&& highlight.on_globe == same
        }
        &&& #[trigger] walk_ended(there, lit, after, view, here)
    }
}

/// Where the folder is shown, the page of the row is found at once; otherwise when
/// the folder has come.
pub open spec fn walk_ended(there: State, lit: State, after: State, view: ViewId, here: bool) -> bool {
    if here { aimed(lit, after, view) } else { after == lit }
}

/// Shows a record in the catalogue: goes into its folder and stands on its row. A
/// folder that is shown already is not read again.
pub fn reveal_record(state: &mut State, view: ViewId, key: String)
    ensures
        walked(*old(state), *final(state), view, key@),
        old(state).screen.whole() ==> final(state).screen.whole(),
{
    let ghost before = *state;
    let ghost name = key@;
    let folder: &str = row::folder_of(&key);
    let folder: String = if folder.is_empty() { String::new() } else { text::concat(folder, "/") };
    proof {
        if row::parent(name).len() > 0 {
            reveal_strlit("/");
            assert("/"@ =~= seq!['/']);
            assert((row::parent(name) + "/"@).last() == '/');
        }
        assert(slashed(home(name)) == home(name));
    }
    let here: bool = match state.screen.get(view) {
        Some(ViewKind::Browse(browse)) => browse.shows(&folder),
        _ => false,
    };
    if !here {
        request_path(state, view, folder);
    }
    let ghost there = *state;
    let same: bool = text::same(state.picked_key(), &key);
    if !same {
        outline::deselect(state);
    }
    let ghost lone = *state;
    if let Some(listing) = state.screen.listing_mut(view) {
        listing.aim = listing.aim.wrapping_add(1);
    }
    proof {
        if let Some(listing) = screen::listing_in(lone.screen.views@, view) {
            screen::with_listing_is_told(
                lone.screen.views@,
                view,
                ListingState { aim: if listing.aim < u64::MAX { (listing.aim + 1) as u64 } else { 0 }, ..listing },
            );
        }
        if lone.screen.whole() {
            screen::showing_other_things_keeps_whole(lone.screen, state.screen);
        }
    }
    let ghost again = *state;
    assert(aim_renewed(lone, again, view));
    state.highlight = Some(Highlight { key, view: Some(view), on_globe: same });
    let ghost lit = *state;
    if here {
        aim(state, view);
    }
    proof {
        assert(here == is_here(before, view, home(name)));
        assert(if here { there == before } else { entered(before, there, view, home(name)) });
        assert(same == (state::picked_of(before.highlight) == name));
        assert(if same { lone == there } else { pick_dropped(there, lone) });
        assert(lit == (State { highlight: lit.highlight, ..again }));
    }
    assert(walk_ended(there, lit, *state, view, here));
}

// -- What has come --

/// A line of a listing as a tab remembers it: a folder is told by its key.
pub open spec fn item_of(entry: ListEntry) -> browse::ItemView {
    browse::ItemView {
        identifier: entry.key@,
        name: row::leaf(entry.key@),
        size: entry.size,
        modified: entry.modified,
        is_folder: text::ends_in(entry.key@, "/"@),
        product: entry.product@,
        unviewable: entry.unviewable@,
    }
}

pub open spec fn items_of(entries: Seq<ListEntry>) -> Seq<browse::ItemView> {
    entries.map_values(|entry: ListEntry| item_of(entry))
}

fn item(entry: &ListEntry) -> (item: BrowseItem)
    ensures
        item@ == item_of(*entry),
{
    BrowseItem {
        is_folder: text::ends_with(&entry.key, "/"),
        product: entry.product.clone(),
        name: row::last_segment(&entry.key).to_owned(),
        identifier: entry.key.clone(),
        size: entry.size,
        modified: entry.modified,
        unviewable: entry.unviewable.clone(),
    }
}

fn all_items(entries: &Vec<ListEntry>) -> (items: Vec<BrowseItem>)
    ensures
        browse::items_seen(items@) == items_of(entries@),
        items@.len() == entries@.len(),
{
    let ghost all = items_of(entries@);
    let mut items: Vec<BrowseItem> = Vec::new();
    let mut i: usize = 0;
    assert(browse::items_seen(items@) =~= all.take(0));
    while i < entries.len()
        invariant
            i <= entries@.len(),
            all == items_of(entries@),
            items@.len() == i,
            browse::items_seen(items@) == all.take(i as int),
        decreases entries@.len() - i,
    {
        let ghost before = items@;
        items.push(item(&entries[i]));
        assert(browse::items_seen(items@) =~= browse::items_seen(before).push(all[i as int]));
        assert(all.take(i + 1) =~= all.take(i as int).push(all[i as int]));
        i += 1;
    }
    assert(all.take(all.len() as int) =~= all);
    items
}

/// A tab of the catalogue with more records of its folder.
pub open spec fn grown(was: BrowseState, now: BrowseState, entries: Seq<ListEntry>, waiting: Option<Seq<char>>) -> bool {
    &&& now == (BrowseState { items: now.items, error: None, request: now.request, ..was })
    &&& browse::items_seen(now.items@) == browse::items_seen(was.items@) + items_of(entries)
    &&& now.request.waiting() == waiting
}

/// Only what one tab of the catalogue shows has changed.
pub open spec fn only_browse(before: State, after: State, view: ViewId, now: BrowseState) -> bool {
    &&& after == (State { screen: Screen { views: after.screen.views, ..before.screen }, ..before })
    &&& after.screen.views@ == screen::with_kind(before.screen.views@, view, ViewKind::Browse(now))
}

/// What is said when a folder is too long.
pub open spec fn cut_words(shown: nat) -> Seq<char> {
    "Показаны первые "@ + number::written(shown) + " записей папки"@
}

/// A page of the folder that a tab shows has come. A tab that is gone, or has gone
/// on to another folder, takes no notice. A folder is read page by page, up to a
/// limit, and when the limit is reached that is said: what is whole and what was cut
/// look the same.
pub open spec fn path_came(
    before: State,
    after: State,
    view: ViewId,
    correlation: Seq<char>,
    response: ListPathResponse,
) -> bool {
    match screen::kind_in(before.screen.views@, view) {
        Some(ViewKind::Browse(was)) => {
            let shown = was.items@.len() + response.entries@.len();
            let cut = response.next_token@.len() > 0 && shown >= MAX_ITEMS;
            let more = response.next_token@.len() > 0 && !cut;
            if was.request.waiting() != Some(correlation) {
                after == before
            } else if response.error@.len() > 0 {
                exists|now: BrowseState| {
                    &&& #[trigger] only_browse(before, after, view, now)
                    &&& now == (BrowseState { items: now.items, error: Some(response.error), request: now.request, ..was })
                    &&& now.items@.len() == 0
                    &&& now.request.waiting() is None
                }
            } else if more {
                exists|now: BrowseState, middle: State| {
                    &&& #[trigger] only_browse(before, middle, view, now)
                    &&& grown(was, now, response.entries@, Some(correlation))
                    &&& after == (State { listings: after.listings, calls: after.calls, ..middle })
                    &&& state::listings_seen(after.listings@) == state::listings_seen(before.listings@).insert(
                        correlation,
                        state::ListingView::Path(view),
                    )
                    &&& after.said() == before.said().push(
                        calls::CallView::ListPath {
                            path: was.current_path@,
                            token: response.next_token@,
                            recursive: false,
                            correlation,
                        },
                    )
                }
            } else {
                exists|now: BrowseState, middle: State, said: State| {
                    &&& #[trigger] only_browse(before, middle, view, now)
                    &&& grown(was, now, response.entries@, None)
                    &&& said == (State { notice: said.notice, ..middle })
                    &&& if cut { library::notices(said, cut_words(shown)) } else { said.notice == middle.notice }
                    &&& #[trigger] aimed(said, after, view)
                }
            }
        },
        _ => after == before,
    }
}

fn on_path(state: &mut State, view: ViewId, correlation: String, response: ListPathResponse)
    ensures
        path_came(*old(state), *final(state), view, correlation@, response),
        old(state).screen.whole() ==> final(state).screen.whole(),
{
    let ghost before = *state;
    let ghost views = state.screen.views@;
    let ghost mark = correlation@;
    proof {
        told_kind(views, view);
    }
    let current: bool = match state.screen.get(view) {
        Some(ViewKind::Browse(browse)) => browse.request.status(&correlation) == Reply::Current,
        _ => false,
    };
    if !current {
        return;
    }
    if !response.error.as_str().is_empty() {
        if let Some(browse) = state.screen.browse_mut(view) {
            browse.request.settle(&correlation);
            browse.error = Some(response.error);
            browse.items.clear();
        }
        proof {
            if let Some(ViewKind::Browse(now)) = screen::kind_in(state.screen.views@, view) {
                assert(only_browse(before, *state, view, now));
            }
            if before.screen.whole() {
                screen::showing_other_things_keeps_whole(before.screen, state.screen);
            }
        }
        return;
    }
    let last: bool = response.next_token.as_str().is_empty();
    let mut items: Vec<BrowseItem> = all_items(&response.entries);
    let ghost come = items@;
    let mut shown: usize = 0;
    let mut more: bool = false;
    let mut path: String = String::new();
    if let Some(browse) = state.screen.browse_mut(view) {
        let ghost earlier = browse.items@;
        browse.error = None;
        browse.items.append(&mut items);
        proof {
            assert(browse::items_seen(earlier + come) =~= browse::items_seen(earlier) + browse::items_seen(come));
        }
        shown = browse.items.len();
        more = !last && shown < MAX_ITEMS;
        path = browse.current_path.clone();
        if !more {
            browse.request.settle(&correlation);
        }
    }
    let ghost middle = *state;
    proof {
        if let Some(ViewKind::Browse(now)) = screen::kind_in(state.screen.views@, view) {
            assert(only_browse(before, middle, view, now));
        }
        if before.screen.whole() {
            screen::showing_other_things_keeps_whole(before.screen, state.screen);
        }
    }
    if !more {
        if !last {
            let mut words: String = "Показаны первые ".to_owned();
            words.append(&number::decimal(shown as u128));
            words.append(" записей папки");
            state.notice = Some(words);
        }
        let ghost said = *state;
        aim(state, view);
        assert(aimed(said, *state, view));
        return;
    }
    state.listings.insert(correlation.clone(), Listing::Path(view));
    let call: Call = Call::ListPath { path, token: response.next_token, recursive: false, correlation };
    proof {
        calls::said_push(state.calls@, call);
    }
    state.calls.push(call);
    assert(state::listings_seen(state.listings@) =~= state::listings_seen(before.listings@).insert(
        mark,
        state::ListingView::Path(view),
    ));
}

/// How a folder is called in a notice: by its name and not by its path, which would
/// take all the room.
pub open spec fn short_name(key: Seq<char>) -> Seq<char> {
    crate::components::format::cut_middle(row::leaf(key), 24)
}

fn named(key: &str) -> (name: String)
    ensures
        name@ == short_name(key@),
{
    crate::components::format::ellipsize(row::last_segment(key), 24)
}

/// Only the open folders of one tab have changed.
pub open spec fn only_children(before: State, after: State, view: ViewId, now: Children) -> bool {
    &&& after == (State { screen: Screen { views: after.screen.views, ..before.screen }, ..before })
    &&& screen::kind_in(before.screen.views@, view) matches Some(kind) && after.screen.views@ == screen::with_kind(
        before.screen.views@,
        view,
        kind.with_children(now),
    )
}

/// An open folder with more records.
pub open spec fn lengthened(was: Children, now: Children, key: Seq<char>, entries: Seq<ListEntry>, waiting: bool) -> bool {
    &&& now.branches().dom() == was.branches().dom()
    &&& browse::items_seen(now.branches()[key].items@) == browse::items_seen(was.branches()[key].items@) + items_of(entries)
    &&& now.branches()[key].waiting == waiting
    &&& forall|other: Seq<char>|
        other != key && was.branches().contains_key(other) ==> #[trigger] now.branches()[other] == was.branches()[other]
}

/// A page of a row that was opened has come. What did not work out is said and
/// forgotten, so that the next opening asks again. A folder that was forgotten
/// meanwhile takes no notice, and one that is too long is cut and said to be.
pub open spec fn children_came(
    before: State,
    after: State,
    view: ViewId,
    key: Seq<char>,
    correlation: Seq<char>,
    response: ListPathResponse,
) -> bool {
    let children = match screen::kind_in(before.screen.views@, view) {
        Some(kind) => kind.children_spec(),
        None => None,
    };
    match children {
        None => after == before,
        Some(was) => {
            let shown = was.items(key).len() + response.entries@.len();
            if response.error@.len() > 0 {
                exists|now: Children, middle: State| {
                    &&& #[trigger] only_children(before, middle, view, now)
                    &&& now.branches() == was.branches().remove(key)
                    &&& after == (State { notice: after.notice, ..middle })
                    &&& library::notices(after, "Папка не раскрылась: "@ + response.error@)
                }
            } else if !was.branches().contains_key(key) {
                exists|now: Children| #[trigger]
                    only_children(before, after, view, now) && now.branches() == was.branches()
            } else if response.next_token@.len() == 0 {
                exists|now: Children| #[trigger]
                    only_children(before, after, view, now) && lengthened(was, now, key, response.entries@, false)
            } else if shown >= MAX_ITEMS {
                exists|now: Children, middle: State| {
                    &&& #[trigger] only_children(before, middle, view, now)
                    &&& lengthened(was, now, key, response.entries@, false)
                    &&& after == (State { notice: after.notice, ..middle })
                    &&& library::notices(
                        after,
                        "«"@ + short_name(key) + "»: показаны первые "@ + number::written(shown) + " записей"@,
                    )
                }
            } else {
                exists|now: Children, middle: State| {
                    &&& #[trigger] only_children(before, middle, view, now)
                    &&& lengthened(was, now, key, response.entries@, was.branches()[key].waiting)
                    &&& after == (State { listings: after.listings, calls: after.calls, ..middle })
                    &&& state::listings_seen(after.listings@) == state::listings_seen(before.listings@).insert(
                        correlation,
                        state::ListingView::Children(view, key),
                    )
                    &&& after.said() == before.said().push(
                        calls::CallView::ListPath {
                            path: key,
                            token: response.next_token@,
                            recursive: false,
                            correlation,
                        },
                    )
                }
            }
        },
    }
}

fn on_children(state: &mut State, view: ViewId, key: String, correlation: String, response: ListPathResponse)
    ensures
        children_came(*old(state), *final(state), view, key@, correlation@, response),
        old(state).screen.whole() ==> final(state).screen.whole(),
{
    let ghost before = *state;
    let ghost views = state.screen.views@;
    let ghost mark = correlation@;
    let ghost name = key@;
    proof {
        told_kind(views, view);
    }
    let ghost mut was: Children = arbitrary();
    let ghost mut now: Children = arbitrary();
    let mut remembered: bool = false;
    let mut shown: usize = 0;
    let refused: bool = !response.error.as_str().is_empty();
    let last: bool = response.next_token.as_str().is_empty();
    let opens: bool = match state.screen.get(view) {
        Some(ViewKind::Browse(_)) => true,
        Some(ViewKind::Search(_)) => true,
        _ => false,
    };
    if !opens {
        return;
    }
    let items: Vec<BrowseItem> = all_items(&response.entries);
    let ghost come = items@;
    match state.screen.get_mut(view) {
        Some(kind) => match kind.children_mut() {
            Some(children) => {
                proof {
                    was = *children;
                }
                if refused {
                    children.forget(&key);
                } else {
                    remembered = children.extend(&key, items);
                    if remembered {
                        proof {
                            let earlier = was.branches()[name].items@;
                            assert(browse::items_seen(earlier + come) =~= browse::items_seen(earlier) + browse::items_seen(
                                come,
                            ));
                        }
                        shown = children.get(&key).len();
                        if last || shown >= MAX_ITEMS {
                            children.settle(&key);
                        }
                    }
                }
                proof {
                    now = *children;
                }
            },
            None => {
                return;
            },
        },
        None => {
            return;
        },
    }
    let ghost middle = *state;
    assert(only_children(before, middle, view, now));
    proof {
        if before.screen.whole() {
            screen::showing_other_things_keeps_whole(before.screen, state.screen);
        }
    }
    if refused {
        state.notice = Some(text::concat("Папка не раскрылась: ", &response.error));
        return;
    }
    if !remembered || last {
        return;
    }
    if shown >= MAX_ITEMS {
        let mut words: String = "«".to_owned();
        words.append(&named(&key));
        words.append("»: показаны первые ");
        words.append(&number::decimal(shown as u128));
        words.append(" записей");
        state.notice = Some(words);
        return;
    }
    state.listings.insert(correlation.clone(), Listing::Children(view, key.clone()));
    let call: Call = Call::ListPath { path: key, token: response.next_token, recursive: false, correlation };
    proof {
        calls::said_push(state.calls@, call);
    }
    state.calls.push(call);
    assert(state::listings_seen(state.listings@) =~= state::listings_seen(before.listings@).insert(
        mark,
        state::ListingView::Children(view, name),
    ));
}

/// An answer has come: what it was asked for is told by its mark.
pub open spec fn listing_came(
    before: State,
    after: State,
    asked: state::ListingView,
    correlation: Seq<char>,
    response: ListPathResponse,
) -> bool {
    match asked {
        state::ListingView::Path(view) => path_came(before, after, view, correlation, response),
        state::ListingView::Children(view, key) => children_came(before, after, view, key, correlation, response),
        state::ListingView::Snapshot { product, files, queued } => library::page_walked(
            before,
            after,
            product,
            files,
            queued,
            correlation,
            response,
        ),
    }
}

/// A listing has come. One that nobody here asked for is passed over.
pub fn on_list_path_result(state: &mut State, correlation: String, response: ListPathResponse)
    requires
        state::listings_seen(old(state).listings@).contains_key(correlation@) ==> (
        state::listings_seen(old(state).listings@)[correlation@] matches state::ListingView::Snapshot {
            files,
            queued,
            ..
        } ==> files + response.entries@.len() <= u32::MAX && queued + response.entries@.len() <= usize::MAX),
    ensures
        ({
            let asked = state::listings_seen(old(state).listings@);
            if asked.contains_key(correlation@) {
                exists|middle: State|
                    middle == (State { listings: middle.listings, ..*old(state) }) && state::listings_seen(
                        middle.listings@,
                    ) == asked.remove(correlation@) && #[trigger] listing_came(
                        middle,
                        *final(state),
                        asked[correlation@],
                        correlation@,
                        response,
                    )
            } else {
                *final(state) == (State { listings: final(state).listings, ..*old(state) }) && state::listings_seen(
                    final(state).listings@,
                ) == asked
            }
        }),
        old(state).screen.whole() ==> final(state).screen.whole(),
{
    let ghost asked = state::listings_seen(state.listings@);
    let ghost table = state.listings@;
    let ghost mark = correlation@;
    let taken: Option<Listing> = state.listings.remove(&correlation);
    assert(state::listings_seen(state.listings@) =~= asked.remove(mark));
    let Some(listing) = taken else {
        assert(!table.contains_key(mark));
        assert(asked.remove(mark) =~= asked);
        return;
    };
    let ghost middle = *state;
    assert(table.contains_key(mark));
    assert(asked[mark] == listing@);
    match listing {
        Listing::Path(view) => on_path(state, view, correlation, response),
        Listing::Children(view, key) => on_children(state, view, key, correlation, response),
        Listing::Snapshot { product, files, queued } => {
            library::on_snapshot_files(state, Counted { product, files, queued }, correlation, response)
        },
    }
    assert(listing_came(middle, *state, asked[mark], mark, response));
}

// -- Laws --

/// From a folder one comes up to the folder it was entered from.
pub proof fn up_leads_back(path: Seq<char>, name: Seq<char>)
    requires
        path.len() == 0 || path.last() == '/',
        name.len() > 0,
        forall|i: int| 0 <= i < name.len() ==> name[i] != '/',
    ensures
        above((path + name).push('/')) == path,
        slashed(path + name) == (path + name).push('/'),
{
    let whole = (path + name).push('/');
    assert(whole.drop_last() =~= path + name);
    the_last_slash_is_before_the_name(path, name);
    assert((path + name).take(path.len() as int) =~= path);
    reveal_strlit("/");
    assert("/"@ =~= seq!['/']);
    assert((path + name).last() == name.last());
    assert((path + name) + "/"@ =~= whole);
}

proof fn the_last_slash_is_before_the_name(path: Seq<char>, name: Seq<char>)
    requires
        path.len() == 0 || path.last() == '/',
        forall|i: int| 0 <= i < name.len() ==> name[i] != '/',
    ensures
        text::last_index(path + name, '/') == path.len() - 1,
    decreases name.len(),
{
    if name.len() == 0 {
        assert(path + name =~= path);
    } else {
        assert((path + name).drop_last() =~= path + name.drop_last());
        the_last_slash_is_before_the_name(path, name.drop_last());
    }
}

/// Above the root there is nothing but the root.
pub proof fn above_the_root_is_the_root()
    ensures
        above(Seq::empty()) == Seq::<char>::empty(),
{
}

/// A folder that is entered is shown from then on, empty until its records come, and is
/// asked for by its path with one slash at its end.
pub proof fn what_is_entered_is_asked_for(before: State, after: State, view: ViewId, path: Seq<char>, was: BrowseState)
    requires
        entered(before, after, view, path),
        screen::kind_in(before.screen.views@, view) == Some(ViewKind::Browse(was)),
    ensures
        ({
            let whole = if path.len() == 0 || path.last() == '/' { path } else { path.push('/') };
            &&& after.said().len() == before.said().len() + 1
            &&& after.said().last() matches calls::CallView::ListPath { path: asked, token, recursive, correlation } && {
                &&& asked == whole
                &&& token.len() == 0
                &&& !recursive
                &&& correlation == before.next_mark()
            }
            &&& screen::kind_in(after.screen.views@, view) matches Some(ViewKind::Browse(now)) && {
                &&& now.current_path@ == whole
                &&& now.items@.len() == 0
                &&& now.error is None
                &&& now.listing.page == 0
                &&& now.listing.filter == was.listing.filter
                &&& now.listing.sorting == was.listing.sorting
                &&& now.listing.expanded@ == Set::<Seq<char>>::empty()
                &&& now.request.waiting() == Some(before.next_mark())
            }
            &&& state::target_of(after.highlight, view).len() == 0
            &&& state::listings_seen(after.listings@).contains_key(before.next_mark())
            &&& state::listings_seen(after.listings@)[before.next_mark()] == state::ListingView::Path(view)
        }),
{
    reveal_strlit("/");
    assert("/"@ =~= seq!['/']);
    if path.len() > 0 && path.last() != '/' {
        assert(path + "/"@ =~= path.push('/'));
    }
}

/// To go nowhere is to read the same folder anew; to go somewhere from a list that is no
/// catalogue opens one there.
pub proof fn going_somewhere_enters_it(before: State, after: State, view: ViewId, path: Seq<char>)
    requires
        gone_to(before, after, view, path),
    ensures
        screen::kind_in(before.screen.views@, view) matches Some(ViewKind::Browse(was)) ==> {
            &&& path.len() == 0 ==> entered(before, after, view, was.current_path@)
            &&& path.len() > 0 ==> entered(before, after, view, path)
        },
        !(screen::kind_in(before.screen.views@, view) matches Some(ViewKind::Browse(_))) && path.len() == 0 ==> after
            == before,
{
}

/// A row that is opened for the first time is asked for by its own path, once: a row whose
/// contents are known, and a snapshot of several parts, ask for nothing.
pub proof fn an_opened_row_is_asked_for_once(before: State, after: State, view: ViewId, key: Seq<char>, kind: ViewKind, was: Children)
    requires
        opened(before, after, view, key),
        screen::kind_in(before.screen.views@, view) == Some(kind),
        kind.children_spec() == Some(was),
    ensures
        was.branches().contains_key(row::bare_key(key).push('/')) ==> after == before,
        text::begins_with(key, "снимок:"@) ==> after == before,
        !was.branches().contains_key(row::bare_key(key).push('/')) && !text::begins_with(key, "снимок:"@) ==> {
            &&& after.said() == before.said().push(
                calls::CallView::ListPath {
                    path: row::bare_key(key).push('/'),
                    token: Seq::empty(),
                    recursive: false,
                    correlation: before.next_mark(),
                },
            )
            &&& screen::kind_in(after.screen.views@, view) matches Some(now) && now.children_spec() matches Some(children)
                && children.is_waiting(row::bare_key(key).push('/')) && children.items(row::bare_key(key).push('/')).len()
                == 0
            &&& screen::kind_in(after.screen.views@, view) matches Some(now) && now.listing_spec() == kind.listing_spec()
        },
{
    reveal_strlit("/");
    assert("/"@ =~= seq!['/']);
    assert(row::listing_path(key) =~= row::bare_key(key).push('/'));
}

/// A record of a listing keeps its key, its size, its day and its snapshot; it is called by
/// the last part of its path, and is a folder where its key ends in a slash.
pub proof fn a_record_keeps_what_the_listing_says(entry: ListEntry)
    ensures
        ({
            let item = item_of(entry);
            &&& item.identifier == entry.key@
            &&& item.name == row::leaf(entry.key@)
            &&& item.size == entry.size
            &&& item.modified == entry.modified
            &&& item.product == entry.product@
            &&& item.unviewable == entry.unviewable@
            &&& item.is_folder <==> entry.key@.len() > 0 && entry.key@.last() == '/'
        }),
{
    reveal_strlit("/");
    assert("/"@ =~= seq!['/']);
    let key = entry.key@;
    if key.len() > 0 {
        let end = key.subrange(key.len() - 1, key.len() as int);
        assert(end[0] == key.last());
        if key.last() == '/' {
            assert(end =~= "/"@);
        }
    }
}

/// A page of a folder is put behind the records that are there, in its order.
pub proof fn a_page_is_put_behind(was: BrowseState, now: BrowseState, entries: Seq<ListEntry>, waiting: Option<Seq<char>>, i: int)
    requires
        grown(was, now, entries, waiting),
    ensures
        now.items@.len() == was.items@.len() + entries.len(),
        0 <= i < was.items@.len() ==> now.items@[i]@ == was.items@[i]@,
        0 <= i < entries.len() ==> now.items@[was.items@.len() + i].identifier@ == entries[i].key@,
        now.error is None,
        now.current_path == was.current_path,
        now.listing == was.listing,
{
    let all = browse::items_seen(now.items@);
    assert(all.len() == now.items@.len());
    if 0 <= i < was.items@.len() {
        assert(all[i] == now.items@[i]@);
        assert(browse::items_seen(was.items@)[i] == was.items@[i]@);
    }
    if 0 <= i < entries.len() {
        assert(all[was.items@.len() + i] == now.items@[was.items@.len() + i]@);
        assert(items_of(entries)[i] == item_of(entries[i]));
    }
}

/// Only the answer that a folder waits for is heard. An error takes the place of its
/// records; a folder that goes on is read on, from where the page ended and for the same
/// folder, until there are too many records to show.
pub proof fn a_folder_is_read_to_its_end(
    before: State,
    after: State,
    view: ViewId,
    correlation: Seq<char>,
    response: ListPathResponse,
    was: BrowseState,
)
    requires
        path_came(before, after, view, correlation, response),
        screen::kind_in(before.screen.views@, view) == Some(ViewKind::Browse(was)),
    ensures
        was.request.waiting() != Some(correlation) ==> after == before,
        was.request.waiting() == Some(correlation) && response.error@.len() > 0 ==> {
            &&& screen::kind_in(after.screen.views@, view) matches Some(ViewKind::Browse(now)) && now.items@.len() == 0
                && now.error == Some(response.error) && now.request.waiting() is None
            &&& after.said() == before.said()
        },
        was.request.waiting() == Some(correlation) && response.error@.len() == 0 && response.next_token@.len() > 0
            && was.items@.len() + response.entries@.len() < 1000 ==> {
            &&& after.said() == before.said().push(
                calls::CallView::ListPath {
                    path: was.current_path@,
                    token: response.next_token@,
                    recursive: false,
                    correlation,
                },
            )
            &&& screen::kind_in(after.screen.views@, view) matches Some(ViewKind::Browse(now)) && now.request.waiting()
                == Some(correlation) && now.items@.len() == was.items@.len() + response.entries@.len()
        },
        was.request.waiting() == Some(correlation) && response.error@.len() == 0 && (response.next_token@.len() == 0
            || was.items@.len() + response.entries@.len() >= 1000) ==> after.said() == before.said() && (screen::kind_in(
            after.screen.views@,
            view,
        ) matches Some(ViewKind::Browse(now)) && now.request.waiting() is None && now.items@.len() == was.items@.len()
            + response.entries@.len()),
{
    told_kind(before.screen.views@, view);
    let shown = was.items@.len() + response.entries@.len();
    let cut = response.next_token@.len() > 0 && shown >= MAX_ITEMS;
    let more = response.next_token@.len() > 0 && !cut;
    if was.request.waiting() == Some(correlation) {
        if response.error@.len() > 0 {
            let now = choose|now: BrowseState| {
                &&& #[trigger] only_browse(before, after, view, now)
                &&& now == (BrowseState { items: now.items, error: Some(response.error), request: now.request, ..was })
                &&& now.items@.len() == 0
                &&& now.request.waiting() is None
            };
            assert(screen::kind_in(after.screen.views@, view) == Some(ViewKind::Browse(now)));
        } else if more {
            let (now, middle) = choose|now: BrowseState, middle: State| {
                &&& #[trigger] only_browse(before, middle, view, now)
                &&& grown(was, now, response.entries@, Some(correlation))
                &&& after == (State { listings: after.listings, calls: after.calls, ..middle })
                &&& state::listings_seen(after.listings@) == state::listings_seen(before.listings@).insert(
                    correlation,
                    state::ListingView::Path(view),
                )
                &&& after.said() == before.said().push(
                    calls::CallView::ListPath {
                        path: was.current_path@,
                        token: response.next_token@,
                        recursive: false,
                        correlation,
                    },
                )
            };
            assert(screen::kind_in(middle.screen.views@, view) == Some(ViewKind::Browse(now)));
            a_page_is_put_behind(was, now, response.entries@, Some(correlation), 0);
        } else {
            let (now, middle, said) = choose|now: BrowseState, middle: State, said: State| {
                &&& #[trigger] only_browse(before, middle, view, now)
                &&& grown(was, now, response.entries@, None)
                &&& said == (State { notice: said.notice, ..middle })
                &&& if cut { library::notices(said, cut_words(shown)) } else { said.notice == middle.notice }
                &&& #[trigger] aimed(said, after, view)
            };
            assert(screen::kind_in(middle.screen.views@, view) == Some(ViewKind::Browse(now)));
            a_page_is_put_behind(was, now, response.entries@, None, 0);
            walking_keeps_the_records(said, after, view, now);
        }
    }
}

/// To walk to a row asks for nothing and changes at most the page of its list.
proof fn walking_keeps_the_records(before: State, after: State, view: ViewId, was: BrowseState)
    requires
        aimed(before, after, view),
        screen::kind_in(before.screen.views@, view) == Some(ViewKind::Browse(was)),
    ensures
        after.said() == before.said(),
        screen::kind_in(after.screen.views@, view) matches Some(ViewKind::Browse(now)) && now.items == was.items
            && now.request == was.request && now.error == was.error && now.current_path == was.current_path,
{
    told_kind(before.screen.views@, view);
    let key = state::target_of(before.highlight, view);
    let rows = rows::sky(before).rows(screen::kind_in(before.screen.views@, view));
    let at = arrange::first_named(arrange::shown_rows(rows, was.listing), key);
    if key.len() > 0 && at >= 0 {
        let listing = ListingState { page: (at / arrange::PAGE_SIZE as int) as usize, ..was.listing };
        let now = ViewKind::Browse(was).with_listing(listing);
        assert(screen::with_listing(before.screen.views@, view, listing) == screen::with_kind(
            before.screen.views@,
            view,
            now,
        ));
        assert(screen::kind_in(after.screen.views@, view) == Some(now));
    }
}

/// A list that was walked to a row turns to the page where the row stands; a row that the
/// filter hides is said to be hidden, and a list that was walked to nothing stays.
pub proof fn a_list_turns_to_its_row(before: State, after: State, view: ViewId, listing: ListingState)
    requires
        aimed(before, after, view),
        screen::listing_in(before.screen.views@, view) == Some(listing),
    ensures
        ({
            let key = state::target_of(before.highlight, view);
            let rows = rows::sky(before).rows(screen::kind_in(before.screen.views@, view));
            let at = arrange::first_named(arrange::shown_rows(rows, listing), key);
            &&& key.len() == 0 ==> after == before
            &&& key.len() > 0 && at >= 0 ==> (screen::listing_in(after.screen.views@, view) matches Some(now) && {
                &&& now.page as int * 20 <= at < now.page as int * 20 + 20 || at / 20 > usize::MAX
                &&& now == (ListingState { page: now.page, ..listing })
            }) && after.notice == before.notice
            &&& key.len() > 0 && at < 0 && arrange::first_named(rows, key) >= 0 ==> library::notices(
                after,
                "Строка есть в папке, но её скрыл отбор"@,
            ) && after.screen == before.screen
            &&& key.len() > 0 && at < 0 && arrange::first_named(rows, key) < 0 ==> after == before
        }),
{
    let key = state::target_of(before.highlight, view);
    let rows = rows::sky(before).rows(screen::kind_in(before.screen.views@, view));
    let at = arrange::first_named(arrange::shown_rows(rows, listing), key);
    screen::with_listing_is_told(
        before.screen.views@,
        view,
        ListingState { page: (at / arrange::PAGE_SIZE as int) as usize, ..listing },
    );
}

/// The folder of a record is the path before its name, with a slash; a record of the root
/// has the root.
pub proof fn the_home_of_a_record(folder: Seq<char>, name: Seq<char>)
    requires
        name.len() > 0,
        forall|i: int| 0 <= i < name.len() ==> name[i] != '/',
        folder.len() > 0,
    ensures
        home(folder.push('/') + name) == folder.push('/'),
        home(name).len() == 0,
{
    reveal_strlit("/");
    assert("/"@ =~= seq!['/']);
    let key = folder.push('/') + name;
    assert(key.last() == name.last());
    assert(row::bare_key(key) == key);
    the_last_slash_is_before_the_name(folder.push('/'), name);
    assert(key.take(folder.len() as int) =~= folder);
    assert(folder + "/"@ =~= folder.push('/'));
    the_last_slash_is_before_the_name(Seq::empty(), name);
    assert(Seq::<char>::empty() + name =~= name);
    assert(row::bare_key(name) == name);
}

/// A walk ends at the record it was for, in the tab that walked; what was picked on the
/// globe stays picked only where it is that record.
pub proof fn a_walk_ends_at_its_record(before: State, after: State, view: ViewId, key: Seq<char>)
    requires
        walked(before, after, view, key),
    ensures
        state::target_of(after.highlight, view) == key,
        state::picked_of(before.highlight) == key ==> state::picked_of(after.highlight) == key,
        state::picked_of(before.highlight) != key ==> state::picked_of(after.highlight).len() == 0,
{
    let here = is_here(before, view, home(key));
    let same = state::picked_of(before.highlight) == key;
    let (there, lone, again, lit) = choose|there: State, lone: State, again: State, lit: State| {
        &&& if here { there == before } else { entered(before, there, view, home(key)) }
        &&& if same { lone == there } else { pick_dropped(there, lone) }
        &&& #[trigger] aim_renewed(lone, again, view)
        &&& lit == (State { highlight: lit.highlight, ..again })
        &&& lit.highlight matches Some(highlight) && {
            &&& highlight.key@ == key
            &&& highlight.view == Some(view)
            &&& highlight.on_globe == same
        }
        &&& #[trigger] walk_ended(there, lit, after, view, here)
    };
    assert(after.highlight == lit.highlight);
}

/// An opened row is read on for its own path until there is no more or too much; its records
/// are put behind those that are there, it waits no longer than that, and a row that could
/// not be read is closed again and says why.
pub proof fn an_opened_row_is_read_to_its_end(
    before: State,
    after: State,
    view: ViewId,
    key: Seq<char>,
    correlation: Seq<char>,
    response: ListPathResponse,
    kind: ViewKind,
    was: Children,
)
    requires
        children_came(before, after, view, key, correlation, response),
        screen::kind_in(before.screen.views@, view) == Some(kind),
        kind.children_spec() == Some(was),
    ensures
        response.error@.len() > 0 ==> after.said() == before.said() && (after.notice matches Some(words) && words@
            == "Папка не раскрылась: "@ + response.error@) && (screen::kind_in(after.screen.views@, view) matches Some(now)
            && now.children_spec() matches Some(children) && !children.branches().contains_key(key)),
        response.error@.len() == 0 && was.branches().contains_key(key) && response.next_token@.len() == 0 ==> after.said()
            == before.said() && (screen::kind_in(after.screen.views@, view) matches Some(now)
            && now.children_spec() matches Some(children) && !children.is_waiting(key) && children.items(key) == was.items(
            key,
        ) + items_of(response.entries@)),
        response.error@.len() == 0 && was.branches().contains_key(key) && response.next_token@.len() > 0 && was.items(
            key,
        ).len() + response.entries@.len() < 1000 ==> after.said() == before.said().push(
            calls::CallView::ListPath { path: key, token: response.next_token@, recursive: false, correlation },
        ) && (screen::kind_in(after.screen.views@, view) matches Some(now) && now.children_spec() matches Some(children)
            && children.items(key) == was.items(key) + items_of(response.entries@)),
        response.error@.len() == 0 && was.branches().contains_key(key) && response.next_token@.len() > 0 && was.items(
            key,
        ).len() + response.entries@.len() >= 1000 ==> after.said() == before.said() && (screen::kind_in(
            after.screen.views@,
            view,
        ) matches Some(now) && now.children_spec() matches Some(children) && !children.is_waiting(key)),
{
    told_kind(before.screen.views@, view);
    if response.error@.len() > 0 {
        let (now, middle) = choose|now: Children, middle: State| {
            &&& #[trigger] only_children(before, middle, view, now)
            &&& now.branches() == was.branches().remove(key)
            &&& after == (State { notice: after.notice, ..middle })
            &&& library::notices(after, "Папка не раскрылась: "@ + response.error@)
        };
        assert(screen::kind_in(after.screen.views@, view) == Some(kind.with_children(now)));
    } else if was.branches().contains_key(key) {
        let shown = was.items(key).len() + response.entries@.len();
        if response.next_token@.len() == 0 {
            let now = choose|now: Children| #[trigger]
                only_children(before, after, view, now) && lengthened(was, now, key, response.entries@, false);
            assert(screen::kind_in(after.screen.views@, view) == Some(kind.with_children(now)));
        } else if shown >= MAX_ITEMS {
            let (now, middle) = choose|now: Children, middle: State| {
                &&& #[trigger] only_children(before, middle, view, now)
                &&& lengthened(was, now, key, response.entries@, false)
                &&& after == (State { notice: after.notice, ..middle })
                &&& library::notices(
                    after,
                    "«"@ + short_name(key) + "»: показаны первые "@ + number::written(shown) + " записей"@,
                )
            };
            assert(screen::kind_in(after.screen.views@, view) == Some(kind.with_children(now)));
        } else {
            let (now, middle) = choose|now: Children, middle: State| {
                &&& #[trigger] only_children(before, middle, view, now)
                &&& lengthened(was, now, key, response.entries@, was.branches()[key].waiting)
                &&& after == (State { listings: after.listings, calls: after.calls, ..middle })
                &&& state::listings_seen(after.listings@) == state::listings_seen(before.listings@).insert(
                    correlation,
                    state::ListingView::Children(view, key),
                )
                &&& after.said() == before.said().push(
                    calls::CallView::ListPath { path: key, token: response.next_token@, recursive: false, correlation },
                )
            };
            assert(screen::kind_in(after.screen.views@, view) == Some(kind.with_children(now)));
        }
    }
}

} // verus!
