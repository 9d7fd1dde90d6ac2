//! The rows of a list, out of what its tab lives by: the catalogue answers with
//! records of a listing, the search with products, the downloaded list with
//! records of the library.

use vstd::prelude::*;
use crate::components::row::{self, OnGlobe, OnOutline, Row, RowKind, RowStatus};
use crate::proto::{self, DataProduct, ProductPart};
use crate::state::browse::{self, BrowseItem, BrowseState, Children};
use crate::state::globe::{Located, Outlined};
use crate::state::ids::ViewId;
use crate::state::library;
use crate::state::listing::ListingState;
use crate::state::overlay;
use crate::state::screen::{self, ViewKind};
use crate::state::search::SearchState;
use crate::state::State;
use crate::text;

verus! {

broadcast use vstd::string::group_string_axioms;

/// All that rows are made up from, but for what their tab shows.
pub ghost struct Sky {
    pub entries: Seq<proto::LibraryEntry>,
    pub layers: Seq<overlay::OverlayState>,
    pub showing: Set<Seq<char>>,
    pub outlines: Set<Seq<char>>,
    pub outlined: Seq<Outlined>,
    pub located: Map<Seq<char>, Located>,
}

pub open spec fn sky(state: State) -> Sky {
    Sky {
        entries: state.library.entries@,
        layers: state.overlays@,
        showing: state.showing@,
        outlines: state.outlines@,
        outlined: state.outlined@,
        located: state.located@,
    }
}

/// An outline of this snapshot is drawn.
pub open spec fn is_drawn(outlined: Seq<Outlined>, key: Seq<char>) -> bool {
    exists|i: int| 0 <= i < outlined.len() && (#[trigger] outlined[i]).key@ == key
}

impl Sky {
    /// How a snapshot lies on the globe.
    pub open spec fn globe(self, key: Seq<char>) -> OnGlobe {
        match overlay::layer_of(self.layers, key) {
            None => if self.showing.contains(key) { OnGlobe::Asked } else { OnGlobe::Off },
            Some(layer) => if layer.rasters@.len() > 0 {
                OnGlobe::Laid { hidden: layer.hidden, progress: layer.progress }
            } else {
                OnGlobe::Assembling
            },
        }
    }

    /// Whether a snapshot is outlined. To be asked for and to be drawn are
    /// different things: the geometry comes over the network.
    pub open spec fn outline(self, key: Seq<char>) -> OnOutline {
        if key.len() == 0 || !self.outlines.contains(key) {
            OnOutline::Off
        } else if is_drawn(self.outlined, key) {
            OnOutline::Drawn
        } else if !self.located.contains_key(key) {
            OnOutline::Asking
        } else {
            match self.located[key] {
                Located::Asking => OnOutline::Asking,
                Located::Failed => OnOutline::Failed,
                Located::Missing => OnOutline::Blank,
                Located::Found(product) => if product.footprint@.len() == 0 {
                    OnOutline::Blank
                } else {
                    OnOutline::Drawn
                },
            }
        }
    }

    /// The state of a folder or a snapshot that is one: complete when all its
    /// files are here, on its way when one of them is, and otherwise so many
    /// files.
    pub open spec fn folder_status(self, identifier: Seq<char>, size: u64, kind: RowKind, product: Seq<char>) -> row::StatusView {
        let path = row::listing_path(identifier);
        let whole = product.len() > 0 && library::walked(self.entries, product) > 0 && library::completed(
            self.entries,
            product,
        ) as u32 == library::walked(self.entries, product);
        let files = library::files_under(self.entries, path);
        if whole {
            row::StatusView::Complete
        } else if kind is Product && library::active_under(self.entries, path) {
            row::StatusView::Downloading {
                done: library::capped(library::bytes_under(self.entries, path)) as u64,
                total: size,
            }
        } else if files == 0 {
            row::StatusView::Remote
        } else {
            row::StatusView::Partial { done: files as usize, trouble: Seq::empty() }
        }
    }

    /// The row of a key of the storage.
    pub open spec fn key_row(
        self,
        identifier: Seq<char>,
        title: Seq<char>,
        size: u64,
        date: i64,
        kind: RowKind,
        product: Seq<char>,
    ) -> row::RowView {
        let snapshot = if product.len() > 0 { row::bare_key(product) } else { row::bare_key(identifier) };
        let globe = self.globe(snapshot);
        let outlined = self.outline(snapshot);
        if kind.is_folder_spec() {
            row::RowView {
                identifier,
                title,
                kind,
                status: self.folder_status(identifier, size, kind, product),
                size,
                date,
                product,
                globe,
                outlined,
                ..row::blank_row()
            }
        } else {
            row::RowView {
                product,
                globe,
                outlined,
                ..row::remote_row(self.entries, identifier, title, size, date, kind)
            }
        }
    }

    /// What a record of a listing is: a snapshot where the provider says that it
    /// is its own product.
    pub open spec fn item_kind(self, item: browse::ItemView) -> RowKind {
        if item.product == row::bare_key(item.identifier) {
            RowKind::Product { folder: item.is_folder }
        } else if item.is_folder {
            RowKind::Folder
        } else {
            RowKind::File
        }
    }

    /// A row with the contents of its folder under it, if it is open, and so on
    /// to this depth.
    pub open spec fn filled(self, row: row::RowView, children: Children, open: Set<Seq<char>>, depth: nat) -> row::RowView
        decreases depth, 0nat,
    {
        if depth == 0 || !row.kind.is_folder_spec() || !open.contains(row.key()) {
            row
        } else {
            let path = row::listing_path(row.identifier);
            row::RowView {
                loading: children.is_waiting(path),
                children: self.item_rows(children.items(path), children, open, (depth - 1) as nat),
                ..row
            }
        }
    }

    /// The rows of the records of a listing.
    pub open spec fn item_rows(
        self,
        items: Seq<browse::ItemView>,
        children: Children,
        open: Set<Seq<char>>,
        depth: nat,
    ) -> Seq<row::RowView>
        decreases depth, items.len() + 1,
    {
        if items.len() == 0 {
            Seq::empty()
        } else {
            self.item_rows(items.drop_last(), children, open, depth).push(
                self.filled(self.item_row(items.last()), children, open, depth),
            )
        }
    }

    /// The row of a record of a listing, closed.
    pub open spec fn item_row(self, item: browse::ItemView) -> row::RowView {
        row::RowView {
            unviewable: item.unviewable,
            ..self.key_row(item.identifier, item.name, item.size, item.modified, self.item_kind(item), item.product)
        }
    }

    /// The row of a product, closed.
    pub open spec fn product_row(self, product: proto::ProductView) -> row::RowView {
        row::RowView {
            product_type: product.product_type,
            unviewable: product.unviewable,
            ..self.key_row(
                product.identifier,
                product.name,
                product.size,
                product.acquired,
                RowKind::Product { folder: product.folder },
                product.identifier,
            )
        }
    }

    /// The row of a part of a snapshot, closed: titled by its type, because the
    /// names of parts differ only at their ends.
    pub open spec fn part_row(self, part: proto::PartView, acquired: i64) -> row::RowView {
        row::RowView {
            title: if part.product_type.len() == 0 { part.name } else { part.product_type },
            product_type: if part.shown { "показана"@ } else { "часть"@ },
            unviewable: part.unviewable,
            ..self.key_row(
                part.identifier,
                part.name,
                part.size,
                acquired,
                RowKind::Product { folder: part.folder },
                part.identifier,
            )
        }
    }

    pub open spec fn part_rows(
        self,
        parts: Seq<proto::PartView>,
        acquired: i64,
        children: Children,
        open: Set<Seq<char>>,
        depth: nat,
    ) -> Seq<row::RowView> {
        parts.map_values(|part: proto::PartView| self.filled(self.part_row(part, acquired), children, open, depth))
    }

    /// The row of a found product: one of several parts opens into them, and each
    /// of them into its files.
    pub open spec fn found_row(
        self,
        product: proto::ProductView,
        children: Children,
        open: Set<Seq<char>>,
        depth: nat,
    ) -> row::RowView {
        let row = self.product_row(product);
        if product.parts.len() <= 1 {
            self.filled(row, children, open, depth)
        } else {
            let key = row::scene_prefix() + product.identifier;
            row::RowView {
                group: Some(key),
                children: if open.contains(key) {
                    self.part_rows(product.parts, product.acquired, children, open, depth)
                } else {
                    Seq::empty()
                },
                ..row
            }
        }
    }

    /// A row that says how its snapshot lies on the globe, with all under it.
    pub open spec fn marked(self, row: row::RowView) -> row::RowView
        decreases row,
    {
        row::RowView {
            globe: self.globe(row.product_key()),
            outlined: self.outline(row.product_key()),
            children: self.all_marked(row.children),
            ..row
        }
    }

    pub open spec fn all_marked(self, rows: Seq<row::RowView>) -> Seq<row::RowView>
        decreases rows,
    {
        if rows.len() == 0 {
            Seq::empty()
        } else {
            self.all_marked(rows.drop_last()).push(self.marked(rows.last()))
        }
    }

    /// The rows of a tab; none where it is no list.
    pub open spec fn rows(self, kind: Option<ViewKind>) -> Seq<row::RowView> {
        match kind {
            Some(ViewKind::Browse(browse)) => self.browse_rows(browse),
            Some(ViewKind::Search(search)) => self.search_rows(search),
            Some(ViewKind::Downloaded(_)) => self.all_marked(row::downloaded(self.entries)),
            _ => Seq::empty(),
        }
    }

    pub open spec fn browse_rows(self, browse: BrowseState) -> Seq<row::RowView> {
        self.item_rows(
            browse::items_seen(browse.items@),
            browse.children,
            browse.listing.expanded@,
            browse.children.count(),
        )
    }

    pub open spec fn search_rows(self, search: SearchState) -> Seq<row::RowView> {
        proto::products_of(search.results@).map_values(
            |product: proto::ProductView|
                self.found_row(product, search.children, search.listing.expanded@, search.children.count()),
        )
    }
}

/// How the snapshot of a row lies on the globe. It is asked by the key of the
/// snapshot: a row of the catalogue knows its folder with a slash.
pub fn onto_globe(state: &State, key: &str) -> (on: OnGlobe)
    ensures
        on == sky(*state).globe(key@),
{
    let at: usize = overlay::find_layer(&state.overlays, key);
    if at < state.overlays.len() {
        let layer: &overlay::OverlayState = &state.overlays[at];
        if layer.on_globe() {
            OnGlobe::Laid { hidden: layer.hidden, progress: layer.progress }
        } else {
            OnGlobe::Assembling
        }
    } else if state.showing.contains(key) {
        OnGlobe::Asked
    } else {
        OnGlobe::Off
    }
}

/// Whether an outline of this snapshot is drawn.
pub fn drawn_already(outlined: &Vec<Outlined>, key: &str) -> (yes: bool)
    ensures
        yes == is_drawn(outlined@, key@),
{
    let mut i: usize = 0;
    while i < outlined.len()
        invariant
            i <= outlined@.len(),
            forall|j: int| 0 <= j < i ==> (#[trigger] outlined@[j]).key@ != key@,
        decreases outlined@.len() - i,
    {
        if text::same(&outlined[i].key, key) {
            assert(outlined@[i as int].key@ == key@);
            return true;
        }
        i += 1;
    }
    false
}

/// Whether the snapshot of a row is outlined.
pub fn outlined(state: &State, key: &str) -> (on: OnOutline)
    ensures
        on == sky(*state).outline(key@),
{
    if key.is_empty() || !state.outlines.contains(key) {
        return OnOutline::Off;
    }
    if drawn_already(&state.outlined, key) {
        return OnOutline::Drawn;
    }
    match state.located.get(key) {
        None => OnOutline::Asking,
        Some(Located::Asking) => OnOutline::Asking,
        Some(Located::Failed) => OnOutline::Failed,
        Some(Located::Missing) => OnOutline::Blank,
        Some(Located::Found(found)) => if found.footprint.len() == 0 { OnOutline::Blank } else { OnOutline::Drawn },
    }
}

/// A row out of a key of the storage, one way for the catalogue and for what was
/// found. A folder has neither size nor time of its own, but how much of it is on
/// disk is known; a plain object has its size and time from the catalogue and its
/// state from the library.
pub fn from_key(
    state: &State,
    identifier: String,
    title: String,
    size: u64,
    date: i64,
    kind: RowKind,
    product: String,
) -> (row: Row)
    ensures
        row@ == sky(*state).key_row(identifier@, title@, size, date, kind, product@),
        row.children@.len() == 0,
{
    let snapshot: &str = if product.as_str().is_empty() { row::bare(&identifier) } else { row::bare(&product) };
    let globe: OnGlobe = onto_globe(state, snapshot);
    let outlined: OnOutline = outlined(state, snapshot);
    if kind.is_folder() {
        let under: library::Under = state.library.under(&row::folder_path(&identifier));
        let (done, files): (usize, u32) = state.library.snapshot(&product);
        let whole: bool = files > 0 && done as u32 == files;
        let downloading: bool = under.active && kind.is_product();
        let status: RowStatus = if whole {
            RowStatus::Complete
        } else if downloading {
            RowStatus::Downloading { done: under.bytes, total: size }
        } else if under.files == 0 {
            RowStatus::Remote
        } else {
            RowStatus::Partial { done: under.files, trouble: String::new() }
        };
        let row: Row = Row::container_row(identifier, title, status, kind);
        return Row { size, date, product, globe, outlined, ..row };
    }
    Row { product, globe, outlined, ..Row::remote(&state.library, identifier, title, size, date, kind) }
}

/// The contents of an open folder as rows under its own, and so on into the
/// depth. A closed row is silent of its contents, even when they are here.
fn fill(state: &State, row: &mut Row, children: &Children, listing: &ListingState, depth: usize)
    requires
        old(row).children@.len() == 0,
    ensures
        final(row)@ == sky(*state).filled(old(row)@, *children, listing.expanded@, depth as nat),
    decreases depth, 0nat,
{
    if depth == 0 || !row.kind.is_folder() || !listing.expanded.contains(row.key()) {
        return;
    }
    let path: String = row::folder_path(&row.identifier);
    row.loading = children.waiting(&path);
    row.children = entries(state, children.get(&path), children, listing, depth - 1);
}

/// Records of a listing as rows, with the contents of open folders.
fn entries(
    state: &State,
    items: &[BrowseItem],
    children: &Children,
    listing: &ListingState,
    depth: usize,
) -> (rows: Vec<Row>)
    ensures
        row::all_seen(rows@) == sky(*state).item_rows(
            browse::items_seen(items@),
            *children,
            listing.expanded@,
            depth as nat,
        ),
    decreases depth, items@.len() + 1,
{
    let ghost all = browse::items_seen(items@);
    let ghost here = sky(*state);
    let mut rows: Vec<Row> = Vec::new();
    let mut i: usize = 0;
    while i < items.len()
        invariant
            i <= items@.len(),
            all == browse::items_seen(items@),
            here == sky(*state),
            row::all_seen(rows@) == here.item_rows(all.take(i as int), *children, listing.expanded@, depth as nat),
        decreases items@.len() - i,
    {
        let item: &BrowseItem = &items[i];
        assert(all[i as int] == item@);
        assert(all.take(i + 1).drop_last() =~= all.take(i as int));
        let itself: bool = text::same(&item.product, row::bare(&item.identifier));
        let kind: RowKind = if itself {
            RowKind::Product { folder: item.is_folder }
        } else if item.is_folder {
            RowKind::Folder
        } else {
            RowKind::File
        };
        let mut row: Row = Row {
            unviewable: item.unviewable.clone(),
            ..from_key(
                state,
                item.identifier.clone(),
                item.name.clone(),
                item.size,
                item.modified,
                kind,
                item.product.clone(),
            )
        };
        assert(row@ == here.item_row(item@));
        fill(state, &mut row, children, listing, depth);
        proof {
            row::all_seen_push(rows@, row);
        }
        rows.push(row);
        i += 1;
    }
    assert(all.take(all.len() as int) =~= all);
    rows
}

/// The catalogue: the records of the present folder and what is open in it.
pub fn browse(state: &State, view: &BrowseState) -> (rows: Vec<Row>)
    ensures
        row::all_seen(rows@) == sky(*state).browse_rows(*view),
{
    entries(state, view.items.as_slice(), &view.children, &view.listing, view.children.len())
}

/// A snapshot of which the catalogue gave several products opens into its parts,
/// and each of them into its files.
fn parted(
    state: &State,
    row: &mut Row,
    product: &DataProduct,
    children: &Children,
    listing: &ListingState,
    depth: usize,
)
    requires
        old(row)@ == sky(*state).product_row(product@),
        old(row).children@.len() == 0,
        product.parts@.len() > 1,
    ensures
        final(row)@ == sky(*state).found_row(product@, *children, listing.expanded@, depth as nat),
{
    let ghost here = sky(*state);
    let ghost all = here.part_rows(product@.parts, product.acquired, *children, listing.expanded@, depth as nat);
    row.group = Some(row::scene_key(&product.identifier));
    if !listing.expanded.contains(row.key()) {
        return;
    }
    let mut rows: Vec<Row> = Vec::new();
    let mut i: usize = 0;
    while i < product.parts.len()
        invariant
            i <= product.parts@.len(),
            here == sky(*state),
            all == here.part_rows(product@.parts, product.acquired, *children, listing.expanded@, depth as nat),
            row::all_seen(rows@) == all.take(i as int),
        decreases product.parts@.len() - i,
    {
        let part: &ProductPart = &product.parts[i];
        assert(product@.parts[i as int] == part@);
        let mut child: Row = Row {
            title: if part.product_type.as_str().is_empty() { part.name.clone() } else { part.product_type.clone() },
            product_type: if part.shown { "показана".to_owned() } else { "часть".to_owned() },
            unviewable: part.unviewable.clone(),
            ..from_key(
                state,
                part.identifier.clone(),
                part.name.clone(),
                part.size,
                product.acquired,
                RowKind::Product { folder: part.folder },
                part.identifier.clone(),
            )
        };
        assert(child@ == here.part_row(part@, product.acquired));
        fill(state, &mut child, children, listing, depth);
        proof {
            row::all_seen_push(rows@, child);
        }
        rows.push(child);
        assert(all.take(i + 1) =~= all.take(i as int).push(all[i as int]));
        i += 1;
    }
    assert(all.take(all.len() as int) =~= all);
    row.children = rows;
}

/// What was found: every row is a snapshot, and an open one shows its contents by
/// the same listing as the catalogue.
pub fn search(state: &State, view: &SearchState) -> (rows: Vec<Row>)
    ensures
        row::all_seen(rows@) == sky(*state).search_rows(*view),
{
    let ghost here = sky(*state);
    let ghost all = here.search_rows(*view);
    let depth: usize = view.children.len();
    let mut rows: Vec<Row> = Vec::new();
    let mut i: usize = 0;
    while i < view.results.len()
        invariant
            i <= view.results@.len(),
            here == sky(*state),
            all == here.search_rows(*view),
            all.len() == view.results@.len(),
            depth == view.children.count(),
            row::all_seen(rows@) == all.take(i as int),
        decreases view.results@.len() - i,
    {
        let product: &DataProduct = &view.results[i];
        assert(proto::products_of(view.results@)[i as int] == product@);
        let mut row: Row = Row {
            product_type: product.product_type.clone(),
            unviewable: product.unviewable.clone(),
            ..from_key(
                state,
                product.identifier.clone(),
                product.name.clone(),
                product.size,
                product.acquired,
                RowKind::Product { folder: product.folder },
                product.identifier.clone(),
            )
        };
        assert(row@ == here.product_row(product@));
        if product.parts.len() <= 1 {
            fill(state, &mut row, &view.children, &view.listing, depth);
        } else {
            parted(state, &mut row, product, &view.children, &view.listing, depth);
        }
        proof {
            row::all_seen_push(rows@, row);
        }
        rows.push(row);
        assert(all.take(i + 1) =~= all.take(i as int).push(all[i as int]));
        i += 1;
    }
    assert(all.take(all.len() as int) =~= all);
    rows
}

/// Says of rows of the downloaded list, and of all under them, how their
/// snapshots lie on the globe.
fn mark_globe(state: &State, rows: &mut Vec<Row>)
    ensures
        row::all_seen(final(rows)@) == sky(*state).all_marked(row::all_seen(old(rows)@)),
    decreases *old(rows),
{
    let ghost here = sky(*state);
    let ghost before = rows@;
    let ghost all = row::all_seen(before);
    proof {
        row::all_seen_by_one(before);
    }
    let mut i: usize = 0;
    while i < rows.len()
        invariant
            i <= rows@.len(),
            here == sky(*state),
            before == old(rows)@,
            all == row::all_seen(before),
            all.len() == before.len(),
            forall|j: int| 0 <= j < before.len() ==> #[trigger] all[j] == before[j]@,
            rows@.len() == before.len(),
            forall|j: int| i <= j < rows@.len() ==> #[trigger] rows@[j] == before[j],
            row::all_seen(rows@.take(i as int)) == here.all_marked(all.take(i as int)),
        decreases rows@.len() - i,
    {
        let ghost done = rows@.take(i as int);
        assert(rows@[i as int] == before[i as int]);
        let row: &mut Row = &mut rows[i];
        row.globe = onto_globe(state, row.product_key());
        row.outlined = outlined(state, row.product_key());
        assert(decreases_to!(*old(rows) => before[i as int].children));
        mark_globe(state, &mut row.children);
        proof {
            assert(rows@.take(i + 1) =~= done.push(rows@[i as int]));
            row::all_seen_push(done, rows@[i as int]);
            assert(all.take(i + 1).drop_last() =~= all.take(i as int));
            assert(rows@[i as int]@ == here.marked(all[i as int]));
        }
        i += 1;
    }
    assert(rows@.take(rows@.len() as int) =~= rows@);
    assert(all.take(all.len() as int) =~= all);
}

/// The rows of a tab; none where it is no list.
pub fn of(state: &State, view: ViewId) -> (rows: Vec<Row>)
    ensures
        row::all_seen(rows@) == sky(*state).rows(screen::kind_in(state.screen.views@, view)),
{
    match state.get(view) {
        Some(ViewKind::Browse(opened)) => browse(state, opened),
        Some(ViewKind::Search(opened)) => search(state, opened),
        Some(ViewKind::Downloaded(_)) => {
            let mut rows: Vec<Row> = row::downloaded_rows(&state.library);
            mark_globe(state, &mut rows);
            rows
        },
        _ => {
            let rows: Vec<Row> = Vec::new();
            assert(row::all_seen(rows@) =~= Seq::empty());
            rows
        },
    }
}

// -- What rows keep to --

/// Whatever lies in a folder has a longer path than the folder.
pub open spec fn nested(children: Children) -> bool {
    forall|path: Seq<char>, i: int|
        children.branches().contains_key(path) && 0 <= i < children.items(path).len() ==> row::listing_path(
            (#[trigger] children.items(path)[i]).identifier,
        ).len() > path.len()
}

/// The folders that were asked for whose paths are no shorter than this.
spec fn reach(children: Children, length: nat) -> Set<Seq<char>> {
    children.branches().dom().filter(|path: Seq<char>| path.len() >= length)
}

proof fn reach_shrinks(children: Children, path: Seq<char>, length: nat)
    requires
        children.branches().contains_key(path),
        length > path.len(),
    ensures
        reach(children, length).len() < reach(children, path.len()).len(),
{
    children.count_covers_the_branches();
    let near = reach(children, path.len());
    let far = reach(children, length);
    vstd::set_lib::lemma_len_subset(far, near.remove(path));
}

proof fn deep_enough(here: Sky, row: row::RowView, children: Children, open: Set<Seq<char>>, depth: nat)
    requires
        nested(children),
        row.children.len() == 0,
        !row.loading,
        row.kind.is_folder_spec() ==> reach(children, row::listing_path(row.identifier).len()).len() <= depth,
    ensures
        here.filled(row, children, open, depth) == here.filled(row, children, open, depth + 1),
    decreases depth, 0nat,
{
    let path = row::listing_path(row.identifier);
    children.count_covers_the_branches();
    if row.kind.is_folder_spec() && open.contains(row.key()) {
        if !children.branches().contains_key(path) {
            assert(children.items(path) =~= Seq::empty());
            assert(row.children =~= Seq::empty());
        } else {
            assert(reach(children, path.len()).contains(path));
            if depth == 0 {
                assert(reach(children, path.len()).len() > 0);
            } else {
                all_deep_enough(here, path, children.items(path), children, open, (depth - 1) as nat);
            }
        }
    }
}

proof fn all_deep_enough(
    here: Sky,
    path: Seq<char>,
    items: Seq<browse::ItemView>,
    children: Children,
    open: Set<Seq<char>>,
    depth: nat,
)
    requires
        nested(children),
        children.branches().contains_key(path),
        forall|i: int| 0 <= i < items.len() ==> row::listing_path((#[trigger] items[i]).identifier).len() > path.len(),
        reach(children, path.len()).len() <= depth + 1,
    ensures
        here.item_rows(items, children, open, depth) == here.item_rows(items, children, open, depth + 1),
    decreases depth, items.len() + 1,
{
    if items.len() > 0 {
        let item = items.last();
        assert(item == items[items.len() - 1]);
        all_deep_enough(here, path, items.drop_last(), children, open, depth);
        reach_shrinks(children, path, row::listing_path(item.identifier).len());
        deep_enough(here, here.item_row(item), children, open, depth);
    }
}

/// Rows stand as deep under each other as folders are open: to look deeper than
/// there are known folders shows nothing more.
pub proof fn known_folders_are_deep_enough(
    here: Sky,
    item: browse::ItemView,
    children: Children,
    open: Set<Seq<char>>,
    depth: nat,
)
    requires
        nested(children),
        children.count() <= depth,
    ensures
        here.filled(here.item_row(item), children, open, depth) == here.filled(
            here.item_row(item),
            children,
            open,
            children.count(),
        ),
    decreases depth,
{
    let path = row::listing_path(item.identifier);
    children.count_covers_the_branches();
    if depth > children.count() {
        known_folders_are_deep_enough(here, item, children, open, (depth - 1) as nat);
        vstd::set_lib::lemma_len_subset(reach(children, path.len()), children.branches().dom());
        deep_enough(here, here.item_row(item), children, open, (depth - 1) as nat);
    }
}

// -- What a row says --

/// A snapshot that no layer stands for is off the globe, or asked for where it is to be
/// shown; the first layer of its key is being put together until it has a raster, and lies
/// there with its own word and its own eye from then on.
pub proof fn the_globe_is_told_by_the_layer(here: Sky, key: Seq<char>, at: int)
    ensures
        (forall|i: int| 0 <= i < here.layers.len() ==> (#[trigger] here.layers[i]).identifier@ != key) ==> {
            &&& here.showing.contains(key) ==> here.globe(key) is Asked
            &&& !here.showing.contains(key) ==> here.globe(key) is Off
        },
        0 <= at < here.layers.len() && here.layers[at].identifier@ == key && (forall|j: int|
            0 <= j < at ==> (#[trigger] here.layers[j]).identifier@ != key) ==> {
            &&& here.layers[at].rasters@.len() == 0 ==> here.globe(key) is Assembling
            &&& here.layers[at].rasters@.len() > 0 ==> (here.globe(key) matches OnGlobe::Laid { hidden, progress }
                && hidden == here.layers[at].hidden && progress == here.layers[at].progress)
        },
{
    overlay::layer_place_is_first(here.layers, key);
    if 0 <= at < here.layers.len() && here.layers[at].identifier@ == key && (forall|j: int|
        0 <= j < at ==> (#[trigger] here.layers[j]).identifier@ != key) {
        overlay::layer_place_is(here.layers, key, at);
    }
}

/// An outline that nobody asked for is off; one that lies on the globe is drawn; for the
/// rest the catalogue's answer tells why it is not.
pub proof fn the_outline_is_told_by_the_answer(here: Sky, key: Seq<char>, at: int)
    ensures
        !here.outlines.contains(key) ==> here.outline(key) is Off,
        key.len() == 0 ==> here.outline(key) is Off,
        here.outlines.contains(key) && key.len() > 0 ==> {
            &&& !(here.outline(key) is Off)
            &&& 0 <= at < here.outlined.len() && here.outlined[at].key@ == key ==> here.outline(key) is Drawn
            &&& (forall|i: int| 0 <= i < here.outlined.len() ==> (#[trigger] here.outlined[i]).key@ != key) ==> {
                &&& !here.located.contains_key(key) ==> here.outline(key) is Asking
                &&& here.located.contains_key(key) && here.located[key] is Asking ==> here.outline(key) is Asking
                &&& here.located.contains_key(key) && here.located[key] is Failed ==> here.outline(key) is Failed
                &&& here.located.contains_key(key) && here.located[key] is Missing ==> here.outline(key) is Blank
                &&& here.located.contains_key(key) ==> (here.located[key] matches Located::Found(product)
                    ==> if product.footprint@.len() > 0 { here.outline(key) is Drawn } else { here.outline(key) is Blank })
            }
        },
{
}

/// A folder of which nothing is here is only with the provider; one whose snapshot is here
/// file by file is on disk; a snapshot with a file on its way is being downloaded, and
/// counts what of it is here; whatever else has files here has a part of them.
pub proof fn a_folder_is_what_lies_in_it(here: Sky, identifier: Seq<char>, size: u64, kind: RowKind, product: Seq<char>)
    ensures
        ({
            let status = here.folder_status(identifier, size, kind, product);
            let path = row::listing_path(identifier);
            let walked = library::walked(here.entries, product);
            let whole = product.len() > 0 && walked > 0 && library::completed(here.entries, product) as u32 == walked;
            let active = library::active_under(here.entries, path);
            let files = library::files_under(here.entries, path);
            &&& status is Complete <==> whole
            &&& status is Downloading <==> !whole && active && kind is Product
            &&& status is Remote <==> !whole && !(active && kind is Product) && files == 0
            &&& !(status is Paused)
            &&& status matches row::StatusView::Downloading { done, total } ==> total == size && done
                == library::capped(library::bytes_under(here.entries, path))
            &&& status matches row::StatusView::Partial { done, trouble } ==> done == files as usize && trouble.len() == 0
        }),
{
}

/// A row of the catalogue carries what it was made of: the key, the words, the size and the
/// date it was given, and the globe of the snapshot that it belongs to.
pub proof fn a_row_carries_what_it_was_made_of(
    here: Sky,
    identifier: Seq<char>,
    title: Seq<char>,
    size: u64,
    date: i64,
    kind: RowKind,
    product: Seq<char>,
)
    ensures
        ({
            let row = here.key_row(identifier, title, size, date, kind, product);
            &&& row.identifier == identifier
            &&& row.title == title
            &&& row.kind == kind
            &&& row.product == product
            &&& size > 0 ==> row.size == size
            &&& date > 0 ==> row.date == date
            &&& row.children.len() == 0
            &&& !row.folded && !row.loading && row.group is None
            &&& product.len() > 0 ==> row.globe == here.globe(row::bare_key(product)) && row.outlined == here.outline(
                row::bare_key(product),
            )
            &&& product.len() == 0 ==> row.globe == here.globe(row::bare_key(identifier)) && row.outlined
                == here.outline(row::bare_key(identifier))
            &&& kind is Folder || kind == (RowKind::Product { folder: true }) ==> row.size == size && row.date == date
                && row.name.len() == 0 && row.status == here.folder_status(identifier, size, kind, product)
        }),
{
    row::a_record_is_told_by_its_row(here.entries, identifier, title, size, date, kind, 0);
}

/// A file of the catalogue has the state of its record in the library, and the record's
/// name; without a record it is only with the provider.
pub proof fn a_file_has_the_state_of_its_record(
    here: Sky,
    identifier: Seq<char>,
    title: Seq<char>,
    size: u64,
    date: i64,
    product: Seq<char>,
    at: int,
)
    ensures
        ({
            let row = here.key_row(identifier, title, size, date, RowKind::File, product);
            &&& (forall|i: int| 0 <= i < here.entries.len() ==> (#[trigger] here.entries[i]).identifier@ != identifier)
                ==> row.status is Remote && row.name.len() == 0
            &&& 0 <= at < here.entries.len() && here.entries[at].identifier@ == identifier && (forall|j: int|
                0 <= j < at ==> (#[trigger] here.entries[j]).identifier@ != identifier) ==> {
                let entry = here.entries[at];
                &&& row.name == entry.name@
                &&& entry.status is LibComplete <==> row.status is Complete
                &&& entry.status is LibDownloading <==> row.status is Downloading
                &&& entry.status is LibPaused <==> row.status is Paused
            }
        }),
{
    row::a_record_is_told_by_its_row(here.entries, identifier, title, size, date, RowKind::File, at);
}

/// A record of the catalogue that is its own snapshot is a product; of the others those
/// with a slash are folders, and the rest are files.
pub proof fn a_record_is_what_its_key_says(here: Sky, item: browse::ItemView)
    ensures
        ({
            let row = here.item_row(item);
            &&& row.kind is Product <==> item.product == row::bare_key(item.identifier)
            &&& row.kind matches RowKind::Product { folder } ==> folder == item.is_folder
            &&& row.kind is Folder <==> item.product != row::bare_key(item.identifier) && item.is_folder
            &&& row.kind is File <==> item.product != row::bare_key(item.identifier) && !item.is_folder
            &&& row.identifier == item.identifier
            &&& row.title == item.name
            &&& row.product == item.product
            &&& row.unviewable == item.unviewable
            &&& item.size > 0 ==> row.size == item.size
            &&& item.modified > 0 ==> row.date == item.modified
        }),
{
    a_row_carries_what_it_was_made_of(
        here,
        item.identifier,
        item.name,
        item.size,
        item.modified,
        here.item_kind(item),
        item.product,
    );
}

/// A found product shows its own name, type, size and day, stands for itself as a snapshot,
/// and says why it cannot be shown where it cannot.
pub proof fn a_found_product_shows_itself(here: Sky, product: proto::ProductView, children: Children, open: Set<Seq<char>>, depth: nat)
    ensures
        ({
            let row = here.found_row(product, children, open, depth);
            &&& row.identifier == product.identifier
            &&& row.title == product.name
            &&& row.product == product.identifier
            &&& row.kind == (RowKind::Product { folder: product.folder })
            &&& row.product_type == product.product_type
            &&& row.unviewable == product.unviewable
            &&& product.size > 0 ==> row.size == product.size
            &&& product.acquired > 0 ==> row.date == product.acquired
            &&& product.identifier.len() > 0 ==> row.globe == here.globe(row::bare_key(product.identifier))
                && row.outlined == here.outline(row::bare_key(product.identifier))
            &&& row.group is Some <==> product.parts.len() > 1
        }),
{
    a_row_carries_what_it_was_made_of(
        here,
        product.identifier,
        product.name,
        product.size,
        product.acquired,
        RowKind::Product { folder: product.folder },
        product.identifier,
    );
}

/// The parts of a snapshot stand under it in their order once it is opened by its own key,
/// and the one it is shown by is told from the rest.
pub proof fn the_parts_stand_under_their_snapshot(
    here: Sky,
    product: proto::ProductView,
    children: Children,
    open: Set<Seq<char>>,
    depth: nat,
    i: int,
)
    requires
        product.parts.len() > 1,
        0 <= i < product.parts.len(),
    ensures
        ({
            let row = here.found_row(product, children, open, depth);
            let part = product.parts[i];
            let key = "снимок:"@ + product.identifier;
            &&& row.group == Some(key)
            &&& !open.contains(key) ==> row.children.len() == 0
            &&& open.contains(key) ==> {
                &&& row.children.len() == product.parts.len()
                &&& row.children[i].identifier == part.identifier
                &&& part.product_type.len() == 0 ==> row.children[i].title == part.name
                &&& part.product_type.len() > 0 ==> row.children[i].title == part.product_type
                &&& part.shown <==> row.children[i].product_type == "показана"@
                &&& !part.shown <==> row.children[i].product_type == "часть"@
                &&& row.children[i].unviewable == part.unviewable
                &&& row.children[i].kind == (RowKind::Product { folder: part.folder })
                &&& part.size > 0 ==> row.children[i].size == part.size
                &&& product.acquired > 0 ==> row.children[i].date == product.acquired
            }
        }),
{
    reveal_strlit("показана");
    reveal_strlit("часть");
    assert("показана"@.len() != "часть"@.len());
    let part = product.parts[i];
    a_row_carries_what_it_was_made_of(
        here,
        part.identifier,
        part.name,
        part.size,
        product.acquired,
        RowKind::Product { folder: part.folder },
        part.identifier,
    );
}

/// The records of a listing stand in their order, each by its row; a folder that is open
/// shows what the catalogue said of it, and waits while more is on its way.
pub proof fn the_records_stand_in_their_order(
    here: Sky,
    items: Seq<browse::ItemView>,
    children: Children,
    open: Set<Seq<char>>,
    depth: nat,
    i: int,
)
    requires
        0 <= i < items.len(),
    ensures
        ({
            let rows = here.item_rows(items, children, open, depth);
            let path = row::listing_path(items[i].identifier);
            &&& rows.len() == items.len()
            &&& rows[i].identifier == items[i].identifier
            &&& rows[i].title == items[i].name
            &&& !open.contains(items[i].identifier) ==> rows[i].children.len() == 0
            &&& items[i].identifier.len() > 0 && open.contains(items[i].identifier) && items[i].is_folder && depth > 0 ==> {
                &&& rows[i].children.len() == children.items(path).len()
                &&& rows[i].loading == (children.branches().contains_key(path) && children.branches()[path].waiting)
            }
        }),
    decreases items.len(),
{
    let front = items.drop_last();
    count_of_rows(here, front, children, open, depth);
    if i < front.len() {
        the_records_stand_in_their_order(here, front, children, open, depth, i);
        assert(front[i] == items[i]);
    } else {
        let item = items.last();
        a_row_carries_what_it_was_made_of(
            here,
            item.identifier,
            item.name,
            item.size,
            item.modified,
            here.item_kind(item),
            item.product,
        );
        the_row_without_a_key_has_no_name(here, item);
        let row = here.item_row(item);
        let one = here.filled(row, children, open, depth);
        assert(here.item_rows(items, children, open, depth).last() == one);
        an_open_folder_is_filled(here, row, children, open, depth);
        if depth > 0 {
            count_of_rows(here, children.items(row::listing_path(item.identifier)), children, open, (depth - 1) as nat);
        }
    }
}

/// A closed folder is left as it is, and an open one is given what is known to be in it.
proof fn an_open_folder_is_filled(here: Sky, row: row::RowView, children: Children, open: Set<Seq<char>>, depth: nat)
    ensures
        ({
            let path = row::listing_path(row.identifier);
            let full = here.filled(row, children, open, depth);
            &&& full == (row::RowView { loading: full.loading, children: full.children, ..row })
            &&& depth == 0 || !row.kind.is_folder_spec() || !open.contains(row.key()) ==> full == row
            &&& depth > 0 && row.kind.is_folder_spec() && open.contains(row.key()) ==> full.loading
                == children.is_waiting(path) && full.children == here.item_rows(
                children.items(path),
                children,
                open,
                (depth - 1) as nat,
            )
        }),
{
}

/// A folder has no record, and so no key but its own.
proof fn the_row_without_a_key_has_no_name(here: Sky, item: browse::ItemView)
    ensures
        here.item_row(item).kind.is_folder_spec() ==> here.item_row(item).key() == item.identifier,
{
}

/// There are as many rows as records.
proof fn count_of_rows(here: Sky, items: Seq<browse::ItemView>, children: Children, open: Set<Seq<char>>, depth: nat)
    ensures
        here.item_rows(items, children, open, depth).len() == items.len(),
    decreases items.len(),
{
    if items.len() > 0 {
        count_of_rows(here, items.drop_last(), children, open, depth);
    }
}

/// The downloaded list says of each record, and of each file of a snapshot, where its
/// snapshot lies, and changes nothing else.
pub proof fn a_downloaded_row_says_where_it_lies(here: Sky, rows: Seq<row::RowView>, i: int)
    requires
        0 <= i < rows.len(),
    ensures
        ({
            let marked = here.all_marked(rows);
            let key = if rows[i].product.len() > 0 { row::bare_key(rows[i].product) } else { row::bare_key(rows[i].identifier) };
            &&& marked.len() == rows.len()
            &&& marked[i].globe == here.globe(key)
            &&& marked[i].outlined == here.outline(key)
            &&& marked[i].children == here.all_marked(rows[i].children)
            &&& marked[i] == (row::RowView {
                globe: marked[i].globe,
                outlined: marked[i].outlined,
                children: marked[i].children,
                ..rows[i]
            })
        }),
    decreases rows.len(),
{
    let front = rows.drop_last();
    count_of_marked(here, front);
    if i < front.len() {
        a_downloaded_row_says_where_it_lies(here, front, i);
        assert(front[i] == rows[i]);
    } else {
        assert(here.all_marked(rows).last() == here.marked(rows.last()));
        a_mark_is_the_globe(here, rows.last());
    }
}

/// What is marked on one row.
proof fn a_mark_is_the_globe(here: Sky, row: row::RowView)
    ensures
        here.marked(row) == (row::RowView {
            globe: here.globe(row.product_key()),
            outlined: here.outline(row.product_key()),
            children: here.all_marked(row.children),
            ..row
        }),
{
}

/// No row is left out, and none comes in.
proof fn count_of_marked(here: Sky, rows: Seq<row::RowView>)
    ensures
        here.all_marked(rows).len() == rows.len(),
    decreases rows.len(),
{
    if rows.len() > 0 {
        count_of_marked(here, rows.drop_last());
    }
}

/// What the search found stands in the order of the answer; the catalogue shows the
/// records of its folder; the downloaded list shows the library; no other tab has rows.
pub proof fn each_tab_has_its_own_rows(here: Sky, kind: ViewKind, i: int)
    ensures
        kind matches ViewKind::Search(search) ==> {
            &&& here.rows(Some(kind)).len() == search.results@.len()
            &&& 0 <= i < search.results@.len() ==> here.rows(Some(kind))[i].identifier == search.results@[i].identifier@
        },
        kind matches ViewKind::Browse(browse) ==> {
            &&& here.rows(Some(kind)).len() == browse.items@.len()
            &&& 0 <= i < browse.items@.len() ==> here.rows(Some(kind))[i].identifier == browse.items@[i].identifier@
        },
        kind is Downloaded ==> here.rows(Some(kind)).len() == row::downloaded(here.entries).len(),
        !(kind is Search) && !(kind is Browse) && !(kind is Downloaded) ==> here.rows(Some(kind)).len() == 0,
        here.rows(None).len() == 0,
{
    if let ViewKind::Search(search) = kind {
        if 0 <= i < search.results@.len() {
            a_found_product_shows_itself(
                here,
                search.results@[i]@,
                search.children,
                search.listing.expanded@,
                search.children.count(),
            );
        }
    }
    if let ViewKind::Browse(browse) = kind {
        let items = browse::items_seen(browse.items@);
        count_of_rows(here, items, browse.children, browse.listing.expanded@, browse.children.count());
        if 0 <= i < items.len() {
            the_records_stand_in_their_order(
                here,
                items,
                browse.children,
                browse.listing.expanded@,
                browse.children.count(),
                i,
            );
        }
    }
    count_of_marked(here, row::downloaded(here.entries));
}

} // verus!
