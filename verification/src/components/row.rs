//! A row of a list: what all three lists show.
//!
//! The state of a record is not worked out here: the library, which alone knows
//! what lies on disk, sends it. What is left is the way from a record of the
//! catalogue or the library to what is drawn.

use vstd::prelude::*;
use crate::message::ViewMsg;
use crate::proto::{LibraryEntry, LibraryStatus};
use crate::state::library::{self, LibraryState};
use crate::state::overlay::{Pace, Progress};
use crate::text;

verus! {

broadcast use vstd::string::group_string_axioms;

// -- Keys --

/// A key without the slashes at its end, by which a listing marks a folder.
pub open spec fn bare_key(key: Seq<char>) -> Seq<char> {
    text::without_trailing(key, '/')
}

/// What a path is called: its last segment.
pub open spec fn leaf(path: Seq<char>) -> Seq<char> {
    let key = bare_key(path);
    key.skip(text::last_index(key, '/') + 1)
}

/// The folder a key lies in; empty at the root.
pub open spec fn parent(key: Seq<char>) -> Seq<char> {
    let path = bare_key(key);
    let cut = text::last_index(path, '/');
    if cut >= 0 { path.take(cut) } else { Seq::empty() }
}

/// The path by which a folder's contents are listed.
pub open spec fn listing_path(key: Seq<char>) -> Seq<char> {
    bare_key(key) + "/"@
}

/// The key of a storage record without the slash that marks a folder: the same
/// product comes with it from the catalogue and without it from a search.
pub fn bare(key: &str) -> (bare: &str)
    ensures
        bare@ == bare_key(key@),
{
    text::trim_trailing(key, '/')
}

/// What a path is called: a file's name, a snapshot's name, a tab's title. Empty
/// only for a path without a segment.
pub fn last_segment(path: &str) -> (name: &str)
    ensures
        name@ == leaf(path@),
{
    let key: &str = bare(path);
    let length: usize = text::length(key);
    match text::rfind(key, '/') {
        Some(at) => {
            assert(key@.subrange(at + 1, length as int) =~= key@.skip(at + 1));
            key.substring_char(at + 1, length)
        },
        None => {
            assert(key@.skip(0) =~= key@);
            key
        },
    }
}

/// The folder a provider's key lies in.
pub fn folder_of(identifier: &str) -> (folder: &str)
    ensures
        folder@ == parent(identifier@),
{
    let path: &str = bare(identifier);
    match text::rfind(path, '/') {
        Some(cut) => {
            assert(path@.subrange(0, cut as int) =~= path@.take(cut as int));
            path.substring_char(0, cut)
        },
        None => {
            assert(path@.subrange(0, 0) =~= Seq::<char>::empty());
            path.substring_char(0, 0)
        },
    }
}

/// The path by which the contents of a record are listed: always with a slash.
pub fn folder_path(identifier: &str) -> (path: String)
    ensures
        path@ == listing_path(identifier@),
{
    text::concat(bare(identifier), "/")
}

/// What a snapshot of which only the key is known is looked at by: what is downloaded is
/// at hand, what is stored as a folder is opened by the provider, who chooses the raster
/// inside it, and the rest is opened as it is.
pub fn preview_of(library: &LibraryState, identifier: &str, folder: bool) -> (message: ViewMsg)
    ensures
        match message {
            ViewMsg::Preview(name) => library::entry_of(library.entries@, identifier@) matches Some(entry)
                && entry.status == LibraryStatus::LibComplete && entry.name@ == name@,
            ViewMsg::PreviewProduct(key) => folder && key@ == identifier@ && !(library::entry_of(
                library.entries@,
                identifier@,
            ) matches Some(entry) && entry.status == LibraryStatus::LibComplete),
            ViewMsg::PreviewRemote(key) => !folder && key@ == identifier@ && !(library::entry_of(
                library.entries@,
                identifier@,
            ) matches Some(entry) && entry.status == LibraryStatus::LibComplete),
            _ => false,
        },
{
    match library.local_name(identifier) {
        Some(name) => ViewMsg::Preview(name.clone()),
        None => if folder {
            ViewMsg::PreviewProduct(identifier.to_owned())
        } else {
            ViewMsg::PreviewRemote(identifier.to_owned())
        },
    }
}

/// What sets the key of a snapshot of several parts apart from a path.
pub open spec fn scene_prefix() -> Seq<char> {
    "снимок:"@
}

/// The key of the row of a snapshot of several parts: not the path of the
/// product, because the part that is shown stands under it as a row of its own.
pub fn scene_key(identifier: &str) -> (key: String)
    ensures
        key@ == scene_prefix() + identifier@,
{
    text::concat("снимок:", identifier)
}

/// A key of a snapshot of several parts is no path: there is nothing to list
/// under it.
pub fn is_scene_key(key: &str) -> (yes: bool)
    ensures
        yes == text::begins_with(key@, scene_prefix()),
{
    text::starts_with(key, "снимок:")
}

// -- States of a row --

/// The state of a row.
#[allow(inconsistent_fields)]
pub enum RowStatus {
    /// The library has no record of it: only the provider has.
    Remote,
    Downloading { done: u64, total: u64 },
    /// Begun and not finished. `trouble` says why the last attempt broke off;
    /// empty when a person stopped it or nobody knows.
    Paused { done: u64, total: u64, trouble: String },
    Complete,
    /// A folder or a snapshot with part of its contents on disk.
    Partial { done: usize, trouble: String },
}

/// What the state of a row says.
#[allow(inconsistent_fields)]
pub ghost enum StatusView {
    Remote,
    Downloading { done: u64, total: u64 },
    Paused { done: u64, total: u64, trouble: Seq<char> },
    Complete,
    Partial { done: usize, trouble: Seq<char> },
}

impl View for RowStatus {
    type V = StatusView;

    open spec fn view(&self) -> StatusView {
        match *self {
            RowStatus::Remote => StatusView::Remote,
            RowStatus::Downloading { done, total } => StatusView::Downloading { done, total },
            RowStatus::Paused { done, total, trouble } => StatusView::Paused { done, total, trouble: trouble@ },
            RowStatus::Complete => StatusView::Complete,
            RowStatus::Partial { done, trouble } => StatusView::Partial { done, trouble: trouble@ },
        }
    }
}

impl RowStatus {
    /// How much is done out of how much, where that can be said: a download,
    /// going or stopped, of a known size.
    pub fn progress(&self) -> (counted: Option<(u64, u64)>)
        ensures
            counted == match self@ {
                StatusView::Downloading { done, total } => if total > 0 { Some((done, total)) } else { None },
                StatusView::Paused { done, total, .. } => if total > 0 { Some((done, total)) } else { None },
                _ => None,
            },
    {
        match self {
            RowStatus::Downloading { done, total } => if *total > 0 { Some((*done, *total)) } else { None },
            RowStatus::Paused { done, total, .. } => if *total > 0 { Some((*done, *total)) } else { None },
            _ => None,
        }
    }
}

/// Whether the snapshot of a row is outlined on the globe. A state of its own:
/// neither the choice of the row nor its picture follows from it.
#[derive(Clone, Copy, PartialEq, Eq, Structural, Debug)]
pub enum OnOutline {
    Off,
    /// Asked for, and the geometry is still on its way.
    Asking,
    /// Asked for, and there is no geometry to draw.
    Blank,
    /// Asking did not work out; it can be asked again.
    Failed,
    Drawn,
}

/// How the snapshot of a row lies on the globe.
#[derive(Clone, Copy, PartialEq, Eq, Structural, Debug)]
pub enum OnGlobe {
    Off,
    /// Asked for, and the catalogue has not found the product yet.
    Asked,
    /// Its rasters are being asked for or opened.
    Assembling,
    /// It lies there as a raster.
    Laid { hidden: bool, progress: Progress },
}

impl OnGlobe {
    pub open spec fn pace_spec(self) -> Pace {
        match self {
            OnGlobe::Off => Pace::Idle,
            OnGlobe::Asked | OnGlobe::Assembling => Pace::Unknown,
            OnGlobe::Laid { hidden, progress } => progress.pace_spec(),
        }
    }

    pub open spec fn parts_spec(self) -> Seq<Seq<char>> {
        match self {
            OnGlobe::Off => Seq::empty(),
            OnGlobe::Asked => seq!["спрашиваем каталог…"@],
            OnGlobe::Assembling => seq!["растры открываются…"@],
            OnGlobe::Laid { hidden, progress } => progress.parts_spec(),
        }
    }

    /// What the strip under the row shows. While rasters are being assembled
    /// there is no share, but the work has to be seen.
    pub fn pace(self) -> (pace: Pace)
        ensures
            pace == self.pace_spec(),
    {
        match self {
            OnGlobe::Off => Pace::Idle,
            OnGlobe::Asked | OnGlobe::Assembling => Pace::Unknown,
            OnGlobe::Laid { progress, .. } => progress.pace(),
        }
    }

    /// The work in words, part by part, the larger ones first.
    pub fn parts(self) -> (parts: Vec<String>)
        ensures
            text::texts(parts@) == self.parts_spec(),
    {
        let mut parts: Vec<String> = Vec::new();
        match self {
            OnGlobe::Off => {},
            OnGlobe::Asked => parts.push("спрашиваем каталог…".to_owned()),
            OnGlobe::Assembling => parts.push("растры открываются…".to_owned()),
            OnGlobe::Laid { progress, .. } => {
                return progress.parts();
            },
        }
        assert(text::texts(parts@) =~= self.parts_spec());
        parts
    }

    /// The same in one phrase; `None` when there is nothing to say.
    pub fn said(self) -> (said: Option<String>)
        ensures
            match said {
                Some(words) => self.parts_spec().len() > 0 && words@ == text::joined(self.parts_spec(), " · "@),
                None => self.parts_spec().len() == 0,
            },
    {
        let parts: Vec<String> = self.parts();
        assert(text::texts(parts@).len() == parts@.len());
        if parts.len() == 0 {
            None
        } else {
            Some(text::join(&parts, " · "))
        }
    }

    /// Whether the snapshot is on the globe in any way.
    pub fn any(self) -> (yes: bool)
        ensures
            yes == !(self is Off),
    {
        !matches!(self, OnGlobe::Off)
    }

    /// Whether there is a place to aim the camera at: a layer is there.
    pub fn laid(self) -> (yes: bool)
        ensures
            yes == (self is Assembling || self is Laid),
    {
        matches!(self, OnGlobe::Assembling | OnGlobe::Laid { .. })
    }
}

/// What a record is. A snapshot is one thing whether it is stored as a folder or
/// as a single object; `folder` says only whether it can be entered.
#[derive(Clone, Copy, PartialEq, Eq, Structural, Debug)]
pub enum RowKind {
    File,
    /// A folder of the path: it is only entered.
    Folder,
    Product { folder: bool },
}

impl RowKind {
    pub open spec fn is_folder_spec(self) -> bool {
        self is Folder || self == RowKind::Product { folder: true }
    }

    /// Whether there are contents to enter.
    pub fn is_folder(self) -> (yes: bool)
        ensures
            yes == self.is_folder_spec(),
    {
        matches!(self, RowKind::Folder | RowKind::Product { folder: true })
    }

    /// Whether it is a snapshot.
    pub fn is_product(self) -> (yes: bool)
        ensures
            yes == self is Product,
    {
        matches!(self, RowKind::Product { .. })
    }
}

// -- The row --

/// A row of a list.
pub struct Row {
    /// The provider's key; empty when it is not known.
    pub identifier: String,
    /// A key of the row's own, where it is not the path: a snapshot of several
    /// parts has one.
    pub group: Option<String>,
    /// The name of the library's record; empty when there is none.
    pub name: String,
    /// What is shown as the name.
    pub title: String,
    pub kind: RowKind,
    pub outlined: OnOutline,
    /// Bytes; 0 when unknown.
    pub size: u64,
    /// Seconds from the start of 1970; 0 when unknown.
    pub date: i64,
    /// What the catalogue calls the record; empty when it did not say.
    pub product_type: String,
    /// The snapshot the record belongs to; empty when it stands alone.
    pub product: String,
    /// The files of a snapshot or the records of an opened folder.
    pub children: Vec<Row>,
    /// The row is made up of records of the library and is none itself.
    pub folded: bool,
    /// The contents of the opened folder are still on their way.
    pub loading: bool,
    pub globe: OnGlobe,
    /// Why the globe is not offered; empty when it is.
    pub unviewable: String,
    /// Why showing it failed the last time; empty when it did not.
    pub unshowable: String,
    pub status: RowStatus,
}

/// What a row says.
pub ghost struct RowView {
    pub identifier: Seq<char>,
    pub group: Option<Seq<char>>,
    pub name: Seq<char>,
    pub title: Seq<char>,
    pub kind: RowKind,
    pub outlined: OnOutline,
    pub size: u64,
    pub date: i64,
    pub product_type: Seq<char>,
    pub product: Seq<char>,
    pub children: Seq<RowView>,
    pub folded: bool,
    pub loading: bool,
    pub globe: OnGlobe,
    pub unviewable: Seq<char>,
    pub unshowable: Seq<char>,
    pub status: StatusView,
}

/// What a row says, with all that stands under it.
pub open spec fn seen(row: Row) -> RowView
    decreases row,
{
    RowView {
        identifier: row.identifier@,
        group: match row.group {
            Some(group) => Some(group@),
            None => None,
        },
        name: row.name@,
        title: row.title@,
        kind: row.kind,
        outlined: row.outlined,
        size: row.size,
        date: row.date,
        product_type: row.product_type@,
        product: row.product@,
        children: all_seen(row.children@),
        folded: row.folded,
        loading: row.loading,
        globe: row.globe,
        unviewable: row.unviewable@,
        unshowable: row.unshowable@,
        status: row.status@,
    }
}

/// What a list of rows says.
pub open spec fn all_seen(rows: Seq<Row>) -> Seq<RowView>
    decreases rows,
{
    if rows.len() == 0 {
        Seq::empty()
    } else {
        all_seen(rows.drop_last()).push(seen(rows.last()))
    }
}

impl View for Row {
    type V = RowView;

    open spec fn view(&self) -> RowView {
        seen(*self)
    }
}

/// Rows say one by one what the list says.
pub broadcast proof fn all_seen_by_one(rows: Seq<Row>)
    ensures
        (#[trigger] all_seen(rows)).len() == rows.len(),
        forall|i: int| 0 <= i < rows.len() ==> #[trigger] all_seen(rows)[i] == rows[i]@,
    decreases rows.len(),
{
    if rows.len() > 0 {
        all_seen_by_one(rows.drop_last());
        assert forall|i: int| 0 <= i < rows.len() implies #[trigger] all_seen(rows)[i] == rows[i]@ by {
            if i < rows.len() - 1 {
                assert(all_seen(rows.drop_last())[i] == rows.drop_last()[i]@);
            }
        }
    }
}

/// One more row says one thing more.
pub broadcast proof fn all_seen_push(rows: Seq<Row>, row: Row)
    ensures
        #[trigger] all_seen(rows.push(row)) == all_seen(rows).push(row@),
{
    assert(rows.push(row).drop_last() =~= rows);
}

/// A row of which nothing is known: a file that lies in the storage.
pub open spec fn blank_row() -> RowView {
    RowView {
        identifier: Seq::empty(),
        group: None,
        name: Seq::empty(),
        title: Seq::empty(),
        kind: RowKind::File,
        outlined: OnOutline::Off,
        size: 0,
        date: 0,
        product_type: Seq::empty(),
        product: Seq::empty(),
        children: Seq::empty(),
        folded: false,
        loading: false,
        globe: OnGlobe::Off,
        unviewable: Seq::empty(),
        unshowable: Seq::empty(),
        status: StatusView::Remote,
    }
}

impl Default for Row {
    fn default() -> (row: Row)
        ensures
            row@ == blank_row(),
            row.children@.len() == 0,
    {
        let row: Row = Row {
            identifier: String::new(),
            group: None,
            name: String::new(),
            title: String::new(),
            kind: RowKind::File,
            outlined: OnOutline::Off,
            size: 0,
            date: 0,
            product_type: String::new(),
            product: String::new(),
            children: Vec::new(),
            folded: false,
            loading: false,
            globe: OnGlobe::Off,
            unviewable: String::new(),
            unshowable: String::new(),
            status: RowStatus::Remote,
        };
        assert(all_seen(row.children@) =~= Seq::empty());
        row
    }
}


/// The part of a file's title behind its last dot.
pub open spec fn extension_of(title: Seq<char>) -> Option<Seq<char>> {
    let dot = text::last_index(title, '.');
    if dot >= 0 { Some(title.skip(dot + 1)) } else { None }
}

/// The extension of a file's title.
pub fn extension(title: &str) -> (extension: Option<&str>)
    ensures
        match extension {
            Some(behind) => extension_of(title@) == Some(behind@),
            None => extension_of(title@) is None,
        },
{
    match text::rfind(title, '.') {
        Some(dot) => {
            let length: usize = text::length(title);
            assert(title@.subrange(dot + 1, length as int) =~= title@.skip(dot + 1));
            Some(title.substring_char(dot + 1, length))
        },
        None => None,
    }
}

/// The bytes of the rows together.
pub open spec fn all_stored(rows: Seq<RowView>) -> nat
    decreases rows,
{
    if rows.len() == 0 {
        0
    } else {
        all_stored(rows.drop_last()) + rows.last().stored()
    }
}

impl RowView {
    pub open spec fn key(self) -> Seq<char> {
        match self.group {
            Some(group) => group,
            None => if self.identifier.len() == 0 { self.name } else { self.identifier },
        }
    }

    pub open spec fn snapshot_key(self) -> Seq<char> {
        bare_key(self.identifier)
    }

    pub open spec fn product_key(self) -> Seq<char> {
        if self.product.len() > 0 { bare_key(self.product) } else { self.snapshot_key() }
    }

    pub open spec fn named(self, key: Seq<char>) -> bool {
        key.len() > 0 && (bare_key(self.key()) == bare_key(key) || bare_key(self.identifier) == bare_key(key))
    }

    pub open spec fn is_snapshot(self) -> bool {
        self.kind is Product || (self.product.len() > 0 && self.product == self.snapshot_key())
    }

    pub open spec fn choice_key(self) -> Seq<char> {
        if self.is_snapshot() { self.snapshot_key() } else { self.key() }
    }

    pub open spec fn choosable(self) -> bool {
        !(self.kind is Folder) && self.choice_key().len() > 0
    }

    pub open spec fn expandable(self) -> bool {
        self.folded || self.group is Some || self.kind.is_folder_spec()
    }

    pub open spec fn folder(self) -> Seq<char> {
        parent(self.identifier)
    }

    /// The bytes of the record that are on disk; of a folded row, those of its
    /// files.
    pub open spec fn stored(self) -> nat
        decreases self,
    {
        if self.folded {
            all_stored(self.children)
        } else {
            match self.status {
                StatusView::Complete => self.size as nat,
                StatusView::Downloading { done, .. } => done as nat,
                StatusView::Paused { done, .. } => done as nat,
                StatusView::Remote | StatusView::Partial { .. } => 0,
            }
        }
    }

    pub open spec fn format(self) -> Seq<char> {
        if self.product_type.len() > 0 {
            self.product_type
        } else {
            match self.kind {
                RowKind::Product { .. } => "снимок"@,
                RowKind::Folder => "папка"@,
                RowKind::File => match extension_of(self.title) {
                    Some(extension) => text::uppercased(extension),
                    None => Seq::empty(),
                },
            }
        }
    }
}

impl Row {
    /// What a row is addressed by: its own key, the provider's, or without that
    /// the name of the record.
    pub fn key(&self) -> (key: &str)
        ensures
            key@ == self@.key(),
    {
        match &self.group {
            Some(group) => group.as_str(),
            None => if self.identifier.as_str().is_empty() { self.name.as_str() } else { self.identifier.as_str() },
        }
    }

    /// The key by which the provider knows the snapshot; empty when it does not.
    pub fn snapshot_key(&self) -> (key: &str)
        ensures
            key@ == self@.snapshot_key(),
    {
        bare(&self.identifier)
    }

    /// The key of the snapshot the row belongs to: its own for a snapshot, the
    /// product for a file inside one.
    pub fn product_key(&self) -> (key: &str)
        ensures
            key@ == self@.product_key(),
    {
        if self.product.as_str().is_empty() { self.snapshot_key() } else { bare(&self.product) }
    }

    /// Whether a key names this row, with or without the slash of a folder.
    pub fn named(&self, key: &str) -> (yes: bool)
        ensures
            yes == self@.named(key@),
    {
        !key.is_empty() && (text::same(bare(self.key()), bare(key)) || text::same(bare(&self.identifier), bare(key)))
    }

    /// Whether the row is a snapshot: by its kind, or as a downloaded file that
    /// is its own snapshot.
    pub fn is_snapshot(&self) -> (yes: bool)
        ensures
            yes == self@.is_snapshot(),
    {
        self.kind.is_product() || (!self.product.as_str().is_empty() && text::same(&self.product, self.snapshot_key()))
    }

    /// The key by which a row is chosen: a snapshot's own key, as it is outlined
    /// by, and any other row's key.
    pub fn choice_key(&self) -> (key: &str)
        ensures
            key@ == self@.choice_key(),
    {
        if self.is_snapshot() { self.snapshot_key() } else { self.key() }
    }

    /// Whether the row can be chosen: no folder of the path, and nothing that
    /// cannot be addressed.
    pub fn choosable(&self) -> (yes: bool)
        ensures
            yes == self@.choosable(),
    {
        !matches!(self.kind, RowKind::Folder) && !self.choice_key().is_empty()
    }

    /// Whether there is anything to open under the row.
    pub fn expandable(&self) -> (yes: bool)
        ensures
            yes == self@.expandable(),
    {
        self.folded || self.group.is_some() || self.kind.is_folder()
    }

    /// The folder the record lies in.
    pub fn folder(&self) -> (folder: &str)
        ensures
            folder@ == self@.folder(),
    {
        folder_of(&self.identifier)
    }

    /// How many bytes of the record are on disk. A sum past the largest count
    /// stays at it.
    pub fn stored(&self) -> (bytes: u64)
        ensures
            bytes == library::capped(self@.stored()),
        decreases self,
    {
        broadcast use all_seen_by_one;

        if self.folded {
            let ghost all = all_seen(self.children@);
            let mut bytes: u64 = 0;
            let mut i: usize = 0;
            while i < self.children.len()
                invariant
                    i <= self.children.len(),
                    all.len() == self.children@.len(),
                    forall|j: int| 0 <= j < all.len() ==> #[trigger] all[j] == self.children@[j]@,
                    bytes == library::capped(all_stored(all.take(i as int))),
                decreases self.children.len() - i,
            {
                let child: u64 = self.children[i].stored();
                assert(all.take(i + 1).drop_last() =~= all.take(i as int));
                assert(all.take(i + 1).last() == self.children@[i as int]@);
                bytes = bytes.saturating_add(child);
                i += 1;
            }
            assert(all.take(all.len() as int) =~= all);
            return bytes;
        }
        match &self.status {
            RowStatus::Complete => self.size,
            RowStatus::Downloading { done, .. } => *done,
            RowStatus::Paused { done, .. } => *done,
            RowStatus::Remote | RowStatus::Partial { .. } => 0,
        }
    }

    /// The column «формат»: what the catalogue called the record, without that
    /// its kind, and without that its extension in capitals.
    pub fn format(&self) -> (said: String)
        ensures
            said@ == self@.format(),
    {
        if !self.product_type.as_str().is_empty() {
            return self.product_type.clone();
        }
        match self.kind {
            RowKind::Product { .. } => "снимок".to_owned(),
            RowKind::Folder => "папка".to_owned(),
            RowKind::File => match extension(&self.title) {
                Some(extension) => text::uppercase(extension),
                None => String::new(),
            },
        }
    }

    /// The row of something that contains other things.
    pub fn container_row(identifier: String, title: String, status: RowStatus, kind: RowKind) -> (row: Row)
        ensures
            row@ == (RowView { identifier: identifier@, title: title@, kind, status: status@, ..blank_row() }),
            row.children@.len() == 0,
    {
        Row { identifier, title, kind, status, ..Row::default() }
    }
}

/// The state a record of the library gives its row.
pub open spec fn entry_status(entry: LibraryEntry) -> StatusView {
    match entry.status {
        LibraryStatus::LibDownloading => StatusView::Downloading { done: entry.done, total: entry.total },
        LibraryStatus::LibPaused => StatusView::Paused { done: entry.done, total: entry.total, trouble: entry.trouble@ },
        LibraryStatus::LibComplete => StatusView::Complete,
    }
}

/// The row of a record of the library.
pub open spec fn entry_row(entry: LibraryEntry) -> RowView {
    RowView {
        identifier: entry.identifier@,
        name: entry.name@,
        title: leaf(entry.name@),
        kind: RowKind::File,
        size: if entry.total > 0 { entry.total } else { entry.done },
        date: entry.modified,
        product: entry.product@,
        status: entry_status(entry),
        ..blank_row()
    }
}

/// The row of an object of the provider: what the catalogue says of it, with the
/// state of the library's record where there is one.
pub open spec fn remote_row(
    entries: Seq<LibraryEntry>,
    identifier: Seq<char>,
    title: Seq<char>,
    size: u64,
    date: i64,
    kind: RowKind,
) -> RowView {
    match library::entry_of(entries, identifier) {
        Some(entry) => RowView {
            title,
            kind,
            size: if size > 0 { size } else if entry.total > entry.done { entry.total } else { entry.done },
            date: if date > 0 { date } else { entry.modified },
            ..entry_row(entry)
        },
        None => RowView { identifier, title, kind, size, date, ..blank_row() },
    }
}

impl Row {
    /// The row of a record of the library. Its title is the last segment of its
    /// name: the snapshot is named in the row above.
    pub fn from_entry(entry: &LibraryEntry) -> (row: Row)
        ensures
            row@ == entry_row(*entry),
            row.children@.len() == 0,
    {
        let status: RowStatus = match library::status_of(entry) {
            LibraryStatus::LibDownloading => RowStatus::Downloading { done: entry.done, total: entry.total },
            LibraryStatus::LibPaused => RowStatus::Paused {
                done: entry.done,
                total: entry.total,
                trouble: entry.trouble.clone(),
            },
            LibraryStatus::LibComplete => RowStatus::Complete,
        };
        Row {
            identifier: entry.identifier.clone(),
            name: entry.name.clone(),
            title: last_segment(&entry.name).to_owned(),
            kind: RowKind::File,
            size: if entry.total > 0 { entry.total } else { entry.done },
            date: entry.modified,
            product: entry.product.clone(),
            status,
            ..Row::default()
        }
    }

    /// The row of an object of the provider's catalogue.
    pub fn remote(
        library: &LibraryState,
        identifier: String,
        title: String,
        size: u64,
        date: i64,
        kind: RowKind,
    ) -> (row: Row)
        ensures
            row@ == remote_row(library.entries@, identifier@, title@, size, date, kind),
            row.children@.len() == 0,
    {
        match library.by_identifier(&identifier) {
            Some(entry) => Row {
                title,
                kind,
                size: if size > 0 {
                    size
                } else if entry.total > entry.done {
                    entry.total
                } else {
                    entry.done
                },
                date: if date > 0 { date } else { entry.modified },
                ..Row::from_entry(entry)
            },
            None => Row { identifier, title, kind, size, date, ..Row::default() },
        }
    }
}


// -- The downloaded list --

/// How many files are complete.
pub open spec fn complete_files(files: Seq<RowView>) -> nat
    decreases files.len(),
{
    if files.len() == 0 {
        0
    } else {
        complete_files(files.drop_last()) + if files.last().status is Complete { 1nat } else { 0 }
    }
}

/// Some file is on its way.
pub open spec fn any_downloading(files: Seq<RowView>) -> bool {
    exists|i: int| 0 <= i < files.len() && (#[trigger] files[i]).status is Downloading
}

/// The time of the latest file.
pub open spec fn latest(files: Seq<RowView>) -> i64
    decreases files.len(),
{
    if files.len() == 0 {
        0
    } else if files.len() == 1 {
        files[0].date
    } else {
        let rest = latest(files.drop_last());
        if files.last().date > rest { files.last().date } else { rest }
    }
}

/// The reasons the stopped files give, in order.
pub open spec fn troubles(files: Seq<RowView>) -> Seq<Seq<char>>
    decreases files.len(),
{
    if files.len() == 0 {
        Seq::empty()
    } else {
        let rest = troubles(files.drop_last());
        match files.last().status {
            StatusView::Paused { trouble, .. } => rest.push(trouble),
            _ => rest,
        }
    }
}

/// The one reason all stopped files give; empty when they differ or none is
/// stopped.
pub open spec fn shared_trouble(files: Seq<RowView>) -> Seq<char> {
    let said = troubles(files);
    if said.len() > 0 && forall|i: int| 0 <= i < said.len() ==> #[trigger] said[i] == said[0] {
        said[0]
    } else {
        Seq::empty()
    }
}

/// The state of a snapshot of which these files were begun and which has
/// `siblings` files in all, 0 standing for unknown.
pub open spec fn snapshot_status(siblings: u32, files: Seq<RowView>) -> StatusView {
    let done = complete_files(files);
    let size = library::capped(all_stored(files)) as u64;
    if any_downloading(files) {
        StatusView::Downloading { done: size, total: 0 }
    } else if siblings > 0 && done == files.len() && files.len() as u32 == siblings {
        StatusView::Complete
    } else if done == 0 {
        StatusView::Paused { done: size, total: 0, trouble: shared_trouble(files) }
    } else {
        StatusView::Partial { done: done as usize, trouble: shared_trouble(files) }
    }
}

/// The row of a snapshot over its files.
pub open spec fn snapshot_row(product: Seq<char>, siblings: u32, files: Seq<RowView>) -> RowView {
    RowView {
        identifier: product,
        title: leaf(product),
        kind: RowKind::Product { folder: true },
        size: library::capped(all_stored(files)) as u64,
        date: latest(files),
        product,
        children: files,
        folded: true,
        status: snapshot_status(siblings, files),
        ..blank_row()
    }
}

/// The snapshots the records belong to, each where its first record stands.
pub open spec fn snapshots_of(entries: Seq<LibraryEntry>) -> Seq<Seq<char>>
    decreases entries.len(),
{
    if entries.len() == 0 {
        Seq::empty()
    } else {
        let rest = snapshots_of(entries.drop_last());
        let product = entries.last().product@;
        if product.len() > 0 && !rest.contains(product) { rest.push(product) } else { rest }
    }
}

/// The rows of the records of one snapshot; of the empty name, those of the
/// records that belong to none.
pub open spec fn rows_under(entries: Seq<LibraryEntry>, product: Seq<char>) -> Seq<RowView>
    decreases entries.len(),
{
    if entries.len() == 0 {
        Seq::empty()
    } else {
        let rest = rows_under(entries.drop_last(), product);
        if entries.last().product@ == product { rest.push(entry_row(entries.last())) } else { rest }
    }
}

/// The row of one snapshot: that of its only file, where the file is the
/// snapshot itself, and the files folded together otherwise.
pub open spec fn folded_row(entries: Seq<LibraryEntry>, product: Seq<char>) -> RowView {
    let files = rows_under(entries, product);
    if files.len() == 1 && files[0].identifier == product {
        files[0]
    } else {
        snapshot_row(product, library::walked(entries, product), files)
    }
}

/// The rows of the downloaded list: the snapshots first, then what belongs to
/// none.
pub open spec fn downloaded(entries: Seq<LibraryEntry>) -> Seq<RowView> {
    snapshots_of(entries).map_values(|product: Seq<char>| folded_row(entries, product)) + rows_under(
        entries,
        Seq::empty(),
    )
}

/// The reason common to all stopped files.
fn common_trouble(files: &Vec<Row>) -> (trouble: String)
    ensures
        trouble@ == shared_trouble(all_seen(files@)),
{
    broadcast use all_seen_by_one;

    let ghost all = all_seen(files@);
    let mut said: Option<&String> = None;
    let mut i: usize = 0;
    while i < files.len()
        invariant
            i <= files.len(),
            all == all_seen(files@),
            all.len() == files@.len(),
            forall|j: int| 0 <= j < all.len() ==> #[trigger] all[j] == files@[j]@,
            said is None <==> troubles(all.take(i as int)).len() == 0,
            said matches Some(first) ==> forall|j: int|
                0 <= j < troubles(all.take(i as int)).len() ==> #[trigger] troubles(all.take(i as int))[j] == first@,
        decreases files.len() - i,
    {
        let ghost before = troubles(all.take(i as int));
        let ghost after = troubles(all.take(i + 1));
        assert(all.take(i + 1).drop_last() =~= all.take(i as int));
        assert(all.take(i + 1).last() == files@[i as int]@);
        match &files[i].status {
            RowStatus::Paused { trouble, .. } => {
                assert(after == before.push(trouble@));
                match said {
                    None => {
                        said = Some(trouble);
                    },
                    Some(first) => {
                        if !text::same(first, trouble) {
                            proof {
                                troubles_only_grow(all, i + 1);
                                assert(after[0] == before[0] && before[0] == first@);
                                assert(after[before.len() as int] == trouble@);
                                let whole = troubles(all);
                                assert(whole[0] == after[0] && whole[before.len() as int] == after[before.len() as int]);
                            }
                            return String::new();
                        }
                    },
                }
            },
            _ => {},
        }
        i += 1;
    }
    assert(all.take(all.len() as int) =~= all);
    match said {
        Some(first) => first.clone(),
        None => String::new(),
    }
}

proof fn troubles_only_grow(files: Seq<RowView>, cut: int)
    requires
        0 <= cut <= files.len(),
    ensures
        troubles(files.take(cut)).len() <= troubles(files).len(),
        forall|i: int| 0 <= i < troubles(files.take(cut)).len() ==> troubles(files)[i] == #[trigger] troubles(files.take(cut))[i],
    decreases files.len() - cut,
{
    if cut == files.len() {
        assert(files.take(cut) =~= files);
    } else {
        troubles_only_grow(files, cut + 1);
        assert(files.take(cut + 1).drop_last() =~= files.take(cut));
        assert forall|i: int| 0 <= i < troubles(files.take(cut)).len() implies troubles(files)[i] == #[trigger] troubles(
            files.take(cut),
        )[i] by {
            assert(troubles(files.take(cut + 1))[i] == troubles(files.take(cut))[i]);
        }
    }
}

/// The row of a snapshot over its files: what can be said of it is put together
/// from them, but for how many files it has.
fn snapshot(product: String, siblings: u32, files: Vec<Row>) -> (row: Row)
    ensures
        row@ == snapshot_row(product@, siblings, all_seen(files@)),
{
    broadcast use all_seen_by_one;

    let ghost all = all_seen(files@);
    let mut done: usize = 0;
    let mut going: bool = false;
    let mut size: u64 = 0;
    let mut date: i64 = 0;
    let mut i: usize = 0;
    while i < files.len()
        invariant
            i <= files.len(),
            all.len() == files@.len(),
            forall|j: int| 0 <= j < all.len() ==> #[trigger] all[j] == files@[j]@,
            done <= i,
            done == complete_files(all.take(i as int)),
            going == exists|j: int| 0 <= j < i && (#[trigger] all[j]).status is Downloading,
            size == library::capped(all_stored(all.take(i as int))),
            date == latest(all.take(i as int)),
        decreases files.len() - i,
    {
        let file: &Row = &files[i];
        assert(all.take(i + 1).drop_last() =~= all.take(i as int));
        assert(all.take(i + 1).last() == all[i as int]);
        if matches!(file.status, RowStatus::Complete) {
            done += 1;
        }
        if matches!(file.status, RowStatus::Downloading { .. }) {
            going = true;
            assert(all[i as int].status is Downloading);
        }
        size = size.saturating_add(file.stored());
        if i == 0 || file.date > date {
            date = file.date;
        }
        i += 1;
    }
    assert(all.take(all.len() as int) =~= all);
    let total: usize = files.len();
    let status: RowStatus = if going {
        RowStatus::Downloading { done: size, total: 0 }
    } else if siblings > 0 && done == total && total as u32 == siblings {
        RowStatus::Complete
    } else if done == 0 {
        RowStatus::Paused { done: size, total: 0, trouble: common_trouble(&files) }
    } else {
        RowStatus::Partial { done, trouble: common_trouble(&files) }
    };
    Row {
        identifier: product.clone(),
        title: last_segment(&product).to_owned(),
        kind: RowKind::Product { folder: true },
        size,
        date,
        product,
        children: files,
        folded: true,
        status,
        ..Row::default()
    }
}

fn collect_under(library: &LibraryState, product: &str) -> (rows: Vec<Row>)
    ensures
        all_seen(rows@) == rows_under(library.entries@, product@),
{
    broadcast use all_seen_push;

    let ghost entries = library.entries@;
    let mut rows: Vec<Row> = Vec::new();
    let mut i: usize = 0;
    while i < library.entries.len()
        invariant
            i <= library.entries.len(),
            entries == library.entries@,
            all_seen(rows@) == rows_under(entries.take(i as int), product@),
        decreases library.entries.len() - i,
    {
        let entry: &LibraryEntry = &library.entries[i];
        assert(entries.take(i + 1).drop_last() =~= entries.take(i as int));
        if text::same(&entry.product, product) {
            let row: Row = Row::from_entry(entry);
            proof {
                all_seen_push(rows@, row);
            }
            rows.push(row);
        }
        i += 1;
    }
    assert(entries.take(entries.len() as int) =~= entries);
    rows
}

fn products(library: &LibraryState) -> (products: Vec<String>)
    ensures
        text::texts(products@) == snapshots_of(library.entries@),
{
    let ghost entries = library.entries@;
    let mut products: Vec<String> = Vec::new();
    assert(text::texts(products@) =~= Seq::empty());
    let mut i: usize = 0;
    while i < library.entries.len()
        invariant
            i <= library.entries.len(),
            entries == library.entries@,
            text::texts(products@) == snapshots_of(entries.take(i as int)),
        decreases library.entries.len() - i,
    {
        let product: &String = &library.entries[i].product;
        assert(entries.take(i + 1).drop_last() =~= entries.take(i as int));
        if !product.as_str().is_empty() && !text::is_listed(&products, product) {
            let ghost before = products@;
            products.push(product.clone());
            assert(text::texts(products@) =~= text::texts(before).push(product@));
        }
        i += 1;
    }
    assert(entries.take(entries.len() as int) =~= entries);
    products
}

proof fn a_named_snapshot_has_files(entries: Seq<LibraryEntry>, product: Seq<char>)
    requires
        snapshots_of(entries).contains(product),
    ensures
        rows_under(entries, product).len() > 0,
        product.len() > 0,
    decreases entries.len(),
{
    if entries.len() > 0 {
        let rest = snapshots_of(entries.drop_last());
        if rest.contains(product) {
            a_named_snapshot_has_files(entries.drop_last(), product);
        } else {
            let all = snapshots_of(entries);
            let i = choose|i: int| 0 <= i < all.len() && all[i] == product;
            if i < rest.len() {
                assert(rest[i] == product);
            }
        }
    }
}

/// All rows of the downloaded list: the files of one snapshot folded into one
/// row, and what belongs to no snapshot on its own.
pub fn downloaded_rows(library: &LibraryState) -> (rows: Vec<Row>)
    ensures
        all_seen(rows@) == downloaded(library.entries@),
{
    broadcast use all_seen_by_one;

    let ghost entries = library.entries@;
    let products: Vec<String> = products(library);
    let ghost names = snapshots_of(entries);
    let ghost folded = names.map_values(|product: Seq<char>| folded_row(entries, product));
    let mut rows: Vec<Row> = Vec::new();
    let mut i: usize = 0;
    while i < products.len()
        invariant
            i <= products.len(),
            entries == library.entries@,
            text::texts(products@) == names,
            names == snapshots_of(entries),
            folded == names.map_values(|product: Seq<char>| folded_row(entries, product)),
            all_seen(rows@) == folded.take(i as int),
        decreases products.len() - i,
    {
        let product: &String = &products[i];
        assert(names[i as int] == product@);
        proof {
            assert(names.contains(names[i as int]));
            a_named_snapshot_has_files(entries, product@);
        }
        let mut files: Vec<Row> = collect_under(library, product);
        proof {
            all_seen_by_one(files@);
        }
        let row: Row = if files.len() == 1 && text::same(&files[0].identifier, product) {
            files.remove(0)
        } else {
            let (_, siblings): (usize, u32) = library.snapshot(product);
            snapshot(product.clone(), siblings, files)
        };
        assert(row@ == folded_row(entries, product@));
        proof {
            all_seen_push(rows@, row);
        }
        rows.push(row);
        assert(folded.take(i + 1) =~= folded.take(i as int).push(folded[i as int]));
        i += 1;
    }
    assert(folded.take(folded.len() as int) =~= folded);
    let mut alone: Vec<Row> = collect_under(library, "");
    proof {
        reveal_strlit("");
        assert(""@ =~= Seq::<char>::empty());
        all_seen_append(rows@, alone@);
    }
    rows.append(&mut alone);
    rows
}

/// Two lists of rows say together what they say apart.
pub proof fn all_seen_append(front: Seq<Row>, back: Seq<Row>)
    ensures
        all_seen(front + back) == all_seen(front) + all_seen(back),
{
    all_seen_by_one(front);
    all_seen_by_one(back);
    all_seen_by_one(front + back);
    assert(all_seen(front + back) =~= all_seen(front) + all_seen(back));
}

// -- Laws --

/// A key taken without its slashes is taken so once.
pub proof fn a_bare_key_is_bare(key: Seq<char>)
    ensures
        bare_key(bare_key(key)) == bare_key(key),
    decreases key.len(),
{
    if key.len() > 0 && key.last() == '/' {
        a_bare_key_is_bare(key.drop_last());
    }
}

/// The slash of a folder changes nothing of a key: neither what it is called, nor where
/// it lies, nor what is listed by it.
pub proof fn a_folder_slash_changes_nothing(key: Seq<char>)
    ensures
        bare_key(key.push('/')) == bare_key(key),
        leaf(key.push('/')) == leaf(key),
        parent(key.push('/')) == parent(key),
        listing_path(key.push('/')) == listing_path(key),
{
    assert(key.push('/').drop_last() =~= key);
}

/// A row answers to its key with and without the slash of a folder.
pub proof fn a_row_answers_with_or_without_the_slash(row: RowView, key: Seq<char>)
    requires
        key.len() > 0,
    ensures
        row.named(key.push('/')) == row.named(key),
{
    a_folder_slash_changes_nothing(key);
}

/// A key is what it is called in the folder it lies in.
pub proof fn a_key_is_a_name_in_a_folder(key: Seq<char>)
    ensures
        text::last_index(bare_key(key), '/') >= 0 ==> bare_key(key) == parent(key).push('/') + leaf(key),
        text::last_index(bare_key(key), '/') < 0 ==> bare_key(key) == leaf(key) && parent(key).len() == 0,
{
    let path = bare_key(key);
    let cut = text::last_index(path, '/');
    the_last_slash_is_one(path);
    if cut >= 0 {
        assert(path =~= parent(key).push('/') + leaf(key));
    } else {
        assert(path.skip(0) =~= path);
    }
}

proof fn the_last_slash_is_one(path: Seq<char>)
    ensures
        -1 <= text::last_index(path, '/') < path.len(),
        text::last_index(path, '/') >= 0 ==> path[text::last_index(path, '/')] == '/',
    decreases path.len(),
{
    if path.len() > 0 && path.last() != '/' {
        the_last_slash_is_one(path.drop_last());
    }
}

proof fn a_record_is_under_its_snapshot(entries: Seq<LibraryEntry>, at: int)
    requires
        0 <= at < entries.len(),
    ensures
        rows_under(entries, entries[at].product@).contains(entry_row(entries[at])),
        entries[at].product@.len() > 0 ==> snapshots_of(entries).contains(entries[at].product@),
    decreases entries.len(),
{
    let front = entries.drop_last();
    let product = entries[at].product@;
    let rest = rows_under(front, product);
    if at < entries.len() - 1 {
        a_record_is_under_its_snapshot(front, at);
        let i = choose|i: int| 0 <= i < rest.len() && rest[i] == entry_row(entries[at]);
        assert(rows_under(entries, product)[i] == entry_row(entries[at]));
        if product.len() > 0 {
            let known = snapshots_of(front);
            let j = choose|j: int| 0 <= j < known.len() && known[j] == product;
            assert(snapshots_of(entries)[j] == product);
        }
    } else {
        assert(rows_under(entries, product)[rest.len() as int] == entry_row(entries[at]));
        let known = snapshots_of(front);
        if product.len() > 0 && !known.contains(product) {
            assert(snapshots_of(entries)[known.len() as int] == product);
        }
    }
}

/// A row of the downloaded list stands for a record: it is its row, or has it under it.
pub open spec fn stands_for_record(row: RowView, record: RowView) -> bool {
    row == record || row.children.contains(record)
}

/// Every record of the library has its row in the downloaded list.
pub proof fn every_record_has_its_row(entries: Seq<LibraryEntry>, at: int)
    requires
        0 <= at < entries.len(),
    ensures
        exists|i: int|
            0 <= i < downloaded(entries).len() && stands_for_record(
                #[trigger] downloaded(entries)[i],
                entry_row(entries[at]),
            ),
{
    a_record_is_under_its_snapshot(entries, at);
    let product = entries[at].product@;
    let record = entry_row(entries[at]);
    let products = snapshots_of(entries);
    let files = rows_under(entries, product);
    let k = choose|k: int| 0 <= k < files.len() && files[k] == record;
    if product.len() > 0 {
        let i = choose|i: int| 0 <= i < products.len() && products[i] == product;
        assert(downloaded(entries)[i] == folded_row(entries, product));
        assert(stands_for_record(downloaded(entries)[i], record));
    } else {
        assert(product =~= Seq::empty());
        assert(downloaded(entries)[products.len() + k] == record);
        assert(stands_for_record(downloaded(entries)[products.len() + k], record));
    }
}

/// How many records the rows of a list stand for: those of a snapshot under it, and one
/// for every other row.
pub open spec fn records_shown(rows: Seq<RowView>) -> nat
    decreases rows.len(),
{
    if rows.len() == 0 {
        0
    } else {
        records_shown(rows.drop_last()) + if rows.last().folded { rows.last().children.len() } else { 1 }
    }
}

spec fn records_under(entries: Seq<LibraryEntry>, products: Seq<Seq<char>>) -> nat
    decreases products.len(),
{
    if products.len() == 0 {
        0
    } else {
        records_under(entries, products.drop_last()) + rows_under(entries, products.last()).len()
    }
}

proof fn one_record_more(entries: Seq<LibraryEntry>, products: Seq<Seq<char>>)
    requires
        entries.len() > 0,
        products.no_duplicates(),
    ensures
        records_under(entries, products) == records_under(entries.drop_last(), products) + if products.contains(
            entries.last().product@,
        ) {
            1nat
        } else {
            0
        },
    decreases products.len(),
{
    if products.len() > 0 {
        let front = products.drop_last();
        let product = entries.last().product@;
        one_record_more(entries, front);
        if front.contains(product) {
            let i = choose|i: int| 0 <= i < front.len() && front[i] == product;
            assert(products[i] == product);
            assert(products[products.len() - 1] != product);
        } else if products.contains(product) {
            let i = choose|i: int| 0 <= i < products.len() && products[i] == product;
            if i < front.len() {
                assert(front[i] == product);
            }
        }
        if products.last() == product {
            assert(products[products.len() - 1] == product);
        }
    }
}

proof fn snapshots_are_told_once(entries: Seq<LibraryEntry>)
    ensures
        snapshots_of(entries).no_duplicates(),
        !snapshots_of(entries).contains(Seq::<char>::empty()),
        records_under(entries, snapshots_of(entries)) + rows_under(entries, Seq::empty()).len() == entries.len(),
    decreases entries.len(),
{
    if entries.len() > 0 {
        let front = entries.drop_last();
        snapshots_are_told_once(front);
        let known = snapshots_of(front);
        let product = entries.last().product@;
        one_record_more(entries, known);
        if product.len() == 0 {
            assert(product =~= Seq::empty());
        } else if !known.contains(product) {
            let all = snapshots_of(entries);
            assert(all.drop_last() =~= known);
            assert forall|i: int, j: int| 0 <= i < j < all.len() implies all[i] != all[j] by {
                if j == known.len() {
                    assert(known.contains(known[i]));
                }
            }
            if all.contains(Seq::<char>::empty()) {
                let i = choose|i: int| 0 <= i < all.len() && all[i] == Seq::<char>::empty();
                assert(known[i] == Seq::<char>::empty());
            }
            nothing_is_under_a_new_snapshot(front, product);
        }
    }
}

proof fn nothing_is_under_a_new_snapshot(entries: Seq<LibraryEntry>, product: Seq<char>)
    requires
        product.len() > 0,
        !snapshots_of(entries).contains(product),
    ensures
        rows_under(entries, product).len() == 0,
    decreases entries.len(),
{
    if entries.len() > 0 {
        let front = entries.drop_last();
        let known = snapshots_of(front);
        if known.contains(product) {
            let i = choose|i: int| 0 <= i < known.len() && known[i] == product;
            assert(snapshots_of(entries)[i] == product);
        }
        nothing_is_under_a_new_snapshot(front, product);
        if entries.last().product@ == product {
            assert(snapshots_of(entries)[known.len() as int] == product);
        }
    }
}

proof fn folded_rows_stand_for_their_files(entries: Seq<LibraryEntry>, products: Seq<Seq<char>>)
    ensures
        records_shown(products.map_values(|product: Seq<char>| folded_row(entries, product))) == records_under(
            entries,
            products,
        ),
    decreases products.len(),
{
    let rows = products.map_values(|product: Seq<char>| folded_row(entries, product));
    if products.len() > 0 {
        folded_rows_stand_for_their_files(entries, products.drop_last());
        assert(rows.drop_last() =~= products.drop_last().map_values(
            |product: Seq<char>| folded_row(entries, product),
        ));
        let files = rows_under(entries, products.last());
        if files.len() == 1 && files[0].identifier == products.last() {
            record_rows_are_not_folded(entries, products.last());
        }
    }
}

proof fn record_rows_are_not_folded(entries: Seq<LibraryEntry>, product: Seq<char>)
    ensures
        forall|i: int| 0 <= i < rows_under(entries, product).len() ==> !(#[trigger] rows_under(entries, product)[i]).folded,
    decreases entries.len(),
{
    if entries.len() > 0 {
        record_rows_are_not_folded(entries.drop_last(), product);
    }
}

proof fn plain_rows_stand_for_themselves(front: Seq<RowView>, back: Seq<RowView>)
    requires
        forall|i: int| 0 <= i < back.len() ==> !(#[trigger] back[i]).folded,
    ensures
        records_shown(front + back) == records_shown(front) + back.len(),
    decreases back.len(),
{
    if back.len() == 0 {
        assert(front + back =~= front);
    } else {
        assert((front + back).drop_last() =~= front + back.drop_last());
        plain_rows_stand_for_themselves(front, back.drop_last());
    }
}

/// The downloaded list stands for as many records as the library has: none is lost and
/// none comes twice.
pub proof fn no_record_comes_twice(entries: Seq<LibraryEntry>)
    ensures
        records_shown(downloaded(entries)) == entries.len(),
{
    let products = snapshots_of(entries);
    snapshots_are_told_once(entries);
    folded_rows_stand_for_their_files(entries, products);
    record_rows_are_not_folded(entries, Seq::empty());
    plain_rows_stand_for_themselves(
        products.map_values(|product: Seq<char>| folded_row(entries, product)),
        rows_under(entries, Seq::empty()),
    );
}

/// The row of an object tells the record that the library has of it: by its name, its
/// snapshot and its state. An object of which the library has no record is told as the
/// catalogue has it, and as being there only.
pub proof fn a_record_is_told_by_its_row(
    entries: Seq<LibraryEntry>,
    identifier: Seq<char>,
    title: Seq<char>,
    size: u64,
    date: i64,
    kind: RowKind,
    at: int,
)
    ensures
        ({
            let row = remote_row(entries, identifier, title, size, date, kind);
            &&& row.identifier == identifier && row.title == title && row.kind == kind
            &&& size > 0 ==> row.size == size
            &&& date > 0 ==> row.date == date
            &&& (forall|i: int| 0 <= i < entries.len() ==> (#[trigger] entries[i]).identifier@ != identifier) ==> {
                &&& row.status is Remote
                &&& row.name.len() == 0
                &&& row.product.len() == 0
                &&& row.size == size
                &&& row.date == date
            }
            &&& 0 <= at < entries.len() && entries[at].identifier@ == identifier && (forall|j: int|
                0 <= j < at ==> (#[trigger] entries[j]).identifier@ != identifier) ==> {
                let entry = entries[at];
                &&& row.name == entry.name@
                &&& row.product == entry.product@
                &&& size == 0 ==> row.size == if entry.total > entry.done { entry.total } else { entry.done }
                &&& date <= 0 ==> row.date == entry.modified
                &&& match entry.status {
                    LibraryStatus::LibComplete => row.status is Complete,
                    LibraryStatus::LibDownloading => row.status == (StatusView::Downloading {
                        done: entry.done,
                        total: entry.total,
                    }),
                    LibraryStatus::LibPaused => row.status == (StatusView::Paused {
                        done: entry.done,
                        total: entry.total,
                        trouble: entry.trouble@,
                    }),
                }
            }
        }),
{
    let first = library::a_key_means_its_first_record(entries, identifier);
    if first < entries.len() {
        assert(entries[first].identifier@ == identifier);
    }
}

/// A record of the library is told by a row of its own: by its key, its name and snapshot,
/// with its whole size where that is known, and in its own state.
pub proof fn a_record_has_a_row_of_its_own(entry: LibraryEntry)
    ensures
        ({
            let row = entry_row(entry);
            &&& row.identifier == entry.identifier@
            &&& row.name == entry.name@
            &&& row.product == entry.product@
            &&& row.date == entry.modified
            &&& row.kind == RowKind::File
            &&& entry.total > 0 ==> row.size == entry.total
            &&& entry.total == 0 ==> row.size == entry.done
            &&& row.children.len() == 0 && !row.folded && !row.loading && row.group is None
            &&& (row.status is Complete) == (entry.status == LibraryStatus::LibComplete)
            &&& (row.status is Downloading) == (entry.status == LibraryStatus::LibDownloading)
            &&& (row.status is Paused) == (entry.status == LibraryStatus::LibPaused)
            &&& row.status matches StatusView::Downloading { done, total } ==> done == entry.done && total == entry.total
            &&& row.status matches StatusView::Paused { done, total, trouble } ==> done == entry.done && total == entry.total
                && trouble == entry.trouble@
        }),
{
}

/// A snapshot is on its way while a file of it is; it is complete when all its files are
/// here and as many as it has; it is stopped while none is complete, and in part when some
/// are.
pub proof fn a_snapshot_is_what_its_files_are(siblings: u32, files: Seq<RowView>)
    requires
        files.len() <= u32::MAX,
    ensures
        ({
            let status = snapshot_status(siblings, files);
            let going = exists|i: int| 0 <= i < files.len() && (#[trigger] files[i]).status is Downloading;
            let some = exists|i: int| 0 <= i < files.len() && (#[trigger] files[i]).status is Complete;
            let all = forall|i: int| 0 <= i < files.len() ==> (#[trigger] files[i]).status is Complete;
            &&& (status is Downloading) == going
            &&& (status is Complete) == (!going && siblings > 0 && all && files.len() == siblings)
            &&& (status is Paused) == (!going && !some)
            &&& (status is Partial) == (!going && some && !(siblings > 0 && all && files.len() == siblings))
            &&& !(status is Remote)
        }),
{
    complete_are_counted(files);
}

proof fn complete_are_counted(files: Seq<RowView>)
    ensures
        complete_files(files) <= files.len(),
        (complete_files(files) == files.len()) == (forall|i: int|
            0 <= i < files.len() ==> (#[trigger] files[i]).status is Complete),
        (complete_files(files) > 0) == (exists|i: int| 0 <= i < files.len() && (#[trigger] files[i]).status is Complete),
    decreases files.len(),
{
    if files.len() > 0 {
        let front = files.drop_last();
        complete_are_counted(front);
        let last = files[files.len() - 1];
        assert(last == files.last());
        if complete_files(files) == files.len() {
            assert forall|i: int| 0 <= i < files.len() implies (#[trigger] files[i]).status is Complete by {
                if i < front.len() {
                    assert(front[i] == files[i]);
                }
            }
        }
        if forall|i: int| 0 <= i < files.len() ==> (#[trigger] files[i]).status is Complete {
            assert forall|i: int| 0 <= i < front.len() implies (#[trigger] front[i]).status is Complete by {
                assert(front[i] == files[i]);
            }
        }
        if complete_files(front) > 0 {
            let i = choose|i: int| 0 <= i < front.len() && (#[trigger] front[i]).status is Complete;
            assert(files[i] == front[i]);
        }
        if exists|i: int| 0 <= i < files.len() && (#[trigger] files[i]).status is Complete {
            let i = choose|i: int| 0 <= i < files.len() && (#[trigger] files[i]).status is Complete;
            if i < front.len() {
                assert(front[i] == files[i]);
            }
        }
    }
}

/// The time of a snapshot is the time of its latest file.
pub proof fn a_snapshot_is_as_new_as_its_latest_file(files: Seq<RowView>)
    ensures
        forall|i: int| 0 <= i < files.len() ==> (#[trigger] files[i]).date <= latest(files),
        files.len() > 0 ==> exists|i: int| 0 <= i < files.len() && (#[trigger] files[i]).date == latest(files),
        files.len() == 0 ==> latest(files) == 0,
    decreases files.len(),
{
    if files.len() > 1 {
        let front = files.drop_last();
        a_snapshot_is_as_new_as_its_latest_file(front);
        assert forall|i: int| 0 <= i < files.len() implies (#[trigger] files[i]).date <= latest(files) by {
            if i < front.len() {
                assert(front[i] == files[i]);
            }
        }
        if files.last().date > latest(front) {
            assert(files[files.len() - 1].date == latest(files));
        } else {
            let i = choose|i: int| 0 <= i < front.len() && (#[trigger] front[i]).date == latest(front);
            assert(files[i] == front[i]);
        }
    } else if files.len() == 1 {
        assert(files[0].date == latest(files));
    }
}

/// What of a record is on disk: all of a complete one, as much as came of one that goes or
/// was stopped, and nothing of one that is elsewhere; a snapshot has what its files have
/// together.
pub proof fn what_is_stored_is_what_came(row: RowView, files: Seq<RowView>)
    ensures
        !row.folded ==> match row.status {
            StatusView::Complete => row.stored() == row.size,
            StatusView::Downloading { done, total } => row.stored() == done,
            StatusView::Paused { done, total, trouble } => row.stored() == done,
            StatusView::Remote => row.stored() == 0,
            StatusView::Partial { done, trouble } => row.stored() == 0,
        },
        row.folded ==> row.stored() == all_stored(row.children),
        all_stored(Seq::empty()) == 0,
        all_stored(files.push(row)) == all_stored(files) + row.stored(),
{
    assert(files.push(row).drop_last() =~= files);
}

/// The row of a snapshot is named by its path, has its files under it, and can be opened
/// into them.
pub proof fn a_snapshot_holds_its_files(product: Seq<char>, siblings: u32, files: Seq<RowView>)
    ensures
        ({
            let row = snapshot_row(product, siblings, files);
            &&& row.identifier == product
            &&& row.product == product
            &&& row.children == files
            &&& row.is_snapshot()
            &&& row.expandable()
            &&& row.kind == (RowKind::Product { folder: true })
            &&& row.name.len() == 0
            &&& all_stored(files) <= u64::MAX ==> row.size == all_stored(files)
        }),
{
}

/// What stopped files say is said of their snapshot where they all say the same, and
/// nothing where two of them differ or none is stopped.
pub proof fn a_shared_trouble_is_said(files: Seq<RowView>, why: Seq<char>)
    requires
        forall|i: int|
            0 <= i < files.len() ==> ((#[trigger] files[i]).status matches StatusView::Paused { trouble, .. } ==> trouble
                == why),
    ensures
        (exists|i: int| 0 <= i < files.len() && (#[trigger] files[i]).status is Paused) ==> shared_trouble(files) == why,
        (forall|i: int| 0 <= i < files.len() ==> !((#[trigger] files[i]).status is Paused)) ==> shared_trouble(files).len()
            == 0,
{
    troubles_are_alike(files, why);
}

proof fn troubles_are_alike(files: Seq<RowView>, why: Seq<char>)
    requires
        forall|i: int|
            0 <= i < files.len() ==> ((#[trigger] files[i]).status matches StatusView::Paused { trouble, .. } ==> trouble
                == why),
    ensures
        forall|k: int| 0 <= k < troubles(files).len() ==> #[trigger] troubles(files)[k] == why,
        (troubles(files).len() > 0) == (exists|i: int| 0 <= i < files.len() && (#[trigger] files[i]).status is Paused),
    decreases files.len(),
{
    if files.len() > 0 {
        let front = files.drop_last();
        assert forall|i: int| 0 <= i < front.len() implies ((#[trigger] front[i]).status matches StatusView::Paused {
            trouble,
            ..
        } ==> trouble == why) by {
            assert(front[i] == files[i]);
        }
        troubles_are_alike(front, why);
        let last = files[files.len() - 1];
        assert(last == files.last());
        if troubles(front).len() > 0 {
            let i = choose|i: int| 0 <= i < front.len() && (#[trigger] front[i]).status is Paused;
            assert(files[i] == front[i]);
        }
        if exists|i: int| 0 <= i < files.len() && (#[trigger] files[i]).status is Paused {
            let i = choose|i: int| 0 <= i < files.len() && (#[trigger] files[i]).status is Paused;
            if i < front.len() {
                assert(front[i] == files[i]);
            }
        }
    }
}

/// The name of a path is what stands behind its last slash, and the folder what stands
/// before it; the slashes at the end of the path count for neither.
pub proof fn a_path_is_a_folder_and_a_name(folder: Seq<char>, name: Seq<char>)
    requires
        name.len() > 0,
        !name.contains('/'),
    ensures
        leaf(folder.push('/') + name) == name,
        parent(folder.push('/') + name) == folder,
        leaf(folder.push('/') + name.push('/')) == name,
        leaf(name) == name,
        parent(name).len() == 0,
        listing_path(name) == name.push('/'),
        listing_path(name.push('/')) == name.push('/'),
{
    reveal_strlit("/");
    assert("/"@ =~= seq!['/']);
    let path = folder.push('/') + name;
    let slashed = folder.push('/') + name.push('/');
    assert(name.contains(name.last())) by {
        assert(name[name.len() - 1] == name.last());
    }
    assert(path.last() == name.last());
    assert(slashed.drop_last() =~= path);
    assert(name.push('/').drop_last() =~= name);
    assert(name.last() != '/');
    assert(bare_key(path) == path);
    assert(slashed.last() == '/');
    assert(bare_key(slashed) == bare_key(slashed.drop_last()));
    assert(bare_key(name) == name);
    assert(bare_key(name.push('/')) == name);
    text::the_last_place_is_the_last(path, '/');
    text::the_last_place_is_the_last(name, '/');
    let at = text::last_index(path, '/');
    assert(path[folder.len() as int] == '/');
    assert(at >= folder.len());
    if at > folder.len() {
        assert(path[at] == name[at - folder.len() - 1]);
        assert(name.contains('/'));
    }
    assert(path.skip(at + 1) =~= name);
    assert(path.take(at) =~= folder);
    let none = text::last_index(name, '/');
    if none >= 0 {
        assert(name.contains('/'));
    }
    assert(name.skip(0) =~= name);
    assert(name + "/"@ =~= name.push('/'));
}

/// The format of a record is what the catalogue calls it, or else its kind, or else the
/// letters behind its last dot in capitals.
pub proof fn a_format_is_what_is_known_of_it(row: RowView)
    ensures
        row.product_type.len() > 0 ==> row.format() == row.product_type,
        row.product_type.len() == 0 && row.kind is Product ==> row.format() == "снимок"@,
        row.product_type.len() == 0 && row.kind is Folder ==> row.format() == "папка"@,
        row.product_type.len() == 0 && row.kind is File && !row.title.contains('.') ==> row.format().len() == 0,
        forall|stem: Seq<char>, ending: Seq<char>|
            row.product_type.len() == 0 && row.kind is File && row.title == #[trigger] (stem.push('.') + ending)
                && !ending.contains('.') ==> row.format() == text::uppercased(ending),
{
    text::the_last_place_is_the_last(row.title, '.');
    let dot = text::last_index(row.title, '.');
    if !row.title.contains('.') && dot >= 0 {
        assert(row.title[dot] == '.');
    }
    assert forall|stem: Seq<char>, ending: Seq<char>|
        row.product_type.len() == 0 && row.kind is File && row.title == #[trigger] (stem.push('.') + ending)
            && !ending.contains('.') implies row.format() == text::uppercased(ending) by {
        assert(row.title[stem.len() as int] == '.');
        if dot > stem.len() {
            assert(ending[dot - stem.len() - 1] == '.');
        }
        assert(row.title.skip(dot + 1) =~= ending);
    }
}

/// A snapshot is chosen by the key of the provider and any other row by its own; folders of
/// the path are not chosen, and neither is what cannot be addressed.
pub proof fn what_can_be_chosen_has_a_key(row: RowView)
    ensures
        row.kind is Folder ==> !row.choosable(),
        row.kind is Product && row.identifier.len() > 0 && row.identifier.last() != '/' ==> row.choosable()
            && row.choice_key() == row.identifier,
        row.kind is File && row.product.len() == 0 && row.group is None && row.identifier.len() > 0 ==> row.choosable()
            && row.choice_key() == row.identifier,
        row.kind is File && row.product.len() == 0 && row.group is None && row.identifier.len() == 0 ==> row.choice_key()
            == row.name && row.choosable() == (row.name.len() > 0),
        row.group matches Some(group) ==> row.key() == group,
{
}

/// A row goes by the key of its group, else by its identifier, else by the name of its
/// record.
pub proof fn what_a_row_goes_by(row: RowView)
    ensures
        row.group matches Some(group) ==> row.key() == group,
        row.group is None && row.identifier.len() > 0 ==> row.key() == row.identifier,
        row.group is None && row.identifier.len() == 0 ==> row.key() == row.name,
        row.snapshot_key() == bare_key(row.identifier),
        row.product.len() > 0 ==> row.product_key() == bare_key(row.product),
        row.product.len() == 0 ==> row.product_key() == bare_key(row.identifier),
        row.folder() == parent(row.identifier),
{
}

/// A row is a snapshot where it is a product or its own snapshot; a snapshot is chosen by its
/// key without the slash, and any other row by what it goes by.
pub proof fn what_is_a_snapshot(row: RowView)
    ensures
        row.kind is Product ==> row.is_snapshot(),
        row.product.len() > 0 && row.product == bare_key(row.identifier) ==> row.is_snapshot(),
        !(row.kind is Product) && row.product.len() == 0 ==> !row.is_snapshot(),
        !(row.kind is Product) && row.product != bare_key(row.identifier) ==> !row.is_snapshot(),
        row.is_snapshot() ==> row.choice_key() == bare_key(row.identifier),
        !row.is_snapshot() ==> row.choice_key() == row.key(),
        row.choosable() <==> !(row.kind is Folder) && row.choice_key().len() > 0,
{
}

/// A row can be opened where it is made up of records, has parts of its own or is a folder.
pub proof fn what_can_be_opened(row: RowView)
    ensures
        row.expandable() <==> row.folded || row.group is Some || row.kind is Folder || row.kind == (RowKind::Product {
            folder: true,
        }),
        row.kind.is_folder_spec() <==> row.kind is Folder || row.kind == (RowKind::Product { folder: true }),
{
}

/// A row answers to what it goes by and to its identifier, with a slash or without, and to
/// nothing else.
pub proof fn what_a_row_answers_to(row: RowView, key: Seq<char>)
    ensures
        row.named(key) <==> key.len() > 0 && (bare_key(row.key()) == bare_key(key) || bare_key(row.identifier) == bare_key(
            key,
        )),
        !row.named(Seq::empty()),
{
}

/// The globe of a row says how its work goes: asked for and put together it is not known
/// how long, and laid it goes as the layer does.
pub proof fn the_globe_says_how_its_work_goes(globe: OnGlobe)
    ensures
        globe is Off ==> globe.pace_spec() is Idle && globe.parts_spec().len() == 0,
        globe is Asked ==> globe.pace_spec() is Unknown && globe.parts_spec() == seq!["спрашиваем каталог…"@],
        globe is Assembling ==> globe.pace_spec() is Unknown && globe.parts_spec() == seq!["растры открываются…"@],
        globe matches OnGlobe::Laid { hidden, progress } ==> globe.pace_spec() == progress.pace_spec() && globe.parts_spec()
            == progress.parts_spec(),
{
}

/// What is seen of a row is what it holds.
pub proof fn what_is_seen_of_a_row(row: Row)
    ensures
        row@.identifier == row.identifier@,
        row@.name == row.name@,
        row@.title == row.title@,
        row@.kind == row.kind,
        row@.size == row.size,
        row@.date == row.date,
        row@.product == row.product@,
        row@.product_type == row.product_type@,
        row@.folded == row.folded,
        row@.loading == row.loading,
        row@.globe == row.globe,
        row@.outlined == row.outlined,
        row@.unviewable == row.unviewable@,
        row@.unshowable == row.unshowable@,
        row.status is Complete <==> row@.status is Complete,
        row.status is Remote <==> row@.status is Remote,
        row.status is Downloading <==> row@.status is Downloading,
        row.status is Paused <==> row@.status is Paused,
        row.status is Partial <==> row@.status is Partial,
{
}

} // verus!
