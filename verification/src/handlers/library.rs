//! What is done with the library: download or pause, delete, and take down the
//! state that it sends.
//!
//! Neither paths nor the look of a half-downloaded file are known here: a press
//! becomes a request to the library, and its state comes back as a message.

use vstd::prelude::*;
use crate::calls::{self, Call};
use crate::components::row;
use crate::handlers::browse::MAX_ITEMS;
use crate::names;
use crate::number;
use crate::proto::{LibraryEntry, LibraryStateMsg, LibraryStatus, ListEntry, ListPathResponse};
use crate::state::ids::ViewId;
use crate::state::library::{self, status_of};
use crate::state::listing::{self, Chosen, ListingState};
use crate::state::screen::{self, Screen, Tab};
use crate::state::{self, Batch, Listing, Measured, Speed, State};
use crate::text;

verus! {

broadcast use vstd::string::group_string_axioms;

/// Only the waiting requests have changed: these were put behind them.
pub open spec fn only_says(before: State, after: State, said: Seq<calls::CallView>) -> bool {
    &&& after == (State { calls: after.calls, ..before })
    &&& after.said() == before.said() + said
}

/// What a press on «скачать» asks for.
pub open spec fn press_said(entries: Seq<LibraryEntry>, identifier: Seq<char>, product: Seq<char>) -> Seq<calls::CallView> {
    if identifier.len() == 0 {
        Seq::empty()
    } else {
        match library::entry_of(entries, identifier) {
            Some(entry) => if entry.status == LibraryStatus::LibDownloading {
                seq![calls::CallView::Pause { name: entry.name@ }]
            } else {
                seq![calls::CallView::Download { identifier, product }]
            },
            None => seq![calls::CallView::Download { identifier, product }],
        }
    }
}

/// A press on «скачать». Pressed on a download that goes, it is a pause: what is
/// here is kept, and the next press goes on from it.
pub fn on_download_pressed(state: &mut State, identifier: String, product: String)
    ensures
        only_says(
            *old(state),
            *final(state),
            press_said(old(state).library.entries@, identifier@, product@),
        ),
{
    broadcast use calls::said_push;

    let ghost before = state.said();
    if identifier.as_str().is_empty() {
        assert(before + Seq::empty() =~= before);
        return;
    }
    let downloading: Option<String> = match state.library.by_identifier(&identifier) {
        Some(entry) => if status_of(entry) == LibraryStatus::LibDownloading { Some(entry.name.clone()) } else { None },
        None => None,
    };
    if let Some(name) = downloading {
        let ghost call = calls::CallView::Pause { name: name@ };
        state.calls.push(Call::Pause { name });
        assert(before + seq![call] =~= before.push(call));
        return;
    }
    let ghost call = calls::CallView::Download { identifier: identifier@, product: product@ };
    state.calls.push(Call::Download { identifier, product });
    assert(before + seq![call] =~= before.push(call));
}

/// What a press on «удалить» asks for.
pub open spec fn delete_said(name: Seq<char>) -> Seq<calls::CallView> {
    if name.len() == 0 { Seq::empty() } else { seq![calls::CallView::Delete { name }] }
}

/// A press on «удалить», on any record: whole, half-downloaded or only meant. It
/// calls off a download that goes, too.
pub fn on_delete_pressed(state: &mut State, name: String)
    ensures
        only_says(*old(state), *final(state), delete_said(name@)),
{
    broadcast use calls::said_push;

    let ghost before = state.said();
    let ghost call = calls::CallView::Delete { name: name@ };
    if name.as_str().is_empty() {
        assert(before + Seq::empty() =~= before);
        return;
    }
    state.calls.push(Call::Delete { name });
    assert(before + seq![call] =~= before.push(call));
}

/// What a press on «показать в файловом менеджере» asks for.
pub open spec fn reveal_said(name: Seq<char>) -> Seq<calls::CallView> {
    if name.len() == 0 { Seq::empty() } else { seq![calls::CallView::Reveal { name }] }
}

/// Shows a record in the file manager.
pub fn on_reveal_pressed(state: &mut State, name: String)
    ensures
        only_says(*old(state), *final(state), reveal_said(name@)),
{
    broadcast use calls::said_push;

    let ghost before = state.said();
    let ghost call = calls::CallView::Reveal { name: name@ };
    if name.as_str().is_empty() {
        assert(before + Seq::empty() =~= before);
        return;
    }
    state.calls.push(Call::Reveal { name });
    assert(before + seq![call] =~= before.push(call));
}

// -- A whole snapshot --

/// The questions for listings and the waiting requests.
pub ghost struct Errands {
    pub asked: u64,
    pub listings: Map<Seq<char>, state::ListingView>,
    pub said: Seq<calls::CallView>,
}

pub open spec fn errands(state: State) -> Errands {
    Errands { asked: state.asked, listings: state::listings_seen(state.listings@), said: state.said() }
}

impl Errands {
    /// A snapshot is to be walked: what files it has is asked of the provider.
    pub open spec fn walking(self, product: Seq<char>) -> Errands {
        if product.len() == 0 {
            self
        } else {
            let mark = number::written(self.asked as nat);
            Errands {
                asked: state::one_more(self.asked),
                listings: self.listings.insert(mark, state::ListingView::Snapshot { product, files: 0, queued: 0 }),
                said: self.said.push(
                    calls::CallView::ListPath {
                        path: row::listing_path(product),
                        token: Seq::empty(),
                        recursive: true,
                        correlation: mark,
                    },
                ),
            }
        }
    }

    /// What is worth fetching is fetched, one after another.
    pub open spec fn fetching(self, fetches: Seq<FetchView>) -> Errands
        decreases fetches.len(),
    {
        if fetches.len() == 0 {
            self
        } else {
            let rest = self.fetching(fetches.drop_last());
            match fetches.last() {
                FetchView::Snapshot(product) => rest.walking(product),
                FetchView::File { identifier, product } => Errands {
                    said: rest.said.push(calls::CallView::Download { identifier, product }),
                    ..rest
                },
            }
        }
    }
}

/// What goes to the downloads at one press. The two kinds are told apart: what a
/// snapshot is made of has to be asked first, and a file goes straight.
#[derive(PartialEq, Eq, Debug)]
pub enum Fetch {
    Snapshot(String),
    File { identifier: String, product: String },
}

/// What is to be fetched, in words.
pub ghost enum FetchView {
    Snapshot(Seq<char>),
    File { identifier: Seq<char>, product: Seq<char> },
}

impl View for Fetch {
    type V = FetchView;

    open spec fn view(&self) -> FetchView {
        match *self {
            Fetch::Snapshot(product) => FetchView::Snapshot(product@),
            Fetch::File { identifier, product } => FetchView::File { identifier: identifier@, product: product@ },
        }
    }
}

/// Only questions for listings and waiting requests have changed.
pub open spec fn only_errands(before: State, after: State) -> bool {
    after == (State { asked: after.asked, listings: after.listings, calls: after.calls, ..before })
}

/// Downloads a whole snapshot. The library downloads file by file, so the
/// provider is asked first what the snapshot is made of: by one listing of all
/// that lies under it.
pub fn on_download_snapshot(state: &mut State, product: String)
    ensures
        only_errands(*old(state), *final(state)),
        errands(*final(state)) == errands(*old(state)).walking(product@),
{
    broadcast use calls::said_push;

    if product.as_str().is_empty() {
        return;
    }
    let ghost before = errands(*state);
    let path: String = row::folder_path(&product);
    let ghost name = product@;
    let correlation: String = state.mark();
    state.listings.insert(correlation.clone(), Listing::Snapshot { product, files: 0, queued: 0 });
    state.calls.push(Call::ListPath { path, token: String::new(), recursive: true, correlation });
    assert(state::listings_seen(state.listings@) =~= before.walking(name).listings);
}

/// A snapshot, and what was counted of it page by page.
pub struct Counted {
    pub product: String,
    /// How many of its files were named.
    pub files: u32,
    /// How many of them were queued for download.
    pub queued: usize,
}

/// A file lies complete on disk.
pub open spec fn is_here(entries: Seq<LibraryEntry>, key: Seq<char>) -> bool {
    library::entry_of(entries, key) matches Some(entry) && entry.status == LibraryStatus::LibComplete
}

/// The requests for those files that are not on disk yet.
pub open spec fn wanted(
    entries: Seq<LibraryEntry>,
    listed: Seq<ListEntry>,
    product: Seq<char>,
) -> Seq<calls::CallView>
    decreases listed.len(),
{
    if listed.len() == 0 {
        Seq::empty()
    } else {
        let rest = wanted(entries, listed.drop_last(), product);
        let key = listed.last().key@;
        if is_here(entries, key) { rest } else { rest.push(calls::CallView::Download { identifier: key, product }) }
    }
}

/// What is said once a snapshot was walked to its end.
pub open spec fn walked_notice(short: Seq<char>, files: nat, queued: nat) -> Seq<char> {
    if files == 0 {
        "В снимке «"@ + short + "» нет файлов"@
    } else if queued == 0 {
        "Снимок «"@ + short + "» уже на диске"@
    } else {
        "Снимок «"@ + short + "»: в закачке "@ + number::written(queued) + " файлов"@
    }
}

/// What is said when the walk is broken off.
pub open spec fn cut_notice(short: Seq<char>, queued: nat) -> Seq<char> {
    "Снимок «"@ + short + "»: поставлено "@ + number::written(queued) + " файлов, остальные пропущены"@
}

/// What is said when a snapshot could not be walked.
pub open spec fn refused_notice(product: Seq<char>, error: Seq<char>) -> Seq<char> {
    "Снимок «"@ + product + "» не перечислился: "@ + error
}

/// What was noticed last says this.
pub open spec fn notices(state: State, words: Seq<char>) -> bool {
    state.notice matches Some(notice) && notice@ == words
}

/// A page of a snapshot's files has come: those not on disk are queued. Behind the
/// last page the library is told how many files there are; a walk that was broken
/// off does not tell it, for what was named is not the whole snapshot.
pub open spec fn page_walked(
    before: State,
    after: State,
    product: Seq<char>,
    files: u32,
    queued: usize,
    correlation: Seq<char>,
    response: ListPathResponse,
) -> bool {
    let short = row::leaf(product);
    let requests = wanted(before.library.entries@, response.entries@, product);
    let said = before.said() + requests;
    let all = files + response.entries@.len();
    let sent = queued + requests.len();
    if response.error@.len() > 0 {
        &&& after == (State { notice: after.notice, ..before })
        &&& notices(after, refused_notice(product, response.error@))
    } else if response.next_token@.len() == 0 {
        &&& after == (State { notice: after.notice, calls: after.calls, ..before })
        &&& after.said() == said.push(calls::CallView::Snapshot { product, files: all as u32 })
        &&& notices(after, walked_notice(short, all as nat, sent as nat))
    } else if sent >= MAX_ITEMS {
        &&& after == (State { notice: after.notice, calls: after.calls, ..before })
        &&& after.said() == said
        &&& notices(after, cut_notice(short, sent as nat))
    } else {
        &&& after == (State { listings: after.listings, calls: after.calls, ..before })
        &&& state::listings_seen(after.listings@) == state::listings_seen(before.listings@).insert(
            correlation,
            state::ListingView::Snapshot { product, files: all as u32, queued: sent as usize },
        )
        &&& after.said() == said.push(
            calls::CallView::ListPath {
                path: row::listing_path(product),
                token: response.next_token@,
                recursive: true,
                correlation,
            },
        )
    }
}

fn quoted(before: &str, name: &str, after: &str) -> (words: String)
    ensures
        words@ == before@ + name@ + after@,
{
    let mut words: String = before.to_owned();
    words.append(name);
    words.append(after);
    words
}

fn queue_missing(state: &mut State, entries: Vec<ListEntry>, product: &String) -> (count: usize)
    ensures
        *final(state) == (State { calls: final(state).calls, ..*old(state) }),
        final(state).said() == old(state).said() + wanted(old(state).library.entries@, entries@, product@),
        count == wanted(old(state).library.entries@, entries@, product@).len(),
        count <= entries@.len(),
{
    broadcast use calls::said_push;

    let ghost here = state.library.entries@;
    let ghost listed = entries@;
    let ghost start = state.said();
    let mut count: usize = 0;
    let mut i: usize = 0;
    assert(wanted(here, listed.take(0), product@) =~= Seq::empty());
    assert(start + wanted(here, listed.take(0), product@) =~= start);
    while i < entries.len()
        invariant
            i <= listed.len(),
            listed == entries@,
            *state == (State { calls: state.calls, ..*old(state) }),
            here == state.library.entries@,
            here == old(state).library.entries@,
            start == old(state).said(),
            state.said() == start + wanted(here, listed.take(i as int), product@),
            count == wanted(here, listed.take(i as int), product@).len(),
            count <= i,
        decreases listed.len() - i,
    {
        let entry: &ListEntry = &entries[i];
        let ghost rest = wanted(here, listed.take(i as int), product@);
        assert(listed.take(i + 1).drop_last() =~= listed.take(i as int));
        let done: bool = match state.library.by_identifier(&entry.key) {
            Some(record) => status_of(record) == LibraryStatus::LibComplete,
            None => false,
        };
        if !done {
            let ghost call = calls::CallView::Download { identifier: entry.key@, product: product@ };
            state.calls.push(Call::Download { identifier: entry.key.clone(), product: product.clone() });
            assert(start + rest.push(call) =~= (start + rest).push(call));
            count += 1;
        }
        i += 1;
    }
    assert(listed.take(listed.len() as int) =~= listed);
    count
}

/// The files of a snapshot have come, a page of them.
pub fn on_snapshot_files(state: &mut State, counted: Counted, correlation: String, response: ListPathResponse)
    requires
        counted.files + response.entries@.len() <= u32::MAX,
        counted.queued + response.entries@.len() <= usize::MAX,
    ensures
        page_walked(
            *old(state),
            *final(state),
            counted.product@,
            counted.files,
            counted.queued,
            correlation@,
            response,
        ),
{
    broadcast use calls::said_push;

    let Counted { product, files, queued } = counted;
    let ghost name = product@;
    if !response.error.as_str().is_empty() {
        let mut words: String = quoted("Снимок «", &product, "» не перечислился: ");
        words.append(&response.error);
        state.notice = Some(words);
        return;
    }
    let ghost before = *state;
    let files: u32 = files + response.entries.len() as u32;
    let count: usize = queue_missing(state, response.entries, &product);
    let queued: usize = queued + count;
    if response.next_token.as_str().is_empty() {
        let short: &str = row::last_segment(&product);
        let words: String = if files == 0 {
            quoted("В снимке «", short, "» нет файлов")
        } else if queued == 0 {
            quoted("Снимок «", short, "» уже на диске")
        } else {
            let mut words: String = quoted("Снимок «", short, "»: в закачке ");
            words.append(&number::decimal(queued as u128));
            words.append(" файлов");
            words
        };
        state.notice = Some(words);
        state.calls.push(Call::Snapshot { product, files });
        return;
    }
    if queued >= MAX_ITEMS {
        let mut words: String = quoted("Снимок «", row::last_segment(&product), "»: поставлено ");
        words.append(&number::decimal(queued as u128));
        words.append(" файлов, остальные пропущены");
        state.notice = Some(words);
        return;
    }
    let path: String = row::folder_path(&product);
    let ghost mark = correlation@;
    state.listings.insert(correlation.clone(), Listing::Snapshot { product, files, queued });
    state.calls.push(Call::ListPath { path, token: response.next_token, recursive: true, correlation });
    assert(state::listings_seen(state.listings@) =~= state::listings_seen(before.listings@).insert(
        mark,
        state::ListingView::Snapshot { product: name, files, queued },
    ));
}

/// The names of the records of a snapshot; only of those on their way, if so
/// asked.
pub open spec fn records_of(entries: Seq<LibraryEntry>, product: Seq<char>, going: bool) -> Seq<Seq<char>>
    decreases entries.len(),
{
    if entries.len() == 0 {
        Seq::empty()
    } else {
        let rest = records_of(entries.drop_last(), product, going);
        let entry = entries.last();
        if entry.product@ == product && (!going || entry.status == LibraryStatus::LibDownloading) {
            rest.push(entry.name@)
        } else {
            rest
        }
    }
}

/// The names of the records of a snapshot: what the library addresses its files
/// by. One rule for pausing and for deleting.
fn files_of(state: &State, product: &str, going: bool) -> (list: Vec<String>)
    ensures
        text::texts(list@) == records_of(state.library.entries@, product@, going),
{
    let ghost entries = state.library.entries@;
    let mut list: Vec<String> = Vec::new();
    let mut i: usize = 0;
    assert(text::texts(list@) =~= records_of(entries.take(0), product@, going));
    while i < state.library.entries.len()
        invariant
            i <= entries.len(),
            entries == state.library.entries@,
            text::texts(list@) == records_of(entries.take(i as int), product@, going),
        decreases entries.len() - i,
    {
        let entry: &LibraryEntry = &state.library.entries[i];
        assert(entries.take(i + 1).drop_last() =~= entries.take(i as int));
        if text::same(&entry.product, product) && (!going || status_of(entry) == LibraryStatus::LibDownloading) {
            let ghost before = list@;
            list.push(entry.name.clone());
            assert(text::texts(list@) =~= text::texts(before).push(entry.name@));
        }
        i += 1;
    }
    assert(entries.take(entries.len() as int) =~= entries);
    list
}

pub open spec fn pauses(names: Seq<Seq<char>>) -> Seq<calls::CallView> {
    names.map_values(|name: Seq<char>| calls::CallView::Pause { name })
}

pub open spec fn deletes(names: Seq<Seq<char>>) -> Seq<calls::CallView> {
    names.map_values(|name: Seq<char>| calls::CallView::Delete { name })
}

/// What is asked for when the downloads of a snapshot are stopped.
pub open spec fn snapshot_paused(entries: Seq<LibraryEntry>, product: Seq<char>) -> Seq<calls::CallView> {
    if product.len() == 0 { Seq::empty() } else { pauses(records_of(entries, product, true)) }
}

/// Pauses the downloads of a snapshot that go.
pub fn on_pause_snapshot(state: &mut State, product: String)
    ensures
        only_says(*old(state), *final(state), snapshot_paused(old(state).library.entries@, product@)),
{
    broadcast use calls::said_push;

    let ghost start = state.said();
    if product.as_str().is_empty() {
        assert(start + Seq::empty() =~= start);
        return;
    }
    let list: Vec<String> = files_of(state, &product, true);
    let ghost said = pauses(text::texts(list@));
    let mut i: usize = 0;
    assert(start + said.take(0) =~= start);
    while i < list.len()
        invariant
            i <= list@.len(),
            said == pauses(text::texts(list@)),
            said.len() == list@.len(),
            *state == (State { calls: state.calls, ..*old(state) }),
            state.said() == start + said.take(i as int),
        decreases list@.len() - i,
    {
        assert(text::texts(list@)[i as int] == list@[i as int]@);
        state.calls.push(Call::Pause { name: list[i].clone() });
        assert(said.take(i + 1) =~= said.take(i as int).push(said[i as int]));
        assert(start + said.take(i + 1) =~= (start + said.take(i as int)).push(said[i as int]));
        i += 1;
    }
    assert(said.take(said.len() as int) =~= said);
}

fn delete_all(state: &mut State, list: Vec<String>)
    ensures
        only_says(*old(state), *final(state), deletes(text::texts(list@))),
{
    broadcast use calls::said_push;

    let ghost start = state.said();
    let ghost said = deletes(text::texts(list@));
    let mut i: usize = 0;
    assert(start + said.take(0) =~= start);
    while i < list.len()
        invariant
            i <= list@.len(),
            said == deletes(text::texts(list@)),
            said.len() == list@.len(),
            *state == (State { calls: state.calls, ..*old(state) }),
            state.said() == start + said.take(i as int),
        decreases list@.len() - i,
    {
        assert(text::texts(list@)[i as int] == list@[i as int]@);
        state.calls.push(Call::Delete { name: list[i].clone() });
        assert(said.take(i + 1) =~= said.take(i as int).push(said[i as int]));
        assert(start + said.take(i + 1) =~= (start + said.take(i as int)).push(said[i as int]));
        i += 1;
    }
    assert(said.take(said.len() as int) =~= said);
}

/// What is asked for when a snapshot is thrown away.
pub open spec fn snapshot_deleted(entries: Seq<LibraryEntry>, product: Seq<char>) -> Seq<calls::CallView> {
    if product.len() == 0 { Seq::empty() } else { deletes(records_of(entries, product, false)) }
}

/// Throws a whole snapshot away: each of its files is to be deleted, for the
/// library keeps count of files and knows no snapshots.
pub fn on_delete_snapshot(state: &mut State, product: String)
    ensures
        only_says(*old(state), *final(state), snapshot_deleted(old(state).library.entries@, product@)),
{
    if product.as_str().is_empty() {
        assert(state.said() + Seq::empty() =~= state.said());
        return;
    }
    let list: Vec<String> = files_of(state, &product, false);
    delete_all(state, list);
}

// -- What is chosen --

/// What is chosen in the list of a tab.
pub open spec fn chosen_in(views: Seq<Tab>, view: ViewId) -> Map<Seq<char>, Chosen> {
    match screen::listing_in(views, view) {
        Some(listing) => listing.selected@,
        None => Map::empty(),
    }
}

/// What stands behind a key of a choice.
pub open spec fn picks(selected: Map<Seq<char>, Chosen>) -> Seq<(Seq<char>, listing::ChosenView)> {
    names::in_order(selected.dom()).map_values(|key: Seq<char>| (key, selected[key]@))
}

/// Whether a chosen row is worth fetching, and as what. A file that is here or on
/// its way is passed over, and one that was broken off is picked up. A snapshot is
/// passed over only when it is here whole: one that was never walked has nothing
/// to be counted by.
pub open spec fn worth_fetching(
    entries: Seq<LibraryEntry>,
    key: Seq<char>,
    what: listing::ChosenView,
) -> Option<FetchView> {
    match what {
        listing::ChosenView::Snapshot => if key.len() == 0 || library::walked(entries, key) == 0 || library::completed(
            entries,
            key,
        ) < library::walked(entries, key) {
            Some(FetchView::Snapshot(key))
        } else {
            None
        },
        listing::ChosenView::File { identifier, product, .. } => if identifier.len() == 0 || (library::entry_of(
            entries,
            identifier,
        ) matches Some(entry) && entry.status != LibraryStatus::LibPaused) {
            None
        } else {
            Some(FetchView::File { identifier, product })
        },
    }
}

/// The records that go when a chosen row is deleted: all files of a snapshot, and
/// a file by the name that the library knows it by, or else by the one that was
/// taken down.
pub open spec fn going(entries: Seq<LibraryEntry>, key: Seq<char>, what: listing::ChosenView) -> Seq<Seq<char>> {
    match what {
        listing::ChosenView::Snapshot => records_of(entries, key, false),
        listing::ChosenView::File { identifier, name, .. } => {
            let named = match library::entry_of(entries, identifier) {
                Some(entry) => entry.name@,
                None => name,
            };
            if named.len() == 0 { Seq::empty() } else { seq![named] }
        },
    }
}

/// What of the picks is worth fetching.
pub open spec fn worth(
    entries: Seq<LibraryEntry>,
    picks: Seq<(Seq<char>, listing::ChosenView)>,
) -> Seq<FetchView>
    decreases picks.len(),
{
    if picks.len() == 0 {
        Seq::empty()
    } else {
        let rest = worth(entries, picks.drop_last());
        match worth_fetching(entries, picks.last().0, picks.last().1) {
            Some(fetch) => rest.push(fetch),
            None => rest,
        }
    }
}

/// A record goes when the picks are deleted.
pub open spec fn goes(
    entries: Seq<LibraryEntry>,
    picks: Seq<(Seq<char>, listing::ChosenView)>,
    name: Seq<char>,
) -> bool {
    exists|i: int|
        0 <= i < picks.len() && going(entries, (#[trigger] picks[i]).0, picks[i].1).contains(name)
}

/// The records that go, each once.
pub open spec fn all_going(entries: Seq<LibraryEntry>, picks: Seq<(Seq<char>, listing::ChosenView)>) -> Set<Seq<char>> {
    Set::new(|name: Seq<char>| goes(entries, picks, name))
}

/// The keys of chosen files that have nothing behind them once the picks are
/// deleted.
pub open spec fn orphans(
    entries: Seq<LibraryEntry>,
    picks: Seq<(Seq<char>, listing::ChosenView)>,
) -> Seq<Seq<char>>
    decreases picks.len(),
{
    if picks.len() == 0 {
        Seq::empty()
    } else {
        let rest = orphans(entries, picks.drop_last());
        let (key, what) = picks.last();
        if what is File && going(entries, key, what).len() > 0 { rest.push(key) } else { rest }
    }
}

/// What is chosen in a list, by the order of its keys.
fn selection(state: &State, view: ViewId) -> (picked: Vec<(String, Chosen)>)
    ensures
        told(picked@) == picks(chosen_in(state.screen.views@, view)),
{
    let ghost selected = chosen_in(state.screen.views@, view);
    let mut picked: Vec<(String, Chosen)> = Vec::new();
    match state.screen.listing(view) {
        Some(listing) => {
            let keys: Vec<String> = names::sorted_keys(&listing.selected);
            let ghost all = picks(selected);
            let mut i: usize = 0;
            assert(told(picked@) =~= all.take(0));
            while i < keys.len()
                invariant
                    i <= keys@.len(),
                    selected == listing.selected@,
                    text::texts(keys@) == names::in_order(selected.dom()),
                    names::lists(text::texts(keys@), selected.dom()),
                    all == picks(selected),
                    all.len() == keys@.len(),
                    told(picked@) == all.take(i as int),
                decreases keys@.len() - i,
            {
                let key: &String = &keys[i];
                assert(text::texts(keys@)[i as int] == key@);
                assert(text::texts(keys@).contains(key@));
                if let Some(what) = listing.selected.get(key) {
                    let ghost before = picked@;
                    picked.push((key.clone(), what.clone()));
                    assert(told(picked@) =~= told(before).push((key@, what@)));
                    assert(all.take(i + 1) =~= all.take(i as int).push(all[i as int]));
                }
                i += 1;
            }
            assert(all.take(all.len() as int) =~= all);
        },
        None => {
            proof {
                assert(names::lists(Seq::empty(), selected.dom()));
                names::in_order_is(Seq::empty(), selected.dom());
            }
            assert(told(picked@) =~= picks(selected));
        },
    }
    picked
}

/// What a list of choices says.
pub open spec fn told(picked: Seq<(String, Chosen)>) -> Seq<(Seq<char>, listing::ChosenView)> {
    picked.map_values(|pick: (String, Chosen)| (pick.0@, pick.1@))
}

fn fetch_of(state: &State, key: &str, what: &Chosen) -> (fetch: Option<Fetch>)
    ensures
        match fetch {
            Some(fetch) => worth_fetching(state.library.entries@, key@, what@) == Some(fetch@),
            None => worth_fetching(state.library.entries@, key@, what@) is None,
        },
{
    match what {
        Chosen::Snapshot => {
            let (done, files): (usize, u32) = state.library.snapshot(key);
            if files == 0 || done < files as usize { Some(Fetch::Snapshot(key.to_owned())) } else { None }
        },
        Chosen::File { identifier, product, .. } => {
            if identifier.as_str().is_empty() {
                return None;
            }
            let busy: bool = match state.library.by_identifier(identifier) {
                Some(entry) => status_of(entry) != LibraryStatus::LibPaused,
                None => false,
            };
            if busy {
                None
            } else {
                Some(Fetch::File { identifier: identifier.clone(), product: product.clone() })
            }
        },
    }
}

/// What a list of fetches says.
pub open spec fn fetches_told(fetches: Seq<Fetch>) -> Seq<FetchView> {
    fetches.map_values(|fetch: Fetch| fetch@)
}

/// What of the choice is worth fetching.
pub fn fetches(state: &State, view: ViewId) -> (list: Vec<Fetch>)
    ensures
        fetches_told(list@) == worth(state.library.entries@, picks(chosen_in(state.screen.views@, view))),
{
    let picked: Vec<(String, Chosen)> = selection(state, view);
    let ghost all = told(picked@);
    let ghost entries = state.library.entries@;
    let mut list: Vec<Fetch> = Vec::new();
    let mut i: usize = 0;
    assert(fetches_told(list@) =~= worth(entries, all.take(0)));
    while i < picked.len()
        invariant
            i <= picked@.len(),
            all == told(picked@),
            entries == state.library.entries@,
            fetches_told(list@) == worth(entries, all.take(i as int)),
        decreases picked@.len() - i,
    {
        assert(all.take(i + 1).drop_last() =~= all.take(i as int));
        assert(all.take(i + 1).last() == (picked@[i as int].0@, picked@[i as int].1@));
        if let Some(fetch) = fetch_of(state, &picked[i].0, &picked[i].1) {
            let ghost before = list@;
            list.push(fetch);
            assert(fetches_told(list@) =~= fetches_told(before).push(fetch@));
        }
        i += 1;
    }
    assert(all.take(all.len() as int) =~= all);
    list
}

fn deletions_of(state: &State, key: &str, what: &Chosen) -> (list: Vec<String>)
    ensures
        text::texts(list@) == going(state.library.entries@, key@, what@),
{
    match what {
        Chosen::Snapshot => files_of(state, key, false),
        Chosen::File { identifier, name, .. } => {
            let named: String = match state.library.by_identifier(identifier) {
                Some(entry) => entry.name.clone(),
                None => name.clone(),
            };
            let mut list: Vec<String> = Vec::new();
            if !named.as_str().is_empty() {
                list.push(named);
            }
            assert(text::texts(list@) =~= going(state.library.entries@, key@, what@));
            list
        },
    }
}

/// What goes at one press: the names of the library's records, each once and in
/// order, and the keys of the choice that point to nothing after that. Both come
/// of one walk, so that no key is let go of that was not deleted.
pub fn deletions(state: &State, view: ViewId) -> (both: (Vec<String>, Vec<String>))
    ensures
        ({
            let entries = state.library.entries@;
            let chosen = picks(chosen_in(state.screen.views@, view));
            &&& text::texts(both.0@) == names::in_order(all_going(entries, chosen))
            &&& names::lists(text::texts(both.0@), all_going(entries, chosen))
            &&& text::texts(both.1@) == orphans(entries, chosen)
        }),
{
    let picked: Vec<(String, Chosen)> = selection(state, view);
    let ghost all = told(picked@);
    let ghost entries = state.library.entries@;
    let mut list: Vec<String> = Vec::new();
    let mut gone: Vec<String> = Vec::new();
    let mut i: usize = 0;
    assert(text::texts(list@) =~= Seq::empty());
    assert(text::texts(gone@) =~= orphans(entries, all.take(0)));
    while i < picked.len()
        invariant
            i <= picked@.len(),
            all == told(picked@),
            entries == state.library.entries@,
            names::ascending(text::texts(list@)),
            forall|name: Seq<char>|
                #[trigger] text::texts(list@).contains(name) <==> goes(entries, all.take(i as int), name),
            text::texts(gone@) == orphans(entries, all.take(i as int)),
        decreases picked@.len() - i,
    {
        let key: &String = &picked[i].0;
        let what: &Chosen = &picked[i].1;
        let asked: Vec<String> = deletions_of(state, key, what);
        let ghost names_now = text::texts(asked@);
        let ghost before = text::texts(list@);
        assert(all.take(i + 1).drop_last() =~= all.take(i as int));
        assert(all.take(i + 1).last() == (key@, what@));
        assert(names_now.len() == asked@.len());
        if !matches!(what, Chosen::Snapshot) && asked.len() > 0 {
            let ghost earlier = gone@;
            gone.push(key.clone());
            assert(text::texts(gone@) =~= text::texts(earlier).push(key@));
        }
        let mut j: usize = 0;
        assert(names_now.take(0) =~= Seq::empty());
        while j < asked.len()
            invariant
                j <= asked@.len(),
                names_now == text::texts(asked@),
                names_now.len() == asked@.len(),
                names::ascending(text::texts(list@)),
                forall|name: Seq<char>|
                    #[trigger] text::texts(list@).contains(name) <==> before.contains(name) || names_now.take(
                        j as int,
                    ).contains(name),
            decreases asked@.len() - j,
        {
            assert(names_now[j as int] == asked@[j as int]@);
            place_one(&mut list, &asked, j);
            proof {
                names::taken_more(names_now, j as int);
            }
            j += 1;
        }
        proof {
            assert(names_now.take(names_now.len() as int) =~= names_now);
            goes_with_one_more(entries, all, i as int);
        }
        i += 1;
    }
    proof {
        assert(all.take(all.len() as int) =~= all);
        names::in_order_is(text::texts(list@), all_going(entries, all));
    }
    (list, gone)
}

fn place_one(list: &mut Vec<String>, asked: &Vec<String>, j: usize)
    requires
        j < asked@.len(),
        names::ascending(text::texts(old(list)@)),
    ensures
        names::ascending(text::texts(final(list)@)),
        forall|other: Seq<char>|
            #[trigger] text::texts(final(list)@).contains(other) <==> text::texts(old(list)@).contains(other) || other
                == asked@[j as int]@,
{
    names::place_in_order(list, asked[j].clone());
}

proof fn goes_with_one_more(entries: Seq<LibraryEntry>, all: Seq<(Seq<char>, listing::ChosenView)>, i: int)
    requires
        0 <= i < all.len(),
    ensures
        forall|name: Seq<char>|
            #[trigger] goes(entries, all.take(i + 1), name) <==> goes(entries, all.take(i), name) || going(
                entries,
                all[i].0,
                all[i].1,
            ).contains(name),
{
    let front = all.take(i);
    let more = all.take(i + 1);
    assert forall|name: Seq<char>|
        #[trigger] goes(entries, more, name) <==> goes(entries, front, name) || going(entries, all[i].0, all[i].1).contains(
            name,
        ) by {
        if goes(entries, front, name) {
            let j = choose|j: int| 0 <= j < front.len() && going(entries, (#[trigger] front[j]).0, front[j].1).contains(name);
            assert(more[j] == front[j]);
        }
        if goes(entries, more, name) {
            let j = choose|j: int| 0 <= j < more.len() && going(entries, (#[trigger] more[j]).0, more[j].1).contains(name);
            if j < i {
                assert(front[j] == more[j]);
            }
        }
        assert(more[i] == all[i]);
    }
}

/// Downloads all that is chosen in a list. Not the same as a press on every row:
/// there it is a switch, and here it only ever fetches.
pub fn on_download_selected(state: &mut State, view: ViewId)
    ensures
        only_errands(*old(state), *final(state)),
        errands(*final(state)) == errands(*old(state)).fetching(
            worth(old(state).library.entries@, picks(chosen_in(old(state).screen.views@, view))),
        ),
{
    broadcast use calls::said_push;

    let list: Vec<Fetch> = fetches(state, view);
    let ghost all = fetches_told(list@);
    let ghost start = errands(*state);
    let mut i: usize = 0;
    while i < list.len()
        invariant
            i <= list@.len(),
            all == fetches_told(list@),
            start == errands(*old(state)),
            only_errands(*old(state), *state),
            errands(*state) == start.fetching(all.take(i as int)),
        decreases list@.len() - i,
    {
        assert(all.take(i + 1).drop_last() =~= all.take(i as int));
        assert(all.take(i + 1).last() == list@[i as int]@);
        match &list[i] {
            Fetch::Snapshot(product) => on_download_snapshot(state, product.clone()),
            Fetch::File { identifier, product } => {
                let ghost waiting = state.calls@;
                let call: Call = Call::Download { identifier: identifier.clone(), product: product.clone() };
                proof {
                    calls::said_push(waiting, call);
                }
                state.calls.push(call);
            },
        }
        i += 1;
    }
    assert(all.take(all.len() as int) =~= all);
}

/// The choice without these keys.
pub open spec fn unchosen(selected: Map<Seq<char>, Chosen>, keys: Seq<Seq<char>>) -> Map<Seq<char>, Chosen> {
    selected.remove_keys(keys.to_set())
}

/// Throws all that is chosen away. The choice lets go of the files that went: in
/// the downloaded list no row is left behind them. A snapshot stays chosen, for it
/// lives on in the catalogue.
pub fn on_delete_selected(state: &mut State, view: ViewId)
    ensures
        *final(state) == (State {
            screen: Screen { views: final(state).screen.views, ..old(state).screen },
            calls: final(state).calls,
            ..*old(state)
        }),
        ({
            let entries = old(state).library.entries@;
            let chosen = picks(chosen_in(old(state).screen.views@, view));
            &&& final(state).said() == old(state).said() + deletes(names::in_order(all_going(entries, chosen)))
            &&& match screen::listing_in(old(state).screen.views@, view) {
                Some(listing) => screen::listing_in(final(state).screen.views@, view) matches Some(after) && {
                    &&& after == (ListingState { selected: after.selected, ..listing })
                    &&& after.selected@ == unchosen(listing.selected@, orphans(entries, chosen))
                    &&& final(state).screen.views@ == screen::with_listing(old(state).screen.views@, view, after)
                },
                None => final(state).screen.views@ == old(state).screen.views@,
            }
        }),
        old(state).screen.whole() ==> final(state).screen.whole(),
{
    let (list, gone): (Vec<String>, Vec<String>) = deletions(state, view);
    delete_all(state, list);
    let ghost views = state.screen.views@;
    let ghost keys = text::texts(gone@);
    if let Some(listing) = state.listing_mut(view) {
        let ghost before = *listing;
        let ghost chosen = listing.selected@;
        let mut i: usize = 0;
        assert(unchosen(chosen, keys.take(0)) =~= chosen);
        while i < gone.len()
            invariant
                i <= gone@.len(),
                keys == text::texts(gone@),
                *listing == (ListingState { selected: listing.selected, ..before }),
                listing.selected@ == unchosen(chosen, keys.take(i as int)),
            decreases gone@.len() - i,
        {
            assert(keys[i as int] == gone@[i as int]@);
            listing.selected.remove(&gone[i]);
            assert(keys.take(i + 1) =~= keys.take(i as int).push(keys[i as int]));
            proof {
                names::taken_more(keys, i as int);
            }
            assert(unchosen(chosen, keys.take(i + 1)) =~= unchosen(chosen, keys.take(i as int)).remove(keys[i as int]));
            i += 1;
        }
        assert(keys.take(keys.len() as int) =~= keys);
    }
    proof {
        if let Some(listing) = screen::listing_in(views, view) {
            assert forall|after: ListingState| true implies #[trigger] screen::listing_in(
                screen::with_listing(views, view, after),
                view,
            ) == Some(after) by {
                screen::with_listing_is_told(views, view, after);
            }
        }
    }
}

/// Whether the buttons of a choice have anything to do: by the same walk as the
/// actions themselves, so that no button promises what it does not do.
pub fn batch(state: &State, view: ViewId) -> (can: Batch)
    ensures
        ({
            let entries = state.library.entries@;
            let chosen = picks(chosen_in(state.screen.views@, view));
            &&& can.fetchable == (worth(entries, chosen).len() > 0)
            &&& can.deletable == (exists|name: Seq<char>| goes(entries, chosen, name))
        }),
{
    let picked: Vec<(String, Chosen)> = selection(state, view);
    let ghost all = told(picked@);
    let ghost entries = state.library.entries@;
    let mut can: Batch = Batch { deletable: false, fetchable: false };
    let mut i: usize = 0;
    while i < picked.len()
        invariant
            i <= picked@.len(),
            all == told(picked@),
            entries == state.library.entries@,
            can.fetchable == (worth(entries, all.take(i as int)).len() > 0),
            can.deletable == (exists|name: Seq<char>| goes(entries, all.take(i as int), name)),
        decreases picked@.len() - i,
    {
        let key: &String = &picked[i].0;
        let what: &Chosen = &picked[i].1;
        assert(all.take(i + 1).drop_last() =~= all.take(i as int));
        assert(all.take(i + 1).last() == (key@, what@));
        proof {
            goes_with_one_more(entries, all, i as int);
        }
        if !can.deletable {
            let list: Vec<String> = deletions_of(state, key, what);
            let ghost named = text::texts(list@);
            if list.len() > 0 {
                can.deletable = true;
                proof {
                    assert(named.contains(named[0]));
                    assert(goes(entries, all.take(i + 1), named[0]));
                }
            } else {
                let ghost more = all.take(i + 1);
                assert forall|name: Seq<char>| !#[trigger] goes(entries, more, name) by {
                    assert(!goes(entries, all.take(i as int), name));
                }
            }
        } else {
            proof {
                let name = choose|name: Seq<char>| goes(entries, all.take(i as int), name);
                assert(goes(entries, all.take(i + 1), name));
            }
        }
        if !can.fetchable && fetch_of(state, key, what).is_some() {
            can.fetchable = true;
        }
        i += 1;
    }
    assert(all.take(all.len() as int) =~= all);
    can
}

// -- The state of the library --

/// How fast downloads go, from two states: how many bytes came in how many
/// seconds. Nothing is measured while nothing is downloaded; of one moment no
/// speed can be told, and the earlier measure is kept.
pub open spec fn measured_on(before: State, after: State, entries: Seq<LibraryEntry>, now: i64) -> bool {
    let done = library::capped(library::downloaded_bytes(entries)) as u64;
    if library::downloads(entries) == 0 {
        after.speed is None && after.measured is None
    } else {
        match before.measured {
            Some(last) => if now > last.at {
                &&& after.speed == Some(
                    Speed {
                        bytes: if done >= last.done { (done - last.done) as u64 } else { 0 },
                        seconds: if now - last.at <= i64::MAX { (now - last.at) as i64 } else { i64::MAX },
                    },
                )
                &&& after.measured == Some(Measured { at: now, done })
            } else {
                after.speed == before.speed && after.measured == before.measured
            },
            None => after.speed == before.speed && after.measured == Some(Measured { at: now, done }),
        }
    }
}

/// The library has sent its state, on its own or as an answer. There is no other
/// truth of what is downloaded, so it takes the place of the earlier one. A failure
/// stands until the next state that worked out.
pub fn on_state(state: &mut State, msg: LibraryStateMsg, now: i64)
    ensures
        *final(state) == (State {
            error: final(state).error,
            library: final(state).library,
            speed: final(state).speed,
            measured: final(state).measured,
            ..*old(state)
        }),
        msg.error@.len() > 0 ==> {
            &&& final(state).error matches Some(error) && error@ == "Library: "@ + msg.error@
            &&& final(state).library == old(state).library
            &&& final(state).speed == old(state).speed
            &&& final(state).measured == old(state).measured
        },
        msg.error@.len() == 0 ==> {
            &&& final(state).error is None
            &&& final(state).library.entries == msg.entries
            &&& measured_on(*old(state), *final(state), msg.entries@, now)
        },
{
    if !msg.error.as_str().is_empty() {
        state.error = Some(text::concat("Library: ", &msg.error));
        return;
    }
    state.error = None;
    state.library.entries = msg.entries;
    measure_speed(state, now);
}

fn measure_speed(state: &mut State, now: i64)
    ensures
        *final(state) == (State { speed: final(state).speed, measured: final(state).measured, ..*old(state) }),
        measured_on(*old(state), *final(state), old(state).library.entries@, now),
{
    let (count, done): (usize, u64) = state.library.downloading();
    if count == 0 {
        state.speed = None;
        state.measured = None;
        return;
    }
    match state.measured {
        Some(last) => {
            if now > last.at {
                let seconds: i64 = match now.checked_sub(last.at) {
                    Some(seconds) => seconds,
                    None => i64::MAX,
                };
                state.speed = Some(Speed { bytes: done.saturating_sub(last.done), seconds });
                state.measured = Some(Measured { at: now, done });
            }
        },
        None => {
            state.measured = Some(Measured { at: now, done });
        },
    }
}

// -- Laws --

/// What is let go of after a delete are files that were deleted: a snapshot stays chosen,
/// and so does what had nothing to delete.
pub proof fn what_is_let_go_is_a_deleted_file(
    entries: Seq<LibraryEntry>,
    picks: Seq<(Seq<char>, listing::ChosenView)>,
    key: Seq<char>,
)
    requires
        orphans(entries, picks).contains(key),
    ensures
        exists|i: int|
            0 <= i < picks.len() && (#[trigger] picks[i]).0 == key && picks[i].1 is File && going(
                entries,
                key,
                picks[i].1,
            ).len() > 0,
    decreases picks.len(),
{
    if picks.len() > 0 {
        let all = orphans(entries, picks);
        let front = picks.drop_last();
        let rest = orphans(entries, front);
        let k = choose|k: int| 0 <= k < all.len() && all[k] == key;
        if k < rest.len() {
            assert(rest[k] == key);
            what_is_let_go_is_a_deleted_file(entries, front, key);
            let i = choose|i: int|
                0 <= i < front.len() && (#[trigger] front[i]).0 == key && front[i].1 is File && going(
                    entries,
                    key,
                    front[i].1,
                ).len() > 0;
            assert(picks[i] == front[i]);
        } else {
            assert(picks[picks.len() - 1].0 == key);
        }
    }
}

/// All that a chosen row has to delete goes, once.
pub proof fn all_behind_a_pick_goes(
    entries: Seq<LibraryEntry>,
    picks: Seq<(Seq<char>, listing::ChosenView)>,
    at: int,
    name: Seq<char>,
)
    requires
        0 <= at < picks.len(),
        going(entries, picks[at].0, picks[at].1).contains(name),
    ensures
        all_going(entries, picks).contains(name),
{
}

/// What is here whole is not fetched again: neither a file, nor a snapshot of which all
/// files came.
pub proof fn what_is_here_is_not_fetched(entries: Seq<LibraryEntry>, key: Seq<char>, what: listing::ChosenView)
    requires
        match what {
            listing::ChosenView::Snapshot => key.len() > 0 && 0 < library::walked(entries, key) <= library::completed(
                entries,
                key,
            ),
            listing::ChosenView::File { identifier, .. } => library::entry_of(entries, identifier) matches Some(entry)
                && entry.status == LibraryStatus::LibComplete,
        },
    ensures
        worth_fetching(entries, key, what) is None,
{
}

/// The record that a key means is complete.
pub open spec fn record_is_complete(entries: Seq<LibraryEntry>, key: Seq<char>) -> bool {
    exists|i: int| {
        &&& 0 <= i < entries.len()
        &&& (#[trigger] entries[i]).identifier@ == key
        &&& entries[i].status == LibraryStatus::LibComplete
        &&& forall|j: int| 0 <= j < i ==> (#[trigger] entries[j]).identifier@ != key
    }
}

/// A page of a listing names a key.
pub open spec fn page_names(listed: Seq<ListEntry>, key: Seq<char>) -> bool {
    exists|at: int| 0 <= at < listed.len() && (#[trigger] listed[at]).key@ == key
}

/// So much of the library says that a file is here: the record that its key means is
/// complete.
pub proof fn here_is_a_complete_record(entries: Seq<LibraryEntry>, key: Seq<char>)
    ensures
        is_here(entries, key) == record_is_complete(entries, key),
{
    let at = library::a_key_means_its_first_record(entries, key);
    if at < entries.len() {
        assert(entries[at].identifier@ == key);
    }
}

proof fn wanted_are_the_missing(
    entries: Seq<LibraryEntry>,
    listed: Seq<ListEntry>,
    product: Seq<char>,
    call: calls::CallView,
)
    ensures
        wanted(entries, listed, product).contains(call) == exists|at: int| {
            &&& 0 <= at < listed.len()
            &&& !is_here(entries, (#[trigger] listed[at]).key@)
            &&& call == calls::CallView::Download { identifier: listed[at].key@, product }
        },
        wanted(entries, listed, product).len() <= listed.len(),
    decreases listed.len(),
{
    let all = wanted(entries, listed, product);
    if listed.len() > 0 {
        let front = listed.drop_last();
        let rest = wanted(entries, front, product);
        wanted_are_the_missing(entries, front, product, call);
        if all.contains(call) {
            let k = choose|k: int| 0 <= k < all.len() && all[k] == call;
            if k < rest.len() {
                assert(rest[k] == call);
                let at = choose|at: int| {
                    &&& 0 <= at < front.len()
                    &&& !is_here(entries, (#[trigger] front[at]).key@)
                    &&& call == calls::CallView::Download { identifier: front[at].key@, product }
                };
                assert(listed[at] == front[at]);
            } else {
                assert(listed[listed.len() - 1] == listed.last());
            }
        }
        if exists|at: int| {
            &&& 0 <= at < listed.len()
            &&& !is_here(entries, (#[trigger] listed[at]).key@)
            &&& call == calls::CallView::Download { identifier: listed[at].key@, product }
        } {
            let at = choose|at: int| {
                &&& 0 <= at < listed.len()
                &&& !is_here(entries, (#[trigger] listed[at]).key@)
                &&& call == calls::CallView::Download { identifier: listed[at].key@, product }
            };
            if at < front.len() {
                assert(front[at] == listed[at]);
                let k = choose|k: int| 0 <= k < rest.len() && rest[k] == call;
                assert(all[k] == call);
            } else {
                assert(all[all.len() - 1] == call);
            }
        }
    }
}

proof fn the_wanted_are_named_and_missing(
    entries: Seq<LibraryEntry>,
    listed: Seq<ListEntry>,
    product: Seq<char>,
    key: Seq<char>,
    other: Seq<char>,
)
    ensures
        wanted(entries, listed, product).contains(calls::CallView::Download { identifier: key, product }) == (page_names(
            listed,
            key,
        ) && !record_is_complete(entries, key)),
        other != product ==> !wanted(entries, listed, product).contains(
            calls::CallView::Download { identifier: key, product: other },
        ),
{
    let call = calls::CallView::Download { identifier: key, product };
    here_is_a_complete_record(entries, key);
    wanted_are_the_missing(entries, listed, product, call);
    wanted_are_the_missing(entries, listed, product, calls::CallView::Download { identifier: key, product: other });
    if page_names(listed, key) && !is_here(entries, key) {
        let at = choose|at: int| 0 <= at < listed.len() && (#[trigger] listed[at]).key@ == key;
        assert(call == calls::CallView::Download { identifier: listed[at].key@, product });
    }
}

proof fn what_a_page_says(
    before: State,
    after: State,
    product: Seq<char>,
    files: u32,
    queued: usize,
    correlation: Seq<char>,
    response: ListPathResponse,
) -> (tail: Seq<calls::CallView>)
    requires
        page_walked(before, after, product, files, queued, correlation, response),
        response.error@.len() == 0,
    ensures
        after.said() == before.said() + wanted(before.library.entries@, response.entries@, product) + tail,
        forall|k: int| 0 <= k < tail.len() ==> !(#[trigger] tail[k] is Download),
{
    let requests = wanted(before.library.entries@, response.entries@, product);
    let said = before.said() + requests;
    let tail = after.said().skip(said.len() as int);
    if response.next_token@.len() == 0 {
        let last = after.said().last();
        assert(after.said() == said.push(last) && last is Snapshot);
        assert(tail =~= seq![last]);
        assert(after.said() =~= said + tail);
    } else if queued + requests.len() >= MAX_ITEMS {
        assert(tail =~= Seq::empty());
        assert(after.said() =~= said + tail);
    } else {
        let last = after.said().last();
        assert(after.said() == said.push(last) && last is ListPath);
        assert(tail =~= seq![last]);
        assert(after.said() =~= said + tail);
    }
    tail
}

proof fn found_in_the_middle(
    front: Seq<calls::CallView>,
    middle: Seq<calls::CallView>,
    tail: Seq<calls::CallView>,
    call: calls::CallView,
)
    requires
        call is Download,
        forall|k: int| 0 <= k < tail.len() ==> !(#[trigger] tail[k] is Download),
    ensures
        (front + middle + tail).skip(front.len() as int).contains(call) == middle.contains(call),
        (front + middle + tail).take(front.len() as int) == front,
{
    let fresh = (front + middle + tail).skip(front.len() as int);
    assert((front + middle + tail).take(front.len() as int) =~= front);
    assert(fresh =~= middle + tail);
    if fresh.contains(call) {
        let k = choose|k: int| 0 <= k < fresh.len() && fresh[k] == call;
        if k >= middle.len() {
            assert(tail[k - middle.len()] == call);
        }
        assert(middle[k] == call);
    }
    if middle.contains(call) {
        let k = choose|k: int| 0 <= k < middle.len() && middle[k] == call;
        assert(fresh[k] == call);
    }
}

/// What a snapshot is listed by: its path, with one slash at its end.
proof fn a_listed_path_ends_in_a_slash(product: Seq<char>)
    ensures
        row::listing_path(product).len() > 0,
        row::listing_path(product).last() == '/',
        text::without_trailing(row::listing_path(product), '/') == text::without_trailing(product, '/'),
{
    reveal_strlit("/");
    let path = row::listing_path(product);
    let bare = row::bare_key(product);
    assert("/"@ =~= seq!['/']);
    assert(path =~= bare.push('/'));
    assert(path.drop_last() =~= bare);
    text::only_the_mark_is_taken_off(product, '/');
    assert(text::without_trailing(bare, '/') == bare);
}

/// What is new among the requests once a page has come: the wanted files, and at most one
/// request behind them that is no download.
proof fn behind_a_page_stand_the_wanted(
    before: State,
    after: State,
    product: Seq<char>,
    files: u32,
    queued: usize,
    correlation: Seq<char>,
    response: ListPathResponse,
    call: calls::CallView,
)
    requires
        page_walked(before, after, product, files, queued, correlation, response),
        response.error@.len() == 0,
        call is Download,
    ensures
        after.said().skip(before.said().len() as int).contains(call) == wanted(
            before.library.entries@,
            response.entries@,
            product,
        ).contains(call),
        after.said().take(before.said().len() as int) == before.said(),
{
    let requests = wanted(before.library.entries@, response.entries@, product);
    let tail = what_a_page_says(before, after, product, files, queued, correlation, response);
    found_in_the_middle(before.said(), requests, tail, call);
    assert(after.said() == before.said() + requests + tail);
}

/// What is missing is queued, and what lies complete on disk is not: when a page of the
/// files of a snapshot has come, each file that it names is among the new downloads unless
/// the library has it, and the library has it when the record of its key is complete. And
/// nothing is downloaded that the page does not name.
pub proof fn what_is_missing_is_queued(
    before: State,
    after: State,
    product: Seq<char>,
    files: u32,
    queued: usize,
    correlation: Seq<char>,
    response: ListPathResponse,
    key: Seq<char>,
    other: Seq<char>,
)
    requires
        page_walked(before, after, product, files, queued, correlation, response),
        response.error@.len() == 0,
    ensures
        after.said().skip(before.said().len() as int).contains(calls::CallView::Download { identifier: key, product }) == (
        page_names(response.entries@, key) && !record_is_complete(before.library.entries@, key)),
        other != product ==> !after.said().skip(before.said().len() as int).contains(
            calls::CallView::Download { identifier: key, product: other },
        ),
{
    let call = calls::CallView::Download { identifier: key, product };
    let wrong = calls::CallView::Download { identifier: key, product: other };
    behind_a_page_stand_the_wanted(before, after, product, files, queued, correlation, response, call);
    behind_a_page_stand_the_wanted(before, after, product, files, queued, correlation, response, wrong);
    the_wanted_are_named_and_missing(before.library.entries@, response.entries@, product, key, other);
}

/// A walk through a snapshot ends by telling the library how many files were named in all,
/// and goes on by asking for the next page of the same folder, with what was counted so
/// far kept under the same mark.
pub proof fn a_walk_goes_on_to_its_end(
    before: State,
    after: State,
    product: Seq<char>,
    files: u32,
    queued: usize,
    correlation: Seq<char>,
    response: ListPathResponse,
)
    requires
        page_walked(before, after, product, files, queued, correlation, response),
        response.error@.len() == 0,
        files + response.entries@.len() <= u32::MAX,
        queued + response.entries@.len() < 1000,
    ensures
        response.next_token@.len() == 0 ==> {
            &&& after.said().len() > before.said().len()
            &&& after.said().last() matches calls::CallView::Snapshot { product: told, files: all } && told == product
                && all == files + response.entries@.len()
            &&& after.notice is Some
        },
        response.next_token@.len() > 0 ==> {
            &&& after.said().last() matches calls::CallView::ListPath { path, token, recursive, correlation: mark } && {
                &&& token == response.next_token@
                &&& recursive
                &&& mark == correlation
                &&& path.len() > 0 && path.last() == '/'
                &&& text::without_trailing(path, '/') == text::without_trailing(product, '/')
            }
            &&& after.listings@.contains_key(correlation)
            &&& after.listings@[correlation]@ matches state::ListingView::Snapshot { product: kept, files: all, queued: sent }
                && {
                &&& kept == product
                &&& all == files + response.entries@.len()
                &&& queued <= sent <= queued + response.entries@.len()
            }
        },
{
    let requests = wanted(before.library.entries@, response.entries@, product);
    wanted_are_the_missing(before.library.entries@, response.entries@, product, calls::CallView::ListLibrary);
    a_listed_path_ends_in_a_slash(product);
    if response.next_token@.len() > 0 {
        let seen = state::listings_seen(after.listings@);
        assert(seen.contains_key(correlation));
        assert(seen[correlation] == after.listings@[correlation]@);
    }
}

/// The records of a snapshot are those that name it: all of them, or only those that are
/// on their way.
pub proof fn the_records_of_a_snapshot_name_it(
    entries: Seq<LibraryEntry>,
    product: Seq<char>,
    going: bool,
    name: Seq<char>,
)
    ensures
        records_of(entries, product, going).contains(name) == exists|i: int| {
            &&& 0 <= i < entries.len()
            &&& (#[trigger] entries[i]).product@ == product
            &&& entries[i].name@ == name
            &&& going ==> entries[i].status == LibraryStatus::LibDownloading
        },
        pauses(records_of(entries, product, going)).contains(calls::CallView::Pause { name }) == records_of(
            entries,
            product,
            going,
        ).contains(name),
        deletes(records_of(entries, product, going)).contains(calls::CallView::Delete { name }) == records_of(
            entries,
            product,
            going,
        ).contains(name),
    decreases entries.len(),
{
    let all = records_of(entries, product, going);
    if pauses(all).contains(calls::CallView::Pause { name }) {
        let k = choose|k: int| 0 <= k < pauses(all).len() && pauses(all)[k] == calls::CallView::Pause { name };
        assert(all[k] == name);
    }
    if deletes(all).contains(calls::CallView::Delete { name }) {
        let k = choose|k: int| 0 <= k < deletes(all).len() && deletes(all)[k] == calls::CallView::Delete { name };
        assert(all[k] == name);
    }
    if all.contains(name) {
        let k = choose|k: int| 0 <= k < all.len() && all[k] == name;
        assert(pauses(all)[k] == calls::CallView::Pause { name });
        assert(deletes(all)[k] == calls::CallView::Delete { name });
    }
    if entries.len() > 0 {
        let front = entries.drop_last();
        let rest = records_of(front, product, going);
        the_records_of_a_snapshot_name_it(front, product, going, name);
        if all.contains(name) {
            let k = choose|k: int| 0 <= k < all.len() && all[k] == name;
            if k < rest.len() {
                assert(rest[k] == name);
                let i = choose|i: int| {
                    &&& 0 <= i < front.len()
                    &&& (#[trigger] front[i]).product@ == product
                    &&& front[i].name@ == name
                    &&& going ==> front[i].status == LibraryStatus::LibDownloading
                };
                assert(entries[i] == front[i]);
            } else {
                assert(entries[entries.len() - 1] == entries.last());
            }
        }
        if exists|i: int| {
            &&& 0 <= i < entries.len()
            &&& (#[trigger] entries[i]).product@ == product
            &&& entries[i].name@ == name
            &&& going ==> entries[i].status == LibraryStatus::LibDownloading
        } {
            let i = choose|i: int| {
                &&& 0 <= i < entries.len()
                &&& (#[trigger] entries[i]).product@ == product
                &&& entries[i].name@ == name
                &&& going ==> entries[i].status == LibraryStatus::LibDownloading
            };
            if i < front.len() {
                assert(front[i] == entries[i]);
                let k = choose|k: int| 0 <= k < rest.len() && rest[k] == name;
                assert(all[k] == name);
            } else {
                assert(all[all.len() - 1] == name);
            }
        }
    }
}

/// A chosen file is fetched when the library has no record of it, or a stopped one; not
/// while it is on its way, and not when it is here. A chosen snapshot is fetched until as
/// many of its files are complete as it was told to have.
pub proof fn what_is_not_here_is_fetched(entries: Seq<LibraryEntry>, key: Seq<char>, what: listing::ChosenView, at: int)
    requires
        0 <= at < entries.len(),
    ensures
        match what {
            listing::ChosenView::Snapshot => {
                &&& library::walked(entries, key) == 0 ==> worth_fetching(entries, key, what) == Some(
                    FetchView::Snapshot(key),
                )
                &&& library::completed(entries, key) < library::walked(entries, key) ==> worth_fetching(entries, key, what)
                    == Some(FetchView::Snapshot(key))
            },
            listing::ChosenView::File { identifier, product, name } => {
                &&& identifier.len() == 0 ==> worth_fetching(entries, key, what) is None
                &&& identifier.len() > 0 && (forall|i: int|
                    0 <= i < entries.len() ==> (#[trigger] entries[i]).identifier@ != identifier) ==> worth_fetching(
                    entries,
                    key,
                    what,
                ) == Some(FetchView::File { identifier, product })
                &&& identifier.len() > 0 && entries[at].identifier@ == identifier && (forall|j: int|
                    0 <= j < at ==> (#[trigger] entries[j]).identifier@ != identifier) ==> match entries[at].status {
                    LibraryStatus::LibPaused => worth_fetching(entries, key, what) == Some(
                        FetchView::File { identifier, product },
                    ),
                    LibraryStatus::LibDownloading => worth_fetching(entries, key, what) is None,
                    LibraryStatus::LibComplete => worth_fetching(entries, key, what) is None,
                }
            },
        },
{
    if let listing::ChosenView::File { identifier, .. } = what {
        let first = library::a_key_means_its_first_record(entries, identifier);
        if first < entries.len() {
            assert(entries[first].identifier@ == identifier);
        }
    }
}

/// What a chosen row is deleted by: a snapshot by all its records, and a file by the name
/// of the record of its key, or without one by the name it was chosen with.
pub proof fn a_chosen_row_is_deleted_by_its_records(
    entries: Seq<LibraryEntry>,
    key: Seq<char>,
    what: listing::ChosenView,
    at: int,
)
    requires
        0 <= at < entries.len(),
    ensures
        match what {
            listing::ChosenView::Snapshot => entries[at].product@ == key ==> going(entries, key, what).contains(
                entries[at].name@,
            ),
            listing::ChosenView::File { identifier, product, name } => {
                &&& entries[at].identifier@ == identifier && entries[at].name@.len() > 0 && (forall|j: int|
                    0 <= j < at ==> (#[trigger] entries[j]).identifier@ != identifier) ==> going(entries, key, what) == seq![
                    entries[at].name@,
                ]
                &&& name.len() > 0 && (forall|i: int|
                    0 <= i < entries.len() ==> (#[trigger] entries[i]).identifier@ != identifier) ==> going(
                    entries,
                    key,
                    what,
                ) == seq![name]
            },
        },
{
    match what {
        listing::ChosenView::Snapshot => {
            the_records_of_a_snapshot_name_it(entries, key, false, entries[at].name@);
        },
        listing::ChosenView::File { identifier, .. } => {
            let first = library::a_key_means_its_first_record(entries, identifier);
            if first < entries.len() {
                assert(entries[first].identifier@ == identifier);
            }
        },
    }
}

/// A snapshot that is to be downloaded is asked for as one listing of all that lies under
/// it, by its path with a slash; and the answer is waited for under the mark of the
/// question. One without a name is not asked for.
pub proof fn a_snapshot_is_listed_whole(errands: Errands, product: Seq<char>)
    ensures
        product.len() == 0 ==> errands.walking(product) == errands,
        product.len() > 0 ==> {
            let after = errands.walking(product);
            &&& after.said.len() == errands.said.len() + 1
            &&& after.said.drop_last() == errands.said
            &&& after.said.last() matches calls::CallView::ListPath { path, token, recursive, correlation } && {
                &&& recursive
                &&& token.len() == 0
                &&& path.last() == '/'
                &&& text::without_trailing(path, '/') == text::without_trailing(product, '/')
                &&& after.listings.contains_key(correlation)
                &&& after.listings[correlation] == (state::ListingView::Snapshot { product, files: 0, queued: 0 })
            }
        },
{
    a_listed_path_ends_in_a_slash(product);
    if product.len() > 0 {
        assert(errands.walking(product).said.drop_last() =~= errands.said);
    }
}

/// The speed is what came since the last measurement over the time since then, and there is
/// none while nothing is downloaded.
pub proof fn the_speed_is_what_came_since(before: State, after: State, entries: Seq<LibraryEntry>, now: i64)
    requires
        measured_on(before, after, entries, now),
        library::downloaded_bytes(entries) <= u64::MAX,
    ensures
        (forall|i: int| 0 <= i < entries.len() ==> (#[trigger] entries[i]).status != LibraryStatus::LibDownloading)
            ==> after.speed is None && after.measured is None,
        match before.measured {
            Some(last) => library::downloads(entries) > 0 && last.at < now && now - last.at <= i64::MAX && last.done
                <= library::downloaded_bytes(entries) ==> {
                &&& after.speed matches Some(speed) && speed.bytes + last.done == library::downloaded_bytes(entries)
                    && speed.seconds + last.at == now
                &&& after.measured matches Some(taken) && taken.at == now && taken.done == library::downloaded_bytes(
                    entries,
                )
            },
            None => library::downloads(entries) > 0 ==> (after.measured matches Some(taken) && taken.at == now && taken.done
                == library::downloaded_bytes(entries)),
        },
{
    if forall|i: int| 0 <= i < entries.len() ==> (#[trigger] entries[i]).status != LibraryStatus::LibDownloading {
        none_goes(entries);
    }
}

proof fn none_goes(entries: Seq<LibraryEntry>)
    requires
        forall|i: int| 0 <= i < entries.len() ==> (#[trigger] entries[i]).status != LibraryStatus::LibDownloading,
    ensures
        library::downloads(entries) == 0,
    decreases entries.len(),
{
    if entries.len() > 0 {
        let front = entries.drop_last();
        assert forall|i: int| 0 <= i < front.len() implies (#[trigger] front[i]).status != LibraryStatus::LibDownloading by {
            assert(front[i] == entries[i]);
        }
        none_goes(front);
        assert(entries[entries.len() - 1] == entries.last());
    }
}

/// A file whose record is being downloaded is paused by the name of that record, and any
/// other is fetched by its key, for its snapshot.
pub proof fn a_press_pauses_what_goes(entries: Seq<LibraryEntry>, identifier: Seq<char>, product: Seq<char>, at: int)
    requires
        identifier.len() > 0,
        0 <= at <= entries.len(),
        forall|j: int| 0 <= j < at ==> (#[trigger] entries[j]).identifier@ != identifier,
        at < entries.len() ==> entries[at].identifier@ == identifier,
    ensures
        at < entries.len() && entries[at].status is LibDownloading ==> press_said(entries, identifier, product) == seq![
            calls::CallView::Pause { name: entries[at].name@ },
        ],
        at == entries.len() || !(entries[at].status is LibDownloading) ==> press_said(entries, identifier, product) == seq![
            calls::CallView::Download { identifier, product },
        ],
        press_said(entries, Seq::empty(), product).len() == 0,
{
    let first = library::a_key_means_its_first_record(entries, identifier);
    if first < at {
        assert(entries[first].identifier@ != identifier);
    } else if at < first {
        assert(entries[at].identifier@ != identifier);
    }
}

/// A record is deleted and revealed by its own name, and nothing by no name.
pub proof fn a_record_is_handled_by_its_name(name: Seq<char>)
    ensures
        name.len() > 0 ==> delete_said(name) == seq![calls::CallView::Delete { name }] && reveal_said(name) == seq![
            calls::CallView::Reveal { name },
        ],
        name.len() == 0 ==> delete_said(name).len() == 0 && reveal_said(name).len() == 0,
{
}

/// To stop a snapshot pauses those of its records that are being downloaded, and to throw it
/// away deletes all of them; no other record is touched.
pub proof fn a_snapshot_is_stopped_and_thrown_away(entries: Seq<LibraryEntry>, product: Seq<char>, name: Seq<char>)
    requires
        product.len() > 0,
    ensures
        snapshot_paused(entries, product).contains(calls::CallView::Pause { name }) == exists|i: int|
            0 <= i < entries.len() && (#[trigger] entries[i]).product@ == product && entries[i].name@ == name
                && entries[i].status is LibDownloading,
        snapshot_deleted(entries, product).contains(calls::CallView::Delete { name }) == exists|i: int|
            0 <= i < entries.len() && (#[trigger] entries[i]).product@ == product && entries[i].name@ == name,
        !snapshot_paused(entries, product).contains(calls::CallView::Delete { name }),
        !snapshot_deleted(entries, product).contains(calls::CallView::Pause { name }),
        snapshot_paused(entries, Seq::empty()).len() == 0,
        snapshot_deleted(entries, Seq::empty()).len() == 0,
{
    the_records_of_a_snapshot_name_it(entries, product, true, name);
    the_records_of_a_snapshot_name_it(entries, product, false, name);
}

/// What is said at the end of a walk: that there was nothing, that all of it is here, or how
/// much was queued.
pub proof fn the_end_of_a_walk_is_said(short: Seq<char>, files: nat, queued: nat, error: Seq<char>)
    ensures
        walked_notice(short, 0, queued) == "В снимке «"@ + short + "» нет файлов"@,
        files > 0 ==> walked_notice(short, files, 0) == "Снимок «"@ + short + "» уже на диске"@,
        files > 0 && queued > 0 ==> walked_notice(short, files, queued) == "Снимок «"@ + short + "»: в закачке "@
            + number::written(queued) + " файлов"@,
        cut_notice(short, queued) == "Снимок «"@ + short + "»: поставлено "@ + number::written(queued)
            + " файлов, остальные пропущены"@,
        refused_notice(short, error) == "Снимок «"@ + short + "» не перечислился: "@ + error,
{
}

/// What is chosen is told key by key, each as what it was chosen as; and what is let go of is
/// no longer chosen.
pub proof fn what_is_chosen_is_told_by_its_key(selected: Map<Seq<char>, Chosen>, keys: Seq<Seq<char>>, i: int, key: Seq<char>)
    ensures
        picks(selected).len() == names::in_order(selected.dom()).len(),
        0 <= i < picks(selected).len() ==> {
            &&& picks(selected)[i].0 == names::in_order(selected.dom())[i]
            &&& picks(selected)[i].1 == selected[picks(selected)[i].0]@
        },
        unchosen(selected, keys).contains_key(key) <==> selected.contains_key(key) && !keys.contains(key),
        unchosen(selected, keys).contains_key(key) ==> unchosen(selected, keys)[key] == selected[key],
{
    assert(keys.to_set().contains(key) == keys.contains(key));
}

} // verus!
