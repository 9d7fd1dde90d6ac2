//! The library as it last reported itself.

use vstd::prelude::*;
use crate::proto::{LibraryEntry, LibraryStatus};
use crate::text;

verus! {

broadcast use vstd::string::group_string_axioms;

/// The largest value of a byte count: what adds up to more stays there.
pub open spec fn capped(bytes: nat) -> nat {
    if bytes > u64::MAX { u64::MAX as nat } else { bytes }
}

/// How far a record has come.
pub fn status_of(entry: &LibraryEntry) -> (status: LibraryStatus)
    ensures
        status == entry.status,
{
    entry.status
}

/// The records of the library, in its own order.
pub struct LibraryState {
    pub entries: Vec<LibraryEntry>,
}

/// What the library holds under a path.
#[derive(Clone, Copy)]
pub struct Under {
    pub files: usize,
    pub bytes: u64,
    /// Something under the path is on its way.
    pub active: bool,
}

/// Where the first record with this key stands; the number of records when
/// there is none.
pub open spec fn entry_place(entries: Seq<LibraryEntry>, identifier: Seq<char>) -> int
    decreases entries.len(),
{
    if entries.len() == 0 {
        0
    } else if entries[0].identifier@ == identifier {
        0
    } else {
        1 + entry_place(entries.drop_first(), identifier)
    }
}

/// The first record with this key.
pub open spec fn entry_of(entries: Seq<LibraryEntry>, identifier: Seq<char>) -> Option<LibraryEntry> {
    let at = entry_place(entries, identifier);
    if 0 <= at < entries.len() { Some(entries[at]) } else { None }
}

/// How many records of the snapshot are complete.
pub open spec fn completed(entries: Seq<LibraryEntry>, product: Seq<char>) -> nat
    decreases entries.len(),
{
    if entries.len() == 0 {
        0
    } else {
        completed(entries.drop_last(), product) + if entries.last().product@ == product
            && entries.last().status == LibraryStatus::LibComplete {
            1nat
        } else {
            0
        }
    }
}

/// How many files the snapshot has, as far as its records were told.
pub open spec fn walked(entries: Seq<LibraryEntry>, product: Seq<char>) -> u32
    decreases entries.len(),
{
    if entries.len() == 0 {
        0
    } else {
        let rest = walked(entries.drop_last(), product);
        if entries.last().product@ == product && entries.last().siblings > rest {
            entries.last().siblings
        } else {
            rest
        }
    }
}

/// How many records lie under a path.
pub open spec fn files_under(entries: Seq<LibraryEntry>, path: Seq<char>) -> nat
    decreases entries.len(),
{
    if entries.len() == 0 {
        0
    } else {
        files_under(entries.drop_last(), path) + if text::begins_with(entries.last().identifier@, path) {
            1nat
        } else {
            0
        }
    }
}

/// How many bytes of them are here.
pub open spec fn bytes_under(entries: Seq<LibraryEntry>, path: Seq<char>) -> nat
    decreases entries.len(),
{
    if entries.len() == 0 {
        0
    } else {
        bytes_under(entries.drop_last(), path) + if text::begins_with(entries.last().identifier@, path) {
            entries.last().done as nat
        } else {
            0
        }
    }
}

/// Some record under a path is being downloaded.
pub open spec fn active_under(entries: Seq<LibraryEntry>, path: Seq<char>) -> bool {
    exists|i: int|
        0 <= i < entries.len() && text::begins_with((#[trigger] entries[i]).identifier@, path) && entries[i].status
            == LibraryStatus::LibDownloading
}

/// How many records are being downloaded.
pub open spec fn downloads(entries: Seq<LibraryEntry>) -> nat
    decreases entries.len(),
{
    if entries.len() == 0 {
        0
    } else {
        downloads(entries.drop_last()) + if entries.last().status == LibraryStatus::LibDownloading { 1nat } else { 0 }
    }
}

/// How many bytes of them are here.
pub open spec fn downloaded_bytes(entries: Seq<LibraryEntry>) -> nat
    decreases entries.len(),
{
    if entries.len() == 0 {
        0
    } else {
        downloaded_bytes(entries.drop_last()) + if entries.last().status == LibraryStatus::LibDownloading {
            entries.last().done as nat
        } else {
            0
        }
    }
}

impl LibraryState {
    pub fn new() -> (library: LibraryState)
        ensures
            library.entries@.len() == 0,
    {
        LibraryState { entries: Vec::new() }
    }

    /// The record with this key.
    pub fn by_identifier(&self, identifier: &str) -> (found: Option<&LibraryEntry>)
        ensures
            match found {
                Some(entry) => entry_of(self.entries@, identifier@) == Some(*entry),
                None => entry_of(self.entries@, identifier@) is None,
            },
    {
        let ghost all = self.entries@;
        let mut at: usize = 0;
        assert(all.skip(0) =~= all);
        while at < self.entries.len()
            invariant
                at <= self.entries.len(),
                all == self.entries@,
                at + entry_place(all.skip(at as int), identifier@) == entry_place(all, identifier@),
            decreases self.entries.len() - at,
        {
            assert(all.skip(at as int)[0] == all[at as int]);
            if text::same(&self.entries[at].identifier, identifier) {
                return Some(&self.entries[at]);
            }
            assert(all.skip(at as int).drop_first() =~= all.skip(at + 1));
            at += 1;
        }
        None
    }

    /// The name under which a file lies complete on disk.
    pub fn local_name(&self, identifier: &str) -> (name: Option<&String>)
        ensures
            match name {
                Some(name) => entry_of(self.entries@, identifier@) matches Some(entry) && entry.status
                    == LibraryStatus::LibComplete && entry.name == *name,
                None => !(entry_of(self.entries@, identifier@) matches Some(entry) && entry.status
                    == LibraryStatus::LibComplete),
            },
    {
        match self.by_identifier(identifier) {
            Some(entry) => if status_of(entry) == LibraryStatus::LibComplete { Some(&entry.name) } else { None },
            None => None,
        }
    }

    /// How many files of a snapshot are complete, and how many it has; nothing
    /// is said of no snapshot.
    pub fn snapshot(&self, product: &str) -> (counted: (usize, u32))
        ensures
            product@.len() > 0 ==> counted.0 == completed(self.entries@, product@) && counted.1 == walked(
                self.entries@,
                product@,
            ),
            product@.len() == 0 ==> counted == (0usize, 0u32),
    {
        if product.is_empty() {
            return (0, 0);
        }
        let ghost all = self.entries@;
        let mut done: usize = 0;
        let mut files: u32 = 0;
        let mut i: usize = 0;
        while i < self.entries.len()
            invariant
                i <= self.entries.len(),
                all == self.entries@,
                done <= i,
                done == completed(all.take(i as int), product@),
                files == walked(all.take(i as int), product@),
            decreases self.entries.len() - i,
        {
            let entry: &LibraryEntry = &self.entries[i];
            assert(all.take(i + 1).drop_last() =~= all.take(i as int));
            if text::same(&entry.product, product) {
                if status_of(entry) == LibraryStatus::LibComplete {
                    done += 1;
                }
                if entry.siblings > files {
                    files = entry.siblings;
                }
            }
            i += 1;
        }
        assert(all.take(all.len() as int) =~= all);
        (done, files)
    }

    /// What lies under a path.
    pub fn under(&self, path: &str) -> (under: Under)
        ensures
            under.files == files_under(self.entries@, path@),
            under.bytes == capped(bytes_under(self.entries@, path@)),
            under.active == active_under(self.entries@, path@),
    {
        let ghost all = self.entries@;
        let mut under: Under = Under { files: 0, bytes: 0, active: false };
        let mut i: usize = 0;
        while i < self.entries.len()
            invariant
                i <= self.entries.len(),
                all == self.entries@,
                under.files <= i,
                under.files == files_under(all.take(i as int), path@),
                under.bytes == capped(bytes_under(all.take(i as int), path@)),
                under.active == active_under(all.take(i as int), path@),
            decreases self.entries.len() - i,
        {
            let entry: &LibraryEntry = &self.entries[i];
            let ghost more = all.take(i + 1);
            assert(more.drop_last() =~= all.take(i as int));
            proof {
                assert forall|j: int| 0 <= j < i implies #[trigger] more[j] == all.take(i as int)[j] by {}
                assert(more[i as int] == *entry);
            }
            if text::starts_with(&entry.identifier, path) {
                under.files = under.files + 1;
                under.bytes = under.bytes.saturating_add(entry.done);
                if status_of(entry) == LibraryStatus::LibDownloading {
                    under.active = true;
                }
            }
            proof {
                if active_under(all.take(i as int), path@) {
                    let j = choose|j: int|
                        0 <= j < i && text::begins_with((#[trigger] all.take(i as int)[j]).identifier@, path@)
                            && all.take(i as int)[j].status == LibraryStatus::LibDownloading;
                    assert(more[j] == all.take(i as int)[j]);
                }
                if active_under(more, path@) {
                    let j = choose|j: int|
                        0 <= j < more.len() && text::begins_with((#[trigger] more[j]).identifier@, path@) && more[j].status
                            == LibraryStatus::LibDownloading;
                    if j < i {
                        assert(all.take(i as int)[j] == more[j]);
                    }
                }
            }
            i += 1;
        }
        assert(all.take(all.len() as int) =~= all);
        under
    }

    /// How many records are being downloaded, and how many bytes of them are
    /// here.
    pub fn downloading(&self) -> (going: (usize, u64))
        ensures
            going.0 == downloads(self.entries@),
            going.1 == capped(downloaded_bytes(self.entries@)),
    {
        let ghost all = self.entries@;
        let mut count: usize = 0;
        let mut done: u64 = 0;
        let mut i: usize = 0;
        while i < self.entries.len()
            invariant
                i <= self.entries.len(),
                all == self.entries@,
                count <= i,
                count == downloads(all.take(i as int)),
                done == capped(downloaded_bytes(all.take(i as int))),
            decreases self.entries.len() - i,
        {
            let entry: &LibraryEntry = &self.entries[i];
            assert(all.take(i + 1).drop_last() =~= all.take(i as int));
            if status_of(entry) == LibraryStatus::LibDownloading {
                count += 1;
                done = done.saturating_add(entry.done);
            }
            i += 1;
        }
        assert(all.take(all.len() as int) =~= all);
        (count, done)
    }
}

// -- Laws --

/// A key means the first record that has it, and none where no record has it.
pub proof fn a_key_means_its_first_record(entries: Seq<LibraryEntry>, identifier: Seq<char>) -> (at: int)
    ensures
        0 <= at <= entries.len(),
        forall|j: int| 0 <= j < at ==> (#[trigger] entries[j]).identifier@ != identifier,
        at < entries.len() ==> entries[at].identifier@ == identifier && entry_of(entries, identifier) == Some(entries[at]),
        at == entries.len() ==> entry_of(entries, identifier) is None,
{
    entry_place_is_first(entries, identifier);
    entry_place(entries, identifier)
}

proof fn entry_place_is_first(entries: Seq<LibraryEntry>, identifier: Seq<char>)
    ensures
        0 <= entry_place(entries, identifier) <= entries.len(),
        forall|j: int| 0 <= j < entry_place(entries, identifier) ==> (#[trigger] entries[j]).identifier@ != identifier,
        entry_place(entries, identifier) < entries.len() ==> entries[entry_place(entries, identifier)].identifier@
            == identifier,
    decreases entries.len(),
{
    if entries.len() > 0 && entries[0].identifier@ != identifier {
        let rest = entries.drop_first();
        entry_place_is_first(rest, identifier);
        assert forall|j: int| 0 <= j < entry_place(entries, identifier) implies (#[trigger] entries[j]).identifier@
            != identifier by {
            if j > 0 {
                assert(rest[j - 1] == entries[j]);
            }
        }
    }
}

/// A record counts as complete for its own snapshot when it is complete, and for no other;
/// and nothing is complete of an empty library.
pub proof fn a_complete_record_counts_for_its_snapshot(entries: Seq<LibraryEntry>, entry: LibraryEntry, product: Seq<char>)
    ensures
        completed(Seq::empty(), product) == 0,
        entry.product@ == product && entry.status == LibraryStatus::LibComplete ==> completed(
            entries.push(entry),
            product,
        ) == completed(entries, product) + 1,
        entry.product@ != product || entry.status != LibraryStatus::LibComplete ==> completed(
            entries.push(entry),
            product,
        ) == completed(entries, product),
        completed(entries, product) <= entries.len(),
    decreases entries.len(),
{
    assert(entries.push(entry).drop_last() =~= entries);
    if entries.len() > 0 {
        a_complete_record_counts_for_its_snapshot(entries.drop_last(), entry, product);
    }
}

/// A snapshot has as many files as the record that was told of most of them says.
pub proof fn a_snapshot_has_what_it_was_last_told(entries: Seq<LibraryEntry>, product: Seq<char>)
    ensures
        forall|i: int|
            0 <= i < entries.len() && (#[trigger] entries[i]).product@ == product ==> entries[i].siblings <= walked(
                entries,
                product,
            ),
        walked(entries, product) > 0 ==> exists|i: int|
            0 <= i < entries.len() && (#[trigger] entries[i]).product@ == product && entries[i].siblings == walked(
                entries,
                product,
            ),
    decreases entries.len(),
{
    if entries.len() > 0 {
        let front = entries.drop_last();
        a_snapshot_has_what_it_was_last_told(front, product);
        assert forall|i: int| 0 <= i < entries.len() && (#[trigger] entries[i]).product@ == product implies entries[i].siblings
            <= walked(entries, product) by {
            if i < front.len() {
                assert(front[i] == entries[i]);
            }
        }
        if walked(entries, product) > 0 {
            if entries.last().product@ == product && entries.last().siblings == walked(entries, product) {
                assert(entries[entries.len() - 1].product@ == product);
            } else {
                let i = choose|i: int|
                    0 <= i < front.len() && (#[trigger] front[i]).product@ == product && front[i].siblings == walked(
                        front,
                        product,
                    );
                assert(entries[i] == front[i]);
            }
        }
    }
}

/// A record lies under a path when its key goes on from the path, and adds what of it is
/// here; it is told as on its way where it is being downloaded.
pub proof fn a_record_lies_under_its_path(entries: Seq<LibraryEntry>, entry: LibraryEntry, path: Seq<char>, rest: Seq<char>)
    requires
        entry.identifier@ == path + rest,
    ensures
        files_under(Seq::empty(), path) == 0,
        bytes_under(Seq::empty(), path) == 0,
        files_under(entries.push(entry), path) == files_under(entries, path) + 1,
        bytes_under(entries.push(entry), path) == bytes_under(entries, path) + entry.done,
        active_under(entries.push(entry), path) == (active_under(entries, path) || entry.status
            == LibraryStatus::LibDownloading),
{
    let more = entries.push(entry);
    assert(more.drop_last() =~= entries);
    assert((path + rest).subrange(0, path.len() as int) =~= path);
    if active_under(entries, path) {
        let i = choose|i: int|
            0 <= i < entries.len() && text::begins_with((#[trigger] entries[i]).identifier@, path) && entries[i].status
                == LibraryStatus::LibDownloading;
        assert(more[i] == entries[i]);
    }
    if active_under(more, path) {
        let i = choose|i: int|
            0 <= i < more.len() && text::begins_with((#[trigger] more[i]).identifier@, path) && more[i].status
                == LibraryStatus::LibDownloading;
        if i < entries.len() {
            assert(entries[i] == more[i]);
        }
    }
    assert(more[entries.len() as int] == entry);
}

/// A record that is being downloaded counts among the downloads with the bytes that are
/// here, and no other record does.
pub proof fn a_download_counts_while_it_goes(entries: Seq<LibraryEntry>, entry: LibraryEntry)
    ensures
        downloads(Seq::empty()) == 0,
        downloaded_bytes(Seq::empty()) == 0,
        entry.status == LibraryStatus::LibDownloading ==> downloads(entries.push(entry)) == downloads(entries) + 1
            && downloaded_bytes(entries.push(entry)) == downloaded_bytes(entries) + entry.done,
        entry.status != LibraryStatus::LibDownloading ==> downloads(entries.push(entry)) == downloads(entries)
            && downloaded_bytes(entries.push(entry)) == downloaded_bytes(entries),
{
    assert(entries.push(entry).drop_last() =~= entries);
}

} // verus!
