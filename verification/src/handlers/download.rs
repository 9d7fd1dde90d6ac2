//! Downloads that are kept by path, each file with a note of where it came from beside
//! it. The note outlives a restart: by it a broken download goes on.

use vstd::prelude::*;
use crate::components::row;
use crate::keyed::Keyed;
use crate::number;
use crate::state;
use crate::text;

verus! {

broadcast use vstd::string::group_string_axioms;

/// Who wrote a note.
pub const PROVIDER: &'static str = "data-provider";
/// Where downloads lie.
pub const FOLDER: &'static str = "downloads/";

/// A download that goes on.
pub struct Load {
    pub key: String,
    pub filename: String,
    pub done: u64,
    /// 0 when it is not known.
    pub total: u64,
}

/// Where a file came from.
pub struct Origin {
    pub identifier: String,
    pub total: Option<u64>,
}

/// A file on disk, by its name without the mark of an unfinished one.
pub struct LocalFile {
    pub name: String,
    pub size: u64,
    pub is_partial: bool,
}

/// What is asked of others.
pub enum Act {
    /// Fetch a file.
    Fetch { identifier: String, destination: String },
    /// Break a download off.
    Cancel { task: String },
    /// Write the note of a file.
    WriteNote { path: String, identifier: String, total: Option<u64>, correlation: String },
    /// Delete a file; nobody waits for an answer without a correlation.
    Delete { path: String, correlation: String },
    /// List the folder of downloads anew.
    List,
}

pub ghost struct LoadView {
    pub key: Seq<char>,
    pub filename: Seq<char>,
    pub done: u64,
    pub total: u64,
}

pub ghost struct OriginView {
    pub identifier: Seq<char>,
    pub total: Option<u64>,
}

pub ghost struct FileView {
    pub name: Seq<char>,
    pub size: u64,
    pub is_partial: bool,
}

pub ghost enum ActView {
    Fetch { identifier: Seq<char>, destination: Seq<char> },
    Cancel { task: Seq<char> },
    WriteNote { path: Seq<char>, identifier: Seq<char>, total: Option<u64>, correlation: Seq<char> },
    Delete { path: Seq<char>, correlation: Seq<char> },
    List,
}

impl View for Act {
    type V = ActView;

    open spec fn view(&self) -> ActView {
        match *self {
            Act::Fetch { identifier, destination } => ActView::Fetch {
                identifier: identifier@,
                destination: destination@,
            },
            Act::Cancel { task } => ActView::Cancel { task: task@ },
            Act::WriteNote { path, identifier, total, correlation } => ActView::WriteNote {
                path: path@,
                identifier: identifier@,
                total,
                correlation: correlation@,
            },
            Act::Delete { path, correlation } => ActView::Delete { path: path@, correlation: correlation@ },
            Act::List => ActView::List,
        }
    }
}

/// The downloads, and what is on disk of them.
pub struct Downloads {
    /// What goes on, by its task.
    pub loads: Keyed<Load>,
    /// The notes, by the names of their files.
    pub origins: Keyed<Origin>,
    pub files: Vec<LocalFile>,
    /// Notes that are being read: the name of the file by the mark of the question.
    pub reads: Keyed<String>,
    /// Notes that are being written, likewise.
    pub writes: Keyed<String>,
    /// What to delete once a task is broken off.
    pub after_cancel: Keyed<String>,
    /// What is being deleted, by the mark of the question.
    pub deletes: Keyed<String>,
    /// How many questions were asked.
    pub asked: u64,
    pub status: String,
    pub error: Option<String>,
    /// The file that was opened to be looked at.
    pub shown: Option<String>,
    /// What is to be asked of others, in order.
    pub acts: Vec<Act>,
}

/// What the downloads say.
pub ghost struct DownloadsView {
    pub loads: Map<Seq<char>, LoadView>,
    /// The tasks in the order in which they came.
    pub tasks: Seq<Seq<char>>,
    pub origins: Map<Seq<char>, OriginView>,
    pub files: Seq<FileView>,
    pub reads: Map<Seq<char>, Seq<char>>,
    pub writes: Map<Seq<char>, Seq<char>>,
    pub after_cancel: Map<Seq<char>, Seq<char>>,
    pub deletes: Map<Seq<char>, Seq<char>>,
    pub asked: u64,
    pub status: Seq<char>,
    pub error: Option<Seq<char>>,
    pub shown: Option<Seq<char>>,
    pub acts: Seq<ActView>,
}

pub open spec fn load_seen(load: Load) -> LoadView {
    LoadView { key: load.key@, filename: load.filename@, done: load.done, total: load.total }
}

pub open spec fn origin_seen(origin: Origin) -> OriginView {
    OriginView { identifier: origin.identifier@, total: origin.total }
}

pub open spec fn loads_seen(loads: Map<Seq<char>, Load>) -> Map<Seq<char>, LoadView> {
    Map::new(|name: Seq<char>| loads.contains_key(name), |name: Seq<char>| load_seen(loads[name]))
}

pub open spec fn origins_seen(origins: Map<Seq<char>, Origin>) -> Map<Seq<char>, OriginView> {
    Map::new(|name: Seq<char>| origins.contains_key(name), |name: Seq<char>| origin_seen(origins[name]))
}

pub open spec fn texts_seen(texts: Map<Seq<char>, String>) -> Map<Seq<char>, Seq<char>> {
    Map::new(|name: Seq<char>| texts.contains_key(name), |name: Seq<char>| texts[name]@)
}

pub open spec fn files_seen(files: Seq<LocalFile>) -> Seq<FileView> {
    files.map_values(
        |file: LocalFile| FileView { name: file.name@, size: file.size, is_partial: file.is_partial },
    )
}

pub open spec fn acts_seen(acts: Seq<Act>) -> Seq<ActView> {
    acts.map_values(|act: Act| act@)
}

pub open spec fn maybe(text: Option<String>) -> Option<Seq<char>> {
    match text {
        Some(text) => Some(text@),
        None => None,
    }
}

impl View for Downloads {
    type V = DownloadsView;

    open spec fn view(&self) -> DownloadsView {
        DownloadsView {
            loads: loads_seen(self.loads@),
            tasks: self.loads.listed(),
            origins: origins_seen(self.origins@),
            files: files_seen(self.files@),
            reads: texts_seen(self.reads@),
            writes: texts_seen(self.writes@),
            after_cancel: texts_seen(self.after_cancel@),
            deletes: texts_seen(self.deletes@),
            asked: self.asked,
            status: self.status@,
            error: maybe(self.error),
            shown: maybe(self.shown),
            acts: acts_seen(self.acts@),
        }
    }
}

// -- Names --

/// The path of a file.
pub open spec fn path_of(filename: Seq<char>) -> Seq<char> {
    FOLDER@ + filename
}

/// The path of the note of a file.
pub open spec fn note_of(filename: Seq<char>) -> Seq<char> {
    FOLDER@ + filename + ".origin"@
}

/// What stands behind the last slash.
pub open spec fn behind_slash(path: Seq<char>) -> Seq<char> {
    path.skip(text::last_index(path, '/') + 1)
}

/// A name without the mark of an unfinished file.
pub open spec fn whole_name(name: Seq<char>) -> Seq<char> {
    if text::ends_in(name, ".part"@) { name.take(name.len() - 5) } else { name }
}

pub fn file_path(filename: &str) -> (path: String)
    ensures
        path@ == path_of(filename@),
{
    text::concat(FOLDER, filename)
}

pub fn origin_path(filename: &str) -> (path: String)
    ensures
        path@ == note_of(filename@),
{
    let mut path: String = text::concat(FOLDER, filename);
    path.append(".origin");
    path
}

/// The name that a key is kept under.
pub fn filename_from_key(key: &str) -> (name: String)
    ensures
        name@ == row::leaf(key@),
{
    row::last_segment(key).to_owned()
}

fn behind(path: &str) -> (name: String)
    ensures
        name@ == behind_slash(path@),
{
    let length: usize = text::length(path);
    match text::rfind(path, '/') {
        Some(at) => {
            assert(path@.subrange(at + 1, length as int) =~= path@.skip(at + 1));
            text::slice(path, at + 1, length)
        },
        None => {
            assert(path@.skip(0) =~= path@);
            path.to_owned()
        },
    }
}

fn finished_name(name: &str) -> (whole: String)
    ensures
        whole@ == whole_name(name@),
{
    proof {
        reveal_strlit(".part");
        assert(".part"@.len() == 5);
    }
    if text::ends_with(name, ".part") {
        let length: usize = text::length(name);
        assert(name@.subrange(0, length - 5) =~= name@.take(length - 5));
        text::slice(name, 0, length - 5)
    } else {
        name.to_owned()
    }
}

// -- What is known --

/// The first task that downloads a key.
pub open spec fn loading(tasks: Seq<Seq<char>>, loads: Map<Seq<char>, LoadView>, key: Seq<char>) -> Option<Seq<char>>
    decreases tasks.len(),
{
    if tasks.len() == 0 {
        None
    } else {
        match loading(tasks.drop_last(), loads, key) {
            Some(task) => Some(task),
            None => if loads[tasks.last()].key == key { Some(tasks.last()) } else { None },
        }
    }
}

/// How much of a file there is, by its note; 0 when that is not known.
pub open spec fn total_of(origins: Map<Seq<char>, OriginView>, filename: Seq<char>) -> u64 {
    if origins.contains_key(filename) {
        match origins[filename].total {
            Some(total) => total,
            None => 0,
        }
    } else {
        0
    }
}

/// The size of the unfinished file of a name; 0 when there is none. A finished one would
/// be fetched from its start.
pub open spec fn begun(files: Seq<FileView>, filename: Seq<char>) -> u64
    decreases files.len(),
{
    if files.len() == 0 {
        0
    } else if files[0].name == filename {
        if files[0].is_partial { files[0].size } else { 0 }
    } else {
        begun(files.drop_first(), filename)
    }
}

impl Downloads {
    pub fn new() -> (desk: Downloads)
        ensures
            desk@ == (DownloadsView {
                loads: Map::empty(),
                tasks: Seq::empty(),
                origins: Map::empty(),
                files: Seq::empty(),
                reads: Map::empty(),
                writes: Map::empty(),
                after_cancel: Map::empty(),
                deletes: Map::empty(),
                asked: 0,
                status: Seq::empty(),
                error: None,
                shown: None,
                acts: Seq::empty(),
            }),
    {
        let desk: Downloads = Downloads {
            loads: Keyed::new(),
            origins: Keyed::new(),
            files: Vec::new(),
            reads: Keyed::new(),
            writes: Keyed::new(),
            after_cancel: Keyed::new(),
            deletes: Keyed::new(),
            asked: 0,
            status: String::new(),
            error: None,
            shown: None,
            acts: Vec::new(),
        };
        assert(desk@.loads =~= Map::empty());
        assert(desk@.origins =~= Map::empty());
        assert(desk@.files =~= Seq::empty());
        assert(desk@.reads =~= Map::empty());
        assert(desk@.writes =~= Map::empty());
        assert(desk@.after_cancel =~= Map::empty());
        assert(desk@.deletes =~= Map::empty());
        assert(desk@.acts =~= Seq::empty());
        desk
    }

    /// The task that downloads a key.
    pub fn active_download(&self, key: &str) -> (task: Option<String>)
        ensures
            maybe(task) == loading(self@.tasks, self@.loads, key@),
    {
        let ghost tasks = self@.tasks;
        let mut found: Option<String> = None;
        let mut i: usize = 0;
        while i < self.loads.len()
            invariant
                i <= tasks.len(),
                tasks == self@.tasks,
                maybe(found) == loading(tasks.take(i as int), self@.loads, key@),
            decreases tasks.len() - i,
        {
            assert(tasks.take(i + 1).drop_last() =~= tasks.take(i as int));
            let load: &Load = self.loads.value_at(i);
            assert(self@.loads[tasks[i as int]] == load_seen(*load));
            if found.is_none() && text::same(&load.key, key) {
                found = Some(self.loads.name_at(i).clone());
            }
            i += 1;
        }
        assert(tasks.take(tasks.len() as int) =~= tasks);
        found
    }

    /// How much of a file there is, by its note; 0 when that is not known.
    pub fn total_bytes(&self, filename: &str) -> (total: u64)
        ensures
            total == total_of(self@.origins, filename@),
    {
        match self.origins.get(filename) {
            Some(origin) => match origin.total {
                Some(total) => total,
                None => 0,
            },
            None => 0,
        }
    }

    fn begun_bytes(&self, filename: &str) -> (size: u64)
        ensures
            size == begun(self@.files, filename@),
    {
        let ghost files = self@.files;
        let mut i: usize = 0;
        assert(files.skip(0) =~= files);
        while i < self.files.len()
            invariant
                i <= self.files@.len(),
                files == self@.files,
                files.len() == self.files@.len(),
                begun(files.skip(i as int), filename@) == begun(files, filename@),
            decreases self.files@.len() - i,
        {
            assert(files.skip(i as int)[0] == files[i as int]);
            assert(files.skip(i as int).drop_first() =~= files.skip(i + 1));
            let file: &LocalFile = &self.files[i];
            if text::same(&file.name, filename) {
                return if file.is_partial { file.size } else { 0 };
            }
            i += 1;
        }
        0
    }

    fn ask(&mut self, act: Act)
        ensures
            final(self)@ == (DownloadsView { acts: old(self)@.acts.push(act@), ..old(self)@ }),
    {
        self.acts.push(act);
        assert(self@.acts =~= old(self)@.acts.push(act@));
    }

    fn mark(&mut self) -> (correlation: String)
        ensures
            correlation@ == number::written(old(self)@.asked as nat),
            final(self)@ == (DownloadsView { asked: state::one_more(old(self)@.asked), ..old(self)@ }),
    {
        let correlation: String = number::decimal(self.asked as u128);
        self.asked = self.asked.wrapping_add(1);
        correlation
    }

    fn put_origin(&mut self, filename: &str, origin: Origin)
        ensures
            final(self)@ == (DownloadsView {
                origins: old(self)@.origins.insert(filename@, origin_seen(origin)),
                ..old(self)@
            }),
    {
        self.origins.insert(filename.to_owned(), origin);
        assert(self@.origins =~= old(self)@.origins.insert(filename@, origin_seen(origin)));
    }

    fn say(&mut self, before: &str, filename: &str)
        ensures
            final(self)@ == (DownloadsView { status: before@ + filename@, ..old(self)@ }),
    {
        self.status = text::concat(before, filename);
    }
}

// -- Notes --

/// A note written: it is known at once, and the file is asked for.
pub open spec fn noted(
    desk: DownloadsView,
    filename: Seq<char>,
    identifier: Seq<char>,
    total: Option<u64>,
) -> DownloadsView {
    let correlation = number::written(desk.asked as nat);
    DownloadsView {
        origins: desk.origins.insert(filename, (OriginView { identifier, total })),
        writes: desk.writes.insert(correlation, filename),
        asked: state::one_more(desk.asked),
        acts: desk.acts.push(ActView::WriteNote { path: note_of(filename), identifier, total, correlation }),
        ..desk
    }
}

fn write_origin_sidecar(desk: &mut Downloads, filename: &str, identifier: &str, total: Option<u64>)
    ensures
        final(desk)@ == noted(old(desk)@, filename@, identifier@, total),
{
    desk.put_origin(filename, Origin { identifier: identifier.to_owned(), total });
    let correlation: String = desk.mark();
    let ghost before = desk@;
    desk.writes.insert(correlation.clone(), filename.to_owned());
    assert(desk@.writes =~= before.writes.insert(correlation@, filename@));
    desk.ask(Act::WriteNote { path: origin_path(filename), identifier: identifier.to_owned(), total, correlation });
}

/// The note was written or not: what held it can be let go. Says whether it was ours.
pub fn on_write_result(desk: &mut Downloads, correlation: &str) -> (ours: bool)
    ensures
        ours == old(desk)@.writes.contains_key(correlation@),
        final(desk)@ == (DownloadsView { writes: old(desk)@.writes.remove(correlation@), ..old(desk)@ }),
{
    let taken: Option<String> = desk.writes.remove(correlation);
    assert(desk@.writes =~= old(desk)@.writes.remove(correlation@));
    taken.is_some()
}

/// A note as it lay on disk, with who wrote it.
pub struct Note {
    pub provider: String,
    pub origin: Origin,
}

/// A note was read. One that is not there, or that another wrote, is no error: the file
/// can only not go on.
pub open spec fn note_read(desk: DownloadsView, correlation: Seq<char>, note: Option<Note>) -> DownloadsView {
    if !desk.reads.contains_key(correlation) {
        desk
    } else {
        let settled = DownloadsView { reads: desk.reads.remove(correlation), ..desk };
        match note {
            Some(note) => if note.provider@ == PROVIDER@ {
                DownloadsView {
                    origins: desk.origins.insert(desk.reads[correlation], origin_seen(note.origin)),
                    ..settled
                }
            } else {
                settled
            },
            None => settled,
        }
    }
}

pub fn on_read_result(desk: &mut Downloads, correlation: &str, note: Option<Note>)
    ensures
        final(desk)@ == note_read(old(desk)@, correlation@, note),
{
    if !desk.reads.contains_key(correlation) {
        return;
    }
    let taken: Option<String> = desk.reads.remove(correlation);
    assert(desk@.reads =~= old(desk)@.reads.remove(correlation@));
    match (taken, note) {
        (Some(filename), Some(note)) => {
            if text::same(&note.provider, PROVIDER) {
                desk.put_origin(&filename, note.origin);
            }
        },
        _ => {},
    }
}

// -- Downloads --

/// A press on the button of a download: what goes on is broken off, and else it begins.
pub open spec fn download_pressed(desk: DownloadsView, key: Seq<char>) -> DownloadsView {
    let filename = row::leaf(key);
    if key.len() == 0 {
        desk
    } else {
        match loading(desk.tasks, desk.loads, key) {
            Some(task) => DownloadsView {
                status: "Cancelling download: "@ + filename,
                acts: desk.acts.push(ActView::Cancel { task }),
                ..desk
            },
            None => {
                let known = if desk.origins.contains_key(filename) { desk.origins[filename].total } else { None };
                let written = noted(desk, filename, key, known);
                DownloadsView {
                    acts: written.acts.push(
                        ActView::Fetch { identifier: key, destination: path_of(filename) },
                    ),
                    ..written
                }
            },
        }
    }
}

pub fn on_download_pressed(desk: &mut Downloads, key: String)
    ensures
        final(desk)@ == download_pressed(old(desk)@, key@),
{
    if key.as_str().is_empty() {
        return;
    }
    let filename: String = filename_from_key(&key);
    match desk.active_download(&key) {
        Some(task) => {
            desk.say("Cancelling download: ", &filename);
            desk.ask(Act::Cancel { task });
        },
        None => {
            let known: Option<u64> = match desk.origins.get(&filename) {
                Some(origin) => origin.total,
                None => None,
            };
            write_origin_sidecar(desk, &filename, &key, known);
            let destination: String = file_path(&filename);
            desk.ask(Act::Fetch { identifier: key, destination });
        },
    }
}

/// A press on the button that shows a file: it is opened, and it is said that pictures
/// cannot be drawn yet.
pub fn on_view_pressed(desk: &mut Downloads, value: String)
    ensures
        final(desk)@ == if value@.len() == 0 {
            old(desk)@
        } else {
            DownloadsView {
                shown: Some(value@),
                error: Some("Image preview: модуль image ещё не реализован"@),
                ..old(desk)@
            }
        },
{
    if value.as_str().is_empty() {
        return;
    }
    desk.shown = Some(value);
    desk.error = Some("Image preview: модуль image ещё не реализован".to_owned());
}

/// A download that began: it starts from what is already on disk.
pub open spec fn started(desk: DownloadsView, task: Seq<char>, identifier: Seq<char>) -> DownloadsView {
    let filename = row::leaf(identifier);
    DownloadsView {
        loads: desk.loads.insert(
            task,
            (LoadView {
                key: identifier,
                filename,
                done: begun(desk.files, filename),
                total: total_of(desk.origins, filename),
            }),
        ),
        tasks: if desk.loads.contains_key(task) { desk.tasks } else { desk.tasks.push(task) },
        status: "Starting download: "@ + filename,
        ..desk
    }
}

pub fn on_download_started(desk: &mut Downloads, task: String, identifier: String)
    ensures
        final(desk)@ == started(old(desk)@, task@, identifier@),
{
    let filename: String = filename_from_key(&identifier);
    let load: Load = Load {
        done: desk.begun_bytes(&filename),
        total: desk.total_bytes(&filename),
        key: identifier,
        filename: filename.clone(),
    };
    desk.loads.insert(task, load);
    assert(desk@.loads =~= old(desk)@.loads.insert(task@, load_seen(load)));
    desk.say("Starting download: ", &filename);
}

/// Word of how far a download has come. A new size is noted on disk, so that a restart
/// does not lose it.
pub open spec fn progressed(desk: DownloadsView, task: Seq<char>, done: u64, total: u64) -> DownloadsView {
    if !desk.loads.contains_key(task) {
        desk
    } else {
        let load = desk.loads[task];
        let told = DownloadsView { loads: desk.loads.insert(task, (LoadView { done, total, ..load })), ..desk };
        if total > 0 && total_of(desk.origins, load.filename) != total {
            noted(told, load.filename, load.key, Some(total))
        } else {
            told
        }
    }
}

pub fn on_download_progress(desk: &mut Downloads, task: &str, done: u64, total: u64)
    ensures
        final(desk)@ == progressed(old(desk)@, task@, done, total),
{
    let (key, filename): (String, String) = match desk.loads.get(task) {
        Some(load) => (load.key.clone(), load.filename.clone()),
        None => {
            return;
        },
    };
    let load: Load = Load { key: key.clone(), filename: filename.clone(), done, total };
    desk.loads.insert(task.to_owned(), load);
    assert(desk@.loads =~= old(desk)@.loads.insert(task@, load_seen(load)));
    if total > 0 && desk.total_bytes(&filename) != total {
        write_origin_sidecar(desk, &filename, &key, Some(total));
    }
}

/// A file deleted together with its note: a note without a file would bring the row back.
pub open spec fn deleted(desk: DownloadsView, path: Seq<char>, filename: Seq<char>) -> DownloadsView {
    let correlation = number::written(desk.asked as nat);
    DownloadsView {
        origins: desk.origins.remove(filename),
        deletes: desk.deletes.insert(correlation, path),
        asked: state::one_more(desk.asked),
        acts: desk.acts.push(ActView::Delete { path: note_of(filename), correlation: Seq::empty() }).push(
            ActView::Delete { path, correlation },
        ),
        ..desk
    }
}

fn delete_local(desk: &mut Downloads, path: String, filename: &str)
    ensures
        final(desk)@ == deleted(old(desk)@, path@, filename@),
{
    let _ = desk.origins.remove(filename);
    assert(desk@.origins =~= old(desk)@.origins.remove(filename@));
    desk.ask(Act::Delete { path: origin_path(filename), correlation: String::new() });
    let correlation: String = desk.mark();
    let ghost before = desk@;
    desk.deletes.insert(correlation.clone(), path.clone());
    assert(desk@.deletes =~= before.deletes.insert(correlation@, path@));
    desk.ask(Act::Delete { path, correlation });
}

/// How a download ended.
pub enum Ending {
    Success,
    /// Broken off by a person: what there is of the file stays.
    Cancelled,
    Failed(String),
}

/// A download that ended. A delete that waited for it is done now; and else the folder
/// is listed anew, for the disk alone knows what is there.
pub open spec fn ended(desk: DownloadsView, task: Seq<char>, ending: Ending) -> DownloadsView {
    if !desk.loads.contains_key(task) {
        desk
    } else {
        let filename = desk.loads[task].filename;
        let taken = DownloadsView {
            loads: desk.loads.remove(task),
            tasks: desk.tasks.remove(crate::keyed::place(desk.tasks, task)),
            ..desk
        };
        if desk.after_cancel.contains_key(task) {
            let gone = deleted(
                (DownloadsView { after_cancel: desk.after_cancel.remove(task), ..taken }),
                desk.after_cancel[task],
                filename,
            );
            DownloadsView { status: "Deleted: "@ + filename, ..gone }
        } else {
            let said = match ending {
                Ending::Success => DownloadsView { status: "Downloaded: "@ + filename, ..taken },
                Ending::Cancelled => DownloadsView { status: "Paused: "@ + filename, ..taken },
                Ending::Failed(error) => DownloadsView { error: Some("Download failed: "@ + error@), ..taken },
            };
            DownloadsView { acts: said.acts.push(ActView::List), ..said }
        }
    }
}

pub fn on_downloaded(desk: &mut Downloads, task: &str, ending: Ending)
    ensures
        final(desk)@ == ended(old(desk)@, task@, ending),
{
    if !desk.loads.contains_key(task) {
        return;
    }
    let taken: Option<Load> = desk.loads.remove(task);
    assert(desk@.loads =~= old(desk)@.loads.remove(task@));
    let filename: String = match taken {
        Some(load) => load.filename,
        None => String::new(),
    };
    if desk.after_cancel.contains_key(task) {
        let ghost before = desk@;
        let path: Option<String> = desk.after_cancel.remove(task);
        assert(desk@.after_cancel =~= before.after_cancel.remove(task@));
        match path {
            Some(path) => {
                delete_local(desk, path, &filename);
            },
            None => {},
        }
        desk.say("Deleted: ", &filename);
        return;
    }
    match ending {
        Ending::Success => {
            desk.say("Downloaded: ", &filename);
        },
        Ending::Cancelled => {
            desk.say("Paused: ", &filename);
        },
        Ending::Failed(error) => {
            desk.error = Some(text::concat("Download failed: ", &error));
        },
    }
    desk.ask(Act::List);
}

// -- Deletes --

/// A press on the button that deletes: nothing is deleted under a download that writes
/// to it, so that is broken off first.
pub open spec fn delete_pressed(desk: DownloadsView, path: Seq<char>) -> DownloadsView {
    let filename = whole_name(behind_slash(path));
    if path.len() == 0 {
        desk
    } else {
        let task = if desk.origins.contains_key(filename) {
            loading(desk.tasks, desk.loads, desk.origins[filename].identifier)
        } else {
            None
        };
        match task {
            Some(task) => DownloadsView {
                after_cancel: desk.after_cancel.insert(task, path),
                status: "Cancelling download: "@ + filename,
                acts: desk.acts.push(ActView::Cancel { task }),
                ..desk
            },
            None => deleted(desk, path, filename),
        }
    }
}

pub fn on_delete_pressed(desk: &mut Downloads, path: String)
    ensures
        final(desk)@ == delete_pressed(old(desk)@, path@),
{
    if path.as_str().is_empty() {
        return;
    }
    let filename: String = finished_name(&behind(&path));
    let task: Option<String> = match desk.origins.get(&filename) {
        Some(origin) => desk.active_download(&origin.identifier),
        None => None,
    };
    match task {
        Some(task) => {
            desk.after_cancel.insert(task.clone(), path);
            assert(desk@.after_cancel =~= old(desk)@.after_cancel.insert(task@, path@));
            desk.say("Cancelling download: ", &filename);
            desk.ask(Act::Cancel { task });
        },
        None => {
            delete_local(desk, path, &filename);
        },
    }
}

/// Word of a delete. The folder is listed anew whether it went well or not.
pub open spec fn delete_told(desk: DownloadsView, correlation: Seq<char>, error: Seq<char>) -> DownloadsView {
    if !desk.deletes.contains_key(correlation) {
        desk
    } else {
        DownloadsView {
            deletes: desk.deletes.remove(correlation),
            error: if error.len() == 0 {
                desk.error
            } else {
                Some("Failed to delete "@ + desk.deletes[correlation] + ": "@ + error)
            },
            acts: desk.acts.push(ActView::List),
            ..desk
        }
    }
}

pub fn on_delete_result(desk: &mut Downloads, correlation: &str, error: &str)
    ensures
        final(desk)@ == delete_told(old(desk)@, correlation@, error@),
{
    if !desk.deletes.contains_key(correlation) {
        return;
    }
    let path: Option<String> = desk.deletes.remove(correlation);
    assert(desk@.deletes =~= old(desk)@.deletes.remove(correlation@));
    match path {
        Some(path) => {
            if !error.is_empty() {
                let mut said: String = text::concat("Failed to delete ", &path);
                said.append(": ");
                said.append(error);
                desk.error = Some(said);
            }
        },
        None => {},
    }
    desk.ask(Act::List);
}

// -- Laws --

proof fn a_task_found_is_one(tasks: Seq<Seq<char>>, loads: Map<Seq<char>, LoadView>, key: Seq<char>)
    ensures
        loading(tasks, loads, key) matches Some(task) ==> tasks.contains(task) && loads[task].key == key,
    decreases tasks.len(),
{
    if tasks.len() > 0 {
        a_task_found_is_one(tasks.drop_last(), loads, key);
        match loading(tasks.drop_last(), loads, key) {
            Some(task) => {
                let i = choose|i: int| 0 <= i < tasks.drop_last().len() && tasks.drop_last()[i] == task;
                assert(tasks[i] == task);
            },
            None => {
                assert(tasks[tasks.len() - 1] == tasks.last());
            },
        }
    }
}

/// A file deleted while it downloads is not deleted before its download has ended; then
/// it is, whichever way that ended, and no note of it is left.
pub proof fn a_delete_waits_for_the_download(desk: DownloadsView, path: Seq<char>, task: Seq<char>, ending: Ending)
    requires
        path.len() > 0,
        desk.origins.contains_key(whole_name(behind_slash(path))),
        loading(desk.tasks, desk.loads, desk.origins[whole_name(behind_slash(path))].identifier) == Some(task),
        desk.loads.contains_key(task),
    ensures
        delete_pressed(desk, path).acts == desk.acts.push(ActView::Cancel { task }),
        ({
            let after = ended(delete_pressed(desk, path), task, ending);
            &&& after.acts.contains(
                ActView::Delete { path, correlation: number::written(desk.asked as nat) },
            )
            &&& !after.origins.contains_key(desk.loads[task].filename)
            &&& !after.after_cancel.contains_key(task)
        }),
{
    let after = ended(delete_pressed(desk, path), task, ending);
    let last = ActView::Delete { path, correlation: number::written(desk.asked as nat) };
    assert(after.acts[after.acts.len() - 1] == last);
}

/// A press on the button of a download that goes on breaks it off and begins no other.
pub proof fn a_second_press_breaks_the_download_off(desk: DownloadsView, key: Seq<char>)
    requires
        key.len() > 0,
        loading(desk.tasks, desk.loads, key) is Some,
    ensures
        exists|task: Seq<char>|
            #[trigger] desk.tasks.contains(task) && desk.loads[task].key == key && download_pressed(desk, key).acts
                == desk.acts.push(ActView::Cancel { task }),
        download_pressed(desk, key).origins == desk.origins,
{
    a_task_found_is_one(desk.tasks, desk.loads, key);
    let task = loading(desk.tasks, desk.loads, key)->0;
    assert(desk.tasks.contains(task) && desk.loads[task].key == key && download_pressed(desk, key).acts
        == desk.acts.push(ActView::Cancel { task }));
}

/// A press on a file that is not on its way writes down where it comes from, and then
/// fetches it by its key into the folder of downloads, under its own name.
pub proof fn a_press_notes_and_fetches(desk: DownloadsView, key: Seq<char>)
    requires
        key.len() > 0,
        loading(desk.tasks, desk.loads, key) is None,
    ensures
        ({
            let after = download_pressed(desk, key);
            let file = row::leaf(key);
            &&& after.acts.len() == desk.acts.len() + 2
            &&& after.acts.last() == (ActView::Fetch { identifier: key, destination: "downloads/"@ + file })
            &&& after.acts[desk.acts.len() as int] matches ActView::WriteNote { path, identifier, total, correlation } && {
                &&& path == "downloads/"@ + file + ".origin"@
                &&& identifier == key
                &&& desk.origins.contains_key(file) ==> total == desk.origins[file].total
                &&& !desk.origins.contains_key(file) ==> total is None
                &&& after.writes.contains_key(correlation) && after.writes[correlation] == file
            }
            &&& after.origins.contains_key(file) && after.origins[file].identifier == key
            &&& after.loads == desk.loads
        }),
{
}

/// A press on nothing does nothing.
pub proof fn a_press_on_nothing_does_nothing(desk: DownloadsView)
    ensures
        download_pressed(desk, Seq::empty()) == desk,
        delete_pressed(desk, Seq::empty()) == desk,
{
}

/// A task loads a key where it is the first of the tasks that does.
pub proof fn a_key_is_loaded_by_its_first_task(tasks: Seq<Seq<char>>, loads: Map<Seq<char>, LoadView>, key: Seq<char>, at: int)
    requires
        0 <= at <= tasks.len(),
        forall|j: int| 0 <= j < at ==> loads[#[trigger] tasks[j]].key != key,
        at < tasks.len() ==> loads[tasks[at]].key == key,
    ensures
        at < tasks.len() ==> loading(tasks, loads, key) == Some(tasks[at]),
        at == tasks.len() ==> loading(tasks, loads, key) is None,
    decreases tasks.len(),
{
    if tasks.len() > 0 {
        let front = tasks.drop_last();
        if at < tasks.len() - 1 {
            assert forall|j: int| 0 <= j < at implies loads[#[trigger] front[j]].key != key by {
                assert(front[j] == tasks[j]);
            }
            a_key_is_loaded_by_its_first_task(front, loads, key, at);
        } else {
            assert forall|j: int| 0 <= j < front.len() implies loads[#[trigger] front[j]].key != key by {
                assert(front[j] == tasks[j]);
            }
            a_key_is_loaded_by_its_first_task(front, loads, key, front.len() as int);
            if at == tasks.len() {
                assert(loads[tasks[tasks.len() - 1]].key != key);
            }
        }
    }
}

/// A download that begins goes on from what there is of its file, and knows how much there
/// is to come where that was written down.
pub proof fn a_download_goes_on_from_what_is_here(desk: DownloadsView, task: Seq<char>, identifier: Seq<char>, at: int)
    ensures
        ({
            let after = started(desk, task, identifier);
            let file = row::leaf(identifier);
            &&& after.loads.contains_key(task)
            &&& after.loads[task].key == identifier
            &&& after.loads[task].filename == file
            &&& after.loads[task].total == total_of(desk.origins, file)
            &&& 0 <= at < desk.files.len() && desk.files[at].name == file && (forall|j: int|
                0 <= j < at ==> (#[trigger] desk.files[j]).name != file) ==> {
                &&& desk.files[at].is_partial ==> after.loads[task].done == desk.files[at].size
                &&& !desk.files[at].is_partial ==> after.loads[task].done == 0
            }
            &&& (forall|j: int| 0 <= j < desk.files.len() ==> (#[trigger] desk.files[j]).name != file)
                ==> after.loads[task].done == 0
            &&& after.acts == desk.acts
            &&& after.status == "Starting download: "@ + file
        }),
{
    let file = row::leaf(identifier);
    if 0 <= at < desk.files.len() && desk.files[at].name == file && (forall|j: int|
        0 <= j < at ==> (#[trigger] desk.files[j]).name != file) {
        the_file_is_found(desk.files, file, at);
    }
    if forall|j: int| 0 <= j < desk.files.len() ==> (#[trigger] desk.files[j]).name != file {
        the_file_is_found(desk.files, file, desk.files.len() as int);
    }
}

proof fn the_file_is_found(files: Seq<FileView>, name: Seq<char>, at: int)
    requires
        0 <= at <= files.len(),
        forall|j: int| 0 <= j < at ==> (#[trigger] files[j]).name != name,
        at < files.len() ==> files[at].name == name,
    ensures
        at < files.len() ==> begun(files, name) == if files[at].is_partial { files[at].size } else { 0 },
        at == files.len() ==> begun(files, name) == 0,
    decreases files.len(),
{
    if files.len() > 0 && at > 0 {
        assert(files[0].name != name);
        assert forall|j: int| 0 <= j < at - 1 implies (#[trigger] files.drop_first()[j]).name != name by {
            assert(files.drop_first()[j] == files[j + 1]);
        }
        the_file_is_found(files.drop_first(), name, at - 1);
    }
}

/// What is known of the whole of a file is what its note says, and nothing without a note.
pub proof fn the_note_knows_the_whole(origins: Map<Seq<char>, OriginView>, file: Seq<char>)
    ensures
        !origins.contains_key(file) ==> total_of(origins, file) == 0,
        origins.contains_key(file) && origins[file].total is None ==> total_of(origins, file) == 0,
        origins.contains_key(file) ==> (origins[file].total matches Some(total) ==> total_of(origins, file) == total),
{
}

/// A word of a download is taken down; a whole that the note did not know is written into it.
pub proof fn a_word_of_a_download_is_taken_down(desk: DownloadsView, task: Seq<char>, done: u64, total: u64)
    ensures
        !desk.loads.contains_key(task) ==> progressed(desk, task, done, total) == desk,
        desk.loads.contains_key(task) ==> {
            let after = progressed(desk, task, done, total);
            let load = desk.loads[task];
            &&& after.loads[task].done == done && after.loads[task].total == total
            &&& after.loads[task].key == load.key && after.loads[task].filename == load.filename
            &&& total == 0 || total_of(desk.origins, load.filename) == total ==> after.acts == desk.acts && after.origins
                == desk.origins
            &&& total > 0 && total_of(desk.origins, load.filename) != total ==> {
                &&& after.origins[load.filename] == (OriginView { identifier: load.key, total: Some(total) })
                &&& after.acts.len() == desk.acts.len() + 1
                &&& after.acts.last() is WriteNote
                &&& total_of(after.origins, load.filename) == total
            }
        },
{
}

/// A download that ends is gone from the tasks. One that is to be deleted is deleted, with
/// its note; of the others it is said how they ended, and the folder is listed anew.
pub proof fn a_download_ends_as_it_ended(desk: DownloadsView, task: Seq<char>, ending: Ending)
    ensures
        !desk.loads.contains_key(task) ==> ended(desk, task, ending) == desk,
        desk.loads.contains_key(task) ==> {
            let after = ended(desk, task, ending);
            let file = desk.loads[task].filename;
            &&& !after.loads.contains_key(task)
            &&& desk.after_cancel.contains_key(task) ==> {
                &&& after.acts.last() matches ActView::Delete { path, correlation } && path == desk.after_cancel[task]
                &&& !after.origins.contains_key(file)
                &&& after.status == "Deleted: "@ + file
            }
            &&& !desk.after_cancel.contains_key(task) ==> {
                &&& after.acts == desk.acts.push(ActView::List)
                &&& after.origins == desk.origins
                &&& ending is Success ==> after.status == "Downloaded: "@ + file && after.error == desk.error
                &&& ending is Cancelled ==> after.status == "Paused: "@ + file && after.error == desk.error
                &&& ending matches Ending::Failed(error) ==> after.error == Some("Download failed: "@ + error@)
                    && after.status == desk.status
            }
        },
{
}

/// A file is deleted with its note, the note first and unasked, and the file under a mark.
pub proof fn a_file_is_deleted_with_its_note(desk: DownloadsView, path: Seq<char>, file: Seq<char>)
    ensures
        ({
            let after = deleted(desk, path, file);
            let mark = number::written(desk.asked as nat);
            &&& after.acts.len() == desk.acts.len() + 2
            &&& after.acts[desk.acts.len() as int] == (ActView::Delete {
                path: "downloads/"@ + file + ".origin"@,
                correlation: Seq::empty(),
            })
            &&& after.acts.last() == (ActView::Delete { path, correlation: mark })
            &&& after.deletes.contains_key(mark) && after.deletes[mark] == path
            &&& !after.origins.contains_key(file)
        }),
{
}

/// An answer to a deletion lists the folder anew; a refusal is said with its reason, and an
/// answer to no question is not heard.
pub proof fn an_answer_to_a_deletion(desk: DownloadsView, mark: Seq<char>, error: Seq<char>)
    ensures
        !desk.deletes.contains_key(mark) ==> delete_told(desk, mark, error) == desk,
        desk.deletes.contains_key(mark) ==> {
            let after = delete_told(desk, mark, error);
            &&& !after.deletes.contains_key(mark)
            &&& after.acts == desk.acts.push(ActView::List)
            &&& error.len() == 0 ==> after.error == desk.error
            &&& error.len() > 0 ==> after.error == Some("Failed to delete "@ + desk.deletes[mark] + ": "@ + error)
        },
{
}

/// A note is believed only where this provider wrote it, and of the file it was read for.
pub proof fn only_an_own_note_is_believed(desk: DownloadsView, mark: Seq<char>, note: Option<Note>)
    ensures
        !desk.reads.contains_key(mark) ==> note_read(desk, mark, note) == desk,
        desk.reads.contains_key(mark) ==> {
            let after = note_read(desk, mark, note);
            &&& !after.reads.contains_key(mark)
            &&& note is None ==> after.origins == desk.origins
            &&& note matches Some(note) ==> {
                &&& note.provider@ != "data-provider"@ ==> after.origins == desk.origins
                &&& note.provider@ == "data-provider"@ ==> after.origins.contains_key(desk.reads[mark])
                    && after.origins[desk.reads[mark]].identifier == note.origin.identifier@
                    && after.origins[desk.reads[mark]].total == note.origin.total
            }
            &&& after.acts == desk.acts
        },
{
}

/// A file lies in the folder of downloads, with its note beside it; a part of a file is
/// called after the file.
pub proof fn a_file_lies_under_its_name(folder: Seq<char>, name: Seq<char>)
    requires
        forall|i: int| 0 <= i < name.len() ==> name[i] != '/',
    ensures
        path_of(name) == "downloads/"@ + name,
        note_of(name) == path_of(name) + ".origin"@,
        behind_slash(folder.push('/') + name) == name,
        whole_name(name + ".part"@) == name,
        !text::ends_in(name, ".part"@) ==> whole_name(name) == name,
{
    reveal_strlit(".part");
    assert(".part"@.len() == 5);
    let part = name + ".part"@;
    assert(part.subrange(part.len() - 5, part.len() as int) =~= ".part"@);
    assert(part.take(part.len() - 5) =~= name);
    the_slash_is_before_the_name(folder.push('/'), name);
    let whole = folder.push('/') + name;
    assert(whole.skip(folder.len() as int + 1) =~= name);
}

proof fn the_slash_is_before_the_name(path: Seq<char>, name: Seq<char>)
    requires
        path.len() > 0,
        path.last() == '/',
        forall|i: int| 0 <= i < name.len() ==> name[i] != '/',
    ensures
        text::last_index(path + name, '/') == path.len() - 1,
    decreases name.len(),
{
    if name.len() == 0 {
        assert(path + name =~= path);
    } else {
        assert((path + name).drop_last() =~= path + name.drop_last());
        the_slash_is_before_the_name(path, name.drop_last());
    }
}

} // verus!
