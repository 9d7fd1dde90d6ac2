//! The tasks that go on in the background, and how far they have come.

use vstd::prelude::*;
use crate::keyed::Keyed;
use crate::text;

verus! {

broadcast use vstd::string::group_string_axioms;

/// What a task does.
pub enum TaskKind {
    Download { task_id: String, s3_key: String, filename: String },
    Browse { path: String },
    ImageLoad { path: String, filename: String },
    Search { query: String },
}

impl Clone for TaskKind {
    fn clone(&self) -> (copy: TaskKind)
        ensures
            copy == *self,
    {
        match self {
            TaskKind::Download { task_id, s3_key, filename } => TaskKind::Download {
                task_id: task_id.clone(),
                s3_key: s3_key.clone(),
                filename: filename.clone(),
            },
            TaskKind::Browse { path } => TaskKind::Browse { path: path.clone() },
            TaskKind::ImageLoad { path, filename } => TaskKind::ImageLoad {
                path: path.clone(),
                filename: filename.clone(),
            },
            TaskKind::Search { query } => TaskKind::Search { query: query.clone() },
        }
    }
}

impl TaskKind {
    pub open spec fn title_spec(self) -> Seq<char> {
        match self {
            TaskKind::Download { filename, .. } => "Downloading "@ + filename@,
            TaskKind::Browse { path } => "Browsing /"@ + path@,
            TaskKind::ImageLoad { filename, .. } => "Loading "@ + filename@,
            TaskKind::Search { query } => "Search: "@ + query@,
        }
    }

    pub fn title(&self) -> (title: String)
        ensures
            title@ == self.title_spec(),
    {
        let (before, what): (&'static str, &String) = match self {
            TaskKind::Download { filename, .. } => ("Downloading ", filename),
            TaskKind::Browse { path } => ("Browsing /", path),
            TaskKind::ImageLoad { filename, .. } => ("Loading ", filename),
            TaskKind::Search { query } => ("Search: ", query),
        };
        let mut title: String = before.to_owned();
        title.append(what);
        title
    }

    pub open spec fn loads(self, key: Seq<char>) -> bool {
        self matches TaskKind::Download { s3_key, .. } && s3_key@ == key
    }

    /// Whether the task downloads what lies under a key.
    pub fn matches_key(&self, key: &str) -> (yes: bool)
        ensures
            yes == self.loads(key@),
    {
        match self {
            TaskKind::Download { s3_key, .. } => text::same(s3_key, key),
            _ => false,
        }
    }
}

/// A task.
pub struct TaskInfo {
    pub id: String,
    pub kind: TaskKind,
    /// The part that is done, between 0 and 1: the bits of a single-precision number.
    pub progress: u32,
    /// 0 of 0 until the first word of a download, and for tasks that count no bytes.
    pub bytes_downloaded: u64,
    /// 0 when the server did not say how much there is.
    pub total_bytes: u64,
    pub is_finished: bool,
    pub error: Option<String>,
}

/// The bits of one.
pub const ONE: u32 = 0x3f80_0000;

/// A part brought between 0 and 1, by its bits; what is no number stays.
pub open spec fn clamped(bits: u32) -> u32 {
    if 0x8000_0000 < bits <= 0xff80_0000 {
        0
    } else if ONE < bits <= 0x7f80_0000 {
        ONE
    } else {
        bits
    }
}

fn clamp(bits: u32) -> (part: u32)
    ensures
        part == clamped(bits),
{
    if 0x8000_0000 < bits && bits <= 0xff80_0000 {
        0
    } else if ONE < bits && bits <= 0x7f80_0000 {
        ONE
    } else {
        bits
    }
}

/// The tasks that a test picks, in the order in which they came.
pub open spec fn picked(
    names: Seq<Seq<char>>,
    tasks: Map<Seq<char>, TaskInfo>,
    pick: spec_fn(TaskInfo) -> bool,
) -> Seq<Seq<char>>
    decreases names.len(),
{
    if names.len() == 0 {
        Seq::empty()
    } else {
        let rest = picked(names.drop_last(), tasks, pick);
        if pick(tasks[names.last()]) { rest.push(names.last()) } else { rest }
    }
}

/// A task that goes on.
pub open spec fn going() -> spec_fn(TaskInfo) -> bool {
    |task: TaskInfo| !task.is_finished
}

/// A task that ended well.
pub open spec fn done_well() -> spec_fn(TaskInfo) -> bool {
    |task: TaskInfo| task.is_finished && task.error is None
}

/// A task that still downloads what lies under a key.
pub open spec fn still_loads(key: Seq<char>) -> spec_fn(TaskInfo) -> bool {
    |task: TaskInfo| !task.is_finished && task.kind.loads(key)
}

/// The tasks of a list.
pub open spec fn told(tasks: Seq<&TaskInfo>) -> Seq<TaskInfo> {
    tasks.map_values(|task: &TaskInfo| *task)
}

/// The tasks of the background.
pub struct TaskManager {
    tasks: Keyed<TaskInfo>,
}

impl View for TaskManager {
    type V = Map<Seq<char>, TaskInfo>;

    closed spec fn view(&self) -> Map<Seq<char>, TaskInfo> {
        self.tasks@
    }
}

impl Default for TaskManager {
    fn default() -> (manager: TaskManager)
        ensures
            manager@ == Map::<Seq<char>, TaskInfo>::empty(),
            manager.listed() == Seq::<Seq<char>>::empty(),
    {
        TaskManager { tasks: Keyed::new() }
    }
}

impl TaskManager {
    /// The names of the tasks, in the order in which they came.
    pub closed spec fn listed(&self) -> Seq<Seq<char>> {
        self.tasks.listed()
    }

    /// The tasks of a list of names.
    pub open spec fn among(&self, names: Seq<Seq<char>>) -> Seq<TaskInfo> {
        names.map_values(|name: Seq<char>| self@[name])
    }

    /// Starts a task under a name, most often that of an outside service.
    pub fn spawn(&mut self, id: String, kind: TaskKind) -> (name: String)
        ensures
            name@ == id@,
            final(self)@ == old(self)@.insert(
                id@,
                (TaskInfo {
                    id,
                    kind,
                    progress: 0,
                    bytes_downloaded: 0,
                    total_bytes: 0,
                    is_finished: false,
                    error: None,
                }),
            ),
            final(self).listed() == if old(self)@.contains_key(id@) {
                old(self).listed()
            } else {
                old(self).listed().push(id@)
            },
    {
        let info: TaskInfo = TaskInfo {
            id: id.clone(),
            kind,
            progress: 0,
            bytes_downloaded: 0,
            total_bytes: 0,
            is_finished: false,
            error: None,
        };
        let name: String = id.clone();
        self.tasks.insert(id, info);
        name
    }

    /// Says how far a download has come: the part and the bytes together, so that they
    /// do not part ways.
    pub fn update_download_progress(&mut self, id: &str, progress: u32, bytes_downloaded: u64, total_bytes: u64)
        ensures
            final(self)@ == if old(self)@.contains_key(id@) {
                old(self)@.insert(
                    id@,
                    (TaskInfo {
                        progress: clamped(progress),
                        bytes_downloaded,
                        total_bytes,
                        ..old(self)@[id@]
                    }),
                )
            } else {
                old(self)@
            },
            final(self).listed() == old(self).listed(),
    {
        let changed: Option<TaskInfo> = match self.tasks.get(id) {
            Some(task) => Some(
                TaskInfo {
                    id: task.id.clone(),
                    kind: task.kind.clone(),
                    progress: clamp(progress),
                    bytes_downloaded,
                    total_bytes,
                    is_finished: task.is_finished,
                    error: task.error.clone(),
                },
            ),
            None => None,
        };
        match changed {
            Some(task) => {
                self.tasks.insert(id.to_owned(), task);
            },
            None => {},
        }
    }

    /// Marks a task as finished.
    pub fn finish(&mut self, id: &str)
        ensures
            final(self)@ == if old(self)@.contains_key(id@) {
                old(self)@.insert(id@, (TaskInfo { is_finished: true, progress: ONE, ..old(self)@[id@] }))
            } else {
                old(self)@
            },
            final(self).listed() == old(self).listed(),
    {
        let changed: Option<TaskInfo> = match self.tasks.get(id) {
            Some(task) => Some(
                TaskInfo {
                    id: task.id.clone(),
                    kind: task.kind.clone(),
                    progress: ONE,
                    bytes_downloaded: task.bytes_downloaded,
                    total_bytes: task.total_bytes,
                    is_finished: true,
                    error: task.error.clone(),
                },
            ),
            None => None,
        };
        match changed {
            Some(task) => {
                self.tasks.insert(id.to_owned(), task);
            },
            None => {},
        }
    }

    /// Marks a task as failed.
    pub fn fail(&mut self, id: &str, error: String)
        ensures
            final(self)@ == if old(self)@.contains_key(id@) {
                old(self)@.insert(id@, (TaskInfo { is_finished: true, error: Some(error), ..old(self)@[id@] }))
            } else {
                old(self)@
            },
            final(self).listed() == old(self).listed(),
    {
        let changed: Option<TaskInfo> = match self.tasks.get(id) {
            Some(task) => Some(
                TaskInfo {
                    id: task.id.clone(),
                    kind: task.kind.clone(),
                    progress: task.progress,
                    bytes_downloaded: task.bytes_downloaded,
                    total_bytes: task.total_bytes,
                    is_finished: true,
                    error: Some(error),
                },
            ),
            None => None,
        };
        match changed {
            Some(task) => {
                self.tasks.insert(id.to_owned(), task);
            },
            None => {},
        }
    }

    /// Takes a task off the list.
    pub fn remove(&mut self, id: &str)
        ensures
            final(self)@ == old(self)@.remove(id@),
            final(self).listed() == if old(self)@.contains_key(id@) {
                old(self).listed().remove(crate::keyed::place(old(self).listed(), id@))
            } else {
                old(self).listed()
            },
    {
        let _ = self.tasks.remove(id);
    }

    /// The tasks that go on.
    pub fn active(&self) -> (tasks: Vec<&TaskInfo>)
        ensures
            told(tasks@) == self.among(picked(self.listed(), self@, going())),
    {
        let ghost names = self.listed();
        let mut tasks: Vec<&TaskInfo> = Vec::new();
        let mut i: usize = 0;
        assert(told(tasks@) =~= self.among(Seq::empty()));
        while i < self.tasks.len()
            invariant
                i <= names.len(),
                names == self.listed(),
                told(tasks@) == self.among(picked(names.take(i as int), self@, going())),
            decreases names.len() - i,
        {
            assert(names.take(i + 1).drop_last() =~= names.take(i as int));
            let task: &TaskInfo = self.tasks.value_at(i);
            if !task.is_finished {
                let ghost before = tasks@;
                tasks.push(task);
                let ghost front = picked(names.take(i as int), self@, going());
                assert(told(tasks@) =~= told(before).push(*task));
                assert(self.among(front.push(names[i as int])) =~= self.among(front).push(self@[names[i as int]]));
            }
            i += 1;
        }
        assert(names.take(names.len() as int) =~= names);
        tasks
    }

    /// The tasks that ended well.
    pub fn completed(&self) -> (tasks: Vec<&TaskInfo>)
        ensures
            told(tasks@) == self.among(picked(self.listed(), self@, done_well())),
    {
        let ghost names = self.listed();
        let mut tasks: Vec<&TaskInfo> = Vec::new();
        let mut i: usize = 0;
        assert(told(tasks@) =~= self.among(Seq::empty()));
        while i < self.tasks.len()
            invariant
                i <= names.len(),
                names == self.listed(),
                told(tasks@) == self.among(
                    picked(names.take(i as int), self@, done_well()),
                ),
            decreases names.len() - i,
        {
            assert(names.take(i + 1).drop_last() =~= names.take(i as int));
            let task: &TaskInfo = self.tasks.value_at(i);
            if task.is_finished && task.error.is_none() {
                let ghost before = tasks@;
                tasks.push(task);
                let ghost front = picked(names.take(i as int), self@, done_well());
                assert(told(tasks@) =~= told(before).push(*task));
                assert(self.among(front.push(names[i as int])) =~= self.among(front).push(self@[names[i as int]]));
            }
            i += 1;
        }
        assert(names.take(names.len() as int) =~= names);
        tasks
    }

    /// How many tasks go on.
    pub fn active_count(&self) -> (count: usize)
        ensures
            count == picked(self.listed(), self@, going()).len(),
    {
        let tasks: Vec<&TaskInfo> = self.active();
        assert(told(tasks@).len() == tasks@.len());
        tasks.len()
    }

    /// Whether any task goes on.
    pub fn has_active(&self) -> (yes: bool)
        ensures
            yes == (picked(self.listed(), self@, going()).len() > 0),
    {
        self.active_count() > 0
    }

    pub fn get(&self, id: &str) -> (task: Option<&TaskInfo>)
        ensures
            match task {
                Some(task) => self@.contains_key(id@) && *task == self@[id@],
                None => !self@.contains_key(id@),
            },
    {
        self.tasks.get(id)
    }

    pub fn contains(&self, id: &str) -> (yes: bool)
        ensures
            yes == self@.contains_key(id@),
    {
        self.tasks.contains_key(id)
    }

    /// Takes the finished tasks off the list.
    pub fn cleanup_completed(&mut self)
        ensures
            final(self).listed() == picked(old(self).listed(), old(self)@, going()),
            final(self)@ == old(self)@.restrict(picked(old(self).listed(), old(self)@, going()).to_set()),
    {
        let ghost names = self.listed();
        let ghost tasks = self@;
        proof {
            self.tasks.listed_is_the_domain();
        }
        let count: usize = self.tasks.len();
        let mut kept: Keyed<TaskInfo> = Keyed::new();
        let mut i: usize = 0;
        assert(names.skip(0) =~= names);
        assert(kept@ =~= tasks.restrict(picked(names.take(0), tasks, going()).to_set()));
        while i < count
            invariant
                i <= count,
                count == names.len(),
                names.no_duplicates(),
                forall|name: Seq<char>| #[trigger] tasks.contains_key(name) <==> names.contains(name),
                self.tasks.listed() == names.skip(i as int),
                forall|j: int|
                    i <= j < names.len() ==> self.tasks@.contains_key(#[trigger] names[j]) && self.tasks@[names[j]]
                        == tasks[names[j]],
                kept.listed() == picked(names.take(i as int), tasks, going()),
                kept@ == tasks.restrict(picked(names.take(i as int), tasks, going()).to_set()),
            decreases count - i,
        {
            let ghost here = names[i as int];
            let ghost front = picked(names.take(i as int), tasks, going());
            assert(names.take(i + 1).drop_last() =~= names.take(i as int));
            assert(self.tasks.listed()[0] == here);
            proof {
                picked_is_among(names.take(i as int), tasks, going());
                crate::keyed::place_is_first(self.tasks.listed(), here);
                assert(names.contains(here));
                assert(!names.take(i as int).contains(here)) by {
                    if names.take(i as int).contains(here) {
                        let k = choose|k: int| 0 <= k < i && names.take(i as int)[k] == here;
                        assert(names[k] == names[i as int]);
                    }
                }
            }
            let name: String = self.tasks.name_at(0).clone();
            let taken: Option<TaskInfo> = self.tasks.remove(&name);
            assert(names.skip(i as int).remove(0) =~= names.skip(i + 1));
            match taken {
                Some(task) => {
                    if !task.is_finished {
                        kept.insert(name, task);
                        assert(kept@ =~= tasks.restrict(front.push(here).to_set())) by {
                            pushed_is_in(front, here);
                        }
                    }
                },
                None => {},
            }
            i += 1;
        }
        assert(names.take(names.len() as int) =~= names);
        self.tasks = kept;
    }

    /// The first task that still downloads what lies under a key.
    pub fn active_download(&self, key: &str) -> (task: Option<&TaskInfo>)
        ensures
            ({
                let names = picked(self.listed(), self@, still_loads(key@));
                match task {
                    Some(task) => names.len() > 0 && *task == self@[names[0]],
                    None => names.len() == 0,
                }
            }),
    {
        let ghost names = self.listed();
        let mut found: Option<&TaskInfo> = None;
        let mut i: usize = 0;
        while i < self.tasks.len()
            invariant
                i <= names.len(),
                names == self.listed(),
                ({
                    let so_far = picked(names.take(i as int), self@, still_loads(key@));
                    match found {
                        Some(task) => so_far.len() > 0 && *task == self@[so_far[0]],
                        None => so_far.len() == 0,
                    }
                }),
            decreases names.len() - i,
        {
            assert(names.take(i + 1).drop_last() =~= names.take(i as int));
            let task: &TaskInfo = self.tasks.value_at(i);
            if !task.is_finished && task.kind.matches_key(key) && found.is_none() {
                found = Some(task);
            }
            i += 1;
        }
        assert(names.take(names.len() as int) =~= names);
        found
    }
}

proof fn picked_is_among(names: Seq<Seq<char>>, tasks: Map<Seq<char>, TaskInfo>, pick: spec_fn(TaskInfo) -> bool)
    ensures
        forall|name: Seq<char>| picked(names, tasks, pick).contains(name) ==> #[trigger] names.contains(name),
    decreases names.len(),
{
    if names.len() > 0 {
        let front = names.drop_last();
        picked_is_among(front, tasks, pick);
        assert forall|name: Seq<char>| picked(names, tasks, pick).contains(name) implies #[trigger] names.contains(
            name,
        ) by {
            let all = picked(names, tasks, pick);
            let i = choose|i: int| 0 <= i < all.len() && all[i] == name;
            let rest = picked(front, tasks, pick);
            if i < rest.len() {
                assert(rest[i] == name);
                assert(rest.contains(name));
                assert(front.contains(name));
                let k = choose|k: int| 0 <= k < front.len() && front[k] == name;
                assert(names[k] == name);
            } else {
                assert(names[names.len() - 1] == name);
            }
        }
    }
}

proof fn pushed_is_in(names: Seq<Seq<char>>, name: Seq<char>)
    ensures
        forall|other: Seq<char>| #[trigger] names.push(name).contains(other) <==> (names.contains(other) || other == name),
{
    assert forall|other: Seq<char>| #[trigger] names.push(name).contains(other) <==> (names.contains(other) || other
        == name) by {
        if names.contains(other) {
            let i = choose|i: int| 0 <= i < names.len() && names[i] == other;
            assert(names.push(name)[i] == other);
        }
        assert(names.push(name)[names.len() as int] == name);
    }
}

/// A finished task is not active any more, whatever it was.
pub proof fn the_finished_are_not_active(names: Seq<Seq<char>>, tasks: Map<Seq<char>, TaskInfo>, name: Seq<char>)
    requires
        tasks[name].is_finished,
    ensures
        !picked(names, tasks, going()).contains(name),
    decreases names.len(),
{
    if names.len() > 0 {
        the_finished_are_not_active(names.drop_last(), tasks, name);
        if going()(tasks[names.last()]) {
            pushed_is_in(picked(names.drop_last(), tasks, going()), names.last());
        }
    }
}

/// What is picked of the tasks is those that are asked for, in their order.
pub proof fn what_is_picked_was_asked_for(
    names: Seq<Seq<char>>,
    tasks: Map<Seq<char>, TaskInfo>,
    pick: spec_fn(TaskInfo) -> bool,
    name: Seq<char>,
)
    ensures
        picked(Seq::empty(), tasks, pick).len() == 0,
        pick(tasks[name]) ==> picked(names.push(name), tasks, pick) == picked(names, tasks, pick).push(name),
        !pick(tasks[name]) ==> picked(names.push(name), tasks, pick) == picked(names, tasks, pick),
{
    assert(names.push(name).drop_last() =~= names);
}

/// A task goes on until it is finished; it is done well where it finished without an error;
/// and it loads a key while it goes on and is a download of it.
pub proof fn a_task_goes_on_until_it_is_finished(task: TaskInfo, key: Seq<char>)
    ensures
        going()(task) <==> !task.is_finished,
        done_well()(task) <==> task.is_finished && task.error is None,
        still_loads(key)(task) ==> !task.is_finished && task.kind is Download,
        task.kind matches TaskKind::Download { task_id, s3_key, filename } ==> (still_loads(key)(task) <==> !task.is_finished
            && s3_key@ == key),
{
}

/// A task is called by what it does and to what.
pub proof fn a_task_is_called_by_what_it_does(kind: TaskKind)
    ensures
        kind matches TaskKind::Download { task_id, s3_key, filename } ==> kind.title_spec() == "Downloading "@ + filename@,
        kind matches TaskKind::Browse { path } ==> kind.title_spec() == "Browsing /"@ + path@,
        kind matches TaskKind::ImageLoad { path, filename } ==> kind.title_spec() == "Loading "@ + filename@,
        kind matches TaskKind::Search { query } ==> kind.title_spec() == "Search: "@ + query@,
{
}

/// The part that is done lies between nought and one, and what lies there is left as it is.
pub proof fn a_part_lies_between_nought_and_one(bits: u32)
    ensures
        bits <= 0x3f80_0000 ==> clamped(bits) == bits,
        0x3f80_0000 < bits <= 0x7f80_0000 ==> clamped(bits) == 0x3f80_0000,
        0x8000_0000 < bits <= 0xff80_0000 ==> clamped(bits) == 0,
{
}

} // verus!
