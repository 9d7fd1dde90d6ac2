//! The list of files of a browser that keeps its downloads by path.

use vstd::prelude::*;
use crate::components::file_list::{self, Button, Press, Sign, Tone};
use crate::components::task_manager::manager::{self, TaskInfo, TaskManager};

verus! {

broadcast use vstd::string::group_string_axioms;

/// A record of the list.
pub struct BrowserItem {
    pub name: String,
    /// The key on the other side; empty when it is not known.
    pub s3_key: String,
    /// Where it lies on disk.
    pub local_path: Option<String>,
    /// Only a part of it lies there.
    pub is_partial: bool,
    pub size: u64,
    pub is_folder: bool,
}

/// The methods that the buttons of a record call; an action without a method cannot be
/// done on this screen. What goes with a call is the key, or the path to look at or to
/// delete.
#[derive(Clone, Copy)]
pub struct ItemActions<'a> {
    pub browse: Option<&'a str>,
    pub view: Option<&'a str>,
    pub download: Option<&'a str>,
    pub delete: Option<&'a str>,
}

impl<'a> Default for ItemActions<'a> {
    fn default() -> (actions: ItemActions<'a>)
        ensures
            actions == (ItemActions { browse: None, view: None, download: None, delete: None }),
    {
        ItemActions { browse: None, view: None, download: None, delete: None }
    }
}

/// How far a download has come: with the percent when the whole is known, and else only
/// by its bytes.
pub open spec fn progress_said(task: TaskInfo, percent: Seq<char>) -> Seq<char> {
    if task.total_bytes > 0 {
        file_list::bytes_said(task.bytes_downloaded) + " / "@ + file_list::bytes_said(task.total_bytes) + " ("@
            + percent + "%)"@
    } else if task.bytes_downloaded > 0 {
        file_list::bytes_said(task.bytes_downloaded)
    } else {
        "Downloading..."@
    }
}

pub fn progress_text(task: &TaskInfo, percent: &str) -> (said: String)
    ensures
        said@ == progress_said(*task, percent@),
{
    if task.total_bytes > 0 {
        let mut said: String = file_list::format_bytes(task.bytes_downloaded);
        said.append(" / ");
        said.append(&file_list::format_bytes(task.total_bytes));
        said.append(" (");
        said.append(percent);
        said.append("%)");
        said
    } else if task.bytes_downloaded > 0 {
        file_list::format_bytes(task.bytes_downloaded)
    } else {
        "Downloading...".to_owned()
    }
}

/// A record as it is drawn.
pub struct Drawn {
    pub icon: char,
    pub title: String,
    /// What a press on the name does; without it the name is no button.
    pub press: Option<Press>,
    pub sign: Option<Sign>,
    pub words: Vec<String>,
    pub buttons: Vec<Button>,
}

/// What a press on the name does: a folder is entered, and only what is downloaded to
/// the end is looked at.
pub open spec fn card_call(item: BrowserItem, actions: ItemActions<'_>) -> Option<(Seq<char>, Seq<char>)> {
    if item.is_folder {
        file_list::call_of(actions.browse, item.s3_key@)
    } else {
        match item.local_path {
            Some(path) => if item.is_partial { None } else { file_list::call_of(actions.view, path@) },
            None => None,
        }
    }
}

pub open spec fn sign_of(item: BrowserItem, loading: bool) -> Option<Sign> {
    if loading {
        Some(Sign { glyph: '\u{f254}', warns: false })
    } else if item.local_path is None {
        None
    } else if item.is_partial {
        Some(Sign { glyph: '\u{f071}', warns: true })
    } else {
        Some(Sign { glyph: '\u{f00c}', warns: false })
    }
}

pub open spec fn words_of(item: BrowserItem, active: Option<&TaskInfo>, percent: Seq<char>) -> Seq<Seq<char>> {
    match active {
        Some(task) => seq![progress_said(*task, percent)],
        None => if item.local_path is None {
            Seq::empty()
        } else if item.is_partial {
            seq!["Incomplete"@, file_list::bytes_said(item.size)]
        } else {
            seq![file_list::bytes_said(item.size)]
        },
    }
}

/// A button, where there is a method.
pub open spec fn any_button(glyph: char, tone: Tone, method: Option<&str>, value: Seq<char>) -> Seq<file_list::ButtonView> {
    match method {
        Some(method) => seq![file_list::ButtonView { glyph, tone, method: method@, value }],
        None => Seq::empty(),
    }
}

/// The buttons of a record.
pub open spec fn buttons_of(item: BrowserItem, loading: bool, actions: ItemActions<'_>) -> Seq<file_list::ButtonView> {
    let again = file_list::button_of('\u{f021}', Tone::Reload, actions.download, item.s3_key@);
    match item.local_path {
        Some(path) => {
            let delete = any_button('\u{f1f8}', Tone::Danger, actions.delete, path@);
            if loading {
                any_button('\u{f04c}', Tone::Warning, actions.download, item.s3_key@) + delete
            } else if item.is_partial {
                again + delete
            } else {
                any_button('\u{f06e}', Tone::Primary, actions.view, path@) + again + delete
            }
        },
        None => if loading {
            any_button('\u{f04c}', Tone::Warning, actions.download, item.s3_key@)
        } else if item.is_folder {
            Seq::empty()
        } else {
            any_button('\u{f019}', Tone::Primary, actions.download, item.s3_key@)
        },
    }
}

/// Whether this is a record as it is drawn, with the download of it that goes on.
pub open spec fn is_drawn(
    drawn: Drawn,
    item: BrowserItem,
    active: Option<&TaskInfo>,
    actions: ItemActions<'_>,
    percent: Seq<char>,
) -> bool {
    &&& drawn.icon == if item.is_folder { '\u{f07b}' } else { '\u{f016}' }
    &&& drawn.title@ == item.name@
    &&& file_list::pressed(drawn.press) == card_call(item, actions)
    &&& drawn.sign == sign_of(item, active is Some)
    &&& crate::text::texts(drawn.words@) == words_of(item, active, percent)
    &&& file_list::buttons_seen(drawn.buttons@) == buttons_of(item, active is Some, actions)
}

/// A record as it is drawn. `active` is the download of it that goes on, and `percent`
/// what that has done, in words.
pub fn render_item(
    item: &BrowserItem,
    active: Option<&TaskInfo>,
    actions: ItemActions<'_>,
    percent: &str,
) -> (drawn: Drawn)
    ensures
        is_drawn(drawn, *item, active, actions, percent@),
{
    let press: Option<Press> = if item.is_folder {
        file_list::call(actions.browse, &item.s3_key)
    } else {
        match &item.local_path {
            Some(path) => if item.is_partial { None } else { file_list::call(actions.view, path) },
            None => None,
        }
    };
    let mut words: Vec<String> = Vec::new();
    let mut buttons: Vec<Button> = Vec::new();
    assert(file_list::buttons_seen(buttons@) =~= Seq::empty());
    let sign: Option<Sign> = match active {
        Some(task) => {
            words.push(progress_text(task, percent));
            file_list::put_any(&mut buttons, '\u{f04c}', Tone::Warning, actions.download, &item.s3_key);
            match &item.local_path {
                Some(path) => {
                    file_list::put_any(&mut buttons, '\u{f1f8}', Tone::Danger, actions.delete, path);
                },
                None => {},
            }
            Some(Sign { glyph: '\u{f254}', warns: false })
        },
        None => match &item.local_path {
            Some(path) => {
                if item.is_partial {
                    words.push("Incomplete".to_owned());
                } else {
                    file_list::put_any(&mut buttons, '\u{f06e}', Tone::Primary, actions.view, path);
                }
                words.push(file_list::format_bytes(item.size));
                file_list::put(&mut buttons, '\u{f021}', Tone::Reload, actions.download, &item.s3_key);
                file_list::put_any(&mut buttons, '\u{f1f8}', Tone::Danger, actions.delete, path);
                if item.is_partial {
                    Some(Sign { glyph: '\u{f071}', warns: true })
                } else {
                    Some(Sign { glyph: '\u{f00c}', warns: false })
                }
            },
            None => {
                if !item.is_folder {
                    file_list::put_any(&mut buttons, '\u{f019}', Tone::Primary, actions.download, &item.s3_key);
                }
                None
            },
        },
    };
    assert(file_list::buttons_seen(buttons@) =~= buttons_of(*item, active is Some, actions));
    assert(crate::text::texts(words@) =~= words_of(*item, active, percent@));
    let icon: char = if item.is_folder { '\u{f07b}' } else { '\u{f016}' };
    Drawn { icon, title: item.name.clone(), press, sign, words, buttons }
}

/// The download of a record that goes on.
pub open spec fn loading_of(tasks: TaskManager, item: BrowserItem) -> Option<&'static TaskInfo> {
    let names = manager::picked(tasks.listed(), tasks@, manager::still_loads(item.s3_key@));
    if names.len() > 0 { Some(&tasks@[names[0]]) } else { None }
}

/// Records as they are drawn, each with its own download. `percents` says of every one
/// what its download has done.
pub fn render_list(
    items: &Vec<BrowserItem>,
    tasks: &TaskManager,
    actions: ItemActions<'_>,
    percents: &Vec<String>,
) -> (drawn: Vec<Drawn>)
    requires
        percents@.len() == items@.len(),
    ensures
        drawn@.len() == items@.len(),
        forall|i: int|
            0 <= i < items@.len() ==> is_drawn(
                #[trigger] drawn@[i],
                items@[i],
                loading_of(*tasks, items@[i]),
                actions,
                percents@[i]@,
            ),
{
    let mut drawn: Vec<Drawn> = Vec::new();
    let mut i: usize = 0;
    while i < items.len()
        invariant
            i <= items@.len(),
            percents@.len() == items@.len(),
            drawn@.len() == i,
            forall|j: int|
                0 <= j < i ==> is_drawn(
                    #[trigger] drawn@[j],
                    items@[j],
                    loading_of(*tasks, items@[j]),
                    actions,
                    percents@[j]@,
                ),
        decreases items@.len() - i,
    {
        let active: Option<&TaskInfo> = tasks.active_download(&items[i].s3_key);
        assert(active == loading_of(*tasks, items@[i as int]));
        drawn.push(render_item(&items[i], active, actions, &percents[i]));
        i += 1;
    }
    drawn
}

/// A list, or what is said when it is empty.
pub enum Listed {
    Items(Vec<Drawn>),
    Message(String),
}

pub fn items_or_message(
    items: &Vec<BrowserItem>,
    tasks: &TaskManager,
    actions: ItemActions<'_>,
    percents: &Vec<String>,
    empty_message: &str,
) -> (listed: Listed)
    requires
        percents@.len() == items@.len(),
    ensures
        match listed {
            Listed::Items(drawn) => items@.len() > 0 && drawn@.len() == items@.len() && forall|i: int|
                0 <= i < items@.len() ==> is_drawn(
                    #[trigger] drawn@[i],
                    items@[i],
                    loading_of(*tasks, items@[i]),
                    actions,
                    percents@[i]@,
                ),
            Listed::Message(said) => items@.len() == 0 && said@ == empty_message@,
        },
{
    if items.len() == 0 {
        Listed::Message(empty_message.to_owned())
    } else {
        Listed::Items(render_list(items, tasks, actions, percents))
    }
}

// -- Laws --

/// A press on a card enters a folder by its key and opens a whole file where it lies; a part
/// of a file and a file that is not here are not opened.
pub proof fn a_card_opens_what_is_whole(item: BrowserItem, actions: ItemActions<'_>)
    ensures
        item.is_folder ==> (actions.browse matches Some(method) ==> card_call(item, actions) == Some(
            (method@, item.s3_key@),
        )),
        !item.is_folder && item.local_path is None ==> card_call(item, actions) is None,
        !item.is_folder && item.is_partial ==> card_call(item, actions) is None,
        !item.is_folder && !item.is_partial ==> (item.local_path matches Some(path) ==> (actions.view matches Some(method)
            ==> card_call(item, actions) == Some((method@, path@)))),
{
}

/// A record on its way runs, a part of a file warns, a whole file is ticked, and a file that
/// is not here has no sign.
pub proof fn a_sign_tells_what_is_here(item: BrowserItem, loading: bool)
    ensures
        loading ==> sign_of(item, loading) == Some(Sign { glyph: '\u{f254}', warns: false }),
        !loading && item.local_path is None ==> sign_of(item, loading) is None,
        !loading && item.local_path is Some && item.is_partial ==> sign_of(item, loading) == Some(
            Sign { glyph: '\u{f071}', warns: true },
        ),
        !loading && item.local_path is Some && !item.is_partial ==> sign_of(item, loading) == Some(
            Sign { glyph: '\u{f00c}', warns: false },
        ),
{
}

/// What lies on disk is deleted where it lies: that is its last button, and the only
/// dangerous one; what does not lie there is not deleted.
pub proof fn what_lies_on_disk_is_deleted_there(item: BrowserItem, loading: bool, actions: ItemActions<'_>)
    ensures
        item.local_path matches Some(path) ==> (actions.delete matches Some(method) ==> {
            let buttons = buttons_of(item, loading, actions);
            &&& buttons.len() > 0
            &&& buttons.last().method == method@
            &&& buttons.last().value == path@
            &&& buttons.last().tone is Danger
        }),
        item.local_path is None ==> forall|i: int|
            0 <= i < buttons_of(item, loading, actions).len() ==> !((#[trigger] buttons_of(item, loading, actions)[i]).tone
                is Danger),
{
    let buttons = buttons_of(item, loading, actions);
    if let Some(path) = item.local_path {
        if let Some(method) = actions.delete {
            let delete = any_button('\u{f1f8}', Tone::Danger, actions.delete, path@);
            assert(delete.len() == 1);
            assert(buttons.last() == delete[0]);
        }
    }
}

/// A record is fetched by its key; the button stops it while it is on its way, and a folder
/// that is not here is not fetched.
pub proof fn a_record_is_fetched_by_its_key(item: BrowserItem, loading: bool, actions: ItemActions<'_>, method: &str)
    requires
        actions.download == Some(method),
        item.s3_key@.len() > 0,
    ensures
        loading ==> file_list::has_button(buttons_of(item, loading, actions), method@, item.s3_key@, Tone::Warning),
        !loading && item.local_path is Some ==> file_list::has_button(
            buttons_of(item, loading, actions),
            method@,
            item.s3_key@,
            Tone::Reload,
        ),
        !loading && item.local_path is None && !item.is_folder ==> file_list::has_button(
            buttons_of(item, loading, actions),
            method@,
            item.s3_key@,
            Tone::Primary,
        ),
        !loading && item.local_path is None && item.is_folder ==> buttons_of(item, loading, actions).len() == 0,
{
    let buttons = buttons_of(item, loading, actions);
    if loading {
        assert(buttons[0].method == method@);
    } else if item.local_path is None {
        if !item.is_folder {
            assert(buttons[0].method == method@);
        }
    } else if item.is_partial {
        assert(buttons[0].method == method@);
    } else if let Some(path) = item.local_path {
        let look = any_button('\u{f06e}', Tone::Primary, actions.view, path@);
        assert(buttons[look.len() as int].method == method@);
    }
}

/// Of a task that goes on it is said how far it has come; of what lies on disk its size.
pub proof fn words_say_how_far_it_has_come(item: BrowserItem, task: TaskInfo, percent: Seq<char>)
    ensures
        words_of(item, Some(&task), percent).len() == 1,
        words_of(item, Some(&task), percent)[0] == progress_said(task, percent),
        task.total_bytes > 0 ==> progress_said(task, percent) == file_list::bytes_said(task.bytes_downloaded) + " / "@
            + file_list::bytes_said(task.total_bytes) + " ("@ + percent + "%)"@,
        task.total_bytes == 0 && task.bytes_downloaded > 0 ==> progress_said(task, percent) == file_list::bytes_said(
            task.bytes_downloaded,
        ),
        task.total_bytes == 0 && task.bytes_downloaded == 0 ==> progress_said(task, percent) == "Downloading..."@,
        item.local_path is None ==> words_of(item, None, percent).len() == 0,
        item.local_path is Some && !item.is_partial ==> words_of(item, None, percent) == seq![
            file_list::bytes_said(item.size),
        ],
        item.local_path is Some && item.is_partial ==> words_of(item, None, percent) == seq![
            "Incomplete"@,
            file_list::bytes_said(item.size),
        ],
{
}

/// A record is on its way where a task that goes on loads its key, and it is told by the
/// first such task.
pub proof fn a_record_is_told_by_its_task(tasks: TaskManager, item: BrowserItem)
    ensures
        ({
            let names = manager::picked(tasks.listed(), tasks@, manager::still_loads(item.s3_key@));
            &&& loading_of(tasks, item) is Some <==> names.len() > 0
            &&& loading_of(tasks, item) matches Some(task) ==> *task == tasks@[names[0]]
        }),
{
}

} // verus!
