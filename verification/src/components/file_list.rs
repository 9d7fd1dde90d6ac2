//! The row of a file and the list of such rows. Nothing is decided here of the state of
//! a file: it comes with the row.

use vstd::prelude::*;
use crate::number;

verus! {

broadcast use vstd::string::group_string_axioms;

// -- Rows --

/// The state of a file.
#[derive(Clone, Copy, PartialEq, Eq, Structural, Debug)]
pub enum FileStatus {
    Folder,
    /// Only the provider has it.
    Remote,
    Downloading { done: u64, total: u64 },
    Paused { done: u64, total: u64 },
    Complete { size: u64 },
}

/// A row of the list.
pub struct FileRow {
    /// The provider's key; empty when it is not known.
    pub identifier: String,
    /// The name of the library's record; empty when there is none.
    pub name: String,
    pub title: String,
    pub status: FileStatus,
}

/// The methods that the buttons of a row call; an action without a method cannot be
/// done on this screen. What goes with a call is the provider's key, or the name of the
/// library's record to look at or to delete what is downloaded.
#[derive(Clone, Copy)]
pub struct ItemActions<'a> {
    pub browse: Option<&'a str>,
    /// Looks at a downloaded file, by the name of its record.
    pub view_local: Option<&'a str>,
    /// Looks at a file that is not downloaded, by its key.
    pub view_remote: Option<&'a str>,
    pub download: Option<&'a str>,
    pub delete: Option<&'a str>,
}

impl<'a> Default for ItemActions<'a> {
    fn default() -> (actions: ItemActions<'a>)
        ensures
            actions == (ItemActions { browse: None, view_local: None, view_remote: None, download: None, delete: None }),
    {
        ItemActions { browse: None, view_local: None, view_remote: None, download: None, delete: None }
    }
}

// -- Sizes --

pub open spec fn latin_unit(unit: nat) -> Seq<char> {
    if unit == 0 {
        "B"@
    } else if unit == 1 {
        "KB"@
    } else if unit == 2 {
        "MB"@
    } else if unit == 3 {
        "GB"@
    } else {
        "TB"@
    }
}

/// «512 B», «12.3 MB»: whole bytes, and one decimal of every larger unit.
pub open spec fn bytes_said(bytes: u64) -> Seq<char> {
    let size = crate::components::format::kept(bytes as nat);
    let unit = crate::components::format::unit_of(size);
    if bytes < 1024 {
        number::written(bytes as nat) + " B"@
    } else {
        let tenths = crate::components::format::nearest(10 * size, crate::components::format::unit_worth(unit));
        number::written(tenths / 10) + "."@ + number::written(tenths % 10) + " "@ + latin_unit(unit)
    }
}

pub fn format_bytes(bytes: u64) -> (said: String)
    ensures
        said@ == bytes_said(bytes),
{
    if bytes < 1024 {
        let mut said: String = number::decimal(bytes as u128);
        said.append(" B");
        return said;
    }
    let size: u128 = crate::components::format::as_double(bytes);
    let unit: u8 = crate::components::format::unit_index(size);
    let worth: u128 = match unit {
        0 => 1,
        1 => 1024,
        2 => 0x10_0000,
        3 => 0x4000_0000,
        _ => 0x100_0000_0000,
    };
    let label: &'static str = match unit {
        0 => "B",
        1 => "KB",
        2 => "MB",
        3 => "GB",
        _ => "TB",
    };
    let tenths: u128 = crate::components::format::round_to(10 * size, worth);
    let mut said: String = number::decimal(tenths / 10);
    said.append(".");
    said.append(&number::decimal(tenths % 10));
    said.append(" ");
    said.append(label);
    said
}

/// What is done out of how much, with the percent where one is given; only what is done
/// when the whole is not known, and no number at all before the first byte.
pub open spec fn amount_said(done: u64, total: u64, percent: Option<Seq<char>>) -> Seq<char> {
    if total == 0 {
        if done == 0 { "Starting..."@ } else { bytes_said(done) }
    } else {
        let head = bytes_said(done) + " / "@ + bytes_said(total);
        match percent {
            Some(percent) => head + " ("@ + percent + "%)"@,
            None => head,
        }
    }
}

/// The words of a percent, where one is given.
pub open spec fn percent_said(percent: Option<&str>) -> Option<Seq<char>> {
    match percent {
        Some(percent) => Some(percent@),
        None => None,
    }
}

pub fn amount_text(done: u64, total: u64, percent: Option<&str>) -> (said: String)
    ensures
        said@ == amount_said(done, total, percent_said(percent)),
{
    if total == 0 {
        return if done == 0 { "Starting...".to_owned() } else { format_bytes(done) };
    }
    let mut said: String = format_bytes(done);
    said.append(" / ");
    said.append(&format_bytes(total));
    match percent {
        Some(percent) => {
            said.append(" (");
            said.append(percent);
            said.append("%)");
        },
        None => {},
    }
    said
}

// -- What is drawn --

/// What a press calls, and what goes with it.
pub struct Press {
    pub method: String,
    pub value: String,
}

/// The colour of a button.
#[derive(Clone, Copy, PartialEq, Eq, Structural, Debug)]
pub enum Tone {
    Primary,
    Warning,
    Reload,
    Danger,
}

/// A button of a row.
pub struct Button {
    pub glyph: char,
    pub tone: Tone,
    pub press: Press,
}

/// What a button says.
pub ghost struct ButtonView {
    pub glyph: char,
    pub tone: Tone,
    pub method: Seq<char>,
    pub value: Seq<char>,
}

impl View for Button {
    type V = ButtonView;

    open spec fn view(&self) -> ButtonView {
        ButtonView { glyph: self.glyph, tone: self.tone, method: self.press.method@, value: self.press.value@ }
    }
}

pub open spec fn buttons_seen(buttons: Seq<Button>) -> Seq<ButtonView> {
    buttons.map_values(|button: Button| button@)
}

/// The sign of a state, and whether it warns.
#[derive(Clone, Copy, PartialEq, Eq, Structural, Debug)]
pub struct Sign {
    pub glyph: char,
    pub warns: bool,
}

/// A row as it is drawn: the card with the name, then the sign, the amount and the
/// buttons, each in a column of its own.
pub struct Item {
    pub icon: char,
    pub title: String,
    /// What a press on the card does; a card without it does nothing.
    pub press: Option<Press>,
    pub sign: Option<Sign>,
    pub amount: String,
    pub buttons: Vec<Button>,
}

/// What a press calls.
pub open spec fn pressed(press: Option<Press>) -> Option<(Seq<char>, Seq<char>)> {
    match press {
        Some(press) => Some((press.method@, press.value@)),
        None => None,
    }
}

/// A call, where there is a method.
pub open spec fn call_of(method: Option<&str>, value: Seq<char>) -> Option<(Seq<char>, Seq<char>)> {
    match method {
        Some(method) => Some((method@, value)),
        None => None,
    }
}

/// A button, where there is a method and what goes with it is known: better not to
/// offer what could only fail.
pub open spec fn button_of(glyph: char, tone: Tone, method: Option<&str>, value: Seq<char>) -> Seq<ButtonView> {
    match method {
        Some(method) => if value.len() > 0 {
            seq![ButtonView { glyph, tone, method: method@, value }]
        } else {
            Seq::empty()
        },
        None => Seq::empty(),
    }
}

/// What a press on the card does: a folder is entered, and only what is downloaded is
/// looked at.
pub open spec fn card_call(row: FileRow, actions: ItemActions<'_>) -> Option<(Seq<char>, Seq<char>)> {
    match row.status {
        FileStatus::Folder => call_of(actions.browse, row.identifier@),
        FileStatus::Complete { .. } => call_of(actions.view_local, row.name@),
        _ => None,
    }
}

pub open spec fn sign_of(status: FileStatus) -> Option<Sign> {
    match status {
        FileStatus::Folder | FileStatus::Remote => None,
        FileStatus::Downloading { .. } => Some(Sign { glyph: '\u{f254}', warns: false }),
        FileStatus::Paused { .. } => Some(Sign { glyph: '\u{f071}', warns: true }),
        FileStatus::Complete { .. } => Some(Sign { glyph: '\u{f00c}', warns: false }),
    }
}

pub open spec fn amount_of(status: FileStatus, percent: Seq<char>) -> Seq<char> {
    match status {
        FileStatus::Folder | FileStatus::Remote => Seq::empty(),
        FileStatus::Downloading { done, total } => amount_said(done, total, Some(percent)),
        FileStatus::Paused { done, total } => amount_said(done, total, None),
        FileStatus::Complete { size } => bytes_said(size),
    }
}

/// The buttons of a row. A download that goes can be paused, one that stands can go on,
/// and what is downloaded can be looked at and fetched anew.
pub open spec fn buttons_of(row: FileRow, actions: ItemActions<'_>) -> Seq<ButtonView> {
    let key = row.identifier@;
    let delete = button_of('\u{f1f8}', Tone::Danger, actions.delete, row.name@);
    match row.status {
        FileStatus::Folder => Seq::empty(),
        FileStatus::Remote => button_of('\u{f06e}', Tone::Primary, actions.view_remote, key) + button_of(
            '\u{f019}',
            Tone::Primary,
            actions.download,
            key,
        ),
        FileStatus::Downloading { .. } => button_of('\u{f04c}', Tone::Warning, actions.download, key) + delete,
        FileStatus::Paused { .. } => button_of('\u{f04b}', Tone::Primary, actions.download, key) + delete,
        FileStatus::Complete { .. } => (match actions.view_local {
            Some(method) => seq![
                ButtonView { glyph: '\u{f06e}', tone: Tone::Primary, method: method@, value: row.name@ },
            ],
            None => Seq::empty(),
        }) + button_of('\u{f021}', Tone::Reload, actions.download, key) + delete,
    }
}

/// Whether this is a row as it is drawn.
pub open spec fn is_item(item: Item, row: FileRow, actions: ItemActions<'_>, percent: Seq<char>) -> bool {
    &&& item.icon == if row.status is Folder { '\u{f07b}' } else { '\u{f016}' }
    &&& item.title@ == row.title@
    &&& pressed(item.press) == card_call(row, actions)
    &&& item.sign == sign_of(row.status)
    &&& item.amount@ == amount_of(row.status, percent)
    &&& buttons_seen(item.buttons@) == buttons_of(row, actions)
}

pub(crate) fn call(method: Option<&str>, value: &str) -> (press: Option<Press>)
    ensures
        pressed(press) == call_of(method, value@),
{
    match method {
        Some(method) => Some(Press { method: method.to_owned(), value: value.to_owned() }),
        None => None,
    }
}

/// Puts a button behind the others, where there is a method.
pub(crate) fn put_any(buttons: &mut Vec<Button>, glyph: char, tone: Tone, method: Option<&str>, value: &str)
    ensures
        buttons_seen(final(buttons)@) == buttons_seen(old(buttons)@) + match method {
            Some(method) => seq![ButtonView { glyph, tone, method: method@, value: value@ }],
            None => Seq::empty(),
        },
{
    match method {
        Some(method) => {
            buttons.push(
                Button { glyph, tone, press: Press { method: method.to_owned(), value: value.to_owned() } },
            );
            assert(buttons_seen(buttons@) =~= buttons_seen(old(buttons)@) + seq![
                ButtonView { glyph, tone, method: method@, value: value@ },
            ]);
        },
        None => {
            assert(buttons_seen(buttons@) =~= buttons_seen(old(buttons)@) + Seq::empty());
        },
    }
}

/// Puts a button behind the others, where there is a method and what goes with it.
pub(crate) fn put(buttons: &mut Vec<Button>, glyph: char, tone: Tone, method: Option<&str>, value: &str)
    ensures
        buttons_seen(final(buttons)@) == buttons_seen(old(buttons)@) + button_of(glyph, tone, method, value@),
{
    if value.is_empty() {
        assert(buttons_seen(buttons@) =~= buttons_seen(old(buttons)@) + Seq::empty());
    } else {
        put_any(buttons, glyph, tone, method, value);
    }
}

/// A row as it is drawn. `percent` is what a download that goes has done, in words.
pub fn render_item(row: &FileRow, actions: ItemActions<'_>, percent: &str) -> (item: Item)
    ensures
        is_item(item, *row, actions, percent@),
{
    let mut buttons: Vec<Button> = Vec::new();
    assert(buttons_seen(buttons@) =~= Seq::empty());
    let (sign, amount, press): (Option<Sign>, String, Option<Press>) = match row.status {
        FileStatus::Folder => (None, String::new(), call(actions.browse, &row.identifier)),
        FileStatus::Remote => {
            put(&mut buttons, '\u{f06e}', Tone::Primary, actions.view_remote, &row.identifier);
            put(&mut buttons, '\u{f019}', Tone::Primary, actions.download, &row.identifier);
            (None, String::new(), None)
        },
        FileStatus::Downloading { done, total } => {
            put(&mut buttons, '\u{f04c}', Tone::Warning, actions.download, &row.identifier);
            put(&mut buttons, '\u{f1f8}', Tone::Danger, actions.delete, &row.name);
            (Some(Sign { glyph: '\u{f254}', warns: false }), amount_text(done, total, Some(percent)), None)
        },
        FileStatus::Paused { done, total } => {
            put(&mut buttons, '\u{f04b}', Tone::Primary, actions.download, &row.identifier);
            put(&mut buttons, '\u{f1f8}', Tone::Danger, actions.delete, &row.name);
            (Some(Sign { glyph: '\u{f071}', warns: true }), amount_text(done, total, None), None)
        },
        FileStatus::Complete { size } => {
            put_any(&mut buttons, '\u{f06e}', Tone::Primary, actions.view_local, &row.name);
            put(&mut buttons, '\u{f021}', Tone::Reload, actions.download, &row.identifier);
            put(&mut buttons, '\u{f1f8}', Tone::Danger, actions.delete, &row.name);
            (
                Some(Sign { glyph: '\u{f00c}', warns: false }),
                format_bytes(size),
                call(actions.view_local, &row.name),
            )
        },
    };
    assert(buttons_seen(buttons@) =~= buttons_of(*row, actions));
    let icon: char = match row.status {
        FileStatus::Folder => '\u{f07b}',
        _ => '\u{f016}',
    };
    Item { icon, title: row.title.clone(), press, sign, amount, buttons }
}

/// Rows as they are drawn, in order. `percents` says of every row what it has done.
pub fn render_list(rows: &Vec<FileRow>, actions: ItemActions<'_>, percents: &Vec<String>) -> (items: Vec<Item>)
    requires
        percents@.len() == rows@.len(),
    ensures
        items@.len() == rows@.len(),
        forall|i: int| 0 <= i < rows@.len() ==> is_item(#[trigger] items@[i], rows@[i], actions, percents@[i]@),
{
    let mut items: Vec<Item> = Vec::new();
    let mut i: usize = 0;
    while i < rows.len()
        invariant
            i <= rows@.len(),
            percents@.len() == rows@.len(),
            items@.len() == i,
            forall|j: int| 0 <= j < i ==> is_item(#[trigger] items@[j], rows@[j], actions, percents@[j]@),
        decreases rows@.len() - i,
    {
        items.push(render_item(&rows[i], actions, &percents[i]));
        i += 1;
    }
    items
}

/// A list, or what is said when it is empty.
pub enum Listed {
    Items(Vec<Item>),
    Message(String),
}

pub fn items_or_message(
    rows: &Vec<FileRow>,
    actions: ItemActions<'_>,
    percents: &Vec<String>,
    empty_message: &str,
) -> (listed: Listed)
    requires
        percents@.len() == rows@.len(),
    ensures
        match listed {
            Listed::Items(items) => rows@.len() > 0 && items@.len() == rows@.len() && forall|i: int|
                0 <= i < rows@.len() ==> is_item(#[trigger] items@[i], rows@[i], actions, percents@[i]@),
            Listed::Message(said) => rows@.len() == 0 && said@ == empty_message@,
        },
{
    if rows.len() == 0 {
        Listed::Message(empty_message.to_owned())
    } else {
        Listed::Items(render_list(rows, actions, percents))
    }
}

// -- Laws --

/// A press on a card enters a folder by its key and opens a finished file by the name of its
/// record; no other card can be pressed.
pub proof fn a_card_does_what_its_row_is(row: FileRow, actions: ItemActions<'_>)
    ensures
        row.status is Folder ==> (card_call(row, actions) is Some <==> actions.browse is Some),
        row.status is Folder ==> (actions.browse matches Some(method) ==> card_call(row, actions) == Some(
            (method@, row.identifier@),
        )),
        row.status is Complete ==> (card_call(row, actions) is Some <==> actions.view_local is Some),
        row.status is Complete ==> (actions.view_local matches Some(method) ==> card_call(row, actions) == Some(
            (method@, row.name@),
        )),
        row.status is Remote || row.status is Downloading || row.status is Paused ==> card_call(row, actions) is None,
{
}

/// Whether a row has a button that does this with this.
pub open spec fn has_button(buttons: Seq<ButtonView>, method: Seq<char>, value: Seq<char>, tone: Tone) -> bool {
    exists|i: int|
        0 <= i < buttons.len() && (#[trigger] buttons[i]).method == method && buttons[i].value == value && buttons[i].tone
            == tone
}

/// What is here can be deleted by the name of its record: that is the last button, and it
/// is marked as dangerous; what is not here cannot.
pub proof fn what_is_here_is_deleted_by_its_name(row: FileRow, actions: ItemActions<'_>)
    ensures
        row.status is Folder ==> buttons_of(row, actions).len() == 0,
        row.status is Downloading || row.status is Paused || row.status is Complete ==> (actions.delete matches Some(method)
            ==> (row.name@.len() > 0 ==> {
            let buttons = buttons_of(row, actions);
            &&& buttons.len() > 0
            &&& buttons.last().method == method@
            &&& buttons.last().value == row.name@
            &&& buttons.last().tone is Danger
        })),
        row.status is Remote ==> forall|i: int|
            0 <= i < buttons_of(row, actions).len() ==> !((#[trigger] buttons_of(row, actions)[i]).tone is Danger),
{
    let buttons = buttons_of(row, actions);
    if let Some(method) = actions.delete {
        let delete = button_of('\u{f1f8}', Tone::Danger, actions.delete, row.name@);
        if row.name@.len() > 0 && (row.status is Downloading || row.status is Paused || row.status is Complete) {
            assert(delete.len() == 1);
            assert(buttons.last() == delete[0]);
        }
    }
}

/// A file is fetched by its key: fetched, stopped, gone on with or fetched anew, and the
/// button warns only where it stops.
pub proof fn a_file_is_fetched_by_its_key(row: FileRow, actions: ItemActions<'_>, method: &str)
    requires
        actions.download == Some(method),
        row.identifier@.len() > 0,
        !(row.status is Folder),
    ensures
        has_button(
            buttons_of(row, actions),
            method@,
            row.identifier@,
            match row.status {
                FileStatus::Downloading { .. } => Tone::Warning,
                FileStatus::Complete { .. } => Tone::Reload,
                _ => Tone::Primary,
            },
        ),
{
    let buttons = buttons_of(row, actions);
    match row.status {
        FileStatus::Remote => {
            let look = button_of('\u{f06e}', Tone::Primary, actions.view_remote, row.identifier@);
            assert(buttons[look.len() as int].method == method@);
        },
        FileStatus::Complete { .. } => {
            let look = match actions.view_local {
                Some(method) => seq![
                    ButtonView { glyph: '\u{f06e}', tone: Tone::Primary, method: method@, value: row.name@ },
                ],
                None => Seq::empty(),
            };
            assert(buttons[look.len() as int].method == method@);
        },
        _ => {
            assert(buttons[0].method == method@);
        },
    }
}

/// A finished file is ticked, one that was broken off warns, one on its way runs; a folder
/// and a file that is not here have no sign.
pub proof fn a_sign_tells_the_state(status: FileStatus)
    ensures
        sign_of(status) is None <==> status is Folder || status is Remote,
        sign_of(status) matches Some(sign) ==> (sign.warns <==> status is Paused),
        status is Downloading ==> sign_of(status) == Some(Sign { glyph: '\u{f254}', warns: false }),
        status is Paused ==> sign_of(status) == Some(Sign { glyph: '\u{f071}', warns: true }),
        status is Complete ==> sign_of(status) == Some(Sign { glyph: '\u{f00c}', warns: false }),
{
}

/// How much of a file is here is said with how much there is, and with the share while it
/// grows; of a finished file its size is said.
pub proof fn an_amount_is_said_of_how_much(done: u64, total: u64, size: u64, percent: Seq<char>)
    ensures
        amount_of(FileStatus::Folder, percent).len() == 0,
        amount_of(FileStatus::Remote, percent).len() == 0,
        amount_of(FileStatus::Complete { size }, percent) == bytes_said(size),
        total > 0 ==> amount_of(FileStatus::Paused { done, total }, percent) == bytes_said(done) + " / "@ + bytes_said(total),
        total > 0 ==> amount_of(FileStatus::Downloading { done, total }, percent) == bytes_said(done) + " / "@ + bytes_said(
            total,
        ) + " ("@ + percent + "%)"@,
        done == 0 ==> amount_of(FileStatus::Downloading { done, total: 0 }, percent) == "Starting..."@,
        done > 0 ==> amount_of(FileStatus::Downloading { done, total: 0 }, percent) == bytes_said(done),
        size < 1024 ==> bytes_said(size) == number::written(size as nat) + " B"@,
{
}

/// A size of a kilobyte and more is said in its unit with one tenth behind a point.
pub proof fn a_size_is_said_with_a_tenth(bytes: u64)
    ensures
        bytes >= 1024 ==> {
            let size = crate::components::format::kept(bytes as nat);
            let unit = crate::components::format::unit_of(size);
            let tenths = crate::components::format::nearest(10 * size, crate::components::format::unit_worth(unit));
            bytes_said(bytes) == number::written(tenths / 10) + "."@ + number::written(tenths % 10) + " "@ + latin_unit(unit)
        },
        latin_unit(0) == "B"@,
        latin_unit(1) == "KB"@,
        latin_unit(2) == "MB"@,
        latin_unit(3) == "GB"@,
        latin_unit(4) == "TB"@,
{
}

} // verus!
