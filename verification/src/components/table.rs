//! The table of a list: its columns, its rows and the menu of a row.
//!
//! One for all lists. What can be done with a row follows from the row, and not from
//! the tab that shows it: columns and buttons are the same everywhere.

use vstd::prelude::*;
use crate::components::arrange::{self, Line};
use crate::components::deed;
use crate::components::menu::{self, Glyph, Item};
use crate::components::row::{self, OnGlobe, OnOutline, Row, RowKind, RowStatus};
use crate::message::{Msg, ViewMsg};
use crate::state::ids::ViewId;
use crate::state::listing::{ListingState, Menu};
use crate::state::overlay::Pace;
use crate::text;

verus! {

broadcast use vstd::string::group_string_axioms;

// -- Columns --

/// A column of the table.
#[derive(Clone, Copy, PartialEq, Eq, Structural, Debug)]
pub enum Column {
    /// The choice of the row.
    Check,
    /// What opens the row.
    Twist,
    Icon,
    Name,
    Format,
    Date,
    Size,
    Status,
    Progress,
    Actions,
}

/// All columns in the order they are shown.
pub open spec fn all_columns() -> Seq<Column> {
    seq![
        Column::Check,
        Column::Twist,
        Column::Icon,
        Column::Name,
        Column::Format,
        Column::Date,
        Column::Size,
        Column::Status,
        Column::Progress,
        Column::Actions,
    ]
}

/// In what order columns give way when there is little room: first the one without
/// which the list reads most easily. The name and the buttons are not among them: a row
/// without them is no row.
pub open spec fn drop_order() -> Seq<Column> {
    seq![Column::Progress, Column::Date, Column::Size, Column::Status, Column::Format, Column::Icon]
}

// All widths are in points.
pub const GUTTER: u32 = 16;
pub const ROW_BUTTON: u32 = 24;
pub const BUTTON_GAP: u32 = 6;
pub const CELL_PADDING: u32 = 8;
/// How many buttons have room in their column.
pub const ACTION_BUTTONS: u32 = 4;
pub const ACTIONS: u32 = 130;
/// The same column when only the menu is left in it.
pub const ACTIONS_COMPACT: u32 = 40;
/// The width for the sake of which columns give way.
pub const NAME_MIN: u32 = 150;
/// Below this not even a piece of the name can be told, and the buttons give way to the
/// menu.
pub const NAME_FLOOR: u32 = 64;
/// A step of grouping.
pub const INDENT: u32 = 12;
/// The narrowest pane.
pub const MIN_PANE: u32 = 160;
pub const ROW_HEIGHT: u32 = 30;
/// The strip under the row of a snapshot that is being laid on the globe.
pub const ONTO_GLOBE: u32 = 3;

/// How wide a column is; the name has no width of its own and takes what is left.
pub open spec fn width_spec(column: Column) -> nat {
    match column {
        Column::Check => 20,
        Column::Twist => 14,
        Column::Icon => 34,
        Column::Name => 0,
        Column::Format => 80,
        Column::Date => 88,
        Column::Size => 84,
        Column::Status => 104,
        Column::Progress => 132,
        Column::Actions => ACTIONS as nat,
    }
}

pub fn width_of(column: Column) -> (width: u32)
    ensures
        width == width_spec(column),
        width <= 132,
{
    match column {
        Column::Check => 20,
        Column::Twist => 14,
        Column::Icon => 34,
        Column::Name => 0,
        Column::Format => 80,
        Column::Date => 88,
        Column::Size => 84,
        Column::Status => 104,
        Column::Progress => 132,
        Column::Actions => ACTIONS,
    }
}

/// The buttons fill their column: as many as have room, the gaps between them, and the
/// padding on both sides.
pub proof fn the_buttons_fill_their_column()
    ensures
        ACTIONS == ROW_BUTTON * ACTION_BUTTONS + BUTTON_GAP * (ACTION_BUTTONS - 1) + CELL_PADDING * 2,
        ACTIONS_COMPACT == ROW_BUTTON + CELL_PADDING * 2,
{
}

/// The padding of a cell on each side; a button takes its cell whole.
pub fn padding_of(column: Column) -> (padding: u32)
    ensures
        padding == if column is Check || column is Twist { 0 } else { CELL_PADDING },
{
    match column {
        Column::Check | Column::Twist => 0,
        _ => CELL_PADDING,
    }
}

/// Which of the columns that are not always there a list needs.
#[derive(Clone, Copy, PartialEq, Eq, Structural, Debug)]
pub struct Optional {
    /// There is something to open.
    pub twisty: bool,
    /// There is something to choose.
    pub checkable: bool,
}

impl Default for Optional {
    fn default() -> (optional: Optional)
        ensures
            optional == (Optional { twisty: false, checkable: false }),
    {
        Optional { twisty: false, checkable: false }
    }
}

/// Columns without one.
pub open spec fn without(columns: Seq<Column>, column: Column) -> Seq<Column>
    decreases columns.len(),
{
    if columns.len() == 0 {
        Seq::empty()
    } else {
        let rest = without(columns.drop_last(), column);
        if columns.last() == column { rest } else { rest.push(columns.last()) }
    }
}

/// The columns that a list can have.
pub open spec fn possible(optional: Optional) -> Seq<Column> {
    let checked = if optional.checkable { all_columns() } else { without(all_columns(), Column::Check) };
    if optional.twisty { checked } else { without(checked, Column::Twist) }
}

/// The room that columns take, with the edges of the screen and the padding of the
/// name.
pub open spec fn room_taken(columns: Seq<Column>, compact: bool) -> nat
    decreases columns.len(),
{
    if columns.len() == 0 {
        (GUTTER * 2 + CELL_PADDING * 2) as nat
    } else {
        let last = columns.last();
        room_taken(columns.drop_last(), compact) + if compact && last is Actions {
            ACTIONS_COMPACT as nat
        } else {
            width_spec(last)
        }
    }
}

/// The columns that are left when these have given way, one after another, for as long
/// as the name has too little.
pub open spec fn fitted(width: nat, columns: Seq<Column>, order: Seq<Column>) -> Seq<Column>
    decreases order.len(),
{
    if order.len() == 0 || width >= room_taken(columns, false) + NAME_MIN {
        columns
    } else {
        fitted(width, without(columns, order[0]), order.skip(1))
    }
}

/// Which columns are shown, how much is left for the name, and whether the buttons have
/// given way to the menu.
pub struct Fit {
    pub columns: Vec<Column>,
    /// Whole points that the name gets.
    pub name: u32,
    /// Points that all the rest takes; a part of a point in the width is the name's.
    pub taken: u32,
    pub compact: bool,
}

fn all() -> (columns: Vec<Column>)
    ensures
        columns@ == all_columns(),
{
    let mut columns: Vec<Column> = Vec::new();
    columns.push(Column::Check);
    columns.push(Column::Twist);
    columns.push(Column::Icon);
    columns.push(Column::Name);
    columns.push(Column::Format);
    columns.push(Column::Date);
    columns.push(Column::Size);
    columns.push(Column::Status);
    columns.push(Column::Progress);
    columns.push(Column::Actions);
    assert(columns@ =~= all_columns());
    columns
}

fn leave_out(columns: &Vec<Column>, column: Column) -> (rest: Vec<Column>)
    ensures
        rest@ == without(columns@, column),
        rest@.len() <= columns@.len(),
{
    let mut rest: Vec<Column> = Vec::new();
    let mut i: usize = 0;
    while i < columns.len()
        invariant
            i <= columns@.len(),
            rest@ == without(columns@.take(i as int), column),
            rest@.len() <= i,
        decreases columns@.len() - i,
    {
        assert(columns@.take(i + 1).drop_last() =~= columns@.take(i as int));
        if columns[i] != column {
            rest.push(columns[i]);
        }
        i += 1;
    }
    assert(columns@.take(columns@.len() as int) =~= columns@);
    rest
}

fn room(columns: &Vec<Column>, compact: bool) -> (taken: u32)
    requires
        columns@.len() <= 10,
    ensures
        taken == room_taken(columns@, compact),
        taken <= 48 + 132 * 10,
{
    let mut taken: u32 = GUTTER * 2 + CELL_PADDING * 2;
    let mut i: usize = 0;
    while i < columns.len()
        invariant
            i <= columns@.len() <= 10,
            taken == room_taken(columns@.take(i as int), compact),
            taken <= 48 + 132 * i,
        decreases columns@.len() - i,
    {
        assert(columns@.take(i + 1).drop_last() =~= columns@.take(i as int));
        taken = taken + if compact && columns[i] == Column::Actions { ACTIONS_COMPACT } else { width_of(columns[i]) };
        i += 1;
    }
    assert(columns@.take(columns@.len() as int) =~= columns@);
    taken
}

/// Which columns to show in a width, and how much the name gets of it. Half a screen is
/// half as wide, and columns do not grow thin: what is too much leaves, for a list
/// without dates can be read and one without names cannot. What the name gets is what it
/// really gets, even when that is too little: its ellipsis is counted by it. `width` is
/// in whole points: all columns are whole, and no part of a point decides anything.
pub fn fit(width: u32, optional: Optional) -> (fit: Fit)
    ensures
        fit.columns@ == fitted(width as nat, possible(optional), drop_order()),
        fit.compact == (width < room_taken(fit.columns@, false) + NAME_FLOOR),
        fit.taken == room_taken(fit.columns@, fit.compact),
        fit.name == if width > fit.taken { width - fit.taken } else { 0 },
{
    let mut columns: Vec<Column> = all();
    if !optional.checkable {
        columns = leave_out(&columns, Column::Check);
    }
    if !optional.twisty {
        columns = leave_out(&columns, Column::Twist);
    }
    let ghost start = columns@;
    let mut order: Vec<Column> = Vec::new();
    order.push(Column::Progress);
    order.push(Column::Date);
    order.push(Column::Size);
    order.push(Column::Status);
    order.push(Column::Format);
    order.push(Column::Icon);
    assert(order@ =~= drop_order());
    let mut at: usize = 0;
    assert(order@.skip(0) =~= order@);
    while at < order.len() && (width as u64) < room(&columns, false) as u64 + NAME_MIN as u64
        invariant
            at <= order@.len(),
            columns@.len() <= 10,
            order@ == drop_order(),
            fitted(width as nat, columns@, order@.skip(at as int)) == fitted(width as nat, start, drop_order()),
        decreases order@.len() - at,
    {
        assert(order@.skip(at as int)[0] == order@[at as int]);
        assert(order@.skip(at as int).skip(1) =~= order@.skip(at + 1));
        columns = leave_out(&columns, order[at]);
        at += 1;
    }
    let compact: bool = (width as u64) < room(&columns, false) as u64 + NAME_FLOOR as u64;
    let taken: u32 = room(&columns, compact);
    let name: u32 = if width > taken { width - taken } else { 0 };
    Fit { columns, name, taken, compact }
}

proof fn without_keeps(columns: Seq<Column>, column: Column, other: Column)
    ensures
        without(columns, column).contains(other) == (columns.contains(other) && other != column),
    decreases columns.len(),
{
    let rest = without(columns, column);
    if columns.len() > 0 {
        let front = columns.drop_last();
        let some = without(front, column);
        without_keeps(front, column, other);
        if columns.contains(other) && other != column {
            let i = choose|i: int| 0 <= i < columns.len() && columns[i] == other;
            if i < front.len() {
                assert(front[i] == other);
                let j = choose|j: int| 0 <= j < some.len() && some[j] == other;
                assert(rest[j] == other);
            } else {
                assert(rest[rest.len() - 1] == other);
            }
        }
        if rest.contains(other) {
            let i = choose|i: int| 0 <= i < rest.len() && rest[i] == other;
            if i < some.len() {
                assert(some[i] == other);
                let j = choose|j: int| 0 <= j < front.len() && front[j] == other;
                assert(columns[j] == other);
            } else {
                assert(columns[columns.len() - 1] == other);
            }
        }
    }
}

proof fn fitted_keeps(width: nat, columns: Seq<Column>, order: Seq<Column>, other: Column)
    requires
        !order.contains(other),
    ensures
        fitted(width, columns, order).contains(other) == columns.contains(other),
    decreases order.len(),
{
    if order.len() > 0 && width < room_taken(columns, false) + NAME_MIN {
        assert(order[0] != other);
        without_keeps(columns, order[0], other);
        assert(!order.skip(1).contains(other)) by {
            if order.skip(1).contains(other) {
                let i = choose|i: int| 0 <= i < order.skip(1).len() && order.skip(1)[i] == other;
                assert(order[i + 1] == other);
            }
        }
        fitted_keeps(width, without(columns, order[0]), order.skip(1), other);
    }
}

/// However narrow the place, the name and the buttons stay; and the columns that are not
/// always there stand exactly where they are needed.
pub proof fn a_row_stays_a_row(width: nat, optional: Optional)
    ensures
        fitted(width, possible(optional), drop_order()).contains(Column::Name),
        fitted(width, possible(optional), drop_order()).contains(Column::Actions),
        fitted(width, possible(optional), drop_order()).contains(Column::Check) == optional.checkable,
        fitted(width, possible(optional), drop_order()).contains(Column::Twist) == optional.twisty,
{
    let all = all_columns();
    assert(all[3] == Column::Name && all[9] == Column::Actions && all[0] == Column::Check && all[1] == Column::Twist);
    let checked = if optional.checkable { all } else { without(all, Column::Check) };
    assert forall|other: Column| other is Name || other is Actions || other is Check || other is Twist implies (
    #[trigger] fitted(width, possible(optional), drop_order()).contains(other)) == possible(optional).contains(other) by {
        assert(!drop_order().contains(other)) by {
            if drop_order().contains(other) {
                let i = choose|i: int| 0 <= i < drop_order().len() && drop_order()[i] == other;
                assert(false);
            }
        }
        fitted_keeps(width, possible(optional), drop_order(), other);
    }
    without_keeps(all, Column::Check, Column::Name);
    without_keeps(all, Column::Check, Column::Actions);
    without_keeps(all, Column::Check, Column::Check);
    without_keeps(all, Column::Check, Column::Twist);
    without_keeps(checked, Column::Twist, Column::Name);
    without_keeps(checked, Column::Twist, Column::Actions);
    without_keeps(checked, Column::Twist, Column::Check);
    without_keeps(checked, Column::Twist, Column::Twist);
}

proof fn all_gone(width: nat, columns: Seq<Column>, order: Seq<Column>, other: Column)
    requires
        order.contains(other),
        width < room_taken(fitted(width, columns, order), false) + NAME_MIN,
    ensures
        !fitted(width, columns, order).contains(other),
    decreases order.len(),
{
    let rest = order.skip(1);
    let some = without(columns, order[0]);
    if rest.contains(other) {
        all_gone(width, some, rest, other);
    } else {
        let i = choose|i: int| 0 <= i < order.len() && order[i] == other;
        if i > 0 {
            assert(rest[i - 1] == other);
        }
        without_keeps(columns, order[0], other);
        fitted_keeps(width, some, rest, other);
    }
}

/// Columns give way instead of squeezing the name: where the name has too little, every
/// column that could leave has left.
pub proof fn columns_give_way_to_the_name(width: nat, optional: Optional, column: Column)
    requires
        drop_order().contains(column),
        width < room_taken(fitted(width, possible(optional), drop_order()), false) + NAME_MIN,
    ensures
        !fitted(width, possible(optional), drop_order()).contains(column),
{
    all_gone(width, possible(optional), drop_order(), column);
}

// -- What a row does --

/// How a button stands.
#[derive(Clone, Copy, PartialEq, Eq, Structural, Debug)]
pub enum IconTone {
    Rest,
    /// Its menu is open.
    Raised,
    /// Begun, or come to nothing.
    Half,
    /// Done.
    Lit,
    /// There is nothing to press.
    Idle,
    /// It can be pressed, but the last time it did not work out.
    Warn,
}

/// What a colour is for.
#[derive(Clone, Copy, PartialEq, Eq, Structural, Debug)]
pub enum Ink {
    Plain,
    Soft,
    Dim,
    Faint,
    Muted,
    Line,
    Accent,
    AccentText,
    AccentHalf,
    Warn,
    WarnText,
    Danger,
    DangerText,
}

/// The main action of a row: what a press on it does.
pub struct Primary {
    pub glyph: Glyph,
    pub hint: &'static str,
    pub message: Msg,
    /// It leads into another folder. Such an action has no item of its own: a press on
    /// the row does the same.
    pub transition: bool,
}

/// What the main action says.
pub ghost struct PrimaryView {
    pub glyph: Glyph,
    pub hint: Seq<char>,
    pub deed: deed::Deed,
    pub transition: bool,
}

impl View for Primary {
    type V = PrimaryView;

    open spec fn view(&self) -> PrimaryView {
        PrimaryView {
            glyph: self.glyph,
            hint: self.hint@,
            deed: deed::deed(self.message),
            transition: self.transition,
        }
    }
}

/// An action of a row that is addressed by this key; without one there is none.
pub open spec fn addressed(glyph: Glyph, hint: Seq<char>, key: Seq<char>, deed: deed::Deed, transition: bool) -> Option<PrimaryView> {
    if key.len() == 0 { None } else { Some(PrimaryView { glyph, hint, deed, transition }) }
}

/// The main action of a row. A row that is made up of records has none but to open: its
/// key is a path in the storage, and to download that would be to ask for a folder as
/// one object. A folder is asked first, whatever it is busy with, for the same reason.
pub open spec fn main_action(view: ViewId, row: row::RowView) -> Option<PrimaryView> {
    let fetch = deed::Deed::Download { identifier: row.identifier, product: row.product };
    if row.folded {
        None
    } else if row.kind.is_folder_spec() {
        addressed(Glyph::Enter, "Перейти"@, row.identifier, deed::Deed::Enter(view, row.identifier), true)
    } else {
        match row.status {
            row::StatusView::Downloading { .. } => addressed(Glyph::Pause, "Пауза"@, row.identifier, fetch, false),
            row::StatusView::Paused { .. } => addressed(Glyph::Play, "Продолжить"@, row.identifier, fetch, false),
            row::StatusView::Remote => addressed(Glyph::Download, "Скачать"@, row.identifier, fetch, false),
            row::StatusView::Complete => addressed(
                Glyph::Eye,
                "Открыть"@,
                row.name,
                deed::Deed::Preview(view, row.name),
                false,
            ),
            row::StatusView::Partial { .. } => None,
        }
    }
}

/// The main action of a row; `None` when there is nothing to do with it, or nothing to
/// address it by.
pub fn primary(view: ViewId, row: &Row) -> (action: Option<Primary>)
    ensures
        match action {
            Some(action) => main_action(view, row@) == Some(action@),
            None => main_action(view, row@) is None,
        },
{
    if row.folded {
        return None;
    }
    let remote: bool = !row.identifier.as_str().is_empty();
    if row.kind.is_folder() {
        if !remote {
            return None;
        }
        return Some(
            Primary {
                glyph: Glyph::Enter,
                hint: "Перейти",
                message: Msg::In(view, ViewMsg::Enter(row.identifier.clone())),
                transition: true,
            },
        );
    }
    let (glyph, hint): (Glyph, &'static str) = match &row.status {
        RowStatus::Downloading { .. } => (Glyph::Pause, "Пауза"),
        RowStatus::Paused { .. } => (Glyph::Play, "Продолжить"),
        RowStatus::Remote => (Glyph::Download, "Скачать"),
        RowStatus::Complete => {
            if row.name.as_str().is_empty() {
                return None;
            }
            return Some(
                Primary {
                    glyph: Glyph::Eye,
                    hint: "Открыть",
                    message: Msg::In(view, ViewMsg::Preview(row.name.clone())),
                    transition: false,
                },
            );
        },
        RowStatus::Partial { .. } => {
            return None;
        },
    };
    if !remote {
        return None;
    }
    Some(
        Primary {
            glyph,
            hint,
            message: Msg::Download(row.identifier.clone(), row.product.clone()),
            transition: false,
        },
    )
}

/// A quick button of a row.
pub struct Quick {
    pub glyph: Glyph,
    pub hint: String,
    /// What it is called as an item of the menu, where it goes when there is little
    /// room: an item names an action, and not a state.
    pub label: &'static str,
    /// What a press sends; nothing when there is nothing to send.
    pub message: Option<Msg>,
    pub tone: IconTone,
}

/// What a quick button says.
pub ghost struct QuickView {
    pub glyph: Glyph,
    pub hint: Seq<char>,
    pub label: Seq<char>,
    pub deed: Option<deed::Deed>,
    pub tone: IconTone,
}

impl View for Quick {
    type V = QuickView;

    open spec fn view(&self) -> QuickView {
        QuickView {
            glyph: self.glyph,
            hint: self.hint@,
            label: self.label@,
            deed: deed::deed_of(self.message),
            tone: self.tone,
        }
    }
}

pub open spec fn quick_seen(buttons: Seq<Quick>) -> Seq<QuickView> {
    buttons.map_values(|button: Quick| button@)
}

/// How the outline of a snapshot stands on its button, and what a press would do.
pub open spec fn outline_look(outlined: OnOutline) -> (IconTone, Seq<char>) {
    match outlined {
        OnOutline::Off => (IconTone::Rest, "Очертить на шаре"@),
        OnOutline::Asking => (IconTone::Half, "Убрать контур — спрашиваем каталог…"@),
        OnOutline::Blank => (IconTone::Half, "Убрать контур — геометрии у снимка нет"@),
        OnOutline::Failed => (IconTone::Half, "Переспросить контур — не спросился"@),
        OnOutline::Drawn => (IconTone::Lit, "Убрать контур с шара"@),
    }
}

/// How the raster of a snapshot stands on its button, and what a press would do.
pub open spec fn globe_look(globe: OnGlobe) -> (IconTone, Seq<char>) {
    match globe {
        OnGlobe::Off => (IconTone::Rest, "Показать на шаре"@),
        OnGlobe::Asked => (IconTone::Half, "Отменить показ — спрашиваем каталог…"@),
        OnGlobe::Assembling => (IconTone::Half, "Отменить показ — кладётся на глобус…"@),
        OnGlobe::Laid { hidden, .. } => if hidden {
            (IconTone::Half, "Снять с шара — сейчас лежит скрытым"@)
        } else {
            (IconTone::Lit, "Снять с шара"@)
        },
    }
}

/// A hint with the work that goes on.
pub open spec fn with_work(hint: Seq<char>, globe: OnGlobe) -> Seq<char> {
    if globe.parts_spec().len() > 0 { hint + " · "@ + text::joined(globe.parts_spec(), " · "@) } else { hint }
}

/// The button of the outline.
pub open spec fn outline_button(row: row::RowView) -> QuickView {
    QuickView {
        glyph: Glyph::Outline,
        hint: outline_look(row.outlined).1,
        label: "Контур на шаре"@,
        deed: Some(deed::Deed::OutlineToggle(row.snapshot_key())),
        tone: outline_look(row.outlined).0,
    }
}

/// The button of the raster. Where the provider knows that there is nothing to show it
/// stands idle and says why: were it gone without a word, one would be left to guess.
/// Where only the last attempt came to nothing it can be pressed, and warns.
pub open spec fn globe_button(view: ViewId, row: row::RowView) -> QuickView {
    let ready = QuickView {
        glyph: Glyph::Globe,
        hint: with_work(globe_look(row.globe).1, row.globe),
        label: "Показать на шаре"@,
        deed: Some(deed::Deed::GlobeToggle(view, row.snapshot_key())),
        tone: globe_look(row.globe).0,
    };
    if row.unviewable.len() > 0 {
        QuickView { hint: row.unviewable, deed: None, tone: IconTone::Idle, ..ready }
    } else if row.unshowable.len() > 0 {
        QuickView { hint: row.unshowable, tone: IconTone::Warn, ..ready }
    } else {
        ready
    }
}

/// There is a place to turn the camera to: an outline is drawn or a layer is there. To
/// have asked is not enough, for until the catalogue answers nobody knows where it is.
pub open spec fn aimable(row: row::RowView) -> bool {
    row.outlined is Drawn || row.globe is Assembling || row.globe is Laid
}

/// The button of the camera. Where there is nothing to turn to it stands idle: were it
/// gone, its neighbours would move into its place.
pub open spec fn aim_button(row: row::RowView) -> QuickView {
    if aimable(row) {
        QuickView {
            glyph: Glyph::Focus,
            hint: "Навести камеру и выделить"@,
            label: "Навести камеру"@,
            deed: Some(deed::Deed::OutlineFocus(row.snapshot_key())),
            tone: IconTone::Rest,
        }
    } else {
        QuickView {
            glyph: Glyph::Focus,
            hint: "Наводить не на что: снимка на шаре нет"@,
            label: "Навести камеру"@,
            deed: None,
            tone: IconTone::Idle,
        }
    }
}

/// The quick buttons of a row: the outline, the raster and the camera. Only a snapshot
/// has them, and it has them all, each in its place.
pub open spec fn quick_buttons(view: ViewId, row: row::RowView) -> Seq<QuickView> {
    if !row.is_snapshot() || row.snapshot_key().len() == 0 {
        Seq::empty()
    } else {
        seq![outline_button(row), globe_button(view, row), aim_button(row)]
    }
}

fn globe_hint(globe: OnGlobe) -> (both: (IconTone, String))
    ensures
        both.0 == globe_look(globe).0,
        both.1@ == with_work(globe_look(globe).1, globe),
{
    let (tone, hint): (IconTone, &'static str) = match globe {
        OnGlobe::Off => (IconTone::Rest, "Показать на шаре"),
        OnGlobe::Asked => (IconTone::Half, "Отменить показ — спрашиваем каталог…"),
        OnGlobe::Assembling => (IconTone::Half, "Отменить показ — кладётся на глобус…"),
        OnGlobe::Laid { hidden, .. } => if hidden {
            (IconTone::Half, "Снять с шара — сейчас лежит скрытым")
        } else {
            (IconTone::Lit, "Снять с шара")
        },
    };
    let mut words: String = hint.to_owned();
    if let Some(said) = globe.said() {
        words.append(" · ");
        words.append(&said);
    }
    (tone, words)
}

/// The quick buttons of a row. The first two are switches of one kind: a press lays and
/// another takes off. Neither moves the camera; that is the third.
pub fn quick(view: ViewId, row: &Row) -> (buttons: Vec<Quick>)
    ensures
        quick_seen(buttons@) == quick_buttons(view, row@),
{
    let mut buttons: Vec<Quick> = Vec::new();
    let key: String = row.snapshot_key().to_owned();
    if !row.is_snapshot() || key.as_str().is_empty() {
        assert(quick_seen(buttons@) =~= quick_buttons(view, row@));
        return buttons;
    }
    let (tone, hint): (IconTone, &'static str) = match row.outlined {
        OnOutline::Off => (IconTone::Rest, "Очертить на шаре"),
        OnOutline::Asking => (IconTone::Half, "Убрать контур — спрашиваем каталог…"),
        OnOutline::Blank => (IconTone::Half, "Убрать контур — геометрии у снимка нет"),
        OnOutline::Failed => (IconTone::Half, "Переспросить контур — не спросился"),
        OnOutline::Drawn => (IconTone::Lit, "Убрать контур с шара"),
    };
    let outline: Quick = Quick {
        glyph: Glyph::Outline,
        hint: hint.to_owned(),
        label: "Контур на шаре",
        message: Some(Msg::OutlineToggle(key.clone())),
        tone,
    };
    assert(outline@ == outline_button(row@));
    buttons.push(outline);
    let toggle: Msg = Msg::In(view, ViewMsg::GlobeToggle(key.clone()));
    let (message, tone, hint): (Option<Msg>, IconTone, String) = if !row.unviewable.as_str().is_empty() {
        (None, IconTone::Idle, row.unviewable.clone())
    } else if !row.unshowable.as_str().is_empty() {
        (Some(toggle), IconTone::Warn, row.unshowable.clone())
    } else {
        let (tone, hint): (IconTone, String) = globe_hint(row.globe);
        (Some(toggle), tone, hint)
    };
    let globe: Quick = Quick { glyph: Glyph::Globe, hint, label: "Показать на шаре", message, tone };
    assert(globe@ == globe_button(view, row@));
    buttons.push(globe);
    let aim: Quick = if row.outlined == OnOutline::Drawn || row.globe.laid() {
        Quick {
            glyph: Glyph::Focus,
            hint: "Навести камеру и выделить".to_owned(),
            label: "Навести камеру",
            message: Some(Msg::OutlineFocus(key)),
            tone: IconTone::Rest,
        }
    } else {
        Quick {
            glyph: Glyph::Focus,
            hint: "Наводить не на что: снимка на шаре нет".to_owned(),
            label: "Навести камеру",
            message: None,
            tone: IconTone::Idle,
        }
    };
    assert(aim@ == aim_button(row@));
    buttons.push(aim);
    assert(quick_seen(buttons@) =~= quick_buttons(view, row@));
    buttons
}

// -- The menu of a row --

/// An item, if there is reason for it.
pub open spec fn if_so(reason: bool, item: menu::ItemView) -> Seq<menu::ItemView> {
    if reason { seq![item] } else { Seq::empty() }
}

/// The main action as an item, unless it leads inside.
pub open spec fn main_items(view: ViewId, row: row::RowView) -> Seq<menu::ItemView> {
    match main_action(view, row) {
        Some(action) => if_so(
            !action.transition,
            menu::ItemView { mark: Some(action.glyph), ..menu::plain_item(action.hint, action.deed) },
        ),
        None => Seq::empty(),
    }
}

/// To download a snapshot that lies as a folder, unless it is all here. How much that
/// is, is said where it is known.
pub open spec fn whole_items(row: row::RowView) -> Seq<menu::ItemView> {
    let label = if row.size > 0 {
        "Скачать снимок целиком — "@ + bytes_said(row.size)
    } else {
        "Скачать снимок целиком"@
    };
    if_so(
        row.kind == (RowKind::Product { folder: true }) && row.snapshot_key().len() > 0 && !(row.status is Complete),
        menu::ItemView {
            mark: Some(Glyph::Download),
            ..menu::plain_item(label, deed::Deed::DownloadSnapshot(row.snapshot_key()))
        },
    )
}

/// How many bytes that are is said.
pub open spec fn bytes_said(size: u64) -> Seq<char> {
    let kept = crate::components::format::kept(size as nat);
    let unit = crate::components::format::unit_of(kept);
    crate::components::format::amount(kept, unit) + " "@ + crate::components::format::unit_name(unit)
}

/// To look at a snapshot, unless opening it is the main action already: two eyes in a
/// row would read as two actions.
pub open spec fn look_items(view: ViewId, row: row::RowView) -> Seq<menu::ItemView> {
    let opens = row.status is Complete && !row.kind.is_folder_spec();
    if_so(
        row.is_snapshot() && row.unviewable.len() == 0 && row.snapshot_key().len() > 0 && !opens,
        menu::ItemView {
            mark: Some(Glyph::Eye),
            ..menu::plain_item("Смотреть снимок"@, deed::Deed::PreviewProduct(view, row.snapshot_key()))
        },
    )
}

/// To lay on the globe the snapshot that a file belongs to. A snapshot has a button for
/// it, and a folder of the path has no snapshot.
pub open spec fn globe_items(view: ViewId, row: row::RowView) -> Seq<menu::ItemView> {
    if_so(
        row.identifier.len() > 0 && !row.is_snapshot() && !(row.kind is Folder),
        menu::plain_item(
            if row.globe is Off { "Показать снимок на шаре"@ } else { "Снять снимок с шара"@ },
            deed::Deed::GlobeToggle(view, row.product_key()),
        ),
    )
}

/// To show a row in the catalogue, unless its folder is the one that is shown.
pub open spec fn catalog_items(view: ViewId, row: row::RowView, here: Seq<char>) -> Seq<menu::ItemView> {
    if_so(
        row.folder().len() > 0 && !text::ends_in(row::bare_key(here), row.folder()),
        menu::plain_item("Показать в каталоге"@, deed::Deed::InCatalog(view, row.snapshot_key())),
    )
}

/// To look at a file that is not downloaded.
pub open spec fn remote_items(view: ViewId, row: row::RowView) -> Seq<menu::ItemView> {
    if_so(
        !row.kind.is_folder_spec() && row.identifier.len() > 0 && row.status is Remote,
        menu::plain_item("Смотреть без скачивания"@, deed::Deed::PreviewRemote(view, row.identifier)),
    )
}

/// To download again what is here: that throws away what is here.
pub open spec fn again_items(row: row::RowView) -> Seq<menu::ItemView> {
    if_so(
        row.identifier.len() > 0 && !row.folded && row.status is Complete,
        menu::ItemView {
            danger: true,
            ..menu::plain_item(
                "Скачать заново"@,
                deed::Deed::Download { identifier: row.identifier, product: row.product },
            )
        },
    )
}

/// What can be done with a record on disk: to show it, and to throw it away. To give up
/// what was begun and to delete what is here are one action; only the words differ.
pub open spec fn disk_items(row: row::RowView) -> Seq<menu::ItemView> {
    let here = row.name.len() > 0 && !(row.status is Remote);
    let label = if row.status is Downloading || row.status is Paused { "Отменить загрузку"@ } else { "Удалить с диска"@ };
    if_so(here, menu::plain_item("Показать в файловом менеджере"@, deed::Deed::Reveal(row.name))) + if_so(
        here,
        menu::ItemView { danger: true, ..menu::plain_item(label, deed::Deed::Delete(row.name)) },
    )
}

/// A download of the snapshot goes on: a row of records sees it by its files, and a row
/// of the catalogue by itself.
pub open spec fn is_loading(row: row::RowView) -> bool {
    if row.folded { row::any_downloading(row.children) } else { row.kind.is_folder_spec() && row.status is Downloading }
}

/// What can be done with a whole snapshot: to pause it while there is something to
/// pause, and to throw it away.
pub open spec fn snapshot_items(row: row::RowView) -> Seq<menu::ItemView> {
    if_so(
        is_loading(row) && row.product.len() > 0,
        menu::plain_item("Приостановить снимок"@, deed::Deed::PauseSnapshot(row.product)),
    ) + if_so(
        row.folded && row.product.len() > 0,
        menu::ItemView {
            danger: true,
            ..menu::plain_item("Удалить снимок с диска"@, deed::Deed::DeleteSnapshot(row.product))
        },
    )
}

/// All that is rarely done with a row: first what leads elsewhere, then what cannot be
/// taken back.
pub open spec fn row_menu(view: ViewId, row: row::RowView, here: Seq<char>) -> Seq<menu::ItemView> {
    main_items(view, row) + whole_items(row) + look_items(view, row) + globe_items(view, row) + catalog_items(
        view,
        row,
        here,
    ) + remote_items(view, row) + again_items(row) + disk_items(row) + snapshot_items(row)
}

/// Puts an item behind the others, if there is one.
fn put(items: &mut Vec<Item>, item: Option<Item>)
    ensures
        menu::items_seen(final(items)@) == menu::items_seen(old(items)@) + match item {
            Some(item) => seq![item@],
            None => Seq::empty(),
        },
{
    let ghost before = items@;
    match item {
        Some(item) => {
            proof {
                menu::items_seen_push(before, item);
            }
            items.push(item);
            assert(menu::items_seen(before).push(item@) =~= menu::items_seen(before) + seq![item@]);
        },
        None => {
            assert(menu::items_seen(before) + Seq::empty() =~= menu::items_seen(before));
        },
    }
}

fn any_file_downloading(files: &Vec<Row>) -> (yes: bool)
    ensures
        yes == row::any_downloading(row::all_seen(files@)),
{
    let ghost all = row::all_seen(files@);
    proof {
        row::all_seen_by_one(files@);
    }
    let mut i: usize = 0;
    while i < files.len()
        invariant
            i <= files@.len(),
            all == row::all_seen(files@),
            all.len() == files@.len(),
            forall|j: int| 0 <= j < all.len() ==> #[trigger] all[j] == files@[j]@,
            forall|j: int| 0 <= j < i ==> !((#[trigger] all[j]).status is Downloading),
        decreases files@.len() - i,
    {
        assert(all[i as int] == files@[i as int]@);
        if let RowStatus::Downloading { .. } = files[i].status {
            return true;
        }
        i += 1;
    }
    false
}

fn is_complete(row: &Row) -> (yes: bool)
    ensures
        yes == (row@.status is Complete),
{
    matches!(row.status, RowStatus::Complete)
}

fn is_remote(row: &Row) -> (yes: bool)
    ensures
        yes == (row@.status is Remote),
{
    matches!(row.status, RowStatus::Remote)
}

fn main_item(view: ViewId, row: &Row) -> (item: Option<Item>)
    ensures
        main_items(view, row@) == match item {
            Some(item) => seq![item@],
            None => Seq::empty(),
        },
{
    match primary(view, row) {
        Some(action) => if !action.transition {
            Some(Item::new(action.hint.to_owned(), action.message).glyph(action.glyph))
        } else {
            None
        },
        None => None,
    }
}

fn whole_item(row: &Row) -> (item: Option<Item>)
    ensures
        whole_items(row@) == match item {
            Some(item) => seq![item@],
            None => Seq::empty(),
        },
{
    let key: &str = row.snapshot_key();
    if row.kind.is_product() && row.kind.is_folder() && !key.is_empty() && !is_complete(row) {
        let label: String = if row.size > 0 {
            text::concat("Скачать снимок целиком — ", &crate::components::format::bytes(row.size))
        } else {
            "Скачать снимок целиком".to_owned()
        };
        Some(Item::new(label, Msg::DownloadSnapshot(key.to_owned())).glyph(Glyph::Download))
    } else {
        None
    }
}

fn look_item(view: ViewId, row: &Row) -> (item: Option<Item>)
    ensures
        look_items(view, row@) == match item {
            Some(item) => seq![item@],
            None => Seq::empty(),
        },
{
    let key: &str = row.snapshot_key();
    let opens: bool = is_complete(row) && !row.kind.is_folder();
    if row.is_snapshot() && row.unviewable.as_str().is_empty() && !key.is_empty() && !opens {
        Some(
            Item::new("Смотреть снимок".to_owned(), Msg::In(view, ViewMsg::PreviewProduct(key.to_owned()))).glyph(
                Glyph::Eye,
            ),
        )
    } else {
        None
    }
}

fn globe_item(view: ViewId, row: &Row) -> (item: Option<Item>)
    ensures
        globe_items(view, row@) == match item {
            Some(item) => seq![item@],
            None => Seq::empty(),
        },
{
    let folder: bool = matches!(row.kind, RowKind::Folder);
    if !row.identifier.as_str().is_empty() && !row.is_snapshot() && !folder {
        let label: &'static str = if row.globe.any() { "Снять снимок с шара" } else { "Показать снимок на шаре" };
        Some(Item::new(label.to_owned(), Msg::In(view, ViewMsg::GlobeToggle(row.product_key().to_owned()))))
    } else {
        None
    }
}

fn catalog_item(view: ViewId, row: &Row, here: &str) -> (item: Option<Item>)
    ensures
        catalog_items(view, row@, here@) == match item {
            Some(item) => seq![item@],
            None => Seq::empty(),
        },
{
    let folder: &str = row.folder();
    if !folder.is_empty() && !text::ends_with(row::bare(here), folder) {
        Some(
            Item::new(
                "Показать в каталоге".to_owned(),
                Msg::In(view, ViewMsg::InCatalog(row.snapshot_key().to_owned())),
            ),
        )
    } else {
        None
    }
}

fn remote_item(view: ViewId, row: &Row) -> (item: Option<Item>)
    ensures
        remote_items(view, row@) == match item {
            Some(item) => seq![item@],
            None => Seq::empty(),
        },
{
    if !row.kind.is_folder() && !row.identifier.as_str().is_empty() && is_remote(row) {
        Some(
            Item::new(
                "Смотреть без скачивания".to_owned(),
                Msg::In(view, ViewMsg::PreviewRemote(row.identifier.clone())),
            ),
        )
    } else {
        None
    }
}

fn again_item(row: &Row) -> (item: Option<Item>)
    ensures
        again_items(row@) == match item {
            Some(item) => seq![item@],
            None => Seq::empty(),
        },
{
    if !row.identifier.as_str().is_empty() && !row.folded && is_complete(row) {
        Some(
            Item::new(
                "Скачать заново".to_owned(),
                Msg::Download(row.identifier.clone(), row.product.clone()),
            ).danger(),
        )
    } else {
        None
    }
}

fn put_disk(items: &mut Vec<Item>, row: &Row)
    ensures
        menu::items_seen(final(items)@) == menu::items_seen(old(items)@) + disk_items(row@),
{
    let ghost before = menu::items_seen(items@);
    if !row.name.as_str().is_empty() && !is_remote(row) {
        let label: &'static str = match row.status {
            RowStatus::Downloading { .. } | RowStatus::Paused { .. } => "Отменить загрузку",
            _ => "Удалить с диска",
        };
        put(items, Some(Item::new("Показать в файловом менеджере".to_owned(), Msg::Reveal(row.name.clone()))));
        put(items, Some(Item::new(label.to_owned(), Msg::Delete(row.name.clone())).danger()));
    }
    assert(menu::items_seen(items@) =~= before + disk_items(row@));
}

fn put_snapshot(items: &mut Vec<Item>, row: &Row)
    ensures
        menu::items_seen(final(items)@) == menu::items_seen(old(items)@) + snapshot_items(row@),
{
    let ghost before = menu::items_seen(items@);
    let loading: bool = if row.folded {
        any_file_downloading(&row.children)
    } else {
        row.kind.is_folder() && matches!(row.status, RowStatus::Downloading { .. })
    };
    let named: bool = !row.product.as_str().is_empty();
    if loading && named {
        put(items, Some(Item::new("Приостановить снимок".to_owned(), Msg::PauseSnapshot(row.product.clone()))));
    }
    if row.folded && named {
        put(
            items,
            Some(Item::new("Удалить снимок с диска".to_owned(), Msg::DeleteSnapshot(row.product.clone())).danger()),
        );
    }
    assert(menu::items_seen(items@) =~= before + snapshot_items(row@));
}

/// All that is rarely done with a row. `here` is the folder that is shown.
pub fn menu_items(view: ViewId, row: &Row, here: &str) -> (items: Vec<Item>)
    ensures
        menu::items_seen(items@) == row_menu(view, row@, here@),
{
    let mut items: Vec<Item> = Vec::new();
    assert(menu::items_seen(items@) =~= Seq::empty());
    put(&mut items, main_item(view, row));
    assert(menu::items_seen(items@) =~= main_items(view, row@));
    put(&mut items, whole_item(row));
    put(&mut items, look_item(view, row));
    put(&mut items, globe_item(view, row));
    put(&mut items, catalog_item(view, row, here));
    put(&mut items, remote_item(view, row));
    put(&mut items, again_item(row));
    put_disk(&mut items, row);
    put_snapshot(&mut items, row);
    items
}

// -- How a row looks --

/// The endings of pictures.
pub open spec fn is_image(format: Seq<char>) -> bool {
    ||| format == "png"@
    ||| format == "jpg"@
    ||| format == "jpeg"@
    ||| format == "tif"@
    ||| format == "tiff"@
    ||| format == "jp2"@
    ||| format == "webp"@
}

/// The sign of a row: by what it is, and not by how it lies. A snapshot has its own even
/// when it lies as a folder, and an ending is asked last.
pub open spec fn sign(row: row::RowView) -> Glyph {
    match row.kind {
        RowKind::Product { .. } => Glyph::Satellite,
        RowKind::Folder => Glyph::Folder,
        RowKind::File => if is_image(text::lowercased(row.format())) { Glyph::Image } else { Glyph::File },
    }
}

/// Whether an ending in lower case is that of a picture.
pub fn names_image(format: &str) -> (yes: bool)
    ensures
        yes == is_image(format@),
{
    text::same(format, "png") || text::same(format, "jpg") || text::same(format, "jpeg") || text::same(format, "tif")
        || text::same(format, "tiff") || text::same(format, "jp2") || text::same(format, "webp")
}

pub fn row_glyph(row: &Row) -> (glyph: Glyph)
    ensures
        glyph == sign(row@),
{
    match row.kind {
        RowKind::Product { .. } => Glyph::Satellite,
        RowKind::Folder => Glyph::Folder,
        RowKind::File => {
            if names_image(&text::lowercase(&row.format())) {
                Glyph::Image
            } else {
                Glyph::File
            }
        },
    }
}

/// What is done out of how much, or a word where the whole is not known.
pub open spec fn counted_or(done: u64, total: u64, word: Seq<char>) -> Seq<char> {
    if total > 0 {
        let whole = crate::components::format::kept(total as nat);
        let unit = crate::components::format::unit_of(whole);
        crate::components::format::amount(crate::components::format::kept(done as nat), unit) + "/"@
            + crate::components::format::amount(whole, unit) + " "@ + crate::components::format::unit_name(unit)
    } else {
        word
    }
}

/// The dot, the words and their colour: three ways to tell one state. What broke off
/// says why; that is worth more than any count.
pub open spec fn look_of(status: row::StatusView) -> (Ink, Seq<char>, Ink) {
    match status {
        row::StatusView::Complete => (Ink::Accent, "на диске"@, Ink::AccentText),
        row::StatusView::Remote => (Ink::Line, "в хранилище"@, Ink::Dim),
        row::StatusView::Downloading { done, total } => (
            Ink::Accent,
            counted_or(done, total, "скачивается"@),
            Ink::AccentText,
        ),
        row::StatusView::Paused { done, total, trouble } => if trouble.len() > 0 {
            (Ink::Danger, trouble, Ink::DangerText)
        } else {
            (Ink::Warn, counted_or(done, total, "прервано"@), Ink::WarnText)
        },
        row::StatusView::Partial { done, trouble } => if trouble.len() > 0 {
            (Ink::Danger, trouble, Ink::DangerText)
        } else {
            (Ink::Accent, crate::number::written(done as nat) + " на диске"@, Ink::AccentText)
        },
    }
}

pub fn status_look(status: &RowStatus) -> (look: (Ink, String, Ink))
    ensures
        look.0 == look_of(status@).0,
        look.1@ == look_of(status@).1,
        look.2 == look_of(status@).2,
{
    match status {
        RowStatus::Complete => (Ink::Accent, "на диске".to_owned(), Ink::AccentText),
        RowStatus::Remote => (Ink::Line, "в хранилище".to_owned(), Ink::Dim),
        RowStatus::Downloading { done, total } => (
            Ink::Accent,
            if *total > 0 {
                crate::components::format::progress(*done, *total)
            } else {
                "скачивается".to_owned()
            },
            Ink::AccentText,
        ),
        RowStatus::Paused { done, total, trouble } => if !trouble.as_str().is_empty() {
            (Ink::Danger, trouble.clone(), Ink::DangerText)
        } else {
            (
                Ink::Warn,
                if *total > 0 {
                    crate::components::format::progress(*done, *total)
                } else {
                    "прервано".to_owned()
                },
                Ink::WarnText,
            )
        },
        RowStatus::Partial { done, trouble } => if !trouble.as_str().is_empty() {
            (Ink::Danger, trouble.clone(), Ink::DangerText)
        } else {
            let mut words: String = crate::number::decimal(*done as u128);
            words.append(" на диске");
            (Ink::Accent, words, Ink::AccentText)
        },
    }
}

/// How a row stands out among its neighbours.
#[derive(Clone, Copy, PartialEq, Eq, Structural, Debug)]
pub enum RowTint {
    /// The one highlighted row of the screen.
    Picked,
    /// Chosen.
    Marked,
    Plain,
}

/// All that a row has to know beside itself.
pub struct Context<'a> {
    pub listing: &'a ListingState,
    /// The open menu of this list.
    pub menu: Option<&'a Menu>,
    pub columns: &'a Vec<Column>,
    pub compact: bool,
    /// How many characters of the names all rows of the page have in common, at the
    /// start and at the end.
    pub shared: (usize, usize),
    /// The folder that is shown; empty where the list has none.
    pub here: &'a str,
    /// The key of the snapshot that is picked on the globe; empty when none is.
    pub picked: &'a str,
    /// The row that the list was walked to; empty when none is.
    pub target: &'a str,
    /// What times are counted from: one moment for the whole table.
    pub now: i64,
    /// How many characters the column of formats has room for.
    pub format_room: usize,
}

/// How a row stands out: the highlight comes before the choice.
pub open spec fn tint_of(row: row::RowView, context: Context<'_>) -> RowTint {
    if (context.picked@.len() > 0 && row.snapshot_key() == context.picked@) || row.named(context.target@) {
        RowTint::Picked
    } else if context.listing.selected@.contains_key(row.choice_key()) {
        RowTint::Marked
    } else {
        RowTint::Plain
    }
}

pub fn tint(row: &Row, context: &Context<'_>) -> (tint: RowTint)
    ensures
        tint == tint_of(row@, *context),
{
    let picked: bool = !context.picked.is_empty() && text::same(row.snapshot_key(), context.picked);
    if picked || row.named(context.target) {
        RowTint::Picked
    } else if context.listing.selected.contains_key(row.choice_key()) {
        RowTint::Marked
    } else {
        RowTint::Plain
    }
}

/// The menu button of a row and its items.
pub struct RowMenu {
    pub items: Vec<Item>,
    pub open: bool,
    pub tone: IconTone,
    pub message: Msg,
    /// What a press beside the open menu sends.
    pub dismiss: Msg,
}

/// What the menu button of a row says.
pub ghost struct RowMenuView {
    pub open: bool,
    pub tone: IconTone,
    pub deed: deed::Deed,
    pub dismiss: deed::Deed,
}

/// The buttons at the end of a row.
pub struct Buttons {
    pub quick: Vec<Quick>,
    /// Nothing where the menu would be empty.
    pub menu: Option<RowMenu>,
}

/// What the buttons at the end of a row say.
pub ghost struct ButtonsView {
    pub quick: Seq<QuickView>,
    pub items: Seq<menu::ItemView>,
    pub menu: Option<RowMenuView>,
}

impl View for Buttons {
    type V = ButtonsView;

    open spec fn view(&self) -> ButtonsView {
        ButtonsView {
            quick: quick_seen(self.quick@),
            items: match self.menu {
                Some(menu) => menu::items_seen(menu.items@),
                None => Seq::empty(),
            },
            menu: match self.menu {
                Some(menu) => Some(
                    RowMenuView {
                        open: menu.open,
                        tone: menu.tone,
                        deed: deed::deed(menu.message),
                        dismiss: deed::deed(menu.dismiss),
                    },
                ),
                None => None,
            },
        }
    }
}

/// Quick buttons as items of a menu: those that can be pressed. A button that cannot at
/// least holds its place; an item that does nothing does not even that.
pub open spec fn as_items(buttons: Seq<QuickView>) -> Seq<menu::ItemView>
    decreases buttons.len(),
{
    if buttons.len() == 0 {
        Seq::empty()
    } else {
        let rest = as_items(buttons.drop_last());
        let last = buttons.last();
        match last.deed {
            Some(deed) => rest.push(menu::ItemView { mark: Some(last.glyph), ..menu::plain_item(last.label, deed) }),
            None => rest,
        }
    }
}

/// This menu is the open one.
pub open spec fn is_open(opened: Option<&Menu>, key: Seq<char>) -> bool {
    opened matches Some(menu) && menu.key_spec() == key
}

/// The key of the menu of a row.
pub open spec fn row_menu_key(row: row::RowView) -> Seq<char> {
    crate::state::listing::row_menu_prefix() + row.key()
}

/// The menu button of a row.
pub open spec fn menu_button(view: ViewId, row: row::RowView, opened: Option<&Menu>) -> RowMenuView {
    let open = is_open(opened, row_menu_key(row));
    RowMenuView {
        open,
        tone: if open { IconTone::Raised } else { IconTone::Rest },
        deed: deed::Deed::OpenMenu(view, Some(row_menu_key(row))),
        dismiss: deed::Deed::OpenMenu(view, None),
    }
}

/// The buttons at the end of a row. Where there is little room the quick ones give way
/// to the name and become the first items of the menu.
pub open spec fn buttons_of(view: ViewId, row: row::RowView, context: Context<'_>) -> ButtonsView {
    let quick = quick_buttons(view, row);
    let items = (if context.compact { as_items(quick) } else { Seq::empty() }) + row_menu(view, row, context.here@);
    ButtonsView {
        quick: if context.compact { Seq::empty() } else { quick },
        items,
        menu: if items.len() == 0 {
            None
        } else {
            Some(menu_button(view, row, context.menu))
        },
    }
}

fn move_into_menu(buttons: Vec<Quick>) -> (items: Vec<Item>)
    ensures
        menu::items_seen(items@) == as_items(quick_seen(buttons@)),
{
    let ghost all = quick_seen(buttons@);
    let ghost given = buttons@;
    let mut buttons: Vec<Quick> = buttons;
    let mut items: Vec<Item> = Vec::new();
    let mut done: usize = 0;
    let count: usize = buttons.len();
    assert(menu::items_seen(items@) =~= as_items(all.take(0)));
    while done < count
        invariant
            done <= count,
            count == given.len(),
            all == quick_seen(given),
            buttons@ == given.skip(done as int),
            menu::items_seen(items@) == as_items(all.take(done as int)),
        decreases count - done,
    {
        assert(all.take(done + 1).drop_last() =~= all.take(done as int));
        assert(buttons@[0] == given[done as int]);
        let button: Quick = buttons.remove(0);
        assert(given.skip(done as int).remove(0) =~= given.skip(done + 1));
        assert(all.take(done + 1).last() == button@);
        if let Some(message) = button.message {
            let item: Item = Item::new(button.label.to_owned(), message).glyph(button.glyph);
            proof {
                menu::items_seen_push(items@, item);
            }
            items.push(item);
        }
        done += 1;
    }
    assert(all.take(all.len() as int) =~= all);
    items
}

/// The buttons at the end of a row: the quick ones, and a menu for all the rest.
pub fn actions(view: ViewId, entry: &Row, context: &Context<'_>) -> (buttons: Buttons)
    ensures
        buttons@ == buttons_of(view, entry@, *context),
{
    let all: Vec<Quick> = quick(view, entry);
    let mut rest: Vec<Item> = menu_items(view, entry, context.here);
    let ghost quick_view = quick_buttons(view, entry@);
    let ghost rest_seen = menu::items_seen(rest@);
    let mut shown: Vec<Quick> = Vec::new();
    let mut items: Vec<Item> = Vec::new();
    assert(menu::items_seen(items@) =~= Seq::empty());
    assert(quick_seen(shown@) =~= Seq::empty());
    if context.compact {
        items = move_into_menu(all);
    } else {
        shown = all;
    }
    let ghost first = items@;
    let ghost second = rest@;
    items.append(&mut rest);
    assert(menu::items_seen(first + second) =~= menu::items_seen(first) + menu::items_seen(second));
    if items.len() == 0 {
        let none: Buttons = Buttons { quick: shown, menu: None };
        assert(menu::items_seen(items@) =~= Seq::empty());
        return none;
    }
    let menu: Menu = Menu::Row(entry.key().to_owned());
    let open: bool = match context.menu {
        Some(opened) => text::same(&opened.key(), &menu.key()),
        None => false,
    };
    Buttons {
        quick: shown,
        menu: Some(
            RowMenu {
                items,
                open,
                tone: if open { IconTone::Raised } else { IconTone::Rest },
                message: Msg::In(view, ViewMsg::OpenMenu(Some(menu))),
                dismiss: Msg::In(view, ViewMsg::OpenMenu(None)),
            },
        ),
    }
}

// -- Cells --

/// A cell of the table.
#[allow(inconsistent_fields)]
pub enum Cell {
    Nothing,
    /// What a column is called.
    Label(&'static str),
    /// A box to tick; `None` when there is nothing to address the row by.
    Check { marked: Option<bool>, hint: &'static str, message: Option<Msg> },
    Twist { open: bool, message: Msg },
    Icon { glyph: Glyph, ink: Ink },
    /// `plain` in the letters of a label, and not of a value.
    Name { title: String, plain: bool },
    Format(String),
    Date(String),
    Size(String),
    /// The dot, the words and their colour; and the whole reason where it is longer than
    /// the column.
    Status { dot: Ink, label: String, ink: Ink, hint: Option<String> },
    /// So much of so much.
    Progress { ink: Ink, done: u64, total: u64 },
    Actions(Buttons),
    /// How much is in a group.
    Meta(String),
    /// The contents are still on their way.
    Waiting(&'static str),
}

/// What a cell says.
#[allow(inconsistent_fields)]
pub ghost enum CellView {
    Nothing,
    Label(Seq<char>),
    Check { marked: Option<bool>, hint: Seq<char>, deed: Option<deed::Deed> },
    Twist { open: bool, deed: deed::Deed },
    Icon { glyph: Glyph, ink: Ink },
    Name { title: Seq<char>, plain: bool },
    Format(Seq<char>),
    Date(Seq<char>),
    Size(Seq<char>),
    Status { dot: Ink, label: Seq<char>, ink: Ink, hint: Option<Seq<char>> },
    Progress { ink: Ink, done: u64, total: u64 },
    Actions(ButtonsView),
    Meta(Seq<char>),
    Waiting(Seq<char>),
}

impl View for Cell {
    type V = CellView;

    open spec fn view(&self) -> CellView {
        match *self {
            Cell::Nothing => CellView::Nothing,
            Cell::Label(name) => CellView::Label(name@),
            Cell::Check { marked, hint, message } => CellView::Check {
                marked,
                hint: hint@,
                deed: deed::deed_of(message),
            },
            Cell::Twist { open, message } => CellView::Twist { open, deed: deed::deed(message) },
            Cell::Icon { glyph, ink } => CellView::Icon { glyph, ink },
            Cell::Name { title, plain } => CellView::Name { title: title@, plain },
            Cell::Format(words) => CellView::Format(words@),
            Cell::Date(words) => CellView::Date(words@),
            Cell::Size(words) => CellView::Size(words@),
            Cell::Status { dot, label, ink, hint } => CellView::Status {
                dot,
                label: label@,
                ink,
                hint: match hint {
                    Some(hint) => Some(hint@),
                    None => None,
                },
            },
            Cell::Progress { ink, done, total } => CellView::Progress { ink, done, total },
            Cell::Actions(buttons) => CellView::Actions(buttons@),
            Cell::Meta(words) => CellView::Meta(words@),
            Cell::Waiting(words) => CellView::Waiting(words@),
        }
    }
}

pub open spec fn cells_seen(cells: Seq<Cell>) -> Seq<CellView> {
    cells.map_values(|cell: Cell| cell@)
}

/// The box of a row. Only a folder of the path has none; a row without a key has one
/// that cannot be ticked, and says why.
pub open spec fn check_cell(view: ViewId, row: row::RowView, context: Context<'_>) -> CellView {
    let marked = context.listing.selected@.contains_key(row.choice_key());
    if row.kind is Folder {
        CellView::Nothing
    } else if !row.choosable() {
        CellView::Check {
            marked: None,
            hint: "Выбрать нечем: у записи нет ключа, которым её адресуют"@,
            deed: None,
        }
    } else {
        CellView::Check {
            marked: Some(marked),
            hint: if marked { "Снять выбор"@ } else { "Выбрать"@ },
            deed: Some(deed::Deed::Check(view, row.choice_key())),
        }
    }
}

fn check(view: ViewId, row: &Row, context: &Context<'_>) -> (cell: Cell)
    ensures
        cell@ == check_cell(view, row@, *context),
{
    if matches!(row.kind, RowKind::Folder) {
        return Cell::Nothing;
    }
    if !row.choosable() {
        return Cell::Check {
            marked: None,
            hint: "Выбрать нечем: у записи нет ключа, которым её адресуют",
            message: None,
        };
    }
    let key: &str = row.choice_key();
    let marked: bool = context.listing.selected.contains_key(key);
    Cell::Check {
        marked: Some(marked),
        hint: if marked { "Снять выбор" } else { "Выбрать" },
        message: Some(Msg::In(view, ViewMsg::Check(key.to_owned()))),
    }
}

/// What opens a row: every folder has it, and not only one that is filled, for opening
/// it asks for its contents.
pub open spec fn twist_cell(view: ViewId, row: row::RowView, context: Context<'_>) -> CellView {
    if row.expandable() {
        CellView::Twist {
            open: context.listing.expanded@.contains(row.key()),
            deed: deed::Deed::Expand(view, row.key()),
        }
    } else {
        CellView::Nothing
    }
}

fn twist(view: ViewId, row: &Row, context: &Context<'_>) -> (cell: Cell)
    ensures
        cell@ == twist_cell(view, row@, *context),
{
    if !row.expandable() {
        return Cell::Nothing;
    }
    Cell::Twist {
        open: context.listing.expanded.contains(row.key()),
        message: Msg::In(view, ViewMsg::Expand(row.key().to_owned())),
    }
}

/// How far a download has come, where that can be said.
pub open spec fn progress_cell_of(status: row::StatusView) -> CellView {
    match status {
        row::StatusView::Downloading { done, total } => if total > 0 {
            CellView::Progress { ink: Ink::Accent, done, total }
        } else {
            CellView::Nothing
        },
        row::StatusView::Paused { done, total, .. } => if total > 0 {
            CellView::Progress { ink: Ink::Warn, done, total }
        } else {
            CellView::Nothing
        },
        _ => CellView::Nothing,
    }
}

fn progress_cell(status: &RowStatus) -> (cell: Cell)
    ensures
        cell@ == progress_cell_of(status@),
{
    match status.progress() {
        Some((done, total)) => Cell::Progress {
            ink: if matches!(status, RowStatus::Downloading { .. }) { Ink::Accent } else { Ink::Warn },
            done,
            total,
        },
        None => Cell::Nothing,
    }
}

/// The whole reason why something broke off, for the hint; nothing where nothing did.
pub open spec fn reason_of(status: row::StatusView) -> Option<Seq<char>> {
    let trouble = match status {
        row::StatusView::Paused { trouble, .. } => trouble,
        row::StatusView::Partial { trouble, .. } => trouble,
        _ => Seq::empty(),
    };
    if trouble.len() > 0 { Some(crate::components::format::cut_middle(trouble, 90)) } else { None }
}

fn status_cell(status: &RowStatus) -> (cell: Cell)
    ensures
        cell@ == (CellView::Status {
            dot: look_of(status@).0,
            label: look_of(status@).1,
            ink: look_of(status@).2,
            hint: reason_of(status@),
        }),
{
    let (dot, label, ink): (Ink, String, Ink) = status_look(status);
    let hint: Option<String> = match status {
        RowStatus::Paused { trouble, .. } => if trouble.as_str().is_empty() {
            None
        } else {
            Some(crate::components::format::ellipsize(trouble, 90))
        },
        RowStatus::Partial { trouble, .. } => if trouble.as_str().is_empty() {
            None
        } else {
            Some(crate::components::format::ellipsize(trouble, 90))
        },
        _ => None,
    };
    Cell::Status { dot, label, ink, hint }
}

/// The cell of a row in a column. `room` is how many characters its name has room for.
pub open spec fn entry_cell(view: ViewId, row: row::RowView, context: Context<'_>, room: nat, column: Column) -> CellView {
    match column {
        Column::Check => check_cell(view, row, context),
        Column::Twist => twist_cell(view, row, context),
        Column::Icon => CellView::Icon {
            glyph: sign(row),
            ink: if row.kind is File { Ink::Faint } else { Ink::Accent },
        },
        Column::Name => CellView::Name {
            title: crate::components::format::told_apart(
                row.title,
                room,
                context.shared.0 as nat,
                context.shared.1 as nat,
            ),
            plain: row.kind.is_folder_spec(),
        },
        Column::Format => CellView::Format(
            crate::components::format::cut_middle(row.format(), context.format_room as nat),
        ),
        Column::Date => CellView::Date(crate::components::format::dated(row.date as int, context.now as int)),
        Column::Size => CellView::Size(if row.size > 0 { bytes_said(row.size) } else { Seq::empty() }),
        Column::Status => CellView::Status {
            dot: look_of(row.status).0,
            label: look_of(row.status).1,
            ink: look_of(row.status).2,
            hint: reason_of(row.status),
        },
        Column::Progress => progress_cell_of(row.status),
        Column::Actions => CellView::Actions(buttons_of(view, row, context)),
    }
}

fn cell_for(view: ViewId, row: &Row, context: &Context<'_>, room: usize, column: Column) -> (cell: Cell)
    ensures
        cell@ == entry_cell(view, row@, *context, room as nat, column),
{
    match column {
        Column::Check => check(view, row, context),
        Column::Twist => twist(view, row, context),
        Column::Icon => Cell::Icon {
            glyph: row_glyph(row),
            ink: if matches!(row.kind, RowKind::File) { Ink::Faint } else { Ink::Accent },
        },
        Column::Name => Cell::Name {
            title: crate::components::format::distinct(&row.title, room, context.shared),
            plain: row.kind.is_folder(),
        },
        Column::Format => Cell::Format(
            crate::components::format::ellipsize(&row.format(), context.format_room),
        ),
        Column::Date => Cell::Date(crate::components::format::date(row.date, context.now)),
        Column::Size => Cell::Size(
            if row.size > 0 {
                crate::components::format::bytes(row.size)
            } else {
                String::new()
            },
        ),
        Column::Status => status_cell(&row.status),
        Column::Progress => progress_cell(&row.status),
        Column::Actions => Cell::Actions(actions(view, row, context)),
    }
}

// -- Lines --

/// The strip under the row of a snapshot that is on the globe.
pub enum Strip {
    Absent,
    /// Its place is kept, so that the row does not jump when the work is done.
    Blank,
    /// The work, by the bits of its share.
    Bar { ink: Ink, share: u32, hint: String },
}

/// What the strip says.
pub ghost enum StripView {
    Absent,
    Blank,
    Bar { ink: Ink, share: u32, hint: Seq<char> },
}

impl View for Strip {
    type V = StripView;

    open spec fn view(&self) -> StripView {
        match *self {
            Strip::Absent => StripView::Absent,
            Strip::Blank => StripView::Blank,
            Strip::Bar { ink, share, hint } => StripView::Bar { ink, share, hint: hint@ },
        }
    }
}

/// The bits of one.
pub const WHOLE: u32 = 0x3f80_0000;

/// What the work on the way to the globe is called.
pub open spec fn work_said(globe: OnGlobe) -> Seq<char> {
    if globe.parts_spec().len() > 0 {
        "Набирается пирамида — "@ + text::joined(globe.parts_spec(), " · "@)
    } else {
        "Кладётся на глобус"@
    }
}

/// The strip under a row. Only a snapshot has it, though its files know of the globe
/// too. While there is no share the strip is filled, at half strength.
pub open spec fn strip_of(row: row::RowView) -> StripView {
    if row.globe is Off || !row.is_snapshot() {
        StripView::Absent
    } else {
        match row.globe.pace_spec() {
            Pace::Share(share) => StripView::Bar { ink: Ink::Accent, share, hint: work_said(row.globe) },
            Pace::Unknown => StripView::Bar { ink: Ink::AccentHalf, share: WHOLE, hint: work_said(row.globe) },
            Pace::Idle => StripView::Blank,
        }
    }
}

fn strip(row: &Row) -> (strip: Strip)
    ensures
        strip@ == strip_of(row@),
{
    if !row.globe.any() || !row.is_snapshot() {
        return Strip::Absent;
    }
    let hint: String = match row.globe.said() {
        Some(said) => text::concat("Набирается пирамида — ", &said),
        None => "Кладётся на глобус".to_owned(),
    };
    match row.globe.pace() {
        Pace::Share(share) => Strip::Bar { ink: Ink::Accent, share, hint },
        Pace::Unknown => Strip::Bar { ink: Ink::AccentHalf, share: WHOLE, hint },
        Pace::Idle => Strip::Blank,
    }
}

/// A line of the table as it is drawn.
pub struct Drawn {
    pub cells: Vec<Cell>,
    /// How many steps it is moved in.
    pub depth: usize,
    /// The height of its cells; the strip is taken out of it, and not put under it.
    pub height: u32,
    pub press: Option<Msg>,
    pub tint: RowTint,
    pub strip: Strip,
    /// What the state of its widgets goes by.
    pub key: String,
}

/// What a line says.
pub ghost struct DrawnView {
    pub cells: Seq<CellView>,
    pub depth: usize,
    pub height: u32,
    pub press: Option<deed::Deed>,
    pub tint: RowTint,
    pub strip: StripView,
    pub key: Seq<char>,
}

impl View for Drawn {
    type V = DrawnView;

    open spec fn view(&self) -> DrawnView {
        DrawnView {
            cells: cells_seen(self.cells@),
            depth: self.depth,
            height: self.height,
            press: deed::deed_of(self.press),
            tint: self.tint,
            strip: self.strip@,
            key: self.key@,
        }
    }
}

/// What a press on a row does: its main action, or else to open it.
pub open spec fn press_of(view: ViewId, row: row::RowView) -> Option<deed::Deed> {
    match main_action(view, row) {
        Some(action) => Some(action.deed),
        None => if row.expandable() { Some(deed::Deed::Expand(view, row.key())) } else { None },
    }
}

/// The line of a row.
pub open spec fn entry_drawn(view: ViewId, row: row::RowView, depth: usize, context: Context<'_>, room: nat) -> DrawnView {
    DrawnView {
        cells: context.columns@.map_values(|column: Column| entry_cell(view, row, context, room, column)),
        depth,
        height: if strip_of(row) is Absent { ROW_HEIGHT } else { (ROW_HEIGHT - ONTO_GLOBE) as u32 },
        press: press_of(view, row),
        tint: tint_of(row, context),
        strip: strip_of(row),
        key: row.key(),
    }
}

/// The line of a row. The whole row is a button. `room` is how many characters its name
/// has room for at this depth.
pub fn entry_line(view: ViewId, row: &Row, depth: usize, context: &Context<'_>, room: usize) -> (line: Drawn)
    ensures
        line@ == entry_drawn(view, row@, depth, *context, room as nat),
{
    let ghost all = context.columns@.map_values(|column: Column| entry_cell(view, row@, *context, room as nat, column));
    let mut cells: Vec<Cell> = Vec::new();
    let mut i: usize = 0;
    assert(cells_seen(cells@) =~= all.take(0));
    while i < context.columns.len()
        invariant
            i <= context.columns@.len(),
            all == context.columns@.map_values(
                |column: Column| entry_cell(view, row@, *context, room as nat, column),
            ),
            cells_seen(cells@) == all.take(i as int),
        decreases context.columns@.len() - i,
    {
        let ghost before = cells@;
        cells.push(cell_for(view, row, context, room, context.columns[i]));
        assert(cells_seen(cells@) =~= cells_seen(before).push(all[i as int]));
        assert(all.take(i + 1) =~= all.take(i as int).push(all[i as int]));
        i += 1;
    }
    assert(all.take(all.len() as int) =~= all);
    let strip: Strip = strip(row);
    let height: u32 = match strip {
        Strip::Absent => ROW_HEIGHT,
        _ => ROW_HEIGHT - ONTO_GLOBE,
    };
    let press: Option<Msg> = match primary(view, row) {
        Some(action) => Some(action.message),
        None => if row.expandable() {
            Some(Msg::In(view, ViewMsg::Expand(row.key().to_owned())))
        } else {
            None
        },
    };
    Drawn { cells, depth, height, press, tint: tint(row, context), strip, key: row.key().to_owned() }
}

/// The cell of a heading: how much is inside stands where rows have their state.
pub open spec fn group_cell(title: Seq<char>, meta: Seq<char>, room: nat, column: Column) -> CellView {
    match column {
        Column::Icon => CellView::Icon { glyph: Glyph::Folder, ink: Ink::Accent },
        Column::Name => CellView::Name { title: crate::components::format::cut_middle(title, room), plain: true },
        Column::Status => CellView::Meta(meta),
        _ => CellView::Nothing,
    }
}

/// A line on which there is nothing to press.
pub open spec fn still_line(cells: Seq<CellView>, depth: usize, key: Seq<char>) -> DrawnView {
    DrawnView {
        cells,
        depth,
        height: ROW_HEIGHT,
        press: None,
        tint: RowTint::Plain,
        strip: StripView::Absent,
        key,
    }
}

/// The line of a heading.
pub open spec fn group_drawn(title: Seq<char>, meta: Seq<char>, depth: usize, context: Context<'_>, room: nat) -> DrawnView {
    still_line(
        context.columns@.map_values(|column: Column| group_cell(title, meta, room, column)),
        depth,
        "group:"@ + crate::number::written(depth as nat) + ":"@ + title,
    )
}

fn group_line(title: &str, meta: &str, depth: usize, context: &Context<'_>, room: usize) -> (line: Drawn)
    ensures
        line@ == group_drawn(title@, meta@, depth, *context, room as nat),
{
    let ghost all = context.columns@.map_values(|column: Column| group_cell(title@, meta@, room as nat, column));
    let mut cells: Vec<Cell> = Vec::new();
    let mut i: usize = 0;
    assert(cells_seen(cells@) =~= all.take(0));
    while i < context.columns.len()
        invariant
            i <= context.columns@.len(),
            all == context.columns@.map_values(|column: Column| group_cell(title@, meta@, room as nat, column)),
            cells_seen(cells@) == all.take(i as int),
        decreases context.columns@.len() - i,
    {
        let ghost before = cells@;
        let cell: Cell = match context.columns[i] {
            Column::Icon => Cell::Icon { glyph: Glyph::Folder, ink: Ink::Accent },
            Column::Name => Cell::Name { title: crate::components::format::ellipsize(title, room), plain: true },
            Column::Status => Cell::Meta(meta.to_owned()),
            _ => Cell::Nothing,
        };
        cells.push(cell);
        assert(cells_seen(cells@) =~= cells_seen(before).push(all[i as int]));
        assert(all.take(i + 1) =~= all.take(i as int).push(all[i as int]));
        i += 1;
    }
    assert(all.take(all.len() as int) =~= all);
    let mut key: String = "group:".to_owned();
    key.append(&crate::number::decimal(depth as u128));
    key.append(":");
    key.append(title);
    Drawn { cells, depth, height: ROW_HEIGHT, press: None, tint: RowTint::Plain, strip: Strip::Absent, key }
}

/// The line of an open folder whose contents are on their way: it gives its place to the
/// first record that comes.
pub open spec fn waiting_drawn(depth: usize, context: Context<'_>) -> DrawnView {
    still_line(
        context.columns@.map_values(
            |column: Column| if column is Name { CellView::Waiting("загружается…"@) } else { CellView::Nothing },
        ),
        depth,
        "waiting:"@ + crate::number::written(depth as nat),
    )
}

fn waiting_line(depth: usize, context: &Context<'_>) -> (line: Drawn)
    ensures
        line@ == waiting_drawn(depth, *context),
{
    let ghost all = context.columns@.map_values(
        |column: Column| if column is Name { CellView::Waiting("загружается…"@) } else { CellView::Nothing },
    );
    let mut cells: Vec<Cell> = Vec::new();
    let mut i: usize = 0;
    assert(cells_seen(cells@) =~= all.take(0));
    while i < context.columns.len()
        invariant
            i <= context.columns@.len(),
            all == context.columns@.map_values(
                |column: Column| if column is Name { CellView::Waiting("загружается…"@) } else { CellView::Nothing },
            ),
            cells_seen(cells@) == all.take(i as int),
        decreases context.columns@.len() - i,
    {
        let ghost before = cells@;
        cells.push(if context.columns[i] == Column::Name { Cell::Waiting("загружается…") } else { Cell::Nothing });
        assert(cells_seen(cells@) =~= cells_seen(before).push(all[i as int]));
        assert(all.take(i + 1) =~= all.take(i as int).push(all[i as int]));
        i += 1;
    }
    assert(all.take(all.len() as int) =~= all);
    let key: String = text::concat("waiting:", &crate::number::decimal(depth as u128));
    Drawn { cells, depth, height: ROW_HEIGHT, press: None, tint: RowTint::Plain, strip: Strip::Absent, key }
}

/// A line as it is drawn.
pub open spec fn line_drawn(view: ViewId, line: arrange::LineView, context: Context<'_>, room: nat) -> DrawnView {
    match line {
        arrange::LineView::Group { title, meta, depth } => group_drawn(title, meta, depth, context, room),
        arrange::LineView::Entry { row, depth } => entry_drawn(view, row, depth, context, room),
        arrange::LineView::Waiting { depth } => waiting_drawn(depth, context),
    }
}

/// The lines of the table. `rooms` says of every line how many characters its name has
/// room for.
pub fn body(view: ViewId, lines: &Vec<Line<'_>>, context: &Context<'_>, rooms: &Vec<usize>) -> (drawn: Vec<Drawn>)
    requires
        rooms@.len() == lines@.len(),
    ensures
        drawn@.len() == lines@.len(),
        forall|i: int|
            0 <= i < lines@.len() ==> (#[trigger] drawn@[i])@ == line_drawn(
                view,
                lines@[i]@,
                *context,
                rooms@[i] as nat,
            ),
{
    let mut drawn: Vec<Drawn> = Vec::new();
    let mut i: usize = 0;
    while i < lines.len()
        invariant
            i <= lines@.len(),
            rooms@.len() == lines@.len(),
            drawn@.len() == i,
            forall|j: int|
                0 <= j < i ==> (#[trigger] drawn@[j])@ == line_drawn(view, lines@[j]@, *context, rooms@[j] as nat),
        decreases lines@.len() - i,
    {
        let line: Drawn = match &lines[i] {
            Line::Group { title, meta, depth } => group_line(title, meta, *depth, context, rooms[i]),
            Line::Entry { row, depth } => entry_line(view, row, *depth, context, rooms[i]),
            Line::Waiting { depth } => waiting_line(*depth, context),
        };
        drawn.push(line);
        i += 1;
    }
    drawn
}

/// The cell of the header. The box there acts on what is shown, and says so: else it
/// would promise to choose all there is.
pub open spec fn header_cell(view: ViewId, all: bool, column: Column) -> CellView {
    match column {
        Column::Check => CellView::Check {
            marked: Some(all),
            hint: if all { "Снять выбор с показанного"@ } else { "Выбрать показанное"@ },
            deed: Some(deed::Deed::CheckShown(view, !all)),
        },
        Column::Name => CellView::Label("ИМЯ"@),
        Column::Format => CellView::Label("ФОРМАТ"@),
        Column::Date => CellView::Label("ДАТА"@),
        Column::Size => CellView::Label("РАЗМЕР"@),
        Column::Status => CellView::Label("СОСТОЯНИЕ"@),
        Column::Progress => CellView::Label("ЗАГРУЗКА"@),
        Column::Twist | Column::Icon | Column::Actions => CellView::Nothing,
    }
}

/// The header. `all` says whether all that is shown under it is chosen.
pub fn header(view: ViewId, columns: &Vec<Column>, all: bool) -> (cells: Vec<Cell>)
    ensures
        cells@.len() == columns@.len(),
        forall|i: int| 0 <= i < columns@.len() ==> (#[trigger] cells@[i])@ == header_cell(view, all, columns@[i]),
{
    let mut cells: Vec<Cell> = Vec::new();
    let mut i: usize = 0;
    while i < columns.len()
        invariant
            i <= columns@.len(),
            cells@.len() == i,
            forall|j: int| 0 <= j < i ==> (#[trigger] cells@[j])@ == header_cell(view, all, columns@[j]),
        decreases columns@.len() - i,
    {
        let cell: Cell = match columns[i] {
            Column::Check => Cell::Check {
                marked: Some(all),
                hint: if all { "Снять выбор с показанного" } else { "Выбрать показанное" },
                message: Some(Msg::In(view, ViewMsg::CheckShown(!all))),
            },
            Column::Name => Cell::Label("ИМЯ"),
            Column::Format => Cell::Label("ФОРМАТ"),
            Column::Date => Cell::Label("ДАТА"),
            Column::Size => Cell::Label("РАЗМЕР"),
            Column::Status => Cell::Label("СОСТОЯНИЕ"),
            Column::Progress => Cell::Label("ЗАГРУЗКА"),
            Column::Twist | Column::Icon | Column::Actions => Cell::Nothing,
        };
        cells.push(cell);
        i += 1;
    }
    cells
}

// -- The grid --

/// Where a cell stands: how wide it is, unless it takes what is left, and its padding.
#[derive(Clone, Copy, PartialEq, Eq, Structural, Debug)]
pub struct Place {
    pub width: Option<u128>,
    pub left: u128,
    pub right: u128,
}

/// How far a step of grouping moves in.
pub fn indent(depth: usize) -> (points: u128)
    ensures
        points == depth * INDENT,
        points <= usize::MAX * 12,
{
    depth as u128 * INDENT as u128
}

/// Where a cell stands. The first column shown is wider by the step, whichever it is:
/// what stands right of the name stays in line.
pub open spec fn place_of(column: Column, first: bool, step: int, compact: bool) -> Place {
    let pad = if column is Check || column is Twist { 0int } else { CELL_PADDING as int };
    let more = if first { step } else { 0 };
    Place {
        width: match column {
            Column::Name => None,
            Column::Actions => Some((if compact { ACTIONS_COMPACT as int } else { ACTIONS as int } + more) as u128),
            _ => Some((width_spec(column) + more) as u128),
        },
        left: (pad + more) as u128,
        right: pad as u128,
    }
}

/// Where the cells of a line stand.
pub fn grid(columns: &Vec<Column>, depth: usize, compact: bool) -> (places: Vec<Place>)
    ensures
        places@.len() == columns@.len(),
        forall|i: int|
            0 <= i < columns@.len() ==> #[trigger] places@[i] == place_of(
                columns@[i],
                columns@[i] == columns@[0],
                depth * INDENT,
                compact,
            ),
{
    let step: u128 = indent(depth);
    let mut places: Vec<Place> = Vec::new();
    let mut i: usize = 0;
    while i < columns.len()
        invariant
            i <= columns@.len(),
            places@.len() == i,
            step == depth * INDENT,
            step <= usize::MAX * 12,
            forall|j: int|
                0 <= j < i ==> #[trigger] places@[j] == place_of(
                    columns@[j],
                    columns@[j] == columns@[0],
                    depth * INDENT,
                    compact,
                ),
        decreases columns@.len() - i,
    {
        let column: Column = columns[i];
        let pad: u128 = padding_of(column) as u128;
        let more: u128 = if column == columns[0] { step } else { 0 };
        let width: Option<u128> = match column {
            Column::Name => None,
            Column::Actions => Some((if compact { ACTIONS_COMPACT } else { ACTIONS }) as u128 + more),
            _ => Some(width_of(column) as u128 + more),
        };
        places.push(Place { width, left: pad + more, right: pad });
        i += 1;
    }
    places
}

// -- What holds of all rows --

/// The menu of a row offers one eye: to open it or to look at it, and never both.
pub proof fn the_menu_offers_one_eye(view: ViewId, row: row::RowView)
    ensures
        look_items(view, row).len() == 0 || forall|i: int|
            0 <= i < main_items(view, row).len() ==> (#[trigger] main_items(view, row)[i]).mark != Some(Glyph::Eye),
{
}

/// No two states of an outline are explained by one hint.
pub proof fn outline_hints_differ(a: OnOutline, b: OnOutline)
    requires
        a != b,
    ensures
        outline_look(a).1 != outline_look(b).1,
{
    reveal_strlit("Очертить на шаре");
    reveal_strlit("Убрать контур — спрашиваем каталог…");
    reveal_strlit("Убрать контур — геометрии у снимка нет");
    reveal_strlit("Переспросить контур — не спросился");
    reveal_strlit("Убрать контур с шара");
    assert("Очертить на шаре"@.len() == 16);
    assert("Убрать контур — спрашиваем каталог…"@.len() == 35);
    assert("Убрать контур — геометрии у снимка нет"@.len() == 38);
    assert("Переспросить контур — не спросился"@.len() == 34);
    assert("Убрать контур с шара"@.len() == 20);
}

/// What the provider knows cannot be shown is not offered, and why is said: by a button
/// that stays in its place and cannot be pressed, and not by an item of a menu.
pub proof fn what_cannot_be_shown_says_why(view: ViewId, row: row::RowView)
    requires
        row.is_snapshot(),
        row.snapshot_key().len() > 0,
        row.unviewable.len() > 0,
    ensures
        quick_buttons(view, row).len() == 3,
        quick_buttons(view, row)[1].glyph == Glyph::Globe,
        quick_buttons(view, row)[1].hint == row.unviewable,
        quick_buttons(view, row)[1].deed is None,
        quick_buttons(view, row)[1].tone == IconTone::Idle,
        forall|i: int|
            0 <= i < as_items(quick_buttons(view, row)).len() ==> (#[trigger] as_items(
                quick_buttons(view, row),
            )[i]).mark != Some(Glyph::Globe),
        look_items(view, row).len() == 0,
{
    let all = quick_buttons(view, row);
    reveal_with_fuel(as_items, 4);
    assert(all.drop_last().drop_last().drop_last().len() == 0);
}

/// What did not work out the last time can be tried again: its button warns, says why, and
/// does what it did.
pub proof fn what_came_to_nothing_can_be_tried_again(view: ViewId, row: row::RowView)
    requires
        row.is_snapshot(),
        row.snapshot_key().len() > 0,
        row.unviewable.len() == 0,
        row.unshowable.len() > 0,
    ensures
        quick_buttons(view, row)[1].hint == row.unshowable,
        quick_buttons(view, row)[1].deed == Some(deed::Deed::GlobeToggle(view, row.snapshot_key())),
        quick_buttons(view, row)[1].tone == IconTone::Warn,
{
}

/// The button of the outline burns when the outline is drawn, and only then; it stands
/// at rest when none was asked for, and only then.
pub proof fn the_outline_burns_when_drawn(row: row::RowView)
    ensures
        (outline_button(row).tone == IconTone::Lit) == (row.outlined is Drawn),
        (outline_button(row).tone == IconTone::Rest) == (row.outlined is Off),
{
}

// -- What a row offers --

/// The button of a row does what its state calls for: it breaks a download off or goes on
/// with one, fetches what is not here and opens what is; a folder is entered, and a snapshot
/// of the library has no button.
pub proof fn the_button_does_what_the_state_calls_for(view: ViewId, row: row::RowView)
    ensures
        ({
            let action = main_action(view, row);
            let file = !row.folded && row.kind != (RowKind::Product { folder: true }) && !(row.kind is Folder);
            &&& row.folded ==> action is None
            &&& action matches Some(one) ==> (one.transition <==> row.kind is Folder || row.kind == (RowKind::Product {
                folder: true,
            }))
            &&& !row.folded && !file ==> (action is Some <==> row.identifier.len() > 0)
            &&& !file ==> (action matches Some(one) ==> one.glyph is Enter && one.deed == deed::Deed::Enter(
                view,
                row.identifier,
            ))
            &&& file && row.status is Complete ==> (action is Some <==> row.name.len() > 0)
            &&& file && row.status is Partial ==> action is None
            &&& file && (row.status is Downloading || row.status is Paused || row.status is Remote) ==> (action is Some
                <==> row.identifier.len() > 0)
            &&& file && row.status is Complete ==> (action matches Some(one) ==> one.glyph is Eye && one.deed
                == deed::Deed::Preview(view, row.name))
            &&& file && !(row.status is Complete) ==> (action matches Some(one) ==> {
                &&& one.deed == deed::Deed::Download { identifier: row.identifier, product: row.product }
                &&& one.glyph is Pause <==> row.status is Downloading
                &&& one.glyph is Play <==> row.status is Paused
                &&& one.glyph is Download <==> row.status is Remote
            })
        }),
{
}

/// A press on a row does what its button does, and opens or closes a row without a button.
pub proof fn a_press_does_what_the_button_does(view: ViewId, row: row::RowView)
    ensures
        main_action(view, row) matches Some(one) ==> press_of(view, row) == Some(one.deed),
        main_action(view, row) is None && (row.folded || row.group is Some || row.kind is Folder || row.kind
            == (RowKind::Product { folder: true })) ==> press_of(view, row) == Some(deed::Deed::Expand(view, row.key())),
        main_action(view, row) is None && !row.folded && row.group is None && !(row.kind is Folder) && row.kind
            != (RowKind::Product { folder: true }) ==> press_of(view, row) is None,
{
}

/// A menu has an item that does this.
pub open spec fn offers(items: Seq<menu::ItemView>, what: deed::Deed) -> bool {
    exists|i: int| 0 <= i < items.len() && (#[trigger] items[i]).deed == Some(what)
}

/// Two menus in one offer what either offered.
proof fn both_offer(a: Seq<menu::ItemView>, b: Seq<menu::ItemView>, what: deed::Deed)
    ensures
        offers(a + b, what) == (offers(a, what) || offers(b, what)),
{
    let both = a + b;
    if offers(both, what) {
        let i = choose|i: int| 0 <= i < both.len() && (#[trigger] both[i]).deed == Some(what);
        if i < a.len() {
            assert(a[i] == both[i]);
        } else {
            assert(b[i - a.len()] == both[i]);
        }
    }
    if offers(a, what) {
        let i = choose|i: int| 0 <= i < a.len() && (#[trigger] a[i]).deed == Some(what);
        assert(both[i] == a[i]);
    }
    if offers(b, what) {
        let i = choose|i: int| 0 <= i < b.len() && (#[trigger] b[i]).deed == Some(what);
        assert(both[i + a.len()] == b[i]);
    }
}

/// A menu of one item, or of none.
proof fn one_offers(reason: bool, item: menu::ItemView, what: deed::Deed)
    ensures
        offers(if_so(reason, item), what) == (reason && item.deed == Some(what)),
{
    if reason {
        assert(if_so(reason, item)[0] == item);
    }
}

/// What the parts of the menu of a row offer, together.
proof fn the_parts_offer(view: ViewId, row: row::RowView, here: Seq<char>, what: deed::Deed)
    ensures
        offers(row_menu(view, row, here), what) == (offers(main_items(view, row), what) || offers(whole_items(row), what)
            || offers(look_items(view, row), what) || offers(globe_items(view, row), what) || offers(
            catalog_items(view, row, here),
            what,
        ) || offers(remote_items(view, row), what) || offers(again_items(row), what) || offers(disk_items(row), what)
            || offers(snapshot_items(row), what)),
{
    let m1 = main_items(view, row);
    let m2 = m1 + whole_items(row);
    let m3 = m2 + look_items(view, row);
    let m4 = m3 + globe_items(view, row);
    let m5 = m4 + catalog_items(view, row, here);
    let m6 = m5 + remote_items(view, row);
    let m7 = m6 + again_items(row);
    let m8 = m7 + disk_items(row);
    both_offer(m1, whole_items(row), what);
    both_offer(m2, look_items(view, row), what);
    both_offer(m3, globe_items(view, row), what);
    both_offer(m4, catalog_items(view, row, here), what);
    both_offer(m5, remote_items(view, row), what);
    both_offer(m6, again_items(row), what);
    both_offer(m7, disk_items(row), what);
    both_offer(m8, snapshot_items(row), what);
}

/// Each part of the menu by itself.
proof fn each_part_offers(view: ViewId, row: row::RowView, here: Seq<char>, what: deed::Deed)
    ensures
        offers(main_items(view, row), what) == (main_action(view, row) matches Some(one) && !one.transition && one.deed
            == what),
        offers(whole_items(row), what) == (row.kind == (RowKind::Product { folder: true }) && row.snapshot_key().len() > 0
            && !(row.status is Complete) && what == deed::Deed::DownloadSnapshot(row.snapshot_key())),
        offers(look_items(view, row), what) == (row.is_snapshot() && row.unviewable.len() == 0 && row.snapshot_key().len()
            > 0 && !(row.status is Complete && !row.kind.is_folder_spec()) && what == deed::Deed::PreviewProduct(
            view,
            row.snapshot_key(),
        )),
        offers(globe_items(view, row), what) == (row.identifier.len() > 0 && !row.is_snapshot() && !(row.kind is Folder)
            && what == deed::Deed::GlobeToggle(view, row.product_key())),
        offers(catalog_items(view, row, here), what) == (row.folder().len() > 0 && !text::ends_in(
            row::bare_key(here),
            row.folder(),
        ) && what == deed::Deed::InCatalog(view, row.snapshot_key())),
        offers(remote_items(view, row), what) == (!row.kind.is_folder_spec() && row.identifier.len() > 0
            && row.status is Remote && what == deed::Deed::PreviewRemote(view, row.identifier)),
        offers(again_items(row), what) == (row.identifier.len() > 0 && !row.folded && row.status is Complete && what
            == deed::Deed::Download { identifier: row.identifier, product: row.product }),
        offers(disk_items(row), what) == (row.name.len() > 0 && !(row.status is Remote) && (what == deed::Deed::Reveal(
            row.name,
        ) || what == deed::Deed::Delete(row.name))),
        offers(snapshot_items(row), what) == (row.product.len() > 0 && (is_loading(row) && what
            == deed::Deed::PauseSnapshot(row.product) || row.folded && what == deed::Deed::DeleteSnapshot(row.product))),
{
    if let Some(action) = main_action(view, row) {
        one_offers(
            !action.transition,
            menu::ItemView { mark: Some(action.glyph), ..menu::plain_item(action.hint, action.deed) },
            what,
        );
    }
    let label = if row.size > 0 {
        "Скачать снимок целиком — "@ + bytes_said(row.size)
    } else {
        "Скачать снимок целиком"@
    };
    one_offers(
        row.kind == (RowKind::Product { folder: true }) && row.snapshot_key().len() > 0 && !(row.status is Complete),
        menu::ItemView {
            mark: Some(Glyph::Download),
            ..menu::plain_item(label, deed::Deed::DownloadSnapshot(row.snapshot_key()))
        },
        what,
    );
    one_offers(
        row.is_snapshot() && row.unviewable.len() == 0 && row.snapshot_key().len() > 0 && !(row.status is Complete
            && !row.kind.is_folder_spec()),
        menu::ItemView {
            mark: Some(Glyph::Eye),
            ..menu::plain_item("Смотреть снимок"@, deed::Deed::PreviewProduct(view, row.snapshot_key()))
        },
        what,
    );
    one_offers(
        row.identifier.len() > 0 && !row.is_snapshot() && !(row.kind is Folder),
        menu::plain_item(
            if row.globe is Off { "Показать снимок на шаре"@ } else { "Снять снимок с шара"@ },
            deed::Deed::GlobeToggle(view, row.product_key()),
        ),
        what,
    );
    one_offers(
        row.folder().len() > 0 && !text::ends_in(row::bare_key(here), row.folder()),
        menu::plain_item("Показать в каталоге"@, deed::Deed::InCatalog(view, row.snapshot_key())),
        what,
    );
    one_offers(
        !row.kind.is_folder_spec() && row.identifier.len() > 0 && row.status is Remote,
        menu::plain_item("Смотреть без скачивания"@, deed::Deed::PreviewRemote(view, row.identifier)),
        what,
    );
    one_offers(
        row.identifier.len() > 0 && !row.folded && row.status is Complete,
        menu::ItemView {
            danger: true,
            ..menu::plain_item(
                "Скачать заново"@,
                deed::Deed::Download { identifier: row.identifier, product: row.product },
            )
        },
        what,
    );
    let stored = row.name.len() > 0 && !(row.status is Remote);
    let reveal = menu::plain_item("Показать в файловом менеджере"@, deed::Deed::Reveal(row.name));
    let words = if row.status is Downloading || row.status is Paused { "Отменить загрузку"@ } else { "Удалить с диска"@ };
    let delete = menu::ItemView { danger: true, ..menu::plain_item(words, deed::Deed::Delete(row.name)) };
    one_offers(stored, reveal, what);
    one_offers(stored, delete, what);
    both_offer(if_so(stored, reveal), if_so(stored, delete), what);
    let pause = menu::plain_item("Приостановить снимок"@, deed::Deed::PauseSnapshot(row.product));
    let drop = menu::ItemView {
        danger: true,
        ..menu::plain_item("Удалить снимок с диска"@, deed::Deed::DeleteSnapshot(row.product))
    };
    one_offers(is_loading(row) && row.product.len() > 0, pause, what);
    one_offers(row.folded && row.product.len() > 0, drop, what);
    both_offer(if_so(is_loading(row) && row.product.len() > 0, pause), if_so(row.folded && row.product.len() > 0, drop), what);
}

/// What has a file here can be deleted and revealed, by the name of its record, and
/// nothing else can.
pub proof fn what_is_here_can_be_deleted(view: ViewId, row: row::RowView, here: Seq<char>, name: Seq<char>)
    ensures
        offers(row_menu(view, row, here), deed::Deed::Delete(name)) <==> name == row.name && row.name.len() > 0 && !(
        row.status is Remote),
        offers(row_menu(view, row, here), deed::Deed::Reveal(name)) <==> name == row.name && row.name.len() > 0 && !(
        row.status is Remote),
{
    the_parts_offer(view, row, here, deed::Deed::Delete(name));
    each_part_offers(view, row, here, deed::Deed::Delete(name));
    the_parts_offer(view, row, here, deed::Deed::Reveal(name));
    each_part_offers(view, row, here, deed::Deed::Reveal(name));
}

/// A file is fetched by its own key and with its own snapshot: one that is not here, one
/// that is on its way, and, once more, one that is here.
pub proof fn what_has_a_key_can_be_fetched(view: ViewId, row: row::RowView, here: Seq<char>, key: Seq<char>, product: Seq<char>)
    ensures
        offers(row_menu(view, row, here), deed::Deed::Download { identifier: key, product }) <==> {
            &&& key == row.identifier && product == row.product
            &&& row.identifier.len() > 0 && !row.folded
            &&& row.status is Complete || !(row.status is Partial) && !(row.kind is Folder) && row.kind
                != (RowKind::Product { folder: true })
        },
{
    the_parts_offer(view, row, here, deed::Deed::Download { identifier: key, product });
    each_part_offers(view, row, here, deed::Deed::Download { identifier: key, product });
}

/// A snapshot that is a folder is fetched whole until it is here; one that is on its way is
/// stopped, and one of the library is deleted, by the key of the snapshot.
pub proof fn a_snapshot_is_handled_whole(view: ViewId, row: row::RowView, here: Seq<char>, key: Seq<char>)
    ensures
        offers(row_menu(view, row, here), deed::Deed::DownloadSnapshot(key)) <==> {
            &&& key == row::bare_key(row.identifier) && key.len() > 0
            &&& row.kind == (RowKind::Product { folder: true })
            &&& !(row.status is Complete)
        },
        offers(row_menu(view, row, here), deed::Deed::DeleteSnapshot(key)) <==> key == row.product && key.len() > 0
            && row.folded,
        offers(row_menu(view, row, here), deed::Deed::PauseSnapshot(key)) <==> {
            &&& key == row.product && key.len() > 0
            &&& row.folded ==> exists|i: int|
                0 <= i < row.children.len() && (#[trigger] row.children[i]).status is Downloading
            &&& !row.folded ==> row.status is Downloading && (row.kind is Folder || row.kind == (RowKind::Product {
                folder: true,
            }))
        },
{
    the_parts_offer(view, row, here, deed::Deed::DownloadSnapshot(key));
    each_part_offers(view, row, here, deed::Deed::DownloadSnapshot(key));
    the_parts_offer(view, row, here, deed::Deed::DeleteSnapshot(key));
    each_part_offers(view, row, here, deed::Deed::DeleteSnapshot(key));
    the_parts_offer(view, row, here, deed::Deed::PauseSnapshot(key));
    each_part_offers(view, row, here, deed::Deed::PauseSnapshot(key));
}

/// What is not here is looked at without being fetched; a snapshot that can be shown is
/// looked at by its key; the snapshot of a file is laid on the globe from the file's row;
/// and a record is shown in its folder, unless that folder is shown already.
pub proof fn what_can_be_looked_at(view: ViewId, row: row::RowView, here: Seq<char>, key: Seq<char>)
    ensures
        offers(row_menu(view, row, here), deed::Deed::PreviewRemote(view, key)) <==> key == row.identifier && key.len() > 0
            && row.status is Remote && !(row.kind is Folder) && row.kind != (RowKind::Product { folder: true }),
        offers(row_menu(view, row, here), deed::Deed::Preview(view, key)) <==> key == row.name && key.len() > 0
            && row.status is Complete && !row.folded && !(row.kind is Folder) && row.kind != (RowKind::Product {
            folder: true,
        }),
        offers(row_menu(view, row, here), deed::Deed::PreviewProduct(view, key)) <==> {
            &&& key == row::bare_key(row.identifier) && key.len() > 0
            &&& row.is_snapshot() && row.unviewable.len() == 0
            &&& !(row.status is Complete) || row.kind is Folder || row.kind == (RowKind::Product { folder: true })
        },
        offers(row_menu(view, row, here), deed::Deed::GlobeToggle(view, key)) <==> key == row.product_key()
            && row.identifier.len() > 0 && !row.is_snapshot() && !(row.kind is Folder),
        offers(row_menu(view, row, here), deed::Deed::InCatalog(view, key)) <==> key == row::bare_key(row.identifier)
            && row::parent(row.identifier).len() > 0 && !text::ends_in(row::bare_key(here), row::parent(row.identifier)),
        !offers(row_menu(view, row, here), deed::Deed::Enter(view, key)),
{
    the_parts_offer(view, row, here, deed::Deed::PreviewRemote(view, key));
    each_part_offers(view, row, here, deed::Deed::PreviewRemote(view, key));
    the_parts_offer(view, row, here, deed::Deed::Preview(view, key));
    each_part_offers(view, row, here, deed::Deed::Preview(view, key));
    the_parts_offer(view, row, here, deed::Deed::PreviewProduct(view, key));
    each_part_offers(view, row, here, deed::Deed::PreviewProduct(view, key));
    the_parts_offer(view, row, here, deed::Deed::GlobeToggle(view, key));
    each_part_offers(view, row, here, deed::Deed::GlobeToggle(view, key));
    the_parts_offer(view, row, here, deed::Deed::InCatalog(view, key));
    each_part_offers(view, row, here, deed::Deed::InCatalog(view, key));
    the_parts_offer(view, row, here, deed::Deed::Enter(view, key));
    each_part_offers(view, row, here, deed::Deed::Enter(view, key));
}

/// What takes a file away or fetches it over itself is marked as dangerous, and nothing
/// else is.
pub proof fn danger_is_marked(view: ViewId, row: row::RowView, here: Seq<char>, i: int)
    requires
        0 <= i < row_menu(view, row, here).len(),
    ensures
        ({
            let item = row_menu(view, row, here)[i];
            item.deed matches Some(what) && (item.danger <==> {
                ||| what is Delete
                ||| what is DeleteSnapshot
                ||| what is Download && row.status is Complete
            })
        }),
{
    let m1 = main_items(view, row);
    let m2 = m1 + whole_items(row);
    let m3 = m2 + look_items(view, row);
    let m4 = m3 + globe_items(view, row);
    let m5 = m4 + catalog_items(view, row, here);
    let m6 = m5 + remote_items(view, row);
    let m7 = m6 + again_items(row);
    let m8 = m7 + disk_items(row);
    let item = row_menu(view, row, here)[i];
    if i < m1.len() {
        assert(item == m1[i]);
    } else if i < m2.len() {
        assert(item == whole_items(row)[i - m1.len()]);
    } else if i < m3.len() {
        assert(item == look_items(view, row)[i - m2.len()]);
    } else if i < m4.len() {
        assert(item == globe_items(view, row)[i - m3.len()]);
    } else if i < m5.len() {
        assert(item == catalog_items(view, row, here)[i - m4.len()]);
    } else if i < m6.len() {
        assert(item == remote_items(view, row)[i - m5.len()]);
    } else if i < m7.len() {
        assert(item == again_items(row)[i - m6.len()]);
    } else if i < m8.len() {
        assert(item == disk_items(row)[i - m7.len()]);
    } else {
        assert(item == snapshot_items(row)[i - m8.len()]);
    }
}

/// What takes a row off the disk is called so, and by another name while it is on its way.
pub proof fn a_deletion_is_called_by_what_it_does(row: row::RowView)
    requires
        row.name.len() > 0,
        !(row.status is Remote),
    ensures
        ({
            let items = disk_items(row);
            &&& items.len() == 2
            &&& items[0].label == "Показать в файловом менеджере"@
            &&& row.status is Downloading || row.status is Paused ==> items[1].label == "Отменить загрузку"@
            &&& row.status is Complete || row.status is Partial ==> items[1].label == "Удалить с диска"@
        }),
{
}

/// What the state of a row is called and how it looks: a trouble is said in its own words
/// and in red, a row that is here or on its way is lit, one that was broken off warns.
pub proof fn a_state_is_told_by_its_look(status: row::StatusView)
    ensures
        status is Complete ==> look_of(status) == (Ink::Accent, "на диске"@, Ink::AccentText),
        status is Remote ==> look_of(status) == (Ink::Line, "в хранилище"@, Ink::Dim),
        status matches row::StatusView::Downloading { done, total } ==> {
            &&& look_of(status).0 is Accent && look_of(status).2 is AccentText
            &&& total == 0 ==> look_of(status).1 == "скачивается"@
        },
        status matches row::StatusView::Paused { done, total, trouble } ==> {
            &&& trouble.len() > 0 ==> look_of(status) == (Ink::Danger, trouble, Ink::DangerText)
            &&& trouble.len() == 0 ==> look_of(status).0 is Warn && look_of(status).2 is WarnText
            &&& trouble.len() == 0 && total == 0 ==> look_of(status).1 == "прервано"@
        },
        status matches row::StatusView::Partial { done, trouble } ==> {
            &&& trouble.len() > 0 ==> look_of(status) == (Ink::Danger, trouble, Ink::DangerText)
            &&& trouble.len() == 0 ==> look_of(status).0 is Accent && look_of(status).1 == crate::number::written(
                done as nat,
            ) + " на диске"@
        },
        reason_of(status) is Some <==> look_of(status).0 is Danger,
{
}

/// A bar shows how much is here of how much there is, lit while it grows and warning while
/// it does not; where the whole is not known there is no bar.
pub proof fn a_bar_shows_how_much_is_here(status: row::StatusView)
    ensures
        status matches row::StatusView::Downloading { done, total } ==> {
            &&& total > 0 ==> progress_cell_of(status) == (CellView::Progress { ink: Ink::Accent, done, total })
            &&& total == 0 ==> progress_cell_of(status) is Nothing
        },
        status matches row::StatusView::Paused { done, total, trouble } ==> {
            &&& total > 0 ==> progress_cell_of(status) == (CellView::Progress { ink: Ink::Warn, done, total })
            &&& total == 0 ==> progress_cell_of(status) is Nothing
        },
        status is Complete || status is Remote || status is Partial ==> progress_cell_of(status) is Nothing,
{
}

/// A box is ticked where its row is chosen, and a press on it turns the choice of that row;
/// a folder has no box, and a row without a key has one that cannot be pressed.
pub proof fn a_box_is_ticked_where_its_row_is_chosen(view: ViewId, row: row::RowView, context: Context<'_>)
    ensures
        row.kind is Folder ==> check_cell(view, row, context) is Nothing,
        !(row.kind is Folder) && row.choice_key().len() == 0 ==> (check_cell(view, row, context) matches CellView::Check {
            marked,
            hint,
            deed,
        } && marked is None && deed is None),
        !(row.kind is Folder) && row.choice_key().len() > 0 ==> (check_cell(view, row, context) matches CellView::Check {
            marked,
            hint,
            deed,
        } && {
            &&& marked == Some(context.listing.selected@.contains_key(row.choice_key()))
            &&& deed == Some(deed::Deed::Check(view, row.choice_key()))
            &&& context.listing.selected@.contains_key(row.choice_key()) ==> hint == "Снять выбор"@
            &&& !context.listing.selected@.contains_key(row.choice_key()) ==> hint == "Выбрать"@
        }),
{
}

/// A row that has something in it can be opened by its key, and says whether it is open.
pub proof fn a_twist_says_whether_its_row_is_open(view: ViewId, row: row::RowView, context: Context<'_>)
    ensures
        row.folded || row.group is Some || row.kind is Folder || row.kind == (RowKind::Product { folder: true }) ==> (
        twist_cell(view, row, context) matches CellView::Twist { open, deed } && open
            == context.listing.expanded@.contains(row.key()) && deed == deed::Deed::Expand(view, row.key())),
        !row.folded && row.group is None && !(row.kind is Folder) && row.kind != (RowKind::Product { folder: true })
            ==> twist_cell(view, row, context) is Nothing,
{
}

/// The row of the snapshot that is picked on the globe is lit, and so is the row that the
/// list was walked to; of the others those that are chosen are marked.
pub proof fn a_picked_row_is_lit(row: row::RowView, context: Context<'_>)
    ensures
        context.picked@.len() > 0 && row::bare_key(row.identifier) == context.picked@ ==> tint_of(row, context) is Picked,
        row.named(context.target@) ==> tint_of(row, context) is Picked,
        (context.picked@.len() == 0 || row::bare_key(row.identifier) != context.picked@) && !row.named(context.target@) ==> {
            &&& context.listing.selected@.contains_key(row.choice_key()) ==> tint_of(row, context) is Marked
            &&& !context.listing.selected@.contains_key(row.choice_key()) ==> tint_of(row, context) is Plain
        },
{
}

/// The box over a list is ticked where all that is shown is chosen; a press on it then lets
/// all of it go, and else takes all of it in.
pub proof fn the_box_over_a_list_turns_all(view: ViewId, all: bool)
    ensures
        header_cell(view, all, Column::Check) matches CellView::Check { marked, hint, deed } && {
            &&& marked == Some(all)
            &&& deed == Some(deed::Deed::CheckShown(view, !all))
            &&& all ==> hint == "Снять выбор с показанного"@
            &&& !all ==> hint == "Выбрать показанное"@
        },
        header_cell(view, all, Column::Name) == CellView::Label("ИМЯ"@),
        header_cell(view, all, Column::Format) == CellView::Label("ФОРМАТ"@),
        header_cell(view, all, Column::Date) == CellView::Label("ДАТА"@),
        header_cell(view, all, Column::Size) == CellView::Label("РАЗМЕР"@),
        header_cell(view, all, Column::Status) == CellView::Label("СОСТОЯНИЕ"@),
        header_cell(view, all, Column::Progress) == CellView::Label("ЗАГРУЗКА"@),
{
}

/// A snapshot has its three buttons, each by the key of the snapshot, and no other row has
/// any; what lies on the globe or is drawn there can be aimed at, and nothing else can.
pub proof fn a_snapshot_has_its_three_buttons(view: ViewId, row: row::RowView)
    ensures
        ({
            let all = quick_buttons(view, row);
            let key = row::bare_key(row.identifier);
            &&& !row.is_snapshot() || key.len() == 0 ==> all.len() == 0
            &&& row.is_snapshot() && key.len() > 0 ==> {
                &&& all.len() == 3
                &&& all[0].glyph is Outline && all[1].glyph is Globe && all[2].glyph is Focus
                &&& all[0].deed == Some(deed::Deed::OutlineToggle(key))
                &&& row.unviewable.len() == 0 ==> all[1].deed == Some(deed::Deed::GlobeToggle(view, key))
                &&& row.outlined is Drawn || row.globe is Assembling || row.globe is Laid ==> all[2].deed == Some(
                    deed::Deed::OutlineFocus(key),
                )
                &&& !(row.outlined is Drawn) && (row.globe is Off || row.globe is Asked) ==> all[2].deed is None
            }
        }),
{
}

/// The button of the globe burns where the snapshot lies in sight, burns half where it is
/// on its way or hidden, and rests where it is not there.
pub proof fn the_globe_burns_when_it_is_seen(view: ViewId, row: row::RowView)
    requires
        row.unviewable.len() == 0,
        row.unshowable.len() == 0,
    ensures
        globe_button(view, row).tone is Lit <==> (row.globe matches OnGlobe::Laid { hidden, progress } && !hidden),
        globe_button(view, row).tone is Rest <==> row.globe is Off,
        globe_button(view, row).tone is Half <==> row.globe is Asked || row.globe is Assembling || (
        row.globe matches OnGlobe::Laid { hidden, progress } && hidden),
        row.globe is Off ==> globe_button(view, row).hint == "Показать на шаре"@,
{
}

/// The strip under a row grows with the work on its snapshot, and is there only while the
/// snapshot is on the globe or on its way to it.
pub proof fn the_strip_follows_the_work(row: row::RowView)
    ensures
        row.globe is Off || !row.is_snapshot() ==> strip_of(row) is Absent,
        row.is_snapshot() && (row.globe is Asked || row.globe is Assembling) ==> (strip_of(row) matches StripView::Bar {
            ink,
            share,
            hint,
        } && ink is AccentHalf && share == WHOLE),
        row.is_snapshot() ==> (row.globe matches OnGlobe::Laid { hidden, progress } ==> {
            &&& !progress.working ==> strip_of(row) is Blank
            &&& progress.working && !progress.blank ==> (strip_of(row) matches StripView::Bar { ink, share, hint }
                && ink is Accent && share == progress.share)
            &&& progress.working && progress.blank ==> (strip_of(row) matches StripView::Bar { ink, share, hint }
                && ink is AccentHalf && share == WHOLE)
        }),
{
}

/// Each column shows its own side of a row.
pub proof fn each_column_shows_its_own(view: ViewId, row: row::RowView, context: Context<'_>, room: nat)
    ensures
        entry_cell(view, row, context, room, Column::Icon) matches CellView::Icon { glyph, ink } && {
            &&& glyph is Satellite <==> row.kind is Product
            &&& glyph is Folder <==> row.kind is Folder
            &&& glyph is Image || glyph is File <==> row.kind is File
            &&& ink is Faint <==> row.kind is File
        },
        entry_cell(view, row, context, room, Column::Name) matches CellView::Name { title, plain } && {
            &&& plain <==> row.kind is Folder || row.kind == (RowKind::Product { folder: true })
            &&& row.title.len() <= room && context.shared.0 == 0 && context.shared.1 == 0 ==> title == row.title
        },
        entry_cell(view, row, context, room, Column::Format) matches CellView::Format(words) && (row.format().len()
            <= context.format_room ==> words == row.format()),
        entry_cell(view, row, context, room, Column::Size) matches CellView::Size(words) && (row.size == 0 <==> words.len()
            == 0),
        row.date <= 0 ==> entry_cell(view, row, context, room, Column::Date) == CellView::Date(Seq::empty()),
        entry_cell(view, row, context, room, Column::Status) matches CellView::Status { dot, label, ink, hint } && dot
            == look_of(row.status).0 && label == look_of(row.status).1,
        entry_cell(view, row, context, room, Column::Progress) == progress_cell_of(row.status),
        entry_cell(view, row, context, room, Column::Check) == check_cell(view, row, context),
        entry_cell(view, row, context, room, Column::Twist) == twist_cell(view, row, context),
{
    reveal_strlit(" ");
    assert(" "@.len() == 1);
}

/// In little room the buttons go into the menu, those that can be pressed and in their
/// order, before the menu of the row; else they stand in the row, and the menu is its own.
pub proof fn buttons_move_into_the_menu(view: ViewId, row: row::RowView, context: Context<'_>)
    ensures
        ({
            let buttons = buttons_of(view, row, context);
            let own = row_menu(view, row, context.here@);
            &&& !context.compact ==> buttons.quick == quick_buttons(view, row) && buttons.items == own
            &&& context.compact ==> buttons.quick.len() == 0 && buttons.items.len() >= own.len() && buttons.items.skip(
                buttons.items.len() - own.len(),
            ) == own
            &&& buttons.menu is Some <==> buttons.items.len() > 0
            &&& buttons.menu matches Some(button) ==> {
                &&& button.deed == deed::Deed::OpenMenu(view, Some("row:"@ + row.key()))
                &&& button.dismiss == deed::Deed::OpenMenu(view, None)
                &&& button.tone is Raised <==> button.open
                &&& button.open <==> (context.menu matches Some(menu) && menu.key_spec() == "row:"@ + row.key())
            }
        }),
{
    let own = row_menu(view, row, context.here@);
    let buttons = buttons_of(view, row, context);
    if context.compact {
        let moved = as_items(quick_buttons(view, row));
        assert((moved + own).skip(moved.len() as int) =~= own);
    } else {
        assert(Seq::<menu::ItemView>::empty() + own =~= own);
    }
}

/// A button that can be pressed becomes one item, under its own sign and name; one that
/// cannot becomes none.
pub proof fn a_button_becomes_an_item(buttons: Seq<QuickView>, more: QuickView)
    ensures
        as_items(Seq::empty()).len() == 0,
        more.deed is None ==> as_items(buttons.push(more)) == as_items(buttons),
        more.deed is Some ==> {
            let items = as_items(buttons.push(more));
            &&& items.len() == as_items(buttons).len() + 1
            &&& items.drop_last() == as_items(buttons)
            &&& items.last().deed == more.deed
            &&& items.last().label == more.label
            &&& items.last().mark == Some(more.glyph)
            &&& !items.last().danger
        },
{
    assert(buttons.push(more).drop_last() =~= buttons);
    if more.deed is Some {
        assert(as_items(buttons.push(more)).drop_last() =~= as_items(buttons));
    }
}

/// A heading stands still, under its own name and with its count; a line that waits says so.
pub proof fn a_heading_stands_still(title: Seq<char>, meta: Seq<char>, depth: usize, context: Context<'_>, room: nat, i: int)
    requires
        0 <= i < context.columns@.len(),
    ensures
        ({
            let line = group_drawn(title, meta, depth, context, room);
            let wait = waiting_drawn(depth, context);
            &&& line.press is None && wait.press is None
            &&& line.depth == depth && wait.depth == depth
            &&& line.cells.len() == context.columns@.len() && wait.cells.len() == context.columns@.len()
            &&& context.columns@[i] is Name && title.len() <= room ==> line.cells[i] == (CellView::Name { title, plain: true })
            &&& context.columns@[i] is Status ==> line.cells[i] == CellView::Meta(meta)
            &&& context.columns@[i] is Icon ==> line.cells[i] == (CellView::Icon { glyph: Glyph::Folder, ink: Ink::Accent })
            &&& context.columns@[i] is Name <==> wait.cells[i] == CellView::Waiting("загружается…"@)
            &&& context.columns@[i] is Check ==> line.cells[i] is Nothing
        }),
{
}

/// A row is moved in by its depth, and its cells are the columns of the table.
pub proof fn a_row_is_drawn_by_its_columns(view: ViewId, row: row::RowView, depth: usize, context: Context<'_>, room: nat, i: int)
    requires
        0 <= i < context.columns@.len(),
    ensures
        ({
            let line = entry_drawn(view, row, depth, context, room);
            &&& line.depth == depth
            &&& line.key == row.key()
            &&& line.tint == tint_of(row, context)
            &&& line.press == press_of(view, row)
            &&& line.cells.len() == context.columns@.len()
            &&& line.cells[i] == entry_cell(view, row, context, room, context.columns@[i])
            &&& line.height + (if line.strip is Absent { 0int } else { 3 }) == 30
        }),
{
}

/// Only the first column is moved in with the depth of its row, by so much that the columns
/// behind it stay under each other; the name takes what is left.
pub proof fn columns_stay_under_each_other(column: Column, step: int, compact: bool)
    requires
        0 <= step <= 0xffff_ffff_ffff_ffff_ffff,
    ensures
        ({
            let still = place_of(column, false, step, compact);
            let moved = place_of(column, true, step, compact);
            &&& still.width is None <==> column is Name
            &&& moved.width is None <==> column is Name
            &&& moved.left == still.left + step
            &&& moved.right == still.right
            &&& still.left == still.right
            &&& still.left == 0 <==> column is Check || column is Twist
            &&& !(column is Name) ==> moved.width->0 == still.width->0 + step
            &&& column is Actions && compact ==> still.width == Some(40u128)
            &&& column is Actions && !compact ==> still.width == Some(130u128)
        }),
{
}

/// Where there is little room the columns leave in turn: the bar first, then the day, the
/// size, the state, the format and the icon; where there is room for the name none leaves.
pub proof fn columns_leave_in_turn(width: nat, optional: Optional)
    ensures
        ({
            let kept = fitted(width, possible(optional), drop_order());
            &&& kept.contains(Column::Progress) ==> kept.contains(Column::Date)
            &&& kept.contains(Column::Date) ==> kept.contains(Column::Size)
            &&& kept.contains(Column::Size) ==> kept.contains(Column::Status)
            &&& kept.contains(Column::Status) ==> kept.contains(Column::Format)
            &&& kept.contains(Column::Format) ==> kept.contains(Column::Icon)
            &&& width >= room_taken(possible(optional), false) + 150 ==> kept == possible(optional)
        }),
{
    let all = all_columns();
    assert(all[2] is Icon && all[4] is Format && all[5] is Date && all[6] is Size && all[7] is Status && all[8] is Progress);
    let checked = if optional.checkable { all } else { without(all, Column::Check) };
    let order = drop_order();
    assert(order[0] is Progress && order[1] is Date && order[2] is Size && order[3] is Status && order[4] is Format
        && order[5] is Icon);
    assert forall|i: int| 0 <= i < order.len() implies possible(optional).contains(#[trigger] order[i]) by {
        assert(all.contains(order[i]));
        without_keeps(all, Column::Check, order[i]);
        without_keeps(checked, Column::Twist, order[i]);
    }
    in_turn(width, possible(optional), order, 0, 1);
    in_turn(width, possible(optional), order, 1, 2);
    in_turn(width, possible(optional), order, 2, 3);
    in_turn(width, possible(optional), order, 3, 4);
    in_turn(width, possible(optional), order, 4, 5);
}

/// What is kept was there.
proof fn what_is_kept_was_there(width: nat, columns: Seq<Column>, order: Seq<Column>, column: Column)
    ensures
        fitted(width, columns, order).contains(column) ==> columns.contains(column),
    decreases order.len(),
{
    if order.len() > 0 && width < room_taken(columns, false) + NAME_MIN {
        what_is_kept_was_there(width, without(columns, order[0]), order.skip(1), column);
        without_keeps(columns, order[0], column);
    }
}

/// A column does not outlast one behind it in the order.
proof fn in_turn(width: nat, columns: Seq<Column>, order: Seq<Column>, i: int, j: int)
    requires
        0 <= i < j < order.len(),
        order.no_duplicates(),
        columns.contains(order[j]),
    ensures
        fitted(width, columns, order).contains(order[i]) ==> fitted(width, columns, order).contains(order[j]),
    decreases order.len(),
{
    if width < room_taken(columns, false) + NAME_MIN {
        let less = without(columns, order[0]);
        let rest = order.skip(1);
        assert(order[j] != order[0]);
        without_keeps(columns, order[0], order[j]);
        assert(rest[j - 1] == order[j]);
        if i == 0 {
            what_is_kept_was_there(width, less, rest, order[0]);
            without_keeps(columns, order[0], order[0]);
        } else {
            assert(rest[i - 1] == order[i]);
            assert(rest.no_duplicates()) by {
                assert forall|a: int, b: int| 0 <= a < rest.len() && 0 <= b < rest.len() && a != b implies rest[a]
                    != rest[b] by {
                    assert(rest[a] == order[a + 1] && rest[b] == order[b + 1]);
                }
            }
            in_turn(width, less, rest, i - 1, j - 1);
        }
    }
}

/// How wide the columns are; the name has no width of its own.
pub proof fn how_wide_the_columns_are(columns: Seq<Column>, column: Column, compact: bool)
    ensures
        width_spec(Column::Check) == 20,
        width_spec(Column::Twist) == 14,
        width_spec(Column::Icon) == 34,
        width_spec(Column::Name) == 0,
        width_spec(Column::Format) == 80,
        width_spec(Column::Date) == 88,
        width_spec(Column::Size) == 84,
        width_spec(Column::Status) == 104,
        width_spec(Column::Progress) == 132,
        width_spec(Column::Actions) == 130,
        room_taken(Seq::empty(), compact) == 48,
        !compact || !(column is Actions) ==> room_taken(columns.push(column), compact) == room_taken(columns, compact)
            + width_spec(column),
        compact && column is Actions ==> room_taken(columns.push(column), compact) == room_taken(columns, compact) + 40,
{
    assert(columns.push(column).drop_last() =~= columns);
}

/// What is a picture by its format, and what is none.
pub proof fn a_picture_is_told_by_its_format(row: row::RowView)
    ensures
        is_image("png"@) && is_image("jpg"@) && is_image("jpeg"@) && is_image("tif"@) && is_image("tiff"@) && is_image("jp2"@)
            && is_image("webp"@),
        !is_image("nc"@) && !is_image("xml"@) && !is_image(Seq::empty()),
        row.kind is File ==> (sign(row) is Image <==> is_image(text::lowercased(row.format()))),
{
    reveal_strlit("png");
    reveal_strlit("jpg");
    reveal_strlit("jpeg");
    reveal_strlit("tif");
    reveal_strlit("tiff");
    reveal_strlit("jp2");
    reveal_strlit("webp");
    reveal_strlit("nc");
    reveal_strlit("xml");
    assert("nc"@.len() == 2 && "xml"@.len() == 3);
    assert("png"@.len() == 3 && "jpg"@.len() == 3 && "tif"@.len() == 3 && "jp2"@.len() == 3);
    assert("jpeg"@.len() == 4 && "tiff"@.len() == 4 && "webp"@.len() == 4);
    assert("xml"@[0] == 'x' && "png"@[0] == 'p' && "jpg"@[0] == 'j' && "tif"@[0] == 't' && "jp2"@[0] == 'j');
}

/// What the button of the globe says: what a press will do, and how the work goes.
pub proof fn the_globe_button_says_what_it_will_do(globe: OnGlobe)
    ensures
        globe is Off ==> globe_look(globe).1 == "Показать на шаре"@,
        globe is Asked ==> globe_look(globe).1 == "Отменить показ — спрашиваем каталог…"@,
        globe is Assembling ==> globe_look(globe).1 == "Отменить показ — кладётся на глобус…"@,
        globe matches OnGlobe::Laid { hidden, progress } ==> {
            &&& hidden ==> globe_look(globe).1 == "Снять с шара — сейчас лежит скрытым"@
            &&& !hidden ==> globe_look(globe).1 == "Снять с шара"@
        },
        globe.parts_spec().len() == 0 ==> with_work(globe_look(globe).1, globe) == globe_look(globe).1 && work_said(globe)
            == "Кладётся на глобус"@,
        globe.parts_spec().len() > 0 ==> with_work(globe_look(globe).1, globe) == globe_look(globe).1 + " · "@ + text::joined(
            globe.parts_spec(),
            " · "@,
        ) && work_said(globe) == "Набирается пирамида — "@ + text::joined(globe.parts_spec(), " · "@),
{
}

/// How much is here of how much there is, in the unit of the whole; a word where the whole is
/// not known.
pub proof fn how_much_is_said_in_one_unit(done: u64, total: u64, word: Seq<char>)
    ensures
        total == 0 ==> counted_or(done, total, word) == word,
        0 < total < 1024 && done <= total ==> counted_or(done, total, word) == crate::number::written(done as nat) + "/"@
            + crate::number::written(total as nat) + " "@ + "Б"@,
{
    if 0 < total < 1024 && done <= total {
        crate::components::format::a_small_size_is_kept(total as nat);
        crate::components::format::a_small_size_is_kept(done as nat);
        crate::components::format::a_tenth_is_said_below_ten(done as nat, 0);
        crate::components::format::a_tenth_is_said_below_ten(total as nat, 0);
    }
}

/// Each line is drawn as what it is.
pub proof fn each_line_is_drawn_as_what_it_is(view: ViewId, line: arrange::LineView, context: Context<'_>, room: nat)
    ensures
        line matches arrange::LineView::Entry { row, depth } ==> line_drawn(view, line, context, room) == entry_drawn(
            view,
            row,
            depth,
            context,
            room,
        ),
        line matches arrange::LineView::Group { title, meta, depth } ==> line_drawn(view, line, context, room)
            == group_drawn(title, meta, depth, context, room),
        line matches arrange::LineView::Waiting { depth } ==> line_drawn(view, line, context, room) == waiting_drawn(
            depth,
            context,
        ),
{
}

} // verus!
