//! What stands around the table and changes not the data but how they are shown: the
//! bar of filters, the path and the pages.

use vstd::prelude::*;
use crate::components::arrange::{self, Arranged};
use crate::components::deed;
use crate::components::menu::{self, Item};
use crate::message::{Msg, ViewMsg};
use crate::number;
use crate::state::ids::ViewId;
use crate::state::listing::{Filter, Grouping, ListingState, Menu, Sorting};
use crate::text;

verus! {

broadcast use vstd::string::group_string_axioms;

// -- The bar --

/// The gap between two controls, in twentieths of a point.
pub const GAP: u128 = 140;
/// The edge of the screen on each side, in twentieths of a point.
pub const GUTTER: u128 = 320;
/// The edge inside a control on each side, in twentieths of a point.
pub const PAD: u128 = 220;
/// The gap between the lens of a field and its text, in twentieths of a point.
pub const ICON_GAP: u128 = 160;
/// The room of the caret of a chip, in twentieths of a point.
pub const CARET: u128 = 160;
/// The room of the lens of a field, in twentieths of a point.
pub const LENS: u128 = 220;
/// The size of a label, in tenths of a point.
pub const LABEL: u32 = 120;
/// The size of what is typed, in tenths of a point.
pub const BODY: u32 = 130;

/// A width as far as a bar can be wide.
pub open spec fn capped(width: int) -> u32 {
    if width < u32::MAX { width as u32 } else { u32::MAX }
}

pub fn cap(width: u128) -> (wide: u32)
    ensures
        wide == capped(width as int),
{
    if width < u32::MAX as u128 { width as u32 } else { u32::MAX }
}

/// How a bar lies in its width.
#[derive(PartialEq, Eq, Debug)]
pub enum Shape {
    /// In one line: the field grows, and the controls stand behind it.
    Line,
    /// The field has a line of its own, and the controls lie under it in rows: so many
    /// in each.
    Stack(Vec<usize>),
}

/// How a bar lies, in words.
pub ghost enum ShapeView {
    Line,
    Stack(Seq<usize>),
}

impl View for Shape {
    type V = ShapeView;

    open spec fn view(&self) -> ShapeView {
        match *self {
            Shape::Line => ShapeView::Line,
            Shape::Stack(rows) => ShapeView::Stack(rows@),
        }
    }
}

/// The room that controls take in one line, with a gap before each.
pub open spec fn lined(controls: Seq<u32>) -> int
    decreases controls.len(),
{
    if controls.len() == 0 { 0 } else { lined(controls.drop_last()) + GAP + controls.last() }
}

/// Controls packed into rows, each as full as can be, and the room taken in the last
/// row. A row is never empty: a control wider than all the bar still has to stand
/// somewhere.
pub open spec fn packed(controls: Seq<u32>, free: int) -> (Seq<usize>, int)
    decreases controls.len(),
{
    if controls.len() == 0 {
        (Seq::empty(), 0)
    } else {
        let (rows, taken) = packed(controls.drop_last(), free);
        let wide = controls.last() as int;
        if rows.len() > 0 && taken + GAP + wide <= free {
            (rows.update(rows.len() - 1, (rows.last() + 1) as usize), taken + GAP + wide)
        } else {
            (rows.push(1), wide)
        }
    }
}

/// How a bar lies in a width: in one line while the field has room beside the controls,
/// for the field is what is squeezed first.
pub open spec fn shape_of(width: int, field: int, controls: Seq<u32>) -> ShapeView {
    let free = width - GUTTER * 2;
    if field + lined(controls) <= free { ShapeView::Line } else { ShapeView::Stack(packed(controls, free).0) }
}

/// How many controls the rows hold together.
pub open spec fn held(rows: Seq<usize>) -> int
    decreases rows.len(),
{
    if rows.len() == 0 { 0 } else { held(rows.drop_last()) + rows.last() }
}

proof fn held_one_more(rows: Seq<usize>)
    requires
        rows.len() > 0,
        rows.last() < usize::MAX,
    ensures
        held(rows.update(rows.len() - 1, (rows.last() + 1) as usize)) == held(rows) + 1,
{
    let more = rows.update(rows.len() - 1, (rows.last() + 1) as usize);
    assert(more.drop_last() =~= rows.drop_last());
}

/// No control is lost when the bar is stacked, and no row is empty.
pub proof fn every_control_has_its_row(controls: Seq<u32>, free: int)
    requires
        controls.len() <= usize::MAX,
    ensures
        held(packed(controls, free).0) == controls.len(),
        forall|i: int| 0 <= i < packed(controls, free).0.len() ==> 0 < #[trigger] packed(controls, free).0[i] <= controls.len(),
    decreases controls.len(),
{
    if controls.len() > 0 {
        let front = controls.drop_last();
        every_control_has_its_row(front, free);
        let (rows, taken) = packed(front, free);
        let wide = controls.last() as int;
        if rows.len() > 0 && taken + GAP + wide <= free {
            assert(rows[rows.len() - 1] <= front.len());
            held_one_more(rows);
        } else {
            assert(rows.push(1).drop_last() =~= rows);
        }
    }
}

/// How to lay a bar out in a width. All widths are in twentieths of a point.
pub fn shape(width: u32, field: u32, controls: &Vec<u32>) -> (shape: Shape)
    ensures
        shape@ == shape_of(width as int, field as int, controls@),
{
    let all: u128 = lined_room(controls);
    let count: usize = controls.len();
    assert(all <= 0xffff_ffff_ffff_ffff * 0x1_0000_0100) by (nonlinear_arith)
        requires
            all <= count * 0x1_0000_0100,
            count <= 0xffff_ffff_ffff_ffff,
    ;
    let free: u128 = width as u128;
    if field as u128 + all + GUTTER * 2 <= free {
        return Shape::Line;
    }
    let ghost room = width as int - GUTTER * 2;
    let mut rows: Vec<usize> = Vec::new();
    let mut taken: u128 = 0;
    let mut i: usize = 0;
    assert(rows@ =~= packed(controls@.take(0), room).0);
    while i < controls.len()
        invariant
            i <= controls@.len(),
            room == width as int - GUTTER * 2,
            free == width,
            rows@ == packed(controls@.take(i as int), room).0,
            taken == packed(controls@.take(i as int), room).1,
            taken <= 0x2_0000_0000,
        decreases controls@.len() - i,
    {
        assert(controls@.take(i + 1).drop_last() =~= controls@.take(i as int));
        proof {
            every_control_has_its_row(controls@.take(i as int), room);
        }
        let control: u128 = controls[i] as u128;
        let count: usize = rows.len();
        if count > 0 && taken + GAP + control + GUTTER * 2 <= free {
            assert(rows@[count - 1] <= i);
            let more: usize = rows[count - 1] + 1;
            rows.set(count - 1, more);
            taken = taken + GAP + control;
        } else {
            rows.push(1);
            taken = control;
        }
        i += 1;
    }
    assert(controls@.take(controls@.len() as int) =~= controls@);
    Shape::Stack(rows)
}

fn lined_room(controls: &Vec<u32>) -> (room: u128)
    ensures
        room == lined(controls@),
        room <= controls@.len() * 0x1_0000_0100,
{
    let mut room: u128 = 0;
    let mut i: usize = 0;
    while i < controls.len()
        invariant
            i <= controls@.len(),
            room == lined(controls@.take(i as int)),
            room <= i * 0x1_0000_0100,
        decreases controls@.len() - i,
    {
        assert(controls@.take(i + 1).drop_last() =~= controls@.take(i as int));
        assert(i * 0x1_0000_0100 <= 0xffff_ffff_ffff_ffff * 0x1_0000_0100) by (nonlinear_arith)
            requires
                i <= 0xffff_ffff_ffff_ffff,
        ;
        room = room + GAP + controls[i] as u128;
        i += 1;
    }
    assert(controls@.take(controls@.len() as int) =~= controls@);
    room
}

/// The contents of lines, one behind another.
pub open spec fn flat<T>(lines: Seq<Vec<T>>) -> Seq<T>
    decreases lines.len(),
{
    if lines.len() == 0 { Seq::empty() } else { flat(lines.drop_last()) + lines.last()@ }
}

/// How many things stand in each line.
pub open spec fn counts_in<T>(lines: Seq<Vec<T>>) -> Seq<int> {
    lines.map_values(|line: Vec<T>| line@.len() as int)
}

/// How many things stand in each line of a bar: in one line all of them, else the field
/// alone and then the rows.
pub open spec fn counts_of(width: int, field: int, controls: Seq<u32>) -> Seq<int> {
    match shape_of(width, field, controls) {
        ShapeView::Line => seq![controls.len() as int + 1],
        ShapeView::Stack(rows) => seq![1int] + rows.map_values(|count: usize| count as int),
    }
}

/// A bar laid out: its lines, the field first. Every control stands once, in order.
pub fn bar<T>(width: u32, field: (T, u32), controls: Vec<(T, u32)>) -> (lines: Vec<Vec<T>>)
    ensures
        flat(lines@) == seq![field.0] + controls@.map_values(|control: (T, u32)| control.0),
        counts_in(lines@) == counts_of(
            width as int,
            field.1 as int,
            controls@.map_values(|control: (T, u32)| control.1),
        ),
{
    let ghost widths = controls@.map_values(|control: (T, u32)| control.1);
    let ghost all = controls@.map_values(|control: (T, u32)| control.0);
    let (first, wide): (T, u32) = field;
    let mut list: Vec<u32> = Vec::new();
    let mut things: Vec<T> = Vec::new();
    let mut rest: Vec<(T, u32)> = controls;
    let ghost given = rest@;
    let count: usize = rest.len();
    let mut i: usize = 0;
    while i < count
        invariant
            i <= count,
            count == given.len(),
            rest@ == given.skip(i as int),
            widths == given.map_values(|control: (T, u32)| control.1),
            all == given.map_values(|control: (T, u32)| control.0),
            list@ == widths.take(i as int),
            things@ == all.take(i as int),
        decreases count - i,
    {
        assert(rest@[0] == given[i as int]);
        let (thing, size): (T, u32) = rest.remove(0);
        assert(given.skip(i as int).remove(0) =~= given.skip(i + 1));
        list.push(size);
        things.push(thing);
        assert(widths.take(i + 1) =~= widths.take(i as int).push(size));
        assert(all.take(i + 1) =~= all.take(i as int).push(thing));
        i += 1;
    }
    assert(widths.take(widths.len() as int) =~= widths);
    assert(all.take(all.len() as int) =~= all);
    let mut lines: Vec<Vec<T>> = Vec::new();
    let mut line: Vec<T> = Vec::new();
    line.push(first);
    match shape(width, wide, &list) {
        Shape::Line => {
            line.append(&mut things);
            assert(line@ =~= seq![first] + all);
            lines.push(line);
            assert(lines@.drop_last() =~= Seq::empty());
            assert(flat(lines@.drop_last()) =~= Seq::<T>::empty());
            assert(lines@.last()@ == seq![first] + all);
            assert(flat(lines@) =~= seq![first] + all);
            assert(counts_in(lines@) =~= seq![widths.len() as int + 1]);
        },
        Shape::Stack(rows) => {
            assert(line@ =~= seq![first]);
            lines.push(line);
            let ghost free = width as int - GUTTER * 2;
            proof {
                every_control_has_its_row(widths, free);
            }
            let mut r: usize = 0;
            assert(flat(lines@.skip(1)) =~= all.take(0));
            assert(rows@.take(0) =~= Seq::empty());
            assert(things@ =~= all.skip(0));
            while r < rows.len()
                invariant
                    r <= rows@.len(),
                    rows@ == packed(widths, free).0,
                    widths.len() == all.len(),
                    held(rows@) == all.len(),
                    lines@.len() == r + 1,
                    lines@[0]@ == seq![first],
                    forall|j: int| 0 <= j < r ==> (#[trigger] lines@[j + 1])@.len() == rows@[j],
                    0 <= held(rows@.take(r as int)) <= all.len(),
                    flat(lines@.skip(1)) == all.take(held(rows@.take(r as int))),
                    things@ == all.skip(held(rows@.take(r as int))),
                decreases rows@.len() - r,
            {
                let ghost done = held(rows@.take(r as int));
                assert(rows@.take(r + 1).drop_last() =~= rows@.take(r as int));
                proof {
                    held_grows(rows@, r + 1);
                }
                let size: usize = rows[r];
                let mut row: Vec<T> = Vec::new();
                let mut k: usize = 0;
                while k < size
                    invariant
                        k <= size,
                        0 <= done,
                        done + size <= all.len(),
                        row@ == all.subrange(done, done + k),
                        things@ == all.skip(done + k),
                    decreases size - k,
                {
                    assert(things@[0] == all[done + k]);
                    let thing: T = things.remove(0);
                    assert(all.skip(done + k).remove(0) =~= all.skip(done + k + 1));
                    row.push(thing);
                    assert(all.subrange(done, done + k + 1) =~= all.subrange(done, done + k).push(thing));
                    k += 1;
                }
                let ghost before = lines@;
                let ghost content = row@;
                lines.push(row);
                assert(lines@.skip(1).drop_last() =~= before.skip(1));
                assert(lines@.skip(1).last()@ == content);
                assert(all.take(done + size) =~= all.take(done) + content);
                assert forall|j: int| 0 <= j < r + 1 implies (#[trigger] lines@[j + 1])@.len() == rows@[j] by {
                    if j < r {
                        assert(lines@[j + 1] == before[j + 1]);
                    }
                }
                r += 1;
            }
            assert(rows@.take(rows@.len() as int) =~= rows@);
            assert(all.take(all.len() as int) =~= all);
            proof {
                flat_from_the_first(lines@);
                assert forall|j: int| 0 <= j < lines@.len() implies #[trigger] counts_in(lines@)[j] == (seq![1int]
                    + rows@.map_values(|count: usize| count as int))[j] by {
                    if j > 0 {
                        assert(lines@[(j - 1) + 1]@.len() == rows@[j - 1]);
                    }
                }
            }
            assert(counts_in(lines@) =~= seq![1int] + rows@.map_values(|count: usize| count as int));
        },
    }
    lines
}

proof fn flat_from_the_first<T>(lines: Seq<Vec<T>>)
    requires
        lines.len() > 0,
    ensures
        flat(lines) == lines[0]@ + flat(lines.skip(1)),
    decreases lines.len(),
{
    if lines.len() > 1 {
        flat_from_the_first(lines.drop_last());
        assert(lines.drop_last().skip(1) =~= lines.skip(1).drop_last());
        assert(flat(lines) =~= lines[0]@ + flat(lines.skip(1)));
    } else {
        assert(lines.drop_last() =~= Seq::empty());
        assert(lines.skip(1) =~= Seq::empty());
        assert(flat(lines) =~= lines[0]@ + flat(lines.skip(1)));
    }
}

proof fn held_grows(rows: Seq<usize>, at: int)
    requires
        0 <= at <= rows.len(),
    ensures
        0 <= held(rows.take(at)) <= held(rows),
    decreases rows.len() - at,
{
    if at == rows.len() {
        assert(rows.take(at) =~= rows);
        held_is_no_less_than_none(rows);
    } else {
        held_grows(rows, at + 1);
        assert(rows.take(at + 1).drop_last() =~= rows.take(at));
        held_is_no_less_than_none(rows.take(at));
    }
}

proof fn held_is_no_less_than_none(rows: Seq<usize>)
    ensures
        0 <= held(rows),
    decreases rows.len(),
{
    if rows.len() > 0 {
        held_is_no_less_than_none(rows.drop_last());
    }
}

// -- The path --

/// A step of the path.
pub struct Crumb {
    pub label: String,
    /// It is where one stands.
    pub here: bool,
    pub message: Msg,
    /// What the state of its widget goes by.
    pub key: String,
}

/// What a step says.
pub ghost struct CrumbView {
    pub label: Seq<char>,
    pub here: bool,
    pub deed: deed::Deed,
    pub key: Seq<char>,
}

impl View for Crumb {
    type V = CrumbView;

    open spec fn view(&self) -> CrumbView {
        CrumbView { label: self.label@, here: self.here, deed: deed::deed(self.message), key: self.key@ }
    }
}

pub open spec fn crumbs_seen(crumbs: Seq<Crumb>) -> Seq<CrumbView> {
    crumbs.map_values(|crumb: Crumb| crumb@)
}

/// A path of these steps, with a slash behind each.
pub open spec fn path_of(steps: Seq<Seq<char>>) -> Seq<char>
    decreases steps.len(),
{
    if steps.len() == 0 { Seq::empty() } else { path_of(steps.drop_last()) + steps.last() + "/"@ }
}

/// The root: a step like any other, with a name of its own.
pub open spec fn root_crumb(view: ViewId, current: Seq<char>) -> CrumbView {
    CrumbView {
        label: "корень"@,
        here: current.len() == 0,
        deed: deed::Deed::Enter(view, Seq::empty()),
        key: "root"@,
    }
}

/// A step behind the root.
pub open spec fn step_crumb(view: ViewId, steps: Seq<Seq<char>>, at: int) -> CrumbView {
    CrumbView {
        label: steps[at],
        here: at + 1 == steps.len(),
        deed: deed::Deed::Enter(view, path_of(steps.take(at + 1))),
        key: path_of(steps.take(at + 1)),
    }
}

/// The steps of a path: the root first.
pub open spec fn crumbs_of(view: ViewId, current: Seq<char>) -> Seq<CrumbView> {
    let steps = arrange::steps(current, Grouping::Tree);
    Seq::new(
        steps.len() + 1,
        |i: int| if i == 0 { root_crumb(view, current) } else { step_crumb(view, steps, i - 1) },
    )
}

/// The path of the folder that is shown: the steps by which one can go back.
pub fn path(view: ViewId, current: &str) -> (crumbs: Vec<Crumb>)
    ensures
        crumbs_seen(crumbs@) == crumbs_of(view, current@),
{
    let parts: Vec<String> = arrange::segments(current, Grouping::Tree);
    let ghost steps = text::texts(parts@);
    let mut crumbs: Vec<Crumb> = Vec::new();
    crumbs.push(
        Crumb {
            label: "корень".to_owned(),
            here: current.is_empty(),
            message: Msg::In(view, ViewMsg::Enter(String::new())),
            key: "root".to_owned(),
        },
    );
    let mut prefix: String = String::new();
    let mut i: usize = 0;
    assert(prefix@ =~= path_of(steps.take(0)));
    while i < parts.len()
        invariant
            i <= parts@.len(),
            steps == text::texts(parts@),
            steps.len() == parts@.len(),
            crumbs@.len() == i + 1,
            crumbs@[0]@ == root_crumb(view, current@),
            prefix@ == path_of(steps.take(i as int)),
            forall|j: int| 0 <= j < i ==> (#[trigger] crumbs@[j + 1])@ == step_crumb(view, steps, j),
        decreases parts@.len() - i,
    {
        let ghost before = crumbs@;
        assert(steps.take(i + 1).drop_last() =~= steps.take(i as int));
        assert(steps.take(i + 1).last() == parts@[i as int]@);
        prefix.append(&parts[i]);
        prefix.append("/");
        crumbs.push(
            Crumb {
                label: parts[i].clone(),
                here: i + 1 == parts.len(),
                message: Msg::In(view, ViewMsg::Enter(prefix.clone())),
                key: prefix.clone(),
            },
        );
        assert forall|j: int| 0 <= j < i + 1 implies (#[trigger] crumbs@[j + 1])@ == step_crumb(view, steps, j) by {
            if j < i {
                assert(crumbs@[j + 1] == before[j + 1]);
            }
        }
        i += 1;
    }
    assert forall|j: int| 0 <= j < crumbs@.len() implies #[trigger] crumbs_seen(crumbs@)[j] == crumbs_of(
        view,
        current@,
    )[j] by {
        if j > 0 {
            assert(crumbs@[(j - 1) + 1]@ == step_crumb(view, steps, j - 1));
        }
    }
    assert(crumbs_seen(crumbs@) =~= crumbs_of(view, current@));
    crumbs
}

// -- Pages --

/// The button of a page.
pub struct PageButton {
    pub label: String,
    /// It is the page that is shown.
    pub shown: bool,
    pub message: Msg,
}

/// The pages of a list.
pub struct Pager {
    pub range: String,
    /// One page back; nothing on the first.
    pub back: Option<Msg>,
    pub pages: Vec<PageButton>,
    /// One page on; nothing on the last.
    pub on: Option<Msg>,
}

/// Whether these are the pages of so many records, with this one shown.
pub open spec fn is_pager(pager: Pager, view: ViewId, page: nat, total: nat) -> bool {
    let pages = arrange::pages_of(total);
    &&& pager.range@ == arrange::range_of(page, total)
    &&& deed::deed_of(pager.back) == if page > 0 {
        Some(deed::Deed::Page(view, (page - 1) as usize))
    } else {
        None
    }
    &&& deed::deed_of(pager.on) == if page + 1 < pages {
        Some(deed::Deed::Page(view, (page + 1) as usize))
    } else {
        None
    }
    &&& pager.pages@.len() == pages
    &&& forall|i: int| 0 <= i < pages ==> is_page_button(#[trigger] pager.pages@[i], view, i, page)
}

pub open spec fn is_page_button(button: PageButton, view: ViewId, at: int, page: nat) -> bool {
    &&& button.label@ == number::written((at + 1) as nat)
    &&& button.shown == (at == page)
    &&& deed::deed(button.message) == deed::Deed::Page(view, at as usize)
}

/// The pages of a list. A long list is cut into pages, so that the place where one stood
/// is not lost.
pub fn pager(view: ViewId, arranged: &Arranged<'_>) -> (pager: Pager)
    requires
        arranged.well_formed(),
        arranged.pages == arrange::pages_of(arranged.total as nat),
    ensures
        is_pager(pager, view, arranged.page as nat, arranged.total as nat),
{
    let mut pages: Vec<PageButton> = Vec::new();
    let mut i: usize = 0;
    while i < arranged.pages
        invariant
            i <= arranged.pages,
            pages@.len() == i,
            forall|j: int| 0 <= j < i ==> is_page_button(#[trigger] pages@[j], view, j, arranged.page as nat),
        decreases arranged.pages - i,
    {
        pages.push(
            PageButton {
                label: number::decimal(i as u128 + 1),
                shown: i == arranged.page,
                message: Msg::In(view, ViewMsg::Page(i)),
            },
        );
        i += 1;
    }
    Pager {
        range: arranged.range(),
        back: if arranged.page > 0 { Some(Msg::In(view, ViewMsg::Page(arranged.page - 1))) } else { None },
        pages,
        on: if arranged.pages > 0 && arranged.page < arranged.pages - 1 {
            Some(Msg::In(view, ViewMsg::Page(arranged.page + 1)))
        } else {
            None
        },
    }
}

// -- Chips --

/// A chip with a value and a list of values that drops down.
pub struct Chip {
    pub caption: &'static str,
    pub value: &'static str,
    pub open: bool,
    pub message: Msg,
    /// What a press beside the open list sends.
    pub dismiss: Msg,
    /// Only an open chip has them.
    pub items: Vec<Item>,
    /// The room it takes, in twentieths of a point.
    pub width: u32,
}

/// What a chip says.
pub ghost struct ChipView {
    pub caption: Seq<char>,
    pub value: Seq<char>,
    pub open: bool,
    pub deed: deed::Deed,
    pub dismiss: deed::Deed,
    pub items: Seq<menu::ItemView>,
    pub width: u32,
}

impl View for Chip {
    type V = ChipView;

    open spec fn view(&self) -> ChipView {
        ChipView {
            caption: self.caption@,
            value: self.value@,
            open: self.open,
            deed: deed::deed(self.message),
            dismiss: deed::deed(self.dismiss),
            items: menu::items_seen(self.items@),
            width: self.width,
        }
    }
}

/// A value in the list of a chip; the chosen one has a tick, and a count is shown where
/// one was given.
pub open spec fn value_item(label: Seq<char>, deed: deed::Deed, chosen: bool, count: Option<usize>) -> menu::ItemView {
    menu::ItemView {
        mark: if chosen { Some(menu::Glyph::Tick) } else { None },
        selected: chosen,
        count,
        ..menu::plain_item(label, deed)
    }
}

/// A chip of a menu: its items are there when it is open.
pub open spec fn chip_of(
    view: ViewId,
    caption: Seq<char>,
    value: Seq<char>,
    menu: Seq<char>,
    opened: Option<&Menu>,
    items: Seq<menu::ItemView>,
) -> ChipView {
    let open = crate::components::table::is_open(opened, menu);
    ChipView {
        caption,
        value,
        open,
        deed: deed::Deed::OpenMenu(view, Some(menu)),
        dismiss: deed::Deed::OpenMenu(view, None),
        items: if open { items } else { Seq::empty() },
        width: capped(PAD * 2 + GAP * 2 + CARET + caption.len() * LABEL + value.len() * LABEL),
    }
}

/// How many records are under a value, where that was counted.
pub open spec fn count_at(counts: Seq<usize>, at: int) -> Option<usize> {
    if 0 <= at < counts.len() { Some(counts[at]) } else { None }
}

pub open spec fn filter_items(view: ViewId, current: Filter, counts: Seq<usize>) -> Seq<menu::ItemView> {
    Seq::new(
        Filter::all_spec().len(),
        |i: int|
            value_item(
                Filter::all_spec()[i].label_spec(),
                deed::Deed::Filter(view, Filter::all_spec()[i]),
                Filter::all_spec()[i] == current,
                count_at(counts, i),
            ),
    )
}

pub open spec fn grouping_items(view: ViewId, current: Grouping) -> Seq<menu::ItemView> {
    Seq::new(
        Grouping::all_spec().len(),
        |i: int|
            value_item(
                Grouping::all_spec()[i].label_spec(),
                deed::Deed::Group(view, Grouping::all_spec()[i]),
                Grouping::all_spec()[i] == current,
                None,
            ),
    )
}

pub open spec fn sorting_items(view: ViewId, current: Sorting) -> Seq<menu::ItemView> {
    Seq::new(
        Sorting::all_spec().len(),
        |i: int|
            value_item(
                Sorting::all_spec()[i].label_spec(),
                deed::Deed::Sort(view, Sorting::all_spec()[i]),
                Sorting::all_spec()[i] == current,
                None,
            ),
    )
}

fn filters(view: ViewId, current: Filter, counts: &Vec<usize>) -> (items: Vec<Item>)
    ensures
        menu::items_seen(items@) == filter_items(view, current, counts@),
{
    let all: Vec<Filter> = Filter::all();
    let ghost said = filter_items(view, current, counts@);
    let mut items: Vec<Item> = Vec::new();
    let mut i: usize = 0;
    assert(menu::items_seen(items@) =~= said.take(0));
    while i < all.len()
        invariant
            i <= all@.len(),
            all@ == Filter::all_spec(),
            said == filter_items(view, current, counts@),
            menu::items_seen(items@) == said.take(i as int),
        decreases all@.len() - i,
    {
        let item: Item = Item::new(all[i].label().to_owned(), Msg::In(view, ViewMsg::Filter(all[i]))).selected(
            all[i] == current,
        );
        let item: Item = if i < counts.len() { item.count(counts[i]) } else { item };
        assert(item@ == said[i as int]);
        proof {
            menu::items_seen_push(items@, item);
        }
        items.push(item);
        assert(said.take(i + 1) =~= said.take(i as int).push(said[i as int]));
        i += 1;
    }
    assert(said.take(said.len() as int) =~= said);
    items
}

fn groupings(view: ViewId, current: Grouping) -> (items: Vec<Item>)
    ensures
        menu::items_seen(items@) == grouping_items(view, current),
{
    let all: Vec<Grouping> = Grouping::all();
    let ghost said = grouping_items(view, current);
    let mut items: Vec<Item> = Vec::new();
    let mut i: usize = 0;
    assert(menu::items_seen(items@) =~= said.take(0));
    while i < all.len()
        invariant
            i <= all@.len(),
            all@ == Grouping::all_spec(),
            said == grouping_items(view, current),
            menu::items_seen(items@) == said.take(i as int),
        decreases all@.len() - i,
    {
        let item: Item = Item::new(all[i].label().to_owned(), Msg::In(view, ViewMsg::Group(all[i]))).selected(
            all[i] == current,
        );
        assert(item@ == said[i as int]);
        proof {
            menu::items_seen_push(items@, item);
        }
        items.push(item);
        assert(said.take(i + 1) =~= said.take(i as int).push(said[i as int]));
        i += 1;
    }
    assert(said.take(said.len() as int) =~= said);
    items
}

fn sortings(view: ViewId, current: Sorting) -> (items: Vec<Item>)
    ensures
        menu::items_seen(items@) == sorting_items(view, current),
{
    let all: Vec<Sorting> = Sorting::all();
    let ghost said = sorting_items(view, current);
    let mut items: Vec<Item> = Vec::new();
    let mut i: usize = 0;
    assert(menu::items_seen(items@) =~= said.take(0));
    while i < all.len()
        invariant
            i <= all@.len(),
            all@ == Sorting::all_spec(),
            said == sorting_items(view, current),
            menu::items_seen(items@) == said.take(i as int),
        decreases all@.len() - i,
    {
        let item: Item = Item::new(all[i].label().to_owned(), Msg::In(view, ViewMsg::Sort(all[i]))).selected(
            all[i] == current,
        );
        assert(item@ == said[i as int]);
        proof {
            menu::items_seen_push(items@, item);
        }
        items.push(item);
        assert(said.take(i + 1) =~= said.take(i as int).push(said[i as int]));
        i += 1;
    }
    assert(said.take(said.len() as int) =~= said);
    items
}

/// A chip: it is open when its menu is the open one, and has its items only then.
pub fn chip(
    view: ViewId,
    caption: &'static str,
    value: &'static str,
    menu: Menu,
    opened: Option<&Menu>,
    items: Vec<Item>,
) -> (chip: Chip)
    ensures
        chip@ == chip_of(view, caption@, value@, menu.key_spec(), opened, menu::items_seen(items@)),
{
    let open: bool = match opened {
        Some(other) => text::same(&other.key(), &menu.key()),
        None => false,
    };
    let none: Vec<Item> = Vec::new();
    assert(menu::items_seen(none@) =~= Seq::empty());
    let caption_width: u128 = crate::components::format::text_width(caption, LABEL);
    let value_width: u128 = crate::components::format::text_width(value, LABEL);
    Chip {
        caption,
        value,
        open,
        message: Msg::In(view, ViewMsg::OpenMenu(Some(menu))),
        dismiss: Msg::In(view, ViewMsg::OpenMenu(None)),
        items: if open { items } else { none },
        width: cap(PAD * 2 + GAP * 2 + CARET + caption_width + value_width),
    }
}

// -- Fields --

/// What a field is typed into for: it decides what typing sends.
#[derive(Clone, Copy, PartialEq, Eq, Structural, Debug)]
pub enum Typing {
    /// The filter of a list.
    Filter(ViewId),
    /// The query to the catalogue.
    Search(ViewId),
    /// The first day that is searched.
    From(ViewId),
    /// The last day that is searched.
    To(ViewId),
}

impl Typing {
    pub open spec fn message_spec(self, typed: String) -> Msg {
        match self {
            Typing::Filter(view) => Msg::In(view, ViewMsg::Query(typed)),
            Typing::Search(view) => Msg::In(view, ViewMsg::SearchQuery(typed)),
            Typing::From(view) => Msg::In(view, ViewMsg::SearchFrom(typed)),
            Typing::To(view) => Msg::In(view, ViewMsg::SearchTo(typed)),
        }
    }

    /// What is sent when the field holds this.
    pub fn message(self, typed: String) -> (message: Msg)
        ensures
            message == self.message_spec(typed),
    {
        match self {
            Typing::Filter(view) => Msg::In(view, ViewMsg::Query(typed)),
            Typing::Search(view) => Msg::In(view, ViewMsg::SearchQuery(typed)),
            Typing::From(view) => Msg::In(view, ViewMsg::SearchFrom(typed)),
            Typing::To(view) => Msg::In(view, ViewMsg::SearchTo(typed)),
        }
    }
}

/// A field with a lens in it.
pub struct Field {
    pub placeholder: &'static str,
    pub value: String,
    /// What typing sends.
    pub typing: Typing,
    /// What is sent when the field is submitted; nothing where it does not wait for that.
    pub submit: Option<Msg>,
    /// The room it asks for: as much as its placeholder needs to be read.
    pub width: u32,
}

/// A control of a bar.
pub enum Control {
    Field(Field),
    Chip(Chip),
}

/// What a control says.
pub ghost enum ControlView {
    Field {
        placeholder: Seq<char>,
        value: Seq<char>,
        typing: Typing,
        submit: Option<deed::Deed>,
        width: u32,
    },
    Chip(ChipView),
}

impl View for Control {
    type V = ControlView;

    open spec fn view(&self) -> ControlView {
        match *self {
            Control::Field(field) => ControlView::Field {
                placeholder: field.placeholder@,
                value: field.value@,
                typing: field.typing,
                submit: deed::deed_of(field.submit),
                width: field.width,
            },
            Control::Chip(chip) => ControlView::Chip(chip@),
        }
    }
}

pub open spec fn controls_seen(controls: Seq<Control>) -> Seq<ControlView> {
    controls.map_values(|control: Control| control@)
}

/// The width that a field asks for.
pub open spec fn field_width(placeholder: Seq<char>) -> u32 {
    capped(PAD * 2 + LENS + ICON_GAP + placeholder.len() * BODY)
}

/// A field with a lens: the filter of a list or the query to the catalogue. The two differ
/// in their placeholder, in what typing sends, and in whether they wait to be submitted.
pub fn search_field(placeholder: &'static str, value: &str, typing: Typing, submit: Option<Msg>) -> (field: Field)
    ensures
        field.placeholder@ == placeholder@,
        field.value@ == value@,
        field.typing == typing,
        field.submit == submit,
        field.width == field_width(placeholder@),
{
    let wide: u128 = crate::components::format::text_width(placeholder, BODY);
    Field { placeholder, value: value.to_owned(), typing, submit, width: cap(PAD * 2 + LENS + ICON_GAP + wide) }
}

/// The width of a field for a date, in twentieths of a point: a date is eight characters
/// long, and the field need not grow.
pub const DATE_WIDTH: u32 = 3000;

/// A field for a date.
pub struct DateField {
    pub caption: &'static str,
    pub value: String,
    pub placeholder: &'static str,
    /// What typing sends.
    pub typing: Typing,
    /// What is sent when the field is submitted.
    pub submit: Msg,
    pub width: u32,
}

pub fn date_field(caption: &'static str, value: &str, typing: Typing, submit: Msg) -> (field: DateField)
    ensures
        field.caption@ == caption@,
        field.value@ == value@,
        field.typing == typing,
        field.submit == submit,
        field.placeholder@ == "ГГГГ-ММ-ДД"@,
        field.width == DATE_WIDTH,
{
    DateField { caption, value: value.to_owned(), placeholder: "ГГГГ-ММ-ДД", typing, submit, width: DATE_WIDTH }
}

/// The chips over a list: what is left out, what groups there are where there is
/// anything to group, and the order.
pub open spec fn chips_of(
    view: ViewId,
    listing: ListingState,
    opened: Option<&Menu>,
    counts: Seq<usize>,
    groupable: bool,
) -> Seq<ChipView> {
    let states = chip_of(
        view,
        "Состояние:"@,
        listing.filter.label_spec(),
        Menu::Filter.key_spec(),
        opened,
        filter_items(view, listing.filter, counts),
    );
    let groups = chip_of(
        view,
        "Группировка:"@,
        listing.grouping.label_spec(),
        Menu::Grouping.key_spec(),
        opened,
        grouping_items(view, listing.grouping),
    );
    let order = chip_of(
        view,
        "Сортировка:"@,
        listing.sorting.label_spec(),
        Menu::Sorting.key_spec(),
        opened,
        sorting_items(view, listing.sorting),
    );
    if groupable { seq![states, groups, order] } else { seq![states, order] }
}

/// The controls over a list: the filter field, then the chips.
pub open spec fn toolbar_of(view: ViewId, query: Seq<char>, chips: Seq<ChipView>) -> Seq<ControlView> {
    seq![
        ControlView::Field {
            placeholder: "Фильтр по имени"@,
            value: query,
            typing: Typing::Filter(view),
            submit: None,
            width: field_width("Фильтр по имени"@),
        },
    ] + chips.map_values(|chip: ChipView| ControlView::Chip(chip))
}

/// The bar over a list. A lever that changes nothing is worse than none: grouping is
/// offered where rows come from more than one folder. The width is in twentieths of a
/// point.
pub fn toolbar(
    view: ViewId,
    listing: &ListingState,
    opened: Option<&Menu>,
    counts: &Vec<usize>,
    groupable: bool,
    width: u32,
) -> (lines: Vec<Vec<Control>>)
    ensures
        ({
            let chips = chips_of(view, *listing, opened, counts@, groupable);
            &&& controls_seen(flat(lines@)) == toolbar_of(view, listing.query@, chips)
            &&& counts_in(lines@) == counts_of(
                width as int,
                field_width("Фильтр по имени"@) as int,
                chips.map_values(|chip: ChipView| chip.width),
            )
        }),
{
    let ghost said = chips_of(view, *listing, opened, counts@, groupable);
    let mut controls: Vec<(Control, u32)> = Vec::new();
    let states: Chip = chip(
        view,
        "Состояние:",
        listing.filter.label(),
        Menu::Filter,
        opened,
        filters(view, listing.filter, counts),
    );
    let wide: u32 = states.width;
    controls.push((Control::Chip(states), wide));
    if groupable {
        let groups: Chip = chip(
            view,
            "Группировка:",
            listing.grouping.label(),
            Menu::Grouping,
            opened,
            groupings(view, listing.grouping),
        );
        let wide: u32 = groups.width;
        controls.push((Control::Chip(groups), wide));
    }
    let order: Chip = chip(
        view,
        "Сортировка:",
        listing.sorting.label(),
        Menu::Sorting,
        opened,
        sortings(view, listing.sorting),
    );
    let wide: u32 = order.width;
    controls.push((Control::Chip(order), wide));
    let field: Field = search_field("Фильтр по имени", &listing.query, Typing::Filter(view), None);
    let wide: u32 = field.width;
    let ghost widths = controls@.map_values(|control: (Control, u32)| control.1);
    let ghost all = controls@.map_values(|control: (Control, u32)| control.0);
    let ghost first = Control::Field(field);
    assert(widths =~= said.map_values(|chip: ChipView| chip.width));
    assert(controls_seen(seq![first] + all) =~= toolbar_of(view, listing.query@, said));
    bar(width, (Control::Field(field), wide), controls)
}

// -- Laws --

/// The controls stand in one line with their field where all of them fit with their gaps
/// between the gutters, and else under it.
pub proof fn controls_stand_in_a_line_where_they_fit(width: int, field: int, controls: Seq<u32>, more: u32)
    ensures
        lined(Seq::empty()) == 0,
        lined(controls.push(more)) == lined(controls) + 140 + more,
        shape_of(width, field, controls) is Line <==> field + lined(controls) <= width - 640,
{
    assert(controls.push(more).drop_last() =~= controls);
}

/// A control under the field goes into the last row where it fits there, and else begins a
/// row of its own.
pub proof fn a_control_goes_where_it_fits(controls: Seq<u32>, more: u32, free: int)
    ensures
        ({
            let (was, taken) = packed(controls, free);
            let (now, wide) = packed(controls.push(more), free);
            &&& packed(Seq::empty(), free).0.len() == 0
            &&& was.len() > 0 && taken + 140 + more <= free ==> now.len() == was.len() && wide == taken + 140 + more
                && now.drop_last() == was.drop_last()
            &&& was.len() == 0 || taken + 140 + more > free ==> now == was.push(1) && wide == more
        }),
{
    assert(controls.push(more).drop_last() =~= controls);
    let (was, taken) = packed(controls, free);
    let (now, wide) = packed(controls.push(more), free);
    if was.len() > 0 && taken + 140 + more <= free {
        assert(now.drop_last() =~= was.drop_last());
    }
}

/// The path begins with the root and goes on step by step; each step leads to the folder of
/// all steps up to it, and the last is where one stands.
pub proof fn the_path_leads_step_by_step(view: ViewId, current: Seq<char>, i: int)
    ensures
        ({
            let steps = arrange::steps(current, Grouping::Tree);
            let crumbs = crumbs_of(view, current);
            &&& crumbs.len() == steps.len() + 1
            &&& crumbs[0].label == "корень"@
            &&& crumbs[0].deed == deed::Deed::Enter(view, Seq::empty())
            &&& crumbs[0].here <==> current.len() == 0
            &&& 0 <= i < steps.len() ==> {
                &&& crumbs[i + 1].label == steps[i]
                &&& crumbs[i + 1].deed == deed::Deed::Enter(view, path_of(steps.take(i + 1)))
                &&& crumbs[i + 1].here <==> i == steps.len() - 1
                &&& path_of(steps.take(i + 1)) == path_of(steps.take(i)) + steps[i] + "/"@
            }
            &&& path_of(Seq::empty()).len() == 0
        }),
{
    let steps = arrange::steps(current, Grouping::Tree);
    if 0 <= i < steps.len() {
        assert(steps.take(i + 1).drop_last() =~= steps.take(i));
        assert(steps.take(i + 1).last() == steps[i]);
    }
}

/// The pages are numbered from one; each button turns to its page, the one that is shown is
/// told, and one turns back from all but the first and on from all but the last.
pub proof fn the_pages_are_turned(pager: Pager, view: ViewId, page: nat, total: nat, i: int)
    requires
        is_pager(pager, view, page, total),
        page < arrange::pages_of(total),
        arrange::pages_of(total) <= usize::MAX,
    ensures
        0 <= i < pager.pages@.len() ==> {
            &&& pager.pages@[i].label@ == number::written((i + 1) as nat)
            &&& pager.pages@[i].shown <==> i == page
            &&& deed::deed(pager.pages@[i].message) matches deed::Deed::Page(tab, to) && tab == view && to == i
        },
        pager.back is None <==> page == 0,
        pager.on is None <==> page + 1 == pager.pages@.len(),
        pager.back matches Some(back) ==> (deed::deed(back) matches deed::Deed::Page(tab, to) && tab == view && to == page - 1),
        pager.on matches Some(on) ==> (deed::deed(on) matches deed::Deed::Page(tab, to) && tab == view && to == page + 1),
{
    if 0 <= i < pager.pages@.len() {
        assert(is_page_button(pager.pages@[i], view, i, page));
    }
}

/// The menu of states offers each of them with its count, and ticks the one that holds.
pub proof fn the_menu_of_states(view: ViewId, current: Filter, counts: Seq<usize>, i: int)
    requires
        0 <= i < 5,
    ensures
        ({
            let items = filter_items(view, current, counts);
            let filter = seq![Filter::All, Filter::OnDisk, Filter::Downloading, Filter::Paused, Filter::Remote][i];
            &&& items.len() == 5
            &&& items[i].label == filter.label_spec()
            &&& items[i].deed == Some(deed::Deed::Filter(view, filter))
            &&& items[i].selected <==> current == filter
            &&& items[i].mark == Some(menu::Glyph::Tick) <==> current == filter
            &&& i < counts.len() ==> items[i].count == Some(counts[i])
            &&& i >= counts.len() ==> items[i].count is None
        }),
{
}

/// The menus of groupings and of orders offer each, and tick the one that holds.
pub proof fn the_menus_of_groups_and_orders(view: ViewId, grouping: Grouping, sorting: Sorting, i: int)
    requires
        0 <= i < 3,
    ensures
        ({
            let groups = grouping_items(view, grouping);
            let orders = sorting_items(view, sorting);
            let group = seq![Grouping::Flat, Grouping::Folder, Grouping::Tree][i];
            let order = seq![Sorting::Newest, Sorting::Name, Sorting::Size][i];
            &&& groups.len() == 3 && orders.len() == 3
            &&& groups[i].label == group.label_spec() && groups[i].deed == Some(deed::Deed::Group(view, group))
            &&& groups[i].selected <==> grouping == group
            &&& orders[i].label == order.label_spec() && orders[i].deed == Some(deed::Deed::Sort(view, order))
            &&& orders[i].selected <==> sorting == order
        }),
{
}

/// A chip shows what holds, opens its own menu and no other, and is closed by a press beside
/// it.
pub proof fn a_chip_shows_what_holds(
    view: ViewId,
    caption: Seq<char>,
    value: Seq<char>,
    key: Seq<char>,
    opened: Option<&Menu>,
    items: Seq<menu::ItemView>,
)
    ensures
        ({
            let chip = chip_of(view, caption, value, key, opened, items);
            &&& chip.caption == caption && chip.value == value
            &&& chip.open <==> (opened matches Some(menu) && menu.key_spec() == key)
            &&& chip.open ==> chip.items == items
            &&& !chip.open ==> chip.items.len() == 0
            &&& chip.deed == deed::Deed::OpenMenu(view, Some(key))
            &&& chip.dismiss == deed::Deed::OpenMenu(view, None)
        }),
{
}

/// Over a list stand its state, its groups where it has any, and its order, each with the
/// value that the list has; before them stands the field with its words.
pub proof fn the_bar_shows_how_the_list_is_shown(
    view: ViewId,
    listing: ListingState,
    opened: Option<&Menu>,
    counts: Seq<usize>,
    groupable: bool,
)
    ensures
        ({
            let chips = chips_of(view, listing, opened, counts, groupable);
            let bar = toolbar_of(view, listing.query@, chips);
            &&& chips.len() == if groupable { 3nat } else { 2 }
            &&& chips[0].value == listing.filter.label_spec()
            &&& chips[0].caption == "Состояние:"@
            &&& groupable ==> chips[1].value == listing.grouping.label_spec() && chips[1].caption == "Группировка:"@
            &&& chips.last().value == listing.sorting.label_spec()
            &&& chips.last().caption == "Сортировка:"@
            &&& bar.len() == chips.len() + 1
            &&& bar[0] matches ControlView::Field { placeholder, value, typing, submit, width } && value == listing.query@
                && typing == Typing::Filter(view) && submit is None && placeholder == "Фильтр по имени"@
            &&& bar[1] == ControlView::Chip(chips[0])
        }),
{
}

/// What is typed into a field is told to its own tab, as what the field is for.
pub proof fn typing_is_told_to_its_tab(view: ViewId, typed: String)
    ensures
        deed::deed(Typing::Filter(view).message_spec(typed)) == deed::Deed::Query(view, typed@),
        deed::deed(Typing::Search(view).message_spec(typed)) == deed::Deed::SearchQuery(view, typed@),
        deed::deed(Typing::From(view).message_spec(typed)) == deed::Deed::SearchFrom(view, typed@),
        deed::deed(Typing::To(view).message_spec(typed)) == deed::Deed::SearchTo(view, typed@),
{
}

} // verus!
