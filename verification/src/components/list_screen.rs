//! A screen with a list. The screens differ in their heading, in whether they have a
//! path and in where their rows come from; all the rest they share.

use vstd::prelude::*;
use crate::components::arrange::{self, Arranged, Line};
use crate::components::controls::{self, Control, Crumb, Pager};
use crate::components::deed;
use crate::components::row::{self, Row};
use crate::components::table::{self, Cell, Column, Context, Drawn, Fit, Optional};
use crate::message::{Msg, ViewMsg};
use crate::number;
use crate::state::ids::ViewId;
use crate::state::listing::{ListingState, Menu};

verus! {

broadcast use vstd::string::group_string_axioms;

/// What a screen is called and what it shows.
pub struct Screen<'a> {
    pub title: &'a str,
    /// The line by the heading: how much there is, and where it is from.
    pub subtitle: String,
    /// The path of the folder that is shown. A screen with a path shows one folder, and
    /// all its rows lie in it.
    pub path: Option<&'a str>,
    /// What to say when there are no rows.
    pub empty: &'a str,
    pub rows: Vec<Row>,
    /// The key of the snapshot that is picked on the globe; empty when none is.
    pub picked: &'a str,
    /// How much of what is chosen here is outlined on the globe.
    pub outlined: usize,
    /// The open menu of this list.
    pub menu: Option<&'a Menu>,
    /// The row that the tab was walked to; empty when it was not.
    pub target: &'a str,
}

/// How many characters of the subtitle have room.
pub const SUBTITLE: usize = 72;
/// The size of names, in tenths of a point.
pub const MONO: u32 = 125;
/// The size of headings among the rows, in tenths of a point.
pub const LABEL: u32 = 120;
/// The size of formats, in tenths of a point.
pub const TAG: u32 = 100;

/// The heading of a screen.
pub struct Heading {
    pub title: String,
    pub subtitle: String,
}

/// The heading: a subtitle may be the words of an error, as long as they come, and is
/// cut, for else it would push the buttons out.
pub fn heading(title: &str, subtitle: &str) -> (heading: Heading)
    ensures
        heading.title@ == title@,
        heading.subtitle@ == crate::components::format::cut_middle(subtitle@, SUBTITLE as nat),
        heading.subtitle@.len() <= SUBTITLE,
{
    Heading { title: title.to_owned(), subtitle: crate::components::format::ellipsize(subtitle, SUBTITLE) }
}

/// Where to scroll a list: how many rows down, and the number of the request.
#[derive(Clone, Copy, PartialEq, Eq, Structural, Debug)]
pub struct ScrollTo {
    pub rows: usize,
    pub request: u64,
}

/// Whether a line is the row that a key names.
pub open spec fn line_named(line: arrange::LineView, key: Seq<char>) -> bool {
    match line {
        arrange::LineView::Entry { row, .. } => row.named(key),
        _ => false,
    }
}

/// The first line that a key names; the number of lines when there is none.
pub open spec fn first_at(lines: Seq<arrange::LineView>, key: Seq<char>) -> int
    decreases lines.len(),
{
    if lines.len() == 0 {
        0
    } else if first_at(lines.drop_last(), key) < lines.len() - 1 {
        first_at(lines.drop_last(), key)
    } else if line_named(lines.last(), key) {
        lines.len() - 1
    } else {
        lines.len() as int
    }
}

/// Where to scroll so that a row can be seen. Two rows are left above it: a row at the
/// very top reads as the start of the list.
pub open spec fn aimed(lines: Seq<arrange::LineView>, target: Seq<char>, request: u64) -> Option<ScrollTo> {
    let at = first_at(lines, target);
    if target.len() == 0 || at == lines.len() {
        None
    } else {
        Some(ScrollTo { rows: if at < 2 { 0 } else { (at - 2) as usize }, request })
    }
}

fn aim(arranged: &Arranged<'_>, listing: &ListingState, target: &str) -> (to: Option<ScrollTo>)
    ensures
        to == aimed(arrange::lines_seen(arranged.lines@), target@, listing.aim),
{
    if target.is_empty() {
        return None;
    }
    let ghost all = arrange::lines_seen(arranged.lines@);
    let mut at: usize = 0;
    while at < arranged.lines.len()
        invariant
            at <= arranged.lines@.len(),
            all == arrange::lines_seen(arranged.lines@),
            target@.len() > 0,
            first_at(all.take(at as int), target@) == at,
        decreases arranged.lines@.len() - at,
    {
        assert(all.take(at + 1).drop_last() =~= all.take(at as int));
        assert(all.take(at + 1).last() == arranged.lines@[at as int]@);
        let here: bool = match &arranged.lines[at] {
            Line::Entry { row, .. } => row.named(target),
            Line::Group { .. } | Line::Waiting { .. } => false,
        };
        if here {
            proof {
                found_stays_found(all, target@, at + 1);
            }
            let rows: usize = if at < 2 { 0 } else { at - 2 };
            return Some(ScrollTo { rows, request: listing.aim });
        }
        at += 1;
    }
    assert(all.take(all.len() as int) =~= all);
    None
}

proof fn found_stays_found(lines: Seq<arrange::LineView>, key: Seq<char>, count: int)
    requires
        0 < count <= lines.len(),
        first_at(lines.take(count), key) < count,
    ensures
        first_at(lines, key) == first_at(lines.take(count), key),
    decreases lines.len() - count,
{
    if count == lines.len() {
        assert(lines.take(count) =~= lines);
    } else {
        assert(lines.take(count + 1).drop_last() =~= lines.take(count));
        found_stays_found(lines, key, count + 1);
    }
}

/// What is said over a list of what is chosen, and what clears the choice.
pub struct ChosenHere {
    pub said: String,
    pub clear: Msg,
}

/// How much of what is chosen is on the globe. What is drawn is counted: a snapshot
/// without a geometry has no outline, and one over an empty globe would be untrue.
pub open spec fn chosen_said(outlined: nat, chosen: nat) -> Seq<char> {
    if outlined == chosen {
        number::written(chosen) + " на шаре"@
    } else {
        number::written(outlined) + " на шаре из "@ + number::written(chosen)
    }
}

/// What stands in place of the table.
pub enum Body {
    /// No row to show, and why.
    Nothing(String),
    Rows {
        /// What the scroll position goes by: each tab has its own.
        name: String,
        lines: Vec<Drawn>,
        aim: Option<ScrollTo>,
    },
}

/// A screen as it is shown.
pub struct Shown {
    pub heading: Heading,
    pub chosen: Option<ChosenHere>,
    /// The steps of the path, and what leads up, where there is a path.
    pub path: Option<(Vec<Crumb>, Msg)>,
    pub bar: Vec<Vec<Control>>,
    pub columns: Vec<Column>,
    pub compact: bool,
    pub header: Vec<Cell>,
    pub body: Body,
    /// Only a list of more than one page has it.
    pub pager: Option<Pager>,
}

/// The columns that are not always there, by what is drawn and not by the top tier:
/// what can be chosen in a catalogue often comes only in an open row.
pub open spec fn needed(shown: Seq<row::RowView>) -> Optional {
    Optional {
        twisty: exists|i: int| 0 <= i < shown.len() && (#[trigger] shown[i]).expandable(),
        checkable: arrange::choosable_rows(shown).len() > 0,
    }
}

/// How many characters have room in what a step of grouping leaves of the name.
pub open spec fn room_for(line: arrange::LineView, name: nat) -> nat {
    let (depth, size) = match line {
        arrange::LineView::Group { depth, .. } => (depth, LABEL as nat),
        arrange::LineView::Entry { depth, .. } => (depth, MONO as nat),
        arrange::LineView::Waiting { depth } => (depth, MONO as nat),
    };
    let step = depth * table::INDENT;
    crate::components::format::fits(if name > step { (name - step) as nat } else { 0 }, size)
}

/// The titles of rows.
pub open spec fn titles(rows: Seq<row::RowView>) -> Seq<Seq<char>> {
    rows.map_values(|row: row::RowView| row.title)
}

/// What the rows of a screen have to know beside themselves.
pub open spec fn context_of<'a>(
    screen: Screen<'a>,
    listing: &'a ListingState,
    columns: &'a Vec<Column>,
    compact: bool,
    name: nat,
    here: &'a str,
    now: i64,
) -> Context<'a> {
    let shown = arrange::rows_among(arrange::page_lines(row::all_seen(screen.rows@), *listing));
    let edges = crate::components::format::common_edges(
        titles(shown),
        crate::components::format::fits(name, MONO as nat),
    );
    Context {
        listing,
        menu: screen.menu,
        columns,
        compact,
        shared: (edges.0 as usize, edges.1 as usize),
        here,
        picked: screen.picked,
        target: screen.target,
        now,
        format_room: crate::components::format::fits(
            (table::width_spec(Column::Format) - table::CELL_PADDING * 2) as nat,
            TAG as nat,
        ) as usize,
    }
}

/// The path that a screen has, or nothing.
pub open spec fn path_shown(path: Option<&str>) -> Seq<char> {
    match path {
        Some(path) => path@,
        None => Seq::empty(),
    }
}

/// The folder shown, as the rows are told of it.
fn here_of<'a>(path: Option<&'a str>) -> (here: &'a str)
    ensures
        here@ == path_shown(path),
        path matches Some(given) ==> here == given,
{
    match path {
        Some(path) => path,
        None => {
            proof {
                reveal_strlit("");
            }
            assert(""@ =~= Seq::empty());
            ""
        },
    }
}

fn any_expandable(rows: &Vec<&Row>) -> (yes: bool)
    ensures
        yes == exists|i: int|
            0 <= i < arrange::refs_seen(rows@).len() && (#[trigger] arrange::refs_seen(rows@)[i]).expandable(),
{
    let ghost all = arrange::refs_seen(rows@);
    let mut i: usize = 0;
    while i < rows.len()
        invariant
            i <= rows@.len(),
            all == arrange::refs_seen(rows@),
            forall|j: int| 0 <= j < i ==> !(#[trigger] all[j]).expandable(),
        decreases rows@.len() - i,
    {
        assert(all[i as int] == rows@[i as int]@);
        if rows[i].expandable() {
            return true;
        }
        i += 1;
    }
    false
}

fn titles_of<'a>(rows: &Vec<&'a Row>) -> (names: Vec<&'a str>)
    ensures
        crate::components::format::names_of(names@) == titles(arrange::refs_seen(rows@)),
{
    let ghost all = titles(arrange::refs_seen(rows@));
    let mut names: Vec<&'a str> = Vec::new();
    let mut i: usize = 0;
    while i < rows.len()
        invariant
            i <= rows@.len(),
            all == titles(arrange::refs_seen(rows@)),
            names@.len() == i,
            forall|j: int| 0 <= j < i ==> (#[trigger] names@[j])@ == all[j],
        decreases rows@.len() - i,
    {
        let one: &'a Row = rows[i];
        names.push(one.title.as_str());
        i += 1;
    }
    assert(crate::components::format::names_of(names@) =~= all);
    names
}

/// How many characters the name of each line has room for.
fn rooms_for(lines: &Vec<Line<'_>>, name: u32) -> (rooms: Vec<usize>)
    ensures
        rooms@.len() == lines@.len(),
        forall|i: int| 0 <= i < lines@.len() ==> #[trigger] rooms@[i] == room_for(lines@[i]@, name as nat),
{
    let mut rooms: Vec<usize> = Vec::new();
    let mut i: usize = 0;
    while i < lines.len()
        invariant
            i <= lines@.len(),
            rooms@.len() == i,
            forall|j: int| 0 <= j < i ==> #[trigger] rooms@[j] == room_for(lines@[j]@, name as nat),
        decreases lines@.len() - i,
    {
        let (depth, size): (usize, u32) = match &lines[i] {
            Line::Group { depth, .. } => (*depth, LABEL),
            Line::Entry { depth, .. } => (*depth, MONO),
            Line::Waiting { depth } => (*depth, MONO),
        };
        let step: u128 = table::indent(depth);
        let left: u32 = if name as u128 > step { name - step as u32 } else { 0 };
        rooms.push(crate::components::format::mono_fit(left, size));
        i += 1;
    }
    rooms
}

/// What is said of the choice, where there is one.
fn choice(view: ViewId, outlined: usize, listing: &ListingState) -> (chosen: Option<ChosenHere>)
    ensures
        match chosen {
            Some(chosen) => {
                &&& listing.selected@.dom().len() > 0
                &&& chosen.said@ == chosen_said(outlined as nat, listing.selected@.dom().len())
                &&& deed::deed(chosen.clear) == deed::Deed::CheckClear(view)
            },
            None => listing.selected@.dom().len() == 0,
        },
{
    let marked: usize = listing.selected.len();
    if marked == 0 {
        return None;
    }
    let mut said: String = number::decimal(outlined as u128);
    if outlined == marked {
        said.append(" на шаре");
    } else {
        said.append(" на шаре из ");
        said.append(&number::decimal(marked as u128));
    }
    Some(ChosenHere { said, clear: Msg::In(view, ViewMsg::CheckClear) })
}

/// Whether all that can be chosen among the rows is. Where there is nothing to choose, it
/// is not.
pub open spec fn all_chosen(rows: Seq<row::RowView>, listing: ListingState) -> bool {
    let open = arrange::choosable_rows(rows);
    open.len() > 0 && forall|j: int|
        0 <= j < open.len() ==> listing.selected@.contains_key((#[trigger] open[j]).choice_key())
}

/// Whether this is the header over such columns.
pub open spec fn is_header(header: Seq<Cell>, tab: ViewId, columns: Seq<Column>, all: bool) -> bool {
    &&& header.len() == columns.len()
    &&& forall|i: int| 0 <= i < columns.len() ==> (#[trigger] header[i])@ == table::header_cell(tab, all, columns[i])
}

/// Whether this is the bar over a list, in so many points.
pub open spec fn is_bar(
    bar: Seq<Vec<Control>>,
    tab: ViewId,
    query: Seq<char>,
    chips: Seq<controls::ChipView>,
    width: int,
) -> bool {
    &&& controls::controls_seen(controls::flat(bar)) == controls::toolbar_of(tab, query, chips)
    &&& controls::counts_in(bar) == controls::counts_of(
        controls::capped(width * 20) as int,
        controls::field_width("Фильтр по имени"@) as int,
        chips.map_values(|chip: controls::ChipView| chip.width),
    )
}

/// Whether these are the lines, drawn in such a context.
pub open spec fn are_drawn(
    drawn: Seq<Drawn>,
    tab: ViewId,
    lines: Seq<arrange::LineView>,
    context: Context<'_>,
    name: nat,
) -> bool {
    &&& drawn.len() == lines.len()
    &&& forall|i: int|
        0 <= i < lines.len() ==> (#[trigger] drawn[i])@ == table::line_drawn(
            tab,
            lines[i],
            context,
            room_for(lines[i], name),
        )
}

/// Whether this stands in place of the table: what there is to say when no line is
/// left, and else the lines. An empty list and one of which all was filtered out are
/// two things.
pub open spec fn is_body(
    body: Body,
    tab: ViewId,
    screen: Screen<'_>,
    listing: ListingState,
    columns: Vec<Column>,
    compact: bool,
    name: nat,
    now: i64,
) -> bool {
    let lines = arrange::page_lines(row::all_seen(screen.rows@), listing);
    match body {
        Body::Nothing(said) => {
            &&& lines.len() == 0
            &&& said@ == if screen.rows@.len() == 0 { screen.empty@ } else { "Под отбор ничего не подошло"@ }
        },
        Body::Rows { name: tag, lines: drawn, aim } => {
            &&& lines.len() > 0
            &&& tag@ == "rows:"@ + number::written(tab.number as nat)
            &&& aim == aimed(lines, screen.target@, listing.aim)
            &&& exists|here: &str| #[trigger]
                here@ == path_shown(screen.path) && are_drawn(
                    drawn@,
                    tab,
                    lines,
                    context_of(screen, &listing, &columns, compact, name, here, now),
                    name,
                )
        },
    }
}

/// The table, or what is said in its place.
fn table_of(
    tab: ViewId,
    screen: &Screen<'_>,
    listing: &ListingState,
    arranged: &Arranged<'_>,
    columns: &Vec<Column>,
    compact: bool,
    name: u32,
    now: i64,
) -> (body: Body)
    requires
        arrange::lines_seen(arranged.lines@) == arrange::page_lines(row::all_seen(screen.rows@), *listing),
    ensures
        is_body(body, tab, *screen, *listing, *columns, compact, name as nat, now),
{
    let ghost lines = arrange::page_lines(row::all_seen(screen.rows@), *listing);
    assert(lines.len() == arranged.lines@.len());
    if arranged.lines.len() == 0 {
        let said: String = if screen.rows.len() == 0 {
            screen.empty.to_owned()
        } else {
            "Под отбор ничего не подошло".to_owned()
        };
        return Body::Nothing(said);
    }
    let shown: Vec<&Row> = arranged.shown();
    let names: Vec<&str> = titles_of(&shown);
    let here: &str = here_of(screen.path);
    let room: u32 = table::width_of(Column::Format) - table::CELL_PADDING * 2;
    let edges: (usize, usize) = crate::components::format::shared(
        names.as_slice(),
        crate::components::format::mono_fit(name, MONO),
    );
    let context: Context<'_> = Context {
        listing,
        menu: screen.menu,
        columns,
        compact,
        shared: edges,
        here,
        picked: screen.picked,
        target: screen.target,
        now,
        format_room: crate::components::format::mono_fit(room, TAG),
    };
    let ghost meant = context_of(*screen, listing, columns, compact, name as nat, here, now);
    assert(context.shared == meant.shared);
    assert(context == meant);
    let rooms: Vec<usize> = rooms_for(&arranged.lines, name);
    let drawn: Vec<Drawn> = table::body(tab, &arranged.lines, &context, &rooms);
    let mut tag: String = "rows:".to_owned();
    tag.append(&tab.to_text());
    assert forall|i: int| 0 <= i < lines.len() implies (#[trigger] drawn@[i])@ == table::line_drawn(
        tab,
        lines[i],
        meant,
        room_for(lines[i], name as nat),
    ) by {
        assert(lines[i] == arranged.lines@[i]@);
        assert(rooms@[i] == room_for(arranged.lines@[i]@, name as nat));
    }
    assert(are_drawn(drawn@, tab, lines, meant, name as nat));
    assert(here@ == path_shown(screen.path));
    Body::Rows { name: tag, lines: drawn, aim: aim(arranged, listing, screen.target) }
}

/// A screen with a list, whole. `width` is that of the pane, in whole points, and `now`
/// the moment that times are counted from.
pub fn view(tab: ViewId, screen: &Screen<'_>, listing: &ListingState, width: u32, now: i64) -> (shown: Shown)
    ensures
        shown.heading.title@ == screen.title@,
        shown.heading.subtitle@ == crate::components::format::cut_middle(screen.subtitle@, SUBTITLE as nat),
        match shown.chosen {
            Some(chosen) => {
                &&& listing.selected@.dom().len() > 0
                &&& chosen.said@ == chosen_said(screen.outlined as nat, listing.selected@.dom().len())
                &&& deed::deed(chosen.clear) == deed::Deed::CheckClear(tab)
            },
            None => listing.selected@.dom().len() == 0,
        },
        match (shown.path, screen.path) {
            (Some((crumbs, up)), Some(path)) => {
                &&& controls::crumbs_seen(crumbs@) == controls::crumbs_of(tab, path@)
                &&& deed::deed(up) == deed::Deed::Up(tab)
            },
            (None, None) => true,
            _ => false,
        },
        ({
            let rows = row::all_seen(screen.rows@);
            let passed = arrange::shown_rows(rows, *listing);
            let lines = arrange::page_lines(rows, *listing);
            let among = arrange::rows_among(lines);
            let fit = table::fitted(width as nat, table::possible(needed(among)), table::drop_order());
            let taken = table::room_taken(fit, shown.compact);
            &&& is_bar(
                shown.bar@,
                tab,
                listing.query@,
                controls::chips_of(
                    tab,
                    *listing,
                    screen.menu,
                    arrange::counts_spec(rows, *listing),
                    screen.path is None,
                ),
                width as int,
            )
            &&& shown.columns@ == fit
            &&& shown.compact == (width < table::room_taken(fit, false) + table::NAME_FLOOR)
            &&& is_header(shown.header@, tab, fit, all_chosen(among, *listing))
            &&& is_body(
                shown.body,
                tab,
                *screen,
                *listing,
                shown.columns,
                shown.compact,
                if width > taken { (width - taken) as nat } else { 0 },
                now,
            )
            &&& match shown.pager {
                Some(pager) => {
                    &&& arrange::pages_of(passed.len()) > 1
                    &&& controls::is_pager(
                        pager,
                        tab,
                        arrange::page_shown(listing.page as nat, passed.len()),
                        passed.len(),
                    )
                },
                None => arrange::pages_of(passed.len()) <= 1,
            }
        }),
{
    let arranged: Arranged<'_> = arrange::arrange(&screen.rows, listing);
    let ghost rows = row::all_seen(screen.rows@);
    let ghost lines = arrange::page_lines(rows, *listing);
    assert(arrange::lines_seen(arranged.lines@) == lines);
    let shown: Vec<&Row> = arranged.shown();
    let marks: Vec<&str> = arranged.marks();
    let ghost among = arrange::rows_among(lines);
    assert(marks@.map_values(|key: &str| key@).len() == marks@.len());
    let optional: Optional = Optional { twisty: any_expandable(&shown), checkable: marks.len() > 0 };
    assert(optional == needed(among));
    let fit: Fit = table::fit(width, optional);
    let compact: bool = fit.compact;
    let name: u32 = fit.name;
    let columns: Vec<Column> = fit.columns;
    let all: bool = arranged.all_marked(listing);
    proof {
        let open = arrange::choosable_rows(among);
        let keys = arrange::choice_keys(among);
        assert(forall|j: int| 0 <= j < open.len() ==> keys[j] == (#[trigger] open[j]).choice_key());
        assert(forall|j: int| 0 <= j < keys.len() ==> #[trigger] keys[j] == open[j].choice_key());
        assert(all == all_chosen(among, *listing));
    }
    let header: Vec<Cell> = table::header(tab, &columns, all);
    assert(is_header(header@, tab, columns@, all_chosen(among, *listing)));
    let body: Body = table_of(tab, screen, listing, &arranged, &columns, compact, name, now);
    let path: Option<(Vec<Crumb>, Msg)> = match screen.path {
        Some(path) => Some((controls::path(tab, path), Msg::In(tab, ViewMsg::Up))),
        None => None,
    };
    assert(arranged.counts@ =~= arrange::counts_spec(rows, *listing));
    let bar: Vec<Vec<Control>> = controls::toolbar(
        tab,
        listing,
        screen.menu,
        &arranged.counts,
        screen.path.is_none(),
        controls::cap(width as u128 * 20),
    );
    let pager: Option<Pager> = if arranged.pages > 1 { Some(controls::pager(tab, &arranged)) } else { None };
    Shown {
        heading: heading(screen.title, &screen.subtitle),
        chosen: choice(tab, screen.outlined, listing),
        path,
        bar,
        columns,
        compact,
        header,
        body,
        pager,
    }
}

// -- Laws --

/// A list is scrolled to the first line of the row it was walked to, with two lines above it
/// where there are so many; a list that was walked to nothing, or to a row that is not on
/// its page, is not scrolled.
pub proof fn a_list_is_scrolled_to_its_row(lines: Seq<arrange::LineView>, target: Seq<char>, request: u64, at: int)
    requires
        0 <= at <= lines.len(),
        lines.len() <= usize::MAX,
        forall|j: int| 0 <= j < at ==> !line_named(#[trigger] lines[j], target),
        at < lines.len() ==> line_named(lines[at], target),
    ensures
        target.len() == 0 || at == lines.len() ==> aimed(lines, target, request) is None,
        target.len() > 0 && at < lines.len() ==> (aimed(lines, target, request) matches Some(to) && to.request == request
            && (at < 2 ==> to.rows == 0) && (at >= 2 ==> to.rows == at - 2)),
{
    the_line_is_found(lines, target, at);
}

proof fn the_line_is_found(lines: Seq<arrange::LineView>, key: Seq<char>, at: int)
    requires
        0 <= at <= lines.len(),
        forall|j: int| 0 <= j < at ==> !line_named(#[trigger] lines[j], key),
        at < lines.len() ==> line_named(lines[at], key),
    ensures
        first_at(lines, key) == at,
    decreases lines.len(),
{
    if lines.len() > 0 {
        let front = lines.drop_last();
        if at < front.len() {
            assert forall|j: int| 0 <= j < at implies !line_named(#[trigger] front[j], key) by {
                assert(front[j] == lines[j]);
            }
            the_line_is_found(front, key, at);
        } else {
            assert forall|j: int| 0 <= j < front.len() implies !line_named(#[trigger] front[j], key) by {
                assert(front[j] == lines[j]);
            }
            the_line_is_found(front, key, front.len() as int);
            if at == lines.len() {
                assert(!line_named(lines[lines.len() - 1], key));
            }
        }
    }
}

/// Only a row is walked to, and not a heading.
pub proof fn only_a_row_is_walked_to(row: row::RowView, depth: usize, title: Seq<char>, meta: Seq<char>, key: Seq<char>)
    ensures
        line_named(arrange::LineView::Entry { row, depth }, key) == row.named(key),
        !line_named(arrange::LineView::Group { title, meta, depth }, key),
        !line_named(arrange::LineView::Waiting { depth }, key),
{
}

/// Of what is chosen it is said how much is outlined, and of how much where not all is.
pub proof fn what_is_chosen_is_counted(outlined: nat, chosen: nat)
    ensures
        outlined == chosen ==> chosen_said(outlined, chosen) == number::written(chosen) + " на шаре"@,
        outlined != chosen ==> chosen_said(outlined, chosen) == number::written(outlined) + " на шаре из "@
            + number::written(chosen),
{
}

/// All that is shown is chosen where there is something to choose and each of it is.
pub proof fn all_is_chosen_where_each_is(rows: Seq<row::RowView>, listing: ListingState)
    ensures
        arrange::choosable_rows(rows).len() == 0 ==> !all_chosen(rows, listing),
        all_chosen(rows, listing) ==> forall|i: int|
            0 <= i < arrange::choosable_rows(rows).len() ==> listing.selected@.contains_key(
                (#[trigger] arrange::choosable_rows(rows)[i]).choice_key(),
            ),
        (exists|i: int|
            0 <= i < arrange::choosable_rows(rows).len() && !listing.selected@.contains_key(
                (#[trigger] arrange::choosable_rows(rows)[i]).choice_key(),
            )) ==> !all_chosen(rows, listing),
{
}

/// A list has the columns that its rows need: one to open them where one can be opened, and
/// one to choose them where one can be chosen.
pub proof fn a_list_has_the_columns_it_needs(shown: Seq<row::RowView>)
    ensures
        needed(shown).twisty <==> exists|i: int| 0 <= i < shown.len() && (#[trigger] shown[i]).expandable(),
        needed(shown).checkable <==> arrange::choosable_rows(shown).len() > 0,
{
}

/// A list without rows says why: that it is empty, or that nothing passed.
pub proof fn an_empty_list_says_why(
    body: Body,
    tab: ViewId,
    screen: Screen<'_>,
    listing: ListingState,
    columns: Vec<Column>,
    compact: bool,
    name: nat,
    now: i64,
)
    requires
        is_body(body, tab, screen, listing, columns, compact, name, now),
    ensures
        body is Nothing <==> arrange::page_lines(row::all_seen(screen.rows@), listing).len() == 0,
        body matches Body::Nothing(said) ==> {
            &&& screen.rows@.len() == 0 ==> said@ == screen.empty@
            &&& screen.rows@.len() > 0 ==> said@ == "Под отбор ничего не подошло"@
        },
        body matches Body::Rows { name: tag, lines, aim } ==> lines@.len() == arrange::page_lines(
            row::all_seen(screen.rows@),
            listing,
        ).len(),
{
}

/// A name has as many letters as fit beside the depth of its line, a heading in its own
/// letters and a row in its own.
pub proof fn a_deeper_line_has_less_room(row: row::RowView, depth: usize, title: Seq<char>, meta: Seq<char>, name: nat)
    ensures
        name >= depth * 12 ==> room_for(arrange::LineView::Entry { row, depth }, name) == crate::components::format::fits(
            (name - depth * 12) as nat,
            125,
        ) && room_for(arrange::LineView::Group { title, meta, depth }, name) == crate::components::format::fits(
            (name - depth * 12) as nat,
            120,
        ),
        name <= depth * 12 ==> room_for(arrange::LineView::Entry { row, depth }, name) == crate::components::format::fits(
            0,
            125,
        ),
        path_shown(None).len() == 0,
{
}

} // verus!
