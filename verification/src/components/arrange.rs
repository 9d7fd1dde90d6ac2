//! What is shown and in what order: which rows pass, how they are sorted, which
//! page of them is shown and under which headings. Rules only, without a single
//! widget.

use vstd::prelude::*;
use crate::components::row::{self, Row};
use crate::number;
use crate::order;
use crate::state::listing::{Filter, Grouping, ListingState, Sorting};
use crate::text;

verus! {

broadcast use vstd::string::group_string_axioms;

/// How many records a page has. A fixed number: a page that changed with the
/// size of the window would lose the place where the reader stood.
pub const PAGE_SIZE: usize = 20;

// -- Passing and order --

/// The name matches what was typed: it occurs in it, whatever the case. `query`
/// is in lower case already.
pub open spec fn name_matches(row: row::RowView, query: Seq<char>) -> bool {
    query.len() == 0 || text::holds(text::lowercased(row.title), query)
}

/// What is searched for in names: what was typed, in lower case. Where nothing was
/// typed nothing is searched for, and every name matches.
pub open spec fn searched(typed: Seq<char>) -> Seq<char> {
    if typed.len() == 0 { Seq::empty() } else { text::lowercased(typed) }
}

/// The row passes by its name and its state.
pub open spec fn passes(row: row::RowView, query: Seq<char>, filter: Filter) -> bool {
    name_matches(row, query) && filter.passes(row.status)
}

/// `a` is shown before `b`. In groups the folder decides before anything else;
/// rows that are equal by the chosen order go by their names.
pub open spec fn comes_first(a: row::RowView, b: row::RowView, grouping: Grouping, sorting: Sorting) -> bool {
    if grouping != Grouping::Flat && a.folder() != b.folder() {
        text::before(a.folder(), b.folder())
    } else {
        match sorting {
            Sorting::Newest => a.date > b.date || (a.date == b.date && text::before(a.title, b.title)),
            Sorting::Name => text::before(a.title, b.title),
            Sorting::Size => a.size > b.size || (a.size == b.size && text::before(a.title, b.title)),
        }
    }
}

pub open spec fn first_by(grouping: Grouping, sorting: Sorting) -> spec_fn(row::RowView, row::RowView) -> bool {
    |a: row::RowView, b: row::RowView| comes_first(a, b, grouping, sorting)
}

/// The rows that pass, in the order in which they came.
pub open spec fn passing(rows: Seq<row::RowView>, query: Seq<char>, filter: Filter) -> Seq<row::RowView>
    decreases rows.len(),
{
    if rows.len() == 0 {
        rows
    } else {
        let rest = passing(rows.drop_last(), query, filter);
        if passes(rows.last(), query, filter) { rest.push(rows.last()) } else { rest }
    }
}

/// The rows that pass, in the order in which they are shown.
pub open spec fn shown_rows(rows: Seq<row::RowView>, listing: ListingState) -> Seq<row::RowView> {
    order::sorted(
        passing(rows, searched(listing.query@), listing.filter),
        first_by(listing.grouping, listing.sorting),
    )
}

/// What a list of references to rows says.
pub open spec fn refs_seen(rows: Seq<&Row>) -> Seq<row::RowView> {
    rows.map_values(|row: &Row| row@)
}

/// Whether a title holds what was typed, both in lower case.
pub fn title_matches(title: &str, query: &str) -> (yes: bool)
    ensures
        yes == (query@.len() == 0 || text::holds(title@, query@)),
{
    query.is_empty() || text::contains(title, query)
}

fn search_words(typed: &str) -> (query: String)
    ensures
        query@ == searched(typed@),
{
    if typed.is_empty() { String::new() } else { text::lowercase(typed) }
}

fn matches_query(row: &Row, query: &str) -> (yes: bool)
    ensures
        yes == name_matches(row@, query@),
{
    title_matches(&text::lowercase(&row.title), query)
}

fn is_first(a: &Row, b: &Row, grouping: Grouping, sorting: Sorting) -> (yes: bool)
    ensures
        yes == comes_first(a@, b@, grouping, sorting),
{
    if grouping != Grouping::Flat && !text::same(a.folder(), b.folder()) {
        return text::is_before(a.folder(), b.folder());
    }
    match sorting {
        Sorting::Newest => a.date > b.date || (a.date == b.date && text::is_before(&a.title, &b.title)),
        Sorting::Name => text::is_before(&a.title, &b.title),
        Sorting::Size => a.size > b.size || (a.size == b.size && text::is_before(&a.title, &b.title)),
    }
}

/// Puts a row in its place among sorted rows.
fn place<'a>(sorted: &mut Vec<&'a Row>, row: &'a Row, grouping: Grouping, sorting: Sorting)
    ensures
        refs_seen(final(sorted)@) == refs_seen(old(sorted)@).insert(
            order::slot(refs_seen(old(sorted)@), row@, first_by(grouping, sorting)),
            row@,
        ),
{
    let ghost before = refs_seen(sorted@);
    let ghost less = first_by(grouping, sorting);
    let mut at: usize = sorted.len();
    assert(before.take(at as int) =~= before);
    while at > 0 && is_first(row, sorted[at - 1], grouping, sorting)
        invariant
            at <= sorted.len(),
            before == refs_seen(sorted@),
            less == first_by(grouping, sorting),
            order::slot(before.take(at as int), row@, less) == order::slot(before, row@, less),
        decreases at,
    {
        assert(before.take(at as int).drop_last() =~= before.take(at - 1));
        assert(before.take(at as int).last() == sorted@[at - 1]@);
        at -= 1;
    }
    assert(at > 0 ==> before.take(at as int).last() == sorted@[at - 1]@);
    sorted.insert(at, row);
    assert(refs_seen(sorted@) =~= before.insert(at as int, row@));
}

/// The rows that pass, in the order in which they are shown: the one beginning
/// of the list and of everything that acts on the whole of it.
pub fn filtered<'a>(rows: &'a [Row], listing: &ListingState) -> (shown: Vec<&'a Row>)
    ensures
        refs_seen(shown@) == shown_rows(row::all_seen(rows@), *listing),
        shown@.len() <= rows@.len(),
{
    broadcast use row::all_seen_by_one;

    let ghost all = row::all_seen(rows@);
    let query: String = search_words(&listing.query);
    let ghost less = first_by(listing.grouping, listing.sorting);
    let mut sorted: Vec<&'a Row> = Vec::new();
    let mut i: usize = 0;
    assert(refs_seen(sorted@) =~= order::sorted(passing(all.take(0), query@, listing.filter), less));
    while i < rows.len()
        invariant
            i <= rows.len(),
            all.len() == rows@.len(),
            forall|j: int| 0 <= j < all.len() ==> #[trigger] all[j] == rows@[j]@,
            less == first_by(listing.grouping, listing.sorting),
            refs_seen(sorted@) == order::sorted(passing(all.take(i as int), query@, listing.filter), less),
            sorted@.len() <= i,
        decreases rows.len() - i,
    {
        let row: &'a Row = &rows[i];
        let ghost some = passing(all.take(i as int), query@, listing.filter);
        assert(all.take(i + 1).drop_last() =~= all.take(i as int));
        assert(all.take(i + 1).last() == row@);
        if matches_query(row, &query) && listing.filter.matches(&row.status) {
            place(&mut sorted, row, listing.grouping, listing.sorting);
            assert(some.push(row@).drop_last() =~= some);
            assert(refs_seen(sorted@).len() == sorted@.len());
            proof {
                order::slot_bounds(order::sorted(some, less), row@, less);
            }
        }
        i += 1;
    }
    assert(all.take(all.len() as int) =~= all);
    sorted
}

/// Where the first row that the key names stands; -1 when none does.
pub open spec fn first_named(rows: Seq<row::RowView>, key: Seq<char>) -> int
    decreases rows.len(),
{
    if rows.len() == 0 {
        -1
    } else {
        let earlier = first_named(rows.drop_last(), key);
        if earlier >= 0 {
            earlier
        } else if rows.last().named(key) {
            rows.len() - 1
        } else {
            -1
        }
    }
}

/// On which page the row with this key stands; `None` when it did not pass.
pub fn page_of(rows: &[Row], listing: &ListingState, key: &str) -> (page: Option<usize>)
    ensures
        ({
            let at = first_named(shown_rows(row::all_seen(rows@), *listing), key@);
            match page {
                Some(page) => at >= 0 && page == at / PAGE_SIZE as int,
                None => at < 0,
            }
        }),
{
    let shown: Vec<&Row> = filtered(rows, listing);
    let ghost all = refs_seen(shown@);
    let mut i: usize = 0;
    assert(first_named(all.take(0), key@) == -1);
    while i < shown.len()
        invariant
            i <= shown.len(),
            all == refs_seen(shown@),
            all == shown_rows(row::all_seen(rows@), *listing),
            first_named(all.take(i as int), key@) == -1,
        decreases shown.len() - i,
    {
        assert(all.take(i + 1).drop_last() =~= all.take(i as int));
        assert(all.take(i + 1).last() == shown@[i as int]@);
        if shown[i].named(key) {
            proof {
                first_named_stays(all, i + 1, key@);
            }
            return Some(i / PAGE_SIZE);
        }
        i += 1;
    }
    assert(all.take(all.len() as int) =~= all);
    None
}

proof fn first_named_stays(rows: Seq<row::RowView>, cut: int, key: Seq<char>)
    requires
        0 <= cut <= rows.len(),
        first_named(rows.take(cut), key) >= 0,
    ensures
        first_named(rows, key) == first_named(rows.take(cut), key),
    decreases rows.len() - cut,
{
    if cut == rows.len() {
        assert(rows.take(cut) =~= rows);
    } else {
        assert(rows.take(cut + 1).drop_last() =~= rows.take(cut));
        first_named_stays(rows, cut + 1, key);
    }
}

// -- Lines --

/// A line of the table.
pub enum Line<'a> {
    /// A heading: a folder and how much of it is shown.
    Group { title: String, meta: String, depth: usize },
    Entry { row: &'a Row, depth: usize },
    /// An open folder whose contents are still on their way.
    Waiting { depth: usize },
}

/// What a line says.
pub ghost enum LineView {
    Group { title: Seq<char>, meta: Seq<char>, depth: usize },
    Entry { row: row::RowView, depth: usize },
    Waiting { depth: usize },
}

impl<'a> View for Line<'a> {
    type V = LineView;

    open spec fn view(&self) -> LineView {
        match *self {
            Line::Group { title, meta, depth } => LineView::Group { title: title@, meta: meta@, depth },
            Line::Entry { row, depth } => LineView::Entry { row: row@, depth },
            Line::Waiting { depth } => LineView::Waiting { depth },
        }
    }
}

pub open spec fn lines_seen(lines: Seq<Line<'_>>) -> Seq<LineView> {
    lines.map_values(|line: Line<'_>| line@)
}

/// One step deeper.
pub open spec fn deeper(depth: usize) -> usize {
    if depth < usize::MAX { (depth + 1) as usize } else { depth }
}

/// What an open row has under it: a line of waiting while it loads, and its
/// contents one step deeper, each with what it has under it in turn.
pub open spec fn unfolded(row: row::RowView, expanded: Set<Seq<char>>, depth: usize) -> Seq<LineView>
    decreases row,
{
    if !expanded.contains(row.key()) {
        Seq::empty()
    } else {
        (if row.loading { seq![LineView::Waiting { depth: deeper(depth) }] } else { Seq::empty() }) + all_unfolded(
            row.children,
            expanded,
            deeper(depth),
        )
    }
}

/// Rows at one depth, each followed by what it has under it.
pub open spec fn all_unfolded(rows: Seq<row::RowView>, expanded: Set<Seq<char>>, depth: usize) -> Seq<LineView>
    decreases rows,
{
    if rows.len() == 0 {
        Seq::empty()
    } else {
        all_unfolded(rows.drop_last(), expanded, depth).push(LineView::Entry { row: rows.last(), depth }) + unfolded(
            rows.last(),
            expanded,
            depth,
        )
    }
}

fn push_line<'a>(lines: &mut Vec<Line<'a>>, line: Line<'a>)
    ensures
        lines_seen(final(lines)@) == lines_seen(old(lines)@).push(line@),
{
    let ghost before = lines_seen(lines@);
    lines.push(line);
    assert(lines_seen(lines@) =~= before.push(line@));
}

/// The contents of an open row, as lines under it, all the way down.
fn expand<'a>(row: &'a Row, listing: &ListingState, depth: usize, lines: &mut Vec<Line<'a>>)
    ensures
        lines_seen(final(lines)@) == lines_seen(old(lines)@) + unfolded(row@, listing.expanded@, depth),
    decreases row,
{
    broadcast use row::all_seen_by_one;

    let ghost before = lines_seen(lines@);
    if !listing.expanded.contains(row.key()) {
        assert(before + unfolded(row@, listing.expanded@, depth) =~= before);
        return;
    }
    let below: usize = depth.saturating_add(1);
    if row.loading {
        push_line(lines, Line::Waiting { depth: below });
    }
    let ghost opened = lines_seen(lines@);
    let ghost kids = row::all_seen(row.children@);
    let mut i: usize = 0;
    assert(opened + all_unfolded(kids.take(0), listing.expanded@, below) =~= opened);
    while i < row.children.len()
        invariant
            i <= row.children.len(),
            kids.len() == row.children@.len(),
            forall|j: int| 0 <= j < kids.len() ==> #[trigger] kids[j] == row.children@[j]@,
            lines_seen(lines@) == opened + all_unfolded(kids.take(i as int), listing.expanded@, below),
        decreases row.children.len() - i,
    {
        let child: &'a Row = &row.children[i];
        assert(kids.take(i + 1).drop_last() =~= kids.take(i as int));
        assert(kids.take(i + 1).last() == child@);
        push_line(lines, Line::Entry { row: child, depth: below });
        expand(child, listing, below, lines);
        assert(lines_seen(lines@) =~= opened + all_unfolded(kids.take(i + 1), listing.expanded@, below));
        i += 1;
    }
    assert(kids.take(kids.len() as int) =~= kids);
    assert(lines_seen(lines@) =~= before + unfolded(row@, listing.expanded@, depth));
}

/// The names that are not empty.
pub open spec fn spoken(names: Seq<Seq<char>>) -> Seq<Seq<char>>
    decreases names.len(),
{
    if names.len() == 0 {
        Seq::empty()
    } else {
        let rest = spoken(names.drop_last());
        if names.last().len() > 0 { rest.push(names.last()) } else { rest }
    }
}

/// The steps a folder opens: its own name, every segment of its path, or none.
pub open spec fn steps(folder: Seq<char>, grouping: Grouping) -> Seq<Seq<char>> {
    let parts = text::pieces(folder, seq!['/']);
    match grouping {
        Grouping::Folder => spoken(seq![parts.last()]),
        Grouping::Tree => spoken(parts),
        Grouping::Flat => Seq::empty(),
    }
}

/// The steps that a folder opens.
pub fn segments(folder: &str, grouping: Grouping) -> (parts: Vec<String>)
    ensures
        text::texts(parts@) == steps(folder@, grouping),
{
    let marks: [char; 1] = ['/'];
    let all: Vec<String> = text::split(folder, &marks);
    assert(marks@ =~= seq!['/']);
    let ghost runs = text::texts(all@);
    let mut parts: Vec<String> = Vec::new();
    assert(text::texts(parts@) =~= Seq::empty());
    match grouping {
        Grouping::Flat => parts,
        Grouping::Folder => {
            let last: &String = &all[all.len() - 1];
            assert(runs.last() == last@);
            let ghost one = seq![runs.last()];
            assert(one.drop_last() =~= Seq::<Seq<char>>::empty());
            assert(spoken(one.drop_last()) =~= Seq::<Seq<char>>::empty());
            if !last.as_str().is_empty() {
                parts.push(last.clone());
            }
            assert(text::texts(parts@) =~= spoken(one));
            parts
        },
        Grouping::Tree => {
            let mut i: usize = 0;
            while i < all.len()
                invariant
                    i <= all.len(),
                    runs == text::texts(all@),
                    text::texts(parts@) == spoken(runs.take(i as int)),
                decreases all.len() - i,
            {
                assert(runs.take(i + 1).drop_last() =~= runs.take(i as int));
                assert(runs.take(i + 1).last() == all@[i as int]@);
                if !all[i].as_str().is_empty() {
                    let ghost before = parts@;
                    parts.push(all[i].clone());
                    assert(text::texts(parts@) =~= text::texts(before).push(all@[i as int]@));
                }
                i += 1;
            }
            assert(runs.take(runs.len() as int) =~= runs);
            parts
        },
    }
}

/// How many names two paths have in common at the start, from `at` on.
pub open spec fn common(a: Seq<Seq<char>>, b: Seq<Seq<char>>, at: nat) -> nat
    decreases a.len() - at,
{
    if at < a.len() && at < b.len() && a[at as int] == b[at as int] {
        common(a, b, at + 1)
    } else {
        at
    }
}

/// How many rows from `at` on have the path of row `of`.
pub open spec fn alike(paths: Seq<Seq<Seq<char>>>, of: int, at: int) -> nat
    decreases paths.len() - at,
{
    if 0 <= at < paths.len() && paths[at] == paths[of] {
        1 + alike(paths, of, at + 1)
    } else {
        0
    }
}

/// The headings before a row: one for each step in which its path differs from
/// that of the row before. Only the last says how many rows it stands over.
pub open spec fn headings(paths: Seq<Seq<Seq<char>>>, index: int) -> Seq<LineView> {
    let path = paths[index];
    let from = if index > 0 { common(path, paths[index - 1], 0) } else { 0 };
    Seq::new(
        (path.len() - from) as nat,
        |k: int|
            LineView::Group {
                title: path[from + k],
                meta: if from + k + 1 == path.len() {
                    crate::components::format::counted_noun(alike(paths, index, index), seq!["файл", "файла", "файлов"])
                } else {
                    Seq::empty()
                },
                depth: (from + k) as usize,
            },
    )
}

/// A row with its headings and what it has under it.
pub open spec fn block(rows: Seq<row::RowView>, paths: Seq<Seq<Seq<char>>>, expanded: Set<Seq<char>>, index: int) -> Seq<LineView> {
    let depth = paths[index].len() as usize;
    headings(paths, index).push(LineView::Entry { row: rows[index], depth }) + unfolded(rows[index], expanded, depth)
}

/// The paths the rows are grouped by.
pub open spec fn paths_of(rows: Seq<row::RowView>, grouping: Grouping) -> Seq<Seq<Seq<char>>> {
    rows.map_values(|row: row::RowView| steps(row.folder(), grouping))
}

/// The lines of the first `count` rows.
pub open spec fn lines_of(rows: Seq<row::RowView>, grouping: Grouping, expanded: Set<Seq<char>>, count: nat) -> Seq<LineView>
    decreases count,
{
    if count == 0 {
        Seq::empty()
    } else {
        lines_of(rows, grouping, expanded, (count - 1) as nat) + block(
            rows,
            paths_of(rows, grouping),
            expanded,
            count - 1,
        )
    }
}

/// The paths of rows, each as its names.
pub open spec fn paths_seen(paths: Seq<Vec<String>>) -> Seq<Seq<Seq<char>>> {
    paths.map_values(|path: Vec<String>| text::texts(path@))
}

fn same_path(a: &Vec<String>, b: &Vec<String>) -> (yes: bool)
    ensures
        yes == (text::texts(a@) == text::texts(b@)),
{
    let common_names: usize = common_start(a, b);
    proof {
        common_is_equal(text::texts(a@), text::texts(b@), 0);
    }
    let yes: bool = a.len() == b.len() && common_names == a.len();
    assert(text::texts(a@).len() == a@.len());
    assert(text::texts(b@).len() == b@.len());
    if yes {
        assert(text::texts(a@) =~= text::texts(b@));
    }
    yes
}

proof fn common_is_equal(a: Seq<Seq<char>>, b: Seq<Seq<char>>, at: nat)
    ensures
        at <= common(a, b, at),
        at <= a.len() && at <= b.len() ==> common(a, b, at) <= a.len() && common(a, b, at) <= b.len(),
        forall|i: int| at <= i < common(a, b, at) ==> #[trigger] a[i] == b[i],
        common(a, b, at) < a.len() && common(a, b, at) < b.len() ==> a[common(a, b, at) as int] != b[common(a, b, at) as int],
    decreases a.len() - at,
{
    if at < a.len() && at < b.len() && a[at as int] == b[at as int] {
        common_is_equal(a, b, at + 1);
    }
}

fn common_start(a: &Vec<String>, b: &Vec<String>) -> (count: usize)
    ensures
        count == common(text::texts(a@), text::texts(b@), 0),
        count <= a.len(),
{
    let ghost left = text::texts(a@);
    let ghost right = text::texts(b@);
    let mut at: usize = 0;
    while at < a.len() && at < b.len() && text::same(&a[at], &b[at])
        invariant
            at <= a.len(),
            at <= b.len(),
            left == text::texts(a@),
            right == text::texts(b@),
            common(left, right, at as nat) == common(left, right, 0),
        decreases a.len() - at,
    {
        assert(left[at as int] == a@[at as int]@ && right[at as int] == b@[at as int]@);
        at += 1;
    }
    assert(at < a.len() && at < b.len() ==> left[at as int] == a@[at as int]@ && right[at as int] == b@[at as int]@);
    at
}

fn run_length(paths: &Vec<Vec<String>>, of: usize) -> (count: usize)
    requires
        of < paths.len(),
    ensures
        count == alike(paths_seen(paths@), of as int, of as int),
{
    let ghost all = paths_seen(paths@);
    let mut at: usize = of;
    while at < paths.len() && same_path(&paths[at], &paths[of])
        invariant
            of <= at <= paths.len(),
            of < paths.len(),
            all == paths_seen(paths@),
            (at - of) + alike(all, of as int, at as int) == alike(all, of as int, of as int),
        decreases paths.len() - at,
    {
        assert(all[at as int] == text::texts(paths@[at as int]@) && all[of as int] == text::texts(paths@[of as int]@));
        at += 1;
    }
    assert(at < paths.len() ==> all[at as int] == text::texts(paths@[at as int]@) && all[of as int] == text::texts(paths@[of as int]@));
    at - of
}

/// Puts the headings of a row.
fn head_lines<'a>(paths: &Vec<Vec<String>>, index: usize, lines: &mut Vec<Line<'a>>)
    requires
        index < paths.len(),
    ensures
        lines_seen(final(lines)@) == lines_seen(old(lines)@) + headings(paths_seen(paths@), index as int),
{
    let ghost all = paths_seen(paths@);
    let ghost before = lines_seen(lines@);
    let path: &Vec<String> = &paths[index];
    assert(all[index as int] == text::texts(path@));
    let from: usize = if index > 0 {
        assert(all[index - 1] == text::texts(paths@[index - 1]@));
        common_start(path, &paths[index - 1])
    } else {
        0
    };
    let same: usize = run_length(paths, index);
    let ghost heads = headings(all, index as int);
    let mut depth: usize = from;
    assert(before + heads.take(0) =~= before);
    while depth < path.len()
        invariant
            from <= depth <= path.len(),
            index < paths.len(),
            all == paths_seen(paths@),
            *path == paths@[index as int],
            all[index as int] == text::texts(path@),
            from == if index > 0 { common(all[index as int], all[index - 1], 0) } else { 0 },
            same == alike(all, index as int, index as int),
            heads == headings(all, index as int),
            lines_seen(lines@) == before + heads.take(depth - from),
        decreases path.len() - depth,
    {
        let mut meta: String = String::new();
        let forms: [&'static str; 3] = ["файл", "файла", "файлов"];
        if depth + 1 == path.len() {
            meta = number::decimal(same as u128);
            meta.append(" ");
            meta.append(crate::components::format::plural(same, forms));
            assert(forms@ =~= seq!["файл", "файла", "файлов"]);
        }
        push_line(lines, Line::Group { title: path[depth].clone(), meta, depth });
        assert(all[index as int][depth as int] == path@[depth as int]@);
        assert(heads.take(depth + 1 - from) =~= heads.take(depth - from).push(heads[depth - from]));
        assert(lines_seen(lines@) =~= before + heads.take(depth + 1 - from));
        depth += 1;
    }
    assert(heads.take(heads.len() as int) =~= heads);
}

/// Rows under their headings: a heading opens where a path differs from the one
/// before.
fn group<'a>(rows: Vec<&'a Row>, listing: &ListingState) -> (lines: Vec<Line<'a>>)
    ensures
        lines_seen(lines@) == lines_of(refs_seen(rows@), listing.grouping, listing.expanded@, rows@.len()),
{
    let ghost all = refs_seen(rows@);
    let ghost wanted = paths_of(all, listing.grouping);
    let mut paths: Vec<Vec<String>> = Vec::new();
    let mut i: usize = 0;
    while i < rows.len()
        invariant
            i <= rows.len(),
            all == refs_seen(rows@),
            wanted == paths_of(all, listing.grouping),
            paths_seen(paths@) == wanted.take(i as int),
        decreases rows.len() - i,
    {
        let ghost before = paths@;
        let path: Vec<String> = segments(rows[i].folder(), listing.grouping);
        paths.push(path);
        assert(wanted[i as int] == text::texts(path@));
        assert(paths_seen(paths@) =~= paths_seen(before).push(text::texts(path@)));
        assert(wanted.take(i + 1) =~= wanted.take(i as int).push(wanted[i as int]));
        i += 1;
    }
    assert(wanted.take(wanted.len() as int) =~= wanted);
    assert(paths_seen(paths@).len() == paths@.len());
    let mut lines: Vec<Line<'a>> = Vec::new();
    assert(lines_seen(lines@) =~= Seq::empty());
    let mut index: usize = 0;
    while index < rows.len()
        invariant
            index <= rows.len(),
            paths@.len() == rows@.len(),
            all == refs_seen(rows@),
            wanted == paths_of(all, listing.grouping),
            paths_seen(paths@) == wanted,
            lines_seen(lines@) == lines_of(all, listing.grouping, listing.expanded@, index as nat),
        decreases rows.len() - index,
    {
        let ghost before = lines_seen(lines@);
        let row: &'a Row = rows[index];
        let depth: usize = paths[index].len();
        assert(all[index as int] == row@);
        assert(wanted[index as int] == text::texts(paths@[index as int]@));
        assert(wanted[index as int].len() == depth);
        head_lines(&paths, index, &mut lines);
        push_line(&mut lines, Line::Entry { row, depth });
        expand(row, listing, depth, &mut lines);
        assert(lines_seen(lines@) =~= before + block(all, wanted, listing.expanded@, index as int));
        index += 1;
    }
    lines
}


// -- A page --

/// A list ready to be shown, and what there is to know of its pages.
pub struct Arranged<'a> {
    pub lines: Vec<Line<'a>>,
    /// How many records passed.
    pub total: usize,
    pub pages: usize,
    /// The page that is shown: the one asked for, but none past the last.
    pub page: usize,
    /// How many records pass each filter, before the chosen one is applied.
    pub counts: Vec<usize>,
}

/// How many rows pass a filter.
pub open spec fn passing_count(rows: Seq<row::RowView>, query: Seq<char>, filter: Filter) -> nat {
    passing(rows, query, filter).len()
}

/// How many rows pass each filter.
pub open spec fn counts_spec(rows: Seq<row::RowView>, listing: ListingState) -> Seq<usize> {
    Seq::new(
        Filter::all_spec().len(),
        |i: int| passing_count(rows, searched(listing.query@), Filter::all_spec()[i]) as usize,
    )
}

/// How many pages so many records fill; a list without records has one.
pub open spec fn pages_of(total: nat) -> nat {
    if total == 0 { 1 } else { (total + PAGE_SIZE as nat - 1) as nat / PAGE_SIZE as nat }
}

pub open spec fn page_shown(asked: nat, total: nat) -> nat {
    if asked < pages_of(total) { asked } else { (pages_of(total) - 1) as nat }
}

/// The records of one page.
pub open spec fn page_rows(rows: Seq<row::RowView>, page: nat) -> Seq<row::RowView> {
    let from = page * PAGE_SIZE as nat;
    let to = if from + PAGE_SIZE < rows.len() { from + PAGE_SIZE as nat } else { rows.len() };
    rows.subrange(from as int, to as int)
}

/// The rows among the lines: headings and lines of waiting are none.
pub open spec fn rows_among(lines: Seq<LineView>) -> Seq<row::RowView>
    decreases lines.len(),
{
    if lines.len() == 0 {
        Seq::empty()
    } else {
        let rest = rows_among(lines.drop_last());
        match lines.last() {
            LineView::Entry { row, .. } => rest.push(row),
            _ => rest,
        }
    }
}

/// The keys by which the rows are chosen that can be.
pub open spec fn choice_keys(rows: Seq<row::RowView>) -> Seq<Seq<char>> {
    choosable_rows(rows).map_values(|row: row::RowView| row.choice_key())
}

/// «1–20 из 36».
pub open spec fn range_of(page: nat, total: nat) -> Seq<char> {
    if total == 0 {
        Seq::empty()
    } else {
        let from = page * PAGE_SIZE as nat;
        let to = if from + PAGE_SIZE < total { from + PAGE_SIZE as nat } else { total };
        number::written(from + 1) + "–"@ + number::written(to) + " из "@ + number::written(total)
    }
}

fn count_passing(rows: &[Row], query: &str, filter: Filter) -> (count: usize)
    ensures
        count == passing_count(row::all_seen(rows@), query@, filter),
{
    broadcast use row::all_seen_by_one;

    let ghost all = row::all_seen(rows@);
    let mut count: usize = 0;
    let mut i: usize = 0;
    while i < rows.len()
        invariant
            i <= rows.len(),
            all.len() == rows@.len(),
            forall|j: int| 0 <= j < all.len() ==> #[trigger] all[j] == rows@[j]@,
            count <= i,
            count == passing_count(all.take(i as int), query@, filter),
        decreases rows.len() - i,
    {
        assert(all.take(i + 1).drop_last() =~= all.take(i as int));
        assert(all.take(i + 1).last() == rows@[i as int]@);
        if matches_query(&rows[i], query) && filter.matches(&rows[i].status) {
            count += 1;
        }
        i += 1;
    }
    assert(all.take(all.len() as int) =~= all);
    count
}

/// The page of a list that its state asks for, under its headings and with what
/// is open.
pub fn arrange<'a>(rows: &'a [Row], listing: &ListingState) -> (arranged: Arranged<'a>)
    ensures
        ({
            let shown = shown_rows(row::all_seen(rows@), *listing);
            let page = page_rows(shown, arranged.page as nat);
            &&& arranged.total == shown.len()
            &&& arranged.pages == pages_of(shown.len())
            &&& arranged.page == page_shown(listing.page as nat, shown.len())
            &&& lines_seen(arranged.lines@) == lines_of(page, listing.grouping, listing.expanded@, page.len())
            &&& arranged.counts@.len() == Filter::all_spec().len()
            &&& forall|i: int|
                0 <= i < Filter::all_spec().len() ==> #[trigger] arranged.counts@[i] == passing_count(
                    row::all_seen(rows@),
                    searched(listing.query@),
                    Filter::all_spec()[i],
                )
        }),
        arranged.well_formed(),
{
    let query: String = search_words(&listing.query);
    let filters: Vec<Filter> = Filter::all();
    let mut counts: Vec<usize> = Vec::new();
    let mut i: usize = 0;
    while i < filters.len()
        invariant
            i <= filters.len(),
            filters@ == Filter::all_spec(),
            counts@.len() == i,
            forall|j: int| 0 <= j < i ==> #[trigger] counts@[j] == passing_count(row::all_seen(rows@), query@, Filter::all_spec()[j]),
        decreases filters.len() - i,
    {
        counts.push(count_passing(rows, &query, filters[i]));
        i += 1;
    }

    let passed: Vec<&'a Row> = filtered(rows, listing);
    let ghost shown = refs_seen(passed@);
    let total: usize = passed.len();
    assert(shown.len() == total);
    let pages: usize = if total == 0 { 1 } else { (total - 1) / PAGE_SIZE + 1 };
    assert(pages == pages_of(total as nat));
    let page: usize = if listing.page < pages { listing.page } else { pages - 1 };
    let from: usize = page * PAGE_SIZE;
    let to: usize = if total - from > PAGE_SIZE { from + PAGE_SIZE } else { total };
    let mut on_page: Vec<&'a Row> = Vec::new();
    let mut at: usize = from;
    while at < to
        invariant
            from <= at <= to <= total,
            total == passed@.len(),
            shown == refs_seen(passed@),
            refs_seen(on_page@) == shown.subrange(from as int, at as int),
        decreases to - at,
    {
        let ghost before = on_page@;
        on_page.push(passed[at]);
        assert(refs_seen(on_page@) =~= refs_seen(before).push(passed@[at as int]@));
        assert(shown.subrange(from as int, at + 1) =~= shown.subrange(from as int, at as int).push(shown[at as int]));
        at += 1;
    }
    assert(refs_seen(on_page@).len() == on_page@.len());
    Arranged { lines: group(on_page, listing), total, pages, page, counts }
}

impl<'a> Arranged<'a> {
    /// The page lies within the list.
    pub open spec fn well_formed(&self) -> bool {
        self.total > 0 ==> self.page * PAGE_SIZE < self.total
    }

    /// «1–20 из 36»; nothing for an empty list.
    pub fn range(&self) -> (said: String)
        requires
            self.well_formed(),
        ensures
            said@ == range_of(self.page as nat, self.total as nat),
    {
        if self.total == 0 {
            return String::new();
        }
        let from: usize = self.page * PAGE_SIZE;
        let to: usize = if self.total - from > PAGE_SIZE { from + PAGE_SIZE } else { self.total };
        let mut said: String = number::decimal(from as u128 + 1);
        said.append("–");
        said.append(&number::decimal(to as u128));
        said.append(" из ");
        said.append(&number::decimal(self.total as u128));
        said
    }

    /// The rows shown on this page, with those open under them.
    pub fn shown(&self) -> (rows: Vec<&'a Row>)
        ensures
            refs_seen(rows@) == rows_among(lines_seen(self.lines@)),
    {
        let ghost all = lines_seen(self.lines@);
        let mut rows: Vec<&'a Row> = Vec::new();
        assert(refs_seen(rows@) =~= Seq::empty());
        let mut i: usize = 0;
        while i < self.lines.len()
            invariant
                i <= self.lines.len(),
                all == lines_seen(self.lines@),
                refs_seen(rows@) == rows_among(all.take(i as int)),
            decreases self.lines.len() - i,
        {
            assert(all.take(i + 1).drop_last() =~= all.take(i as int));
            assert(all.take(i + 1).last() == self.lines@[i as int]@);
            match &self.lines[i] {
                Line::Entry { row, .. } => {
                    let ghost before = rows@;
                    rows.push(*row);
                    assert(refs_seen(rows@) =~= refs_seen(before).push(row@));
                },
                _ => {},
            }
            i += 1;
        }
        assert(all.take(all.len() as int) =~= all);
        rows
    }

    /// The keys of the rows shown on this page that can be chosen: what the box in the
    /// header speaks of and acts on. A page and not the whole list: the box stands over
    /// what is seen.
    pub fn marks(&self) -> (keys: Vec<&'a str>)
        ensures
            keys@.map_values(|key: &str| key@) == choice_keys(rows_among(lines_seen(self.lines@))),
    {
        let rows: Vec<&'a Row> = self.choices();
        let ghost all = choice_keys(rows_among(lines_seen(self.lines@)));
        let mut keys: Vec<&'a str> = Vec::new();
        let mut i: usize = 0;
        while i < rows.len()
            invariant
                i <= rows.len(),
                refs_seen(rows@) == choosable_rows(rows_among(lines_seen(self.lines@))),
                all == choice_keys(rows_among(lines_seen(self.lines@))),
                keys@.len() == i,
                forall|j: int| 0 <= j < i ==> (#[trigger] keys@[j])@ == all[j],
            decreases rows.len() - i,
        {
            let row: &'a Row = rows[i];
            assert(refs_seen(rows@)[i as int] == row@);
            keys.push(row.choice_key());
            i += 1;
        }
        assert(all.len() == refs_seen(rows@).len());
        assert(keys@.map_values(|key: &str| key@) =~= all);
        keys
    }

    /// Whether all that can be chosen is. With nothing to choose it is not.
    pub fn all_marked(&self, listing: &ListingState) -> (yes: bool)
        ensures
            ({
                let keys = choice_keys(rows_among(lines_seen(self.lines@)));
                yes == (keys.len() > 0 && forall|i: int|
                    0 <= i < keys.len() ==> listing.selected@.contains_key(#[trigger] keys[i]))
            }),
    {
        let marks: Vec<&'a str> = self.marks();
        let ghost keys = marks@.map_values(|key: &str| key@);
        assert(keys.len() == marks@.len());
        let mut i: usize = 0;
        while i < marks.len()
            invariant
                i <= marks.len(),
                keys == marks@.map_values(|key: &str| key@),
                keys == choice_keys(rows_among(lines_seen(self.lines@))),
                forall|j: int| 0 <= j < i ==> listing.selected@.contains_key(#[trigger] keys[j]),
            decreases marks.len() - i,
        {
            assert(keys[i as int] == marks@[i as int]@);
            if !listing.selected.contains_key(marks[i]) {
                return false;
            }
            i += 1;
        }
        marks.len() > 0
    }

    /// The rows shown on this page that can be chosen.
    pub fn choices(&self) -> (rows: Vec<&'a Row>)
        ensures
            refs_seen(rows@) == choosable_rows(rows_among(lines_seen(self.lines@))),
    {
        let shown: Vec<&'a Row> = self.shown();
        let ghost all = refs_seen(shown@);
        let mut rows: Vec<&'a Row> = Vec::new();
        assert(refs_seen(rows@) =~= Seq::empty());
        let mut i: usize = 0;
        while i < shown.len()
            invariant
                i <= shown.len(),
                all == refs_seen(shown@),
                refs_seen(rows@) == choosable_rows(all.take(i as int)),
            decreases shown.len() - i,
        {
            assert(all.take(i + 1).drop_last() =~= all.take(i as int));
            assert(all.take(i + 1).last() == shown@[i as int]@);
            if shown[i].choosable() {
                let ghost before = rows@;
                rows.push(shown[i]);
                assert(refs_seen(rows@) =~= refs_seen(before).push(shown@[i as int]@));
            }
            i += 1;
        }
        assert(all.take(all.len() as int) =~= all);
        rows
    }
}

/// The lines of the page that a list shows.
pub open spec fn page_lines(rows: Seq<row::RowView>, listing: ListingState) -> Seq<LineView> {
    let shown = shown_rows(rows, listing);
    let page = page_rows(shown, page_shown(listing.page as nat, shown.len()));
    lines_of(page, listing.grouping, listing.expanded@, page.len())
}

/// The rows that can be chosen on the page that a list shows.
pub open spec fn choices_shown(rows: Seq<row::RowView>, listing: ListingState) -> Seq<row::RowView> {
    choosable_rows(rows_among(page_lines(rows, listing)))
}

/// The rows that can be chosen.
pub open spec fn choosable_rows(rows: Seq<row::RowView>) -> Seq<row::RowView>
    decreases rows.len(),
{
    if rows.len() == 0 {
        Seq::empty()
    } else {
        let rest = choosable_rows(rows.drop_last());
        if rows.last().choosable() { rest.push(rows.last()) } else { rest }
    }
}

// -- Laws --

proof fn text_order_carries_over(a: Seq<char>, b: Seq<char>, c: Seq<char>)
    requires
        !text::before(a, b),
        !text::before(b, c),
    ensures
        !text::before(a, c),
{
    if text::before(a, c) {
        if text::before(b, a) {
            text::before_is_transitive(b, a, c);
        } else {
            text::before_is_total(a, b);
        }
    }
}

proof fn text_order_is_one_way(a: Seq<char>, b: Seq<char>)
    requires
        text::before(a, b),
    ensures
        !text::before(b, a),
{
    if text::before(b, a) {
        text::before_is_transitive(a, b, a);
        text::before_is_irreflexive(a);
    }
}

/// Whatever is chosen, the order of rows is an order.
pub proof fn rows_have_an_order(grouping: Grouping, sorting: Sorting)
    ensures
        order::is_order(first_by(grouping, sorting)),
{
    let less = first_by(grouping, sorting);
    assert forall|a: row::RowView| !#[trigger] less(a, a) by {
        text::before_is_irreflexive(a.title);
    }
    assert forall|a: row::RowView, b: row::RowView| #[trigger] less(a, b) implies !less(b, a) by {
        if text::before(a.title, b.title) {
            text_order_is_one_way(a.title, b.title);
        }
        if text::before(a.folder(), b.folder()) {
            text_order_is_one_way(a.folder(), b.folder());
        }
    }
    assert forall|a: row::RowView, b: row::RowView, c: row::RowView| !#[trigger] less(a, b) && !#[trigger] less(b, c) implies !less(a, c) by {
        if !text::before(a.title, b.title) && !text::before(b.title, c.title) {
            text_order_carries_over(a.title, b.title, c.title);
        }
        let (f, g, h) = (a.folder(), b.folder(), c.folder());
        if grouping != Grouping::Flat {
            if !text::before(f, g) && !text::before(g, h) {
                text_order_carries_over(f, g, h);
            }
            text::before_is_irreflexive(f);
            if f == h && f != g {
                // Both ways round cannot fail to be before: the folders differ.
                if !text::before(f, g) && !text::before(g, f) {
                    text::before_is_total(f, g);
                }
            }
            if f != h && !text::before(f, h) && !text::before(h, f) {
                text::before_is_total(f, h);
            }
        }
    }
}

/// The rows that are shown are those that pass, each as often as it came, in the
/// chosen order; rows equal in that order stay as they stood.
pub proof fn shown_rows_are_the_passing_rows_in_order(rows: Seq<row::RowView>, listing: ListingState, like: row::RowView)
    ensures
        ({
            let pass = passing(rows, searched(listing.query@), listing.filter);
            let less = first_by(listing.grouping, listing.sorting);
            let shown = shown_rows(rows, listing);
            &&& shown.to_multiset() == pass.to_multiset()
            &&& forall|i: int, j: int| 0 <= i < j < shown.len() ==> !less(#[trigger] shown[j], #[trigger] shown[i])
            &&& shown.filter(|row: row::RowView| order::equals(less, row, like)) == pass.filter(
                |row: row::RowView| order::equals(less, row, like),
            )
        }),
{
    let pass = passing(rows, searched(listing.query@), listing.filter);
    let less = first_by(listing.grouping, listing.sorting);
    rows_have_an_order(listing.grouping, listing.sorting);
    order::sorted_is_a_permutation(pass, less);
    order::sorted_is_in_order(pass, less);
    order::sorted_is_stable(pass, less, like);
}

/// Nothing typed leaves nothing out: then a row passes by its state alone.
pub proof fn an_empty_query_lets_all_pass(row: row::RowView, filter: Filter)
    ensures
        passes(row, searched(Seq::empty()), filter) == filter.passes(row.status),
{
}

proof fn first_named_is_named(rows: Seq<row::RowView>, key: Seq<char>)
    ensures
        -1 <= first_named(rows, key) < rows.len(),
        first_named(rows, key) >= 0 ==> rows[first_named(rows, key)].named(key),
        first_named(rows, key) == -1 ==> forall|i: int| 0 <= i < rows.len() ==> !(#[trigger] rows[i]).named(key),
    decreases rows.len(),
{
    if rows.len() > 0 {
        first_named_is_named(rows.drop_last(), key);
        if first_named(rows, key) == -1 {
            assert forall|i: int| 0 <= i < rows.len() implies !(#[trigger] rows[i]).named(key) by {
                if i < rows.len() - 1 {
                    assert(rows.drop_last()[i] == rows[i]);
                }
            }
        }
    }
}

/// The page a row is found on is a page of the list, and the row is on it.
pub proof fn the_page_of_a_row_has_it(rows: Seq<row::RowView>, listing: ListingState, key: Seq<char>)
    requires
        first_named(shown_rows(rows, listing), key) >= 0,
    ensures
        ({
            let shown = shown_rows(rows, listing);
            let page = (first_named(shown, key) / PAGE_SIZE as int) as nat;
            &&& page_shown(page, shown.len()) == page
            &&& exists|i: int|
                0 <= i < page_rows(shown, page).len() && (#[trigger] page_rows(shown, page)[i]).named(key)
        }),
{
    let shown = shown_rows(rows, listing);
    let at = first_named(shown, key);
    first_named_is_named(shown, key);
    let page = (at / PAGE_SIZE as int) as nat;
    assert(page * 20 <= at < page * 20 + 20);
    assert(page_rows(shown, page)[at - page * 20] == shown[at]);
}

/// A page never has more records than a page has, and the pages cover the list.
pub proof fn pages_cover_the_list(rows: Seq<row::RowView>, page: nat)
    requires
        page < pages_of(rows.len()),
    ensures
        page_rows(rows, page).len() <= PAGE_SIZE,
        page + 1 < pages_of(rows.len()) ==> page_rows(rows, page).len() == PAGE_SIZE,
        forall|i: int| page * PAGE_SIZE <= i < rows.len() && i < (page + 1) * PAGE_SIZE ==> page_rows(rows, page)[i - page * PAGE_SIZE]
            == #[trigger] rows[i],
{
}

/// The list stands in the order it was asked for: with the newest first no record stands
/// before a newer one, with the largest first none before a larger one, and by name none
/// before one whose name is before its own. In groups that holds within a folder, and the
/// folders stand in the order of their names.
pub proof fn the_list_stands_as_it_was_asked(rows: Seq<row::RowView>, listing: ListingState, i: int, j: int)
    requires
        0 <= i < j < shown_rows(rows, listing).len(),
    ensures
        ({
            let (a, b) = (shown_rows(rows, listing)[i], shown_rows(rows, listing)[j]);
            &&& listing.grouping == Grouping::Flat || a.folder() == b.folder() ==> match listing.sorting {
                Sorting::Newest => a.date >= b.date && (a.date == b.date ==> !text::before(b.title, a.title)),
                Sorting::Size => a.size >= b.size && (a.size == b.size ==> !text::before(b.title, a.title)),
                Sorting::Name => !text::before(b.title, a.title),
            }
            &&& listing.grouping != Grouping::Flat ==> !text::before(b.folder(), a.folder())
        }),
{
    let shown = shown_rows(rows, listing);
    let less = first_by(listing.grouping, listing.sorting);
    shown_rows_are_the_passing_rows_in_order(rows, listing, shown[i]);
    assert(!less(shown[j], shown[i]));
    text::before_is_irreflexive(shown[i].folder());
}

/// A row is in the list when it was there to be shown, its name holds what was typed
/// whatever the case, and its state is one of those asked for; and no other row is.
pub proof fn the_list_has_what_was_asked_for(rows: Seq<row::RowView>, listing: ListingState, row: row::RowView)
    ensures
        shown_rows(rows, listing).contains(row) == (rows.contains(row) && (listing.query@.len() == 0 || text::lowercased(
            listing.query@,
        ).len() == 0 || text::holds(text::lowercased(row.title), text::lowercased(listing.query@)))
            && match listing.filter {
            Filter::All => true,
            Filter::OnDisk => row.status is Complete || row.status is Partial,
            Filter::Downloading => row.status is Downloading,
            Filter::Paused => row.status is Paused,
            Filter::Remote => row.status is Remote,
        }),
        shown_rows(rows, listing).len() <= rows.len(),
{
    let query = searched(listing.query@);
    passing_has(rows, query, listing.filter, row);
    order::sorted_keeps_items(passing(rows, query, listing.filter), first_by(listing.grouping, listing.sorting));
}

proof fn passing_has(rows: Seq<row::RowView>, query: Seq<char>, filter: Filter, row: row::RowView)
    ensures
        passing(rows, query, filter).contains(row) == (rows.contains(row) && passes(row, query, filter)),
        passing(rows, query, filter).len() <= rows.len(),
    decreases rows.len(),
{
    let all = passing(rows, query, filter);
    if rows.len() > 0 {
        let front = rows.drop_last();
        let rest = passing(front, query, filter);
        passing_has(front, query, filter, row);
        if all.contains(row) {
            let k = choose|k: int| 0 <= k < all.len() && all[k] == row;
            if k < rest.len() {
                assert(rest[k] == row);
                let m = choose|m: int| 0 <= m < front.len() && front[m] == row;
                assert(rows[m] == row);
            } else {
                assert(rows[rows.len() - 1] == row);
            }
        }
        if rows.contains(row) && passes(row, query, filter) {
            let m = choose|m: int| 0 <= m < rows.len() && rows[m] == row;
            if m < front.len() {
                assert(front[m] == row);
                let k = choose|k: int| 0 <= k < rest.len() && rest[k] == row;
                assert(all[k] == row);
            } else {
                assert(all[all.len() - 1] == row);
            }
        }
    }
}

/// Each filter counts the rows whose state it asks for, among those whose name matches: one
/// row more is one more under «все», and one more under the filter of its own state.
pub proof fn each_filter_counts_its_own(rows: Seq<row::RowView>, row: row::RowView, query: Seq<char>, filter: Filter)
    ensures
        passing_count(Seq::empty(), query, filter) == 0,
        passing_count(rows.push(row), query, filter) == passing_count(rows, query, filter) + if (query.len() == 0
            || text::holds(text::lowercased(row.title), query)) && match filter {
            Filter::All => true,
            Filter::OnDisk => row.status is Complete || row.status is Partial,
            Filter::Downloading => row.status is Downloading,
            Filter::Paused => row.status is Paused,
            Filter::Remote => row.status is Remote,
        } {
            1int
        } else {
            0
        },
{
    assert(rows.push(row).drop_last() =~= rows);
}

/// There are as many pages as it takes for twenty records on each, and never none; and the
/// page that is shown is the one asked for, or the last where there are not so many.
pub proof fn pages_are_of_twenty(asked: nat, total: nat)
    ensures
        pages_of(total) >= 1,
        total <= pages_of(total) * 20,
        total > 0 ==> (pages_of(total) - 1) * 20 < total,
        total == 0 ==> pages_of(total) == 1,
        page_shown(asked, total) < pages_of(total),
        page_shown(asked, total) <= asked,
        asked < pages_of(total) ==> page_shown(asked, total) == asked,
        asked >= pages_of(total) ==> page_shown(asked, total) + 1 == pages_of(total),
{
}

/// The record at a place of the list stands on the page of that place, and there at what is
/// left of it.
pub proof fn a_record_stands_on_its_page(rows: Seq<row::RowView>, at: int)
    requires
        0 <= at < rows.len(),
    ensures
        page_rows(rows, (at / 20) as nat).len() > at % 20,
        page_rows(rows, (at / 20) as nat)[at % 20] == rows[at],
{
    assert(at == (at / 20) * 20 + at % 20);
}

/// The range under the list is read as it stands there: the first and the last record of
/// the page, and how many there are.
pub proof fn the_range_names_the_page(page: nat, total: nat)
    requires
        page * 20 < total,
    ensures
        range_of(page, total) == number::written(page * 20 + 1) + "–"@ + number::written(
            if page * 20 + 20 <= total {
                (page * 20 + 20) as nat
            } else {
                total
            },
        ) + " из "@ + number::written(total),
        range_of(0, 0).len() == 0,
{
}

/// A row that is not open has nothing under it. An open one has its contents under it one
/// step deeper, in order, and before them a line of waiting while they are on their way.
pub proof fn an_open_row_shows_its_contents(row: row::RowView, expanded: Set<Seq<char>>, depth: usize)
    requires
        depth < usize::MAX,
        forall|i: int| 0 <= i < row.children.len() ==> !expanded.contains((#[trigger] row.children[i]).key()),
    ensures
        !expanded.contains(row.key()) ==> unfolded(row, expanded, depth).len() == 0,
        expanded.contains(row.key()) ==> {
            let lines = unfolded(row, expanded, depth);
            let from: int = if row.loading { 1 } else { 0 };
            &&& lines.len() == from + row.children.len()
            &&& row.loading ==> lines[0] == (LineView::Waiting { depth: (depth + 1) as usize })
            &&& forall|k: int|
                from <= k < lines.len() ==> #[trigger] lines[k] == (LineView::Entry {
                    row: row.children[k - from],
                    depth: (depth + 1) as usize,
                })
        },
{
    let below = (depth + 1) as usize;
    closed_rows_are_lines(row.children, expanded, below);
    if expanded.contains(row.key()) {
        let lines = unfolded(row, expanded, depth);
        let from: int = if row.loading { 1 } else { 0 };
        let inner = all_unfolded(row.children, expanded, below);
        assert forall|k: int| from <= k < lines.len() implies #[trigger] lines[k] == (LineView::Entry {
            row: row.children[k - from],
            depth: below,
        }) by {
            assert(lines[k] == inner[k - from]);
        }
    }
}

proof fn closed_rows_are_lines(rows: Seq<row::RowView>, expanded: Set<Seq<char>>, depth: usize)
    requires
        forall|i: int| 0 <= i < rows.len() ==> !expanded.contains((#[trigger] rows[i]).key()),
    ensures
        all_unfolded(rows, expanded, depth).len() == rows.len(),
        forall|i: int|
            0 <= i < rows.len() ==> #[trigger] all_unfolded(rows, expanded, depth)[i] == (LineView::Entry {
                row: rows[i],
                depth,
            }),
    decreases rows.len(),
{
    if rows.len() > 0 {
        let front = rows.drop_last();
        assert forall|i: int| 0 <= i < front.len() implies !expanded.contains((#[trigger] front[i]).key()) by {
            assert(front[i] == rows[i]);
        }
        closed_rows_are_lines(front, expanded, depth);
        let last = rows[rows.len() - 1];
        assert(!expanded.contains(last.key()));
        assert(unfolded(last, expanded, depth) =~= Seq::empty());
        assert(rows.last() == last);
        assert(all_unfolded(rows, expanded, depth) =~= all_unfolded(front, expanded, depth).push(
            LineView::Entry { row: last, depth },
        ));
    }
}

/// A flat list without open rows is its records, one line each, in order and without
/// headings.
pub proof fn a_flat_list_is_its_records(rows: Seq<row::RowView>, expanded: Set<Seq<char>>, count: nat)
    requires
        count <= rows.len(),
        forall|i: int| 0 <= i < rows.len() ==> !expanded.contains((#[trigger] rows[i]).key()),
    ensures
        lines_of(rows, Grouping::Flat, expanded, count).len() == count,
        forall|i: int|
            0 <= i < count ==> #[trigger] lines_of(rows, Grouping::Flat, expanded, count)[i] == (LineView::Entry {
                row: rows[i],
                depth: 0,
            }),
    decreases count,
{
    if count > 0 {
        let less = (count - 1) as nat;
        a_flat_list_is_its_records(rows, expanded, less);
        let paths = paths_of(rows, Grouping::Flat);
        let last = count - 1;
        assert(paths[last].len() == 0);
        assert(headings(paths, last) =~= Seq::empty());
        assert(!expanded.contains(rows[last].key()));
        assert(block(rows, paths, expanded, last) =~= seq![LineView::Entry { row: rows[last], depth: 0 }]);
    }
}

/// The headings over a row are the folders that the row before was not in yet, from the
/// outermost in, each one step deeper; the first row stands under all its folders, and a
/// row in the folder of the one before has no heading.
pub proof fn headings_open_new_folders(paths: Seq<Seq<Seq<char>>>, index: int)
    requires
        0 <= index < paths.len(),
        paths[index].len() <= usize::MAX,
    ensures
        ({
            let path = paths[index];
            let heads = headings(paths, index);
            &&& heads.len() <= path.len()
            &&& index == 0 ==> heads.len() == path.len()
            &&& index > 0 && paths[index - 1] == path ==> heads.len() == 0
            &&& forall|k: int|
                #![trigger heads[k]]
                0 <= k < heads.len() ==> (heads[k] matches LineView::Group { title, depth, .. } && title == path[path.len()
                    - heads.len() + k] && depth == path.len() - heads.len() + k)
            &&& index > 0 ==> forall|k: int|
                0 <= k < path.len() - heads.len() ==> k < paths[index - 1].len() && #[trigger] path[k] == paths[index - 1][k]
            &&& index > 0 && heads.len() > 0 && path.len() - heads.len() < paths[index - 1].len() ==> path[path.len()
                - heads.len()] != paths[index - 1][path.len() - heads.len()]
        }),
{
    let path = paths[index];
    if index > 0 {
        common_is_equal(path, paths[index - 1], 0);
    }
}

/// A key names the first row that answers to it.
pub proof fn a_key_names_the_first_row(rows: Seq<row::RowView>, key: Seq<char>)
    ensures
        -1 <= first_named(rows, key) < rows.len(),
        (first_named(rows, key) == -1) == (forall|i: int| 0 <= i < rows.len() ==> !(#[trigger] rows[i]).named(key)),
        first_named(rows, key) >= 0 ==> rows[first_named(rows, key)].named(key),
        forall|i: int| 0 <= i < first_named(rows, key) ==> !(#[trigger] rows[i]).named(key),
    decreases rows.len(),
{
    if rows.len() > 0 {
        let front = rows.drop_last();
        a_key_names_the_first_row(front, key);
        assert forall|i: int| 0 <= i < first_named(rows, key) implies !(#[trigger] rows[i]).named(key) by {
            if i < front.len() {
                assert(front[i] == rows[i]);
            }
        }
        if forall|i: int| 0 <= i < rows.len() ==> !(#[trigger] rows[i]).named(key) {
            assert forall|i: int| 0 <= i < front.len() implies !(#[trigger] front[i]).named(key) by {
                assert(front[i] == rows[i]);
            }
            assert(!rows[rows.len() - 1].named(key));
        }
        if first_named(rows, key) == -1 {
            assert forall|i: int| 0 <= i < rows.len() implies !(#[trigger] rows[i]).named(key) by {
                if i < front.len() {
                    assert(front[i] == rows[i]);
                }
            }
        }
    }
}

/// Of the rows those can be chosen that can, and of the lines those are rows that are; both
/// in their order.
pub proof fn what_can_be_chosen_on_a_page(rows: Seq<row::RowView>, row: row::RowView, lines: Seq<LineView>, line: LineView)
    ensures
        choosable_rows(Seq::empty()).len() == 0,
        !(row.kind is Folder) && row.choice_key().len() > 0 ==> choosable_rows(rows.push(row)) == choosable_rows(rows).push(
            row,
        ),
        row.kind is Folder || row.choice_key().len() == 0 ==> choosable_rows(rows.push(row)) == choosable_rows(rows),
        rows_among(Seq::empty()).len() == 0,
        line matches LineView::Entry { row: one, depth } ==> rows_among(lines.push(line)) == rows_among(lines).push(one),
        !(line is Entry) ==> rows_among(lines.push(line)) == rows_among(lines),
{
    assert(rows.push(row).drop_last() =~= rows);
    assert(lines.push(line).drop_last() =~= lines);
}

/// A folder is a step by its own name, or by each part of its path; a flat list has no
/// steps, and a part without a name is none.
pub proof fn a_folder_opens_its_steps(folder: Seq<char>, names: Seq<Seq<char>>, name: Seq<char>)
    ensures
        steps(folder, Grouping::Flat).len() == 0,
        steps(folder, Grouping::Tree) == spoken(text::pieces(folder, seq!['/'])),
        text::pieces(folder, seq!['/']).last().len() > 0 ==> steps(folder, Grouping::Folder) == seq![
            text::pieces(folder, seq!['/']).last(),
        ],
        text::pieces(folder, seq!['/']).last().len() == 0 ==> steps(folder, Grouping::Folder).len() == 0,
        spoken(Seq::empty()).len() == 0,
        name.len() > 0 ==> spoken(names.push(name)) == spoken(names).push(name),
        name.len() == 0 ==> spoken(names.push(name)) == spoken(names),
{
    assert(names.push(name).drop_last() =~= names);
    let one = seq![text::pieces(folder, seq!['/']).last()];
    assert(one.drop_last() =~= Seq::empty());
    assert(spoken(one.drop_last()) =~= Seq::empty());
    if one[0].len() > 0 {
        assert(spoken(one) =~= one);
    }
}

/// A heading counts the rows that stand under it together, up to the next of another path;
/// only the last heading before a row counts them.
pub proof fn a_heading_counts_what_stands_under_it(paths: Seq<Seq<Seq<char>>>, index: int, k: int)
    requires
        0 <= index < paths.len(),
    ensures
        ({
            let count = alike(paths, index, index) as int;
            let heads = headings(paths, index);
            &&& count >= 1
            &&& index + count <= paths.len()
            &&& forall|i: int| index <= i < index + count ==> #[trigger] paths[i] == paths[index]
            &&& index + count < paths.len() ==> paths[index + count] != paths[index]
            &&& 0 <= k < heads.len() - 1 ==> (heads[k] matches LineView::Group { meta, .. } && meta.len() == 0)
            &&& heads.len() > 0 ==> (heads.last() matches LineView::Group { meta, .. } && meta
                == crate::components::format::counted_noun(count as nat, seq!["файл", "файла", "файлов"]))
        }),
{
    the_run_is_counted(paths, index, index);
    let path = paths[index];
    if index > 0 {
        common_is_equal(path, paths[index - 1], 0);
    }
    let from: int = if index > 0 { common(path, paths[index - 1], 0) as int } else { 0 };
    let heads = headings(paths, index);
    if heads.len() > 0 {
        assert(from + (heads.len() - 1) + 1 == path.len());
        assert(heads.last() == heads[heads.len() - 1]);
    }
}

proof fn the_run_is_counted(paths: Seq<Seq<Seq<char>>>, of: int, at: int)
    requires
        0 <= of <= at <= paths.len(),
        of < paths.len(),
    ensures
        at + alike(paths, of, at) <= paths.len(),
        forall|i: int| at <= i < at + alike(paths, of, at) ==> #[trigger] paths[i] == paths[of],
        at + alike(paths, of, at) < paths.len() ==> paths[at + alike(paths, of, at)] != paths[of],
    decreases paths.len() - at,
{
    if at < paths.len() && paths[at] == paths[of] {
        the_run_is_counted(paths, of, at + 1);
    }
}

/// The counts are those of the filters, in the order in which they are offered, by the words
/// that are typed.
pub proof fn the_counts_are_of_the_filters(rows: Seq<row::RowView>, listing: ListingState)
    requires
        rows.len() <= usize::MAX,
    ensures
        ({
            let counts = counts_spec(rows, listing);
            let query = searched(listing.query@);
            &&& counts.len() == 5
            &&& counts[0] == passing_count(rows, query, Filter::All) as usize
            &&& counts[1] == passing_count(rows, query, Filter::OnDisk) as usize
            &&& counts[2] == passing_count(rows, query, Filter::Downloading) as usize
            &&& counts[3] == passing_count(rows, query, Filter::Paused) as usize
            &&& counts[4] == passing_count(rows, query, Filter::Remote) as usize
            &&& listing.query@.len() == 0 ==> query.len() == 0
            &&& listing.query@.len() > 0 ==> query == text::lowercased(listing.query@)
        }),
{
}

/// What can be chosen is what can be on the page that is shown.
pub proof fn what_can_be_chosen_is_on_the_page(rows: Seq<row::RowView>, listing: ListingState)
    ensures
        choices_shown(rows, listing) == choosable_rows(rows_among(page_lines(rows, listing))),
        choice_keys(rows).len() == choosable_rows(rows).len(),
        forall|i: int|
            0 <= i < choice_keys(rows).len() ==> #[trigger] choice_keys(rows)[i] == choosable_rows(rows)[i].choice_key(),
{
}

} // verus!
