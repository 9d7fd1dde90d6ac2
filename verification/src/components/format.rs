//! Numbers, times and names in words: one place for the whole application, so
//! that the same size reads the same wherever it stands.

use vstd::prelude::*;
use crate::calendar;
use crate::number;
use crate::order;
use crate::text;

verus! {

broadcast use vstd::string::group_string_axioms;

// -- Sizes --

/// The spacing of doubles around a whole number: one below 2^53, twice as wide
/// with every further doubling.
pub open spec fn spacing(value: nat) -> nat
    decreases value,
{
    if value < 0x20_0000_0000_0000 {
        1
    } else {
        2 * spacing(value / 2)
    }
}

/// `value / by` as the nearest whole number; halves go to the even one.
pub open spec fn nearest(value: nat, by: nat) -> nat {
    let whole = value / by;
    let rest = value % by;
    if 2 * rest < by || (2 * rest == by && whole % 2 == 0) {
        whole
    } else {
        whole + 1
    }
}

/// The whole number a double keeps of `value`.
pub open spec fn kept(value: nat) -> nat {
    nearest(value, spacing(value)) * spacing(value)
}

/// What the units are worth: each 1024 of the one before.
pub open spec fn unit_worth(unit: nat) -> nat {
    if unit == 0 {
        1
    } else if unit == 1 {
        1024
    } else if unit == 2 {
        0x10_0000
    } else if unit == 3 {
        0x4000_0000
    } else {
        0x100_0000_0000
    }
}

/// The largest of the five units that still fits in the size once.
pub open spec fn unit_of(size: nat) -> nat {
    if size < 1024 {
        0
    } else if size < 0x10_0000 {
        1
    } else if size < 0x4000_0000 {
        2
    } else if size < 0x100_0000_0000 {
        3
    } else {
        4
    }
}

pub open spec fn unit_name(unit: nat) -> Seq<char> {
    if unit == 0 {
        "Б"@
    } else if unit == 1 {
        "КБ"@
    } else if unit == 2 {
        "МБ"@
    } else if unit == 3 {
        "ГБ"@
    } else {
        "ТБ"@
    }
}

/// A size counted in a unit: whole from ten on and in bytes, with one decimal
/// behind a comma below that.
pub open spec fn amount(size: nat, unit: nat) -> Seq<char> {
    let worth = unit_worth(unit);
    if unit == 0 || size >= 10 * worth {
        number::written(nearest(size, worth))
    } else {
        let tenths = nearest(10 * size, worth);
        number::written(tenths / 10) + ","@ + number::written(tenths % 10)
    }
}

pub(crate) fn round_to(value: u128, by: u128) -> (nearest_whole: u128)
    requires
        0 < by < 0x1_0000_0000_0000_0000,
        value < 0x1_0000_0000_0000_0000_0000,
    ensures
        nearest_whole == nearest(value as nat, by as nat),
        nearest_whole <= value as int / by as int + 1,
{
    let whole: u128 = value / by;
    let rest: u128 = value % by;
    assert(whole <= value) by (nonlinear_arith)
        requires
            whole == value / by,
            by > 0,
    ;
    if 2 * rest < by || (2 * rest == by && whole % 2 == 0) {
        whole
    } else {
        whole + 1
    }
}

proof fn spacing_is_small(value: nat)
    requires
        value < 0x1_0000_0000_0000_0000,
    ensures
        1 <= spacing(value) <= 2048,
        value >= 0x20_0000_0000_0000 ==> spacing(value) * 0x10_0000_0000_0000 <= value,
{
    reveal_with_fuel(spacing, 13);
}

fn step(value: u64) -> (wide: u64)
    ensures
        wide == spacing(value as nat),
        1 <= wide <= 2048,
    decreases value,
{
    proof {
        spacing_is_small(value as nat);
    }
    if value < 0x20_0000_0000_0000 {
        1
    } else {
        2 * step(value / 2)
    }
}

/// The whole number a double keeps of a size.
pub(crate) fn as_double(value: u64) -> (whole: u128)
    ensures
        whole == kept(value as nat),
        whole < 0x2_0000_0000_0000_0000,
{
    let wide: u64 = step(value);
    let times: u128 = round_to(value as u128, wide as u128);
    proof {
        let (v, w, t) = (value as int, wide as int, times as int);
        assert(t * w <= v + w) by (nonlinear_arith)
            requires
                t <= v / w + 1,
                w > 0,
                v >= 0,
        ;
    }
    times * wide as u128
}

pub(crate) fn unit_index(size: u128) -> (unit: u8)
    ensures
        unit == unit_of(size as nat),
        unit <= 4,
{
    if size < 1024 {
        0
    } else if size < 0x10_0000 {
        1
    } else if size < 0x4000_0000 {
        2
    } else if size < 0x100_0000_0000 {
        3
    } else {
        4
    }
}

fn unit_label(unit: u8) -> (label: &'static str)
    ensures
        label@ == unit_name(unit as nat),
{
    match unit {
        0 => "Б",
        1 => "КБ",
        2 => "МБ",
        3 => "ГБ",
        _ => "ТБ",
    }
}

fn amount_text(size: u128, unit: u8) -> (said: String)
    requires
        size < 0x2_0000_0000_0000_0000,
        unit <= 4,
    ensures
        said@ == amount(size as nat, unit as nat),
{
    let worth: u128 = match unit {
        0 => 1,
        1 => 1024,
        2 => 0x10_0000,
        3 => 0x4000_0000,
        _ => 0x100_0000_0000,
    };
    if unit == 0 || size >= 10 * worth {
        number::decimal(round_to(size, worth))
    } else {
        let tenths: u128 = round_to(10 * size, worth);
        let mut said: String = number::decimal(tenths / 10);
        said.append(",");
        said.append(&number::decimal(tenths % 10));
        said
    }
}

/// «58,7 МБ», «42 КБ», «4,2 ГБ»: a size in the largest unit it fills. The
/// decimal comma is that of the rest of the interface; there is a decimal only
/// where it tells sizes apart.
pub fn bytes(value: u64) -> (said: String)
    ensures
        said@ == amount(kept(value as nat), unit_of(kept(value as nat))) + " "@
            + unit_name(unit_of(kept(value as nat))),
{
    let size: u128 = as_double(value);
    let unit: u8 = unit_index(size);
    let mut said: String = amount_text(size, unit);
    said.append(" ");
    said.append(unit_label(unit));
    said
}

/// «51/59 МБ», «4,2/9,0 ГБ»: what is done out of the whole, both in the unit of
/// the whole.
pub fn progress(done: u64, total: u64) -> (said: String)
    ensures
        said@ == amount(kept(done as nat), unit_of(kept(total as nat))) + "/"@
            + amount(kept(total as nat), unit_of(kept(total as nat))) + " "@
            + unit_name(unit_of(kept(total as nat))),
{
    let whole: u128 = as_double(total);
    let unit: u8 = unit_index(whole);
    let mut said: String = amount_text(as_double(done), unit);
    said.append("/");
    said.append(&amount_text(whole, unit));
    said.append(" ");
    said.append(unit_label(unit));
    said
}


// -- Times --

pub open spec fn month_name(month: int) -> Seq<char> {
    if month == 1 {
        "янв"@
    } else if month == 2 {
        "фев"@
    } else if month == 3 {
        "мар"@
    } else if month == 4 {
        "апр"@
    } else if month == 5 {
        "мая"@
    } else if month == 6 {
        "июн"@
    } else if month == 7 {
        "июл"@
    } else if month == 8 {
        "авг"@
    } else if month == 9 {
        "сен"@
    } else if month == 10 {
        "окт"@
    } else if month == 11 {
        "ноя"@
    } else {
        "дек"@
    }
}

/// At least two digits.
pub open spec fn two_digits(value: nat) -> Seq<char> {
    if value < 10 {
        "0"@ + number::written(value)
    } else {
        number::written(value)
    }
}

/// The hour and minute of a moment.
pub open spec fn clock(when: int) -> Seq<char> {
    two_digits((when / 3600 % 24) as nat) + ":"@ + two_digits((when / 60 % 60) as nat)
}

/// How a moment reads from another: by the hour today and yesterday, by the day
/// and the hour within the year, by the date otherwise.
pub open spec fn dated(when: int, now: int) -> Seq<char> {
    let date = calendar::civil(when / 86_400);
    let past = now / 86_400 - when / 86_400;
    if when <= 0 {
        Seq::empty()
    } else if past == 0 {
        "сегодня, "@ + clock(when)
    } else if past == 1 {
        "вчера, "@ + clock(when)
    } else if date.0 == calendar::civil(now / 86_400).0 {
        number::written(date.2 as nat) + " "@ + month_name(date.1) + ", "@ + clock(when)
    } else {
        number::written(date.2 as nat) + " "@ + month_name(date.1) + " "@ + number::written(date.0 as nat)
    }
}

fn month_label(month: i64) -> (label: &'static str)
    ensures
        label@ == month_name(month as int),
{
    match month {
        1 => "янв",
        2 => "фев",
        3 => "мар",
        4 => "апр",
        5 => "мая",
        6 => "июн",
        7 => "июл",
        8 => "авг",
        9 => "сен",
        10 => "окт",
        11 => "ноя",
        _ => "дек",
    }
}

fn padded(value: i64) -> (said: String)
    requires
        0 <= value,
    ensures
        said@ == two_digits(value as nat),
{
    let digits: String = number::decimal(value as u128);
    if value < 10 {
        text::concat("0", &digits)
    } else {
        digits
    }
}

/// «сегодня, 10:41», «вчера, 14:08», «4 авг, 09:12», «1 мая 1991»: the further
/// the moment, the rougher the words. Times are universal, not local.
pub fn date(when: i64, now: i64) -> (said: String)
    ensures
        said@ == dated(when as int, now as int),
{
    if when <= 0 {
        return String::new();
    }
    let (year, month, day): (i64, i64, i64) = calendar::civil_from_unix(when);
    proof {
        year_is_positive(year as int, month as int, day as int);
    }
    let mut time: String = padded(when / 3600 % 24);
    time.append(":");
    time.append(&padded(when / 60 % 60));
    let past: i64 = calendar::floor_div(now, calendar::DAY) - calendar::floor_div(when, calendar::DAY);
    if past == 0 {
        return text::concat("сегодня, ", &time);
    }
    if past == 1 {
        return text::concat("вчера, ", &time);
    }
    let mut said: String = number::decimal(day as u128);
    said.append(" ");
    said.append(month_label(month));
    if year == calendar::civil_from_unix(now).0 {
        said.append(", ");
        said.append(&time);
    } else {
        said.append(" ");
        said.append(&number::decimal(year as u128));
    }
    said
}

proof fn year_is_positive(year: int, month: int, day: int)
    requires
        calendar::is_date(year, month, day),
        calendar::day_number(year, month, day) >= 0,
    ensures
        year >= 1970,
{
    calendar::a_date_lies_in_its_year(year, month, day);
}

/// The day a typed date names, in seconds: three runs between dashes, dots or
/// slashes, the year first when the first run has four characters and last
/// otherwise.
pub open spec fn read_date(typed: Seq<char>) -> Option<int> {
    let parts = text::pieces(text::without_space_after(text::without_space_before(typed)), seq!['-', '.', '/']);
    if parts.len() != 3 {
        None
    } else {
        let four = parts[0].len() == 4;
        let year = number::read_unsigned(if four { parts[0] } else { parts[2] });
        let month = number::read_unsigned(parts[1]);
        let day = number::read_unsigned(if four { parts[2] } else { parts[0] });
        match (year, month, day) {
            (Some(y), Some(m), Some(d)) => if 1970 <= y <= 9999 && 1 <= m <= 12 && 1 <= d <= 31 {
                Some(calendar::day_number(y as int, m as int, d as int) * 86_400)
            } else {
                None
            },
            _ => None,
        }
    }
}

/// A date typed by hand, `2026-08-13` or `13.08.2026`: the midnight it begins
/// with, in seconds from the start of 1970; `None` while it is not a date yet.
pub fn parse_date(typed: &str) -> (midnight: Option<i64>)
    ensures
        match midnight {
            Some(seconds) => read_date(typed@) == Some(seconds as int),
            None => read_date(typed@) is None,
        },
{
    let marks: [char; 3] = ['-', '.', '/'];
    let parts: Vec<String> = text::split(text::trim(typed), &marks);
    assert(marks@ =~= seq!['-', '.', '/']);
    let ghost runs = text::texts(parts@);
    if parts.len() != 3 {
        return None;
    }
    assert(parts@[0]@ == runs[0] && parts@[1]@ == runs[1] && parts@[2]@ == runs[2]);
    let four: bool = text::length(&parts[0]) == 4;
    let year: Option<u64> = number::parse_up_to(if four { &parts[0] } else { &parts[2] }, 9999);
    let month: Option<u64> = number::parse_up_to(&parts[1], 12);
    let day: Option<u64> = number::parse_up_to(if four { &parts[2] } else { &parts[0] }, 31);
    match (year, month, day) {
        (Some(y), Some(m), Some(d)) => {
            if y < 1970 || m < 1 || d < 1 {
                return None;
            }
            let days: i64 = calendar::days_from_civil(y as i64, m as i64, d as i64);
            proof {
                calendar::day_number_is_bounded(y as int, m as int, d as int);
            }
            Some(days * calendar::DAY)
        },
        _ => None,
    }
}


// -- Names --

/// A text cut in the middle to `limit` characters, the cut marked; a text that
/// fits stays, and below four characters nothing is cut.
pub open spec fn cut_middle(whole: Seq<char>, limit: nat) -> Seq<char> {
    if whole.len() <= limit || limit < 4 {
        whole
    } else {
        let front = (limit + 1) / 2 - 1;
        let back = limit - front - 1;
        whole.take(front as int) + "…"@ + whole.skip(whole.len() - back)
    }
}

/// A text cut at the end to `limit` characters, without white space before the
/// mark of the cut.
pub open spec fn cut_end(whole: Seq<char>, limit: nat) -> Seq<char> {
    if whole.len() <= limit || limit < 4 {
        whole
    } else {
        text::without_space_after(whole.take(limit - 1)) + "…"@
    }
}

/// Cuts the middle: the start and the end of a name are what it is known by.
pub fn ellipsize(whole: &str, limit: usize) -> (shown: String)
    ensures
        shown@ == cut_middle(whole@, limit as nat),
        limit >= 4 ==> shown@.len() <= limit,
{
    let length: usize = text::length(whole);
    if length <= limit || limit < 4 {
        return whole.to_owned();
    }
    let front: usize = limit / 2 + limit % 2 - 1;
    let back: usize = limit - front - 1;
    proof {
        reveal_strlit("…");
    }
    let mut shown: String = text::slice(whole, 0, front);
    shown.append("…");
    shown.append(&text::slice(whole, length - back, length));
    assert(whole@.subrange(0, front as int) =~= whole@.take(front as int));
    assert(whole@.subrange(length - back, length as int) =~= whole@.skip(length - back));
    shown
}

/// Cuts the end: a phrase about trouble says what matters first.
pub fn head(whole: &str, limit: usize) -> (shown: String)
    ensures
        shown@ == cut_end(whole@, limit as nat),
        limit >= 4 ==> shown@.len() <= limit,
{
    if text::length(whole) <= limit || limit < 4 {
        return whole.to_owned();
    }
    proof {
        reveal_strlit("…");
        trimming_shortens(whole@.take(limit - 1));
    }
    let start: String = text::slice(whole, 0, limit - 1);
    assert(whole@.subrange(0, limit - 1) =~= whole@.take(limit - 1));
    let mut shown: String = text::trim_end(&start).to_owned();
    shown.append("…");
    shown
}

proof fn trimming_shortens(whole: Seq<char>)
    ensures
        text::without_space_after(whole).len() <= whole.len(),
    decreases whole.len(),
{
    if whole.len() > 0 {
        trimming_shortens(whole.drop_last());
    }
}

/// What stands behind the last slash.
pub open spec fn last_name(path: Seq<char>) -> Seq<char> {
    path.skip(text::last_index(path, '/') + 1)
}

/// The name of one quantity of a file: the last segment of its path.
pub fn variable_name(path: &str) -> (name: &str)
    ensures
        name@ == last_name(path@),
{
    let length: usize = text::length(path);
    match text::rfind(path, '/') {
        Some(at) => {
            assert(path@.subrange(at + 1, length as int) =~= path@.skip(at + 1));
            path.substring_char(at + 1, length)
        },
        None => {
            assert(path@.skip(0) =~= path@);
            path
        },
    }
}

/// The name of a quantity, its units and the words of the file, as far as the
/// file has them.
pub open spec fn described(path: Seq<char>, said: Seq<char>, units: Seq<char>) -> Seq<char> {
    let named = last_name(path);
    let measured = if units.len() > 0 { named + ", "@ + units } else { named };
    if said.len() > 0 { measured + " — "@ + said } else { measured }
}

/// «carbonmonoxide_total_column, mol m-2 — Vertically integrated CO column».
pub fn variable(path: &str, said: &str, units: &str) -> (words: String)
    ensures
        words@ == described(path@, said@, units@),
{
    let mut words: String = variable_name(path).to_owned();
    if !units.is_empty() {
        words.append(", ");
        words.append(units);
    }
    if !said.is_empty() {
        words.append(" — ");
        words.append(said);
    }
    words
}

// -- Sharing a line --

/// The parts by length, shortest first; equal ones in their own order.
pub open spec fn ranked(lengths: Seq<usize>) -> Seq<int> {
    order::sorted(Seq::new(lengths.len(), |at: int| at), |a: int, b: int| lengths[a] < lengths[b])
}

/// The room left when the first `rank` of the ranked parts have theirs.
pub open spec fn room_after(lengths: Seq<usize>, room: nat, rank: nat) -> nat
    decreases rank, 0nat,
{
    if rank == 0 {
        room
    } else {
        (room_after(lengths, room, (rank - 1) as nat) - share_of(lengths, room, (rank - 1) as nat)) as nat
    }
}

/// What the part of this rank gets: its length, or an even share of the room
/// left among those still without.
pub open spec fn share_of(lengths: Seq<usize>, room: nat, rank: nat) -> nat
    decreases rank, 1nat,
{
    let even = room_after(lengths, room, rank) / (lengths.len() - rank) as nat;
    let own = lengths[ranked(lengths)[rank as int]] as nat;
    if own <= even { own } else { even }
}

/// The sum of a list of numbers.
pub open spec fn sum(values: Seq<usize>) -> nat
    decreases values.len(),
{
    if values.len() == 0 {
        0
    } else {
        sum(values.drop_last()) + values.last() as nat
    }
}

pub open spec fn deals(lengths: Seq<usize>, room: nat, shares: Seq<usize>) -> bool {
    &&& shares.len() == lengths.len()
    &&& forall|rank: int|
        0 <= rank < lengths.len() ==> #[trigger] shares[ranked(lengths)[rank]] == share_of(lengths, room, rank as nat)
}

proof fn ranks_are_places(lengths: Seq<usize>)
    ensures
        ranked(lengths).len() == lengths.len(),
        ranked(lengths).no_duplicates(),
        forall|rank: int| 0 <= rank < lengths.len() ==> 0 <= #[trigger] ranked(lengths)[rank] < lengths.len(),
{
    let places = Seq::new(lengths.len(), |at: int| at);
    let less = |a: int, b: int| lengths[a] < lengths[b];
    order::sorted_keeps_items(places, less);
    assert forall|rank: int| 0 <= rank < lengths.len() implies 0 <= #[trigger] ranked(lengths)[rank] < lengths.len() by {
        assert(ranked(lengths).contains(ranked(lengths)[rank]));
        let at = choose|at: int| 0 <= at < places.len() && places[at] == ranked(lengths)[rank];
        assert(places[at] == at);
    }
}

fn rank(lengths: &[usize]) -> (places: Vec<usize>)
    ensures
        places@.map_values(|at: usize| at as int) == ranked(lengths@),
{
    let mut places: Vec<usize> = Vec::new();
    let mut next: usize = 0;
    let ghost all = Seq::new(lengths@.len(), |at: int| at);
    let ghost less = |a: int, b: int| lengths@[a] < lengths@[b];
    assert(all.take(0) =~= Seq::<int>::empty());
    while next < lengths.len()
        invariant
            next <= lengths.len(),
            all == Seq::new(lengths@.len(), |at: int| at),
            less == (|a: int, b: int| lengths@[a] < lengths@[b]),
            places@.map_values(|at: usize| at as int) == order::sorted(all.take(next as int), less),
            places@.len() == next,
            forall|i: int| 0 <= i < places@.len() ==> places@[i] < lengths@.len(),
        decreases lengths.len() - next,
    {
        let ghost before = places@.map_values(|at: usize| at as int);
        let mut at: usize = places.len();
        assert(before.take(at as int) =~= before);
        while at > 0 && lengths[next] < lengths[places[at - 1]]
            invariant
                at <= places.len() == next < lengths.len(),
                before == places@.map_values(|at: usize| at as int),
                less == (|a: int, b: int| lengths@[a] < lengths@[b]),
                order::slot(before.take(at as int), next as int, less) == order::slot(before, next as int, less),
                forall|i: int| 0 <= i < places@.len() ==> places@[i] < lengths@.len(),
            decreases at,
        {
            assert(before.take(at as int).drop_last() =~= before.take(at - 1));
            assert(before.take(at as int).last() == places@[at - 1]);
            at -= 1;
        }
        assert(at > 0 ==> before.take(at as int).last() == places@[at - 1]);
        assert(all.take(next + 1).drop_last() =~= all.take(next as int));
        places.insert(at, next);
        assert(places@.map_values(|at: usize| at as int) =~= before.insert(at as int, next as int));
        next += 1;
    }
    assert(all.take(lengths@.len() as int) =~= all);
    places
}

/// Deals `room` characters out to parts of these lengths: short parts get all
/// they need, long ones share the rest evenly.
pub fn share(lengths: &[usize], room: usize) -> (shares: Vec<usize>)
    ensures
        deals(lengths@, room as nat, shares@),
{
    let places: Vec<usize> = rank(lengths);
    let ghost ranks = ranked(lengths@);
    proof {
        ranks_are_places(lengths@);
    }
    let mut shares: Vec<usize> = Vec::new();
    while shares.len() < lengths.len()
        invariant
            shares.len() <= lengths.len(),
        decreases lengths.len() - shares.len(),
    {
        shares.push(0);
    }
    let mut left: usize = room;
    let mut at: usize = 0;
    while at < lengths.len()
        invariant
            at <= lengths.len(),
            ranks == ranked(lengths@),
            places@.map_values(|at: usize| at as int) == ranks,
            ranks.len() == lengths.len(),
            ranks.no_duplicates(),
            forall|rank: int| 0 <= rank < lengths.len() ==> 0 <= #[trigger] ranks[rank] < lengths.len(),
            shares.len() == lengths.len(),
            left == room_after(lengths@, room as nat, at as nat),
            forall|rank: int| 0 <= rank < at ==> #[trigger] shares@[ranks[rank]] == share_of(lengths@, room as nat, rank as nat),
        decreases lengths.len() - at,
    {
        assert(places@.map_values(|at: usize| at as int)[at as int] == ranks[at as int]);
        let place: usize = places[at];
        let own: usize = lengths[place];
        let even: usize = left / (lengths.len() - at);
        let part: usize = if own <= even { own } else { even };
        assert(even <= left) by (nonlinear_arith)
            requires
                even == left as int / (lengths.len() - at) as int,
                lengths.len() - at >= 1,
        ;
        assert(part == share_of(lengths@, room as nat, at as nat));
        shares.set(place, part);
        left = left - part;
        assert(left == room_after(lengths@, room as nat, at as nat + 1));
        at += 1;
    }
    shares
}


// -- What tells names apart --

pub open spec fn shortest(names: Seq<Seq<char>>) -> nat
    decreases names.len(),
{
    if names.len() == 0 {
        0
    } else if names.len() == 1 {
        names[0].len()
    } else {
        let rest = shortest(names.drop_last());
        if names.last().len() < rest { names.last().len() } else { rest }
    }
}

pub open spec fn longest(names: Seq<Seq<char>>) -> nat
    decreases names.len(),
{
    if names.len() == 0 {
        0
    } else {
        let rest = longest(names.drop_last());
        if names.last().len() > rest { names.last().len() } else { rest }
    }
}

/// All names have the same character this far from the start.
pub open spec fn same_from_start(names: Seq<Seq<char>>, at: nat) -> bool {
    forall|i: int| 0 <= i < names.len() ==> (#[trigger] names[i])[at as int] == names[0][at as int]
}

/// All names have the same character this far from the end.
pub open spec fn same_from_end(names: Seq<Seq<char>>, at: nat) -> bool {
    forall|i: int|
        0 <= i < names.len() ==> (#[trigger] names[i])[names[i].len() - 1 - at] == names[0][names[0].len() - 1 - at]
}

/// How many characters all names have in common at the start, from `at` on and
/// before `limit`.
pub open spec fn common_head(names: Seq<Seq<char>>, at: nat, limit: nat) -> nat
    decreases limit - at,
{
    if at < limit && same_from_start(names, at) {
        common_head(names, at + 1, limit)
    } else {
        at
    }
}

/// How many characters all names have in common at the end, from `at` on and
/// before `limit`.
pub open spec fn common_tail(names: Seq<Seq<char>>, at: nat, limit: nat) -> nat
    decreases limit - at,
{
    if at < limit && same_from_end(names, at) {
        common_tail(names, at + 1, limit)
    } else {
        at
    }
}

/// The common edges worth cutting: none while the longest name fits or there is
/// only one, none that would leave nothing of the shortest name, and none of a
/// single character, which the mark of the cut would take up again.
pub open spec fn common_edges(names: Seq<Seq<char>>, limit: nat) -> (nat, nat) {
    let short = shortest(names);
    let head = common_head(names, 0, short);
    let run = common_tail(names, 0, (short - head) as nat);
    let tail = if head + run >= short && run > 0 { (run - 1) as nat } else { run };
    if names.len() < 2 || longest(names) <= limit || head + tail >= short {
        (0, 0)
    } else {
        (if head > 1 { head } else { 0 }, if tail > 1 { tail } else { 0 })
    }
}

pub open spec fn names_of(names: Seq<&str>) -> Seq<Seq<char>> {
    names.map_values(|name: &str| name@)
}

proof fn shortest_is_a_bound(names: Seq<Seq<char>>)
    ensures
        forall|i: int| 0 <= i < names.len() ==> shortest(names) <= (#[trigger] names[i]).len(),
    decreases names.len(),
{
    if names.len() > 1 {
        shortest_is_a_bound(names.drop_last());
        assert forall|i: int| 0 <= i < names.len() implies shortest(names) <= (#[trigger] names[i]).len() by {
            if i < names.len() - 1 {
                assert(names.drop_last()[i] == names[i]);
            }
        }
    }
}

fn all_same(names: &Vec<Vec<char>>, at: usize, from_end: bool) -> (yes: bool)
    requires
        names.len() > 0,
        forall|i: int| 0 <= i < names.len() ==> at < (#[trigger] names@[i])@.len(),
    ensures
        !from_end ==> yes == same_from_start(names@.map_values(|name: Vec<char>| name@), at as nat),
        from_end ==> yes == same_from_end(names@.map_values(|name: Vec<char>| name@), at as nat),
{
    let ghost all = names@.map_values(|name: Vec<char>| name@);
    let first: char = if from_end { names[0][names[0].len() - 1 - at] } else { names[0][at] };
    let mut i: usize = 0;
    while i < names.len()
        invariant
            i <= names.len(),
            names.len() > 0,
            all == names@.map_values(|name: Vec<char>| name@),
            forall|i: int| 0 <= i < names.len() ==> at < (#[trigger] names@[i])@.len(),
            first == if from_end { names@[0]@[names@[0]@.len() - 1 - at] } else { names@[0]@[at as int] },
            forall|j: int|
                0 <= j < i ==> first == if from_end {
                    (#[trigger] all[j])[all[j].len() - 1 - at]
                } else {
                    all[j][at as int]
                },
        decreases names.len() - i,
    {
        assert(at < names@[i as int]@.len());
        let c: char = if from_end { names[i][names[i].len() - 1 - at] } else { names[i][at] };
        assert(all[i as int] == names@[i as int]@);
        if c != first {
            assert(all[0] == names@[0]@);
            return false;
        }
        i += 1;
    }
    assert(all[0] == names@[0]@);
    true
}

/// How many characters the names of a page have in common at the start and at
/// the end: what tells no row from another, and takes room all the same.
pub fn shared(names: &[&str], limit: usize) -> (edges: (usize, usize))
    ensures
        (edges.0 as nat, edges.1 as nat) == common_edges(names_of(names@), limit as nat),
{
    let ghost all = names_of(names@);
    let mut parts: Vec<Vec<char>> = Vec::new();
    let mut short: usize = 0;
    let mut long: usize = 0;
    let mut i: usize = 0;
    while i < names.len()
        invariant
            i <= names.len(),
            all == names_of(names@),
            parts@.map_values(|name: Vec<char>| name@) == all.take(i as int),
            short == shortest(all.take(i as int)),
            long == longest(all.take(i as int)),
        decreases names.len() - i,
    {
        let part: Vec<char> = text::chars(names[i]);
        let length: usize = part.len();
        assert(all.take(i + 1).drop_last() =~= all.take(i as int));
        assert(all.take(i + 1).last() == all[i as int]);
        if i == 0 || length < short {
            short = length;
        }
        if length > long {
            long = length;
        }
        let ghost before = parts@;
        parts.push(part);
        assert(parts@.map_values(|name: Vec<char>| name@) =~= before.map_values(|name: Vec<char>| name@).push(part@));
        assert(all.take(i + 1) =~= all.take(i as int).push(part@));
        i += 1;
    }
    assert(all.take(all.len() as int) =~= all);
    if names.len() < 2 || long <= limit {
        return (0, 0);
    }
    proof {
        shortest_is_a_bound(all);
        assert forall|i: int| 0 <= i < parts.len() implies short <= (#[trigger] parts@[i])@.len() by {
            assert(all[i] == parts@[i]@);
        }
    }
    let mut head: usize = 0;
    while head < short && all_same(&parts, head, false)
        invariant
            head <= short,
            parts.len() > 0,
            parts@.map_values(|name: Vec<char>| name@) == all,
            forall|i: int| 0 <= i < parts.len() ==> short <= (#[trigger] parts@[i])@.len(),
            common_head(all, head as nat, short as nat) == common_head(all, 0, short as nat),
        decreases short - head,
    {
        head += 1;
    }
    let room: usize = short - head;
    let mut tail: usize = 0;
    while tail < room && all_same(&parts, tail, true)
        invariant
            tail <= room <= short,
            parts.len() > 0,
            parts@.map_values(|name: Vec<char>| name@) == all,
            forall|i: int| 0 <= i < parts.len() ==> short <= (#[trigger] parts@[i])@.len(),
            common_tail(all, tail as nat, room as nat) == common_tail(all, 0, room as nat),
        decreases room - tail,
    {
        tail += 1;
    }
    if tail >= room && tail > 0 {
        tail -= 1;
    }
    if tail >= room {
        return (0, 0);
    }
    (if head > 1 { head } else { 0 }, if tail > 1 { tail } else { 0 })
}

/// A name in `limit` characters with the common edges cut first: what room they
/// leave goes back to the start, and every cut is marked. Where the marks of the
/// edges would leave too little to cut the rest in, the name is cut in the middle.
pub open spec fn told_apart(whole: Seq<char>, limit: nat, head: nat, tail: nat) -> Seq<char> {
    if (head == 0 && tail == 0) || head + tail >= whole.len() || limit < 4 {
        cut_middle(whole, limit)
    } else {
        let body = whole.subrange(head as int, whole.len() - tail);
        let trail: nat = if tail > 0 { 1 } else { 0 };
        let room = limit - trail - (body.len() + 1);
        let keep: nat = if room <= 0 { 0 } else if room < head { room as nat } else { head };
        let lead: nat = if keep < head { 1 } else { 0 };
        let left = limit - (keep + lead + trail);
        if body.len() > left && left < 4 {
            cut_middle(whole, limit)
        } else {
            whole.take(keep as int) + (if lead > 0 { "…"@ } else { Seq::empty() }) + cut_middle(body, left as nat) + (
            if trail > 0 {
                "…"@
            } else {
                Seq::empty()
            })
        }
    }
}

/// The name of a row: in the characters it has room for, cutting first what its
/// neighbours have as well (see [`shared`]).
pub fn distinct(whole: &str, limit: usize, edges: (usize, usize)) -> (shown: String)
    ensures
        shown@ == told_apart(whole@, limit as nat, edges.0 as nat, edges.1 as nat),
{
    let (head, tail): (usize, usize) = edges;
    let length: usize = text::length(whole);
    if (head == 0 && tail == 0) || head >= length || tail >= length - head || limit < 4 {
        return ellipsize(whole, limit);
    }
    let body: String = text::slice(whole, head, length - tail);
    let size: usize = length - tail - head;
    let trail: usize = if tail > 0 { 1 } else { 0 };
    let room: usize = if size < limit - trail { limit - trail - size - 1 } else { 0 };
    let keep: usize = if room < head { room } else { head };
    let lead: usize = if keep < head { 1 } else { 0 };
    let left: usize = limit - (keep + lead + trail);
    if size > left && left < 4 {
        return ellipsize(whole, limit);
    }
    let mut shown: String = text::slice(whole, 0, keep);
    assert(whole@.subrange(0, keep as int) =~= whole@.take(keep as int));
    if lead > 0 {
        shown.append("…");
    }
    shown.append(&ellipsize(&body, left));
    if trail > 0 {
        shown.append("…");
    }
    assert(shown@ =~= told_apart(whole@, limit as nat, head as nat, tail as nat));
    shown
}

// -- Counts --

/// The form a Russian noun takes beside a count: «один», «два» or «пять».
pub open spec fn noun_form(count: nat) -> int {
    let tail = count % 100;
    if 11 <= tail <= 14 {
        2
    } else if tail % 10 == 1 {
        0
    } else if 2 <= tail % 10 <= 4 {
        1
    } else {
        2
    }
}

/// «файл», «файла», «файлов»: the form that goes with the count.
pub fn plural(count: usize, forms: [&'static str; 3]) -> (form: &'static str)
    ensures
        form == forms@[noun_form(count as nat)],
{
    let tail: usize = count % 100;
    let unit: usize = tail % 10;
    if 11 <= tail && tail <= 14 {
        forms[2]
    } else if unit == 1 {
        forms[0]
    } else if 2 <= unit && unit <= 4 {
        forms[1]
    } else {
        forms[2]
    }
}

/// A count and its noun.
pub open spec fn counted_noun(count: nat, forms: Seq<&'static str>) -> Seq<char> {
    number::written(count) + " "@ + forms[noun_form(count)]@
}

/// The counts that are not zero, each with its noun.
pub open spec fn counted_nouns(parts: Seq<(usize, [&'static str; 3])>) -> Seq<Seq<char>>
    decreases parts.len(),
{
    if parts.len() == 0 {
        Seq::empty()
    } else {
        let rest = counted_nouns(parts.drop_last());
        let (count, forms) = parts.last();
        if count > 0 {
            rest.push(counted_noun(count as nat, forms@))
        } else {
            rest
        }
    }
}

/// «3 снимка, 2 файла»: counts with their nouns, zeros left unsaid.
pub fn counted(parts: &[(usize, [&'static str; 3])]) -> (said: String)
    ensures
        said@ == text::joined(counted_nouns(parts@), ", "@),
{
    let mut words: Vec<String> = Vec::new();
    let mut i: usize = 0;
    assert(text::texts(words@) =~= counted_nouns(parts@.take(0)));
    while i < parts.len()
        invariant
            i <= parts.len(),
            text::texts(words@) == counted_nouns(parts@.take(i as int)),
        decreases parts.len() - i,
    {
        let (count, forms): (usize, [&'static str; 3]) = parts[i];
        assert(parts@.take(i + 1).drop_last() =~= parts@.take(i as int));
        if count > 0 {
            let mut word: String = number::decimal(count as u128);
            word.append(" ");
            word.append(plural(count, forms));
            let ghost before = words@;
            words.push(word);
            assert(text::texts(words@) =~= text::texts(before).push(word@));
        }
        i += 1;
    }
    assert(parts@.take(parts@.len() as int) =~= parts@);
    text::join(&words, ", ")
}


// -- Laws --

spec fn length_at(lengths: Seq<usize>) -> spec_fn(int) -> nat {
    |at: int| lengths[at] as nat
}

proof fn sum_by_place(values: Seq<usize>)
    ensures
        order::total(Seq::new(values.len(), |at: int| at), length_at(values)) == sum(values),
    decreases values.len(),
{
    let places = Seq::new(values.len(), |at: int| at);
    if values.len() > 0 {
        let fewer = Seq::new(values.drop_last().len(), |at: int| at);
        sum_by_place(values.drop_last());
        assert(places.drop_last() =~= fewer);
        total_agrees(fewer, length_at(values), length_at(values.drop_last()));
    }
}

proof fn total_agrees(items: Seq<int>, left: spec_fn(int) -> nat, right: spec_fn(int) -> nat)
    requires
        forall|i: int| 0 <= i < items.len() ==> left(#[trigger] items[i]) == right(items[i]),
    ensures
        order::total(items, left) == order::total(items, right),
    decreases items.len(),
{
    if items.len() > 0 {
        assert forall|i: int| 0 <= i < items.drop_last().len() implies left(#[trigger] items.drop_last()[i]) == right(
            items.drop_last()[i],
        ) by {
            assert(items.drop_last()[i] == items[i]);
        }
        total_agrees(items.drop_last(), left, right);
        assert(left(items[items.len() - 1]) == right(items[items.len() - 1]));
    }
}

proof fn room_is_what_was_not_dealt(lengths: Seq<usize>, room: nat, shares: Seq<usize>, rank: nat)
    requires
        deals(lengths, room, shares),
        rank <= lengths.len(),
    ensures
        order::total(ranked(lengths).take(rank as int), length_at(shares)) + room_after(lengths, room, rank) == room,
    decreases rank,
{
    ranks_are_places(lengths);
    if rank > 0 {
        let last = (rank - 1) as nat;
        room_is_what_was_not_dealt(lengths, room, shares, last);
        let ranks = ranked(lengths);
        assert(ranks.take(rank as int).drop_last() =~= ranks.take(last as int));
        assert(ranks.take(rank as int).last() == ranks[last as int]);
        assert(shares[ranks[last as int]] == share_of(lengths, room, last));
        let left = room_after(lengths, room, last);
        let among = (lengths.len() - last) as nat;
        assert(left / among <= left) by (nonlinear_arith)
            requires
                among >= 1,
        ;
    } else {
        assert(ranked(lengths).take(0) =~= Seq::<int>::empty());
    }
}

/// The shares of a line never add up to more than the line has room for.
pub proof fn shares_fit_the_room(lengths: Seq<usize>, room: nat, shares: Seq<usize>)
    requires
        deals(lengths, room, shares),
    ensures
        sum(shares) <= room,
{
    ranks_are_places(lengths);
    let ranks = ranked(lengths);
    let places = Seq::new(lengths.len(), |at: int| at);
    room_is_what_was_not_dealt(lengths, room, shares, lengths.len());
    assert(ranks.take(lengths.len() as int) =~= ranks);
    order::sorted_keeps_total(places, |a: int, b: int| lengths[a] < lengths[b], length_at(shares));
    sum_by_place(shares);
    assert(places =~= Seq::new(shares.len(), |at: int| at));
}

/// No part gets more than its length.
pub proof fn no_share_exceeds_its_part(lengths: Seq<usize>, room: nat, shares: Seq<usize>, at: int)
    requires
        deals(lengths, room, shares),
        0 <= at < lengths.len(),
    ensures
        shares[at] <= lengths[at],
{
    ranks_are_places(lengths);
    let rank = rank_of(lengths, at);
    assert(shares[ranked(lengths)[rank]] == share_of(lengths, room, rank as nat));
}

proof fn rank_of(lengths: Seq<usize>, at: int) -> (rank: int)
    requires
        0 <= at < lengths.len(),
    ensures
        0 <= rank < lengths.len(),
        ranked(lengths)[rank] == at,
{
    let places = Seq::new(lengths.len(), |at: int| at);
    let less = |a: int, b: int| lengths[a] < lengths[b];
    order::sorted_keeps_items(places, less);
    assert(places[at] == at);
    assert(places.contains(at));
    assert(ranked(lengths).contains(at));
    choose|rank: int| 0 <= rank < ranked(lengths).len() && ranked(lengths)[rank] == at
}

proof fn ranks_are_by_length(lengths: Seq<usize>)
    ensures
        forall|i: int, j: int|
            0 <= i < j < lengths.len() ==> lengths[#[trigger] ranked(lengths)[i]] <= lengths[#[trigger] ranked(
                lengths,
            )[j]],
{
    let places = Seq::new(lengths.len(), |at: int| at);
    let less = |a: int, b: int| lengths[a] < lengths[b];
    order::sorted_is_in_order(places, less);
    ranks_are_places(lengths);
    assert forall|i: int, j: int| 0 <= i < j < lengths.len() implies lengths[#[trigger] ranked(lengths)[i]]
        <= lengths[#[trigger] ranked(lengths)[j]] by {
        assert(!less(ranked(lengths)[j], ranked(lengths)[i]));
    }
}

proof fn shortest_left_is_below_average(lengths: Seq<usize>, rank: nat)
    requires
        rank < lengths.len(),
    ensures
        lengths[ranked(lengths)[rank as int]] * (lengths.len() - rank) <= order::total(
            ranked(lengths).skip(rank as int),
            length_at(lengths),
        ),
{
    ranks_are_by_length(lengths);
    ranks_are_places(lengths);
    let back = ranked(lengths).skip(rank as int);
    let least = lengths[ranked(lengths)[rank as int]] as nat;
    assert forall|i: int| 0 <= i < back.len() implies least <= length_at(lengths)(#[trigger] back[i]) by {
        assert(back[i] == ranked(lengths)[rank + i]);
    }
    total_is_at_least(back, length_at(lengths), least);
}

proof fn total_is_at_least(items: Seq<int>, value: spec_fn(int) -> nat, least: nat)
    requires
        forall|i: int| 0 <= i < items.len() ==> least <= value(#[trigger] items[i]),
    ensures
        least * items.len() <= order::total(items, value),
    decreases items.len(),
{
    if items.len() > 0 {
        assert forall|i: int| 0 <= i < items.drop_last().len() implies least <= value(#[trigger] items.drop_last()[i]) by {
            assert(items.drop_last()[i] == items[i]);
        }
        total_is_at_least(items.drop_last(), value, least);
        assert(least <= value(items[items.len() - 1]));
        assert(least * items.len() == least * (items.len() - 1) + least) by (nonlinear_arith);
    }
}

proof fn total_splits(items: Seq<int>, value: spec_fn(int) -> nat, at: int)
    requires
        0 <= at <= items.len(),
    ensures
        order::total(items, value) == order::total(items.take(at), value) + order::total(items.skip(at), value),
    decreases items.len() - at,
{
    if at == items.len() {
        assert(items.take(at) =~= items);
        assert(items.skip(at) =~= Seq::<int>::empty());
    } else {
        total_splits(items.drop_last(), value, at);
        assert(items.drop_last().take(at) =~= items.take(at));
        assert(items.drop_last().skip(at) =~= items.skip(at).drop_last());
        assert(items.skip(at).last() == items.last());
    }
}

proof fn room_covers_the_rest(lengths: Seq<usize>, room: nat, rank: nat)
    requires
        sum(lengths) <= room,
        rank <= lengths.len(),
    ensures
        order::total(ranked(lengths).skip(rank as int), length_at(lengths)) <= room_after(lengths, room, rank),
        rank < lengths.len() ==> share_of(lengths, room, rank) == lengths[ranked(lengths)[rank as int]],
    decreases rank,
{
    ranks_are_places(lengths);
    let ranks = ranked(lengths);
    if rank == 0 {
        let places = Seq::new(lengths.len(), |at: int| at);
        order::sorted_keeps_total(places, |a: int, b: int| lengths[a] < lengths[b], length_at(lengths));
        sum_by_place(lengths);
        assert(ranks.skip(0) =~= ranks);
    } else {
        room_covers_the_rest(lengths, room, (rank - 1) as nat);
        let whole = ranks.skip(rank - 1);
        total_splits(whole, length_at(lengths), 1);
        assert(whole.skip(1) =~= ranks.skip(rank as int));
        assert(whole.take(1).drop_last() =~= Seq::<int>::empty());
        assert(whole.take(1).last() == ranks[rank - 1]);
        assert(order::total(whole.take(1).drop_last(), length_at(lengths)) == 0);
    }
    if rank < lengths.len() {
        shortest_left_is_below_average(lengths, rank);
        let own = lengths[ranks[rank as int]] as int;
        let among = lengths.len() - rank;
        let left = room_after(lengths, room, rank) as int;
        assert(own <= left / among) by (nonlinear_arith)
            requires
                own * among <= left,
                among >= 1,
        ;
    }
}

/// While the parts fit together, none of them is cut.
pub proof fn what_fits_is_not_cut(lengths: Seq<usize>, room: nat, shares: Seq<usize>)
    requires
        deals(lengths, room, shares),
        sum(lengths) <= room,
    ensures
        shares == lengths,
{
    assert forall|at: int| 0 <= at < lengths.len() implies shares[at] == lengths[at] by {
        let rank = rank_of(lengths, at);
        room_covers_the_rest(lengths, room, rank as nat);
        assert(shares[ranked(lengths)[rank]] == share_of(lengths, room, rank as nat));
    }
    assert(shares =~= lengths);
}

proof fn once_cut_the_rest_is_even(lengths: Seq<usize>, room: nat, first: nat, rank: nat)
    requires
        first <= rank < lengths.len(),
        share_of(lengths, room, first) < lengths[ranked(lengths)[first as int]],
    ensures
        ({
            let even = share_of(lengths, room, first);
            &&& even <= share_of(lengths, room, rank) <= even + 1
            &&& even * (lengths.len() - rank) <= room_after(lengths, room, rank) <= even * (lengths.len() - rank) + (
            lengths.len() - rank)
        }),
    decreases rank,
{
    ranks_are_places(lengths);
    ranks_are_by_length(lengths);
    let even = share_of(lengths, room, first) as int;
    let among = lengths.len() - rank;
    let left = room_after(lengths, room, rank) as int;
    if rank == first {
        assert(even == left / among);
        assert(even * among <= left <= even * among + among) by (nonlinear_arith)
            requires
                even == left / among,
                among >= 1,
        ;
    } else {
        once_cut_the_rest_is_even(lengths, room, first, (rank - 1) as nat);
        let before = room_after(lengths, room, (rank - 1) as nat) as int;
        let part = share_of(lengths, room, (rank - 1) as nat) as int;
        assert(left == before - part) by {
            assert(before / (among + 1) <= before) by (nonlinear_arith)
                requires
                    among >= 1,
                    before >= 0,
            ;
        }
        assert(part == before / (among + 1)) by {
            let own = lengths[ranked(lengths)[rank - 1]];
            assert(own >= lengths[ranked(lengths)[first as int]]);
            assert(before / (among + 1) <= even + 1) by (nonlinear_arith)
                requires
                    before <= even * (among + 1) + (among + 1),
                    among >= 1,
            ;
        }
        assert(even * among <= left <= even * among + among) by (nonlinear_arith)
            requires
                left == before - part,
                part == before / (among + 1),
                even * (among + 1) <= before <= even * (among + 1) + (among + 1),
                even <= part <= even + 1,
                among >= 1,
        ;
        assert(even <= left / among <= even + 1) by (nonlinear_arith)
            requires
                even * among <= left <= even * among + among,
                among >= 1,
        ;
        let own = lengths[ranked(lengths)[rank as int]];
        assert(own >= lengths[ranked(lengths)[first as int]]);
    }
}

/// Parts that are cut get the same, to within one character.
pub proof fn what_is_cut_is_cut_evenly(lengths: Seq<usize>, room: nat, shares: Seq<usize>, a: int, b: int)
    requires
        deals(lengths, room, shares),
        0 <= a < lengths.len(),
        0 <= b < lengths.len(),
        shares[a] < lengths[a],
        shares[b] < lengths[b],
    ensures
        -1 <= shares[a] - shares[b] <= 1,
{
    let i = rank_of(lengths, a);
    let j = rank_of(lengths, b);
    assert(shares[ranked(lengths)[i]] == share_of(lengths, room, i as nat));
    assert(shares[ranked(lengths)[j]] == share_of(lengths, room, j as nat));
    if i <= j {
        once_cut_the_rest_is_even(lengths, room, i as nat, j as nat);
    } else {
        once_cut_the_rest_is_even(lengths, room, j as nat, i as nat);
    }
}

/// Once the rest of the parts need no less than the room that is left, so it stays: what
/// is left over goes to the last.
proof fn room_is_short_for_the_rest(lengths: Seq<usize>, room: nat, rank: nat)
    requires
        sum(lengths) >= room,
        rank <= lengths.len(),
    ensures
        order::total(ranked(lengths).skip(rank as int), length_at(lengths)) >= room_after(lengths, room, rank),
    decreases rank,
{
    ranks_are_places(lengths);
    let ranks = ranked(lengths);
    if rank == 0 {
        let places = Seq::new(lengths.len(), |at: int| at);
        order::sorted_keeps_total(places, |a: int, b: int| lengths[a] < lengths[b], length_at(lengths));
        sum_by_place(lengths);
        assert(ranks.skip(0) =~= ranks);
    } else {
        let last = (rank - 1) as nat;
        room_is_short_for_the_rest(lengths, room, last);
        let whole = ranks.skip(last as int);
        let rest = ranks.skip(rank as int);
        total_splits(whole, length_at(lengths), 1);
        assert(whole.skip(1) =~= rest);
        assert(whole.take(1).drop_last() =~= Seq::<int>::empty());
        assert(whole.take(1).last() == ranks[last as int]);
        assert(order::total(whole.take(1).drop_last(), length_at(lengths)) == 0);
        let own = lengths[ranks[last as int]] as int;
        let among = lengths.len() - last;
        let before = room_after(lengths, room, last) as int;
        let even = before / among;
        assert(even <= before) by (nonlinear_arith)
            requires
                even == before / among,
                among >= 1,
                before >= 0,
        ;
        let part = share_of(lengths, room, last) as int;
        assert(part == if own <= even { own } else { even });
        assert(room_after(lengths, room, rank) == before - part);
        if even < own {
            ranks_are_by_length(lengths);
            assert(rest.len() == among - 1);
            assert forall|i: int| 0 <= i < rest.len() implies own <= length_at(lengths)(#[trigger] rest[i]) by {
                assert(rest[i] == ranks[rank + i]);
            }
            total_is_at_least(rest, length_at(lengths), own as nat);
            assert(before - even <= own * (among - 1)) by (nonlinear_arith)
                requires
                    even == before / among,
                    even < own,
                    among >= 1,
                    before >= 0,
            ;
        }
    }
}

/// No room is wasted: the shares add up to all there is, or to all that is needed.
pub proof fn no_room_is_wasted(lengths: Seq<usize>, room: nat, shares: Seq<usize>)
    requires
        deals(lengths, room, shares),
    ensures
        sum(shares) == if sum(lengths) <= room { sum(lengths) } else { room },
{
    if sum(lengths) <= room {
        what_fits_is_not_cut(lengths, room, shares);
    } else {
        ranks_are_places(lengths);
        let ranks = ranked(lengths);
        let places = Seq::new(lengths.len(), |at: int| at);
        room_is_what_was_not_dealt(lengths, room, shares, lengths.len());
        room_is_short_for_the_rest(lengths, room, lengths.len());
        assert(ranks.skip(lengths.len() as int) =~= Seq::<int>::empty());
        assert(ranks.take(lengths.len() as int) =~= ranks);
        order::sorted_keeps_total(places, |a: int, b: int| lengths[a] < lengths[b], length_at(shares));
        sum_by_place(shares);
        assert(places =~= Seq::new(shares.len(), |at: int| at));
    }
}

/// Behind a part that got its length there is as much for each of the others.
proof fn the_rest_gets_no_less(lengths: Seq<usize>, room: nat, first: nat, rank: nat)
    requires
        first <= rank < lengths.len(),
        share_of(lengths, room, first) == lengths[ranked(lengths)[first as int]],
    ensures
        lengths[ranked(lengths)[first as int]] * (lengths.len() - rank) <= room_after(lengths, room, rank),
    decreases rank,
{
    ranks_are_places(lengths);
    let own = lengths[ranked(lengths)[first as int]] as int;
    let among = lengths.len() - rank;
    if rank == first {
        let left = room_after(lengths, room, rank) as int;
        assert(own * among <= left) by (nonlinear_arith)
            requires
                own <= left / among,
                among >= 1,
        ;
    } else {
        let last = (rank - 1) as nat;
        the_rest_gets_no_less(lengths, room, first, last);
        let before = room_after(lengths, room, last) as int;
        let even = before / (among + 1);
        let part = share_of(lengths, room, last) as int;
        assert(part <= even);
        assert(own * among <= before - even && even <= before) by (nonlinear_arith)
            requires
                own * (among + 1) <= before,
                even == before / (among + 1),
                among >= 1,
                own >= 0,
        ;
        assert(room_after(lengths, room, rank) == before - part);
    }
}

/// Who is not cut has no more than those who are, but for the one character that does
/// not divide.
pub proof fn the_uncut_are_the_short(lengths: Seq<usize>, room: nat, shares: Seq<usize>, a: int, b: int)
    requires
        deals(lengths, room, shares),
        0 <= a < lengths.len(),
        0 <= b < lengths.len(),
        shares[a] == lengths[a],
        shares[b] < lengths[b],
    ensures
        lengths[a] <= shares[b] + 1,
{
    let i = rank_of(lengths, a);
    let j = rank_of(lengths, b);
    assert(shares[ranked(lengths)[i]] == share_of(lengths, room, i as nat));
    assert(shares[ranked(lengths)[j]] == share_of(lengths, room, j as nat));
    if i < j {
        the_rest_gets_no_less(lengths, room, i as nat, j as nat);
        let own = lengths[a] as int;
        let among = lengths.len() - j;
        let left = room_after(lengths, room, j as nat) as int;
        assert(own <= left / among) by (nonlinear_arith)
            requires
                own * among <= left,
                among >= 1,
        ;
    } else {
        once_cut_the_rest_is_even(lengths, room, j as nat, i as nat);
    }
}

proof fn common_head_is_common(names: Seq<Seq<char>>, at: nat, limit: nat)
    requires
        at <= limit,
    ensures
        at <= common_head(names, at, limit) <= limit,
        forall|k: nat| at <= k < common_head(names, at, limit) ==> same_from_start(names, k),
    decreases limit - at,
{
    if at < limit && same_from_start(names, at) {
        common_head_is_common(names, at + 1, limit);
    }
}

proof fn common_tail_is_common(names: Seq<Seq<char>>, at: nat, limit: nat)
    requires
        at <= limit,
    ensures
        at <= common_tail(names, at, limit) <= limit,
        forall|k: nat| at <= k < common_tail(names, at, limit) ==> same_from_end(names, k),
    decreases limit - at,
{
    if at < limit && same_from_end(names, at) {
        common_tail_is_common(names, at + 1, limit);
    }
}

/// What is taken for the common edges of names is the same in all of them, and
/// leaves a character even of the shortest.
pub proof fn common_edges_are_common(names: Seq<Seq<char>>, limit: nat)
    ensures
        ({
            let (head, tail) = common_edges(names, limit);
            &&& forall|k: nat| k < head ==> same_from_start(names, k)
            &&& forall|k: nat| k < tail ==> same_from_end(names, k)
            &&& (head, tail) != (0nat, 0nat) ==> head + tail < shortest(names)
        }),
{
    let short = shortest(names);
    common_head_is_common(names, 0, short);
    let head = common_head(names, 0, short);
    common_tail_is_common(names, 0, (short - head) as nat);
}

proof fn cut_middle_fits(whole: Seq<char>, limit: nat)
    requires
        limit >= 4 || whole.len() <= limit,
    ensures
        cut_middle(whole, limit).len() <= limit,
{
    reveal_strlit("…");
}

/// A row's name fits its room; only in less than four characters nothing is cut.
pub proof fn a_told_apart_name_fits(whole: Seq<char>, limit: nat, head: nat, tail: nat)
    requires
        limit >= 4,
    ensures
        told_apart(whole, limit, head, tail).len() <= limit,
{
    reveal_strlit("…");
    if (head == 0 && tail == 0) || head + tail >= whole.len() {
        cut_middle_fits(whole, limit);
    } else {
        let body = whole.subrange(head as int, whole.len() - tail);
        let trail: nat = if tail > 0 { 1 } else { 0 };
        let room = limit - trail - (body.len() + 1);
        let keep: nat = if room <= 0 { 0 } else if room < head { room as nat } else { head };
        let lead: nat = if keep < head { 1 } else { 0 };
        let left = limit - (keep + lead + trail);
        if body.len() > left && left < 4 {
            cut_middle_fits(whole, limit);
        } else {
            cut_middle_fits(body, left as nat);
        }
    }
}

proof fn plain_text_is_one_piece(run: Seq<char>, marks: Seq<char>)
    requires
        forall|i: int| 0 <= i < run.len() ==> !marks.contains(#[trigger] run[i]),
    ensures
        text::pieces(run, marks) == seq![run],
    decreases run.len(),
{
    if run.len() == 0 {
        assert(run =~= Seq::<char>::empty());
    } else {
        let rest = run.drop_last();
        assert forall|i: int| 0 <= i < rest.len() implies !marks.contains(#[trigger] rest[i]) by {
            assert(rest[i] == run[i]);
        }
        plain_text_is_one_piece(rest, marks);
        assert(!marks.contains(run[run.len() - 1]));
        assert(rest.push(run.last()) =~= run);
        assert(text::pieces(run, marks) =~= seq![run]);
    }
}

proof fn a_mark_ends_a_piece(front: Seq<char>, mark: char, run: Seq<char>, marks: Seq<char>)
    requires
        marks.contains(mark),
        forall|i: int| 0 <= i < run.len() ==> !marks.contains(#[trigger] run[i]),
    ensures
        text::pieces(front.push(mark) + run, marks) == text::pieces(front, marks).push(run),
    decreases run.len(),
{
    let whole = front.push(mark) + run;
    if run.len() == 0 {
        assert(whole =~= front.push(mark));
        assert(whole.drop_last() =~= front);
        assert(run =~= Seq::<char>::empty());
    } else {
        let rest = run.drop_last();
        assert forall|i: int| 0 <= i < rest.len() implies !marks.contains(#[trigger] rest[i]) by {
            assert(rest[i] == run[i]);
        }
        a_mark_ends_a_piece(front, mark, rest, marks);
        assert(whole.drop_last() =~= front.push(mark) + rest);
        assert(whole.last() == run[run.len() - 1]);
        assert(rest.push(run.last()) =~= run);
        let before = text::pieces(front, marks).push(rest);
        assert(before.drop_last() =~= text::pieces(front, marks));
    }
}

proof fn trimming_leaves_digits(run: Seq<char>)
    requires
        run.len() > 0,
        number::is_digit(run[0]),
        number::is_digit(run.last()),
    ensures
        text::without_space_after(text::without_space_before(run)) == run,
{
}

/// The number of digits of the numbers a date is made of.
proof fn digits_of(value: nat)
    requires
        value <= 9999,
    ensures
        number::all_digits(number::written(value)),
        number::written(value).len() >= 1,
        value >= 1000 ==> number::written(value).len() == 4,
        value < 100 ==> number::written(value).len() <= 2,
{
    number::written_is_digits(value);
    reveal_with_fuel(number::written, 5);
}

/// A date reads back as the day it names, typed either way round: year first
/// between dashes or day first between dots.
pub proof fn a_date_reads_back(year: nat, month: nat, day: nat)
    requires
        1970 <= year <= 9999,
        calendar::is_date(year as int, month as int, day as int),
    ensures
        ({
            let (y, m, d) = (number::written(year), number::written(month), number::written(day));
            let midnight = calendar::day_number(year as int, month as int, day as int) * 86_400;
            &&& read_date(y.push('-') + m.push('-') + d) == Some(midnight)
            &&& read_date(d.push('.') + m.push('.') + y) == Some(midnight)
            &&& calendar::civil(midnight / 86_400) == (year as int, month as int, day as int)
        }),
{
    let (y, m, d) = (number::written(year), number::written(month), number::written(day));
    let marks = seq!['-', '.', '/'];
    digits_of(year);
    digits_of(month);
    digits_of(day);
    number::written_reads_back(year);
    number::written_reads_back(month);
    number::written_reads_back(day);
    assert(marks[0] == '-' && marks[1] == '.');
    assert forall|run: Seq<char>, i: int| number::all_digits(run) && 0 <= i < run.len() implies !marks.contains(
        #[trigger] run[i],
    ) by {
        assert(number::is_digit(run[i]));
    }
    plain_text_is_one_piece(y, marks);
    a_mark_ends_a_piece(y, '-', m, marks);
    a_mark_ends_a_piece(y.push('-') + m, '-', d, marks);
    let iso = y.push('-') + m.push('-') + d;
    assert(iso =~= (y.push('-') + m).push('-') + d);
    assert(number::is_digit(y[0]) && number::is_digit(d[d.len() - 1]));
    trimming_leaves_digits(iso);
    plain_text_is_one_piece(d, marks);
    a_mark_ends_a_piece(d, '.', m, marks);
    a_mark_ends_a_piece(d.push('.') + m, '.', y, marks);
    let dotted = d.push('.') + m.push('.') + y;
    assert(dotted =~= (d.push('.') + m).push('.') + y);
    assert(number::is_digit(d[0]) && number::is_digit(y[y.len() - 1]));
    trimming_leaves_digits(dotted);
    calendar::civil_is_the_date(year as int, month as int, day as int);
    let days = calendar::day_number(year as int, month as int, day as int);
    assert(days * 86_400 / 86_400 == days);
}

// -- Room --

/// How many characters of one width have room in so many points. A character is six
/// tenths of its size wide; sizes are in tenths of a point.
pub open spec fn fits(width: nat, size: nat) -> nat {
    let count = (width * 100) / (size * 6);
    if count < usize::MAX { count } else { usize::MAX as nat }
}

pub fn mono_fit(width: u32, size: u32) -> (count: usize)
    requires
        size > 0,
    ensures
        count == fits(width as nat, size as nat),
{
    let count: u64 = width as u64 * 100 / (size as u64 * 6);
    if count < usize::MAX as u64 { count as usize } else { usize::MAX }
}

/// How much room a label takes, from above: half its size for a character, whatever the
/// letters. In twentieths of a point; the size is in tenths.
pub fn text_width(text: &str, size: u32) -> (width: u128)
    ensures
        width == text@.len() * size,
        width <= 0xffff_ffff_ffff_ffff * 0xffff_ffff,
{
    let length: usize = text::length(text);
    assert(length as int * size as int <= 0xffff_ffff_ffff_ffff * 0xffff_ffff) by (nonlinear_arith)
        requires
            length <= 0xffff_ffff_ffff_ffff,
            size <= 0xffff_ffff,
    ;
    length as u128 * size as u128
}

// -- What is said --

/// Each unit is worth 1024 of the one before it, and is called by its own name.
pub proof fn each_unit_is_worth_1024_of_the_one_before(unit: nat)
    ensures
        unit_worth(0) == 1,
        unit < 4 ==> unit_worth(unit + 1) == 1024 * unit_worth(unit),
        unit_name(0) == "Б"@,
        unit_name(1) == "КБ"@,
        unit_name(2) == "МБ"@,
        unit_name(3) == "ГБ"@,
        unit_name(4) == "ТБ"@,
{
}

/// A size is said in the largest unit that it holds, as far as units go.
pub proof fn a_size_is_said_in_its_unit(size: nat)
    ensures
        unit_of(size) <= 4,
        unit_of(size) > 0 ==> unit_worth(unit_of(size)) <= size,
        unit_of(size) < 4 ==> size < 1024 * unit_worth(unit_of(size)),
{
}

/// What is rounded is off by no more than a half, and a half goes to the even side.
pub proof fn rounding_is_off_by_a_half(value: nat, by: nat)
    requires
        by > 0,
    ensures
        2 * value <= 2 * (nearest(value, by) * by) + by,
        2 * (nearest(value, by) * by) <= 2 * value + by,
        2 * value == 2 * (nearest(value, by) * by) + by || 2 * (nearest(value, by) * by) == 2 * value + by ==> nearest(
            value,
            by,
        ) % 2 == 0,
        value % by == 0 ==> nearest(value, by) == value / by,
{
    let whole = value / by;
    let rest = value % by;
    vstd::arithmetic::div_mod::lemma_fundamental_div_mod(value as int, by as int);
    assert(value == whole * by + rest) by {
        vstd::arithmetic::mul::lemma_mul_is_commutative(by as int, whole as int);
    }
    assert((whole + 1) * by == whole * by + by) by {
        vstd::arithmetic::mul::lemma_mul_is_distributive_add_other_way(by as int, whole as int, 1);
    }
}

/// A size below the reach of a double is kept as it is.
pub proof fn a_small_size_is_kept(value: nat)
    requires
        value < 0x20_0000_0000_0000,
    ensures
        kept(value) == value,
{
    assert(spacing(value) == 1);
    assert(nearest(value, 1) == value);
}

/// Bytes are said whole, and so are ten units and more; below that one tenth is said behind
/// a comma.
pub proof fn a_tenth_is_said_below_ten(size: nat, unit: nat)
    ensures
        amount(size, 0) == number::written(size),
        unit > 0 && size >= 10 * unit_worth(unit) ==> amount(size, unit) == number::written(
            nearest(size, unit_worth(unit)),
        ),
        unit > 0 && size < 10 * unit_worth(unit) ==> amount(size, unit) == number::written(
            nearest(10 * size, unit_worth(unit)) / 10,
        ) + ","@ + number::written(nearest(10 * size, unit_worth(unit)) % 10),
{
    assert(unit_worth(0) == 1);
    assert(nearest(size, 1) == size);
}

/// What the months are called.
pub proof fn each_month_has_its_name(month: int)
    requires
        1 <= month <= 12,
    ensures
        month_name(month) == seq![
            "янв"@,
            "фев"@,
            "мар"@,
            "апр"@,
            "мая"@,
            "июн"@,
            "июл"@,
            "авг"@,
            "сен"@,
            "окт"@,
            "ноя"@,
            "дек"@,
        ][month - 1],
{
}

/// A clock shows the hour and the minute, each with two digits.
pub proof fn a_clock_shows_hour_and_minute(day: int, hour: int, minute: int, second: int)
    requires
        0 <= hour < 24,
        0 <= minute < 60,
        0 <= second < 60,
    ensures
        clock(day * 86_400 + hour * 3600 + minute * 60 + second) == two_digits(hour as nat) + ":"@ + two_digits(
            minute as nat,
        ),
{
    let when = day * 86_400 + hour * 3600 + minute * 60 + second;
    assert(when / 3600 == day * 24 + hour);
    assert((day * 24 + hour) % 24 == hour);
    assert(when / 60 == day * 1440 + hour * 60 + minute);
    assert((day * 1440 + hour * 60 + minute) % 60 == minute);
}

/// Two digits are two digits, and read back as the number.
pub proof fn two_digits_are_two(value: nat)
    requires
        value < 100,
    ensures
        two_digits(value).len() == 2,
        number::read_unsigned(two_digits(value)) == Some(value),
{
    reveal_strlit("0");
    reveal_with_fuel(number::written, 3);
    reveal_with_fuel(number::worth, 4);
    number::written_is_digits(value);
    number::written_reads_back(value);
    let said = two_digits(value);
    if value < 10 {
        assert(said =~= seq!['0', number::digit(value)]);
        assert(said.drop_last() =~= seq!['0']);
        assert(seq!['0'].drop_last().len() == 0);
        assert(number::all_digits(said));
        assert(number::unsigned_digits(said) =~= said);
    }
}

/// A day is said by how long ago it was: today and yesterday with the hour, a day of this
/// year by its day and month with the hour, and any other by its day, month and year; no
/// day is said where none is known.
pub proof fn a_day_is_said_by_how_long_ago(moment: int, now: int)
    ensures
        moment <= 0 ==> dated(moment, now).len() == 0,
        moment > 0 && now / 86_400 == moment / 86_400 ==> dated(moment, now) == "сегодня, "@ + clock(moment),
        moment > 0 && now / 86_400 == moment / 86_400 + 1 ==> dated(moment, now) == "вчера, "@ + clock(moment),
        moment > 0 && now / 86_400 != moment / 86_400 && now / 86_400 != moment / 86_400 + 1 ==> {
            let date = calendar::civil(moment / 86_400);
            let today = calendar::civil(now / 86_400);
            let day = number::written(date.2 as nat) + " "@ + month_name(date.1);
            &&& date.0 == today.0 ==> dated(moment, now) == day + ", "@ + clock(moment)
            &&& date.0 != today.0 ==> dated(moment, now) == day + " "@ + number::written(date.0 as nat)
        },
{
}

/// What is too long is cut in its middle: it keeps its start and its end, as much of the one
/// as of the other, and is as long as it may be.
pub proof fn what_is_cut_keeps_its_ends(whole: Seq<char>, limit: nat)
    requires
        whole.len() > limit,
        limit >= 4,
    ensures
        ({
            let shown = cut_middle(whole, limit);
            let front = (limit - 1) / 2;
            let back = limit - 1 - front;
            &&& shown.len() == limit
            &&& shown.take(front as int) == whole.take(front as int)
            &&& shown[front as int] == '…'
            &&& shown.skip(front as int + 1) == whole.skip(whole.len() - back)
        }),
{
    reveal_strlit("…");
    let front = (limit + 1) / 2 - 1;
    let back = limit - front - 1;
    assert(front == (limit - 1) / 2);
    let shown = cut_middle(whole, limit);
    assert(shown.take(front as int) =~= whole.take(front as int));
    assert(shown.skip(front as int + 1) =~= whole.skip(whole.len() - back));
}

/// A start is cut off behind what fits, without the spaces before the cut.
pub proof fn a_start_is_cut_behind(whole: Seq<char>, limit: nat)
    ensures
        whole.len() <= limit ==> cut_end(whole, limit) == whole && cut_middle(whole, limit) == whole,
        whole.len() > limit && limit >= 4 ==> cut_end(whole, limit) == text::without_space_after(
            whole.take(limit - 1),
        ).push('…'),
{
    reveal_strlit("…");
    if whole.len() > limit && limit >= 4 {
        let head = text::without_space_after(whole.take(limit - 1));
        assert(head + "…"@ =~= head.push('…'));
    }
}

/// A variable is said by the last part of its path, with its units and its words, each only
/// where there are any.
pub proof fn a_variable_is_said_by_its_name(path: Seq<char>, said: Seq<char>, units: Seq<char>)
    ensures
        described(path, Seq::empty(), Seq::empty()) == last_name(path),
        units.len() > 0 ==> described(path, Seq::empty(), units) == last_name(path) + ", "@ + units,
        said.len() > 0 ==> described(path, said, Seq::empty()) == last_name(path) + " — "@ + said,
        said.len() > 0 && units.len() > 0 ==> described(path, said, units) == last_name(path) + ", "@ + units + " — "@ + said,
{
}

/// One thing takes the first form, two to four the second, and any other number the third;
/// so does what ends so, but for eleven to fourteen, which take the third.
pub proof fn a_noun_follows_its_number(count: nat)
    ensures
        0 <= noun_form(count) <= 2,
        11 <= count % 100 <= 14 ==> noun_form(count) == 2,
        !(11 <= count % 100 <= 14) && count % 10 == 1 ==> noun_form(count) == 0,
        !(11 <= count % 100 <= 14) && 2 <= count % 10 <= 4 ==> noun_form(count) == 1,
        count % 10 == 0 || count % 10 >= 5 ==> noun_form(count) == 2,
{
    assert(count % 100 % 10 == count % 10);
}

/// What there is none of is not counted out.
pub proof fn what_there_is_none_of_is_not_said(parts: Seq<(usize, [&'static str; 3])>, count: usize, forms: [&'static str; 3])
    ensures
        counted_nouns(Seq::empty()).len() == 0,
        count == 0 ==> counted_nouns(parts.push((count, forms))) == counted_nouns(parts),
        count > 0 ==> counted_nouns(parts.push((count, forms))) == counted_nouns(parts).push(
            number::written(count as nat) + " "@ + forms@[noun_form(count as nat)]@,
        ),
{
    assert(parts.push((count, forms)).drop_last() =~= parts);
}

/// The shortest is no longer and the longest no shorter than any.
pub proof fn the_shortest_and_the_longest(names: Seq<Seq<char>>, i: int)
    requires
        0 <= i < names.len(),
    ensures
        shortest(names) <= names[i].len() <= longest(names),
        exists|k: int| 0 <= k < names.len() && (#[trigger] names[k]).len() == shortest(names),
        exists|k: int| 0 <= k < names.len() && (#[trigger] names[k]).len() == longest(names),
    decreases names.len(),
{
    let front = names.drop_last();
    let last = names.len() - 1;
    assert(names[last] == names.last());
    if front.len() > 0 {
        if i < last {
            the_shortest_and_the_longest(front, i);
            assert(front[i] == names[i]);
        } else {
            the_shortest_and_the_longest(front, 0);
        }
        let k = choose|k: int| 0 <= k < front.len() && (#[trigger] front[k]).len() == shortest(front);
        assert(names[k] == front[k]);
        let m = choose|k: int| 0 <= k < front.len() && (#[trigger] front[k]).len() == longest(front);
        assert(names[m] == front[m]);
    } else {
        assert(names[0].len() == shortest(names));
        assert(longest(front) == 0);
    }
}

/// What tells a name from the others is not cut, as long as it fits with a mark on each side
/// of it.
pub proof fn what_tells_apart_is_shown(whole: Seq<char>, limit: nat, head: nat, tail: nat)
    requires
        limit >= 4,
        head > 0 || tail > 0,
        head + tail < whole.len(),
        whole.len() - head - tail + 2 <= limit,
    ensures
        text::holds(told_apart(whole, limit, head, tail), whole.subrange(head as int, whole.len() - tail)),
{
    reveal_strlit("…");
    let body = whole.subrange(head as int, whole.len() - tail);
    let trail: nat = if tail > 0 { 1 } else { 0 };
    let room = limit - trail - (body.len() + 1);
    let keep: nat = if room <= 0 { 0 } else if room < head { room as nat } else { head };
    let lead: nat = if keep < head { 1 } else { 0 };
    let left = limit - (keep + lead + trail);
    assert(body.len() <= left);
    assert(cut_middle(body, left as nat) == body);
    let shown = told_apart(whole, limit, head, tail);
    let at = (keep + lead) as int;
    assert(shown.subrange(at, at + body.len()) =~= body);
    assert(text::occurs_at(shown, body, at));
}

/// In a width fit as many letters as are six tenths of their size wide.
pub proof fn letters_fit_their_width(width: nat, size: nat)
    requires
        size > 0,
        (width * 100) / (size * 6) < usize::MAX,
    ensures
        fits(width, size) * (size * 6) <= width * 100,
        width * 100 < (fits(width, size) + 1) * (size * 6),
{
    let wide = width * 100;
    let by = size * 6;
    vstd::arithmetic::div_mod::lemma_fundamental_div_mod(wide as int, by as int);
    assert(fits(width, size) * by == by * (wide / by)) by {
        vstd::arithmetic::mul::lemma_mul_is_commutative(by as int, (wide / by) as int);
    }
    assert((fits(width, size) + 1) * by == fits(width, size) * by + by) by {
        vstd::arithmetic::mul::lemma_mul_is_distributive_add_other_way(by as int, fits(width, size) as int, 1);
    }
}

} // verus!
