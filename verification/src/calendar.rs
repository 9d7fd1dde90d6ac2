//! The proleptic Gregorian calendar: days counted from 1 January 1970 and the
//! dates they fall on.

use vstd::prelude::*;

verus! {

/// Seconds in a day.
pub const DAY: i64 = 86_400;

pub open spec fn is_leap(year: int) -> bool {
    year % 4 == 0 && (year % 100 != 0 || year % 400 == 0)
}

pub open spec fn days_in_month(year: int, month: int) -> int {
    if month == 2 {
        if is_leap(year) { 29 } else { 28 }
    } else if month == 4 || month == 6 || month == 9 || month == 11 {
        30
    } else {
        31
    }
}

/// Days from the start of the year to the start of the month.
pub open spec fn days_before_month(year: int, month: int) -> int
    decreases month,
{
    if month <= 1 {
        0
    } else {
        days_before_month(year, month - 1) + days_in_month(year, month - 1)
    }
}

/// Days from 1 January of year 1 to 1 January of this year.
pub open spec fn days_before_year(year: int) -> int {
    let past = year - 1;
    365 * past + past / 4 - past / 100 + past / 400
}

/// The day a date falls on, counted from 1 January 1970. A day of the month past
/// the end of the month runs on into the next one.
pub open spec fn day_number(year: int, month: int, day: int) -> int {
    days_before_year(year) - days_before_year(1970) + days_before_month(year, month) + day - 1
}

pub open spec fn is_date(year: int, month: int, day: int) -> bool {
    1 <= month <= 12 && 1 <= day <= days_in_month(year, month)
}

/// The date a day falls on: year, month, day of the month.
pub open spec fn civil(days: int) -> (int, int, int) {
    choose|date: (int, int, int)| is_date(date.0, date.1, date.2) && #[trigger] day_number(date.0, date.1, date.2) == days
}

/// A date is the one its day falls on.
pub proof fn civil_is_the_date(year: int, month: int, day: int)
    requires
        is_date(year, month, day),
    ensures
        civil(day_number(year, month, day)) == (year, month, day),
{
    let days = day_number(year, month, day);
    let sought = (year, month, day);
    assert(is_date(sought.0, sought.1, sought.2) && day_number(sought.0, sought.1, sought.2) == days);
    let found = civil(days);
    a_day_has_one_date(found.0, found.1, found.2, year, month, day);
}

/// Division rounding down, for a positive divisor.
pub fn floor_div(value: i64, by: i64) -> (quotient: i64)
    requires
        by > 0,
    ensures
        quotient == value as int / by as int,
{
    if value >= 0 {
        value / by
    } else {
        let below: i64 = -(value + 1);
        let q: i64 = below / by;
        proof {
            let (v, b, w, k) = (value as int, by as int, below as int, q as int);
            assert(w == -(v + 1));
            assert(k == w / b);
            vstd::arithmetic::div_mod::lemma_fundamental_div_mod(w, b);
            let r = b - 1 - w % b;
            assert(v == b * (-k - 1) + r) by (nonlinear_arith)
                requires
                    w == b * k + w % b,
                    w == -(v + 1),
                    r == b - 1 - w % b,
            ;
            vstd::arithmetic::div_mod::lemma_fundamental_div_mod_converse(v, b, -k - 1, r);
            assert(k <= w) by (nonlinear_arith)
                requires
                    k == w / b,
                    b > 0,
                    w >= 0,
            ;
        }
        -q - 1
    }
}

/// The remainder of [`floor_div`].
pub fn floor_mod(value: i64, by: i64) -> (rest: i64)
    requires
        by > 0,
    ensures
        rest == value as int % by as int,
        0 <= rest < by,
{
    if value >= 0 {
        value % by
    } else {
        let below: i64 = -(value + 1);
        let r: i64 = below % by;
        proof {
            let (v, b, w) = (value as int, by as int, below as int);
            vstd::arithmetic::div_mod::lemma_fundamental_div_mod(w, b);
            let k = w / b;
            let rest = b - 1 - w % b;
            assert(v == b * (-k - 1) + rest) by (nonlinear_arith)
                requires
                    w == b * k + w % b,
                    w == -(v + 1),
                    rest == b - 1 - w % b,
            ;
            vstd::arithmetic::div_mod::lemma_fundamental_div_mod_converse(v, b, -k - 1, rest);
        }
        by - 1 - r
    }
}

fn month_length(year: i64, month: i64) -> (days: i64)
    requires
        1 <= month <= 12,
    ensures
        days == days_in_month(year as int, month as int),
{
    if month == 2 {
        let leap: bool = floor_mod(year, 4) == 0 && (floor_mod(year, 100) != 0 || floor_mod(year, 400) == 0);
        if leap { 29 } else { 28 }
    } else if month == 4 || month == 6 || month == 9 || month == 11 {
        30
    } else {
        31
    }
}

/// The date a day falls on: year, month, day of the month.
pub fn civil_from_days(days: i64) -> (date: (i64, i64, i64))
    requires
        -200_000_000_000_000 <= days <= 200_000_000_000_000,
    ensures
        is_date(date.0 as int, date.1 as int, date.2 as int),
        day_number(date.0 as int, date.1 as int, date.2 as int) == days,
{
    // Days since 1 January of year 1, in cycles of four centuries.
    let since: i64 = days + 719_162;
    let cycle: i64 = floor_div(since, 146_097);
    let in_cycle: i64 = floor_mod(since, 146_097);
    let century: i64 = if in_cycle / 36_524 > 3 { 3 } else { in_cycle / 36_524 };
    let in_century: i64 = in_cycle - century * 36_524;
    let quad: i64 = in_century / 1_461;
    let in_quad: i64 = in_century - quad * 1_461;
    let past: i64 = if in_quad / 365 > 3 { 3 } else { in_quad / 365 };
    let year: i64 = 400 * cycle + 100 * century + 4 * quad + past + 1;
    let mut left: i64 = in_quad - past * 365;
    proof {
        place_in_year(
            since as int,
            cycle as int,
            in_cycle as int,
            century as int,
            in_century as int,
            quad as int,
            in_quad as int,
            past as int,
        );
        year_length(year as int);
    }
    let mut month: i64 = 1;
    while month < 12 && left >= month_length(year, month)
        invariant
            1 <= month <= 12,
            0 <= left,
            days_before_year(year as int) + days_before_month(year as int, month as int) + left == since,
            days_before_month(year as int, month as int) + left < days_before_month(year as int, 13),
            days == since - 719_162,
            -400_000_000_000_000 <= since,
        decreases 12 - month,
    {
        left = left - month_length(year, month);
        month += 1;
    }
    assert(left < days_in_month(year as int, month as int)) by {
        if month == 12 {
            assert(days_before_month(year as int, 13) == days_before_month(year as int, 12) + 31);
        }
    }
    (year, month, left + 1)
}

proof fn place_in_year(
    since: int,
    cycle: int,
    in_cycle: int,
    century: int,
    in_century: int,
    quad: int,
    in_quad: int,
    past: int,
)
    requires
        since == 146_097 * cycle + in_cycle,
        0 <= in_cycle < 146_097,
        century == if in_cycle / 36_524 > 3 { 3 } else { in_cycle / 36_524 },
        in_century == in_cycle - century * 36_524,
        quad == in_century / 1_461,
        in_quad == in_century - quad * 1_461,
        past == if in_quad / 365 > 3 { 3 } else { in_quad / 365 },
    ensures
        ({
            let year = 400 * cycle + 100 * century + 4 * quad + past + 1;
            let left = in_quad - past * 365;
            &&& days_before_year(year) + left == since
            &&& 0 <= left <= 365
            &&& left == 365 ==> is_leap(year)
        }),
{
    assert(0 <= century <= 3 && 0 <= in_century <= 36_524 && (in_century == 36_524 ==> century == 3));
    assert(0 <= quad <= 24 && 0 <= in_quad <= 1_460);
    assert(quad == 24 && in_quad == 1_460 ==> in_century == 36_524);
    let y = 400 * cycle + 100 * century + 4 * quad + past;
    let left = in_quad - past * 365;
    assert(0 <= past <= 3 && 0 <= left <= 365 && (left == 365 ==> past == 3 && in_quad == 1_460));
    assert(y / 4 == 100 * cycle + 25 * century + quad);
    assert(y / 100 == 4 * cycle + century);
    assert(y / 400 == cycle);
    if left == 365 {
        assert((y + 1) % 4 == 0);
        if quad < 24 {
            assert(4 * quad + past + 1 < 100);
            assert((y + 1) % 100 == 4 * quad + past + 1);
        } else {
            assert((y + 1) % 400 == 0);
        }
    }
}

proof fn year_length(year: int)
    ensures
        days_before_month(year, 13) == if is_leap(year) { 366int } else { 365 },
{
    reveal_with_fuel(days_before_month, 14);
}

/// The day a date falls on.
pub fn days_from_civil(year: i64, month: i64, day: i64) -> (days: i64)
    requires
        -1_000_000 <= year <= 1_000_000,
        1 <= month <= 12,
        -1_000_000 <= day <= 1_000_000,
    ensures
        days == day_number(year as int, month as int, day as int),
{
    let past: i64 = year - 1;
    let start: i64 = 365 * past + floor_div(past, 4) - floor_div(past, 100) + floor_div(past, 400);
    let mut offset: i64 = 0;
    let mut at: i64 = 1;
    while at < month
        invariant
            1 <= at <= month <= 12,
            offset == days_before_month(year as int, at as int),
            0 <= offset <= 31 * (at - 1),
        decreases month - at,
    {
        offset = offset + month_length(year, at);
        at += 1;
    }
    start - 719_162 + offset + day - 1
}

/// The date of a moment given in seconds from the start of 1970.
pub fn civil_from_unix(when: i64) -> (date: (i64, i64, i64))
    ensures
        is_date(date.0 as int, date.1 as int, date.2 as int),
        day_number(date.0 as int, date.1 as int, date.2 as int) == when as int / DAY as int,
        (date.0 as int, date.1 as int, date.2 as int) == civil(when as int / DAY as int),
{
    let date: (i64, i64, i64) = civil_from_days(floor_div(when, DAY));
    proof {
        civil_is_the_date(date.0 as int, date.1 as int, date.2 as int);
    }
    date
}

proof fn days_before_month_grows(year: int, from: int, to: int)
    requires
        1 <= from <= to <= 13,
    ensures
        days_before_month(year, from) <= days_before_month(year, to),
        from < to ==> days_before_month(year, from) + days_in_month(year, from) <= days_before_month(year, to),
    decreases to - from,
{
    if from < to {
        if from + 1 <= to {
            days_before_month_grows(year, from + 1, to);
        }
    }
}

proof fn days_before_year_grows(from: int, to: int)
    requires
        from < to,
    ensures
        days_before_year(from) + days_before_month(from, 13) <= days_before_year(to),
    decreases to - from,
{
    year_length(from);
    if from + 1 < to {
        days_before_year_grows(from + 1, to);
        year_length(from + 1);
    }
}

/// A day falls on one date only: two dates with the same day number are the
/// same date.
pub proof fn a_day_has_one_date(y1: int, m1: int, d1: int, y2: int, m2: int, d2: int)
    requires
        is_date(y1, m1, d1),
        is_date(y2, m2, d2),
        day_number(y1, m1, d1) == day_number(y2, m2, d2),
    ensures
        y1 == y2,
        m1 == m2,
        d1 == d2,
{
    days_before_month_grows(y1, 1, m1);
    days_before_month_grows(y2, 1, m2);
    days_before_month_grows(y1, m1, 13);
    days_before_month_grows(y2, m2, 13);
    if y1 < y2 {
        days_before_year_grows(y1, y2);
    } else if y2 < y1 {
        days_before_year_grows(y2, y1);
    } else if m1 < m2 {
        days_before_month_grows(y1, m1, m2);
    } else if m2 < m1 {
        days_before_month_grows(y1, m2, m1);
    }
}

/// The days of a year are those from its first of January on.
pub proof fn a_date_lies_in_its_year(year: int, month: int, day: int)
    requires
        is_date(year, month, day),
    ensures
        year < 1970 ==> day_number(year, month, day) < 0,
        year >= 1970 ==> day_number(year, month, day) >= 0,
{
    days_before_month_grows(year, 1, month);
    days_before_month_grows(year, month, 13);
    if year < 1970 {
        days_before_year_grows(year, 1970);
    } else if year > 1970 {
        days_before_year_grows(1970, year);
        year_length(1970);
    }
}

/// Day numbers of the years that are typed stay small.
pub proof fn day_number_is_bounded(year: int, month: int, day: int)
    requires
        1970 <= year <= 9999,
        1 <= month <= 12,
        1 <= day <= 31,
    ensures
        0 <= day_number(year, month, day) <= 4_000_000,
{
    days_before_month_grows(year, 1, month);
    days_before_month_grows(year, month, 13);
    year_length(year);
}

/// The first day is the first of January 1970; each day is one more than the one before it,
/// within a month, from month to month and from year to year.
pub proof fn a_day_follows_the_day_before(year: int, month: int, day: int)
    ensures
        day_number(1970, 1, 1) == 0,
        day_number(year, month, day + 1) == day_number(year, month, day) + 1,
        1 <= month < 12 ==> day_number(year, month + 1, 1) == day_number(year, month, days_in_month(year, month)) + 1,
        day_number(year + 1, 1, 1) == day_number(year, 12, 31) + 1,
{
    year_length(year);
    reveal_with_fuel(days_before_month, 14);
}

/// How many days the months have; February has one more in every fourth year, but for the
/// hundredth, unless it is the four hundredth.
pub proof fn how_many_days_a_month_has(year: int)
    ensures
        days_in_month(year, 1) == 31,
        days_in_month(year, 3) == 31,
        days_in_month(year, 4) == 30,
        days_in_month(year, 5) == 31,
        days_in_month(year, 6) == 30,
        days_in_month(year, 7) == 31,
        days_in_month(year, 8) == 31,
        days_in_month(year, 9) == 30,
        days_in_month(year, 10) == 31,
        days_in_month(year, 11) == 30,
        days_in_month(year, 12) == 31,
        year % 4 != 0 ==> days_in_month(year, 2) == 28,
        year % 4 == 0 && year % 100 != 0 ==> days_in_month(year, 2) == 29,
        year % 100 == 0 && year % 400 != 0 ==> days_in_month(year, 2) == 28,
        year % 400 == 0 ==> days_in_month(year, 2) == 29,
{
}

} // verus!
