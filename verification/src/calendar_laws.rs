//! What holds of the calendar arithmetic: how the spans of years and months
//! add up, that every count of seconds has exactly one set of calendar
//! fields, and how taking a count apart and putting fields together undo
//! each other.

use vstd::prelude::*;
use crate::calendar::{
    compose, days_before_month, days_before_year, decompose, falls_in_month, falls_in_year,
    instant_before, is_calendar_date, is_decomposition, is_epoch, is_leap, is_month_start,
    month_length, month_of, seconds_before_month, seconds_before_year, year_length, year_of,
    CalendarInstant, SECONDS_PER_DAY, SECONDS_PER_HOUR, SECONDS_PER_MINUTE,
};

verus! {

/// The constants have the values that their names promise.
pub proof fn lemma_second_units()
    ensures
        SECONDS_PER_MINUTE == 60,
        SECONDS_PER_HOUR == 3600,
        SECONDS_PER_DAY == 86400,
{
}

/// The length formula gives the twelve months their usual lengths.
pub proof fn lemma_month_lengths(leap: bool)
    ensures
        month_length(0, leap) == 31,
        month_length(1, leap) == if leap { 29int } else { 28int },
        month_length(2, leap) == 31,
        month_length(3, leap) == 30,
        month_length(4, leap) == 31,
        month_length(5, leap) == 30,
        month_length(6, leap) == 31,
        month_length(7, leap) == 31,
        month_length(8, leap) == 30,
        month_length(9, leap) == 31,
        month_length(10, leap) == 30,
        month_length(11, leap) == 31,
{
}

/// Every month, whatever its index, has between 28 and 31 days.
pub proof fn lemma_month_length_bounds(month_index: int, leap: bool)
    ensures
        28 <= month_length(month_index, leap) <= 31,
{
}

/// The days before a year grow by the length of each year that passes.
pub proof fn lemma_year_step(year: int)
    requires
        0 <= year,
    ensures
        days_before_year(year + 1) == days_before_year(year) + year_length(is_leap(year)),
{
}

/// The days before a month grow by the length of each month that passes.
pub proof fn lemma_month_step(month_index: int, leap: bool)
    requires
        0 <= month_index,
    ensures
        days_before_month(month_index + 1, leap) == days_before_month(month_index, leap)
            + month_length(month_index, leap),
{
}

/// The twelve months of a year make up the year.
pub proof fn lemma_twelve_months(leap: bool)
    ensures
        days_before_month(12, leap) == year_length(leap),
{
    reveal_with_fuel(days_before_month, 13);
}

/// The days before a year do not shrink as the year grows, and each year
/// adds at least 365.
pub proof fn lemma_days_before_year_grows(earlier: int, later: int)
    requires
        0 <= earlier <= later,
    ensures
        days_before_year(earlier) + 365 * (later - earlier) <= days_before_year(later),
{
}

/// The days before a month do not shrink as the index grows, and each month
/// adds at least 28.
pub proof fn lemma_days_before_month_grows(earlier: int, later: int, leap: bool)
    requires
        0 <= earlier <= later,
    ensures
        days_before_month(earlier, leap) + 28 * (later - earlier) <= days_before_month(later, leap),
        0 <= days_before_month(earlier, leap),
    decreases later - earlier, earlier,
{
    if earlier < later {
        lemma_days_before_month_grows(earlier, later - 1, leap);
        lemma_month_step(later - 1, leap);
        lemma_month_length_bounds(later - 1, leap);
    } else if earlier > 0 {
        lemma_days_before_month_grows(earlier - 1, earlier - 1, leap);
        lemma_month_length_bounds(earlier - 1, leap);
    }
}

/// A count of seconds belongs to one year only.
pub proof fn lemma_year_unique(s: int, year: int, other: int)
    requires
        falls_in_year(s, year),
        falls_in_year(s, other),
    ensures
        year == other,
{
    lemma_second_units();
    if year < other {
        lemma_days_before_year_grows(year + 1, other);
    } else if other < year {
        lemma_days_before_year_grows(other + 1, year);
    }
}

/// A count of seconds within a year belongs to one month only.
pub proof fn lemma_month_unique(r: int, month_index: int, other: int, leap: bool)
    requires
        falls_in_month(r, month_index, leap),
        falls_in_month(r, other, leap),
    ensures
        month_index == other,
{
    lemma_second_units();
    if month_index < other {
        lemma_days_before_month_grows(month_index + 1, other, leap);
    } else if other < month_index {
        lemma_days_before_month_grows(other + 1, month_index, leap);
    }
}

/// Every count from the end of the years before `from` on belongs to some
/// year.
proof fn lemma_year_found(s: int, from: int)
    requires
        0 <= s,
        0 <= from,
        from > 0 ==> seconds_before_year(from) < s,
    ensures
        exists|year: int| falls_in_year(s, year),
    decreases s - seconds_before_year(from),
{
    lemma_second_units();
    lemma_year_step(from);
    if s <= seconds_before_year(from + 1) {
        assert(falls_in_year(s, from));
    } else {
        lemma_year_found(s, from + 1);
    }
}

/// Every count within a year, from the end of the months before `from` on,
/// belongs to some month.
proof fn lemma_month_found(r: int, from: int, leap: bool)
    requires
        0 <= r,
        0 <= from,
        from > 0 ==> seconds_before_month(from, leap) < r,
    ensures
        exists|month_index: int| falls_in_month(r, month_index, leap),
    decreases r - seconds_before_month(from, leap),
{
    lemma_second_units();
    lemma_month_step(from, leap);
    lemma_month_length_bounds(from, leap);
    lemma_days_before_month_grows(from, from, leap);
    if r <= seconds_before_month(from + 1, leap) {
        assert(falls_in_month(r, from, leap));
    } else {
        lemma_month_found(r, from + 1, leap);
    }
}

/// Every count of seconds belongs to the year that `year_of` gives, and to
/// no other.
pub proof fn lemma_year_of(s: int)
    requires
        0 <= s,
    ensures
        falls_in_year(s, year_of(s)),
        forall|year: int| falls_in_year(s, year) ==> year == year_of(s),
{
    lemma_year_found(s, 0);
    assert forall|year: int| falls_in_year(s, year) implies year == year_of(s) by {
        lemma_year_unique(s, year, year_of(s));
    }
}

/// Every count of seconds within a year belongs to the month that `month_of`
/// gives, and to no other.
pub proof fn lemma_month_of(r: int, leap: bool)
    requires
        0 <= r,
    ensures
        falls_in_month(r, month_of(r, leap), leap),
        forall|month_index: int|
            falls_in_month(r, month_index, leap) ==> month_index == month_of(r, leap),
{
    lemma_month_found(r, 0, leap);
    assert forall|month_index: int| falls_in_month(r, month_index, leap) implies month_index
        == month_of(r, leap) by {
        lemma_month_unique(r, month_index, month_of(r, leap), leap);
    }
}

/// What is left of a count after the whole years before its own year lies
/// within that year's length, and is 0 for the count 0 only.
pub proof fn lemma_rest_in_year(s: int, year: int)
    requires
        0 <= s,
        falls_in_year(s, year),
    ensures
        0 <= s - seconds_before_year(year) <= year_length(is_leap(year)) * SECONDS_PER_DAY,
        s > 0 ==> s - seconds_before_year(year) > 0,
{
    lemma_second_units();
    lemma_year_step(year);
}

/// What is left of a count within a year after the whole months before its
/// own month lies within that month's length, and the month is one of the
/// twelve.
pub proof fn lemma_rest_in_month(r: int, month_index: int, leap: bool)
    requires
        0 <= r <= year_length(leap) * SECONDS_PER_DAY,
        falls_in_month(r, month_index, leap),
    ensures
        month_index < 12,
        0 <= r - seconds_before_month(month_index, leap) <= month_length(month_index, leap)
            * SECONDS_PER_DAY,
        r > 0 ==> r - seconds_before_month(month_index, leap) > 0,
{
    lemma_second_units();
    lemma_month_step(month_index, leap);
    lemma_twelve_months(leap);
    if month_index >= 12 {
        lemma_days_before_month_grows(12, month_index, leap);
    }
}

/// The fields of a count of seconds: `decompose` gives them, and nothing
/// else is a decomposition of that count.
pub proof fn lemma_decompose(s: int)
    requires
        0 <= s,
    ensures
        is_decomposition(s, decompose(s)),
        forall|c: CalendarInstant| is_decomposition(s, c) ==> c == decompose(s),
{
    lemma_year_of(s);
    let year = year_of(s);
    lemma_rest_in_year(s, year);
    lemma_month_of(s - seconds_before_year(year), is_leap(year));
    assert forall|c: CalendarInstant| is_decomposition(s, c) implies c == decompose(s) by {
        lemma_decompose_unique(s, c);
    }
}

/// A decomposition of a count of seconds is the one that `decompose` gives.
pub proof fn lemma_decompose_unique(s: int, c: CalendarInstant)
    requires
        0 <= s,
        is_decomposition(s, c),
    ensures
        c == decompose(s),
{
    lemma_year_of(s);
    let year = year_of(s);
    lemma_rest_in_year(s, year);
    lemma_month_of(s - seconds_before_year(year), is_leap(year));
}

/// A count of seconds splits into days, hours, minutes and seconds, each in
/// its range, and they add up to the count.
pub proof fn lemma_split_seconds(r: int)
    requires
        0 <= r,
    ensures
        0 <= r / 86400,
        0 <= r / 3600 % 24 < 24,
        0 <= r / 60 % 60 < 60,
        0 <= r % 60 < 60,
        r == (((r / 86400) * 24 + r / 3600 % 24) * 60 + r / 60 % 60) * 60 + r % 60,
{
    let minutes = r / 60;
    let hours = r / 3600;
    let days = r / 86400;
    assert(hours == minutes / 60);
    assert(days == hours / 24);
}

/// The fields of a count of seconds lie in their ranges. The day index may
/// reach the length of its month, one more than a date of the calendar has:
/// it does so on the last second of a month's span and then the time of day
/// is 00:00:00. Day and time of day are all 0 at the count 0 only.
pub proof fn lemma_decomposition_ranges(s: int, c: CalendarInstant)
    requires
        0 <= s,
        is_decomposition(s, c),
    ensures
        0 <= c.year,
        0 <= c.month_index < 12,
        0 <= c.day_index <= month_length(c.month_index, is_leap(c.year)),
        0 <= c.hour < 24,
        0 <= c.minute < 60,
        0 <= c.second < 60,
        c.day_index == month_length(c.month_index, is_leap(c.year)) ==> c.hour == 0 && c.minute
            == 0 && c.second == 0,
        is_month_start(c) ==> s == 0,
        s == 0 ==> is_epoch(c),
{
    lemma_second_units();
    lemma_rest_in_year(s, c.year);
    lemma_rest_in_month(s - seconds_before_year(c.year), c.month_index, is_leap(c.year));
    lemma_month_length_bounds(c.month_index, is_leap(c.year));
    lemma_split_seconds(
        s - seconds_before_year(c.year) - seconds_before_month(c.month_index, is_leap(c.year)),
    );
    if s == 0 {
        if c.month_index > 0 {
            lemma_days_before_month_grows(0, c.month_index, is_leap(c.year));
        }
    }
}

/// Putting the fields of a count of seconds together gives the count back.
pub proof fn lemma_compose_decomposition(s: int, c: CalendarInstant)
    requires
        0 <= s,
        is_decomposition(s, c),
    ensures
        compose(c) == s,
{
    lemma_second_units();
    lemma_decomposition_ranges(s, c);
}

/// Taking a count of seconds apart and putting the fields together again is
/// the identity.
pub proof fn lemma_compose_decompose(s: int)
    requires
        0 <= s,
    ensures
        compose(decompose(s)) == s,
{
    lemma_decompose(s);
    lemma_compose_decomposition(s, decompose(s));
}

/// Days, hours, minutes and seconds in their ranges are what the split of
/// their sum gives.
pub proof fn lemma_join_seconds(day: int, hour: int, minute: int, second: int)
    requires
        0 <= day,
        0 <= hour < 24,
        0 <= minute < 60,
        0 <= second < 60,
    ensures
        ({
            let r = ((day * 24 + hour) * 60 + minute) * 60 + second;
            &&& day * 86400 <= r < (day + 1) * 86400
            &&& r / 86400 == day
            &&& r / 3600 % 24 == hour
            &&& r / 60 % 60 == minute
            &&& r % 60 == second
        }),
{
    let r = ((day * 24 + hour) * 60 + minute) * 60 + second;
    assert(r / 60 == (day * 24 + hour) * 60 + minute);
    assert(r / 3600 == day * 24 + hour);
    assert(r / 86400 == day);
}

/// The whole years before `year`, the whole months before one of its
/// months, and `rest` seconds more make a count with that year and month,
/// and with the split of `rest` as day and time of day. For this `rest` is
/// at most the month's length, and it is 0 only at the start of year 0.
pub proof fn lemma_decomposition_of_parts(year: int, month_index: int, rest: int)
    requires
        0 <= year,
        0 <= month_index < 12,
        0 <= rest <= month_length(month_index, is_leap(year)) * 86400,
        rest == 0 ==> year == 0 && month_index == 0,
    ensures
        is_decomposition(
            seconds_before_year(year) + seconds_before_month(month_index, is_leap(year)) + rest,
            CalendarInstant {
                year,
                month_index,
                day_index: rest / 86400,
                hour: rest / 3600 % 24,
                minute: rest / 60 % 60,
                second: rest % 60,
            },
        ),
{
    lemma_second_units();
    let leap = is_leap(year);
    let before = seconds_before_month(month_index, leap);
    let s = seconds_before_year(year) + before + rest;
    assert(0 <= before && before + rest <= seconds_before_month(month_index + 1, leap)) by {
        lemma_days_before_month_grows(0, month_index, leap);
        lemma_month_step(month_index, leap);
    }
    assert(seconds_before_month(month_index + 1, leap) <= year_length(leap) * 86400) by {
        lemma_days_before_month_grows(month_index + 1, 12, leap);
        lemma_twelve_months(leap);
    }
    assert(seconds_before_year(year + 1) == seconds_before_year(year) + year_length(leap) * 86400)
        by {
        lemma_year_step(year);
    }
    assert(month_index > 0 ==> before > 0) by {
        if month_index > 0 {
            lemma_days_before_month_grows(0, month_index, leap);
        }
    }
    assert(falls_in_year(s, year));
    assert(falls_in_month(before + rest, month_index, leap));
}

/// Putting the fields of a calendar date together and taking the count apart
/// gives the fields back, unless they are the first instant of a month other
/// than the very first: that instant is the last second of the month before,
/// and comes back as the day index after that month's last, at 00:00:00.
pub proof fn lemma_decompose_compose(c: CalendarInstant)
    requires
        is_calendar_date(c),
        is_month_start(c) ==> is_epoch(c),
    ensures
        0 <= compose(c),
        decompose(compose(c)) == c,
{
    lemma_second_units();
    let rest = ((c.day_index * 24 + c.hour) * 60 + c.minute) * 60 + c.second;
    lemma_join_seconds(c.day_index, c.hour, c.minute, c.second);
    lemma_decomposition_of_parts(c.year, c.month_index, rest);
    lemma_days_before_year_grows(0, c.year);
    lemma_days_before_month_grows(0, c.month_index, is_leap(c.year));
    assert(compose(c) == seconds_before_year(c.year) + seconds_before_month(
        c.month_index,
        is_leap(c.year),
    ) + rest);
    lemma_decompose_unique(compose(c), c);
}

/// The first instant of a month other than the very first comes back from
/// the round trip as the end of the month before: in the same year where
/// there is one, in the year before for the first month.
pub proof fn lemma_month_start_round_trip(c: CalendarInstant)
    requires
        is_calendar_date(c),
        is_month_start(c),
        !is_epoch(c),
    ensures
        0 <= compose(c),
        decompose(compose(c)) == if c.month_index > 0 {
            (CalendarInstant {
                month_index: c.month_index - 1,
                day_index: month_length(c.month_index - 1, is_leap(c.year)),
                ..c
            })
        } else {
            (CalendarInstant { year: c.year - 1, month_index: 11, day_index: 31, ..c })
        },
{
    lemma_second_units();
    let s = compose(c);
    lemma_days_before_year_grows(0, c.year);
    if c.month_index > 0 {
        let leap = is_leap(c.year);
        let length = month_length(c.month_index - 1, leap);
        let d = CalendarInstant { month_index: c.month_index - 1, day_index: length, ..c };
        lemma_month_length_bounds(c.month_index - 1, leap);
        lemma_month_step(c.month_index - 1, leap);
        lemma_days_before_month_grows(0, c.month_index - 1, leap);
        lemma_join_seconds(length, 0, 0, 0);
        lemma_decomposition_of_parts(c.year, c.month_index - 1, length * 86400);
        assert(s == seconds_before_year(c.year) + seconds_before_month(c.month_index - 1, leap)
            + length * 86400);
        lemma_decompose_unique(s, d);
    } else {
        let leap = is_leap(c.year - 1);
        let d = CalendarInstant { year: c.year - 1, month_index: 11, day_index: 31, ..c };
        lemma_year_step(c.year - 1);
        lemma_twelve_months(leap);
        lemma_month_step(11, leap);
        lemma_join_seconds(31, 0, 0, 0);
        lemma_decomposition_of_parts(c.year - 1, 11, 2678400);
        assert(s == seconds_before_year(c.year - 1) + seconds_before_month(11, leap) + 31
            * 86400);
        lemma_decompose_unique(s, d);
    }
}

/// The second month has a day with index 28 in a leap year and in no other:
/// fields with that day come back from their count in a leap year, and in
/// another year they come back as the first day of the third month (at any
/// time of day but 00:00:00, which is the last second of the second month).
pub proof fn lemma_leap_day(year: int, hour: int, minute: int, second: int)
    requires
        0 <= year,
        0 <= hour < 24,
        0 <= minute < 60,
        0 <= second < 60,
    ensures
        ({
            let day = CalendarInstant { year, month_index: 1, day_index: 28, hour, minute, second };
            let next = CalendarInstant { year, month_index: 2, day_index: 0, hour, minute, second };
            &&& is_leap(year) ==> decompose(compose(day)) == day
            &&& !is_leap(year) && !is_month_start(next) ==> decompose(compose(day)) == next
        }),
{
    let day = CalendarInstant { year, month_index: 1, day_index: 28, hour, minute, second };
    let next = CalendarInstant { year, month_index: 2, day_index: 0, hour, minute, second };
    if is_leap(year) {
        lemma_decompose_compose(day);
    } else if !is_month_start(next) {
        reveal_with_fuel(days_before_month, 3);
        assert(compose(day) == compose(next));
        lemma_decompose_compose(next);
    }
}

/// Of two counts of seconds the later one splits into the later days, hours,
/// minutes and seconds, compared in turn.
pub proof fn lemma_split_order(r1: int, r2: int)
    requires
        0 <= r1 < r2,
    ensures
        ({
            let (d1, h1, m1, s1) = (r1 / 86400, r1 / 3600 % 24, r1 / 60 % 60, r1 % 60);
            let (d2, h2, m2, s2) = (r2 / 86400, r2 / 3600 % 24, r2 / 60 % 60, r2 % 60);
            ||| d1 < d2
            ||| d1 == d2 && h1 < h2
            ||| d1 == d2 && h1 == h2 && m1 < m2
            ||| d1 == d2 && h1 == h2 && m1 == m2 && s1 < s2
        }),
{
    lemma_split_seconds(r1);
    lemma_split_seconds(r2);
}

/// The years before `year` hold at least 365 days each.
pub proof fn lemma_years_fit(year: int)
    requires
        0 <= year,
    ensures
        year * 31536000 <= seconds_before_year(year),
{
    lemma_second_units();
    lemma_days_before_year_grows(0, year);
    assert(seconds_before_year(year) == days_before_year(year) * 86400);
}

/// A later count of seconds belongs to the same year or to a later one.
pub proof fn lemma_year_monotonic(s1: int, year1: int, s2: int, year2: int)
    requires
        s1 <= s2,
        falls_in_year(s1, year1),
        falls_in_year(s2, year2),
    ensures
        year1 <= year2,
{
    lemma_second_units();
    if year2 < year1 {
        lemma_days_before_year_grows(year2 + 1, year1);
    }
}

/// A later count of seconds within a year belongs to the same month or to a
/// later one.
pub proof fn lemma_month_monotonic(r1: int, month1: int, r2: int, month2: int, leap: bool)
    requires
        r1 <= r2,
        falls_in_month(r1, month1, leap),
        falls_in_month(r2, month2, leap),
    ensures
        month1 <= month2,
{
    lemma_second_units();
    if month2 < month1 {
        lemma_days_before_month_grows(month2 + 1, month1, leap);
    }
}

/// A later count of seconds has later fields, when the fields are compared
/// in turn from the year down.
pub proof fn lemma_decompose_monotonic(s1: int, s2: int)
    requires
        0 <= s1 < s2,
    ensures
        instant_before(decompose(s1), decompose(s2)),
{
    lemma_second_units();
    lemma_decompose(s1);
    lemma_decompose(s2);
    let a = decompose(s1);
    let b = decompose(s2);
    lemma_year_monotonic(s1, a.year, s2, b.year);
    if a.year == b.year {
        let leap = is_leap(a.year);
        let r1 = s1 - seconds_before_year(a.year);
        let r2 = s2 - seconds_before_year(a.year);
        lemma_month_monotonic(r1, a.month_index, r2, b.month_index, leap);
        if a.month_index == b.month_index {
            let before = seconds_before_month(a.month_index, leap);
            lemma_rest_in_year(s1, a.year);
            lemma_rest_in_month(r1, a.month_index, leap);
            lemma_split_order(r1 - before, r2 - before);
        }
    }
}

} // verus!
