//! The calendar as arithmetic: lengths of months and years, the count of
//! seconds that precedes a calendar moment, and the calendar moment that a
//! count of seconds falls on.
//!
//! Years are counted from year 0, months and days from index 0. Every fourth
//! year, year 0 included, is a leap year.

use vstd::prelude::*;

verus! {

pub const SECONDS_PER_MINUTE: u64 = 60;

pub const SECONDS_PER_HOUR: u64 = 60 * SECONDS_PER_MINUTE;

pub const SECONDS_PER_DAY: u64 = 24 * SECONDS_PER_HOUR;

/// The year in which the Unix epoch begins.
pub const UNIX_EPOCH_YEAR: u64 = 1970;

/// Seconds from the start of year 0 to the Unix epoch.
pub const SECONDS_UNTIL_UNIX_EPOCH: u64 = 62_168_515_200;

/// The calendar fields of one moment, as mathematical integers.
pub struct CalendarInstant {
    pub year: int,
    pub month_index: int,
    pub day_index: int,
    pub hour: int,
    pub minute: int,
    pub second: int,
}

/// A year is a leap year exactly when four divides it.
pub open spec fn is_leap(year: int) -> bool {
    year % 4 == 0
}

/// Days in the month with the given index: the second month has 28 days, or
/// 29 in a leap year; the others alternate between 31 and 30, and the
/// alternation turns over after the seventh month.
pub open spec fn month_length(month_index: int, leap: bool) -> int {
    if month_index == 1 {
        if leap {
            29
        } else {
            28
        }
    } else {
        30 + (month_index + if month_index > 6 {
            0int
        } else {
            1int
        }) % 2
    }
}

/// Days in a year.
pub open spec fn year_length(leap: bool) -> int {
    if leap {
        366
    } else {
        365
    }
}

/// Leap days in the years before `year`: a leap year's extra day counts once
/// that year is over.
pub open spec fn leap_days_before(year: int) -> int {
    if year <= 0 {
        0
    } else {
        (year - 1) / 4 + 1
    }
}

/// Days in the years before `year`.
pub open spec fn days_before_year(year: int) -> int {
    year * 365 + leap_days_before(year)
}

/// Days in the months of one year before the month with the given index.
pub open spec fn days_before_month(month_index: int, leap: bool) -> int
    decreases month_index,
{
    if month_index <= 0 {
        0
    } else {
        days_before_month(month_index - 1, leap) + month_length(month_index - 1, leap)
    }
}

/// Seconds in the years before `year`.
pub open spec fn seconds_before_year(year: int) -> int {
    days_before_year(year) * SECONDS_PER_DAY
}

/// Seconds in the months of one year before the month with the given index.
pub open spec fn seconds_before_month(month_index: int, leap: bool) -> int {
    days_before_month(month_index, leap) * SECONDS_PER_DAY
}

/// The count of seconds from the start of year 0 to the given fields: whole
/// years, then whole months, then days, hours, minutes and seconds.
pub open spec fn compose(c: CalendarInstant) -> int {
    (((days_before_year(c.year) + days_before_month(c.month_index, is_leap(c.year)) + c.day_index)
        * 24 + c.hour) * 60 + c.minute) * 60 + c.second
}

/// The count `s` belongs to year `year`: it lies after the end of the year
/// before and not after the end of `year` itself. The last second of a span
/// is the one that completes it, so it belongs to the span it ends; the
/// count 0 belongs to year 0.
pub open spec fn falls_in_year(s: int, year: int) -> bool {
    &&& 0 <= year
    &&& s <= seconds_before_year(year + 1)
    &&& year > 0 ==> seconds_before_year(year) < s
}

/// The count `r` of seconds within a year belongs to the month with the given
/// index, by the same rule as for years.
pub open spec fn falls_in_month(r: int, month_index: int, leap: bool) -> bool {
    &&& 0 <= month_index
    &&& r <= seconds_before_month(month_index + 1, leap)
    &&& month_index > 0 ==> seconds_before_month(month_index, leap) < r
}

/// The fields `c` are those of the count `s`: `s` belongs to the year and to
/// the month of `c`, and what is left of `s` after the whole years and months
/// splits into the day, hour, minute and second of `c`.
pub open spec fn is_decomposition(s: int, c: CalendarInstant) -> bool {
    let in_year = s - seconds_before_year(c.year);
    let in_month = in_year - seconds_before_month(c.month_index, is_leap(c.year));
    &&& falls_in_year(s, c.year)
    &&& falls_in_month(in_year, c.month_index, is_leap(c.year))
    &&& c.day_index == in_month / (SECONDS_PER_DAY as int)
    &&& c.hour == in_month / (SECONDS_PER_HOUR as int) % 24
    &&& c.minute == in_month / (SECONDS_PER_MINUTE as int) % 60
    &&& c.second == in_month % 60
}

/// The year that the count `s` belongs to.
pub open spec fn year_of(s: int) -> int {
    choose|year: int| falls_in_year(s, year)
}

/// The month that the count `r` of seconds within a year belongs to.
pub open spec fn month_of(r: int, leap: bool) -> int {
    choose|month_index: int| falls_in_month(r, month_index, leap)
}

/// The calendar fields of the count `s`.
pub open spec fn decompose(s: int) -> CalendarInstant {
    let year = year_of(s);
    let in_year = s - seconds_before_year(year);
    let month_index = month_of(in_year, is_leap(year));
    let in_month = in_year - seconds_before_month(month_index, is_leap(year));
    CalendarInstant {
        year,
        month_index,
        day_index: in_month / (SECONDS_PER_DAY as int),
        hour: in_month / (SECONDS_PER_HOUR as int) % 24,
        minute: in_month / (SECONDS_PER_MINUTE as int) % 60,
        second: in_month % 60,
    }
}

/// The fields name a day of the calendar and a time of day: the month is one
/// of twelve, the day is one of its month, and hour, minute and second are
/// below 24, 60 and 60.
pub open spec fn is_calendar_date(c: CalendarInstant) -> bool {
    &&& 0 <= c.year
    &&& 0 <= c.month_index < 12
    &&& 0 <= c.day_index < month_length(c.month_index, is_leap(c.year))
    &&& 0 <= c.hour < 24
    &&& 0 <= c.minute < 60
    &&& 0 <= c.second < 60
}

/// The fields are the first instant of a month: day index 0 at 00:00:00.
pub open spec fn is_month_start(c: CalendarInstant) -> bool {
    c.day_index == 0 && c.hour == 0 && c.minute == 0 && c.second == 0
}

/// The fields are the first instant of all: the start of year 0.
pub open spec fn is_epoch(c: CalendarInstant) -> bool {
    c.year == 0 && c.month_index == 0 && is_month_start(c)
}

/// `a` comes before `b` when the fields are compared in turn, year first.
pub open spec fn instant_before(a: CalendarInstant, b: CalendarInstant) -> bool {
    ||| a.year < b.year
    ||| a.year == b.year && a.month_index < b.month_index
    ||| a.year == b.year && a.month_index == b.month_index && a.day_index < b.day_index
    ||| a.year == b.year && a.month_index == b.month_index && a.day_index == b.day_index && a.hour
        < b.hour
    ||| a.year == b.year && a.month_index == b.month_index && a.day_index == b.day_index && a.hour
        == b.hour && a.minute < b.minute
    ||| a.year == b.year && a.month_index == b.month_index && a.day_index == b.day_index && a.hour
        == b.hour && a.minute == b.minute && a.second < b.second
}

/// Days in the month with the given index.
pub fn days_in_month(month_index: u64, is_leap_year: bool) -> (days: u64)
    ensures
        days == month_length(month_index as int, is_leap_year),
        28 <= days <= 31,
{
    if month_index == 1 {
        if is_leap_year {
            29
        } else {
            28
        }
    } else {
        let shift: u64 = if month_index > 6 {
            0
        } else {
            1
        };
        30 + (month_index + shift) % 2
    }
}

/// Days in a year.
pub fn days_in_year(is_leap_year: bool) -> (days: u64)
    ensures
        days == year_length(is_leap_year),
{
    if is_leap_year {
        366
    } else {
        365
    }
}

/// Seconds in the month with the given index.
pub fn seconds_per_month(month_index: u64, is_leap_year: bool) -> (seconds: u64)
    ensures
        seconds == month_length(month_index as int, is_leap_year) * SECONDS_PER_DAY,
{
    days_in_month(month_index, is_leap_year) * SECONDS_PER_DAY
}

/// Seconds in a year.
pub fn seconds_per_year(is_leap_year: bool) -> (seconds: u64)
    ensures
        seconds == year_length(is_leap_year) * SECONDS_PER_DAY,
{
    days_in_year(is_leap_year) * SECONDS_PER_DAY
}

/// Seconds from the start of year 0 to the Unix epoch, summed up: the
/// lengths of the years before 1970, leap years counted. The sum is the
/// constant `SECONDS_UNTIL_UNIX_EPOCH`.
pub fn seconds_until_unix_epoch() -> (seconds: u64)
    ensures
        seconds == seconds_before_year(UNIX_EPOCH_YEAR as int),
        seconds == SECONDS_UNTIL_UNIX_EPOCH,
{
    let mut seconds: u64 = 0;
    let mut year: u64 = 0;
    while year < UNIX_EPOCH_YEAR
        invariant
            year <= UNIX_EPOCH_YEAR,
            seconds == seconds_before_year(year as int),
        decreases UNIX_EPOCH_YEAR - year,
    {
        seconds += seconds_per_year(year % 4 == 0);
        year += 1;
    }
    seconds
}

/// The count of seconds since the start of year 0 for a count of seconds
/// since the Unix epoch.
pub fn seconds_since_y0_from_unix(unix_seconds: u64) -> (seconds: u64)
    requires
        unix_seconds + SECONDS_UNTIL_UNIX_EPOCH <= u64::MAX,
    ensures
        seconds == unix_seconds + seconds_before_year(UNIX_EPOCH_YEAR as int),
        seconds == unix_seconds + SECONDS_UNTIL_UNIX_EPOCH,
{
    SECONDS_UNTIL_UNIX_EPOCH + unix_seconds
}

} // verus!
