//! A moment held both as a count of seconds since the start of year 0 and as
//! the calendar fields of that count.

use vstd::prelude::*;
use core::time::Duration;
use crate::calendar::{
    compose, days_before_month, days_in_month, decompose, falls_in_month, falls_in_year,
    is_calendar_date, is_decomposition, is_epoch, is_leap, is_month_start, seconds_before_month,
    seconds_before_year, seconds_per_month, seconds_per_year, year_length, CalendarInstant,
    SECONDS_PER_DAY, SECONDS_PER_HOUR, SECONDS_PER_MINUTE,
};
use crate::calendar_laws::{
    lemma_decompose_compose, lemma_decompose_unique, lemma_decomposition_ranges,
    lemma_month_length_bounds, lemma_month_step, lemma_second_units, lemma_split_seconds,
    lemma_twelve_months, lemma_year_step, lemma_years_fit,
};
use crate::daylight_savings::{DaylightSavings, Moment, Window};

verus! {

/// A value that stands for a count of seconds since the start of year 0.
pub trait TimeFormattable {
    /// The count that the value stands for.
    fn seconds_since_y0(&self) -> u64;
}

impl TimeFormattable for u64 {
    fn seconds_since_y0(&self) -> (seconds: u64)
        ensures
            seconds == *self,
    {
        *self
    }
}

impl TimeFormattable for Duration {
    fn seconds_since_y0(&self) -> (seconds: u64)
        ensures
            seconds == duration_whole_seconds(*self),
    {
        self.as_secs()
    }
}

/// The whole seconds that a duration holds: what `Duration::as_secs` gives
/// for it.
pub uninterp spec fn duration_whole_seconds(duration: Duration) -> u64;

/// `Duration::as_secs` gives the whole seconds that a duration holds, the
/// same number for the same duration. Which number that is, is not claimed.
pub assume_specification[ Duration::as_secs ](duration: &Duration) -> (seconds: u64)
    ensures
        seconds == duration_whole_seconds(*duration),
;

/// A count of seconds since the start of year 0 together with its calendar
/// fields. The fields are always those of the count.
#[derive(Clone, Copy)]
pub struct TimeFormatter {
    seconds_since_y0: u64,
    year: u64,
    months: u8,
    days: u8,
    hours: u8,
    minutes: u8,
    seconds: u8,
}

impl View for TimeFormatter {
    type V = CalendarInstant;

    closed spec fn view(&self) -> CalendarInstant {
        CalendarInstant {
            year: self.year as int,
            month_index: self.months as int,
            day_index: self.days as int,
            hour: self.hours as int,
            minute: self.minutes as int,
            second: self.seconds as int,
        }
    }
}

impl TimeFormattable for TimeFormatter {
    fn seconds_since_y0(&self) -> (seconds: u64)
        ensures
            seconds == self.spec_seconds_since_y0(),
    {
        self.seconds_since_y0
    }
}

impl TimeFormatter {
    #[verifier::type_invariant]
    spec fn fields_belong_to_count(&self) -> bool {
        is_decomposition(self.seconds_since_y0 as int, self@)
    }

    /// The count of seconds since the start of year 0.
    pub closed spec fn spec_seconds_since_y0(&self) -> u64 {
        self.seconds_since_y0
    }

    /// The fields are those of the count of seconds, each in its range.
    pub open spec fn is_consistent(&self) -> bool {
        &&& self@ == decompose(self.spec_seconds_since_y0() as int)
        &&& is_decomposition(self.spec_seconds_since_y0() as int, self@)
        &&& 0 <= self@.year
        &&& 0 <= self@.month_index <= 11
        &&& 0 <= self@.day_index <= 31
        &&& 0 <= self@.hour <= 23
        &&& 0 <= self@.minute <= 59
        &&& 0 <= self@.second <= 59
    }

    /// The calendar fields that the arguments of a constructor name.
    pub open spec fn fields(
        year: u16,
        months: u8,
        days: u8,
        hours: u8,
        minutes: u8,
        seconds: u8,
    ) -> CalendarInstant {
        CalendarInstant {
            year: year as int,
            month_index: months as int,
            day_index: days as int,
            hour: hours as int,
            minute: minutes as int,
            second: seconds as int,
        }
    }

    /// The fields come back unchanged from the count of seconds that they
    /// make: they name a date of the calendar, and not the first instant of
    /// a month other than the very first.
    pub open spec fn survives_round_trip(c: CalendarInstant) -> bool {
        is_calendar_date(c) && (is_month_start(c) ==> is_epoch(c))
    }

    /// The seconds by which a window of daylight saving time moves this
    /// moment: the hours that the window gives for the month, day and hour
    /// of this moment.
    pub open spec fn daylight_shift(
        &self,
        start_month: u8,
        start_date: u8,
        start_hour: u8,
        end_month: u8,
        end_date: u8,
        end_hour: u8,
        hour_modification: i8,
    ) -> int {
        SECONDS_PER_HOUR * Window::configure(
            Moment {
                month_index: start_month - 1,
                day_index: start_date - 1,
                hour: start_hour as int,
            },
            Moment { month_index: end_month - 1, day_index: end_date - 1, hour: end_hour as int },
            hour_modification as int,
        ).modification_at(
            Moment {
                month_index: self@.month_index,
                day_index: self@.day_index,
                hour: self@.hour,
            },
        )
    }

    proof fn lemma_consistent(&self)
        requires
            is_decomposition(self.seconds_since_y0 as int, self@),
        ensures
            self.is_consistent(),
    {
        lemma_decompose_unique(self.seconds_since_y0 as int, self@);
        lemma_decomposition_ranges(self.seconds_since_y0 as int, self@);
        lemma_month_length_bounds(self@.month_index, is_leap(self@.year));
    }

    /// The moment that `time` stands for: the moment of the count of seconds
    /// that `time` gives.
    pub fn new<T: TimeFormattable>(time: T) -> (formatter: TimeFormatter)
        ensures
            call_ensures(T::seconds_since_y0, (&time,), formatter.spec_seconds_since_y0()),
            formatter.is_consistent(),
    {
        let seconds_since_y0: u64 = time.seconds_since_y0();
        Self::parse_formatted(seconds_since_y0)
    }

    /// The moment with the given date and time of day, month and day of the
    /// month counted from 1.
    pub fn new_date(year: u16, month: u8, date: u8, hours: u8, minutes: u8, seconds: u8) -> (time:
        TimeFormatter)
        requires
            1 <= month,
            1 <= date,
        ensures
            time.spec_seconds_since_y0() == compose(
                Self::fields(year, (month - 1) as u8, (date - 1) as u8, hours, minutes, seconds),
            ),
            time.is_consistent(),
            Self::survives_round_trip(
                Self::fields(year, (month - 1) as u8, (date - 1) as u8, hours, minutes, seconds),
            ) ==> time@ == Self::fields(
                year,
                (month - 1) as u8,
                (date - 1) as u8,
                hours,
                minutes,
                seconds,
            ),
    {
        TimeFormatter::new_date_raw(year, month - 1, date - 1, hours, minutes, seconds)
    }

    /// This moment moved by the hour offset of a yearly window of daylight
    /// saving time, where the offset applies to the month, day and hour of
    /// this moment. The window's months and days are counted from 1. The
    /// offset is added to the count of seconds, and the fields are those of
    /// the new count.
    pub fn with_daylight_saving_time(
        self,
        start_month: u8,
        start_date: u8,
        start_hour: u8,
        end_month: u8,
        end_date: u8,
        end_hour: u8,
        hour_modification: i8,
    ) -> (time: Self)
        requires
            1 <= start_month,
            1 <= start_date,
            1 <= end_month,
            1 <= end_date,
            0 <= self.spec_seconds_since_y0() + self.daylight_shift(
                start_month,
                start_date,
                start_hour,
                end_month,
                end_date,
                end_hour,
                hour_modification,
            ) <= u64::MAX,
        ensures
            time.spec_seconds_since_y0() == self.spec_seconds_since_y0() + self.daylight_shift(
                start_month,
                start_date,
                start_hour,
                end_month,
                end_date,
                end_hour,
                hour_modification,
            ),
            time.is_consistent(),
    {
        proof {
            lemma_second_units();
        }
        let savings: DaylightSavings = DaylightSavings::new(
            start_month,
            start_date,
            start_hour,
            end_month,
            end_date,
            end_hour,
            hour_modification,
        );
        let modification: i8 = savings.get_modification(self.months, self.days, self.hours);
        let seconds_since_y0: u64 = if modification >= 0 {
            self.seconds_since_y0 + (modification as u64) * SECONDS_PER_HOUR
        } else {
            self.seconds_since_y0 - ((-(modification as i16)) as u64) * SECONDS_PER_HOUR
        };
        Self::parse_formatted(seconds_since_y0)
    }

    /// The moment with the given date and time of day, month and day of the
    /// month counted from 0: its count of seconds is that of the whole years
    /// before `year`, the whole months before `months`, and the days, hours,
    /// minutes and seconds given.
    pub fn new_date_raw(year: u16, months: u8, days: u8, hours: u8, minutes: u8, seconds: u8) -> (time:
        TimeFormatter)
        ensures
            time.spec_seconds_since_y0() == compose(
                Self::fields(year, months, days, hours, minutes, seconds),
            ),
            time.is_consistent(),
            Self::survives_round_trip(Self::fields(year, months, days, hours, minutes, seconds))
                ==> time@ == Self::fields(year, months, days, hours, minutes, seconds),
    {
        let (year_u64, months_u64, days_u64, hours_u64, minutes_u64, seconds_u64) = (
            year as u64,
            months as u64,
            days as u64,
            hours as u64,
            minutes as u64,
            seconds as u64,
        );
        // A leap day counts once its year is over.
        let leap_days: u64 = if year_u64 == 0 {
            0
        } else {
            (year_u64 - 1) / 4 + 1
        };

        let days_in_years: u64 = year_u64 * 365 + leap_days;
        let is_leap_year: bool = year_u64 % 4 == 0;
        let mut days_in_months: u64 = 0;
        let mut month_index: u64 = 0;
        while month_index < months_u64
            invariant
                month_index <= months_u64 <= u8::MAX,
                days_in_months == days_before_month(month_index as int, is_leap_year),
                days_in_months <= 31 * month_index,
            decreases months_u64 - month_index,
        {
            proof {
                lemma_month_step(month_index as int, is_leap_year);
            }
            days_in_months += days_in_month(month_index, is_leap_year);
            month_index += 1;
        }
        let seconds_since_y0: u64 = (((days_in_years + days_in_months + days_u64) * 24 + hours_u64)
            * 60 + minutes_u64) * 60 + seconds_u64;

        let time = TimeFormatter::new(seconds_since_y0);
        proof {
            let given = Self::fields(year, months, days, hours, minutes, seconds);
            if Self::survives_round_trip(given) {
                lemma_decompose_compose(given);
            }
        }
        time
    }

    /// Takes `seconds_to_take` off the remaining seconds where more than that
    /// remain, and says whether it did. A remainder of exactly
    /// `seconds_to_take` stays whole.
    pub fn take_formatted_time(remaining_seconds_ref: &mut u64, seconds_to_take: u64) -> (taken:
        bool)
        ensures
            taken == (*old(remaining_seconds_ref) > seconds_to_take),
            *final(remaining_seconds_ref) == if taken {
                *old(remaining_seconds_ref) - seconds_to_take
            } else {
                *old(remaining_seconds_ref) as int
            },
    {
        if *remaining_seconds_ref > seconds_to_take {
            *remaining_seconds_ref -= seconds_to_take;
            true
        } else {
            false
        }
    }

    /// The moment of a count of seconds since the start of year 0: whole
    /// years are taken off the count while more than the year's length
    /// remains, then whole months in the same way, and what is left splits
    /// into days, hours, minutes and seconds.
    pub fn parse_formatted(seconds_since_y0: u64) -> (time: TimeFormatter)
        ensures
            time.spec_seconds_since_y0() == seconds_since_y0,
            time.is_consistent(),
    {
        proof {
            lemma_second_units();
        }
        let mut remaining_seconds: u64 = seconds_since_y0;

        let mut year: u64 = 0;
        while Self::take_formatted_time(&mut remaining_seconds, seconds_per_year(year % 4 == 0))
            invariant
                remaining_seconds + seconds_before_year(year as int) == seconds_since_y0,
                year > 0 ==> remaining_seconds > 0,
            decreases remaining_seconds,
        {
            proof {
                lemma_second_units();
                lemma_year_step(year as int);
                lemma_years_fit(year as int + 1);
            }
            year += 1;
        }
        let is_leap_year: bool = year % 4 == 0;
        let ghost in_year = remaining_seconds as int;
        proof {
            lemma_year_step(year as int);
            assert(falls_in_year(seconds_since_y0 as int, year as int));
        }

        let mut months: u8 = 0;
        while Self::take_formatted_time(
            &mut remaining_seconds,
            seconds_per_month(months as u64, is_leap_year),
        )
            invariant
                remaining_seconds + seconds_before_month(months as int, is_leap_year) == in_year,
                months > 0 ==> remaining_seconds > 0,
                months < 12,
                in_year <= year_length(is_leap_year) * SECONDS_PER_DAY,
            decreases remaining_seconds,
        {
            proof {
                lemma_second_units();
                lemma_month_step(months as int, is_leap_year);
                lemma_month_length_bounds(months as int, is_leap_year);
                lemma_twelve_months(is_leap_year);
                assert(months < 11);
            }
            months += 1;
        }
        let ghost in_month = remaining_seconds as int;
        proof {
            lemma_month_step(months as int, is_leap_year);
            lemma_month_length_bounds(months as int, is_leap_year);
            assert(falls_in_month(in_year, months as int, is_leap_year));
            lemma_split_seconds(in_month);
        }

        let days = (remaining_seconds / SECONDS_PER_DAY) as u8;
        remaining_seconds %= SECONDS_PER_DAY;

        let hours = (remaining_seconds / SECONDS_PER_HOUR) as u8;
        remaining_seconds %= SECONDS_PER_HOUR;

        let minutes = (remaining_seconds / SECONDS_PER_MINUTE) as u8;
        remaining_seconds %= SECONDS_PER_MINUTE;

        let seconds = remaining_seconds as u8;

        let time = TimeFormatter { seconds_since_y0, year, months, days, hours, minutes, seconds };
        proof {
            time.lemma_consistent();
        }
        time
    }

    /// The year, counted from 0.
    pub fn year(&self) -> (year: u64)
        ensures
            year == self@.year,
            self.is_consistent(),
    {
        proof {
            use_type_invariant(self);
            self.lemma_consistent();
        }
        self.year
    }

    /// Whether the year is a leap year.
    pub fn is_leap_year(&self) -> (leap: bool)
        ensures
            leap == is_leap(self@.year),
            self.is_consistent(),
    {
        proof {
            use_type_invariant(self);
            self.lemma_consistent();
        }
        self.year % 4 == 0
    }

    /// The month, counted from 0.
    pub fn months(&self) -> (months: u8)
        ensures
            months == self@.month_index,
            months <= 11,
            self.is_consistent(),
    {
        proof {
            use_type_invariant(self);
            self.lemma_consistent();
        }
        self.months
    }

    /// The month, counted from 1.
    pub fn month(&self) -> (month: u8)
        ensures
            month == self@.month_index + 1,
            1 <= month <= 12,
            self.is_consistent(),
    {
        proof {
            use_type_invariant(self);
            self.lemma_consistent();
        }
        self.months + 1
    }

    /// The day of the month, counted from 0.
    pub fn days(&self) -> (days: u8)
        ensures
            days == self@.day_index,
            days <= 31,
            self.is_consistent(),
    {
        proof {
            use_type_invariant(self);
            self.lemma_consistent();
        }
        self.days
    }

    /// The day of the month, counted from 1.
    pub fn date(&self) -> (date: u8)
        ensures
            date == self@.day_index + 1,
            1 <= date <= 32,
            self.is_consistent(),
    {
        proof {
            use_type_invariant(self);
            self.lemma_consistent();
        }
        self.days + 1
    }

    /// The hour of the day.
    pub fn hours(&self) -> (hours: u8)
        ensures
            hours == self@.hour,
            hours <= 23,
            self.is_consistent(),
    {
        proof {
            use_type_invariant(self);
            self.lemma_consistent();
        }
        self.hours
    }

    /// The minute of the hour.
    pub fn minutes(&self) -> (minutes: u8)
        ensures
            minutes == self@.minute,
            minutes <= 59,
            self.is_consistent(),
    {
        proof {
            use_type_invariant(self);
            self.lemma_consistent();
        }
        self.minutes
    }

    /// The second of the minute.
    pub fn seconds(&self) -> (seconds: u8)
        ensures
            seconds == self@.second,
            seconds <= 59,
            self.is_consistent(),
    {
        proof {
            use_type_invariant(self);
            self.lemma_consistent();
        }
        self.seconds
    }
}

} // verus!
