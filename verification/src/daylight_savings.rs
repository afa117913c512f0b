//! A yearly window of daylight saving time: from one moment of the year to
//! another, an hour offset applies. A window whose end comes before its
//! start in the year runs over the turn of the year.

use vstd::prelude::*;

verus! {

/// A moment of the year, to the hour.
pub struct Moment {
    pub month_index: int,
    pub day_index: int,
    pub hour: int,
}

impl Moment {
    /// `self` comes before `other` in the year: month, day and hour are
    /// compared in turn.
    pub open spec fn precedes(self, other: Moment) -> bool {
        ||| self.month_index < other.month_index
        ||| self.month_index == other.month_index && self.day_index < other.day_index
        ||| self.month_index == other.month_index && self.day_index == other.day_index && self.hour
            < other.hour
    }
}

/// A window as it is stored: `start` does not come after `end`, and
/// `flipped` says that the two were given the other way round.
pub struct Window {
    pub start: Moment,
    pub end: Moment,
    pub hour_modification: int,
    pub flipped: bool,
}

impl Window {
    /// The window for the boundaries as given: where `end` comes before
    /// `start` the two are stored swapped and the window is marked flipped.
    pub open spec fn configure(start: Moment, end: Moment, hour_modification: int) -> Window {
        if end.precedes(start) {
            Window { start: end, end: start, hour_modification, flipped: true }
        } else {
            Window { start, end, hour_modification, flipped: false }
        }
    }

    /// The stored start does not come after the stored end.
    pub open spec fn is_ordered(self) -> bool {
        !self.end.precedes(self.start)
    }

    /// The moment lies between the stored boundaries: not before the start,
    /// and before the end.
    pub open spec fn contains(self, moment: Moment) -> bool {
        !moment.precedes(self.start) && moment.precedes(self.end)
    }

    /// The offset applies at the moment: between the boundaries of a window
    /// that is not flipped, outside them of one that is.
    pub open spec fn applies_at(self, moment: Moment) -> bool {
        self.contains(moment) != self.flipped
    }

    /// The hours to add at the moment.
    pub open spec fn modification_at(self, moment: Moment) -> int {
        if self.applies_at(moment) {
            self.hour_modification
        } else {
            0
        }
    }
}

/// A yearly window of daylight saving time with its hour offset.
#[derive(Clone, Copy)]
pub struct DaylightSavings {
    start_month_index: u8,
    start_day_index: u8,
    start_hour: u8,
    end_month_index: u8,
    end_day_index: u8,
    end_hour: u8,
    hour_modification: i8,
    flipped: bool,
}

impl View for DaylightSavings {
    type V = Window;

    closed spec fn view(&self) -> Window {
        Window {
            start: Moment {
                month_index: self.start_month_index as int,
                day_index: self.start_day_index as int,
                hour: self.start_hour as int,
            },
            end: Moment {
                month_index: self.end_month_index as int,
                day_index: self.end_day_index as int,
                hour: self.end_hour as int,
            },
            hour_modification: self.hour_modification as int,
            flipped: self.flipped,
        }
    }
}

impl DaylightSavings {
    #[verifier::type_invariant]
    spec fn start_not_after_end(&self) -> bool {
        self@.is_ordered()
    }

    /// The window from the start to the end that are given, months and days
    /// counted from 1, with the hours to add while it lasts.
    pub fn new(
        start_month: u8,
        start_date: u8,
        start_hour: u8,
        end_month: u8,
        end_date: u8,
        end_hour: u8,
        hour_modification: i8,
    ) -> (savings: DaylightSavings)
        requires
            1 <= start_month,
            1 <= start_date,
            1 <= end_month,
            1 <= end_date,
        ensures
            savings@ == Window::configure(
                Moment {
                    month_index: start_month - 1,
                    day_index: start_date - 1,
                    hour: start_hour as int,
                },
                Moment {
                    month_index: end_month - 1,
                    day_index: end_date - 1,
                    hour: end_hour as int,
                },
                hour_modification as int,
            ),
            savings@.is_ordered(),
    {
        let flipped: bool = (end_month < start_month) || (end_month == start_month && end_date
            < start_date) || (end_month == start_month && end_date == start_date && end_hour
            < start_hour);
        if !flipped {
            DaylightSavings {
                start_month_index: start_month - 1,
                start_day_index: start_date - 1,
                start_hour,
                end_month_index: end_month - 1,
                end_day_index: end_date - 1,
                end_hour,
                hour_modification,
                flipped,
            }
        } else {
            DaylightSavings {
                end_month_index: start_month - 1,
                end_day_index: start_date - 1,
                end_hour: start_hour,
                start_month_index: end_month - 1,
                start_day_index: end_date - 1,
                start_hour: end_hour,
                hour_modification,
                flipped,
            }
        }
    }

    /// Whether the moment lies between the stored boundaries.
    pub fn should_apply_modification(&self, month_index: u8, day_index: u8, hour: u8) -> (inside:
        bool)
        ensures
            inside == self@.contains(
                Moment {
                    month_index: month_index as int,
                    day_index: day_index as int,
                    hour: hour as int,
                },
            ),
    {
        // Too early.
        if month_index < self.start_month_index {
            return false;
        } else if month_index == self.start_month_index {
            if day_index < self.start_day_index {
                return false;
            } else if day_index == self.start_day_index && hour < self.start_hour {
                return false;
            }
        }
        // Too late.
        if month_index > self.end_month_index {
            return false;
        } else if month_index == self.end_month_index {
            if day_index > self.end_day_index {
                return false;
            } else if day_index == self.end_day_index && hour >= self.end_hour {
                return false;
            }
        }
        true
    }

    /// The hours to add at the moment: the offset where it applies, else 0.
    pub fn get_modification(&self, month_index: u8, day_index: u8, hour: u8) -> (modification: i8)
        ensures
            modification == self@.modification_at(
                Moment {
                    month_index: month_index as int,
                    day_index: day_index as int,
                    hour: hour as int,
                },
            ),
    {
        let should_apply: bool = self.should_apply_modification(month_index, day_index, hour);
        if should_apply != self.flipped {
            self.hour_modification
        } else {
            0
        }
    }
}

/// A configured window is stored in order.
pub proof fn lemma_configure_ordered(start: Moment, end: Moment, hour_modification: int)
    ensures
        Window::configure(start, end, hour_modification).is_ordered(),
{
}

/// A window whose end is not before its start applies exactly from the start
/// up to, and not at, the end.
pub proof fn lemma_window_within_year(
    start: Moment,
    end: Moment,
    hour_modification: int,
    moment: Moment,
)
    requires
        !end.precedes(start),
    ensures
        Window::configure(start, end, hour_modification).applies_at(moment) <==> !moment.precedes(
            start,
        ) && moment.precedes(end),
{
}

/// A window whose end is before its start runs over the turn of the year:
/// it applies from the start on and before the end.
pub proof fn lemma_window_over_new_year(
    start: Moment,
    end: Moment,
    hour_modification: int,
    moment: Moment,
)
    requires
        end.precedes(start),
    ensures
        Window::configure(start, end, hour_modification).applies_at(moment) <==> !moment.precedes(
            start,
        ) || moment.precedes(end),
{
}

/// Giving the two boundaries the other way round turns the window inside
/// out: where the boundaries differ, the offset applies at a moment under
/// exactly one of the two windows.
pub proof fn lemma_swapped_window_inverts(
    start: Moment,
    end: Moment,
    hour_modification: int,
    moment: Moment,
)
    requires
        start != end,
    ensures
        Window::configure(start, end, hour_modification).applies_at(moment) != Window::configure(
            end,
            start,
            hour_modification,
        ).applies_at(moment),
{
}

/// A window whose boundaries coincide never applies.
pub proof fn lemma_empty_window(boundary: Moment, hour_modification: int, moment: Moment)
    ensures
        !Window::configure(boundary, boundary, hour_modification).applies_at(moment),
{
}

} // verus!
