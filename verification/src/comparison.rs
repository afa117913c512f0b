//! Equality and order of moments: two moments compare as their counts of
//! seconds do.

use vstd::prelude::*;
use core::cmp::Ordering;
use crate::time_formatter::{TimeFormattable, TimeFormatter};

verus! {

impl PartialEq for TimeFormatter {
    fn eq(&self, other: &Self) -> (equal: bool) {
        self.seconds_since_y0() == other.seconds_since_y0()
    }
}

impl vstd::std_specs::cmp::PartialEqSpecImpl for TimeFormatter {
    open spec fn obeys_eq_spec() -> bool {
        true
    }

    open spec fn eq_spec(&self, other: &Self) -> bool {
        self.spec_seconds_since_y0() == other.spec_seconds_since_y0()
    }
}

impl PartialOrd for TimeFormatter {
    fn partial_cmp(&self, other: &Self) -> (order: Option<Ordering>) {
        let mine: u64 = self.seconds_since_y0();
        let theirs: u64 = other.seconds_since_y0();
        if mine < theirs {
            Some(Ordering::Less)
        } else if mine > theirs {
            Some(Ordering::Greater)
        } else {
            Some(Ordering::Equal)
        }
    }
}

impl vstd::std_specs::cmp::PartialOrdSpecImpl for TimeFormatter {
    open spec fn obeys_partial_cmp_spec() -> bool {
        true
    }

    open spec fn partial_cmp_spec(&self, other: &Self) -> Option<Ordering> {
        if self.spec_seconds_since_y0() < other.spec_seconds_since_y0() {
            Some(Ordering::Less)
        } else if self.spec_seconds_since_y0() > other.spec_seconds_since_y0() {
            Some(Ordering::Greater)
        } else {
            Some(Ordering::Equal)
        }
    }
}

} // verus!
