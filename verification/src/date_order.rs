//! The order of timestamps.

use crate::date::Date;
use core::cmp::Ordering;
use vstd::prelude::*;

verus! {

impl PartialOrd for Date {
    /// Compares two timestamps field by field, the year first.
    fn partial_cmp(&self, other: &Date) -> (r: Option<Ordering>) {
        if self.year() != other.year() {
            if self.year() < other.year() {
                Some(Ordering::Less)
            } else {
                Some(Ordering::Greater)
            }
        } else if self.month() != other.month() {
            if self.month() < other.month() {
                Some(Ordering::Less)
            } else {
                Some(Ordering::Greater)
            }
        } else if self.day() != other.day() {
            if self.day() < other.day() {
                Some(Ordering::Less)
            } else {
                Some(Ordering::Greater)
            }
        } else if self.hour() != other.hour() {
            if self.hour() < other.hour() {
                Some(Ordering::Less)
            } else {
                Some(Ordering::Greater)
            }
        } else if self.minute() != other.minute() {
            if self.minute() < other.minute() {
                Some(Ordering::Less)
            } else {
                Some(Ordering::Greater)
            }
        } else if self.second() != other.second() {
            if self.second() < other.second() {
                Some(Ordering::Less)
            } else {
                Some(Ordering::Greater)
            }
        } else if self.microsecond() != other.microsecond() {
            if self.microsecond() < other.microsecond() {
                Some(Ordering::Less)
            } else {
                Some(Ordering::Greater)
            }
        } else {
            Some(Ordering::Equal)
        }
    }
}

impl vstd::std_specs::cmp::PartialOrdSpecImpl for Date {
    open spec fn obeys_partial_cmp_spec() -> bool {
        true
    }

    /// Timestamps are ordered chronologically, and two of them are never
    /// incomparable.
    open spec fn partial_cmp_spec(&self, other: &Date) -> Option<Ordering> {
        if self@.precedes(other@) {
            Some(Ordering::Less)
        } else if other@.precedes(self@) {
            Some(Ordering::Greater)
        } else {
            Some(Ordering::Equal)
        }
    }
}

} // verus!
