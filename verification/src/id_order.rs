//! The order of identifiers.

use crate::order_id::OrderID;
use core::cmp::Ordering;
use vstd::prelude::*;

verus! {

impl PartialOrd for OrderID {
    /// Compares two identifiers, the upper half first.
    fn partial_cmp(&self, other: &OrderID) -> (r: Option<Ordering>) {
        if self.high() != other.high() {
            if self.high() < other.high() {
                Some(Ordering::Less)
            } else {
                Some(Ordering::Greater)
            }
        } else if self.low() != other.low() {
            if self.low() < other.low() {
                Some(Ordering::Less)
            } else {
                Some(Ordering::Greater)
            }
        } else {
            Some(Ordering::Equal)
        }
    }
}

impl vstd::std_specs::cmp::PartialOrdSpecImpl for OrderID {
    open spec fn obeys_partial_cmp_spec() -> bool {
        true
    }

    /// Identifiers are ordered as the 128-bit numbers they are.
    open spec fn partial_cmp_spec(&self, other: &OrderID) -> Option<Ordering> {
        if self@ < other@ {
            Some(Ordering::Less)
        } else if self@ > other@ {
            Some(Ordering::Greater)
        } else {
            Some(Ordering::Equal)
        }
    }
}

} // verus!
