//! The comparisons of the task list, in the vocabulary of std.

use crate::bnotes::BNotes;
use crate::storage::Storage;
use crate::task::opt_text;
use crate::tasks::{priority_order, priority_sign, urgency_order, urgency_sign, Sign};
use std::cmp::Ordering;
use vstd::prelude::*;

verus! {

/// The ordering that a sign stands for.
pub open spec fn ordering_of(sign: Sign) -> Ordering {
    match sign {
        Sign::Before => Ordering::Less,
        Sign::Same => Ordering::Equal,
        Sign::After => Ordering::Greater,
    }
}

/// The ordering that a sign stands for.
pub fn to_ordering(sign: Sign) -> (r: Ordering)
    ensures
        r == ordering_of(sign),
{
    match sign {
        Sign::Before => Ordering::Less,
        Sign::Same => Ordering::Equal,
        Sign::After => Ordering::Greater,
    }
}

impl<S: Storage> BNotes<S> {
    /// Compares two urgencies: `!!!` comes before `!!`, that before `!`,
    /// that before any other urgency, and no urgency comes last.
    pub fn compare_urgency(a: &Option<String>, b: &Option<String>) -> (r: Ordering)
        ensures
            r == ordering_of(urgency_sign(opt_text(*a), opt_text(*b))),
    {
        to_ordering(urgency_order(a, b))
    }

    /// Compares two priorities: in the order of their texts, so that `A`
    /// comes before `B`, and no priority comes last.
    pub fn compare_priority(a: &Option<String>, b: &Option<String>) -> (r: Ordering)
        ensures
            r == ordering_of(priority_sign(opt_text(*a), opt_text(*b))),
    {
        to_ordering(priority_order(a, b))
    }
}

} // verus!
