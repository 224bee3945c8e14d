//! Time-indexed producers of optional values.
//!
//! A [`Behavior`] is a pure mapping from a time value to an optional output
//! value. It is the unit of reusable logic: the same behavior may back any
//! number of cuts. Returning `None` signals that the behavior is *disabled*
//! at that instant, which makes any cut consulting it behave as if inactive
//! for blending purposes.

use vstd::prelude::*;

verus! {

/// A pure, time-indexed producer of optional values.
///
/// The output of a behavior depends on the queried time alone, so querying
/// it twice at the same instant yields the same result.
#[derive(Clone, Copy, Debug, PartialEq, Eq, Structural)]
pub enum Behavior {
    /// Produces no value at any time: permanently disabled.
    Silent,
    /// Produces the same value at every time.
    Constant(i64),
    /// Produces the queried time itself.
    Time,
    /// Produces a fixed value, but only on the instants of `[from, until)`;
    /// outside that range it is disabled.
    Gated { value: i64, from: i64, until: i64 },
}

impl Behavior {
    /// What this behavior produces at time `t`.
    pub open spec fn spec_react(self, t: i64) -> Option<i64> {
        match self {
            Behavior::Silent => None,
            Behavior::Constant(v) => Some(v),
            Behavior::Time => Some(t),
            Behavior::Gated { value, from, until } => if from <= t < until {
                Some(value)
            } else {
                None
            },
        }
    }

    /// Evaluate the behavior at time `t`.
    pub fn react(&self, t: i64) -> (r: Option<i64>)
        ensures
            r == self.spec_react(t),
    {
        match self {
            Behavior::Silent => None,
            Behavior::Constant(v) => Some(*v),
            Behavior::Time => Some(t),
            Behavior::Gated { value, from, until } => if *from <= t && t < *until {
                Some(*value)
            } else {
                None
            },
        }
    }
}

} // verus!
