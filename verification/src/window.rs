//! Time windows and related.
//!
//! A time window is just a simple pair of time points, giving a range of
//! time that is inclusive in its left (start) bound and exclusive in its
//! right (end) bound. The type of time point is a type variable on
//! [`Window`], so a window can also describe a range over a caller's own
//! time representation before it is translated to the crate's `i64` domain.
//!
//! A window over `i64` can be mapped to a behavior, producing a
//! [`MappedWindow`]: a varying value inside that window of time, ready to be
//! run by a [`RandomAccessScheduler`](crate::scheduler::RandomAccessScheduler).

use vstd::prelude::*;

use crate::behavior::Behavior;

verus! {

/// A pure time window covering `[start, end)`.
#[derive(Clone, Copy, Debug)]
pub struct Window<T> {
    /// Start time (inclusive) of the window.
    pub start: T,
    /// End time (exclusive) of the window.
    pub end: T,
}

impl<T> Window<T> {
    /// Create a new time window.
    pub fn new(start: T, end: T) -> (r: Window<T>)
        ensures
            r.start == start,
            r.end == end,
    {
        Window { start, end }
    }
}

impl Window<i64> {
    /// Map a behavior to evaluate inside the window.
    pub fn map(self, carry: Behavior) -> (r: MappedWindow)
        ensures
            r.window == self,
            r.carry == carry,
    {
        MappedWindow { window: self, carry }
    }
}

/// A behavior scoped to a time window.
#[derive(Clone, Copy, Debug)]
pub struct MappedWindow {
    /// The window inside which the behavior is evaluated.
    pub window: Window<i64>,
    /// The behavior evaluated while the window is active.
    pub carry: Behavior,
}

} // verus!
