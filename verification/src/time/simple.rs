//! The reference linear time generator.

use vstd::prelude::*;

use crate::time::sat_add;
use crate::time::sat_sub;
use crate::time::TimeGenerator;

verus! {

/// A simple [`TimeGenerator`] that steps linearly: ticking adds a fixed
/// delta to the current time, unticking subtracts it, both saturating at
/// the ends of the `i64` range.
pub struct SimpleTimeGenerator {
    current: i64,
    reset_value: i64,
    delta: i64,
}

impl SimpleTimeGenerator {
    /// Create a generator whose time starts at `reset_value` and moves by
    /// `delta` per tick.
    pub fn new(reset_value: i64, delta: i64) -> (r: SimpleTimeGenerator)
        ensures
            r.spec_current() == reset_value,
            r.spec_reset_value() == reset_value,
            r.spec_delta() == delta,
    {
        SimpleTimeGenerator { current: reset_value, reset_value, delta }
    }
}

impl TimeGenerator for SimpleTimeGenerator {
    closed spec fn spec_current(&self) -> i64 {
        self.current
    }

    closed spec fn spec_reset_value(&self) -> i64 {
        self.reset_value
    }

    closed spec fn spec_delta(&self) -> i64 {
        self.delta
    }

    fn current(&self) -> (t: i64) {
        self.current
    }

    fn tick(&mut self) -> (t: i64) {
        let t = self.current;
        self.current = sat_add(self.current, self.delta);
        t
    }

    fn untick(&mut self) -> (t: i64) {
        let t = self.current;
        self.current = sat_sub(self.current, self.delta);
        t
    }

    fn reset(&mut self) {
        self.current = self.reset_value;
    }

    fn set(&mut self, value: i64) {
        self.current = value;
    }

    fn change_delta(&mut self, delta: i64) {
        self.delta = delta;
    }
}

} // verus!
