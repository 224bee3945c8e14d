//! Time managing.
//!
//! A *time generator* is a value whose type implements [`TimeGenerator`].
//! Schedulers need several properties about time:
//!
//!   - access to *the current time*, which can represent anything from a
//!     simulation frame to a real-world clock;
//!   - the fact that time passes: it can be ticked *forward* but also
//!     *backwards*, by a configurable step called the *delta*;
//!   - resetting the generator back to its initial value;
//!   - setting the time explicitly.
//!
//! The time domain is `i64`. Stepping saturates at the ends of the `i64`
//! range, so every operation is infallible: there is no overflow error and
//! none of the operations panics.

use vstd::prelude::*;

pub mod simple;

verus! {

/// `v` clamped into the `i64` range.
pub open spec fn sat_i64(v: int) -> i64 {
    if v > i64::MAX as int {
        i64::MAX
    } else if v < i64::MIN as int {
        i64::MIN
    } else {
        v as i64
    }
}

/// `a + b`, saturating at the ends of the `i64` range.
pub fn sat_add(a: i64, b: i64) -> (r: i64)
    ensures
        r == sat_i64(a as int + b as int),
{
    if b >= 0 {
        if a > i64::MAX - b { i64::MAX } else { a + b }
    } else {
        if a < i64::MIN - b { i64::MIN } else { a + b }
    }
}

/// `a - b`, saturating at the ends of the `i64` range.
pub fn sat_sub(a: i64, b: i64) -> (r: i64)
    ensures
        r == sat_i64(a as int - b as int),
{
    if b >= 0 {
        if a < i64::MIN + b { i64::MIN } else { a - b }
    } else {
        if a > i64::MAX + b { i64::MAX } else { a - b }
    }
}

/// Set of types that can handle time.
///
/// A time generator provides a way to get the current time, tick it forward
/// or backwards by its delta, reset it to its initial value, set it
/// explicitly, and change the delta used by future ticks.
///
/// Both `tick` and `untick` return the time *before* stepping — "the time
/// you were just at", not the time stepped to. Callers rely on this ordering
/// for first-step determinism: the first `tick` after a `reset` returns the
/// reset value itself.
pub trait TimeGenerator: Sized {
    /// The present time value.
    spec fn spec_current(&self) -> i64;

    /// The value `reset` returns the current time to.
    spec fn spec_reset_value(&self) -> i64;

    /// The step applied by `tick` and `untick`.
    spec fn spec_delta(&self) -> i64;

    /// Get the current time, without side effects.
    fn current(&self) -> (t: i64)
        ensures
            t == self.spec_current(),
    ;

    /// Tick time forward: return the pre-tick time, then advance the current
    /// time by the delta.
    fn tick(&mut self) -> (t: i64)
        ensures
            t == old(self).spec_current(),
            final(self).spec_current() == sat_i64(
                old(self).spec_current() as int + old(self).spec_delta() as int,
            ),
            final(self).spec_reset_value() == old(self).spec_reset_value(),
            final(self).spec_delta() == old(self).spec_delta(),
    ;

    /// Tick time backwards: return the pre-untick time, then decrement the
    /// current time by the delta.
    fn untick(&mut self) -> (t: i64)
        ensures
            t == old(self).spec_current(),
            final(self).spec_current() == sat_i64(
                old(self).spec_current() as int - old(self).spec_delta() as int,
            ),
            final(self).spec_reset_value() == old(self).spec_reset_value(),
            final(self).spec_delta() == old(self).spec_delta(),
    ;

    /// Reset the current time to the generator's reset value.
    fn reset(&mut self)
        ensures
            final(self).spec_current() == old(self).spec_reset_value(),
            final(self).spec_reset_value() == old(self).spec_reset_value(),
            final(self).spec_delta() == old(self).spec_delta(),
    ;

    /// Unconditionally overwrite the current time with `value`.
    fn set(&mut self, value: i64)
        ensures
            final(self).spec_current() == value,
            final(self).spec_reset_value() == old(self).spec_reset_value(),
            final(self).spec_delta() == old(self).spec_delta(),
    ;

    /// Replace the step used by future `tick` and `untick` calls; the
    /// current time is unaffected.
    fn change_delta(&mut self, delta: i64)
        ensures
            final(self).spec_current() == old(self).spec_current(),
            final(self).spec_reset_value() == old(self).spec_reset_value(),
            final(self).spec_delta() == delta,
    ;
}

} // verus!
