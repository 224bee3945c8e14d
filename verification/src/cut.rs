//! Cuts: behaviors restricted to bounded time intervals, with an optional
//! blend policy.
//!
//! A [`Cut`] covers the half-open interval `[start_t, stop_t)`: the start is
//! inclusive, the stop exclusive. Construction fails when `start_t > stop_t`.
//!
//! A cut may carry a [`Blend`], which describes how *this* cut's output
//! should be merged into a result accumulated from cuts considered before
//! it — ownership of the merge policy sits with the later-considered cut,
//! not the earlier one. The merge rule itself is [`Cut::react_blend`].

use vstd::prelude::*;

use crate::behavior::Behavior;

verus! {

/// A pure function combining two simultaneously produced values.
///
/// The left argument is the value accumulated so far, the right argument the
/// value produced by the cut that carries the blend.
#[derive(Clone, Copy, Debug, PartialEq, Eq, Structural)]
pub enum Blend {
    /// The sum of the two values, saturating at the ends of the `i64` range.
    Sum,
    /// The smaller of the two values.
    Min,
    /// The larger of the two values.
    Max,
}

/// Clamp a mathematical integer into the `i64` range.
pub open spec fn clamp_i64(v: int) -> i64 {
    if v > i64::MAX as int {
        i64::MAX
    } else if v < i64::MIN as int {
        i64::MIN
    } else {
        v as i64
    }
}

impl Blend {
    /// The value this blend produces from an accumulated value `a` and an
    /// incoming value `b`.
    pub open spec fn spec_apply(self, a: i64, b: i64) -> i64 {
        match self {
            Blend::Sum => clamp_i64(a as int + b as int),
            Blend::Min => if a <= b { a } else { b },
            Blend::Max => if a >= b { a } else { b },
        }
    }

    /// Combine an accumulated value `a` with an incoming value `b`.
    pub fn apply(&self, a: i64, b: i64) -> (r: i64)
        ensures
            r == self.spec_apply(a, b),
    {
        match self {
            Blend::Sum => {
                if b >= 0 {
                    if a > i64::MAX - b { i64::MAX } else { a + b }
                } else {
                    if a < i64::MIN - b { i64::MIN } else { a + b }
                }
            },
            Blend::Min => if a <= b { a } else { b },
            Blend::Max => if a >= b { a } else { b },
        }
    }
}

/// A behavior bound to a concrete half-open time interval `[start_t,
/// stop_t)`, with an optional blend policy.
#[derive(Clone, Copy, Debug, PartialEq, Eq, Structural)]
pub struct Cut {
    /// Start of the interval, inclusive.
    pub start_t: i64,
    /// Stop of the interval, exclusive.
    pub stop_t: i64,
    /// The behavior consulted while the cut is active.
    pub behavior: Behavior,
    /// How this cut's output merges into a result accumulated from cuts
    /// considered before it; `None` discards this cut's output whenever an
    /// earlier value is already present.
    pub blend: Option<Blend>,
}

/// A cut's bounds are ordered: its duration is non-negative.
pub open spec fn cut_wf(c: Cut) -> bool {
    c.start_t <= c.stop_t
}

/// Whether the instant `t` lies inside the cut's interval: start inclusive,
/// stop exclusive.
pub open spec fn cut_contains(c: Cut, t: i64) -> bool {
    c.start_t <= t && t < c.stop_t
}

/// Two cuts cover no common instant.
pub open spec fn cuts_disjoint(a: Cut, b: Cut) -> bool {
    a.stop_t <= b.start_t || b.stop_t <= a.start_t
}

impl Cut {
    /// Bind `behavior` to the interval `[start_t, stop_t)` with no blend.
    ///
    /// Fails exactly when `start_t > stop_t`; no partial cut escapes.
    pub fn new(start_t: i64, stop_t: i64, behavior: Behavior) -> (r: Option<Cut>)
        ensures
            start_t <= stop_t ==> r == Some(
                Cut { start_t, stop_t, behavior, blend: None::<Blend> },
            ),
            start_t > stop_t ==> r is None,
    {
        if start_t <= stop_t {
            Some(Cut { start_t, stop_t, behavior, blend: None })
        } else {
            None
        }
    }

    /// The same cut, now carrying `blend` as its merge policy.
    pub fn with_blend(self, blend: Blend) -> (r: Cut)
        ensures
            r == (Cut { blend: Some(blend), ..self }),
    {
        Cut { blend: Some(blend), ..self }
    }

    /// The length of the interval, `stop_t - start_t`.
    ///
    /// The bounds must be ordered and the span must fit in `i64`.
    pub fn dur(&self) -> (r: i64)
        requires
            cut_wf(*self),
            self.stop_t - self.start_t <= i64::MAX as int,
        ensures
            r == self.stop_t - self.start_t,
    {
        self.stop_t - self.start_t
    }

    /// Evaluate the bound behavior at time `t`.
    pub fn react(&self, t: i64) -> (r: Option<i64>)
        ensures
            r == self.behavior.spec_react(t),
    {
        self.behavior.react(t)
    }

    /// How `next_cut` merges into an accumulated value; see [`Cut::react_blend`].
    pub open spec fn spec_react_blend(value: Option<i64>, next_cut: Cut, t: i64) -> Option<i64> {
        match value {
            None => next_cut.behavior.spec_react(t),
            Some(accumulated) => match next_cut.blend {
                None => Some(accumulated),
                Some(blend) => match next_cut.behavior.spec_react(t) {
                    Some(produced) => Some(blend.spec_apply(accumulated, produced)),
                    None => Some(accumulated),
                },
            },
        }
    }

    /// Merge `next_cut`, active at time `t`, into the accumulated `value`.
    ///
    /// The tie-break rule, applied left to right over simultaneously active
    /// cuts:
    ///
    ///   - if `value` is absent the result is `next_cut.react(t)` — nothing
    ///     to blend with, just take the next;
    ///   - if `value` is present and `next_cut` has no blend, `value` stands
    ///     unchanged — earlier cuts win when no blend is declared;
    ///   - if `value` is present and `next_cut` has a blend, the two outputs
    ///     are combined through it, unless `next_cut.react(t)` is absent, in
    ///     which case `value` again stands unchanged.
    pub fn react_blend(value: Option<i64>, next_cut: &Cut, t: i64) -> (r: Option<i64>)
        ensures
            r == Self::spec_react_blend(value, *next_cut, t),
    {
        match value {
            None => next_cut.react(t),
            Some(accumulated) => match next_cut.blend {
                None => Some(accumulated),
                Some(blend) => match next_cut.react(t) {
                    Some(produced) => Some(blend.apply(accumulated, produced)),
                    None => Some(accumulated),
                },
            },
        }
    }
}

} // verus!
