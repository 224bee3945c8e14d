//! Animate and schedule code over an ordered time line.
//!
//! The crate lets a caller describe a set of time-bounded actions — "produce
//! a value during the interval `[start, stop)`" — and drive them forward or
//! backward as an abstract clock advances.
//!
//! The pieces, from the leaves up:
//!
//!   - [`TimeGenerator`](time::TimeGenerator) supplies the notion of the
//!     current time and the ability to step it. The reference implementation
//!     is [`SimpleTimeGenerator`](time::simple::SimpleTimeGenerator), a
//!     linear clock with a configurable reset value and delta.
//!   - [`Behavior`](behavior::Behavior) maps a time value to an optional
//!     output value; it is the unit of reusable logic.
//!   - [`Cut`](cut::Cut) binds a behavior to a concrete time interval and,
//!     optionally, a [`Blend`](cut::Blend) strategy describing how its output
//!     merges with a result accumulated from other cuts.
//!   - [`Track`](track::Track) is an ordered, non-overlapping collection of
//!     cuts; it owns the logarithmic "what is active at time `t`" query.
//!   - [`Scheduler`](scheduler::Scheduler) owns a set of tracks plus one time
//!     generator; at each instant it folds all simultaneously active cuts
//!     into one value using each cut's blend strategy.
//!
//! A simpler single-track surface is also provided: a pure
//! [`Window`](window::Window) of time is mapped to a behavior, and a
//! [`RandomAccessScheduler`](scheduler::RandomAccessScheduler) runs the
//! mapped windows from the generator's reset value until time passes the end
//! of the last window.
//!
//! Throughout the crate the time domain is `i64` and every interval is
//! inclusive on the left and exclusive on the right: a cut or window covers
//! exactly the instants `t` with `start <= t < stop`.

pub mod behavior;
pub mod cut;
pub mod scheduler;
pub mod time;
pub mod track;
pub mod window;

pub use behavior::Behavior;
pub use cut::Blend;
pub use cut::Cut;
pub use scheduler::Interrupt;
pub use scheduler::InterruptPolicy;
pub use scheduler::RandomAccessScheduler;
pub use scheduler::Scheduler;
pub use time::simple::SimpleTimeGenerator;
pub use time::TimeGenerator;
pub use track::Track;
pub use window::MappedWindow;
pub use window::Window;
