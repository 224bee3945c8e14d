//! Scheduler implementations.
//!
//! [`Scheduler`] owns a set of [`Track`]s plus one [`TimeGenerator`]. At any
//! instant it asks every track for its active cut and folds all
//! simultaneously active results into one value, left to right in track
//! order, using each cut's blend strategy ([`Cut::react_blend`]). Tracks may
//! legitimately overlap each other — that is the mechanism by which
//! simultaneous, blendable actions are expressed — while the cuts inside one
//! track never do.
//!
//! [`RandomAccessScheduler`] is the simpler single-track surface over
//! [`MappedWindow`]s. Given any time it resolves the window to evaluate in
//! time logarithmic in the number of windows, which serves callers that
//! keep jumping around in time rather than ticking with a small delta. Its
//! bounded run, [`RandomAccessScheduler::schedule`], steps from the
//! generator's reset value and completes naturally once the current time
//! reaches or passes the end of the last window in sort order; it can also
//! be interrupted cooperatively, checking an [`InterruptPolicy`] once per
//! step.

use vstd::prelude::*;

use crate::cut::cut_wf;
use crate::cut::Cut;
use crate::time::sat_i64;
use crate::time::TimeGenerator;
use crate::track::cuts_ordered;
use crate::track::cuts_separated;
use crate::track::cuts_wf;
use crate::track::scan_active;
use crate::track::sort_cuts;
use crate::track::Track;
use crate::window::MappedWindow;

verus! {

/// One track's contribution to the fold: an inactive track leaves the
/// accumulated value alone, an active one merges its cut through
/// [`Cut::spec_react_blend`].
pub open spec fn track_step(acc: Option<i64>, track: Track, t: i64) -> Option<i64> {
    match scan_active(track@, t) {
        None => acc,
        Some(c) => Cut::spec_react_blend(acc, c, t),
    }
}

/// The fold of every track's contribution at time `t`, left to right,
/// starting from `acc`.
pub open spec fn fold_active(tracks: Seq<Track>, t: i64, acc: Option<i64>) -> Option<i64>
    decreases tracks.len(),
{
    if tracks.len() == 0 {
        acc
    } else {
        fold_active(tracks.drop_first(), t, track_step(acc, tracks[0], t))
    }
}

/// The value the schedule resolves to at time `t`: the first active cut's
/// output seeds the fold, and every further active cut is merged in through
/// its own blend policy. `None` when no track has an active, enabled cut.
pub open spec fn spec_value_at(tracks: Seq<Track>, t: i64) -> Option<i64> {
    fold_active(tracks, t, None)
}

/// The active cuts at time `t`, one per active track, in track order.
pub open spec fn active_cuts_seq(tracks: Seq<Track>, t: i64) -> Seq<Cut>
    decreases tracks.len(),
{
    if tracks.len() == 0 {
        Seq::empty()
    } else {
        active_cuts_seq(tracks.drop_last(), t) + match scan_active(tracks.last()@, t) {
            None => Seq::empty(),
            Some(c) => seq![c],
        }
    }
}

/// A scheduler folding any number of parallel tracks over one time
/// generator.
///
/// Stepping the time generator is the only permitted mutation: the tracks
/// are fixed for the scheduler's lifetime.
pub struct Scheduler<G: TimeGenerator> {
    tracks: Vec<Track>,
    time_gen: G,
}

impl<G: TimeGenerator> Scheduler<G> {
    /// The owned tracks, in fold order.
    pub closed spec fn spec_tracks(&self) -> Seq<Track> {
        self.tracks@
    }

    /// The owned time generator.
    pub closed spec fn spec_gen(&self) -> G {
        self.time_gen
    }

    /// Every owned track is well formed, as `Track::new` guarantees.
    pub open spec fn wf(self) -> bool {
        forall|i: int| 0 <= i < self.spec_tracks().len() ==> self.spec_tracks()[i].wf()
    }

    /// Take ownership of `tracks` and `time_gen`.
    ///
    /// No validation happens beyond what track construction already
    /// guaranteed; tracks may overlap each other.
    pub fn new(tracks: Vec<Track>, time_gen: G) -> (r: Scheduler<G>)
        ensures
            r.spec_tracks() == tracks@,
            r.spec_gen() == time_gen,
    {
        Scheduler { tracks, time_gen }
    }

    /// The schedule's value at time `t`.
    ///
    /// Pure with respect to the scheduler's state: the time generator is
    /// not consulted, and the result is a function of the tracks and `t`
    /// alone, so repeated calls at the same instant return the same value.
    /// `None` — no track with an active, enabled cut — is a normal steady
    /// state, not an error.
    pub fn value_at(&self, t: i64) -> (r: Option<i64>)
        requires
            self.wf(),
        ensures
            r == spec_value_at(self.spec_tracks(), t),
    {
        let ghost all = self.spec_tracks();
        let mut acc: Option<i64> = None;
        let mut i: usize = 0;
        let n = self.tracks.len();
        proof {
            assert(all.skip(0) =~= all);
        }
        while i < n
            invariant
                i <= n,
                n == all.len(),
                all == self.spec_tracks(),
                self.wf(),
                fold_active(all.skip(i as int), t, acc) == spec_value_at(all, t),
            decreases n - i,
        {
            let ghost pre = acc;
            match self.tracks[i].active(t) {
                Some(c) => {
                    acc = Cut::react_blend(acc, c, t);
                },
                None => {},
            }
            proof {
                assert(all.skip(i as int).drop_first() =~= all.skip(i as int + 1));
                assert(all.skip(i as int)[0] == all[i as int]);
                assert(acc == track_step(pre, all[i as int], t));
            }
            i += 1;
        }
        proof {
            assert(all.skip(n as int) =~= Seq::<Track>::empty());
        }
        acc
    }

    /// The active cuts at time `t`, one per active track, in track order.
    ///
    /// Recomputed on every call; nothing is cached.
    pub fn active_cuts(&self, t: i64) -> (r: Vec<Cut>)
        requires
            self.wf(),
        ensures
            r@ == active_cuts_seq(self.spec_tracks(), t),
    {
        let ghost all = self.spec_tracks();
        let mut out: Vec<Cut> = Vec::new();
        let mut i: usize = 0;
        let n = self.tracks.len();
        proof {
            assert(all.take(0) =~= Seq::<Track>::empty());
        }
        while i < n
            invariant
                i <= n,
                n == all.len(),
                all == self.spec_tracks(),
                self.wf(),
                out@ == active_cuts_seq(all.take(i as int), t),
            decreases n - i,
        {
            let ghost pre = out@;
            match self.tracks[i].active(t) {
                Some(c) => {
                    out.push(*c);
                },
                None => {},
            }
            proof {
                assert(all.take(i as int + 1).drop_last() =~= all.take(i as int));
                assert(all.take(i as int + 1).last() == all[i as int]);
                match scan_active(all[i as int]@, t) {
                    None => {
                        assert(out@ =~= pre + Seq::<Cut>::empty());
                    },
                    Some(c) => {
                        assert(out@ =~= pre + seq![c]);
                    },
                }
            }
            i += 1;
        }
        proof {
            assert(all.take(n as int) =~= all);
        }
        out
    }

    /// Advance the time generator and return the schedule's value at the
    /// pre-tick time — the time the schedule was just at, which makes the
    /// first step after a reset evaluate at the reset value itself.
    pub fn next_value(&mut self) -> (r: Option<i64>)
        requires
            old(self).wf(),
        ensures
            final(self).wf(),
            final(self).spec_tracks() == old(self).spec_tracks(),
            r == spec_value_at(old(self).spec_tracks(), old(self).spec_gen().spec_current()),
            final(self).spec_gen().spec_current() == sat_i64(
                old(self).spec_gen().spec_current() as int
                    + old(self).spec_gen().spec_delta() as int,
            ),
            final(self).spec_gen().spec_delta() == old(self).spec_gen().spec_delta(),
            final(self).spec_gen().spec_reset_value() == old(self).spec_gen().spec_reset_value(),
    {
        let t = self.time_gen.tick();
        self.value_at(t)
    }

    /// Step the time generator backwards and return the schedule's value at
    /// the pre-untick time.
    pub fn prev_value(&mut self) -> (r: Option<i64>)
        requires
            old(self).wf(),
        ensures
            final(self).wf(),
            final(self).spec_tracks() == old(self).spec_tracks(),
            r == spec_value_at(old(self).spec_tracks(), old(self).spec_gen().spec_current()),
            final(self).spec_gen().spec_current() == sat_i64(
                old(self).spec_gen().spec_current() as int
                    - old(self).spec_gen().spec_delta() as int,
            ),
            final(self).spec_gen().spec_delta() == old(self).spec_gen().spec_delta(),
            final(self).spec_gen().spec_reset_value() == old(self).spec_gen().spec_reset_value(),
    {
        let t = self.time_gen.untick();
        self.value_at(t)
    }

    /// The time generator's current time, without side effects.
    pub fn current_time(&self) -> (t: i64)
        ensures
            t == self.spec_gen().spec_current(),
    {
        self.time_gen.current()
    }

    /// Return the time generator to its reset value; the schedule itself
    /// holds no further state, so this restarts the iteration.
    pub fn reset(&mut self)
        requires
            old(self).wf(),
        ensures
            final(self).wf(),
            final(self).spec_tracks() == old(self).spec_tracks(),
            final(self).spec_gen().spec_current() == old(self).spec_gen().spec_reset_value(),
            final(self).spec_gen().spec_delta() == old(self).spec_gen().spec_delta(),
            final(self).spec_gen().spec_reset_value() == old(self).spec_gen().spec_reset_value(),
    {
        self.time_gen.reset();
        proof {
            assert forall|i: int|
                0 <= i < self.spec_tracks().len() implies self.spec_tracks()[i].wf() by {
                assert(old(self).spec_tracks()[i].wf());
            }
        }
    }
}

/// Blending law, first half: when the earlier track's cut produces a value
/// at `t` and the later track's cut declares no blend, the earlier value
/// stands unchanged — the later cut's output is discarded.
pub proof fn lemma_value_at_earlier_wins(tracks: Seq<Track>, t: i64, a: Cut, b: Cut, x: i64)
    requires
        tracks.len() == 2,
        scan_active(tracks[0]@, t) == Some(a),
        a.behavior.spec_react(t) == Some(x),
        scan_active(tracks[1]@, t) == Some(b),
        b.blend is None,
    ensures
        spec_value_at(tracks, t) == Some(x),
{
    let s1 = tracks.drop_first();
    assert(s1[0] == tracks[1]);
    assert(s1.drop_first() =~= Seq::<Track>::empty());
    assert(track_step(None, tracks[0], t) == Some(x));
    assert(track_step(Some(x), tracks[1], t) == Some(x));
    assert(fold_active(tracks, t, None) == fold_active(s1, t, Some(x)));
    assert(fold_active(s1, t, Some(x)) == fold_active(s1.drop_first(), t, Some(x)));
    assert(fold_active(Seq::<Track>::empty(), t, Some(x)) == Some(x));
}

/// Blending law, second half: when the earlier track contributes nothing at
/// `t` — no active cut, or a disabled behavior — the later track's value is
/// taken as it is, whatever blend the later cut declares.
pub proof fn lemma_value_at_later_fills_gap(tracks: Seq<Track>, t: i64, b: Cut, y: i64)
    requires
        tracks.len() == 2,
        track_step(None, tracks[0], t) is None,
        scan_active(tracks[1]@, t) == Some(b),
        b.behavior.spec_react(t) == Some(y),
    ensures
        spec_value_at(tracks, t) == Some(y),
{
    let s1 = tracks.drop_first();
    assert(s1[0] == tracks[1]);
    assert(s1.drop_first() =~= Seq::<Track>::empty());
    assert(track_step(None, tracks[1], t) == Some(y));
    assert(fold_active(tracks, t, None) == fold_active(s1, t, None));
    assert(fold_active(s1, t, None) == fold_active(s1.drop_first(), t, Some(y)));
    assert(fold_active(Seq::<Track>::empty(), t, Some(y)) == Some(y));
}

/// Interruption mechanism.
///
/// The bounded run checks for an interruption once per step. When one
/// occurs, `schedule` returns and gives back control flow.
#[derive(Clone, Copy, Debug, Eq, Hash, PartialEq, Structural)]
pub enum Interrupt {
    Break,
    Continue,
}

/// A pure, per-step interruption policy: the bounded run evaluates it at
/// each step's time before dispatching the step.
///
/// An external cancellation signal is polled outside the run instead, by
/// stepping the schedule one value at a time and checking the signal
/// between steps.
#[derive(Clone, Copy, Debug, Eq, Hash, PartialEq, Structural)]
pub enum InterruptPolicy {
    /// Never interrupt: the run only completes naturally.
    Never,
    /// Interrupt as soon as the step's time has reached the given instant.
    AtOrAfter(i64),
}

impl InterruptPolicy {
    /// The decision this policy takes at time `t`.
    pub open spec fn spec_decide(self, t: i64) -> Interrupt {
        match self {
            InterruptPolicy::Never => Interrupt::Continue,
            InterruptPolicy::AtOrAfter(bound) => if t >= bound {
                Interrupt::Break
            } else {
                Interrupt::Continue
            },
        }
    }

    /// Decide whether a step at time `t` may go ahead.
    pub fn decide(&self, t: i64) -> (r: Interrupt)
        ensures
            r == self.spec_decide(t),
    {
        match self {
            InterruptPolicy::Never => Interrupt::Continue,
            InterruptPolicy::AtOrAfter(bound) => if t >= *bound {
                Interrupt::Break
            } else {
                Interrupt::Continue
            },
        }
    }
}

/// The cut a mapped window stands for: same interval, same behavior, no
/// blend.
pub open spec fn window_to_cut(w: MappedWindow) -> Cut {
    Cut { start_t: w.window.start, stop_t: w.window.end, behavior: w.carry, blend: None }
}

/// The cuts a collection of mapped windows stands for, in the given order.
pub open spec fn window_cuts(ws: Seq<MappedWindow>) -> Seq<Cut> {
    ws.map_values(|w: MappedWindow| window_to_cut(w))
}

/// The time the bounded run visits at step `k`: the generator's reset value
/// advanced `k` times by its delta, saturating at the ends of the `i64`
/// range.
pub open spec fn traj(reset: i64, delta: i64, k: nat) -> i64
    decreases k,
{
    if k == 0 {
        reset
    } else {
        sat_i64(traj(reset, delta, (k - 1) as nat) as int + delta as int)
    }
}

/// What the windows produce at time `t`: the active window's behavior
/// output, or nothing when no window is active or its behavior is disabled.
pub open spec fn window_value(cuts: Seq<Cut>, t: i64) -> Option<i64> {
    match scan_active(cuts, t) {
        None => None,
        Some(c) => c.behavior.spec_react(t),
    }
}

/// Everything a bounded run over `cuts` emits during its first `n` steps:
/// one `(time, value)` pair per step whose active window produced a value.
pub open spec fn run_emits(cuts: Seq<Cut>, reset: i64, delta: i64, n: nat) -> Seq<(i64, i64)>
    decreases n,
{
    if n == 0 {
        Seq::empty()
    } else {
        let prev = run_emits(cuts, reset, delta, (n - 1) as nat);
        let t = traj(reset, delta, (n - 1) as nat);
        match window_value(cuts, t) {
            Some(v) => prev.push((t, v)),
            None => prev,
        }
    }
}

/// How a completed bounded run of `n` steps relates to the scheduler it ran
/// over: the output is exactly what the first `n` steps emit, every visited
/// step passed the interrupt policy, the generator rests at step `n`'s
/// time, and the run stopped for one of the three possible reasons — the
/// policy broke it, time passed the end of the last window, or there were
/// no windows at all.
pub open spec fn run_post(
    cuts: Seq<Cut>,
    policy: InterruptPolicy,
    reset: i64,
    delta: i64,
    out: Seq<(i64, i64)>,
    current: i64,
    n: nat,
) -> bool {
    &&& out == run_emits(cuts, reset, delta, n)
    &&& (forall|k: nat| k < n ==> policy.spec_decide(traj(reset, delta, k)) == Interrupt::Continue)
    &&& current == traj(reset, delta, n)
    &&& {
        ||| policy.spec_decide(traj(reset, delta, n)) == Interrupt::Break
        ||| (n > 0 && cuts.len() > 0 && traj(reset, delta, n) >= cuts.last().stop_t)
        ||| (cuts.len() == 0 && n == 0)
    }
}

/// A random-access scheduler over one collection of mapped windows.
///
/// Given any time it resolves the window to use in time logarithmic in the
/// number of windows, which suits callers that keep changing time at random
/// rather than ticking with a small delta.
pub struct RandomAccessScheduler<G: TimeGenerator> {
    time_gen: G,
    track: Track,
    policy: InterruptPolicy,
}

impl<G: TimeGenerator> RandomAccessScheduler<G> {
    /// The windows, as cuts, sorted by interval.
    pub closed spec fn spec_windows(&self) -> Seq<Cut> {
        self.track@
    }

    /// The interrupt policy the bounded run consults.
    pub closed spec fn spec_policy(&self) -> InterruptPolicy {
        self.policy
    }

    /// The owned time generator.
    pub closed spec fn spec_gen(&self) -> G {
        self.time_gen
    }

    /// The scheduler's internal invariant, established at construction:
    /// the windows are well formed, sorted by interval and non-overlapping.
    pub open spec fn wf(self) -> bool {
        cuts_wf(self.spec_windows()) && cuts_ordered(self.spec_windows()) && cuts_separated(
            self.spec_windows(),
        )
    }

    /// Create a new random-access scheduler.
    ///
    /// The windows are sorted by interval. Construction fails — returning
    /// nothing, as a whole — when some window's bounds are out of order or
    /// when two windows overlap.
    pub fn new(time_gen: G, windows: Vec<MappedWindow>) -> (r: Option<RandomAccessScheduler<G>>)
        ensures
            (r is Some) <==> (cuts_wf(window_cuts(windows@)) && cuts_separated(
                sort_cuts(window_cuts(windows@)),
            )),
            r matches Some(s) ==> s.spec_windows() == sort_cuts(window_cuts(windows@)) && s.wf()
                && s.spec_policy() == InterruptPolicy::Never && s.spec_gen() == time_gen,
    {
        let ghost ws = windows@;
        let mut cuts: Vec<Cut> = Vec::new();
        let mut i: usize = 0;
        while i < windows.len()
            invariant
                i <= ws.len(),
                ws == windows@,
                cuts@.len() == i,
                forall|j: int| 0 <= j < i ==> cuts@[j] == window_to_cut(ws[j]),
                forall|j: int| 0 <= j < i ==> cut_wf(#[trigger] cuts@[j]),
            decreases ws.len() - i,
        {
            let w = &windows[i];
            if w.window.start > w.window.end {
                proof {
                    assert(window_cuts(ws)[i as int] == window_to_cut(ws[i as int]));
                    assert(!cut_wf(window_cuts(ws)[i as int]));
                }
                return None;
            }
            cuts.push(Cut { start_t: w.window.start, stop_t: w.window.end, behavior: w.carry, blend: None });
            i += 1;
        }
        proof {
            assert(cuts@ =~= window_cuts(ws));
        }
        match Track::new(cuts) {
            Some(track) => Some(
                RandomAccessScheduler { time_gen, track, policy: InterruptPolicy::Never },
            ),
            None => None,
        }
    }

    /// The index, among the windows sorted by interval, of the window whose
    /// interval contains `t`, or nothing.
    ///
    /// Binary search: the result agrees with a naive linear scan of the
    /// sorted windows at every instant.
    pub fn active_window_index(&self, t: i64) -> (r: Option<usize>)
        requires
            self.wf(),
        ensures
            r matches Some(i) ==> i < self.spec_windows().len() && scan_active(
                self.spec_windows(),
                t,
            ) == Some(self.spec_windows()[i as int]),
            r is None ==> scan_active(self.spec_windows(), t) is None,
    {
        self.track.active_index(t)
    }

    /// Make the bounded run interruptible under the given policy.
    pub fn interruptible_with(&mut self, policy: InterruptPolicy)
        ensures
            final(self).spec_policy() == policy,
            final(self).spec_windows() == old(self).spec_windows(),
            final(self).spec_gen() == old(self).spec_gen(),
    {
        self.policy = policy;
    }

    /// Run the mapped windows from the generator's reset value.
    ///
    /// Each step evaluates the active window's behavior at the step's time
    /// and collects the `(time, value)` pairs produced; a step inside a gap
    /// between windows, or whose behavior is disabled, emits nothing. The
    /// run completes naturally once the current time reaches or passes the
    /// end of the last window in sort order, completes immediately when
    /// there are no windows at all, and breaks early as soon as the
    /// interrupt policy says so.
    pub fn schedule(&mut self) -> (out: Vec<(i64, i64)>)
        requires
            old(self).wf(),
            old(self).spec_gen().spec_delta() > 0,
        ensures
            final(self).wf(),
            final(self).spec_windows() == old(self).spec_windows(),
            final(self).spec_policy() == old(self).spec_policy(),
            final(self).spec_gen().spec_delta() == old(self).spec_gen().spec_delta(),
            final(self).spec_gen().spec_reset_value() == old(self).spec_gen().spec_reset_value(),
            exists|n: nat|
                run_post(
                    old(self).spec_windows(),
                    old(self).spec_policy(),
                    old(self).spec_gen().spec_reset_value(),
                    old(self).spec_gen().spec_delta(),
                    out@,
                    final(self).spec_gen().spec_current(),
                    n,
                ),
    {
        self.time_gen.reset();
        let ghost cuts = self.spec_windows();
        let ghost policy = self.spec_policy();
        let ghost reset = self.spec_gen().spec_reset_value();
        let ghost delta = self.spec_gen().spec_delta();
        let mut out: Vec<(i64, i64)> = Vec::new();
        let n_windows = self.track.cuts().len();
        if n_windows == 0 {
            proof {
                assert(run_post(
                    cuts,
                    policy,
                    reset,
                    delta,
                    out@,
                    self.spec_gen().spec_current(),
                    0,
                ));
            }
            return out;
        }
        let last_stop = self.track.cuts()[n_windows - 1].stop_t;
        let mut t = self.time_gen.current();
        let ghost mut k: nat = 0;
        loop
            invariant
                self.wf(),
                cuts == self.spec_windows(),
                policy == self.spec_policy(),
                reset == self.spec_gen().spec_reset_value(),
                delta == self.spec_gen().spec_delta(),
                delta > 0,
                cuts.len() > 0,
                last_stop == cuts.last().stop_t,
                t == self.spec_gen().spec_current(),
                t == traj(reset, delta, k),
                out@ == run_emits(cuts, reset, delta, k),
                forall|j: nat|
                    j < k ==> policy.spec_decide(traj(reset, delta, j)) == Interrupt::Continue,
            ensures
                policy.spec_decide(traj(reset, delta, k)) == Interrupt::Break || (k > 0 && t
                    >= last_stop),
            decreases last_stop as int - t as int,
        {
            match self.policy.decide(t) {
                Interrupt::Break => {
                    break ;
                },
                Interrupt::Continue => {},
            }
            let ghost pre = out@;
            match self.track.active_index(t) {
                Some(ix) => {
                    match self.track.cuts()[ix].react(t) {
                        Some(v) => {
                            out.push((t, v));
                        },
                        None => {},
                    }
                },
                None => {},
            }
            proof {
                assert(out@ == match window_value(cuts, t) {
                    Some(v) => pre.push((t, v)),
                    None => pre,
                });
                k = k + 1;
                assert(out@ == run_emits(cuts, reset, delta, k));
            }
            self.time_gen.tick();
            t = self.time_gen.current();
            if t >= last_stop {
                break ;
            }
        }
        proof {
            assert(run_post(cuts, policy, reset, delta, out@, t, k));
        }
        out
    }
}

} // verus!
