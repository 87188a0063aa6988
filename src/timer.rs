use vstd::prelude::*;

verus! {

/// Delay between repopulating the balls and launching them, in microseconds.
pub const BALL_LAUNCH_TIME: u64 = 10_000_000;

/// A one-shot countdown: it fires once when the elapsed time reaches the
/// duration, and again only after a reset.
#[derive(Clone, Copy, Debug, PartialEq, Eq, Structural)]
pub struct LaunchTimer {
    pub duration: u64,
    pub elapsed: u64,
    pub finished: bool,
}

/// The countdown after one tick of `delta`, and whether it finished then.
pub open spec fn tick_spec(t: LaunchTimer, delta: int) -> (LaunchTimer, bool) {
    if t.finished {
        (t, false)
    } else if t.elapsed + delta >= t.duration {
        (LaunchTimer { elapsed: t.duration, finished: true, ..t }, true)
    } else {
        (LaunchTimer { elapsed: (t.elapsed + delta) as u64, ..t }, false)
    }
}

/// The countdown after a tick for each of `deltas` in turn.
pub open spec fn run_ticks(t: LaunchTimer, deltas: Seq<u64>) -> LaunchTimer
    decreases deltas.len(),
{
    if deltas.len() == 0 {
        t
    } else {
        tick_spec(run_ticks(t, deltas.drop_last()), deltas.last() as int).0
    }
}

/// How many of those ticks reported that the countdown finished.
pub open spec fn fired(t: LaunchTimer, deltas: Seq<u64>) -> nat
    decreases deltas.len(),
{
    if deltas.len() == 0 {
        0
    } else {
        fired(t, deltas.drop_last()) + if tick_spec(
            run_ticks(t, deltas.drop_last()),
            deltas.last() as int,
        ).1 {
            1nat
        } else {
            0
        }
    }
}

pub open spec fn total(deltas: Seq<u64>) -> int
    decreases deltas.len(),
{
    if deltas.len() == 0 {
        0
    } else {
        total(deltas.drop_last()) + deltas.last()
    }
}

/// A running countdown fires exactly once over any nonempty run of ticks
/// whose times reach its duration, and not at all otherwise.
pub proof fn lemma_fires_once(t: LaunchTimer, deltas: Seq<u64>)
    requires
        t.wf(),
        !t.finished,
    ensures
        fired(t, deltas) == if deltas.len() > 0 && t.elapsed + total(deltas) >= t.duration {
            1nat
        } else {
            0
        },
        run_ticks(t, deltas).finished == (deltas.len() > 0 && t.elapsed + total(deltas)
            >= t.duration),
        !run_ticks(t, deltas).finished ==> run_ticks(t, deltas).elapsed == t.elapsed + total(
            deltas,
        ),
        run_ticks(t, deltas).duration == t.duration,
    decreases deltas.len(),
{
    if deltas.len() > 0 {
        let rest = deltas.drop_last();
        lemma_fires_once(t, rest);
        let r = run_ticks(t, rest);
        let last = deltas.last() as int;
        assert(total(deltas) == total(rest) + last);
        assert(run_ticks(t, deltas) == tick_spec(r, last).0);
        assert(fired(t, deltas) == fired(t, rest) + if tick_spec(r, last).1 { 1nat } else { 0 });
        if rest.len() == 0 {
            assert(total(rest) == 0);
            assert(r == t);
            assert(fired(t, rest) == 0);
        }
        if r.finished {
            assert(tick_spec(r, last) == (r, false));
        } else {
            assert(r.elapsed == t.elapsed + total(rest));
        }
    }
}

impl LaunchTimer {
    pub open spec fn wf(&self) -> bool {
        &&& self.elapsed <= self.duration
        &&& self.finished ==> self.elapsed == self.duration
    }

    pub fn new(duration: u64) -> (r: LaunchTimer)
        ensures
            r.wf(),
            r.duration == duration,
            r.elapsed == 0,
            !r.finished,
    {
        LaunchTimer { duration, elapsed: 0, finished: false }
    }

    /// Starts the countdown again from its full duration.
    pub fn reset(&mut self)
        ensures
            final(self).wf(),
            final(self).duration == old(self).duration,
            final(self).elapsed == 0,
            !final(self).finished,
    {
        self.elapsed = 0;
        self.finished = false;
    }

    /// Advances the countdown by `delta` and tells whether it finished on
    /// this very call.
    pub fn tick(&mut self, delta: u64) -> (just_finished: bool)
        requires
            old(self).wf(),
        ensures
            final(self).wf(),
            (*final(self), just_finished) == tick_spec(*old(self), delta as int),
            final(self).duration == old(self).duration,
            just_finished == (!old(self).finished && old(self).elapsed + delta
                >= old(self).duration),
            final(self).finished == (old(self).finished || just_finished),
            old(self).finished ==> final(self).elapsed == old(self).elapsed,
            !old(self).finished ==> final(self).elapsed == if old(self).elapsed + delta
                >= old(self).duration {
                old(self).duration as int
            } else {
                old(self).elapsed + delta
            },
    {
        if self.finished {
            return false;
        }
        let room = self.duration - self.elapsed;
        if delta >= room {
            self.elapsed = self.duration;
            self.finished = true;
        } else {
            self.elapsed = self.elapsed + delta;
        }
        self.finished
    }
}

} // verus!
