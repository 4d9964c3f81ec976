//! A focus session: its course in time and what a sample does to it.
use vstd::prelude::*;

use crate::population::Population;
use crate::sample::Sample;
use crate::state::{Phase, SessionView};
use crate::time::Span;

verus! {

use crate::time::{capped_sum, less};

/// A focus session.
pub struct Session {
    /// How long the session is to last.
    pub duration: Span,
    /// When it started.
    pub started_at: Span,
    /// The windows that were open when it started.
    pub snapshot: Sample,
    /// How much drift has built up.
    pub bucket: Span,
    /// When the windows were last sampled.
    pub last_tick: Span,
    /// Whether the user was warned of the present drift.
    pub warned: bool,
    /// When the lock command was run, until the cooldown after it ends.
    pub locked_at: Option<Span>,
    /// When the cooldown ends.
    pub cooldown_until: Option<Span>,
}

/// What a sample made of a session.
pub struct Step {
    /// The phase to show.
    pub phase: Phase,
    /// Whether the user is to be warned.
    pub warn: bool,
    /// Whether the lock command is to be run.
    pub lock: bool,
}

/// The length of an optional span.
pub open spec fn opt_span(s: Option<Span>) -> Option<nat> {
    match s {
        Some(s) => Some(s@),
        None => None,
    }
}

impl Session {
    /// Whether the session is cooling down at `now`, so that drift does not build up.
    pub open spec fn resting(self, now: nat) -> bool {
        self.cooldown_until matches Some(until) && now < until@
    }

    /// Whether the lock still holds at `now`: it does until the cooldown ends.
    pub open spec fn held_at(self, now: nat) -> bool {
        self.locked_at is Some && self.resting(now)
    }

    /// The drift that has built up at `now`: more by the time since the last sample where there
    /// is drift that counts, and else less by it.
    pub open spec fn bucket_at(self, now: nat, drifting: bool) -> nat {
        let dt = less(now, self.last_tick@);
        if drifting && !self.resting(now) {
            capped_sum(self.bucket@, dt)
        } else {
            less(self.bucket@, dt)
        }
    }

    /// Whether an earlier warning still stands at `now`: it is withdrawn where drift that counts
    /// has ceased.
    pub open spec fn warned_at(self, now: nat, drifting: bool) -> bool {
        self.warned && (drifting || self.resting(now))
    }

    /// Whether the user is to be warned at `now`: for the first time of this drift, once it has
    /// filled the bucket up to the threshold.
    pub open spec fn warns_at(self, now: nat, drifting: bool, threshold: nat) -> bool {
        &&& drifting
        &&& self.bucket_at(now, drifting) >= threshold
        &&& !self.warned_at(now, drifting)
        &&& !self.held_at(now)
    }

    /// Whether the lock command is to be run at `now`: there is drift, it has filled the bucket
    /// up to twice the threshold, and no earlier lock still holds.
    pub open spec fn locks_at(self, now: nat, drifting: bool, threshold: nat) -> bool {
        &&& drifting
        &&& self.bucket_at(now, drifting) >= 2 * threshold
        &&& !self.held_at(now)
    }

    /// The phase to show after the sample at `now`.
    pub open spec fn phase_at(self, now: nat, drifting: bool, threshold: nat) -> Phase {
        if self.resting(now) {
            Phase::Cooldown
        } else if drifting && self.bucket_at(now, drifting) >= threshold {
            Phase::Drift
        } else {
            Phase::Running
        }
    }

    /// Whether `next` is the session after the sample at `now`. Where the cooldown is over, the lock
    /// and the cooldown are taken back.
    pub open spec fn steps_to(self, next: Session, now: nat, drifting: bool, threshold: nat) -> bool {
        let locks = self.locks_at(now, drifting, threshold);
        &&& next.duration == self.duration
        &&& next.started_at == self.started_at
        &&& next.snapshot == self.snapshot
        &&& next.last_tick@ == now
        &&& next.bucket@ == self.bucket_at(now, drifting)
        &&& next.warned == (self.warned_at(now, drifting) || self.warns_at(now, drifting, threshold))
        &&& opt_span(next.locked_at) == (if locks {
            Some(now)
        } else if self.resting(now) {
            opt_span(self.locked_at)
        } else {
            None
        })
        &&& opt_span(next.cooldown_until) == (if locks {
            Some(capped_sum(now, threshold))
        } else if self.resting(now) {
            opt_span(self.cooldown_until)
        } else {
            None
        })
    }

    /// Whether `next` is the session with the window of the cooldown running from `now` on.
    pub open spec fn cools_from(self, next: Session, now: nat, threshold: nat) -> bool {
        &&& next.duration == self.duration
        &&& next.started_at == self.started_at
        &&& next.snapshot == self.snapshot
        &&& next.last_tick == self.last_tick
        &&& next.bucket == self.bucket
        &&& next.warned == self.warned
        &&& next.locked_at == self.locked_at
        &&& opt_span(next.cooldown_until) == Some(capped_sum(now, threshold))
    }

    /// What holds of a session from its start on: no more drift has built up than time has passed
    /// between the start and the last sample, and there is a cooldown exactly where there was a
    /// lock.
    pub open spec fn sound(self) -> bool {
        &&& self.started_at@ + self.bucket@ <= self.last_tick@
        &&& self.locked_at is Some <==> self.cooldown_until is Some
    }

    /// Whether the session is over at `now`.
    pub open spec fn over_at(self, now: nat) -> bool {
        less(now, self.started_at@) >= self.duration@
    }

    /// A session that starts with the windows of `snapshot`.
    pub fn start(duration: Span, snapshot: Sample, started_at: Span, last_tick: Span) -> (s: Session)
        ensures
            s.duration == duration,
            s.started_at == started_at,
            s.snapshot == snapshot,
            s.bucket@ == 0,
            s.last_tick == last_tick,
            !s.warned,
            s.locked_at is None,
            s.cooldown_until is None,
            started_at@ <= last_tick@ ==> s.sound(),
    {
        Session {
            duration,
            started_at,
            snapshot,
            bucket: Span::zero(),
            last_tick,
            warned: false,
            locked_at: None,
            cooldown_until: None,
        }
    }

    /// Whether it is time for a sample at `now`.
    pub fn is_due(&self, now: Span, tick: Span) -> (due: bool)
        ensures
            due == (less(now@, self.last_tick@) >= tick@),
    {
        now.saturating_sub(self.last_tick).at_least(tick)
    }

    /// Whether the session is over at `now`.
    pub fn is_over(&self, now: Span) -> (over: bool)
        ensures
            over == self.over_at(now@),
    {
        now.saturating_sub(self.started_at).at_least(self.duration)
    }

    /// Takes in the sample at `now`, which shows drift or none.
    pub fn advance(&mut self, now: Span, drifting: bool, threshold: Span) -> (step: Step)
        ensures
            old(self).steps_to(*final(self), now@, drifting, threshold@),
            step.phase == old(self).phase_at(now@, drifting, threshold@),
            step.warn == old(self).warns_at(now@, drifting, threshold@),
            step.lock == old(self).locks_at(now@, drifting, threshold@),
            old(self).sound() && old(self).last_tick@ <= now@ ==> final(self).sound(),
    {
        let dt = now.saturating_sub(self.last_tick);
        self.last_tick = now;
        let cooling = match self.cooldown_until {
            Some(until) => !now.at_least(until),
            None => false,
        };
        if cooling {
            self.bucket = self.bucket.saturating_sub(dt);
        } else {
            self.locked_at = None;
            self.cooldown_until = None;
            if drifting {
                self.bucket = self.bucket.saturating_add(dt);
            } else {
                self.bucket = self.bucket.saturating_sub(dt);
                self.warned = false;
            }
        }
        let filled = self.bucket.at_least(threshold);
        let phase = if cooling {
            Phase::Cooldown
        } else if drifting && filled {
            Phase::Drift
        } else {
            Phase::Running
        };
        let warn = drifting && filled && !self.warned && self.locked_at.is_none();
        if warn {
            self.warned = true;
        }
        let lock = drifting && self.bucket.at_least_twice(threshold) && self.locked_at.is_none();
        if lock {
            self.locked_at = Some(now);
            self.cooldown_until = Some(now.saturating_add(threshold));
        }
        Step { phase, warn, lock }
    }

    /// Whether the lock command was run for the sample at `at`.
    pub fn locked_by(&self, at: Span) -> (yes: bool)
        ensures
            yes == (opt_span(self.locked_at) == Some(at@)),
    {
        match self.locked_at {
            Some(locked) => locked.at_least(at) && at.at_least(locked),
            None => false,
        }
    }

    /// Lets the window of the cooldown run from `now` on.
    pub fn cool_from(&mut self, now: Span, threshold: Span)
        ensures
            old(self).cools_from(*final(self), now@, threshold@),
            old(self).sound() && old(self).locked_at is Some ==> final(self).sound(),
    {
        self.cooldown_until = Some(now.saturating_add(threshold));
    }

    /// What the session shows at `now`, with the drift `delta`.
    pub fn view(&self, now: Span, delta: Population) -> (v: SessionView)
        ensures
            v.shows(*self, now@, delta@),
    {
        let elapsed = now.saturating_sub(self.started_at);
        SessionView {
            duration: self.duration,
            remaining: self.duration.saturating_sub(elapsed),
            bucket: self.bucket,
            snapshot: self.snapshot.clone(),
            delta,
        }
    }
}

} // verus!
