//! What the tray shows.
use vstd::prelude::*;
use vstd::string::*;

use crate::drift::delta_text;
use crate::number::to_decimal;
use crate::population::Population;
use crate::sample::Sample;
use crate::session::Session;
use crate::time::Span;

verus! {

use crate::drift::delta_words;
use crate::number::decimal;
use crate::time::{less, SECOND};

/// The phase of the present session, if any.
#[derive(Clone, Copy, Debug, PartialEq, Eq, Structural)]
pub enum Phase {
    Idle,
    Running,
    Drift,
    Locked,
    Cooldown,
}

impl Phase {
    /// The word for the phase.
    pub open spec fn word(self) -> Seq<char> {
        match self {
            Phase::Idle => "Idle"@,
            Phase::Running => "Running"@,
            Phase::Drift => "Drifting"@,
            Phase::Locked => "Locked"@,
            Phase::Cooldown => "Cooldown"@,
        }
    }

    /// The word for the phase.
    pub fn label(self) -> (word: &'static str)
        ensures
            word@ == self.word(),
    {
        match self {
            Phase::Idle => "Idle",
            Phase::Running => "Running",
            Phase::Drift => "Drifting",
            Phase::Locked => "Locked",
            Phase::Cooldown => "Cooldown",
        }
    }
}

/// What is shown of a session.
pub struct SessionView {
    /// How long the session is to last.
    pub duration: Span,
    /// How much of it is left.
    pub remaining: Span,
    /// How much drift has built up.
    pub bucket: Span,
    /// The windows that were open when it started.
    pub snapshot: Sample,
    /// What was opened since.
    pub delta: Population,
}

impl SessionView {
    /// Whether this is what `session` shows at `now` with the drift `delta`.
    pub open spec fn shows(self, session: Session, now: nat, delta: Map<Seq<char>, nat>) -> bool {
        &&& self.duration == session.duration
        &&& self.remaining@ == less(session.duration@, less(now, session.started_at@))
        &&& self.bucket == session.bucket
        &&& self.snapshot.windows@ == session.snapshot.windows@
        &&& self.snapshot.apps@ == session.snapshot.apps@
        &&& self.delta@ == delta
    }
}

/// What the tray shows.
pub struct SharedState {
    /// The phase of the session.
    pub phase: Phase,
    /// The length in minutes that the next session has unless another is chosen.
    pub default_minutes: u64,
    /// The session, if there is one.
    pub session: Option<SessionView>,
    /// The last event.
    pub last_event: String,
}

impl SharedState {
    /// The state before the first session.
    pub fn idle(default_minutes: u64) -> (state: SharedState)
        ensures
            state.phase == Phase::Idle,
            state.default_minutes == default_minutes,
            state.session is None,
            state.last_event@ == "ready"@,
    {
        SharedState {
            phase: Phase::Idle,
            default_minutes,
            session: None,
            last_event: "ready".to_string(),
        }
    }

    /// The whole seconds of a span.
    pub open spec fn secs(s: Span) -> nat {
        s@ / (SECOND as nat)
    }

    /// The state in words.
    pub open spec fn status_words(self) -> Seq<char> {
        match self.session {
            Some(session) => self.phase.word() + ": "@ + decimal(Self::secs(session.remaining))
                + "s left, drift "@ + decimal(Self::secs(session.bucket)) + "s/"@ + decimal(
                Self::secs(session.duration),
            ) + ", delta "@ + delta_words(session.delta@) + ", snapshot "@ + decimal(
                session.snapshot.windows@.len(),
            ) + " windows"@,
            None => "idle"@,
        }
    }
}

/// The state in words.
pub fn status_message(state: &SharedState) -> (words: String)
    ensures
        words@ == state.status_words(),
{
    match &state.session {
        Some(session) => {
            let mut words = state.phase.label().to_string();
            words.append(": ");
            words.append(to_decimal(session.remaining.as_secs() as u128).as_str());
            words.append("s left, drift ");
            words.append(to_decimal(session.bucket.as_secs() as u128).as_str());
            words.append("s/");
            words.append(to_decimal(session.duration.as_secs() as u128).as_str());
            words.append(", delta ");
            words.append(delta_text(&session.delta).as_str());
            words.append(", snapshot ");
            words.append(to_decimal(session.snapshot.windows.len() as u128).as_str());
            words.append(" windows");
            words
        },
        None => "idle".to_string(),
    }
}

/// Shows `phase` and what `session` shows at `now` with the drift `delta`.
pub fn update_shared(
    state: &mut SharedState,
    phase: Phase,
    session: &Option<Session>,
    now: Span,
    delta: Population,
)
    ensures
        final(state).phase == phase,
        final(state).default_minutes == old(state).default_minutes,
        final(state).last_event == old(state).last_event,
        match *session {
            Some(s) => final(state).session matches Some(v) && v.shows(s, now@, delta@),
            None => final(state).session is None,
        },
{
    state.phase = phase;
    state.session = match session {
        Some(s) => Some(s.view(now, delta)),
        None => None,
    };
}

} // verus!
