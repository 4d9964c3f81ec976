//! The watch over the sessions: what commands and samples do, and what is to be done about them.
use vstd::prelude::*;
use vstd::string::*;

use crate::config::Config;
use crate::drift::{delta_text, population_delta};
use crate::notice::Notice;
use crate::population::Population;
use crate::sample::Sample;
use crate::session::Session;
use crate::state::{status_message, update_shared, Phase, SharedState};
use crate::time::Span;

verus! {

use crate::drift::{delta_words, grown};
use crate::notice::NoticeView;
use crate::session::opt_span;
use crate::time::{less, SECOND};

/// A command of the user.
#[derive(Clone, Copy, Debug)]
pub enum AppCommand {
    /// Start a session of this length.
    Start(Span),
    /// Stop the session.
    Stop,
    /// Tell the state.
    Status,
    /// Quit the program.
    Quit,
}

/// Something to be done.
pub enum Effect {
    /// Take the notice for the last event, log it, and send its notification.
    Announce(Notice),
    /// Have the tray shown anew.
    Refresh,
    /// Run the lock command and wait until it is done.
    RunLock,
    /// Have the tray closed.
    ShutDown,
}

/// What an effect is.
pub enum EffectView {
    Announce(NoticeView),
    Refresh,
    RunLock,
    ShutDown,
}

impl View for Effect {
    type V = EffectView;

    open spec fn view(&self) -> EffectView {
        match *self {
            Effect::Announce(notice) => EffectView::Announce(notice@),
            Effect::Refresh => EffectView::Refresh,
            Effect::RunLock => EffectView::RunLock,
            Effect::ShutDown => EffectView::ShutDown,
        }
    }
}

/// What the effects of `list` are.
pub open spec fn effects(list: Seq<Effect>) -> Seq<EffectView> {
    list.map_values(|e: Effect| e@)
}

/// What is to be done about a sample, before it is known whether the session is over.
pub struct Reaction {
    /// The phase to show afterwards.
    pub phase: Phase,
    /// What is to be done, in this order.
    pub effects: Vec<Effect>,
}

/// What a command calls for.
pub enum Answer {
    /// The windows are to be sampled, and a session of this length is to start with them.
    Snapshot(Span),
    /// This is to be done, in this order.
    Act(Vec<Effect>),
    /// This is to be done, in this order, and then the program ends.
    Leave(Vec<Effect>),
}

/// What was opened since the session started, where `current` is open now: the applications that
/// have more windows than they had, and how many more.
pub open spec fn drift(session: Session, current: Sample) -> Map<Seq<char>, nat> {
    grown(session.snapshot.apps@, current.apps@)
}

/// Whether anything was opened since the session started, where `current` is open now.
pub open spec fn drifts(session: Session, current: Sample) -> bool {
    drift(session, current) != Map::<Seq<char>, nat>::empty()
}

/// What is to be done about a sample that shows the drift `delta`. A session that is over does not
/// cool down.
pub open spec fn sample_effects(
    session: Session,
    now: nat,
    delta: Map<Seq<char>, nat>,
    threshold: nat,
) -> Seq<EffectView> {
    let drifting = delta != Map::<Seq<char>, nat>::empty();
    let warning = if session.warns_at(now, drifting, threshold) {
        seq![EffectView::Announce(NoticeView::Drifting(delta_words(delta)))]
    } else {
        seq![]
    };
    let lock = if session.locks_at(now, drifting, threshold) {
        seq![
            EffectView::Announce(NoticeView::Locking),
            EffectView::Refresh,
            EffectView::RunLock,
        ]
    } else {
        seq![]
    };
    let cooldown = if session.locks_at(now, drifting, threshold) && !session.over_at(now) {
        seq![EffectView::Announce(NoticeView::Cooldown)]
    } else {
        seq![]
    };
    warning + lock + cooldown
}

/// The whole minutes of a length in nanoseconds.
pub open spec fn minutes(length: nat) -> nat {
    length / (SECOND as nat) / 60
}

/// Whether `state` shows `phase` and what `session` shows at `now` with the drift `delta`.
pub open spec fn shown(
    state: SharedState,
    phase: Phase,
    session: Option<Session>,
    now: nat,
    delta: Map<Seq<char>, nat>,
) -> bool {
    &&& state.phase == phase
    &&& match session {
        Some(s) => state.session matches Some(v) && v.shows(s, now, delta),
        None => state.session is None,
    }
}

/// The watch over the sessions.
pub struct Watch {
    /// The session, if there is one.
    pub session: Option<Session>,
    /// What the last sample had more of than the snapshot.
    pub last_delta: Population,
}

impl Watch {
    /// Whether `phase` is one to show of the session: not that there is none, and only then drift or
    /// the lock where the last sample has drifted and the bucket holds the threshold.
    pub open spec fn bears(self, phase: Phase, threshold: nat) -> bool {
        &&& self.session is Some
        &&& phase != Phase::Idle
        &&& phase == Phase::Drift || phase == Phase::Locked ==> {
            &&& self.last_delta@ != Map::<Seq<char>, nat>::empty()
            &&& self.session->0.bucket@ >= threshold
        }
    }

    /// What holds of the watch and the state at all times: both have a session or neither has,
    /// the phase is idle exactly where there is none, and drift or the lock are shown only with what
    /// has drifted and a bucket that holds the threshold.
    pub open spec fn agrees(self, state: SharedState, threshold: nat) -> bool {
        &&& self.session is Some <==> state.session is Some
        &&& state.phase == Phase::Idle <==> state.session is None
        &&& state.phase == Phase::Drift || state.phase == Phase::Locked ==> {
            &&& state.session matches Some(shown)
            &&& shown.delta@ != Map::<Seq<char>, nat>::empty()
            &&& shown.bucket@ >= threshold
        }
    }

    /// A watch without a session.
    pub fn new() -> (watch: Watch)
        ensures
            watch.session is None,
            watch.last_delta@ == Map::<Seq<char>, nat>::empty(),
    {
        Watch { session: None, last_delta: Population::new() }
    }

    /// What is to be done when the program starts.
    pub fn ready() -> (todo: Vec<Effect>)
        ensures
            effects(todo@) == seq![EffectView::Announce(NoticeView::Ready)],
    {
        let todo = vec![Effect::Announce(Notice::Ready)];
        assert(effects(todo@) =~= seq![EffectView::Announce(NoticeView::Ready)]);
        todo
    }

    /// Starts a session of the length `duration`, with the windows of `snapshot` open, in place of
    /// any session there is, and makes its whole minutes, at least one, the default.
    pub fn start(
        &mut self,
        state: &mut SharedState,
        duration: Span,
        snapshot: Sample,
        started_at: Span,
        last_tick: Span,
        now: Span,
    ) -> (todo: Vec<Effect>)
        ensures
            final(self).session matches Some(s) && {
                &&& s.duration == duration
                &&& s.started_at == started_at
                &&& s.snapshot == snapshot
                &&& s.bucket@ == 0
                &&& s.last_tick == last_tick
                &&& !s.warned
                &&& s.locked_at is None
                &&& s.cooldown_until is None
            },
            final(self).last_delta@ == old(self).last_delta@,
            final(state).default_minutes == (if minutes(duration@) == 0 {
                1
            } else {
                minutes(duration@)
            }),
            shown(
                *final(state),
                Phase::Running,
                final(self).session,
                now@,
                old(self).last_delta@,
            ),
            final(state).last_event == old(state).last_event,
            forall|threshold: nat| #[trigger] final(self).agrees(*final(state), threshold),
            effects(todo@) == seq![
                EffectView::Announce(NoticeView::Started(final(state).default_minutes)),
                EffectView::Refresh,
            ],
    {
        let whole = duration.as_secs() / 60;
        let minutes: u64 = if whole == 0 {
            1
        } else {
            whole
        };
        self.session = Some(Session::start(duration, snapshot, started_at, last_tick));
        state.default_minutes = minutes;
        update_shared(state, Phase::Running, &self.session, now, self.last_delta.clone());
        let todo = vec![Effect::Announce(Notice::Started(minutes)), Effect::Refresh];
        assert(effects(todo@) =~= seq![
            EffectView::Announce(NoticeView::Started(minutes)),
            EffectView::Refresh,
        ]);
        todo
    }

    /// Stops the session.
    pub fn stop(&mut self, state: &mut SharedState, now: Span) -> (todo: Vec<Effect>)
        ensures
            final(self).session is None,
            final(self).last_delta@ == Map::<Seq<char>, nat>::empty(),
            final(state).phase == Phase::Idle,
            final(state).session is None,
            final(state).default_minutes == old(state).default_minutes,
            final(state).last_event == old(state).last_event,
            forall|threshold: nat| #[trigger] final(self).agrees(*final(state), threshold),
            effects(todo@) == seq![
                EffectView::Announce(NoticeView::Stopped),
                EffectView::Refresh,
            ],
    {
        self.session = None;
        self.last_delta = Population::new();
        update_shared(state, Phase::Idle, &self.session, now, self.last_delta.clone());
        let todo = vec![Effect::Announce(Notice::Stopped), Effect::Refresh];
        assert(effects(todo@) =~= seq![
            EffectView::Announce(NoticeView::Stopped),
            EffectView::Refresh,
        ]);
        todo
    }

    /// Tells the state.
    pub fn status(state: &SharedState) -> (todo: Vec<Effect>)
        ensures
            effects(todo@) == seq![
                EffectView::Announce(NoticeView::Status(state.status_words())),
                EffectView::Refresh,
            ],
    {
        let todo = vec![Effect::Announce(Notice::Status(status_message(state))), Effect::Refresh];
        assert(effects(todo@) =~= seq![
            EffectView::Announce(NoticeView::Status(state.status_words())),
            EffectView::Refresh,
        ]);
        todo
    }

    /// Quits the program.
    pub fn quit() -> (todo: Vec<Effect>)
        ensures
            effects(todo@) == seq![
                EffectView::Announce(NoticeView::Quitting),
                EffectView::ShutDown,
            ],
    {
        let todo = vec![Effect::Announce(Notice::Quitting), Effect::ShutDown];
        assert(effects(todo@) =~= seq![
            EffectView::Announce(NoticeView::Quitting),
            EffectView::ShutDown,
        ]);
        todo
    }

    /// Carries out a command at `now`, as far as it needs no sample.
    pub fn carry_out(
        &mut self,
        state: &mut SharedState,
        command: AppCommand,
        now: Span,
    ) -> (answer: Answer)
        ensures
            forall|threshold: nat|
                old(self).agrees(*old(state), threshold) ==> #[trigger] final(self).agrees(
                    *final(state),
                    threshold,
                ),
            command matches AppCommand::Start(duration) ==> {
                &&& answer == Answer::Snapshot(duration)
                &&& *final(self) == *old(self)
                &&& *final(state) == *old(state)
            },
            command is Stop ==> {
                &&& answer matches Answer::Act(todo)
                &&& effects(todo@) == seq![
                    EffectView::Announce(NoticeView::Stopped),
                    EffectView::Refresh,
                ]
                &&& final(self).session is None
                &&& final(self).last_delta@ == Map::<Seq<char>, nat>::empty()
                &&& final(state).phase == Phase::Idle
                &&& final(state).session is None
                &&& final(state).default_minutes == old(state).default_minutes
                &&& final(state).last_event == old(state).last_event
            },
            command is Status ==> {
                &&& answer matches Answer::Act(todo)
                &&& effects(todo@) == seq![
                    EffectView::Announce(NoticeView::Status(old(state).status_words())),
                    EffectView::Refresh,
                ]
                &&& *final(self) == *old(self)
                &&& *final(state) == *old(state)
            },
            command is Quit ==> {
                &&& answer matches Answer::Leave(todo)
                &&& effects(todo@) == seq![
                    EffectView::Announce(NoticeView::Quitting),
                    EffectView::ShutDown,
                ]
                &&& *final(self) == *old(self)
                &&& *final(state) == *old(state)
            },
    {
        match command {
            AppCommand::Start(duration) => Answer::Snapshot(duration),
            AppCommand::Stop => Answer::Act(self.stop(state, now)),
            AppCommand::Status => Answer::Act(Watch::status(state)),
            AppCommand::Quit => Answer::Leave(Watch::quit()),
        }
    }

    /// Whether it is time for a sample at `now`.
    pub fn is_due(&self, config: &Config, now: Span) -> (due: bool)
        ensures
            due == (self.session matches Some(s) && less(now@, s.last_tick@) >= config.tick@),
    {
        match &self.session {
            Some(session) => session.is_due(now, config.tick),
            None => false,
        }
    }

    /// Takes in the sample `current` of the time `now`.
    pub fn observe(
        &mut self,
        state: &mut SharedState,
        config: &Config,
        now: Span,
        current: &Sample,
    ) -> (reaction: Reaction)
        requires
            old(self).session is Some,
        ensures
            final(self).session is Some,
            final(self).last_delta@ == drift(old(self).session->0, *current),
            old(self).session->0.steps_to(
                final(self).session->0,
                now@,
                drifts(old(self).session->0, *current),
                config.threshold@,
            ),
            reaction.phase == old(self).session->0.phase_at(
                now@,
                drifts(old(self).session->0, *current),
                config.threshold@,
            ),
            effects(reaction.effects@) == sample_effects(
                old(self).session->0,
                now@,
                drift(old(self).session->0, *current),
                config.threshold@,
            ),
            if old(self).session->0.locks_at(
                now@,
                drifts(old(self).session->0, *current),
                config.threshold@,
            ) {
                &&& shown(
                    *final(state),
                    Phase::Locked,
                    final(self).session,
                    now@,
                    drift(old(self).session->0, *current),
                )
                &&& final(state).default_minutes == old(state).default_minutes
                &&& final(state).last_event == old(state).last_event
            } else {
                *final(state) == *old(state)
            },
            final(self).bears(reaction.phase, config.threshold@),
            old(self).agrees(*old(state), config.threshold@) ==> final(self).agrees(
                *final(state),
                config.threshold@,
            ),
    {
        let mut session = self.session.take().unwrap();
        let delta = population_delta(&session.snapshot.apps, &current.apps);
        let drifting = !delta.is_empty();
        let step = session.advance(now, drifting, config.threshold);
        let mut todo: Vec<Effect> = Vec::new();
        if step.warn {
            todo.push(Effect::Announce(Notice::Drifting(delta_text(&delta))));
        }
        let over = session.is_over(now);
        self.session = Some(session);
        if step.lock {
            todo.push(Effect::Announce(Notice::Locking));
            todo.push(Effect::Refresh);
            todo.push(Effect::RunLock);
            if !over {
                todo.push(Effect::Announce(Notice::Cooldown));
            }
            update_shared(state, Phase::Locked, &self.session, now, delta.clone());
        }
        assert(effects(todo@) =~= sample_effects(
            old(self).session->0,
            now@,
            delta@,
            config.threshold@,
        ));
        self.last_delta = delta;
        Reaction { phase: step.phase, effects: todo }
    }

    /// Closes the reaction to the sample of the time `at`, once what it called for is done: ends a
    /// session that is over, and else shows `phase` as of `now`. Where it called for the lock, the
    /// window of the cooldown runs from `now` on, when the lock command has ended.
    pub fn settle(
        &mut self,
        state: &mut SharedState,
        config: &Config,
        phase: Phase,
        at: Span,
        now: Span,
    ) -> (todo: Vec<Effect>)
        requires
            old(self).session is Some,
        ensures
            final(state).default_minutes == old(state).default_minutes,
            final(state).last_event == old(state).last_event,
            if old(self).session->0.over_at(at@) {
                &&& final(self).session is None
                &&& final(self).last_delta@ == Map::<Seq<char>, nat>::empty()
                &&& final(state).phase == Phase::Idle
                &&& final(state).session is None
                &&& effects(todo@) == seq![
                    EffectView::Announce(
                        NoticeView::Completed(minutes(old(self).session->0.duration@) as u64),
                    ),
                    EffectView::Refresh,
                ]
            } else {
                &&& final(self).session is Some
                &&& final(self).last_delta == old(self).last_delta
                &&& if opt_span(old(self).session->0.locked_at) == Some(at@) {
                    old(self).session->0.cools_from(
                        final(self).session->0,
                        now@,
                        config.threshold@,
                    )
                } else {
                    final(self).session == old(self).session
                }
                &&& shown(*final(state), phase, final(self).session, now@, old(self).last_delta@)
                &&& effects(todo@) == seq![EffectView::Refresh]
            },
            old(self).bears(phase, config.threshold@) ==> final(self).agrees(
                *final(state),
                config.threshold@,
            ),
    {
        let mut session = self.session.take().unwrap();
        if session.is_over(at) {
            let minutes = session.duration.as_secs() / 60;
            self.last_delta = Population::new();
            update_shared(state, Phase::Idle, &self.session, now, self.last_delta.clone());
            let todo = vec![Effect::Announce(Notice::Completed(minutes)), Effect::Refresh];
            assert(effects(todo@) =~= seq![
                EffectView::Announce(NoticeView::Completed(minutes)),
                EffectView::Refresh,
            ]);
            todo
        } else {
            if session.locked_by(at) {
                session.cool_from(now, config.threshold);
            }
            self.session = Some(session);
            update_shared(state, phase, &self.session, now, self.last_delta.clone());
            let todo = vec![Effect::Refresh];
            assert(effects(todo@) =~= seq![EffectView::Refresh]);
            todo
        }
    }
}

} // verus!
