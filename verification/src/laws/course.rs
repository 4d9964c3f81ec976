//! What holds of the course of a session, whatever is done: of time, settings, samples, commands,
//! and what is shown and told of them.
use vstd::prelude::*;
use vstd::string::*;

use crate::config::{read_u64, Config, Environment};
use crate::drift::delta_text;
use crate::notice::Notice;
use crate::number::parse_u64;
use crate::population::Population;
use crate::sample::Sample;
use crate::session::{Session, Step};
use crate::state::{status_message, update_shared, Phase, SessionView, SharedState};
use crate::time::Span;
use crate::watch::{Answer, AppCommand, Effect, Reaction, Watch};

verus! {

use crate::laws::windows::{lemma_apps_in, lines_naming, number_of};
use crate::notice::NoticeView;
use crate::number::{decimal, parsed};
use crate::sample::apps_in;
use crate::watch::EffectView;

/// The length of a span that may be missing.
pub open spec fn length_of(s: Option<Span>) -> Option<nat> {
    if s is Some {
        Some(s->0@)
    } else {
        None
    }
}

/// What the effects of a list are, one by one.
pub open spec fn acts(list: Seq<Effect>) -> Seq<EffectView> {
    Seq::new(
        list.len(),
        |i: int|
            match list[i] {
                Effect::Announce(notice) => EffectView::Announce(said(notice)),
                Effect::Refresh => EffectView::Refresh,
                Effect::RunLock => EffectView::RunLock,
                Effect::ShutDown => EffectView::ShutDown,
            },
    )
}

/// What a notice says.
pub open spec fn said(notice: Notice) -> NoticeView {
    match notice {
        Notice::Ready => NoticeView::Ready,
        Notice::Started(minutes) => NoticeView::Started(minutes),
        Notice::Stopped => NoticeView::Stopped,
        Notice::Status(words) => NoticeView::Status(words@),
        Notice::Quitting => NoticeView::Quitting,
        Notice::Drifting(words) => NoticeView::Drifting(words@),
        Notice::Locking => NoticeView::Locking,
        Notice::Cooldown => NoticeView::Cooldown,
        Notice::Completed(minutes) => NoticeView::Completed(minutes),
    }
}

proof fn lemma_acts(list: Seq<Effect>)
    ensures
        acts(list) == crate::watch::effects(list),
{
    assert(acts(list) =~= crate::watch::effects(list));
}

/// A span made of seconds has so many.
pub proof fn law_span_of_seconds(secs: u64, nanos: u32, whole: Span, span: Span, n: u64, m: u64)
    requires
        nanos < 1_000_000_000,
        call_ensures(Span::from_secs, (secs,), whole),
        call_ensures(Span::new, (secs, nanos), span),
        call_ensures(Span::as_secs, (&whole,), n),
        call_ensures(Span::as_secs, (&span,), m),
    ensures
        n == secs,
        m == secs,
        whole@ == secs * 1_000_000_000,
        span@ == secs * 1_000_000_000 + nanos,
{
}

/// Taking away and adding undo each other, between nothing and the longest span.
pub proof fn law_span_arithmetic(a: Span, b: Span, less: Span, more: Span)
    requires
        call_ensures(Span::saturating_sub, (&a, b), less),
        call_ensures(Span::saturating_add, (&a, b), more),
    ensures
        a@ >= b@ ==> less@ + b@ == a@,
        a@ <= b@ ==> less@ == 0,
        a@ + b@ <= 18_446_744_073_709_551_615_999_999_999 ==> more@ == a@ + b@,
        a@ + b@ >= 18_446_744_073_709_551_615_999_999_999 ==> more@
            == 18_446_744_073_709_551_615_999_999_999,
{
}

/// Spans are told apart by their length.
pub proof fn law_span_order(a: Span, b: Span, zero: Span, longer: bool, double: bool)
    requires
        call_ensures(Span::at_least, (&a, b), longer),
        call_ensures(Span::at_least_twice, (&a, b), double),
        call_ensures(Span::zero, (), zero),
    ensures
        longer <==> a@ >= b@,
        double <==> a@ >= b@ + b@,
        zero@ == 0,
{
}

/// The number that a setting gives: what is read from its text, or else the default.
pub open spec fn setting(value: Option<String>, default: u64) -> u64 {
    if value is Some && parsed(value->0@) is Some {
        parsed(value->0@)->0
    } else {
        default
    }
}

/// The text that a setting gives: its own, or else the default.
pub open spec fn wording(value: Option<String>, default: Seq<char>) -> Seq<char> {
    if value is Some {
        value->0@
    } else {
        default
    }
}

/// Every setting is taken as it is set, and has its default where it is not.
pub proof fn law_settings(env: Environment, config: Config)
    requires
        call_ensures(Config::from_env, (env,), config),
    ensures
        config.default_minutes == setting(env.default_minutes, 25),
        config.threshold@ == setting(env.threshold_seconds, 20) * 1_000_000_000,
        setting(env.tick_seconds, 2) >= 1 ==> config.tick@ == setting(env.tick_seconds, 2)
            * 1_000_000_000,
        setting(env.tick_seconds, 2) == 0 ==> config.tick@ == 1_000_000_000,
        config.sample_cmd@ == wording(env.sample_cmd, "wlrctl toplevel list"@),
        config.lock_cmd@ == wording(
            env.lock_cmd,
            "swaylock-effects --screenshots --effect-pixelate 10"@,
        ),
        config.picker_cmd@ == wording(
            env.picker_cmd,
            "fuzzel --dmenu --prompt 'minutes> ' --minimal-lines --lines=6 --width=10"@,
        ),
        config.log_path@ == wording(env.log, "clockstop-smoke.log"@),
{
}

/// A variable is read as its text is.
pub proof fn law_variable_is_read(value: &Option<String>, text: &str, n: Option<u64>, m: Option<u64>)
    requires
        value is Some ==> text@ == value->0@,
        call_ensures(read_u64, (value,), n),
        call_ensures(parse_u64, (text,), m),
    ensures
        value is Some ==> n == m,
        value is None ==> n is None,
{
}

/// A session starts with an empty bucket and nothing warned of or locked.
pub proof fn law_session_starts(
    duration: Span,
    snapshot: Sample,
    started_at: Span,
    last_tick: Span,
    s: Session,
)
    requires
        call_ensures(Session::start, (duration, snapshot, started_at, last_tick), s),
    ensures
        s.duration@ == duration@,
        s.snapshot.apps@ == snapshot.apps@,
        s.snapshot.windows@ == snapshot.windows@,
        s.started_at@ == started_at@,
        s.last_tick@ == last_tick@,
        s.bucket@ == 0,
        !s.warned,
        s.locked_at is None,
        s.cooldown_until is None,
{
}

/// A session is over from its start and its length on, and not before: exactly when there is nothing
/// left of it to show.
pub proof fn law_over_when_nothing_is_left(
    s: &Session,
    now: Span,
    delta: Population,
    over: bool,
    shown: SessionView,
)
    requires
        call_ensures(Session::is_over, (s, now), over),
        call_ensures(Session::view, (s, now, delta), shown),
    ensures
        over <==> shown.remaining@ == 0,
        s.duration@ > 0 ==> (over <==> now@ >= s.started_at@ + s.duration@),
        s.duration@ == 0 ==> over,
        !over && now@ >= s.started_at@ ==> now@ + shown.remaining@ == s.started_at@ + s.duration@,
        now@ <= s.started_at@ ==> shown.remaining@ == s.duration@,
{
}

/// What is shown of a session is its own length, bucket and windows, and the drift it is given.
pub proof fn law_session_is_shown(s: &Session, now: Span, delta: Population, shown: SessionView)
    requires
        call_ensures(Session::view, (s, now, delta), shown),
    ensures
        shown.duration@ == s.duration@,
        shown.bucket@ == s.bucket@,
        shown.snapshot.windows@ == s.snapshot.windows@,
        shown.snapshot.apps@ == s.snapshot.apps@,
        shown.delta@ == delta@,
{
}

/// A sample is due when the tick has passed since the last one, and never without a session.
pub proof fn law_samples_are_due(
    watch: &Watch,
    config: &Config,
    now: Span,
    due: bool,
)
    requires
        call_ensures(Watch::is_due, (watch, config, now), due),
    ensures
        watch.session is None ==> !due,
        watch.session is Some && config.tick@ > 0 ==> (due <==> now@ >= watch.session->0.last_tick@
            + config.tick@),
        watch.session is Some && config.tick@ == 0 ==> due,
{
}

/// A session's own word on when a sample is due is the watch's.
pub proof fn law_session_is_due(s: &Session, now: Span, tick: Span, due: bool)
    requires
        call_ensures(Session::is_due, (s, now, tick), due),
    ensures
        tick@ > 0 ==> (due <==> now@ >= s.last_tick@ + tick@),
        tick@ == 0 ==> due,
{
}

/// Whether a session cools down at `now`.
pub open spec fn cooling(s: Session, now: nat) -> bool {
    s.cooldown_until is Some && now < s.cooldown_until->0@
}

/// A sample fills the bucket by the time that has passed where it shows drift and the session does
/// not cool down, and else drains it by as much, down to nothing.
pub proof fn law_sample_fills_or_drains(
    s: &mut Session,
    now: Span,
    drifting: bool,
    threshold: Span,
    step: Step,
)
    requires
        call_ensures(Session::advance, (s, now, drifting, threshold), step),
    ensures
        ({
            let passed = if now@ > old(s).last_tick@ {
                now@ - old(s).last_tick@
            } else {
                0
            };
            let before = old(s).bucket@;
            let after = final(s).bucket@;
            if drifting && !cooling(*old(s), now@) {
                before + passed <= 18_446_744_073_709_551_615_999_999_999 ==> after == before
                    + passed
            } else {
                after == (if before > passed {
                    before - passed
                } else {
                    0
                })
            }
        }),
        final(s).last_tick@ == now@,
        final(s).duration@ == old(s).duration@,
        final(s).started_at@ == old(s).started_at@,
        final(s).snapshot.apps@ == old(s).snapshot.apps@,
        final(s).snapshot.windows@ == old(s).snapshot.windows@,
{
}

/// The user is warned of drift that has filled the bucket up to the threshold, once until it has
/// ceased, and not while a lock is being cooled down from.
pub proof fn law_sample_warns(
    s: &mut Session,
    now: Span,
    drifting: bool,
    threshold: Span,
    step: Step,
)
    requires
        call_ensures(Session::advance, (s, now, drifting, threshold), step),
    ensures
        step.warn <==> {
            &&& drifting
            &&& final(s).bucket@ >= threshold@
            &&& !old(s).warned
            &&& !(old(s).locked_at is Some && cooling(*old(s), now@))
        },
        step.warn ==> final(s).warned,
        !step.warn && (drifting || cooling(*old(s), now@)) ==> final(s).warned == old(s).warned,
        !drifting && !cooling(*old(s), now@) ==> !final(s).warned,
{
}

/// The lock is called for by drift that has filled the bucket up to twice the threshold, and not
/// while an earlier one is being cooled down from; it starts a cooldown as long as the threshold.
pub proof fn law_sample_locks(
    s: &mut Session,
    now: Span,
    drifting: bool,
    threshold: Span,
    step: Step,
)
    requires
        call_ensures(Session::advance, (s, now, drifting, threshold), step),
    ensures
        step.lock <==> {
            &&& drifting
            &&& final(s).bucket@ >= threshold@ + threshold@
            &&& !(old(s).locked_at is Some && cooling(*old(s), now@))
        },
        step.lock ==> length_of(final(s).locked_at) == Some(now@),
        step.lock && now@ + threshold@ <= 18_446_744_073_709_551_615_999_999_999 ==> length_of(
            final(s).cooldown_until,
        ) == Some((now@ + threshold@) as nat),
        step.lock ==> final(s).cooldown_until is Some,
        !step.lock && cooling(*old(s), now@) ==> length_of(final(s).locked_at) == length_of(
            old(s).locked_at,
        ) && length_of(final(s).cooldown_until) == length_of(old(s).cooldown_until),
        !step.lock && !cooling(*old(s), now@) ==> final(s).locked_at is None
            && final(s).cooldown_until is None,
        step.lock ==> final(s).warned,
{
}

/// The phase is the cooldown while it lasts, and else drift where there is any and the bucket is
/// full, and else a running session.
pub proof fn law_sample_phase(
    s: &mut Session,
    now: Span,
    drifting: bool,
    threshold: Span,
    step: Step,
)
    requires
        call_ensures(Session::advance, (s, now, drifting, threshold), step),
    ensures
        step.phase == Phase::Cooldown <==> cooling(*old(s), now@),
        step.phase == Phase::Drift <==> !cooling(*old(s), now@) && drifting && final(s).bucket@
            >= threshold@,
        step.phase == Phase::Running <==> !cooling(*old(s), now@) && !(drifting && final(s).bucket@
            >= threshold@),
{
}

/// The cooldown runs anew from the end of the lock command, and nothing else changes.
pub proof fn law_cooldown_runs_anew(s: &mut Session, now: Span, threshold: Span, at: Span, by: bool, done: ())
    requires
        call_ensures(Session::locked_by, (&*old(s), at), by),
        call_ensures(Session::cool_from, (s, now, threshold), done),
    ensures
        by <==> length_of(old(s).locked_at) == Some(at@),
        now@ + threshold@ <= 18_446_744_073_709_551_615_999_999_999 ==> length_of(
            final(s).cooldown_until,
        ) == Some((now@ + threshold@) as nat),
        final(s).cooldown_until is Some,
        final(s).bucket@ == old(s).bucket@,
        final(s).last_tick@ == old(s).last_tick@,
        final(s).duration@ == old(s).duration@,
        final(s).started_at@ == old(s).started_at@,
        final(s).warned == old(s).warned,
        length_of(final(s).locked_at) == length_of(old(s).locked_at),
        final(s).snapshot.apps@ == old(s).snapshot.apps@,
        final(s).snapshot.windows@ == old(s).snapshot.windows@,
{
}

/// The state before the first session.
pub proof fn law_first_state(default_minutes: u64, state: SharedState, watch: Watch)
    requires
        call_ensures(SharedState::idle, (default_minutes,), state),
        call_ensures(Watch::new, (), watch),
    ensures
        state.phase == Phase::Idle,
        state.default_minutes == default_minutes,
        state.session is None,
        state.last_event@ == "ready"@,
        watch.session is None,
        forall|app: Seq<char>| !watch.last_delta@.contains_key(app),
{
}

/// The words for the phases.
pub proof fn law_labels(phase: Phase, label: &'static str)
    requires
        call_ensures(Phase::label, (phase,), label),
    ensures
        phase is Idle ==> label@ == "Idle"@,
        phase is Running ==> label@ == "Running"@,
        phase is Drift ==> label@ == "Drifting"@,
        phase is Locked ==> label@ == "Locked"@,
        phase is Cooldown ==> label@ == "Cooldown"@,
{
}

/// The state is told by its phase, the seconds that are left, the seconds of drift and of the whole,
/// what has drifted, and the number of windows at the start.
pub proof fn law_status_in_words(
    state: &SharedState,
    shown: &SessionView,
    label: &'static str,
    left: u64,
    drift: u64,
    whole: u64,
    delta: String,
    words: String,
)
    requires
        state.session is Some ==> *shown == state.session->0,
        call_ensures(Phase::label, (state.phase,), label),
        call_ensures(Span::as_secs, (&shown.remaining,), left),
        call_ensures(Span::as_secs, (&shown.bucket,), drift),
        call_ensures(Span::as_secs, (&shown.duration,), whole),
        call_ensures(delta_text, (&shown.delta,), delta),
        call_ensures(status_message, (state,), words),
    ensures
        state.session is None ==> words@ == "idle"@,
        state.session is Some ==> words@ == label@ + ": "@ + decimal(left as nat)
            + "s left, drift "@ + decimal(drift as nat) + "s/"@ + decimal(whole as nat) + ", delta "@
            + delta@ + ", snapshot "@ + decimal(shown.snapshot.windows@.dom().len()) + " windows"@,
        left as int * 1_000_000_000 <= shown.remaining@ < (left + 1) * 1_000_000_000,
        drift as int * 1_000_000_000 <= shown.bucket@ < (drift + 1) * 1_000_000_000,
        whole as int * 1_000_000_000 <= shown.duration@ < (whole + 1) * 1_000_000_000,
{
}

/// The state shows the phase it is given and the session as the session shows itself.
pub proof fn law_state_is_updated(
    state: &mut SharedState,
    phase: Phase,
    session: &Option<Session>,
    now: Span,
    delta: Population,
    shown: SessionView,
    done: (),
)
    requires
        session is Some ==> call_ensures(Session::view, (&session->0, now, delta), shown),
        call_ensures(update_shared, (state, phase, session, now, delta), done),
    ensures
        final(state).phase == phase,
        final(state).default_minutes == old(state).default_minutes,
        final(state).last_event@ == old(state).last_event@,
        final(state).session is Some <==> session is Some,
        session is Some ==> {
            let s = final(state).session->0;
            &&& s.duration@ == shown.duration@
            &&& s.remaining@ == shown.remaining@
            &&& s.bucket@ == shown.bucket@
            &&& s.snapshot.windows@ == shown.snapshot.windows@
            &&& s.snapshot.apps@ == shown.snapshot.apps@
            &&& s.delta@ == delta@
        },
{
}

/// The heading of a notification.
pub open spec fn heading_of(popup: Option<(String, String)>) -> Seq<char> {
    match popup {
        Some((heading, _)) => heading@,
        None => seq![],
    }
}

/// The text of a notification.
pub open spec fn text_of(popup: Option<(String, String)>) -> Seq<char> {
    match popup {
        Some((_, text)) => text@,
        None => seq![],
    }
}

/// What is told by number holds that number, and what is told in words holds those words.
pub proof fn law_notices_in_words(notice: Notice, line: String, popup: Option<(String, String)>)
    requires
        call_ensures(Notice::log_line, (&notice,), line),
        call_ensures(Notice::notification, (&notice,), popup),
    ensures
        popup is None <==> notice is Quitting,
        notice is Ready ==> line@ == "clockstop ready"@,
        notice is Stopped ==> line@ == "session stopped"@,
        notice is Quitting ==> line@ == "quitting"@,
        notice is Locking ==> line@ == "lock command fired"@ && text_of(popup) == "locking"@,
        notice is Cooldown ==> line@ == "unlock assumed; cooldown started"@ && text_of(popup)
            == "cooldown: close the drift window"@,
        notice matches Notice::Started(n) ==> line@ == "started "@ + decimal(n as nat)
            + "m session"@,
        notice matches Notice::Completed(n) ==> line@ == "session "@ + decimal(n as nat)
            + "m complete"@ && text_of(popup) == "clockstop session ("@ + decimal(n as nat)
            + "m) complete"@,
        notice matches Notice::Status(words) ==> line@ == words@ && text_of(popup) == words@,
        notice matches Notice::Drifting(words) ==> line@ == "drift warning: "@ + words@
            && text_of(popup) == "close drift window: "@ + words@,
        notice is Ready || notice is Started || notice is Stopped ==> text_of(popup) == line@,
        notice is Status ==> heading_of(popup) == "clockstop status"@,
        notice is Drifting ==> heading_of(popup) == "clockstop drift"@,
        popup is Some && !(notice is Status) && !(notice is Drifting) ==> heading_of(popup)
            == "clockstop"@,
{
}

/// The last event is what was last told, and telling changes nothing else.
pub proof fn law_notice_is_recorded(state: &mut SharedState, notice: &Notice, line: String, done: ())
    requires
        call_ensures(Notice::log_line, (notice,), line),
        call_ensures(SharedState::record, (state, notice), done),
    ensures
        final(state).last_event@ == line@,
        final(state).phase == old(state).phase,
        final(state).default_minutes == old(state).default_minutes,
        final(state).session == old(state).session,
{
}

/// The program tells that it is ready and that it quits, and what its state is.
pub proof fn law_what_is_told(
    ready: Vec<Effect>,
    quit: Vec<Effect>,
    state: &SharedState,
    status: Vec<Effect>,
    words: String,
)
    requires
        call_ensures(Watch::ready, (), ready),
        call_ensures(Watch::quit, (), quit),
        call_ensures(Watch::status, (state,), status),
        call_ensures(status_message, (state,), words),
    ensures
        acts(ready@) == seq![EffectView::Announce(NoticeView::Ready)],
        acts(quit@) == seq![EffectView::Announce(NoticeView::Quitting), EffectView::ShutDown],
        acts(status@) == seq![
            EffectView::Announce(NoticeView::Status(words@)),
            EffectView::Refresh,
        ],
{
    lemma_acts(ready@);
    lemma_acts(quit@);
    lemma_acts(status@);
}

/// Starting replaces any session by one of the length and the windows given, makes its whole
/// minutes, at least one, the default, and tells so.
pub proof fn law_session_is_started(
    watch: &mut Watch,
    state: &mut SharedState,
    duration: Span,
    snapshot: Sample,
    started_at: Span,
    last_tick: Span,
    now: Span,
    todo: Vec<Effect>,
)
    requires
        call_ensures(
            Watch::start,
            (watch, state, duration, snapshot, started_at, last_tick, now),
            todo,
        ),
    ensures
        final(watch).session is Some,
        ({
            let s = final(watch).session->0;
            &&& s.duration@ == duration@
            &&& s.started_at@ == started_at@
            &&& s.last_tick@ == last_tick@
            &&& s.snapshot.apps@ == snapshot.apps@
            &&& s.snapshot.windows@ == snapshot.windows@
            &&& s.bucket@ == 0
            &&& !s.warned
            &&& s.locked_at is None
            &&& s.cooldown_until is None
        }),
        final(watch).last_delta@ == old(watch).last_delta@,
        ({
            let n = final(state).default_minutes as int;
            &&& n >= 1
            &&& duration@ < (n + 1) * 60_000_000_000
            &&& n * 60_000_000_000 <= duration@ || (n == 1 && duration@ < 60_000_000_000)
        }),
        final(state).phase == Phase::Running,
        final(state).last_event@ == old(state).last_event@,
        final(state).session is Some,
        ({
            let s = final(state).session->0;
            &&& s.duration@ == duration@
            &&& now@ >= started_at@ && now@ - started_at@ <= duration@ ==> s.remaining@ + now@
                == duration@ + started_at@
            &&& now@ <= started_at@ ==> s.remaining@ == duration@
            &&& now@ >= started_at@ + duration@ ==> s.remaining@ == 0
            &&& s.bucket@ == 0
            &&& s.snapshot.apps@ == snapshot.apps@
            &&& s.snapshot.windows@ == snapshot.windows@
            &&& s.delta@ == old(watch).last_delta@
        }),
        acts(todo@) == seq![
            EffectView::Announce(NoticeView::Started(final(state).default_minutes)),
            EffectView::Refresh,
        ],
{
    lemma_acts(todo@);
}

/// Stopping ends the session, leaves nothing of it to show, keeps the default, and tells so.
pub proof fn law_session_is_stopped(
    watch: &mut Watch,
    state: &mut SharedState,
    now: Span,
    todo: Vec<Effect>,
)
    requires
        call_ensures(Watch::stop, (watch, state, now), todo),
    ensures
        final(watch).session is None,
        forall|app: Seq<char>| !final(watch).last_delta@.contains_key(app),
        final(state).phase == Phase::Idle,
        final(state).session is None,
        final(state).default_minutes == old(state).default_minutes,
        final(state).last_event@ == old(state).last_event@,
        acts(todo@) == seq![EffectView::Announce(NoticeView::Stopped), EffectView::Refresh],
{
    lemma_acts(todo@);
}

/// A command does what it says: a start asks for a sample and a session of its own length, and
/// changes nothing yet; a stop stops; the status is told; and only quitting ends the program.
pub proof fn law_commands(
    watch: &mut Watch,
    state: &mut SharedState,
    command: AppCommand,
    now: Span,
    words: String,
    answer: Answer,
)
    requires
        call_ensures(status_message, (&*old(state),), words),
        call_ensures(Watch::carry_out, (watch, state, command, now), answer),
    ensures
        command matches AppCommand::Start(duration) ==> answer is Snapshot && answer->Snapshot_0@
            == duration@,
        answer is Snapshot <==> command is Start,
        answer is Leave <==> command is Quit,
        command is Stop ==> {
            &&& final(watch).session is None
            &&& !anything(final(watch).last_delta@)
            &&& final(state).session is None
            &&& final(state).phase == Phase::Idle
            &&& final(state).default_minutes == old(state).default_minutes
            &&& final(state).last_event@ == old(state).last_event@
            &&& acts(answer->Act_0@) == seq![
                EffectView::Announce(NoticeView::Stopped),
                EffectView::Refresh,
            ]
        },
        command is Status ==> acts(answer->Act_0@) == seq![
            EffectView::Announce(NoticeView::Status(words@)),
            EffectView::Refresh,
        ],
        command is Quit ==> acts(answer->Leave_0@) == seq![
            EffectView::Announce(NoticeView::Quitting),
            EffectView::ShutDown,
        ],
        !(command is Stop) ==> *final(watch) == *old(watch) && *final(state) == *old(state),
{
    if command is Stop {
        lemma_anything(final(watch).last_delta@);
    }
    if command is Stop || command is Status {
        lemma_acts(answer->Act_0@);
    }
    if command is Quit {
        lemma_acts(answer->Leave_0@);
    }
}

/// What a watch sees of drift is, application by application, how many more lines name it now than
/// did when the session started, whatever else was closed.
pub proof fn law_watch_sees_drift(
    start: Seq<char>,
    listed: Seq<char>,
    watch: &mut Watch,
    state: &mut SharedState,
    config: &Config,
    now: Span,
    current: &Sample,
    reaction: Reaction,
)
    requires
        old(watch).session is Some,
        old(watch).session->0.snapshot.lists(start),
        current.lists(listed),
        call_ensures(Watch::observe, (watch, state, config, now, current), reaction),
    ensures
        forall|app: Seq<char>| #[trigger]
            final(watch).last_delta@.contains_key(app) <==> lines_naming(listed, app)
                > lines_naming(start, app),
        forall|app: Seq<char>| #[trigger]
            final(watch).last_delta@.contains_key(app) ==> lines_naming(start, app) + final(watch).last_delta@[app] == lines_naming(listed, app),
        anything(final(watch).last_delta@) <==> exists|app: Seq<char>| #[trigger]
            lines_naming(listed, app) > lines_naming(start, app),
{
    lemma_apps_in(start);
    lemma_apps_in(listed);
    assert forall|app: Seq<char>| #[trigger] final(watch).last_delta@.contains_key(
        app,
    ) <==> lines_naming(listed, app) > lines_naming(start, app) by {
        assert(number_of(apps_in(start), app) == lines_naming(start, app));
        assert(number_of(apps_in(listed), app) == lines_naming(listed, app));
    }
    assert forall|app: Seq<char>| #[trigger] final(watch).last_delta@.contains_key(
        app,
    ) implies lines_naming(start, app) + final(watch).last_delta@[app] == lines_naming(
        listed,
        app,
    ) by {
        assert(number_of(apps_in(start), app) == lines_naming(start, app));
        assert(number_of(apps_in(listed), app) == lines_naming(listed, app));
    }
    if anything(final(watch).last_delta@) {
        let app = choose|app: Seq<char>| #[trigger] final(watch).last_delta@.contains_key(app);
        assert(lines_naming(listed, app) > lines_naming(start, app));
    }
    if exists|app: Seq<char>| #[trigger] lines_naming(listed, app) > lines_naming(start, app) {
        let app = choose|app: Seq<char>| #[trigger]
            lines_naming(listed, app) > lines_naming(start, app);
        assert(final(watch).last_delta@.contains_key(app));
    }
}

/// What a watch sees depends on the applications alone: what each has more of than the snapshot.
pub proof fn law_watch_compares_applications(
    watch: &mut Watch,
    state: &mut SharedState,
    config: &Config,
    now: Span,
    current: &Sample,
    reaction: Reaction,
)
    requires
        old(watch).session is Some,
        call_ensures(Watch::observe, (watch, state, config, now, current), reaction),
    ensures
        forall|app: Seq<char>| #[trigger]
            final(watch).last_delta@.contains_key(app) <==> number_of(current.apps@, app)
                > number_of(old(watch).session->0.snapshot.apps@, app),
        forall|app: Seq<char>| #[trigger]
            final(watch).last_delta@.contains_key(app) ==> number_of(
                old(watch).session->0.snapshot.apps@,
                app,
            ) + final(watch).last_delta@[app] == number_of(current.apps@, app),
{
}

/// Whether anything has drifted.
pub open spec fn anything(delta: Map<Seq<char>, nat>) -> bool {
    exists|app: Seq<char>| #[trigger] delta.contains_key(app)
}

proof fn lemma_anything(delta: Map<Seq<char>, nat>)
    ensures
        anything(delta) <==> delta != Map::<Seq<char>, nat>::empty(),
{
    if !anything(delta) {
        assert(delta =~= Map::<Seq<char>, nat>::empty());
    }
}

/// Through the watch a sample does to the session what it does by itself: with drift it fills the
/// bucket, warns at the threshold and locks at twice the threshold, and tells so in this order.
pub proof fn law_watch_acts_on_drift(
    watch: &mut Watch,
    state: &mut SharedState,
    config: &Config,
    now: Span,
    current: &Sample,
    words: String,
    reaction: Reaction,
)
    requires
        old(watch).session is Some,
        call_ensures(Watch::observe, (watch, state, config, now, current), reaction),
        call_ensures(delta_text, (&final(watch).last_delta,), words),
    ensures
        final(watch).session is Some,
        ({
            let before = old(watch).session->0;
            let after = final(watch).session->0;
            let drifting = anything(final(watch).last_delta@);
            let passed = if now@ > before.last_tick@ {
                now@ - before.last_tick@
            } else {
                0
            };
            let held = before.locked_at is Some && cooling(before, now@);
            let warn = drifting && after.bucket@ >= config.threshold@ && !before.warned && !held;
            let lock = drifting && after.bucket@ >= config.threshold@ + config.threshold@ && !held;
            let over = now@ >= before.started_at@ + before.duration@ || before.duration@ == 0;
            &&& after.last_tick@ == now@
            &&& after.started_at@ == before.started_at@
            &&& after.duration@ == before.duration@
            &&& after.snapshot.apps@ == before.snapshot.apps@
            &&& after.snapshot.windows@ == before.snapshot.windows@
            &&& drifting && !cooling(before, now@) && before.bucket@ + passed
                <= 18_446_744_073_709_551_615_999_999_999 ==> after.bucket@ == before.bucket@
                + passed
            &&& !(drifting && !cooling(before, now@)) ==> after.bucket@ == (if before.bucket@
                > passed {
                before.bucket@ - passed
            } else {
                0
            })
            &&& lock ==> length_of(after.locked_at) == Some(now@) && after.cooldown_until is Some
            &&& lock && now@ + config.threshold@ <= 18_446_744_073_709_551_615_999_999_999
                ==> length_of(after.cooldown_until) == Some((now@ + config.threshold@) as nat)
            &&& !lock && cooling(before, now@) ==> length_of(after.locked_at) == length_of(
                before.locked_at,
            ) && length_of(after.cooldown_until) == length_of(before.cooldown_until)
            &&& !lock && !cooling(before, now@) ==> after.locked_at is None
                && after.cooldown_until is None
            &&& after.warned <==> warn || (before.warned && (drifting || cooling(before, now@)))
            &&& reaction.phase == (if cooling(before, now@) {
                Phase::Cooldown
            } else if drifting && after.bucket@ >= config.threshold@ {
                Phase::Drift
            } else {
                Phase::Running
            })
            &&& acts(reaction.effects@) == (if warn {
                seq![EffectView::Announce(NoticeView::Drifting(words@))]
            } else {
                seq![]
            }) + (if lock {
                seq![
                    EffectView::Announce(NoticeView::Locking),
                    EffectView::Refresh,
                    EffectView::RunLock,
                ]
            } else {
                seq![]
            }) + (if lock && !over {
                seq![EffectView::Announce(NoticeView::Cooldown)]
            } else {
                seq![]
            })
            &&& !lock ==> *final(state) == *old(state)
            &&& lock ==> final(state).phase == Phase::Locked && final(state).session is Some
                && final(state).session->0.delta@ == final(watch).last_delta@
                && final(state).session->0.bucket@ == after.bucket@
                && final(state).session->0.duration@ == after.duration@
                && final(state).session->0.snapshot.apps@ == after.snapshot.apps@
                && final(state).session->0.snapshot.windows@ == after.snapshot.windows@
            &&& lock && over ==> final(state).session->0.remaining@ == 0
            &&& lock && !over && now@ >= before.started_at@ ==> final(state).session->0.remaining@
                + now@ == before.duration@ + before.started_at@
            &&& final(state).default_minutes == old(state).default_minutes
            &&& final(state).last_event@ == old(state).last_event@
        }),
{
    lemma_anything(final(watch).last_delta@);
    lemma_acts(reaction.effects@);
}

/// A session is ended by the first sample from its start and its length on, and by none before. What
/// goes on is shown as it is, and the end is told with the whole minutes of the session.
pub proof fn law_session_ends(
    watch: &mut Watch,
    state: &mut SharedState,
    config: &Config,
    phase: Phase,
    at: Span,
    now: Span,
    n: u64,
    todo: Vec<Effect>,
)
    requires
        old(watch).session is Some,
        call_ensures(Watch::settle, (watch, state, config, phase, at, now), todo),
        n as int * 60_000_000_000 <= old(watch).session->0.duration@ < (n + 1) * 60_000_000_000,
    ensures
        ({
            let s = old(watch).session->0;
            let over = at@ >= s.started_at@ + s.duration@ || s.duration@ == 0;
            &&& final(watch).session is None <==> over
            &&& final(state).session is None <==> over
            &&& over ==> final(state).phase == Phase::Idle && !anything(final(watch).last_delta@)
            &&& over ==> acts(todo@) == seq![
                EffectView::Announce(NoticeView::Completed(n)),
                EffectView::Refresh,
            ]
            &&& !over ==> acts(todo@) == seq![EffectView::Refresh]
            &&& !over ==> {
                let next = final(watch).session->0;
                let shown = final(state).session->0;
                &&& final(watch).last_delta@ == old(watch).last_delta@
                &&& next.bucket@ == s.bucket@
                &&& next.last_tick@ == s.last_tick@
                &&& next.started_at@ == s.started_at@
                &&& next.duration@ == s.duration@
                &&& next.warned == s.warned
                &&& next.snapshot.apps@ == s.snapshot.apps@
                &&& next.snapshot.windows@ == s.snapshot.windows@
                &&& length_of(next.locked_at) == length_of(s.locked_at)
                &&& length_of(s.locked_at) == Some(at@) && now@ + config.threshold@
                    <= 18_446_744_073_709_551_615_999_999_999 ==> length_of(next.cooldown_until)
                    == Some((now@ + config.threshold@) as nat)
                &&& length_of(s.locked_at) != Some(at@) ==> length_of(next.cooldown_until)
                    == length_of(s.cooldown_until)
                &&& final(state).phase == phase
                &&& shown.duration@ == s.duration@
                &&& shown.bucket@ == s.bucket@
                &&& shown.delta@ == old(watch).last_delta@
                &&& shown.snapshot.apps@ == s.snapshot.apps@
                &&& shown.snapshot.windows@ == s.snapshot.windows@
                &&& now@ >= s.started_at@ && now@ - s.started_at@ <= s.duration@
                    ==> shown.remaining@ + now@ == s.duration@ + s.started_at@
                &&& now@ >= s.started_at@ + s.duration@ ==> shown.remaining@ == 0
                &&& now@ <= s.started_at@ ==> shown.remaining@ == s.duration@
            }
            &&& final(state).default_minutes == old(state).default_minutes
            &&& final(state).last_event@ == old(state).last_event@
        }),
{
    lemma_acts(todo@);
    let s = old(watch).session->0;
    if at@ >= s.started_at@ + s.duration@ || s.duration@ == 0 {
        assert(crate::watch::minutes(s.duration@) == n);
        lemma_anything(final(watch).last_delta@);
    }
}

} // verus!
