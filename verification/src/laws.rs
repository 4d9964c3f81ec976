//! What holds of the program as a whole.
pub mod course;
pub mod text;
pub mod tray;
pub mod windows;

use vstd::prelude::*;
use vstd::string::*;

use crate::menu::{chosen, Item};
use crate::notice::NoticeView;
use crate::service::{Registration, ATTEMPTS};
use crate::session::Session;
use crate::state::{Phase, SharedState};
use crate::text::Class;
use crate::time::{LONGEST, SECOND};
use crate::watch::Watch;

verus! {

use crate::drift::{by_app, delta_words, gains, grown, lemma_by_app_step, lemma_counts_step};
use crate::identity::{app_id, app_of};
use crate::number::{decimal, is_digit, law_decimal_is_read_back, lemma_decimal, parsed};
use crate::population::{ascending, count, counts, lemma_sorted_listing, listed_at};
use crate::sample::{apps, apps_in, lines, occurrences};
use crate::session::opt_span;
use crate::text::{joined, lemma_run_is, lemma_tail_run_is, trimmed, without_prefix};
use crate::time::{capped_sum, less};
use crate::watch::{minutes, sample_effects, EffectView};

/// How many windows of `app` the listing `raw` has.
pub open spec fn windows_of(raw: Seq<char>, app: Seq<char>) -> nat {
    occurrences(apps(lines(raw)), app)
}

/// Drift means that a new application id appears or that the count of one that was there
/// increases.
pub proof fn law_drift(start: Seq<char>, now: Seq<char>)
    ensures
        grown(apps_in(start), apps_in(now)) != Map::<Seq<char>, nat>::empty() <==> exists|
            app: Seq<char>,
        |
            (windows_of(start, app) == 0 && windows_of(now, app) > 0) || (0 < windows_of(start, app)
                < #[trigger] windows_of(now, app)),
{
    let delta = grown(apps_in(start), apps_in(now));
    if delta != Map::<Seq<char>, nat>::empty() {
        assert(exists|app: Seq<char>| delta.contains_key(app)) by {
            if forall|app: Seq<char>| !delta.contains_key(app) {
                assert(delta =~= Map::<Seq<char>, nat>::empty());
            }
        }
        let app = choose|app: Seq<char>| delta.contains_key(app);
        assert(windows_of(now, app) > windows_of(start, app));
    }
    if exists|app: Seq<char>|
        (windows_of(start, app) == 0 && windows_of(now, app) > 0) || (0 < windows_of(start, app)
            < #[trigger] windows_of(now, app)) {
        let app = choose|app: Seq<char>|
            (windows_of(start, app) == 0 && windows_of(now, app) > 0) || (0 < windows_of(
                start,
                app,
            ) < #[trigger] windows_of(now, app));
        assert(delta.contains_key(app));
    }
}

/// What has drifted of an application is what it has more of.
pub proof fn law_drift_by_app(start: Seq<char>, now: Seq<char>, app: Seq<char>)
    ensures
        count(grown(apps_in(start), apps_in(now)), app) == less(
            windows_of(now, app),
            windows_of(start, app),
        ),
{
}

/// A listing does not drift from itself, nor from one with the same applications.
pub proof fn law_same_apps_do_not_drift(start: Seq<char>, now: Seq<char>)
    requires
        forall|app: Seq<char>| windows_of(start, app) == windows_of(now, app),
    ensures
        grown(apps_in(start), apps_in(now)) == Map::<Seq<char>, nat>::empty(),
{
    assert forall|app: Seq<char>| !grown(apps_in(start), apps_in(now)).contains_key(app) by {
        assert(windows_of(start, app) == windows_of(now, app));
    }
    assert(grown(apps_in(start), apps_in(now)) =~= Map::<Seq<char>, nat>::empty());
}

/// One more window is a drift of one.
pub proof fn law_one_more_window(
    start: Seq<char>,
    now: Seq<char>,
    line: Seq<char>,
    app: Seq<char>,
)
    requires
        lines(now) == lines(start).push(line),
        app_id(line) == Some(app),
    ensures
        grown(apps_in(start), apps_in(now)) == Map::<Seq<char>, nat>::empty().insert(app, 1),
{
    let before = apps(lines(start));
    assert(lines(now).drop_last() == lines(start));
    assert(apps(lines(now)) == before.push(app));
    assert(before.push(app).drop_last() == before);
    assert(grown(apps_in(start), apps_in(now)) =~= Map::<Seq<char>, nat>::empty().insert(app, 1));
}

/// Closing windows is no drift.
pub proof fn law_closing_windows_is_no_drift(start: Seq<char>, now: Seq<char>)
    requires
        forall|app: Seq<char>| windows_of(now, app) <= windows_of(start, app),
    ensures
        grown(apps_in(start), apps_in(now)) == Map::<Seq<char>, nat>::empty(),
{
    assert forall|app: Seq<char>| !grown(apps_in(start), apps_in(now)).contains_key(app) by {
        assert(windows_of(now, app) <= windows_of(start, app));
    }
    assert(grown(apps_in(start), apps_in(now)) =~= Map::<Seq<char>, nat>::empty());
}

/// Every sample in the order of time keeps a session sound.
pub proof fn law_sound_is_kept(s: Session, next: Session, now: nat, drifting: bool, threshold: nat)
    requires
        s.sound(),
        s.last_tick@ <= now,
        s.steps_to(next, now, drifting, threshold),
    ensures
        next.sound(),
{
}

/// Before the first session the watch and the state agree.
pub proof fn law_first_state_agrees(watch: Watch, state: SharedState, threshold: nat)
    requires
        watch.session is None,
        state.phase == Phase::Idle,
        state.session is None,
    ensures
        watch.agrees(state, threshold),
{
}

/// A session that is locked as it ends is not told to cool down.
pub proof fn law_no_cooldown_after_the_end(
    s: Session,
    now: nat,
    delta: Map<Seq<char>, nat>,
    threshold: nat,
)
    requires
        s.over_at(now),
    ensures
        !sample_effects(s, now, delta, threshold).contains(
            EffectView::Announce(NoticeView::Cooldown),
        ),
{
}

/// The user is never warned sooner than the threshold after the start.
pub proof fn law_no_early_warning(s: Session, now: nat, drifting: bool, threshold: nat)
    requires
        s.sound(),
        s.last_tick@ <= now,
        s.warns_at(now, drifting, threshold),
    ensures
        now - s.started_at@ >= threshold,
{
}

/// The session is never locked sooner than twice the threshold after the start, and only while
/// there is drift.
pub proof fn law_no_early_lock(s: Session, now: nat, drifting: bool, threshold: nat)
    requires
        s.sound(),
        s.last_tick@ <= now,
        s.locks_at(now, drifting, threshold),
    ensures
        drifting,
        now - s.started_at@ >= 2 * threshold,
{
}

/// The lock never comes without a warning before it or with it.
pub proof fn law_lock_is_warned_of(
    s: Session,
    next: Session,
    now: nat,
    drifting: bool,
    threshold: nat,
)
    requires
        s.locks_at(now, drifting, threshold),
        s.steps_to(next, now, drifting, threshold),
    ensures
        s.warned_at(now, drifting) || s.warns_at(now, drifting, threshold),
        next.warned,
{
}

/// The lock command is run exactly when a session is to be locked.
pub proof fn law_lock_command_runs_when_locking(
    s: Session,
    now: nat,
    delta: Map<Seq<char>, nat>,
    threshold: nat,
)
    ensures
        sample_effects(s, now, delta, threshold).contains(EffectView::RunLock) <==> s.locks_at(
            now,
            delta != Map::<Seq<char>, nat>::empty(),
            threshold,
        ),
{
    let all = sample_effects(s, now, delta, threshold);
    if s.locks_at(now, delta != Map::<Seq<char>, nat>::empty(), threshold) {
        let warned = if s.warns_at(now, true, threshold) {
            1int
        } else {
            0
        };
        assert(all[warned + 2] == EffectView::RunLock);
    }
}

/// While the window of the cooldown runs after a lock, the user is neither warned of drift nor locked
/// out again, drift does not build up, and the phase shown is the cooldown.
pub proof fn law_rest_after_the_lock(
    s: Session,
    next: Session,
    now: nat,
    drifting: bool,
    threshold: nat,
)
    requires
        s.held_at(now),
        s.steps_to(next, now, drifting, threshold),
    ensures
        !s.locks_at(now, drifting, threshold),
        !s.warns_at(now, drifting, threshold),
        opt_span(next.locked_at) == opt_span(s.locked_at),
        opt_span(next.cooldown_until) == opt_span(s.cooldown_until),
        next.bucket@ == less(s.bucket@, less(now, s.last_tick@)),
        s.phase_at(now, drifting, threshold) == Phase::Cooldown,
{
}

/// The lock starts a cooldown whose window is as long as the threshold, as far as time goes.
pub proof fn law_lock_starts_cooldown(
    s: Session,
    next: Session,
    now: nat,
    drifting: bool,
    threshold: nat,
)
    requires
        s.locks_at(now, drifting, threshold),
        s.steps_to(next, now, drifting, threshold),
    ensures
        opt_span(next.locked_at) == Some(now),
        opt_span(next.cooldown_until) == Some(capped_sum(now, threshold)),
        forall|t: nat| #[trigger] next.held_at(t) <==> t < capped_sum(now, threshold),
{
}

/// Where the lock command takes its time, the window of the cooldown is as long as the threshold
/// from its end on, as far as time goes.
pub proof fn law_cooldown_follows_the_lock(s: Session, next: Session, done: nat, threshold: nat)
    requires
        s.locked_at is Some,
        s.cools_from(next, done, threshold),
    ensures
        forall|t: nat| #[trigger] next.held_at(t) <==> t < capped_sum(done, threshold),
{
}

/// The cooldown ends: at the first sample after its window the lock and the cooldown are taken back,
/// the phase shown is not the cooldown, and drift builds up and drains as before the lock.
pub proof fn law_cooldown_ends(s: Session, next: Session, now: nat, drifting: bool, threshold: nat)
    requires
        s.cooldown_until matches Some(until) && now >= until@,
        s.steps_to(next, now, drifting, threshold),
    ensures
        s.phase_at(now, drifting, threshold) != Phase::Cooldown,
        next.bucket@ == (if drifting {
            capped_sum(s.bucket@, less(now, s.last_tick@))
        } else {
            less(s.bucket@, less(now, s.last_tick@))
        }),
        s.locks_at(now, drifting, threshold) <==> drifting && next.bucket@ >= 2 * threshold,
        s.warns_at(now, drifting, threshold) <==> drifting && next.bucket@ >= threshold
            && !s.warned,
        !s.locks_at(now, drifting, threshold) ==> next.locked_at is None
            && next.cooldown_until is None,
{
}

/// The cooldown lasts no longer than the threshold from the first sample after the lock: a sample
/// that comes later does not find it, and drift builds up there as before the lock.
pub proof fn law_cooldown_window(
    s: Session,
    locked: Session,
    settled: Session,
    next: Session,
    at: nat,
    t: nat,
    now: nat,
    drifting: bool,
    threshold: nat,
)
    requires
        s.locks_at(at, true, threshold),
        s.steps_to(locked, at, true, threshold),
        settled == locked || exists|done: nat|
            at <= done <= t && #[trigger] locked.cools_from(settled, done, threshold),
        at <= t,
        settled.steps_to(next, t, drifting, threshold),
        now >= capped_sum(t, threshold),
    ensures
        !next.resting(now),
        forall|d: bool| #[trigger] next.phase_at(now, d, threshold) != Phase::Cooldown,
        next.bucket_at(now, true) == capped_sum(next.bucket@, less(now, t)),
{
}

/// The user is warned once of a drift: the warning is not repeated while the drift goes on.
pub proof fn law_warned_once(s: Session, next: Session, now: nat, threshold: nat)
    requires
        s.warned,
        s.steps_to(next, now, true, threshold),
    ensures
        !s.warns_at(now, true, threshold),
        next.warned,
{
}

/// Without drift the bucket drains by the time that passes, until it is empty.
pub proof fn law_bucket_drains(s: Session, next: Session, now: nat, threshold: nat)
    requires
        s.steps_to(next, now, false, threshold),
    ensures
        next.bucket@ == less(s.bucket@, less(now, s.last_tick@)),
        less(now, s.last_tick@) >= s.bucket@ ==> next.bucket@ == 0,
        !s.warns_at(now, false, threshold),
        !s.locks_at(now, false, threshold),
        s.phase_at(now, false, threshold) != Phase::Drift,
{
}

/// While nothing rests, drift fills the bucket by the time that passes, as far as time goes.
pub proof fn law_bucket_fills(s: Session, next: Session, now: nat, threshold: nat)
    requires
        !s.resting(now),
        s.steps_to(next, now, true, threshold),
    ensures
        next.bucket@ == capped_sum(s.bucket@, less(now, s.last_tick@)),
{
}

/// A session of whole minutes makes their number the default.
pub proof fn law_whole_minutes(n: nat)
    ensures
        minutes(n * 60 * SECOND as nat) == n,
{
    assert(n * 60 * SECOND as nat / (SECOND as nat) == n * 60) by (nonlinear_arith)
        requires
            SECOND == 1_000_000_000,
    ;
}

/// What the user is told comes with a notification, unless it is that the program quits.
pub proof fn law_notifications(notice: NoticeView)
    ensures
        notice.popup() is Some <==> !(notice is Quitting),
{
}

/// Registration is tried until it succeeds, but no more often than is allowed.
pub proof fn law_registration_ends(n: nat)
    ensures
        Registration::after_failures(n) == (if n < ATTEMPTS {
            Registration::Try((n + 1) as u32)
        } else {
            Registration::GivenUp
        }),
    decreases n,
{
    if n > 0 {
        law_registration_ends((n - 1) as nat);
    }
}

/// All lines of a menu are handed out where none is named.
pub proof fn law_no_ids_name_all(list: Seq<Item>)
    ensures
        chosen(list, seq![]) == list,
    decreases list.len(),
{
    if list.len() > 0 {
        law_no_ids_name_all(list.drop_last());
        assert(list.drop_last().push(list.last()) == list);
    }
}

/// How long there was drift, by samples that each give their time and whether they show drift,
/// where the sample before the first was taken at `from`.
pub open spec fn drift_time(samples: Seq<(nat, bool)>, from: nat) -> nat
    decreases samples.len(),
{
    if samples.len() == 0 {
        0
    } else {
        let before = samples.drop_last();
        let last = if before.len() == 0 {
            from
        } else {
            before.last().0
        };
        drift_time(before, from) + (if samples.last().1 {
            less(samples.last().0, last)
        } else {
            0
        })
    }
}

/// Whether `next` is `s` once what the sample at `now` called for is done: the same session, or,
/// where that sample had it locked, the session whose cooldown runs from then on.
pub open spec fn settles_to(s: Session, next: Session, now: nat, threshold: nat) -> bool {
    ||| next == s
    ||| opt_span(s.locked_at) == Some(now) && exists|done: nat|
        done >= now && #[trigger] s.cools_from(next, done, threshold)
}

/// Whether `next` is what the sample at `now` makes of `s`, all told.
pub open spec fn ticks_to(
    s: Session,
    next: Session,
    now: nat,
    drifting: bool,
    threshold: nat,
) -> bool {
    exists|mid: Session|
        #[trigger] s.steps_to(mid, now, drifting, threshold) && settles_to(
            mid,
            next,
            now,
            threshold,
        )
}

/// Whether sample `i` takes the session from one state of its course to the next.
pub open spec fn ticks_in(
    course: Seq<Session>,
    samples: Seq<(nat, bool)>,
    threshold: nat,
    i: int,
) -> bool {
    ticks_to(course[i], course[i + 1], samples[i].0, samples[i].1, threshold)
}

/// Whether `course` is the course of a session through `samples`: the state at its start and the
/// state after each sample.
pub open spec fn runs_through(
    course: Seq<Session>,
    samples: Seq<(nat, bool)>,
    threshold: nat,
) -> bool {
    &&& course.len() == samples.len() + 1
    &&& course[0].bucket@ == 0
    &&& course[0].locked_at is None
    &&& course[0].cooldown_until is None
    &&& forall|i: int|
        0 <= i < samples.len() ==> #[trigger] ticks_in(course, samples, threshold, i)
}

/// Whether the samples are in the order of time, from `from` on.
pub open spec fn in_time(samples: Seq<(nat, bool)>, from: nat) -> bool {
    &&& samples.len() > 0 ==> from <= samples[0].0
    &&& forall|i: int, j: int|
        0 <= i <= j < samples.len() ==> #[trigger] samples[i].0 <= #[trigger] samples[j].0
}

/// Whether sample `i` has the session locked.
pub open spec fn locks_in(
    course: Seq<Session>,
    samples: Seq<(nat, bool)>,
    threshold: nat,
    i: int,
) -> bool {
    0 <= i < samples.len() && course[i].locks_at(samples[i].0, samples[i].1, threshold)
}

/// What a sample does, all told: but for the end of the cooldown after a lock, what it does by
/// itself.
proof fn lemma_tick(s: Session, next: Session, now: nat, drifting: bool, threshold: nat)
    requires
        ticks_to(s, next, now, drifting, threshold),
    ensures
        next.bucket@ == s.bucket_at(now, drifting),
        next.last_tick@ == now,
        next.warned == (s.warned_at(now, drifting) || s.warns_at(now, drifting, threshold)),
        s.locks_at(now, drifting, threshold) ==> opt_span(next.locked_at) == Some(now) && (
        next.cooldown_until matches Some(u) && u@ >= capped_sum(now, threshold)),
        !s.locks_at(now, drifting, threshold) && !s.resting(now) ==> next.locked_at is None
            && next.cooldown_until is None,
        !s.locks_at(now, drifting, threshold) && s.resting(now) ==> opt_span(next.locked_at)
            == opt_span(s.locked_at) && (opt_span(next.cooldown_until) == opt_span(s.cooldown_until)
            || (next.cooldown_until matches Some(u) && opt_span(s.locked_at) == Some(now) && u@
            >= capped_sum(now, threshold))),
{
    let mid = choose|mid: Session|
        #[trigger] s.steps_to(mid, now, drifting, threshold) && settles_to(
            mid,
            next,
            now,
            threshold,
        );
    if next != mid {
        let done = choose|done: nat| done >= now && #[trigger] mid.cools_from(next, done, threshold);
        assert(mid.cools_from(next, done, threshold));
    }
}

/// The course before the last sample.
proof fn lemma_course_before(course: Seq<Session>, samples: Seq<(nat, bool)>, threshold: nat)
    requires
        runs_through(course, samples, threshold),
        samples.len() > 0,
    ensures
        runs_through(course.drop_last(), samples.drop_last(), threshold),
        course.drop_last().last() == course[samples.len() - 1],
        ticks_to(
            course[samples.len() - 1],
            course.last(),
            samples.last().0,
            samples.last().1,
            threshold,
        ),
{
    let c = course.drop_last();
    let s = samples.drop_last();
    assert forall|i: int| 0 <= i < s.len() implies #[trigger] ticks_in(c, s, threshold, i) by {
        assert(ticks_in(course, samples, threshold, i));
    }
    assert(ticks_in(course, samples, threshold, samples.len() - 1));
}

/// No more drift builds up than there was drift.
proof fn lemma_bucket_at_most_drift_time(
    course: Seq<Session>,
    samples: Seq<(nat, bool)>,
    threshold: nat,
)
    requires
        runs_through(course, samples, threshold),
    ensures
        course.last().bucket@ <= drift_time(samples, course[0].last_tick@),
        course.last().last_tick@ == (if samples.len() == 0 {
            course[0].last_tick@
        } else {
            samples.last().0
        }),
    decreases samples.len(),
{
    if samples.len() > 0 {
        lemma_course_before(course, samples, threshold);
        lemma_bucket_at_most_drift_time(course.drop_last(), samples.drop_last(), threshold);
        lemma_tick(
            course[samples.len() - 1],
            course.last(),
            samples.last().0,
            samples.last().1,
            threshold,
        );
    }
}

/// The lock comes after sustained drift alone: where the last sample of a session's course has it
/// locked, there was drift for twice the threshold.
pub proof fn law_lock_after_sustained_drift(
    course: Seq<Session>,
    samples: Seq<(nat, bool)>,
    threshold: nat,
)
    requires
        runs_through(course, samples, threshold),
        locks_in(course, samples, threshold, samples.len() - 1),
    ensures
        drift_time(samples, course[0].last_tick@) >= 2 * threshold,
{
    lemma_bucket_at_most_drift_time(course, samples, threshold);
    lemma_course_before(course, samples, threshold);
    lemma_tick(
        course[samples.len() - 1],
        course.last(),
        samples.last().0,
        samples.last().1,
        threshold,
    );
}

/// A lock holds until its cooldown has ended.
proof fn lemma_lock_holds(
    course: Seq<Session>,
    samples: Seq<(nat, bool)>,
    threshold: nat,
    i: int,
    j: int,
)
    requires
        runs_through(course, samples, threshold),
        in_time(samples, course[0].last_tick@),
        locks_in(course, samples, threshold, i),
        i < j <= samples.len(),
    ensures
        samples[j - 1].0 >= capped_sum(samples[i].0, threshold) || (opt_span(course[j].locked_at)
            == Some(samples[i].0) && (course[j].cooldown_until matches Some(u) && u@ >= capped_sum(
            samples[i].0,
            threshold,
        ))),
    decreases j,
{
    let k = j - 1;
    assert(ticks_in(course, samples, threshold, k));
    lemma_tick(course[k], course[k + 1], samples[k].0, samples[k].1, threshold);
    if i < k {
        lemma_lock_holds(course, samples, threshold, i, k);
        assert(samples[k - 1].0 <= samples[k].0);
    }
}

/// Two locks of a session are at least the threshold apart, as far as time goes: there is none while
/// the window of the cooldown runs.
pub proof fn law_locks_are_apart(
    course: Seq<Session>,
    samples: Seq<(nat, bool)>,
    threshold: nat,
    i: int,
    j: int,
)
    requires
        runs_through(course, samples, threshold),
        in_time(samples, course[0].last_tick@),
        i < j,
        locks_in(course, samples, threshold, i),
        locks_in(course, samples, threshold, j),
    ensures
        samples[j].0 >= capped_sum(samples[i].0, threshold),
{
    lemma_lock_holds(course, samples, threshold, i, j);
    assert(samples[j - 1].0 <= samples[j].0);
}

/// While there was drift since `from` and no lock, the bucket holds all the time since then.
proof fn lemma_drift_goes_on(s: Session, next: Session, from: nat, now: nat, threshold: nat)
    requires
        ticks_to(s, next, now, true, threshold),
        !s.locks_at(now, true, threshold),
        s.locked_at is None,
        s.cooldown_until is None,
        from <= s.last_tick@ <= now <= LONGEST,
        s.bucket@ == s.last_tick@ - from,
    ensures
        next.locked_at is None,
        next.cooldown_until is None,
        next.last_tick@ == now,
        next.bucket@ == now - from,
        now - from < 2 * threshold,
        now - from >= threshold ==> next.warned,
{
    lemma_tick(s, next, now, true, threshold);
}

/// While the first `n` samples show drift and none has the session locked, the bucket holds all the
/// time since the start.
proof fn lemma_sustained_drift(
    course: Seq<Session>,
    samples: Seq<(nat, bool)>,
    threshold: nat,
    n: int,
)
    requires
        runs_through(course, samples, threshold),
        0 < n <= samples.len(),
        in_time(samples, course[0].last_tick@),
        forall|i: int| 0 <= i < samples.len() ==> #[trigger] samples[i].1,
        forall|i: int| !locks_in(course, samples, threshold, i),
        samples[n - 1].0 <= LONGEST,
    ensures
        course[n].locked_at is None,
        course[n].cooldown_until is None,
        course[n].last_tick@ == samples[n - 1].0,
        course[n].bucket@ == samples[n - 1].0 - course[0].last_tick@,
        course[n].bucket@ < 2 * threshold,
        course[n].bucket@ >= threshold ==> course[n].warned,
    decreases n,
{
    let k = n - 1;
    let from = course[0].last_tick@;
    assert(samples[0].0 <= samples[k].0);
    if k > 0 {
        assert(samples[k - 1].0 <= samples[k].0);
        lemma_sustained_drift(course, samples, threshold, k);
        assert(samples[0].0 <= samples[k - 1].0);
    }
    assert(samples[k].1);
    assert(!locks_in(course, samples, threshold, k));
    assert(ticks_in(course, samples, threshold, k));
    lemma_drift_goes_on(course[k], course[n], from, samples[k].0, threshold);
}

/// Where all samples show drift, the user stays warned after a lock.
proof fn lemma_stays_warned(
    course: Seq<Session>,
    samples: Seq<(nat, bool)>,
    threshold: nat,
    i: int,
    n: int,
)
    requires
        runs_through(course, samples, threshold),
        forall|i: int| 0 <= i < samples.len() ==> #[trigger] samples[i].1,
        locks_in(course, samples, threshold, i),
        i < n <= samples.len(),
    ensures
        course[n].warned,
    decreases n,
{
    let k = n - 1;
    assert(samples[k].1);
    assert(ticks_in(course, samples, threshold, k));
    lemma_tick(course[k], course[k + 1], samples[k].0, true, threshold);
    if i < k {
        lemma_stays_warned(course, samples, threshold, i, k);
    }
}

/// Drift that is not reverted is acted on: where every sample since the start shows drift, the user
/// has been warned once it lasted for the threshold, and the session has been locked once it lasted
/// for twice the threshold.
pub proof fn law_sustained_drift_is_acted_on(
    course: Seq<Session>,
    samples: Seq<(nat, bool)>,
    threshold: nat,
)
    requires
        runs_through(course, samples, threshold),
        samples.len() > 0,
        in_time(samples, course[0].last_tick@),
        forall|i: int| 0 <= i < samples.len() ==> #[trigger] samples[i].1,
        samples.last().0 <= LONGEST,
    ensures
        samples.last().0 - course[0].last_tick@ >= threshold ==> course.last().warned,
        samples.last().0 - course[0].last_tick@ >= 2 * threshold ==> exists|i: int|
            locks_in(course, samples, threshold, i),
{
    let n = samples.len() as int;
    assert(course.last() == course[n]);
    if exists|i: int| locks_in(course, samples, threshold, i) {
        let i = choose|i: int| locks_in(course, samples, threshold, i);
        lemma_stays_warned(course, samples, threshold, i, n);
    } else {
        lemma_sustained_drift(course, samples, threshold, n);
    }
}

/// Where no name holds a tab, what has drifted is told by those names.
pub proof fn law_names_are_told(list: Seq<(Seq<char>, nat)>)
    requires
        ascending(list),
        list.len() > 0,
        forall|i: int| 0 <= i < list.len() ==> !(#[trigger] list[i].0).contains('\t'),
    ensures
        delta_words(counts(list)) == joined(gains(list), ", "@),
{
    lemma_sorted_listing(list);
    lemma_by_app_is_counts(list, list.len() as int);
    assert(list.take(list.len() as int) == list);
    assert(listed_at(list, list[0].0, 0));
    assert(counts(list).contains_key(list[0].0));
    assert(counts(list) != Map::<Seq<char>, nat>::empty());
}

/// Names without tabs are applications of their own.
proof fn lemma_by_app_is_counts(list: Seq<(Seq<char>, nat)>, n: int)
    requires
        ascending(list),
        0 <= n <= list.len(),
        forall|i: int| 0 <= i < list.len() ==> !(#[trigger] list[i].0).contains('\t'),
    ensures
        by_app(list.take(n)) == counts(list.take(n)),
    decreases n,
{
    if n == 0 {
        assert(by_app(list.take(0)) =~= counts(list.take(0)));
    } else {
        lemma_by_app_is_counts(list, n - 1);
        lemma_by_app_step(list, n - 1);
        lemma_counts_step(list, n - 1);
        let name = list[n - 1].0;
        assert forall|i: int| 0 <= i < name.len() implies Class::Except('\t').has(
            #[trigger] name[i],
        ) by {
            if name[i] == '\t' {
                assert(name.contains('\t'));
            }
        }
        lemma_run_is(name, Class::Except('\t'), name.len());
        assert(app_of(name) == name);
    }
}

/// A length in minutes that a command prints on a line of its own is the one that is read.
pub proof fn law_printed_choice_is_read(n: u64)
    ensures
        parsed(trimmed(decimal(n as nat) + seq!['\n'], Class::Space)) == Some(n),
{
    let digits = decimal(n as nat);
    let s = digits + seq!['\n'];
    lemma_decimal(n as nat);
    assert(s[0] == digits[0] && is_digit(digits[0]));
    lemma_run_is(s, Class::Space, 0);
    assert(without_prefix(s, Class::Space) == s);
    assert(s[s.len() - 2] == digits.last() && is_digit(digits.last()));
    lemma_tail_run_is(s, Class::Space, 1);
    assert(s.take(s.len() - 1) == digits);
    law_decimal_is_read_back(n);
}

} // verus!
