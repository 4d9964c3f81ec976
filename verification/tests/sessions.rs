use clockstop::config::{read_u64, Config, Environment};
use clockstop::notice::Notice;
use clockstop::sample::Sample;
use clockstop::session::Session;
use clockstop::state::{status_message, update_shared, Phase, SharedState};
use clockstop::time::Span;
use clockstop::watch::{Answer, AppCommand, Effect, Watch};

fn secs(n: u64) -> Span {
    Span::from_secs(n)
}

fn config() -> Config {
    Config::from_env(unset())
}

fn unset() -> Environment {
    Environment {
        default_minutes: None,
        threshold_seconds: None,
        tick_seconds: None,
        sample_cmd: None,
        lock_cmd: None,
        picker_cmd: None,
        log: None,
    }
}

fn set(value: &str) -> Option<String> {
    Some(value.to_string())
}

/// The effects in short: the log lines of notices, and the names of the others.
fn told(todo: &[Effect]) -> Vec<String> {
    todo.iter()
        .map(|effect| match effect {
            Effect::Announce(notice) => notice.log_line(),
            Effect::Refresh => "[refresh]".to_string(),
            Effect::RunLock => "[lock]".to_string(),
            Effect::ShutDown => "[shut down]".to_string(),
        })
        .collect()
}

fn same(a: Span, b: Span) -> bool {
    a.at_least(b) && b.at_least(a)
}

/// A watch with a session of 25 minutes that started at second 100 with one terminal open.
fn started() -> (Watch, SharedState) {
    let mut watch = Watch::new();
    let mut state = SharedState::idle(25);
    let snapshot = Sample::parse("app_id=foot");
    watch.start(&mut state, secs(1500), snapshot, secs(100), secs(100), secs(100));
    (watch, state)
}

/// What a sample of `raw` at second `at` calls for, and the phase that is shown afterwards.
fn sampled(watch: &mut Watch, state: &mut SharedState, raw: &str, at: u64) -> (Vec<String>, Phase) {
    let reaction = watch.observe(state, &config(), secs(at), &Sample::parse(raw));
    let mut all = told(&reaction.effects);
    let rest = watch.settle(state, &config(), reaction.phase, secs(at), secs(at));
    all.extend(told(&rest));
    (all, state.phase)
}

const CALM: &str = "app_id=foot title=other";
const DRIFT: &str = "app_id=foot\napp_id=firefox\napp_id=foot";

#[test]
fn spans_saturate() {
    assert!(same(secs(5).saturating_sub(secs(3)), secs(2)));
    assert!(same(secs(3).saturating_sub(secs(5)), Span::zero()));
    assert!(same(Span::new(1, 999_999_999).saturating_add(Span::new(0, 1)), secs(2)));
    let longest = Span::new(u64::MAX, 999_999_999);
    assert!(same(secs(u64::MAX).saturating_add(secs(1)), longest));
    assert!(same(longest.saturating_add(longest), longest));
    assert_eq!(longest.as_secs(), u64::MAX);
    assert_eq!(Span::new(59, 999_999_999).as_secs(), 59);
    assert!(secs(40).at_least_twice(secs(20)));
    assert!(!Span::new(39, 999_999_999).at_least_twice(secs(20)));
    assert!(!longest.at_least_twice(longest));
}

#[test]
fn settings_have_defaults() {
    let config = config();
    assert_eq!(config.default_minutes, 25);
    assert!(same(config.threshold, secs(20)));
    assert!(same(config.tick, secs(2)));
    assert_eq!(config.sample_cmd, "wlrctl toplevel list");
    assert_eq!(config.lock_cmd, "swaylock-effects --screenshots --effect-pixelate 10");
    assert_eq!(
        config.picker_cmd,
        "fuzzel --dmenu --prompt 'minutes> ' --minimal-lines --lines=6 --width=10"
    );
    assert_eq!(config.log_path, "clockstop-smoke.log");
}

#[test]
fn settings_are_read() {
    let config = Config::from_env(Environment {
        default_minutes: set("50"),
        threshold_seconds: set("0"),
        tick_seconds: set("0"),
        sample_cmd: set("list"),
        lock_cmd: set("notify-send clockstop WOULD_LOCK"),
        picker_cmd: set(""),
        log: set("/tmp/log"),
    });
    assert_eq!(config.default_minutes, 50);
    assert!(same(config.threshold, Span::zero()));
    assert!(same(config.tick, secs(1)));
    assert_eq!(config.sample_cmd, "list");
    assert_eq!(config.lock_cmd, "notify-send clockstop WOULD_LOCK");
    assert_eq!(config.picker_cmd, "");
    assert_eq!(config.log_path, "/tmp/log");
}

#[test]
fn what_is_no_number_is_not_set() {
    assert_eq!(read_u64(&None), None);
    assert_eq!(read_u64(&set("7")), Some(7));
    assert_eq!(read_u64(&set("7 ")), None);
    assert_eq!(read_u64(&set("-7")), None);
    let mut env = unset();
    env.default_minutes = set("soon");
    env.threshold_seconds = set("18446744073709551616");
    env.tick_seconds = set("1.5");
    let config = Config::from_env(env);
    assert_eq!(config.default_minutes, 25);
    assert!(same(config.threshold, secs(20)));
    assert!(same(config.tick, secs(2)));
}

#[test]
fn phases_have_labels() {
    let phases = [Phase::Idle, Phase::Running, Phase::Drift, Phase::Locked, Phase::Cooldown];
    let labels: Vec<&str> = phases.iter().map(|phase| phase.label()).collect();
    assert_eq!(labels, vec!["Idle", "Running", "Drifting", "Locked", "Cooldown"]);
}

#[test]
fn the_first_state_is_idle() {
    let state = SharedState::idle(30);
    assert_eq!(state.phase, Phase::Idle);
    assert_eq!(state.default_minutes, 30);
    assert!(state.session.is_none());
    assert_eq!(state.last_event, "ready");
    assert_eq!(status_message(&state), "idle");
}

#[test]
fn notices_are_logged_and_shown() {
    let popup = |heading: &str, text: &str| Some((heading.to_string(), text.to_string()));
    let expected = [
        (Notice::Ready, "clockstop ready", popup("clockstop", "clockstop ready")),
        (Notice::Started(25), "started 25m session", popup("clockstop", "started 25m session")),
        (Notice::Stopped, "session stopped", popup("clockstop", "session stopped")),
        (Notice::Status("idle".to_string()), "idle", popup("clockstop status", "idle")),
        (Notice::Quitting, "quitting", None),
        (
            Notice::Drifting("a+1".to_string()),
            "drift warning: a+1",
            popup("clockstop drift", "close drift window: a+1"),
        ),
        (Notice::Locking, "lock command fired", popup("clockstop", "locking")),
        (
            Notice::Cooldown,
            "unlock assumed; cooldown started",
            popup("clockstop", "cooldown: close the drift window"),
        ),
        (
            Notice::Completed(25),
            "session 25m complete",
            popup("clockstop", "clockstop session (25m) complete"),
        ),
    ];
    let mut state = SharedState::idle(25);
    for (notice, line, shown) in expected {
        assert_eq!(notice.log_line(), line);
        assert_eq!(notice.notification(), shown);
        state.record(&notice);
        assert_eq!(state.last_event, line);
        assert_eq!(state.default_minutes, 25);
    }
}

#[test]
fn the_program_tells_that_it_is_ready() {
    assert_eq!(told(&Watch::ready()), vec!["clockstop ready"]);
}

#[test]
fn starting_shows_a_running_session() {
    let mut watch = Watch::new();
    let mut state = SharedState::idle(25);
    let snapshot = Sample::parse("app_id=foot\napp_id=foot title=b");
    let todo = watch.start(&mut state, secs(3000), snapshot, secs(7), secs(8), secs(17));
    assert_eq!(told(&todo), vec!["started 50m session", "[refresh]"]);
    assert_eq!(state.phase, Phase::Running);
    assert_eq!(state.default_minutes, 50);
    assert_eq!(
        status_message(&state),
        "Running: 2990s left, drift 0s/3000, delta none, snapshot 2 windows"
    );
    let session = watch.session.unwrap();
    assert!(same(session.started_at, secs(7)));
    assert!(same(session.last_tick, secs(8)));
    assert!(!session.warned && session.locked_at.is_none() && session.cooldown_until.is_none());
}

#[test]
fn a_short_session_makes_a_default_of_a_minute() {
    let mut watch = Watch::new();
    let mut state = SharedState::idle(25);
    let todo = watch.start(&mut state, secs(59), Sample::parse(""), secs(0), secs(0), secs(0));
    assert_eq!(told(&todo), vec!["started 1m session", "[refresh]"]);
    assert_eq!(state.default_minutes, 1);
}

#[test]
fn commands_are_carried_out() {
    let (mut watch, mut state) = started();
    let answer = watch.carry_out(&mut state, AppCommand::Status, secs(110));
    let Answer::Act(todo) = answer else { panic!("status is told") };
    assert_eq!(
        told(&todo),
        vec!["Running: 1500s left, drift 0s/1500, delta none, snapshot 1 windows", "[refresh]"]
    );

    let answer = watch.carry_out(&mut state, AppCommand::Start(secs(60)), secs(110));
    assert!(matches!(answer, Answer::Snapshot(length) if length.as_secs() == 60));
    assert!(watch.session.is_some());

    let answer = watch.carry_out(&mut state, AppCommand::Stop, secs(120));
    let Answer::Act(todo) = answer else { panic!("the session is stopped") };
    assert_eq!(told(&todo), vec!["session stopped", "[refresh]"]);
    assert!(watch.session.is_none() && state.session.is_none());
    assert_eq!(state.phase, Phase::Idle);
    assert_eq!(state.default_minutes, 25);

    let answer = watch.carry_out(&mut state, AppCommand::Quit, secs(130));
    let Answer::Leave(todo) = answer else { panic!("the program ends") };
    assert_eq!(told(&todo), vec!["quitting", "[shut down]"]);
}

#[test]
fn samples_are_due_by_the_tick() {
    let (watch, _) = started();
    assert!(!watch.is_due(&config(), secs(101)));
    assert!(!watch.is_due(&config(), Span::new(101, 999_999_999)));
    assert!(watch.is_due(&config(), secs(102)));
    assert!(!watch.is_due(&config(), secs(50)));
    assert!(!Watch::new().is_due(&config(), secs(500)));
}

#[test]
fn a_calm_session_runs_and_completes() {
    let (mut watch, mut state) = started();
    for at in [102, 104, 1599] {
        assert_eq!(
            sampled(&mut watch, &mut state, CALM, at),
            (vec!["[refresh]".to_string()], Phase::Running)
        );
    }
    assert_eq!(state.session.as_ref().unwrap().remaining.as_secs(), 1);
    let (todo, phase) = sampled(&mut watch, &mut state, CALM, 1600);
    assert_eq!(todo, vec!["session 25m complete", "[refresh]"]);
    assert_eq!(phase, Phase::Idle);
    assert!(watch.session.is_none() && state.session.is_none());
    assert!(watch.last_delta.is_empty());
}

#[test]
fn sustained_drift_warns_and_locks() {
    let (mut watch, mut state) = started();
    assert_eq!(
        sampled(&mut watch, &mut state, DRIFT, 119),
        (vec!["[refresh]".to_string()], Phase::Running)
    );
    assert_eq!(
        status_message(&state),
        "Running: 1481s left, drift 19s/1500, delta firefox+1, foot+1, snapshot 1 windows"
    );
    assert_eq!(
        sampled(&mut watch, &mut state, DRIFT, 120),
        (
            vec!["drift warning: firefox+1, foot+1".to_string(), "[refresh]".to_string()],
            Phase::Drift
        )
    );
    assert_eq!(
        sampled(&mut watch, &mut state, DRIFT, 139),
        (vec!["[refresh]".to_string()], Phase::Drift)
    );
    let reaction = watch.observe(&mut state, &config(), secs(140), &Sample::parse(DRIFT));
    assert_eq!(
        told(&reaction.effects),
        vec!["lock command fired", "[refresh]", "[lock]", "unlock assumed; cooldown started"]
    );
    assert_eq!(state.phase, Phase::Locked);
    assert_eq!(reaction.phase, Phase::Drift);
    let session = watch.session.as_ref().unwrap();
    assert!(same(session.locked_at.unwrap(), secs(140)));
    assert!(same(session.cooldown_until.unwrap(), secs(160)));
    watch.settle(&mut state, &config(), reaction.phase, secs(140), secs(141));
    assert_eq!(state.session.as_ref().unwrap().remaining.as_secs(), 1459);
}

#[test]
fn a_locked_session_rests_while_it_cools_down() {
    let (mut watch, mut state) = started();
    sampled(&mut watch, &mut state, DRIFT, 140);
    for (at, left) in [(150, 30), (159, 21)] {
        assert_eq!(
            sampled(&mut watch, &mut state, DRIFT, at),
            (vec!["[refresh]".to_string()], Phase::Cooldown)
        );
        assert_eq!(state.session.as_ref().unwrap().bucket.as_secs(), left);
    }
    assert!(watch.session.as_ref().unwrap().locked_at.is_some());
}

#[test]
fn a_cooldown_ends_after_its_window() {
    let (mut watch, mut state) = started();
    sampled(&mut watch, &mut state, DRIFT, 140);
    sampled(&mut watch, &mut state, DRIFT, 159);
    assert_eq!(
        sampled(&mut watch, &mut state, DRIFT, 160),
        (vec!["[refresh]".to_string()], Phase::Drift)
    );
    let session = watch.session.as_ref().unwrap();
    assert!(session.locked_at.is_none() && session.cooldown_until.is_none());
    assert_eq!(session.bucket.as_secs(), 22);
    sampled(&mut watch, &mut state, DRIFT, 177);
    let (todo, _) = sampled(&mut watch, &mut state, DRIFT, 178);
    assert_eq!(todo[0], "lock command fired");
    assert!(same(watch.session.as_ref().unwrap().cooldown_until.unwrap(), secs(198)));
}

#[test]
fn a_calm_session_runs_on_after_its_cooldown() {
    let (mut watch, mut state) = started();
    sampled(&mut watch, &mut state, DRIFT, 140);
    assert_eq!(
        sampled(&mut watch, &mut state, CALM, 150),
        (vec!["[refresh]".to_string()], Phase::Cooldown)
    );
    assert_eq!(
        sampled(&mut watch, &mut state, CALM, 160),
        (vec!["[refresh]".to_string()], Phase::Running)
    );
    assert_eq!(state.session.as_ref().unwrap().bucket.as_secs(), 20);
    let (todo, phase) = sampled(&mut watch, &mut state, DRIFT, 161);
    assert_eq!(todo, vec!["drift warning: firefox+1, foot+1", "[refresh]"]);
    assert_eq!(phase, Phase::Drift);
}

#[test]
fn a_cooldown_follows_a_long_lock() {
    let (mut watch, mut state) = started();
    let reaction = watch.observe(&mut state, &config(), secs(140), &Sample::parse(DRIFT));
    assert!(same(watch.session.as_ref().unwrap().cooldown_until.unwrap(), secs(160)));
    watch.settle(&mut state, &config(), reaction.phase, secs(140), secs(700));
    let session = watch.session.as_ref().unwrap();
    assert!(same(session.locked_at.unwrap(), secs(140)));
    assert!(same(session.cooldown_until.unwrap(), secs(720)));
    assert_eq!(
        sampled(&mut watch, &mut state, DRIFT, 701),
        (vec!["[refresh]".to_string()], Phase::Cooldown)
    );
    assert_eq!(state.session.as_ref().unwrap().bucket.as_secs(), 0);
    assert_eq!(
        sampled(&mut watch, &mut state, DRIFT, 721),
        (vec!["[refresh]".to_string()], Phase::Drift)
    );
    assert_eq!(state.session.as_ref().unwrap().bucket.as_secs(), 20);
}

#[test]
fn a_late_sample_warns_and_locks_at_once() {
    let (mut watch, mut state) = started();
    let (todo, _) = sampled(&mut watch, &mut state, "app_id=mpv", 150);
    assert_eq!(
        todo,
        vec![
            "drift warning: mpv+1",
            "lock command fired",
            "[refresh]",
            "[lock]",
            "unlock assumed; cooldown started",
            "[refresh]",
        ]
    );
}

#[test]
fn a_session_that_is_over_does_not_cool_down() {
    let (mut watch, mut state) = started();
    let (todo, phase) = sampled(&mut watch, &mut state, "app_id=mpv", 1600);
    assert_eq!(
        todo,
        vec![
            "drift warning: mpv+1",
            "lock command fired",
            "[refresh]",
            "[lock]",
            "session 25m complete",
            "[refresh]",
        ]
    );
    assert_eq!(phase, Phase::Idle);
    assert!(watch.session.is_none() && state.session.is_none());
}

#[test]
fn the_state_agrees_with_the_watch() {
    let (mut watch, mut state) = started();
    for (at, raw) in [(102, CALM), (120, DRIFT), (125, DRIFT), (146, DRIFT), (150, CALM), (1600, CALM)] {
        sampled(&mut watch, &mut state, raw, at);
        assert_eq!(watch.session.is_some(), state.session.is_some());
        assert_eq!(state.phase == Phase::Idle, state.session.is_none());
        if let Some(shown) = &state.session {
            if state.phase == Phase::Drift || state.phase == Phase::Locked {
                assert!(!shown.delta.is_empty() && shown.bucket.at_least(secs(20)));
            }
        }
    }
    assert_eq!(state.phase, Phase::Idle);
}

#[test]
fn closing_the_window_drains_the_bucket() {
    let (mut watch, mut state) = started();
    sampled(&mut watch, &mut state, DRIFT, 125);
    assert!(watch.session.as_ref().unwrap().warned);
    assert_eq!(
        sampled(&mut watch, &mut state, CALM, 130),
        (vec!["[refresh]".to_string()], Phase::Running)
    );
    assert_eq!(watch.session.as_ref().unwrap().bucket.as_secs(), 20);
    assert!(!watch.session.as_ref().unwrap().warned);
    let (todo, phase) = sampled(&mut watch, &mut state, DRIFT, 131);
    assert_eq!(todo, vec!["drift warning: firefox+1, foot+1", "[refresh]"]);
    assert_eq!(phase, Phase::Drift);
    sampled(&mut watch, &mut state, CALM, 500);
    assert_eq!(watch.session.as_ref().unwrap().bucket.as_secs(), 0);
}

#[test]
fn a_cooldown_without_a_lock_ends() {
    let mut session = Session::start(secs(1500), Sample::parse(""), secs(100), secs(100));
    session.bucket = secs(30);
    session.cooldown_until = Some(secs(110));
    let step = session.advance(secs(105), true, secs(20));
    assert_eq!(step.phase, Phase::Cooldown);
    assert_eq!(session.bucket.as_secs(), 25);
    assert!(step.warn && !step.lock);
    let step = session.advance(secs(110), true, secs(20));
    assert_eq!(step.phase, Phase::Drift);
    assert_eq!(session.bucket.as_secs(), 30);
    assert!(session.cooldown_until.is_none());
}

#[test]
fn a_threshold_of_nothing_locks_at_the_first_drift() {
    let mut session = Session::start(secs(1500), Sample::parse(""), secs(100), secs(100));
    let step = session.advance(secs(100), false, Span::zero());
    assert!(!step.warn && !step.lock);
    let step = session.advance(secs(100), true, Span::zero());
    assert!(step.warn && step.lock);
}

#[test]
fn a_session_is_over_at_its_end() {
    let session = Session::start(secs(60), Sample::parse(""), secs(100), secs(100));
    assert!(!session.is_over(Span::new(159, 999_999_999)));
    assert!(session.is_over(secs(160)));
    assert!(!session.is_over(secs(10)));
    assert!(Session::start(secs(0), Sample::parse(""), secs(1), secs(1)).is_over(secs(1)));
}

#[test]
fn a_session_shows_what_is_left() {
    let session = Session::start(secs(60), Sample::parse("app=a"), secs(100), secs(100));
    let shown = session.view(secs(130), Sample::parse("app=b").apps);
    assert_eq!(shown.duration.as_secs(), 60);
    assert_eq!(shown.remaining.as_secs(), 30);
    assert_eq!(shown.snapshot.windows.get("a\tapp=a"), Some(1));
    assert_eq!(shown.delta.get("b"), Some(1));
    let shown = session.view(secs(300), Sample::parse("").apps);
    assert_eq!(shown.remaining.as_secs(), 0);
    let mut state = SharedState::idle(25);
    update_shared(&mut state, Phase::Drift, &Some(session), secs(101), Sample::parse("").apps);
    assert_eq!(state.phase, Phase::Drift);
    assert_eq!(state.session.as_ref().unwrap().remaining.as_secs(), 59);
    update_shared(&mut state, Phase::Idle, &None, secs(101), Sample::parse("").apps);
    assert!(state.session.is_none());
}

#[test]
fn locks_are_apart_in_the_course_of_a_session() {
    let mut session = Session::start(secs(90_000), Sample::parse(""), secs(0), secs(0));
    let mut locks: Vec<u64> = Vec::new();
    let mut warnings: Vec<u64> = Vec::new();
    for at in 1..2000u64 {
        let step = session.advance(secs(at), at % 100 != 0, secs(20));
        if step.lock {
            locks.push(at);
        }
        if step.warn {
            warnings.push(at);
        }
    }
    assert_eq!(locks[..3], [40, 78, 118]);
    assert_eq!(warnings[..2], [20, 101]);
    assert!(locks.windows(2).all(|pair| pair[1] - pair[0] >= 20));
}
