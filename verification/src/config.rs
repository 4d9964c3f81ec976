//! Settings, read from environment variables.
use vstd::prelude::*;
use vstd::string::*;

use crate::number::parse_u64;
use crate::time::Span;

verus! {

use crate::number::parsed;
use crate::time::SECOND;

/// The environment variables that hold settings, as far as they are set to text.
pub struct Environment {
    /// `CLOCKSTOP_DEFAULT_MINUTES`
    pub default_minutes: Option<String>,
    /// `CLOCKSTOP_T_SECONDS`
    pub threshold_seconds: Option<String>,
    /// `CLOCKSTOP_TICK_SECONDS`
    pub tick_seconds: Option<String>,
    /// `CLOCKSTOP_SAMPLE_CMD`
    pub sample_cmd: Option<String>,
    /// `CLOCKSTOP_LOCK_CMD`
    pub lock_cmd: Option<String>,
    /// `CLOCKSTOP_PICKER_CMD`
    pub picker_cmd: Option<String>,
    /// `CLOCKSTOP_LOG`
    pub log: Option<String>,
}

/// The settings.
pub struct Config {
    /// The length of a session in minutes, until another is chosen.
    pub default_minutes: u64,
    /// How much drift is tolerated before a warning, and again before the lock; also the window of
    /// the cooldown after the lock.
    pub threshold: Span,
    /// The time between samples.
    pub tick: Span,
    /// The command that lists the windows.
    pub sample_cmd: String,
    /// The command that locks the session.
    pub lock_cmd: String,
    /// The command that lets the user pick a length.
    pub picker_cmd: String,
    /// Where events are logged.
    pub log_path: String,
}

/// The number that a variable is set to, or else `default`.
pub open spec fn number_or(value: Option<String>, default: u64) -> u64 {
    match value {
        Some(text) => match parsed(text@) {
            Some(n) => n,
            None => default,
        },
        None => default,
    }
}

/// The text that a variable is set to, or else `default`.
pub open spec fn text_or(value: Option<String>, default: Seq<char>) -> Seq<char> {
    match value {
        Some(text) => text@,
        None => default,
    }
}

/// The number that a variable is set to.
pub fn read_u64(value: &Option<String>) -> (n: Option<u64>)
    ensures
        n == (match *value {
            Some(text) => parsed(text@),
            None => None,
        }),
{
    match value {
        Some(text) => parse_u64(text.as_str()),
        None => None,
    }
}

/// The text that a variable is set to, or else `default`.
fn read_text(value: Option<String>, default: &str) -> (text: String)
    ensures
        text@ == text_or(value, default@),
{
    match value {
        Some(text) => text,
        None => default.to_string(),
    }
}

impl Config {
    /// The settings that `env` gives, with defaults for what is not set or, where a number is
    /// wanted, not a number. Samples are at least a second apart.
    pub fn from_env(env: Environment) -> (config: Config)
        ensures
            config.default_minutes == number_or(env.default_minutes, 25),
            config.threshold@ == number_or(env.threshold_seconds, 20) * SECOND,
            config.tick@ == (if number_or(env.tick_seconds, 2) == 0 {
                1
            } else {
                number_or(env.tick_seconds, 2)
            }) * SECOND,
            config.sample_cmd@ == text_or(env.sample_cmd, "wlrctl toplevel list"@),
            config.lock_cmd@ == text_or(
                env.lock_cmd,
                "swaylock-effects --screenshots --effect-pixelate 10"@,
            ),
            config.picker_cmd@ == text_or(
                env.picker_cmd,
                "fuzzel --dmenu --prompt 'minutes> ' --minimal-lines --lines=6 --width=10"@,
            ),
            config.log_path@ == text_or(env.log, "clockstop-smoke.log"@),
    {
        let default_minutes = read_u64(&env.default_minutes).unwrap_or(25);
        let threshold_seconds = read_u64(&env.threshold_seconds).unwrap_or(20);
        let tick_seconds = read_u64(&env.tick_seconds).unwrap_or(2);
        let tick_seconds: u64 = if tick_seconds == 0 {
            1
        } else {
            tick_seconds
        };
        Config {
            default_minutes,
            threshold: Span::from_secs(threshold_seconds),
            tick: Span::from_secs(tick_seconds),
            sample_cmd: read_text(env.sample_cmd, "wlrctl toplevel list"),
            lock_cmd: read_text(
                env.lock_cmd,
                "swaylock-effects --screenshots --effect-pixelate 10",
            ),
            picker_cmd: read_text(
                env.picker_cmd,
                "fuzzel --dmenu --prompt 'minutes> ' --minimal-lines --lines=6 --width=10",
            ),
            log_path: read_text(env.log, "clockstop-smoke.log"),
        }
    }
}

} // verus!
