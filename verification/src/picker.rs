//! The choice of a session's length by a command that offers some.
use vstd::prelude::*;
use vstd::string::*;

use crate::number::{parse_u64, to_decimal};
use crate::output::{read_lossy, Output};
use crate::text::{trim, Class};
use crate::time::Span;
use crate::watch::AppCommand;

verus! {

use crate::number::{decimal, parsed};
use crate::output::lossy_text;
use crate::text::trimmed;
use crate::time::SECOND;

/// The longest session that can be picked, in minutes.
pub const MOST_MINUTES: u64 = 480;

/// What comes of a choice.
pub enum Choice {
    /// A command is to be carried out.
    Send(AppCommand),
    /// The user is to be notified.
    Tell(String),
    /// Nothing.
    Nothing,
}

/// The lengths in minutes that are offered, one a line: the default first.
pub open spec fn offered(default_minutes: u64) -> Seq<char> {
    decimal(default_minutes as nat) + "\n15\n25\n45\n60\n90\n"@
}

/// Whether `choice` starts a session of the minutes that `text` gives, if they are at least one
/// and at most as many as can be picked, and else tells the user so.
pub open spec fn chooses(choice: Choice, text: Seq<char>) -> bool {
    match parsed(trimmed(text, Class::Space)) {
        Some(n) if 1 <= n <= MOST_MINUTES => choice matches Choice::Send(AppCommand::Start(length))
            && length@ == n * 60 * SECOND,
        _ => choice matches Choice::Tell(words) && words@ == "custom session needs 1-480 minutes"@,
    }
}

/// The lengths in minutes that are offered.
pub fn choices(default_minutes: u64) -> (text: String)
    ensures
        text@ == offered(default_minutes),
{
    let mut text = to_decimal(default_minutes as u128);
    text.append("\n15\n25\n45\n60\n90\n");
    text
}

/// What comes of the choice that `text` gives.
pub fn choose_minutes(text: &str) -> (choice: Choice)
    ensures
        chooses(choice, text@),
{
    match parse_u64(trim(text, Class::Space)) {
        Some(minutes) if 1 <= minutes && minutes <= MOST_MINUTES => Choice::Send(
            AppCommand::Start(Span::from_secs(minutes * 60)),
        ),
        _ => Choice::Tell("custom session needs 1-480 minutes".to_string()),
    }
}

/// What comes of a command that let the user choose: nothing where it did not succeed, and a word
/// to the user where it could not be run at all.
pub fn picked(output: &Option<Output>) -> (choice: Choice)
    ensures
        match *output {
            Some(o) if o.success => chooses(choice, lossy_text(o.stdout@)),
            Some(_) => choice is Nothing,
            None => choice matches Choice::Tell(words) && words@
                == "custom picker failed; check CLOCKSTOP_PICKER_CMD"@,
        },
{
    match output {
        Some(o) => if o.success {
            choose_minutes(read_lossy(&o.stdout).as_str())
        } else {
            Choice::Nothing
        },
        None => Choice::Tell("custom picker failed; check CLOCKSTOP_PICKER_CMD".to_string()),
    }
}

} // verus!
