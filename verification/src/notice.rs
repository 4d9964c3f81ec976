//! What the user is told: a line for the log and, with one exception, a notification.
use vstd::prelude::*;
use vstd::string::*;

use crate::number::to_decimal;
use crate::state::SharedState;

verus! {

use crate::number::decimal;

/// Something to tell the user.
pub enum Notice {
    /// The program is ready.
    Ready,
    /// A session of so many minutes has started.
    Started(u64),
    /// The session was stopped.
    Stopped,
    /// The state, in words.
    Status(String),
    /// The program is about to quit.
    Quitting,
    /// Drift has filled the bucket; what has drifted, in words.
    Drifting(String),
    /// The lock command is about to be run.
    Locking,
    /// The cooldown starts.
    Cooldown,
    /// A session of so many minutes is over.
    Completed(u64),
}

/// What a notice says.
pub enum NoticeView {
    Ready,
    Started(u64),
    Stopped,
    Status(Seq<char>),
    Quitting,
    Drifting(Seq<char>),
    Locking,
    Cooldown,
    Completed(u64),
}

impl View for Notice {
    type V = NoticeView;

    open spec fn view(&self) -> NoticeView {
        match *self {
            Notice::Ready => NoticeView::Ready,
            Notice::Started(minutes) => NoticeView::Started(minutes),
            Notice::Stopped => NoticeView::Stopped,
            Notice::Status(words) => NoticeView::Status(words@),
            Notice::Quitting => NoticeView::Quitting,
            Notice::Drifting(words) => NoticeView::Drifting(words@),
            Notice::Locking => NoticeView::Locking,
            Notice::Cooldown => NoticeView::Cooldown,
            Notice::Completed(minutes) => NoticeView::Completed(minutes),
        }
    }
}

impl NoticeView {
    /// The line for the log.
    pub open spec fn line(self) -> Seq<char> {
        match self {
            NoticeView::Ready => "clockstop ready"@,
            NoticeView::Started(minutes) => "started "@ + decimal(minutes as nat) + "m session"@,
            NoticeView::Stopped => "session stopped"@,
            NoticeView::Status(words) => words,
            NoticeView::Quitting => "quitting"@,
            NoticeView::Drifting(words) => "drift warning: "@ + words,
            NoticeView::Locking => "lock command fired"@,
            NoticeView::Cooldown => "unlock assumed; cooldown started"@,
            NoticeView::Completed(minutes) => "session "@ + decimal(minutes as nat) + "m complete"@,
        }
    }

    /// The heading and the text of the notification. Only quitting goes without one.
    pub open spec fn popup(self) -> Option<(Seq<char>, Seq<char>)> {
        match self {
            NoticeView::Quitting => None,
            NoticeView::Status(words) => Some(("clockstop status"@, words)),
            NoticeView::Drifting(words) => Some(
                ("clockstop drift"@, "close drift window: "@ + words),
            ),
            NoticeView::Locking => Some(("clockstop"@, "locking"@)),
            NoticeView::Cooldown => Some(("clockstop"@, "cooldown: close the drift window"@)),
            NoticeView::Completed(minutes) => Some(
                ("clockstop"@, "clockstop session ("@ + decimal(minutes as nat) + "m) complete"@),
            ),
            _ => Some(("clockstop"@, self.line())),
        }
    }
}

/// A number between two texts.
fn around(before: &str, n: u64, after: &str) -> (s: String)
    ensures
        s@ == before@ + decimal(n as nat) + after@,
{
    let mut s = before.to_string();
    s.append(to_decimal(n as u128).as_str());
    s.append(after);
    s
}

/// One text after another.
fn followed(before: &str, after: &str) -> (s: String)
    ensures
        s@ == before@ + after@,
{
    let mut s = before.to_string();
    s.append(after);
    s
}

impl Notice {
    /// The line for the log.
    pub fn log_line(&self) -> (line: String)
        ensures
            line@ == self@.line(),
    {
        match self {
            Notice::Ready => "clockstop ready".to_string(),
            Notice::Started(minutes) => around("started ", *minutes, "m session"),
            Notice::Stopped => "session stopped".to_string(),
            Notice::Status(words) => words.clone(),
            Notice::Quitting => "quitting".to_string(),
            Notice::Drifting(words) => followed("drift warning: ", words.as_str()),
            Notice::Locking => "lock command fired".to_string(),
            Notice::Cooldown => "unlock assumed; cooldown started".to_string(),
            Notice::Completed(minutes) => around("session ", *minutes, "m complete"),
        }
    }

    /// The heading and the text of the notification.
    pub fn notification(&self) -> (popup: Option<(String, String)>)
        ensures
            match popup {
                Some((heading, text)) => self@.popup() == Some((heading@, text@)),
                None => self@.popup() is None,
            },
    {
        match self {
            Notice::Quitting => None,
            Notice::Status(words) => Some(("clockstop status".to_string(), words.clone())),
            Notice::Drifting(words) => Some(
                ("clockstop drift".to_string(), followed("close drift window: ", words.as_str())),
            ),
            Notice::Locking => Some(("clockstop".to_string(), "locking".to_string())),
            Notice::Cooldown => Some(
                ("clockstop".to_string(), "cooldown: close the drift window".to_string()),
            ),
            Notice::Completed(minutes) => Some(
                (
                    "clockstop".to_string(),
                    around("clockstop session (", *minutes, "m) complete"),
                ),
            ),
            _ => Some(("clockstop".to_string(), self.log_line())),
        }
    }
}

impl SharedState {
    /// Takes `notice` for the last event.
    pub fn record(&mut self, notice: &Notice)
        ensures
            final(self).phase == old(self).phase,
            final(self).default_minutes == old(self).default_minutes,
            final(self).session == old(self).session,
            final(self).last_event@ == notice@.line(),
    {
        self.last_event = notice.log_line();
    }
}

} // verus!
