//! The tray item: what it shows and what a click on it asks for.
use vstd::prelude::*;
use vstd::string::*;
use zbus::zvariant::OwnedObjectPath;

use crate::icon::solid_clock_icon;
use crate::number::to_decimal;
use crate::state::{Phase, SharedState};
use crate::time::Span;
use crate::value::object_path;
use crate::watch::AppCommand;

verus! {

use crate::icon::rows;
use crate::number::decimal;
use crate::time::SECOND;
use crate::value::{is_path, path_value};
use crate::watch::minutes;

/// What a click on the tray asks for.
pub enum TrayRequest {
    /// A command is to be carried out.
    Send(AppCommand),
    /// The user is to pick the length of a session.
    OpenPicker,
    /// Nothing.
    Nothing,
}

/// Whether `request` asks for a session of so many minutes.
pub open spec fn asks_for_minutes(request: TrayRequest, n: u64) -> bool {
    request matches TrayRequest::Send(AppCommand::Start(length)) && length@ == n * 60 * SECOND
}

/// Asks for a session of the default length.
pub fn default_session(state: &SharedState) -> (request: TrayRequest)
    requires
        state.default_minutes * 60 <= u64::MAX,
    ensures
        asks_for_minutes(request, state.default_minutes),
{
    TrayRequest::Send(AppCommand::Start(Span::from_secs(state.default_minutes * 60)))
}

/// The red, green and blue of a phase.
pub open spec fn color(phase: Phase) -> (u8, u8, u8) {
    match phase {
        Phase::Idle => (0x8a, 0x8f, 0x98),
        Phase::Running => (0x3f, 0xc9, 0x77),
        Phase::Drift => (0xf0, 0xb4, 0x29),
        Phase::Locked => (0xef, 0x44, 0x44),
        Phase::Cooldown => (0x60, 0xa5, 0xfa),
    }
}

/// The title of the item: the phase and the whole minutes that are left.
pub open spec fn title_words(state: SharedState) -> Seq<char> {
    match state.session {
        Some(session) => "clockstop: "@ + state.phase.word() + " "@ + decimal(
            minutes(session.remaining@),
        ) + "m left"@,
        None => "clockstop: idle"@,
    }
}

/// The tray item for a state.
pub struct ClockstopItem<'a> {
    pub state: &'a SharedState,
}

impl<'a> ClockstopItem<'a> {
    /// The title of the item.
    pub fn title_text(&self) -> (title: String)
        ensures
            title@ == title_words(*self.state),
    {
        match &self.state.session {
            Some(session) => {
                let mut title = "clockstop: ".to_string();
                title.append(self.state.phase.label());
                title.append(" ");
                title.append(to_decimal((session.remaining.as_secs() / 60) as u128).as_str());
                title.append("m left");
                title
            },
            None => "clockstop: idle".to_string(),
        }
    }

    /// The status of the item: it needs attention while there is drift or the lock.
    pub fn status_text(&self) -> (status: String)
        ensures
            status@ == (if self.state.phase == Phase::Drift || self.state.phase == Phase::Locked {
                "NeedsAttention"@
            } else {
                "Active"@
            }),
    {
        match self.state.phase {
            Phase::Idle | Phase::Running | Phase::Cooldown => "Active".to_string(),
            Phase::Drift | Phase::Locked => "NeedsAttention".to_string(),
        }
    }

    /// The icon of the item: one clock of 32 by 32 pixels in the colour of the phase.
    pub fn icon_pixmap_data(&self) -> (icons: Vec<(i32, i32, Vec<u8>)>)
        ensures
            icons@.len() == 1,
            icons@[0].0 == 32,
            icons@[0].1 == 32,
            icons@[0].2@ == rows(32, color(self.state.phase), 32),
    {
        let color: (u8, u8, u8) = match self.state.phase {
            Phase::Idle => (0x8a, 0x8f, 0x98),
            Phase::Running => (0x3f, 0xc9, 0x77),
            Phase::Drift => (0xf0, 0xb4, 0x29),
            Phase::Locked => (0xef, 0x44, 0x44),
            Phase::Cooldown => (0x60, 0xa5, 0xfa),
        };
        let icon = solid_clock_icon(32, color);
        vec![(icon.width, icon.height, icon.data)]
    }

    /// What the tool tip shows: no icon, the title, and the last event.
    pub fn tool_tip(&self) -> (tip: (String, Vec<(i32, i32, Vec<u8>)>, String, String))
        ensures
            tip.0@ == Seq::<char>::empty(),
            tip.1@.len() == 0,
            tip.2@ == title_words(*self.state),
            tip.3@ == self.state.last_event@,
    {
        (String::new(), Vec::new(), self.title_text(), self.state.last_event.clone())
    }

    /// Where the menu of the item is served.
    pub fn menu(&self) -> (path: Result<OwnedObjectPath, String>)
        ensures
            path matches Ok(p) && p == path_value("/MenuBar"@),
    {
        proof {
            reveal_strlit("/MenuBar");
            assert(is_path("/MenuBar"@));
        }
        match object_path("/MenuBar") {
            Ok(path) => Ok(path),
            Err(_) => Err("invalid clockstop menu path".to_string()),
        }
    }

    /// What a click asks for: a session of the default length.
    pub fn activate(&self, _x: i32, _y: i32) -> (request: TrayRequest)
        requires
            self.state.default_minutes * 60 <= u64::MAX,
        ensures
            asks_for_minutes(request, self.state.default_minutes),
    {
        default_session(self.state)
    }

    /// What a click for the context menu asks for: to pick the length of a session.
    pub fn context_menu(&self, _x: i32, _y: i32) -> (request: TrayRequest)
        ensures
            request is OpenPicker,
    {
        TrayRequest::OpenPicker
    }

    /// What a click with the second button asks for: to pick the length of a session.
    pub fn secondary_activate(&self, _x: i32, _y: i32) -> (request: TrayRequest)
        ensures
            request is OpenPicker,
    {
        TrayRequest::OpenPicker
    }

    /// What the wheel asks for: nothing.
    pub fn scroll(&self, _delta: i32, _orientation: &str) -> (request: TrayRequest)
        ensures
            request is Nothing,
    {
        TrayRequest::Nothing
    }
}

} // verus!
