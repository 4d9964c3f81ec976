//! The tray service: its name on the bus, its registration, and the signals it serves.
use vstd::prelude::*;
use vstd::string::*;

use crate::number::to_decimal;

verus! {

use crate::number::decimal;

/// How often registration is tried.
pub const ATTEMPTS: u32 = 10;

/// The pause after a failed attempt, in milliseconds.
pub const PAUSE_MILLIS: u64 = 250;

/// The state of the registration with the watcher of tray items.
#[derive(Clone, Copy, Debug, PartialEq, Eq, Structural)]
pub enum Registration {
    /// To be tried for this time, counted from one.
    Try(u32),
    /// Done.
    Done,
    /// Given up.
    GivenUp,
}

impl Registration {
    /// The state after an attempt that succeeded or failed: it is made again until it succeeds, but
    /// no more often than is allowed.
    pub open spec fn after(self, succeeded: bool) -> Registration {
        match self {
            Registration::Try(n) => if succeeded {
                Registration::Done
            } else if n < ATTEMPTS {
                Registration::Try((n + 1) as u32)
            } else {
                Registration::GivenUp
            },
            _ => self,
        }
    }

    /// The state after so many failed attempts, from the first on.
    pub open spec fn after_failures(n: nat) -> Registration
        decreases n,
    {
        if n == 0 {
            Registration::Try(1)
        } else {
            Self::after_failures((n - 1) as nat).after(false)
        }
    }

    /// The state before the first attempt.
    pub fn first() -> (r: Registration)
        ensures
            r == Registration::Try(1),
    {
        Registration::Try(1)
    }

    /// The state after an attempt that succeeded or failed.
    pub fn next(self, succeeded: bool) -> (r: Registration)
        ensures
            r == self.after(succeeded),
    {
        match self {
            Registration::Try(n) => if succeeded {
                Registration::Done
            } else if n < ATTEMPTS {
                Registration::Try(n + 1)
            } else {
                Registration::GivenUp
            },
            _ => self,
        }
    }
}

/// A signal to the tray service.
#[derive(Clone, Copy, Debug, PartialEq, Eq, Structural)]
pub enum TraySignal {
    /// Show the tray anew.
    Update,
    /// Close the tray.
    Shutdown,
}

/// Whether the service goes on after a signal, and shows the tray anew: it ends when it is told to,
/// or when nobody can tell it anything any more.
pub fn goes_on(signal: Option<TraySignal>) -> (on: bool)
    ensures
        on == (signal == Some(TraySignal::Update)),
{
    match signal {
        Some(TraySignal::Update) => true,
        Some(TraySignal::Shutdown) => false,
        None => false,
    }
}

/// The name under which the item of the process `pid` is known on the bus.
pub fn item_name(pid: u32) -> (name: String)
    ensures
        name@ == "org.kde.StatusNotifierItem-"@ + decimal(pid as nat) + "-1"@,
{
    let mut name = "org.kde.StatusNotifierItem-".to_string();
    name.append(to_decimal(pid as u128).as_str());
    name.append("-1");
    name
}

} // verus!
