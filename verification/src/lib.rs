//! Focus sessions with population-drift enforcement.
pub mod config;
pub mod drift;
pub mod icon;
pub mod identity;
pub mod laws;
pub mod menu;
pub mod notice;
pub mod number;
pub mod order;
pub mod output;
pub mod picker;
pub mod population;
pub mod sample;
pub mod service;
pub mod session;
pub mod spacing;
pub mod state;
pub mod text;
pub mod time;
pub mod tray;
pub mod value;
pub mod watch;
