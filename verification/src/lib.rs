//! Verified core of the xfce4-niri tools: the desktop entry reader, the
//! autostart rules, the decisions of the session service and the small
//! protocols it speaks.

pub mod text;

pub mod brightness;
pub mod data;
pub mod desktop_entry;
pub mod dialog;
pub mod item;
pub mod lock;
pub mod lock_screen;
pub mod niri_check;
pub mod power;
pub mod program;
pub mod rc;
pub mod run_hook;
pub mod socket;
