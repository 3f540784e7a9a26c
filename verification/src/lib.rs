//! Verified core of a menu bar indicator for the yabai window manager: the yabai
//! wire protocol, the refresh-command channel, the reading of the window
//! server's space records, and the layout and menu of the status item.

pub mod text;
pub mod app;
pub mod skylight;
pub mod socket;
pub mod yabai;
