//! Run-or-raise window switching for Hyprland: window matchers, the
//! command-to-window state, and the text handling they rest on.

pub mod args;
pub mod hyprland;
pub mod matching;
pub mod text;
pub mod run;
pub mod state;
