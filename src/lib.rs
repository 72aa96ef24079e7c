//! Quick-launch core: an application index built from desktop entries, a
//! first-match dispatcher over command handlers, the command runner's
//! decisions, and the interaction state machine that ties them together.

pub mod text;
pub mod apps;
pub mod desktop;
pub mod command;
pub mod plugins;
pub mod state;
