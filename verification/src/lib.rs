//! Session switching for a terminal multiplexer: the history of visited
//! sessions, the cache of discovered projects, the list offered to the picker
//! and the plans that the commands carry out.

pub mod commands;
pub mod error;
pub mod history;
pub mod picker;
pub mod project;
pub mod selection;
pub mod state;
pub mod text;
pub mod tmux;
