//! Diane: a small journal and note archive.
//!
//! The verified core of the application: the note and journal file formats,
//! the record line grammar, slugs, the state machine of the user interface
//! and the layout decisions that the terminal front end draws.

pub mod app;
pub mod calendar;
pub mod cli;
pub mod config;
pub mod entry;
pub mod screen;
pub mod slug;
pub mod stream;
pub mod text;
pub mod theme;
pub mod ui;
