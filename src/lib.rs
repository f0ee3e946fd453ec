//! A personal task-list manager: named lists of notes, each note a piece of
//! text that is either checked or not.

pub mod command;
pub mod laws;
pub mod list;
pub mod note;
pub mod positions;
pub mod render;
pub mod store;
pub mod text;
