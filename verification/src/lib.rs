//! A task list kept as lines of text: the list itself, the line format it is
//! stored in, and the commands that act on it.

pub mod command;
pub mod order;
pub mod store;
pub mod text;
