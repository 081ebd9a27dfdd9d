//! A to-do list kept as two ordered collections, pending and done, together
//! with the line-oriented text format in which both are stored.
//!
//! - [`task`]: the task record and its state transitions.
//! - [`lists`]: the two collections; adding a task and moving one between
//!   them.
//! - [`codec`]: the text format, its reader and its writer.
//! - [`fidelity`]: what the format keeps when a list is written and read
//!   again.
//! - [`text`]: white space, trimming and searching on characters.
//! - [`clock`]: today's date.

pub mod clock;
pub mod codec;
pub mod fidelity;
pub mod lists;
pub mod task;
pub mod text;
