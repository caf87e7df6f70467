//! Wrappers: an alias picks, among its wrappers, the one whose trigger words
//! best match the arguments, and runs its command with that wrapper's arguments.

pub mod trigger;
pub mod wrapper;
pub mod alias;
pub mod command;
pub mod config;
