//! Wrap: a command wrapper that runs a program under a short alias, with
//! default arguments, keyword replacements and variable substitution.
//!
//! - `variable`: the grammar of an argument and its expansion; the variables.
//! - `keyword`, `default_argument`: how an alias rewrites the arguments.
//! - `alias`, `config`: aliases and the configuration that holds them.
//! - `command`: the command that an alias runs, and how it is printed.
//! - `dry_run`, `run`: what running an alias prints or executes.
//! - `shell`: installing the aliases in the user's shell.
//! - `wrapper`: aliases chosen by trigger words.
//! - `ordered_map`, `text`: the insertion-ordered map of configured variables;
//!   string helpers.

pub mod text;
pub mod ordered_map;
pub mod variable;
pub mod keyword;
pub mod default_argument;
pub mod command;
pub mod alias;
pub mod shell;
pub mod dry_run;
pub mod wrapper;
pub mod config;
pub mod run;
