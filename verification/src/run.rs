//! Running an alias: what the program prints or executes for `wrap run`.

use vstd::prelude::*;
use vstd::string::*;
use crate::alias::{alias_names, command_arguments};
use crate::command::{command_text, Command};
use crate::config::Config;
use crate::dry_run::{dry_run_flag, global_dry_run};
use crate::text::first_index_of;
use crate::variable::{strings_view, ExpandError};

verus! {

/// What to do once the command is known.
pub enum RunOutcome {
    /// Print this line instead of running anything.
    Print(String),
    /// Replace the current process by this command.
    Execute(Command),
}

/// Why an alias could not be run.
pub enum RunError {
    /// No alias has the name that was asked for.
    NoMatchingAlias,
    /// An argument could not be expanded.
    Expand(ExpandError),
}

impl RunError {
    /// The message that describes the error.
    pub fn to_string(&self) -> (s: String)
        ensures
            self is NoMatchingAlias ==> s@ == "No matching alias found"@,
            *self matches RunError::Expand(e) ==> s@ == crate::variable::expand_error_text(e),
    {
        match self {
            RunError::NoMatchingAlias => String::from_str("No matching alias found"),
            RunError::Expand(e) => e.to_string(),
        }
    }
}

/// The arguments without the first `--dry-run`, and whether there was one.
pub open spec fn without_dry_run(args: Seq<Seq<char>>) -> (Seq<Seq<char>>, bool) {
    match first_index_of(args, dry_run_flag()) {
        Some(i) => (args.remove(i), true),
        None => (args, false),
    }
}

/// Runs the alias named `alias` with `arguments`: a `--dry-run` among the
/// arguments is taken out and, like `dry_run`, asks for the command to be
/// printed; otherwise the command is executed.
pub fn run_alias(config: Config, dry_run: bool, alias: &str, arguments: Vec<String>) -> (r: Result<
    RunOutcome,
    RunError,
>)
    ensures
        ({
            let (rest, flagged) = without_dry_run(strings_view(arguments@));
            match first_index_of(alias_names(config.aliases.0@), alias@) {
                None => r is Err && r->Err_0 is NoMatchingAlias,
                Some(i) => {
                    let a = config.aliases.0@[i];
                    match command_arguments(
                        a.keywords.model(),
                        a.default_arguments.model(),
                        config.variables@,
                        rest,
                    ) {
                        Err(e) => r is Err && r->Err_0 == RunError::Expand(e),
                        Ok(args) => if dry_run || flagged {
                            r matches Ok(RunOutcome::Print(s)) && s@ == command_text(a.program@, args)
                        } else {
                            r matches Ok(RunOutcome::Execute(c)) && c.program@ == a.program@
                                && strings_view(c.arguments@) == args
                        },
                    }
                },
            }
        }),
{
    let mut arguments = arguments;
    let ghost args = strings_view(arguments@);
    let flagged = global_dry_run(&mut arguments);
    assert(strings_view(arguments@) == without_dry_run(args).0) by {
        crate::text::lemma_first_index_of(args, dry_run_flag());
        if let Some(i) = first_index_of(args, dry_run_flag()) {
            assert(strings_view(arguments@) =~= args.remove(i));
        }
    }
    let dry = flagged || dry_run;
    let mut variables = config.variables;
    match config.aliases.get_alias(alias) {
        None => Err(RunError::NoMatchingAlias),
        Some(found) => match found.get_command(arguments, &mut variables) {
            Err(e) => Err(RunError::Expand(e)),
            Ok(command) => {
                if dry {
                    Ok(RunOutcome::Print(command.to_string()))
                } else {
                    Ok(RunOutcome::Execute(command))
                }
            },
        },
    }
}

} // verus!
