//! The global `--dry-run` flag, which may stand among an alias's arguments.

use vstd::prelude::*;
use vstd::string::*;
use crate::text::{first_index_of, lemma_first_index_of};
use crate::variable::strings_view;

verus! {

/// The flag that asks for the command to be printed instead of run.
pub open spec fn dry_run_flag() -> Seq<char> {
    "--dry-run"@
}

/// Whether `--dry-run` is among the arguments; its first occurrence is
/// removed, so that the printed command does not show it.
pub fn global_dry_run(arguments: &mut Vec<String>) -> (found: bool)
    ensures
        match first_index_of(strings_view(old(arguments)@), dry_run_flag()) {
            Some(i) => found && final(arguments)@ == old(arguments)@.remove(i),
            None => !found && final(arguments)@ == old(arguments)@,
        },
{
    let ghost args = strings_view(arguments@);
    let flag = String::from_str("--dry-run");
    let mut i: usize = 0;
    while i < arguments.len()
        invariant
            args == strings_view(arguments@),
            arguments@ == old(arguments)@,
            flag@ == dry_run_flag(),
            i <= arguments.len(),
            forall|j: int| 0 <= j < i ==> #[trigger] args[j] != dry_run_flag(),
        decreases arguments.len() - i,
    {
        let same = arguments[i] == flag;
        assert(args[i as int] == arguments@[i as int]@);
        if same {
            assert(first_index_of(args, dry_run_flag()) == Some(i as int)) by {
                lemma_first_index_of(args, dry_run_flag());
                if let Some(m) = first_index_of(args, dry_run_flag()) {
                    if m < i {
                        assert(args[m] != dry_run_flag());
                    } else if m > i {
                        assert(args[i as int] == dry_run_flag());
                    }
                }
            }
            arguments.remove(i);
            return true;
        }
        i = i + 1;
    }
    assert(first_index_of(args, dry_run_flag()) is None) by {
        lemma_first_index_of(args, dry_run_flag());
        if let Some(m) = first_index_of(args, dry_run_flag()) {
            assert(args[m] != dry_run_flag());
        }
    }
    false
}

} // verus!
