//! An alias of the wrapper kind.

use vstd::prelude::*;
use super::command::Command;
use super::trigger::remove_keys;
use super::wrapper::{longest_match_index, Wrapper};
use crate::variable::strings_view;

verus! {

/// The wrapper to run and its selected trigger, as indices: the wrapper whose
/// longest matching trigger is the largest; among equal sizes, the first wrapper.
pub open spec fn best_wrapper(ws: Seq<Wrapper>, args: Seq<Seq<char>>) -> Option<(int, int)>
    decreases ws.len(),
{
    if ws.len() == 0 {
        None
    } else {
        let prev = best_wrapper(ws.drop_last(), args);
        let i = ws.len() - 1;
        match longest_match_index(ws[i].triggers@, args) {
            Some(j) => match prev {
                None => Some((i, j)),
                Some((pi, pj)) => if ws[i].triggers@[j].size() > ws[pi].triggers@[pj].size() {
                    Some((i, j))
                } else {
                    prev
                },
            },
            None => prev,
        }
    }
}

/// One step of `best_wrapper`: what considering wrapper `i` makes of the choice among the earlier ones.
pub open spec fn best_wrapper_step(
    prev: Option<(int, int)>,
    ws: Seq<Wrapper>,
    i: int,
    args: Seq<Seq<char>>,
) -> Option<(int, int)> {
    match longest_match_index(ws[i].triggers@, args) {
        Some(j) => match prev {
            None => Some((i, j)),
            Some((pi, pj)) => if ws[i].triggers@[j].size() > ws[pi].triggers@[pj].size() {
                Some((i, j))
            } else {
                prev
            },
        },
        None => prev,
    }
}

proof fn lemma_best_wrapper_step(ws: Seq<Wrapper>, args: Seq<Seq<char>>, i: int)
    requires
        0 <= i < ws.len(),
        best_wrapper(ws.take(i), args) matches Some((pi, pj)) ==> 0 <= pi < i,
    ensures
        best_wrapper(ws.take(i + 1), args) == best_wrapper_step(best_wrapper(ws.take(i), args), ws, i, args),
{
    let next = ws.take(i + 1);
    assert(next.drop_last() =~= ws.take(i));
    assert(next[i] == ws[i]);
    if let Some((pi, pj)) = best_wrapper(ws.take(i), args) {
        assert(next[pi] == ws[pi]);
    }
}

fn clone_strings(v: &[String]) -> (r: Vec<String>)
    ensures
        strings_view(r@) == strings_view(v@),
{
    let mut r: Vec<String> = Vec::new();
    let mut i: usize = 0;
    while i < v.len()
        invariant
            i <= v.len(),
            strings_view(r@) == strings_view(v@).take(i as int),
        decreases v.len() - i,
    {
        let ghost before = strings_view(r@);
        let s = v[i].clone();
        assert(s@ == v@[i as int]@);
        r.push(s);
        assert(strings_view(r@) =~= before.push(v@[i as int]@));
        assert(strings_view(r@) =~= strings_view(v@).take(i + 1));
        i = i + 1;
    }
    assert(strings_view(v@).take(i as int) =~= strings_view(v@));
    r
}

/// An alias: its name, the command it runs, and its wrappers.
pub struct Alias {
    pub alias: String,
    pub command: String,
    pub wrappers: Vec<Wrapper>,
}

impl Alias {
    /// The command to run for `args`: the alias's command, with the arguments
    /// less the words of the selected trigger, then the selected wrapper's
    /// arguments; nothing where no trigger of any wrapper matches.
    pub fn get_command(self, args: &[String]) -> (r: Option<Command>)
        ensures
            match best_wrapper(self.wrappers@, strings_view(args@)) {
                Some((i, j)) => r matches Some(c) && c.process() == self.command@ && strings_view(
                    c.arguments(),
                ) == remove_keys(self.wrappers@[i].triggers@[j].keys(), strings_view(args@))
                    + strings_view(self.wrappers@[i].arguments@),
                None => r is None,
            },
    {
        let ghost ws = self.wrappers@;
        let ghost a = strings_view(args@);
        let mut best: Option<(usize, usize)> = None;
        let mut best_size: usize = 0;
        let mut i: usize = 0;
        assert(ws.take(0) =~= Seq::<Wrapper>::empty());
        while i < self.wrappers.len()
            invariant
                ws == self.wrappers@,
                a == strings_view(args@),
                i <= ws.len(),
                match best {
                    Some((bi, bj)) => bi < i && bj < ws[bi as int].triggers@.len() && best_size
                        == ws[bi as int].triggers@[bj as int].size() && best_wrapper(
                        ws.take(i as int),
                        a,
                    ) == Some((bi as int, bj as int)),
                    None => best_wrapper(ws.take(i as int), a) is None,
                },
            decreases ws.len() - i,
        {
            proof {
                lemma_best_wrapper_step(ws, a, i as int);
            }
            let wrapper = &self.wrappers[i];
            match wrapper.longest_match_position(args) {
                Some(index) => {
                    let size = wrapper.triggers[index].len();
                    match best {
                        Some((bi, bj)) => {
                            if size > best_size {
                                best = Some((i, index));
                                best_size = size;
                            }
                        },
                        None => {
                            best = Some((i, index));
                            best_size = size;
                        },
                    }
                },
                None => {},
            }
            i = i + 1;
        }
        assert(ws.take(i as int) =~= ws);
        match best {
            None => None,
            Some((bi, bj)) => {
                let mut wrappers = self.wrappers;
                let mut wrapper = wrappers.remove(bi);
                let trigger = wrapper.triggers.remove(bj);
                let mut arguments = trigger.remove_from(clone_strings(args));
                let ghost kept = strings_view(arguments@);
                let ghost extra = strings_view(wrapper.arguments@);
                arguments.append(&mut wrapper.arguments);
                assert(strings_view(arguments@) =~= kept + extra);
                Some(Command::new(self.command, arguments))
            },
        }
    }
}

} // verus!
