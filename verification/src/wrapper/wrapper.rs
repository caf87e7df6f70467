//! A wrapper: a description, the triggers that select it, and its arguments.

use vstd::prelude::*;
use super::trigger::{all_present, Trigger};
use crate::variable::strings_view;

verus! {

/// The index of the longest trigger that the arguments match; among triggers
/// of the same size, the last one.
pub open spec fn longest_match_index(ts: Seq<Trigger>, args: Seq<Seq<char>>) -> Option<int>
    decreases ts.len(),
{
    if ts.len() == 0 {
        None
    } else {
        let prev = longest_match_index(ts.drop_last(), args);
        let i = ts.len() - 1;
        if all_present(ts[i].keys(), args) && match prev {
            Some(p) => ts[p].size() <= ts[i].size(),
            None => true,
        } {
            Some(i)
        } else {
            prev
        }
    }
}

/// What `longest_match_index` picks: a matching trigger, no smaller than any
/// other matching trigger and larger than every matching trigger after it;
/// nothing only when no trigger matches.
pub proof fn lemma_longest_match(ts: Seq<Trigger>, args: Seq<Seq<char>>)
    ensures
        match longest_match_index(ts, args) {
            Some(i) => {
                &&& 0 <= i < ts.len()
                &&& all_present(ts[i].keys(), args)
                &&& forall|j: int|
                    0 <= j < ts.len() && all_present(#[trigger] ts[j].keys(), args) ==> ts[j].size()
                        <= ts[i].size()
                &&& forall|j: int|
                    i < j < ts.len() && all_present(#[trigger] ts[j].keys(), args) ==> ts[j].size()
                        < ts[i].size()
            },
            None => forall|j: int| 0 <= j < ts.len() ==> !all_present(#[trigger] ts[j].keys(), args),
        },
    decreases ts.len(),
{
    if ts.len() > 0 {
        let init = ts.drop_last();
        let last = ts.len() - 1;
        lemma_longest_match(init, args);
        assert forall|j: int| 0 <= j < init.len() implies #[trigger] init[j] == ts[j] by {}
        let prev = longest_match_index(init, args);
        match longest_match_index(ts, args) {
            Some(i) => {
                if i == last {
                    assert forall|j: int|
                        0 <= j < ts.len() && all_present(#[trigger] ts[j].keys(), args) implies ts[j].size()
                        <= ts[i].size() by {
                        if j < last {
                            assert(all_present(init[j].keys(), args));
                        }
                    }
                } else {
                    assert(prev == Some(i));
                    assert forall|j: int|
                        0 <= j < ts.len() && all_present(#[trigger] ts[j].keys(), args) implies ts[j].size()
                        <= ts[i].size() by {
                        if j < last {
                            assert(all_present(init[j].keys(), args));
                        }
                    }
                    assert forall|j: int|
                        i < j < ts.len() && all_present(#[trigger] ts[j].keys(), args) implies ts[j].size()
                        < ts[i].size() by {
                        if j < last {
                            assert(all_present(init[j].keys(), args));
                        }
                    }
                }
            },
            None => {
                assert(prev is None);
                assert forall|j: int| 0 <= j < ts.len() implies !all_present(#[trigger] ts[j].keys(), args) by {
                    if j < last {
                        assert(!all_present(init[j].keys(), args));
                    }
                }
            },
        }
    }
}

/// A wrapper of a command.
pub struct Wrapper {
    pub description: String,
    pub triggers: Vec<Trigger>,
    pub arguments: Vec<String>,
}

/// A wrapper reduced to the one trigger that selected it.
pub struct SimpleWrapper {
    pub description: String,
    pub trigger: Trigger,
    pub arguments: Vec<String>,
}

impl Wrapper {
    /// The longest trigger that the arguments match; the last of them where
    /// several have that size.
    pub fn longest_match(&self, args: &[String]) -> (r: Option<&Trigger>)
        ensures
            match longest_match_index(self.triggers@, strings_view(args@)) {
                Some(i) => r matches Some(t) && *t == self.triggers@[i],
                None => r is None,
            },
    {
        match self.longest_match_position(args) {
            Some(b) => Some(&self.triggers[b]),
            None => None,
        }
    }

    /// The index of the trigger that `longest_match` gives.
    pub(crate) fn longest_match_position(&self, args: &[String]) -> (r: Option<usize>)
        ensures
            match longest_match_index(self.triggers@, strings_view(args@)) {
                Some(i) => r matches Some(b) && b as int == i && i < self.triggers@.len(),
                None => r is None,
            },
    {
        let ghost ts = self.triggers@;
        let ghost a = strings_view(args@);
        let mut best: Option<usize> = None;
        let mut best_size: usize = 0;
        let mut i: usize = 0;
        assert(ts.take(0) =~= Seq::<Trigger>::empty());
        while i < self.triggers.len()
            invariant
                ts == self.triggers@,
                a == strings_view(args@),
                i <= ts.len(),
                match best {
                    Some(b) => b < i && best_size == ts[b as int].size()
                        && longest_match_index(ts.take(i as int), a) == Some(b as int),
                    None => longest_match_index(ts.take(i as int), a) is None,
                },
            decreases ts.len() - i,
        {
            let ghost pre = ts.take(i as int);
            let ghost next = ts.take(i + 1);
            assert(next.drop_last() =~= pre);
            assert(next[i as int] == ts[i as int]);
            assert(forall|j: int| 0 <= j < i ==> #[trigger] next[j] == pre[j]);
            let trigger = &self.triggers[i];
            if trigger.matches(args) {
                let size = trigger.len();
                match best {
                    Some(b) => {
                        assert(next[b as int] == ts[b as int]);
                        if best_size <= size {
                            best = Some(i);
                            best_size = size;
                        }
                    },
                    None => {
                        best = Some(i);
                        best_size = size;
                    },
                }
            } else {
                if let Some(b) = best {
                    assert(next[b as int] == ts[b as int]);
                }
            }
            i = i + 1;
        }
        assert(ts.take(i as int) =~= ts);
        best
    }
}

} // verus!
