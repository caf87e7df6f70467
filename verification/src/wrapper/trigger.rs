//! A trigger: a set of words that must all be among the arguments.

use vstd::prelude::*;
use crate::variable::strings_view;

verus! {

/// Whether every key is among the arguments.
pub open spec fn all_present(keys: Set<Seq<char>>, args: Seq<Seq<char>>) -> bool {
    forall|k: Seq<char>| keys.contains(k) ==> args.contains(k)
}

/// The arguments with the first occurrence of each key left out.
pub open spec fn remove_keys(keys: Set<Seq<char>>, args: Seq<Seq<char>>) -> Seq<Seq<char>>
    decreases args.len(),
{
    if args.len() == 0 {
        Seq::empty()
    } else if keys.contains(args[0]) {
        remove_keys(keys.remove(args[0]), args.drop_first())
    } else {
        seq![args[0]] + remove_keys(keys, args.drop_first())
    }
}

/// When all the keys are among the arguments, taking them out leaves exactly
/// as many arguments fewer as there are keys.
pub proof fn lemma_remove_keys_len(keys: Set<Seq<char>>, args: Seq<Seq<char>>)
    requires
        keys.finite(),
        all_present(keys, args),
    ensures
        remove_keys(keys, args).len() == args.len() - keys.len(),
    decreases args.len(),
{
    if args.len() == 0 {
        assert(keys =~= Set::<Seq<char>>::empty()) by {
            assert forall|k: Seq<char>| !keys.contains(k) by {
                if keys.contains(k) {
                    assert(args.contains(k));
                }
            }
        }
    } else {
        let a0 = args[0];
        let rest = args.drop_first();
        if keys.contains(a0) {
            let ks = keys.remove(a0);
            assert forall|k: Seq<char>| ks.contains(k) implies rest.contains(k) by {
                assert(args.contains(k));
                let i = choose|i: int| 0 <= i < args.len() && args[i] == k;
                assert(i != 0);
                assert(rest[i - 1] == k);
            }
            lemma_remove_keys_len(ks, rest);
        } else {
            assert forall|k: Seq<char>| keys.contains(k) implies rest.contains(k) by {
                assert(args.contains(k));
                let i = choose|i: int| 0 <= i < args.len() && args[i] == k;
                assert(i != 0);
                assert(rest[i - 1] == k);
            }
            lemma_remove_keys_len(keys, rest);
        }
    }
}

/// Removing an element of a sequence without duplicates removes it from its set.
proof fn lemma_remove_no_dup(s: Seq<Seq<char>>, j: int)
    requires
        s.no_duplicates(),
        0 <= j < s.len(),
    ensures
        s.remove(j).no_duplicates(),
        s.remove(j).to_set() == s.to_set().remove(s[j]),
{
    let r = s.remove(j);
    assert forall|x: Seq<char>| #[trigger] r.to_set().contains(x) == s.to_set().remove(s[j]).contains(x) by {
        if r.contains(x) {
            let k = choose|k: int| 0 <= k < r.len() && r[k] == x;
            if k < j {
                assert(s[k] == x);
            } else {
                assert(s[k + 1] == x);
            }
        }
        if s.to_set().remove(s[j]).contains(x) {
            let k = choose|k: int| 0 <= k < s.len() && s[k] == x;
            if k < j {
                assert(r[k] == x);
            } else {
                assert(k != j);
                assert(r[k - 1] == x);
            }
        }
    }
    assert(r.to_set() =~= s.to_set().remove(s[j]));
}

/// A set of words; it is triggered by arguments that hold all of them.
pub struct Trigger {
    keys: Vec<String>,
}

impl Trigger {
    #[verifier::type_invariant]
    spec fn distinct(self) -> bool {
        strings_view(self.keys@).no_duplicates()
    }

    /// The words of the trigger.
    pub closed spec fn keys(&self) -> Set<Seq<char>> {
        strings_view(self.keys@).to_set()
    }

    /// The number of words of the trigger, by which triggers are ordered.
    pub open spec fn size(&self) -> nat {
        self.keys().len()
    }

    /// The trigger of the given words; a word given twice counts once.
    pub fn new(words: Vec<String>) -> (t: Trigger)
        ensures
            t.keys() == strings_view(words@).to_set(),
    {
        let mut keys: Vec<String> = Vec::new();
        let mut i: usize = 0;
        while i < words.len()
            invariant
                i <= words.len(),
                strings_view(keys@).no_duplicates(),
                strings_view(keys@).to_set() == strings_view(words@).take(i as int).to_set(),
            decreases words.len() - i,
        {
            let ghost ks = strings_view(keys@);
            let mut seen = false;
            let mut j: usize = 0;
            while j < keys.len()
                invariant
                    ks == strings_view(keys@),
                    j <= keys.len(),
                    i < words.len(),
                    seen ==> ks.contains(words@[i as int]@),
                    !seen ==> forall|m: int| 0 <= m < j ==> #[trigger] ks[m] != words@[i as int]@,
                decreases keys.len() - j,
            {
                if keys[j] == words[i] {
                    assert(ks[j as int] == words@[i as int]@);
                    seen = true;
                }
                j = j + 1;
            }
            assert(strings_view(words@).take(i + 1) =~= strings_view(words@).take(i as int).push(
                words@[i as int]@,
            ));
            proof {
                strings_view(words@).take(i as int).lemma_push_to_set_commute(words@[i as int]@);
            }
            if seen {
                assert(ks.to_set().insert(words@[i as int]@) =~= ks.to_set());
            } else {
                let w = words[i].clone();
                keys.push(w);
                assert(strings_view(keys@) =~= ks.push(words@[i as int]@));
                proof {
                    ks.lemma_push_to_set_commute(words@[i as int]@);
                }
            }
            i = i + 1;
        }
        assert(strings_view(words@).take(i as int) =~= strings_view(words@));
        Trigger { keys }
    }

    /// The number of words of the trigger.
    pub fn len(&self) -> (n: usize)
        ensures
            n == self.size(),
    {
        proof {
            use_type_invariant(self);
            strings_view(self.keys@).unique_seq_to_set();
        }
        self.keys.len()
    }

    /// Whether every word of the trigger is among the arguments.
    pub fn matches(&self, args: &[String]) -> (b: bool)
        ensures
            b == all_present(self.keys(), strings_view(args@)),
    {
        let ghost a = strings_view(args@);
        let ghost ks = strings_view(self.keys@);
        let mut i: usize = 0;
        while i < self.keys.len()
            invariant
                a == strings_view(args@),
                ks == strings_view(self.keys@),
                i <= self.keys.len(),
                forall|m: int| 0 <= m < i ==> a.contains(#[trigger] ks[m]),
            decreases self.keys.len() - i,
        {
            let mut found = false;
            let mut j: usize = 0;
            while j < args.len()
                invariant
                    a == strings_view(args@),
                    ks == strings_view(self.keys@),
                    i < self.keys.len(),
                    j <= args.len(),
                    found ==> a.contains(ks[i as int]),
                    !found ==> forall|m: int| 0 <= m < j ==> #[trigger] a[m] != ks[i as int],
                decreases args.len() - j,
            {
                if args[j] == self.keys[i] {
                    assert(a[j as int] == ks[i as int]);
                    found = true;
                }
                j = j + 1;
            }
            if !found {
                assert(!all_present(self.keys(), a)) by {
                    assert(self.keys().contains(ks[i as int]));
                    if a.contains(ks[i as int]) {
                        let m = choose|m: int| 0 <= m < a.len() && a[m] == ks[i as int];
                        assert(a[m] != ks[i as int]);
                    }
                }
                return false;
            }
            i = i + 1;
        }
        assert(all_present(self.keys(), a)) by {
            assert forall|k: Seq<char>| self.keys().contains(k) implies a.contains(k) by {
                let m = choose|m: int| 0 <= m < ks.len() && ks[m] == k;
                assert(a.contains(ks[m]));
            }
        }
        true
    }

    /// The arguments with the trigger's words taken out: each word's first
    /// occurrence is left out; everything else stays, in order.
    pub fn remove_from(self, args: Vec<String>) -> (r: Vec<String>)
        ensures
            strings_view(r@) == remove_keys(self.keys(), strings_view(args@)),
    {
        proof {
            use_type_invariant(&self);
        }
        let ghost a = strings_view(args@);
        let ghost full = self.keys();
        let mut remaining = self.keys;
        let mut out: Vec<String> = Vec::new();
        let mut i: usize = 0;
        assert(a.skip(0) =~= a);
        assert(strings_view(out@) + remove_keys(full, a) =~= remove_keys(full, a));
        while i < args.len()
            invariant
                a == strings_view(args@),
                i <= args.len(),
                strings_view(remaining@).no_duplicates(),
                remove_keys(full, a) == strings_view(out@) + remove_keys(
                    strings_view(remaining@).to_set(),
                    a.skip(i as int),
                ),
            decreases args.len() - i,
        {
            let ghost rs = strings_view(remaining@);
            let ghost before = strings_view(out@);
            assert(a.skip(i as int).drop_first() =~= a.skip(i + 1));
            assert(a.skip(i as int)[0] == a[i as int]);
            let mut position: Option<usize> = None;
            let mut j: usize = 0;
            while j < remaining.len()
                invariant
                    rs == strings_view(remaining@),
                    a == strings_view(args@),
                    i < args.len(),
                    j <= remaining.len(),
                    match position {
                        Some(p) => p < remaining.len() && rs[p as int] == a[i as int],
                        None => forall|m: int| 0 <= m < j ==> #[trigger] rs[m] != a[i as int],
                    },
                decreases remaining.len() - j,
            {
                if position.is_none() && remaining[j] == args[i] {
                    assert(rs[j as int] == a[i as int]);
                    position = Some(j);
                }
                j = j + 1;
            }
            match position {
                Some(p) => {
                    proof {
                        lemma_remove_no_dup(rs, p as int);
                    }
                    remaining.remove(p);
                    assert(strings_view(remaining@) =~= rs.remove(p as int));
                    assert(rs.to_set().contains(a[i as int]));
                },
                None => {
                    assert(!rs.to_set().contains(a[i as int])) by {
                        if rs.to_set().contains(a[i as int]) {
                            let m = choose|m: int| 0 <= m < rs.len() && rs[m] == a[i as int];
                            assert(rs[m] != a[i as int]);
                        }
                    }
                    out.push(args[i].clone());
                    assert(strings_view(out@) =~= before.push(a[i as int]));
                    assert(before + (seq![a[i as int]] + remove_keys(rs.to_set(), a.skip(i + 1)))
                        =~= strings_view(out@) + remove_keys(rs.to_set(), a.skip(i + 1)));
                },
            }
            i = i + 1;
        }
        assert(a.skip(i as int) =~= Seq::<Seq<char>>::empty());
        assert(strings_view(out@) + Seq::<Seq<char>>::empty() =~= strings_view(out@));
        out
    }
}

} // verus!
