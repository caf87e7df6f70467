//! Keywords: an argument that matches one of a keyword's keys is replaced,
//! where it stands, by the keyword's values.

use vstd::prelude::*;
use vstd::hash_set::StringHashSet;
use crate::variable::strings_view;

verus! {

/// A keyword as the contracts see it.
pub struct KeywordModel {
    pub keys: Set<Seq<char>>,
    pub values: Seq<Seq<char>>,
}

/// The index of the first argument that is one of `keys`.
pub open spec fn first_match(args: Seq<Seq<char>>, keys: Set<Seq<char>>) -> Option<int>
    decreases args.len(),
{
    if args.len() == 0 {
        None
    } else if keys.contains(args[0]) {
        Some(0)
    } else {
        match first_match(args.drop_first(), keys) {
            Some(i) => Some(i + 1),
            None => None,
        }
    }
}

/// `args` with its first argument that is one of `kw.keys` replaced by `kw.values`;
/// `args` itself where no argument is a key.
pub open spec fn replace_first(args: Seq<Seq<char>>, kw: KeywordModel) -> Seq<Seq<char>> {
    match first_match(args, kw.keys) {
        Some(i) => args.take(i) + kw.values + args.skip(i + 1),
        None => args,
    }
}

/// The keywords applied one after the other, in order.
pub open spec fn replace_keywords(args: Seq<Seq<char>>, kws: Seq<KeywordModel>) -> Seq<Seq<char>>
    decreases kws.len(),
{
    if kws.len() == 0 {
        args
    } else {
        replace_keywords(replace_first(args, kws[0]), kws.drop_first())
    }
}

/// `first_match` finds the first argument that is a key, and only that one.
pub proof fn lemma_first_match(args: Seq<Seq<char>>, keys: Set<Seq<char>>)
    ensures
        match first_match(args, keys) {
            Some(i) => 0 <= i < args.len() && keys.contains(args[i]) && forall|j: int|
                0 <= j < i ==> !keys.contains(#[trigger] args[j]),
            None => forall|j: int| 0 <= j < args.len() ==> !keys.contains(#[trigger] args[j]),
        },
    decreases args.len(),
{
    if args.len() > 0 {
        lemma_first_match(args.drop_first(), keys);
        if !keys.contains(args[0]) {
            assert forall|j: int| 1 <= j < args.len() implies args[j] == args.drop_first()[j - 1] by {}
        }
    }
}

/// Where the first argument that is a key stands at `i`, that argument is
/// replaced by the keyword's values, in their given order, and nothing else
/// changes; a keyword list of one keyword does exactly that.
pub proof fn lemma_keyword_replaces_first_key(args: Seq<Seq<char>>, kw: KeywordModel, i: int)
    requires
        0 <= i < args.len(),
        kw.keys.contains(args[i]),
        forall|j: int| 0 <= j < i ==> !kw.keys.contains(#[trigger] args[j]),
    ensures
        replace_keywords(args, seq![kw]) == args.take(i) + kw.values + args.skip(i + 1),
        replace_keywords(args, seq![kw]).len() == args.len() - 1 + kw.values.len(),
        forall|k: int| 0 <= k < kw.values.len() ==> #[trigger] replace_keywords(args, seq![kw])[i + k]
            == kw.values[k],
        forall|j: int| 0 <= j < i ==> #[trigger] replace_keywords(args, seq![kw])[j] == args[j],
        forall|j: int| i < j < args.len() ==> #[trigger] replace_keywords(args, seq![kw])[j - 1
            + kw.values.len()] == args[j],
{
    lemma_first_match(args, kw.keys);
    match first_match(args, kw.keys) {
        Some(m) => {
            if m < i {
                assert(!kw.keys.contains(args[m]));
            } else if m > i {
                assert(!kw.keys.contains(args[i]));
            }
        },
        None => {
            assert(!kw.keys.contains(args[i]));
        },
    }
    let once = replace_first(args, kw);
    assert(seq![kw].drop_first() =~= Seq::<KeywordModel>::empty());
    assert(replace_keywords(args, seq![kw]) == replace_keywords(once, Seq::<KeywordModel>::empty()));
}

/// Where no argument is one of the keys, the arguments stay as they are.
pub proof fn lemma_keyword_without_key_changes_nothing(args: Seq<Seq<char>>, kw: KeywordModel)
    requires
        forall|j: int| 0 <= j < args.len() ==> !kw.keys.contains(#[trigger] args[j]),
    ensures
        replace_keywords(args, seq![kw]) == args,
{
    lemma_first_match(args, kw.keys);
    if let Some(m) = first_match(args, kw.keys) {
        assert(kw.keys.contains(args[m]));
    }
    assert(seq![kw].drop_first() =~= Seq::<KeywordModel>::empty());
    assert(replace_keywords(args, seq![kw]) == replace_keywords(args, Seq::<KeywordModel>::empty()));
}

/// A keyword: where one of its keys is found, that argument is replaced by its values.
pub struct Keyword {
    pub keys: StringHashSet,
    pub values: Vec<String>,
}

impl Keyword {
    pub open spec fn model(&self) -> KeywordModel {
        KeywordModel { keys: self.keys@, values: strings_view(self.values@) }
    }

    /// A keyword with the given keys (duplicates count once) and replacement values.
    pub fn new(keys: Vec<String>, values: Vec<String>) -> (k: Keyword)
        ensures
            k.model().keys == strings_view(keys@).to_set(),
            k.model().values == strings_view(values@),
    {
        let mut set = StringHashSet::new();
        let mut i: usize = 0;
        while i < keys.len()
            invariant
                i <= keys.len(),
                set@ == strings_view(keys@).take(i as int).to_set(),
            decreases keys.len() - i,
        {
            set.insert(keys[i].clone());
            assert(strings_view(keys@).take(i + 1) =~= strings_view(keys@).take(i as int).push(
                keys@[i as int]@,
            ));
            proof {
                strings_view(keys@).take(i as int).lemma_push_to_set_commute(keys@[i as int]@);
            }
            i = i + 1;
        }
        assert(strings_view(keys@).take(i as int) =~= strings_view(keys@));
        Keyword { keys: set, values }
    }

    /// The index of the first argument that is one of the keys.
    fn find_key(&self, args: &Vec<String>) -> (r: Option<usize>)
        ensures
            match r {
                Some(i) => i < args@.len() && self.model().keys.contains(args@[i as int]@)
                    && forall|j: int| 0 <= j < i ==> !self.model().keys.contains(#[trigger] strings_view(args@)[j]),
                None => forall|j: int| 0 <= j < args@.len() ==> !self.model().keys.contains(#[trigger] strings_view(args@)[j]),
            },
    {
        let mut i: usize = 0;
        while i < args.len()
            invariant
                i <= args.len(),
                forall|j: int| 0 <= j < i ==> !self.model().keys.contains(#[trigger] strings_view(args@)[j]),
            decreases args.len() - i,
        {
            if self.keys.contains(args[i].as_str()) {
                return Some(i);
            }
            i = i + 1;
        }
        None
    }

    /// Replaces the first argument that is one of the keys by the values, in place.
    fn replace(self, to_replace: &mut Vec<String>)
        ensures
            strings_view(final(to_replace)@) == replace_first(strings_view(old(to_replace)@), self.model()),
    {
        let ghost args = strings_view(to_replace@);
        let ghost kw = self.model();
        proof {
            lemma_first_match(args, kw.keys);
        }
        let position = self.find_key(to_replace);
        match position {
            None => {
                assert(first_match(args, kw.keys) is None) by {
                    if let Some(m) = first_match(args, kw.keys) {
                        assert(!kw.keys.contains(args[m]));
                    }
                }
            },
            Some(key_index) => {
                assert(first_match(args, kw.keys) == Some(key_index as int)) by {
                    if let Some(m) = first_match(args, kw.keys) {
                        if m < key_index {
                            assert(!kw.keys.contains(args[m]));
                        } else if m > key_index {
                            assert(!kw.keys.contains(args[key_index as int]));
                        }
                    } else {
                        assert(!kw.keys.contains(args[key_index as int]));
                    }
                }
                to_replace.remove(key_index);
                let mut values = self.values;
                let ghost all_values = strings_view(values@);
                let ghost total = values@.len();
                assert(strings_view(to_replace@) =~= args.take(key_index as int)
                    + all_values.subrange(total as int, total as int) + args.skip(key_index + 1));
                while values.len() > 0
                    invariant
                        key_index <= to_replace.len(),
                        values@.len() <= total,
                        strings_view(values@) == all_values.take(values@.len() as int),
                        all_values.len() == total,
                        key_index <= args.len(),
                        strings_view(to_replace@) == args.take(key_index as int)
                            + all_values.subrange(values@.len() as int, total as int)
                            + args.skip(key_index + 1),
                    decreases values.len(),
                {
                    let ghost before = strings_view(to_replace@);
                    let ghost m = values@.len();
                    let ghost old_values = values@;
                    let value = values.pop().unwrap();
                    assert(value == old_values[m - 1]);
                    assert(strings_view(old_values)[m - 1] == value@);
                    assert(all_values.take(m as int)[m - 1] == all_values[m - 1]);
                    assert(value@ == all_values[m - 1]);
                    to_replace.insert(key_index, value);
                    assert(strings_view(to_replace@) =~= before.insert(key_index as int, all_values[m - 1]));
                    assert(strings_view(values@) =~= all_values.take(values@.len() as int));
                    assert(strings_view(to_replace@) =~= args.take(key_index as int)
                        + all_values.subrange(values@.len() as int, total as int)
                        + args.skip(key_index + 1));
                }
                assert(all_values.subrange(0, total as int) =~= all_values);
            },
        }
    }
}

/// The keywords of an alias, applied in order.
pub struct Keywords(pub Vec<Keyword>);

impl Keywords {
    pub open spec fn model(&self) -> Seq<KeywordModel> {
        self.0@.map_values(|k: Keyword| k.model())
    }

    /// No keywords.
    pub fn new() -> (k: Keywords)
        ensures
            k.model() == Seq::<KeywordModel>::empty(),
    {
        let k = Keywords(Vec::new());
        assert(k.model() =~= Seq::<KeywordModel>::empty());
        k
    }

    /// Applies each keyword in turn to the arguments.
    pub fn replace(self, to_replace: &mut Vec<String>)
        ensures
            strings_view(final(to_replace)@) == replace_keywords(strings_view(old(to_replace)@), self.model()),
    {
        let ghost kws = self.model();
        let mut keywords = self.0;
        let ghost all = keywords@;
        let total = keywords.len();
        let mut done: usize = 0;
        assert(kws.skip(0) =~= kws);
        while keywords.len() > 0
            invariant
                kws == all.map_values(|k: Keyword| k.model()),
                done + keywords@.len() == all.len(),
                total == all.len(),
                keywords@ == all.skip(done as int),
                replace_keywords(strings_view(old(to_replace)@), kws) == replace_keywords(
                    strings_view(to_replace@),
                    kws.skip(done as int),
                ),
            decreases keywords.len(),
        {
            let keyword = keywords.remove(0);
            assert(keyword.model() == kws[done as int]);
            assert(kws.skip(done as int).drop_first() =~= kws.skip(done + 1));
            keyword.replace(to_replace);
            done = done + 1;
            assert(keywords@ =~= all.skip(done as int));
        }
        assert(kws.skip(done as int) =~= Seq::<KeywordModel>::empty());
    }
}

} // verus!
