//! Default arguments: put in front of the user's arguments unless one of the
//! arguments that clear them is present.

use vstd::prelude::*;
use vstd::hash_set::StringHashSet;
use crate::variable::strings_view;

verus! {

/// A default argument as the contracts see it.
pub struct DefaultArgumentModel {
    pub key: Seq<char>,
    pub value: Option<Seq<char>>,
    pub cleared_by: Set<Seq<char>>,
}

/// Whether some argument clears the default.
pub open spec fn is_cleared(args: Seq<Seq<char>>, cleared_by: Set<Seq<char>>) -> bool {
    exists|i: int| 0 <= i < args.len() && cleared_by.contains(#[trigger] args[i])
}

/// `args` with the default in front (its key, then its value if it has one),
/// or `args` unchanged where an argument clears the default.
pub open spec fn apply_default(args: Seq<Seq<char>>, d: DefaultArgumentModel) -> Seq<Seq<char>> {
    if is_cleared(args, d.cleared_by) {
        args
    } else {
        match d.value {
            Some(v) => seq![d.key, v] + args,
            None => seq![d.key] + args,
        }
    }
}

/// The defaults applied one after the other, in order; a later default
/// therefore ends up in front of an earlier one.
pub open spec fn apply_defaults(args: Seq<Seq<char>>, ds: Seq<DefaultArgumentModel>) -> Seq<Seq<char>>
    decreases ds.len(),
{
    if ds.len() == 0 {
        args
    } else {
        apply_defaults(apply_default(args, ds[0]), ds.drop_first())
    }
}

/// A default is put in front of the arguments, key then value, exactly when
/// none of the arguments is in its `cleared_by`, whatever else they hold (its
/// own key among them); otherwise the arguments stay as they are.
pub proof fn lemma_default_left_out_only_when_cleared(args: Seq<Seq<char>>, d: DefaultArgumentModel)
    ensures
        (forall|j: int| 0 <= j < args.len() ==> !d.cleared_by.contains(#[trigger] args[j]))
            ==> apply_defaults(args, seq![d]) == match d.value {
            Some(v) => seq![d.key, v] + args,
            None => seq![d.key] + args,
        },
        (exists|j: int| 0 <= j < args.len() && d.cleared_by.contains(#[trigger] args[j]))
            ==> apply_defaults(args, seq![d]) == args,
        d.cleared_by.is_empty() ==> apply_defaults(args, seq![d]).len() == args.len() + match d.value {
            Some(_) => 2int,
            None => 1int,
        },
{
    assert(seq![d].drop_first() =~= Seq::<DefaultArgumentModel>::empty());
    assert(apply_defaults(args, seq![d]) == apply_defaults(
        apply_default(args, d),
        Seq::<DefaultArgumentModel>::empty(),
    ));
    if d.cleared_by.is_empty() {
        assert(!is_cleared(args, d.cleared_by));
    }
}

/// A default that its own key clears is put in at most once: applying it a
/// second time changes nothing.
pub proof fn lemma_default_applies_once(args: Seq<Seq<char>>, d: DefaultArgumentModel)
    requires
        d.cleared_by.contains(d.key),
    ensures
        apply_default(apply_default(args, d), d) == apply_default(args, d),
{
    let once = apply_default(args, d);
    if !is_cleared(args, d.cleared_by) {
        assert(once[0] == d.key);
        assert(is_cleared(once, d.cleared_by));
    }
}

/// A default argument: a key, maybe a value, and the arguments that clear it.
pub struct DefaultArgument {
    pub key: String,
    pub value: Option<String>,
    pub cleared_by: StringHashSet,
}

impl DefaultArgument {
    pub open spec fn model(&self) -> DefaultArgumentModel {
        DefaultArgumentModel {
            key: self.key@,
            value: match self.value {
                Some(v) => Some(v@),
                None => None,
            },
            cleared_by: self.cleared_by@,
        }
    }

    /// A default argument; `cleared_by` may name an argument more than once.
    pub fn new(key: String, value: Option<String>, cleared_by: Vec<String>) -> (d: DefaultArgument)
        ensures
            d.model().key == key@,
            d.model().value == (match value {
                Some(v) => Some(v@),
                None => None::<Seq<char>>,
            }),
            d.model().cleared_by == strings_view(cleared_by@).to_set(),
    {
        let mut set = StringHashSet::new();
        let mut i: usize = 0;
        while i < cleared_by.len()
            invariant
                i <= cleared_by.len(),
                set@ == strings_view(cleared_by@).take(i as int).to_set(),
            decreases cleared_by.len() - i,
        {
            set.insert(cleared_by[i].clone());
            assert(strings_view(cleared_by@).take(i + 1) =~= strings_view(cleared_by@).take(
                i as int,
            ).push(cleared_by@[i as int]@));
            proof {
                strings_view(cleared_by@).take(i as int).lemma_push_to_set_commute(
                    cleared_by@[i as int]@,
                );
            }
            i = i + 1;
        }
        assert(strings_view(cleared_by@).take(i as int) =~= strings_view(cleared_by@));
        DefaultArgument { key, value, cleared_by: set }
    }

    /// Puts the default in front of the arguments unless one of them clears it.
    fn apply(self, arguments: &mut Vec<String>)
        ensures
            strings_view(final(arguments)@) == apply_default(strings_view(old(arguments)@), self.model()),
    {
        let ghost args = strings_view(arguments@);
        let ghost d = self.model();
        let mut i: usize = 0;
        while i < arguments.len()
            invariant
                args == strings_view(arguments@),
                d == self.model(),
                i <= arguments.len(),
                forall|j: int| 0 <= j < i ==> !d.cleared_by.contains(#[trigger] args[j]),
            decreases arguments.len() - i,
        {
            if self.cleared_by.contains(arguments[i].as_str()) {
                assert(d.cleared_by.contains(args[i as int]));
                return;
            }
            i = i + 1;
        }
        if let Some(value) = self.value {
            arguments.insert(0, value);
        }
        arguments.insert(0, self.key);
        assert(strings_view(arguments@) =~= apply_default(args, d));
    }
}

/// The default arguments of an alias, applied in order.
pub struct DefaultArguments(pub Vec<DefaultArgument>);

impl DefaultArguments {
    pub open spec fn model(&self) -> Seq<DefaultArgumentModel> {
        self.0@.map_values(|d: DefaultArgument| d.model())
    }

    /// No default arguments.
    pub fn new() -> (d: DefaultArguments)
        ensures
            d.model() == Seq::<DefaultArgumentModel>::empty(),
    {
        let d = DefaultArguments(Vec::new());
        assert(d.model() =~= Seq::<DefaultArgumentModel>::empty());
        d
    }

    /// Applies each default in turn to the arguments.
    pub fn apply(self, arguments: &mut Vec<String>)
        ensures
            strings_view(final(arguments)@) == apply_defaults(strings_view(old(arguments)@), self.model()),
    {
        let ghost ds = self.model();
        let mut defaults = self.0;
        let ghost all = defaults@;
        let total = defaults.len();
        let mut done: usize = 0;
        assert(ds.skip(0) =~= ds);
        while defaults.len() > 0
            invariant
                ds == all.map_values(|d: DefaultArgument| d.model()),
                done + defaults@.len() == all.len(),
                total == all.len(),
                defaults@ == all.skip(done as int),
                apply_defaults(strings_view(old(arguments)@), ds) == apply_defaults(
                    strings_view(arguments@),
                    ds.skip(done as int),
                ),
            decreases defaults.len(),
        {
            let default_argument = defaults.remove(0);
            assert(default_argument.model() == ds[done as int]);
            assert(ds.skip(done as int).drop_first() =~= ds.skip(done + 1));
            default_argument.apply(arguments);
            done = done + 1;
            assert(defaults@ =~= all.skip(done as int));
        }
        assert(ds.skip(done as int) =~= Seq::<DefaultArgumentModel>::empty());
    }
}

} // verus!
