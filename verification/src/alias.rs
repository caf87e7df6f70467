//! Aliases: a name for a program, with keywords and default arguments.

use vstd::prelude::*;
use crate::command::Command;
use crate::default_argument::{apply_defaults, DefaultArguments};
use crate::keyword::{replace_keywords, Keywords};
use crate::text::{first_index_of, lemma_first_index_of, str_eq};
use crate::variable::{apply_spec, strings_view, ExpandError, Variables};

verus! {

/// The arguments an alias runs its program with: keywords replaced first,
/// then the defaults put in front, then every argument expanded.
pub open spec fn command_arguments(
    alias_keywords: Seq<crate::keyword::KeywordModel>,
    alias_defaults: Seq<crate::default_argument::DefaultArgumentModel>,
    vars: Map<Seq<char>, Seq<char>>,
    args: Seq<Seq<char>>,
) -> Result<Seq<Seq<char>>, ExpandError> {
    apply_spec(vars, apply_defaults(replace_keywords(args, alias_keywords), alias_defaults))
}

/// Keywords are replaced before the defaults are put in: where the values that
/// a keyword brings in hold an argument that clears a default, that default is
/// not put in, and the command's arguments are the expansion of the replaced
/// arguments alone.
pub proof fn lemma_keyword_values_clear_defaults(
    kw: crate::keyword::KeywordModel,
    d: crate::default_argument::DefaultArgumentModel,
    vars: Map<Seq<char>, Seq<char>>,
    args: Seq<Seq<char>>,
    i: int,
    c: Seq<char>,
)
    requires
        0 <= i < args.len(),
        kw.keys.contains(args[i]),
        forall|j: int| 0 <= j < i ==> !kw.keys.contains(#[trigger] args[j]),
        kw.values.contains(c),
        d.cleared_by.contains(c),
    ensures
        command_arguments(seq![kw], seq![d], vars, args) == apply_spec(
            vars,
            args.take(i) + kw.values + args.skip(i + 1),
        ),
{
    crate::keyword::lemma_keyword_replaces_first_key(args, kw, i);
    let replaced = args.take(i) + kw.values + args.skip(i + 1);
    let k = choose|k: int| 0 <= k < kw.values.len() && kw.values[k] == c;
    assert(replaced[i + k] == c);
    crate::default_argument::lemma_default_left_out_only_when_cleared(replaced, d);
}

/// Keywords are replaced before the defaults are put in: where neither the
/// arguments nor the keyword's values clear a default, the default stands in
/// front of the replaced arguments.
pub proof fn lemma_defaults_go_in_front_of_replaced_arguments(
    kw: crate::keyword::KeywordModel,
    d: crate::default_argument::DefaultArgumentModel,
    vars: Map<Seq<char>, Seq<char>>,
    args: Seq<Seq<char>>,
    i: int,
)
    requires
        0 <= i < args.len(),
        kw.keys.contains(args[i]),
        forall|j: int| 0 <= j < i ==> !kw.keys.contains(#[trigger] args[j]),
        forall|j: int| 0 <= j < args.len() ==> !d.cleared_by.contains(#[trigger] args[j]),
        forall|j: int| 0 <= j < kw.values.len() ==> !d.cleared_by.contains(#[trigger] kw.values[j]),
        d.value is None,
    ensures
        command_arguments(seq![kw], seq![d], vars, args) == apply_spec(
            vars,
            seq![d.key] + (args.take(i) + kw.values + args.skip(i + 1)),
        ),
{
    crate::keyword::lemma_keyword_replaces_first_key(args, kw, i);
    let replaced = args.take(i) + kw.values + args.skip(i + 1);
    assert forall|j: int| 0 <= j < replaced.len() implies !d.cleared_by.contains(
        #[trigger] replaced[j],
    ) by {
        if j < i {
            assert(replaced[j] == args[j]);
        } else if j < i + kw.values.len() {
            assert(replaced[j] == kw.values[j - i]);
        } else {
            assert(replaced[j] == args[j - kw.values.len() + 1]);
        }
    }
    crate::default_argument::lemma_default_left_out_only_when_cleared(replaced, d);
}

/// An alias: its name, the program it runs, its default arguments and keywords.
pub struct Alias {
    pub alias: String,
    pub program: String,
    pub default_arguments: DefaultArguments,
    pub keywords: Keywords,
}

impl Alias {
    /// Whether this alias has the given name.
    pub fn is_named(&self, name: &str) -> (b: bool)
        ensures
            b == (self.alias@ == name@),
    {
        str_eq(self.alias.as_str(), name)
    }

    /// The command that running this alias with `arguments` executes.
    pub fn get_command(self, arguments: Vec<String>, variables: &mut Variables) -> (r: Result<
        Command,
        ExpandError,
    >)
        ensures
            final(variables)@ == old(variables)@,
            match command_arguments(
                self.keywords.model(),
                self.default_arguments.model(),
                old(variables)@,
                strings_view(arguments@),
            ) {
                Ok(args) => r matches Ok(c) && c.program@ == self.program@ && strings_view(
                    c.arguments@,
                ) == args,
                Err(e) => r == Err::<Command, ExpandError>(e),
            },
    {
        let mut arguments = arguments;
        self.keywords.replace(&mut arguments);
        self.default_arguments.apply(&mut arguments);
        let arguments = variables.apply(arguments.as_slice())?;
        Ok(Command { program: self.program, arguments })
    }
}

pub open spec fn alias_names(v: Seq<Alias>) -> Seq<Seq<char>> {
    v.map_values(|a: Alias| a.alias@)
}

/// The aliases of a configuration, in order.
pub struct Aliases(pub Vec<Alias>);

impl Aliases {
    /// The first alias with the given name.
    pub fn get_alias(self, alias: &str) -> (r: Option<Alias>)
        ensures
            match first_index_of(alias_names(self.0@), alias@) {
                Some(i) => r == Some(self.0@[i]),
                None => r is None,
            },
    {
        let ghost names = alias_names(self.0@);
        proof {
            lemma_first_index_of(names, alias@);
        }
        let mut aliases = self.0;
        let mut i: usize = 0;
        while i < aliases.len()
            invariant
                names == alias_names(aliases@),
                aliases@ == self.0@,
                i <= aliases.len(),
                forall|j: int| 0 <= j < i ==> #[trigger] names[j] != alias@,
            decreases aliases.len() - i,
        {
            let named = aliases[i].is_named(alias);
            assert(names[i as int] == aliases@[i as int].alias@);
            if named {
                assert(first_index_of(names, alias@) == Some(i as int)) by {
                    lemma_first_index_of(names, alias@);
                    if let Some(m) = first_index_of(names, alias@) {
                        if m < i {
                            assert(names[m] != alias@);
                        } else if m > i {
                            assert(names[i as int] == alias@);
                        }
                    }
                }
                let found = aliases.remove(i);
                return Some(found);
            }
            i = i + 1;
        }
        assert(first_index_of(names, alias@) is None) by {
            lemma_first_index_of(names, alias@);
            if let Some(m) = first_index_of(names, alias@) {
                assert(names[m] != alias@);
            }
        }
        None
    }

    /// The names of all aliases, in order.
    pub fn get_aliases(self) -> (names: Vec<String>)
        ensures
            strings_view(names@) == alias_names(self.0@),
    {
        let mut names: Vec<String> = Vec::new();
        let mut i: usize = 0;
        while i < self.0.len()
            invariant
                i <= self.0.len(),
                strings_view(names@) == alias_names(self.0@).take(i as int),
            decreases self.0.len() - i,
        {
            let name = self.0[i].alias.clone();
            assert(name@ == alias_names(self.0@)[i as int]);
            let ghost before = strings_view(names@);
            names.push(name);
            assert(strings_view(names@) =~= before.push(name@));
            assert(alias_names(self.0@).take(i + 1) =~= alias_names(self.0@).take(i as int).push(name@));
            assert(strings_view(names@) =~= alias_names(self.0@).take(i + 1));
            i = i + 1;
        }
        assert(alias_names(self.0@).take(i as int) =~= alias_names(self.0@));
        names
    }
}

} // verus!
