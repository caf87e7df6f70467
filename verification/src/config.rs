//! The configuration: the variables and the aliases, and where they are read from.

use vstd::prelude::*;
use vstd::string::*;
use crate::alias::Aliases;
use crate::variable::{strings_view, Variables};

verus! {

/// Everything that the configuration files define.
pub struct Config {
    pub variables: Variables,
    pub aliases: Aliases,
}

/// A place the configuration is read from, in the order of precedence
/// (a later source overrides an earlier one).
pub enum ConfigSource {
    /// A file by name (its extension is found by the reader); whether it must exist.
    File(String, bool),
    /// The environment variables whose names start with the prefix.
    Environment(String),
}

/// A `ConfigSource` as the contracts see it.
pub enum ConfigSourceModel {
    File(Seq<char>, bool),
    Environment(Seq<char>),
}

impl ConfigSource {
    pub open spec fn model(&self) -> ConfigSourceModel {
        match self {
            ConfigSource::File(name, required) => ConfigSourceModel::File(name@, *required),
            ConfigSource::Environment(prefix) => ConfigSourceModel::Environment(prefix@),
        }
    }
}

pub open spec fn sources_model(v: Seq<ConfigSource>) -> Seq<ConfigSourceModel> {
    v.map_values(|s: ConfigSource| s.model())
}

/// Each given file, required.
pub open spec fn required_files(paths: Seq<Seq<char>>) -> Seq<ConfigSourceModel>
    decreases paths.len(),
{
    if paths.len() == 0 {
        Seq::empty()
    } else {
        seq![ConfigSourceModel::File(paths[0], true)] + required_files(paths.drop_first())
    }
}

/// The default files, none required: the global one, the user's (where the
/// home directory is known) and the one in the working directory.
pub open spec fn default_files(home: Option<Seq<char>>) -> Seq<ConfigSourceModel> {
    let global = seq![ConfigSourceModel::File("/etc/wrap"@, false)];
    let user = match home {
        Some(h) => seq![ConfigSourceModel::File(h + "/.config/wrap"@, false)],
        None => Seq::empty(),
    };
    global + user + seq![ConfigSourceModel::File("wrap"@, false)]
}

/// The sources of the configuration: the given files if there are any, else
/// the default ones; then the environment variables prefixed `wrap`.
pub open spec fn config_sources_spec(paths: Seq<Seq<char>>, home: Option<Seq<char>>) -> Seq<
    ConfigSourceModel,
> {
    (if paths.len() > 0 {
        required_files(paths)
    } else {
        default_files(home)
    }) + seq![ConfigSourceModel::Environment("wrap"@)]
}

fn push_source(out: &mut Vec<ConfigSource>, s: ConfigSource)
    ensures
        sources_model(final(out)@) == sources_model(old(out)@).push(s.model()),
{
    let ghost m = s.model();
    out.push(s);
    assert(sources_model(out@) =~= sources_model(old(out)@).push(m));
}

/// Where to read the configuration from, given the files named on the command
/// line and the user's home directory.
pub fn config_sources(path_overrides: &[String], home: Option<String>) -> (r: Vec<ConfigSource>)
    ensures
        sources_model(r@) == config_sources_spec(
            strings_view(path_overrides@),
            match home {
                Some(h) => Some(h@),
                None => None,
            },
        ),
{
    let ghost paths = strings_view(path_overrides@);
    let mut out: Vec<ConfigSource> = Vec::new();
    if path_overrides.len() > 0 {
        let mut i: usize = 0;
        assert(paths.skip(0) =~= paths);
        assert(sources_model(out@) + required_files(paths) =~= required_files(paths));
        while i < path_overrides.len()
            invariant
                paths == strings_view(path_overrides@),
                i <= path_overrides.len(),
                required_files(paths) == sources_model(out@) + required_files(paths.skip(i as int)),
            decreases path_overrides.len() - i,
        {
            let ghost before = sources_model(out@);
            assert(paths.skip(i as int).drop_first() =~= paths.skip(i + 1));
            push_source(&mut out, ConfigSource::File(path_overrides[i].clone(), true));
            assert(before + (seq![ConfigSourceModel::File(paths[i as int], true)] + required_files(
                paths.skip(i + 1),
            )) =~= sources_model(out@) + required_files(paths.skip(i + 1)));
            i = i + 1;
        }
        assert(paths.skip(i as int) =~= Seq::<Seq<char>>::empty());
        assert(sources_model(out@) + Seq::<ConfigSourceModel>::empty() =~= sources_model(out@));
    } else {
        push_source(&mut out, ConfigSource::File(String::from_str("/etc/wrap"), false));
        let ghost after_global = sources_model(out@);
        match home {
            Some(h) => {
                let mut user = h;
                user.append("/.config/wrap");
                push_source(&mut out, ConfigSource::File(user, false));
            },
            None => {},
        }
        push_source(&mut out, ConfigSource::File(String::from_str("wrap"), false));
        assert(sources_model(out@) =~= default_files(
            match home {
                Some(h) => Some(h@),
                None => None,
            },
        ));
    }
    let ghost files = sources_model(out@);
    push_source(&mut out, ConfigSource::Environment(String::from_str("wrap")));
    assert(sources_model(out@) =~= files + seq![ConfigSourceModel::Environment("wrap"@)]);
    out
}

} // verus!
