//! Installing and removing the aliases in the user's shell.
//!
//! The library decides which shell is in use and what to write; reading the
//! environment and touching the file system is left to the caller, which
//! performs the returned `ShellAction`.

use vstd::prelude::*;
use vstd::string::*;
use crate::text::{chars_of, push_char, str_eq};
use crate::variable::strings_view;

verus! {

/// The shells whose aliases can be installed.
#[derive(Debug, Clone, Copy, PartialEq, Eq, Structural)]
pub enum Shell {
    Fish,
}

/// Why the aliases could not be installed or removed.
pub enum ShellError {
    /// `SHELL` is not set.
    ShellNotSet,
    /// `SHELL` holds no `/`; the field is its value.
    BadShellPath(String),
    /// The shell is not one of `Shell`; the field is its name.
    Unsupported(String),
}

/// What the caller must do to the shell's configuration.
pub enum ShellAction {
    /// Write these contents to fish's `conf.d/wrap.fish`.
    WriteFishConfig(String),
    /// Remove fish's `conf.d/wrap.fish`.
    RemoveFishConfig,
}

/// The line of fish configuration that defines one alias.
pub open spec fn fish_alias_line(alias: Seq<char>) -> Seq<char> {
    "alias "@ + alias + "=\"wrap "@ + alias + "\"\n"@
}

/// The fish configuration that defines all the aliases, one line each, in order.
pub open spec fn fish_alias_script(aliases: Seq<Seq<char>>) -> Seq<char>
    decreases aliases.len(),
{
    if aliases.len() == 0 {
        Seq::empty()
    } else {
        fish_alias_line(aliases[0]) + fish_alias_script(aliases.drop_first())
    }
}

/// The index just after the last `/` of `s`, if it has one.
pub open spec fn after_last_slash(s: Seq<char>) -> Option<int>
    decreases s.len(),
{
    if s.len() == 0 {
        None
    } else if s.last() == '/' {
        Some(s.len() as int)
    } else {
        after_last_slash(s.drop_last())
    }
}

/// The shell that `SHELL` names, or why none.
pub open spec fn shell_of(shell_var: Option<Seq<char>>) -> Result<Shell, ShellErrorModel> {
    match shell_var {
        None => Err(ShellErrorModel::ShellNotSet),
        Some(path) => match after_last_slash(path) {
            None => Err(ShellErrorModel::BadShellPath(path)),
            Some(k) => {
                let name = path.skip(k);
                if name == "fish"@ {
                    Ok(Shell::Fish)
                } else {
                    Err(ShellErrorModel::Unsupported(name))
                }
            },
        },
    }
}

/// A `ShellError` as the contracts see it.
pub enum ShellErrorModel {
    ShellNotSet,
    BadShellPath(Seq<char>),
    Unsupported(Seq<char>),
}

impl ShellError {
    pub open spec fn model(&self) -> ShellErrorModel {
        match self {
            ShellError::ShellNotSet => ShellErrorModel::ShellNotSet,
            ShellError::BadShellPath(s) => ShellErrorModel::BadShellPath(s@),
            ShellError::Unsupported(s) => ShellErrorModel::Unsupported(s@),
        }
    }

    /// The message that describes the error.
    pub fn to_string(&self) -> (s: String)
        ensures
            s@ == match self.model() {
                ShellErrorModel::ShellNotSet => "Could not determine current shell. Is SHELL set?"@,
                ShellErrorModel::BadShellPath(p) => "Failed to get shell from SHELL path: "@ + p,
                ShellErrorModel::Unsupported(n) => "Shell is not yet supported: "@ + n,
            },
    {
        match self {
            ShellError::ShellNotSet => String::from_str(
                "Could not determine current shell. Is SHELL set?",
            ),
            ShellError::BadShellPath(p) => {
                let mut s = String::from_str("Failed to get shell from SHELL path: ");
                s.append(p.as_str());
                s
            },
            ShellError::Unsupported(n) => {
                let mut s = String::from_str("Shell is not yet supported: ");
                s.append(n.as_str());
                s
            },
        }
    }
}

pub open spec fn shell_result_view(r: Result<Shell, ShellError>) -> Result<Shell, ShellErrorModel> {
    match r {
        Ok(s) => Ok(s),
        Err(e) => Err(e.model()),
    }
}

pub open spec fn action_result_view(r: Result<ShellAction, ShellError>) -> Result<
    ShellActionModel,
    ShellErrorModel,
> {
    match r {
        Ok(ShellAction::WriteFishConfig(c)) => Ok(ShellActionModel::WriteFishConfig(c@)),
        Ok(ShellAction::RemoveFishConfig) => Ok(ShellActionModel::RemoveFishConfig),
        Err(e) => Err(e.model()),
    }
}

/// A `ShellAction` as the contracts see it.
pub enum ShellActionModel {
    WriteFishConfig(Seq<char>),
    RemoveFishConfig,
}

impl Shell {
    /// The shell of the given name: only `fish` is supported.
    pub fn from_str(s: &str) -> (r: Result<Shell, ShellError>)
        ensures
            shell_result_view(r) == if s@ == "fish"@ {
                Ok::<Shell, ShellErrorModel>(Shell::Fish)
            } else {
                Err(ShellErrorModel::Unsupported(s@))
            },
    {
        if str_eq(s, "fish") {
            Ok(Shell::Fish)
        } else {
            Err(ShellError::Unsupported(String::from_str(s)))
        }
    }

    /// What installs the aliases in this shell.
    pub fn alias(&self, aliases: &[String]) -> (a: ShellAction)
        ensures
            a matches ShellAction::WriteFishConfig(contents) && contents@ == fish_alias_script(
                strings_view(aliases@),
            ),
    {
        match self {
            Shell::Fish => ShellAction::WriteFishConfig(fish_alias(aliases)),
        }
    }

    /// What removes the aliases from this shell.
    pub fn unalias(&self, aliases: &[String]) -> (a: ShellAction)
        ensures
            a is RemoveFishConfig,
    {
        match self {
            Shell::Fish => ShellAction::RemoveFishConfig,
        }
    }
}

/// The fish configuration that defines the aliases.
pub fn fish_alias(aliases: &[String]) -> (contents: String)
    ensures
        contents@ == fish_alias_script(strings_view(aliases@)),
{
    let ghost names = strings_view(aliases@);
    let mut contents = String::new();
    let mut i: usize = 0;
    assert(names.skip(0) =~= names);
    assert(contents@ + fish_alias_script(names) =~= fish_alias_script(names));
    while i < aliases.len()
        invariant
            names == strings_view(aliases@),
            i <= aliases.len(),
            fish_alias_script(names) == contents@ + fish_alias_script(names.skip(i as int)),
        decreases aliases.len() - i,
    {
        let ghost before = contents@;
        assert(names.skip(i as int).drop_first() =~= names.skip(i + 1));
        let alias = aliases[i].as_str();
        contents.append("alias ");
        contents.append(alias);
        contents.append("=\"wrap ");
        contents.append(alias);
        contents.append("\"\n");
        assert(before + (fish_alias_line(names[i as int]) + fish_alias_script(names.skip(i + 1)))
            =~= contents@ + fish_alias_script(names.skip(i + 1)));
        i = i + 1;
    }
    assert(names.skip(i as int) =~= Seq::<Seq<char>>::empty());
    assert(contents@ + Seq::<char>::empty() =~= contents@);
    contents
}

/// The shell named by the value of `SHELL`: the part after its last `/`.
pub fn get_shell(shell_var: Option<String>) -> (r: Result<Shell, ShellError>)
    ensures
        shell_result_view(r) == shell_of(
            match shell_var {
                Some(s) => Some(s@),
                None => None,
            },
        ),
{
    match shell_var {
        None => Err(ShellError::ShellNotSet),
        Some(path) => {
            let chars = chars_of(path.as_str());
            let mut k: usize = chars.len();
            assert(path@.take(k as int) =~= path@);
            while k > 0 && chars[k - 1] != '/'
                invariant
                    k <= chars.len(),
                    chars@ == path@,
                    after_last_slash(path@) == after_last_slash(path@.take(k as int)),
                decreases k,
            {
                assert(path@.take(k as int).drop_last() =~= path@.take(k - 1));
                k = k - 1;
            }
            if k == 0 {
                assert(path@.take(0) =~= Seq::<char>::empty());
                Err(ShellError::BadShellPath(path))
            } else {
                assert(after_last_slash(path@.take(k as int)) == Some(k as int));
                let mut name = String::new();
                let mut i = k;
                while i < chars.len()
                    invariant
                        k <= i <= chars.len(),
                        chars@ == path@,
                        name@ == path@.subrange(k as int, i as int),
                    decreases chars.len() - i,
                {
                    push_char(&mut name, chars[i]);
                    i = i + 1;
                    assert(name@ =~= path@.subrange(k as int, i as int));
                }
                assert(name@ =~= path@.skip(k as int));
                Shell::from_str(name.as_str())
            }
        },
    }
}

pub open spec fn opt_string_view(s: Option<String>) -> Option<Seq<char>> {
    match s {
        Some(v) => Some(v@),
        None => None,
    }
}

/// What installs the aliases in the shell that `SHELL` names.
pub fn alias(shell_var: Option<String>, aliases: &[String]) -> (r: Result<ShellAction, ShellError>)
    ensures
        action_result_view(r) == match shell_of(opt_string_view(shell_var)) {
            Ok(Shell::Fish) => Ok(
                ShellActionModel::WriteFishConfig(fish_alias_script(strings_view(aliases@))),
            ),
            Err(e) => Err(e),
        },
{
    let shell = get_shell(shell_var)?;
    Ok(shell.alias(aliases))
}

/// What removes the aliases from the shell that `SHELL` names.
pub fn unalias(shell_var: Option<String>, aliases: &[String]) -> (r: Result<ShellAction, ShellError>)
    ensures
        action_result_view(r) == match shell_of(opt_string_view(shell_var)) {
            Ok(Shell::Fish) => Ok(ShellActionModel::RemoveFishConfig),
            Err(e) => Err(e),
        },
{
    let shell = get_shell(shell_var)?;
    Ok(shell.unalias(aliases))
}

} // verus!
