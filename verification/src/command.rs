//! A command line: a program and its arguments, printable with shell quoting.

use vstd::prelude::*;
use vstd::string::*;
use std::borrow::Cow;
use crate::text::push_char;
use crate::variable::strings_view;

verus! {

/// Characters that a shell reads literally, which need no quoting.
pub open spec fn is_shell_safe(c: char) -> bool {
    ('a' <= c && c <= 'z') || ('A' <= c && c <= 'Z') || ('0' <= c && c <= '9') || c == '-' || c
        == '_' || c == '=' || c == '/' || c == ',' || c == '.' || c == '+'
}

/// The inside of a single-quoted word: `'` and `!` each become `'\` + the character + `'`.
pub open spec fn quoted_body(s: Seq<char>) -> Seq<char>
    decreases s.len(),
{
    if s.len() == 0 {
        Seq::empty()
    } else {
        (if s[0] == '\'' || s[0] == '!' {
            seq!['\'', '\\', s[0], '\'']
        } else {
            seq![s[0]]
        }) + quoted_body(s.drop_first())
    }
}

/// A word as a shell reads it back: unchanged when it is non-empty and made of
/// safe characters only, else in single quotes.
pub open spec fn shell_escape_spec(s: Seq<char>) -> Seq<char> {
    if s.len() > 0 && forall|i: int| 0 <= i < s.len() ==> is_shell_safe(#[trigger] s[i]) {
        s
    } else {
        seq!['\''] + quoted_body(s) + seq!['\'']
    }
}

/// Quotes a word for a Unix shell (`shell_escape::unix::escape`, which is
/// what `shell_escape::escape` calls on Unix, the only platform on which the
/// program can replace itself by the command).
///
/// The contract restates that function's code: a non-empty word of safe
/// characters comes back unchanged; any other word comes back in single
/// quotes, with each `'` and `!` written as `'\` + the character + `'`.
#[verifier::external_body]
fn shell_escape(s: &str) -> (r: String)
    ensures
        r@ == shell_escape_spec(s@),
{
    shell_escape::unix::escape(Cow::Borrowed(s)).into_owned()
}

/// The arguments, each after a space and quoted.
pub open spec fn arguments_text(args: Seq<Seq<char>>) -> Seq<char>
    decreases args.len(),
{
    if args.len() == 0 {
        Seq::empty()
    } else {
        seq![' '] + shell_escape_spec(args[0]) + arguments_text(args.drop_first())
    }
}

/// Adding an argument adds a space and that argument in its shell-quoted
/// form, whatever the argument is.
pub proof fn lemma_arguments_text_push(args: Seq<Seq<char>>, a: Seq<char>)
    ensures
        arguments_text(args.push(a)) == arguments_text(args) + seq![' '] + shell_escape_spec(a),
    decreases args.len(),
{
    if args.len() == 0 {
        assert(args.push(a) =~= seq![a]);
        assert(seq![a].drop_first() =~= Seq::<Seq<char>>::empty());
        assert(arguments_text(seq![a].drop_first()) == Seq::<char>::empty());
        assert(arguments_text(args) == Seq::<char>::empty());
        assert(arguments_text(seq![a]) == seq![' '] + shell_escape_spec(a) + Seq::<char>::empty());
        assert(seq![' '] + shell_escape_spec(a) + Seq::<char>::empty() =~= Seq::<char>::empty()
            + seq![' '] + shell_escape_spec(a));
    } else {
        assert(args.push(a).drop_first() =~= args.drop_first().push(a));
        lemma_arguments_text_push(args.drop_first(), a);
        assert(args.push(a)[0] == args[0]);
        assert(arguments_text(args.push(a)) == seq![' '] + shell_escape_spec(args[0]) + arguments_text(
            args.drop_first().push(a),
        ));
        assert(seq![' '] + shell_escape_spec(args[0]) + (arguments_text(args.drop_first()) + seq![' ']
            + shell_escape_spec(a)) =~= (seq![' '] + shell_escape_spec(args[0]) + arguments_text(
            args.drop_first(),
        )) + seq![' '] + shell_escape_spec(a));
    }
}

/// A word with a character that a shell would read specially (a space, a
/// quote, ...) or an empty word is printed between single quotes.
pub proof fn lemma_unsafe_word_is_quoted(w: Seq<char>)
    requires
        w.len() == 0 || exists|i: int| 0 <= i < w.len() && !is_shell_safe(#[trigger] w[i]),
    ensures
        shell_escape_spec(w).len() >= 2,
        shell_escape_spec(w)[0] == '\'',
        shell_escape_spec(w).last() == '\'',
{
}

/// The printed form of a command: the quoted program, then each quoted argument after a space.
pub open spec fn command_text(program: Seq<char>, args: Seq<Seq<char>>) -> Seq<char> {
    shell_escape_spec(program) + arguments_text(args)
}

/// The printed line of a command ends with the last argument in its
/// shell-quoted form after a space, whatever that argument starts with; a
/// single argument follows the quoted program.
pub proof fn lemma_command_text_last_argument(program: Seq<char>, args: Seq<Seq<char>>, a: Seq<char>)
    ensures
        command_text(program, args.push(a)) == command_text(program, args) + seq![' ']
            + shell_escape_spec(a),
        command_text(program, seq![a]) == shell_escape_spec(program) + seq![' '] + shell_escape_spec(
            a,
        ),
{
    lemma_arguments_text_push(args, a);
    lemma_arguments_text_push(Seq::<Seq<char>>::empty(), a);
    assert(Seq::<Seq<char>>::empty().push(a) =~= seq![a]);
    assert(arguments_text(Seq::<Seq<char>>::empty()) == Seq::<char>::empty());
    assert(shell_escape_spec(program) + (arguments_text(args) + seq![' '] + shell_escape_spec(a))
        =~= shell_escape_spec(program) + arguments_text(args) + seq![' '] + shell_escape_spec(a));
    assert(Seq::<char>::empty() + seq![' '] + shell_escape_spec(a) =~= seq![' '] + shell_escape_spec(a));
    assert(shell_escape_spec(program) + (seq![' '] + shell_escape_spec(a)) =~= shell_escape_spec(
        program,
    ) + seq![' '] + shell_escape_spec(a));
}

/// A program and the arguments to run it with.
pub struct Command {
    pub program: String,
    pub arguments: Vec<String>,
}

impl Command {
    /// The command as a line that a shell would run the same way.
    pub fn to_string(&self) -> (s: String)
        ensures
            s@ == command_text(self.program@, strings_view(self.arguments@)),
    {
        let ghost args = strings_view(self.arguments@);
        let mut out = shell_escape(self.program.as_str());
        let mut i: usize = 0;
        assert(args.skip(0) =~= args);
        while i < self.arguments.len()
            invariant
                args == strings_view(self.arguments@),
                i <= self.arguments.len(),
                command_text(self.program@, args) == out@ + arguments_text(args.skip(i as int)),
            decreases self.arguments.len() - i,
        {
            let ghost before = out@;
            assert(args.skip(i as int).drop_first() =~= args.skip(i + 1));
            push_char(&mut out, ' ');
            let quoted = shell_escape(self.arguments[i].as_str());
            out.append(quoted.as_str());
            assert(before + (seq![' '] + shell_escape_spec(args[i as int]) + arguments_text(
                args.skip(i + 1),
            )) =~= out@ + arguments_text(args.skip(i + 1)));
            i = i + 1;
        }
        assert(args.skip(i as int) =~= Seq::<Seq<char>>::empty());
        assert(out@ + Seq::<char>::empty() =~= out@);
        out
    }
}

} // verus!
