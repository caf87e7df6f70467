//! Expansion of a single argument: escapes, `~`, `$NAME`, `${NAME}`,
//! and the positional references `$#` / `${#}`.
//!
//! The grammar of an argument:
//!
//! ```text
//! argument   = piece*
//! piece      = "\" escapable | "~" | "$" reference | any other character
//! escapable  = "\" | "$" | "~"
//! reference  = "{" name "}" | name
//! name       = "#" | identifier
//! identifier = (ASCII letter | ASCII digit | "_")+
//! ```

use vstd::prelude::*;
use vstd::hash_map::StringHashMap;
use vstd::string::*;
use crate::text::{chars_of, decimal, push_char, push_decimal};
use crate::ordered_map::{index_map_entries, index_map_into_entries};
use indexmap::IndexMap;

verus! {

/// One piece of a parsed argument, as the contracts see it.
pub enum Token {
    /// A character copied to the output as it is.
    Literal(char),
    /// A reference to a variable by name.
    Variable(Seq<char>),
    /// `~`, the value of `HOME`.
    Home,
    /// `$#` or `${#}`, the next positional argument.
    Positional,
}

/// Why an argument could not be expanded.
#[derive(Debug, Clone, Copy, PartialEq, Eq, Structural)]
pub enum ExpandError {
    /// The argument does not follow the grammar.
    ParseFailed,
    /// The argument asks for more positionals than there are; the field
    /// is the zero-based index of the first one that is missing.
    MissingPositional(usize),
}

/// The message of an expansion error.
pub open spec fn expand_error_text(e: ExpandError) -> Seq<char> {
    match e {
        ExpandError::ParseFailed => "Argument parsing failed"@,
        ExpandError::MissingPositional(i) => "Missing positional #"@ + decimal((i + 1) as nat),
    }
}

impl ExpandError {
    /// The message that describes the error.
    pub fn to_string(&self) -> (s: String)
        ensures
            s@ == expand_error_text(*self),
    {
        match self {
            ExpandError::ParseFailed => String::from_str("Argument parsing failed"),
            ExpandError::MissingPositional(i) => {
                let mut s = String::from_str("Missing positional #");
                let n: u128 = *i as u128 + 1;
                push_decimal(&mut s, n);
                s
            },
        }
    }
}

pub open spec fn is_identifier_char(c: char) -> bool {
    ('a' <= c && c <= 'z') || ('A' <= c && c <= 'Z') || ('0' <= c && c <= '9') || c == '_'
}

pub open spec fn is_escapable(c: char) -> bool {
    c == '\\' || c == '$' || c == '~'
}

/// Length of the longest prefix of `s` made of identifier characters.
pub open spec fn identifier_len(s: Seq<char>) -> nat
    decreases s.len(),
{
    if s.len() > 0 && is_identifier_char(s[0]) {
        1 + identifier_len(s.drop_first())
    } else {
        0
    }
}

/// A name at the start of `r`: `#` or an identifier, with its length.
pub open spec fn parse_name(r: Seq<char>) -> Option<(Token, nat)> {
    if r.len() > 0 && r[0] == '#' {
        Some((Token::Positional, 1))
    } else if 0 < identifier_len(r) && identifier_len(r) <= r.len() {
        Some((Token::Variable(r.take(identifier_len(r) as int)), identifier_len(r)))
    } else {
        None
    }
}

/// The reference that follows a `$`: a name, or a name in braces,
/// with the number of characters that it spans.
pub open spec fn parse_reference(r: Seq<char>) -> Option<(Token, nat)> {
    if r.len() > 0 && r[0] == '{' {
        match parse_name(r.drop_first()) {
            Some((t, n)) => if n + 1 < r.len() && r[n + 1int] == '}' {
                Some((t, n + 2))
            } else {
                None
            },
            None => None,
        }
    } else {
        parse_name(r)
    }
}

pub open spec fn prepend(t: Token, rest: Option<Seq<Token>>) -> Option<Seq<Token>> {
    match rest {
        Some(ts) => Some(seq![t] + ts),
        None => None,
    }
}

pub open spec fn concat_opt(pre: Seq<Token>, rest: Option<Seq<Token>>) -> Option<Seq<Token>> {
    match rest {
        Some(ts) => Some(pre + ts),
        None => None,
    }
}

/// The pieces of an argument, or `None` where it does not follow the grammar.
pub open spec fn parse_argument(s: Seq<char>) -> Option<Seq<Token>>
    decreases s.len(),
{
    if s.len() == 0 {
        Some(Seq::empty())
    } else if s[0] == '\\' {
        if s.len() >= 2 && is_escapable(s[1]) {
            prepend(Token::Literal(s[1]), parse_argument(s.skip(2)))
        } else {
            None
        }
    } else if s[0] == '~' {
        prepend(Token::Home, parse_argument(s.drop_first()))
    } else if s[0] == '$' {
        match parse_reference(s.drop_first()) {
            Some((t, n)) => if n < s.len() {
                prepend(t, parse_argument(s.skip(n + 1int)))
            } else {
                None
            },
            None => None,
        }
    } else {
        prepend(Token::Literal(s[0]), parse_argument(s.drop_first()))
    }
}

/// The value of a variable; an unset variable reads as the empty string.
pub open spec fn lookup(vars: Map<Seq<char>, Seq<char>>, name: Seq<char>) -> Seq<char> {
    if vars.contains_key(name) {
        vars[name]
    } else {
        Seq::empty()
    }
}

pub open spec fn positional_count(ts: Seq<Token>) -> nat
    decreases ts.len(),
{
    if ts.len() == 0 {
        0
    } else {
        (if ts[0] is Positional { 1nat } else { 0nat }) + positional_count(ts.drop_first())
    }
}

/// The text of the pieces `ts`, where `used` positionals were consumed before them.
pub open spec fn render(
    ts: Seq<Token>,
    vars: Map<Seq<char>, Seq<char>>,
    pos: Seq<Seq<char>>,
    used: nat,
) -> Seq<char>
    decreases ts.len(),
{
    if ts.len() == 0 {
        Seq::empty()
    } else {
        match ts[0] {
            Token::Literal(c) => seq![c] + render(ts.drop_first(), vars, pos, used),
            Token::Variable(n) => lookup(vars, n) + render(ts.drop_first(), vars, pos, used),
            Token::Home => lookup(vars, "HOME"@) + render(ts.drop_first(), vars, pos, used),
            Token::Positional => pos[used as int] + render(ts.drop_first(), vars, pos, used + 1),
        }
    }
}

/// The expansion of `arg`: its text and the number of positionals it consumed.
pub open spec fn expand_spec(
    arg: Seq<char>,
    vars: Map<Seq<char>, Seq<char>>,
    pos: Seq<Seq<char>>,
) -> Result<(Seq<char>, nat), ExpandError> {
    match parse_argument(arg) {
        None => Err(ExpandError::ParseFailed),
        Some(ts) => if positional_count(ts) > pos.len() {
            Err(ExpandError::MissingPositional(pos.len() as usize))
        } else {
            Ok((render(ts, vars, pos, 0), positional_count(ts)))
        },
    }
}

pub open spec fn strings_view(v: Seq<String>) -> Seq<Seq<char>> {
    v.map_values(|s: String| s@)
}

pub open spec fn expand_result_view(r: Result<(String, usize), ExpandError>) -> Result<
    (Seq<char>, nat),
    ExpandError,
> {
    match r {
        Ok((s, n)) => Ok((s@, n as nat)),
        Err(e) => Err(e),
    }
}

/// A piece of a parsed argument, as the code holds it.
enum Piece {
    Literal(char),
    Variable(String),
    Home,
    Positional,
}

impl Piece {
    spec fn token(&self) -> Token {
        match self {
            Piece::Literal(c) => Token::Literal(*c),
            Piece::Variable(s) => Token::Variable(s@),
            Piece::Home => Token::Home,
            Piece::Positional => Token::Positional,
        }
    }
}

spec fn tokens_of(ps: Seq<Piece>) -> Seq<Token> {
    ps.map_values(|p: Piece| p.token())
}

spec fn opt_piece_token(r: Option<(Piece, usize)>) -> Option<(Token, nat)> {
    match r {
        Some((p, n)) => Some((p.token(), n as nat)),
        None => None,
    }
}

fn is_identifier_char_exec(c: char) -> (b: bool)
    ensures
        b == is_identifier_char(c),
{
    ('a' <= c && c <= 'z') || ('A' <= c && c <= 'Z') || ('0' <= c && c <= '9') || c == '_'
}

/// The end of the identifier that starts at `k`.
fn identifier_end(chars: &Vec<char>, k: usize) -> (e: usize)
    requires
        k <= chars.len(),
    ensures
        k <= e <= chars.len(),
        e - k == identifier_len(chars@.skip(k as int)),
{
    let mut e = k;
    while e < chars.len() && is_identifier_char_exec(chars[e])
        invariant
            k <= e <= chars.len(),
            identifier_len(chars@.skip(k as int)) == (e - k) + identifier_len(
                chars@.skip(e as int),
            ),
        decreases chars.len() - e,
    {
        assert(chars@.skip(e as int).drop_first() =~= chars@.skip(e + 1));
        e = e + 1;
    }
    e
}

/// The characters `chars[from..to]` as a `String`.
fn collect_range(chars: &Vec<char>, from: usize, to: usize) -> (s: String)
    requires
        from <= to <= chars.len(),
    ensures
        s@ == chars@.subrange(from as int, to as int),
{
    let mut s = String::new();
    let mut i = from;
    while i < to
        invariant
            from <= i <= to <= chars.len(),
            s@ == chars@.subrange(from as int, i as int),
        decreases to - i,
    {
        push_char(&mut s, chars[i]);
        i = i + 1;
        assert(s@ =~= chars@.subrange(from as int, i as int));
    }
    s
}

fn parse_name_at(chars: &Vec<char>, k: usize) -> (r: Option<(Piece, usize)>)
    requires
        k <= chars.len(),
    ensures
        opt_piece_token(r) == parse_name(chars@.skip(k as int)),
        r matches Some((_, n)) ==> k + n <= chars.len(),
{
    let ghost r_spec = chars@.skip(k as int);
    if k < chars.len() && chars[k] == '#' {
        return Some((Piece::Positional, 1));
    }
    let e = identifier_end(chars, k);
    if e == k {
        return None;
    }
    let name = collect_range(chars, k, e);
    assert(name@ =~= r_spec.take(identifier_len(r_spec) as int));
    Some((Piece::Variable(name), e - k))
}

fn parse_reference_at(chars: &Vec<char>, k: usize) -> (r: Option<(Piece, usize)>)
    requires
        k <= chars.len(),
    ensures
        opt_piece_token(r) == parse_reference(chars@.skip(k as int)),
        r matches Some((_, n)) ==> k + n <= chars.len(),
{
    let ghost r_spec = chars@.skip(k as int);
    if k < chars.len() && chars[k] == '{' {
        assert(r_spec.drop_first() =~= chars@.skip(k + 1));
        match parse_name_at(chars, k + 1) {
            Some((p, n)) => {
                if k + 1 + n < chars.len() && chars[k + 1 + n] == '}' {
                    Some((p, n + 2))
                } else {
                    None
                }
            },
            None => None,
        }
    } else {
        parse_name_at(chars, k)
    }
}

proof fn lemma_tokens_push(ps: Seq<Piece>, p: Piece)
    ensures
        tokens_of(ps.push(p)) == tokens_of(ps).push(p.token()),
{
    assert(tokens_of(ps.push(p)) =~= tokens_of(ps).push(p.token()));
}

proof fn lemma_tokenize_step(chars: Seq<char>, i: int, step: int, before: Seq<Piece>, p: Piece)
    requires
        0 <= i,
        0 < step,
        i + step <= chars.len(),
        parse_argument(chars.skip(i)) == prepend(p.token(), parse_argument(chars.skip(i).skip(step))),
        parse_argument(chars) == concat_opt(tokens_of(before), parse_argument(chars.skip(i))),
    ensures
        parse_argument(chars) == concat_opt(tokens_of(before.push(p)), parse_argument(chars.skip(i + step))),
{
    assert(chars.skip(i).skip(step) =~= chars.skip(i + step));
    lemma_concat_prepend(tokens_of(before), p.token(), parse_argument(chars.skip(i + step)));
    lemma_tokens_push(before, p);
}

proof fn lemma_concat_prepend(pre: Seq<Token>, t: Token, rest: Option<Seq<Token>>)
    ensures
        concat_opt(pre, prepend(t, rest)) == concat_opt(pre.push(t), rest),
{
    if let Some(ts) = rest {
        assert(pre + (seq![t] + ts) =~= pre.push(t) + ts);
    }
}

/// Splits an argument into its pieces, or `None` where it does not follow the grammar.
fn tokenize(chars: &Vec<char>) -> (r: Option<Vec<Piece>>)
    ensures
        match r {
            Some(ps) => parse_argument(chars@) == Some(tokens_of(ps@)),
            None => parse_argument(chars@) is None,
        },
{
    let n = chars.len();
    let mut out: Vec<Piece> = Vec::new();
    let mut i: usize = 0;
    assert(chars@.skip(0) =~= chars@);
    assert(tokens_of(out@) + Seq::<Token>::empty() =~= tokens_of(out@));
    while i < n
        invariant
            n == chars.len(),
            i <= n,
            parse_argument(chars@) == concat_opt(tokens_of(out@), parse_argument(chars@.skip(i as int))),
        decreases n - i,
    {
        let ghost s = chars@.skip(i as int);
        let ghost pre = tokens_of(out@);
        let c = chars[i];
        assert(s.len() > 0 && s[0] == c);
        let (p, step): (Piece, usize) = if c == '\\' {
            if i + 1 < n && (chars[i + 1] == '\\' || chars[i + 1] == '$' || chars[i + 1] == '~') {
                (Piece::Literal(chars[i + 1]), 2)
            } else {
                return None;
            }
        } else if c == '~' {
            (Piece::Home, 1)
        } else if c == '$' {
            assert(s.drop_first() =~= chars@.skip(i + 1));
            match parse_reference_at(chars, i + 1) {
                Some((p, m)) => (p, 1 + m),
                None => {
                    return None;
                },
            }
        } else {
            (Piece::Literal(c), 1)
        };
        proof {
            assert(parse_argument(s) == prepend(p.token(), parse_argument(s.skip(step as int))));
            lemma_tokenize_step(chars@, i as int, step as int, out@, p);
        }
        out.push(p);
        i = i + step;
    }
    assert(chars@.skip(n as int) =~= Seq::<char>::empty());
    assert(tokens_of(out@) + Seq::<Token>::empty() =~= tokens_of(out@));
    Some(out)
}


/// The variables that expansion reads: a map from name to value.
pub struct Variables {
    map: StringHashMap<String>,
}

impl View for Variables {
    type V = Map<Seq<char>, Seq<char>>;

    closed spec fn view(&self) -> Map<Seq<char>, Seq<char>> {
        self.map@.map_values(|v: String| v@)
    }
}

impl Variables {
    /// No variables at all.
    pub fn new() -> (v: Variables)
        ensures
            v@ == Map::<Seq<char>, Seq<char>>::empty(),
    {
        let v = Variables { map: StringHashMap::new() };
        assert(v@ =~= Map::<Seq<char>, Seq<char>>::empty());
        v
    }

    /// Sets `key` to `value`, replacing any earlier value.
    pub fn insert(&mut self, key: String, value: String)
        ensures
            final(self)@ == old(self)@.insert(key@, value@),
    {
        let ghost k = key@;
        let ghost val = value@;
        self.map.insert(key, value);
        assert(self@ =~= old(self)@.insert(k, val));
    }

    pub fn contains_key(&self, key: &str) -> (b: bool)
        ensures
            b == self@.contains_key(key@),
    {
        self.map.contains_key(key)
    }

    pub fn get<'a>(&'a self, key: &str) -> (r: Option<&'a String>)
        ensures
            match r {
                Some(v) => self@.contains_key(key@) && v@ == self@[key@],
                None => !self@.contains_key(key@),
            },
    {
        self.map.get(key)
    }
}

/// Parser and expander of single arguments.
pub struct ArgumentParser;

impl ArgumentParser {
    /// Expands `argument`: removes escapes, replaces `~` by `HOME`, variables by
    /// their values (unset ones by nothing), and each positional reference by the
    /// next of `positionals`. Returns the text and how many positionals it used.
    pub fn expand(argument: &str, variables: &Variables, positionals: &[String]) -> (r: Result<
        (String, usize),
        ExpandError,
    >)
        ensures
            expand_result_view(r) == expand_spec(argument@, variables@, strings_view(positionals@)),
    {
        let chars = chars_of(argument);
        match tokenize(&chars) {
            None => Err(ExpandError::ParseFailed),
            Some(pieces) => render_pieces(&pieces, variables, positionals),
        }
    }

    fn get_var<'a>(name: &str, variables: &'a Variables) -> (r: &'a str)
        ensures
            r@ == lookup(variables@, name@),
    {
        match variables.get(name) {
            Some(s) => s.as_str(),
            None => {
                proof {
                    reveal_strlit("");
                }
                ""
            },
        }
    }

    fn get_positional(index: usize, positionals: &[String]) -> (r: Result<&String, ExpandError>)
        ensures
            match r {
                Ok(s) => index < positionals@.len() && *s == positionals@[index as int],
                Err(e) => index >= positionals@.len() && e == ExpandError::MissingPositional(index),
            },
    {
        if index < positionals.len() {
            Ok(&positionals[index])
        } else {
            Err(ExpandError::MissingPositional(index))
        }
    }
}

proof fn lemma_render_step(
    ts: Seq<Token>,
    k: int,
    vars: Map<Seq<char>, Seq<char>>,
    pos: Seq<Seq<char>>,
    used: nat,
)
    requires
        0 <= k < ts.len(),
    ensures
        ts.skip(k).drop_first() == ts.skip(k + 1),
        ts.skip(k)[0] == ts[k],
        render(ts.skip(k), vars, pos, used) == match ts[k] {
            Token::Literal(c) => seq![c] + render(ts.skip(k + 1), vars, pos, used),
            Token::Variable(n) => lookup(vars, n) + render(ts.skip(k + 1), vars, pos, used),
            Token::Home => lookup(vars, "HOME"@) + render(ts.skip(k + 1), vars, pos, used),
            Token::Positional => pos[used as int] + render(ts.skip(k + 1), vars, pos, used + 1),
        },
        positional_count(ts.skip(k)) == (if ts[k] is Positional { 1nat } else { 0nat })
            + positional_count(ts.skip(k + 1)),
{
    assert(ts.skip(k).drop_first() =~= ts.skip(k + 1));
}

/// Writes out the pieces of an argument.
fn render_pieces(pieces: &Vec<Piece>, variables: &Variables, positionals: &[String]) -> (r: Result<
    (String, usize),
    ExpandError,
>)
    ensures
        expand_result_view(r) == ({
            let ts = tokens_of(pieces@);
            let pos = strings_view(positionals@);
            if positional_count(ts) > pos.len() {
                Err(ExpandError::MissingPositional(pos.len() as usize))
            } else {
                Ok((render(ts, variables@, pos, 0), positional_count(ts)))
            }
        }),
{
    let ghost ts = tokens_of(pieces@);
    let ghost vars = variables@;
    let ghost pos = strings_view(positionals@);
    let mut out = String::new();
    let mut used: usize = 0;
    let mut k: usize = 0;
    assert(ts.skip(0) =~= ts);
    assert(out@ + render(ts, vars, pos, 0) =~= render(ts, vars, pos, 0));
    while k < pieces.len()
        invariant
            ts == tokens_of(pieces@),
            vars == variables@,
            pos == strings_view(positionals@),
            k <= pieces.len(),
            used <= positionals@.len(),
            render(ts, vars, pos, 0) == out@ + render(ts.skip(k as int), vars, pos, used as nat),
            positional_count(ts) == used + positional_count(ts.skip(k as int)),
        decreases pieces.len() - k,
    {
        proof {
            lemma_render_step(ts, k as int, vars, pos, used as nat);
        }
        let ghost before = out@;
        let ghost rest = render(ts.skip(k + 1), vars, pos, used as nat);
        match &pieces[k] {
            Piece::Literal(c) => {
                push_char(&mut out, *c);
                assert(before + (seq![*c] + rest) =~= out@ + rest);
            },
            Piece::Variable(name) => {
                let v = ArgumentParser::get_var(name.as_str(), variables);
                out.append(v);
                assert(before + (lookup(vars, name@) + rest) =~= out@ + rest);
            },
            Piece::Home => {
                let v = ArgumentParser::get_var("HOME", variables);
                out.append(v);
                assert(before + (lookup(vars, "HOME"@) + rest) =~= out@ + rest);
            },
            Piece::Positional => {
                match ArgumentParser::get_positional(used, positionals) {
                    Ok(p) => {
                        out.append(p.as_str());
                        assert(used < positionals@.len());
                        assert(positionals@.len() == positionals.len());
                        assert(pos[used as int] == p@);
                        assert(before + (pos[used as int] + rest) =~= out@ + rest);
                        used = used + 1;
                    },
                    Err(e) => {
                        return Err(e);
                    },
                }
            },
        }
        k = k + 1;
    }
    assert(ts.skip(k as int) =~= Seq::<Token>::empty());
    assert(out@ + Seq::<char>::empty() =~= out@);
    Ok((out, used))
}


/// The expansion of `args[i..]`: each argument is expanded with the arguments
/// after it as positionals, and the positionals that it uses are skipped.
pub open spec fn apply_from(vars: Map<Seq<char>, Seq<char>>, args: Seq<Seq<char>>, i: nat) -> Result<
    Seq<Seq<char>>,
    ExpandError,
>
    decreases args.len() - i,
{
    if i >= args.len() {
        Ok(Seq::empty())
    } else {
        match expand_spec(args[i as int], vars, args.skip(i + 1int)) {
            Err(e) => Err(e),
            Ok((s, n)) => match apply_from(vars, args, i + 1 + n) {
                Ok(rest) => Ok(seq![s] + rest),
                Err(e) => Err(e),
            },
        }
    }
}

pub open spec fn apply_spec(vars: Map<Seq<char>, Seq<char>>, args: Seq<Seq<char>>) -> Result<
    Seq<Seq<char>>,
    ExpandError,
> {
    apply_from(vars, args, 0)
}

pub open spec fn strings_result_view(r: Result<Vec<String>, ExpandError>) -> Result<
    Seq<Seq<char>>,
    ExpandError,
> {
    match r {
        Ok(v) => Ok(strings_view(v@)),
        Err(e) => Err(e),
    }
}

pub open spec fn prefix_result(pre: Seq<Seq<char>>, r: Result<Seq<Seq<char>>, ExpandError>) -> Result<
    Seq<Seq<char>>,
    ExpandError,
> {
    match r {
        Ok(rest) => Ok(pre + rest),
        Err(e) => Err(e),
    }
}

proof fn lemma_apply_step(
    vars: Map<Seq<char>, Seq<char>>,
    args: Seq<Seq<char>>,
    i: nat,
    pre: Seq<Seq<char>>,
    s: Seq<char>,
    n: nat,
)
    requires
        i < args.len(),
        expand_spec(args[i as int], vars, args.skip(i + 1int)) == Ok::<(Seq<char>, nat), ExpandError>(
            (s, n),
        ),
    ensures
        prefix_result(pre, apply_from(vars, args, i)) == prefix_result(
            pre.push(s),
            apply_from(vars, args, i + 1 + n),
        ),
{
    if let Ok(rest) = apply_from(vars, args, i + 1 + n) {
        assert(pre + (seq![s] + rest) =~= pre.push(s) + rest);
    }
}

impl Variables {
    /// Expands every argument; an argument that uses positionals takes them
    /// from the arguments that follow it, and those are then skipped.
    pub fn apply(&self, arguments: &[String]) -> (r: Result<Vec<String>, ExpandError>)
        ensures
            strings_result_view(r) == apply_spec(self@, strings_view(arguments@)),
    {
        let ghost args = strings_view(arguments@);
        let n = arguments.len();
        let mut output: Vec<String> = Vec::new();
        let mut index: usize = 0;
        assert(strings_view(output@) + Seq::<Seq<char>>::empty() =~= strings_view(output@));
        while index < n
            invariant
                n == arguments@.len(),
                args == strings_view(arguments@),
                index <= n,
                prefix_result(strings_view(output@), apply_from(self@, args, index as nat))
                    == apply_spec(self@, args),
            decreases n - index,
        {
            let positionals = &arguments[index + 1..n];
            assert(strings_view(positionals@) =~= args.skip(index + 1));
            let results = ArgumentParser::expand(arguments[index].as_str(), self, positionals);
            match results {
                Err(e) => {
                    return Err(e);
                },
                Ok((text, used)) => {
                    proof {
                        lemma_apply_step(self@, args, index as nat, strings_view(output@), text@, used as nat);
                    }
                    let ghost before = output@;
                    output.push(text);
                    assert(strings_view(output@) =~= strings_view(before).push(text@));
                    index = index + 1 + used;
                },
            }
        }
        proof {
            if let Ok(rest) = apply_from(self@, args, index as nat) {
                assert(rest =~= Seq::<Seq<char>>::empty());
            }
        }
        assert(strings_view(output@) + Seq::<Seq<char>>::empty() =~= strings_view(output@));
        Ok(output)
    }
}


pub open spec fn pairs_view(v: Seq<(String, String)>) -> Seq<(Seq<char>, Seq<char>)> {
    v.map_values(|e: (String, String)| (e.0@, e.1@))
}

/// The map that inserting the pairs in order gives: a later pair wins.
pub open spec fn map_of_pairs(ps: Seq<(Seq<char>, Seq<char>)>) -> Map<Seq<char>, Seq<char>>
    decreases ps.len(),
{
    if ps.len() == 0 {
        Map::empty()
    } else {
        map_of_pairs(ps.drop_last()).insert(ps.last().0, ps.last().1)
    }
}

/// Adds configured variables, in order, to `vars`: a name that is already
/// set keeps its value; otherwise the value is expanded against the
/// variables known so far (with no positionals) and set.
pub open spec fn with_config(
    vars: Map<Seq<char>, Seq<char>>,
    entries: Seq<(Seq<char>, Seq<char>)>,
) -> Result<Map<Seq<char>, Seq<char>>, ExpandError>
    decreases entries.len(),
{
    if entries.len() == 0 {
        Ok(vars)
    } else {
        let (k, v) = entries[0];
        if vars.contains_key(k) {
            with_config(vars, entries.drop_first())
        } else {
            match expand_spec(v, vars, Seq::empty()) {
                Ok((text, _)) => with_config(vars.insert(k, text), entries.drop_first()),
                Err(e) => Err(e),
            }
        }
    }
}

pub open spec fn variables_result_view(r: Result<Variables, ExpandError>) -> Result<
    Map<Seq<char>, Seq<char>>,
    ExpandError,
> {
    match r {
        Ok(v) => Ok(v@),
        Err(e) => Err(e),
    }
}

impl Variables {
    /// The variables of an environment, given as name/value pairs.
    pub fn from_env_vars(env: Vec<(String, String)>) -> (v: Variables)
        ensures
            v@ == map_of_pairs(pairs_view(env@)),
    {
        let mut v = Variables::new();
        let mut i: usize = 0;
        assert(pairs_view(env@).take(0) =~= Seq::<(Seq<char>, Seq<char>)>::empty());
        while i < env.len()
            invariant
                i <= env.len(),
                v@ == map_of_pairs(pairs_view(env@).take(i as int)),
            decreases env.len() - i,
        {
            let key = env[i].0.clone();
            let value = env[i].1.clone();
            v.insert(key, value);
            assert(pairs_view(env@).take(i + 1).drop_last() =~= pairs_view(env@).take(i as int));
            i = i + 1;
        }
        assert(pairs_view(env@).take(i as int) =~= pairs_view(env@));
        v
    }

    /// Adds the configured `entries` in order, as `with_config` says.
    pub fn add_config_entries(&mut self, entries: Vec<(String, String)>) -> (r: Result<(), ExpandError>)
        ensures
            match with_config(old(self)@, pairs_view(entries@)) {
                Ok(m) => r is Ok && final(self)@ == m,
                Err(e) => r == Err::<(), ExpandError>(e),
            },
    {
        let ghost es = pairs_view(entries@);
        let mut i: usize = 0;
        assert(es.skip(0) =~= es);
        while i < entries.len()
            invariant
                es == pairs_view(entries@),
                i <= entries.len(),
                with_config(old(self)@, es) == with_config(self@, es.skip(i as int)),
            decreases entries.len() - i,
        {
            assert(es.skip(i as int).drop_first() =~= es.skip(i + 1));
            let key = &entries[i].0;
            let value = &entries[i].1;
            if !self.contains_key(key.as_str()) {
                let no_positionals: Vec<String> = Vec::new();
                assert(strings_view(no_positionals@) =~= Seq::<Seq<char>>::empty());
                match ArgumentParser::expand(value.as_str(), self, no_positionals.as_slice()) {
                    Ok((text, _)) => {
                        self.insert(key.clone(), text);
                    },
                    Err(e) => {
                        return Err(e);
                    },
                }
            }
            i = i + 1;
        }
        assert(es.skip(i as int) =~= Seq::<(Seq<char>, Seq<char>)>::empty());
        Ok(())
    }

    /// The variables of the environment `env`, then those of the configuration,
    /// in the configuration's order, as `with_config` says.
    pub fn try_from(env: Vec<(String, String)>, config_variables: IndexMap<String, String>) -> (r:
        Result<Variables, ExpandError>)
        ensures
            variables_result_view(r) == with_config(
                map_of_pairs(pairs_view(env@)),
                index_map_entries(config_variables),
            ),
    {
        let mut variables = Variables::from_env_vars(env);
        let entries = index_map_into_entries(config_variables);
        assert(pairs_view(entries@) =~= entries@.map_values(|e: (String, String)| (e.0@, e.1@)));
        match variables.add_config_entries(entries) {
            Ok(()) => Ok(variables),
            Err(e) => Err(e),
        }
    }
}


/// A character that stands for itself in an argument.
pub open spec fn is_plain(c: char) -> bool {
    c != '\\' && c != '$' && c != '~'
}

/// Each character as a literal piece.
pub open spec fn literal_tokens(s: Seq<char>) -> Seq<Token> {
    s.map_values(|c: char| literal_token(c))
}

pub open spec fn literal_token(c: char) -> Token {
    Token::Literal(c)
}

proof fn lemma_plain_parses(s: Seq<char>)
    requires
        forall|i: int| 0 <= i < s.len() ==> is_plain(#[trigger] s[i]),
    ensures
        parse_argument(s) == Some(literal_tokens(s)),
    decreases s.len(),
{
    if s.len() > 0 {
        let rest = s.drop_first();
        assert forall|i: int| 0 <= i < rest.len() implies is_plain(#[trigger] rest[i]) by {
            assert(rest[i] == s[i + 1]);
        }
        lemma_plain_parses(rest);
        assert forall|i: int| 0 <= i < s.len() implies (seq![literal_token(s[0])] + literal_tokens(
            rest,
        ))[i] == literal_tokens(s)[i] by {
            if i > 0 {
                assert(rest[i - 1] == s[i]);
            }
        }
        assert(seq![literal_token(s[0])] + literal_tokens(rest) =~= literal_tokens(s));
    }
}

proof fn lemma_literals_render(
    s: Seq<char>,
    vars: Map<Seq<char>, Seq<char>>,
    pos: Seq<Seq<char>>,
    used: nat,
)
    ensures
        positional_count(literal_tokens(s)) == 0,
        render(literal_tokens(s), vars, pos, used) == s,
    decreases s.len(),
{
    let ts = literal_tokens(s);
    if s.len() > 0 {
        let rest = s.drop_first();
        lemma_literals_render(rest, vars, pos, used);
        assert(ts.drop_first() =~= literal_tokens(rest));
        assert(seq![s[0]] + rest =~= s);
    } else {
        assert(ts =~= Seq::<Token>::empty());
        assert(s =~= Seq::<char>::empty());
    }
}

/// An argument with no `\`, `$` or `~` expands to itself and uses no positionals.
pub proof fn lemma_plain_argument_expands_to_itself(
    s: Seq<char>,
    vars: Map<Seq<char>, Seq<char>>,
    pos: Seq<Seq<char>>,
)
    requires
        forall|i: int| 0 <= i < s.len() ==> is_plain(#[trigger] s[i]),
    ensures
        expand_spec(s, vars, pos) == Ok::<(Seq<char>, nat), ExpandError>((s, 0)),
{
    lemma_plain_parses(s);
    lemma_literals_render(s, vars, pos, 0);
}

proof fn lemma_identifier_len_all(n: Seq<char>, tail: Seq<char>)
    requires
        forall|i: int| 0 <= i < n.len() ==> is_identifier_char(#[trigger] n[i]),
        tail.len() == 0 || !is_identifier_char(tail[0]),
    ensures
        identifier_len(n + tail) == n.len(),
    decreases n.len(),
{
    if n.len() > 0 {
        let rest = n.drop_first();
        assert forall|i: int| 0 <= i < rest.len() implies is_identifier_char(#[trigger] rest[i]) by {
            assert(rest[i] == n[i + 1]);
        }
        lemma_identifier_len_all(rest, tail);
        assert((n + tail).drop_first() =~= rest + tail);
    } else {
        assert(n + tail =~= tail);
    }
}

/// `$NAME` and `${NAME}` both expand to the value of `NAME`, or to nothing
/// where it is unset, and use no positionals.
pub proof fn lemma_variable_reference(
    name: Seq<char>,
    vars: Map<Seq<char>, Seq<char>>,
    pos: Seq<Seq<char>>,
)
    requires
        name.len() > 0,
        forall|i: int| 0 <= i < name.len() ==> is_identifier_char(#[trigger] name[i]),
    ensures
        expand_spec(seq!['$'] + name, vars, pos) == Ok::<(Seq<char>, nat), ExpandError>(
            (lookup(vars, name), 0),
        ),
        expand_spec(seq!['$', '{'] + name + seq!['}'], vars, pos) == Ok::<
            (Seq<char>, nat),
            ExpandError,
        >((lookup(vars, name), 0)),
{
    let empty = Seq::<char>::empty();
    // `$NAME`
    let s1 = seq!['$'] + name;
    lemma_identifier_len_all(name, empty);
    assert(name + empty =~= name);
    assert(s1.drop_first() =~= name);
    assert(name.take(name.len() as int) =~= name);
    assert(s1.skip(name.len() + 1int) =~= empty);
    assert(parse_argument(s1.skip(name.len() + 1int)) == Some(Seq::<Token>::empty()));
    assert(seq![Token::Variable(name)] + Seq::<Token>::empty() =~= seq![Token::Variable(name)]);
    let ts1 = seq![Token::Variable(name)];
    assert(parse_argument(s1) == Some(ts1));
    assert(ts1.drop_first() =~= Seq::<Token>::empty());
    assert(lookup(vars, name) + Seq::<char>::empty() =~= lookup(vars, name));
    assert(render(ts1.drop_first(), vars, pos, 0) == Seq::<char>::empty());
    assert(positional_count(ts1.drop_first()) == 0);
    assert(render(ts1, vars, pos, 0) == lookup(vars, name));
    assert(positional_count(ts1) == 0);
    // `${NAME}`
    let s2 = seq!['$', '{'] + name + seq!['}'];
    let r2 = s2.drop_first();
    assert(r2 =~= seq!['{'] + name + seq!['}']);
    assert(r2.drop_first() =~= name + seq!['}']);
    lemma_identifier_len_all(name, seq!['}']);
    assert((name + seq!['}']).take(name.len() as int) =~= name);
    assert(r2[name.len() + 1int] == '}');
    assert(s2.skip(name.len() + 3int) =~= empty);
    assert(parse_argument(s2.skip(name.len() + 3int)) == Some(Seq::<Token>::empty()));
    assert(parse_argument(s2) == Some(ts1));
}

/// Any name of ASCII letters (lower or upper case), ASCII digits and `_`
/// can be referred to: `$NAME` and `${NAME}` give its value (nothing where it
/// is unset) and use no positionals. So `$ns` reads the variable `ns`.
pub proof fn lemma_ascii_name_reference(
    name: Seq<char>,
    vars: Map<Seq<char>, Seq<char>>,
    pos: Seq<Seq<char>>,
)
    requires
        name.len() > 0,
        forall|i: int|
            0 <= i < name.len() ==> {
                let c = #[trigger] name[i];
                ('a' <= c && c <= 'z') || ('A' <= c && c <= 'Z') || ('0' <= c && c <= '9') || c
                    == '_'
            },
    ensures
        expand_spec(seq!['$'] + name, vars, pos) == Ok::<(Seq<char>, nat), ExpandError>(
            (lookup(vars, name), 0),
        ),
        expand_spec(seq!['$', '{'] + name + seq!['}'], vars, pos) == Ok::<
            (Seq<char>, nat),
            ExpandError,
        >((lookup(vars, name), 0)),
        expand_spec(seq!['$', 'n', 's'], vars, pos) == Ok::<(Seq<char>, nat), ExpandError>(
            (lookup(vars, seq!['n', 's']), 0),
        ),
{
    assert forall|i: int| 0 <= i < name.len() implies is_identifier_char(#[trigger] name[i]) by {}
    lemma_variable_reference(name, vars, pos);
    let ns = seq!['n', 's'];
    assert forall|i: int| 0 <= i < ns.len() implies is_identifier_char(#[trigger] ns[i]) by {}
    lemma_variable_reference(ns, vars, pos);
    assert(seq!['$'] + ns =~= seq!['$', 'n', 's']);
}

/// `$#` and `${#}` expand to the first positional and use it, or fail when there is none.
pub proof fn lemma_positional_reference(vars: Map<Seq<char>, Seq<char>>, pos: Seq<Seq<char>>)
    ensures
        expand_spec(seq!['$', '#'], vars, pos) == if pos.len() > 0 {
            Ok::<(Seq<char>, nat), ExpandError>((pos[0], 1))
        } else {
            Err(ExpandError::MissingPositional(0))
        },
        expand_spec(seq!['$', '{', '#', '}'], vars, pos) == if pos.len() > 0 {
            Ok::<(Seq<char>, nat), ExpandError>((pos[0], 1))
        } else {
            Err(ExpandError::MissingPositional(0))
        },
{
    let empty = Seq::<char>::empty();
    let ts = seq![Token::Positional];
    let s1 = seq!['$', '#'];
    assert(s1.drop_first() =~= seq!['#']);
    assert(s1.skip(2) =~= empty);
    assert(parse_argument(s1.skip(2)) == Some(Seq::<Token>::empty()));
    assert(ts + Seq::<Token>::empty() =~= ts);
    assert(parse_argument(s1) == Some(ts));
    let s2 = seq!['$', '{', '#', '}'];
    assert(s2.drop_first() =~= seq!['{', '#', '}']);
    assert(seq!['{', '#', '}'].drop_first() =~= seq!['#', '}']);
    assert(s2.skip(4) =~= empty);
    assert(parse_argument(s2.skip(4)) == Some(Seq::<Token>::empty()));
    assert(parse_argument(s2) == Some(ts));
    assert(ts.drop_first() =~= Seq::<Token>::empty());
    assert(positional_count(ts.drop_first()) == 0);
    assert(render(ts.drop_first(), vars, pos, 1) == Seq::<char>::empty());
    assert(positional_count(ts) == 1);
    if pos.len() > 0 {
        assert(pos[0] + Seq::<char>::empty() =~= pos[0]);
    }
}

/// Arguments with no `\`, `$` or `~` pass through expansion unchanged.
pub proof fn lemma_plain_arguments_unchanged(vars: Map<Seq<char>, Seq<char>>, args: Seq<Seq<char>>)
    requires
        forall|i: int, j: int|
            0 <= i < args.len() && 0 <= j < args[i].len() ==> is_plain(#[trigger] args[i][j]),
    ensures
        apply_spec(vars, args) == Ok::<Seq<Seq<char>>, ExpandError>(args),
{
    lemma_plain_arguments_from(vars, args, 0);
    assert(args.skip(0) =~= args);
}

proof fn lemma_plain_arguments_from(vars: Map<Seq<char>, Seq<char>>, args: Seq<Seq<char>>, i: nat)
    requires
        forall|i: int, j: int|
            0 <= i < args.len() && 0 <= j < args[i].len() ==> is_plain(#[trigger] args[i][j]),
    ensures
        i <= args.len() ==> apply_from(vars, args, i) == Ok::<Seq<Seq<char>>, ExpandError>(
            args.skip(i as int),
        ),
    decreases args.len() - i,
{
    if i < args.len() {
        let a = args[i as int];
        assert forall|j: int| 0 <= j < a.len() implies is_plain(#[trigger] a[j]) by {
            assert(is_plain(args[i as int][j]));
        }
        lemma_plain_argument_expands_to_itself(a, vars, args.skip(i + 1int));
        lemma_plain_arguments_from(vars, args, i + 1);
        assert(seq![a] + args.skip(i + 1int) =~= args.skip(i as int));
    } else if i == args.len() {
        assert(args.skip(i as int) =~= Seq::<Seq<char>>::empty());
    }
}

/// Variables that the environment sets keep their values whatever the
/// configuration says; every configured name ends up set.
pub proof fn lemma_environment_takes_precedence(
    vars: Map<Seq<char>, Seq<char>>,
    entries: Seq<(Seq<char>, Seq<char>)>,
)
    ensures
        with_config(vars, entries) matches Ok(m) ==> {
            &&& forall|k: Seq<char>| #[trigger] vars.contains_key(k) ==> m.contains_key(k) && m[k] == vars[k]
            &&& forall|i: int| 0 <= i < entries.len() ==> m.contains_key(#[trigger] entries[i].0)
        },
    decreases entries.len(),
{
    if entries.len() > 0 {
        let (k, v) = entries[0];
        let rest = entries.drop_first();
        if vars.contains_key(k) {
            lemma_environment_takes_precedence(vars, rest);
            if let Ok(m) = with_config(vars, entries) {
                assert forall|i: int| 0 <= i < entries.len() implies m.contains_key(#[trigger] entries[i].0) by {
                    if i > 0 {
                        assert(entries[i] == rest[i - 1]);
                    }
                }
            }
        } else {
            if let Ok((text, _)) = expand_spec(v, vars, Seq::empty()) {
                lemma_environment_takes_precedence(vars.insert(k, text), rest);
                if let Ok(m) = with_config(vars, entries) {
                    assert forall|i: int| 0 <= i < entries.len() implies m.contains_key(#[trigger] entries[i].0) by {
                        if i > 0 {
                            assert(entries[i] == rest[i - 1]);
                        } else {
                            assert(vars.insert(k, text).contains_key(k));
                        }
                    }
                    assert forall|x: Seq<char>| #[trigger] vars.contains_key(x) implies m.contains_key(x) && m[x] == vars[x] by {
                        assert(vars.insert(k, text).contains_key(x));
                    }
                }
            }
        }
    }
}

} // verus!
