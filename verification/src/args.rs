use vstd::prelude::*;

verus! {

/// One token of the arguments of an entry-point attribute, as the compiler
/// hands them over: an identifier, a punctuation character, a literal in its
/// source form, or a delimited group.
#[derive(Debug, Clone)]
pub enum ArgToken {
    Ident(String),
    Punct(char),
    Literal(String),
    Group,
}

/// The arguments of the entry-point attributes.
#[derive(Debug, Clone, Copy, PartialEq, Eq, Structural)]
pub struct MainArgs {
    pub thread_count: usize,
}

/// Why the arguments of an entry-point attribute were refused.
#[derive(Debug, Clone, Copy, PartialEq, Eq, Structural)]
pub enum ArgsError {
    /// The first identifier is not `thread_count`.
    UnknownArgument,
    /// `thread_count` is not followed by `=`.
    ExpectedEquals,
    /// `=` is not followed by a literal.
    ExpectedInteger,
    /// The literal is not an integer that fits in a `usize`.
    InvalidInteger,
    /// Tokens are left over after the arguments.
    UnexpectedToken,
}

/// The value, in base 10, of an integer literal written as `text` (suffix,
/// separators and base prefix allowed), if `text` is an integer literal whose
/// value fits in a `usize`.
pub uninterp spec fn int_literal_value(text: Seq<char>) -> Option<usize>;

/// Reads an integer literal with `syn`: `syn::parse_str::<syn::LitInt>`
/// gives the literal, and its `base10_parse::<usize>` the value. The
/// contract says only that the value is the one named by
/// `int_literal_value`, a function of the text alone; which texts syn
/// accepts is left to syn.
#[verifier::external_body]
fn int_literal_value_of(text: &str) -> (value: Option<usize>)
    ensures
        value == int_literal_value(text@),
{
    match syn::parse_str::<syn::LitInt>(text) {
        Ok(lit) => match lit.base10_parse::<usize>() {
            Ok(v) => Some(v),
            Err(_) => None,
        },
        Err(_) => None,
    }
}

/// Whether `text`, read as Rust source, is exactly one identifier token.
pub uninterp spec fn lexes_as_ident(text: Seq<char>) -> bool;

/// The words that `syn` does not take for identifiers: `_` and the keywords
/// of Rust.
pub open spec fn reserved_word(text: Seq<char>) -> bool {
    ||| text == "_"@
    ||| text == "abstract"@
    ||| text == "as"@
    ||| text == "async"@
    ||| text == "await"@
    ||| text == "become"@
    ||| text == "box"@
    ||| text == "break"@
    ||| text == "const"@
    ||| text == "continue"@
    ||| text == "crate"@
    ||| text == "do"@
    ||| text == "dyn"@
    ||| text == "else"@
    ||| text == "enum"@
    ||| text == "extern"@
    ||| text == "false"@
    ||| text == "final"@
    ||| text == "fn"@
    ||| text == "for"@
    ||| text == "if"@
    ||| text == "impl"@
    ||| text == "in"@
    ||| text == "let"@
    ||| text == "loop"@
    ||| text == "macro"@
    ||| text == "match"@
    ||| text == "mod"@
    ||| text == "move"@
    ||| text == "mut"@
    ||| text == "override"@
    ||| text == "priv"@
    ||| text == "pub"@
    ||| text == "ref"@
    ||| text == "return"@
    ||| text == "Self"@
    ||| text == "self"@
    ||| text == "static"@
    ||| text == "struct"@
    ||| text == "super"@
    ||| text == "trait"@
    ||| text == "true"@
    ||| text == "try"@
    ||| text == "type"@
    ||| text == "typeof"@
    ||| text == "unsafe"@
    ||| text == "unsized"@
    ||| text == "use"@
    ||| text == "virtual"@
    ||| text == "where"@
    ||| text == "while"@
    ||| text == "yield"@
}

/// Whether `c` may stand in an identifier made of ASCII characters.
pub open spec fn ascii_ident_char(c: char) -> bool {
    ('a' <= c && c <= 'z') || ('A' <= c && c <= 'Z') || ('0' <= c && c <= '9') || c == '_'
}

/// Whether `text` is an identifier made of ASCII letters, digits and
/// underscores, not starting with a digit.
pub open spec fn ascii_ident(text: Seq<char>) -> bool {
    &&& text.len() > 0
    &&& !('0' <= text[0] && text[0] <= '9')
    &&& forall|i: int| 0 <= i < text.len() ==> ascii_ident_char(#[trigger] text[i])
}

/// Whether `syn` takes `text` for an identifier: it is one identifier token,
/// and not a reserved word.
pub open spec fn accepted_as_ident(text: Seq<char>) -> bool {
    lexes_as_ident(text) && !reserved_word(text)
}

/// Asks `syn` whether `text` is an identifier in its sense:
/// `syn::parse_str::<syn::Ident>` succeeds on it. It succeeds where the text
/// is one identifier token (named by `lexes_as_ident`, and so for every
/// identifier made of ASCII letters, digits and underscores) that is not `_`
/// or a keyword. Which other texts lex as one identifier is left to syn.
#[verifier::external_body]
fn accepted_as_ident_of(text: &str) -> (accepted: bool)
    ensures
        accepted == (lexes_as_ident(text@) && !reserved_word(text@)),
        ascii_ident(text@) ==> accepted == !reserved_word(text@),
{
    match syn::parse_str::<syn::Ident>(text) {
        Ok(_) => true,
        Err(_) => false,
    }
}

/// What reading the arguments from the front of `tokens` gives, with the
/// number of tokens read, given whether the first token is an identifier
/// that `syn` takes (`first_accepted`) and the value of the third token as
/// an integer literal (`value`): a stream that does not start with such an
/// identifier gives one thread and reads nothing; `thread_count = N` gives
/// `N` threads and reads three tokens; any other start is refused.
pub open spec fn main_args_given(
    tokens: Seq<ArgToken>,
    first_accepted: bool,
    value: Option<usize>,
) -> Result<(MainArgs, nat), ArgsError> {
    if tokens.len() == 0 || !(tokens[0] is Ident) || !first_accepted {
        Ok((MainArgs { thread_count: 1 }, 0))
    } else if tokens[0]->Ident_0@ != "thread_count"@ {
        Err(ArgsError::UnknownArgument)
    } else if tokens.len() < 2 || tokens[1] != ArgToken::Punct('=') {
        Err(ArgsError::ExpectedEquals)
    } else if tokens.len() < 3 || !(tokens[2] is Literal) {
        Err(ArgsError::ExpectedInteger)
    } else {
        match value {
            None => Err(ArgsError::InvalidInteger),
            Some(n) => Ok((MainArgs { thread_count: n }, 3)),
        }
    }
}

/// Whether the first of `tokens` is an identifier that `syn` takes.
pub open spec fn first_accepted(tokens: Seq<ArgToken>) -> bool {
    tokens.len() > 0 && tokens[0] is Ident && accepted_as_ident(tokens[0]->Ident_0@)
}

/// The value of the third of `tokens` as an integer literal, if it is one.
pub open spec fn third_value(tokens: Seq<ArgToken>) -> Option<usize> {
    if tokens.len() >= 3 && tokens[2] is Literal {
        int_literal_value(tokens[2]->Literal_0@)
    } else {
        None
    }
}

/// What reading the arguments from the front of `tokens` gives, with the
/// number of tokens read.
pub open spec fn main_args_prefix(tokens: Seq<ArgToken>) -> Result<(MainArgs, nat), ArgsError> {
    main_args_given(tokens, first_accepted(tokens), third_value(tokens))
}

/// The arguments written as the whole of `tokens`: what reading them from
/// the front gives, provided that no token is left over.
pub open spec fn main_args_of(tokens: Seq<ArgToken>) -> Result<MainArgs, ArgsError> {
    match main_args_prefix(tokens) {
        Ok((args, read)) => if read == tokens.len() {
            Ok(args)
        } else {
            Err(ArgsError::UnexpectedToken)
        },
        Err(e) => Err(e),
    }
}

/// Whether a result of reading with a count of tokens read is `expected`.
pub open spec fn read_as(
    parsed: Result<(MainArgs, usize), ArgsError>,
    expected: Result<(MainArgs, nat), ArgsError>,
) -> bool {
    match (parsed, expected) {
        (Ok((args, read)), Ok((e_args, e_read))) => args == e_args && read == e_read,
        (Err(e), Err(e_expected)) => e == e_expected,
        _ => false,
    }
}

/// Reads the arguments from the front of `tokens`, given whether the first
/// token is an identifier that `syn` takes and the value of the third token
/// as an integer literal.
pub fn main_args_from(tokens: &Vec<ArgToken>, first_accepted: bool, value: Option<usize>) -> (parsed:
    Result<(MainArgs, usize), ArgsError>)
    ensures
        read_as(parsed, main_args_given(tokens@, first_accepted, value)),
{
    let default = MainArgs { thread_count: 1 };
    if tokens.len() == 0 || !first_accepted {
        return Ok((default, 0));
    }
    match &tokens[0] {
        ArgToken::Ident(name) => {
            let expected = "thread_count".to_owned();
            if *name != expected {
                return Err(ArgsError::UnknownArgument);
            }
        },
        _ => {
            return Ok((default, 0));
        },
    }
    if tokens.len() < 2 {
        return Err(ArgsError::ExpectedEquals);
    }
    match &tokens[1] {
        ArgToken::Punct(c) => {
            if *c != '=' {
                return Err(ArgsError::ExpectedEquals);
            }
        },
        _ => {
            return Err(ArgsError::ExpectedEquals);
        },
    }
    if tokens.len() < 3 {
        return Err(ArgsError::ExpectedInteger);
    }
    match &tokens[2] {
        ArgToken::Literal(_) => match value {
            Some(n) => Ok((MainArgs { thread_count: n }, 3)),
            None => Err(ArgsError::InvalidInteger),
        },
        _ => Err(ArgsError::ExpectedInteger),
    }
}

impl MainArgs {
    /// Reads the arguments from the front of `tokens`, and says how many
    /// tokens it read.
    pub fn parse(tokens: &Vec<ArgToken>) -> (parsed: Result<(MainArgs, usize), ArgsError>)
        ensures
            read_as(parsed, main_args_prefix(tokens@)),
    {
        let first = if tokens.len() > 0 {
            match &tokens[0] {
                ArgToken::Ident(name) => accepted_as_ident_of(name.as_str()),
                _ => false,
            }
        } else {
            false
        };
        let value = if tokens.len() >= 3 {
            match &tokens[2] {
                ArgToken::Literal(text) => int_literal_value_of(text.as_str()),
                _ => None,
            }
        } else {
            None
        };
        main_args_from(tokens, first, value)
    }
}

/// Reads the arguments from the whole of `tokens`: a token left over after
/// them is refused.
pub fn parse_args(tokens: &Vec<ArgToken>) -> (args: Result<MainArgs, ArgsError>)
    ensures
        args == main_args_of(tokens@),
{
    match MainArgs::parse(tokens) {
        Ok((args, read)) => {
            if read == tokens.len() {
                Ok(args)
            } else {
                Err(ArgsError::UnexpectedToken)
            }
        },
        Err(e) => Err(e),
    }
}

/// The thread count of well-formed arguments that ask for at least one
/// thread.
pub fn get_thread_count(tokens: &Vec<ArgToken>) -> (count: usize)
    requires
        main_args_of(tokens@) is Ok,
        main_args_of(tokens@)->Ok_0.thread_count > 0,
    ensures
        count == main_args_of(tokens@)->Ok_0.thread_count,
{
    match parse_args(tokens) {
        Ok(args) => args.thread_count,
        Err(_) => 1,
    }
}

/// The thread count that the arguments ask for, or `None` where they are
/// refused or ask for no thread at all.
pub fn try_get_thread_count(tokens: &Vec<ArgToken>) -> (count: Option<usize>)
    ensures
        count == match main_args_of(tokens@) {
            Ok(args) => if args.thread_count > 0 {
                Some(args.thread_count)
            } else {
                None
            },
            Err(_) => None,
        },
{
    match parse_args(tokens) {
        Ok(args) => {
            if args.thread_count > 0 {
                Some(get_thread_count(tokens))
            } else {
                None
            }
        },
        Err(_) => None,
    }
}

/// Which entry-point attribute is applied.
#[derive(Debug, Clone, Copy, PartialEq, Eq, Structural)]
pub enum EntryKind {
    Main,
    Test,
}

/// Why an entry-point attribute refuses the function it is applied to.
#[derive(Debug, Clone, Copy, PartialEq, Eq, Structural)]
pub enum EntryError {
    /// The `main` attribute is applied to a function not named `main`.
    NotMain,
    /// The function is not `async`.
    NotAsync,
}

/// The verdict of an entry-point attribute on the function it is applied to.
pub open spec fn entry_verdict(kind: EntryKind, name: Seq<char>, is_async: bool) -> Result<(), EntryError> {
    if kind == EntryKind::Main && name != "main"@ {
        Err(EntryError::NotMain)
    } else if !is_async {
        Err(EntryError::NotAsync)
    } else {
        Ok(())
    }
}

/// Checks the function an entry-point attribute is applied to: `main` must
/// be applied to the function named `main`, and both to an `async` function.
pub fn check_entry(kind: EntryKind, name: &String, is_async: bool) -> (verdict: Result<(), EntryError>)
    ensures
        verdict == entry_verdict(kind, name@, is_async),
{
    if kind == EntryKind::Main {
        let expected = "main".to_owned();
        if *name != expected {
            return Err(EntryError::NotMain);
        }
    }
    if !is_async {
        return Err(EntryError::NotAsync);
    }
    Ok(())
}

/// `thread_count` must be followed by `=` itself: when the first token is
/// the identifier `thread_count` (and syn takes it for one), any stream whose
/// second token is missing or is anything but the punctuation `=` (another
/// punctuation character, an identifier, a literal or a group) is refused as
/// missing its `=`, whatever comes after.
pub proof fn lemma_thread_count_needs_equals(
    tokens: Seq<ArgToken>,
    first_accepted: bool,
    value: Option<usize>,
)
    requires
        tokens.len() >= 1,
        tokens[0] is Ident,
        tokens[0]->Ident_0@ == "thread_count"@,
        first_accepted,
        tokens.len() < 2 || tokens[1] != ArgToken::Punct('='),
    ensures
        main_args_given(tokens, first_accepted, value) == Err::<(MainArgs, nat), ArgsError>(
            ArgsError::ExpectedEquals,
        ),
{
}

/// What a successful read looks like: either nothing is read and one thread
/// is asked for, because the stream does not start with an identifier that
/// syn takes; or exactly the three tokens `thread_count`, `=` and an integer
/// literal are read, and the thread count is that literal's value. Every
/// refusal comes from a stream that starts with such an identifier.
pub proof fn lemma_successful_read_shape(tokens: Seq<ArgToken>, first_accepted: bool, value: Option<usize>)
    ensures
        match main_args_given(tokens, first_accepted, value) {
            Ok((args, read)) => {
                ||| read == 0 && args.thread_count == 1 && (tokens.len() == 0
                    || !(tokens[0] is Ident) || !first_accepted)
                ||| {
                    &&& read == 3
                    &&& tokens.len() >= 3
                    &&& first_accepted
                    &&& tokens[0] is Ident
                    &&& tokens[0]->Ident_0@ == "thread_count"@
                    &&& tokens[1] == ArgToken::Punct('=')
                    &&& tokens[2] is Literal
                    &&& value == Some(args.thread_count)
                }
            },
            Err(_) => tokens.len() > 0 && tokens[0] is Ident && first_accepted,
        },
{
}

/// Each refusal of a stream that starts with the identifier `thread_count`
/// names what is wrong: a missing `=`, then a missing integer literal after
/// it, then a literal that is not an integer fitting in a `usize`; another
/// first identifier is an unknown argument.
pub proof fn lemma_refusals_name_the_fault(tokens: Seq<ArgToken>, first_accepted: bool, value: Option<usize>)
    requires
        tokens.len() >= 1,
        tokens[0] is Ident,
        first_accepted,
    ensures
        tokens[0]->Ident_0@ != "thread_count"@ ==> main_args_given(tokens, first_accepted, value)
            == Err::<(MainArgs, nat), ArgsError>(ArgsError::UnknownArgument),
        tokens[0]->Ident_0@ == "thread_count"@ && tokens.len() >= 2 && tokens[1] == ArgToken::Punct(
            '=',
        ) && (tokens.len() < 3 || !(tokens[2] is Literal)) ==> main_args_given(
            tokens,
            first_accepted,
            value,
        ) == Err::<(MainArgs, nat), ArgsError>(ArgsError::ExpectedInteger),
        tokens[0]->Ident_0@ == "thread_count"@ && tokens.len() >= 3 && tokens[1] == ArgToken::Punct(
            '=',
        ) && tokens[2] is Literal && value is None ==> main_args_given(tokens, first_accepted, value)
            == Err::<(MainArgs, nat), ArgsError>(ArgsError::InvalidInteger),
{
}

/// The whole stream is taken only in two shapes: no token at all, for one
/// thread; or exactly `thread_count = N`, with `N` an integer literal whose
/// value is the thread count.
pub proof fn lemma_whole_stream_shape(tokens: Seq<ArgToken>)
    ensures
        main_args_of(tokens) matches Ok(args) ==> {
            ||| tokens.len() == 0 && args.thread_count == 1
            ||| {
                &&& tokens.len() == 3
                &&& tokens[0] is Ident
                &&& tokens[0]->Ident_0@ == "thread_count"@
                &&& tokens[1] == ArgToken::Punct('=')
                &&& tokens[2] is Literal
                &&& int_literal_value(tokens[2]->Literal_0@) == Some(args.thread_count)
            }
        },
{
    lemma_successful_read_shape(tokens, first_accepted(tokens), third_value(tokens));
}

/// The `main` attribute refuses every function not named `main`, whether or
/// not it is `async`; once the name is right (or for `test`, whatever the
/// name), a function is refused exactly when it is not `async`.
pub proof fn lemma_entry_checks(kind: EntryKind, name: Seq<char>, is_async: bool)
    ensures
        kind == EntryKind::Main && name != "main"@ ==> entry_verdict(kind, name, is_async) == Err::<(), EntryError>(EntryError::NotMain),
        (kind == EntryKind::Test || name == "main"@) ==> (entry_verdict(kind, name, is_async) is Ok <==> is_async),
        (kind == EntryKind::Test || name == "main"@) && !is_async ==> entry_verdict(kind, name, is_async) == Err::<(), EntryError>(EntryError::NotAsync),
{
}

} // verus!
