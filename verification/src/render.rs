//! How builder calls are written down as tokens.
//!
//! Each call becomes one statement `target.method(arguments);`. Where a
//! location is given, the method's name ends in `_span` and the location is
//! its first argument.
use vstd::prelude::*;
use crate::literal::{char_literal_text, string_literal_text};
use crate::plan::Call;
use crate::token::{Delimiter, Name, Spacing, Tree};

verus! {

/// The builder operations that take a location.
#[derive(Clone, Copy, Debug, PartialEq, Eq, Structural)]
pub enum Method {
    Ident,
    Idents,
    PunctJoin,
    Punct,
    Punct2,
    Puncts,
    Group,
    ParsedLit,
}

/// The name under which a builder operation is called.
pub open spec fn method_text(method: Method, located: bool) -> Seq<char> {
    match method {
        Method::Ident => if located { "add_ident_span"@ } else { "add_ident"@ },
        Method::Idents => if located { "add_idents_span"@ } else { "add_idents"@ },
        Method::PunctJoin => if located { "add_punct_join_span"@ } else { "add_punct_join"@ },
        Method::Punct => if located { "add_punct_span"@ } else { "add_punct"@ },
        Method::Punct2 => if located { "add_punct2_span"@ } else { "add_punct2"@ },
        Method::Puncts => if located { "add_puncts_span"@ } else { "add_puncts"@ },
        Method::Group => if located { "add_group_span"@ } else { "add_group"@ },
        Method::ParsedLit => if located { "add_parsed_lit_span"@ } else { "add_parsed_lit"@ },
    }
}

/// The name of the operation that appends tokens as they stand.
pub open spec fn tokens_method_text() -> Seq<char> {
    "add_tokens"@
}

/// The name that a generated program gives to the stream inside a group.
pub open spec fn inner_target() -> Name {
    Name { text: "__o"@, raw: false, span: None }
}

/// The character that stands for a delimiter in a generated program.
pub open spec fn delimiter_char(delimiter: Delimiter) -> char {
    match delimiter {
        Delimiter::Invisible => '_',
        Delimiter::Brace => '{',
        Delimiter::Bracket => '[',
        Delimiter::Parenthesis => '(',
    }
}

/// The delimiter that a character stands for: `{`, `[` and `(` for their
/// brackets, any other for none.
pub open spec fn char_delimiter(ch: char) -> Delimiter {
    if ch == '{' {
        Delimiter::Brace
    } else if ch == '[' {
        Delimiter::Bracket
    } else if ch == '(' {
        Delimiter::Parenthesis
    } else {
        Delimiter::Invisible
    }
}

/// A plain identifier token that is made here.
pub open spec fn word(text: Seq<char>) -> Tree {
    Tree::Ident(Name { text, raw: false, span: None })
}

/// A punctuation token that stands alone.
pub open spec fn alone(ch: char) -> Tree {
    Tree::Punct { ch, spacing: Spacing::Alone }
}

/// A punctuation token joined to the next.
pub open spec fn joint(ch: char) -> Tree {
    Tree::Punct { ch, spacing: Spacing::Joint }
}

/// The string literal token that denotes `s`.
pub open spec fn string_token(s: Seq<char>) -> Tree {
    Tree::Literal { text: string_literal_text(s) }
}

/// The character literal token that denotes `ch`.
pub open spec fn char_token(ch: char) -> Tree {
    Tree::Literal { text: char_literal_text(ch) }
}

/// The statement `target.method(arguments);`.
pub open spec fn statement(target: Name, method: Seq<char>, arguments: Seq<Tree>) -> Seq<Tree> {
    seq![
        Tree::Ident(target),
        alone('.'),
        word(method),
        Tree::Group { delimiter: Delimiter::Parenthesis, stream: arguments },
        alone(';'),
    ]
}

/// The location, where there is one, followed by a comma.
pub open spec fn location(span: Option<Name>) -> Seq<Tree> {
    match span {
        Some(name) => seq![Tree::Ident(name), alone(',')],
        None => Seq::empty(),
    }
}

/// `prefix`, then the location, where there is one, followed by a comma.
pub open spec fn located(prefix: Seq<Tree>, span: Option<Name>) -> Seq<Tree> {
    prefix + location(span)
}

/// The names as string literals with a comma between each two.
pub open spec fn name_list(names: Seq<Seq<char>>) -> Seq<Tree>
    decreases names.len(),
{
    if names.len() == 0 {
        Seq::empty()
    } else if names.len() == 1 {
        seq![string_token(names[0])]
    } else {
        name_list(names.drop_last()) + seq![alone(','), string_token(names.last())]
    }
}

/// The arguments of a call, without the location.
pub open spec fn arguments(call: Call, span: Option<Name>) -> Seq<Tree>
    decreases call, 0nat,
{
    match call {
        Call::Ident { name } => seq![string_token(name)],
        Call::Idents { names } => seq![
            Tree::Group { delimiter: Delimiter::Bracket, stream: name_list(names) },
        ],
        Call::PunctJoin { ch } => seq![char_token(ch)],
        Call::Punct { ch } => seq![char_token(ch)],
        Call::Punct2 { ch } => seq![char_token(ch)],
        Call::Puncts { first, second } => seq![char_token(first), alone(','), char_token(second)],
        Call::Group { delimiter, body } => seq![
            char_token(delimiter_char(delimiter)),
            alone(','),
            alone('|'),
            Tree::Ident(inner_target()),
            alone('|'),
            Tree::Group {
                delimiter: Delimiter::Brace,
                stream: render(body, inner_target(), span),
            },
        ],
        Call::ParsedLit { text } => seq![string_token(text)],
        Call::Tokens { token } => seq![alone('&'), token],
    }
}

/// The operation that a call names; none for passing tokens on, which takes
/// no location.
pub open spec fn call_method(call: Call) -> Option<Method> {
    match call {
        Call::Ident { .. } => Some(Method::Ident),
        Call::Idents { .. } => Some(Method::Idents),
        Call::PunctJoin { .. } => Some(Method::PunctJoin),
        Call::Punct { .. } => Some(Method::Punct),
        Call::Punct2 { .. } => Some(Method::Punct2),
        Call::Puncts { .. } => Some(Method::Puncts),
        Call::Group { .. } => Some(Method::Group),
        Call::ParsedLit { .. } => Some(Method::ParsedLit),
        Call::Tokens { .. } => None,
    }
}

/// The statement that makes one call on `target`.
pub open spec fn render_call(call: Call, target: Name, span: Option<Name>) -> Seq<Tree>
    decreases call, 1nat,
{
    match call_method(call) {
        Some(method) => statement(
            target,
            method_text(method, span is Some),
            location(span) + arguments(call, span),
        ),
        None => statement(target, tokens_method_text(), arguments(call, span)),
    }
}

/// The statements that make the calls on `target`, in order.
pub open spec fn render(calls: Seq<Call>, target: Name, span: Option<Name>) -> Seq<Tree>
    decreases calls, 2nat,
{
    if calls.len() == 0 {
        Seq::empty()
    } else {
        render(calls.drop_last(), target, span) + render_call(calls.last(), target, span)
    }
}

} // verus!
