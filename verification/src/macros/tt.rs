//! Constructors for the tokens of a generated program.
use vstd::prelude::*;
use crate::literal::char_literal;
use crate::render::{alone, char_delimiter, char_token, joint, word};
use crate::token::{trees, Delimiter, Ident, Spacing, Token, Tree};

verus! {

/// The punctuation character `ch`, joined to what follows.
pub fn punct_joined(ch: char) -> (token: Token)
    ensures
        token@ == joint(ch),
{
    Token::Punct { ch, spacing: Spacing::Joint }
}

/// The punctuation character `ch`, standing alone.
pub fn punct(ch: char) -> (token: Token)
    ensures
        token@ == alone(ch),
{
    Token::Punct { ch, spacing: Spacing::Alone }
}

/// The plain identifier `string`, made here.
pub fn ident(string: &str) -> (token: Token)
    ensures
        token@ == word(string@),
{
    Token::Ident(Ident { name: string.to_owned(), raw: false, span: None })
}

/// The character literal that denotes `ch`.
pub fn char(ch: char) -> (token: Token)
    ensures
        token@ == char_token(ch),
{
    char_literal(ch)
}

/// The delimiter that `delimiter` stands for.
pub fn delimiter_of(delimiter: char) -> (kind: Delimiter)
    ensures
        kind == char_delimiter(delimiter),
{
    if delimiter == '{' {
        Delimiter::Brace
    } else if delimiter == '[' {
        Delimiter::Bracket
    } else if delimiter == '(' {
        Delimiter::Parenthesis
    } else {
        Delimiter::Invisible
    }
}

/// A group with the delimiter that `delimiter` stands for, holding what `f`
/// puts into an empty stream.
pub fn group(delimiter: char, f: impl FnOnce(&mut Vec<Token>)) -> (token: Token)
    requires
        forall|stream: &mut Vec<Token>| stream@.len() == 0 ==> call_requires(f, (stream,)),
    ensures
        exists|stream: &mut Vec<Token>|
            stream@.len() == 0 && call_ensures(f, (stream,), ()) && token@ == (Tree::Group {
                delimiter: char_delimiter(delimiter),
                stream: trees(final(stream)@),
            }),
{
    let mut stream: Vec<Token> = Vec::new();
    f(&mut stream);
    Token::Group { delimiter: delimiter_of(delimiter), stream }
}

} // verus!
