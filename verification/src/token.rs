//! The token model: identifiers, punctuation, literals and delimited groups.
use vstd::prelude::*;
use proc_macro2::Span;

verus! {

/// Whether a punctuation character is immediately followed by another one.
#[derive(Clone, Copy, Debug, PartialEq, Eq, Structural)]
pub enum Spacing {
    /// The operator certainly ends with this character.
    Alone,
    /// Another punctuation character follows with nothing in between.
    Joint,
}

/// The bracket kind of a group.
#[derive(Clone, Copy, Debug, PartialEq, Eq, Structural)]
pub enum Delimiter {
    /// `( ... )`
    Parenthesis,
    /// `{ ... }`
    Brace,
    /// `[ ... ]`
    Bracket,
    /// No visible bracket.
    Invisible,
}

/// An identifier as a mathematical value: its text without any raw prefix,
/// whether it is a raw identifier, and the location that it was taken
/// from, where it was taken from a stream.
pub ghost struct Name {
    pub text: Seq<char>,
    pub raw: bool,
    pub span: Option<Span>,
}

/// A token as a mathematical value.
pub ghost enum Tree {
    Ident(Name),
    Punct { ch: char, spacing: Spacing },
    Literal { text: Seq<char> },
    Group { delimiter: Delimiter, stream: Seq<Tree> },
}

/// An identifier.
///
/// An identifier that was taken from a stream carries the location that it
/// had there; one that is made here carries none, and is placed where it is
/// written out. Two identifiers are equal where their names are and both or
/// neither is raw: the location does not count.
#[derive(Debug)]
pub struct Ident {
    pub name: String,
    pub raw: bool,
    pub span: Option<Span>,
}

impl PartialEq for Ident {
    fn eq(&self, other: &Self) -> (same: bool) {
        self.name == other.name && self.raw == other.raw
    }
}

impl vstd::std_specs::cmp::PartialEqSpecImpl for Ident {
    open spec fn obeys_eq_spec() -> bool {
        true
    }

    open spec fn eq_spec(&self, other: &Self) -> bool {
        self.name@ == other.name@ && self.raw == other.raw
    }
}

impl Eq for Ident {}

/// A token.
#[derive(Debug, PartialEq, Eq)]
pub enum Token {
    Ident(Ident),
    Punct { ch: char, spacing: Spacing },
    Literal { text: String },
    Group { delimiter: Delimiter, stream: Vec<Token> },
}

impl View for Ident {
    type V = Name;

    open spec fn view(&self) -> Name {
        Name { text: self.name@, raw: self.raw, span: self.span }
    }
}

impl View for Token {
    type V = Tree;

    open spec fn view(&self) -> Tree
        decreases self,
    {
        match self {
            Token::Ident(ident) => Tree::Ident(ident@),
            Token::Punct { ch, spacing } => Tree::Punct { ch: *ch, spacing: *spacing },
            Token::Literal { text } => Tree::Literal { text: text@ },
            Token::Group { delimiter, stream } => Tree::Group {
                delimiter: *delimiter,
                stream: trees(stream@),
            },
        }
    }
}

/// The mathematical value of a sequence of tokens.
pub open spec fn trees(tokens: Seq<Token>) -> Seq<Tree>
    decreases tokens,
{
    Seq::new(
        tokens.len(),
        |i: int|
            if 0 <= i < tokens.len() {
                tokens[i]@
            } else {
                arbitrary()
            },
    )
}

/// The name of the location, where there is one.
pub open spec fn span_name(span: Option<&Ident>) -> Option<Name> {
    match span {
        Some(ident) => Some(ident@),
        None => None,
    }
}

impl Ident {
    /// A copy of this identifier, with its location.
    pub fn duplicate(&self) -> (copy: Ident)
        ensures
            copy@ == self@,
    {
        Ident { name: self.name.clone(), raw: self.raw, span: self.span }
    }
}

} // verus!
