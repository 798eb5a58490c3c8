//! Literal tokens: how text and characters are written as literals.
//!
//! The rules of escaping belong to `proc_macro2`. This module gives their
//! results a name and calls them; nothing here is proved about them. The
//! crate builds `proc_macro2` without its bridge to the compiler, so it is
//! `proc_macro2`'s own code that prints, in every process.
use vstd::prelude::*;
use crate::token::{Token, Tree};

verus! {

/// The source text of the string literal that denotes `s`: `s` between
/// double quotes, with the characters that cannot stand there escaped.
pub uninterp spec fn string_literal_text(s: Seq<char>) -> Seq<char>;

/// The source text of the character literal that denotes `ch`: `ch` between
/// single quotes, escaped where it cannot stand there.
pub uninterp spec fn char_literal_text(ch: char) -> Seq<char>;

/// Calls `proc_macro2::Literal::string` and prints the literal. Believed, not
/// proved: the printed text is a function of `s` alone, named
/// [`string_literal_text`].
#[verifier::external_body]
pub(crate) fn string_literal(s: &str) -> (token: Token)
    ensures
        token@ == (Tree::Literal { text: string_literal_text(s@) }),
{
    Token::Literal { text: proc_macro2::Literal::string(s).to_string() }
}

/// Calls `proc_macro2::Literal::character` and prints the literal. Believed,
/// not proved: the printed text is a function of `ch` alone, named
/// [`char_literal_text`].
#[verifier::external_body]
pub(crate) fn char_literal(ch: char) -> (token: Token)
    ensures
        token@ == (Tree::Literal { text: char_literal_text(ch) }),
{
    Token::Literal { text: proc_macro2::Literal::character(ch).to_string() }
}

} // verus!
