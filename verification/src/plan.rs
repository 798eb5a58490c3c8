//! What the expansion engine emits, as mathematics.
//!
//! [`plan`] says which builder calls stand for a sequence of tokens, and
//! [`render`] says how those calls are written down as tokens again.
use vstd::prelude::*;
use crate::token::{Delimiter, Name, Spacing, Tree};

verus! {

/// The character that marks an interpolation.
pub const MARKER: char = '#';

/// One builder call of a generated program.
pub ghost enum Call {
    /// `add_ident(name)`
    Ident { name: Seq<char> },
    /// `add_idents([names])`
    Idents { names: Seq<Seq<char>> },
    /// `add_punct_join(ch)`
    PunctJoin { ch: char },
    /// `add_punct(ch)`
    Punct { ch: char },
    /// `add_punct2(ch)`
    Punct2 { ch: char },
    /// `add_puncts(first, second)`
    Puncts { first: char, second: char },
    /// `add_group(delimiter, |inner| { body })`
    Group { delimiter: Delimiter, body: Seq<Call> },
    /// `add_parsed_lit(text)`
    ParsedLit { text: Seq<char> },
    /// `add_tokens(&token)`
    Tokens { token: Tree },
}

/// An identifier as it is written: a raw one carries the prefix `r#`.
pub open spec fn ident_text(name: Name) -> Seq<char> {
    if name.raw {
        "r#"@ + name.text
    } else {
        name.text
    }
}

/// The number of identifiers that `input` starts with.
pub open spec fn ident_run(input: Seq<Tree>) -> nat
    decreases input.len(),
{
    if input.len() > 0 && input[0] is Ident {
        1 + ident_run(input.skip(1))
    } else {
        0
    }
}

/// The written forms of the first `n` tokens of `input`, all identifiers.
pub open spec fn run_names(input: Seq<Tree>, n: nat) -> Seq<Seq<char>> {
    Seq::new(n, |k: int| ident_text(input[k]->Ident_0))
}

/// The one call that emits a batch of identifiers: singular for one name,
/// plural with the names in order for more.
pub open spec fn batch(names: Seq<Seq<char>>) -> Call {
    if names.len() == 1 {
        Call::Ident { name: names[0] }
    } else {
        Call::Idents { names }
    }
}

/// `input` starts with the marker followed by an identifier.
pub open spec fn escapes(input: Seq<Tree>) -> bool {
    &&& input.len() >= 2
    &&& input[0] is Punct
    &&& input[0]->ch == MARKER
    &&& input[1] is Ident
}

/// `input` starts with a joint punctuation character followed by one that
/// stands alone and is not the marker.
pub open spec fn fuses(input: Seq<Tree>) -> bool {
    &&& input.len() >= 2
    &&& input[0] is Punct
    &&& input[0]->spacing == Spacing::Joint
    &&& input[1] is Punct
    &&& input[1]->spacing == Spacing::Alone
    &&& input[1]->ch != MARKER
}

/// The call for a fused pair of punctuation characters.
pub open spec fn fused(first: char, second: char) -> Call {
    if first == second {
        Call::Punct2 { ch: first }
    } else {
        Call::Puncts { first, second }
    }
}

/// The call for a single punctuation character.
pub open spec fn single(ch: char, spacing: Spacing) -> Call {
    match spacing {
        Spacing::Joint => Call::PunctJoin { ch },
        Spacing::Alone => Call::Punct { ch },
    }
}

/// A literal's text starts with a decimal digit.
pub open spec fn numeric(text: Seq<char>) -> bool {
    text.len() > 0 && '0' <= text[0] <= '9'
}

/// The call for a literal: a numeric one is parsed again from its text when
/// the program runs, any other is passed on as it stands.
pub open spec fn literal_call(text: Seq<char>) -> Call {
    if numeric(text) {
        Call::ParsedLit { text }
    } else {
        Call::Tokens { token: Tree::Literal { text } }
    }
}

/// The run of identifiers at the start of `input` has length `n` where the
/// first `n` tokens are identifiers and the next is none.
pub proof fn lemma_ident_run_exact(input: Seq<Tree>, n: nat)
    requires
        n <= input.len(),
        forall|k: int| 0 <= k < n ==> input[k] is Ident,
        n == input.len() || !(input[n as int] is Ident),
    ensures
        ident_run(input) == n,
    decreases n,
{
    if n > 0 {
        lemma_ident_run_exact(input.skip(1), (n - 1) as nat);
    }
}

/// The run of identifiers at the start of `input` lies within `input`,
/// holds identifiers only, ends at the first token that is none, and is
/// not empty where `input` starts with an identifier.
pub proof fn lemma_ident_run_bound(input: Seq<Tree>)
    ensures
        ident_run(input) <= input.len(),
        input.len() > 0 && input[0] is Ident ==> ident_run(input) >= 1,
        forall|k: int| 0 <= k < ident_run(input) ==> input[k] is Ident,
        ident_run(input) == input.len() || !(input[ident_run(input) as int] is Ident),
    decreases input.len(),
{
    if input.len() > 0 && input[0] is Ident {
        let rest = input.skip(1);
        lemma_ident_run_bound(rest);
        assert forall|k: int| 0 <= k < ident_run(input) implies input[k] is Ident by {
            if k > 0 {
                assert(input[k] == rest[k - 1]);
            }
        }
        if ident_run(input) != input.len() {
            assert(input[ident_run(input) as int] == rest[ident_run(rest) as int]);
        }
    }
}

/// The builder calls that stand for `input`.
///
/// Identifiers that follow one another become one call. The marker followed
/// by an identifier passes that identifier on as it stands. A joint
/// punctuation character and the lone one after it become one call, unless
/// the second is the marker. A group becomes one call that holds the calls
/// for what is inside it.
pub open spec fn plan(input: Seq<Tree>) -> Seq<Call>
    decreases input,
{
    if input.len() == 0 {
        Seq::empty()
    } else {
        match input[0] {
            Tree::Ident(_) => {
                let n = ident_run(input);
                proof {
                    lemma_ident_run_bound(input);
                }
                seq![batch(run_names(input, n))] + plan(input.skip(n as int))
            },
            Tree::Punct { ch, spacing } => {
                if escapes(input) {
                    seq![Call::Tokens { token: input[1] }] + plan(input.skip(2))
                } else if fuses(input) {
                    seq![fused(ch, input[1]->ch)] + plan(input.skip(2))
                } else {
                    seq![single(ch, spacing)] + plan(input.skip(1))
                }
            },
            Tree::Group { delimiter, stream } => {
                seq![Call::Group { delimiter, body: plan(stream) }] + plan(input.skip(1))
            },
            Tree::Literal { text } => seq![literal_call(text)] + plan(input.skip(1)),
        }
    }
}

} // verus!
