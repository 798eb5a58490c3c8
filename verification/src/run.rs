//! What a generated program appends when it runs.
//!
//! Each builder call appends tokens to a stream: which ones, the contracts
//! of [`Quote`](crate::Quote) say. [`run`] puts them together: it gives the
//! tokens that a sequence of calls appends, given what each interpolated
//! variable holds.
use vstd::prelude::*;
use crate::plan::Call;
use crate::render::{alone, joint};
use crate::token::{Name, Tree};

verus! {

/// The tokens that each interpolated variable holds, by the variable's name
/// as it is written.
pub type Bindings = Map<Seq<char>, Seq<Tree>>;

/// `name` starts with the raw prefix `r#`.
pub open spec fn has_raw_prefix(name: Seq<char>) -> bool {
    name.len() >= 2 && name[0] == 'r' && name[1] == '#'
}

/// The identifier that a written name denotes: a raw one, without the
/// prefix, where the name starts with `r#`, else a plain one.
pub open spec fn ident_tree(name: Seq<char>) -> Tree {
    if has_raw_prefix(name) {
        Tree::Ident(Name { text: name.skip(2), raw: true, span: None })
    } else {
        Tree::Ident(Name { text: name, raw: false, span: None })
    }
}

/// The identifiers that written names denote, in order.
pub open spec fn ident_trees(names: Seq<Seq<char>>) -> Seq<Tree> {
    Seq::new(names.len(), |k: int| ident_tree(names[k]))
}

/// The tokens that a stream takes up for a literal with this text: the
/// literal itself, or, where the text starts with a minus sign, that sign
/// standing alone and the literal without it.
pub open spec fn literal_trees(text: Seq<char>) -> Seq<Tree> {
    if text.len() > 0 && text[0] == '-' {
        seq![alone('-'), Tree::Literal { text: text.skip(1) }]
    } else {
        seq![Tree::Literal { text }]
    }
}

/// The tokens that `add_tokens(&token)` appends: for an identifier, what the
/// variable of that name holds; for any other token, the token itself.
///
/// A literal that is passed on is a value in the written program, and what
/// is appended is that value as the token library prints it. That is the
/// literal itself where it is written in printed form; of a literal in
/// another form this function says more than the program does.
pub open spec fn passed_on(token: Tree, bindings: Bindings) -> Seq<Tree> {
    match token {
        Tree::Ident(name) => bindings[crate::plan::ident_text(name)],
        _ => seq![token],
    }
}

/// The tokens that one call appends.
pub open spec fn run_call(call: Call, bindings: Bindings) -> Seq<Tree>
    decreases call, 0nat,
{
    match call {
        Call::Ident { name } => seq![ident_tree(name)],
        Call::Idents { names } => ident_trees(names),
        Call::PunctJoin { ch } => seq![joint(ch)],
        Call::Punct { ch } => seq![alone(ch)],
        Call::Punct2 { ch } => seq![joint(ch), alone(ch)],
        Call::Puncts { first, second } => seq![joint(first), alone(second)],
        Call::Group { delimiter, body } => seq![
            Tree::Group { delimiter, stream: run(body, bindings) },
        ],
        Call::ParsedLit { text } => literal_trees(text),
        Call::Tokens { token } => passed_on(token, bindings),
    }
}

/// The tokens that the calls append, in order.
pub open spec fn run(calls: Seq<Call>, bindings: Bindings) -> Seq<Tree>
    decreases calls, 1nat,
{
    if calls.len() == 0 {
        Seq::empty()
    } else {
        run_call(calls[0], bindings) + run(calls.skip(1), bindings)
    }
}

} // verus!
