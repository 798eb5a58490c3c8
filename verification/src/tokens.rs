//! The builder that the engine's own output is made with.
use vstd::prelude::*;
use crate::macros::tt;
use crate::render::{alone, char_token, joint, word};
use crate::token::{trees, Delimiter, Token, Tree};

verus! {

/// A stream of tokens to which tokens are appended one at a time.
pub trait Tokens {
    /// The tokens that the stream holds, in order.
    spec fn tokens(&self) -> Seq<Tree>;

    /// Appends one token.
    fn add(&mut self, token: Token)
        ensures
            final(self).tokens() == old(self).tokens().push(token@),
    ;

    /// Appends the punctuation character `ch`, joined to what follows.
    fn punct_join(&mut self, ch: char)
        ensures
            final(self).tokens() == old(self).tokens().push(joint(ch)),
    {
        self.add(tt::punct_joined(ch));
    }

    /// Appends the punctuation character `ch`, standing alone.
    fn punct(&mut self, ch: char)
        ensures
            final(self).tokens() == old(self).tokens().push(alone(ch)),
    {
        self.add(tt::punct(ch));
    }

    /// Appends the plain identifier `name`.
    fn ident(&mut self, name: &str)
        ensures
            final(self).tokens() == old(self).tokens().push(word(name@)),
    {
        self.add(tt::ident(name));
    }

    /// Appends a group with this delimiter, holding what `f` puts into an
    /// empty stream.
    fn group(&mut self, delimiter: Delimiter, f: impl FnOnce(&mut Vec<Token>))
        requires
            forall|stream: &mut Vec<Token>| stream@.len() == 0 ==> call_requires(f, (stream,)),
        ensures
            exists|stream: &mut Vec<Token>|
                stream@.len() == 0 && call_ensures(f, (stream,), ()) && final(self).tokens()
                    == old(self).tokens().push(
                    Tree::Group { delimiter, stream: trees(final(stream)@) },
                ),
    {
        let mut stream: Vec<Token> = Vec::new();
        f(&mut stream);
        self.add(Token::Group { delimiter, stream });
    }

    /// Appends the character literal that denotes `ch`.
    fn char(&mut self, ch: char)
        ensures
            final(self).tokens() == old(self).tokens().push(char_token(ch)),
    {
        self.add(tt::char(ch));
    }
}

impl Tokens for Vec<Token> {
    open spec fn tokens(&self) -> Seq<Tree> {
        trees(self@)
    }

    fn add(&mut self, token: Token) {
        self.push(token);
        assert(trees(self@) =~= trees(old(self)@).push(token@));
    }
}

} // verus!
