//! Quasi-quotation for token streams.
//!
//! The [`macros`] module holds the expansion engine. It turns a block of
//! literal syntax, given as tokens, into statements that rebuild that syntax
//! through the builder operations of [`Quote`]. For the body
//!
//! ```text
//! fn #name() { 1 }
//! ```
//!
//! and the target `out` it writes
//!
//! ```text
//! out.add_ident("fn");
//! out.add_tokens(&name);
//! out.add_group('(', |__o| {});
//! out.add_group('{', |__o| { __o.add_parsed_lit("1"); });
//! ```
//!
//! The [`plan`] and [`render`] modules say what the engine emits, [`run`]
//! says what the emitted calls append, and [`laws`] relates the three. The
//! builder itself works on the streams of `proc_macro2`, which [`stream`]
//! describes.
use vstd::prelude::*;
use crate::render::{alone, joint};
use crate::run::{ident_tree, ident_trees, literal_trees};
use crate::stream::{
    fresh, group_of, leaf, literal_ok, place_of, punct_char, push_stream, push_tree,
    stream_places, stream_trees, taken_up, taken_up_at, tree_of, Place,
};
use crate::token::Tree;
use crate::tt::ident_name;
use proc_macro2::{Span, TokenStream, TokenTree};

pub mod laws;
pub mod literal;
pub mod macros;
pub mod plan;
pub mod render;
pub mod run;
pub mod stream;
pub mod token;
pub mod tokens;
pub mod tt;

verus! {

/// The names, as mathematical values.
pub open spec fn names_of<const N: usize>(names: [&str; N]) -> Seq<Seq<char>> {
    Seq::new(N as nat, |k: int| names@[k]@)
}

/// Each of the names is one that [`tt::ident`] takes.
pub open spec fn all_ident_names<const N: usize>(names: [&str; N]) -> bool {
    forall|k: int| 0 <= k < N ==> ident_name(#[trigger] names@[k]@)
}

/// Whether each of the names is one that [`tt::ident`] takes.
pub fn are_ident_names<const N: usize>(names: &[&str; N]) -> (b: bool)
    ensures
        b == all_ident_names(*names),
{
    let mut i: usize = 0;
    while i < N
        invariant
            i <= N,
            forall|k: int| 0 <= k < i ==> ident_name(#[trigger] names@[k]@),
        decreases N - i,
    {
        if !tt::is_ident_name(names[i]) {
            return false;
        }
        i += 1;
    }
    true
}

/// `after` is `before` with the places of `n` tokens behind it.
pub open spec fn grown(after: Seq<Place>, before: Seq<Place>, n: nat) -> bool {
    after.len() == before.len() + n && after.take(before.len() as int) == before
}

/// `after` is `before` with the places of `n` tokens behind it, none of
/// which has anything inside.
pub open spec fn grown_by_leaves(after: Seq<Place>, before: Seq<Place>, n: nat) -> bool {
    &&& grown(after, before, n)
    &&& forall|k: int|
        before.len() <= k < after.len() ==> (#[trigger] after[k]).inside == Seq::<Place>::empty()
}

/// `n` times the place `place`.
pub open spec fn all_at(n: nat, place: Place) -> Seq<Place> {
    Seq::new(n, |k: int| place)
}

/// A stream of tokens that a generated program builds.
///
/// An implementation says what the stream holds and how one token and one
/// stream are appended. Every other operation is made of these. An
/// operation whose name ends in `_span` puts the tokens it appends at the
/// location it is given; the others leave the location to the token
/// library.
pub trait Quote: Sized {
    /// The tokens that the stream holds, in order.
    spec fn trees(&self) -> Seq<Tree>;

    /// The places of the tokens that the stream holds, in the same order.
    spec fn places(&self) -> Seq<Place>;

    /// Appends one token, with what is inside it where it is. A literal
    /// whose text starts with a minus sign is taken up as the sign and the
    /// literal without it.
    fn add_token(&mut self, token: TokenTree)
        ensures
            final(self).trees() == old(self).trees() + taken_up(tree_of(token)),
            final(self).places() == old(self).places() + taken_up_at(
                tree_of(token),
                place_of(token),
            ),
    ;

    /// Appends the tokens of a stream, as they stand and where they are.
    fn add_tokens(&mut self, tokens: TokenStream)
        ensures
            final(self).trees() == old(self).trees() + stream_trees(tokens),
            final(self).places() == old(self).places() + stream_places(tokens),
    ;

    /// Appends the punctuation character `ch`, joined to what follows.
    fn add_punct_join(&mut self, ch: char)
        requires
            punct_char(ch),
        ensures
            final(self).trees() == old(self).trees().push(joint(ch)),
            grown_by_leaves(final(self).places(), old(self).places(), 1),
    {
        self.add_token(tt::punct_join(ch));
        assert(self.trees() =~= old(self).trees().push(joint(ch)));
        assert(self.places().take(old(self).places().len() as int) =~= old(self).places());
    }

    /// Appends the punctuation character `ch`, joined to what follows, at
    /// `span`.
    fn add_punct_join_span(&mut self, span: Span, ch: char)
        requires
            punct_char(ch),
        ensures
            final(self).trees() == old(self).trees().push(joint(ch)),
            final(self).places() == old(self).places().push(leaf(span)),
    {
        self.add_token(tt::punct_join_span(span, ch));
        assert(self.trees() =~= old(self).trees().push(joint(ch)));
        assert(self.places() =~= old(self).places().push(leaf(span)));
    }

    /// Appends the punctuation character `ch`, standing alone.
    fn add_punct(&mut self, ch: char)
        requires
            punct_char(ch),
        ensures
            final(self).trees() == old(self).trees().push(alone(ch)),
            grown_by_leaves(final(self).places(), old(self).places(), 1),
    {
        self.add_token(tt::punct(ch));
        assert(self.trees() =~= old(self).trees().push(alone(ch)));
        assert(self.places().take(old(self).places().len() as int) =~= old(self).places());
    }

    /// Appends the punctuation character `ch`, standing alone, at `span`.
    fn add_punct_span(&mut self, span: Span, ch: char)
        requires
            punct_char(ch),
        ensures
            final(self).trees() == old(self).trees().push(alone(ch)),
            final(self).places() == old(self).places().push(leaf(span)),
    {
        self.add_token(tt::punct_span(span, ch));
        assert(self.trees() =~= old(self).trees().push(alone(ch)));
        assert(self.places() =~= old(self).places().push(leaf(span)));
    }

    /// Appends `ch` twice: joined, then alone. The same as
    /// [`add_punct_join`](Quote::add_punct_join) followed by
    /// [`add_punct`](Quote::add_punct).
    fn add_punct2(&mut self, ch: char)
        requires
            punct_char(ch),
        ensures
            final(self).trees() == old(self).trees().push(joint(ch)).push(alone(ch)),
            grown_by_leaves(final(self).places(), old(self).places(), 2),
    {
        self.add_punct_join(ch);
        let ghost mid = self.places();
        self.add_punct(ch);
        proof {
            lemma_grown_twice(self.places(), mid, old(self).places(), 1, 1);
        }
    }

    /// Appends `ch` twice at `span`: joined, then alone.
    fn add_punct2_span(&mut self, span: Span, ch: char)
        requires
            punct_char(ch),
        ensures
            final(self).trees() == old(self).trees().push(joint(ch)).push(alone(ch)),
            final(self).places() == old(self).places().push(leaf(span)).push(leaf(span)),
    {
        self.add_punct_join_span(span, ch);
        self.add_punct_span(span, ch);
    }

    /// Appends `ch` joined, then `ch2` alone. The same as
    /// [`add_punct_join`](Quote::add_punct_join) with `ch` followed by
    /// [`add_punct`](Quote::add_punct) with `ch2`.
    fn add_puncts(&mut self, ch: char, ch2: char)
        requires
            punct_char(ch),
            punct_char(ch2),
        ensures
            final(self).trees() == old(self).trees().push(joint(ch)).push(alone(ch2)),
            grown_by_leaves(final(self).places(), old(self).places(), 2),
    {
        self.add_punct_join(ch);
        let ghost mid = self.places();
        self.add_punct(ch2);
        proof {
            lemma_grown_twice(self.places(), mid, old(self).places(), 1, 1);
        }
    }

    /// Appends `ch` joined, then `ch2` alone, both at `span`.
    fn add_puncts_span(&mut self, span: Span, ch: char, ch2: char)
        requires
            punct_char(ch),
            punct_char(ch2),
        ensures
            final(self).trees() == old(self).trees().push(joint(ch)).push(alone(ch2)),
            final(self).places() == old(self).places().push(leaf(span)).push(leaf(span)),
    {
        self.add_punct_join_span(span, ch);
        self.add_punct_span(span, ch2);
    }

    /// Appends the identifier that `name` denotes: a raw one, without the
    /// prefix, where `name` starts with `r#`, else a plain one.
    fn add_ident(&mut self, name: &str)
        requires
            ident_name(name@),
        ensures
            final(self).trees() == old(self).trees().push(ident_tree(name@)),
            grown_by_leaves(final(self).places(), old(self).places(), 1),
    {
        self.add_token(tt::ident(name));
        assert(self.trees() =~= old(self).trees().push(ident_tree(name@)));
        assert(self.places().take(old(self).places().len() as int) =~= old(self).places());
    }

    /// Appends the identifier that `name` denotes, at `span`.
    fn add_ident_span(&mut self, span: Span, name: &str)
        requires
            ident_name(name@),
        ensures
            final(self).trees() == old(self).trees().push(ident_tree(name@)),
            final(self).places() == old(self).places().push(leaf(span)),
    {
        self.add_token(tt::ident_span(span, name));
        assert(self.trees() =~= old(self).trees().push(ident_tree(name@)));
        assert(self.places() =~= old(self).places().push(leaf(span)));
    }

    /// Appends the identifier that `name` denotes and says so, where `name`
    /// is a name that [`tt::ident`] takes; else leaves the stream as it is.
    fn try_add_ident(&mut self, name: &str) -> (added: bool)
        ensures
            added == ident_name(name@),
            added ==> final(self).trees() == old(self).trees().push(ident_tree(name@)),
            added ==> grown_by_leaves(final(self).places(), old(self).places(), 1),
            !added ==> final(self).trees() == old(self).trees(),
            !added ==> final(self).places() == old(self).places(),
    {
        if tt::is_ident_name(name) {
            self.add_ident(name);
            true
        } else {
            false
        }
    }

    /// Appends the identifier that `name` denotes, at `span`, and says so,
    /// where `name` is a name that [`tt::ident`] takes; else leaves the
    /// stream as it is.
    fn try_add_ident_span(&mut self, span: Span, name: &str) -> (added: bool)
        ensures
            added == ident_name(name@),
            added ==> final(self).trees() == old(self).trees().push(ident_tree(name@)),
            added ==> final(self).places() == old(self).places().push(leaf(span)),
            !added ==> final(self).trees() == old(self).trees(),
            !added ==> final(self).places() == old(self).places(),
    {
        if tt::is_ident_name(name) {
            self.add_ident_span(span, name);
            true
        } else {
            false
        }
    }

    /// Appends the identifiers that `names` denote, in order. The same as
    /// [`add_ident`](Quote::add_ident) with each name in turn.
    fn add_idents<const N: usize>(&mut self, names: [&str; N])
        requires
            all_ident_names(names),
        ensures
            final(self).trees() == old(self).trees() + ident_trees(names_of(names)),
            grown_by_leaves(final(self).places(), old(self).places(), N as nat),
    {
        let mut i: usize = 0;
        assert(self.trees() =~= old(self).trees() + ident_trees(names_of(names).take(0)));
        assert(self.places().take(old(self).places().len() as int) =~= old(self).places());
        while i < N
            invariant
                i <= N,
                all_ident_names(names),
                self.trees() == old(self).trees() + ident_trees(names_of(names).take(i as int)),
                grown_by_leaves(self.places(), old(self).places(), i as nat),
            decreases N - i,
        {
            let ghost mid = self.places();
            self.add_ident(names[i]);
            assert(self.trees() =~= old(self).trees() + ident_trees(
                names_of(names).take(i + 1),
            ));
            proof {
                lemma_grown_twice(self.places(), mid, old(self).places(), i as nat, 1);
            }
            i += 1;
        }
        assert(names_of(names).take(i as int) =~= names_of(names));
    }

    /// Appends the identifiers that `names` denote, in order, each at
    /// `span`.
    fn add_idents_span<const N: usize>(&mut self, span: Span, names: [&str; N])
        requires
            all_ident_names(names),
        ensures
            final(self).trees() == old(self).trees() + ident_trees(names_of(names)),
            final(self).places() == old(self).places() + all_at(N as nat, leaf(span)),
    {
        let mut i: usize = 0;
        assert(self.trees() =~= old(self).trees() + ident_trees(names_of(names).take(0)));
        assert(self.places() =~= old(self).places() + all_at(0, leaf(span)));
        while i < N
            invariant
                i <= N,
                all_ident_names(names),
                self.trees() == old(self).trees() + ident_trees(names_of(names).take(i as int)),
                self.places() == old(self).places() + all_at(i as nat, leaf(span)),
            decreases N - i,
        {
            self.add_ident_span(span, names[i]);
            assert(self.trees() =~= old(self).trees() + ident_trees(
                names_of(names).take(i + 1),
            ));
            assert(self.places() =~= old(self).places() + all_at((i + 1) as nat, leaf(span)));
            i += 1;
        }
        assert(names_of(names).take(i as int) =~= names_of(names));
    }

    /// Appends the identifiers that `names` denote, in order, and says so,
    /// where each is a name that [`tt::ident`] takes; else leaves the stream
    /// as it is.
    fn try_add_idents<const N: usize>(&mut self, names: [&str; N]) -> (added: bool)
        ensures
            added == all_ident_names(names),
            added ==> final(self).trees() == old(self).trees() + ident_trees(names_of(names)),
            added ==> grown_by_leaves(final(self).places(), old(self).places(), N as nat),
            !added ==> final(self).trees() == old(self).trees(),
            !added ==> final(self).places() == old(self).places(),
    {
        if are_ident_names(&names) {
            self.add_idents(names);
            true
        } else {
            false
        }
    }

    /// Appends the identifiers that `names` denote, in order, each at
    /// `span`, and says so, where each is a name that [`tt::ident`] takes;
    /// else leaves the stream as it is.
    fn try_add_idents_span<const N: usize>(&mut self, span: Span, names: [&str; N]) -> (added:
        bool)
        ensures
            added == all_ident_names(names),
            added ==> final(self).trees() == old(self).trees() + ident_trees(names_of(names)),
            added ==> final(self).places() == old(self).places() + all_at(N as nat, leaf(span)),
            !added ==> final(self).trees() == old(self).trees(),
            !added ==> final(self).places() == old(self).places(),
    {
        if are_ident_names(&names) {
            self.add_idents_span(span, names);
            true
        } else {
            false
        }
    }

    /// Appends one group with the delimiter that `delimiter` stands for. The
    /// group holds what `f`, called once, puts into an empty stream, each
    /// token where `f` put it.
    fn add_group(&mut self, delimiter: char, f: impl FnOnce(&mut TokenStream))
        requires
            forall|inner: &mut TokenStream|
            #![trigger call_requires(f, (inner,))]
            fresh(*inner) ==> call_requires(f, (inner,)),
        ensures
            exists|inner: &mut TokenStream|
                #![trigger call_ensures(f, (inner,), ())]
                {
                    &&& fresh(*inner)
                    &&& call_ensures(f, (inner,), ())
                    &&& final(self).trees() == old(self).trees().push(
                        group_of(delimiter, stream_trees(*final(inner))),
                    )
                    &&& grown(final(self).places(), old(self).places(), 1)
                    &&& final(self).places().last().inside == stream_places(*final(inner))
                },
    {
        let group = tt::group(delimiter, f);
        self.add_token(group);
        assert(self.trees() =~= old(self).trees().push(tree_of(group)));
        assert(self.places() =~= old(self).places().push(place_of(group)));
        assert(self.places().take(old(self).places().len() as int) =~= old(self).places());
    }

    /// Appends one group at `span`, as [`add_group`](Quote::add_group) does.
    fn add_group_span(&mut self, span: Span, delimiter: char, f: impl FnOnce(&mut TokenStream))
        requires
            forall|inner: &mut TokenStream|
            #![trigger call_requires(f, (inner,))]
            fresh(*inner) ==> call_requires(f, (inner,)),
        ensures
            exists|inner: &mut TokenStream|
                #![trigger call_ensures(f, (inner,), ())]
                {
                    &&& fresh(*inner)
                    &&& call_ensures(f, (inner,), ())
                    &&& final(self).trees() == old(self).trees().push(
                        group_of(delimiter, stream_trees(*final(inner))),
                    )
                    &&& final(self).places() == old(self).places().push(
                        Place { span, inside: stream_places(*final(inner)) },
                    )
                },
    {
        let group = tt::group_span(span, delimiter, f);
        self.add_token(group);
        assert(self.trees() =~= old(self).trees().push(tree_of(group)));
        assert(self.places() =~= old(self).places().push(place_of(group)));
        proof {
            let inner = choose|inner: &mut TokenStream|
                #![trigger call_ensures(f, (inner,), ())]
                fresh(*inner) && call_ensures(f, (inner,), ()) && tree_of(group) == group_of(
                    delimiter,
                    stream_trees(*final(inner)),
                ) && place_of(group) == (Place { span, inside: stream_places(*final(inner)) });
            assert(self.places() == old(self).places().push(
                Place { span, inside: stream_places(*final(inner)) },
            ));
        }
    }

    /// Appends the literal whose text is `s`.
    fn add_parsed_lit(&mut self, s: &str)
        requires
            literal_ok(s@),
        ensures
            final(self).trees() == old(self).trees() + literal_trees(s@),
            grown_by_leaves(final(self).places(), old(self).places(), literal_trees(s@).len()),
    {
        self.add_token(tt::parsed_lit(s));
        assert(self.places().take(old(self).places().len() as int) =~= old(self).places());
    }

    /// Appends the literal whose text is `s`, at `span`.
    fn add_parsed_lit_span(&mut self, span: Span, s: &str)
        requires
            literal_ok(s@),
        ensures
            final(self).trees() == old(self).trees() + literal_trees(s@),
            final(self).places() == old(self).places() + all_at(
                literal_trees(s@).len(),
                leaf(span),
            ),
    {
        self.add_token(tt::parsed_lit_span(span, s));
        assert(self.places() =~= old(self).places() + all_at(
            literal_trees(s@).len(),
            leaf(span),
        ));
    }

    /// Appends the literal whose text is `s` and says so, where `s` is the
    /// text of one literal; else leaves the stream as it is.
    fn try_add_parsed_lit(&mut self, s: &str) -> (added: bool)
        ensures
            added == literal_ok(s@),
            added ==> final(self).trees() == old(self).trees() + literal_trees(s@),
            added ==> grown_by_leaves(
                final(self).places(),
                old(self).places(),
                literal_trees(s@).len(),
            ),
            !added ==> final(self).trees() == old(self).trees(),
            !added ==> final(self).places() == old(self).places(),
    {
        if tt::is_literal(s) {
            self.add_parsed_lit(s);
            true
        } else {
            false
        }
    }

    /// Appends the literal whose text is `s`, at `span`, and says so, where
    /// `s` is the text of one literal; else leaves the stream as it is.
    fn try_add_parsed_lit_span(&mut self, span: Span, s: &str) -> (added: bool)
        ensures
            added == literal_ok(s@),
            added ==> final(self).trees() == old(self).trees() + literal_trees(s@),
            added ==> final(self).places() == old(self).places() + all_at(
                literal_trees(s@).len(),
                leaf(span),
            ),
            !added ==> final(self).trees() == old(self).trees(),
            !added ==> final(self).places() == old(self).places(),
    {
        if tt::is_literal(s) {
            self.add_parsed_lit_span(span, s);
            true
        } else {
            false
        }
    }
}

/// Growing by leaves twice is growing by leaves once.
pub proof fn lemma_grown_twice(
    after: Seq<Place>,
    mid: Seq<Place>,
    before: Seq<Place>,
    m: nat,
    n: nat,
)
    requires
        grown_by_leaves(mid, before, m),
        grown_by_leaves(after, mid, n),
    ensures
        grown_by_leaves(after, before, m + n),
{
    assert(after.take(before.len() as int) =~= mid.take(before.len() as int));
    assert forall|k: int| before.len() <= k < after.len() implies (#[trigger] after[k]).inside
        == Seq::<Place>::empty() by {
        if k < mid.len() {
            assert(after[k] == after.take(mid.len() as int)[k]);
        }
    }
}

impl Quote for TokenStream {
    open spec fn trees(&self) -> Seq<Tree> {
        stream_trees(*self)
    }

    open spec fn places(&self) -> Seq<Place> {
        stream_places(*self)
    }

    fn add_token(&mut self, token: TokenTree) {
        push_tree(self, token);
    }

    fn add_tokens(&mut self, tokens: TokenStream) {
        push_stream(self, tokens);
    }
}

/// A builder: a function that appends tokens to the stream it is given.
#[derive(Clone, Copy)]
pub struct QuoteFn<T>(pub T);

impl<T> From<T> for QuoteFn<T> {
    fn from(value: T) -> (q: Self) {
        QuoteFn(value)
    }
}

impl<T> vstd::std_specs::convert::FromSpecImpl<T> for QuoteFn<T> {
    open spec fn obeys_from_spec() -> bool {
        true
    }

    open spec fn from_spec(value: T) -> Self {
        QuoteFn(value)
    }
}

impl<T> core::ops::Deref for QuoteFn<T> {
    type Target = T;

    fn deref(&self) -> (inner: &T)
        ensures
            *inner == self.0,
    {
        &self.0
    }
}

impl<T> core::ops::DerefMut for QuoteFn<T> {
    fn deref_mut(&mut self) -> (inner: &mut T)
        ensures
            *inner == old(self).0,
            final(self).0 == *final(inner),
    {
        &mut self.0
    }
}

impl<F: Fn(&mut TokenStream)> QuoteFn<F> {
    /// Calls the builder on `tokens`.
    pub fn to_tokens(&self, tokens: &mut TokenStream)
        requires
            forall|t: &mut TokenStream| *t == *old(tokens) ==> call_requires(self.0, (t,)),
        ensures
            exists|t: &mut TokenStream|
                *t == *old(tokens) && *final(t) == *final(tokens) && call_ensures(
                    self.0,
                    (t,),
                    (),
                ),
    {
        (self.0)(tokens)
    }
}

/// Makes a builder of a function that appends tokens to a stream.
pub fn quote<F>(f: F) -> (q: QuoteFn<F>) where F: Fn(&mut TokenStream)
    ensures
        q.0 == f,
{
    QuoteFn(f)
}

} // verus!
