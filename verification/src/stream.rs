//! The token streams of `proc_macro2`, as this crate sees them.
//!
//! A stream is known here by the tokens it holds, [`stream_trees`], and
//! where they are, [`stream_places`]; a token by its value, [`tree_of`], and
//! where it is, [`place_of`].
//!
//! The functions of this module that carry a contract without a proof call
//! `proc_macro2`, and `unicode_ident` for the characters of an identifier.
//! The crate builds `proc_macro2` without its bridge to the compiler, so
//! the streams are `proc_macro2`'s own in every process, and the contracts
//! say what its source shows of them.
use vstd::prelude::*;
use crate::render::char_delimiter;
use crate::run::literal_trees;
use crate::token::{Delimiter, Name, Spacing, Tree};

verus! {

#[verifier::external_type_specification]
#[verifier::external_body]
pub struct ExTokenStream(proc_macro2::TokenStream);

#[verifier::external_type_specification]
#[verifier::external_body]
pub struct ExTokenTree(proc_macro2::TokenTree);

#[verifier::external_type_specification]
#[verifier::external_body]
pub struct ExGroup(proc_macro2::Group);

#[verifier::external_type_specification]
#[verifier::external_body]
pub struct ExSpan(proc_macro2::Span);

/// Where a token is: its location and, where it is a group, the places of
/// the tokens inside it, in order. A token that is no group has nothing
/// inside.
pub ghost struct Place {
    pub span: proc_macro2::Span,
    pub inside: Seq<Place>,
}

/// The place of a token at `span` that has nothing inside.
pub open spec fn leaf(span: proc_macro2::Span) -> Place {
    Place { span, inside: Seq::empty() }
}

/// The tokens that a stream holds, in order.
pub uninterp spec fn stream_trees(stream: proc_macro2::TokenStream) -> Seq<Tree>;

/// The places of the tokens that a stream holds, in the same order.
pub uninterp spec fn stream_places(stream: proc_macro2::TokenStream) -> Seq<Place>;

/// The value of a token: its kind, its text, and for a group its delimiter
/// and the tokens inside. The value of a stream's identifier carries no
/// location: where a token of a stream is, its place says.
pub uninterp spec fn tree_of(token: proc_macro2::TokenTree) -> Tree;

/// The place of a token.
pub uninterp spec fn place_of(token: proc_macro2::TokenTree) -> Place;

/// The value of a group: its delimiter and the tokens inside.
pub uninterp spec fn group_tree(group: proc_macro2::Group) -> Tree;

/// The places of the tokens inside a group, in order.
pub uninterp spec fn group_places(group: proc_macro2::Group) -> Seq<Place>;

/// The text is one literal, as `proc_macro2` reads it.
pub uninterp spec fn literal_ok(text: Seq<char>) -> bool;

/// The characters that can be punctuation.
pub open spec fn punct_char(ch: char) -> bool {
    ||| ch == '!'
    ||| ch == '#'
    ||| ch == '$'
    ||| ch == '%'
    ||| ch == '&'
    ||| ch == '\''
    ||| ch == '*'
    ||| ch == '+'
    ||| ch == ','
    ||| ch == '-'
    ||| ch == '.'
    ||| ch == '/'
    ||| ch == ':'
    ||| ch == ';'
    ||| ch == '<'
    ||| ch == '='
    ||| ch == '>'
    ||| ch == '?'
    ||| ch == '@'
    ||| ch == '^'
    ||| ch == '|'
    ||| ch == '~'
}

/// Whether the character can be punctuation.
pub fn is_punct_char(ch: char) -> (b: bool)
    ensures
        b == punct_char(ch),
{
    match ch {
        '!' | '#' | '$' | '%' | '&' | '\'' | '*' | '+' | ',' | '-' | '.' | '/' | ':' | ';' | '<'
        | '=' | '>' | '?' | '@' | '^' | '|' | '~' => true,
        _ => false,
    }
}

/// The character has the Unicode property XID_Start.
pub uninterp spec fn xid_start(ch: char) -> bool;

/// The character has the Unicode property XID_Continue.
pub uninterp spec fn xid_continue(ch: char) -> bool;

/// An identifier: an underscore or a character that can start an
/// identifier, followed by characters that can continue one.
pub open spec fn plain_name(name: Seq<char>) -> bool {
    &&& name.len() > 0
    &&& (name[0] == '_' || xid_start(name[0]))
    &&& forall|k: int| 1 <= k < name.len() ==> xid_continue(#[trigger] name[k])
}

/// The names that cannot be raw identifiers.
pub open spec fn path_keyword(name: Seq<char>) -> bool {
    ||| name == "_"@
    ||| name == "super"@
    ||| name == "self"@
    ||| name == "Self"@
    ||| name == "crate"@
}

/// The stream holds nothing.
pub open spec fn fresh(stream: proc_macro2::TokenStream) -> bool {
    stream_trees(stream) == Seq::<Tree>::empty() && stream_places(stream) == Seq::<Place>::empty()
}

/// The group with the delimiter that `delimiter` stands for, holding
/// `stream`.
pub open spec fn group_of(delimiter: char, stream: Seq<Tree>) -> Tree {
    Tree::Group { delimiter: char_delimiter(delimiter), stream }
}

/// What a stream takes up for a token: the token, or for a literal with a
/// minus sign the sign and the literal without it.
pub open spec fn taken_up(token: Tree) -> Seq<Tree> {
    match token {
        Tree::Literal { text } => literal_trees(text),
        _ => seq![token],
    }
}

/// The places of what a stream takes up for a token: the token's, once for
/// each token taken up.
pub open spec fn taken_up_at(token: Tree, place: Place) -> Seq<Place> {
    Seq::new(taken_up(token).len(), |k: int| place)
}

/// `unicode_ident::is_xid_start`, by which `proc_macro2` decides whether a
/// character can start an identifier.
#[verifier::external_body]
pub(crate) fn is_xid_start(ch: char) -> (b: bool)
    ensures
        b == xid_start(ch),
{
    unicode_ident::is_xid_start(ch)
}

/// `unicode_ident::is_xid_continue`, by which `proc_macro2` decides whether
/// a character can continue an identifier.
#[verifier::external_body]
pub(crate) fn is_xid_continue(ch: char) -> (b: bool)
    ensures
        b == xid_continue(ch),
{
    unicode_ident::is_xid_continue(ch)
}

/// `TokenStream::new`: a stream that holds nothing.
#[verifier::external_body]
pub(crate) fn new_stream() -> (stream: proc_macro2::TokenStream)
    ensures
        stream_trees(stream) == Seq::<Tree>::empty(),
        stream_places(stream) == Seq::<Place>::empty(),
{
    proc_macro2::TokenStream::new()
}

/// `Extend<TokenTree>` of `TokenStream`, with one token: the stream holds
/// what it held, then the token. A literal whose text starts with a minus
/// sign is taken up as two tokens, the sign standing alone and the rest,
/// both at the literal's location. A group keeps what is inside it where
/// it is.
#[verifier::external_body]
pub(crate) fn push_tree(stream: &mut proc_macro2::TokenStream, token: proc_macro2::TokenTree)
    ensures
        stream_trees(*final(stream)) == stream_trees(*old(stream)) + taken_up(tree_of(token)),
        stream_places(*final(stream)) == stream_places(*old(stream)) + taken_up_at(
            tree_of(token),
            place_of(token),
        ),
{
    stream.extend(Some(token));
}

/// `Extend<TokenStream>` of `TokenStream`, with one stream: the stream holds
/// what it held, then what the other holds, each token where it was.
#[verifier::external_body]
pub(crate) fn push_stream(stream: &mut proc_macro2::TokenStream, other: proc_macro2::TokenStream)
    ensures
        stream_trees(*final(stream)) == stream_trees(*old(stream)) + stream_trees(other),
        stream_places(*final(stream)) == stream_places(*old(stream)) + stream_places(other),
{
    stream.extend(Some(other));
}

/// `Span::call_site`. Nothing is claimed of the location.
#[verifier::external_body]
pub(crate) fn call_site() -> (span: proc_macro2::Span) {
    proc_macro2::Span::call_site()
}

/// `Punct::new`: the punctuation token with this character and spacing.
/// `Punct::new` panics on a character that is no punctuation. Nothing is
/// claimed of the token's own location.
#[verifier::external_body]
pub(crate) fn new_punct(ch: char, spacing: Spacing) -> (token: proc_macro2::TokenTree)
    requires
        punct_char(ch),
    ensures
        tree_of(token) == (Tree::Punct { ch, spacing }),
        place_of(token).inside == Seq::<Place>::empty(),
{
    proc_macro2::TokenTree::Punct(
        proc_macro2::Punct::new(
            ch,
            match spacing {
                Spacing::Alone => proc_macro2::Spacing::Alone,
                Spacing::Joint => proc_macro2::Spacing::Joint,
            },
        ),
    )
}

/// `Ident::new`: the plain identifier with this name and location.
/// `Ident::new` panics on the empty name, on a name of digits only, and on
/// a name that does not start with an underscore or an XID_Start character
/// or does not go on with XID_Continue characters: on the names that
/// [`plain_name`] leaves out.
#[verifier::external_body]
pub(crate) fn new_ident(name: &str, span: proc_macro2::Span) -> (token: proc_macro2::TokenTree)
    requires
        plain_name(name@),
    ensures
        tree_of(token) == Tree::Ident(Name { text: name@, raw: false, span: None }),
        place_of(token) == leaf(span),
{
    proc_macro2::TokenTree::Ident(proc_macro2::Ident::new(name, span))
}

/// `Ident::new_raw`: the raw identifier with this name and location.
/// `Ident::new_raw` panics where `Ident::new` does, and on `_`, `super`,
/// `self`, `Self` and `crate`.
#[verifier::external_body]
pub(crate) fn new_raw_ident(name: &str, span: proc_macro2::Span) -> (token: proc_macro2::TokenTree)
    requires
        plain_name(name@),
        !path_keyword(name@),
    ensures
        tree_of(token) == Tree::Ident(Name { text: name@, raw: true, span: None }),
        place_of(token) == leaf(span),
{
    proc_macro2::TokenTree::Ident(proc_macro2::Ident::new_raw(name, span))
}

/// `Literal::from_str`: the literal whose text is `text`, where that text is
/// one literal, and nothing where it is not.
#[verifier::external_body]
pub(crate) fn lex_literal(text: &str) -> (token: Option<proc_macro2::TokenTree>)
    ensures
        token is Some <==> literal_ok(text@),
        token is Some ==> tree_of(token->Some_0) == (Tree::Literal { text: text@ }),
        token is Some ==> place_of(token->Some_0).inside == Seq::<Place>::empty(),
{
    match text.parse::<proc_macro2::Literal>() {
        Ok(literal) => Some(proc_macro2::TokenTree::Literal(literal)),
        Err(_) => None,
    }
}

/// `Group::new`: the group with this delimiter that holds what the stream
/// holds, each token where it was.
#[verifier::external_body]
pub(crate) fn new_group(delimiter: Delimiter, stream: proc_macro2::TokenStream) -> (group:
    proc_macro2::Group)
    ensures
        group_tree(group) == (Tree::Group { delimiter, stream: stream_trees(stream) }),
        group_places(group) == stream_places(stream),
{
    proc_macro2::Group::new(
        match delimiter {
            Delimiter::Parenthesis => proc_macro2::Delimiter::Parenthesis,
            Delimiter::Brace => proc_macro2::Delimiter::Brace,
            Delimiter::Bracket => proc_macro2::Delimiter::Bracket,
            Delimiter::Invisible => proc_macro2::Delimiter::None,
        },
        stream,
    )
}

/// `TokenTree::from` a group: the group as a token, with the same tokens
/// inside, each where it was.
#[verifier::external_body]
pub(crate) fn group_token(group: proc_macro2::Group) -> (token: proc_macro2::TokenTree)
    ensures
        tree_of(token) == group_tree(group),
        place_of(token).inside == group_places(group),
{
    proc_macro2::TokenTree::from(group)
}

/// `TokenTree::set_span`: the token keeps its value and carries the
/// location; what is inside a group stays where it is.
#[verifier::external_body]
pub(crate) fn set_span(token: &mut proc_macro2::TokenTree, span: proc_macro2::Span)
    ensures
        tree_of(*final(token)) == tree_of(*old(token)),
        place_of(*final(token)) == (Place { span, inside: place_of(*old(token)).inside }),
{
    token.set_span(span);
}

/// A group with the delimiter that `delimiter` stands for (`{`, `[` and `(`
/// for their brackets, any other character for none), holding what `f` puts
/// into an empty stream, each token where `f` put it.
pub fn group(delimiter: char, f: impl FnOnce(&mut proc_macro2::TokenStream)) -> (group:
    proc_macro2::Group)
    requires
        forall|stream: &mut proc_macro2::TokenStream|
            #![trigger call_requires(f, (stream,))]
            fresh(*stream) ==> call_requires(f, (stream,)),
    ensures
        exists|stream: &mut proc_macro2::TokenStream|
            #![trigger call_ensures(f, (stream,), ())]
            {
                &&& fresh(*stream)
                &&& call_ensures(f, (stream,), ())
                &&& group_tree(group) == group_of(delimiter, stream_trees(*final(stream)))
                &&& group_places(group) == stream_places(*final(stream))
            },
{
    let mut stream = new_stream();
    f(&mut stream);
    let delimiter = match delimiter {
        '{' => Delimiter::Brace,
        '[' => Delimiter::Bracket,
        '(' => Delimiter::Parenthesis,
        _ => Delimiter::Invisible,
    };
    new_group(delimiter, stream)
}

} // verus!
