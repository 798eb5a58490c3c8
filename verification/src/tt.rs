//! Constructors for the tokens that a generated program appends.
use vstd::prelude::*;
use crate::render::{alone, joint};
use crate::run::{has_raw_prefix, ident_tree};
use crate::stream::{
    call_site, fresh, group_of, group_places, group_token, group_tree, is_xid_continue,
    is_xid_start, leaf, lex_literal, literal_ok, new_ident, new_punct, new_raw_ident, path_keyword,
    place_of, plain_name, punct_char, set_span, stream_places, stream_trees, tree_of, xid_continue,
    Place,
};
use crate::token::{Spacing, Tree};
use proc_macro2::{Group, Span, TokenStream, TokenTree};

verus! {

/// A name that [`ident`] takes: an identifier, or the raw prefix `r#` before
/// an identifier that is not `_`, `super`, `self`, `Self` or `crate`.
pub open spec fn ident_name(name: Seq<char>) -> bool {
    if has_raw_prefix(name) {
        plain_name(name.skip(2)) && !path_keyword(name.skip(2))
    } else {
        plain_name(name)
    }
}

/// Whether the text starts with the raw prefix `r#`.
fn raw_prefixed(id: &str) -> (b: bool)
    ensures
        b == has_raw_prefix(id@),
{
    id.unicode_len() >= 2 && id.get_char(0) == 'r' && id.get_char(1) == '#'
}

/// Whether the two texts are the same.
fn same_text(a: &str, b: &str) -> (same: bool)
    ensures
        same == (a@ == b@),
{
    let n = a.unicode_len();
    if n != b.unicode_len() {
        return false;
    }
    let mut k: usize = 0;
    while k < n
        invariant
            n == a@.len(),
            n == b@.len(),
            k <= n,
            forall|j: int| 0 <= j < k ==> a@[j] == b@[j],
        decreases n - k,
    {
        if a.get_char(k) != b.get_char(k) {
            return false;
        }
        k += 1;
    }
    assert(a@ =~= b@);
    true
}

/// Whether the name is an identifier.
fn is_plain_name(name: &str) -> (b: bool)
    ensures
        b == plain_name(name@),
{
    let n = name.unicode_len();
    if n == 0 {
        return false;
    }
    let first = name.get_char(0);
    if first != '_' && !is_xid_start(first) {
        return false;
    }
    let mut k: usize = 1;
    while k < n
        invariant
            n == name@.len(),
            1 <= k <= n,
            forall|j: int| 1 <= j < k ==> xid_continue(#[trigger] name@[j]),
        decreases n - k,
    {
        if !is_xid_continue(name.get_char(k)) {
            return false;
        }
        k += 1;
    }
    true
}

/// Whether the name is one that cannot be a raw identifier.
fn is_path_keyword(name: &str) -> (b: bool)
    ensures
        b == path_keyword(name@),
{
    same_text(name, "_") || same_text(name, "super") || same_text(name, "self") || same_text(
        name,
        "Self",
    ) || same_text(name, "crate")
}

/// Whether [`ident`] takes the name.
pub fn is_ident_name(name: &str) -> (b: bool)
    ensures
        b == ident_name(name@),
{
    if raw_prefixed(name) {
        let rest = name.substring_char(2, name.unicode_len());
        is_plain_name(rest) && !is_path_keyword(rest)
    } else {
        is_plain_name(name)
    }
}

/// The identifier that `id` denotes, at `span`: a raw one where `id` starts
/// with `r#`, else a plain one.
fn ident_maybe_raw(id: &str, span: Span) -> (token: TokenTree)
    requires
        ident_name(id@),
    ensures
        tree_of(token) == ident_tree(id@),
        place_of(token) == leaf(span),
{
    if raw_prefixed(id) {
        new_raw_ident(id.substring_char(2, id.unicode_len()), span)
    } else {
        new_ident(id, span)
    }
}

/// The punctuation character `ch`, joined to what follows.
pub fn punct_join(ch: char) -> (token: TokenTree)
    requires
        punct_char(ch),
    ensures
        tree_of(token) == joint(ch),
        place_of(token).inside == Seq::<Place>::empty(),
{
    new_punct(ch, Spacing::Joint)
}

/// The punctuation character `ch`, joined to what follows, at `span`.
pub fn punct_join_span(span: Span, ch: char) -> (token: TokenTree)
    requires
        punct_char(ch),
    ensures
        tree_of(token) == joint(ch),
        place_of(token) == leaf(span),
{
    let mut t = new_punct(ch, Spacing::Joint);
    set_span(&mut t, span);
    t
}

/// The punctuation character `ch`, standing alone.
pub fn punct(ch: char) -> (token: TokenTree)
    requires
        punct_char(ch),
    ensures
        tree_of(token) == alone(ch),
        place_of(token).inside == Seq::<Place>::empty(),
{
    new_punct(ch, Spacing::Alone)
}

/// The punctuation character `ch`, standing alone, at `span`.
pub fn punct_span(span: Span, ch: char) -> (token: TokenTree)
    requires
        punct_char(ch),
    ensures
        tree_of(token) == alone(ch),
        place_of(token) == leaf(span),
{
    let mut p = new_punct(ch, Spacing::Alone);
    set_span(&mut p, span);
    p
}

/// The identifier that `name` denotes: a raw one, without the prefix, where
/// `name` starts with `r#`, else a plain one.
pub fn ident(name: &str) -> (token: TokenTree)
    requires
        ident_name(name@),
    ensures
        tree_of(token) == ident_tree(name@),
        place_of(token).inside == Seq::<Place>::empty(),
{
    ident_maybe_raw(name, call_site())
}

/// The identifier that `name` denotes, at `span`.
pub fn ident_span(span: Span, name: &str) -> (token: TokenTree)
    requires
        ident_name(name@),
    ensures
        tree_of(token) == ident_tree(name@),
        place_of(token) == leaf(span),
{
    ident_maybe_raw(name, span)
}

/// The identifier that `name` denotes, where [`ident`] takes the name, and
/// nothing where it does not.
pub fn try_ident(name: &str) -> (token: Option<TokenTree>)
    ensures
        token is Some <==> ident_name(name@),
        token is Some ==> tree_of(token->Some_0) == ident_tree(name@),
        token is Some ==> place_of(token->Some_0).inside == Seq::<Place>::empty(),
{
    if is_ident_name(name) {
        Some(ident(name))
    } else {
        None
    }
}

/// The identifier that `name` denotes, at `span`, where [`ident`] takes the
/// name, and nothing where it does not.
pub fn try_ident_span(span: Span, name: &str) -> (token: Option<TokenTree>)
    ensures
        token is Some <==> ident_name(name@),
        token is Some ==> tree_of(token->Some_0) == ident_tree(name@),
        token is Some ==> place_of(token->Some_0) == leaf(span),
{
    if is_ident_name(name) {
        Some(ident_span(span, name))
    } else {
        None
    }
}

/// The literal whose text is `s`.
pub fn parsed_lit(s: &str) -> (token: TokenTree)
    requires
        literal_ok(s@),
    ensures
        tree_of(token) == (Tree::Literal { text: s@ }),
        place_of(token).inside == Seq::<Place>::empty(),
{
    match lex_literal(s) {
        Some(token) => token,
        None => vstd::pervasive::unreached(),
    }
}

/// The literal whose text is `s`, at `span`.
pub fn parsed_lit_span(span: Span, s: &str) -> (token: TokenTree)
    requires
        literal_ok(s@),
    ensures
        tree_of(token) == (Tree::Literal { text: s@ }),
        place_of(token) == leaf(span),
{
    let mut l = parsed_lit(s);
    set_span(&mut l, span);
    l
}

/// Whether `s` is the text of one literal.
pub fn is_literal(s: &str) -> (b: bool)
    ensures
        b == literal_ok(s@),
{
    lex_literal(s).is_some()
}

/// The literal whose text is `s`, where `s` is the text of one literal, and
/// nothing where it is not.
pub fn try_parsed_lit(s: &str) -> (token: Option<TokenTree>)
    ensures
        token is Some <==> literal_ok(s@),
        token is Some ==> tree_of(token->Some_0) == (Tree::Literal { text: s@ }),
        token is Some ==> place_of(token->Some_0).inside == Seq::<Place>::empty(),
{
    if is_literal(s) {
        Some(parsed_lit(s))
    } else {
        None
    }
}

/// The literal whose text is `s`, at `span`, where `s` is the text of one
/// literal, and nothing where it is not.
pub fn try_parsed_lit_span(span: Span, s: &str) -> (token: Option<TokenTree>)
    ensures
        token is Some <==> literal_ok(s@),
        token is Some ==> tree_of(token->Some_0) == (Tree::Literal { text: s@ }),
        token is Some ==> place_of(token->Some_0) == leaf(span),
{
    if is_literal(s) {
        Some(parsed_lit_span(span, s))
    } else {
        None
    }
}

/// A group with the delimiter that `delimiter` stands for, holding what `f`
/// puts into an empty stream, each token where `f` put it.
fn _group(delimiter: char, f: impl FnOnce(&mut TokenStream)) -> (group: Group)
    requires
        forall|stream: &mut TokenStream|
            #![trigger call_requires(f, (stream,))]
            fresh(*stream) ==> call_requires(f, (stream,)),
    ensures
        exists|stream: &mut TokenStream|
            #![trigger call_ensures(f, (stream,), ())]
            {
                &&& fresh(*stream)
                &&& call_ensures(f, (stream,), ())
                &&& group_tree(group) == group_of(delimiter, stream_trees(*final(stream)))
                &&& group_places(group) == stream_places(*final(stream))
            },
{
    crate::stream::group(delimiter, f)
}

/// A group with the delimiter that `delimiter` stands for, holding what `f`
/// puts into an empty stream, each token where `f` put it.
pub fn group(delimiter: char, f: impl FnOnce(&mut TokenStream)) -> (token: TokenTree)
    requires
        forall|stream: &mut TokenStream|
            #![trigger call_requires(f, (stream,))]
            fresh(*stream) ==> call_requires(f, (stream,)),
    ensures
        exists|stream: &mut TokenStream|
            #![trigger call_ensures(f, (stream,), ())]
            {
                &&& fresh(*stream)
                &&& call_ensures(f, (stream,), ())
                &&& tree_of(token) == group_of(delimiter, stream_trees(*final(stream)))
                &&& place_of(token).inside == stream_places(*final(stream))
            },
{
    group_token(_group(delimiter, f))
}

/// A group with the delimiter that `delimiter` stands for, at `span`,
/// holding what `f` puts into an empty stream, each token where `f` put
/// it.
pub fn group_span(span: Span, delimiter: char, f: impl FnOnce(&mut TokenStream)) -> (token:
    TokenTree)
    requires
        forall|stream: &mut TokenStream|
            #![trigger call_requires(f, (stream,))]
            fresh(*stream) ==> call_requires(f, (stream,)),
    ensures
        exists|stream: &mut TokenStream|
            #![trigger call_ensures(f, (stream,), ())]
            {
                &&& fresh(*stream)
                &&& call_ensures(f, (stream,), ())
                &&& tree_of(token) == group_of(delimiter, stream_trees(*final(stream)))
                &&& place_of(token) == (Place { span, inside: stream_places(*final(stream)) })
            },
{
    let mut g = group_token(_group(delimiter, f));
    set_span(&mut g, span);
    g
}

} // verus!
