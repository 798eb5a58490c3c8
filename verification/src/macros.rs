//! The expansion engine.
//!
//! [`expend`] walks a sequence of tokens once, front to back, and writes the
//! statements that rebuild it: one builder call for each run of identifiers,
//! each punctuation character or fused pair, each literal, each interpolated
//! identifier and each group, whose body it expands in turn.
use vstd::prelude::*;
use vstd::string::StringExecFns;
use crate::literal::string_literal;
use crate::plan::{
    batch, escapes, fused, fuses, ident_text, lemma_ident_run_exact, literal_call, numeric, plan,
    run_names, single, Call, MARKER,
};
use crate::render::{
    alone, arguments, delimiter_char, inner_target, located, location, method_text, name_list,
    render, render_call, statement, string_token, tokens_method_text, Method,
};
use crate::token::{span_name, trees, Delimiter, Ident, Name, Spacing, Token, Tree};

pub mod tt;

verus! {

/// The statements that rebuild `input` on `target`.
pub open spec fn expansion(input: Seq<Tree>, target: Name, span: Option<Name>) -> Seq<Tree> {
    render(plan(input), target, span)
}

/// The written forms of a batch of identifiers.
pub open spec fn texts(items: Seq<String>) -> Seq<Seq<char>> {
    Seq::new(items.len(), |k: int| items[k]@)
}

/// Writing one more call appends its statement.
proof fn lemma_render_push(calls: Seq<Call>, call: Call, target: Name, span: Option<Name>)
    ensures
        render(calls.push(call), target, span) == render(calls, target, span) + render_call(
            call,
            target,
            span,
        ),
{
    assert(calls.push(call).drop_last() =~= calls);
}

/// The identifier as a token.
fn tt(ident: &Ident) -> (token: Token)
    ensures
        token@ == Tree::Ident(ident@),
{
    Token::Ident(ident.duplicate())
}

/// Appends one token.
fn add(o: &mut Vec<Token>, t: Token)
    ensures
        trees(final(o)@) == trees(old(o)@).push(t@),
{
    o.push(t);
    assert(trees(o@) =~= trees(old(o)@).push(t@));
}

/// Appends the location and a comma, where there is a location.
fn add_span(o: &mut Vec<Token>, span: Option<&Ident>)
    ensures
        trees(final(o)@) == trees(old(o)@) + location(span_name(span)),
{
    if let Some(spanned) = span {
        self::add(o, tt(spanned));
        self::add(o, tt::punct(','));
    }
    assert(trees(o@) =~= trees(old(o)@) + location(span_name(span)));
}

/// The name under which a builder operation is called.
fn method_name(method: Method, located: bool) -> (name: &'static str)
    ensures
        name@ == method_text(method, located),
{
    match method {
        Method::Ident => if located { "add_ident_span" } else { "add_ident" },
        Method::Idents => if located { "add_idents_span" } else { "add_idents" },
        Method::PunctJoin => if located { "add_punct_join_span" } else { "add_punct_join" },
        Method::Punct => if located { "add_punct_span" } else { "add_punct" },
        Method::Punct2 => if located { "add_punct2_span" } else { "add_punct2" },
        Method::Puncts => if located { "add_puncts_span" } else { "add_puncts" },
        Method::Group => if located { "add_group_span" } else { "add_group" },
        Method::ParsedLit => if located { "add_parsed_lit_span" } else { "add_parsed_lit" },
    }
}

/// The name of the operation that appends tokens as they stand.
fn tokens_method_name() -> (name: &'static str)
    ensures
        name@ == tokens_method_text(),
{
    "add_tokens"
}

/// Appends the statement `var.varient_ty(arguments);`, with the arguments
/// that `f` puts into an empty stream.
fn varient(o: &mut Vec<Token>, var: &Ident, varient_ty: &str, f: impl FnOnce(&mut Vec<Token>))
    requires
        forall|stream: &mut Vec<Token>| stream@.len() == 0 ==> call_requires(f, (stream,)),
    ensures
        exists|stream: &mut Vec<Token>|
            trees(stream@) == Seq::<Tree>::empty() && call_ensures(f, (stream,), ()) && trees(
                final(o)@,
            ) == trees(old(o)@) + statement(var@, varient_ty@, trees(final(stream)@)),
{
    self::add(o, tt(var));
    self::add(o, tt::punct('.'));
    self::add(o, tt::ident(varient_ty));
    self::add(o, tt::group('(', f));
    self::add(o, tt::punct(';'));
    proof {
        let stream = choose|stream: &mut Vec<Token>|
            stream@.len() == 0 && call_ensures(f, (stream,), ()) && trees(o@).drop_last().last()
                == (Tree::Group {
                delimiter: Delimiter::Parenthesis,
                stream: trees(final(stream)@),
            });
        assert(trees(stream@) =~= Seq::<Tree>::empty());
        assert(trees(o@) =~= trees(old(o)@) + statement(
            var@,
            varient_ty@,
            trees(final(stream)@),
        ));
    }
}

/// The identifier as it is written.
fn ident_string(ident: &Ident) -> (text: String)
    ensures
        text@ == ident_text(ident@),
{
    if ident.raw {
        "r#".to_owned().concat(ident.name.as_str())
    } else {
        ident.name.clone()
    }
}

/// Whether a literal's text starts with a decimal digit.
fn is_numeric(text: &str) -> (b: bool)
    ensures
        b == numeric(text@),
{
    if text.unicode_len() == 0 {
        false
    } else {
        let first = text.get_char(0);
        '0' <= first && first <= '9'
    }
}

/// The names as string literals with a comma between each two.
fn list_names(items: &Vec<String>) -> (list: Vec<Token>)
    ensures
        trees(list@) == name_list(texts(items@)),
{
    let mut list: Vec<Token> = Vec::new();
    let mut k: usize = 0;
    assert(texts(items@).take(0) =~= Seq::<Seq<char>>::empty());
    assert(trees(list@) =~= Seq::<Tree>::empty());
    while k < items.len()
        invariant
            k <= items.len(),
            trees(list@) == name_list(texts(items@).take(k as int)),
        decreases items.len() - k,
    {
        let ghost before = trees(list@);
        if k > 0 {
            self::add(&mut list, tt::punct(','));
        }
        self::add(&mut list, string_literal(items[k].as_str()));
        proof {
            let names = texts(items@).take(k + 1);
            assert(names.drop_last() =~= texts(items@).take(k as int));
            assert(names.last() == items@[k as int]@);
            if k > 0 {
                assert(trees(list@) =~= before + seq![alone(','), string_token(names.last())]);
            } else {
                assert(trees(list@) =~= seq![string_token(names[0])]);
            }
        }
        k += 1;
    }
    assert(texts(items@).take(k as int) =~= texts(items@));
    list
}

/// Writes the pending batch of identifiers as one call and empties it: the
/// singular call for one name, the plural call for more, none for none.
fn write_extender(items: &mut Vec<String>, o: &mut Vec<Token>, span: Option<&Ident>, var: &Ident)
    ensures
        final(items)@.len() == 0,
        old(items)@.len() == 0 ==> trees(final(o)@) == trees(old(o)@),
        old(items)@.len() > 0 ==> trees(final(o)@) == trees(old(o)@) + render_call(
            batch(texts(old(items)@)),
            var@,
            span_name(span),
        ),
{
    if items.len() == 1 {
        let name = string_literal(items[0].as_str());
        let fill = move |a: &mut Vec<Token>|
            ensures
                trees(final(a)@) == located(trees(old(a)@), span_name(span)).push(name@),
            {
                add_span(a, span);
                self::add(a, name);
            };
        varient(o, var, method_name(Method::Ident, span.is_some()), fill);
        proof {
            let call = batch(texts(old(items)@));
            assert(call == Call::Ident { name: old(items)@[0]@ });
            assert(located(Seq::<Tree>::empty(), span_name(span)).push(name@) =~= location(
                span_name(span),
            ) + arguments(call, span_name(span)));
        }
        items.clear();
    } else if items.len() > 1 {
        let list = list_names(items);
        let bracket = Token::Group { delimiter: Delimiter::Bracket, stream: list };
        let fill = move |a: &mut Vec<Token>|
            ensures
                trees(final(a)@) == located(trees(old(a)@), span_name(span)).push(bracket@),
            {
                add_span(a, span);
                self::add(a, bracket);
            };
        varient(o, var, method_name(Method::Idents, span.is_some()), fill);
        proof {
            let call = batch(texts(old(items)@));
            assert(call == Call::Idents { names: texts(old(items)@) });
            assert(located(Seq::<Tree>::empty(), span_name(span)).push(bracket@) =~= location(
                span_name(span),
            ) + arguments(call, span_name(span)));
        }
        items.clear();
    }
}

/// The character that stands for a delimiter in a generated program.
fn delimiter_mark(delimiter: Delimiter) -> (ch: char)
    ensures
        ch == delimiter_char(delimiter),
{
    match delimiter {
        Delimiter::Invisible => '_',
        Delimiter::Brace => '{',
        Delimiter::Bracket => '[',
        Delimiter::Parenthesis => '(',
    }
}

/// A run of identifiers from `start` up to `i` is one batch in the plan.
proof fn lemma_flush(all: Seq<Tree>, start: int, i: int)
    requires
        0 <= start < i <= all.len(),
        forall|k: int| start <= k < i ==> (#[trigger] all[k]) is Ident,
        i == all.len() || !(all[i] is Ident),
    ensures
        plan(all.skip(start)) == seq![batch(run_names(all.skip(start), (i - start) as nat))] + plan(
            all.skip(i),
        ),
{
    let rest = all.skip(start);
    assert forall|k: int| 0 <= k < i - start implies rest[k] is Ident by {
        assert(rest[k] == all[start + k]);
    }
    lemma_ident_run_exact(rest, (i - start) as nat);
    assert(rest.skip(i - start) =~= all.skip(i));
}

/// Once the statement of the next call of the plan is written, the
/// output holds the statements of all calls so far.
proof fn lemma_emitted(
    all: Seq<Tree>,
    done: Seq<Call>,
    at: int,
    call: Call,
    k: int,
    origin: Seq<Tree>,
    before: Seq<Tree>,
    after: Seq<Tree>,
    target: Name,
    span: Option<Name>,
)
    requires
        0 <= at,
        0 <= k,
        at + k <= all.len(),
        done + plan(all.skip(at)) == plan(all),
        plan(all.skip(at)) == seq![call] + plan(all.skip(at).skip(k)),
        before == origin + render(done, target, span),
        after == before + render_call(call, target, span),
    ensures
        done.push(call) + plan(all.skip(at + k)) == plan(all),
        after == origin + render(done.push(call), target, span),
{
    assert(all.skip(at).skip(k) =~= all.skip(at + k));
    assert(done.push(call) + plan(all.skip(at + k)) =~= done + (seq![call] + plan(
        all.skip(at + k),
    )));
    lemma_render_push(done, call, target, span);
    assert(after =~= origin + render(done.push(call), target, span));
}

/// Once the pending batch is written, the output holds the statements of
/// all calls so far.
proof fn lemma_flushed(
    all: Seq<Tree>,
    done: Seq<Call>,
    start: int,
    i: int,
    pending: Seq<Seq<char>>,
    origin: Seq<Tree>,
    before: Seq<Tree>,
    after: Seq<Tree>,
    target: Name,
    span: Option<Name>,
)
    requires
        0 <= start < i <= all.len(),
        pending.len() == i - start,
        forall|k: int|
            start <= k < i ==> (#[trigger] all[k]) is Ident && pending[k - start] == ident_text(
                all[k]->Ident_0,
            ),
        i == all.len() || !(all[i] is Ident),
        done + plan(all.skip(start)) == plan(all),
        before == origin + render(done, target, span),
        after == before + render_call(batch(pending), target, span),
    ensures
        done.push(batch(pending)) + plan(all.skip(i)) == plan(all),
        after == origin + render(done.push(batch(pending)), target, span),
{
    lemma_flush(all, start, i);
    assert(pending =~= run_names(all.skip(start), (i - start) as nat));
    assert(all.skip(start).skip(i - start) =~= all.skip(i));
    lemma_emitted(all, done, start, batch(pending), i - start, origin, before, after, target, span);
}

/// Writes the call that passes `token` on as it stands.
fn write_tokens(o: &mut Vec<Token>, span: Option<&Ident>, var: &Ident, token: Token)
    ensures
        trees(final(o)@) == trees(old(o)@) + render_call(
            Call::Tokens { token: token@ },
            var@,
            span_name(span),
        ),
{
    let ghost call = Call::Tokens { token: token@ };
    let fill = move |a: &mut Vec<Token>|
        ensures
            trees(final(a)@) == trees(old(a)@).push(alone('&')).push(token@),
        {
            self::add(a, tt::punct('&'));
            self::add(a, token);
        };
    varient(o, var, tokens_method_name(), fill);
    proof {
        assert(Seq::<Tree>::empty().push(alone('&')).push(token@) =~= arguments(
            call,
            span_name(span),
        ));
    }
}

/// Writes the call for a single punctuation character.
fn write_punct(o: &mut Vec<Token>, span: Option<&Ident>, var: &Ident, ch: char, spacing: Spacing)
    ensures
        trees(final(o)@) == trees(old(o)@) + render_call(
            single(ch, spacing),
            var@,
            span_name(span),
        ),
{
    let ghost sp = span_name(span);
    let mark = tt::char(ch);
    let fill = move |a: &mut Vec<Token>|
        ensures
            trees(final(a)@) == located(trees(old(a)@), span_name(span)).push(mark@),
        {
            add_span(a, span);
            self::add(a, mark);
        };
    let method = if is_joint(spacing) {
        Method::PunctJoin
    } else {
        Method::Punct
    };
    varient(o, var, method_name(method, span.is_some()), fill);
    proof {
        assert(located(Seq::<Tree>::empty(), sp).push(mark@) =~= location(sp) + arguments(
            single(ch, spacing),
            sp,
        ));
    }
}

/// Writes the one call for a fused pair of punctuation characters.
fn write_fused(o: &mut Vec<Token>, span: Option<&Ident>, var: &Ident, first: char, second: char)
    ensures
        trees(final(o)@) == trees(old(o)@) + render_call(
            fused(first, second),
            var@,
            span_name(span),
        ),
{
    let ghost sp = span_name(span);
    let first_mark = tt::char(first);
    if first == second {
        let fill = move |a: &mut Vec<Token>|
            ensures
                trees(final(a)@) == located(trees(old(a)@), span_name(span)).push(first_mark@),
            {
                add_span(a, span);
                self::add(a, first_mark);
            };
        varient(o, var, method_name(Method::Punct2, span.is_some()), fill);
        proof {
            assert(located(Seq::<Tree>::empty(), sp).push(first_mark@) =~= location(sp)
                + arguments(fused(first, second), sp));
        }
    } else {
        let second_mark = tt::char(second);
        let fill = move |a: &mut Vec<Token>|
            ensures
                trees(final(a)@) == located(trees(old(a)@), span_name(span)).push(
                    first_mark@,
                ).push(alone(',')).push(second_mark@),
            {
                add_span(a, span);
                self::add(a, first_mark);
                self::add(a, tt::punct(','));
                self::add(a, second_mark);
            };
        varient(o, var, method_name(Method::Puncts, span.is_some()), fill);
        proof {
            assert(located(Seq::<Tree>::empty(), sp).push(first_mark@).push(alone(',')).push(
                second_mark@,
            ) =~= location(sp) + arguments(fused(first, second), sp));
        }
    }
}

/// Writes the call for a literal.
fn write_literal(o: &mut Vec<Token>, span: Option<&Ident>, var: &Ident, text: &String)
    ensures
        trees(final(o)@) == trees(old(o)@) + render_call(
            literal_call(text@),
            var@,
            span_name(span),
        ),
{
    let ghost sp = span_name(span);
    if is_numeric(text.as_str()) {
        let quoted = string_literal(text.as_str());
        let fill = move |a: &mut Vec<Token>|
            ensures
                trees(final(a)@) == located(trees(old(a)@), span_name(span)).push(quoted@),
            {
                add_span(a, span);
                self::add(a, quoted);
            };
        varient(o, var, method_name(Method::ParsedLit, span.is_some()), fill);
        proof {
            assert(located(Seq::<Tree>::empty(), sp).push(quoted@) =~= location(sp) + arguments(
                literal_call(text@),
                sp,
            ));
        }
    } else {
        write_tokens(o, span, var, Token::Literal { text: text.clone() });
    }
}

/// Writes the call for a group whose body, already expanded on the inner
/// target, is `block`.
fn write_group(
    o: &mut Vec<Token>,
    span: Option<&Ident>,
    var: &Ident,
    delimiter: Delimiter,
    inner: &Ident,
    block: Vec<Token>,
    Ghost(body): Ghost<Seq<Call>>,
)
    requires
        inner@ == inner_target(),
        trees(block@) == render(body, inner_target(), span_name(span)),
    ensures
        trees(final(o)@) == trees(old(o)@) + render_call(
            Call::Group { delimiter, body },
            var@,
            span_name(span),
        ),
{
    let ghost sp = span_name(span);
    let braces = Token::Group { delimiter: Delimiter::Brace, stream: block };
    let mark = tt::char(delimiter_mark(delimiter));
    let name = tt(inner);
    let fill = move |a: &mut Vec<Token>|
        ensures
            trees(final(a)@) == located(trees(old(a)@), span_name(span)).push(mark@).push(
                alone(','),
            ).push(alone('|')).push(name@).push(alone('|')).push(braces@),
        {
            add_span(a, span);
            self::add(a, mark);
            self::add(a, tt::punct(','));
            self::add(a, tt::punct('|'));
            self::add(a, name);
            self::add(a, tt::punct('|'));
            self::add(a, braces);
        };
    varient(o, var, method_name(Method::Group, span.is_some()), fill);
    proof {
        assert(located(Seq::<Tree>::empty(), sp).push(mark@).push(alone(',')).push(
            alone('|'),
        ).push(name@).push(alone('|')).push(braces@) =~= location(sp) + arguments(
            Call::Group { delimiter, body },
            sp,
        ));
    }
}

/// The identifier that the marker at `at` passes on: the token after it,
/// where the token at `at` is the marker and an identifier follows.
fn escaped(input: &Vec<Token>, at: usize) -> (next: Option<&Ident>)
    requires
        at < input.len(),
    ensures
        next is Some <==> escapes(trees(input@).skip(at as int)),
        next is Some ==> Tree::Ident(next->Some_0@) == trees(input@)[at + 1],
{
    let ghost rest = trees(input@).skip(at as int);
    assert(rest[0] == input@[at as int]@);
    if at + 1 < input.len() {
        assert(rest[1] == input@[at + 1]@);
        match (&input[at], &input[at + 1]) {
            (Token::Punct { ch, .. }, Token::Ident(next)) => if *ch == MARKER {
                Some(next)
            } else {
                None
            },
            _ => None,
        }
    } else {
        None
    }
}

/// The character that the punctuation at `at` is fused with: that of the
/// token after it, where the token at `at` is joint punctuation and
/// punctuation follows that stands alone and is not the marker.
fn fused_with(input: &Vec<Token>, at: usize) -> (second: Option<char>)
    requires
        at < input.len(),
    ensures
        second is Some <==> fuses(trees(input@).skip(at as int)),
        second is Some ==> second->Some_0 == trees(input@)[at + 1]->ch,
{
    let ghost rest = trees(input@).skip(at as int);
    assert(rest[0] == input@[at as int]@);
    if at + 1 < input.len() {
        assert(rest[1] == input@[at + 1]@);
        match (&input[at], &input[at + 1]) {
            (
                Token::Punct { spacing: Spacing::Joint, .. },
                Token::Punct { ch, spacing: Spacing::Alone },
            ) => if *ch != MARKER {
                Some(*ch)
            } else {
                None
            },
            _ => None,
        }
    } else {
        None
    }
}

/// Writes to `o` the statements that rebuild `input` on `var`: the builder
/// calls that [`plan`] gives, each as [`render`] writes it, with `span` as
/// the location that every call is handed.
///
/// Identifiers are held back until another token or the end of the input
/// comes, and are then written as one call. A group's body is expanded on a
/// target of its own.
pub fn expend(input: &Vec<Token>, o: &mut Vec<Token>, span: Option<&Ident>, var: &Ident)
    ensures
        trees(final(o)@) == trees(old(o)@) + expansion(trees(input@), var@, span_name(span)),
    decreases input,
{
    let ghost all = trees(input@);
    let ghost sp = span_name(span);
    let ghost origin = trees(o@);
    let ghost mut done: Seq<Call> = Seq::empty();
    let ghost mut start: int = 0;
    let mut items: Vec<String> = Vec::new();
    let n = input.len();
    let mut i: usize = 0;
    proof {
        assert(all.skip(0) =~= all);
        assert(done + plan(all.skip(0)) =~= plan(all));
        assert(trees(o@) =~= origin + render(done, var@, sp));
    }
    while i < n
        invariant
            n == input.len(),
            all == trees(input@),
            sp == span_name(span),
            0 <= start <= i <= n,
            items@.len() == i - start,
            forall|k: int|
                start <= k < i ==> (#[trigger] all[k]) is Ident && items@[k - start]@ == ident_text(
                    all[k]->Ident_0,
                ),
            done + plan(all.skip(start)) == plan(all),
            trees(o@) == origin + render(done, var@, sp),
        decreases n - i,
    {
        let ghost rest = all.skip(i as int);
        assert(rest[0] == input@[i as int]@);
        if !is_ident(&input[i]) {
            let ghost pending = texts(items@);
            let ghost before = trees(o@);
            write_extender(&mut items, o, span, var);
            proof {
                if start < i {
                    lemma_flushed(all, done, start, i as int, pending, origin, before, trees(o@), var@, sp);
                    done = done.push(batch(pending));
                }
                start = i as int;
            }
        }
        let ghost before = trees(o@);
        match &input[i] {
            Token::Ident(ident) => {
                items.push(ident_string(ident));
                i += 1;
            },
            Token::Punct { ch, spacing } => {
                let ghost call: Call;
                let ghost step: int;
                if let Some(next) = escaped(input, i) {
                    write_tokens(o, span, var, tt(next));
                    proof {
                        call = Call::Tokens { token: all[i + 1] };
                        step = 2;
                    }
                    i += 2;
                } else if let Some(second) = fused_with(input, i) {
                    write_fused(o, span, var, *ch, second);
                    proof {
                        call = fused(*ch, second);
                        step = 2;
                    }
                    i += 2;
                } else {
                    write_punct(o, span, var, *ch, *spacing);
                    proof {
                        call = single(*ch, *spacing);
                        step = 1;
                    }
                    i += 1;
                }
                proof {
                    lemma_emitted(all, done, start, call, step, origin, before, trees(o@), var@, sp);
                    done = done.push(call);
                    start = i as int;
                }
            },
            Token::Group { delimiter, stream } => {
                let inner = Ident { name: "__o".to_owned(), raw: false, span: None };
                let mut block: Vec<Token> = Vec::new();
                expend(stream, &mut block, span, &inner);
                let ghost body = plan(trees(stream@));
                assert(trees(block@) =~= render(body, inner_target(), sp));
                write_group(o, span, var, *delimiter, &inner, block, Ghost(body));
                i += 1;
                proof {
                    let call = Call::Group { delimiter: *delimiter, body };
                    lemma_emitted(all, done, start, call, 1, origin, before, trees(o@), var@, sp);
                    done = done.push(call);
                    start = i as int;
                }
            },
            Token::Literal { text } => {
                write_literal(o, span, var, text);
                i += 1;
                proof {
                    let call = literal_call(text@);
                    lemma_emitted(all, done, start, call, 1, origin, before, trees(o@), var@, sp);
                    done = done.push(call);
                    start = i as int;
                }
            },
        }
    }
    let ghost pending = texts(items@);
    let ghost before = trees(o@);
    write_extender(&mut items, o, span, var);
    proof {
        if start < i {
            lemma_flushed(all, done, start, i as int, pending, origin, before, trees(o@), var@, sp);
            done = done.push(batch(pending));
        }
        assert(all.skip(i as int) =~= Seq::<Tree>::empty());
        assert(done =~= plan(all));
    }
}

/// Whether the token is an identifier.
fn is_ident(token: &Token) -> (b: bool)
    ensures
        b == (token@ is Ident),
{
    match token {
        Token::Ident(_) => true,
        _ => false,
    }
}

/// Whether the spacing is joint.
fn is_joint(spacing: Spacing) -> (b: bool)
    ensures
        b == (spacing == Spacing::Joint),
{
    match spacing {
        Spacing::Joint => true,
        Spacing::Alone => false,
    }
}

/// An argument stands at `at`: an identifier, and a separator after it.
pub open spec fn has_arg(input: Seq<Tree>, at: int) -> bool {
    0 <= at && at + 1 < input.len() && input[at] is Ident
}

/// A body stands at `at`: a group, whatever its delimiter.
pub open spec fn has_body(input: Seq<Tree>, at: int) -> bool {
    0 <= at < input.len() && input[at] is Group
}

/// The tokens of a call of [`quote`]: the target, a separator, the body.
pub open spec fn quote_input(input: Seq<Tree>) -> bool {
    has_arg(input, 0) && has_body(input, 2)
}

/// The tokens of a call of [`quote_spanned`]: the location, a separator, the
/// target, a separator, the body.
pub open spec fn quote_spanned_input(input: Seq<Tree>) -> bool {
    has_arg(input, 0) && has_arg(input, 2) && has_body(input, 4)
}

/// The identifier at `at`, which a separator follows.
fn parse_arg(input: &Vec<Token>, at: usize) -> (arg: Ident)
    requires
        has_arg(trees(input@), at as int),
    ensures
        Tree::Ident(arg@) == trees(input@)[at as int],
{
    assert(trees(input@)[at as int] == input@[at as int]@);
    match &input[at] {
        Token::Ident(ident) => ident.duplicate(),
        _ => vstd::pervasive::unreached(),
    }
}

/// Expands the body at `at` on `var`.
fn parse_body(input: &Vec<Token>, at: usize, span: Option<&Ident>, var: &Ident) -> (output: Vec<
    Token,
>)
    requires
        has_body(trees(input@), at as int),
    ensures
        trees(output@) == expansion(trees(input@)[at as int]->stream, var@, span_name(span)),
{
    assert(trees(input@)[at as int] == input@[at as int]@);
    let mut output: Vec<Token> = Vec::new();
    match &input[at] {
        Token::Group { stream, .. } => expend(stream, &mut output, span, var),
        _ => vstd::pervasive::unreached(),
    }
    assert(trees(output@) =~= expansion(trees(input@)[at as int]->stream, var@, span_name(span)));
    output
}

/// Expands a call `target, { body }`: the statements that rebuild the body
/// on the target.
///
/// The call's tokens are the target's name, any one token as separator, and
/// a group that holds the body; what follows the group is not read.
pub fn quote(input: &Vec<Token>) -> (output: Vec<Token>)
    requires
        quote_input(trees(input@)),
    ensures
        trees(output@) == expansion(
            trees(input@)[2]->stream,
            trees(input@)[0]->Ident_0,
            None,
        ),
{
    let var = parse_arg(input, 0);
    parse_body(input, 2, None, &var)
}

/// Expands a call `location, target, { body }`: the statements that rebuild
/// the body on the target, every token made with the location.
pub fn quote_spanned(input: &Vec<Token>) -> (output: Vec<Token>)
    requires
        quote_spanned_input(trees(input@)),
    ensures
        trees(output@) == expansion(
            trees(input@)[4]->stream,
            trees(input@)[2]->Ident_0,
            Some(trees(input@)[0]->Ident_0),
        ),
{
    let span = parse_arg(input, 0);
    let var = parse_arg(input, 2);
    parse_body(input, 4, Some(&span), &var)
}

} // verus!
