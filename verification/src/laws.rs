//! Laws of the expansion: what holds of the calls that the engine emits
//! for every sequence of tokens, and of what those calls append.
use vstd::prelude::*;
use crate::plan::{
    batch, escapes, fused, fuses, ident_run, ident_text, lemma_ident_run_bound,
    lemma_ident_run_exact, literal_call, numeric, plan, run_names, single, Call, MARKER,
};
use crate::literal::{char_literal_text, string_literal_text};
use crate::render::{alone, joint, render, render_call};
use crate::run::{has_raw_prefix, ident_tree, ident_trees, passed_on, run, run_call, Bindings};
use crate::stream::{literal_ok, path_keyword, plain_name, punct_char};
use crate::token::{Delimiter, Name, Spacing, Tree};
use crate::tt::ident_name;

verus! {

/// The identifiers with these names, as tokens.
pub open spec fn idents(names: Seq<Name>) -> Seq<Tree> {
    Seq::new(names.len(), |k: int| Tree::Ident(names[k]))
}

/// The names as they are written.
pub open spec fn written(names: Seq<Name>) -> Seq<Seq<char>> {
    Seq::new(names.len(), |k: int| ident_text(names[k]))
}

/// Nothing before `tail` can take its first token up into a call of its own:
/// `tail` is empty, or starts with a group, a literal, the marker, or a
/// joint punctuation character.
pub open spec fn stands_apart(tail: Seq<Tree>) -> bool {
    tail.len() > 0 ==> {
        ||| tail[0] is Group
        ||| tail[0] is Literal
        ||| tail[0] is Punct && (tail[0]->ch == MARKER || tail[0]->spacing == Spacing::Joint)
    }
}

/// The calls for two sequences set one after the other are the calls for
/// the first followed by the calls for the second, where the second stands
/// apart.
pub proof fn lemma_plan_concat(head: Seq<Tree>, tail: Seq<Tree>)
    requires
        stands_apart(tail),
    ensures
        plan(head + tail) == plan(head) + plan(tail),
    decreases head.len(),
{
    let all = head + tail;
    if head.len() == 0 {
        assert(all =~= tail);
        assert(plan(head) + plan(tail) =~= plan(tail));
    } else {
        assert(all[0] == head[0]);
        let step: int = match head[0] {
            Tree::Ident(_) => ident_run(head) as int,
            Tree::Punct { .. } => if escapes(head) || fuses(head) {
                2
            } else {
                1
            },
            _ => 1,
        };
        lemma_ident_run_bound(head);
        if head[0] is Ident {
            let n = ident_run(head);
            assert forall|k: int| 0 <= k < n implies all[k] is Ident by {
                assert(all[k] == head[k]);
            }
            if n < head.len() {
                assert(all[n as int] == head[n as int]);
            } else if tail.len() > 0 {
                assert(all[n as int] == tail[0]);
            }
            lemma_ident_run_exact(all, n);
            assert(run_names(all, n) =~= run_names(head, n));
        } else if head[0] is Punct {
            if head.len() >= 2 {
                assert(all[1] == head[1]);
            } else if tail.len() > 0 {
                assert(all[1] == tail[0]);
            }
            assert(escapes(all) == escapes(head));
            assert(fuses(all) == fuses(head));
        }
        assert(all.skip(step) =~= head.skip(step) + tail);
        lemma_plan_concat(head.skip(step), tail);
        assert(plan(all) =~= plan(head) + plan(tail));
    }
}

/// Identifiers that follow one another are emitted by one call: the name of
/// a single one, or the names of all in their order. The punctuation
/// character after them gets a call of its own.
pub proof fn law_identifier_batching(names: Seq<Name>, ch: char, spacing: Spacing)
    requires
        names.len() >= 1,
    ensures
        plan(idents(names) + seq![Tree::Punct { ch, spacing }]) == seq![
            batch(written(names)),
            single(ch, spacing),
        ],
        names.len() == 1 ==> batch(written(names)) == (Call::Ident { name: ident_text(names[0]) }),
        names.len() >= 2 ==> batch(written(names)) == (Call::Idents { names: written(names) }),
{
    let input = idents(names) + seq![Tree::Punct { ch, spacing }];
    let n = names.len();
    assert forall|k: int| 0 <= k < n implies input[k] is Ident by {
        assert(input[k] == idents(names)[k]);
    }
    assert(input[n as int] == Tree::Punct { ch, spacing });
    lemma_ident_run_exact(input, n);
    assert(run_names(input, n) =~= written(names));
    let last = input.skip(n as int);
    assert(last =~= seq![Tree::Punct { ch, spacing }]);
    assert(!escapes(last));
    assert(!fuses(last));
    assert(last.skip(1) =~= Seq::<Tree>::empty());
    assert(plan(last.skip(1)) =~= Seq::<Call>::empty());
    assert(plan(last) =~= seq![single(ch, spacing)]);
    assert(plan(input) =~= seq![batch(written(names)), single(ch, spacing)]);
}

/// The marker followed by an identifier, wherever it stands in a sequence,
/// becomes exactly one call that passes the identifier on as it stands; the
/// calls around it are those of what stands before and after, as if the pair
/// were not there.
pub proof fn law_escape_isolation(before: Seq<Tree>, spacing: Spacing, name: Name, after: Seq<Tree>)
    ensures
        plan(before + seq![Tree::Punct { ch: MARKER, spacing }, Tree::Ident(name)] + after) == plan(
            before,
        ) + seq![Call::Tokens { token: Tree::Ident(name) }] + plan(after),
{
    let pair = seq![Tree::Punct { ch: MARKER, spacing }, Tree::Ident(name)];
    let tail = pair + after;
    assert(before + pair + after =~= before + tail);
    lemma_plan_concat(before, tail);
    assert(escapes(tail));
    assert(tail.skip(2) =~= after);
    assert(plan(before) + plan(tail) =~= plan(before) + seq![
        Call::Tokens { token: Tree::Ident(name) },
    ] + plan(after));
}

/// A joint punctuation character and the lone one after it, unless that is
/// the marker, become exactly one call: the doubled form where the two are
/// the same character, else the form that takes both.
pub proof fn law_punct_fusing(first: char, second: char, after: Seq<Tree>)
    requires
        second != MARKER,
    ensures
        plan(seq![joint(first), alone(second)] + after) == seq![fused(first, second)] + plan(after),
        first == second ==> fused(first, second) == (Call::Punct2 { ch: first }),
        first != second ==> fused(first, second) == (Call::Puncts { first, second }),
{
    let input = seq![joint(first), alone(second)] + after;
    assert(fuses(input));
    assert(!escapes(input));
    assert(input.skip(2) =~= after);
}

/// A group of a sequence: its delimiter and the groups inside it.
pub ghost struct Nest {
    pub delimiter: Delimiter,
    pub inside: Seq<Nest>,
}

/// The groups of a sequence of tokens, in order.
pub open spec fn groups(input: Seq<Tree>) -> Seq<Nest>
    decreases input,
{
    if input.len() == 0 {
        Seq::empty()
    } else {
        match input[0] {
            Tree::Group { delimiter, stream } => seq![
                Nest { delimiter, inside: groups(stream) },
            ] + groups(input.skip(1)),
            _ => groups(input.skip(1)),
        }
    }
}

/// The group calls of a sequence of calls, in order.
pub open spec fn group_calls(calls: Seq<Call>) -> Seq<Nest>
    decreases calls,
{
    if calls.len() == 0 {
        Seq::empty()
    } else {
        match calls[0] {
            Call::Group { delimiter, body } => seq![
                Nest { delimiter, inside: group_calls(body) },
            ] + group_calls(calls.skip(1)),
            _ => group_calls(calls.skip(1)),
        }
    }
}

/// How deep the groups are nested: 0 where there is none.
pub open spec fn depth(nests: Seq<Nest>) -> nat
    decreases nests,
{
    if nests.len() == 0 {
        0
    } else {
        let first = 1 + depth(nests[0].inside);
        let rest = depth(nests.skip(1));
        if first >= rest {
            first
        } else {
            rest
        }
    }
}

/// Identifiers at the start of a sequence add no group.
proof fn lemma_groups_after_idents(input: Seq<Tree>, n: nat)
    requires
        n <= input.len(),
        forall|k: int| 0 <= k < n ==> input[k] is Ident,
    ensures
        groups(input) == groups(input.skip(n as int)),
    decreases n,
{
    if n > 0 {
        let rest = input.skip(1);
        assert forall|k: int| 0 <= k < n - 1 implies rest[k] is Ident by {
            assert(rest[k] == input[k + 1]);
        }
        lemma_groups_after_idents(rest, (n - 1) as nat);
        assert(rest.skip(n - 1) =~= input.skip(n as int));
    } else {
        assert(input.skip(0) =~= input);
    }
}

/// The group calls of a sequence, by its first call.
proof fn lemma_group_calls_cons(call: Call, rest: Seq<Call>)
    ensures
        group_calls(seq![call] + rest) == (match call {
            Call::Group { delimiter, body } => seq![Nest { delimiter, inside: group_calls(body) }]
                + group_calls(rest),
            _ => group_calls(rest),
        }),
{
    let all = seq![call] + rest;
    assert(all[0] == call);
    assert(all.skip(1) =~= rest);
}

/// The calls for a sequence of tokens hold a group call for each group, in
/// the same order, with the same delimiter and the same groups inside, and
/// no other group call: groups are nested in the calls exactly as deep as in
/// the tokens.
pub proof fn law_group_nesting(input: Seq<Tree>)
    ensures
        group_calls(plan(input)) == groups(input),
        depth(group_calls(plan(input))) == depth(groups(input)),
    decreases input,
{
    if input.len() > 0 {
        let rest = input.skip(1);
        match input[0] {
            Tree::Ident(_) => {
                let n = ident_run(input);
                lemma_ident_run_bound(input);
                lemma_groups_after_idents(input, n);
                law_group_nesting(input.skip(n as int));
                lemma_group_calls_cons(batch(run_names(input, n)), plan(input.skip(n as int)));
            },
            Tree::Punct { ch, spacing } => {
                if escapes(input) || fuses(input) {
                    assert(rest[0] == input[1]);
                    assert(rest.skip(1) =~= input.skip(2));
                    assert(groups(rest) == groups(rest.skip(1)));
                    law_group_nesting(input.skip(2));
                    if escapes(input) {
                        lemma_group_calls_cons(Call::Tokens { token: input[1] }, plan(input.skip(2)));
                    } else {
                        lemma_group_calls_cons(fused(ch, input[1]->ch), plan(input.skip(2)));
                    }
                } else {
                    law_group_nesting(rest);
                    lemma_group_calls_cons(single(ch, spacing), plan(rest));
                }
            },
            Tree::Group { delimiter, stream } => {
                law_group_nesting(stream);
                law_group_nesting(rest);
                lemma_group_calls_cons(Call::Group { delimiter, body: plan(stream) }, plan(rest));
            },
            Tree::Literal { text } => {
                law_group_nesting(rest);
                lemma_group_calls_cons(literal_call(text), plan(rest));
            },
        }
    }
}

/// The text is a string or character literal in the form in which the
/// token library prints one: the form that a value passed on is appended
/// in.
pub open spec fn printed(text: Seq<char>) -> bool {
    ||| exists|s: Seq<char>| text == #[trigger] string_literal_text(s)
    ||| exists|ch: char| text == #[trigger] char_literal_text(ch)
}

/// The token can be written down and read again: a plain identifier does
/// not start with the raw prefix; a literal starts with a digit, and is then
/// read again from its text, or is a string or character literal in printed
/// form, and is then passed on as the value that prints so; the tokens
/// inside a group can be written down and read again.
///
/// Left out are the literals that are passed on but do not print as they
/// are written: a string or character with an escape in another form, a raw
/// string, a byte or C string, a byte character.
pub open spec fn token_ok(token: Tree) -> bool
    decreases token,
{
    match token {
        Tree::Ident(name) => !name.raw ==> !has_raw_prefix(name.text),
        Tree::Literal { text } => numeric(text) || printed(text),
        Tree::Group { stream, .. } => forall|k: int|
            0 <= k < stream.len() ==> token_ok(#[trigger] stream[k]),
        _ => true,
    }
}

/// Every token of the sequence can be written down and read again.
pub open spec fn well_formed(input: Seq<Tree>) -> bool {
    forall|k: int| 0 <= k < input.len() ==> token_ok(#[trigger] input[k])
}

/// The token as the builder makes it anew: the same token, no identifier
/// in it with the location that it was taken from.
pub open spec fn unplaced(token: Tree) -> Tree
    decreases token,
{
    match token {
        Tree::Ident(name) => Tree::Ident(Name { text: name.text, raw: name.raw, span: None }),
        Tree::Group { delimiter, stream } => Tree::Group {
            delimiter,
            stream: unplaced_all(stream),
        },
        _ => token,
    }
}

/// The tokens as the builder makes them anew.
pub open spec fn unplaced_all(input: Seq<Tree>) -> Seq<Tree>
    decreases input,
{
    Seq::new(
        input.len(),
        |k: int|
            if 0 <= k < input.len() {
                unplaced(input[k])
            } else {
                arbitrary()
            },
    )
}

/// The sequence as the builder makes it anew, with each interpolation
/// replaced by what its variable holds.
pub open spec fn splice(input: Seq<Tree>, bindings: Bindings) -> Seq<Tree>
    decreases input,
{
    if input.len() == 0 {
        Seq::empty()
    } else if escapes(input) {
        passed_on(input[1], bindings) + splice(input.skip(2), bindings)
    } else {
        match input[0] {
            Tree::Group { delimiter, stream } => seq![
                Tree::Group { delimiter, stream: splice(stream, bindings) },
            ] + splice(input.skip(1), bindings),
            token => seq![unplaced(token)] + splice(input.skip(1), bindings),
        }
    }
}

/// The sequence holds an interpolation, at any depth.
pub open spec fn interpolates(input: Seq<Tree>) -> bool
    decreases input,
{
    if input.len() == 0 {
        false
    } else {
        ||| escapes(input)
        ||| match input[0] {
            Tree::Group { stream, .. } => interpolates(stream),
            _ => false,
        }
        ||| interpolates(input.skip(1))
    }
}

/// An identifier that is written down is read as itself, made anew.
proof fn lemma_written_back(name: Name)
    requires
        token_ok(Tree::Ident(name)),
    ensures
        ident_tree(ident_text(name)) == unplaced(Tree::Ident(name)),
{
    reveal_strlit("r#");
    if name.raw {
        let text = ident_text(name);
        assert(text[0] == 'r' && text[1] == '#');
        assert(text.skip(2) =~= name.text);
    }
}

/// Identifiers at the start of a sequence are made anew.
proof fn lemma_splice_idents(input: Seq<Tree>, n: nat, bindings: Bindings)
    requires
        n <= input.len(),
        forall|k: int| 0 <= k < n ==> input[k] is Ident,
    ensures
        splice(input, bindings) == unplaced_all(input.take(n as int)) + splice(
            input.skip(n as int),
            bindings,
        ),
    decreases n,
{
    if n > 0 {
        let rest = input.skip(1);
        assert forall|k: int| 0 <= k < n - 1 implies rest[k] is Ident by {
            assert(rest[k] == input[k + 1]);
        }
        lemma_splice_idents(rest, (n - 1) as nat, bindings);
        assert(rest.skip(n - 1) =~= input.skip(n as int));
        assert(seq![unplaced(input[0])] + unplaced_all(rest.take(n - 1)) =~= unplaced_all(
            input.take(n as int),
        ));
        assert(!escapes(input));
        assert(splice(input, bindings) =~= unplaced_all(input.take(n as int)) + splice(
            input.skip(n as int),
            bindings,
        ));
    } else {
        assert(input.skip(0) =~= input);
        assert(unplaced_all(input.take(0)) + splice(input, bindings) =~= splice(input, bindings));
    }
}

/// What a sequence of calls appends, by its first call.
proof fn lemma_run_cons(call: Call, rest: Seq<Call>, bindings: Bindings)
    ensures
        run(seq![call] + rest, bindings) == run_call(call, bindings) + run(rest, bindings),
{
    let all = seq![call] + rest;
    assert(all[0] == call);
    assert(all.skip(1) =~= rest);
}

/// What follows in a well-formed sequence is well formed.
proof fn lemma_well_formed_skip(input: Seq<Tree>, n: int)
    requires
        well_formed(input),
        0 <= n <= input.len(),
    ensures
        well_formed(input.skip(n)),
{
    let rest = input.skip(n);
    assert forall|k: int| 0 <= k < rest.len() implies token_ok(#[trigger] rest[k]) by {
        assert(rest[k] == input[k + n]);
    }
}

/// Running the calls for a sequence of tokens yields that sequence, with
/// each interpolation replaced by what its variable holds. This holds of
/// tokens that can be written down and read again; a literal that is passed
/// on is taken to be appended as it is written, which [`token_ok`] grants
/// for printed forms only.
pub proof fn law_expansion_runs(input: Seq<Tree>, bindings: Bindings)
    requires
        well_formed(input),
    ensures
        run(plan(input), bindings) == splice(input, bindings),
    decreases input,
{
    if input.len() > 0 {
        let rest = input.skip(1);
        assert(token_ok(input[0]));
        match input[0] {
            Tree::Ident(_) => {
                let n = ident_run(input);
                let names = run_names(input, n);
                lemma_ident_run_bound(input);
                lemma_splice_idents(input, n, bindings);
                lemma_well_formed_skip(input, n as int);
                law_expansion_runs(input.skip(n as int), bindings);
                lemma_run_cons(batch(names), plan(input.skip(n as int)), bindings);
                assert forall|k: int| 0 <= k < n implies ident_tree(names[k]) == unplaced(
                    input[k],
                ) by {
                    assert(token_ok(input[k]));
                    lemma_written_back(input[k]->Ident_0);
                }
                assert(ident_trees(names) =~= unplaced_all(input.take(n as int)));
                assert(run_call(batch(names), bindings) =~= ident_trees(names));
            },
            Tree::Punct { ch, spacing } => {
                if escapes(input) {
                    lemma_well_formed_skip(input, 2);
                    law_expansion_runs(input.skip(2), bindings);
                    lemma_run_cons(Call::Tokens { token: input[1] }, plan(input.skip(2)), bindings);
                } else if fuses(input) {
                    lemma_well_formed_skip(input, 2);
                    law_expansion_runs(input.skip(2), bindings);
                    lemma_run_cons(fused(ch, input[1]->ch), plan(input.skip(2)), bindings);
                    assert(rest[0] == input[1]);
                    assert(!escapes(rest));
                    assert(rest.skip(1) =~= input.skip(2));
                    assert(splice(rest, bindings) == seq![rest[0]] + splice(rest.skip(1), bindings));
                    assert(run_call(fused(ch, input[1]->ch), bindings) =~= seq![input[0], input[1]]);
                    assert(splice(input, bindings) =~= seq![input[0], input[1]] + splice(
                        input.skip(2),
                        bindings,
                    ));
                } else {
                    lemma_well_formed_skip(input, 1);
                    law_expansion_runs(rest, bindings);
                    lemma_run_cons(single(ch, spacing), plan(rest), bindings);
                    assert(run_call(single(ch, spacing), bindings) =~= seq![input[0]]);
                }
            },
            Tree::Group { delimiter, stream } => {
                assert(well_formed(stream));
                law_expansion_runs(stream, bindings);
                lemma_well_formed_skip(input, 1);
                law_expansion_runs(rest, bindings);
                lemma_run_cons(Call::Group { delimiter, body: plan(stream) }, plan(rest), bindings);
            },
            Tree::Literal { text } => {
                lemma_well_formed_skip(input, 1);
                law_expansion_runs(rest, bindings);
                lemma_run_cons(literal_call(text), plan(rest), bindings);
                assert(run_call(literal_call(text), bindings) =~= seq![input[0]]);
            },
        }
    }
}

/// A sequence without interpolation is made anew as it is.
proof fn lemma_splice_plain(input: Seq<Tree>, bindings: Bindings)
    requires
        !interpolates(input),
    ensures
        splice(input, bindings) == unplaced_all(input),
    decreases input,
{
    if input.len() > 0 {
        let rest = input.skip(1);
        lemma_splice_plain(rest, bindings);
        match input[0] {
            Tree::Group { delimiter, stream } => {
                lemma_splice_plain(stream, bindings);
            },
            _ => {},
        }
        assert(seq![unplaced(input[0])] + unplaced_all(rest) =~= unplaced_all(input));
    } else {
        assert(unplaced_all(input) =~= Seq::<Tree>::empty());
    }
}

/// Round trip: for a sequence of tokens that holds no interpolation,
/// running the calls that stand for it yields the sequence again: the same
/// tokens with the same text, spacing, delimiters and nesting, made anew
/// and so without the locations that identifiers were taken from. This
/// holds of tokens that can be written down and read again, see
/// [`token_ok`].
pub proof fn law_round_trip(input: Seq<Tree>, bindings: Bindings)
    requires
        well_formed(input),
        !interpolates(input),
    ensures
        run(plan(input), bindings) == unplaced_all(input),
{
    law_expansion_runs(input, bindings);
    lemma_splice_plain(input, bindings);
}

/// The token is one that the builder can make again: an identifier, raw
/// only where it may be and plain only where its text does not start with
/// the raw prefix; a punctuation character; a literal that, where it starts
/// with a digit, is read as one literal; a group of such tokens.
pub open spec fn token_made(token: Tree) -> bool
    decreases token,
{
    match token {
        Tree::Ident(name) => {
            &&& plain_name(name.text)
            &&& name.raw ==> !path_keyword(name.text)
            &&& !name.raw ==> !has_raw_prefix(name.text)
        },
        Tree::Punct { ch, .. } => punct_char(ch),
        Tree::Literal { text } => numeric(text) ==> literal_ok(text),
        Tree::Group { stream, .. } => forall|k: int|
            0 <= k < stream.len() ==> token_made(#[trigger] stream[k]),
    }
}

/// Every token of the sequence is one that the builder can make again.
pub open spec fn all_made(input: Seq<Tree>) -> bool {
    forall|k: int| 0 <= k < input.len() ==> token_made(#[trigger] input[k])
}

/// The call meets what the builder operation of its name asks for.
pub open spec fn call_admitted(call: Call) -> bool
    decreases call,
{
    match call {
        Call::Ident { name } => ident_name(name),
        Call::Idents { names } => forall|k: int|
            0 <= k < names.len() ==> ident_name(#[trigger] names[k]),
        Call::PunctJoin { ch } => punct_char(ch),
        Call::Punct { ch } => punct_char(ch),
        Call::Punct2 { ch } => punct_char(ch),
        Call::Puncts { first, second } => punct_char(first) && punct_char(second),
        Call::Group { body, .. } => forall|k: int|
            0 <= k < body.len() ==> call_admitted(#[trigger] body[k]),
        Call::ParsedLit { text } => literal_ok(text),
        Call::Tokens { .. } => true,
    }
}

/// Every call of the sequence meets what its builder operation asks for.
pub open spec fn all_admitted(calls: Seq<Call>) -> bool {
    forall|k: int| 0 <= k < calls.len() ==> call_admitted(#[trigger] calls[k])
}

/// The written form of an identifier that the builder can make is a
/// name that the builder takes.
proof fn lemma_name_admitted(name: Name)
    requires
        token_made(Tree::Ident(name)),
    ensures
        ident_name(ident_text(name)),
{
    reveal_strlit("r#");
    let text = ident_text(name);
    if name.raw {
        assert(text[0] == 'r' && text[1] == '#');
        assert(text.skip(2) =~= name.text);
    }
}

/// A call that is admitted before calls that are admitted.
proof fn lemma_admitted_cons(call: Call, rest: Seq<Call>)
    requires
        call_admitted(call),
        all_admitted(rest),
    ensures
        all_admitted(seq![call] + rest),
{
    let all = seq![call] + rest;
    assert forall|k: int| 0 <= k < all.len() implies call_admitted(#[trigger] all[k]) by {
        if k > 0 {
            assert(all[k] == rest[k - 1]);
        }
    }
}

/// What follows in a sequence of tokens that can be made can be made.
proof fn lemma_all_made_skip(input: Seq<Tree>, n: int)
    requires
        all_made(input),
        0 <= n <= input.len(),
    ensures
        all_made(input.skip(n)),
{
    let rest = input.skip(n);
    assert forall|k: int| 0 <= k < rest.len() implies token_made(#[trigger] rest[k]) by {
        assert(rest[k] == input[k + n]);
    }
}

/// The calls for tokens that the builder can make are calls that the
/// builder takes: a program written for such tokens runs to its end.
pub proof fn law_expansion_admitted(input: Seq<Tree>)
    requires
        all_made(input),
    ensures
        all_admitted(plan(input)),
    decreases input,
{
    if input.len() > 0 {
        let rest = input.skip(1);
        assert(token_made(input[0]));
        match input[0] {
            Tree::Ident(_) => {
                let n = ident_run(input);
                let names = run_names(input, n);
                lemma_ident_run_bound(input);
                lemma_all_made_skip(input, n as int);
                law_expansion_admitted(input.skip(n as int));
                assert forall|k: int| 0 <= k < n implies ident_name(#[trigger] names[k]) by {
                    assert(token_made(input[k]));
                    lemma_name_admitted(input[k]->Ident_0);
                }
                lemma_admitted_cons(batch(names), plan(input.skip(n as int)));
            },
            Tree::Punct { ch, spacing } => {
                if escapes(input) {
                    lemma_all_made_skip(input, 2);
                    law_expansion_admitted(input.skip(2));
                    lemma_admitted_cons(Call::Tokens { token: input[1] }, plan(input.skip(2)));
                } else if fuses(input) {
                    assert(token_made(input[1]));
                    lemma_all_made_skip(input, 2);
                    law_expansion_admitted(input.skip(2));
                    lemma_admitted_cons(fused(ch, input[1]->ch), plan(input.skip(2)));
                } else {
                    lemma_all_made_skip(input, 1);
                    law_expansion_admitted(rest);
                    lemma_admitted_cons(single(ch, spacing), plan(rest));
                }
            },
            Tree::Group { delimiter, stream } => {
                assert(all_made(stream));
                law_expansion_admitted(stream);
                lemma_all_made_skip(input, 1);
                law_expansion_admitted(rest);
                lemma_admitted_cons(Call::Group { delimiter, body: plan(stream) }, plan(rest));
            },
            Tree::Literal { text } => {
                lemma_all_made_skip(input, 1);
                law_expansion_admitted(rest);
                lemma_admitted_cons(literal_call(text), plan(rest));
            },
        }
    }
}

/// Every call is written as one statement of five tokens: the target, a
/// dot, the operation's name, the arguments in parentheses and a semicolon.
/// So a program has as many statements as there are calls.
pub proof fn law_one_statement_per_call(calls: Seq<Call>, target: Name, span: Option<Name>)
    ensures
        render(calls, target, span).len() == 5 * calls.len(),
        forall|k: int|
            0 <= k < calls.len() ==> render(calls, target, span).subrange(5 * k, 5 * k + 5)
                == render_call(#[trigger] calls[k], target, span),
    decreases calls.len(),
{
    if calls.len() > 0 {
        let front = calls.drop_last();
        let all = render(calls, target, span);
        law_one_statement_per_call(front, target, span);
        assert(render_call(calls.last(), target, span).len() == 5);
        assert forall|k: int| 0 <= k < calls.len() implies all.subrange(5 * k, 5 * k + 5)
            == render_call(#[trigger] calls[k], target, span) by {
            if k < front.len() {
                assert(calls[k] == front[k]);
                assert(all.subrange(5 * k, 5 * k + 5) =~= render(front, target, span).subrange(
                    5 * k,
                    5 * k + 5,
                ));
            } else {
                assert(all.subrange(5 * k, 5 * k + 5) =~= render_call(
                    calls.last(),
                    target,
                    span,
                ));
            }
        }
    }
}

} // verus!
