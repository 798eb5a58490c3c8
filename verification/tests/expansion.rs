use proc_macro2::{TokenStream, TokenTree};
use quote2::macros::{expend, quote, quote_spanned, tt};
use quote2::token::{Delimiter, Ident, Spacing, Token};

fn convert(stream: TokenStream) -> Vec<Token> {
    stream
        .into_iter()
        .map(|tree| match tree {
            TokenTree::Ident(ident) => {
                let text = ident.to_string();
                let span = Some(ident.span());
                match text.strip_prefix("r#") {
                    Some(rest) => Token::Ident(Ident { name: rest.to_string(), raw: true, span }),
                    None => Token::Ident(Ident { name: text, raw: false, span }),
                }
            }
            TokenTree::Punct(punct) => Token::Punct {
                ch: punct.as_char(),
                spacing: match punct.spacing() {
                    proc_macro2::Spacing::Alone => Spacing::Alone,
                    proc_macro2::Spacing::Joint => Spacing::Joint,
                },
            },
            TokenTree::Literal(literal) => Token::Literal { text: literal.to_string() },
            TokenTree::Group(group) => Token::Group {
                delimiter: match group.delimiter() {
                    proc_macro2::Delimiter::Parenthesis => Delimiter::Parenthesis,
                    proc_macro2::Delimiter::Brace => Delimiter::Brace,
                    proc_macro2::Delimiter::Bracket => Delimiter::Bracket,
                    proc_macro2::Delimiter::None => Delimiter::Invisible,
                },
                stream: convert(group.stream()),
            },
        })
        .collect()
}

fn lex(source: &str) -> Vec<Token> {
    convert(source.parse::<TokenStream>().unwrap())
}

fn name(text: &str) -> Ident {
    Ident { name: text.to_string(), raw: false, span: None }
}

fn expand(source: &str) -> Vec<Token> {
    let mut output = Vec::new();
    expend(&lex(source), &mut output, None, &name("v"));
    output
}

fn expand_at(source: &str) -> Vec<Token> {
    let mut output = Vec::new();
    expend(&lex(source), &mut output, Some(&name("sp")), &name("v"));
    output
}

fn count_calls(program: &[Token], method: &str) -> usize {
    let mut count = 0;
    for token in program {
        match token {
            Token::Ident(ident) if ident.name == method => count += 1,
            Token::Group { stream, .. } => count += count_calls(stream, method),
            _ => {}
        }
    }
    count
}

#[test]
fn concrete_scenario() {
    assert_eq!(
        expand("foo bar , # baz { 1 }"),
        lex(
            "v.add_idents([\"foo\", \"bar\"]); \
             v.add_punct(','); \
             v.add_tokens(&baz); \
             v.add_group('{', |__o| { __o.add_parsed_lit(\"1\"); });"
        )
    );
}

#[test]
fn empty_input_gives_no_statement() {
    assert_eq!(expand(""), Vec::new());
}

#[test]
fn output_is_appended_to_what_is_there() {
    let mut output = lex("before;");
    expend(&lex("x"), &mut output, None, &name("v"));
    assert_eq!(output, lex("before; v.add_ident(\"x\");"));
}

#[test]
fn one_identifier_before_punctuation_is_a_singular_call() {
    assert_eq!(expand("foo ;"), lex("v.add_ident(\"foo\"); v.add_punct(';');"));
}

#[test]
fn many_identifiers_before_punctuation_are_one_plural_call() {
    let program = expand("pub unsafe fn main ;");
    assert_eq!(
        program,
        lex("v.add_idents([\"pub\", \"unsafe\", \"fn\", \"main\"]); v.add_punct(';');")
    );
    assert_eq!(count_calls(&program, "add_idents"), 1);
    assert_eq!(count_calls(&program, "add_ident"), 0);
}

#[test]
fn identifiers_at_the_end_are_flushed() {
    assert_eq!(expand("a b"), lex("v.add_idents([\"a\", \"b\"]);"));
    assert_eq!(expand("; a"), lex("v.add_punct(';'); v.add_ident(\"a\");"));
}

#[test]
fn a_batch_is_not_joined_across_another_token() {
    assert_eq!(
        expand("a b 1 c d"),
        lex(
            "v.add_idents([\"a\", \"b\"]); v.add_parsed_lit(\"1\"); \
             v.add_idents([\"c\", \"d\"]);"
        )
    );
}

#[test]
fn a_raw_identifier_keeps_its_prefix_in_the_call() {
    assert_eq!(expand("r#type"), lex("v.add_ident(\"r#type\");"));
    assert_eq!(expand("a r#fn"), lex("v.add_idents([\"a\", \"r#fn\"]);"));
}

#[test]
fn escape_marker_passes_the_identifier_on() {
    let program = expand("x # foo y");
    assert_eq!(
        program,
        lex("v.add_ident(\"x\"); v.add_tokens(&foo); v.add_ident(\"y\");")
    );
    assert_eq!(count_calls(&program, "add_tokens"), 1);
}

#[test]
fn escape_marker_inside_a_group() {
    assert_eq!(
        expand("( # foo )"),
        lex("v.add_group('(', |__o| { __o.add_tokens(&foo); });")
    );
}

#[test]
fn escape_marker_at_the_end_is_plain_punctuation() {
    assert_eq!(expand("a #"), lex("v.add_ident(\"a\"); v.add_punct('#');"));
}

#[test]
fn escape_marker_before_another_token_is_plain_punctuation() {
    assert_eq!(expand("# 1"), lex("v.add_punct('#'); v.add_parsed_lit(\"1\");"));
    assert_eq!(
        expand("# [ a ]"),
        lex("v.add_punct('#'); v.add_group('[', |__o| { __o.add_ident(\"a\"); });")
    );
}

#[test]
fn two_escapes_in_a_row() {
    assert_eq!(expand("# a # b"), lex("v.add_tokens(&a); v.add_tokens(&b);"));
}

#[test]
fn joint_then_alone_fuses_into_one_call() {
    let program = expand("+=");
    assert_eq!(program, lex("v.add_puncts('+', '=');"));
    assert_eq!(count_calls(&program, "add_puncts"), 1);
}

#[test]
fn doubled_punctuation_fuses_into_the_doubled_call() {
    assert_eq!(expand("++"), lex("v.add_punct2('+');"));
    assert_eq!(expand("a :: b"), lex("v.add_ident(\"a\"); v.add_punct2(':'); v.add_ident(\"b\");"));
}

#[test]
fn separate_punctuation_is_not_fused() {
    assert_eq!(expand("+ ="), lex("v.add_punct('+'); v.add_punct('=');"));
}

#[test]
fn three_joined_characters() {
    assert_eq!(expand("<<="), lex("v.add_punct_join('<'); v.add_puncts('<', '=');"));
    assert_eq!(expand("..."), lex("v.add_punct_join('.'); v.add_punct2('.');"));
}

#[test]
fn joint_punctuation_before_the_marker_is_not_fused() {
    let input = vec![
        Token::Punct { ch: '+', spacing: Spacing::Joint },
        Token::Punct { ch: '#', spacing: Spacing::Alone },
        Token::Ident(name("foo")),
    ];
    let mut output = Vec::new();
    expend(&input, &mut output, None, &name("v"));
    assert_eq!(output, lex("v.add_punct_join('+'); v.add_tokens(&foo);"));

    let input = vec![
        Token::Punct { ch: '+', spacing: Spacing::Joint },
        Token::Punct { ch: '#', spacing: Spacing::Alone },
    ];
    let mut output = Vec::new();
    expend(&input, &mut output, None, &name("v"));
    assert_eq!(output, lex("v.add_punct_join('+'); v.add_punct('#');"));
}

#[test]
fn joint_marker_before_punctuation_fuses() {
    let input = vec![
        Token::Punct { ch: '#', spacing: Spacing::Joint },
        Token::Punct { ch: '!', spacing: Spacing::Alone },
    ];
    let mut output = Vec::new();
    expend(&input, &mut output, None, &name("v"));
    assert_eq!(output, lex("v.add_puncts('#', '!');"));
}

#[test]
fn joint_punctuation_at_the_end() {
    let input = vec![Token::Punct { ch: '+', spacing: Spacing::Joint }];
    let mut output = Vec::new();
    expend(&input, &mut output, None, &name("v"));
    assert_eq!(output, lex("v.add_punct_join('+');"));
}

#[test]
fn quote_character_is_escaped_in_the_call() {
    assert_eq!(
        expand("'a"),
        lex("v.add_punct_join('\\''); v.add_ident(\"a\");")
    );
}

#[test]
fn each_delimiter_has_its_character() {
    assert_eq!(expand("{ }"), lex("v.add_group('{', |__o| { });"));
    assert_eq!(expand("[ ]"), lex("v.add_group('[', |__o| { });"));
    assert_eq!(expand("( )"), lex("v.add_group('(', |__o| { });"));
    let input = vec![Token::Group { delimiter: Delimiter::Invisible, stream: lex("a") }];
    let mut output = Vec::new();
    expend(&input, &mut output, None, &name("v"));
    assert_eq!(output, lex("v.add_group('_', |__o| { __o.add_ident(\"a\"); });"));
}

#[test]
fn nested_groups_give_nested_calls() {
    let program = expand("{ [ ( a ) ] }");
    assert_eq!(
        program,
        lex(
            "v.add_group('{', |__o| { \
                __o.add_group('[', |__o| { \
                    __o.add_group('(', |__o| { __o.add_ident(\"a\"); }); \
                }); \
             });"
        )
    );
    assert_eq!(count_calls(&program, "add_group"), 3);
}

#[test]
fn a_group_breaks_a_batch() {
    assert_eq!(
        expand("a ( b ) c"),
        lex(
            "v.add_ident(\"a\"); v.add_group('(', |__o| { __o.add_ident(\"b\"); }); \
             v.add_ident(\"c\");"
        )
    );
}

#[test]
fn numeric_literals_are_parsed_again_from_text() {
    assert_eq!(expand("1"), lex("v.add_parsed_lit(\"1\");"));
    assert_eq!(expand("1.5f32"), lex("v.add_parsed_lit(\"1.5f32\");"));
    assert_eq!(expand("0xffu8"), lex("v.add_parsed_lit(\"0xffu8\");"));
}

#[test]
fn other_literals_are_passed_on() {
    assert_eq!(expand("\"hi\""), lex("v.add_tokens(&\"hi\");"));
    assert_eq!(expand("'c'"), lex("v.add_tokens(& 'c');"));
    assert_eq!(expand("b\"x\""), lex("v.add_tokens(&b\"x\");"));
}

#[test]
fn a_location_is_the_first_argument_of_every_call() {
    assert_eq!(
        expand_at("a b ; c += 1 ++ , ( x )"),
        lex(
            "v.add_idents_span(sp, [\"a\", \"b\"]); \
             v.add_punct_span(sp, ';'); \
             v.add_ident_span(sp, \"c\"); \
             v.add_puncts_span(sp, '+', '='); \
             v.add_parsed_lit_span(sp, \"1\"); \
             v.add_punct2_span(sp, '+'); \
             v.add_punct_span(sp, ','); \
             v.add_group_span(sp, '(', |__o| { __o.add_ident_span(sp, \"x\"); });"
        )
    );
}

#[test]
fn a_joint_character_with_a_location() {
    let input = vec![Token::Punct { ch: '+', spacing: Spacing::Joint }];
    let mut output = Vec::new();
    expend(&input, &mut output, Some(&name("sp")), &name("v"));
    assert_eq!(output, lex("v.add_punct_join_span(sp, '+');"));
}

#[test]
fn passing_on_takes_no_location() {
    assert_eq!(
        expand_at("# foo \"s\""),
        lex("v.add_tokens(&foo); v.add_tokens(&\"s\");")
    );
}

#[test]
fn quote_reads_target_and_body() {
    assert_eq!(
        quote(&lex("tokens, { fn f() {} }")),
        lex(
            "tokens.add_idents([\"fn\", \"f\"]); \
             tokens.add_group('(', |__o| { }); \
             tokens.add_group('{', |__o| { });"
        )
    );
}

#[test]
fn quote_takes_any_separator_and_any_group() {
    let input = vec![
        Token::Ident(name("out")),
        Token::Literal { text: "0".to_string() },
        Token::Group { delimiter: Delimiter::Parenthesis, stream: lex("a") },
    ];
    assert_eq!(quote(&input), lex("out.add_ident(\"a\");"));
}

#[test]
fn quote_ignores_what_follows_the_body() {
    assert_eq!(quote(&lex("out, { a } b c")), lex("out.add_ident(\"a\");"));
}

#[test]
fn quote_spanned_reads_location_target_and_body() {
    assert_eq!(
        quote_spanned(&lex("span, out, { a + b }")),
        lex(
            "out.add_ident_span(span, \"a\"); \
             out.add_punct_span(span, '+'); \
             out.add_ident_span(span, \"b\");"
        )
    );
}

#[test]
fn constructors_make_the_tokens_they_name() {
    assert_eq!(tt::punct_joined(':'), Token::Punct { ch: ':', spacing: Spacing::Joint });
    assert_eq!(tt::punct(':'), Token::Punct { ch: ':', spacing: Spacing::Alone });
    assert_eq!(tt::ident("abc"), Token::Ident(name("abc")));
    assert_eq!(tt::char('x'), Token::Literal { text: "'x'".to_string() });
    assert_eq!(tt::char('\''), Token::Literal { text: "'\\''".to_string() });
    assert_eq!(tt::char('"'), Token::Literal { text: "'\"'".to_string() });
}

#[test]
fn group_constructor_maps_the_delimiter() {
    let fill = |stream: &mut Vec<Token>| stream.push(tt::ident("a"));
    assert_eq!(
        tt::group('{', fill),
        Token::Group { delimiter: Delimiter::Brace, stream: lex("a") }
    );
    assert_eq!(
        tt::group('[', fill),
        Token::Group { delimiter: Delimiter::Bracket, stream: lex("a") }
    );
    assert_eq!(
        tt::group('(', fill),
        Token::Group { delimiter: Delimiter::Parenthesis, stream: lex("a") }
    );
    assert_eq!(
        tt::group('_', fill),
        Token::Group { delimiter: Delimiter::Invisible, stream: lex("a") }
    );
    assert_eq!(
        tt::group('x', fill),
        Token::Group { delimiter: Delimiter::Invisible, stream: lex("a") }
    );
}

#[test]
fn a_function_with_an_interpolated_name() {
    let mut output = Vec::new();
    expend(&lex("fn #name() { 1 }"), &mut output, None, &name("out"));
    assert_eq!(
        output,
        lex(
            "out.add_ident(\"fn\"); \
             out.add_tokens(&name); \
             out.add_group('(', |__o| {}); \
             out.add_group('{', |__o| { __o.add_parsed_lit(\"1\"); });"
        )
    );
}

#[test]
fn only_the_marker_character_interpolates() {
    assert_eq!(
        expand("$ foo"),
        lex("v.add_punct('$'); v.add_ident(\"foo\");")
    );
}

#[test]
fn the_marker_takes_a_raw_identifier_too() {
    let program = expand("# r#type");
    assert_eq!(
        program,
        vec![
            tt::ident("v"),
            tt::punct('.'),
            tt::ident("add_tokens"),
            Token::Group {
                delimiter: Delimiter::Parenthesis,
                stream: vec![
                    tt::punct('&'),
                    Token::Ident(Ident { name: "type".to_string(), raw: true, span: None }),
                ],
            },
            tt::punct(';'),
        ]
    );
}

fn placed(program: &[Token]) -> Vec<(String, bool)> {
    let mut found = Vec::new();
    for token in program {
        match token {
            Token::Ident(ident) => found.push((ident.name.clone(), ident.span.is_some())),
            Token::Group { stream, .. } => found.extend(placed(stream)),
            _ => {}
        }
    }
    found
}

fn told(pairs: &[(&str, bool)]) -> Vec<(String, bool)> {
    pairs.iter().map(|(name, taken)| (name.to_string(), *taken)).collect()
}

#[test]
fn identifiers_taken_from_the_input_keep_their_location() {
    let target = Ident {
        name: "out".to_string(),
        raw: false,
        span: Some(proc_macro2::Span::call_site()),
    };
    let mut program = Vec::new();
    expend(&lex("a # x ( # y )"), &mut program, None, &target);
    assert_eq!(
        placed(&program),
        told(&[
            ("out", true),
            ("add_ident", false),
            ("out", true),
            ("add_tokens", false),
            ("x", true),
            ("out", true),
            ("add_group", false),
            ("__o", false),
            ("__o", false),
            ("add_tokens", false),
            ("y", true),
        ])
    );
}

#[test]
fn the_location_handle_keeps_its_location() {
    let program = quote_spanned(&lex("sp, out, { a }"));
    assert_eq!(
        placed(&program),
        told(&[("out", true), ("add_ident_span", false), ("sp", true)])
    );
    let program = quote(&lex("out, { ( a ) }"));
    assert_eq!(
        placed(&program),
        told(&[
            ("out", true),
            ("add_group", false),
            ("__o", false),
            ("__o", false),
            ("add_ident", false),
        ])
    );
}
