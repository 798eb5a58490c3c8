use proc_macro2::{Delimiter, Span, TokenStream, TokenTree};
use quote2::macros::expend;
use quote2::token::{Ident, Token};
use quote2::{quote, tt, Quote, QuoteFn};

fn parse(source: &str) -> TokenStream {
    source.parse::<TokenStream>().unwrap()
}

fn convert(stream: TokenStream) -> Vec<Token> {
    stream
        .into_iter()
        .map(|tree| match tree {
            TokenTree::Ident(ident) => {
                let text = ident.to_string();
                let span = Some(ident.span());
                match text.strip_prefix("r#") {
                    Some(rest) => Token::Ident(Ident { name: rest.to_string(), raw: true, span }),
                    None => Token::Ident(Ident { name: text, raw: false, span }),
                }
            }
            TokenTree::Punct(punct) => Token::Punct {
                ch: punct.as_char(),
                spacing: match punct.spacing() {
                    proc_macro2::Spacing::Alone => quote2::token::Spacing::Alone,
                    proc_macro2::Spacing::Joint => quote2::token::Spacing::Joint,
                },
            },
            TokenTree::Literal(literal) => Token::Literal { text: literal.to_string() },
            TokenTree::Group(group) => Token::Group {
                delimiter: match group.delimiter() {
                    Delimiter::Parenthesis => quote2::token::Delimiter::Parenthesis,
                    Delimiter::Brace => quote2::token::Delimiter::Brace,
                    Delimiter::Bracket => quote2::token::Delimiter::Bracket,
                    Delimiter::None => quote2::token::Delimiter::Invisible,
                },
                stream: convert(group.stream()),
            },
        })
        .collect()
}

fn text_of(token: &Token) -> String {
    match token {
        Token::Literal { text } => text.clone(),
        Token::Ident(ident) => ident.name.clone(),
        other => panic!("no text in {:?}", other),
    }
}

fn unquote(token: &Token) -> String {
    let text = text_of(token);
    text[1..text.len() - 1].to_string()
}

fn unquote_char(token: &Token) -> char {
    let text = unquote(token);
    if text == "\\'" {
        '\''
    } else {
        text.chars().next().unwrap()
    }
}

fn inside(token: &Token) -> &Vec<Token> {
    match token {
        Token::Group { stream, .. } => stream,
        other => panic!("no group: {:?}", other),
    }
}

fn run(program: &[Token], target: &str, out: &mut TokenStream, held: &dyn Fn(&str) -> TokenStream) {
    assert_eq!(program.len() % 5, 0);
    for statement in program.chunks(5) {
        assert_eq!(text_of(&statement[0]), target);
        assert!(matches!(statement[1], Token::Punct { ch: '.', .. }));
        assert!(matches!(statement[4], Token::Punct { ch: ';', .. }));
        let arguments = inside(&statement[3]);
        match text_of(&statement[2]).as_str() {
            "add_ident" => out.add_ident(&unquote(&arguments[0])),
            "add_idents" => {
                let names: Vec<String> = inside(&arguments[0])
                    .iter()
                    .filter(|token| matches!(token, Token::Literal { .. }))
                    .map(unquote)
                    .collect();
                match names.len() {
                    2 => out.add_idents([names[0].as_str(), names[1].as_str()]),
                    3 => out.add_idents([names[0].as_str(), names[1].as_str(), names[2].as_str()]),
                    n => panic!("{} names", n),
                }
            }
            "add_punct_join" => out.add_punct_join(unquote_char(&arguments[0])),
            "add_punct" => out.add_punct(unquote_char(&arguments[0])),
            "add_punct2" => out.add_punct2(unquote_char(&arguments[0])),
            "add_puncts" => {
                out.add_puncts(unquote_char(&arguments[0]), unquote_char(&arguments[2]))
            }
            "add_group" => {
                assert_eq!(text_of(&arguments[3]), "__o");
                out.add_group(unquote_char(&arguments[0]), |inner| {
                    run(inside(&arguments[5]), "__o", inner, held)
                })
            }
            "add_parsed_lit" => out.add_parsed_lit(&unquote(&arguments[0])),
            "add_tokens" => match &arguments[1] {
                Token::Ident(ident) => out.add_tokens(held(&ident.name)),
                Token::Literal { text } => out.add_tokens(parse(text)),
                other => panic!("cannot pass on {:?}", other),
            },
            other => panic!("no operation {}", other),
        }
    }
}

fn expand_and_run(source: &str, held: &dyn Fn(&str) -> TokenStream) -> TokenStream {
    let mut program = Vec::new();
    let target = Ident { name: "out".to_string(), raw: false, span: None };
    expend(&convert(parse(source)), &mut program, None, &target);
    let mut out = TokenStream::new();
    run(&program, "out", &mut out, held);
    out
}

fn nothing_held(name: &str) -> TokenStream {
    panic!("no variable {}", name)
}

#[test]
fn round_trip_of_a_function() {
    let source = "pub fn add(a: i32, b: i32) -> i32 { let r#type = [a, b]; a + b * 2u8 }";
    let out = expand_and_run(source, &nothing_held);
    assert_eq!(convert(out), convert(parse(source)));
}

#[test]
fn round_trip_keeps_spacing() {
    let source = "a += b; c <<= 1; x :: y; z ... w; 'l: loop {}";
    let out = expand_and_run(source, &nothing_held);
    assert_eq!(convert(out), convert(parse(source)));
}

#[test]
fn round_trip_keeps_literals() {
    let source = "1 1.5f32 0xff \"text\" 'c' 1e10 7usize";
    let out = expand_and_run(source, &nothing_held);
    assert_eq!(convert(out), convert(parse(source)));
}

#[test]
fn round_trip_keeps_nesting() {
    let source = "{ [ ( a { b } ) ] ( ) } [ [ 1 ] ]";
    let out = expand_and_run(source, &nothing_held);
    assert_eq!(convert(out), convert(parse(source)));
}

#[test]
fn interpolation_is_replaced_by_what_the_variable_holds() {
    let held = |name: &str| match name {
        "body" => parse("x + 1"),
        "name" => parse("f"),
        other => panic!("no variable {}", other),
    };
    let out = expand_and_run("fn #name() { #body }", &held);
    assert_eq!(convert(out), convert(parse("fn f() { x + 1 }")));
}

#[test]
fn punctuation_is_appended_with_its_spacing() {
    let mut stream = TokenStream::new();
    stream.add_punct_join('+');
    stream.add_punct('=');
    assert_eq!(convert(stream), convert(parse("+=")));
}

#[test]
fn doubled_punctuation_is_the_two_calls() {
    let mut fused = TokenStream::new();
    fused.add_punct2(':');
    let mut manual = TokenStream::new();
    manual.add_punct_join(':');
    manual.add_punct(':');
    assert_eq!(fused.to_string(), manual.to_string());
    assert_eq!(convert(fused), convert(parse("::")));
}

#[test]
fn paired_punctuation_is_the_two_calls() {
    let mut fused = TokenStream::new();
    fused.add_puncts('-', '>');
    let mut manual = TokenStream::new();
    manual.add_punct_join('-');
    manual.add_punct('>');
    assert_eq!(fused.to_string(), manual.to_string());
    assert_eq!(convert(fused), convert(parse("->")));
}

#[test]
fn identifiers_plain_and_raw() {
    let mut stream = TokenStream::new();
    stream.add_ident("foo");
    stream.add_ident("r#type");
    stream.add_ident("_");
    stream.add_ident("fn");
    assert_eq!(convert(stream), convert(parse("foo r#type _ fn")));
}

#[test]
fn raw_identifier_loses_its_prefix() {
    match tt::ident("r#match") {
        TokenTree::Ident(ident) => {
            assert_eq!(ident, proc_macro2::Ident::new_raw("match", Span::call_site()))
        }
        other => panic!("no identifier: {:?}", other),
    }
    match tt::ident("match") {
        TokenTree::Ident(ident) => {
            assert_eq!(ident, proc_macro2::Ident::new("match", Span::call_site()))
        }
        other => panic!("no identifier: {:?}", other),
    }
}

#[test]
fn many_identifiers_in_order() {
    let mut many = TokenStream::new();
    many.add_idents(["a", "r#b", "c"]);
    let mut manual = TokenStream::new();
    manual.add_ident("a");
    manual.add_ident("r#b");
    manual.add_ident("c");
    assert_eq!(many.to_string(), manual.to_string());
    assert_eq!(convert(many), convert(parse("a r#b c")));
}

#[test]
fn no_identifiers_leave_the_stream() {
    let mut stream = parse("x");
    let names: [&str; 0] = [];
    stream.add_idents(names);
    assert_eq!(convert(stream), convert(parse("x")));
}

#[test]
fn group_holds_what_the_callback_adds() {
    let mut stream = TokenStream::new();
    stream.add_ident("a");
    stream.add_group('(', |inner| {
        inner.add_ident("b");
        inner.add_group('[', |inner| inner.add_parsed_lit("1"));
    });
    assert_eq!(convert(stream), convert(parse("a ( b [ 1 ] )")));
}

#[test]
fn group_delimiters() {
    assert_eq!(quote2::stream::group('{', |_| {}).delimiter(), Delimiter::Brace);
    assert_eq!(quote2::stream::group('[', |_| {}).delimiter(), Delimiter::Bracket);
    assert_eq!(quote2::stream::group('(', |_| {}).delimiter(), Delimiter::Parenthesis);
    assert_eq!(quote2::stream::group('_', |_| {}).delimiter(), Delimiter::None);
    assert_eq!(quote2::stream::group('x', |_| {}).delimiter(), Delimiter::None);
    let group = quote2::stream::group('{', |inner| inner.add_ident("a"));
    assert_eq!(group.stream().to_string(), "a");
}

#[test]
fn parsed_literal_keeps_its_text() {
    let mut stream = TokenStream::new();
    stream.add_parsed_lit("1u8");
    stream.add_parsed_lit("\"s\"");
    stream.add_parsed_lit("2.5e3");
    assert_eq!(convert(stream), convert(parse("1u8 \"s\" 2.5e3")));
}

#[test]
fn negative_literal_is_taken_up_as_sign_and_number() {
    let mut stream = TokenStream::new();
    stream.add_parsed_lit("-1");
    let tokens = convert(stream);
    assert_eq!(
        tokens,
        vec![
            Token::Punct { ch: '-', spacing: quote2::token::Spacing::Alone },
            Token::Literal { text: "1".to_string() },
        ]
    );
    match tt::parsed_lit("-1") {
        TokenTree::Literal(literal) => assert_eq!(literal.to_string(), "-1"),
        other => panic!("no literal: {:?}", other),
    }
}

#[test]
fn text_that_is_no_literal_is_not_added() {
    let mut stream = parse("x");
    assert!(!stream.try_add_parsed_lit("abc"));
    assert!(!stream.try_add_parsed_lit("1 2"));
    assert!(!stream.try_add_parsed_lit(""));
    assert!(!stream.try_add_parsed_lit("-"));
    assert!(!stream.try_add_parsed_lit(" 1"));
    assert_eq!(stream.to_string(), "x");
    assert!(stream.try_add_parsed_lit("12"));
    assert!(stream.try_add_parsed_lit_span(Span::call_site(), "'c'"));
    assert!(!stream.try_add_parsed_lit_span(Span::call_site(), "c"));
    assert_eq!(convert(stream), convert(parse("x 12 'c'")));
}

#[test]
fn literal_test_and_constructor_agree() {
    assert!(tt::is_literal("0x1f"));
    assert!(!tt::is_literal("x1f"));
    assert!(tt::try_parsed_lit("x1f").is_none());
    assert_eq!(tt::try_parsed_lit("0x1f").unwrap().to_string(), "0x1f");
    assert!(tt::try_parsed_lit_span(Span::call_site(), "+").is_none());
    assert_eq!(tt::try_parsed_lit_span(Span::call_site(), "1.0").unwrap().to_string(), "1.0");
}

#[test]
fn tokens_are_appended_as_they_stand() {
    let mut stream = parse("a");
    stream.add_tokens(parse("b + ( c )"));
    stream.add_tokens(TokenStream::new());
    assert_eq!(convert(stream), convert(parse("a b + ( c )")));
}

#[test]
fn one_token_is_appended() {
    let mut stream = parse("a");
    stream.add_token(tt::punct(','));
    stream.add_token(tt::group('{', |inner| inner.add_ident("b")));
    assert_eq!(convert(stream), convert(parse("a , { b }")));
}

#[test]
fn operations_with_a_location_append_the_same_tokens() {
    let span = Span::call_site();
    let mut stream = TokenStream::new();
    stream.add_ident_span(span, "a");
    stream.add_punct_join_span(span, '=');
    stream.add_punct_span(span, '=');
    stream.add_idents_span(span, ["b", "r#c"]);
    stream.add_punct2_span(span, '&');
    stream.add_parsed_lit_span(span, "1");
    stream.add_puncts_span(span, '.', '=');
    stream.add_group_span(span, '[', |inner| inner.add_ident_span(span, "d"));
    assert_eq!(convert(stream), convert(parse("a == b r#c && 1 .= [ d ]")));
}

#[test]
fn constructors_with_a_location() {
    let span = Span::call_site();
    assert_eq!(tt::punct_join_span(span, '+').to_string(), "+");
    assert_eq!(tt::punct_span(span, '+').to_string(), "+");
    assert_eq!(tt::ident_span(span, "r#x").to_string(), "r#x");
    assert_eq!(tt::parsed_lit_span(span, "3").to_string(), "3");
    let group = tt::group_span(span, '(', |inner| inner.add_ident("y"));
    assert_eq!(convert(TokenStream::from(group)), convert(parse("( y )")));
    match tt::punct_join('+') {
        TokenTree::Punct(punct) => assert_eq!(punct.spacing(), proc_macro2::Spacing::Joint),
        other => panic!("no punctuation: {:?}", other),
    }
    match tt::punct('+') {
        TokenTree::Punct(punct) => assert_eq!(punct.spacing(), proc_macro2::Spacing::Alone),
        other => panic!("no punctuation: {:?}", other),
    }
}

#[test]
fn a_builder_runs_its_function() {
    let builder = quote(|tokens: &mut TokenStream| tokens.add_ident("x"));
    let mut stream = parse("a");
    builder.to_tokens(&mut stream);
    builder.to_tokens(&mut stream);
    assert_eq!(stream.to_string(), "a x x");
    let same: QuoteFn<u8> = QuoteFn::from(7);
    assert_eq!(same.0, 7);
}

#[test]
fn identifiers_beyond_ascii() {
    let mut stream = TokenStream::new();
    stream.add_ident("caf\u{e9}");
    stream.add_ident("r#\u{e9}t\u{e9}");
    stream.add_idents(["\u{3b1}\u{3b2}", "_x1", "\u{540d}\u{524d}"]);
    assert_eq!(
        convert(stream),
        convert(parse("caf\u{e9} r#\u{e9}t\u{e9} \u{3b1}\u{3b2} _x1 \u{540d}\u{524d}"))
    );
    match tt::ident("na\u{ef}ve") {
        TokenTree::Ident(ident) => {
            assert_eq!(ident, proc_macro2::Ident::new("na\u{ef}ve", Span::call_site()))
        }
        other => panic!("no identifier: {:?}", other),
    }
}

#[test]
fn round_trip_of_identifiers_beyond_ascii() {
    let source = "let caf\u{e9} = r#\u{e9}t\u{e9} + \u{3b1}\u{3b2};";
    let out = expand_and_run(source, &nothing_held);
    assert_eq!(convert(out), convert(parse(source)));
}

#[test]
fn names_that_are_identifiers() {
    for name in [
        "a", "_", "_a", "a1", "fn", "self", "Self", "crate", "super", "caf\u{e9}", "\u{e9}",
        "r#a", "r#fn", "r#match", "r#\u{e9}", "r", "r1", "__o",
    ] {
        assert!(tt::is_ident_name(name), "{name}");
        assert_eq!(tt::try_ident(name).unwrap().to_string(), name);
        assert_eq!(tt::try_ident_span(Span::call_site(), name).unwrap().to_string(), name);
    }
}

#[test]
fn names_that_are_no_identifiers() {
    for name in [
        "", "1", "12", "1a", "a-b", "a b", " a", "a ", "#", "r#", "r#1", "r#_", "r#self",
        "r#Self", "r#super", "r#crate", "r#r#a", "a#", "\u{e9}-", "+", "'a", "a.b", "\u{2603}",
    ] {
        assert!(!tt::is_ident_name(name), "{name}");
        assert!(tt::try_ident(name).is_none(), "{name}");
        assert!(tt::try_ident_span(Span::call_site(), name).is_none(), "{name}");
    }
}

#[test]
fn a_name_that_is_no_identifier_is_not_added() {
    let mut stream = parse("x");
    assert!(!stream.try_add_ident("1a"));
    assert!(!stream.try_add_ident_span(Span::call_site(), "r#self"));
    assert!(!stream.try_add_idents(["a", "b c"]));
    assert!(!stream.try_add_idents_span(Span::call_site(), ["", "a"]));
    assert_eq!(stream.to_string(), "x");
    assert!(stream.try_add_ident("a"));
    assert!(stream.try_add_ident_span(Span::call_site(), "r#b"));
    assert!(stream.try_add_idents(["c", "\u{e9}"]));
    assert!(stream.try_add_idents_span(Span::call_site(), ["e", "_"]));
    assert_eq!(convert(stream), convert(parse("x a r#b c \u{e9} e _")));
    assert!(quote2::are_ident_names(&["a", "r#b"]));
    assert!(!quote2::are_ident_names(&["a", "r#"]));
}

#[test]
fn punctuation_characters() {
    for ch in "!#$%&'*+,-./:;<=>?@^|~".chars() {
        assert!(quote2::stream::is_punct_char(ch), "{ch}");
        assert_eq!(tt::punct(ch).to_string(), ch.to_string());
    }
    for ch in "(){}[]\"\\`_ a0\u{e9}".chars() {
        assert!(!quote2::stream::is_punct_char(ch), "{ch}");
    }
}

#[test]
fn a_group_with_a_location_keeps_what_is_inside() {
    let span = Span::call_site();
    let mut stream = TokenStream::new();
    stream.add_group_span(span, '{', |inner| {
        inner.add_ident("a");
        inner.add_group('(', |inner| inner.add_parsed_lit_span(span, "1"));
    });
    assert_eq!(convert(stream), convert(parse("{ a ( 1 ) }")));
}
