use quote2::token::{Delimiter, Ident, Spacing, Token};
use quote2::tokens::Tokens;

#[test]
fn tokens_are_appended_in_order() {
    let mut stream: Vec<Token> = Vec::new();
    stream.ident("a");
    stream.punct_join(':');
    stream.punct(':');
    stream.char('{');
    stream.group(Delimiter::Bracket, |inner: &mut Vec<Token>| inner.ident("b"));
    stream.add(Token::Literal { text: "1".to_string() });
    assert_eq!(
        stream,
        vec![
            Token::Ident(Ident { name: "a".to_string(), raw: false, span: None }),
            Token::Punct { ch: ':', spacing: Spacing::Joint },
            Token::Punct { ch: ':', spacing: Spacing::Alone },
            Token::Literal { text: "'{'".to_string() },
            Token::Group {
                delimiter: Delimiter::Bracket,
                stream: vec![Token::Ident(Ident { name: "b".to_string(), raw: false, span: None })],
            },
            Token::Literal { text: "1".to_string() },
        ]
    );
}

#[test]
fn duplicate_is_equal() {
    let ident = Ident { name: "x".to_string(), raw: true, span: None };
    assert_eq!(ident.duplicate(), ident);
    assert!(ident.duplicate().span.is_none());
    let taken = Ident {
        name: "x".to_string(),
        raw: true,
        span: Some(proc_macro2::Span::call_site()),
    };
    assert!(taken.duplicate().span.is_some());
}

#[test]
fn the_location_does_not_count_in_equality() {
    let made = Ident { name: "x".to_string(), raw: false, span: None };
    let taken = Ident {
        name: "x".to_string(),
        raw: false,
        span: Some(proc_macro2::Span::call_site()),
    };
    assert_eq!(made, taken);
    assert_ne!(made, Ident { name: "x".to_string(), raw: true, span: None });
    assert_ne!(made, Ident { name: "y".to_string(), raw: false, span: None });
}
