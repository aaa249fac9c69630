use jsparse::lexer::Lexer;
use jsparse::token::{Keyword, Kind, NumberValue, Span, TokenValue};
use string_cache::DefaultAtom as Atom;

#[test]
fn eof_is_idempotent_on_empty_input() {
    let mut lexer = Lexer::new("");
    for _ in 0..3 {
        let t = lexer.next_token();
        assert_eq!(t.kind, Kind::Eof);
        assert_eq!(t.span, Span { start: 0, end: 0 });
        assert_eq!(t.value, TokenValue::Empty);
    }
}

#[test]
fn eof_is_idempotent_past_last_token() {
    let mut lexer = Lexer::new("let");
    let t = lexer.next_token();
    assert_eq!(t.kind, Kind::Keyword);
    for _ in 0..3 {
        let t = lexer.next_token();
        assert_eq!(t.kind, Kind::Eof);
        assert_eq!(t.span, Span { start: 3, end: 3 });
    }
}

#[test]
fn keywords_and_identifiers() {
    let mut lexer = Lexer::new("var let const function letter");
    assert_eq!(lexer.next_token().value, TokenValue::Word(Keyword::Var));
    assert_eq!(lexer.next_token().value, TokenValue::Word(Keyword::Let));
    assert_eq!(lexer.next_token().value, TokenValue::Word(Keyword::Const));
    assert_eq!(lexer.next_token().value, TokenValue::Word(Keyword::Function));
    let t = lexer.next_token();
    assert_eq!(t.kind, Kind::Identifier);
    assert_eq!(t.value, TokenValue::Name(Atom::from("letter")));
    assert_eq!(t.span, Span { start: 23, end: 29 });
}

#[test]
fn null_token() {
    let mut lexer = Lexer::new("null");
    let t = lexer.next_token();
    assert_eq!(t.kind, Kind::Null);
    assert_eq!(t.value, TokenValue::Empty);
    assert_eq!(t.span, Span { start: 0, end: 4 });
}

#[test]
fn star_vs_double_star() {
    let mut lexer = Lexer::new("* ** *");
    assert_eq!(lexer.next_token().kind, Kind::Star);
    let t = lexer.next_token();
    assert_eq!(t.kind, Kind::StarStar);
    assert_eq!(t.span, Span { start: 2, end: 4 });
    assert_eq!(lexer.next_token().kind, Kind::Star);
}

#[test]
fn number_payload_is_read_eagerly() {
    let mut lexer = Lexer::new("50.5 7 0.25");
    let t = lexer.next_token();
    assert_eq!(t.kind, Kind::Number);
    assert_eq!(t.value, TokenValue::Num(NumberValue { mantissa: 505, scale: 1 }));
    assert_eq!(t.span, Span { start: 0, end: 4 });
    let t = lexer.next_token();
    assert_eq!(t.value, TokenValue::Num(NumberValue { mantissa: 7, scale: 0 }));
    let t = lexer.next_token();
    assert_eq!(t.value, TokenValue::Num(NumberValue { mantissa: 25, scale: 2 }));
}

#[test]
fn malformed_number_is_one_invalid_token() {
    let mut lexer = Lexer::new("1.2.3");
    let t = lexer.next_token();
    assert_eq!(t.kind, Kind::Invalid);
    assert_eq!(t.span, Span { start: 0, end: 5 });
    assert_eq!(lexer.next_token().kind, Kind::Eof);
}

#[test]
fn unrecognized_character_is_invalid() {
    let mut lexer = Lexer::new("@");
    let t = lexer.next_token();
    assert_eq!(t.kind, Kind::Invalid);
    assert_eq!(t.span, Span { start: 0, end: 1 });
}

#[test]
fn punctuation_tokens() {
    let mut lexer = Lexer::new(", = ( ) [ ] { } + - /");
    let kinds = [
        Kind::Comma,
        Kind::Equals,
        Kind::OpenParen,
        Kind::CloseParen,
        Kind::OpenBracket,
        Kind::CloseBracket,
        Kind::OpenBrace,
        Kind::CloseBrace,
        Kind::Plus,
        Kind::Minus,
        Kind::Slash,
    ];
    for expected in kinds {
        assert_eq!(lexer.next_token().kind, expected);
    }
    assert_eq!(lexer.next_token().kind, Kind::Eof);
}

#[test]
fn dot_token() {
    let mut lexer = Lexer::new(".");
    let t = lexer.next_token();
    assert_eq!(t.kind, Kind::Dot);
    assert_eq!(t.span, Span { start: 0, end: 1 });
}

#[test]
fn multi_byte_character_is_one_invalid_token() {
    // a two-byte and a three-byte character each become one invalid token
    let mut lexer = Lexer::new("\u{e9} \u{2192}");
    let t = lexer.next_token();
    assert_eq!(t.kind, Kind::Invalid);
    assert_eq!(t.span, Span { start: 0, end: 2 });
    let t = lexer.next_token();
    assert_eq!(t.kind, Kind::Invalid);
    assert_eq!(t.span, Span { start: 3, end: 6 });
    assert_eq!(lexer.next_token().kind, Kind::Eof);
}
