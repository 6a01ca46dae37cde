use monkeyball::text::{ascii_slice, same_text};
use monkeyball::token::{Token, TokenType};

const ALL_KINDS: [TokenType; 27] = [
    TokenType::Illegal,
    TokenType::Eof,
    TokenType::Identifier,
    TokenType::Integer,
    TokenType::Assign,
    TokenType::Plus,
    TokenType::Minus,
    TokenType::Bang,
    TokenType::Asterisk,
    TokenType::Slash,
    TokenType::Lt,
    TokenType::Gt,
    TokenType::Eq,
    TokenType::NotEq,
    TokenType::Comma,
    TokenType::Semicolon,
    TokenType::LParen,
    TokenType::RParen,
    TokenType::LBrace,
    TokenType::RBrace,
    TokenType::Function,
    TokenType::Let,
    TokenType::True,
    TokenType::False,
    TokenType::If,
    TokenType::Else,
    TokenType::Return,
];

#[test]
fn keyword_table() {
    assert_eq!(TokenType::identifier_token("fn"), TokenType::Function);
    assert_eq!(TokenType::identifier_token("let"), TokenType::Let);
    assert_eq!(TokenType::identifier_token("true"), TokenType::True);
    assert_eq!(TokenType::identifier_token("false"), TokenType::False);
    assert_eq!(TokenType::identifier_token("if"), TokenType::If);
    assert_eq!(TokenType::identifier_token("else"), TokenType::Else);
    assert_eq!(TokenType::identifier_token("return"), TokenType::Return);
}

#[test]
fn anything_else_is_an_identifier() {
    for word in ["", "f", "fnn", "Let", "LET", "le", "truee", "iff", "returns", "foobar", "_"] {
        assert_eq!(TokenType::identifier_token(word), TokenType::Identifier);
    }
}

#[test]
fn kind_names_are_the_variant_names() {
    for kind in ALL_KINDS {
        assert_eq!(kind.name(), format!("{:?}", kind));
    }
}

#[test]
fn token_keeps_kind_and_literal() {
    let token = Token::new(TokenType::Integer, "42".to_string());
    assert_eq!(*token.get_type(), TokenType::Integer);
    assert_eq!(token.get_literal(), "42");
}

#[test]
fn tokens_are_equal_when_kind_and_literal_are() {
    let token = Token::new(TokenType::Identifier, "x".to_string());
    assert_eq!(token, Token::new(TokenType::Identifier, "x".to_string()));
    assert_ne!(token, Token::new(TokenType::Identifier, "y".to_string()));
    assert_ne!(token, Token::new(TokenType::Illegal, "x".to_string()));
    assert_eq!(token.clone(), token);
}

#[test]
fn same_text_compares_characters() {
    assert!(same_text("", ""));
    assert!(same_text("let", "let"));
    assert!(!same_text("let", "led"));
    assert!(!same_text("let", "lets"));
    assert!(!same_text("lets", "let"));
    assert!(same_text("\u{e9}", "\u{e9}"));
    assert!(!same_text("\u{e9}", "\u{e8}"));
}

#[test]
fn ascii_slice_cuts_by_byte_offsets() {
    assert_eq!(ascii_slice("let x = 5;", 4, 5), "x");
    assert_eq!(ascii_slice("let x = 5;", 0, 3), "let");
    assert_eq!(ascii_slice("let x = 5;", 0, 10), "let x = 5;");
    assert_eq!(ascii_slice("let", 2, 2), "");
    assert_eq!(ascii_slice("\u{e9}ab\u{e9}", 2, 4), "ab");
}
