//! Token kinds, tokens, and keyword lookup.
use crate::text::same_text;
use vstd::prelude::*;

verus! {

/// The kind of a token.
#[derive(Debug, PartialEq, Eq, Clone, Copy, Structural)]
pub enum TokenType {
    Illegal,
    Eof,
    Identifier,
    Integer,
    Assign,
    Plus,
    Minus,
    Bang,
    Asterisk,
    Slash,
    Lt,
    Gt,
    Eq,
    NotEq,
    Comma,
    Semicolon,
    LParen,
    RParen,
    LBrace,
    RBrace,
    Function,
    Let,
    True,
    False,
    If,
    Else,
    Return,
}

/// The kind that a run of letters stands for: one of the seven keywords,
/// or an identifier.
pub open spec fn keyword_kind(word: Seq<char>) -> TokenType {
    if word == "fn"@ {
        TokenType::Function
    } else if word == "let"@ {
        TokenType::Let
    } else if word == "true"@ {
        TokenType::True
    } else if word == "false"@ {
        TokenType::False
    } else if word == "if"@ {
        TokenType::If
    } else if word == "else"@ {
        TokenType::Else
    } else if word == "return"@ {
        TokenType::Return
    } else {
        TokenType::Identifier
    }
}

/// The keyword table: a word is resolved to a keyword kind where it is
/// exactly that keyword, and to `Identifier` where it is none of the seven.
pub proof fn lemma_keyword_table(word: Seq<char>)
    ensures
        keyword_kind(word) == TokenType::Function <==> word == "fn"@,
        keyword_kind(word) == TokenType::Let <==> word == "let"@,
        keyword_kind(word) == TokenType::True <==> word == "true"@,
        keyword_kind(word) == TokenType::False <==> word == "false"@,
        keyword_kind(word) == TokenType::If <==> word == "if"@,
        keyword_kind(word) == TokenType::Else <==> word == "else"@,
        keyword_kind(word) == TokenType::Return <==> word == "return"@,
        keyword_kind(word) == TokenType::Identifier <==> !(word == "fn"@ || word == "let"@ || word
            == "true"@ || word == "false"@ || word == "if"@ || word == "else"@ || word
            == "return"@),
{
    reveal_strlit("fn");
    reveal_strlit("let");
    reveal_strlit("true");
    reveal_strlit("false");
    reveal_strlit("if");
    reveal_strlit("else");
    reveal_strlit("return");
    assert("fn"@.len() == 2 && "fn"@[0] == 'f');
    assert("if"@.len() == 2 && "if"@[0] == 'i');
    assert("let"@.len() == 3);
    assert("true"@.len() == 4 && "true"@[0] == 't');
    assert("else"@.len() == 4 && "else"@[0] == 'e');
    assert("false"@.len() == 5);
    assert("return"@.len() == 6);
}

/// The name of a kind, as diagnostics print it.
pub open spec fn kind_name(kind: TokenType) -> Seq<char> {
    match kind {
        TokenType::Illegal => "Illegal"@,
        TokenType::Eof => "Eof"@,
        TokenType::Identifier => "Identifier"@,
        TokenType::Integer => "Integer"@,
        TokenType::Assign => "Assign"@,
        TokenType::Plus => "Plus"@,
        TokenType::Minus => "Minus"@,
        TokenType::Bang => "Bang"@,
        TokenType::Asterisk => "Asterisk"@,
        TokenType::Slash => "Slash"@,
        TokenType::Lt => "Lt"@,
        TokenType::Gt => "Gt"@,
        TokenType::Eq => "Eq"@,
        TokenType::NotEq => "NotEq"@,
        TokenType::Comma => "Comma"@,
        TokenType::Semicolon => "Semicolon"@,
        TokenType::LParen => "LParen"@,
        TokenType::RParen => "RParen"@,
        TokenType::LBrace => "LBrace"@,
        TokenType::RBrace => "RBrace"@,
        TokenType::Function => "Function"@,
        TokenType::Let => "Let"@,
        TokenType::True => "True"@,
        TokenType::False => "False"@,
        TokenType::If => "If"@,
        TokenType::Else => "Else"@,
        TokenType::Return => "Return"@,
    }
}

impl TokenType {
    /// Resolves a run of letters to the keyword it spells, or to
    /// `Identifier` if it spells none.
    pub fn identifier_token(identifier: &str) -> (kind: Self)
        ensures
            kind == keyword_kind(identifier@),
    {
        if same_text(identifier, "fn") {
            Self::Function
        } else if same_text(identifier, "let") {
            Self::Let
        } else if same_text(identifier, "true") {
            Self::True
        } else if same_text(identifier, "false") {
            Self::False
        } else if same_text(identifier, "if") {
            Self::If
        } else if same_text(identifier, "else") {
            Self::Else
        } else if same_text(identifier, "return") {
            Self::Return
        } else {
            Self::Identifier
        }
    }

    /// The name of this kind, as diagnostics print it.
    pub fn name(&self) -> (name: &'static str)
        ensures
            name@ == kind_name(*self),
    {
        match self {
            Self::Illegal => "Illegal",
            Self::Eof => "Eof",
            Self::Identifier => "Identifier",
            Self::Integer => "Integer",
            Self::Assign => "Assign",
            Self::Plus => "Plus",
            Self::Minus => "Minus",
            Self::Bang => "Bang",
            Self::Asterisk => "Asterisk",
            Self::Slash => "Slash",
            Self::Lt => "Lt",
            Self::Gt => "Gt",
            Self::Eq => "Eq",
            Self::NotEq => "NotEq",
            Self::Comma => "Comma",
            Self::Semicolon => "Semicolon",
            Self::LParen => "LParen",
            Self::RParen => "RParen",
            Self::LBrace => "LBrace",
            Self::RBrace => "RBrace",
            Self::Function => "Function",
            Self::Let => "Let",
            Self::True => "True",
            Self::False => "False",
            Self::If => "If",
            Self::Else => "Else",
            Self::Return => "Return",
        }
    }
}

/// A token: its kind and the text it was read from.
#[derive(Debug, PartialEq, Eq)]
pub struct Token {
    kind: TokenType,
    literal: String,
}

/// What a token is, as a value: its kind and the characters of its literal.
pub struct TokenView {
    pub kind: TokenType,
    pub literal: Seq<char>,
}

impl View for Token {
    type V = TokenView;

    closed spec fn view(&self) -> TokenView {
        TokenView { kind: self.kind, literal: self.literal@ }
    }
}

impl Clone for Token {
    fn clone(&self) -> (copy: Self)
        ensures
            copy == *self,
    {
        Self { kind: self.kind, literal: self.literal.clone() }
    }
}

impl Token {
    /// A token of the given kind and literal.
    pub fn new(kind: TokenType, literal: String) -> (token: Self)
        ensures
            token@ == (TokenView { kind, literal: literal@ }),
    {
        Self { kind, literal }
    }

    /// The kind of this token.
    pub fn get_type(&self) -> (kind: &TokenType)
        ensures
            *kind == self@.kind,
    {
        &self.kind
    }

    /// The text this token was read from.
    pub fn get_literal(&self) -> (literal: &String)
        ensures
            literal@ == self@.literal,
    {
        &self.literal
    }
}

} // verus!
