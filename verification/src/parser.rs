//! The parser: tokens in, a program and its diagnostics out.
//!
//! What parsing yields is defined here as a function of the source bytes
//! and the offset at which reading starts, [`parse_from`]; [`Parser`] is the
//! object that pulls tokens from a [`Lexer`] and computes it.
use crate::ast::{Identifier, LetStatement, Program, ReturnStatement, Statement, StatementView};
use crate::lexer::{lemma_literal_nonempty, lemma_scan_at_end, lemma_scan_moves, scan, Lexer};
use crate::token::{kind_name, Token, TokenType, TokenView};
use vstd::prelude::*;
use vstd::string::StringExecFns;

verus! {

/// The token that the lexer reads from offset `at`.
pub open spec fn token_at(source: Seq<u8>, at: int) -> TokenView {
    scan(source, at).token
}

/// Where the lexer stands after it has read a token from offset `at`.
pub open spec fn behind(source: Seq<u8>, at: int) -> int {
    scan(source, at).next
}

/// The diagnostic for a token of kind `actual` where the statement needs
/// one of kind `expected`.
pub open spec fn mismatch(expected: TokenType, actual: TokenType) -> Seq<char> {
    "expected next token to be "@ + kind_name(expected) + ", got "@ + kind_name(actual)
        + " instead"@
}

/// Nothing but `Eof` is left: the token read from `at` and the one behind
/// it are `Eof`, and behind those the source is used up.
pub open spec fn drained(source: Seq<u8>, at: int) -> bool {
    let peek_at = behind(source, at);
    &&& token_at(source, at).kind == TokenType::Eof
    &&& token_at(source, peek_at).kind == TokenType::Eof
    &&& !(0 <= behind(source, peek_at) < source.len())
}

/// Where the value of a statement ends: the offset from which the first
/// `Semicolon` is read, going on from `at`; or, if none is left, the offset
/// at which nothing but `Eof` is left.
pub open spec fn statement_end(source: Seq<u8>, at: int) -> int
    decreases source.len() - at,
{
    if token_at(source, at).kind == TokenType::Semicolon || drained(source, at) {
        at
    } else {
        proof {
            if 0 <= at < source.len() {
                lemma_scan_moves(source, at);
            } else {
                lemma_scan_at_end(source, at);
            }
        }
        statement_end(source, behind(source, at))
    }
}

/// What one attempt to parse a statement comes to.
pub struct Attempt {
    /// The statement, if there is one.
    pub statement: Option<StatementView>,
    /// The diagnostics that the attempt adds.
    pub errors: Seq<Seq<char>>,
    /// The offset from which the last token that the attempt took was read.
    pub last: int,
}

/// The attempt at a `let` statement, whose `let` is read from `at`.
///
/// The next token must be an `Identifier` and the one after it an `Assign`:
/// the first that is not leaves one diagnostic and ends the attempt without
/// being taken. After the `Assign`, everything up to and including the next
/// `Semicolon` is the value, which is taken and not kept.
pub open spec fn let_attempt(source: Seq<u8>, at: int) -> Attempt {
    let name_at = behind(source, at);
    let name = token_at(source, name_at);
    let sign_at = behind(source, name_at);
    let sign = token_at(source, sign_at);
    if name.kind != TokenType::Identifier {
        Attempt {
            statement: None,
            errors: seq![mismatch(TokenType::Identifier, name.kind)],
            last: at,
        }
    } else if sign.kind != TokenType::Assign {
        Attempt {
            statement: None,
            errors: seq![mismatch(TokenType::Assign, sign.kind)],
            last: name_at,
        }
    } else {
        Attempt {
            statement: Some(StatementView::Let { name: name.literal }),
            errors: seq![],
            last: statement_end(source, sign_at),
        }
    }
}

/// The attempt at a `return` statement, whose `return` is read from `at`:
/// everything up to and including the next `Semicolon` is the value, which
/// is taken and not kept.
pub open spec fn return_attempt(source: Seq<u8>, at: int) -> Attempt {
    Attempt {
        statement: Some(StatementView::Return),
        errors: seq![],
        last: statement_end(source, behind(source, at)),
    }
}

/// The attempt at a statement that starts with the token read from `at`.
/// A token that is neither `let` nor `return` starts none, and is passed
/// over without a diagnostic.
pub open spec fn attempt(source: Seq<u8>, at: int) -> Attempt {
    match token_at(source, at).kind {
        TokenType::Let => let_attempt(source, at),
        TokenType::Return => return_attempt(source, at),
        _ => Attempt { statement: None, errors: seq![], last: at },
    }
}

/// The value of a statement ends inside the source, at or behind where it
/// is looked for.
pub proof fn lemma_statement_end(source: Seq<u8>, at: int)
    requires
        0 <= at <= source.len(),
    ensures
        at <= statement_end(source, at) <= source.len(),
    decreases source.len() - at,
{
    lemma_scan_moves(source, at);
    if at == source.len() {
        lemma_scan_at_end(source, at);
    } else if !(token_at(source, at).kind == TokenType::Semicolon || drained(source, at)) {
        lemma_statement_end(source, behind(source, at));
    }
}

/// An attempt ends inside the source, at or behind where it starts.
pub proof fn lemma_attempt_last(source: Seq<u8>, at: int)
    requires
        0 <= at <= source.len(),
    ensures
        at <= attempt(source, at).last <= source.len(),
{
    let name_at = behind(source, at);
    lemma_scan_moves(source, at);
    lemma_scan_moves(source, name_at);
    lemma_statement_end(source, name_at);
    lemma_statement_end(source, behind(source, name_at));
}

/// A `let` statement binds the name that stands right behind `let`: an
/// `Identifier`, which is never empty, with an `Assign` behind it.
pub proof fn lemma_let_binds_identifier(source: Seq<u8>, at: int)
    requires
        attempt(source, at).statement matches Some(StatementView::Let { .. }),
    ensures
        ({
            let name_at = behind(source, at);
            &&& token_at(source, at).kind == TokenType::Let
            &&& token_at(source, name_at).kind == TokenType::Identifier
            &&& token_at(source, behind(source, name_at)).kind == TokenType::Assign
            &&& attempt(source, at).statement == Some(
                StatementView::Let { name: token_at(source, name_at).literal },
            )
            &&& token_at(source, name_at).literal.len() > 0
        }),
{
    lemma_literal_nonempty(source, behind(source, at));
}

/// An attempt that is given up leaves one diagnostic and no statement,
/// and takes at most one token behind the one that started it.
pub proof fn lemma_failed_attempt(source: Seq<u8>, at: int)
    requires
        attempt(source, at).errors.len() > 0,
    ensures
        attempt(source, at).errors.len() == 1,
        attempt(source, at).statement is None,
        token_at(source, at).kind == TokenType::Let,
        attempt(source, at).last == at || attempt(source, at).last == behind(source, at),
{
}

/// What parsing yields.
pub struct Parsed {
    /// The statements, in source order.
    pub statements: Seq<StatementView>,
    /// The diagnostics, in the order in which they arose.
    pub errors: Seq<Seq<char>>,
}

/// What parsing yields when the first token is read from `at`.
///
/// Up to the first `Eof`, each token starts an attempt at a statement; the
/// attempt's statement, if any, and its diagnostics are kept, and parsing
/// goes on with the token behind the last one that the attempt took.
pub open spec fn parse_from(source: Seq<u8>, at: int) -> Parsed
    decreases source.len() - at,
{
    if token_at(source, at).kind == TokenType::Eof {
        Parsed { statements: seq![], errors: seq![] }
    } else {
        let this = attempt(source, at);
        proof {
            if 0 <= at < source.len() {
                lemma_attempt_last(source, at);
                lemma_scan_moves(source, at);
                lemma_scan_moves(source, this.last);
            } else {
                lemma_scan_at_end(source, at);
            }
        }
        let rest = parse_from(source, behind(source, this.last));
        Parsed {
            statements: match this.statement {
                Some(statement) => seq![statement] + rest.statements,
                None => rest.statements,
            },
            errors: this.errors + rest.errors,
        }
    }
}

/// The characters of each of a list of strings, in the same order.
pub open spec fn texts(strings: Seq<String>) -> Seq<Seq<char>> {
    strings.map_values(|string: String| string@)
}

/// A parser over the tokens of one lexer.
///
/// It holds two tokens, the current one and the one behind it, and the
/// diagnostics it has collected.
pub struct Parser<'a> {
    current_token: Token,
    errors: Vec<String>,
    lexer: Lexer<'a>,
    peek_token: Token,
    origin: Ghost<int>,
}

impl<'a> Parser<'a> {
    /// The bytes of the source text.
    pub closed spec fn source(&self) -> Seq<u8> {
        self.lexer.source()
    }

    /// The offset from which the current token was read.
    pub closed spec fn cursor(&self) -> int {
        self.origin@
    }

    /// The diagnostics collected so far.
    pub closed spec fn diagnostics(&self) -> Seq<Seq<char>> {
        texts(self.errors@)
    }

    /// The two tokens held are the one read from the cursor and the one
    /// behind it, and the lexer stands behind both.
    pub closed spec fn wf(&self) -> bool {
        let source = self.lexer.source();
        let peek_at = behind(source, self.origin@);
        &&& self.lexer.wf()
        &&& 0 <= self.origin@ <= source.len()
        &&& self.current_token@ == token_at(source, self.origin@)
        &&& self.peek_token@ == token_at(source, peek_at)
        &&& self.lexer.cursor() == behind(source, peek_at)
    }

    /// A parser that starts where `lexer` stands, without diagnostics.
    pub fn new(lexer: Lexer<'a>) -> (parser: Self)
        requires
            lexer.wf(),
        ensures
            parser.wf(),
            parser.source() == lexer.source(),
            parser.cursor() == lexer.cursor(),
            parser.diagnostics() == Seq::<Seq<char>>::empty(),
    {
        let ghost origin = lexer.cursor();
        let mut lexer = lexer;
        proof {
            lexer.lemma_cursor_in_source();
        }
        let current_token = lexer.next_token();
        let peek_token = lexer.next_token();
        let parser = Self {
            current_token,
            errors: Vec::new(),
            lexer,
            peek_token,
            origin: Ghost(origin),
        };
        assert(parser.diagnostics() =~= Seq::<Seq<char>>::empty());
        parser
    }

    /// Parses to the first `Eof`: the statements found, and the diagnostics
    /// of the statements given up on, behind those collected before.
    pub fn parse_program(self) -> (outcome: (Program, Vec<String>))
        requires
            self.wf(),
        ensures
            outcome.0@ == parse_from(self.source(), self.cursor()).statements,
            texts(outcome.1@) == self.diagnostics() + parse_from(
                self.source(),
                self.cursor(),
            ).errors,
    {
        let mut parser = self;
        let mut program = Program::new();
        while !parser.current_token_is(TokenType::Eof)
            invariant
                parser.wf(),
                parser.source() == self.source(),
                program@ + parse_from(parser.source(), parser.cursor()).statements == parse_from(
                    self.source(),
                    self.cursor(),
                ).statements,
                parser.diagnostics() + parse_from(parser.source(), parser.cursor()).errors
                    == self.diagnostics() + parse_from(self.source(), self.cursor()).errors,
            decreases parser.source().len() - parser.cursor(),
        {
            let ghost at = parser.cursor();
            let ghost before = program@;
            let ghost noted = parser.diagnostics();
            let ghost this = attempt(parser.source(), at);
            let ghost rest = parse_from(parser.source(), behind(parser.source(), this.last));
            proof {
                if at == parser.source().len() {
                    lemma_scan_at_end(parser.source(), at);
                }
                lemma_attempt_last(parser.source(), at);
                lemma_scan_moves(parser.source(), at);
                lemma_scan_moves(parser.source(), this.last);
            }
            if let Some(statement) = parser.parse_statement() {
                program.add_statement(statement);
            }
            parser.next_token();
            proof {
                assert(program@ + rest.statements =~= before + parse_from(
                    parser.source(),
                    at,
                ).statements);
                assert(parser.diagnostics() + rest.errors =~= noted + parse_from(
                    parser.source(),
                    at,
                ).errors);
            }
        }
        proof {
            assert(program@ =~= program@ + Seq::<StatementView>::empty());
            assert(parser.diagnostics() =~= parser.diagnostics() + Seq::<Seq<char>>::empty());
        }
        (program, parser.errors)
    }

    fn current_token_is(&self, kind: TokenType) -> (yes: bool)
        ensures
            yes == (self.current_token@.kind == kind),
    {
        *self.current_token.get_type() == kind
    }

    /// Whether nothing but `Eof` is left.
    fn is_drained(&self) -> (yes: bool)
        requires
            self.wf(),
        ensures
            yes == drained(self.source(), self.cursor()),
    {
        proof {
            self.lexer.lemma_cursor_in_source();
        }
        self.current_token_is(TokenType::Eof) && self.peek_token_is(&TokenType::Eof)
            && self.lexer.at_end()
    }

    /// Takes the next token if it is of the kind expected, and notes a
    /// diagnostic if it is not.
    fn expect_peek(&mut self, expected_type: TokenType) -> (met: bool)
        requires
            old(self).wf(),
        ensures
            final(self).wf(),
            final(self).source() == old(self).source(),
            met == (token_at(old(self).source(), behind(old(self).source(), old(self).cursor())).kind
                == expected_type),
            met ==> final(self).cursor() == behind(old(self).source(), old(self).cursor())
                && final(self).diagnostics() == old(self).diagnostics(),
            !met ==> final(self).cursor() == old(self).cursor() && final(self).diagnostics()
                == old(self).diagnostics().push(
                mismatch(
                    expected_type,
                    token_at(old(self).source(), behind(old(self).source(), old(self).cursor())).kind,
                ),
            ),
    {
        if self.peek_token_is(&expected_type) {
            self.next_token();
            true
        } else {
            self.peek_error(&expected_type);
            false
        }
    }

    /// Moves on by one token.
    fn next_token(&mut self)
        requires
            old(self).wf(),
        ensures
            final(self).wf(),
            final(self).source() == old(self).source(),
            final(self).cursor() == behind(old(self).source(), old(self).cursor()),
            final(self).diagnostics() == old(self).diagnostics(),
    {
        proof {
            lemma_scan_moves(self.source(), self.cursor());
        }
        self.current_token = self.peek_token.clone();
        self.peek_token = self.lexer.next_token();
        self.origin = Ghost(behind(self.lexer.source(), self.origin@));
    }

    fn parse_let_statement(&mut self) -> (statement: Option<LetStatement>)
        requires
            old(self).wf(),
        ensures
            final(self).wf(),
            final(self).source() == old(self).source(),
            final(self).cursor() == let_attempt(old(self).source(), old(self).cursor()).last,
            final(self).diagnostics() == old(self).diagnostics() + let_attempt(
                old(self).source(),
                old(self).cursor(),
            ).errors,
            match statement {
                Some(found) => let_attempt(old(self).source(), old(self).cursor()).statement
                    == Some(StatementView::Let { name: found.name@ }),
                None => let_attempt(old(self).source(), old(self).cursor()).statement.is_none(),
            },
    {
        if !self.expect_peek(TokenType::Identifier) {
            return None;
        }
        let name = Identifier { value: self.current_token.get_literal().clone() };
        if !self.expect_peek(TokenType::Assign) {
            return None;
        }
        self.skip_value();
        assert(self.diagnostics() =~= old(self).diagnostics() + Seq::<Seq<char>>::empty());
        Some(LetStatement { name })
    }

    fn parse_return_statement(&mut self) -> (statement: Option<ReturnStatement>)
        requires
            old(self).wf(),
        ensures
            final(self).wf(),
            final(self).source() == old(self).source(),
            final(self).cursor() == return_attempt(old(self).source(), old(self).cursor()).last,
            final(self).diagnostics() == old(self).diagnostics(),
            statement.is_some(),
    {
        self.next_token();
        self.skip_value();
        Some(ReturnStatement {  })
    }

    /// Takes tokens up to the `Semicolon` that ends the statement, or until
    /// nothing but `Eof` is left.
    fn skip_value(&mut self)
        requires
            old(self).wf(),
        ensures
            final(self).wf(),
            final(self).source() == old(self).source(),
            final(self).cursor() == statement_end(old(self).source(), old(self).cursor()),
            final(self).diagnostics() == old(self).diagnostics(),
    {
        while !self.current_token_is(TokenType::Semicolon) && !self.is_drained()
            invariant
                self.wf(),
                self.source() == old(self).source(),
                self.diagnostics() == old(self).diagnostics(),
                statement_end(self.source(), self.cursor()) == statement_end(
                    old(self).source(),
                    old(self).cursor(),
                ),
            decreases self.source().len() - self.cursor(),
        {
            proof {
                if self.cursor() == self.source().len() {
                    lemma_scan_at_end(self.source(), self.cursor());
                }
                lemma_scan_moves(self.source(), self.cursor());
            }
            self.next_token();
        }
    }

    fn parse_statement(&mut self) -> (statement: Option<Statement>)
        requires
            old(self).wf(),
        ensures
            final(self).wf(),
            final(self).source() == old(self).source(),
            final(self).cursor() == attempt(old(self).source(), old(self).cursor()).last,
            final(self).diagnostics() == old(self).diagnostics() + attempt(
                old(self).source(),
                old(self).cursor(),
            ).errors,
            match statement {
                Some(found) => attempt(old(self).source(), old(self).cursor()).statement == Some(
                    found@,
                ),
                None => attempt(old(self).source(), old(self).cursor()).statement.is_none(),
            },
    {
        match *self.current_token.get_type() {
            TokenType::Let => match self.parse_let_statement() {
                Some(statement) => Some(Statement::LetStatement(statement)),
                None => None,
            },
            TokenType::Return => match self.parse_return_statement() {
                Some(statement) => Some(Statement::ReturnStatement(statement)),
                None => None,
            },
            _ => {
                assert(self.diagnostics() =~= old(self).diagnostics() + Seq::<Seq<char>>::empty());
                None
            },
        }
    }

    /// Notes that the next token is not of the kind expected.
    fn peek_error(&mut self, expected_token: &TokenType)
        requires
            old(self).wf(),
        ensures
            final(self).wf(),
            final(self).source() == old(self).source(),
            final(self).cursor() == old(self).cursor(),
            final(self).diagnostics() == old(self).diagnostics().push(
                mismatch(
                    *expected_token,
                    token_at(old(self).source(), behind(old(self).source(), old(self).cursor())).kind,
                ),
            ),
    {
        let mut message = String::from_str("expected next token to be ");
        message.append(expected_token.name());
        message.append(", got ");
        message.append(self.peek_token.get_type().name());
        message.append(" instead");
        self.errors.push(message);
        assert(self.diagnostics() =~= old(self).diagnostics().push(
            mismatch(
                *expected_token,
                token_at(old(self).source(), behind(old(self).source(), old(self).cursor())).kind,
            ),
        ));
    }

    fn peek_token_is(&self, kind: &TokenType) -> (yes: bool)
        ensures
            yes == (self.peek_token@.kind == *kind),
    {
        self.peek_token.get_type() == kind
    }
}

} // verus!
