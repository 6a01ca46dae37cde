//! The lexer: source text in, one token per call out.
//!
//! What the lexer yields is defined here as a function of the source bytes
//! and a cursor, [`scan`]; [`Lexer`] is the object that walks the source and
//! computes it.
use crate::text::{ascii_slice, ascii_text};
use crate::token::{keyword_kind, Token, TokenType, TokenView};
use vstd::prelude::*;
use vstd::string::StringSliceAdditionalSpecFns;

verus! {

/// An ASCII letter or an underscore: what names and keywords are made of.
pub open spec fn letter(byte: u8) -> bool {
    ('a' as u8 <= byte <= 'z' as u8) || ('A' as u8 <= byte <= 'Z' as u8) || byte == '_' as u8
}

/// An ASCII digit.
pub open spec fn digit(byte: u8) -> bool {
    '0' as u8 <= byte <= '9' as u8
}

/// A byte that separates tokens and belongs to none: space, tab, line
/// feed, carriage return.
pub open spec fn blank(byte: u8) -> bool {
    byte == ' ' as u8 || byte == '\t' as u8 || byte == '\n' as u8 || byte == '\r' as u8
}

/// The byte under a cursor: the byte of the source at that offset, and
/// NUL once the cursor is past the last byte.
pub open spec fn byte_at(bytes: Seq<u8>, at: int) -> u8 {
    if 0 <= at < bytes.len() {
        bytes[at]
    } else {
        0
    }
}

/// Where the run of blanks that starts at `from` ends.
pub open spec fn blanks_end(bytes: Seq<u8>, from: int) -> int
    decreases bytes.len() - from,
{
    if 0 <= from < bytes.len() && blank(bytes[from]) {
        blanks_end(bytes, from + 1)
    } else {
        from
    }
}

/// Where the run of letters that starts at `from` ends.
pub open spec fn letters_end(bytes: Seq<u8>, from: int) -> int
    decreases bytes.len() - from,
{
    if 0 <= from < bytes.len() && letter(bytes[from]) {
        letters_end(bytes, from + 1)
    } else {
        from
    }
}

/// Where the run of digits that starts at `from` ends.
pub open spec fn digits_end(bytes: Seq<u8>, from: int) -> int
    decreases bytes.len() - from,
{
    if 0 <= from < bytes.len() && digit(bytes[from]) {
        digits_end(bytes, from + 1)
    } else {
        from
    }
}

/// The kind of the token that a single byte makes, where that byte starts
/// neither a name, a number, `==` nor `!=`.
pub open spec fn symbol_kind(byte: u8) -> TokenType {
    if byte == '=' as u8 {
        TokenType::Assign
    } else if byte == '+' as u8 {
        TokenType::Plus
    } else if byte == '-' as u8 {
        TokenType::Minus
    } else if byte == '!' as u8 {
        TokenType::Bang
    } else if byte == '/' as u8 {
        TokenType::Slash
    } else if byte == '*' as u8 {
        TokenType::Asterisk
    } else if byte == '<' as u8 {
        TokenType::Lt
    } else if byte == '>' as u8 {
        TokenType::Gt
    } else if byte == ';' as u8 {
        TokenType::Semicolon
    } else if byte == '(' as u8 {
        TokenType::LParen
    } else if byte == ')' as u8 {
        TokenType::RParen
    } else if byte == ',' as u8 {
        TokenType::Comma
    } else if byte == '{' as u8 {
        TokenType::LBrace
    } else if byte == '}' as u8 {
        TokenType::RBrace
    } else if byte == 0 {
        TokenType::Eof
    } else {
        TokenType::Illegal
    }
}

/// The literal of the token that a single byte makes: for an ASCII byte
/// its character, for any other byte the replacement character U+FFFD,
/// since such a byte is no text by itself.
pub open spec fn symbol_text(byte: u8) -> Seq<char> {
    if byte < 0x80 {
        seq![byte as char]
    } else {
        seq!['\u{FFFD}']
    }
}

/// One step of the lexer: the token it yields and where its cursor stands
/// afterwards.
pub struct Scan {
    pub token: TokenView,
    pub next: int,
}

/// The token that starts at offset `start`, which holds no blank.
///
/// A run of letters is a keyword or an identifier, a run of digits an
/// integer; both are taken as far as they go. `==` and `!=` are one token
/// each. Every other byte is a token by itself, and so is the NUL that the
/// cursor reads past the end of the source, which does not move it.
pub open spec fn lexeme_at(bytes: Seq<u8>, start: int) -> Scan {
    let first = byte_at(bytes, start);
    if letter(first) {
        let end = letters_end(bytes, start);
        let word = ascii_text(bytes.subrange(start, end));
        Scan { token: TokenView { kind: keyword_kind(word), literal: word }, next: end }
    } else if digit(first) {
        let end = digits_end(bytes, start);
        let number = ascii_text(bytes.subrange(start, end));
        Scan { token: TokenView { kind: TokenType::Integer, literal: number }, next: end }
    } else if first == '=' as u8 && byte_at(bytes, start + 1) == '=' as u8 {
        Scan { token: TokenView { kind: TokenType::Eq, literal: "=="@ }, next: start + 2 }
    } else if first == '!' as u8 && byte_at(bytes, start + 1) == '=' as u8 {
        Scan { token: TokenView { kind: TokenType::NotEq, literal: "!="@ }, next: start + 2 }
    } else {
        Scan {
            token: TokenView { kind: symbol_kind(first), literal: symbol_text(first) },
            next: if 0 <= start < bytes.len() {
                start + 1
            } else {
                start
            },
        }
    }
}

/// What the lexer yields from a cursor at offset `cursor`: it passes over
/// blanks, then reads one token.
pub open spec fn scan(bytes: Seq<u8>, cursor: int) -> Scan {
    lexeme_at(bytes, blanks_end(bytes, cursor))
}

/// A run of blanks ends inside the source, at a byte that is no blank,
/// and holds blanks only.
pub proof fn lemma_blanks_end(bytes: Seq<u8>, from: int)
    requires
        0 <= from <= bytes.len(),
    ensures
        from <= blanks_end(bytes, from) <= bytes.len(),
        !blank(byte_at(bytes, blanks_end(bytes, from))),
        forall|k: int| from <= k < blanks_end(bytes, from) ==> blank(#[trigger] bytes[k]),
    decreases bytes.len() - from,
{
    if from < bytes.len() && blank(bytes[from]) {
        lemma_blanks_end(bytes, from + 1);
    }
}

/// A run of letters ends inside the source, at a byte that is no letter,
/// and holds letters only.
pub proof fn lemma_letters_end(bytes: Seq<u8>, from: int)
    requires
        0 <= from <= bytes.len(),
    ensures
        from <= letters_end(bytes, from) <= bytes.len(),
        !letter(byte_at(bytes, letters_end(bytes, from))),
        forall|k: int| from <= k < letters_end(bytes, from) ==> letter(#[trigger] bytes[k]),
    decreases bytes.len() - from,
{
    if from < bytes.len() && letter(bytes[from]) {
        lemma_letters_end(bytes, from + 1);
    }
}

/// A run of digits ends inside the source, at a byte that is no digit,
/// and holds digits only.
pub proof fn lemma_digits_end(bytes: Seq<u8>, from: int)
    requires
        0 <= from <= bytes.len(),
    ensures
        from <= digits_end(bytes, from) <= bytes.len(),
        !digit(byte_at(bytes, digits_end(bytes, from))),
        forall|k: int| from <= k < digits_end(bytes, from) ==> digit(#[trigger] bytes[k]),
    decreases bytes.len() - from,
{
    if from < bytes.len() && digit(bytes[from]) {
        lemma_digits_end(bytes, from + 1);
    }
}

/// Reading a token never moves the cursor back nor out of the source, and
/// moves it forward unless it stands at the end.
pub proof fn lemma_scan_moves(bytes: Seq<u8>, cursor: int)
    requires
        0 <= cursor <= bytes.len(),
    ensures
        cursor <= scan(bytes, cursor).next <= bytes.len(),
        cursor < bytes.len() ==> cursor < scan(bytes, cursor).next,
{
    let start = blanks_end(bytes, cursor);
    lemma_blanks_end(bytes, cursor);
    if start < bytes.len() {
        lemma_letters_end(bytes, start + 1);
        lemma_digits_end(bytes, start + 1);
    }
}

/// Where nothing but blanks is left, the token is `Eof` with the literal
/// `"\0"`, and the cursor comes to stand behind the blanks, at the end.
pub proof fn lemma_scan_at_end(bytes: Seq<u8>, cursor: int)
    requires
        !(0 <= blanks_end(bytes, cursor) < bytes.len()),
    ensures
        scan(bytes, cursor) == (Scan {
            token: TokenView { kind: TokenType::Eof, literal: "\0"@ },
            next: blanks_end(bytes, cursor),
        }),
{
    reveal_strlit("\0");
    assert(seq![0u8 as char] =~= "\0"@);
}

/// Once `Eof` has been read and the cursor stands at the end of the
/// source, reading again yields the same `Eof` and leaves the cursor where
/// it is, however often it is done.
///
/// An `Eof` that was read from a NUL byte inside the source is not the
/// end: the cursor has passed that byte and reads on behind it.
pub proof fn lemma_eof_repeats(bytes: Seq<u8>, cursor: int)
    requires
        scan(bytes, cursor).token.kind == TokenType::Eof,
        scan(bytes, cursor).next == bytes.len(),
    ensures
        scan(bytes, scan(bytes, cursor).next) == scan(bytes, cursor),
{
    lemma_scan_at_end(bytes, bytes.len() as int);
    if 0 <= blanks_end(bytes, cursor) < bytes.len() {
        reveal_strlit("\0");
        assert(seq![0u8 as char] =~= "\0"@);
    } else {
        lemma_scan_at_end(bytes, cursor);
    }
}

/// `Eof` is read at the end of the source and from a NUL byte, and from
/// nothing else.
pub proof fn lemma_eof_only_from_nul(bytes: Seq<u8>, cursor: int)
    ensures
        scan(bytes, cursor).token.kind == TokenType::Eof <==> byte_at(
            bytes,
            blanks_end(bytes, cursor),
        ) == 0,
{
}

/// `==` and `!=` are read as one token each, `Eq` and `NotEq`, whose
/// literal holds both characters, and never as two tokens of one character.
pub proof fn lemma_equality_operators(bytes: Seq<u8>, cursor: int)
    requires
        byte_at(bytes, blanks_end(bytes, cursor)) == '=' as u8 || byte_at(
            bytes,
            blanks_end(bytes, cursor),
        ) == '!' as u8,
        byte_at(bytes, blanks_end(bytes, cursor) + 1) == '=' as u8,
    ensures
        scan(bytes, cursor).token.kind == if byte_at(bytes, blanks_end(bytes, cursor))
            == '=' as u8 {
            TokenType::Eq
        } else {
            TokenType::NotEq
        },
        scan(bytes, cursor).token.literal == seq![
            byte_at(bytes, blanks_end(bytes, cursor)) as char,
            '=',
        ],
        scan(bytes, cursor).next == blanks_end(bytes, cursor) + 2,
{
    reveal_strlit("==");
    reveal_strlit("!=");
    assert("=="@ =~= seq!['=', '=']);
    assert("!="@ =~= seq!['!', '=']);
}

/// A run of letters is read whole, as far as it goes, and as one token:
/// the keyword that the whole run spells, or an `Identifier` where it
/// spells none.
pub proof fn lemma_letter_run(bytes: Seq<u8>, cursor: int)
    requires
        letter(byte_at(bytes, blanks_end(bytes, cursor))),
    ensures
        ({
            let start = blanks_end(bytes, cursor);
            let end = scan(bytes, cursor).next;
            let word = scan(bytes, cursor).token.literal;
            &&& 0 <= start < end <= bytes.len()
            &&& forall|k: int| start <= k < end ==> letter(#[trigger] bytes[k])
            &&& !letter(byte_at(bytes, end))
            &&& word == ascii_text(bytes.subrange(start, end))
            &&& scan(bytes, cursor).token.kind == keyword_kind(word)
        }),
{
    let start = blanks_end(bytes, cursor);
    lemma_letters_end(bytes, start + 1);
}

/// A run of digits is read whole, as far as it goes, and as one `Integer`.
pub proof fn lemma_digit_run(bytes: Seq<u8>, cursor: int)
    requires
        digit(byte_at(bytes, blanks_end(bytes, cursor))),
    ensures
        ({
            let start = blanks_end(bytes, cursor);
            let end = scan(bytes, cursor).next;
            &&& 0 <= start < end <= bytes.len()
            &&& forall|k: int| start <= k < end ==> digit(#[trigger] bytes[k])
            &&& !digit(byte_at(bytes, end))
            &&& scan(bytes, cursor).token.literal == ascii_text(bytes.subrange(start, end))
            &&& scan(bytes, cursor).token.kind == TokenType::Integer
        }),
{
    let start = blanks_end(bytes, cursor);
    lemma_digits_end(bytes, start + 1);
}

/// No token has an empty literal.
pub proof fn lemma_literal_nonempty(bytes: Seq<u8>, cursor: int)
    ensures
        scan(bytes, cursor).token.literal.len() > 0,
{
    let start = blanks_end(bytes, cursor);
    let first = byte_at(bytes, start);
    reveal_strlit("==");
    reveal_strlit("!=");
    if letter(first) {
        lemma_letter_run(bytes, cursor);
    } else if digit(first) {
        lemma_digit_run(bytes, cursor);
    }
}

fn is_digit(ch: u8) -> (yes: bool)
    ensures
        yes == digit(ch),
{
    '0' as u8 <= ch && ch <= '9' as u8
}

fn is_letter(ch: u8) -> (yes: bool)
    ensures
        yes == letter(ch),
{
    ('a' as u8 <= ch && ch <= 'z' as u8) || ('A' as u8 <= ch && ch <= 'Z' as u8) || ch == '_' as u8
}

fn is_whitespace(ch: u8) -> (yes: bool)
    ensures
        yes == blank(ch),
{
    ch == ' ' as u8 || ch == '\t' as u8 || ch == '\n' as u8 || ch == '\r' as u8
}

fn one_byte_kind(ch: u8) -> (kind: TokenType)
    ensures
        kind == symbol_kind(ch),
{
    if ch == '=' as u8 {
        TokenType::Assign
    } else if ch == '+' as u8 {
        TokenType::Plus
    } else if ch == '-' as u8 {
        TokenType::Minus
    } else if ch == '!' as u8 {
        TokenType::Bang
    } else if ch == '/' as u8 {
        TokenType::Slash
    } else if ch == '*' as u8 {
        TokenType::Asterisk
    } else if ch == '<' as u8 {
        TokenType::Lt
    } else if ch == '>' as u8 {
        TokenType::Gt
    } else if ch == ';' as u8 {
        TokenType::Semicolon
    } else if ch == '(' as u8 {
        TokenType::LParen
    } else if ch == ')' as u8 {
        TokenType::RParen
    } else if ch == ',' as u8 {
        TokenType::Comma
    } else if ch == '{' as u8 {
        TokenType::LBrace
    } else if ch == '}' as u8 {
        TokenType::RBrace
    } else if ch == 0 {
        TokenType::Eof
    } else {
        TokenType::Illegal
    }
}

/// A lexer over one piece of source text.
///
/// It keeps the offset of the byte under its cursor, the offset of the
/// byte it will read next, and the byte under the cursor, which is NUL once
/// the cursor is past the last byte. It only moves forward.
pub struct Lexer<'a> {
    source: &'a str,
    position: usize,
    read_position: usize,
    ch: u8,
}

impl<'a> Lexer<'a> {
    /// The bytes of the source text.
    pub closed spec fn source(&self) -> Seq<u8> {
        self.source.spec_bytes()
    }

    /// The offset of the byte under the cursor: everything before it has
    /// been read.
    pub closed spec fn cursor(&self) -> int {
        self.position as int
    }

    /// The cursor is inside the source or right behind it, and the lexer
    /// holds the byte under it.
    pub closed spec fn wf(&self) -> bool {
        let bytes = self.source.spec_bytes();
        &&& bytes.len() <= usize::MAX
        &&& self.position <= bytes.len()
        &&& self.read_position == if self.position < bytes.len() {
            self.position + 1
        } else {
            bytes.len() as int
        }
        &&& self.ch == byte_at(bytes, self.position as int)
    }

    /// The cursor of a lexer is in its source, or right behind it.
    pub proof fn lemma_cursor_in_source(&self)
        requires
            self.wf(),
        ensures
            0 <= self.cursor() <= self.source().len(),
    {
    }

    /// A lexer at the start of `input`.
    pub fn new(input: &'a str) -> (lexer: Self)
        ensures
            lexer.wf(),
            lexer.source() == input.spec_bytes(),
            lexer.cursor() == 0,
    {
        let mut lexer = Self { source: input, position: 0, read_position: 0, ch: 0 };
        lexer.read_char();
        lexer
    }

    /// Reads the next token and moves the cursor behind it.
    ///
    /// At the end of the source the token is `Eof`, with the literal
    /// `"\0"`, and the lexer stays as it is, however often this is called.
    pub fn next_token(&mut self) -> (token: Token)
        requires
            old(self).wf(),
        ensures
            final(self).wf(),
            final(self).source() == old(self).source(),
            token@ == scan(old(self).source(), old(self).cursor()).token,
            final(self).cursor() == scan(old(self).source(), old(self).cursor()).next,
            old(self).cursor() == old(self).source().len() ==> *final(self) == *old(self),
    {
        self.skip_whitespace();
        if is_letter(self.ch) {
            let identifier = self.read_identifier();
            return Token::new(TokenType::identifier_token(identifier.as_str()), identifier);
        }
        if is_digit(self.ch) {
            let number = self.read_number();
            return Token::new(TokenType::Integer, number);
        }
        let (kind, literal) = if self.ch == '=' as u8 && self.peek_char() == '=' as u8 {
            let literal = self.two_byte_literal();
            self.read_char();
            (TokenType::Eq, literal)
        } else if self.ch == '!' as u8 && self.peek_char() == '=' as u8 {
            let literal = self.two_byte_literal();
            self.read_char();
            (TokenType::NotEq, literal)
        } else {
            (one_byte_kind(self.ch), self.one_byte_literal())
        };
        self.read_char();
        proof {
            reveal_strlit("==");
            reveal_strlit("!=");
            assert(seq!['=', '='] =~= "=="@);
            assert(seq!['!', '='] =~= "!="@);
        }
        Token::new(kind, literal)
    }

    /// Whether the cursor stands behind the last byte of the source.
    pub fn at_end(&self) -> (yes: bool)
        requires
            self.wf(),
        ensures
            yes == (self.cursor() == self.source().len()),
    {
        self.position >= self.source.as_bytes().len()
    }

    /// Reads the next token, and hands it out unless it is `Eof`: the way
    /// to pull the tokens of a source one by one, up to its end.
    pub fn next(&mut self) -> (item: Option<Token>)
        requires
            old(self).wf(),
        ensures
            final(self).wf(),
            final(self).source() == old(self).source(),
            final(self).cursor() == scan(old(self).source(), old(self).cursor()).next,
            match item {
                Some(token) => token@ == scan(old(self).source(), old(self).cursor()).token
                    && token@.kind != TokenType::Eof,
                None => scan(old(self).source(), old(self).cursor()).token.kind == TokenType::Eof,
            },
    {
        let token = self.next_token();
        match token.get_type() {
            TokenType::Eof => None,
            _ => Some(token),
        }
    }

    /// The byte behind the one under the cursor, without moving.
    fn peek_char(&self) -> (ch: u8)
        requires
            self.wf(),
        ensures
            ch == byte_at(self.source(), self.cursor() + 1),
    {
        let input = self.source.as_bytes();
        if self.read_position >= input.len() {
            0
        } else {
            input[self.read_position]
        }
    }

    /// Moves the cursor to the next byte; at the end of the source it stays.
    fn read_char(&mut self)
        requires
            old(self).read_position <= old(self).source.spec_bytes().len(),
        ensures
            final(self).wf(),
            final(self).source == old(self).source,
            final(self).position == old(self).read_position,
    {
        let input = self.source.as_bytes();
        if self.read_position >= input.len() {
            self.ch = 0;
        } else {
            self.ch = input[self.read_position];
        }
        self.position = self.read_position;
        if self.read_position < input.len() {
            self.read_position += 1;
        }
    }

    /// Reads the run of digits under the cursor.
    fn read_number(&mut self) -> (number: String)
        requires
            old(self).wf(),
        ensures
            final(self).wf(),
            final(self).source == old(self).source,
            final(self).cursor() == digits_end(old(self).source(), old(self).cursor()),
            number@ == ascii_text(
                old(self).source().subrange(old(self).cursor(), final(self).cursor()),
            ),
    {
        let start_position = self.position;
        while is_digit(self.ch)
            invariant
                self.wf(),
                self.source == old(self).source,
                start_position <= self.position,
                digits_end(self.source(), self.cursor()) == digits_end(
                    self.source(),
                    start_position as int,
                ),
                forall|k: int|
                    start_position <= k < self.position ==> digit(#[trigger] self.source()[k]),
            decreases self.source().len() - self.position,
        {
            self.read_char();
        }
        ascii_slice(self.source, start_position, self.position)
    }

    /// Reads the run of letters under the cursor.
    fn read_identifier(&mut self) -> (identifier: String)
        requires
            old(self).wf(),
        ensures
            final(self).wf(),
            final(self).source == old(self).source,
            final(self).cursor() == letters_end(old(self).source(), old(self).cursor()),
            identifier@ == ascii_text(
                old(self).source().subrange(old(self).cursor(), final(self).cursor()),
            ),
    {
        let start_position = self.position;
        while is_letter(self.ch)
            invariant
                self.wf(),
                self.source == old(self).source,
                start_position <= self.position,
                letters_end(self.source(), self.cursor()) == letters_end(
                    self.source(),
                    start_position as int,
                ),
                forall|k: int|
                    start_position <= k < self.position ==> letter(#[trigger] self.source()[k]),
            decreases self.source().len() - self.position,
        {
            self.read_char();
        }
        ascii_slice(self.source, start_position, self.position)
    }

    /// Moves the cursor over the blanks under it.
    fn skip_whitespace(&mut self)
        requires
            old(self).wf(),
        ensures
            final(self).wf(),
            final(self).source == old(self).source,
            final(self).cursor() == blanks_end(old(self).source(), old(self).cursor()),
            old(self).cursor() == old(self).source().len() ==> *final(self) == *old(self),
    {
        while is_whitespace(self.ch)
            invariant
                self.wf(),
                self.source == old(self).source,
                blanks_end(self.source(), self.cursor()) == blanks_end(
                    old(self).source(),
                    old(self).cursor(),
                ),
                old(self).cursor() == old(self).source().len() ==> *self == *old(self),
            decreases self.source().len() - self.position,
        {
            self.read_char();
        }
    }

    /// The literal of the one-byte token under the cursor.
    fn one_byte_literal(&self) -> (literal: String)
        requires
            self.wf(),
        ensures
            literal@ == symbol_text(byte_at(self.source(), self.cursor())),
    {
        proof {
            reveal_strlit("\0");
            reveal_strlit("\u{FFFD}");
        }
        if self.position >= self.source.as_bytes().len() {
            let literal = "\0".to_owned();
            assert(literal@ =~= seq![0u8 as char]);
            literal
        } else if self.ch < 0x80 {
            let literal = ascii_slice(self.source, self.position, self.position + 1);
            assert(literal@ =~= seq![self.ch as char]);
            literal
        } else {
            let literal = "\u{FFFD}".to_owned();
            assert(literal@ =~= seq!['\u{FFFD}']);
            literal
        }
    }

    /// The literal of the two-byte token under the cursor.
    fn two_byte_literal(&self) -> (literal: String)
        requires
            self.wf(),
            self.cursor() + 1 < self.source().len(),
            self.source()[self.cursor()] < 0x80,
            self.source()[self.cursor() + 1] < 0x80,
        ensures
            literal@ == seq![
                self.source()[self.cursor()] as char,
                self.source()[self.cursor() + 1] as char,
            ],
    {
        let literal = ascii_slice(self.source, self.position, self.position + 2);
        assert(literal@ =~= seq![
            self.source()[self.cursor()] as char,
            self.source()[self.cursor() + 1] as char,
        ]);
        literal
    }
}

} // verus!
