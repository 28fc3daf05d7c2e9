//! The scanner: turns Lox source bytes into a finite stream of tokens,
//! ending in exactly one end-of-stream sentinel.
use vstd::prelude::*;
use vstd::string::{StrSliceExecFns, StringSliceAdditionalSpecFns};

use crate::compiler::bytes_eq;
use crate::token::{ErrorToken, Token, TokenType};

verus! {

/// The byte values of the characters the scanner inspects.
pub const BLANK: u8 = 32;

pub const TAB: u8 = 9;

pub const CARRIAGE_RETURN: u8 = 13;

pub const NEWLINE: u8 = 10;

pub const QUOTE: u8 = 34;

pub const BANG_BYTE: u8 = 33;

pub const STAR_BYTE: u8 = 42;

pub const PLUS_BYTE: u8 = 43;

pub const COMMA_BYTE: u8 = 44;

pub const MINUS_BYTE: u8 = 45;

pub const DOT_BYTE: u8 = 46;

pub const SLASH_BYTE: u8 = 47;

pub const DIGIT_0: u8 = 48;

pub const DIGIT_9: u8 = 57;

pub const SEMICOLON_BYTE: u8 = 59;

pub const LESS_BYTE: u8 = 60;

pub const EQUAL_BYTE: u8 = 61;

pub const GREATER_BYTE: u8 = 62;

pub const LPAREN: u8 = 40;

pub const RPAREN: u8 = 41;

pub const LBRACE: u8 = 123;

pub const RBRACE: u8 = 125;

pub const UPPER_A: u8 = 65;

pub const UPPER_Z: u8 = 90;

pub const UNDERSCORE: u8 = 95;

pub const LOWER_A: u8 = 97;

pub const LOWER_Z: u8 = 122;


/// An ASCII letter or underscore: what may begin an identifier.
pub open spec fn spec_is_alpha(c: u8) -> bool {
    97 <= c <= 122 || 65 <= c <= 90 || c == 95
}

/// An ASCII decimal digit.
pub open spec fn spec_is_digit(c: u8) -> bool {
    48 <= c <= 57
}

/// Letters and underscore begin identifiers.
pub fn is_alpha(c: u8) -> (r: bool)
    ensures
        r == spec_is_alpha(c),
{
    (c >= LOWER_A && c <= LOWER_Z) || (c >= UPPER_A && c <= UPPER_Z) || c == UNDERSCORE
}

/// ASCII decimal digits.
pub fn is_digit(c: u8) -> (r: bool)
    ensures
        r == spec_is_digit(c),
{
    c >= DIGIT_0 && c <= DIGIT_9
}

/// The keyword a lexeme spells, or a plain identifier.
pub open spec fn spec_keyword(lex: Seq<u8>) -> TokenType {
    if lex == "and".spec_bytes() {
        TokenType::And
    } else if lex == "class".spec_bytes() {
        TokenType::Class
    } else if lex == "else".spec_bytes() {
        TokenType::Else
    } else if lex == "false".spec_bytes() {
        TokenType::False
    } else if lex == "for".spec_bytes() {
        TokenType::For
    } else if lex == "fun".spec_bytes() {
        TokenType::Fun
    } else if lex == "if".spec_bytes() {
        TokenType::If
    } else if lex == "nil".spec_bytes() {
        TokenType::Nil
    } else if lex == "or".spec_bytes() {
        TokenType::Or
    } else if lex == "print".spec_bytes() {
        TokenType::Print
    } else if lex == "return".spec_bytes() {
        TokenType::Return
    } else if lex == "super".spec_bytes() {
        TokenType::Super
    } else if lex == "this".spec_bytes() {
        TokenType::This
    } else if lex == "true".spec_bytes() {
        TokenType::True
    } else if lex == "var".spec_bytes() {
        TokenType::Var
    } else if lex == "while".spec_bytes() {
        TokenType::While
    } else {
        TokenType::Identifier
    }
}

/// The kind of a one- or two-byte operator spelling; two-byte spellings win
/// over their one-byte prefixes (maximal munch).
pub open spec fn spec_operator(lex: Seq<u8>) -> TokenType {
    if lex == seq![LPAREN] {
        TokenType::LeftParen
    } else if lex == seq![RPAREN] {
        TokenType::RightParen
    } else if lex == seq![LBRACE] {
        TokenType::LeftBrace
    } else if lex == seq![RBRACE] {
        TokenType::RightBrace
    } else if lex == seq![COMMA_BYTE] {
        TokenType::Comma
    } else if lex == seq![DOT_BYTE] {
        TokenType::Dot
    } else if lex == seq![MINUS_BYTE] {
        TokenType::Minus
    } else if lex == seq![PLUS_BYTE] {
        TokenType::Plus
    } else if lex == seq![SEMICOLON_BYTE] {
        TokenType::Semicolon
    } else if lex == seq![SLASH_BYTE] {
        TokenType::Slash
    } else if lex == seq![STAR_BYTE] {
        TokenType::Star
    } else if lex == seq![BANG_BYTE, EQUAL_BYTE] {
        TokenType::BangEqual
    } else if lex == seq![BANG_BYTE] {
        TokenType::Bang
    } else if lex == seq![EQUAL_BYTE, EQUAL_BYTE] {
        TokenType::EqualEqual
    } else if lex == seq![EQUAL_BYTE] {
        TokenType::Equal
    } else if lex == seq![GREATER_BYTE, EQUAL_BYTE] {
        TokenType::GreaterEqual
    } else if lex == seq![GREATER_BYTE] {
        TokenType::Greater
    } else if lex == seq![LESS_BYTE, EQUAL_BYTE] {
        TokenType::LessEqual
    } else if lex == seq![LESS_BYTE] {
        TokenType::Less
    } else {
        TokenType::Error
    }
}

/// What kind of token a lexeme is: the empty lexeme is the end of the
/// stream; a quote begins a string; a digit a number; a letter or
/// underscore a keyword or identifier; the rest are the operator spellings.
pub open spec fn spec_classify(lex: Seq<u8>) -> TokenType {
    if lex.len() == 0 {
        TokenType::EOF
    } else if lex[0] == QUOTE {
        TokenType::String
    } else if spec_is_digit(lex[0]) {
        TokenType::Number
    } else if spec_is_alpha(lex[0]) {
        spec_keyword(lex)
    } else {
        spec_operator(lex)
    }
}

/// Copies the byte range `[from, to)` of `src` into a fresh vector.
fn copy_range(src: &Vec<u8>, from: usize, to: usize) -> (r: Vec<u8>)
    requires
        from <= to <= src@.len(),
    ensures
        r@ == src@.subrange(from as int, to as int),
{
    let mut out: Vec<u8> = Vec::new();
    let mut i: usize = from;
    while i < to
        invariant
            from <= i <= to <= src@.len(),
            out@ == src@.subrange(from as int, i as int),
        decreases to - i,
    {
        out.push(src[i]);
        proof {
            assert(out@ =~= src@.subrange(from as int, i + 1));
        }
        i = i + 1;
    }
    out
}

/// The scanner's cursor over the source bytes.
pub struct Scanner {
    src: Vec<u8>,
    start: usize,
    current: usize,
    line: u32,
    finished: bool,
}

impl Scanner {
    /// The cursor stays inside the source, and once the end-of-stream token
    /// was produced the cursor is at the end.
    pub closed spec fn wf(&self) -> bool {
        &&& self.start <= self.current <= self.src@.len()
        &&& (self.finished ==> self.current == self.src@.len())
    }

    /// How many bytes are still unread.
    pub closed spec fn remaining(&self) -> int {
        self.src@.len() - self.current
    }

    /// Whether the end-of-stream token was already produced.
    pub closed spec fn spec_finished(&self) -> bool {
        self.finished
    }

    /// The source bytes not yet consumed.
    pub closed spec fn spec_rest(&self) -> Seq<u8> {
        self.src@.subrange(self.current as int, self.src@.len() as int)
    }

    /// A scanner at the start of the given source.
    pub fn new(src: Vec<u8>) -> (r: Scanner)
        ensures
            r.wf(),
            !r.spec_finished(),
    {
        Scanner { src, start: 0, current: 0, line: 1, finished: false }
    }

    /// Whether every source byte was consumed.
    pub fn is_at_end(&self) -> (r: bool)
        ensures
            r == (self.remaining() == 0),
    {
        self.current == self.src.len()
    }

    /// The next unread byte, or 0 at the end of the source.
    fn peek(&self) -> (r: u8)
        requires
            self.wf(),
        ensures
            r == if self.current < self.src@.len() {
                self.src@[self.current as int]
            } else {
                0u8
            },
    {
        if self.current < self.src.len() {
            self.src[self.current]
        } else {
            0
        }
    }

    /// The byte after the next one, or 0 past the end of the source.
    fn peek_next(&self) -> (r: u8)
        requires
            self.wf(),
        ensures
            r == if self.current + 1 < self.src@.len() {
                self.src@[self.current + 1]
            } else {
                0u8
            },
    {
        if self.current < self.src.len() && self.current + 1 < self.src.len() {
            self.src[self.current + 1]
        } else {
            0
        }
    }

    /// Consumes and returns the next byte.
    fn advance(&mut self) -> (c: u8)
        requires
            old(self).wf(),
            old(self).remaining() > 0,
        ensures
            final(self).wf(),
            final(self).src == old(self).src,
            final(self).start == old(self).start,
            final(self).finished == old(self).finished,
            final(self).current == old(self).current + 1,
            c == old(self).src@[old(self).current as int],
    {
        let _bound = self.src.len();
        let c = self.src[self.current];
        self.current = self.current + 1;
        c
    }

    /// Consumes the next byte when it equals `expected`.
    fn matches(&mut self, expected: u8) -> (r: bool)
        requires
            old(self).wf(),
        ensures
            final(self).wf(),
            final(self).src == old(self).src,
            final(self).start == old(self).start,
            final(self).finished == old(self).finished,
            old(self).current <= final(self).current <= old(self).current + 1,
            r == (old(self).current < old(self).src@.len() && old(self).src@[old(
                self,
            ).current as int] == expected),
            r ==> final(self).current == old(self).current + 1,
            !r ==> final(self).current == old(self).current,
    {
        if self.current < self.src.len() && self.src[self.current] == expected {
            self.current = self.current + 1;
            true
        } else {
            false
        }
    }

    /// Steps the line counter, saturating at its limit.
    fn bump_line(&mut self)
        requires
            old(self).wf(),
        ensures
            final(self).wf(),
            final(self).src == old(self).src,
            final(self).start == old(self).start,
            final(self).finished == old(self).finished,
            final(self).current == old(self).current,
    {
        if self.line < u32::MAX {
            self.line = self.line + 1;
        }
    }

    /// Skips blanks, tabs, carriage returns, newlines (counting lines) and
    /// `//` comments, which run to the end of their line.
    fn skip_whitespace(&mut self)
        requires
            old(self).wf(),
        ensures
            final(self).wf(),
            final(self).src == old(self).src,
            final(self).start == old(self).start,
            final(self).finished == old(self).finished,
            final(self).current >= old(self).current,
    {
        loop
            invariant
                self.wf(),
                self.src == old(self).src,
                self.start == old(self).start,
                self.finished == old(self).finished,
                self.current >= old(self).current,
            decreases self.remaining(),
        {
            if self.current >= self.src.len() {
                return;
            }
            let c = self.src[self.current];
            if c == BLANK || c == CARRIAGE_RETURN || c == TAB {
                self.current = self.current + 1;
            } else if c == NEWLINE {
                self.bump_line();
                self.current = self.current + 1;
            } else if c == SLASH_BYTE && self.peek_next() == SLASH_BYTE {
                // A comment runs to the end of the line but does not consume
                // the newline itself, so the line counter steps above.
                let ghost cur0 = self.current;
                while self.current < self.src.len() && self.src[self.current] != NEWLINE
                    invariant
                        self.wf(),
                        self.src == old(self).src,
                        self.start == old(self).start,
                        self.finished == old(self).finished,
                        self.current >= cur0,
                        cur0 >= old(self).current,
                        cur0 < self.src@.len(),
                        self.src@[cur0 as int] == SLASH_BYTE,
                    decreases self.remaining(),
                {
                    self.current = self.current + 1;
                }
            } else {
                return;
            }
        }
    }

    /// A token of the given kind covering the bytes scanned since `start`.
    fn new_token(&self, id: TokenType) -> (t: Token)
        requires
            self.wf(),
        ensures
            t.id == id,
            t.lexeme@ == self.src@.subrange(self.start as int, self.current as int),
    {
        let lexeme = copy_range(&self.src, self.start, self.current);
        Token::new(id, lexeme, self.line)
    }

    /// Scans the rest of an identifier and classifies it as a keyword or a
    /// plain identifier.
    fn identifier(&mut self) -> (t: Token)
        requires
            old(self).wf(),
        ensures
            final(self).wf(),
            final(self).src == old(self).src,
            final(self).start == old(self).start,
            final(self).finished == old(self).finished,
            final(self).current >= old(self).current,
            t.id != TokenType::EOF && t.id != TokenType::Error,
            t.lexeme@ == final(self).src@.subrange(
                old(self).start as int,
                final(self).current as int,
            ),
            t.id == spec_keyword(t.lexeme@),
    {
        loop
            invariant
                self.wf(),
                self.src == old(self).src,
                self.start == old(self).start,
                self.finished == old(self).finished,
                self.current >= old(self).current,
            decreases self.remaining(),
        {
            if self.current >= self.src.len() {
                break;
            }
            let c = self.src[self.current];
            if !((c >= LOWER_A && c <= LOWER_Z) || (c >= UPPER_A && c <= UPPER_Z) || c == UNDERSCORE || (c >= DIGIT_0
                && c <= DIGIT_9)) {
                break;
            }
            self.current = self.current + 1;
        }
        let id = self.id_type();
        self.new_token(id)
    }

    /// The keyword kind of the lexeme scanned so far, or `Identifier`.
    fn id_type(&self) -> (id: TokenType)
        requires
            self.wf(),
        ensures
            id != TokenType::EOF && id != TokenType::Error,
            id == spec_keyword(self.src@.subrange(self.start as int, self.current as int)),
    {
        let lex = copy_range(&self.src, self.start, self.current);
        if bytes_eq(&lex, &"and".as_bytes_vec()) {
            TokenType::And
        } else if bytes_eq(&lex, &"class".as_bytes_vec()) {
            TokenType::Class
        } else if bytes_eq(&lex, &"else".as_bytes_vec()) {
            TokenType::Else
        } else if bytes_eq(&lex, &"false".as_bytes_vec()) {
            TokenType::False
        } else if bytes_eq(&lex, &"for".as_bytes_vec()) {
            TokenType::For
        } else if bytes_eq(&lex, &"fun".as_bytes_vec()) {
            TokenType::Fun
        } else if bytes_eq(&lex, &"if".as_bytes_vec()) {
            TokenType::If
        } else if bytes_eq(&lex, &"nil".as_bytes_vec()) {
            TokenType::Nil
        } else if bytes_eq(&lex, &"or".as_bytes_vec()) {
            TokenType::Or
        } else if bytes_eq(&lex, &"print".as_bytes_vec()) {
            TokenType::Print
        } else if bytes_eq(&lex, &"return".as_bytes_vec()) {
            TokenType::Return
        } else if bytes_eq(&lex, &"super".as_bytes_vec()) {
            TokenType::Super
        } else if bytes_eq(&lex, &"this".as_bytes_vec()) {
            TokenType::This
        } else if bytes_eq(&lex, &"true".as_bytes_vec()) {
            TokenType::True
        } else if bytes_eq(&lex, &"var".as_bytes_vec()) {
            TokenType::Var
        } else if bytes_eq(&lex, &"while".as_bytes_vec()) {
            TokenType::While
        } else {
            TokenType::Identifier
        }
    }

    /// Scans the rest of a number: digits, then optionally one decimal point
    /// followed by more digits.
    fn number(&mut self) -> (t: Token)
        requires
            old(self).wf(),
            forall|k: int|
                old(self).start <= k < old(self).current ==> spec_is_digit(
                    #[trigger] old(self).src@[k],
                ),
        ensures
            final(self).wf(),
            final(self).src == old(self).src,
            final(self).start == old(self).start,
            final(self).finished == old(self).finished,
            final(self).current >= old(self).current,
            t.id == TokenType::Number,
            t.lexeme@ == final(self).src@.subrange(
                old(self).start as int,
                final(self).current as int,
            ),
            forall|k: int|
                0 <= k < t.lexeme@.len() ==> (spec_is_digit(#[trigger] t.lexeme@[k]) || t.lexeme@[k]
                    == DOT_BYTE),
            forall|k1: int, k2: int|
                0 <= k1 < t.lexeme@.len() && 0 <= k2 < t.lexeme@.len() && t.lexeme@[k1] == DOT_BYTE
                    && t.lexeme@[k2] == DOT_BYTE ==> k1 == k2,
    {
        loop
            invariant
                self.wf(),
                self.src == old(self).src,
                self.start == old(self).start,
                self.finished == old(self).finished,
                self.current >= old(self).current,
                forall|k: int|
                    self.start <= k < self.current ==> spec_is_digit(#[trigger] self.src@[k]),
            decreases self.remaining(),
        {
            if self.current >= self.src.len() {
                break;
            }
            let c = self.src[self.current];
            if !(c >= DIGIT_0 && c <= DIGIT_9) {
                break;
            }
            self.current = self.current + 1;
        }
        let n = self.src.len();
        let dot_then_digit = self.peek() == DOT_BYTE && {
            let c = self.peek_next();
            c >= DIGIT_0 && c <= DIGIT_9
        };
        if dot_then_digit {
            // Consume the decimal point.
            let ghost dotp = self.current as int;
            self.current = self.current + 1;
            loop
                invariant
                    self.wf(),
                    self.src == old(self).src,
                    self.start == old(self).start,
                    self.finished == old(self).finished,
                    self.current >= old(self).current,
                    self.start <= dotp < self.current,
                    forall|k: int|
                        self.start <= k < self.current ==> (spec_is_digit(#[trigger] self.src@[k])
                            || k == dotp),
                decreases self.remaining(),
            {
                if self.current >= self.src.len() {
                    break;
                }
                let c = self.src[self.current];
                if !(c >= DIGIT_0 && c <= DIGIT_9) {
                    break;
                }
                self.current = self.current + 1;
            }
            let t = self.new_token(TokenType::Number);
            proof {
                assert forall|k: int| 0 <= k < t.lexeme@.len() implies (spec_is_digit(
                    #[trigger] t.lexeme@[k],
                ) || t.lexeme@[k] == DOT_BYTE) by {
                    assert(t.lexeme@[k] == self.src@[self.start + k]);
                }
                assert forall|k1: int, k2: int|
                    0 <= k1 < t.lexeme@.len() && 0 <= k2 < t.lexeme@.len() && t.lexeme@[k1]
                        == DOT_BYTE && t.lexeme@[k2] == DOT_BYTE implies k1 == k2 by {
                    assert(t.lexeme@[k1] == self.src@[self.start + k1]);
                    assert(t.lexeme@[k2] == self.src@[self.start + k2]);
                    assert(self.start + k1 == dotp && self.start + k2 == dotp);
                }
            }
            return t;
        }
        let t = self.new_token(TokenType::Number);
        proof {
            assert forall|k: int| 0 <= k < t.lexeme@.len() implies (spec_is_digit(
                #[trigger] t.lexeme@[k],
            ) || t.lexeme@[k] == DOT_BYTE) by {
                assert(t.lexeme@[k] == self.src@[self.start + k]);
            }
            assert forall|k1: int, k2: int|
                0 <= k1 < t.lexeme@.len() && 0 <= k2 < t.lexeme@.len() && t.lexeme@[k1] == DOT_BYTE
                    && t.lexeme@[k2] == DOT_BYTE implies k1 == k2 by {
                assert(t.lexeme@[k1] == self.src@[self.start + k1]);
            }
        }
        t
    }

    /// Scans the rest of a string literal; the lexeme keeps both quotes. An
    /// unterminated string is a scanner diagnostic.
    fn string(&mut self) -> (r: Result<Token, ErrorToken>)
        requires
            old(self).wf(),
            old(self).current == old(self).start + 1,
            old(self).start < old(self).src@.len(),
            old(self).src@[old(self).start as int] == QUOTE,
        ensures
            final(self).wf(),
            final(self).src == old(self).src,
            final(self).start == old(self).start,
            final(self).finished == old(self).finished,
            final(self).current >= old(self).current,
            r matches Ok(t) ==> t.id == TokenType::String && t.lexeme@ == final(self).src@.subrange(old(self).start as int, final(self).current as int) && t.lexeme@.len()
                >= 2 && t.lexeme@[0] == QUOTE && t.lexeme@.last() == QUOTE,
    {
        while self.current < self.src.len() && self.src[self.current] != QUOTE
            invariant
                self.wf(),
                self.src == old(self).src,
                self.start == old(self).start,
                self.finished == old(self).finished,
                self.current >= old(self).current,
            decreases self.remaining(),
        {
            if self.src[self.current] == NEWLINE {
                self.bump_line();
            }
            self.current = self.current + 1;
        }
        if self.current == self.src.len() {
            Err(ErrorToken::new("Unterminated string.".as_bytes_vec(), self.line))
        } else {
            // The closing quote.
            let ghost closep = self.current as int;
            self.current = self.current + 1;
            let t = self.new_token(TokenType::String);
            proof {
                assert(t.lexeme@[0] == self.src@[self.start as int]);
                assert(t.lexeme@.last() == self.src@[closep]);
            }
            Ok(t)
        }
    }

    /// Scans the next token. At the end of the source it yields the
    /// end-of-stream sentinel exactly once and is finished afterwards; a
    /// lexical fault is returned as a diagnostic and scanning can go on.
    pub fn next_token(&mut self) -> (r: Result<Token, ErrorToken>)
        requires
            old(self).wf(),
        ensures
            final(self).wf(),
            final(self).remaining() <= old(self).remaining(),
            match r {
                Ok(t) => {
                    &&& t.id != TokenType::Error
                    &&& (t.id == TokenType::EOF <==> final(self).spec_finished())
                    &&& (t.id != TokenType::EOF ==> final(self).remaining() < old(
                        self,
                    ).remaining())
                    &&& t.id == spec_classify(t.lexeme@)
                    &&& (t.id == TokenType::String ==> t.lexeme@.len() >= 2 && t.lexeme@[0]
                        == QUOTE && t.lexeme@.last() == QUOTE)
                    &&& (t.id == TokenType::Number ==> (forall|k: int|
                        0 <= k < t.lexeme@.len() ==> (spec_is_digit(#[trigger] t.lexeme@[k])
                            || t.lexeme@[k] == DOT_BYTE)) && (forall|k1: int, k2: int|
                        0 <= k1 < t.lexeme@.len() && 0 <= k2 < t.lexeme@.len() && t.lexeme@[k1]
                            == DOT_BYTE && t.lexeme@[k2] == DOT_BYTE ==> k1 == k2))
                    &&& ((t.id == TokenType::Bang || t.id == TokenType::Equal || t.id
                        == TokenType::Greater || t.id == TokenType::Less) ==> (final(self).spec_rest().len() == 0 || final(self).spec_rest()[0] != EQUAL_BYTE))
                },
                Err(_) => {
                    &&& final(self).remaining() < old(self).remaining()
                    &&& final(self).spec_finished() == old(self).spec_finished()
                },
            },
            old(self).spec_finished() ==> (r matches Ok(t) && t.id == TokenType::EOF),
    {
        self.skip_whitespace();
        self.start = self.current;

        if self.current == self.src.len() {
            self.finished = true;
            let t = self.new_token(TokenType::EOF);
            proof {
                assert(t.lexeme@.len() == 0);
            }
            return Ok(t);
        }
        let c = self.advance();
        if is_alpha(c) {
            let t = self.identifier();
            proof {
                assert(t.lexeme@[0] == c);
            }
            return Ok(t);
        }
        if is_digit(c) {
            let t = self.number();
            proof {
                assert(t.lexeme@[0] == c);
            }
            return Ok(t);
        }
        let id = if c == LPAREN {
            TokenType::LeftParen
        } else if c == RPAREN {
            TokenType::RightParen
        } else if c == LBRACE {
            TokenType::LeftBrace
        } else if c == RBRACE {
            TokenType::RightBrace
        } else if c == COMMA_BYTE {
            TokenType::Comma
        } else if c == DOT_BYTE {
            TokenType::Dot
        } else if c == MINUS_BYTE {
            TokenType::Minus
        } else if c == PLUS_BYTE {
            TokenType::Plus
        } else if c == SEMICOLON_BYTE {
            TokenType::Semicolon
        } else if c == SLASH_BYTE {
            TokenType::Slash
        } else if c == STAR_BYTE {
            TokenType::Star
        } else if c == BANG_BYTE {
            if self.matches(EQUAL_BYTE) {
                TokenType::BangEqual
            } else {
                TokenType::Bang
            }
        } else if c == EQUAL_BYTE {
            if self.matches(EQUAL_BYTE) {
                TokenType::EqualEqual
            } else {
                TokenType::Equal
            }
        } else if c == GREATER_BYTE {
            if self.matches(EQUAL_BYTE) {
                TokenType::GreaterEqual
            } else {
                TokenType::Greater
            }
        } else if c == LESS_BYTE {
            if self.matches(EQUAL_BYTE) {
                TokenType::LessEqual
            } else {
                TokenType::Less
            }
        } else if c == QUOTE {
            return self.string();
        } else {
            return Err(ErrorToken::new("Unexpected character.".as_bytes_vec(), self.line));
        };
        let t = self.new_token(id);
        proof {
            assert(self.src@[self.start as int] == c);
            if self.current == self.start + 1 {
                assert(t.lexeme@ =~= seq![c]);
            } else {
                assert(t.lexeme@ =~= seq![c, self.src@[self.start as int + 1]]);
            }
        }
        Ok(t)
    }
}

/// Scans a whole source into tokens. A scanner diagnostic becomes a token of
/// kind `Error` whose lexeme is the message. The result always ends in
/// exactly one end-of-stream sentinel.
pub fn tokenize(src: Vec<u8>) -> (tokens: Vec<Token>)
    ensures
        tokens@.len() >= 1,
        tokens@[tokens@.len() - 1].id == TokenType::EOF,
        forall|i: int| 0 <= i < tokens@.len() - 1 ==> tokens@[i].id != TokenType::EOF,
        forall|i: int|
            0 <= i < tokens@.len() ==> ((#[trigger] tokens@[i]).id == TokenType::Error
                || tokens@[i].id == spec_classify(tokens@[i].lexeme@)),
{
    let mut scanner = Scanner::new(src);
    let mut tokens: Vec<Token> = Vec::new();
    loop
        invariant
            scanner.wf(),
            !scanner.spec_finished(),
            forall|i: int| 0 <= i < tokens@.len() ==> tokens@[i].id != TokenType::EOF,
            forall|i: int|
                0 <= i < tokens@.len() ==> ((#[trigger] tokens@[i]).id == TokenType::Error
                    || tokens@[i].id == spec_classify(tokens@[i].lexeme@)),
        decreases scanner.remaining(),
    {
        match scanner.next_token() {
            Ok(t) => {
                if t.id == TokenType::EOF {
                    tokens.push(t);
                    return tokens;
                }
                tokens.push(t);
            },
            Err(e) => {
                tokens.push(Token::new(TokenType::Error, e.message, e.line));
            },
        }
    }
}

} // verus!
