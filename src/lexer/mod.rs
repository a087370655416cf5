//! The lexer turns source text into tokens, one at a time and on demand.
//! It never stops on malformed input: what it cannot classify becomes an
//! `Error` token, which flows on like any other token.

pub mod model;
pub mod token;

use vstd::prelude::*;
use crate::text::{chars_of, push_char, push_str, string_from, string_of};
use model::{
    byte_offset, char_at, column_at, describes, fits, is_digit, is_space, keyword_or_ident, string_body,
    lemma_byte_offset_monotone, lemma_line_column_bounds, lemma_scan_progress, line_at, run_end,
    scan, token_starts, unknown_char_message, utf8_width, xid_continue, xid_start, ident_continue, ident_start, Class,
};
use token::{KindModel, Token, TokenKind};

verus! {

/// Relies on `unicode_xid::UnicodeXID::is_xid_start` for `char`, whose ASCII
/// fast path accepts exactly the letters.
#[verifier::external_body]
fn is_xid_start(c: char) -> (r: bool)
    ensures
        r == xid_start(c),
        r == ident_start(c),
        (c as u32) < 0x80 ==> (r == (('a' <= c && c <= 'z') || ('A' <= c && c <= 'Z'))),
{
    unicode_xid::UnicodeXID::is_xid_start(c)
}

/// Relies on `unicode_xid::UnicodeXID::is_xid_continue` for `char`, whose
/// ASCII fast path accepts exactly the letters, the digits and `_`.
#[verifier::external_body]
fn is_xid_continue(c: char) -> (r: bool)
    ensures
        r == xid_continue(c),
        r == ident_continue(c),
        (c as u32) < 0x80 ==> (r == (('a' <= c && c <= 'z') || ('A' <= c && c <= 'Z') || ('0'
            <= c && c <= '9') || c == '_')),
{
    unicode_xid::UnicodeXID::is_xid_continue(c)
}

/// Whether `c` is one of Unicode's Pattern_White_Space characters.
fn is_whitespace(c: char) -> (r: bool)
    ensures
        r == is_space(c),
{
    match c {
        '\u{0009}' | '\u{000A}' | '\u{000B}' | '\u{000C}' | '\u{000D}' | '\u{0020}' | '\u{0085}'
        | '\u{200E}' | '\u{200F}' | '\u{2028}' | '\u{2029}' => true,
        _ => false,
    }
}

/// The number of bytes that UTF-8 takes to encode `c`.
fn utf8_width_of(c: char) -> (w: usize)
    ensures
        w == utf8_width(c),
{
    let v = c as u32;
    if v < 0x80 {
        1
    } else if v < 0x800 {
        2
    } else if v < 0x10000 {
        3
    } else {
        4
    }
}

fn unknown_char_message_of(c: char) -> (r: String)
    ensures
        r@ == unknown_char_message(c),
{
    let mut m = string_from("Unknown character `");
    push_char(&mut m, c);
    push_str(&mut m, "` found in source");
    assert(m@ =~= unknown_char_message(c));
    m
}

/// Where a token starts: its character index, line, column and byte offset.
#[derive(Clone, Copy)]
struct Mark {
    index: usize,
    line: u32,
    column: u32,
    offset: usize,
}

/// Converts a source text into a stream of tokens.
pub struct Lexer {
    chars: Vec<char>,
    position: usize,
    line: u32,
    column: u32,
    offset: usize,
}

impl Lexer {
    /// The text being lexed.
    pub closed spec fn source(&self) -> Seq<char> {
        self.chars@
    }

    /// The index of the next character to be read.
    pub closed spec fn position(&self) -> int {
        self.position as int
    }

    /// A well-formed lexer stands within its text.
    pub proof fn lemma_position_bound(&self)
        requires
            self.wf(),
        ensures
            0 <= self.position() <= self.source().len(),
    {
    }

    /// The line, column and byte offset agree with the position.
    pub closed spec fn wf(&self) -> bool {
        &&& fits(self.chars@)
        &&& self.position <= self.chars@.len()
        &&& self.line == line_at(self.chars@, self.position as int)
        &&& self.column == column_at(self.chars@, self.position as int)
        &&& self.offset == byte_offset(self.chars@, self.position as int)
    }

    spec fn marks(&self, m: Mark) -> bool {
        &&& m.index < self.chars@.len()
        &&& m.line == line_at(self.chars@, m.index as int)
        &&& m.column == column_at(self.chars@, m.index as int)
        &&& m.offset == byte_offset(self.chars@, m.index as int)
    }

    /// The token `t`, started at `from`, is `lx`, and the lexer stands just
    /// after it.
    spec fn emitted(&self, t: Token, from: Mark, lx: (KindModel, int)) -> bool {
        &&& t.kind@ == lx.0
        &&& self.position == lx.1
        &&& t.line == from.line
        &&& t.column == from.column
        &&& t.start == from.offset
        &&& t.end == self.offset
    }

    /// Create a lexer positioned at the start of `source`.
    pub fn new(source: &str) -> (r: Lexer)
        requires
            fits(source@),
        ensures
            r.wf(),
            r.source() == source@,
            r.position() == 0,
    {
        Lexer { chars: chars_of(source), position: 0, line: 1, column: 1, offset: 0 }
    }

    /// The next character, without consuming it.
    fn peek(&self) -> (r: Option<char>)
        requires
            self.wf(),
        ensures
            r == char_at(self.chars@, self.position as int),
    {
        if self.position < self.chars.len() {
            Some(self.chars[self.position])
        } else {
            None
        }
    }

    /// The character after the next one, without consuming anything.
    fn peek_second(&self) -> (r: Option<char>)
        requires
            self.wf(),
        ensures
            r == char_at(self.chars@, self.position + 1),
    {
        if self.position + 1 < self.chars.len() {
            Some(self.chars[self.position + 1])
        } else {
            None
        }
    }

    /// Whether every character has been consumed.
    fn at_end(&self) -> (r: bool)
        requires
            self.wf(),
        ensures
            r == (self.position >= self.chars@.len()),
    {
        self.position >= self.chars.len()
    }

    /// Consume one character, moving to the next line after a newline and to
    /// the next column otherwise.
    fn advance(&mut self) -> (r: Option<char>)
        requires
            old(self).wf(),
        ensures
            final(self).wf(),
            final(self).chars@ == old(self).chars@,
            r == char_at(old(self).chars@, old(self).position as int),
            final(self).position == if old(self).position < old(self).chars@.len() {
                old(self).position + 1
            } else {
                old(self).position as int
            },
    {
        if self.position >= self.chars.len() {
            return None;
        }
        let c = self.chars[self.position];
        proof {
            lemma_line_column_bounds(self.chars@, self.position as int);
            lemma_byte_offset_monotone(
                self.chars@,
                self.position + 1,
                self.chars@.len() as int,
            );
        }
        self.offset = self.offset + utf8_width_of(c);
        if c == '\n' {
            self.line = self.line + 1;
            self.column = 1;
        } else {
            self.column = self.column + 1;
        }
        self.position = self.position + 1;
        Some(c)
    }

    fn mark(&self) -> (m: Mark)
        requires
            self.wf(),
            self.position < self.chars@.len(),
        ensures
            self.marks(m),
            m.index == self.position,
    {
        Mark { index: self.position, line: self.line, column: self.column, offset: self.offset }
    }

    /// A token of `kind` that runs from `from` to the current position.
    fn create_token(&self, kind: TokenKind, from: Mark) -> (t: Token)
        ensures
            t.kind == kind,
            t.line == from.line,
            t.column == from.column,
            t.start == from.offset,
            t.end == self.offset,
    {
        Token::new(kind, from.line, from.column, from.offset, self.offset)
    }

    /// `single`, or `double` where the next character is `=`.
    fn with_single_or_double(&mut self, single: TokenKind, double: TokenKind, from: Mark) -> (t:
        Token)
        requires
            old(self).wf(),
            old(self).marks(from),
            old(self).position == from.index + 1,
        ensures
            final(self).wf(),
            final(self).chars@ == old(self).chars@,
            final(self).emitted(
                t,
                from,
                model::single_or_double(old(self).chars@, from.index as int, single@, double@),
            ),
    {
        match self.peek() {
            Some('=') => {
                self.advance();
                self.create_token(double, from)
            },
            _ => self.create_token(single, from),
        }
    }

    /// `kind` where the character `first` just read comes twice, else an
    /// error.
    fn with_double(&mut self, first: char, kind: TokenKind, from: Mark) -> (t: Token)
        requires
            old(self).wf(),
            old(self).marks(from),
            old(self).position == from.index + 1,
            old(self).chars@[from.index as int] == first,
        ensures
            final(self).wf(),
            final(self).chars@ == old(self).chars@,
            final(self).emitted(t, from, model::doubled(old(self).chars@, from.index as int, kind@)),
    {
        let doubled = match self.peek() {
            Some(c) => c == first,
            None => false,
        };
        if doubled {
            self.advance();
            self.create_token(kind, from)
        } else {
            self.create_token(TokenKind::Error(unknown_char_message_of(first)), from)
        }
    }

    /// `.`, `..` or `..=`, the first dot having been read.
    fn dot_and_ranges(&mut self, from: Mark) -> (t: Token)
        requires
            old(self).wf(),
            old(self).marks(from),
            old(self).position == from.index + 1,
        ensures
            final(self).wf(),
            final(self).chars@ == old(self).chars@,
            final(self).emitted(t, from, model::dot_lexeme(old(self).chars@, from.index as int)),
    {
        match self.peek() {
            Some('.') => {
                self.advance();
                match self.peek() {
                    Some('=') => {
                        self.advance();
                        self.create_token(TokenKind::RangeInclusive, from)
                    },
                    _ => self.create_token(TokenKind::Range, from),
                }
            },
            _ => self.create_token(TokenKind::Dot, from),
        }
    }

    /// A string literal, the opening quote having been read. Its text runs,
    /// newlines included, to the next `"`.
    fn lex_string(&mut self, from: Mark) -> (t: Token)
        requires
            old(self).wf(),
            old(self).marks(from),
            old(self).position == from.index + 1,
        ensures
            final(self).wf(),
            final(self).chars@ == old(self).chars@,
            final(self).emitted(t, from, model::string_lexeme(old(self).chars@, from.index as int)),
    {
        let ghost s = self.chars@;
        let ghost first = from.index + 1;
        let mut value = String::new();
        loop
            invariant
                self.wf(),
                self.chars@ == s,
                s == old(self).chars@,
                first == from.index + 1,
                first <= self.position,
                self.marks(from),
                string_body(s, first, seq![]) == string_body(s, self.position as int, value@),
            decreases self.chars@.len() - self.position,
        {
            if self.position >= self.chars.len() {
                return self.create_token(
                    TokenKind::Error(
                        string_from(
                            "Unterminated string literal, expected closing quote, EOF (End of File) encountered",
                        ),
                    ),
                    from,
                );
            }
            let c = self.chars[self.position];
            if c == '"' {
                self.advance();
                return self.create_token(TokenKind::Str(value), from);
            }
            let escaped = c == '\\' && self.position + 1 < self.chars.len() && (self.chars[
                self.position + 1] == '"' || self.chars[self.position + 1] == '\\');
            if escaped {
                let e = self.chars[self.position + 1];
                self.advance();
                self.advance();
                push_char(&mut value, e);
            } else {
                self.advance();
                push_char(&mut value, c);
            }
        }
    }

    /// A character literal, the opening quote having been read.
    fn lex_char(&mut self, from: Mark) -> (t: Token)
        requires
            old(self).wf(),
            old(self).marks(from),
            old(self).position == from.index + 1,
        ensures
            final(self).wf(),
            final(self).chars@ == old(self).chars@,
            final(self).emitted(t, from, model::char_lexeme(old(self).chars@, from.index as int)),
    {
        let value = match self.advance() {
            Some(c) => c,
            None => {
                return self.create_token(
                    TokenKind::Error(
                        string_from("Unterminated char literal, expected closing single quote"),
                    ),
                    from,
                );
            },
        };
        if value == '\'' {
            return self.create_token(
                TokenKind::Error(
                    string_from("Unterminated char literal, expected closing single quote"),
                ),
                from,
            );
        }
        match self.peek() {
            Some('\'') => {
                self.advance();
                self.create_token(TokenKind::Char(value), from)
            },
            _ => self.create_token(
                TokenKind::Error(
                    string_from("Unterminated char literal, expected closing single quote"),
                ),
                from,
            ),
        }
    }

    /// Consume the run of digits that starts at the current position.
    fn skip_digits(&mut self)
        requires
            old(self).wf(),
        ensures
            final(self).wf(),
            final(self).chars@ == old(self).chars@,
            final(self).position == run_end(
                old(self).chars@,
                old(self).position as int,
                Class::Digit,
            ),
            old(self).position <= final(self).position,
    {
        let ghost s = self.chars@;
        let ghost first = self.position as int;
        while self.position < self.chars.len() && is_digit_char(self.chars[self.position])
            invariant
                self.wf(),
                self.chars@ == s,
                first <= self.position,
                run_end(s, self.position as int, Class::Digit) == run_end(s, first, Class::Digit),
            decreases self.chars@.len() - self.position,
        {
            self.advance();
        }
    }

    /// An integer or float literal, its first digit having been read. A dot
    /// continues the literal into a float only where a digit follows it.
    fn lex_number(&mut self, from: Mark) -> (t: Token)
        requires
            old(self).wf(),
            old(self).marks(from),
            old(self).position == from.index + 1,
        ensures
            final(self).wf(),
            final(self).chars@ == old(self).chars@,
            final(self).emitted(t, from, model::number_lexeme(old(self).chars@, from.index as int)),
    {
        self.skip_digits();
        let is_float = match (self.peek(), self.peek_second()) {
            (Some('.'), Some(d)) => is_digit_char(d),
            _ => false,
        };
        if is_float {
            self.advance();
            self.skip_digits();
            let value = string_of(&self.chars, from.index, self.position);
            self.create_token(TokenKind::Float(value), from)
        } else {
            let value = string_of(&self.chars, from.index, self.position);
            self.create_token(TokenKind::Int(value), from)
        }
    }

    /// `kind` where the word `chars[from..to]` is `keyword`, else an
    /// identifier.
    fn get_keyword(&self, from: usize, to: usize, keyword: &str, kind: TokenKind) -> (r: TokenKind)
        requires
            from <= to <= self.chars@.len(),
        ensures
            r@ == if self.chars@.subrange(from as int, to as int) == keyword@ {
                kind@
            } else {
                KindModel::Ident(self.chars@.subrange(from as int, to as int))
            },
    {
        let ghost word = self.chars@.subrange(from as int, to as int);
        let n = keyword.unicode_len();
        if to - from != n {
            return TokenKind::Ident(string_of(&self.chars, from, to));
        }
        let mut i: usize = 0;
        while i < n
            invariant
                from <= to <= self.chars@.len(),
                to - from == n == keyword@.len(),
                word == self.chars@.subrange(from as int, to as int),
                i <= n,
                forall|k: int| 0 <= k < i ==> word[k] == keyword@[k],
            decreases n - i,
        {
            if self.chars[from + i] != keyword.get_char(i) {
                return TokenKind::Ident(string_of(&self.chars, from, to));
            }
            i += 1;
        }
        assert(word =~= keyword@);
        kind
    }

    /// The kind of the word `chars[from..to]`: a keyword where the whole word
    /// is one, else an identifier. Candidates are picked by the first letters.
    fn ident_type(&self, from: usize, to: usize) -> (r: TokenKind)
        requires
            from < to <= self.chars@.len(),
        ensures
            r@ == keyword_or_ident(self.chars@.subrange(from as int, to as int)),
    {
        proof {
            reveal_strlit("class");
            reveal_strlit("else");
            reveal_strlit("false");
            reveal_strlit("for");
            reveal_strlit("fun");
            reveal_strlit("if");
            reveal_strlit("impls");
            reveal_strlit("import");
            reveal_strlit("match");
            reveal_strlit("mut");
            reveal_strlit("return");
            reveal_strlit("trait");
            reveal_strlit("true");
            reveal_strlit("let");
            reveal_strlit("while");
        }
        let ghost word = self.chars@.subrange(from as int, to as int);
        assert(word[0] == self.chars@[from as int]);
        let n = to - from;
        assert(word.len() == n);
        let c0 = self.chars[from];
        if c0 == 'c' {
            self.get_keyword(from, to, "class", TokenKind::Class)
        } else if c0 == 'e' {
            self.get_keyword(from, to, "else", TokenKind::Else)
        } else if c0 == 'l' {
            self.get_keyword(from, to, "let", TokenKind::Let)
        } else if c0 == 'r' {
            self.get_keyword(from, to, "return", TokenKind::Return)
        } else if c0 == 'w' {
            self.get_keyword(from, to, "while", TokenKind::While)
        } else if n < 2 {
            TokenKind::Ident(string_of(&self.chars, from, to))
        } else {
            let c1 = self.chars[from + 1];
            assert(word[1] == c1);
            if c0 == 'f' && c1 == 'a' {
                self.get_keyword(from, to, "false", TokenKind::False)
            } else if c0 == 'f' && c1 == 'o' {
                self.get_keyword(from, to, "for", TokenKind::For)
            } else if c0 == 'f' && c1 == 'u' {
                self.get_keyword(from, to, "fun", TokenKind::Fun)
            } else if c0 == 'i' && c1 == 'f' {
                self.get_keyword(from, to, "if", TokenKind::If)
            } else if c0 == 'm' && c1 == 'a' {
                self.get_keyword(from, to, "match", TokenKind::Match)
            } else if c0 == 'm' && c1 == 'u' {
                self.get_keyword(from, to, "mut", TokenKind::Mut)
            } else if n < 4 {
                TokenKind::Ident(string_of(&self.chars, from, to))
            } else {
                let c2 = self.chars[from + 2];
                let c3 = self.chars[from + 3];
                assert(word[2] == c2);
                assert(word[3] == c3);
                if c0 == 'i' && c1 == 'm' && c2 == 'p' && c3 == 'l' {
                    self.get_keyword(from, to, "impls", TokenKind::Impls)
                } else if c0 == 'i' && c1 == 'm' && c2 == 'p' && c3 == 'o' {
                    self.get_keyword(from, to, "import", TokenKind::Import)
                } else if c0 == 't' && c1 == 'r' && c2 == 'u' {
                    self.get_keyword(from, to, "true", TokenKind::True)
                } else if c0 == 't' && c1 == 'r' && c2 == 'a' {
                    self.get_keyword(from, to, "trait", TokenKind::Trait)
                } else {
                    TokenKind::Ident(string_of(&self.chars, from, to))
                }
            }
        }
    }

    /// An identifier or keyword, its first character having been read.
    fn get_ident(&mut self, from: Mark) -> (t: Token)
        requires
            old(self).wf(),
            old(self).marks(from),
            old(self).position == from.index + 1,
        ensures
            final(self).wf(),
            final(self).chars@ == old(self).chars@,
            final(self).emitted(t, from, model::word_lexeme(old(self).chars@, from.index as int)),
    {
        let ghost s = self.chars@;
        let ghost first = self.position as int;
        while self.position < self.chars.len() && is_xid_continue(self.chars[self.position])
            invariant
                self.wf(),
                self.chars@ == s,
                first <= self.position,
                run_end(s, self.position as int, Class::IdentContinue) == run_end(
                    s,
                    first,
                    Class::IdentContinue,
                ),
            decreases self.chars@.len() - self.position,
        {
            self.advance();
        }
        let kind = self.ident_type(from.index, self.position);
        self.create_token(kind, from)
    }

    /// The next token. White space before it is skipped; at the end of the
    /// text the token is `Eof`, as often as it is asked for.
    pub fn next_token(&mut self) -> (t: Token)
        requires
            old(self).wf(),
        ensures
            final(self).wf(),
            final(self).source() == old(self).source(),
            model::describes(old(self).source(), old(self).position(), t),
            final(self).position() == scan(old(self).source(), old(self).position()).2,
            old(self).position() <= final(self).position(),
            final(self).position() <= final(self).source().len(),
            !(t.kind@ is Eof) ==> old(self).position() < final(self).position(),
    {
        let ghost s = self.chars@;
        let ghost i0 = self.position as int;
        proof {
            lemma_scan_progress(s, i0);
        }
        while self.position < self.chars.len() && is_whitespace(self.chars[self.position])
            invariant
                self.wf(),
                self.chars@ == s,
                i0 <= self.position,
                run_end(s, self.position as int, Class::Space) == run_end(s, i0, Class::Space),
            decreases self.chars@.len() - self.position,
        {
            self.advance();
        }
        if self.at_end() {
            return Token::new(TokenKind::Eof, self.line, self.column, self.offset, self.offset);
        }
        let from = self.mark();
        let c = self.chars[self.position];
        self.advance();
        if c == '(' {
            self.create_token(TokenKind::OpenParen, from)
        } else if c == ')' {
            self.create_token(TokenKind::CloseParen, from)
        } else if c == '[' {
            self.create_token(TokenKind::OpenBracket, from)
        } else if c == ']' {
            self.create_token(TokenKind::CloseBracket, from)
        } else if c == '{' {
            self.create_token(TokenKind::OpenBrace, from)
        } else if c == '}' {
            self.create_token(TokenKind::CloseBrace, from)
        } else if c == ',' {
            self.create_token(TokenKind::Comma, from)
        } else if c == ';' {
            self.create_token(TokenKind::Semicolon, from)
        } else if c == '.' {
            self.dot_and_ranges(from)
        } else if c == '&' {
            self.with_double(c, TokenKind::And, from)
        } else if c == '|' {
            self.with_double(c, TokenKind::Or, from)
        } else if c == '=' {
            self.with_single_or_double(TokenKind::Equal, TokenKind::EqualEqual, from)
        } else if c == '!' {
            self.with_single_or_double(TokenKind::Bang, TokenKind::BangEqual, from)
        } else if c == '>' {
            self.with_single_or_double(TokenKind::Greater, TokenKind::GreaterEqual, from)
        } else if c == '<' {
            self.with_single_or_double(TokenKind::Less, TokenKind::LessEqual, from)
        } else if c == '+' {
            self.with_single_or_double(TokenKind::Plus, TokenKind::PlusEqual, from)
        } else if c == '-' {
            self.with_single_or_double(TokenKind::Minus, TokenKind::MinusEqual, from)
        } else if c == '*' {
            self.with_single_or_double(TokenKind::Star, TokenKind::StarEqual, from)
        } else if c == '/' {
            self.with_single_or_double(TokenKind::Slash, TokenKind::SlashEqual, from)
        } else if c == '"' {
            self.lex_string(from)
        } else if c == '\'' {
            self.lex_char(from)
        } else if is_digit_char(c) {
            self.lex_number(from)
        } else if c == '_' || is_xid_start(c) {
            self.get_ident(from)
        } else {
            self.create_token(TokenKind::Error(unknown_char_message_of(c)), from)
        }
    }

    /// Every remaining token, in order, ending with the first `Eof`.
    pub fn tokens(&mut self) -> (r: Vec<Token>)
        requires
            old(self).wf(),
        ensures
            final(self).wf(),
            final(self).source() == old(self).source(),
            r@.len() == token_starts(old(self).source(), old(self).position()).len() + 1,
            forall|k: int|
                0 <= k < r@.len() - 1 ==> describes(
                    old(self).source(),
                    #[trigger] token_starts(old(self).source(), old(self).position())[k],
                    r@[k],
                ),
            describes(old(self).source(), old(self).source().len() as int, r@.last()),
            r@.last().kind@ == KindModel::Eof,
    {
        let mut tokens: Vec<Token> = Vec::new();
        let ghost s = self.chars@;
        let ghost i0 = self.position as int;
        let ghost mut starts: Seq<int> = seq![];
        loop
            invariant_except_break
                starts.len() == tokens@.len(),
                forall|k: int|
                    0 <= k < tokens@.len() ==> describes(s, starts[k], #[trigger] tokens@[k]),
            invariant
                self.wf(),
                self.chars@ == s,
                token_starts(s, i0) == starts + token_starts(s, self.position as int),
            ensures
                token_starts(s, i0) == starts,
                starts.len() + 1 == tokens@.len(),
                forall|k: int|
                    0 <= k < tokens@.len() - 1 ==> describes(s, starts[k], #[trigger] tokens@[k]),
                describes(s, s.len() as int, tokens@.last()),
                tokens@.last().kind@ == KindModel::Eof,
            decreases s.len() - self.position,
        {
            let ghost before = self.position as int;
            proof {
                lemma_scan_progress(s, before);
            }
            let t = self.next_token();
            if t.kind.is_eof() {
                assert(token_starts(s, before) =~= seq![]);
                assert(token_starts(s, i0) =~= starts);
                assert(run_end(s, s.len() as int, Class::Space) == s.len());
                tokens.push(t);
                break;
            }
            proof {
                assert(token_starts(s, before) == seq![before] + token_starts(s, self.position as int));
                assert(starts + token_starts(s, before) =~= starts.push(before) + token_starts(
                    s,
                    self.position as int,
                ));
                starts = starts.push(before);
            }
            tokens.push(t);
        }
        tokens
    }
}

fn is_digit_char(c: char) -> (r: bool)
    ensures
        r == is_digit(c),
{
    '0' <= c && c <= '9'
}

} // verus!
