//! The mathematical model of lexing: which token starts at each position of
//! a source text, and where that position lies in lines, columns and bytes.

use vstd::prelude::*;
use crate::lexer::token::{KindModel, Token};

verus! {

/// The Unicode `XID_Start` property, as `unicode_xid` computes it.
pub uninterp spec fn xid_start(c: char) -> bool;

/// The Unicode `XID_Continue` property, as `unicode_xid` computes it.
pub uninterp spec fn xid_continue(c: char) -> bool;

/// Unicode's Pattern_White_Space characters.
pub open spec fn is_space(c: char) -> bool {
    c == '\t' || c == '\n' || c == '\u{0B}' || c == '\u{0C}' || c == '\r' || c == ' '
        || c == '\u{85}' || c == '\u{200E}' || c == '\u{200F}' || c == '\u{2028}'
        || c == '\u{2029}'
}

/// The characters that start an identifier besides `_`: ASCII letters,
/// and beyond ASCII those with the `XID_Start` property.
pub open spec fn ident_start(c: char) -> bool {
    ('a' <= c && c <= 'z') || ('A' <= c && c <= 'Z') || ((c as u32) >= 0x80 && xid_start(c))
}

/// The characters that continue an identifier: ASCII letters, digits and
/// `_`, and beyond ASCII those with the `XID_Continue` property.
pub open spec fn ident_continue(c: char) -> bool {
    ('a' <= c && c <= 'z') || ('A' <= c && c <= 'Z') || ('0' <= c && c <= '9') || c == '_' || ((
    c as u32) >= 0x80 && xid_continue(c))
}

pub open spec fn is_digit(c: char) -> bool {
    '0' <= c && c <= '9'
}

/// The classes of characters that the lexer consumes in maximal runs.
pub enum Class {
    Space,
    Digit,
    IdentContinue,
}

pub open spec fn in_class(c: char, k: Class) -> bool {
    match k {
        Class::Space => is_space(c),
        Class::Digit => is_digit(c),
        Class::IdentContinue => ident_continue(c),
    }
}

/// The character at index `i`, if there is one.
pub open spec fn char_at(s: Seq<char>, i: int) -> Option<char> {
    if 0 <= i < s.len() {
        Some(s[i])
    } else {
        None
    }
}

/// The end of the maximal run of characters of class `k` that starts at `i`.
pub open spec fn run_end(s: Seq<char>, i: int, k: Class) -> int
    decreases s.len() - i,
{
    if 0 <= i < s.len() && in_class(s[i], k) {
        run_end(s, i + 1, k)
    } else {
        i
    }
}

pub open spec fn digit_at(s: Seq<char>, i: int) -> bool {
    0 <= i < s.len() && is_digit(s[i])
}

pub open spec fn unterminated_string_message() -> Seq<char> {
    "Unterminated string literal, expected closing quote, EOF (End of File) encountered"@
}

pub open spec fn unterminated_char_message() -> Seq<char> {
    "Unterminated char literal, expected closing single quote"@
}

pub open spec fn unknown_char_message(c: char) -> Seq<char> {
    "Unknown character `"@ + seq![c] + "` found in source"@
}

/// The kind of an identifier-shaped word: a keyword where the whole word is
/// one, else an identifier.
pub open spec fn keyword_or_ident(t: Seq<char>) -> KindModel {
    if t == "class"@ {
        KindModel::Class
    } else if t == "else"@ {
        KindModel::Else
    } else if t == "false"@ {
        KindModel::False
    } else if t == "for"@ {
        KindModel::For
    } else if t == "fun"@ {
        KindModel::Fun
    } else if t == "if"@ {
        KindModel::If
    } else if t == "impls"@ {
        KindModel::Impls
    } else if t == "import"@ {
        KindModel::Import
    } else if t == "match"@ {
        KindModel::Match
    } else if t == "mut"@ {
        KindModel::Mut
    } else if t == "return"@ {
        KindModel::Return
    } else if t == "trait"@ {
        KindModel::Trait
    } else if t == "true"@ {
        KindModel::True
    } else if t == "let"@ {
        KindModel::Let
    } else if t == "while"@ {
        KindModel::While
    } else {
        KindModel::Ident(t)
    }
}

/// `single` at `i`, or `double` where the next character is `=`.
pub open spec fn single_or_double(s: Seq<char>, i: int, single: KindModel, double: KindModel) -> (
    KindModel,
    int,
) {
    if char_at(s, i + 1) == Some('=') {
        (double, i + 2)
    } else {
        (single, i + 1)
    }
}

/// `kind` where the character at `i` is doubled, else an error.
pub open spec fn doubled(s: Seq<char>, i: int, kind: KindModel) -> (KindModel, int) {
    if char_at(s, i + 1) == Some(s[i]) {
        (kind, i + 2)
    } else {
        (KindModel::Error(unknown_char_message(s[i])), i + 1)
    }
}

/// `.`, `..` or `..=` at `i`.
pub open spec fn dot_lexeme(s: Seq<char>, i: int) -> (KindModel, int) {
    if char_at(s, i + 1) == Some('.') {
        if char_at(s, i + 2) == Some('=') {
            (KindModel::RangeInclusive, i + 3)
        } else {
            (KindModel::Range, i + 2)
        }
    } else {
        (KindModel::Dot, i + 1)
    }
}

/// The text of a string literal from position `j` on, after the text
/// `acc` already read, up to the closing `"`: the text, with `\"` read as
/// `"` and `\\` as `\`, and the position of the closing quote. `None`
/// where the input ends first.
pub open spec fn string_body(s: Seq<char>, j: int, acc: Seq<char>) -> Option<(Seq<char>, int)>
    decreases s.len() - j,
{
    if !(0 <= j < s.len()) {
        None
    } else if s[j] == '"' {
        Some((acc, j))
    } else if s[j] == '\\' && j + 1 < s.len() && (s[j + 1] == '"' || s[j + 1] == '\\') {
        string_body(s, j + 2, acc.push(s[j + 1]))
    } else {
        string_body(s, j + 1, acc.push(s[j]))
    }
}

/// A string literal opened at `i`: its text runs, newlines included, to the
/// next `"` that no backslash escapes.
pub open spec fn string_lexeme(s: Seq<char>, i: int) -> (KindModel, int) {
    match string_body(s, i + 1, seq![]) {
        Some((text, e)) => (KindModel::Str(text), e + 1),
        None => (KindModel::Error(unterminated_string_message()), s.len() as int),
    }
}

/// A character literal opened at `i`: one character, then a closing quote.
pub open spec fn char_lexeme(s: Seq<char>, i: int) -> (KindModel, int) {
    if i + 1 >= s.len() {
        (KindModel::Error(unterminated_char_message()), i + 1)
    } else if s[i + 1] == '\'' {
        (KindModel::Error(unterminated_char_message()), i + 2)
    } else if char_at(s, i + 2) == Some('\'') {
        (KindModel::Char(s[i + 1]), i + 3)
    } else {
        (KindModel::Error(unterminated_char_message()), i + 2)
    }
}

/// A number at `i`: a run of digits, continued by `.` and more digits into a
/// float.
pub open spec fn number_lexeme(s: Seq<char>, i: int) -> (KindModel, int) {
    let j = run_end(s, i + 1, Class::Digit);
    if char_at(s, j) == Some('.') && digit_at(s, j + 1) {
        let k = run_end(s, j + 1, Class::Digit);
        (KindModel::Float(s.subrange(i, k)), k)
    } else {
        (KindModel::Int(s.subrange(i, j)), j)
    }
}

/// An identifier or keyword at `i`.
pub open spec fn word_lexeme(s: Seq<char>, i: int) -> (KindModel, int) {
    let j = run_end(s, i + 1, Class::IdentContinue);
    (keyword_or_ident(s.subrange(i, j)), j)
}

/// The token that starts at `i`, a position that holds no white space, and
/// the position just after it.
pub open spec fn lexeme_at(s: Seq<char>, i: int) -> (KindModel, int) {
    let c = s[i];
    if c == '(' {
        (KindModel::OpenParen, i + 1)
    } else if c == ')' {
        (KindModel::CloseParen, i + 1)
    } else if c == '[' {
        (KindModel::OpenBracket, i + 1)
    } else if c == ']' {
        (KindModel::CloseBracket, i + 1)
    } else if c == '{' {
        (KindModel::OpenBrace, i + 1)
    } else if c == '}' {
        (KindModel::CloseBrace, i + 1)
    } else if c == ',' {
        (KindModel::Comma, i + 1)
    } else if c == ';' {
        (KindModel::Semicolon, i + 1)
    } else if c == '.' {
        dot_lexeme(s, i)
    } else if c == '&' {
        doubled(s, i, KindModel::And)
    } else if c == '|' {
        doubled(s, i, KindModel::Or)
    } else if c == '=' {
        single_or_double(s, i, KindModel::Equal, KindModel::EqualEqual)
    } else if c == '!' {
        single_or_double(s, i, KindModel::Bang, KindModel::BangEqual)
    } else if c == '>' {
        single_or_double(s, i, KindModel::Greater, KindModel::GreaterEqual)
    } else if c == '<' {
        single_or_double(s, i, KindModel::Less, KindModel::LessEqual)
    } else if c == '+' {
        single_or_double(s, i, KindModel::Plus, KindModel::PlusEqual)
    } else if c == '-' {
        single_or_double(s, i, KindModel::Minus, KindModel::MinusEqual)
    } else if c == '*' {
        single_or_double(s, i, KindModel::Star, KindModel::StarEqual)
    } else if c == '/' {
        single_or_double(s, i, KindModel::Slash, KindModel::SlashEqual)
    } else if c == '"' {
        string_lexeme(s, i)
    } else if c == '\'' {
        char_lexeme(s, i)
    } else if is_digit(c) {
        number_lexeme(s, i)
    } else if c == '_' || ident_start(c) {
        word_lexeme(s, i)
    } else {
        (KindModel::Error(unknown_char_message(c)), i + 1)
    }
}

/// The next token at or after position `i`: its kind, the position where it
/// starts once white space is skipped, and the position just after it. At
/// the end of the text this is `Eof`, empty, as often as it is asked for.
pub open spec fn scan(s: Seq<char>, i: int) -> (KindModel, int, int) {
    let st = run_end(s, i, Class::Space);
    if st >= s.len() {
        (KindModel::Eof, s.len() as int, s.len() as int)
    } else {
        let (k, en) = lexeme_at(s, st);
        (k, st, en)
    }
}

/// `t` is the token that `scan` finds at or after `i`, with the line,
/// column and byte offsets of where it starts and ends.
pub open spec fn describes(s: Seq<char>, i: int, t: Token) -> bool {
    let (k, st, en) = scan(s, i);
    &&& t.kind@ == k
    &&& t.line == line_at(s, st)
    &&& t.column == column_at(s, st)
    &&& t.start == byte_offset(s, st)
    &&& t.end == byte_offset(s, en)
}

/// `toks` is the whole token sequence of `s`: each token that `scan` finds
/// in turn, then the final `Eof`.
pub open spec fn lexes(s: Seq<char>, toks: Seq<Token>) -> bool {
    &&& toks.len() == token_starts(s, 0).len() + 1
    &&& forall|k: int| 0 <= k < toks.len() - 1 ==> describes(s, #[trigger] token_starts(s, 0)[k], toks[k])
    &&& describes(s, s.len() as int, toks.last())
}

/// The line on which position `k` lies, counting from one.
pub open spec fn line_at(s: Seq<char>, k: int) -> nat
    decreases k,
{
    if k <= 0 {
        1
    } else {
        line_at(s, k - 1) + if s[k - 1] == '\n' {
            1nat
        } else {
            0nat
        }
    }
}

/// The column of position `k` within its line, counting from one.
pub open spec fn column_at(s: Seq<char>, k: int) -> nat
    decreases k,
{
    if k <= 0 {
        1
    } else if s[k - 1] == '\n' {
        1
    } else {
        column_at(s, k - 1) + 1
    }
}

/// The number of bytes that UTF-8 takes to encode `c`.
pub open spec fn utf8_width(c: char) -> nat {
    if (c as u32) < 0x80 {
        1
    } else if (c as u32) < 0x800 {
        2
    } else if (c as u32) < 0x10000 {
        3
    } else {
        4
    }
}

/// The byte offset of position `k` in the UTF-8 encoding of `s`.
pub open spec fn byte_offset(s: Seq<char>, k: int) -> nat
    decreases k,
{
    if k <= 0 {
        0
    } else {
        byte_offset(s, k - 1) + utf8_width(s[k - 1])
    }
}

/// A text short enough for its lines, columns and byte offsets to be held.
pub open spec fn fits(s: Seq<char>) -> bool {
    s.len() < u32::MAX && byte_offset(s, s.len() as int) <= usize::MAX
}

pub proof fn lemma_run_end_bounds(s: Seq<char>, i: int, k: Class)
    requires
        0 <= i <= s.len(),
    ensures
        i <= run_end(s, i, k) <= s.len(),
        run_end(s, i, k) < s.len() ==> !in_class(s[run_end(s, i, k)], k),
    decreases s.len() - i,
{
    if i < s.len() && in_class(s[i], k) {
        lemma_run_end_bounds(s, i + 1, k);
    }
}

pub proof fn lemma_line_column_bounds(s: Seq<char>, k: int)
    requires
        0 <= k <= s.len(),
    ensures
        line_at(s, k) <= k + 1,
        column_at(s, k) <= k + 1,
    decreases k,
{
    if k > 0 {
        lemma_line_column_bounds(s, k - 1);
    }
}

pub proof fn lemma_byte_offset_monotone(s: Seq<char>, a: int, b: int)
    requires
        a <= b,
    ensures
        byte_offset(s, a) <= byte_offset(s, b),
    decreases b - a,
{
    if a < b {
        lemma_byte_offset_monotone(s, a, b - 1);
    }
}

/// The token that `scan` finds is never empty unless it is `Eof`, and it
/// ends within the text.
pub proof fn lemma_scan_progress(s: Seq<char>, i: int)
    requires
        0 <= i <= s.len(),
    ensures
        i <= scan(s, i).1 <= scan(s, i).2 <= s.len(),
        !(scan(s, i).0 is Eof) ==> scan(s, i).1 < scan(s, i).2,
{
    lemma_run_end_bounds(s, i, Class::Space);
    let st = run_end(s, i, Class::Space);
    if st < s.len() {
        lemma_string_body_bounds(s, st + 1, seq![]);
        lemma_run_end_bounds(s, st + 1, Class::Digit);
        lemma_run_end_bounds(s, st + 1, Class::IdentContinue);
        let j = run_end(s, st + 1, Class::Digit);
        if j + 1 <= s.len() {
            lemma_run_end_bounds(s, j + 1, Class::Digit);
        }
    }
}

/// The positions at which successive calls of the lexer start, from `i`
/// up to the first that finds `Eof`.
pub open spec fn token_starts(s: Seq<char>, i: int) -> Seq<int>
    decreases s.len() - i,
    via lemma_token_starts_decreases
{
    if 0 <= i <= s.len() && !(scan(s, i).0 is Eof) {
        seq![i] + token_starts(s, scan(s, i).2)
    } else {
        seq![]
    }
}

#[via_fn]
proof fn lemma_token_starts_decreases(s: Seq<char>, i: int) {
    if 0 <= i <= s.len() {
        lemma_scan_progress(s, i);
    }
}

/// A run that ends at or before `b` ends at the same place in the text cut
/// to `a..b`.
pub proof fn lemma_run_end_within(s: Seq<char>, a: int, b: int, j: int, k: Class)
    requires
        0 <= a <= j <= b <= s.len(),
        run_end(s, j, k) <= b,
    ensures
        run_end(s.subrange(a, b), j - a, k) == run_end(s, j, k) - a,
    decreases b - j,
{
    let t = s.subrange(a, b);
    lemma_run_end_bounds(s, j, k);
    if j < b && in_class(s[j], k) {
        assert(t[j - a] == s[j]);
        lemma_run_end_within(s, a, b, j + 1, k);
    } else if j < b {
        assert(t[j - a] == s[j]);
    }
}

pub proof fn lemma_string_body_bounds(s: Seq<char>, j: int, acc: Seq<char>)
    requires
        0 <= j,
    ensures
        string_body(s, j, acc) matches Some((_, e)) ==> j <= e < s.len() && s[e] == '"',
    decreases s.len() - j,
{
    if 0 <= j < s.len() && s[j] != '"' {
        if s[j] == '\\' && j + 1 < s.len() && (s[j + 1] == '"' || s[j + 1] == '\\') {
            lemma_string_body_bounds(s, j + 2, acc.push(s[j + 1]));
        } else {
            lemma_string_body_bounds(s, j + 1, acc.push(s[j]));
        }
    }
}

/// A string body that closes before `b` reads the same in the text cut to
/// `a..b`; one that never closes never closes in a suffix either.
proof fn lemma_string_body_cut(s: Seq<char>, a: int, b: int, j: int, acc: Seq<char>)
    requires
        0 <= a <= j <= b <= s.len(),
    ensures
        match string_body(s, j, acc) {
            Some((x, e)) => e < b ==> string_body(s.subrange(a, b), j - a, acc) == Some((x, e - a)),
            None => b == s.len() ==> string_body(s.subrange(a, b), j - a, acc) is None,
        },
    decreases s.len() - j,
{
    let t = s.subrange(a, b);
    if j < s.len() {
        if s[j] == '"' {
            if j < b {
                assert(t[j - a] == s[j]);
            }
        } else if s[j] == '\\' && j + 1 < s.len() && (s[j + 1] == '"' || s[j + 1] == '\\') {
            lemma_string_body_bounds(s, j + 2, acc.push(s[j + 1]));
            if j + 2 <= b {
                lemma_string_body_cut(s, a, b, j + 2, acc.push(s[j + 1]));
                assert(t[j - a] == s[j]);
                assert(t[j + 1 - a] == s[j + 1]);
            }
        } else {
            lemma_string_body_bounds(s, j + 1, acc.push(s[j]));
            if j + 1 <= b {
                lemma_string_body_cut(s, a, b, j + 1, acc.push(s[j]));
                if j < b {
                    assert(t[j - a] == s[j]);
                    if j + 1 < s.len() && j + 1 < b {
                        assert(t[j + 1 - a] == s[j + 1]);
                    }
                }
            }
        }
    }
}

proof fn lemma_rescan_string(s: Seq<char>, st: int)
    requires
        0 <= st < s.len(),
        s[st] == '"',
    ensures
        ({
            let (k, en) = string_lexeme(s, st);
            string_lexeme(s.subrange(st, en), 0) == (k, en - st)
        }),
{
    lemma_string_body_bounds(s, st + 1, seq![]);
    let en = string_lexeme(s, st).1;
    lemma_string_body_cut(s, st, en, st + 1, seq![]);
}

proof fn lemma_rescan_number(s: Seq<char>, st: int)
    requires
        0 <= st < s.len(),
        is_digit(s[st]),
    ensures
        ({
            let (k, en) = number_lexeme(s, st);
            number_lexeme(s.subrange(st, en), 0) == (k, en - st)
        }),
{
    lemma_run_end_bounds(s, st + 1, Class::Digit);
    let j = run_end(s, st + 1, Class::Digit);
    let en = number_lexeme(s, st).1;
    let t = s.subrange(st, en);
    if char_at(s, j) == Some('.') && digit_at(s, j + 1) {
        lemma_run_end_bounds(s, j + 1, Class::Digit);
        lemma_run_end_within(s, st, en, st + 1, Class::Digit);
        lemma_run_end_within(s, st, en, j + 1, Class::Digit);
        assert(t[j - st] == s[j]);
        assert(t[j + 1 - st] == s[j + 1]);
        assert(t.subrange(0, en - st) =~= s.subrange(st, en));
    } else {
        lemma_run_end_within(s, st, en, st + 1, Class::Digit);
        assert(t.subrange(0, en - st) =~= s.subrange(st, en));
    }
}

proof fn lemma_rescan_word(s: Seq<char>, st: int)
    requires
        0 <= st < s.len(),
    ensures
        ({
            let (k, en) = word_lexeme(s, st);
            word_lexeme(s.subrange(st, en), 0) == (k, en - st)
        }),
{
    lemma_run_end_bounds(s, st + 1, Class::IdentContinue);
    let en = word_lexeme(s, st).1;
    let t = s.subrange(st, en);
    lemma_run_end_within(s, st, en, st + 1, Class::IdentContinue);
    assert(t.subrange(0, en - st) =~= s.subrange(st, en));
}

/// Lexing exactly the text that a token covers, on its own and from its
/// start, finds a token of the same kind that covers all of that text.
pub proof fn lemma_rescan_token(s: Seq<char>, i: int)
    requires
        0 <= i <= s.len(),
    ensures
        ({
            let (k, st, en) = scan(s, i);
            scan(s.subrange(st, en), 0) == (k, 0int, en - st)
        }),
{
    lemma_scan_progress(s, i);
    lemma_run_end_bounds(s, i, Class::Space);
    let (k, st, en) = scan(s, i);
    let t = s.subrange(st, en);
    if st < s.len() {
        assert(t[0] == s[st]);
        assert(run_end(t, 0, Class::Space) == 0);
        let c = s[st];
        if c == '"' {
            lemma_rescan_string(s, st);
        } else if c == '\'' {
            assert(en - st >= 2 ==> t[1] == s[st + 1]);
        } else if is_digit(c) {
            lemma_rescan_number(s, st);
        } else if c == '_' || ident_start(c) {
            lemma_rescan_word(s, st);
        } else {
            assert(en - st >= 2 ==> t[1] == s[st + 1]);
            assert(en - st >= 3 ==> t[2] == s[st + 2]);
        }
        assert(lexeme_at(t, 0) == (k, en - st));
    } else {
        assert(t.len() == 0);
    }
}

/// No token before the end of the sequence is `Eof`.
pub proof fn lemma_token_starts_not_eof(s: Seq<char>, i: int, k: int)
    requires
        0 <= i <= s.len(),
        0 <= k < token_starts(s, i).len(),
    ensures
        !(scan(s, token_starts(s, i)[k]).0 is Eof),
    decreases s.len() - i,
{
    lemma_scan_progress(s, i);
    if k > 0 {
        lemma_token_starts_not_eof(s, scan(s, i).2, k - 1);
    }
}

/// A keyword followed by more characters is not that keyword, nor any
/// other: the whole word is an identifier (`classy` is no `class`).
pub proof fn lemma_keyword_prefix_is_ident(k: Seq<char>, x: Seq<char>)
    requires
        !(keyword_or_ident(k) is Ident),
        x.len() > 0,
    ensures
        keyword_or_ident(k + x) == KindModel::Ident(k + x),
{
    reveal_strlit("class");
    reveal_strlit("else");
    reveal_strlit("false");
    reveal_strlit("for");
    reveal_strlit("fun");
    reveal_strlit("if");
    reveal_strlit("impls");
    reveal_strlit("import");
    reveal_strlit("match");
    reveal_strlit("mut");
    reveal_strlit("return");
    reveal_strlit("trait");
    reveal_strlit("true");
    reveal_strlit("let");
    reveal_strlit("while");
    let w = k + x;
    assert(w.len() > k.len());
    assert(forall|i: int| 0 <= i < k.len() ==> w[i] == k[i]);
    assert(w != "class"@) by {
        if w == "class"@ {
            assert(w.len() == "class"@.len());
            assert(w[0] == "class"@[0]);
            assert(w[1] == "class"@[1]);
            assert(w[2] == "class"@[2]);
            assert(w[3] == "class"@[3]);
        }
    }
    assert(w != "else"@) by {
        if w == "else"@ {
            assert(w.len() == "else"@.len());
            assert(w[0] == "else"@[0]);
            assert(w[1] == "else"@[1]);
            assert(w[2] == "else"@[2]);
            assert(w[3] == "else"@[3]);
        }
    }
    assert(w != "false"@) by {
        if w == "false"@ {
            assert(w.len() == "false"@.len());
            assert(w[0] == "false"@[0]);
            assert(w[1] == "false"@[1]);
            assert(w[2] == "false"@[2]);
            assert(w[3] == "false"@[3]);
        }
    }
    assert(w != "for"@) by {
        if w == "for"@ {
            assert(w.len() == "for"@.len());
            assert(w[0] == "for"@[0]);
            assert(w[1] == "for"@[1]);
            assert(w[2] == "for"@[2]);
        }
    }
    assert(w != "fun"@) by {
        if w == "fun"@ {
            assert(w.len() == "fun"@.len());
            assert(w[0] == "fun"@[0]);
            assert(w[1] == "fun"@[1]);
            assert(w[2] == "fun"@[2]);
        }
    }
    assert(w != "if"@) by {
        if w == "if"@ {
            assert(w.len() == "if"@.len());
            assert(w[0] == "if"@[0]);
            assert(w[1] == "if"@[1]);
        }
    }
    assert(w != "impls"@) by {
        if w == "impls"@ {
            assert(w.len() == "impls"@.len());
            assert(w[0] == "impls"@[0]);
            assert(w[1] == "impls"@[1]);
            assert(w[2] == "impls"@[2]);
            assert(w[3] == "impls"@[3]);
        }
    }
    assert(w != "import"@) by {
        if w == "import"@ {
            assert(w.len() == "import"@.len());
            assert(w[0] == "import"@[0]);
            assert(w[1] == "import"@[1]);
            assert(w[2] == "import"@[2]);
            assert(w[3] == "import"@[3]);
        }
    }
    assert(w != "match"@) by {
        if w == "match"@ {
            assert(w.len() == "match"@.len());
            assert(w[0] == "match"@[0]);
            assert(w[1] == "match"@[1]);
            assert(w[2] == "match"@[2]);
            assert(w[3] == "match"@[3]);
        }
    }
    assert(w != "mut"@) by {
        if w == "mut"@ {
            assert(w.len() == "mut"@.len());
            assert(w[0] == "mut"@[0]);
            assert(w[1] == "mut"@[1]);
            assert(w[2] == "mut"@[2]);
        }
    }
    assert(w != "return"@) by {
        if w == "return"@ {
            assert(w.len() == "return"@.len());
            assert(w[0] == "return"@[0]);
            assert(w[1] == "return"@[1]);
            assert(w[2] == "return"@[2]);
            assert(w[3] == "return"@[3]);
        }
    }
    assert(w != "trait"@) by {
        if w == "trait"@ {
            assert(w.len() == "trait"@.len());
            assert(w[0] == "trait"@[0]);
            assert(w[1] == "trait"@[1]);
            assert(w[2] == "trait"@[2]);
            assert(w[3] == "trait"@[3]);
        }
    }
    assert(w != "true"@) by {
        if w == "true"@ {
            assert(w.len() == "true"@.len());
            assert(w[0] == "true"@[0]);
            assert(w[1] == "true"@[1]);
            assert(w[2] == "true"@[2]);
            assert(w[3] == "true"@[3]);
        }
    }
    assert(w != "let"@) by {
        if w == "let"@ {
            assert(w.len() == "let"@.len());
            assert(w[0] == "let"@[0]);
            assert(w[1] == "let"@[1]);
            assert(w[2] == "let"@[2]);
        }
    }
    assert(w != "while"@) by {
        if w == "while"@ {
            assert(w.len() == "while"@.len());
            assert(w[0] == "while"@[0]);
            assert(w[1] == "while"@[1]);
            assert(w[2] == "while"@[2]);
            assert(w[3] == "while"@[3]);
        }
    }
}

/// The text of an operator or punctuation token; empty for other kinds.
pub open spec fn operator_text(k: KindModel) -> Seq<char> {
    match k {
        KindModel::OpenParen => seq!['('],
        KindModel::CloseParen => seq![')'],
        KindModel::OpenBracket => seq!['['],
        KindModel::CloseBracket => seq![']'],
        KindModel::OpenBrace => seq!['{'],
        KindModel::CloseBrace => seq!['}'],
        KindModel::Comma => seq![','],
        KindModel::Dot => seq!['.'],
        KindModel::Semicolon => seq![';'],
        KindModel::And => seq!['&', '&'],
        KindModel::Or => seq!['|', '|'],
        KindModel::Range => seq!['.', '.'],
        KindModel::RangeInclusive => seq!['.', '.', '='],
        KindModel::Equal => seq!['='],
        KindModel::EqualEqual => seq!['=', '='],
        KindModel::Bang => seq!['!'],
        KindModel::BangEqual => seq!['!', '='],
        KindModel::Greater => seq!['>'],
        KindModel::GreaterEqual => seq!['>', '='],
        KindModel::Less => seq!['<'],
        KindModel::LessEqual => seq!['<', '='],
        KindModel::Plus => seq!['+'],
        KindModel::PlusEqual => seq!['+', '='],
        KindModel::Minus => seq!['-'],
        KindModel::MinusEqual => seq!['-', '='],
        KindModel::Star => seq!['*'],
        KindModel::StarEqual => seq!['*', '='],
        KindModel::Slash => seq!['/'],
        KindModel::SlashEqual => seq!['/', '='],
        _ => seq![],
    }
}

/// The texts of `ops`, each followed by a single space but the last.
pub open spec fn spaced(ops: Seq<KindModel>) -> Seq<char>
    decreases ops.len(),
{
    if ops.len() == 0 {
        seq![]
    } else if ops.len() == 1 {
        operator_text(ops[0])
    } else {
        operator_text(ops[0]) + seq![' '] + spaced(ops.drop_first())
    }
}

/// An operator's text at `i`, followed by a space or the end, lexes to that
/// operator.
proof fn lemma_operator_at(s: Seq<char>, i: int, k: KindModel)
    requires
        operator_text(k).len() > 0,
        0 <= i,
        i + operator_text(k).len() <= s.len(),
        s.subrange(i, i + operator_text(k).len()) == operator_text(k),
        i + operator_text(k).len() == s.len() || s[i + operator_text(k).len()] == ' ',
    ensures
        lexeme_at(s, i) == (k, i + operator_text(k).len()),
{
    let t = operator_text(k);
    assert forall|j: int| 0 <= j < t.len() implies s[i + j] == t[j] by {
        assert(s.subrange(i, i + t.len())[j] == s[i + j]);
    }
    assert(s[i] == t[0]);
    if t.len() >= 2 {
        assert(s[i + 1] == t[1]);
    }
    if t.len() >= 3 {
        assert(s[i + 2] == t[2]);
    }
}

/// Skipping one space does not change what the lexer finds, nor how many
/// tokens follow.
proof fn lemma_skip_space(s: Seq<char>, p: int)
    requires
        0 <= p < s.len(),
        s[p] == ' ',
    ensures
        scan(s, p) == scan(s, p + 1),
        token_starts(s, p).len() == token_starts(s, p + 1).len(),
        forall|k: int|
            0 <= k < token_starts(s, p).len() ==> scan(s, #[trigger] token_starts(s, p)[k]) == scan(
                s,
                token_starts(s, p + 1)[k],
            ),
{
    assert(run_end(s, p, Class::Space) == run_end(s, p + 1, Class::Space));
    lemma_scan_progress(s, p);
    lemma_scan_progress(s, p + 1);
}

/// The operators `ops`, as the text from `i` to the end, lex to exactly
/// those kinds, in order.
proof fn lemma_operators_from(s: Seq<char>, i: int, ops: Seq<KindModel>)
    requires
        0 <= i <= s.len(),
        forall|k: int| 0 <= k < ops.len() ==> operator_text(#[trigger] ops[k]).len() > 0,
        s.subrange(i, s.len() as int) == spaced(ops),
    ensures
        token_starts(s, i).len() == ops.len(),
        forall|k: int| 0 <= k < ops.len() ==> scan(s, #[trigger] token_starts(s, i)[k]).0 == ops[k],
    decreases ops.len(),
{
    if ops.len() == 0 {
        assert(s.subrange(i, s.len() as int).len() == 0);
        assert(run_end(s, i, Class::Space) == i);
    } else {
        let t = operator_text(ops[0]);
        let n = t.len() as int;
        let rest = ops.drop_first();
        let tail = s.subrange(i, s.len() as int);
        if ops.len() == 1 {
            assert(tail == t);
        } else {
            assert(tail == t + seq![' '] + spaced(rest));
        }
        assert(tail.subrange(0, n) =~= t);
        assert(s.subrange(i, i + n) =~= tail.subrange(0, n));
        if ops.len() > 1 {
            assert(tail[n] == ' ');
            assert(s[i + n] == tail[n]);
        }
        assert(s[i] == tail[0]);
        assert(tail[0] == t[0]);
        lemma_operator_at(s, i, ops[0]);
        assert(run_end(s, i, Class::Space) == i);
        assert(scan(s, i) == (ops[0], i, i + n));
        lemma_scan_progress(s, i);
        assert(token_starts(s, i) == seq![i] + token_starts(s, i + n));
        if ops.len() == 1 {
            assert(run_end(s, i + n, Class::Space) == i + n);
            assert(token_starts(s, i + n) =~= seq![]);
        } else {
            assert forall|k: int| 0 <= k < rest.len() implies operator_text(#[trigger] rest[k]).len()
                > 0 by {
                assert(rest[k] == ops[k + 1]);
            }
            assert(s.subrange(i + n + 1, s.len() as int) =~= tail.subrange(n + 1, tail.len() as int));
            assert(tail.subrange(n + 1, tail.len() as int) =~= spaced(rest));
            lemma_operators_from(s, i + n + 1, rest);
            lemma_skip_space(s, i + n);
            assert forall|k: int| 0 <= k < ops.len() implies scan(s, #[trigger] token_starts(s, i)[k]).0
                == ops[k] by {
                if k > 0 {
                    assert(token_starts(s, i)[k] == token_starts(s, i + n)[k - 1]);
                    assert(rest[k - 1] == ops[k]);
                }
            }
        }
    }
}

/// Operators and punctuation separated by single spaces lex to exactly
/// those tokens, in order; after them the lexer finds `Eof`.
pub proof fn lemma_operator_line(ops: Seq<KindModel>)
    requires
        forall|k: int| 0 <= k < ops.len() ==> operator_text(#[trigger] ops[k]).len() > 0,
    ensures
        token_starts(spaced(ops), 0).len() == ops.len(),
        forall|k: int|
            0 <= k < ops.len() ==> scan(spaced(ops), #[trigger] token_starts(spaced(ops), 0)[k]).0
                == ops[k],
{
    let s = spaced(ops);
    assert(s.subrange(0, s.len() as int) =~= s);
    lemma_operators_from(s, 0, ops);
}

} // verus!
