use meow::lexer::token::{Token, TokenKind};
use meow::lexer::token::TokenKind::{
    And, Bang, BangEqual, CloseBrace, CloseBracket, CloseParen, Comma, Dot, Eof, Equal,
    EqualEqual, Greater, GreaterEqual, Less, LessEqual, Minus, MinusEqual, OpenBrace,
    OpenBracket, OpenParen, Or, Plus, PlusEqual, Range, RangeInclusive, Semicolon, Slash,
    SlashEqual, Star, StarEqual,
};
use meow::{lex, run};

fn kinds(input: &str) -> Vec<TokenKind> {
    run(input).into_iter().map(|t| t.kind).collect()
}

fn s(text: &str) -> String {
    text.to_string()
}

#[test]
fn operator_line_lexes_to_exact_sequence_then_eof() {
    let got = kinds("( ) [ ] { } , . ; && || .. ..= = == ! != > >= < <= + += - -= * *= / /=");
    let want = vec![
        OpenParen, CloseParen, OpenBracket, CloseBracket, OpenBrace, CloseBrace, Comma, Dot,
        Semicolon, And, Or, Range, RangeInclusive, Equal, EqualEqual, Bang, BangEqual, Greater,
        GreaterEqual, Less, LessEqual, Plus, PlusEqual, Minus, MinusEqual, Star, StarEqual, Slash,
        SlashEqual, Eof,
    ];
    assert_eq!(got, want);
}

#[test]
fn quoted_text_is_one_string_token() {
    assert_eq!(kinds("\"Hello, World\""), vec![TokenKind::Str(s("Hello, World")), TokenKind::Eof]);
}

#[test]
fn multi_line_string_keeps_newlines_and_line_count() {
    let tokens = run("\"one\ntwo\nthree\" x");
    assert_eq!(tokens[0].kind, TokenKind::Str(s("one\ntwo\nthree")));
    assert_eq!((tokens[0].line, tokens[0].column), (1, 1));
    assert_eq!(tokens[1].kind, TokenKind::Ident(s("x")));
    assert_eq!((tokens[1].line, tokens[1].column), (3, 8));
    assert_eq!(tokens[2].kind, TokenKind::Eof);
}

#[test]
fn second_decimal_point_starts_a_new_token() {
    assert_eq!(
        kinds("4.2.1"),
        vec![TokenKind::Float(s("4.2")), TokenKind::Dot, TokenKind::Int(s("1")), TokenKind::Eof]
    );
}

#[test]
fn keyword_prefix_stays_an_identifier() {
    assert_eq!(kinds("classy"), vec![TokenKind::Ident(s("classy")), TokenKind::Eof]);
    assert_eq!(kinds("iffy format"), vec![
        TokenKind::Ident(s("iffy")),
        TokenKind::Ident(s("format")),
        TokenKind::Eof
    ]);
    assert_eq!(kinds("impl imports tr t f"), vec![
        TokenKind::Ident(s("impl")),
        TokenKind::Ident(s("imports")),
        TokenKind::Ident(s("tr")),
        TokenKind::Ident(s("t")),
        TokenKind::Ident(s("f")),
        TokenKind::Eof
    ]);
}

#[test]
fn empty_and_blank_sources_give_eof_forever() {
    let mut lexer = lex("");
    for _ in 0..3 {
        let t = lexer.next_token();
        assert_eq!(t.kind, TokenKind::Eof);
        assert_eq!((t.start, t.end), (0, 0));
    }
    let mut lexer = lex(" \t\n\u{2028} ");
    let t = lexer.next_token();
    assert_eq!(t.kind, TokenKind::Eof);
    assert_eq!(lexer.next_token().kind, TokenKind::Eof);
}

#[test]
fn positions_and_byte_spans() {
    let tokens = run("let x\n  = 10;");
    let found: Vec<(u32, u32, usize, usize)> =
        tokens.iter().map(|t| (t.line, t.column, t.start, t.end)).collect();
    assert_eq!(found, vec![(1, 1, 0, 3), (1, 5, 4, 5), (2, 3, 8, 9), (2, 5, 10, 12), (2, 7, 12, 13), (2, 8, 13, 13)]);
}

#[test]
fn byte_spans_count_utf8_widths() {
    let tokens = run("\"é\" ü");
    assert_eq!(tokens[0].kind, TokenKind::Str(s("é")));
    assert_eq!((tokens[0].start, tokens[0].end), (0, 4));
    assert_eq!(tokens[1].kind, TokenKind::Ident(s("ü")));
    assert_eq!((tokens[1].start, tokens[1].end, tokens[1].column), (5, 7, 5));
}

#[test]
fn unicode_identifiers_use_xid_properties() {
    assert_eq!(kinds("_tmp héllo x1"), vec![
        TokenKind::Ident(s("_tmp")),
        TokenKind::Ident(s("héllo")),
        TokenKind::Ident(s("x1")),
        TokenKind::Eof
    ]);
}

#[test]
fn lone_ampersand_and_bar_are_errors() {
    assert_eq!(kinds("&x"), vec![
        TokenKind::Error(s("Unknown character `&` found in source")),
        TokenKind::Ident(s("x")),
        TokenKind::Eof
    ]);
    assert_eq!(kinds("| "), vec![
        TokenKind::Error(s("Unknown character `|` found in source")),
        TokenKind::Eof
    ]);
}

#[test]
fn unknown_character_is_an_error_token() {
    let tokens = run("a # b");
    assert_eq!(tokens[1].kind, TokenKind::Error(s("Unknown character `#` found in source")));
    assert_eq!((tokens[1].line, tokens[1].column, tokens[1].start, tokens[1].end), (1, 3, 2, 3));
    assert_eq!(tokens[2].kind, TokenKind::Ident(s("b")));
}

#[test]
fn unterminated_string_runs_to_the_end() {
    let tokens = run("x \"abc");
    assert_eq!(
        tokens[1].kind,
        TokenKind::Error(s(
            "Unterminated string literal, expected closing quote, EOF (End of File) encountered"
        ))
    );
    assert_eq!((tokens[1].start, tokens[1].end), (2, 6));
    assert_eq!(tokens[2].kind, TokenKind::Eof);
}

#[test]
fn bad_char_literals_are_errors() {
    let message = s("Unterminated char literal, expected closing single quote");
    assert_eq!(kinds("''"), vec![TokenKind::Error(message.clone()), TokenKind::Eof]);
    assert_eq!(kinds("'"), vec![TokenKind::Error(message.clone()), TokenKind::Eof]);
    assert_eq!(kinds("'ab'"), vec![
        TokenKind::Error(message.clone()),
        TokenKind::Ident(s("b")),
        TokenKind::Error(message.clone()),
        TokenKind::Eof
    ]);
}

#[test]
fn numbers_with_trailing_dot_or_range() {
    assert_eq!(kinds("25."), vec![TokenKind::Int(s("25")), TokenKind::Dot, TokenKind::Eof]);
    assert_eq!(kinds("1..3"), vec![
        TokenKind::Int(s("1")),
        TokenKind::Range,
        TokenKind::Int(s("3")),
        TokenKind::Eof
    ]);
    assert_eq!(kinds("0..=9"), vec![
        TokenKind::Int(s("0")),
        TokenKind::RangeInclusive,
        TokenKind::Int(s("9")),
        TokenKind::Eof
    ]);
}

#[test]
fn rescanning_a_token_span_gives_the_same_kind() {
    let source = "let π = 3.14 + foo(\"a\nb\", 'c') .. x..=y && !z # & \"open";
    let tokens: Vec<Token> = run(source);
    for t in tokens.iter() {
        let piece = &source[t.start..t.end];
        let again = run(piece);
        assert_eq!(again[0].kind, t.kind, "piece {:?}", piece);
        assert_eq!((again[0].start, again[0].end), (0, piece.len()));
    }
}

#[test]
fn xid_start_and_continue_differ() {
    assert_eq!(kinds("a·b"), vec![TokenKind::Ident(s("a·b")), TokenKind::Eof]);
    assert_eq!(kinds("·a"), vec![
        TokenKind::Error(s("Unknown character `·` found in source")),
        TokenKind::Ident(s("a")),
        TokenKind::Eof
    ]);
    assert_eq!(kinds("€"), vec![
        TokenKind::Error(s("Unknown character `€` found in source")),
        TokenKind::Eof
    ]);
}

#[test]
fn kind_predicates() {
    assert!(TokenKind::Eof.is_eof());
    assert!(!TokenKind::Dot.is_eof());
    assert!(TokenKind::Error(s("x")).is_error());
    assert!(!TokenKind::Str(s("x")).is_error());
    assert!(TokenKind::Int(s("1")).same_kind(&TokenKind::Int(s("1"))));
    assert!(!TokenKind::Int(s("1")).same_kind(&TokenKind::Float(s("1"))));
    assert!(TokenKind::Char('a') != TokenKind::Char('b'));
    let t = Token::new(TokenKind::Comma, 2, 3, 4, 5);
    assert_eq!((t.line, t.column, t.start, t.end), (2, 3, 4, 5));
}

#[test]
fn escaped_quotes_and_backslashes_stay_in_strings() {
    assert_eq!(kinds(r#""a\"b""#), vec![TokenKind::Str(s("a\"b")), TokenKind::Eof]);
    assert_eq!(kinds(r#""a\\" x"#), vec![
        TokenKind::Str(s("a\\")),
        TokenKind::Ident(s("x")),
        TokenKind::Eof
    ]);
    assert_eq!(kinds(r#""\n\q""#), vec![TokenKind::Str(s("\\n\\q")), TokenKind::Eof]);
    let tokens = run(r#"x "\"" y"#);
    assert_eq!(tokens[1].kind, TokenKind::Str(s("\"")));
    assert_eq!((tokens[1].start, tokens[1].end), (2, 6));
    assert_eq!(
        kinds(r#""open\""#),
        vec![
            TokenKind::Error(s(
                "Unterminated string literal, expected closing quote, EOF (End of File) encountered"
            )),
            TokenKind::Eof
        ]
    );
}

#[test]
fn rescanning_escaped_strings() {
    let source = r#"a "x\"y" "p\\" "q\"#;
    for t in run(source).iter() {
        let piece = &source[t.start..t.end];
        let again = run(piece);
        assert_eq!(again[0].kind, t.kind, "piece {:?}", piece);
        assert_eq!(again[0].end, piece.len());
    }
}
