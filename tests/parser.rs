use meow::errors::{ErrorKind, Label, Responder};
use meow::lexer::token::TokenKind;
use meow::parse;
use meow::parser::ast::{BinOp, Expr, Lit, Position, Span, Stmt, UnaryOp};
use meow::parser::precedence::{get_precedence, Precedence};
use meow::parser::Parser;

fn op_text(op: &BinOp) -> &'static str {
    match op {
        BinOp::Plus => "+",
        BinOp::Minus => "-",
        BinOp::Star => "*",
        BinOp::Slash => "/",
        BinOp::EqualEqual => "==",
        BinOp::BangEqual => "!=",
        BinOp::Greater => ">",
        BinOp::GreaterEqual => ">=",
        BinOp::Less => "<",
        BinOp::LessEqual => "<=",
        BinOp::And => "&&",
        BinOp::Or => "||",
    }
}

fn shape(e: &Expr) -> String {
    match e {
        Expr::Literal { value, .. } => match value {
            Lit::Integer(n) => format!("{}", n),
            Lit::Float(d) => d.clone(),
            Lit::Char(c) => format!("'{}'", c),
            Lit::String(s) => format!("{:?}", s),
            Lit::True => "true".to_string(),
            Lit::False => "false".to_string(),
        },
        Expr::Binary { op, lhs, rhs, .. } => {
            format!("({} {} {})", shape(lhs), op_text(op), shape(rhs))
        }
        Expr::Unary { op, rhs, .. } => match op {
            UnaryOp::Minus => format!("(-{})", shape(rhs)),
            UnaryOp::Bang => format!("(!{})", shape(rhs)),
        },
        Expr::Ident(name) => name.clone(),
        Expr::Grouping(inner) => format!("[{}]", shape(inner)),
        Expr::Call { name, arguments, .. } => {
            let args: Vec<String> = arguments.iter().map(shape).collect();
            format!("{}({})", name, args.join(", "))
        }
        Expr::Assignment { name, value } => format!("({} = {})", name, shape(value)),
        Expr::Block { code, .. } => block_shape(code),
        Expr::If { condition, code, else_code, .. } => {
            let mut text = format!("if {} {}", shape(condition), stmt_shape(code));
            if let Some(other) = else_code {
                text.push_str(&format!(" else {}", stmt_shape(other)));
            }
            text
        }
        Expr::While { expr, code, .. } => format!("while {} {}", shape(expr), block_shape(code)),
        Expr::For { expr, code, .. } => format!("for {} {}", shape(expr), block_shape(code)),
        Expr::Match { expr, patterns } => {
            let cases: Vec<String> = patterns
                .iter()
                .map(|c| format!("{} {}", shape(&c.pattern), block_shape(&c.code)))
                .collect();
            format!("match {} <{}>", shape(expr), cases.join(" | "))
        }
    }
}

fn stmt_shape(s: &Stmt) -> String {
    match s {
        Stmt::ExpressionStmt(e) => shape(e),
    }
}

fn block_shape(code: &[Stmt]) -> String {
    let inner: Vec<String> = code.iter().map(stmt_shape).collect();
    format!("{{{}}}", inner.join("; "))
}

fn shapes(source: &str) -> Vec<String> {
    let (stmts, reports) = parse(source, "test.mw");
    assert!(reports.is_empty(), "unexpected reports: {:?}", reports);
    stmts
        .iter()
        .map(|s| match s {
            Stmt::ExpressionStmt(e) => shape(e),
        })
        .collect()
}

#[test]
fn tighter_operator_binds_first() {
    assert_eq!(shapes("a + b * c;"), vec!["(a + (b * c))"]);
    assert_eq!(shapes("a * b + c;"), vec!["((a * b) + c)"]);
    assert_eq!(shapes("a == b < c;"), vec!["(a == (b < c))"]);
    assert_eq!(shapes("a < b == c;"), vec!["((a < b) == c)"]);
}

#[test]
fn equal_levels_associate_left() {
    assert_eq!(shapes("a - b - c;"), vec!["((a - b) - c)"]);
    assert_eq!(shapes("a - b + c;"), vec!["((a - b) + c)"]);
    assert_eq!(shapes("a / b * c;"), vec!["((a / b) * c)"]);
    assert_eq!(shapes("a || b || c;"), vec!["((a || b) || c)"]);
}

#[test]
fn whole_table_of_levels() {
    assert_eq!(
        shapes("a || b && c == d < e + f * g"),
        vec!["(a || (b && (c == (d < (e + (f * g))))))"]
    );
}

#[test]
fn prefix_operators_bind_tightest() {
    assert_eq!(shapes("-a * b;"), vec!["((-a) * b)"]);
    assert_eq!(shapes("!a == b;"), vec!["((!a) == b)"]);
    assert_eq!(shapes("- -a;"), vec!["(-(-a))"]);
}

#[test]
fn assignment_is_loosest_and_right_associative() {
    assert_eq!(shapes("x = y = 1 + 2;"), vec!["(x = (y = (1 + 2)))"]);
    assert_eq!(shapes("x += 2 * y;"), vec!["(x = (x + (2 * y)))"]);
    assert_eq!(shapes("x /= 2;"), vec!["(x = (x / 2))"]);
}

#[test]
fn calls_groups_and_literals() {
    assert_eq!(shapes("f(1, g(2), 3) * 2;"), vec!["(f(1, g(2), 3) * 2)"]);
    assert_eq!(shapes("f();"), vec!["f()"]);
    assert_eq!(shapes("(a + b) * c;"), vec!["([(a + b)] * c)"]);
    assert_eq!(
        shapes("1.5; 'c'; \"s\"; true; false"),
        vec!["1.5", "'c'", "\"s\"", "true", "false"]
    );
}

#[test]
fn positions_cover_the_whole_expression() {
    let (stmts, _) = parse("  ab +\n cd", "test.mw");
    match &stmts[0] {
        Stmt::ExpressionStmt(Expr::Binary { position, .. }) => {
            assert_eq!(
                *position,
                Position::new(Span { start: 2, end: 10 }, 1, 3)
            );
            assert_eq!((position.start(), position.end()), (2, 10));
        }
        other => panic!("unexpected {:?}", other),
    }
}

#[test]
fn largest_integer_and_one_past_it() {
    let (stmts, reports) = parse("9223372036854775807;", "test.mw");
    assert!(reports.is_empty());
    match &stmts[0] {
        Stmt::ExpressionStmt(Expr::Literal { value, .. }) => {
            assert_eq!(*value, Lit::Integer(isize::MAX))
        }
        other => panic!("unexpected {:?}", other),
    }
    let mut parser = Parser::new("9223372036854775808;", "test.mw");
    parser.parse_program();
    assert!(parser.ast().is_empty());
    let d = parser.diagnostics();
    assert_eq!(d.len(), 1);
    assert_eq!(d[0].message, "Integer literal does not fit");
}

#[test]
fn missing_equals_reports_once_at_the_found_token() {
    let mut parser = Parser::new("let x 10", "main.mw");
    parser.advance();
    parser.consume(TokenKind::Let, "Expected `let`", vec![]);
    parser.consume(TokenKind::Ident("x".to_string()), "Expected a name", vec![]);
    let label = Label::new(6, 8, "Unexpected token");
    parser.consume(TokenKind::Equal, "Expected to find token `=`", vec![label]);
    let d = parser.diagnostics();
    assert_eq!(d.len(), 1);
    assert_eq!(d[0].kind, ErrorKind::InvalidSyntax);
    assert_eq!((d[0].line, d[0].column), (1, 7));
    assert_eq!(d[0].message, "Expected to find token `=`");
    assert_eq!((d[0].labels[0].start, d[0].labels[0].end), (6, 8));
    assert_eq!(parser.current_token().unwrap().kind, TokenKind::Int("10".to_string()));
    assert_eq!(parser.next_token().unwrap().kind, TokenKind::Eof);
    parser.advance();
    assert_eq!(parser.next_token().unwrap().kind, TokenKind::Eof);
    assert_eq!(parser.diagnostics().len(), 1);

    let responder = Responder::new("let x 10".to_string());
    let text = responder.render(&parser.diagnostics()[0], "main.mw").unwrap();
    assert_eq!(
        text,
        "\u{1b}[31mError\u{1b}[0m - Invalid Syntax\n= at \u{1b}[33mmain.mw:1:7\u{1b}[0m\n\n\
         | 10\n|       ^^-- \u{1b}[31mUnexpected token\u{1b}[0m\n\
         \u{1b}[33m\n= note: Expected to find token `=`\u{1b}[0m\n"
    );
}

#[test]
fn advance_reports_error_tokens_and_skips_them() {
    let mut parser = Parser::new("a # $ b", "t.mw");
    parser.advance();
    assert_eq!(parser.next_token().unwrap().kind, TokenKind::Ident("a".to_string()));
    parser.advance();
    assert_eq!(parser.current_token().unwrap().kind, TokenKind::Ident("a".to_string()));
    assert_eq!(parser.next_token().unwrap().kind, TokenKind::Ident("b".to_string()));
    let d = parser.diagnostics();
    assert_eq!(d.len(), 2);
    assert_eq!(d[0].message, "Unknown character `#` found in source");
    assert_eq!((d[0].line, d[0].column), (1, 3));
    assert_eq!(d[1].message, "Unknown character `$` found in source");
    assert_eq!(d[1].column, 5);
}

#[test]
fn syntax_errors_each_get_a_diagnostic_and_parsing_goes_on() {
    let mut parser = Parser::new("1 +; 2 *; (3; f(1 2); 1 = 2; 1(2); 4 5; ok", "t.mw");
    parser.parse_program();
    let found: Vec<(ErrorKind, u32, String)> = parser
        .diagnostics()
        .iter()
        .map(|d| (d.kind, d.column, d.message.clone()))
        .collect();
    assert_eq!(
        found,
        vec![
            (ErrorKind::InvalidSyntax, 4, "Expected an expression".to_string()),
            (ErrorKind::InvalidSyntax, 9, "Expected an expression".to_string()),
            (ErrorKind::ExpectedToken, 13, "Expected `)`".to_string()),
            (ErrorKind::ExpectedToken, 19, "Expected `,` or `)`".to_string()),
            (ErrorKind::InvalidSyntax, 25, "Only a name can be assigned to".to_string()),
            (ErrorKind::InvalidSyntax, 31, "Only a name can be called".to_string()),
            (ErrorKind::ExpectedToken, 38, "Expected `;`".to_string()),
        ]
    );
    assert_eq!(parser.ast().len(), 2);
}

#[test]
fn reports_render_every_diagnostic_in_order() {
    let (_, reports) = parse("1 +;", "t.mw");
    assert_eq!(
        reports,
        vec![
            "\u{1b}[31mError\u{1b}[0m - Invalid Syntax\n= at \u{1b}[33mt.mw:1:4\u{1b}[0m\n\n\
             \u{1b}[33m\n= note: Expected an expression\u{1b}[0m\n"
                .to_string()
        ]
    );
    let (stmts, reports) = parse("x;\n\n\n\n\n\n\n\n\n\n\n\n  &", "t.mw");
    assert_eq!(stmts.len(), 1);
    assert_eq!(reports.len(), 1);
    assert!(reports[0].contains("t.mw:13:3"));
}

#[test]
fn precedence_table_levels() {
    assert_eq!(get_precedence(&TokenKind::Equal), Precedence::new(None, Some(1)));
    assert_eq!(get_precedence(&TokenKind::Or), Precedence::new(None, Some(2)));
    assert_eq!(get_precedence(&TokenKind::And), Precedence::new(None, Some(3)));
    assert_eq!(get_precedence(&TokenKind::BangEqual), Precedence::new(None, Some(4)));
    assert_eq!(get_precedence(&TokenKind::LessEqual), Precedence::new(None, Some(5)));
    assert_eq!(get_precedence(&TokenKind::Plus), Precedence::new(None, Some(6)));
    assert_eq!(get_precedence(&TokenKind::Minus), Precedence::new(Some(8), Some(6)));
    assert_eq!(get_precedence(&TokenKind::Slash), Precedence::new(None, Some(7)));
    assert_eq!(get_precedence(&TokenKind::Bang), Precedence::new(Some(8), None));
    assert_eq!(get_precedence(&TokenKind::OpenParen), Precedence::new(None, Some(9)));
    assert_eq!(get_precedence(&TokenKind::Semicolon), Precedence::new(None, None));
}

#[test]
fn parse_expression_from_a_fresh_parser() {
    let mut parser = Parser::new("a * b + c - d", "t.mw");
    let e = parser.parse_expression(Precedence::new(None, Some(7))).unwrap();
    assert_eq!(shape(&e), "(a * b)");
    assert_eq!(parser.next_token().unwrap().kind, TokenKind::Plus);
}

#[test]
fn labels_outside_the_source_do_not_render() {
    let responder = Responder::new("héllo".to_string());
    let ok = responder
        .render_error(ErrorKind::ExpectedToken, 1, 1, "f", &vec![Label::new(0, 3, "x")], "m")
        .unwrap();
    assert!(ok.contains("| hé\n| ^^-- "));
    assert!(responder
        .render_error(ErrorKind::ExpectedToken, 1, 1, "f", &vec![Label::new(0, 2, "x")], "m")
        .is_none());
    assert!(responder
        .render_error(ErrorKind::ExpectedToken, 1, 1, "f", &vec![Label::new(4, 9, "x")], "m")
        .is_none());
    assert_eq!(ErrorKind::ExpectedToken.to_string(), "Expected token");
}

#[test]
fn blocks_and_conditionals() {
    assert_eq!(shapes("{ a; b }"), vec!["{a; b}"]);
    assert_eq!(shapes("{}"), vec!["{}"]);
    assert_eq!(
        shapes("if a { b; } else if c { d } else { e }"),
        vec!["if a {b} else if c {d} else {e}"]
    );
    assert_eq!(shapes("if a < 1 { b }"), vec!["if (a < 1) {b}"]);
    assert_eq!(shapes("if a { b } c;"), vec!["if a {b}", "c"]);
}

#[test]
fn loops_and_match() {
    assert_eq!(
        shapes("while x < 10 { x += 1; }"),
        vec!["while (x < 10) {(x = (x + 1))}"]
    );
    assert_eq!(shapes("for xs { f(x) }"), vec!["for xs {f(x)}"]);
    assert_eq!(
        shapes("match x { 1 { a } 2 { b; c } }"),
        vec!["match x <1 {a} | 2 {b; c}>"]
    );
    assert_eq!(shapes("{ while a { b } c }"), vec!["{while a {b}; c}"]);
}

#[test]
fn unclosed_and_malformed_blocks_are_reported() {
    let mut parser = Parser::new("{ a", "t.mw");
    parser.parse_program();
    let d = parser.diagnostics();
    assert_eq!(d.len(), 1);
    assert_eq!((d[0].kind, d[0].column), (ErrorKind::ExpectedToken, 4));
    assert_eq!(d[0].message, "Expected `}`");

    let mut parser = Parser::new("if a b", "t.mw");
    parser.parse_program();
    assert_eq!(parser.diagnostics()[0].message, "Expected `{`");

    let mut parser = Parser::new("{ a b }; c", "t.mw");
    parser.parse_program();
    assert_eq!(parser.diagnostics().len(), 1);
    assert_eq!(parser.diagnostics()[0].message, "Expected `;`");
    assert_eq!(parser.ast().len(), 1);

    let mut parser = Parser::new("match x { 1 }", "t.mw");
    parser.parse_program();
    assert_eq!(parser.diagnostics()[0].message, "Expected `{`");
}

#[test]
fn block_positions_run_from_keyword_to_brace() {
    let (stmts, _) = parse("while a {\n  b\n}", "t.mw");
    match &stmts[0] {
        Stmt::ExpressionStmt(Expr::While { position, .. }) => {
            assert_eq!(*position, Position::new(Span { start: 0, end: 15 }, 1, 1));
        }
        other => panic!("unexpected {:?}", other),
    }
}

#[test]
fn reports_render_labelled_diagnostics() {
    let mut parser = Parser::new("let x 10", "main.mw");
    parser.advance();
    parser.consume(TokenKind::Let, "Expected `let`", vec![]);
    parser.consume(TokenKind::Ident("x".to_string()), "Expected a name", vec![]);
    parser.consume(TokenKind::Equal, "Expected `=`", vec![Label::new(6, 8, "here")]);
    let reports = parser.reports();
    assert_eq!(reports.len(), 1);
    assert!(reports[0].contains("| 10\n|       ^^-- \u{1b}[31mhere\u{1b}[0m\n"));
}
