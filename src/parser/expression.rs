//! Expressions, parsed by precedence climbing: a left operand is parsed
//! first, then operators are taken while they bind at least as tightly as
//! the level asked for. Equal levels associate to the left; prefix `-` and
//! `!` bind tighter than any binary operator.

use vstd::prelude::*;
use crate::errors::{DiagnosticModel, ErrorKind};
use crate::lexer::model::is_digit;
use crate::lexer::token::{Token, TokenKind};
use crate::parser::ast::{
    expr_model, stmt_model, stmts_model, BinOp, Case, CaseModel, Expr, ExprModel, Lit, Position,
    Span, Stmt, StmtModel, UnaryOp,
};
use crate::parser::grammar::{
    adv, binary_op, block_at, call_args, climb, compound_op, decimal_value, if_expr, infix_level,
    int_value, join, literal_of, loop_expr, match_cases, match_expr, parse_expr, position_of,
    prefix_expr, unary_op, block_stmts,
};
use crate::parser::precedence::{get_precedence, precedence_of, Precedence};
use crate::parser::{
    adds_errors, after, lemma_adds_errors_trans, lemma_adds_nothing, lemma_errors_join,
    lemma_lexical_is_errors, lemma_next_good, next_good, Parser,
};
use crate::text::chars_of;

verus! {

/// `b` holds the diagnostics of `a`, then perhaps more, none of which has
/// labels.
pub open spec fn extends(a: Seq<DiagnosticModel>, b: Seq<DiagnosticModel>) -> bool {
    &&& a.len() <= b.len()
    &&& b.subrange(0, a.len() as int) == a
    &&& forall|k: int| a.len() <= k < b.len() ==> (#[trigger] b[k]).labels.len() == 0
}

pub proof fn lemma_extends_trans(a: Seq<DiagnosticModel>, b: Seq<DiagnosticModel>, c: Seq<DiagnosticModel>)
    requires
        extends(a, b),
        extends(b, c),
    ensures
        extends(a, c),
{
    assert(c.subrange(0, a.len() as int) =~= c.subrange(0, b.len() as int).subrange(0, a.len() as int));
    assert forall|k: int| a.len() <= k < c.len() implies (#[trigger] c[k]).labels.len() == 0 by {
        if k < b.len() {
            assert(c[k] == c.subrange(0, b.len() as int)[k]);
        }
    }
}

pub proof fn lemma_extends_refl(a: Seq<DiagnosticModel>)
    ensures
        extends(a, a),
{
    assert(a.subrange(0, a.len() as int) =~= a);
}

proof fn lemma_decimal_grows(d: Seq<char>, k: int)
    requires
        0 <= k <= d.len(),
        forall|m: int| 0 <= m < d.len() ==> is_digit(#[trigger] d[m]),
    ensures
        0 <= decimal_value(d.take(k)) <= decimal_value(d),
    decreases d.len(),
{
    if k < d.len() {
        let e = d.drop_last();
        assert(d.take(k) =~= e.take(k));
        assert forall|m: int| 0 <= m < e.len() implies is_digit(#[trigger] e[m]) by {
            assert(e[m] == d[m]);
        }
        lemma_decimal_grows(e, k);
        lemma_decimal_grows(e, e.len() as int);
        assert(e.take(e.len() as int) =~= e);
        assert(is_digit(d[d.len() - 1]));
    } else {
        assert(d.take(k) =~= d);
        if d.len() > 0 {
            let e = d.drop_last();
            assert forall|m: int| 0 <= m < e.len() implies is_digit(#[trigger] e[m]) by {
                assert(e[m] == d[m]);
            }
            lemma_decimal_grows(e, e.len() as int);
            assert(e.take(e.len() as int) =~= e);
            assert(is_digit(d[d.len() - 1]));
        }
    }
}

/// The value of the integer literal `d`, where it fits in an `isize`.
fn int_literal(d: &String) -> (r: Option<isize>)
    ensures
        r == (match int_value(d@) {
            Some(v) => Some(v as isize),
            None => None,
        }),
        int_value(d@) matches Some(v) ==> 0 <= v,
{
    let chars = chars_of(d.as_str());
    let mut value: i128 = 0;
    let mut k: usize = 0;
    while k < chars.len()
        invariant
            k <= chars@.len(),
            chars@ == d@,
            forall|m: int| 0 <= m < k ==> is_digit(#[trigger] chars@[m]),
            value == decimal_value(chars@.take(k as int)),
            0 <= value <= isize::MAX,
        decreases chars@.len() - k,
    {
        let c = chars[k];
        if !('0' <= c && c <= '9') {
            assert(!is_digit(chars@[k as int]));
            return None;
        }
        assert(chars@.take(k + 1).drop_last() =~= chars@.take(k as int));
        value = value * 10 + ((c as u32) - ('0' as u32)) as i128;
        if value > isize::MAX as i128 {
            proof {
                if forall|m: int| 0 <= m < chars@.len() ==> is_digit(#[trigger] chars@[m]) {
                    lemma_decimal_grows(chars@, k + 1);
                }
            }
            return None;
        }
        k += 1;
    }
    assert(chars@.take(k as int) =~= chars@);
    proof {
        lemma_decimal_grows(chars@, 0);
    }
    Some(value as isize)
}

fn position_of_token(t: &Token) -> (p: Position)
    ensures
        p == position_of(*t),
{
    Position { span: Span { start: t.start, end: t.end }, line: t.line, column: t.column }
}

fn join_positions(p: Position, q: Position) -> (r: Position)
    ensures
        r == join(p, q),
{
    Position { span: Span { start: p.span.start, end: q.span.end }, line: p.line, column: p.column }
}

fn binary_op_of(k: &TokenKind) -> (r: Option<BinOp>)
    ensures
        r == binary_op(k@),
{
    match k {
        TokenKind::Plus => Some(BinOp::Plus),
        TokenKind::Minus => Some(BinOp::Minus),
        TokenKind::Star => Some(BinOp::Star),
        TokenKind::Slash => Some(BinOp::Slash),
        TokenKind::EqualEqual => Some(BinOp::EqualEqual),
        TokenKind::BangEqual => Some(BinOp::BangEqual),
        TokenKind::Greater => Some(BinOp::Greater),
        TokenKind::GreaterEqual => Some(BinOp::GreaterEqual),
        TokenKind::Less => Some(BinOp::Less),
        TokenKind::LessEqual => Some(BinOp::LessEqual),
        TokenKind::And => Some(BinOp::And),
        TokenKind::Or => Some(BinOp::Or),
        _ => None,
    }
}

fn compound_op_of(k: &TokenKind) -> (r: Option<BinOp>)
    ensures
        r == compound_op(k@),
{
    match k {
        TokenKind::PlusEqual => Some(BinOp::Plus),
        TokenKind::MinusEqual => Some(BinOp::Minus),
        TokenKind::StarEqual => Some(BinOp::Star),
        TokenKind::SlashEqual => Some(BinOp::Slash),
        _ => None,
    }
}

fn infix_of(k: &TokenKind) -> (r: Option<u8>)
    ensures
        r matches Some(q) ==> infix_level(k@) == Some(q as int),
        r is None ==> infix_level(k@) is None,
        r matches Some(q) ==> q <= 9,
{
    match k {
        TokenKind::Dot => None,
        _ => get_precedence(k).infix,
    }
}

/// How a token begins an operand.
enum Lead {
    Operand(Expr),
    Group,
    Block,
    If,
    Loop,
    Match,
    Prefix(UnaryOp, u8),
    TooLarge,
    Other,
}

fn lead_of(t: &Token) -> (r: Lead)
    ensures
        ({
            let k = t.kind@;
            match r {
                Lead::Operand(e) => (literal_of(k) is Some && expr_model(&e) == ExprModel::Literal {
                    value: literal_of(k).unwrap(),
                    position: position_of(*t),
                }) || (literal_of(k) is None && k is Ident && expr_model(&e) == ExprModel::Ident(
                    k->Ident_0,
                )),
                Lead::Group => literal_of(k) is None && k is OpenParen,
                Lead::Block => literal_of(k) is None && k is OpenBrace,
                Lead::If => literal_of(k) is None && k is If,
                Lead::Loop => literal_of(k) is None && (k is While || k is For),
                Lead::Match => literal_of(k) is None && k is Match,
                Lead::Prefix(op, level) => literal_of(k) is None && !(k is Ident) && !(
                k is OpenParen) && !(k is OpenBrace) && !(k is If) && !(k is While) && !(
                k is For) && !(k is Match) && unary_op(k) == Some(op) && level as int
                    == precedence_of(k).prefix.unwrap() as int,
                Lead::TooLarge | Lead::Other => literal_of(k) is None && !(k is Ident) && !(
                k is OpenParen) && !(k is OpenBrace) && !(k is If) && !(k is While) && !(
                k is For) && !(k is Match) && unary_op(k) is None,
            }
        }),
{
    let position = position_of_token(t);
    match &t.kind {
        TokenKind::Int(d) => match int_literal(d) {
            Some(v) => Lead::Operand(Expr::Literal { value: Lit::Integer(v), position }),
            None => Lead::TooLarge,
        },
        TokenKind::Float(d) => Lead::Operand(Expr::Literal { value: Lit::Float(d.clone()), position }),
        TokenKind::Char(c) => Lead::Operand(Expr::Literal { value: Lit::Char(*c), position }),
        TokenKind::Str(v) => Lead::Operand(Expr::Literal { value: Lit::String(v.clone()), position }),
        TokenKind::True => Lead::Operand(Expr::Literal { value: Lit::True, position }),
        TokenKind::False => Lead::Operand(Expr::Literal { value: Lit::False, position }),
        TokenKind::Ident(name) => Lead::Operand(Expr::Ident(name.clone())),
        TokenKind::OpenParen => Lead::Group,
        TokenKind::OpenBrace => Lead::Block,
        TokenKind::If => Lead::If,
        TokenKind::While | TokenKind::For => Lead::Loop,
        TokenKind::Match => Lead::Match,
        TokenKind::Minus => Lead::Prefix(UnaryOp::Minus, 8),
        TokenKind::Bang => Lead::Prefix(UnaryOp::Bang, 8),
        _ => Lead::Other,
    }
}

/// The view of a list of expressions.
pub open spec fn exprs_model(v: Seq<Expr>) -> Seq<ExprModel> {
    v.map_values(|e: Expr| expr_model(&e))
}

/// The view of a [`Case`].
pub open spec fn case_model(c: &Case) -> CaseModel {
    CaseModel { pattern: expr_model(&c.pattern), code: stmts_model(&c.code) }
}

/// `r` is what the model `m` says a parse gives, and the parser then looks
/// at the token after it.
pub open spec fn yields(p: &Parser, m: Option<(ExprModel, Position, int)>, r: Option<(Expr, Position)>) -> bool {
    match (m, r) {
        (Some((e, q, j)), Some((x, y))) => expr_model(&x) == e && y == q && p.poised() && p.at() == j
            && j < p.toks().len(),
        (None, None) => true,
        _ => false,
    }
}

/// `r` holds the arguments `args`, and the position of the closing
/// parenthesis at `close`, after which the parser looks.
pub open spec fn arguments_parsed(
    before: &Parser,
    after_call: &Parser,
    r: Option<(Vec<Expr>, Position)>,
    args: Seq<ExprModel>,
    close: int,
) -> bool {
    match r {
        Some((v, q)) => {
            &&& exprs_model(v@) == args
            &&& q == position_of(before.toks()[close])
            &&& before.at() <= close < before.toks().len() - 1
            &&& after_call.poised()
            &&& after_call.at() == adv(before.toks(), close)
            &&& after_call.at() < before.toks().len()
            &&& before.at() < after_call.at()
        },
        None => false,
    }
}

impl Parser {
    /// Take the looked-at token and look at the next one.
    pub(super) fn take(&mut self)
        requires
            old(self).wf(),
            old(self).poised(),
        ensures
            final(self).wf(),
            final(self).toks() == old(self).toks(),
            final(self).source() == old(self).source(),
            final(self).file() == old(self).file(),
            final(self).ast_view() == old(self).ast_view(),
            final(self).poised(),
            final(self).at() == adv(old(self).toks(), old(self).at()),
            final(self).at() < final(self).toks().len(),
            old(self).at() < old(self).toks().len() - 1 ==> old(self).at() < final(self).at(),
            extends(old(self).diagnostics_view(), final(self).diagnostics_view()),
            adds_errors(
                old(self).diagnostics_view(),
                final(self).diagnostics_view(),
                old(self).toks(),
                old(self).at(),
                final(self).at(),
            ),
    {
        let ghost d0 = self.diagnostics_view();
        let ghost n = self.at();
        let _ = self.looked_at_index();
        self.advance();
        proof {
            let toks = self.toks();
            lemma_next_good(toks, after(toks, n));
            lemma_lexical_is_errors(toks, after(toks, n), self.at());
            lemma_errors_join(toks, n, after(toks, n), self.at());
            assert(crate::parser::errors_in(toks, n, n) =~= seq![]);
            assert(crate::parser::errors_in(toks, n, after(toks, n)) =~= seq![]);
            assert(self.diagnostics_view() =~= d0 + crate::parser::errors_in(toks, n, self.at()));
            lemma_next_good(self.toks(), after(self.toks(), n));
            assert(self.diagnostics_view().subrange(0, d0.len() as int) =~= d0);
            crate::parser::lemma_lexical_unlabelled(self.toks(), after(self.toks(), n), self.at());
        }
    }

    /// Report an error of `kind` at the token with index `at`.
    pub(super) fn report(&mut self, kind: ErrorKind, at: usize, message: &str)
        requires
            old(self).wf(),
            at < old(self).toks().len(),
        ensures
            final(self).wf(),
            final(self).toks() == old(self).toks(),
            final(self).source() == old(self).source(),
            final(self).file() == old(self).file(),
            final(self).ast_view() == old(self).ast_view(),
            final(self).next_index() == old(self).next_index(),
            final(self).cursor() == old(self).cursor(),
            extends(old(self).diagnostics_view(), final(self).diagnostics_view()),
            final(self).diagnostics_view().len() == old(self).diagnostics_view().len() + 1,
    {
        let ghost d0 = self.diagnostics_view();
        let labels: Vec<crate::errors::Label> = Vec::new();
        assert(labels@.map_values(|l: crate::errors::Label| l@) =~= seq![]);
        self.parser_error(kind, at, labels, message);
        assert(self.diagnostics_view().subrange(0, d0.len() as int) =~= d0);
    }

    /// Parse an expression that starts at the looked-at token, taking only
    /// operators that bind at level `min` or tighter. Where the tokens form
    /// no expression, the error is reported and the result is `None`.
    pub fn parse_expression(&mut self, precedence: Precedence) -> (r: Option<Expr>)
        requires
            old(self).wf(),
        ensures
            final(self).wf(),
            final(self).toks() == old(self).toks(),
            final(self).source() == old(self).source(),
            final(self).file() == old(self).file(),
            final(self).ast_view() == old(self).ast_view(),
            extends(old(self).diagnostics_view(), final(self).diagnostics_view()),
            ({
                let start = if old(self).poised() {
                    old(self).at()
                } else {
                    next_good(old(self).toks(), old(self).cursor())
                };
                let min = match precedence.infix {
                    Some(q) => q as int,
                    None => 0,
                };
                match parse_expr(old(self).toks(), start, min) {
                    Some((e, _, j)) => r matches Some(x) && expr_model(&x) == e && final(self).poised()
                        && final(self).at() == j,
                    None => r is None,
                }
            }),
            final(self).poised(),
            old(self).poised() ==> old(self).at() <= final(self).at(),
            old(self).poised() && r is Some ==> old(self).at() < final(self).at(),
            r is None ==> old(self).diagnostics_view().len() < final(self).diagnostics_view().len(),
            r is Some ==> adds_errors(
                old(self).diagnostics_view(),
                final(self).diagnostics_view(),
                old(self).toks(),
                if old(self).poised() {
                    old(self).at()
                } else {
                    old(self).cursor()
                },
                final(self).at(),
            ),
    {
        let ghost d0 = self.diagnostics_view();
        let ghost from = if self.poised() {
            self.at()
        } else {
            self.cursor()
        };
        proof {
            lemma_adds_nothing(self.toks(), d0, from);
        }
        if self.next.is_none() {
            proof {
                self.lemma_cursor_bound();
                lemma_next_good(self.toks(), self.cursor());
                lemma_lexical_is_errors(self.toks(), self.cursor(), next_good(self.toks(), self.cursor()));
            }
            self.advance();
            proof {
                assert(self.diagnostics_view().subrange(0, d0.len() as int) =~= d0);
                crate::parser::lemma_lexical_unlabelled(
                    old(self).toks(),
                    old(self).cursor(),
                    self.at(),
                );
            }
        }
        let min = match precedence.infix {
            Some(q) => q,
            None => 0,
        };
        let ghost d1 = self.diagnostics_view();
        let ghost a1 = self.at();
        proof {
            lemma_extends_refl(d0);
        }
        let r = self.parse_expr_at(min);
        proof {
            lemma_extends_trans(d0, d1, self.diagnostics_view());
            if r is Some {
                lemma_adds_errors_trans(self.toks(), d0, d1, self.diagnostics_view(), from, a1, self.at());
            }
        }
        match r {
            Some((e, _)) => Some(e),
            None => None,
        }
    }

    fn parse_expr_at(&mut self, min: u8) -> (r: Option<(Expr, Position)>)
        requires
            old(self).wf(),
            old(self).poised(),
        ensures
            final(self).wf(),
            final(self).toks() == old(self).toks(),
            final(self).source() == old(self).source(),
            final(self).file() == old(self).file(),
            final(self).ast_view() == old(self).ast_view(),
            extends(old(self).diagnostics_view(), final(self).diagnostics_view()),
            yields(final(self), parse_expr(old(self).toks(), old(self).at(), min as int), r),
            r is Some ==> old(self).at() < final(self).at(),
            final(self).poised(),
            old(self).at() <= final(self).at(),
            r is None ==> old(self).diagnostics_view().len() < final(self).diagnostics_view().len(),
            r is Some ==> adds_errors(
                old(self).diagnostics_view(),
                final(self).diagnostics_view(),
                old(self).toks(),
                old(self).at(),
                final(self).at(),
            ),
        decreases old(self).toks().len() - old(self).at(), 2int,
    {
        let ghost d0 = self.diagnostics_view();
        let ghost a0 = self.at();
        match self.parse_prefix() {
            Some((lhs, p)) => {
                let ghost d1 = self.diagnostics_view();
                let ghost a1 = self.at();
                let r = self.climb(lhs, p, min);
                proof {
                    lemma_extends_trans(d0, d1, self.diagnostics_view());
                    if r is Some {
                        lemma_adds_errors_trans(self.toks(), d0, d1, self.diagnostics_view(), a0, a1, self.at());
                    }
                }
                r
            },
            None => None,
        }
    }

    fn parse_prefix(&mut self) -> (r: Option<(Expr, Position)>)
        requires
            old(self).wf(),
            old(self).poised(),
        ensures
            final(self).wf(),
            final(self).toks() == old(self).toks(),
            final(self).source() == old(self).source(),
            final(self).file() == old(self).file(),
            final(self).ast_view() == old(self).ast_view(),
            extends(old(self).diagnostics_view(), final(self).diagnostics_view()),
            yields(final(self), prefix_expr(old(self).toks(), old(self).at()), r),
            r is Some ==> old(self).at() < final(self).at(),
            final(self).poised(),
            old(self).at() <= final(self).at(),
            r is None ==> old(self).diagnostics_view().len() < final(self).diagnostics_view().len(),
            r is Some ==> adds_errors(
                old(self).diagnostics_view(),
                final(self).diagnostics_view(),
                old(self).toks(),
                old(self).at(),
                final(self).at(),
            ),
        decreases old(self).toks().len() - old(self).at(), 1int,
    {
        let ghost toks = self.toks();
        let ghost d0 = self.diagnostics_view();
        let i = self.looked_at_index();
        let last = self.tokens.len() - 1;
        if i >= last {
            self.report(ErrorKind::InvalidSyntax, i, "Expected an expression");
            return None;
        }
        let (lead, position) = {
            let t = self.token(i);
            (lead_of(t), position_of_token(t))
        };
        match lead {
            Lead::Operand(e) => {
                self.take();
                Some((e, position))
            },
            Lead::Group => {
                self.take();
                let ghost d1 = self.diagnostics_view();
                let ghost a1 = self.at();
                let inner = self.parse_expr_at(0);
                proof {
                    lemma_extends_trans(d0, d1, self.diagnostics_view());
                }
                match inner {
                    Some((e, _)) => {
                        let m = self.looked_at_index();
                        let (closed, close) = {
                            let t = self.token(m);
                            (
                                match t.kind {
                                    TokenKind::CloseParen => true,
                                    _ => false,
                                },
                                position_of_token(t),
                            )
                        };
                        if closed {
                            let ghost d2 = self.diagnostics_view();
                            let ghost a2 = self.at();
                            self.take();
                            proof {
                                lemma_extends_trans(d0, d2, self.diagnostics_view());
                                lemma_adds_errors_trans(toks, d0, d1, d2, i as int, a1, a2);
                                lemma_adds_errors_trans(toks, d0, d2, self.diagnostics_view(), i as int, a2, self.at());
                            }
                            let p = join_positions(position, close);
                            Some((Expr::Grouping(Box::new(e)), p))
                        } else {
                            let ghost d2 = self.diagnostics_view();
                            self.report(ErrorKind::ExpectedToken, m, "Expected `)`");
                            proof {
                                lemma_extends_trans(d0, d2, self.diagnostics_view());
                            }
                            None
                        }
                    },
                    None => None,
                }
            },
            Lead::Block => match self.parse_block() {
                Some((code, close)) => {
                    let p = join_positions(position, close);
                    let e = Expr::Block { code, position: p };
                    Some((e, p))
                },
                None => None,
            },
            Lead::If => self.parse_if(),
            Lead::Loop => self.parse_loop(),
            Lead::Match => self.parse_match(),
            Lead::Prefix(op, level) => {
                self.take();
                let ghost d1 = self.diagnostics_view();
                let ghost a1 = self.at();
                let operand = self.parse_expr_at(level);
                proof {
                    lemma_extends_trans(d0, d1, self.diagnostics_view());
                    if operand is Some {
                        lemma_adds_errors_trans(toks, d0, d1, self.diagnostics_view(), i as int, a1, self.at());
                    }
                }
                match operand {
                    Some((e, q)) => {
                        let p = join_positions(position, q);
                        Some((Expr::Unary { op, rhs: Box::new(e), position: p }, p))
                    },
                    None => None,
                }
            },
            Lead::TooLarge => {
                self.report(ErrorKind::InvalidSyntax, i, "Integer literal does not fit");
                None
            },
            Lead::Other => {
                self.report(ErrorKind::InvalidSyntax, i, "Expected an expression");
                None
            },
        }
    }

    fn climb(&mut self, lhs: Expr, p: Position, min: u8) -> (r: Option<(Expr, Position)>)
        requires
            old(self).wf(),
            old(self).poised(),
        ensures
            final(self).wf(),
            final(self).toks() == old(self).toks(),
            final(self).source() == old(self).source(),
            final(self).file() == old(self).file(),
            final(self).ast_view() == old(self).ast_view(),
            extends(old(self).diagnostics_view(), final(self).diagnostics_view()),
            yields(final(self), climb(old(self).toks(), expr_model(&lhs), p, old(self).at(), min as int), r),
            r is Some ==> old(self).at() <= final(self).at(),
            final(self).poised(),
            old(self).at() <= final(self).at(),
            r is None ==> old(self).diagnostics_view().len() < final(self).diagnostics_view().len(),
            r is Some ==> adds_errors(
                old(self).diagnostics_view(),
                final(self).diagnostics_view(),
                old(self).toks(),
                old(self).at(),
                final(self).at(),
            ),
        decreases old(self).toks().len() - old(self).at(), 0int,
    {
        let ghost toks = self.toks();
        let ghost d0 = self.diagnostics_view();
        let i = self.looked_at_index();
        let (level, bop, compound, assign) = {
            let t = self.token(i);
            let assign = match t.kind {
                TokenKind::Equal | TokenKind::PlusEqual | TokenKind::MinusEqual
                | TokenKind::StarEqual | TokenKind::SlashEqual => true,
                _ => false,
            };
            (infix_of(&t.kind), binary_op_of(&t.kind), compound_op_of(&t.kind), assign)
        };
        proof {
            lemma_extends_refl(d0);
            lemma_adds_nothing(toks, d0, i as int);
        }
        let q = match level {
            None => {
                return Some((lhs, p));
            },
            Some(q) => q,
        };
        if q < min {
            return Some((lhs, p));
        }
        self.take();
        let ghost d1 = self.diagnostics_view();
        let ghost j = self.at();
        if let Some(op) = bop {
            match self.parse_expr_at(q + 1) {
                Some((rhs, r)) => {
                    let pos = join_positions(p, r);
                    let e = Expr::Binary { op, lhs: Box::new(lhs), rhs: Box::new(rhs), position: pos };
                    let ghost d2 = self.diagnostics_view();
                        let ghost a2 = self.at();
                    let out = self.climb(e, pos, min);
                    proof {
                        lemma_extends_trans(d0, d1, d2);
                        lemma_extends_trans(d0, d2, self.diagnostics_view());
                        if out is Some {
                            lemma_adds_errors_trans(toks, d0, d1, d2, i as int, j, a2);
                            lemma_adds_errors_trans(toks, d0, d2, self.diagnostics_view(), i as int, a2, self.at());
                        }
                    }
                    out
                },
                None => {
                    proof {
                        lemma_extends_trans(d0, d1, self.diagnostics_view());
                    }
                    None
                },
            }
        } else if assign {
            match lhs {
                Expr::Ident(name) => match self.parse_expr_at(q) {
                    Some((rhs, r)) => {
                        let ghost rhs_model = expr_model(&rhs);
                        let pos = join_positions(p, r);
                        let value = match compound {
                            Some(op) => Expr::Binary {
                                op,
                                lhs: Box::new(Expr::Ident(name.clone())),
                                rhs: Box::new(rhs),
                                position: pos,
                            },
                            None => rhs,
                        };
                        let ghost d2 = self.diagnostics_view();
                        let ghost a2 = self.at();
                        assert(parse_expr(toks, j, q as int) == Some((rhs_model, r, self.at())));
                        let ghost value_model = expr_model(&value);
                        assert(value_model == match compound {
                            Some(op) => ExprModel::Binary {
                                op,
                                lhs: Box::new(ExprModel::Ident(name@)),
                                rhs: Box::new(rhs_model),
                                position: pos,
                            },
                            None => rhs_model,
                        });
                        let a = Expr::Assignment { name, value: Box::new(value) };
                        let out = self.climb(a, pos, min);
                        proof {
                            lemma_extends_trans(d0, d1, d2);
                            lemma_extends_trans(d0, d2, self.diagnostics_view());
                            if out is Some {
                                lemma_adds_errors_trans(toks, d0, d1, d2, i as int, j, a2);
                                lemma_adds_errors_trans(toks, d0, d2, self.diagnostics_view(), i as int, a2, self.at());
                            }
                        }
                        out
                    },
                    None => {
                        proof {
                            lemma_extends_trans(d0, d1, self.diagnostics_view());
                        }
                        None
                    },
                },
                _ => {
                    self.report(ErrorKind::InvalidSyntax, i, "Only a name can be assigned to");
                    proof {
                        lemma_extends_trans(d0, d1, self.diagnostics_view());
                    }
                    None
                },
            }
        } else {
            match lhs {
                Expr::Ident(name) => match self.parse_arguments() {
                    Some((arguments, close)) => {
                        let pos = join_positions(p, close);
                        let ghost d2 = self.diagnostics_view();
                        let ghost a2 = self.at();
                        let ghost args = arguments@;
                        let call = Expr::Call { name, arguments, position: pos };
                        proof {
                            let m = expr_model(&call);
                            assert(m->Call_arguments =~= exprs_model(args));
                        }
                        let out = self.climb(call, pos, min);
                        proof {
                            lemma_extends_trans(d0, d1, d2);
                            lemma_extends_trans(d0, d2, self.diagnostics_view());
                            if out is Some {
                                lemma_adds_errors_trans(toks, d0, d1, d2, i as int, j, a2);
                                lemma_adds_errors_trans(toks, d0, d2, self.diagnostics_view(), i as int, a2, self.at());
                            }
                        }
                        out
                    },
                    None => {
                        proof {
                            lemma_extends_trans(d0, d1, self.diagnostics_view());
                        }
                        None
                    },
                },
                _ => {
                    self.report(ErrorKind::InvalidSyntax, i, "Only a name can be called");
                    proof {
                        lemma_extends_trans(d0, d1, self.diagnostics_view());
                    }
                    None
                },
            }
        }
    }

    /// The arguments of a call, the opening parenthesis having been taken:
    /// the arguments, and the position of the closing parenthesis.
    fn parse_arguments(&mut self) -> (r: Option<(Vec<Expr>, Position)>)
        requires
            old(self).wf(),
            old(self).poised(),
        ensures
            final(self).wf(),
            final(self).toks() == old(self).toks(),
            final(self).source() == old(self).source(),
            final(self).file() == old(self).file(),
            final(self).ast_view() == old(self).ast_view(),
            extends(old(self).diagnostics_view(), final(self).diagnostics_view()),
            match call_args(old(self).toks(), old(self).at(), seq![]) {
                Some((args, close)) => arguments_parsed(old(self), final(self), r, args, close),
                None => r is None,
            },
            final(self).poised(),
            old(self).at() <= final(self).at(),
            r is None ==> old(self).diagnostics_view().len() < final(self).diagnostics_view().len(),
            r is Some ==> adds_errors(
                old(self).diagnostics_view(),
                final(self).diagnostics_view(),
                old(self).toks(),
                old(self).at(),
                final(self).at(),
            ),
        decreases old(self).toks().len() - old(self).at(), 3int,
    {
        let ghost toks = self.toks();
        let ghost d0 = self.diagnostics_view();
        let ghost start = self.at();
        let mut args: Vec<Expr> = Vec::new();
        let first = self.looked_at_index();
        let (empty, close) = {
            let t = self.token(first);
            (
                match t.kind {
                    TokenKind::CloseParen => true,
                    _ => false,
                },
                position_of_token(t),
            )
        };
        if empty {
            self.take();
            assert(exprs_model(args@) =~= seq![]);
            return Some((args, close));
        }
        proof {
            lemma_extends_refl(d0);
            lemma_adds_nothing(toks, d0, start);
            assert(exprs_model(args@) =~= seq![]);
        }
        loop
            invariant
                self.wf(),
                self.poised(),
                self.toks() == toks,
                toks == old(self).toks(),
                self.source() == old(self).source(),
                self.file() == old(self).file(),
                self.ast_view() == old(self).ast_view(),
                d0 == old(self).diagnostics_view(),
                start == old(self).at(),
                start <= self.at(),
                !(toks[start].kind@ is CloseParen),
                extends(d0, self.diagnostics_view()),
                adds_errors(d0, self.diagnostics_view(), toks, start, self.at()),
                call_args(toks, start, seq![]) == call_args(toks, self.at(), exprs_model(args@)),
                args@.len() == 0 ==> self.at() == start,
            decreases toks.len() - self.at(),
        {
            let ghost here = self.at();
            let ghost d1 = self.diagnostics_view();
            let ghost before = exprs_model(args@);
            let argument = self.parse_expr_at(0);
            proof {
                lemma_extends_trans(d0, d1, self.diagnostics_view());
            }
            match argument {
                Some((e, _)) => {
                    args.push(e);
                    proof {
                        assert(exprs_model(args@) =~= before.push(expr_model(&e)));
                    }
                    let m = self.looked_at_index();
                    let (kind_close, kind_comma, pos) = {
                        let t = self.token(m);
                        (
                            match t.kind {
                                TokenKind::CloseParen => true,
                                _ => false,
                            },
                            match t.kind {
                                TokenKind::Comma => true,
                                _ => false,
                            },
                            position_of_token(t),
                        )
                    };
                    let ghost d2 = self.diagnostics_view();
                    let ghost a2 = self.at();
                    proof {
                        lemma_adds_errors_trans(toks, d0, d1, d2, start, here, a2);
                    }
                    if kind_close {
                        self.take();
                        proof {
                            lemma_extends_trans(d0, d2, self.diagnostics_view());
                            lemma_adds_errors_trans(toks, d0, d2, self.diagnostics_view(), start, a2, self.at());
                        }
                        return Some((args, pos));
                    } else if kind_comma {
                        self.take();
                        proof {
                            lemma_extends_trans(d0, d2, self.diagnostics_view());
                            lemma_adds_errors_trans(toks, d0, d2, self.diagnostics_view(), start, a2, self.at());
                        }
                    } else {
                        self.report(ErrorKind::ExpectedToken, m, "Expected `,` or `)`");
                        proof {
                            lemma_extends_trans(d0, d2, self.diagnostics_view());
                        }
                        return None;
                    }
                },
                None => {
                    return None;
                },
            }
        }
    }
    /// A block, at its opening brace: its statements and the position of
    /// the closing brace.
    fn parse_block(&mut self) -> (r: Option<(Vec<Stmt>, Position)>)
        requires
            old(self).wf(),
            old(self).poised(),
        ensures
            final(self).wf(),
            final(self).toks() == old(self).toks(),
            final(self).source() == old(self).source(),
            final(self).file() == old(self).file(),
            final(self).ast_view() == old(self).ast_view(),
            extends(old(self).diagnostics_view(), final(self).diagnostics_view()),
            final(self).poised(),
            old(self).at() <= final(self).at(),
            match block_at(old(self).toks(), old(self).at()) {
                Some((code, close, n)) => r matches Some((v, q)) && stmts_model(&v) == code && q
                    == close && final(self).at() == n && old(self).at() < n < final(self).toks().len(),
                None => r is None,
            },
            r is None ==> old(self).diagnostics_view().len() < final(self).diagnostics_view().len(),
            r is Some ==> adds_errors(
                old(self).diagnostics_view(),
                final(self).diagnostics_view(),
                old(self).toks(),
                old(self).at(),
                final(self).at(),
            ),
        decreases old(self).toks().len() - old(self).at(), 0int,
    {
        let ghost toks = self.toks();
        let ghost d0 = self.diagnostics_view();
        let ghost start = self.at();
        proof {
            lemma_extends_refl(d0);
        }
        let i = self.looked_at_index();
        let last = self.tokens.len() - 1;
        let open = match self.token(i).kind {
            TokenKind::OpenBrace => true,
            _ => false,
        };
        if i >= last || !open {
            self.report(ErrorKind::ExpectedToken, i, "Expected `{`");
            return None;
        }
        self.take();
        let ghost first = self.at();
        let mut code: Vec<Stmt> = Vec::new();
        proof {
            assert(code@.map_values(|s: Stmt| stmt_model(&s)) =~= seq![]);
        }
        loop
            invariant
                self.wf(),
                self.poised(),
                self.toks() == toks,
                toks == old(self).toks(),
                self.source() == old(self).source(),
                self.file() == old(self).file(),
                self.ast_view() == old(self).ast_view(),
                d0 == old(self).diagnostics_view(),
                start == old(self).at(),
                start < first <= self.at(),
                first == adv(toks, start),
                extends(d0, self.diagnostics_view()),
                adds_errors(d0, self.diagnostics_view(), toks, start, self.at()),
                block_at(toks, start) == match block_stmts(toks, self.at(), code@.map_values(|s: Stmt| stmt_model(&s))) {
                    Some((stmts, close)) => if first <= close < toks.len() - 1 {
                        Some((stmts, position_of(toks[close]), adv(toks, close)))
                    } else {
                        None
                    },
                    None => None,
                },
            decreases toks.len() - self.at(),
        {
            let ghost acc = code@.map_values(|s: Stmt| stmt_model(&s));
            let ghost d1 = self.diagnostics_view();
            let ghost here = self.at();
            let k = self.looked_at_index();
            let (close, eof, pos) = {
                let t = self.token(k);
                (
                    match t.kind {
                        TokenKind::CloseBrace => true,
                        _ => false,
                    },
                    t.kind.is_eof(),
                    position_of_token(t),
                )
            };
            if close {
                self.take();
                proof {
                    lemma_adds_errors_trans(toks, d0, d1, self.diagnostics_view(), start, here, self.at());
                    lemma_extends_trans(d0, d1, self.diagnostics_view());
                    assert(stmts_model(&code) =~= acc);
                }
                return Some((code, pos));
            }
            if eof {
                self.report(ErrorKind::ExpectedToken, k, "Expected `}`");
                proof {
                    lemma_extends_trans(d0, d1, self.diagnostics_view());
                }
                return None;
            }
            let parsed = self.parse_expr_at(0);
            proof {
                lemma_extends_trans(d0, d1, self.diagnostics_view());
            }
            let e = match parsed {
                Some((e, _)) => e,
                None => {
                    return None;
                },
            };
            let ghost em = expr_model(&e);
            let ghost d2 = self.diagnostics_view();
            let ghost a2 = self.at();
            proof {
                lemma_adds_errors_trans(toks, d0, d1, d2, start, here, a2);
            }
            let m = self.looked_at_index();
            let (semicolon, closing, at_end) = {
                let t = self.token(m);
                (
                    match t.kind {
                        TokenKind::Semicolon => true,
                        _ => false,
                    },
                    match t.kind {
                        TokenKind::CloseBrace => true,
                        _ => false,
                    },
                    t.kind.is_eof(),
                )
            };
            let block_like = match e {
                Expr::If { .. } | Expr::While { .. } | Expr::For { .. } | Expr::Block { .. }
                | Expr::Match { .. } => true,
                _ => false,
            };
            code.push(Stmt::ExpressionStmt(e));
            proof {
                assert(code@.map_values(|s: Stmt| stmt_model(&s)) =~= acc.push(StmtModel::ExpressionStmt(em)));
            }
            if semicolon {
                self.take();
                proof {
                    lemma_adds_errors_trans(toks, d0, d2, self.diagnostics_view(), start, a2, self.at());
                    lemma_extends_trans(d0, d2, self.diagnostics_view());
                }
            } else if !(block_like || closing) {
                if at_end {
                    self.report(ErrorKind::ExpectedToken, m, "Expected `}`");
                } else {
                    self.report(ErrorKind::ExpectedToken, m, "Expected `;`");
                }
                proof {
                    lemma_extends_trans(d0, d2, self.diagnostics_view());
                }
                return None;
            }
        }
    }

    /// An `if`, at its keyword.
    fn parse_if(&mut self) -> (r: Option<(Expr, Position)>)
        requires
            old(self).wf(),
            old(self).poised(),
            old(self).toks()[old(self).at()].kind@ is If,
        ensures
            final(self).wf(),
            final(self).toks() == old(self).toks(),
            final(self).source() == old(self).source(),
            final(self).file() == old(self).file(),
            final(self).ast_view() == old(self).ast_view(),
            extends(old(self).diagnostics_view(), final(self).diagnostics_view()),
            final(self).poised(),
            old(self).at() <= final(self).at(),
            yields(final(self), if_expr(old(self).toks(), old(self).at()), r),
            r is Some ==> old(self).at() < final(self).at(),
            r is None ==> old(self).diagnostics_view().len() < final(self).diagnostics_view().len(),
            r is Some ==> adds_errors(
                old(self).diagnostics_view(),
                final(self).diagnostics_view(),
                old(self).toks(),
                old(self).at(),
                final(self).at(),
            ),
        decreases old(self).toks().len() - old(self).at(), 0int,
    {
        let ghost toks = self.toks();
        let ghost d0 = self.diagnostics_view();
        let i = self.looked_at_index();
        let position = position_of_token(self.token(i));
        self.take();
        let ghost d1 = self.diagnostics_view();
        let ghost a1 = self.at();
        let condition = self.parse_expr_at(0);
        proof {
            lemma_extends_trans(d0, d1, self.diagnostics_view());
        }
        let ghost j = self.at();
        let (c, cpos) = match condition {
            Some(found) => found,
            None => {
                return None;
            },
        };
        let ghost cm = expr_model(&c);
        let m = self.looked_at_index();
        assert(parse_expr(toks, adv(toks, i as int), 0) == Some((cm, cpos, m as int)));
        let open = position_of_token(self.token(m));
        let ghost d2 = self.diagnostics_view();
        let ghost a2 = self.at();
        proof {
            lemma_adds_errors_trans(toks, d0, d1, d2, i as int, a1, a2);
        }
        let (code, close) = match self.parse_block() {
            Some(b) => b,
            None => {
                proof {
                    lemma_extends_trans(d0, d2, self.diagnostics_view());
                }
                return None;
            },
        };
        proof {
            lemma_extends_trans(d0, d2, self.diagnostics_view());
        }
        let ghost d5 = self.diagnostics_view();
        let ghost a5 = self.at();
        proof {
            lemma_adds_errors_trans(toks, d0, d2, d5, i as int, a2, a5);
        }
        let ghost code_model = stmts_model(&code);
        let body = Stmt::ExpressionStmt(Expr::Block { code, position: join_positions(open, close) });
        let ghost body_model = stmt_model(&body);
        assert(body_model == StmtModel::ExpressionStmt(
            ExprModel::Block { code: code_model, position: join(position_of(toks[m as int]), close) },
        ));
        let n = self.looked_at_index();
        assert(block_at(toks, m as int) == Some((code_model, close, n as int)));
        let has_else = match self.token(n).kind {
            TokenKind::Else => true,
            _ => false,
        };
        if !has_else {
            let p = join_positions(position, close);
            let e = Expr::If { condition: Box::new(c), code: Box::new(body), else_code: None, position: p };
            assert(expr_model(&e) == ExprModel::If {
                condition: Box::new(cm),
                code: Box::new(body_model),
                else_code: None,
                position: p,
            });
            assert(if_expr(toks, i as int) == Some((expr_model(&e), p, n as int)));
            return Some((e, p));
        }
        let ghost d3 = self.diagnostics_view();
        self.take();
        proof {
            lemma_extends_trans(d0, d3, self.diagnostics_view());
        }
        let ghost d4 = self.diagnostics_view();
        let ghost a4 = self.at();
        proof {
            lemma_adds_errors_trans(toks, d0, d5, d4, i as int, a5, a4);
        }
        let e = self.looked_at_index();
        let (chained, other_open) = {
            let t = self.token(e);
            (
                match t.kind {
                    TokenKind::If => true,
                    _ => false,
                },
                position_of_token(t),
            )
        };
        if chained {
            let rest = self.parse_if();
            proof {
                lemma_extends_trans(d0, d4, self.diagnostics_view());
            }
            match rest {
                Some((x, q)) => {
                    let p = join_positions(position, q);
                    let ghost xm = expr_model(&x);
                    let alternative = Stmt::ExpressionStmt(x);
                    assert(stmt_model(&alternative) == StmtModel::ExpressionStmt(xm));
                    let r = Expr::If {
                        condition: Box::new(c),
                        code: Box::new(body),
                        else_code: Some(Box::new(alternative)),
                        position: p,
                    };
                    assert(expr_model(&r) == ExprModel::If {
                        condition: Box::new(cm),
                        code: Box::new(body_model),
                        else_code: Some(Box::new(StmtModel::ExpressionStmt(xm))),
                        position: p,
                    });
                    assert(if_expr(toks, i as int) == Some((expr_model(&r), p, self.at())));
                    proof {
                        lemma_adds_errors_trans(toks, d0, d4, self.diagnostics_view(), i as int, a4, self.at());
                    }
                    Some((r, p))
                },
                None => None,
            }
        } else {
            let other = self.parse_block();
            proof {
                lemma_extends_trans(d0, d4, self.diagnostics_view());
            }
            match other {
                Some((other, eclose)) => {
                    let p = join_positions(position, eclose);
                    let ghost other_model = stmts_model(&other);
                    let alternative = Stmt::ExpressionStmt(
                        Expr::Block { code: other, position: join_positions(other_open, eclose) },
                    );
                    let ghost alt_model = stmt_model(&alternative);
                    let r = Expr::If {
                        condition: Box::new(c),
                        code: Box::new(body),
                        else_code: Some(Box::new(alternative)),
                        position: p,
                    };
                    assert(expr_model(&r) == ExprModel::If {
                        condition: Box::new(cm),
                        code: Box::new(body_model),
                        else_code: Some(Box::new(alt_model)),
                        position: p,
                    });
                    assert(if_expr(toks, i as int) == Some((expr_model(&r), p, self.at())));
                    proof {
                        lemma_adds_errors_trans(toks, d0, d4, self.diagnostics_view(), i as int, a4, self.at());
                    }
                    Some((r, p))
                },
                None => None,
            }
        }
    }

    /// A `while` or a `for`, at its keyword.
    fn parse_loop(&mut self) -> (r: Option<(Expr, Position)>)
        requires
            old(self).wf(),
            old(self).poised(),
            old(self).toks()[old(self).at()].kind@ is While || old(self).toks()[old(
                self,
            ).at()].kind@ is For,
        ensures
            final(self).wf(),
            final(self).toks() == old(self).toks(),
            final(self).source() == old(self).source(),
            final(self).file() == old(self).file(),
            final(self).ast_view() == old(self).ast_view(),
            extends(old(self).diagnostics_view(), final(self).diagnostics_view()),
            final(self).poised(),
            old(self).at() <= final(self).at(),
            yields(final(self), loop_expr(old(self).toks(), old(self).at()), r),
            r is Some ==> old(self).at() < final(self).at(),
            r is None ==> old(self).diagnostics_view().len() < final(self).diagnostics_view().len(),
            r is Some ==> adds_errors(
                old(self).diagnostics_view(),
                final(self).diagnostics_view(),
                old(self).toks(),
                old(self).at(),
                final(self).at(),
            ),
        decreases old(self).toks().len() - old(self).at(), 0int,
    {
        let ghost d0 = self.diagnostics_view();
        let i = self.looked_at_index();
        let (position, is_while) = {
            let t = self.token(i);
            (
                position_of_token(t),
                match t.kind {
                    TokenKind::While => true,
                    _ => false,
                },
            )
        };
        self.take();
        let ghost d1 = self.diagnostics_view();
        let ghost a1 = self.at();
        let governing = self.parse_expr_at(0);
        proof {
            lemma_extends_trans(d0, d1, self.diagnostics_view());
        }
        let c = match governing {
            Some((c, _)) => c,
            None => {
                return None;
            },
        };
        let ghost d2 = self.diagnostics_view();
        let ghost a2 = self.at();
        proof {
            lemma_adds_errors_trans(self.toks(), d0, d1, d2, i as int, a1, a2);
        }
        let block = self.parse_block();
        proof {
            lemma_extends_trans(d0, d2, self.diagnostics_view());
            if block is Some {
                lemma_adds_errors_trans(self.toks(), d0, d2, self.diagnostics_view(), i as int, a2, self.at());
            }
        }
        match block {
            Some((code, close)) => {
                let p = join_positions(position, close);
                if is_while {
                    Some((Expr::While { expr: Box::new(c), code, position: p }, p))
                } else {
                    Some((Expr::For { expr: Box::new(c), code, position: p }, p))
                }
            },
            None => None,
        }
    }

    /// A `match`, at its keyword.
    fn parse_match(&mut self) -> (r: Option<(Expr, Position)>)
        requires
            old(self).wf(),
            old(self).poised(),
            old(self).toks()[old(self).at()].kind@ is Match,
        ensures
            final(self).wf(),
            final(self).toks() == old(self).toks(),
            final(self).source() == old(self).source(),
            final(self).file() == old(self).file(),
            final(self).ast_view() == old(self).ast_view(),
            extends(old(self).diagnostics_view(), final(self).diagnostics_view()),
            final(self).poised(),
            old(self).at() <= final(self).at(),
            yields(final(self), match_expr(old(self).toks(), old(self).at()), r),
            r is Some ==> old(self).at() < final(self).at(),
            r is None ==> old(self).diagnostics_view().len() < final(self).diagnostics_view().len(),
            r is Some ==> adds_errors(
                old(self).diagnostics_view(),
                final(self).diagnostics_view(),
                old(self).toks(),
                old(self).at(),
                final(self).at(),
            ),
        decreases old(self).toks().len() - old(self).at(), 0int,
    {
        let ghost toks = self.toks();
        let ghost d0 = self.diagnostics_view();
        let ghost start = self.at();
        let i = self.looked_at_index();
        let position = position_of_token(self.token(i));
        self.take();
        let ghost d1 = self.diagnostics_view();
        let ghost a1 = self.at();
        let scrutinee = self.parse_expr_at(0);
        proof {
            lemma_extends_trans(d0, d1, self.diagnostics_view());
        }
        let x = match scrutinee {
            Some((x, _)) => x,
            None => {
                return None;
            },
        };
        let ghost d2 = self.diagnostics_view();
        let ghost a2 = self.at();
        proof {
            lemma_adds_errors_trans(toks, d0, d1, d2, start, a1, a2);
        }
        let m = self.looked_at_index();
        let last = self.tokens.len() - 1;
        let open = match self.token(m).kind {
            TokenKind::OpenBrace => true,
            _ => false,
        };
        if m >= last || !open {
            self.report(ErrorKind::ExpectedToken, m, "Expected `{`");
            proof {
                lemma_extends_trans(d0, d2, self.diagnostics_view());
            }
            return None;
        }
        self.take();
        proof {
            lemma_extends_trans(d0, d2, self.diagnostics_view());
            lemma_adds_errors_trans(toks, d0, d2, self.diagnostics_view(), start, a2, self.at());
        }
        let ghost k = self.at();
        let mut patterns: Vec<Case> = Vec::new();
        proof {
            assert(patterns@.map_values(|c: Case| case_model(&c)) =~= seq![]);
        }
        loop
            invariant
                self.wf(),
                self.poised(),
                self.toks() == toks,
                toks == old(self).toks(),
                self.source() == old(self).source(),
                self.file() == old(self).file(),
                self.ast_view() == old(self).ast_view(),
                d0 == old(self).diagnostics_view(),
                start == old(self).at(),
                start < k <= self.at(),
                extends(d0, self.diagnostics_view()),
                adds_errors(d0, self.diagnostics_view(), toks, start, self.at()),
                match_expr(toks, start) == match match_cases(toks, self.at(), patterns@.map_values(|c: Case| case_model(&c))) {
                    Some((cases, close)) => if k <= close < toks.len() - 1 {
                        Some((
                            ExprModel::Match { expr: Box::new(expr_model(&x)), patterns: cases },
                            join(position, position_of(toks[close])),
                            adv(toks, close),
                        ))
                    } else {
                        None
                    },
                    None => None,
                },
            decreases toks.len() - self.at(),
        {
            let ghost acc = patterns@.map_values(|c: Case| case_model(&c));
            let ghost d3 = self.diagnostics_view();
            let ghost here = self.at();
            let j = self.looked_at_index();
            let (close, eof, pos) = {
                let t = self.token(j);
                (
                    match t.kind {
                        TokenKind::CloseBrace => true,
                        _ => false,
                    },
                    t.kind.is_eof(),
                    position_of_token(t),
                )
            };
            if close {
                self.take();
                proof {
                    lemma_adds_errors_trans(toks, d0, d3, self.diagnostics_view(), start, here, self.at());
                    lemma_extends_trans(d0, d3, self.diagnostics_view());
                }
                let p = join_positions(position, pos);
                let e = Expr::Match { expr: Box::new(x), patterns };
                proof {
                    assert(expr_model(&e)->Match_patterns =~= acc);
                }
                return Some((e, p));
            }
            if eof {
                self.report(ErrorKind::ExpectedToken, j, "Expected `}`");
                proof {
                    lemma_extends_trans(d0, d3, self.diagnostics_view());
                }
                return None;
            }
            let pattern = self.parse_expr_at(0);
            proof {
                lemma_extends_trans(d0, d3, self.diagnostics_view());
            }
            let pattern = match pattern {
                Some((p, _)) => p,
                None => {
                    return None;
                },
            };
            let ghost d4 = self.diagnostics_view();
            let ghost a4 = self.at();
            proof {
                lemma_adds_errors_trans(toks, d0, d3, d4, start, here, a4);
            }
            let block = self.parse_block();
            proof {
                lemma_extends_trans(d0, d4, self.diagnostics_view());
                if block is Some {
                    lemma_adds_errors_trans(toks, d0, d4, self.diagnostics_view(), start, a4, self.at());
                }
            }
            match block {
                Some((code, _)) => {
                    let case = Case { pattern: Box::new(pattern), code };
                    let ghost cm = case_model(&case);
                    patterns.push(case);
                    proof {
                        assert(patterns@.map_values(|c: Case| case_model(&c)) =~= acc.push(cm));
                    }
                },
                None => {
                    return None;
                },
            }
        }
    }
}

} // verus!
