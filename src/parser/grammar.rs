//! The grammar of Meow as a mathematical model: what each parsing function
//! yields on a sequence of tokens. The parser is proved to follow it.

use vstd::prelude::*;
use crate::lexer::model::is_digit;
use crate::lexer::token::{KindModel, Token};
use crate::parser::ast::{BinOp, CaseModel, ExprModel, LitModel, Position, Span, StmtModel, UnaryOp};
use crate::parser::precedence::precedence_of;
use crate::parser::{after, next_good};

verus! {

/// The index of the token looked at after the one at `i` is taken.
pub open spec fn adv(toks: Seq<Token>, i: int) -> int {
    next_good(toks, after(toks, i))
}

/// The position of the token `t`.
pub open spec fn position_of(t: Token) -> Position {
    Position { span: Span { start: t.start, end: t.end }, line: t.line, column: t.column }
}

/// The position from the start of `p` to the end of `q`.
pub open spec fn join(p: Position, q: Position) -> Position {
    Position { span: Span { start: p.span.start, end: q.span.end }, line: p.line, column: p.column }
}

/// The value of a string of decimal digits.
pub open spec fn decimal_value(d: Seq<char>) -> int
    decreases d.len(),
{
    if d.len() == 0 {
        0
    } else {
        decimal_value(d.drop_last()) * 10 + (d.last() as int - '0' as int)
    }
}

/// The value of an integer literal, where it is made of digits and fits in
/// an `isize`.
pub open spec fn int_value(d: Seq<char>) -> Option<int> {
    if (forall|k: int| 0 <= k < d.len() ==> is_digit(#[trigger] d[k])) && decimal_value(d)
        <= isize::MAX {
        Some(decimal_value(d))
    } else {
        None
    }
}

/// The binary operator that a token stands for.
pub open spec fn binary_op(k: KindModel) -> Option<BinOp> {
    match k {
        KindModel::Plus => Some(BinOp::Plus),
        KindModel::Minus => Some(BinOp::Minus),
        KindModel::Star => Some(BinOp::Star),
        KindModel::Slash => Some(BinOp::Slash),
        KindModel::EqualEqual => Some(BinOp::EqualEqual),
        KindModel::BangEqual => Some(BinOp::BangEqual),
        KindModel::Greater => Some(BinOp::Greater),
        KindModel::GreaterEqual => Some(BinOp::GreaterEqual),
        KindModel::Less => Some(BinOp::Less),
        KindModel::LessEqual => Some(BinOp::LessEqual),
        KindModel::And => Some(BinOp::And),
        KindModel::Or => Some(BinOp::Or),
        _ => None,
    }
}

/// The operator that a compound assignment applies (`+=` applies `+`).
pub open spec fn compound_op(k: KindModel) -> Option<BinOp> {
    match k {
        KindModel::PlusEqual => Some(BinOp::Plus),
        KindModel::MinusEqual => Some(BinOp::Minus),
        KindModel::StarEqual => Some(BinOp::Star),
        KindModel::SlashEqual => Some(BinOp::Slash),
        _ => None,
    }
}

pub open spec fn is_assignment(k: KindModel) -> bool {
    k is Equal || compound_op(k) is Some
}

/// The unary operator that a token stands for in prefix position.
pub open spec fn unary_op(k: KindModel) -> Option<UnaryOp> {
    match k {
        KindModel::Minus => Some(UnaryOp::Minus),
        KindModel::Bang => Some(UnaryOp::Bang),
        _ => None,
    }
}

/// The level at which a token continues an expression, where it does:
/// binary operators, assignments and calls. Member access (`.`) has a level
/// in the table but is not parsed.
pub open spec fn infix_level(k: KindModel) -> Option<int> {
    match precedence_of(k).infix {
        Some(q) => if k is Dot {
            None
        } else {
            Some(q as int)
        },
        None => None,
    }
}

/// A literal token as a literal value.
pub open spec fn literal_of(k: KindModel) -> Option<LitModel> {
    match k {
        KindModel::Int(d) => match int_value(d) {
            Some(v) => Some(LitModel::Integer(v)),
            None => None,
        },
        KindModel::Float(d) => Some(LitModel::Float(d)),
        KindModel::Char(c) => Some(LitModel::Char(c)),
        KindModel::Str(s) => Some(LitModel::String(s)),
        KindModel::True => Some(LitModel::True),
        KindModel::False => Some(LitModel::False),
        _ => None,
    }
}

/// An expression that starts at token `i`, parsed at level `min`: its tree,
/// its position and the index of the token after it; `None` where the
/// tokens do not form one.
pub open spec fn parse_expr(toks: Seq<Token>, i: int, min: int) -> Option<(ExprModel, Position, int)>
    decreases toks.len() - i, 2int,
{
    match prefix_expr(toks, i) {
        Some((lhs, p, j)) => if i < j <= toks.len() {
            climb(toks, lhs, p, j, min)
        } else {
            None
        },
        None => None,
    }
}

/// The operand that starts at token `i`: a literal, a name, a group in
/// parentheses or a prefix operator applied to an operand.
pub open spec fn prefix_expr(toks: Seq<Token>, i: int) -> Option<(ExprModel, Position, int)>
    decreases toks.len() - i, 1int,
{
    if !(0 <= i < toks.len() - 1) {
        None
    } else {
        let t = toks[i];
        let k = t.kind@;
        let j = adv(toks, i);
        if !(i < j <= toks.len()) {
            None
        } else if literal_of(k) is Some {
            Some((
                ExprModel::Literal { value: literal_of(k).unwrap(), position: position_of(t) },
                position_of(t),
                j,
            ))
        } else if k is Ident {
            Some((ExprModel::Ident(k->Ident_0), position_of(t), j))
        } else if k is OpenParen {
            match parse_expr(toks, j, 0) {
                Some((e, _, m)) => if 0 <= m < toks.len() && toks[m].kind@ is CloseParen {
                    Some((
                        ExprModel::Grouping(Box::new(e)),
                        join(position_of(t), position_of(toks[m])),
                        adv(toks, m),
                    ))
                } else {
                    None
                },
                None => None,
            }
        } else if k is OpenBrace {
            match block_at(toks, i) {
                Some((code, close, n)) => Some((
                    ExprModel::Block { code, position: join(position_of(t), close) },
                    join(position_of(t), close),
                    n,
                )),
                None => None,
            }
        } else if k is If {
            if_expr(toks, i)
        } else if k is While || k is For {
            loop_expr(toks, i)
        } else if k is Match {
            match_expr(toks, i)
        } else if unary_op(k) is Some {
            match parse_expr(toks, j, precedence_of(k).prefix.unwrap() as int) {
                Some((e, q, m)) => Some((
                    ExprModel::Unary { op: unary_op(k).unwrap(), rhs: Box::new(e), position: join(position_of(t), q) },
                    join(position_of(t), q),
                    m,
                )),
                None => None,
            }
        } else {
            None
        }
    }
}

/// Continue the expression `lhs`, at position `p`, with the operators from
/// token `i` on that bind at level `min` or tighter.
pub open spec fn climb(toks: Seq<Token>, lhs: ExprModel, p: Position, i: int, min: int) -> Option<
    (ExprModel, Position, int),
>
    decreases toks.len() - i, 0int,
{
    if !(0 <= i < toks.len()) {
        None
    } else {
        let k = toks[i].kind@;
        let j = adv(toks, i);
        match infix_level(k) {
            Some(q) => if q < min {
                Some((lhs, p, i))
            } else if !(i < j <= toks.len()) {
                None
            } else if binary_op(k) is Some {
                match parse_expr(toks, j, q + 1) {
                    Some((rhs, r, m)) => if i < m <= toks.len() {
                        climb(
                            toks,
                            ExprModel::Binary {
                                op: binary_op(k).unwrap(),
                                lhs: Box::new(lhs),
                                rhs: Box::new(rhs),
                                position: join(p, r),
                            },
                            join(p, r),
                            m,
                            min,
                        )
                    } else {
                        None
                    },
                    None => None,
                }
            } else if is_assignment(k) {
                match lhs {
                    ExprModel::Ident(name) => match parse_expr(toks, j, q) {
                        Some((rhs, r, m)) => if i < m <= toks.len() {
                            let value = match compound_op(k) {
                                Some(op) => ExprModel::Binary {
                                    op,
                                    lhs: Box::new(ExprModel::Ident(name)),
                                    rhs: Box::new(rhs),
                                    position: join(p, r),
                                },
                                None => rhs,
                            };
                            climb(
                                toks,
                                ExprModel::Assignment { name, value: Box::new(value) },
                                join(p, r),
                                m,
                                min,
                            )
                        } else {
                            None
                        },
                        None => None,
                    },
                    _ => None,
                }
            } else {
                match lhs {
                    ExprModel::Ident(name) => match call_args(toks, j, seq![]) {
                        Some((args, close)) => if i < close < toks.len() && i < adv(toks, close) <= toks.len() {
                            climb(
                                toks,
                                ExprModel::Call {
                                    name,
                                    arguments: args,
                                    position: join(p, position_of(toks[close])),
                                },
                                join(p, position_of(toks[close])),
                                adv(toks, close),
                                min,
                            )
                        } else {
                            None
                        },
                        None => None,
                    },
                    _ => None,
                }
            },
            None => Some((lhs, p, i)),
        }
    }
}

/// The arguments of a call from token `i` on, after those in `acc`, up to
/// and including the closing parenthesis: the arguments and the index of
/// that parenthesis.
pub open spec fn call_args(toks: Seq<Token>, i: int, acc: Seq<ExprModel>) -> Option<(Seq<ExprModel>, int)>
    decreases toks.len() - i, 3int,
{
    if !(0 <= i < toks.len()) {
        None
    } else if acc.len() == 0 && toks[i].kind@ is CloseParen {
        Some((acc, i))
    } else {
        match parse_expr(toks, i, 0) {
            Some((e, _, m)) => if !(i < m < toks.len()) {
                None
            } else if toks[m].kind@ is CloseParen {
                Some((acc.push(e), m))
            } else if toks[m].kind@ is Comma && m < adv(toks, m) <= toks.len() {
                call_args(toks, adv(toks, m), acc.push(e))
            } else {
                None
            },
            None => None,
        }
    }
}

/// Expressions that end with a block need no `;` after them.
pub open spec fn ends_with_block(e: ExprModel) -> bool {
    e is If || e is While || e is For || e is Block || e is Match
}

/// A block at token `i`: the statements between the braces, the position
/// of the closing brace, and the index of the token after it.
pub open spec fn block_at(toks: Seq<Token>, i: int) -> Option<(Seq<StmtModel>, Position, int)>
    decreases toks.len() - i, 0int,
{
    if !(0 <= i < toks.len() - 1) || !(toks[i].kind@ is OpenBrace) {
        None
    } else {
        let j = adv(toks, i);
        if !(i < j <= toks.len()) {
            None
        } else {
            match block_stmts(toks, j, seq![]) {
                Some((code, close)) => if j <= close < toks.len() - 1 {
                    Some((code, position_of(toks[close]), adv(toks, close)))
                } else {
                    None
                },
                None => None,
            }
        }
    }
}

/// The statements of a block from token `i` on, after those in `acc`, up
/// to the closing brace: the statements and the index of that brace. Each
/// statement is an expression ended by `;`, which may be left out after a
/// block and before the closing brace.
pub open spec fn block_stmts(toks: Seq<Token>, i: int, acc: Seq<StmtModel>) -> Option<(Seq<StmtModel>, int)>
    decreases toks.len() - i, 3int,
{
    if !(0 <= i < toks.len()) {
        None
    } else if toks[i].kind@ is CloseBrace {
        Some((acc, i))
    } else if toks[i].kind@ is Eof {
        None
    } else {
        match parse_expr(toks, i, 0) {
            Some((e, _, m)) => if !(i < m < toks.len()) {
                None
            } else if toks[m].kind@ is Semicolon {
                if m < adv(toks, m) <= toks.len() {
                    block_stmts(toks, adv(toks, m), acc.push(StmtModel::ExpressionStmt(e)))
                } else {
                    None
                }
            } else if ends_with_block(e) || toks[m].kind@ is CloseBrace {
                block_stmts(toks, m, acc.push(StmtModel::ExpressionStmt(e)))
            } else {
                None
            },
            None => None,
        }
    }
}

/// An `if` at token `i`: a condition, a block, and perhaps `else` with a
/// block or another `if`.
pub open spec fn if_expr(toks: Seq<Token>, i: int) -> Option<(ExprModel, Position, int)>
    decreases toks.len() - i, 0int,
{
    if !(0 <= i < toks.len() - 1) {
        None
    } else {
        let t = toks[i];
        let j = adv(toks, i);
        if !(i < j <= toks.len()) {
            None
        } else {
            match parse_expr(toks, j, 0) {
                Some((c, _, m)) => if !(i < m < toks.len()) {
                    None
                } else {
                    match block_at(toks, m) {
                        Some((code, close, n)) => {
                            let body = StmtModel::ExpressionStmt(
                                ExprModel::Block { code, position: join(position_of(toks[m]), close) },
                            );
                            if 0 <= n < toks.len() && toks[n].kind@ is Else {
                                let e = adv(toks, n);
                                if !(i < e < toks.len()) {
                                    None
                                } else if toks[e].kind@ is If {
                                    match if_expr(toks, e) {
                                        Some((x, p, end)) => Some((
                                            ExprModel::If {
                                                condition: Box::new(c),
                                                code: Box::new(body),
                                                else_code: Some(Box::new(StmtModel::ExpressionStmt(x))),
                                                position: join(position_of(t), p),
                                            },
                                            join(position_of(t), p),
                                            end,
                                        )),
                                        None => None,
                                    }
                                } else {
                                    match block_at(toks, e) {
                                        Some((other, eclose, end)) => Some((
                                            ExprModel::If {
                                                condition: Box::new(c),
                                                code: Box::new(body),
                                                else_code: Some(
                                                    Box::new(
                                                        StmtModel::ExpressionStmt(
                                                            ExprModel::Block {
                                                                code: other,
                                                                position: join(position_of(toks[e]), eclose),
                                                            },
                                                        ),
                                                    ),
                                                ),
                                                position: join(position_of(t), eclose),
                                            },
                                            join(position_of(t), eclose),
                                            end,
                                        )),
                                        None => None,
                                    }
                                }
                            } else {
                                Some((
                                    ExprModel::If {
                                        condition: Box::new(c),
                                        code: Box::new(body),
                                        else_code: None,
                                        position: join(position_of(t), close),
                                    },
                                    join(position_of(t), close),
                                    n,
                                ))
                            }
                        },
                        None => None,
                    }
                },
                None => None,
            }
        }
    }
}

/// A `while` or `for` at token `i`: its governing expression and a block.
pub open spec fn loop_expr(toks: Seq<Token>, i: int) -> Option<(ExprModel, Position, int)>
    decreases toks.len() - i, 0int,
{
    if !(0 <= i < toks.len() - 1) {
        None
    } else {
        let t = toks[i];
        let j = adv(toks, i);
        if !(i < j <= toks.len()) {
            None
        } else {
            match parse_expr(toks, j, 0) {
                Some((c, _, m)) => if !(i < m < toks.len()) {
                    None
                } else {
                    match block_at(toks, m) {
                        Some((code, close, n)) => {
                            let position = join(position_of(t), close);
                            if t.kind@ is While {
                                Some((ExprModel::While { expr: Box::new(c), code, position }, position, n))
                            } else {
                                Some((ExprModel::For { expr: Box::new(c), code, position }, position, n))
                            }
                        },
                        None => None,
                    }
                },
                None => None,
            }
        }
    }
}

/// A `match` at token `i`: the expression matched, then in braces the
/// cases, each a pattern and a block.
pub open spec fn match_expr(toks: Seq<Token>, i: int) -> Option<(ExprModel, Position, int)>
    decreases toks.len() - i, 0int,
{
    if !(0 <= i < toks.len() - 1) {
        None
    } else {
        let t = toks[i];
        let j = adv(toks, i);
        if !(i < j <= toks.len()) {
            None
        } else {
            match parse_expr(toks, j, 0) {
                Some((x, _, m)) => if !(i < m < toks.len() - 1) || !(toks[m].kind@ is OpenBrace) {
                    None
                } else {
                    let k = adv(toks, m);
                    if !(m < k <= toks.len()) {
                        None
                    } else {
                        match match_cases(toks, k, seq![]) {
                            Some((patterns, close)) => if k <= close < toks.len() - 1 {
                                let position = join(position_of(t), position_of(toks[close]));
                                Some((
                                    ExprModel::Match { expr: Box::new(x), patterns },
                                    position,
                                    adv(toks, close),
                                ))
                            } else {
                                None
                            },
                            None => None,
                        }
                    }
                },
                None => None,
            }
        }
    }
}

/// The cases of a `match` from token `i` on, after those in `acc`, up to
/// the closing brace: the cases and the index of that brace.
pub open spec fn match_cases(toks: Seq<Token>, i: int, acc: Seq<CaseModel>) -> Option<(Seq<CaseModel>, int)>
    decreases toks.len() - i, 3int,
{
    if !(0 <= i < toks.len()) {
        None
    } else if toks[i].kind@ is CloseBrace {
        Some((acc, i))
    } else if toks[i].kind@ is Eof {
        None
    } else {
        match parse_expr(toks, i, 0) {
            Some((pattern, _, m)) => if !(i < m < toks.len()) {
                None
            } else {
                match block_at(toks, m) {
                    Some((code, _, n)) => if m < n <= toks.len() {
                        match_cases(toks, n, acc.push(CaseModel { pattern, code }))
                    } else {
                        None
                    },
                    None => None,
                }
            },
            None => None,
        }
    }
}

/// The token at `i` is taken as is: nothing is skipped after it.
pub open spec fn plain_at(toks: Seq<Token>, i: int) -> bool {
    &&& 0 <= i < toks.len() - 1
    &&& !(toks[i + 1].kind@ is Error)
}

proof fn lemma_adv_plain(toks: Seq<Token>, i: int)
    requires
        plain_at(toks, i),
    ensures
        adv(toks, i) == i + 1,
{
}

/// An operand that is a single name, followed by a token that ends the
/// expression at level `min`.
proof fn lemma_name_alone(toks: Seq<Token>, i: int, min: int)
    requires
        plain_at(toks, i),
        toks[i].kind@ is Ident,
        infix_level(toks[i + 1].kind@) is None || infix_level(toks[i + 1].kind@).unwrap() < min,
    ensures
        parse_expr(toks, i, min) == Some(
            (ExprModel::Ident(toks[i].kind@->Ident_0), position_of(toks[i]), i + 1),
        ),
{
    lemma_adv_plain(toks, i);
    assert(prefix_expr(toks, i) == Some(
        (ExprModel::Ident(toks[i].kind@->Ident_0), position_of(toks[i]), i + 1),
    ));
}

/// Binary operators group to the left when the first binds at least as
/// tightly as the second: `x A y B z` is `(x A y) B z` where the level of
/// `A` is greater than or equal to that of `B`.
pub proof fn lemma_binary_groups_left(toks: Seq<Token>, i: int)
    requires
        0 <= i,
        i + 5 < toks.len(),
        forall|k: int| i < k <= i + 5 ==> !(#[trigger] toks[k].kind@ is Error),
        toks[i].kind@ is Ident,
        toks[i + 2].kind@ is Ident,
        toks[i + 4].kind@ is Ident,
        binary_op(toks[i + 1].kind@) is Some,
        binary_op(toks[i + 3].kind@) is Some,
        precedence_of(toks[i + 1].kind@).infix.unwrap() >= precedence_of(
            toks[i + 3].kind@,
        ).infix.unwrap(),
        infix_level(toks[i + 5].kind@) is None,
    ensures
        ({
            let x = ExprModel::Ident(toks[i].kind@->Ident_0);
            let y = ExprModel::Ident(toks[i + 2].kind@->Ident_0);
            let z = ExprModel::Ident(toks[i + 4].kind@->Ident_0);
            let first = join(position_of(toks[i]), position_of(toks[i + 2]));
            let whole = join(position_of(toks[i]), position_of(toks[i + 4]));
            parse_expr(toks, i, 0) == Some(
                (
                    ExprModel::Binary {
                        op: binary_op(toks[i + 3].kind@).unwrap(),
                        lhs: Box::new(
                            ExprModel::Binary {
                                op: binary_op(toks[i + 1].kind@).unwrap(),
                                lhs: Box::new(x),
                                rhs: Box::new(y),
                                position: first,
                            },
                        ),
                        rhs: Box::new(z),
                        position: whole,
                    },
                    whole,
                    i + 5,
                ),
            )
        }),
{
    let a = toks[i + 1].kind@;
    let b = toks[i + 3].kind@;
    let qa = infix_level(a).unwrap();
    let qb = infix_level(b).unwrap();
    let x = ExprModel::Ident(toks[i].kind@->Ident_0);
    let y = ExprModel::Ident(toks[i + 2].kind@->Ident_0);
    let z = ExprModel::Ident(toks[i + 4].kind@->Ident_0);
    let px = position_of(toks[i]);
    let first = join(px, position_of(toks[i + 2]));
    let whole = join(px, position_of(toks[i + 4]));
    let inner = ExprModel::Binary { op: binary_op(a).unwrap(), lhs: Box::new(x), rhs: Box::new(y), position: first };
    let outer = ExprModel::Binary { op: binary_op(b).unwrap(), lhs: Box::new(inner), rhs: Box::new(z), position: whole };
    assert(toks[i + 1].kind@ == a);
    assert(!(toks[i + 1].kind@ is Error));
    assert(!(toks[i + 2].kind@ is Error));
    assert(!(toks[i + 3].kind@ is Error));
    assert(!(toks[i + 4].kind@ is Error));
    assert(!(toks[i + 5].kind@ is Error));
    lemma_adv_plain(toks, i);
    lemma_adv_plain(toks, i + 1);
    lemma_adv_plain(toks, i + 2);
    lemma_adv_plain(toks, i + 3);
    lemma_adv_plain(toks, i + 4);
    lemma_name_alone(toks, i + 4, qb + 1);
    assert(climb(toks, outer, whole, i + 5, 0) == Some((outer, whole, i + 5)));
    assert(climb(toks, inner, first, i + 3, 0) == Some((outer, whole, i + 5)));
    lemma_name_alone(toks, i + 2, qa + 1);
    assert(climb(toks, x, px, i + 1, 0) == Some((outer, whole, i + 5)));
    assert(prefix_expr(toks, i) == Some((x, px, i + 1)));
}

/// The statements from token `i` to the end of input, where all of them
/// parse: each an expression ended by `;`, which may be left out after a
/// block and at the end of input. `None` where one does not parse.
pub open spec fn program(toks: Seq<Token>, i: int) -> Option<Seq<StmtModel>>
    decreases toks.len() - i,
{
    if !(0 <= i < toks.len()) {
        None
    } else if i == toks.len() - 1 {
        Some(seq![])
    } else {
        match parse_expr(toks, i, 0) {
            Some((e, _, m)) => if !(i < m < toks.len()) {
                None
            } else if toks[m].kind@ is Semicolon {
                if m < adv(toks, m) <= toks.len() {
                    match program(toks, adv(toks, m)) {
                        Some(rest) => Some(seq![StmtModel::ExpressionStmt(e)] + rest),
                        None => None,
                    }
                } else {
                    None
                }
            } else if m == toks.len() - 1 {
                Some(seq![StmtModel::ExpressionStmt(e)])
            } else if ends_with_block(e) {
                match program(toks, m) {
                    Some(rest) => Some(seq![StmtModel::ExpressionStmt(e)] + rest),
                    None => None,
                }
            } else {
                None
            },
            None => None,
        }
    }
}

} // verus!
