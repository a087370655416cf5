//! The abstract syntax tree of Meow, and its mathematical view.

use vstd::prelude::*;

verus! {

/// A half-open range of byte offsets into the source.
#[derive(Debug, Clone, Copy, PartialEq, Eq, Structural)]
pub struct Span {
    pub start: usize,
    pub end: usize,
}

/// Where a node of the tree comes from: its byte span, and the line and
/// column of its first character.
#[derive(Debug, Clone, Copy, PartialEq, Eq, Structural)]
pub struct Position {
    pub span: Span,
    pub line: u32,
    pub column: u32,
}

impl Position {
    /// Create a position from a span and the line and column of its start.
    pub fn new(span: Span, line: u32, column: u32) -> (r: Position)
        ensures
            r == (Position { span, line, column }),
    {
        Position { span, line, column }
    }

    /// The first byte of the span.
    pub fn start(&self) -> (r: usize)
        ensures
            r == self.span.start,
    {
        self.span.start
    }

    /// The byte just after the span.
    pub fn end(&self) -> (r: usize)
        ensures
            r == self.span.end,
    {
        self.span.end
    }
}

/// A statement.
#[derive(Debug, PartialEq, Eq)]
pub enum Stmt {
    ExpressionStmt(Expr),
}

/// An expression.
#[derive(Debug, PartialEq, Eq)]
pub enum Expr {
    Literal { value: Lit, position: Position },
    Binary { op: BinOp, lhs: Box<Expr>, rhs: Box<Expr>, position: Position },
    Unary { op: UnaryOp, rhs: Box<Expr>, position: Position },
    Ident(String),
    Grouping(Box<Expr>),
    Call { name: String, arguments: Vec<Expr>, position: Position },
    Assignment { name: String, value: Box<Expr> },
    If { condition: Box<Expr>, code: Box<Stmt>, else_code: Option<Box<Stmt>>, position: Position },
    Block { code: Vec<Stmt>, position: Position },
    For { expr: Box<Expr>, code: Vec<Stmt>, position: Position },
    While { expr: Box<Expr>, code: Vec<Stmt>, position: Position },
    Match { expr: Box<Expr>, patterns: Vec<Case> },
}

/// A literal value. Integers are held as numbers; floats keep the digits
/// they were written with.
#[derive(Debug, PartialEq, Eq)]
pub enum Lit {
    Integer(isize),
    Float(String),
    Char(char),
    String(String),
    True,
    False,
}

/// The binary operators.
#[derive(Debug, Clone, Copy, PartialEq, Eq, Structural)]
pub enum BinOp {
    Plus,
    Minus,
    Star,
    Slash,
    EqualEqual,
    BangEqual,
    Greater,
    GreaterEqual,
    Less,
    LessEqual,
    And,
    Or,
}

/// The unary operators.
#[derive(Debug, Clone, Copy, PartialEq, Eq, Structural)]
pub enum UnaryOp {
    Minus,
    Bang,
}

/// One arm of a `match`: a pattern and the statements it runs.
#[derive(Debug, PartialEq, Eq)]
pub struct Case {
    pub pattern: Box<Expr>,
    pub code: Vec<Stmt>,
}

/// The view of a [`Lit`].
pub enum LitModel {
    Integer(int),
    Float(Seq<char>),
    Char(char),
    String(Seq<char>),
    True,
    False,
}

/// The view of a [`Stmt`].
pub enum StmtModel {
    ExpressionStmt(ExprModel),
}

/// The view of a [`Case`].
pub struct CaseModel {
    pub pattern: ExprModel,
    pub code: Seq<StmtModel>,
}

/// The view of an [`Expr`]: texts become character sequences and lists
/// become sequences.
pub enum ExprModel {
    Literal { value: LitModel, position: Position },
    Binary { op: BinOp, lhs: Box<ExprModel>, rhs: Box<ExprModel>, position: Position },
    Unary { op: UnaryOp, rhs: Box<ExprModel>, position: Position },
    Ident(Seq<char>),
    Grouping(Box<ExprModel>),
    Call { name: Seq<char>, arguments: Seq<ExprModel>, position: Position },
    Assignment { name: Seq<char>, value: Box<ExprModel> },
    If {
        condition: Box<ExprModel>,
        code: Box<StmtModel>,
        else_code: Option<Box<StmtModel>>,
        position: Position,
    },
    Block { code: Seq<StmtModel>, position: Position },
    For { expr: Box<ExprModel>, code: Seq<StmtModel>, position: Position },
    While { expr: Box<ExprModel>, code: Seq<StmtModel>, position: Position },
    Match { expr: Box<ExprModel>, patterns: Seq<CaseModel> },
}

pub open spec fn lit_model(l: &Lit) -> LitModel {
    match l {
        Lit::Integer(n) => LitModel::Integer(*n as int),
        Lit::Float(s) => LitModel::Float(s@),
        Lit::Char(c) => LitModel::Char(*c),
        Lit::String(s) => LitModel::String(s@),
        Lit::True => LitModel::True,
        Lit::False => LitModel::False,
    }
}

pub open spec fn stmt_model(s: &Stmt) -> StmtModel
    decreases s,
{
    match s {
        Stmt::ExpressionStmt(e) => StmtModel::ExpressionStmt(expr_model(e)),
    }
}

/// The view of a sequence of statements.
pub open spec fn stmts_view(v: Seq<Stmt>) -> Seq<StmtModel> {
    v.map_values(|s: Stmt| stmt_model(&s))
}

pub open spec fn stmts_model(v: &Vec<Stmt>) -> Seq<StmtModel>
    decreases v,
{
    Seq::new(
        v@.len(),
        |i: int|
            if 0 <= i < v@.len() {
                stmt_model(&v@[i])
            } else {
                StmtModel::ExpressionStmt(ExprModel::Ident(seq![]))
            },
    )
}

pub open spec fn expr_model(e: &Expr) -> ExprModel
    decreases e,
{
    match e {
        Expr::Literal { value, position } => ExprModel::Literal {
            value: lit_model(value),
            position: *position,
        },
        Expr::Binary { op, lhs, rhs, position } => ExprModel::Binary {
            op: *op,
            lhs: Box::new(expr_model(lhs)),
            rhs: Box::new(expr_model(rhs)),
            position: *position,
        },
        Expr::Unary { op, rhs, position } => ExprModel::Unary {
            op: *op,
            rhs: Box::new(expr_model(rhs)),
            position: *position,
        },
        Expr::Ident(name) => ExprModel::Ident(name@),
        Expr::Grouping(inner) => ExprModel::Grouping(Box::new(expr_model(inner))),
        Expr::Call { name, arguments, position } => ExprModel::Call {
            name: name@,
            arguments: Seq::new(
                arguments@.len(),
                |i: int|
                    if 0 <= i < arguments@.len() {
                        expr_model(&arguments@[i])
                    } else {
                        ExprModel::Ident(seq![])
                    },
            ),
            position: *position,
        },
        Expr::Assignment { name, value } => ExprModel::Assignment {
            name: name@,
            value: Box::new(expr_model(value)),
        },
        Expr::If { condition, code, else_code, position } => ExprModel::If {
            condition: Box::new(expr_model(condition)),
            code: Box::new(stmt_model(code)),
            else_code: match else_code {
                Some(s) => Some(Box::new(stmt_model(s))),
                None => None,
            },
            position: *position,
        },
        Expr::Block { code, position } => ExprModel::Block {
            code: stmts_model(code),
            position: *position,
        },
        Expr::For { expr, code, position } => ExprModel::For {
            expr: Box::new(expr_model(expr)),
            code: stmts_model(code),
            position: *position,
        },
        Expr::While { expr, code, position } => ExprModel::While {
            expr: Box::new(expr_model(expr)),
            code: stmts_model(code),
            position: *position,
        },
        Expr::Match { expr, patterns } => ExprModel::Match {
            expr: Box::new(expr_model(expr)),
            patterns: Seq::new(
                patterns@.len(),
                |i: int|
                    if 0 <= i < patterns@.len() {
                        CaseModel {
                            pattern: expr_model(&patterns@[i].pattern),
                            code: stmts_model(&patterns@[i].code),
                        }
                    } else {
                        CaseModel { pattern: ExprModel::Ident(seq![]), code: seq![] }
                    },
            ),
        },
    }
}

} // verus!
