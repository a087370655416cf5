//! The parser pulls tokens one at a time and builds a syntax tree. It never
//! stops at an error: each one becomes a diagnostic, and parsing goes on.

pub mod ast;
pub mod expression;
pub mod grammar;
pub mod precedence;
pub mod statement;

use vstd::prelude::*;
use crate::errors::{renders, report_of, texts, Diagnostic, DiagnosticModel, ErrorKind, Label, LabelModel, Responder};
use crate::lexer::model::{describes, fits, lexes, token_starts};
use crate::lexer::token::{KindModel, Token, TokenKind};
use crate::lexer::Lexer;
use crate::text::string_from;
use ast::{stmt_model, stmts_view, Stmt, StmtModel};

verus! {

/// The first token at or after `i` that is not an error. The last token is
/// `Eof`, so there always is one.
pub open spec fn next_good(toks: Seq<Token>, i: int) -> int
    decreases toks.len() - i,
{
    if 0 <= i < toks.len() - 1 && toks[i].kind@ is Error {
        next_good(toks, i + 1)
    } else {
        i
    }
}

pub proof fn lemma_next_good(toks: Seq<Token>, i: int)
    requires
        0 <= i < toks.len(),
        toks.last().kind@ is Eof,
    ensures
        i <= next_good(toks, i) < toks.len(),
        !(toks[next_good(toks, i)].kind@ is Error),
        forall|k: int| i <= k < next_good(toks, i) ==> (#[trigger] toks[k].kind@ is Error),
    decreases toks.len() - i,
{
    if i < toks.len() - 1 && toks[i].kind@ is Error {
        lemma_next_good(toks, i + 1);
    }
}

/// Where the search for a token starts after taking the token at `g`: the
/// one after it, except at the final `Eof`, which is handed out again.
pub open spec fn after(toks: Seq<Token>, g: int) -> int {
    if g < toks.len() - 1 {
        g + 1
    } else {
        g
    }
}

/// The message that an error token carries.
pub open spec fn error_message(k: KindModel) -> Seq<char> {
    match k {
        KindModel::Error(m) => m,
        _ => seq![],
    }
}

/// The diagnostic that reports the error token `t`.
pub open spec fn lexical_diagnostic(t: Token) -> DiagnosticModel {
    DiagnosticModel {
        kind: ErrorKind::InvalidSyntax,
        line: t.line as int,
        column: t.column as int,
        labels: seq![],
        message: error_message(t.kind@),
    }
}

/// The diagnostics for the error tokens at `i..g`, in order.
pub open spec fn lexical_diagnostics(toks: Seq<Token>, i: int, g: int) -> Seq<DiagnosticModel>
    decreases g - i,
{
    if i < g {
        lexical_diagnostics(toks, i, g - 1).push(lexical_diagnostic(toks[g - 1]))
    } else {
        seq![]
    }
}

/// The diagnostics for the error tokens among those at `i..g`, in order.
pub open spec fn errors_in(toks: Seq<Token>, i: int, g: int) -> Seq<DiagnosticModel>
    decreases g - i,
{
    if i < g {
        if toks[g - 1].kind@ is Error {
            errors_in(toks, i, g - 1).push(lexical_diagnostic(toks[g - 1]))
        } else {
            errors_in(toks, i, g - 1)
        }
    } else {
        seq![]
    }
}

/// The diagnostics `b` are those of `a`, then those of the error tokens at
/// `i..j`.
pub open spec fn adds_errors(
    a: Seq<DiagnosticModel>,
    b: Seq<DiagnosticModel>,
    toks: Seq<Token>,
    i: int,
    j: int,
) -> bool {
    b == a + errors_in(toks, i, j)
}

pub proof fn lemma_errors_join(toks: Seq<Token>, i: int, j: int, k: int)
    requires
        i <= j <= k,
    ensures
        errors_in(toks, i, j) + errors_in(toks, j, k) == errors_in(toks, i, k),
    decreases k - j,
{
    if j < k {
        lemma_errors_join(toks, i, j, k - 1);
    } else {
        assert(errors_in(toks, i, j) + errors_in(toks, j, k) =~= errors_in(toks, i, j));
    }
}

pub proof fn lemma_adds_errors_trans(
    toks: Seq<Token>,
    a: Seq<DiagnosticModel>,
    b: Seq<DiagnosticModel>,
    c: Seq<DiagnosticModel>,
    i: int,
    j: int,
    k: int,
)
    requires
        i <= j <= k,
        adds_errors(a, b, toks, i, j),
        adds_errors(b, c, toks, j, k),
    ensures
        adds_errors(a, c, toks, i, k),
{
    lemma_errors_join(toks, i, j, k);
    assert(c =~= a + errors_in(toks, i, k));
}

pub proof fn lemma_adds_nothing(toks: Seq<Token>, a: Seq<DiagnosticModel>, i: int)
    ensures
        adds_errors(a, a, toks, i, i),
{
    assert(a + errors_in(toks, i, i) =~= a);
}

/// Where every token at `i..g` is an error, their lexical diagnostics are
/// all the error diagnostics there.
pub proof fn lemma_lexical_is_errors(toks: Seq<Token>, i: int, g: int)
    requires
        forall|k: int| i <= k < g ==> (#[trigger] toks[k].kind@ is Error),
    ensures
        lexical_diagnostics(toks, i, g) == errors_in(toks, i, g),
    decreases g - i,
{
    if i < g {
        lemma_lexical_is_errors(toks, i, g - 1);
    }
}

/// The diagnostics for error tokens carry no labels.
pub proof fn lemma_lexical_unlabelled(toks: Seq<Token>, i: int, g: int)
    ensures
        forall|k: int|
            0 <= k < lexical_diagnostics(toks, i, g).len() ==> (#[trigger] lexical_diagnostics(
                toks,
                i,
                g,
            )[k]).labels.len() == 0,
    decreases g - i,
{
    if i < g {
        lemma_lexical_unlabelled(toks, i, g - 1);
    }
}

/// The diagnostic that `consume` reports when `t` is not the token it expects.
pub open spec fn syntax_diagnostic(t: Token, labels: Seq<LabelModel>, message: Seq<char>) -> DiagnosticModel {
    DiagnosticModel {
        kind: ErrorKind::InvalidSyntax,
        line: t.line as int,
        column: t.column as int,
        labels,
        message,
    }
}

/// Builds a syntax tree from the tokens of one source text.
pub struct Parser {
    ast: Vec<Stmt>,
    tokens: Vec<Token>,
    cursor: usize,
    current: Option<usize>,
    next: Option<usize>,
    responder: Responder,
    filename: String,
    diagnostics: Vec<Diagnostic>,
}

impl Parser {
    /// Every token of the source, ending with `Eof`.
    pub closed spec fn toks(&self) -> Seq<Token> {
        self.tokens@
    }

    /// Where the search for the next token starts.
    pub closed spec fn cursor(&self) -> int {
        self.cursor as int
    }

    /// The index of the token taken last.
    pub closed spec fn current_index(&self) -> Option<usize> {
        self.current
    }

    /// The index of the token looked at next.
    pub closed spec fn next_index(&self) -> Option<usize> {
        self.next
    }

    /// The diagnostics reported so far, in order.
    pub closed spec fn diagnostics_view(&self) -> Seq<DiagnosticModel> {
        self.diagnostics@.map_values(|d: Diagnostic| d@)
    }

    /// The statements parsed so far.
    pub closed spec fn ast_view(&self) -> Seq<StmtModel> {
        stmts_view(self.ast@)
    }

    /// The source text.
    pub closed spec fn source(&self) -> Seq<char> {
        self.responder.source()
    }

    /// The name of the file that the source came from.
    pub closed spec fn file(&self) -> Seq<char> {
        self.filename@
    }

    pub closed spec fn wf(&self) -> bool {
        &&& self.responder.wf()
        &&& self.tokens@.len() >= 1
        &&& self.tokens@.last().kind@ is Eof
        &&& forall|k: int| 0 <= k < self.tokens@.len() - 1 ==> !(#[trigger] self.tokens@[k].kind@ is Eof)
        &&& self.cursor < self.tokens@.len()
        &&& (self.next matches Some(n) ==> n < self.tokens@.len() && !(self.tokens@[n as int].kind@ is Error) && self.cursor == after(self.tokens@, n as int))
        &&& (self.current matches Some(n) ==> n < self.tokens@.len() && !(self.tokens@[n as int].kind@ is Error))
    }

    pub proof fn lemma_cursor_bound(&self)
        requires
            self.wf(),
        ensures
            0 <= self.cursor() < self.toks().len(),
            self.toks().last().kind@ is Eof,
    {
    }

    /// The parser looks at a token.
    pub open spec fn poised(&self) -> bool {
        self.next_index() is Some
    }

    /// The index of the token looked at.
    pub open spec fn at(&self) -> int {
        self.next_index().unwrap() as int
    }

    /// The index of the token looked at.
    fn looked_at_index(&self) -> (n: usize)
        requires
            self.wf(),
            self.poised(),
        ensures
            n == self.at(),
            n < self.toks().len(),
            self.cursor() == after(self.toks(), n as int),
            !(self.toks()[n as int].kind@ is Error),
    {
        self.next.unwrap()
    }

    /// The token at index `n`.
    fn token(&self, n: usize) -> (t: &Token)
        requires
            self.wf(),
            n < self.toks().len(),
        ensures
            *t == self.toks()[n as int],
            n == self.toks().len() - 1 <==> t.kind@ is Eof,
    {
        &self.tokens[n]
    }

    /// Create a parser over `source`, read from the file `filename`.
    pub fn new(source: &str, filename: &str) -> (r: Parser)
        requires
            fits(source@),
        ensures
            r.wf(),
            r.toks().len() == token_starts(source@, 0).len() + 1,
            forall|k: int|
                0 <= k < r.toks().len() - 1 ==> describes(
                    source@,
                    #[trigger] token_starts(source@, 0)[k],
                    r.toks()[k],
                ),
            lexes(source@, r.toks()),
            r.source() == source@,
            r.file() == filename@,
            r.cursor() == 0,
            r.current_index() is None,
            r.next_index() is None,
            r.diagnostics_view() == Seq::<DiagnosticModel>::empty(),
            r.ast_view() == Seq::<StmtModel>::empty(),
    {
        let mut lexer = Lexer::new(source);
        let tokens = lexer.tokens();
        proof {
            assert forall|k: int| 0 <= k < tokens@.len() - 1 implies !(#[trigger] tokens@[k].kind@ is Eof) by {
                crate::lexer::model::lemma_token_starts_not_eof(source@, 0, k);
            }
        }
        let r = Parser {
            ast: Vec::new(),
            tokens,
            cursor: 0,
            current: None,
            next: None,
            responder: Responder::new(string_from(source)),
            filename: string_from(filename),
            diagnostics: Vec::new(),
        };
        assert(r.diagnostics_view() =~= Seq::<DiagnosticModel>::empty());
        assert(r.ast_view() =~= Seq::<StmtModel>::empty());
        r
    }

    /// The token taken last, if any.
    pub fn current_token(&self) -> (r: Option<&Token>)
        requires
            self.wf(),
        ensures
            r matches Some(t) ==> self.current_index() matches Some(n) && *t == self.toks()[n as int],
            r is None <==> self.current_index() is None,
    {
        match self.current {
            Some(n) => Some(&self.tokens[n]),
            None => None,
        }
    }

    /// The token to be looked at next, if any.
    pub fn next_token(&self) -> (r: Option<&Token>)
        requires
            self.wf(),
        ensures
            r matches Some(t) ==> self.next_index() matches Some(n) && *t == self.toks()[n as int],
            r is None <==> self.next_index() is None,
    {
        match self.next {
            Some(n) => Some(&self.tokens[n]),
            None => None,
        }
    }

    /// The diagnostics reported so far, in order.
    pub fn diagnostics(&self) -> (r: &Vec<Diagnostic>)
        ensures
            r@.map_values(|d: Diagnostic| d@) == self.diagnostics_view(),
    {
        &self.diagnostics
    }

    /// The statements parsed so far.
    pub fn ast(&self) -> (r: &Vec<Stmt>)
        ensures
            stmts_view(r@) == self.ast_view(),
    {
        &self.ast
    }

    /// Add a parsed statement.
    fn push_statement(&mut self, s: Stmt)
        ensures
            final(self).ast_view() == old(self).ast_view().push(stmt_model(&s)),
            final(self).toks() == old(self).toks(),
            final(self).source() == old(self).source(),
            final(self).file() == old(self).file(),
            final(self).cursor() == old(self).cursor(),
            final(self).next_index() == old(self).next_index(),
            final(self).current_index() == old(self).current_index(),
            final(self).diagnostics_view() == old(self).diagnostics_view(),
            old(self).wf() ==> final(self).wf(),
    {
        let ghost m = stmt_model(&s);
        self.ast.push(s);
        assert(self.ast_view() =~= old(self).ast_view().push(m));
    }

    /// The statements parsed, taking the parser apart.
    pub fn into_ast(self) -> (r: Vec<Stmt>)
        ensures
            stmts_view(r@) == self.ast_view(),
    {
        self.ast
    }

    /// The name of the file that the source came from.
    pub fn filename(&self) -> (r: &String)
        ensures
            r@ == self.file(),
    {
        &self.filename
    }

    /// The report of each diagnostic, in order, rendered against the source.
    pub fn reports(&self) -> (r: Vec<String>)
        requires
            self.wf(),
            forall|k: int|
                0 <= k < self.diagnostics_view().len() ==> report_of(
                    self.source(),
                    self.file(),
                    #[trigger] self.diagnostics_view()[k],
                ) is Some,
        ensures
            renders(self.source(), self.file(), self.diagnostics_view(), texts(r@)),
    {
        let mut r: Vec<String> = Vec::new();
        let mut i: usize = 0;
        while i < self.diagnostics.len()
            invariant
                self.wf(),
                i <= self.diagnostics@.len(),
                r@.len() == i,
                forall|k: int|
                    0 <= k < self.diagnostics_view().len() ==> report_of(
                        self.source(),
                        self.file(),
                        #[trigger] self.diagnostics_view()[k],
                    ) is Some,
                forall|k: int|
                    0 <= k < i ==> Some(#[trigger] r@[k]@) == report_of(
                        self.source(),
                        self.file(),
                        self.diagnostics_view()[k],
                    ),
            decreases self.diagnostics@.len() - i,
        {
            let d = &self.diagnostics[i];
            assert(self.diagnostics_view()[i as int] == d@);
            match self.responder.render(d, self.filename.as_str()) {
                Some(text) => {
                    r.push(text);
                },
                None => {
                    assert(report_of(self.source(), self.file(), self.diagnostics_view()[i as int]) is Some);
                    assert(false);
                },
            }
            i = i + 1;
        }
        assert(texts(r@).len() == r@.len());
        r
    }

    pub proof fn lemma_at_bound(&self)
        requires
            self.wf(),
            self.poised(),
        ensures
            0 <= self.at() < self.toks().len(),
    {
    }

    /// Only the last token is `Eof`.
    pub proof fn lemma_eof_last(&self, k: int)
        requires
            self.wf(),
            0 <= k < self.toks().len(),
            self.toks()[k].kind@ is Eof,
        ensures
            k == self.toks().len() - 1,
    {
    }

    /// Move on by one token: the looked-at token becomes the current one, and
    /// the next token that is not an error becomes the looked-at one. Each
    /// error token skipped is reported, in order.
    pub fn advance(&mut self)
        requires
            old(self).wf(),
        ensures
            final(self).wf(),
            final(self).toks() == old(self).toks(),
            final(self).source() == old(self).source(),
            final(self).file() == old(self).file(),
            final(self).ast_view() == old(self).ast_view(),
            final(self).current_index() == old(self).next_index(),
            final(self).next_index() == Some(next_good(old(self).toks(), old(self).cursor()) as usize),
            final(self).cursor() == after(old(self).toks(), next_good(old(self).toks(), old(self).cursor())),
            final(self).diagnostics_view() == old(self).diagnostics_view() + lexical_diagnostics(
                old(self).toks(),
                old(self).cursor(),
                next_good(old(self).toks(), old(self).cursor()),
            ),
    {
        let ghost toks = self.tokens@;
        let ghost c0 = self.cursor as int;
        let ghost d0 = self.diagnostics_view();
        self.current = self.next;
        self.next = None;
        loop
            invariant
                self.wf(),
                self.tokens@ == toks,
                self.source() == old(self).source(),
                self.file() == old(self).file(),
                self.ast_view() == old(self).ast_view(),
                self.current == old(self).next,
                self.next is None,
                c0 <= self.cursor,
                next_good(toks, self.cursor as int) == next_good(toks, c0),
                self.diagnostics_view() == d0 + lexical_diagnostics(toks, c0, self.cursor as int),
            ensures
                next_good(toks, self.cursor as int) == self.cursor as int,
            decreases toks.len() - self.cursor,
        {
            let last = self.tokens.len() - 1;
            if self.cursor >= last {
                break;
            }
            let t = &self.tokens[self.cursor];
            match &t.kind {
                TokenKind::Error(message) => {
                    let d = Diagnostic {
                        kind: ErrorKind::InvalidSyntax,
                        line: t.line,
                        column: t.column,
                        labels: Vec::new(),
                        message: message.clone(),
                    };
                    let ghost before = self.diagnostics@;
                    proof {
                        assert(d@.labels =~= seq![]);
                        assert(d@ == lexical_diagnostic(toks[self.cursor as int]));
                    }
                    self.diagnostics.push(d);
                    proof {
                        assert(self.diagnostics@.map_values(|d: Diagnostic| d@) =~= before.map_values(
                            |d: Diagnostic| d@,
                        ).push(d@));
                        assert(self.diagnostics_view() =~= d0 + lexical_diagnostics(
                            toks,
                            c0,
                            self.cursor + 1,
                        ));
                    }
                    self.cursor = self.cursor + 1;
                },
                _ => break,
            }
        }
        proof {
            lemma_next_good(self.tokens@, self.cursor as int);
        }
        self.next = Some(self.cursor);
        if self.cursor < self.tokens.len() - 1 {
            self.cursor = self.cursor + 1;
        }
    }

    /// Check that the looked-at token is `expected`, reporting `message`
    /// and `labels` as invalid syntax where it is not, then move on by one
    /// token either way.
    pub fn consume(&mut self, expected: TokenKind, message: &str, labels: Vec<Label>)
        requires
            old(self).wf(),
            old(self).next_index() is Some,
        ensures
            final(self).wf(),
            final(self).toks() == old(self).toks(),
            final(self).source() == old(self).source(),
            final(self).file() == old(self).file(),
            final(self).ast_view() == old(self).ast_view(),
            final(self).current_index() == old(self).next_index(),
            final(self).next_index() == Some(next_good(old(self).toks(), old(self).cursor()) as usize),
            final(self).cursor() == after(old(self).toks(), next_good(old(self).toks(), old(self).cursor())),
            ({
                let found = old(self).toks()[old(self).next_index().unwrap() as int];
                let reported = if found.kind@ == expected@ {
                    seq![]
                } else {
                    seq![syntax_diagnostic(found, labels@.map_values(|l: Label| l@), message@)]
                };
                final(self).diagnostics_view() == old(self).diagnostics_view() + reported
                    + lexical_diagnostics(
                    old(self).toks(),
                    old(self).cursor(),
                    next_good(old(self).toks(), old(self).cursor()),
                )
            }),
    {
        let n = self.next.unwrap();
        let ghost d0 = self.diagnostics_view();
        if self.tokens[n].kind != expected {
            self.parser_error(ErrorKind::InvalidSyntax, n, labels, message);
        } else {
            assert(d0 + seq![] =~= d0);
        }
        self.advance();
        proof {
            let found = old(self).toks()[old(self).next_index().unwrap() as int];
            if found.kind@ != expected@ {
                assert(d0 + seq![syntax_diagnostic(found, labels@.map_values(|l: Label| l@), message@)]
                    == d0.push(syntax_diagnostic(found, labels@.map_values(|l: Label| l@), message@)));
            }
        }
    }

    /// Report an error of `kind` at the token with index `at`.
    fn parser_error(&mut self, kind: ErrorKind, at: usize, labels: Vec<Label>, message: &str)
        requires
            old(self).wf(),
            at < old(self).toks().len(),
        ensures
            final(self).wf(),
            final(self).toks() == old(self).toks(),
            final(self).source() == old(self).source(),
            final(self).file() == old(self).file(),
            final(self).ast_view() == old(self).ast_view(),
            final(self).cursor() == old(self).cursor(),
            final(self).current_index() == old(self).current_index(),
            final(self).next_index() == old(self).next_index(),
            final(self).diagnostics_view() == old(self).diagnostics_view().push(
                DiagnosticModel {
                    kind,
                    line: old(self).toks()[at as int].line as int,
                    column: old(self).toks()[at as int].column as int,
                    labels: labels@.map_values(|l: Label| l@),
                    message: message@,
                },
            ),
    {
        let t = &self.tokens[at];
        let d = Diagnostic {
            kind,
            line: t.line,
            column: t.column,
            labels,
            message: string_from(message),
        };
        self.diagnostics.push(d);
        assert(self.diagnostics_view() =~= old(self).diagnostics_view().push(d@));
    }
}

} // verus!
