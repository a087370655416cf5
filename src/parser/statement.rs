//! Statements: expressions, each ended by `;`.

use vstd::prelude::*;
use crate::errors::ErrorKind;
use crate::lexer::token::TokenKind;
use crate::parser::ast::{expr_model, Expr, Stmt, StmtModel};
use crate::parser::expression::{extends, lemma_extends_refl, lemma_extends_trans};
use crate::parser::grammar::program;
use crate::parser::precedence::Precedence;
use crate::parser::{
    adds_errors, lemma_adds_errors_trans, lemma_adds_nothing, lemma_lexical_is_errors, lemma_next_good,
    next_good, Parser,
};

verus! {

impl Parser {
    /// Take tokens up to and including the next `;`, or up to the end of
    /// input, so that parsing can resume after an error.
    fn skip_statement(&mut self)
        requires
            old(self).wf(),
            old(self).poised(),
        ensures
            final(self).wf(),
            final(self).poised(),
            final(self).toks() == old(self).toks(),
            final(self).source() == old(self).source(),
            final(self).file() == old(self).file(),
            final(self).ast_view() == old(self).ast_view(),
            extends(old(self).diagnostics_view(), final(self).diagnostics_view()),
            old(self).at() <= final(self).at(),
            old(self).at() < old(self).toks().len() - 1 ==> old(self).at() < final(self).at(),
    {
        let ghost toks = self.toks();
        let ghost d0 = self.diagnostics_view();
        let ghost start = self.at();
        proof {
            lemma_extends_refl(d0);
        }
        loop
            invariant
                self.wf(),
                self.poised(),
                self.toks() == toks,
                toks == old(self).toks(),
                self.source() == old(self).source(),
                self.file() == old(self).file(),
                self.ast_view() == old(self).ast_view(),
                d0 == old(self).diagnostics_view(),
                start == old(self).at(),
                start <= self.at(),
                start < toks.len() - 1 && self.at() == start ==> !(toks[start].kind@ is Eof),
                extends(d0, self.diagnostics_view()),
            ensures
                start <= self.at(),
                start < toks.len() - 1 ==> start < self.at(),
                extends(d0, self.diagnostics_view()),
            decreases toks.len() - self.at(),
        {
            let i = self.looked_at_index();
            let (eof, semicolon) = {
                let t = self.token(i);
                (
                    t.kind.is_eof(),
                    match t.kind {
                        TokenKind::Semicolon => true,
                        _ => false,
                    },
                )
            };
            if eof {
                break;
            }
            let ghost d1 = self.diagnostics_view();
            self.take();
            proof {
                lemma_extends_trans(d0, d1, self.diagnostics_view());
            }
            if semicolon {
                break;
            }
        }
    }

    /// Parse the rest of the source as statements, each an expression ended
    /// by `;` (left out after a block and at the end of input), adding them
    /// to `ast`. After an error, parsing resumes after the next `;`. Where
    /// every statement parses, the statements added are those of
    /// [`program`]; where one does not, at least one diagnostic is added.
    pub fn parse_program(&mut self)
        requires
            old(self).wf(),
        ensures
            final(self).wf(),
            final(self).poised(),
            final(self).toks() == old(self).toks(),
            final(self).source() == old(self).source(),
            final(self).file() == old(self).file(),
            extends(old(self).diagnostics_view(), final(self).diagnostics_view()),
            final(self).toks()[final(self).at()].kind@ is Eof,
            ({
                let start = if old(self).poised() {
                    old(self).at()
                } else {
                    crate::parser::next_good(old(self).toks(), old(self).cursor())
                };
                let from = if old(self).poised() {
                    old(self).at()
                } else {
                    old(self).cursor()
                };
                match program(old(self).toks(), start) {
                    Some(stmts) => final(self).ast_view() == old(self).ast_view() + stmts
                        && adds_errors(
                        old(self).diagnostics_view(),
                        final(self).diagnostics_view(),
                        old(self).toks(),
                        from,
                        final(self).at(),
                    ),
                    None => old(self).diagnostics_view().len() < final(self).diagnostics_view().len(),
                }
            }),
    {
        let ghost toks = self.toks();
        let ghost d0 = self.diagnostics_view();
        let ghost a0 = self.ast_view();
        proof {
            lemma_extends_refl(d0);
        }
        let ghost from = if self.poised() {
            self.at()
        } else {
            self.cursor()
        };
        proof {
            lemma_adds_nothing(toks, d0, from);
        }
        if self.next.is_none() {
            let ghost d1 = self.diagnostics_view();
            proof {
                self.lemma_cursor_bound();
                lemma_next_good(toks, self.cursor());
                lemma_lexical_is_errors(toks, self.cursor(), next_good(toks, self.cursor()));
            }
            self.advance();
            proof {
                assert(self.diagnostics_view().subrange(0, d1.len() as int) =~= d1);
                crate::parser::lemma_lexical_unlabelled(toks, old(self).cursor(), self.at());
            }
        }
        let ghost start = self.at();
        let ghost mut done: Seq<StmtModel> = seq![];
        let ghost mut ok = true;
        proof {
            assert(a0 + done =~= a0);
        }
        loop
            invariant
                self.wf(),
                self.poised(),
                self.toks() == toks,
                toks == old(self).toks(),
                self.source() == old(self).source(),
                self.file() == old(self).file(),
                d0 == old(self).diagnostics_view(),
                a0 == old(self).ast_view(),
                start == (if old(self).poised() {
                    old(self).at()
                } else {
                    crate::parser::next_good(old(self).toks(), old(self).cursor())
                }),
                extends(d0, self.diagnostics_view()),
                self.ast_view() == a0 + done,
                ok ==> program(toks, start) == match program(toks, self.at()) {
                    Some(rest) => Some(done + rest),
                    None => None,
                },
                !ok ==> d0.len() < self.diagnostics_view().len(),
                !ok ==> program(toks, start) is None,
                ok ==> adds_errors(d0, self.diagnostics_view(), toks, from, self.at()),
                from <= self.at(),
                from == (if old(self).poised() {
                    old(self).at()
                } else {
                    old(self).cursor()
                }),
            ensures
                toks[self.at()].kind@ is Eof,
                self.ast_view() == a0 + done,
                ok ==> program(toks, start) == Some(done),
                !ok ==> d0.len() < self.diagnostics_view().len(),
                !ok ==> program(toks, start) is None,
                ok ==> adds_errors(d0, self.diagnostics_view(), toks, from, self.at()),
            decreases toks.len() - self.at(),
        {
            let i = self.looked_at_index();
            if self.token(i).kind.is_eof() {
                proof {
                    assert(done + seq![] =~= done);
                }
                break;
            }
            let ghost d1 = self.diagnostics_view();
            let ghost a1 = self.at();
            let parsed = self.parse_expression(Precedence::new(None, None));
            proof {
                lemma_extends_trans(d0, d1, self.diagnostics_view());
                if ok && parsed is Some {
                    lemma_adds_errors_trans(toks, d0, d1, self.diagnostics_view(), from, a1, self.at());
                }
            }
            let ghost d2 = self.diagnostics_view();
            let ghost a2 = self.at();
            match parsed {
                Some(e) => {
                    let ghost em = expr_model(&e);
                    let block_like = match e {
                        Expr::If { .. } | Expr::While { .. } | Expr::For { .. } | Expr::Block {
                            ..
                        } | Expr::Match { .. } => true,
                        _ => false,
                    };
                    let stmt = Stmt::ExpressionStmt(e);
                    assert(crate::parser::ast::stmt_model(&stmt) == StmtModel::ExpressionStmt(em));
                    self.push_statement(stmt);
                    proof {
                        assert(a0 + done.push(StmtModel::ExpressionStmt(em)) =~= (a0 + done).push(
                            StmtModel::ExpressionStmt(em),
                        ));
                        assert forall|rest: Seq<StmtModel>|
                            #![auto]
                            done + (seq![StmtModel::ExpressionStmt(em)] + rest) =~= done.push(
                                StmtModel::ExpressionStmt(em),
                            ) + rest by {}
                        assert(done + seq![StmtModel::ExpressionStmt(em)] =~= done.push(
                            StmtModel::ExpressionStmt(em),
                        ));
                        done = done.push(StmtModel::ExpressionStmt(em));
                    }
                    let m = self.looked_at_index();
                    let (eof, semicolon) = {
                        let t = self.token(m);
                        (
                            t.kind.is_eof(),
                            match t.kind {
                                TokenKind::Semicolon => true,
                                _ => false,
                            },
                        )
                    };
                    if semicolon {
                        self.take();
                        proof {
                            lemma_extends_trans(d0, d2, self.diagnostics_view());
                            if ok {
                                lemma_adds_errors_trans(toks, d0, d2, self.diagnostics_view(), from, a2, self.at());
                            }
                        }
                    } else if !eof && !block_like {
                        self.report(ErrorKind::ExpectedToken, m, "Expected `;`");
                        let ghost d3 = self.diagnostics_view();
                        self.skip_statement();
                        proof {
                            lemma_extends_trans(d0, d2, d3);
                            lemma_extends_trans(d0, d3, self.diagnostics_view());
                            ok = false;
                        }
                    }
                },
                None => {
                    proof {
                        ok = false;
                    }
                    let m = self.looked_at_index();
                    if !self.token(m).kind.is_eof() {
                        self.skip_statement();
                        proof {
                            lemma_extends_trans(d0, d2, self.diagnostics_view());
                        }
                    }
                },
            }
        }
    }
}

} // verus!
