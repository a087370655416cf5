//! A front end for the Meow language: a lexer, a precedence-climbing parser
//! and a diagnostics renderer.

pub mod errors;
pub mod lexer;
pub mod parser;
pub mod text;

use vstd::prelude::*;
use lexer::model::{describes, fits, lexes, token_starts};
use lexer::token::{KindModel, Token};
use lexer::Lexer;
use errors::{renders, report_of, texts};
use parser::ast::{stmts_view, Stmt};
use parser::grammar::program;
use parser::{errors_in, next_good, Parser};

verus! {

/// Create a [`Lexer`] over `source`.
pub fn lex(source: &str) -> (r: Lexer)
    requires
        fits(source@),
    ensures
        r.wf(),
        r.source() == source@,
        r.position() == 0,
{
    Lexer::new(source)
}

/// Every token of `source`, in order, ending with `Eof`.
pub fn run(source: &str) -> (r: Vec<Token>)
    requires
        fits(source@),
    ensures
        r@.len() == token_starts(source@, 0).len() + 1,
        forall|k: int|
            0 <= k < r@.len() - 1 ==> describes(source@, #[trigger] token_starts(source@, 0)[k], r@[k]),
        describes(source@, source@.len() as int, r@.last()),
        r@.last().kind@ == KindModel::Eof,
{
    let mut lexer = lex(source);
    lexer.tokens()
}

/// Parse `source`, read from the file `filename`: the statements, and the
/// report of each error found, in the order found. Where every statement
/// parses, the statements are those of [`program`] over the tokens of
/// `source`, and the reports are exactly those of its error tokens, in
/// order, rendered against `source` and `filename`; where one does not,
/// there is at least one report.
pub fn parse(source: &str, filename: &str) -> (r: (Vec<Stmt>, Vec<String>))
    requires
        fits(source@),
    ensures
        exists|toks: Seq<Token>|
            #![trigger lexes(source@, toks)]
            lexes(source@, toks) && match program(toks, next_good(toks, 0)) {
                Some(stmts) => stmts_view(r.0@) == stmts && renders(
                    source@,
                    filename@,
                    errors_in(toks, 0, toks.len() - 1),
                    texts(r.1@),
                ),
                None => r.1@.len() > 0,
            },
{
    let mut parser = Parser::new(source, filename);
    parser.parse_program();
    proof {
        parser.lemma_at_bound();
        parser.lemma_eof_last(parser.at());
        assert forall|k: int| 0 <= k < parser.diagnostics_view().len() implies report_of(
            parser.source(),
            parser.file(),
            #[trigger] parser.diagnostics_view()[k],
        ) is Some by {
            assert(parser.diagnostics_view()[k].labels =~= seq![]);
        }
    }
    let reports = parser.reports();
    let ghost shown = texts(reports@);
    let ghost toks = parser.toks();
    let ghost ds = parser.diagnostics_view();
    let ast = parser.into_ast();
    proof {
        assert(lexes(source@, toks));
        assert(renders(source@, filename@, ds, shown));
        assert(forall|k: int| 0 <= k < ds.len() ==> (#[trigger] ds[k]).labels.len() == 0);
        match program(toks, next_good(toks, 0)) {
            Some(stmts) => {
                assert(ds =~= errors_in(toks, 0, toks.len() - 1));
                assert(stmts_view(ast@) =~= stmts);
            },
            None => {},
        }

    }
    (ast, reports)
}

} // verus!
