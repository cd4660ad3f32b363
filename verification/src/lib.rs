//! Lox: a scanner, parser and printer for the Lox language, and the front end
//! of its bytecode virtual machine, with contracts.
use vstd::prelude::*;

pub mod ast;
pub mod benchmark;
pub mod bvm;
pub mod evaluator;
pub mod lexer;
pub mod parser;
pub mod text;
pub mod report;
pub mod resolver;

pub use report::Lox;
use ast::expr::Expr;
use ast::stmt::{tokens_view, Stmt};
use lexer::scanner::{scan_reports, tokens_of, Scanner};
use lexer::token::Token;
use parser::{opt_stmts_view, parse_program, Parser};
use text::all_ascii;

verus! {

/// A pass over the syntax tree: one result for an expression, another for a statement.
pub trait Visitor<T1, T2> {
    fn visit_expr(&mut self, e: &Expr) -> T1;

    fn visit_stmt(&mut self, s: &Stmt) -> T2;
}

/// Scans and parses `source`: its statements, or `None` when the session has
/// had an error (then nothing is to be run).
pub fn front_end(interpreter: &mut Lox, source: &str) -> (r: Option<Vec<Option<Stmt>>>)
    requires
        source@.len() < usize::MAX,
        all_ascii(source@),
    ensures
        ({
            let prog = parse_program(tokens_of(source@));
            &&& final(interpreter).reports() == old(interpreter).reports() + scan_reports(source@) + prog.reports
            &&& final(interpreter).spec_had_error() == (old(interpreter).spec_had_error()
                || scan_reports(source@).len() > 0 || prog.reports.len() > 0)
            &&& final(interpreter).spec_had_runtime_error() == old(interpreter).spec_had_runtime_error()
            &&& (r is None <==> final(interpreter).spec_had_error())
            &&& (r matches Some(v) ==> opt_stmts_view(v@) == prog.stmts)
        }),
{
    let mut scanner = Scanner::new(source);
    scanner.scan_tokens(interpreter);
    let scanned = scanner.tokens();
    let mut tokens: Vec<Token> = Vec::new();
    let mut i: usize = 0;
    while i < scanned.len()
        invariant
            i <= scanned@.len(),
            tokens@ == scanned@.subrange(0, i as int),
        decreases scanned@.len() - i,
    {
        tokens.push(scanned[i].copied());
        assert(tokens@ =~= scanned@.subrange(0, i + 1));
        i = i + 1;
    }
    assert(scanned@.subrange(0, scanned@.len() as int) =~= scanned@);
    assert(tokens@ == scanned@);
    assert(tokens_view(tokens@) =~= tokens_of(source@));
    assert(tokens@.len() == tokens_of(source@).len());
    assert(tokens@.last()@ == tokens_view(tokens@)[tokens@.len() - 1]);
    let mut parser = Parser::new(tokens);
    let statements = parser.parse(interpreter);
    assert(old(interpreter).reports() + scan_reports(source@) + parse_program(tokens_of(source@)).reports
        =~= interpreter.reports());
    if interpreter.had_error() {
        None
    } else {
        Some(statements)
    }
}

} // verus!
