//! The parsed program: the external parser's types and the Variable
//! Extractor over them.

use vstd::prelude::*;
use cas_parser::parser::ast::stmt::Stmt;
use crate::vars::{lemma_sorted_strict_no_dup, sort_dedup, sorted_strict};

verus! {

/// The external parser's statement type: one parsed statement of a program.
#[verifier::external_type_specification]
#[verifier::external_body]
pub struct ExStmt(Stmt);

/// The external reporting crate's error type, carried by parse failures.
#[verifier::external_type_specification]
#[verifier::external_body]
pub struct ExError(cas_error::Error);

/// Relies on cas_parser's Parser::new and Parser::try_parse_full_many:
/// tokenizes the whole source and parses it into statements, or reports
/// every parse error found.
#[verifier::external_body]
fn parse_stmts(input: &str) -> (r: Result<Vec<Stmt>, Vec<cas_error::Error>>) {
    let mut parser = cas_parser::parser::Parser::new(input);
    parser.try_parse_full_many::<Stmt>()
}

/// The names of the symbol leaves referenced anywhere in the statements, in
/// the expression trees' traversal order, repetitions kept. The traversal
/// is deterministic, so the names are a function of the statements alone.
pub uninterp spec fn symbols_of(stmts: Seq<Stmt>) -> Seq<Seq<char>>;

/// Relies on cas_parser's Expr::post_order_iter: walks every statement's
/// expression tree and hands back the name of every symbol leaf, in
/// traversal order, repetitions kept.
#[verifier::external_body]
fn collect_symbols(ast: &Vec<Stmt>) -> (r: Vec<String>)
    ensures
        r.deep_view() == symbols_of(ast@),
{
    let mut out = Vec::new();
    for stmt in ast.iter() {
        for node in stmt.expr.post_order_iter() {
            if let cas_parser::parser::ast::Expr::Literal(
                cas_parser::parser::ast::Literal::Symbol(sym),
            ) = node {
                out.push(sym.name.clone());
            }
        }
    }
    out
}

/// Parses a source text into a program, or hands back the parse errors.
/// Parsing is the external parser's work; nothing further is promised of
/// its result.
pub fn parse_program(input: &str) -> (r: Result<Vec<Stmt>, Vec<cas_error::Error>>) {
    parse_stmts(input)
}

/// The Variable Extractor: collects every symbol referenced anywhere in the
/// program and returns the variable names sorted ascending, each exactly
/// once — exactly the referenced names, whatever order or repetition they
/// were found in.
pub fn extract_variables(ast: &Vec<Stmt>) -> (r: Vec<String>)
    ensures
        sorted_strict(r.deep_view()),
        forall|i: int, j: int|
            0 <= i < j < r.deep_view().len() ==> r.deep_view()[i] != r.deep_view()[j],
        forall|x: Seq<char>| r.deep_view().contains(x) <==> symbols_of(ast@).contains(x),
{
    let names = collect_symbols(ast);
    let vars = sort_dedup(&names);
    proof {
        lemma_sorted_strict_no_dup(vars.deep_view());
    }
    vars
}

} // verus!
