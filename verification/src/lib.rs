//! A small dynamically typed scripting language: a newline-sensitive lexer,
//! a recursive-descent parser with per-statement error recovery, and a
//! tree-walking interpreter with block-structured, lexically scoped
//! environments.

pub mod environment;
pub mod error;
pub mod expression;
pub mod interpreter;
pub mod lexer;
pub mod parser;
pub mod semantics;
pub mod statement;
pub mod token;
pub mod value;

use vstd::prelude::*;
use crate::error::Diag;
use crate::interpreter::Interpreter;
use crate::lexer::Lexer;
use crate::parser::Parser;
use crate::semantics::outs;

verus! {

/// Run one source text through the whole pipeline against a persisting
/// interpreter: scan, parse, execute. Diagnostics from every stage land in
/// the interpreter's handler in the order they arose, printed output lands
/// in its output buffer, and the global frame keeps whatever the program
/// defined, so successive calls see earlier declarations.
pub fn run(source: String, interpreter: &mut Interpreter)
    requires
        old(interpreter).wf(),
    ensures
        final(interpreter).wf(),
        old(interpreter).reporter@.is_prefix_of(final(interpreter).reporter@),
        outs(old(interpreter).output@).is_prefix_of(outs(final(interpreter).output@)),
{
    broadcast use crate::semantics::lemma_seq_prefix_trans;

    let ghost pre = *interpreter;
    let lexer = Lexer::new(source);
    let (tokens, lex_reporter) = lexer.lex();
    interpreter.reporter.absorb(lex_reporter);
    proof {
        assert(pre.reporter@.is_prefix_of(interpreter.reporter@)) by {
            assert(pre.reporter@ =~= interpreter.reporter@.subrange(
                0,
                pre.reporter@.len() as int,
            ));
        }
    }
    let mut parser = Parser::new(tokens);
    let statements = parser.parse();
    let ghost mid = *interpreter;
    interpreter.reporter.absorb(parser.reporter);
    proof {
        assert(mid.reporter@.is_prefix_of(interpreter.reporter@)) by {
            assert(mid.reporter@ =~= interpreter.reporter@.subrange(
                0,
                mid.reporter@.len() as int,
            ));
        }
    }
    let ghost before = *interpreter;
    interpreter.interpret(statements);
    proof {
        crate::semantics::lemma_run_stmts_extends(
            u64::MAX as nat,
            before.env@,
            outs(before.output@),
            before.reporter@,
            crate::statement::stmts_model(statements@),
        );
        assert(outs(pre.output@) == outs(before.output@));
    }
}

} // verus!
