//! A tree-walking interpreter for a small language of the Lua family.
//!
//! Source text is lexed into tokens, parsed into a syntax tree and run
//! against a heap of tables with a mark-and-sweep collector.
//!
//! Numbers are exact decimals with six fraction digits, within about
//! ±9.2·10¹² (see `number`); arithmetic that leaves that range, or divides
//! by zero, is an error.  What `print` writes is collected and handed to the
//! host with the outcome of a run.
use vstd::prelude::*;

pub mod number;
pub mod text;
pub mod function;
pub mod values;
pub mod tokens;
pub mod lexer;
pub mod ast;
pub mod parser;
pub mod table;
pub mod gc_store;
pub mod interpreter;

use crate::interpreter::Interpreter;
use crate::lexer::{Lexer, Lexeme, lex_from};
use crate::ast::Program;
use crate::interpreter::{Flow, scoped_post, witnessed};
use crate::parser::Parser;

verus! {

/// The step budget of a run.
pub const FUEL: u64 = 0xffff_ffff_ffff_ffff;

/// What a run printed, and the error that stopped it, if any.
pub struct Outcome {
    pub output: Vec<String>,
    pub error: Option<String>,
}

/// Lexes, parses and runs `expr` on `interp`, whose globals persist from
/// one call to the next.  Lines that `print` writes are left in
/// `interp.output`.
pub fn exec_repl(expr: String, interp: &mut Interpreter) -> (r: Result<(), String>)
    requires
        old(interp).wf(),
    ensures
        final(interp).keeps(old(interp)),
        lex_from(expr@, 0) is None ==> r is Err && *final(interp) == *old(interp),
        r is Ok ==> lex_from(expr@, 0) is Some,
        r is Ok ==> exists|p: Program, rb: Result<Flow, String>|
            #[trigger] witnessed(p, rb) && scoped_post(p, *old(interp), p.body@, (FUEL - 1) as nat, *final(interp), rb)
            && rb is Ok && !(rb->Ok_0 is Break),
        lex_from(expr@, 0) == Some(Seq::<Lexeme>::empty()) && old(interp).has_room(1) ==> r is Ok
            && final(interp).output@ == old(interp).output@,
{
    let mut lexer = Lexer::new(expr.as_str());
    let tokens = match lexer.tokenize() {
        Ok(t) => t,
        Err(e) => {
            let mut m = String::from_str("Error lexing: ");
            m.append(e.as_str());
            return Err(m);
        },
    };
    proof {
        if lex_from(expr@, 0) == Some(Seq::<Lexeme>::empty()) {
            assert(tokens@.map_values(|t: crate::tokens::Token| crate::lexer::lexeme(t)).len() == tokens@.len());
        }
    }
    let mut parser = Parser::new(tokens);
    let prog = match parser.chunk() {
        Ok(p) => p,
        Err(e) => {
            let mut m = String::from_str("Error parsing: ");
            m.append(e.as_str());
            return Err(m);
        },
    };
    let r = interp.exec_program(&prog, FUEL);
    proof {
        let rb0 = choose|rb: Result<Flow, String>|
            #[trigger] witnessed(*interp, rb) && scoped_post(prog, *old(interp), prog.body@, (FUEL - 1) as nat, *interp, rb)
                && (rb is Err ==> r is Err) && (rb is Ok && rb->Ok_0 is Break ==> r is Err)
                && (rb is Ok && !(rb->Ok_0 is Break) ==> r is Ok);
        assert(witnessed(prog, rb0));
    }
    r
}

/// Runs `script` on a fresh interpreter.
pub fn exec_script(script: String) -> (r: Outcome)
    ensures
        lex_from(script@, 0) is None ==> r.error is Some && r.output@.len() == 0,
        r.error is None ==> lex_from(script@, 0) is Some,
        lex_from(script@, 0) == Some(Seq::<Lexeme>::empty()) ==> r.error is None && r.output@.len() == 0,
{
    let mut interp = Interpreter::new();
    let res = exec_repl(script, &mut interp);
    let output = interp.take_output();
    match res {
        Ok(()) => Outcome { output, error: None },
        Err(e) => Outcome { output, error: Some(e) },
    }
}

/// Runs the source text `blob` on a fresh interpreter.
pub fn execute(blob: &str) -> (r: Outcome)
    ensures
        lex_from(blob@, 0) is None ==> r.error is Some && r.output@.len() == 0,
        r.error is None ==> lex_from(blob@, 0) is Some,
        lex_from(blob@, 0) == Some(Seq::<Lexeme>::empty()) ==> r.error is None && r.output@.len() == 0,
{
    exec_script(String::from_str(blob))
}

} // verus!
