//! Front end of a small Lisp/Scheme-family language: a longest-match lexer,
//! a recursive-descent parser over the list grammar, and an expansion pass
//! that rewrites derived forms (`begin`, `or`) into a minimal core language.

use vstd::prelude::*;

pub mod grammar;
pub mod laws;
pub mod lexer;
pub mod parser;
pub mod syntax;
pub mod text;
pub mod types;

use crate::grammar::spec_tokens;
use crate::lexer::Lexer;
use crate::parser::Parser;
use crate::syntax::sp_program;
use crate::syntax::ProgOut;
use crate::types::err_category;
use crate::types::exprs_view;
use crate::types::ErrCategory;
use crate::types::Expression;
use crate::types::LispErr;

verus! {

/// What the whole front end yields on a source text: the expression
/// forest of the token stream the lexical grammar assigns to it, or the
/// first error (a lexical one when tokenization fails).
pub open spec fn spec_compile(s: Seq<char>) -> ProgOut {
    match spec_tokens(s) {
        None => ProgOut::PFail(ErrCategory::Lexer),
        Some(ts) => sp_program(ts, 0),
    }
}

/// Runs the whole front end: lexes the source into tokens and parses them
/// into the expression forest, or reports the first error.
pub fn compile(source: String) -> (r: Result<Vec<Expression>, LispErr>)
    ensures
        match spec_compile(source@) {
            ProgOut::Prog(es) => match r {
                Ok(v) => exprs_view(v@) == es,
                _ => false,
            },
            ProgOut::PFail(c) => match r {
                Err(e) => err_category(e) == c,
                _ => false,
            },
        },
{
    let mut lexer = Lexer::new(source);
    let tokens = match lexer.read_all_tokens() {
        Ok(t) => t,
        Err(e) => {
            return Err(e);
        },
    };
    let mut parser = Parser::new(tokens);
    parser.parse()
}

} // verus!
