//! The frontend pipeline: source text to syntax tree.

use vstd::prelude::*;
use crate::lexer::{TokenStream, LexErr, lex_from};
use crate::ast::{Ast, AstErr, sp_program_at};

verus! {

/// A frontend failure: either the lexer or the parser refused the source.
#[derive(Debug, PartialEq, Eq, Clone, Structural)]
pub enum FrontendErr {
    Lex(LexErr),
    Ast(AstErr),
}

/// Lexes and parses a whole source text. The result is exactly what the
/// lexing model and the parsing model give on it.
pub fn get_ast(s: &str) -> (r: Result<Ast, FrontendErr>)
    ensures
        match lex_from(s@, 0) {
            None => r == Err::<Ast, FrontendErr>(FrontendErr::Lex(LexErr::General)),
            Some(toks) => match sp_program_at(toks, 0) {
                None => r == Err::<Ast, FrontendErr>(FrontendErr::Ast(AstErr::BadToken)),
                Some(lines) => r is Ok && r->Ok_0@ == lines,
            },
        },
{
    let mut token_stream = match TokenStream::from_str(s) {
        Ok(ts) => ts,
        Err(e) => {
            return Err(FrontendErr::Lex(e));
        },
    };
    match Ast::from_stream(&mut token_stream) {
        Ok(a) => Ok(a),
        Err(e) => Err(FrontendErr::Ast(e)),
    }
}

} // verus!
