use vstd::prelude::*;
use crate::generator::{generate_rust, generated};
use crate::parser::{extract_state, extracted, spec_program, ParseError};
use crate::tokenizer::{token_views, tokenize, tokens_of};
use crate::types::Token;

verus! {

/// What compiling a token sequence yields: the generated program for the
/// state its parse flattens to, or the parse error.
pub open spec fn compiled(toks: Seq<Token>) -> Result<Seq<char>, ParseError> {
    match spec_program(toks) {
        Ok(a) => Ok(generated(extracted(a))),
        Err(e) => Err(e),
    }
}

pub open spec fn result_view(r: Result<String, ParseError>) -> Result<Seq<char>, ParseError> {
    match r {
        Ok(s) => Ok(s@),
        Err(e) => Err(e),
    }
}

/// Translates a script into the source of a Rust program: tokenize, parse
/// and flatten, then generate. A structural parse failure aborts with no
/// output.
pub fn compile(code: &str) -> (r: Result<String, ParseError>)
    ensures
        exists|toks: Seq<Token>| token_views(toks) == tokens_of(code@) && result_view(r) == compiled(toks),
{
    let tokens = tokenize(code);
    let ghost toks = tokens@;
    match extract_state(tokens) {
        Ok(state) => {
            let out = generate_rust(&state);
            assert(token_views(toks) == tokens_of(code@) && result_view(Ok(out)) == compiled(toks));
            Ok(out)
        },
        Err(e) => {
            assert(token_views(toks) == tokens_of(code@) && result_view(Err(e)) == compiled(toks));
            Err(e)
        },
    }
}

} // verus!
