//! Lexical analysis: source bytes to tokens.
use vstd::prelude::*;
use vstd::string::StringSliceAdditionalSpecFns;

pub mod rules;
pub mod scan;
pub mod token;

pub use rules::SpecError;
pub use scan::Error;
pub use token::SpecToken;
pub use token::Token;

verus! {

/// The token sequence of a source text, or the first lexical error by its
/// byte position.
pub fn tokenize(src: &str) -> (r: Result<Vec<Token>, Error>)
    ensures
        match rules::lex(src.spec_bytes()) {
            Ok(ts) => r matches Ok(toks) && toks.deep_view() == ts,
            Err(e) => r matches Err(err) && err@ == e,
        },
{
    match scan::tokens(src.as_bytes()) {
        Ok((toks, _)) => Ok(toks),
        Err(e) => Err(e),
    }
}

} // verus!
