//! Syntax analysis: tokens to syntax trees.
use crate::tokenizer::token::Token;
use vstd::prelude::*;

pub mod grammar;
pub mod laws;
pub mod node;
pub mod parser;
pub mod shown;

pub use grammar::SpecError;
pub use node::Node;
pub use node::SpecNode;
pub use parser::Error;
pub use parser::Parser;

verus! {

/// The trees of the statements of `src`, with the variables' offsets given
/// in the order in which they first occur; or the first error.
pub fn parse(src: &[Token]) -> (r: Result<Vec<Node>, Error>)
    ensures
        match grammar::program(src.deep_view(), Seq::empty()) {
            Ok(p) => r matches Ok(nodes) && nodes.deep_view() == p.nodes,
            Err(e) => r matches Err(err) && err@ == e,
        },
        r matches Ok(nodes) ==> laws::all_agree(
            nodes.deep_view(),
            laws::names_after(Seq::empty(), src.deep_view()),
        ),
{
    let mut p = Parser::new();
    match p.program(src) {
        Ok((nodes, _)) => Ok(nodes),
        Err(e) => Err(e),
    }
}

} // verus!
