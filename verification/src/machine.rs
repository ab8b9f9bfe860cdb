//! The meaning of the generated code: a model of the machine, the value of
//! an expression, and the proof that the code of an expression computes it.
use vstd::prelude::*;

pub mod correct;
pub mod model;
pub mod runner;
pub mod value;

verus! {

} // verus!
