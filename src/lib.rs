//! An arithmetic expression evaluator: a tokenizer, a recursive-descent parser
//! that lays out the evaluation as an ordered list of steps, and the choice of how
//! a result is printed.
use vstd::prelude::*;

pub mod balance;
pub mod error;
pub mod format;
pub mod parser;
pub mod plan;
pub mod shape;
pub mod token;

verus! {

} // verus!
