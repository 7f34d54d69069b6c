use vstd::prelude::*;

pub mod ast;
pub mod double;
pub mod interpreter;
pub mod klc;
pub mod lexer;
pub mod parser;
pub mod token;

verus! {
} // verus!
