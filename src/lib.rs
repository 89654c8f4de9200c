use vstd::prelude::*;

pub mod error;
pub mod lexer;
pub mod opcodes;
pub mod parser;
pub mod text;
pub mod vm;

verus! {

/// What a run is asked for: the source file to run and the length of the tape.
#[derive(Debug, PartialEq, Eq)]
pub struct Args {
    pub file: String,
    pub tape_size: usize,
}

} // verus!
