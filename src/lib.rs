//! A Brainfuck toolchain: an optimizing parser that lowers source text into a
//! compact tree of fused operations (with a proof that rendering a program
//! back into commands and parsing it again is the identity), a step-wise
//! interpreter over a circular byte tape, and an x86-64 code generator whose
//! output is sealed into executable memory.

use vstd::prelude::*;

pub mod cli;
pub mod compiler;
pub mod error;
pub mod executor;
pub mod instruction;
pub mod laws;
pub mod parser;
pub mod render;

verus! {

/// Number of cells on the tape. Every pointer movement wraps modulo this size.
pub const MEMORY_SIZE: usize = 30000;

} // verus!
