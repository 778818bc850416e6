//! Errors reported by the parser, the code generator and the backends.

use vstd::prelude::*;

verus! {

#[verifier::external_type_specification]
#[verifier::external_body]
pub struct ExIoError(std::io::Error);

/// Why a source text was rejected by the parser.
#[derive(Debug, Clone, Copy, PartialEq, Eq, Structural)]
pub enum ParserError {
    /// A `[` was never closed.
    IncompleteLoop,
    /// A `]` had no open `[` to close.
    UnexpectedToken,
}

/// Why generated code could not be made executable.
#[derive(Debug)]
pub enum CompileFailure {
    /// The generated code would be too long for its 32-bit jumps.
    TooLarge,
    /// Memory for the code could not be mapped.
    Memory(std::io::Error),
    /// The code could not be sealed into executable memory.
    Sealing,
}

/// Any failure of parsing, code generation or execution.
#[derive(Debug)]
pub enum Error {
    /// The source text is not a well-formed program.
    ParseError(ParserError),
    /// Executable memory could not be set up for the generated code.
    CompileError(CompileFailure),
    /// Reading or writing a byte failed while the program ran.
    RuntimeError(std::io::Error),
}

} // verus!
