//! The decisions of the command-line front end: which mode a set of options
//! asks for, and how the interactive session reacts to each line.

use vstd::prelude::*;

use vstd::string::StringSliceAdditionalSpecFns;

use crate::error::{Error, ParserError};

verus! {

/// What the program has been asked to do.
#[derive(Debug)]
pub enum Mode {
    /// Run this source text.
    Executor(String),
    /// Run an interactive session.
    Interpreted,
}

/// Why no mode could be determined.
#[derive(Debug)]
pub enum CLIError {
    /// The program file could not be read.
    IO(std::io::Error),
    /// The options ask for nothing that can be run.
    Cli(String),
}

/// What the options ask for, before any file is read.
#[derive(Debug, PartialEq, Eq)]
pub enum Request {
    /// Read the program from the file at this path.
    File(String),
    /// Run this source text.
    Source(String),
    /// Run an interactive session.
    Interactive,
}

/// Decide what the options ask for: a file wins over a literal script, which
/// wins over the interactive flag; with none of them it is an error.
pub fn request(file: Option<String>, execute: Option<String>, interpreter: bool) -> (r: Result<Request, CLIError>)
    ensures
        file is Some ==> r == Ok::<Request, CLIError>(Request::File(file->Some_0)),
        file is None && execute is Some ==> r == Ok::<Request, CLIError>(Request::Source(execute->Some_0)),
        file is None && execute is None && interpreter ==> r == Ok::<Request, CLIError>(Request::Interactive),
        file is None && execute is None && !interpreter ==> r is Err && r->Err_0 is Cli && r->Err_0->Cli_0@
            == "Error: No file provided and not running in interpreted mode or eval mode"@,
{
    match file {
        Some(path) => Ok(Request::File(path)),
        None => match execute {
            Some(source) => Ok(Request::Source(source)),
            None => if interpreter {
                Ok(Request::Interactive)
            } else {
                Err(CLIError::Cli("Error: No file provided and not running in interpreted mode or eval mode".to_owned()))
            },
        },
    }
}

/// The bytes of the word that ends an interactive session.
pub open spec fn exit_word() -> Seq<u8> {
    seq![0x65u8, 0x78, 0x69, 0x74]
}

/// Whether `s` holds the word `exit` anywhere.
pub open spec fn holds_exit(s: Seq<u8>) -> bool {
    exists|i: int| 0 <= i && i + 4 <= s.len() && #[trigger] s.subrange(i, i + 4) == exit_word()
}

/// Whether the buffered input asks to end the session.
pub fn wants_exit(buffer: &str) -> (r: bool)
    ensures
        r == holds_exit(buffer.spec_bytes()),
{
    let b = buffer.as_bytes();
    let n = b.len();
    assert(b@ == buffer.spec_bytes());
    if n < 4 {
        proof {
            assert forall|i: int| 0 <= i && i + 4 <= b@.len() implies #[trigger] b@.subrange(i, i + 4) != exit_word() by {}
        }
        return false;
    }
    let mut i: usize = 0;
    while i < n - 3
        invariant
            n == b@.len(),
            b@ == buffer.spec_bytes(),
            n >= 4,
            i <= n - 3,
            forall|j: int| 0 <= j < i ==> #[trigger] b@.subrange(j, j + 4) != exit_word(),
        decreases n - i,
    {
        if b[i] == 0x65 && b[i + 1] == 0x78 && b[i + 2] == 0x69 && b[i + 3] == 0x74 {
            proof {
                assert(b@.subrange(i as int, i + 4) =~= exit_word());
                assert(holds_exit(b@));
            }
            return true;
        }
        proof {
            if b@.subrange(i as int, i + 4) == exit_word() {
                assert(b@.subrange(i as int, i + 4)[0] == b@[i as int]);
                assert(b@.subrange(i as int, i + 4)[1] == b@[i + 1]);
                assert(b@.subrange(i as int, i + 4)[2] == b@[i + 2]);
                assert(b@.subrange(i as int, i + 4)[3] == b@[i + 3]);
            }
        }
        i = i + 1;
    }
    false
}

/// How the interactive session goes on after trying to load its buffer.
#[derive(Debug, Clone, Copy, PartialEq, Eq, Structural)]
pub enum Reply {
    /// A loop is still open: keep the buffer and read another line.
    Continue,
    /// The buffer closes a loop never opened: report it and clear the buffer.
    Reject,
    /// The program is loaded: run it, then clear the buffer.
    Run,
    /// Any other failure ends the session.
    Stop,
}

/// The reply to the outcome of loading the buffered input.
pub fn reply(loaded: &Result<(), Error>) -> (r: Reply)
    ensures
        loaded is Ok ==> r == Reply::Run,
        loaded is Err ==> r == match loaded->Err_0 {
            Error::ParseError(ParserError::IncompleteLoop) => Reply::Continue,
            Error::ParseError(ParserError::UnexpectedToken) => Reply::Reject,
            _ => Reply::Stop,
        },
{
    match loaded {
        Ok(()) => Reply::Run,
        Err(Error::ParseError(ParserError::IncompleteLoop)) => Reply::Continue,
        Err(Error::ParseError(ParserError::UnexpectedToken)) => Reply::Reject,
        Err(_) => Reply::Stop,
    }
}

} // verus!
