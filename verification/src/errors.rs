//! The error taxonomy of the interpreter core.
//!
//! Parse and execute failures are local to one line or job; the caller reports
//! them and keeps reading input. End-of-input and interruption are the only
//! conditions meant to end a read-eval loop.

use vstd::prelude::*;

verus! {

/// Why a line could not be parsed into a job.
///
/// `Incomplete` means the input ended where the grammar still required
/// something (an empty line, or a line ending in `|` or `<`): more input could
/// complete it. `Malformed` means a byte appeared where the grammar does not
/// allow it; no continuation of the line can repair that.
#[derive(Clone, Copy, Debug, PartialEq, Eq, Structural)]
pub enum ParseError {
    Incomplete,
    Malformed,
}

/// Every failure the interpreter core and its callers distinguish.
#[derive(Debug, PartialEq)]
pub enum Error {
    /// The line source failed for a reason other than the two below.
    Read(String),
    /// The line source reached end-of-input.
    Eof,
    /// The user interrupted the read.
    Interrupted,
    /// The line did not parse; see [`ParseError`].
    Parse(ParseError),
    /// A builtin command ran and failed; the message describes why.
    Builtin(String),
    /// A builtin stage was configured as the source of a pipe, which cannot
    /// supply a real output stream; the job is refused before anything runs.
    BuiltinPipe,
    /// Opening a redirect file, creating a pipe, spawning or waiting failed
    /// at the OS level.
    Io(String),
}

} // verus!
