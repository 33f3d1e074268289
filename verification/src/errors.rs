//! The failures that the library reports.

use vstd::prelude::*;

verus! {

/// Why an operation of the library failed.
#[derive(Clone, Copy, Debug, PartialEq, Eq, Structural)]
pub enum GitError {
    /// Bytes that do not follow the wire format: a malformed pkt-line length,
    /// an opcode of invalid shape, a line that cannot be read.
    FormatError,
    /// A length that the format's bit budget cannot express.
    LimitExceeded,
    /// A hash or an offset that the cache does not hold.
    LookupError,
    /// A delta was asked for between objects of different types.
    TypeMismatch,
}

} // verus!
