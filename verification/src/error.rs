//! The closed set of protocol failures.
//!
//! Transport failures (connect, read or write errors, timeouts) happen in the
//! unverified shell that owns the socket and are surfaced there as I/O errors;
//! everything the protocol logic itself can reject is listed here.

use vstd::prelude::*;

verus! {

/// A protocol-level failure, one variant per kind, so that callers can match
/// exhaustively.
#[derive(Debug, PartialEq, Eq)]
pub enum RConError {
    /// The reassembled response bytes are not valid UTF-8 text.
    Utf8,
    /// The remote echoed request id `-1`, its signal that the session is not
    /// authenticated.
    NotAuthorized,
    /// A packet declared a size below the 10-byte minimum (4 bytes id, 4
    /// bytes type, 2 terminator bytes); carries the offending declared size.
    LengthTooSmall(i32),
    /// A declared byte count disagrees with the bytes actually available;
    /// carries the expected and the available count.
    LengthMismatch(usize, usize),
}

} // verus!
