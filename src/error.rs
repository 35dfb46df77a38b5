//! The ways in which parsing bytes, or reading a command, can fail.

use vstd::prelude::*;

verus! {

/// Why a value could not be parsed from a byte cursor.
#[derive(Clone, Copy, Debug, PartialEq, Eq, Structural)]
pub enum ParseError {
    /// The cursor held no bytes where a value had to start.
    EmptyInput,
    /// The type tag byte is none of `+`, `:`, `$`, `*`.
    UnknownType(u8),
    /// No `\r\n` terminator follows where one is required.
    MissingTerminator,
    /// A string payload is not valid UTF-8.
    Encoding,
    /// A length or number line is not a base-10 `i64`.
    InvalidInteger,
    /// A bulk string declares more bytes than the cursor holds, counting its
    /// terminator.
    BulkOverrun { declared: i64, available: usize },
    /// Arrays are nested deeper than the parser allows.
    NestingTooDeep,
    /// A prefix longer than the cursor (or of negative length) was asked for.
    OutOfBounds,
}

/// Why a command could not be read from a connection.
#[derive(Clone, Copy, Debug, PartialEq, Eq, Structural)]
pub enum CommandError {
    /// The received bytes did not parse.
    Parse(ParseError),
    /// The peer closed the connection (a read returned no bytes).
    PeerClosed,
    /// The value is not an array with at least one element.
    InvalidCommandShape,
    /// The value cannot be read as a string.
    NotAString,
    /// A bulk string holding a command name is not valid UTF-8.
    Encoding,
}

} // verus!
