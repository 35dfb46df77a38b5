//! A RESP (Redis serialization protocol) codec: a byte cursor over received
//! bytes, a parser from bytes to a value tree, the extraction of commands
//! from parsed values, the replies to them, and the wire form of values.

pub mod command;
pub mod cursor;
pub mod dispatch;
pub mod encode;
pub mod error;
pub mod proofs;
pub mod resp;

pub use command::{command_from_value, CommandReader};
pub use cursor::{drop_prefix, find_crlf, take_prefix};
pub use dispatch::respond;
pub use encode::{encode_value, write_value};
pub use error::{CommandError, ParseError};
pub use resp::{parse_resp, Value, MAX_NESTING};
