//! The command table: which reply each command gets.

use vstd::prelude::*;
use crate::resp::{lemma_models_of, models_of, Value, ValueModel};

verus! {

/// The reply that `command` (already upper-cased) with arguments `args`
/// gets, or `None` when it gets none.
pub open spec fn reply_of(command: Seq<char>, args: Seq<ValueModel>) -> Option<ValueModel> {
    if command == "PING"@ {
        Some(ValueModel::String("PONG"@))
    } else if command == "ECHO"@ {
        if args.len() != 1 {
            Some(ValueModel::Error("wrong number of arguments for command"@))
        } else if args[0] is Bulk {
            Some(args[0])
        } else {
            None
        }
    } else {
        Some(ValueModel::Error("unsupported command"@))
    }
}

/// Answers one command: `PING` gets `PONG`; `ECHO` with one bulk string
/// gets that bulk string back, with any other single argument no reply, and
/// with another number of arguments an error; any other command an error.
pub fn respond(command: &String, args: Vec<Value>) -> (r: Option<Value>)
    ensures
        match r {
            Some(v) => reply_of(command@, models_of(args@)) == Some(v@),
            None => reply_of(command@, models_of(args@)) is None,
        },
{
    let mut args = args;
    proof {
        lemma_models_of(args@);
    }
    if *command == "PING".to_owned() {
        Some(Value::String("PONG".to_owned()))
    } else if *command == "ECHO".to_owned() {
        if args.len() != 1 {
            return Some(Value::Error("wrong number of arguments for command".to_owned()));
        }
        let arg = args.remove(0);
        match arg {
            Value::Bulk { .. } => Some(arg),
            _ => None,
        }
    } else {
        Some(Value::Error("unsupported command".to_owned()))
    }
}

} // verus!
