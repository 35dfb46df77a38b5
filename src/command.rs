//! Commands: a client command is an array whose first element names the
//! command and whose other elements are its arguments. `CommandReader`
//! carries received bytes from one read to the next.

use bytes::Bytes;
use std::ops::Deref;
use vstd::prelude::*;
use crate::cursor::byte_seq;
use crate::error::CommandError;
use crate::resp::{lemma_models_of, models_of, parse_resp, spec_parse, string_of, Value, ValueModel};

verus! {

/// `c` with ASCII letters `a`..`z` mapped to `A`..`Z`.
pub open spec fn upper_ascii(c: char) -> char {
    if 'a' <= c <= 'z' {
        (((c as u32) - 32) as u32) as char
    } else {
        c
    }
}

/// `s` with every ASCII lower-case letter made upper-case.
pub open spec fn ascii_uppercase(s: Seq<char>) -> Seq<char> {
    s.map_values(|c: char| upper_ascii(c))
}

/// Relies on `str::to_ascii_uppercase`: ASCII letters `a`..`z` become
/// `A`..`Z`, every other character is kept.
#[verifier::external_body]
fn to_upper(s: &str) -> (r: String)
    ensures
        r@ == ascii_uppercase(s@),
{
    s.to_ascii_uppercase()
}

/// The command that a value with model `v` holds: the text of its first
/// element (not yet upper-cased) and the models of the others.
pub open spec fn command_of(v: ValueModel) -> Result<(Seq<char>, Seq<ValueModel>), CommandError> {
    match v {
        ValueModel::Array { len, elements } => if len >= 1 && elements.len() >= 1 {
            match string_of(elements[0]) {
                Ok(name) => Ok((name, elements.drop_first())),
                Err(e) => Err(e),
            }
        } else {
            Err(CommandError::InvalidCommandShape)
        },
        _ => Err(CommandError::InvalidCommandShape),
    }
}

/// Splits a command value into its upper-cased name and its arguments, in
/// their original order.
pub fn command_from_value(v: Value) -> (r: Result<(String, Vec<Value>), CommandError>)
    ensures
        match r {
            Ok((name, args)) => command_of(v@) matches Ok((text, rest)) && name@ == ascii_uppercase(text)
                && models_of(args@) == rest,
            Err(e) => command_of(v@) == Err::<(Seq<char>, Seq<ValueModel>), CommandError>(e),
        },
{
    match v {
        Value::Array { len, mut elements } => {
            if len < 1 || elements.len() == 0 {
                return Err(CommandError::InvalidCommandShape);
            }
            let ghost all = elements@;
            proof {
                lemma_models_of(all);
            }
            let first = elements.remove(0);
            let name = match first.as_string() {
                Ok(name) => name,
                Err(e) => return Err(e),
            };
            proof {
                lemma_models_of(elements@);
                assert(models_of(elements@) =~= models_of(all).drop_first());
            }
            Ok((to_upper(name.as_str()), elements))
        },
        _ => Err(CommandError::InvalidCommandShape),
    }
}

/// Bytes received from one client and not yet parsed. Bytes left over
/// after a value are kept and parsed before more input is asked for, so
/// commands that arrive together in one read are all served.
pub struct CommandReader {
    pending: Bytes,
}

impl View for CommandReader {
    type V = Seq<u8>;

    closed spec fn view(&self) -> Seq<u8> {
        byte_seq(self.pending)
    }
}

impl CommandReader {
    /// A reader holding no bytes.
    pub fn new() -> (r: Self)
        ensures
            r@ == Seq::<u8>::empty(),
    {
        CommandReader { pending: Bytes::new() }
    }

    /// Whether every received byte has been parsed, so that the next value
    /// needs bytes from the transport.
    pub fn needs_input(&self) -> (r: bool)
        ensures
            r == (self@.len() == 0),
    {
        self.pending.len() == 0
    }

    /// How many received bytes are waiting to be parsed.
    pub fn pending_len(&self) -> (r: usize)
        ensures
            r == self@.len(),
    {
        self.pending.len()
    }

    /// Takes the bytes of one transport read. A read of no bytes means that
    /// the peer closed the connection.
    pub fn receive(&mut self, data: Bytes) -> (r: Result<(), CommandError>)
        ensures
            byte_seq(data).len() == 0 ==> r == Err::<(), CommandError>(CommandError::PeerClosed)
                && final(self)@ == old(self)@,
            byte_seq(data).len() > 0 ==> r is Ok && final(self)@ == old(self)@ + byte_seq(data),
    {
        if data.len() == 0 {
            return Err(CommandError::PeerClosed);
        }
        if self.pending.len() == 0 {
            self.pending = data;
            assert(byte_seq(data) =~= Seq::<u8>::empty() + byte_seq(data));
            return Ok(());
        }
        let ghost before = self@;
        let mut joined = vstd::slice::slice_to_vec(self.pending.deref());
        let incoming: &[u8] = data.deref();
        let mut i: usize = 0;
        while i < incoming.len()
            invariant
                incoming@ == byte_seq(data),
                i <= incoming@.len(),
                joined@ == before + incoming@.take(i as int),
            decreases incoming@.len() - i,
        {
            joined.push(incoming[i]);
            i = i + 1;
            assert(joined@ =~= before + incoming@.take(i as int));
        }
        assert(incoming@.take(i as int) =~= incoming@);
        self.pending = Bytes::from(joined);
        Ok(())
    }

    /// Parses the next value from the bytes received so far. The bytes after
    /// it stay for the next call; after a failure none are kept.
    pub fn next_value(&mut self) -> (r: Result<Value, CommandError>)
        ensures
            match spec_parse(old(self)@) {
                (Ok(m), rest) => r matches Ok(v) && v@ == m && final(self)@ == rest,
                (Err(e), _) => r == Err::<Value, CommandError>(CommandError::Parse(e))
                    && final(self)@ == Seq::<u8>::empty(),
            },
    {
        match parse_resp(&mut self.pending) {
            Ok((v, rest)) => {
                self.pending = rest;
                Ok(v)
            },
            Err(e) => {
                self.pending = Bytes::new();
                Err(CommandError::Parse(e))
            },
        }
    }

    /// Parses the next value and splits it into an upper-cased command name
    /// and its arguments.
    pub fn next_command(&mut self) -> (r: Result<(String, Vec<Value>), CommandError>)
        ensures
            match spec_parse(old(self)@) {
                (Ok(m), rest) => final(self)@ == rest && match r {
                    Ok((name, args)) => command_of(m) matches Ok((text, rest_args)) && name@ == ascii_uppercase(text)
                        && models_of(args@) == rest_args,
                    Err(e) => command_of(m) == Err::<(Seq<char>, Seq<ValueModel>), CommandError>(e),
                },
                (Err(e), _) => r == Err::<(String, Vec<Value>), CommandError>(CommandError::Parse(e))
                    && final(self)@ == Seq::<u8>::empty(),
            },
    {
        let v = match self.next_value() {
            Ok(v) => v,
            Err(e) => return Err(e),
        };
        command_from_value(v)
    }
}

} // verus!
