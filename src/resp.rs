//! The RESP value tree, its mathematical model, and the parser from bytes to
//! values.
//!
//! The parser is stated twice: `spec_value` says in mathematical terms what
//! each input yields (a value or an error, and the bytes left unconsumed);
//! `parse_resp` and the functions below it compute exactly that.

use bytes::Bytes;
use std::ops::Deref;
use vstd::prelude::*;
use vstd::utf8::{decode_utf8, valid_utf8};
use crate::cursor::{byte_seq, crlf_at, crlf_search, drop_prefix, find_crlf, first_crlf, take_prefix};
use crate::error::{CommandError, ParseError};

verus! {

/// How many arrays may enclose one another in a parsed value.
pub const MAX_NESTING: usize = 32;

/// The type tag of a simple string: `+`.
pub const TAG_STRING: u8 = 43;
/// The type tag of an error string: `-`.
pub const TAG_ERROR: u8 = 45;
/// The type tag of an integer: `:`.
pub const TAG_NUMBER: u8 = 58;
/// The type tag of a bulk string: `$`.
pub const TAG_BULK: u8 = 36;
/// The type tag of an array: `*`.
pub const TAG_ARRAY: u8 = 42;

/// A parsed RESP value. It owns everything it holds.
#[derive(PartialEq, Debug)]
pub enum Value {
    /// A simple string (`+text\r\n`).
    String(String),
    /// An integer (`:123\r\n`).
    Number(i64),
    /// A bulk string: `size` declared bytes of `data`.
    Bulk { size: i64, data: Bytes },
    /// An error string; the same shape on the wire as a simple string.
    Error(String),
    /// An array of `len` declared elements.
    Array { len: i64, elements: Vec<Value> },
}

/// The mathematical model of a `Value`.
pub enum ValueModel {
    String(Seq<char>),
    Number(int),
    Bulk { size: int, data: Seq<u8> },
    Error(Seq<char>),
    Array { len: int, elements: Seq<ValueModel> },
}

/// The model of a value.
pub open spec fn value_model(v: Value) -> ValueModel
    decreases v,
{
    match v {
        Value::String(s) => ValueModel::String(s@),
        Value::Number(n) => ValueModel::Number(n as int),
        Value::Bulk { size, data } => ValueModel::Bulk { size: size as int, data: byte_seq(data) },
        Value::Error(s) => ValueModel::Error(s@),
        Value::Array { len, elements } => {
            proof {
                broadcast use vstd::std_specs::vec::axiom_vec_decreases_to_view;
            }
            ValueModel::Array { len: len as int, elements: models_of(elements@) }
        },
    }
}

/// The models of a sequence of values, in order.
pub open spec fn models_of(vs: Seq<Value>) -> Seq<ValueModel>
    decreases vs,
{
    if vs.len() == 0 {
        Seq::empty()
    } else {
        models_of(vs.drop_last()).push(value_model(vs.last()))
    }
}

/// The models of a sequence of values are those of its elements, in order.
pub proof fn lemma_models_of(vs: Seq<Value>)
    ensures
        models_of(vs).len() == vs.len(),
        forall|i: int| 0 <= i < vs.len() ==> #[trigger] models_of(vs)[i] == value_model(vs[i]),
    decreases vs.len(),
{
    if vs.len() > 0 {
        lemma_models_of(vs.drop_last());
    }
}

impl View for Value {
    type V = ValueModel;

    open spec fn view(&self) -> ValueModel {
        value_model(*self)
    }
}

/// What `Value::as_string` yields for a value with model `v`: a simple
/// string's text, or a bulk string's bytes read as UTF-8.
pub open spec fn string_of(v: ValueModel) -> Result<Seq<char>, CommandError> {
    match v {
        ValueModel::String(s) => Ok(s),
        ValueModel::Bulk { data, .. } => if valid_utf8(data) {
            Ok(decode_utf8(data))
        } else {
            Err(CommandError::Encoding)
        },
        _ => Err(CommandError::NotAString),
    }
}

impl Value {
    /// The text of a simple string, or of a bulk string whose bytes are
    /// valid UTF-8.
    pub fn as_string(&self) -> (r: Result<String, CommandError>)
        ensures
            match r {
                Ok(s) => string_of(self@) == Ok::<Seq<char>, CommandError>(s@),
                Err(e) => string_of(self@) == Err::<Seq<char>, CommandError>(e),
            },
    {
        match self {
            Value::String(value) => Ok(value.clone()),
            Value::Bulk { data, .. } => match utf8_string(vstd::slice::slice_to_vec(data.deref())) {
                Some(value) => Ok(value),
                None => Err(CommandError::Encoding),
            },
            _ => Err(CommandError::NotAString),
        }
    }
}

/// A parse result with the value replaced by its model.
pub open spec fn result_model(r: Result<Value, ParseError>) -> Result<ValueModel, ParseError> {
    match r {
        Ok(v) => Ok(v@),
        Err(e) => Err(e),
    }
}

// ---------------------------------------------------------------------------
// Integers in text

pub open spec fn is_digit(c: char) -> bool {
    '0' <= c <= '9'
}

/// A non-empty run of decimal digits.
pub open spec fn all_digits(s: Seq<char>) -> bool {
    s.len() > 0 && forall|i: int| 0 <= i < s.len() ==> is_digit(#[trigger] s[i])
}

/// The number that a run of decimal digits spells.
pub open spec fn digits_value(s: Seq<char>) -> int
    decreases s.len(),
{
    if s.len() == 0 {
        0
    } else {
        10 * digits_value(s.drop_last()) + (s.last() as int - '0' as int)
    }
}

/// The integer that `s` spells: an optional `+` or `-` followed by decimal
/// digits, and nothing else.
pub open spec fn decimal_value(s: Seq<char>) -> Option<int> {
    if s.len() > 0 && (s[0] == '-' || s[0] == '+') {
        if all_digits(s.drop_first()) {
            if s[0] == '-' {
                Some(-digits_value(s.drop_first()))
            } else {
                Some(digits_value(s.drop_first()))
            }
        } else {
            None
        }
    } else if all_digits(s) {
        Some(digits_value(s))
    } else {
        None
    }
}

/// The `i64` that `s` spells, if it spells one in range.
pub open spec fn decimal_i64(s: Seq<char>) -> Option<int> {
    match decimal_value(s) {
        Some(n) => if i64::MIN <= n <= i64::MAX {
            Some(n)
        } else {
            None
        },
        None => None,
    }
}

/// Relies on `i64::from_str_radix` with radix 10: it accepts an optional `+`
/// or `-` followed by one or more ASCII digits, and fails on anything else
/// and on values out of the range of `i64`.
#[verifier::external_body]
fn parse_i64(text: &str) -> (r: Option<i64>)
    ensures
        match r {
            Some(n) => decimal_i64(text@) == Some(n as int),
            None => decimal_i64(text@) is None,
        },
{
    i64::from_str_radix(text, 10).ok()
}

/// Relies on `String::from_utf8`: it succeeds exactly on valid UTF-8, with
/// the characters that the bytes encode.
#[verifier::external_body]
fn utf8_string(bytes: Vec<u8>) -> (r: Option<String>)
    ensures
        r is Some <==> valid_utf8(bytes@),
        r matches Some(s) ==> s@ == decode_utf8(bytes@),
{
    String::from_utf8(bytes).ok()
}

// ---------------------------------------------------------------------------
// The parser, in mathematical terms. Each function maps the unconsumed bytes
// to a result and the bytes still unconsumed afterwards.

/// A CRLF-terminated UTF-8 string (the tag already consumed).
pub open spec fn spec_string(s: Seq<u8>) -> (Result<Seq<char>, ParseError>, Seq<u8>) {
    match first_crlf(s) {
        None => (Err(ParseError::MissingTerminator), s),
        Some(p) => if valid_utf8(s.take(p)) {
            (Ok(decode_utf8(s.take(p))), s.skip(p + 2))
        } else {
            (Err(ParseError::Encoding), s.skip(p))
        },
    }
}

/// A CRLF-terminated base-10 `i64`.
pub open spec fn spec_number(s: Seq<u8>) -> (Result<int, ParseError>, Seq<u8>) {
    let (r, rest) = spec_string(s);
    match r {
        Err(e) => (Err(e), rest),
        Ok(text) => match decimal_i64(text) {
            Some(n) => (Ok(n), rest),
            None => (Err(ParseError::InvalidInteger), rest),
        },
    }
}

/// A bulk string: its size line, that many bytes, then anything up to and
/// including the next terminator.
pub open spec fn spec_bulk(s: Seq<u8>) -> (Result<ValueModel, ParseError>, Seq<u8>) {
    let (r, rest) = spec_number(s);
    match r {
        Err(e) => (Err(e), rest),
        Ok(size) => if size > rest.len() - 2 {
            (Err(ParseError::BulkOverrun { declared: size as i64, available: rest.len() as usize }), rest)
        } else if size < 0 {
            (Err(ParseError::OutOfBounds), rest)
        } else {
            let after = rest.skip(size);
            match first_crlf(after) {
                None => (Err(ParseError::MissingTerminator), after),
                Some(p) => (Ok(ValueModel::Bulk { size, data: rest.take(size) }), after.skip(p + 2)),
            }
        },
    }
}

/// One value, with `fuel` further levels of array nesting allowed.
pub open spec fn spec_value(s: Seq<u8>, fuel: nat) -> (Result<ValueModel, ParseError>, Seq<u8>)
    decreases fuel, 0int, 0int,
{
    if s.len() == 0 {
        (Err(ParseError::EmptyInput), s)
    } else {
        let body = s.skip(1);
        if s[0] == TAG_STRING {
            let (r, rest) = spec_string(body);
            match r {
                Ok(text) => (Ok(ValueModel::String(text)), rest),
                Err(e) => (Err(e), rest),
            }
        } else if s[0] == TAG_ARRAY {
            if fuel == 0 {
                (Err(ParseError::NestingTooDeep), body)
            } else {
                spec_array((fuel - 1) as nat, body)
            }
        } else if s[0] == TAG_NUMBER {
            let (r, rest) = spec_number(body);
            match r {
                Ok(n) => (Ok(ValueModel::Number(n)), rest),
                Err(e) => (Err(e), rest),
            }
        } else if s[0] == TAG_BULK {
            spec_bulk(body)
        } else {
            (Err(ParseError::UnknownType(s[0])), body)
        }
    }
}

/// An array (the tag already consumed): its length line, then that many
/// values, each allowed `fuel` levels of nesting.
pub open spec fn spec_array(fuel: nat, s: Seq<u8>) -> (Result<ValueModel, ParseError>, Seq<u8>)
    decreases fuel, 2int, 0int,
{
    let (r, rest) = spec_number(s);
    match r {
        Err(e) => (Err(e), rest),
        Ok(len) => {
            let (er, rest2) = spec_elements(fuel, rest, len, Seq::empty());
            match er {
                Ok(elements) => (Ok(ValueModel::Array { len, elements }), rest2),
                Err(e) => (Err(e), rest2),
            }
        },
    }
}

/// `count` more values appended to `acc`; the first failure ends the run.
pub open spec fn spec_elements(fuel: nat, s: Seq<u8>, count: int, acc: Seq<ValueModel>) -> (
    Result<Seq<ValueModel>, ParseError>,
    Seq<u8>,
)
    decreases fuel, 1int, count,
{
    if count <= 0 {
        (Ok(acc), s)
    } else {
        let (r, rest) = spec_value(s, fuel);
        match r {
            Err(e) => (Err(e), rest),
            Ok(v) => spec_elements(fuel, rest, count - 1, acc.push(v)),
        }
    }
}

/// What parsing `s` yields: one value (or the failure) and the bytes left.
pub open spec fn spec_parse(s: Seq<u8>) -> (Result<ValueModel, ParseError>, Seq<u8>) {
    spec_value(s, MAX_NESTING as nat)
}

// ---------------------------------------------------------------------------
// Facts about the terminator search

pub proof fn lemma_crlf_search(s: Seq<u8>, from: int)
    requires
        0 <= from,
    ensures
        match crlf_search(s, from) {
            Some(p) => from <= p && crlf_at(s, p) && forall|j: int| from <= j < p ==> !crlf_at(s, j),
            None => forall|j: int| from <= j ==> !crlf_at(s, j),
        },
    decreases s.len() - from,
{
    if from + 1 < s.len() && !crlf_at(s, from) {
        lemma_crlf_search(s, from + 1);
    }
}

// ---------------------------------------------------------------------------
// The parser

/// Reads a CRLF-terminated UTF-8 string, consuming it and its terminator.
fn parse_string(buf: &mut Bytes) -> (r: Result<String, ParseError>)
    ensures
        spec_string(byte_seq(*old(buf))) == (
            match r {
                Ok(s) => Ok(s@),
                Err(e) => Err(e),
            },
            byte_seq(*final(buf)),
        ),
{
    let ghost s0 = byte_seq(*buf);
    match find_crlf(buf) {
        None => Err(ParseError::MissingTerminator),
        Some(pos) => {
            proof {
                lemma_crlf_search(s0, 0);
            }
            let payload = match take_prefix(buf, pos) {
                Ok(p) => p,
                Err(e) => return Err(e),
            };
            let bytes = vstd::slice::slice_to_vec(payload.deref());
            match utf8_string(bytes) {
                None => Err(ParseError::Encoding),
                Some(text) => {
                    match drop_prefix(buf, 2) {
                        Ok(()) => {},
                        Err(e) => return Err(e),
                    }
                    assert(byte_seq(*buf) =~= s0.skip(pos + 2));
                    Ok(text)
                },
            }
        },
    }
}

/// Reads a CRLF-terminated base-10 `i64`.
fn parse_number(buf: &mut Bytes) -> (r: Result<i64, ParseError>)
    ensures
        spec_number(byte_seq(*old(buf))) == (
            match r {
                Ok(n) => Ok(n as int),
                Err(e) => Err(e),
            },
            byte_seq(*final(buf)),
        ),
{
    let text = match parse_string(buf) {
        Ok(t) => t,
        Err(e) => return Err(e),
    };
    match parse_i64(text.as_str()) {
        Some(n) => Ok(n),
        None => Err(ParseError::InvalidInteger),
    }
}


/// Reads a bulk string body: its size line, then exactly that many bytes as
/// data, then anything up to and including the next terminator.
fn parse_bulk_string(buf: &mut Bytes) -> (r: Result<Value, ParseError>)
    ensures
        spec_bulk(byte_seq(*old(buf))) == (result_model(r), byte_seq(*final(buf))),
{
    let size = match parse_number(buf) {
        Ok(n) => n,
        Err(e) => return Err(e),
    };
    let ghost rest = byte_seq(*buf);
    let remaining = buf.len();
    if (size as i128) > (remaining as i128) - 2 {
        return Err(ParseError::BulkOverrun { declared: size, available: remaining });
    }
    if size < 0 {
        return Err(ParseError::OutOfBounds);
    }
    let data = match take_prefix(buf, size as usize) {
        Ok(d) => d,
        Err(e) => return Err(e),
    };
    let ghost after = byte_seq(*buf);
    assert(after =~= rest.skip(size as int));
    match find_crlf(buf) {
        None => Err(ParseError::MissingTerminator),
        Some(pos) => {
            proof {
                lemma_crlf_search(after, 0);
            }
            match drop_prefix(buf, pos + 2) {
                Ok(()) => {},
                Err(e) => return Err(e),
            }
            assert(byte_seq(*buf) =~= after.skip(pos + 2));
            assert(byte_seq(data) =~= rest.take(size as int));
            Ok(Value::Bulk { size, data })
        },
    }
}

/// Reads an array body: its length line, then that many values, each with
/// `fuel` levels of nesting allowed. The first failing element ends it.
fn parse_array(buf: &mut Bytes, fuel: usize) -> (r: Result<Value, ParseError>)
    ensures
        spec_array(fuel as nat, byte_seq(*old(buf))) == (result_model(r), byte_seq(*final(buf))),
    decreases fuel, 1int,
{
    let len = match parse_number(buf) {
        Ok(n) => n,
        Err(e) => return Err(e),
    };
    let ghost start = byte_seq(*buf);
    let mut elements: Vec<Value> = Vec::new();
    let mut i: i64 = 0;
    while i < len
        invariant
            spec_number(byte_seq(*old(buf))) == (Ok::<int, ParseError>(len as int), start),
            0 <= i,
            i <= len || len < 0,
            spec_elements(fuel as nat, byte_seq(*buf), len - i, models_of(elements@))
                == spec_elements(fuel as nat, start, len as int, Seq::empty()),
        decreases len - i,
    {
        let ghost before = byte_seq(*buf);
        let v = match parse_value(buf, fuel) {
            Ok(v) => v,
            Err(e) => {
                assert(spec_elements(fuel as nat, before, len - i, models_of(elements@)) == (
                    Err::<Seq<ValueModel>, ParseError>(e),
                    byte_seq(*buf),
                ));
                return Err(e);
            },
        };
        proof {
            assert(elements@.push(v).drop_last() =~= elements@);
        }
        elements.push(v);
        i = i + 1;
    }
    assert(models_of(Seq::<Value>::empty()) =~= Seq::<ValueModel>::empty());
    Ok(Value::Array { len, elements })
}

/// Reads one value, with `fuel` further levels of array nesting allowed.
fn parse_value(buf: &mut Bytes, fuel: usize) -> (r: Result<Value, ParseError>)
    ensures
        spec_value(byte_seq(*old(buf)), fuel as nat) == (result_model(r), byte_seq(*final(buf))),
    decreases fuel, 0int,
{
    let ghost s0 = byte_seq(*buf);
    if buf.len() == 0 {
        return Err(ParseError::EmptyInput);
    }
    let head = match take_prefix(buf, 1) {
        Ok(h) => h,
        Err(e) => return Err(e),
    };
    let tag: u8 = head.deref()[0];
    assert(byte_seq(*buf) =~= s0.skip(1));
    if tag == TAG_STRING {
        match parse_string(buf) {
            Ok(text) => Ok(Value::String(text)),
            Err(e) => Err(e),
        }
    } else if tag == TAG_ARRAY {
        if fuel == 0 {
            Err(ParseError::NestingTooDeep)
        } else {
            parse_array(buf, fuel - 1)
        }
    } else if tag == TAG_NUMBER {
        match parse_number(buf) {
            Ok(n) => Ok(Value::Number(n)),
            Err(e) => Err(e),
        }
    } else if tag == TAG_BULK {
        parse_bulk_string(buf)
    } else {
        Err(ParseError::UnknownType(tag))
    }
}

/// Parses one value from the front of `buf`.
///
/// On success the value comes back with the bytes that follow it, which are
/// moved out of `buf` (left empty). On failure `buf` holds the bytes not yet
/// consumed when the failure was found; nothing already parsed is kept.
pub fn parse_resp(buf: &mut Bytes) -> (r: Result<(Value, Bytes), ParseError>)
    ensures
        match r {
            Ok((v, rest)) => {
                &&& spec_parse(byte_seq(*old(buf))) == (Ok::<ValueModel, ParseError>(v@), byte_seq(rest))
                &&& byte_seq(*final(buf)) == Seq::<u8>::empty()
            },
            Err(e) => spec_parse(byte_seq(*old(buf))) == (Err::<ValueModel, ParseError>(e), byte_seq(*final(buf))),
        },
{
    let v = match parse_value(buf, MAX_NESTING) {
        Ok(v) => v,
        Err(e) => return Err(e),
    };
    let rest = buf.split_off(0);
    Ok((v, rest))
}

} // verus!
