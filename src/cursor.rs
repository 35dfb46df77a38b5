//! The byte cursor: the unconsumed remainder of a read buffer, held as a
//! `bytes::Bytes` so that taking a prefix never copies the rest.

use bytes::Bytes;
use std::ops::Deref;
use crate::error::ParseError;
use vstd::prelude::*;

verus! {

#[verifier::external_type_specification]
#[verifier::external_body]
pub struct ExBytes(Bytes);

/// The bytes that a `Bytes` value holds, in order.
pub uninterp spec fn byte_seq(b: Bytes) -> Seq<u8>;

/// Relies on `Bytes::len`: the number of bytes held.
pub assume_specification[ Bytes::len ](b: &Bytes) -> (r: usize)
    ensures
        r == byte_seq(*b).len(),
;

/// Relies on `Bytes::split_to`: afterwards `b` holds `[at, len)` and the
/// result holds `[0, at)`; it panics when `at > len`.
pub assume_specification[ Bytes::split_to ](b: &mut Bytes, at: usize) -> (r: Bytes)
    requires
        at <= byte_seq(*old(b)).len(),
    ensures
        byte_seq(r) == byte_seq(*old(b)).subrange(0, at as int),
        byte_seq(*final(b)) == byte_seq(*old(b)).subrange(at as int, byte_seq(*old(b)).len() as int),
;

/// Relies on `Bytes::split_off`: afterwards `b` holds `[0, at)` and the
/// result holds `[at, len)`; it panics when `at > len`.
pub assume_specification[ Bytes::split_off ](b: &mut Bytes, at: usize) -> (r: Bytes)
    requires
        at <= byte_seq(*old(b)).len(),
    ensures
        byte_seq(*final(b)) == byte_seq(*old(b)).subrange(0, at as int),
        byte_seq(r) == byte_seq(*old(b)).subrange(at as int, byte_seq(*old(b)).len() as int),
;

/// Relies on `Deref for Bytes`: a slice over exactly the bytes held.
pub assume_specification<'a>[ <Bytes as core::ops::Deref>::deref ](b: &'a Bytes) -> (r: &'a [u8])
    ensures
        r@ == byte_seq(*b),
;

/// Relies on `Bytes::new`: an empty `Bytes`.
pub assume_specification[ Bytes::new ]() -> (r: Bytes)
    ensures
        byte_seq(r) == Seq::<u8>::empty(),
;

/// Relies on `From<Vec<u8>> for Bytes`: it takes over the vector's bytes.
pub assume_specification[ <Bytes as core::convert::From<Vec<u8>>>::from ](v: Vec<u8>) -> (r: Bytes)
    ensures
        byte_seq(r) == v@,
;

/// The two bytes of the terminator `\r\n` start at index `i` of `s`.
pub open spec fn crlf_at(s: Seq<u8>, i: int) -> bool {
    0 <= i && i + 1 < s.len() && s[i] == 13u8 && s[i + 1] == 10u8
}

/// The first index at or after `from` where a terminator starts.
pub open spec fn crlf_search(s: Seq<u8>, from: int) -> Option<int>
    decreases s.len() - from,
{
    if from < 0 || from + 1 >= s.len() {
        None
    } else if crlf_at(s, from) {
        Some(from)
    } else {
        crlf_search(s, from + 1)
    }
}

/// The index of the first terminator in `s`, if there is one.
pub open spec fn first_crlf(s: Seq<u8>) -> Option<int> {
    crlf_search(s, 0)
}

/// Returns the index of the first `\r\n` in `buf`, without consuming anything.
pub fn find_crlf(buf: &Bytes) -> (r: Option<usize>)
    ensures
        match r {
            Some(i) => first_crlf(byte_seq(*buf)) == Some(i as int),
            None => first_crlf(byte_seq(*buf)) is None,
        },
{
    let s: &[u8] = buf.deref();
    let n = s.len();
    let mut i: usize = 0;
    while i < n && n - i > 1
        invariant
            s@ == byte_seq(*buf),
            n == s@.len(),
            i < n || n == 0,
            crlf_search(s@, 0) == crlf_search(s@, i as int),
        decreases n - i,
    {
        if s[i] == 13u8 && s[i + 1] == 10u8 {
            return Some(i);
        }
        i = i + 1;
    }
    None
}

} // verus!

verus! {

/// Removes the first `n` bytes of `buf` and returns them; fails with
/// `OutOfBounds`, leaving `buf` as it was, when `buf` holds fewer.
pub fn take_prefix(buf: &mut Bytes, n: usize) -> (r: Result<Bytes, ParseError>)
    ensures
        n <= byte_seq(*old(buf)).len() ==> {
            &&& r matches Ok(p)
            &&& byte_seq(p) == byte_seq(*old(buf)).subrange(0, n as int)
            &&& byte_seq(*final(buf)) == byte_seq(*old(buf)).subrange(n as int, byte_seq(*old(buf)).len() as int)
        },
        n > byte_seq(*old(buf)).len() ==> {
            &&& r == Err::<Bytes, ParseError>(ParseError::OutOfBounds)
            &&& byte_seq(*final(buf)) == byte_seq(*old(buf))
        },
{
    if n > buf.len() {
        return Err(ParseError::OutOfBounds);
    }
    Ok(buf.split_to(n))
}

/// Advances `buf` past its first `n` bytes; fails with `OutOfBounds`, leaving
/// `buf` as it was, when `buf` holds fewer.
pub fn drop_prefix(buf: &mut Bytes, n: usize) -> (r: Result<(), ParseError>)
    ensures
        n <= byte_seq(*old(buf)).len() ==> {
            &&& r is Ok
            &&& byte_seq(*final(buf)) == byte_seq(*old(buf)).subrange(n as int, byte_seq(*old(buf)).len() as int)
        },
        n > byte_seq(*old(buf)).len() ==> {
            &&& r == Err::<(), ParseError>(ParseError::OutOfBounds)
            &&& byte_seq(*final(buf)) == byte_seq(*old(buf))
        },
{
    if n > buf.len() {
        return Err(ParseError::OutOfBounds);
    }
    let _ = buf.split_to(n);
    Ok(())
}

} // verus!
