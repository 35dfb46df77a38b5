//! Writing values in the wire format.

use std::ops::Deref;
use vstd::prelude::*;
use vstd::utf8::encode_utf8;
use crate::resp::{
    lemma_models_of, models_of, Value, ValueModel, TAG_ARRAY, TAG_BULK, TAG_ERROR, TAG_NUMBER,
    TAG_STRING,
};

verus! {

/// The character of the decimal digit `d`.
pub open spec fn digit_char(d: int) -> char {
    ((48 + d) as u32) as char
}

/// The decimal digits of `n`, most significant first, without leading zeros.
pub open spec fn nat_digits(n: nat) -> Seq<char>
    decreases n,
{
    if n < 10 {
        seq![digit_char(n as int)]
    } else {
        nat_digits(n / 10).push(digit_char((n % 10) as int))
    }
}

/// `n` in base 10, with a `-` in front when it is negative.
pub open spec fn int_digits(n: int) -> Seq<char> {
    if n < 0 {
        seq!['-'] + nat_digits((-n) as nat)
    } else {
        nat_digits(n as nat)
    }
}

/// The bytes of ASCII characters.
pub open spec fn ascii_bytes(s: Seq<char>) -> Seq<u8> {
    s.map_values(|c: char| c as u8)
}

/// The terminator `\r\n`.
pub open spec fn crlf() -> Seq<u8> {
    seq![13u8, 10u8]
}

/// The wire form of a value.
pub open spec fn encode(v: ValueModel) -> Seq<u8>
    decreases v,
{
    match v {
        ValueModel::String(s) => seq![TAG_STRING] + encode_utf8(s) + crlf(),
        ValueModel::Error(s) => seq![TAG_ERROR] + encode_utf8(s) + crlf(),
        ValueModel::Number(n) => seq![TAG_NUMBER] + ascii_bytes(int_digits(n)) + crlf(),
        ValueModel::Bulk { size, data } => seq![TAG_BULK] + ascii_bytes(int_digits(size)) + crlf() + data
            + crlf(),
        ValueModel::Array { len, elements } => seq![TAG_ARRAY] + ascii_bytes(int_digits(len)) + crlf()
            + encode_all(elements),
    }
}

/// The wire forms of values, one after the other.
pub open spec fn encode_all(vs: Seq<ValueModel>) -> Seq<u8>
    decreases vs,
{
    if vs.len() == 0 {
        Seq::empty()
    } else {
        encode(vs[0]) + encode_all(vs.drop_first())
    }
}

pub proof fn lemma_encode_all_push(vs: Seq<ValueModel>, v: ValueModel)
    ensures
        encode_all(vs.push(v)) == encode_all(vs) + encode(v),
    decreases vs.len(),
{
    if vs.len() == 0 {
        assert(vs.push(v).drop_first() =~= Seq::<ValueModel>::empty());
        assert(encode_all(Seq::<ValueModel>::empty()) == Seq::<u8>::empty());
        assert(vs.push(v)[0] == v);
        assert(encode_all(vs.push(v)) =~= encode(v));
    } else {
        assert(vs.push(v).drop_first() =~= vs.drop_first().push(v));
        lemma_encode_all_push(vs.drop_first(), v);
        assert(encode_all(vs.push(v)) =~= encode_all(vs) + encode(v));
    }
}

/// Appends the decimal digits of `n`.
fn push_digits(out: &mut Vec<u8>, n: u64)
    ensures
        final(out)@ == old(out)@ + ascii_bytes(nat_digits(n as nat)),
    decreases n,
{
    if n >= 10 {
        push_digits(out, n / 10);
    }
    let ghost mid = out@;
    out.push(48u8 + (n % 10) as u8);
    proof {
        let d = digit_char((n % 10) as int);
        assert(d as u8 == 48 + n % 10);
        if n >= 10 {
            assert(ascii_bytes(nat_digits(n as nat)) =~= ascii_bytes(nat_digits((n / 10) as nat)).push(d as u8));
        } else {
            assert(ascii_bytes(nat_digits(n as nat)) =~= seq![d as u8]);
        }
        assert(out@ =~= old(out)@ + ascii_bytes(nat_digits(n as nat)));
    }
}

/// Appends `n` in base 10.
fn push_integer(out: &mut Vec<u8>, n: i64)
    ensures
        final(out)@ == old(out)@ + ascii_bytes(int_digits(n as int)),
{
    if n < 0 {
        out.push(45u8);
        let magnitude: u64 = (0i128 - n as i128) as u64;
        push_digits(out, magnitude);
        assert(ascii_bytes(int_digits(n as int)) =~= seq![45u8] + ascii_bytes(nat_digits(magnitude as nat)));
        assert(out@ =~= old(out)@ + ascii_bytes(int_digits(n as int)));
    } else {
        push_digits(out, n as u64);
    }
}

/// Appends the bytes of a slice.
fn push_bytes(out: &mut Vec<u8>, bytes: &[u8])
    ensures
        final(out)@ == old(out)@ + bytes@,
{
    let mut i: usize = 0;
    while i < bytes.len()
        invariant
            i <= bytes@.len(),
            out@ == old(out)@ + bytes@.take(i as int),
        decreases bytes@.len() - i,
    {
        out.push(bytes[i]);
        i = i + 1;
        assert(out@ =~= old(out)@ + bytes@.take(i as int));
    }
    assert(bytes@.take(i as int) =~= bytes@);
}

/// Appends a type tag, a line of text and its terminator.
fn push_line(out: &mut Vec<u8>, tag: u8, text: &String)
    ensures
        final(out)@ == old(out)@ + (seq![tag] + encode_utf8(text@) + crlf()),
{
    out.push(tag);
    push_bytes(out, text.as_str().as_bytes());
    out.push(13u8);
    out.push(10u8);
    assert(out@ =~= old(out)@ + (seq![tag] + encode_utf8(text@) + crlf()));
}

/// Appends the wire form of `v`.
#[verifier::loop_isolation(false)]
pub fn write_value(out: &mut Vec<u8>, v: &Value)
    ensures
        final(out)@ == old(out)@ + encode(v@),
    decreases v,
{
    match v {
        Value::String(s) => push_line(out, TAG_STRING, s),
        Value::Error(s) => push_line(out, TAG_ERROR, s),
        Value::Number(n) => {
            out.push(TAG_NUMBER);
            push_integer(out, *n);
            out.push(13u8);
            out.push(10u8);
            assert(out@ =~= old(out)@ + encode(v@));
        },
        Value::Bulk { size, data } => {
            out.push(TAG_BULK);
            push_integer(out, *size);
            out.push(13u8);
            out.push(10u8);
            push_bytes(out, data.deref());
            out.push(13u8);
            out.push(10u8);
            assert(out@ =~= old(out)@ + encode(v@));
        },
        Value::Array { len, elements } => {
            out.push(TAG_ARRAY);
            push_integer(out, *len);
            out.push(13u8);
            out.push(10u8);
            let ghost header = out@;
            proof {
                lemma_models_of(elements@);
            }
            let mut i: usize = 0;
            while i < elements.len()
                invariant
                    i <= elements@.len(),
                    models_of(elements@).len() == elements@.len(),
                    forall|j: int| 0 <= j < elements@.len() ==> #[trigger] models_of(elements@)[j] == elements@[j]@,
                    out@ == header + encode_all(models_of(elements@).take(i as int)),
                decreases elements@.len() - i,
            {
                proof {
                    broadcast use vstd::std_specs::vec::axiom_vec_index_decreases;
                }
                write_value(out, &elements[i]);
                proof {
                    let ms = models_of(elements@);
                    assert(ms.take(i + 1) =~= ms.take(i as int).push(ms[i as int]));
                    lemma_encode_all_push(ms.take(i as int), ms[i as int]);
                }
                i = i + 1;
            }
            assert(models_of(elements@).take(i as int) =~= models_of(elements@));
            assert(out@ =~= old(out)@ + encode(v@));
        },
    }
}

/// The wire form of `v`.
pub fn encode_value(v: &Value) -> (r: Vec<u8>)
    ensures
        r@ == encode(v@),
{
    let mut out: Vec<u8> = Vec::new();
    write_value(&mut out, v);
    assert(out@ =~= encode(v@));
    out
}

} // verus!
