//! Facts about the parser and the encoder, proved once for all inputs.

use vstd::prelude::*;
use vstd::utf8::*;
use crate::cursor::{crlf_at, crlf_search, first_crlf};
use crate::encode::{ascii_bytes, crlf, digit_char, encode, encode_all, int_digits, nat_digits};
use crate::error::ParseError;
use crate::resp::{
    all_digits, decimal_value, digits_value, is_digit, lemma_crlf_search, spec_array,
    spec_bulk, spec_elements, spec_number, spec_parse, spec_string, spec_value, ValueModel,
    MAX_NESTING, TAG_ARRAY, TAG_BULK, TAG_NUMBER, TAG_STRING,
};

verus! {

/// The declared sizes in `v` agree with what it holds: a bulk string holds
/// exactly `size` bytes, an array with `len >= 0` holds exactly `len`
/// elements (and one with `len < 0` none), at every depth.
pub open spec fn consistent(v: ValueModel) -> bool
    decreases v,
{
    match v {
        ValueModel::Bulk { size, data } => data.len() == size,
        ValueModel::Array { len, elements } => elements.len() == (if len < 0 {
            0
        } else {
            len
        }) && all_consistent(elements),
        _ => true,
    }
}

/// Every value in `vs` is consistent.
pub open spec fn all_consistent(vs: Seq<ValueModel>) -> bool
    decreases vs,
{
    vs.len() == 0 || (consistent(vs.last()) && all_consistent(vs.drop_last()))
}

/// `t` is a tail of `s`.
pub open spec fn is_suffix(t: Seq<u8>, s: Seq<u8>) -> bool {
    t.len() <= s.len() && t == s.skip(s.len() - t.len())
}

/// What holds of every parse outcome: the bytes left are a tail of the
/// input, and a success consumed at least one byte and is consistent.
pub open spec fn sound_outcome(r: Result<ValueModel, ParseError>, rest: Seq<u8>, s: Seq<u8>) -> bool {
    &&& is_suffix(rest, s)
    &&& r matches Ok(v) ==> rest.len() < s.len() && consistent(v)
}

proof fn lemma_suffix_trans(a: Seq<u8>, b: Seq<u8>, c: Seq<u8>)
    requires
        is_suffix(a, b),
        is_suffix(b, c),
    ensures
        is_suffix(a, c),
{
    assert(a =~= c.skip(c.len() - a.len()));
}

proof fn lemma_skip_is_suffix(s: Seq<u8>, k: int)
    requires
        0 <= k <= s.len(),
    ensures
        is_suffix(s.skip(k), s),
{
    assert(s.skip(k) =~= s.skip(s.len() - s.skip(k).len()));
}

proof fn lemma_suffix_refl(s: Seq<u8>)
    ensures
        is_suffix(s, s),
{
    assert(s =~= s.skip(0));
}

proof fn lemma_string_suffix(s: Seq<u8>)
    ensures
        is_suffix(spec_string(s).1, s),
        spec_number(s).1 == spec_string(s).1,
        spec_number(s).0 is Ok ==> spec_string(s).1.len() < s.len(),
{
    lemma_crlf_search(s, 0);
    if let Some(p) = first_crlf(s) {
        lemma_skip_is_suffix(s, p);
        lemma_skip_is_suffix(s, p + 2);
    } else {
        lemma_suffix_refl(s);
    }
}

proof fn lemma_bulk_sound(s: Seq<u8>)
    ensures
        sound_outcome(spec_bulk(s).0, spec_bulk(s).1, s),
{
    lemma_string_suffix(s);
    let (n, rest) = spec_number(s);
    if let Ok(size) = n {
        if size <= rest.len() - 2 && size >= 0 {
            let after = rest.skip(size);
            lemma_crlf_search(after, 0);
            lemma_skip_is_suffix(rest, size);
            lemma_suffix_refl(after);
            if let Some(p) = first_crlf(after) {
                lemma_skip_is_suffix(after, p + 2);
            }
            lemma_suffix_trans(spec_bulk(s).1, after, rest);
        }
    }
    lemma_suffix_refl(rest);
    lemma_suffix_trans(spec_bulk(s).1, rest, s);
}

proof fn lemma_value_sound(s: Seq<u8>, fuel: nat)
    ensures
        sound_outcome(spec_value(s, fuel).0, spec_value(s, fuel).1, s),
    decreases fuel, 0int, 0int,
{
    lemma_suffix_refl(s);
    if s.len() > 0 {
        let body = s.skip(1);
        let out = spec_value(s, fuel);
        lemma_skip_is_suffix(s, 1);
        lemma_suffix_refl(body);
        if s[0] == TAG_STRING || s[0] == TAG_NUMBER {
            lemma_string_suffix(body);
        } else if s[0] == TAG_ARRAY {
            if fuel > 0 {
                lemma_array_sound((fuel - 1) as nat, body);
            }
        } else if s[0] == TAG_BULK {
            lemma_bulk_sound(body);
        }
        assert(is_suffix(out.1, body));
        lemma_suffix_trans(out.1, body, s);
    }
}

proof fn lemma_array_sound(fuel: nat, s: Seq<u8>)
    ensures
        sound_outcome(spec_array(fuel, s).0, spec_array(fuel, s).1, s),
    decreases fuel, 2int, 0int,
{
    lemma_string_suffix(s);
    let (n, rest) = spec_number(s);
    if let Ok(len) = n {
        assert(all_consistent(Seq::<ValueModel>::empty()));
        lemma_elements_sound(fuel, rest, len, Seq::empty());
        lemma_suffix_trans(spec_array(fuel, s).1, rest, s);
    }
}

proof fn lemma_elements_sound(fuel: nat, s: Seq<u8>, count: int, acc: Seq<ValueModel>)
    requires
        all_consistent(acc),
    ensures
        is_suffix(spec_elements(fuel, s, count, acc).1, s),
        spec_elements(fuel, s, count, acc).0 matches Ok(es) ==> all_consistent(es) && es.len() == acc.len()
            + (if count < 0 {
            0
        } else {
            count
        }),
    decreases fuel, 1int, count,
{
    if count > 0 {
        lemma_value_sound(s, fuel);
        let (r, rest) = spec_value(s, fuel);
        if let Ok(v) = r {
            assert(acc.push(v).drop_last() =~= acc);
            lemma_elements_sound(fuel, rest, count - 1, acc.push(v));
            lemma_suffix_trans(spec_elements(fuel, s, count, acc).1, rest, s);
        }
    } else {
        lemma_suffix_refl(s);
    }
}

/// Whatever parsing yields, the bytes it leaves are the input's tail, so a
/// parse of the leftover starts after every byte already consumed; and a
/// success consumes at least one byte.
pub proof fn lemma_leftover_is_tail(s: Seq<u8>)
    ensures
        is_suffix(spec_parse(s).1, s),
        spec_parse(s).0 is Ok ==> spec_parse(s).1.len() < s.len(),
{
    lemma_value_sound(s, MAX_NESTING as nat);
}

/// A parsed bulk string holds exactly as many bytes as it declares, and a
/// parsed array with a declared length of zero or more holds exactly that
/// many elements, at every depth of nesting.
pub proof fn lemma_parsed_sizes_match(s: Seq<u8>)
    ensures
        spec_parse(s).0 matches Ok(v) ==> consistent(v),
{
    lemma_value_sound(s, MAX_NESTING as nat);
}

// ---------------------------------------------------------------------------
// Encoding, then parsing

/// No terminator `\r\n` occurs in `b`.
pub open spec fn no_crlf(b: Seq<u8>) -> bool {
    forall|j: int| !crlf_at(b, j)
}

/// No `'\r'` is directly followed by `'\n'` in `t`.
pub open spec fn no_crlf_chars(t: Seq<char>) -> bool {
    forall|i: int| 0 <= i < t.len() - 1 ==> !(t[i] == '\r' && #[trigger] t[i + 1] == '\n')
}

/// `v` can be written and read back: its strings hold no `\r\n`, its
/// declared sizes are those of what it holds and fit an `i64`, it holds no
/// error value (the parser has no tag for them), and its arrays nest at most
/// `fuel` deep.
pub open spec fn encodable(v: ValueModel, fuel: nat) -> bool
    decreases v,
{
    match v {
        ValueModel::String(s) => no_crlf_chars(s),
        ValueModel::Number(n) => i64::MIN <= n <= i64::MAX,
        ValueModel::Bulk { size, data } => size == data.len() && size <= i64::MAX,
        ValueModel::Error(_) => false,
        ValueModel::Array { len, elements } => fuel > 0 && len == elements.len() && len <= i64::MAX
            && all_encodable(elements, (fuel - 1) as nat),
    }
}

/// Every value in `vs` is encodable with `fuel` levels of nesting.
pub open spec fn all_encodable(vs: Seq<ValueModel>, fuel: nat) -> bool
    decreases vs,
{
    vs.len() == 0 || (encodable(vs[0], fuel) && all_encodable(vs.drop_first(), fuel))
}

proof fn lemma_crlf_search_skip(s: Seq<u8>, from: int, to: int)
    requires
        0 <= from <= to,
        to + 1 < s.len(),
        forall|j: int| from <= j < to ==> !crlf_at(s, j),
    ensures
        crlf_search(s, from) == crlf_search(s, to),
    decreases to - from,
{
    if from < to {
        lemma_crlf_search_skip(s, from + 1, to);
    }
}

/// In `b + "\r\n" + rest`, where `b` holds no terminator, the first one is
/// the one after `b`.
proof fn lemma_first_crlf_line(b: Seq<u8>, rest: Seq<u8>)
    requires
        no_crlf(b),
    ensures
        first_crlf(b + crlf() + rest) == Some(b.len() as int),
{
    let s = b + crlf() + rest;
    assert forall|j: int| 0 <= j < b.len() implies !crlf_at(s, j) by {
        if j < b.len() - 1 {
            assert(!crlf_at(b, j));
        } else {
            assert(s[j + 1] == 13u8);
        }
    }
    lemma_crlf_search_skip(s, 0, b.len() as int);
    assert(crlf_at(s, b.len() as int));
}

proof fn lemma_scalar_bytes(c: char)
    ensures
        encode_scalar(c as u32).len() >= 1,
        encode_scalar(c as u32).len() == 1 ==> encode_scalar(c as u32)[0] as u32 == c as u32,
        encode_scalar(c as u32).len() > 1 ==> forall|i: int|
            0 <= i < encode_scalar(c as u32).len() ==> #[trigger] encode_scalar(c as u32)[i] >= 0x80,
{
    let u = c as u32;
    if has_width_1_encoding(u) {
        assert(((u & 0x7F) as u8) as u32 == u) by (bit_vector)
            requires
                u <= 0x7F,
        ;
    } else {
        assert(0x80 | (u & 0x3F) as u8 >= 0x80) by (bit_vector);
        assert(0x80 | ((u >> 6) & 0x3F) as u8 >= 0x80) by (bit_vector);
        assert(0x80 | ((u >> 12) & 0x3F) as u8 >= 0x80) by (bit_vector);
        assert(0xC0 | ((u >> 6) & 0x1F) as u8 >= 0x80) by (bit_vector);
        assert(0xE0 | ((u >> 12) & 0x0F) as u8 >= 0x80) by (bit_vector);
        assert(0xF0 | ((u >> 18) & 0x7) as u8 >= 0x80) by (bit_vector);
    }
}

/// The UTF-8 form of text with no `"\r\n"` holds no terminator: bytes 13 and
/// 10 occur in it only as the characters `'\r'` and `'\n'`.
proof fn lemma_utf8_no_crlf(t: Seq<char>)
    requires
        no_crlf_chars(t),
    ensures
        no_crlf(encode_utf8(t)),
    decreases t.len(),
{
    if t.len() > 0 {
        let rest = t.drop_first();
        assert forall|i: int| 0 <= i < rest.len() - 1 implies !(rest[i] == '\r' && #[trigger] rest[i + 1] == '\n') by {
            assert(t[i + 1 + 1] == rest[i + 1]);
        }
        lemma_utf8_no_crlf(rest);
        let e = encode_scalar(t[0] as u32);
        let r = encode_utf8(rest);
        lemma_scalar_bytes(t[0]);
        assert forall|j: int| !crlf_at(e + r, j) by {
            if crlf_at(e + r, j) {
                if j >= e.len() {
                    assert(crlf_at(r, j - e.len()));
                } else if j < e.len() - 1 {
                    assert(e[j] >= 0x80);
                } else if e.len() > 1 {
                    assert(e[j] >= 0x80);
                } else {
                    char_u32_cast(t[0], 13u32);
                    char_u32_cast('\r', 13u32);
                    assert(t[0] == '\r');
                    assert(rest.len() > 0);
                    lemma_scalar_bytes(rest[0]);
                    let e2 = encode_scalar(rest[0] as u32);
                    assert(r == e2 + encode_utf8(rest.drop_first()));
                    assert(e2[0] == 10u8);
                    char_u32_cast(rest[0], 10u32);
                    char_u32_cast('\n', 10u32);
                    assert(rest[0] == '\n');
                    assert(t[1] == '\n');
                }
            }
        }
    }
}

/// A line of text without `"\r\n"` reads back as that text.
proof fn lemma_string_line(t: Seq<char>, rest: Seq<u8>)
    requires
        no_crlf_chars(t),
    ensures
        spec_string(encode_utf8(t) + crlf() + rest) == (Ok::<Seq<char>, ParseError>(t), rest),
{
    let b = encode_utf8(t);
    let s = b + crlf() + rest;
    lemma_utf8_no_crlf(t);
    lemma_first_crlf_line(b, rest);
    assert(s.take(b.len() as int) =~= b);
    assert(s.skip(b.len() as int + 2) =~= rest);
    encode_utf8_valid_utf8(t);
    encode_utf8_decode_utf8(t);
}

proof fn lemma_nat_digits(m: nat)
    ensures
        all_digits(nat_digits(m)),
        digits_value(nat_digits(m)) == m,
    decreases m,
{
    let d = digit_char((m % 10) as int);
    assert(d as int - '0' as int == m % 10);
    if m >= 10 {
        lemma_nat_digits(m / 10);
        let s = nat_digits(m / 10);
        assert(nat_digits(m).drop_last() =~= s);
        assert(nat_digits(m).last() == d);
        assert(10 * (m / 10) + m % 10 == m);
    } else {
        assert(nat_digits(m).drop_last() =~= Seq::<char>::empty());
        assert(digits_value(Seq::<char>::empty()) == 0);
        assert(nat_digits(m).last() == d);
    }
}

/// The decimal text of `n`: its characters are ASCII, it holds no `'\r'`,
/// its bytes are its UTF-8 form, and it reads back as `n`.
proof fn lemma_int_digits(n: int)
    ensures
        is_ascii_chars(int_digits(n)),
        no_crlf_chars(int_digits(n)),
        encode_utf8(int_digits(n)) == ascii_bytes(int_digits(n)),
        decimal_value(int_digits(n)) == Some(n),
{
    let t = int_digits(n);
    if n < 0 {
        lemma_nat_digits((-n) as nat);
        assert(t.drop_first() =~= nat_digits((-n) as nat));
    } else {
        lemma_nat_digits(n as nat);
    }
    assert forall|i: int| 0 <= i < t.len() implies t[i] == '-' || is_digit(#[trigger] t[i]) by {
        if n < 0 && i > 0 {
            assert(t[i] == t.drop_first()[i - 1]);
        }
    }
    is_ascii_chars_encode_utf8(t);
    assert(encode_utf8(t) =~= ascii_bytes(t));
}

/// A number line reads back as its number.
proof fn lemma_number_line(n: int, rest: Seq<u8>)
    requires
        i64::MIN <= n <= i64::MAX,
    ensures
        spec_number(ascii_bytes(int_digits(n)) + crlf() + rest) == (Ok::<int, ParseError>(n), rest),
{
    lemma_int_digits(n);
    lemma_string_line(int_digits(n), rest);
}

/// An encodable value reads back from its wire form, leaving what follows.
pub proof fn lemma_value_round_trip(v: ValueModel, fuel: nat, rest: Seq<u8>)
    requires
        encodable(v, fuel),
    ensures
        spec_value(encode(v) + rest, fuel) == (Ok::<ValueModel, ParseError>(v), rest),
    decreases v,
{
    let s = encode(v) + rest;
    match v {
        ValueModel::String(t) => {
            assert(s.skip(1) =~= encode_utf8(t) + crlf() + rest);
            lemma_string_line(t, rest);
        },
        ValueModel::Number(n) => {
            assert(s.skip(1) =~= ascii_bytes(int_digits(n)) + crlf() + rest);
            lemma_number_line(n, rest);
        },
        ValueModel::Bulk { size, data } => {
            let after = data + crlf() + rest;
            assert(s.skip(1) =~= ascii_bytes(int_digits(size)) + crlf() + after);
            lemma_number_line(size, after);
            assert(after.take(size) =~= data);
            assert(after.skip(size) =~= Seq::<u8>::empty() + crlf() + rest);
            lemma_first_crlf_line(Seq::<u8>::empty(), rest);
            assert((Seq::<u8>::empty() + crlf() + rest).skip(2) =~= rest);
        },
        ValueModel::Error(_) => {},
        ValueModel::Array { len, elements } => {
            let after = encode_all(elements) + rest;
            assert(s.skip(1) =~= ascii_bytes(int_digits(len)) + crlf() + after);
            lemma_number_line(len, after);
            lemma_elements_round_trip(elements, (fuel - 1) as nat, rest, len, Seq::empty());
            assert(Seq::<ValueModel>::empty() + elements =~= elements);
        },
    }
}

/// Encodable values written one after the other read back one by one.
pub proof fn lemma_elements_round_trip(
    vs: Seq<ValueModel>,
    fuel: nat,
    rest: Seq<u8>,
    count: int,
    acc: Seq<ValueModel>,
)
    requires
        all_encodable(vs, fuel),
        count >= vs.len(),
    ensures
        spec_elements(fuel, encode_all(vs) + rest, count, acc) == spec_elements(
            fuel,
            rest,
            count - vs.len(),
            acc + vs,
        ),
    decreases vs,
{
    if vs.len() == 0 {
        assert(encode_all(vs) + rest =~= rest);
        assert(acc + vs =~= acc);
    } else {
        let tail = encode_all(vs.drop_first()) + rest;
        assert(encode_all(vs) + rest =~= encode(vs[0]) + tail);
        lemma_value_round_trip(vs[0], fuel, tail);
        lemma_elements_round_trip(vs.drop_first(), fuel, rest, count - 1, acc.push(vs[0]));
        assert(acc.push(vs[0]) + vs.drop_first() =~= acc + vs);
    }
}

/// Writing an encodable value and parsing the bytes gives the value back,
/// with nothing left over.
pub proof fn lemma_round_trip(v: ValueModel)
    requires
        encodable(v, MAX_NESTING as nat),
    ensures
        spec_parse(encode(v)) == (Ok::<ValueModel, ParseError>(v), Seq::<u8>::empty()),
{
    lemma_value_round_trip(v, MAX_NESTING as nat, Seq::empty());
    assert(encode(v) + Seq::<u8>::empty() =~= encode(v));
}

/// A bulk string's data is exactly the first `size` bytes after its size
/// line: bytes between them and the terminator are passed over.
pub proof fn lemma_bulk_ignores_filler(data: Seq<u8>, filler: Seq<u8>, rest: Seq<u8>)
    requires
        data.len() <= i64::MAX,
        no_crlf(filler),
    ensures
        spec_parse(
            seq![TAG_BULK] + ascii_bytes(int_digits(data.len() as int)) + crlf() + data + filler + crlf()
                + rest,
        ) == (Ok::<ValueModel, ParseError>(ValueModel::Bulk { size: data.len() as int, data }), rest),
{
    let size = data.len() as int;
    let s = seq![TAG_BULK] + ascii_bytes(int_digits(size)) + crlf() + data + filler + crlf() + rest;
    let after = data + filler + crlf() + rest;
    assert(s.skip(1) =~= ascii_bytes(int_digits(size)) + crlf() + after);
    lemma_number_line(size, after);
    assert(after.take(size) =~= data);
    assert(after.skip(size) =~= filler + crlf() + rest);
    lemma_first_crlf_line(filler, rest);
    assert((filler + crlf() + rest).skip(filler.len() as int + 2) =~= rest);
}

/// An array that declares more elements than follow it fails as its first
/// missing element does: with `EmptyInput`, every byte consumed.
pub proof fn lemma_short_array_fails(len: int, vs: Seq<ValueModel>)
    requires
        vs.len() < len <= i64::MAX,
        all_encodable(vs, (MAX_NESTING - 1) as nat),
    ensures
        spec_parse(seq![TAG_ARRAY] + ascii_bytes(int_digits(len)) + crlf() + encode_all(vs)) == (
            Err::<ValueModel, ParseError>(ParseError::EmptyInput),
            Seq::<u8>::empty(),
        ),
{
    let s = seq![TAG_ARRAY] + ascii_bytes(int_digits(len)) + crlf() + encode_all(vs);
    let after = encode_all(vs) + Seq::<u8>::empty();
    assert(s.skip(1) =~= ascii_bytes(int_digits(len)) + crlf() + after);
    lemma_number_line(len, after);
    let fuel = (MAX_NESTING - 1) as nat;
    let none = Seq::<u8>::empty();
    lemma_elements_round_trip(vs, fuel, none, len, Seq::<ValueModel>::empty());
    assert(spec_value(none, fuel) == (Err::<ValueModel, ParseError>(ParseError::EmptyInput), none));
    assert(spec_elements(fuel, none, len - vs.len(), Seq::<ValueModel>::empty() + vs) == (
        Err::<Seq<ValueModel>, ParseError>(ParseError::EmptyInput),
        none,
    ));
}

} // verus!
