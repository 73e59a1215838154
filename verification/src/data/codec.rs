//! Byte encoding of a single typed value.
//!
//! A value is written as its type tag followed by a payload that delimits
//! itself: nothing for null, one byte for a boolean, the eight big-endian
//! bytes of the sort key for an integer, a float or an entity reference, and
//! the escaped, terminated UTF-8 bytes for a text. Encoded values sort, byte
//! by byte, as the values do.
use crate::data::bytes::{
    be_bytes, be_value, lemma_be_bytes_of_value, lemma_be_bytes_order, lemma_be_value_of_bytes,
    lemma_lex_lt_common_prefix, lemma_lex_lt_same_length, lex_lt, push_be, read_be,
};
use crate::data::text::{
    encode_text, lemma_encoded_text_order, lemma_parse_encoded_text, lemma_parsed_text_is_encoded,
    parse_text, push_text, read_text,
};
use crate::data::value::{
    float_from_sort_key, float_of_sort_key, float_sort_key, int_from_sort_key, int_of_sort_key,
    int_sort_key, lemma_utf8_injective, sort_key_of_float, sort_key_of_int, type_tag, value_lt,
    DataValue, EntityId, ValueView, BOOL_TAG, EN_ID_TAG, FLOAT_TAG, INT_TAG, NULL_TAG, STR_TAG,
};
use vstd::prelude::*;
use vstd::utf8::{
    decode_utf8, decode_utf8_encode_utf8, encode_utf8, encode_utf8_decode_utf8,
    encode_utf8_valid_utf8, valid_utf8,
};

verus! {

/// The bytes that stand for the value `v`.
pub open spec fn encode_value(v: ValueView) -> Seq<u8> {
    match v {
        ValueView::Null => seq![NULL_TAG],
        ValueView::Bool(b) => seq![BOOL_TAG, if b { 1u8 } else { 0u8 }],
        ValueView::Int(i) => seq![INT_TAG] + be_bytes(int_sort_key(i)),
        ValueView::Float(bits) => seq![FLOAT_TAG] + be_bytes(float_sort_key(bits)),
        ValueView::Str(s) => seq![STR_TAG] + encode_text(encode_utf8(s)),
        ValueView::EnId(e) => seq![EN_ID_TAG] + be_bytes(e),
    }
}

/// The value encoded at the start of `s` and the number of bytes its encoding
/// takes, or `None` where `s` does not start with an encoded value.
pub open spec fn parse_value(s: Seq<u8>) -> Option<(ValueView, int)> {
    if s.len() == 0 {
        None
    } else if s[0] == NULL_TAG {
        Some((ValueView::Null, 1))
    } else if s[0] == BOOL_TAG {
        if s.len() >= 2 && s[1] <= 1 {
            Some((ValueView::Bool(s[1] == 1), 2))
        } else {
            None
        }
    } else if s[0] == INT_TAG {
        if s.len() >= 9 {
            Some((ValueView::Int(int_of_sort_key(be_value(s.skip(1)))), 9))
        } else {
            None
        }
    } else if s[0] == FLOAT_TAG {
        if s.len() >= 9 {
            Some((ValueView::Float(float_of_sort_key(be_value(s.skip(1)))), 9))
        } else {
            None
        }
    } else if s[0] == STR_TAG {
        match parse_text(s.skip(1)) {
            Some((t, n)) => if valid_utf8(t) {
                Some((ValueView::Str(decode_utf8(t)), n + 1))
            } else {
                None
            },
            None => None,
        }
    } else if s[0] == EN_ID_TAG {
        if s.len() >= 9 {
            Some((ValueView::EnId(be_value(s.skip(1))), 9))
        } else {
            None
        }
    } else {
        None
    }
}

/// The value that `s` encodes from its first to its last byte, if any.
pub open spec fn parse_whole_value(s: Seq<u8>) -> Option<ValueView> {
    match parse_value(s) {
        Some((v, n)) => if n == s.len() {
            Some(v)
        } else {
            None
        },
        None => None,
    }
}

/// An encoded value is read back as it was written, whatever follows it.
pub proof fn lemma_parse_encoded_value(v: ValueView, rest: Seq<u8>)
    ensures
        encode_value(v).len() >= 1,
        parse_value(encode_value(v) + rest) == Some((v, encode_value(v).len() as int)),
{
    let s = encode_value(v) + rest;
    match v {
        ValueView::Null => {
            assert(s[0] == NULL_TAG);
        },
        ValueView::Bool(b) => {
            assert(s[0] == BOOL_TAG);
            assert(s[1] == if b { 1u8 } else { 0u8 });
        },
        ValueView::Int(i) => {
            assert(s[0] == INT_TAG);
            assert(s.skip(1) =~= be_bytes(int_sort_key(i)) + rest);
            lemma_be_value_of_bytes(int_sort_key(i), rest);
        },
        ValueView::Float(bits) => {
            assert(s[0] == FLOAT_TAG);
            assert(s.skip(1) =~= be_bytes(float_sort_key(bits)) + rest);
            lemma_be_value_of_bytes(float_sort_key(bits), rest);
        },
        ValueView::Str(c) => {
            let u = encode_utf8(c);
            assert(s[0] == STR_TAG);
            assert(s.skip(1) =~= encode_text(u) + rest);
            lemma_parse_encoded_text(u, rest);
            encode_utf8_valid_utf8(c);
            encode_utf8_decode_utf8(c);
        },
        ValueView::EnId(e) => {
            assert(s[0] == EN_ID_TAG);
            assert(s.skip(1) =~= be_bytes(e) + rest);
            lemma_be_value_of_bytes(e, rest);
        },
    }
}

/// What was read as a value is the encoding of that value and nothing else:
/// no value has two encodings.
pub proof fn lemma_parsed_value_is_encoded(s: Seq<u8>)
    requires
        parse_value(s) is Some,
    ensures
        parse_value(s) matches Some((v, n)) && 1 <= n <= s.len() && s.subrange(0, n)
            == encode_value(v),
{
    let (v, n) = parse_value(s)->0;
    if s[0] == NULL_TAG {
        assert(s.subrange(0, 1) =~= seq![NULL_TAG]);
    } else if s[0] == BOOL_TAG {
        assert(s.subrange(0, 2) =~= encode_value(v));
    } else if s[0] == INT_TAG {
        lemma_be_bytes_of_value(s.skip(1));
        assert(s.subrange(0, 9) =~= seq![INT_TAG] + s.skip(1).subrange(0, 8));
        assert(int_sort_key(int_of_sort_key(be_value(s.skip(1)))) == be_value(s.skip(1)));
    } else if s[0] == FLOAT_TAG {
        lemma_be_bytes_of_value(s.skip(1));
        assert(s.subrange(0, 9) =~= seq![FLOAT_TAG] + s.skip(1).subrange(0, 8));
        assert(float_sort_key(float_of_sort_key(be_value(s.skip(1)))) == be_value(s.skip(1)));
    } else if s[0] == STR_TAG {
        lemma_parsed_text_is_encoded(s.skip(1));
        let (t, m) = parse_text(s.skip(1))->0;
        decode_utf8_encode_utf8(t);
        assert(s.subrange(0, m + 1) =~= seq![STR_TAG] + s.skip(1).subrange(0, m));
    } else {
        lemma_be_bytes_of_value(s.skip(1));
        assert(s.subrange(0, 9) =~= seq![EN_ID_TAG] + s.skip(1).subrange(0, 8));
    }
}

/// Encodings of two different values differ, and they sort as the values do,
/// whatever follows each of them.
pub proof fn lemma_encoded_value_order(a: ValueView, b: ValueView, r1: Seq<u8>, r2: Seq<u8>)
    requires
        a != b,
    ensures
        encode_value(a) + r1 != encode_value(b) + r2,
        lex_lt(encode_value(a) + r1, encode_value(b) + r2) == value_lt(a, b),
{
    let x = encode_value(a) + r1;
    let y = encode_value(b) + r2;
    lemma_parse_encoded_value(a, r1);
    lemma_parse_encoded_value(b, r2);
    assert(x[0] == type_tag(a));
    assert(y[0] == type_tag(b));
    if type_tag(a) == type_tag(b) {
        let tag = seq![type_tag(a)];
        match (a, b) {
            (ValueView::Bool(p), ValueView::Bool(q)) => {
                assert(x.skip(1)[0] == if p { 1u8 } else { 0u8 });
                assert(y.skip(1)[0] == if q { 1u8 } else { 0u8 });
                assert(lex_lt(x.skip(1), y.skip(1)) == (!p && q));
            },
            (ValueView::Int(i), ValueView::Int(j)) => {
                let p = be_bytes(int_sort_key(i));
                let q = be_bytes(int_sort_key(j));
                lemma_be_bytes_order(int_sort_key(i), int_sort_key(j));
                lemma_lex_lt_same_length(p, q, r1, r2);
                lemma_lex_lt_common_prefix(tag, p + r1, q + r2);
                assert(x =~= tag + (p + r1));
                assert(y =~= tag + (q + r2));
            },
            (ValueView::Float(i), ValueView::Float(j)) => {
                let p = be_bytes(float_sort_key(i));
                let q = be_bytes(float_sort_key(j));
                assert(float_of_sort_key(float_sort_key(i)) == i);
                assert(float_of_sort_key(float_sort_key(j)) == j);
                lemma_be_bytes_order(float_sort_key(i), float_sort_key(j));
                lemma_lex_lt_same_length(p, q, r1, r2);
                lemma_lex_lt_common_prefix(tag, p + r1, q + r2);
                assert(x =~= tag + (p + r1));
                assert(y =~= tag + (q + r2));
            },
            (ValueView::Str(c), ValueView::Str(d)) => {
                let u = encode_utf8(c);
                let w = encode_utf8(d);
                if u == w {
                    lemma_utf8_injective(c, d);
                }
                lemma_encoded_text_order(u, w, r1, r2);
                lemma_lex_lt_common_prefix(tag, encode_text(u) + r1, encode_text(w) + r2);
                assert(x =~= tag + (encode_text(u) + r1));
                assert(y =~= tag + (encode_text(w) + r2));
            },
            (ValueView::EnId(i), ValueView::EnId(j)) => {
                let p = be_bytes(i);
                let q = be_bytes(j);
                lemma_be_bytes_order(i, j);
                lemma_lex_lt_same_length(p, q, r1, r2);
                lemma_lex_lt_common_prefix(tag, p + r1, q + r2);
                assert(x =~= tag + (p + r1));
                assert(y =~= tag + (q + r2));
            },
            _ => {},
        }
    }
}

/// `String::from_utf8` of the standard library, with the error dropped: it
/// gives a string exactly for well-formed UTF-8, and that string is the text
/// the bytes encode.
#[verifier::external_body]
pub(crate) fn string_from_utf8(bytes: Vec<u8>) -> (r: Option<String>)
    ensures
        r is Some == valid_utf8(bytes@),
        r matches Some(s) ==> s@ == decode_utf8(bytes@),
{
    String::from_utf8(bytes).ok()
}

/// Appends the encoding of `v` to `buf`.
pub fn push_value(buf: &mut Vec<u8>, v: &DataValue)
    ensures
        final(buf)@ == old(buf)@ + encode_value(v@),
{
    match v {
        DataValue::Null => {
            buf.push(NULL_TAG);
            assert(buf@ =~= old(buf)@ + encode_value(v@));
        },
        DataValue::Bool(b) => {
            buf.push(BOOL_TAG);
            buf.push(if *b { 1 } else { 0 });
            assert(buf@ =~= old(buf)@ + encode_value(v@));
        },
        DataValue::Int(i) => {
            buf.push(INT_TAG);
            push_be(buf, sort_key_of_int(*i));
            assert(buf@ =~= old(buf)@ + encode_value(v@));
        },
        DataValue::Float(bits) => {
            buf.push(FLOAT_TAG);
            push_be(buf, sort_key_of_float(*bits));
            assert(buf@ =~= old(buf)@ + encode_value(v@));
        },
        DataValue::Str(s) => {
            buf.push(STR_TAG);
            push_text(buf, s.as_str().as_bytes());
            assert(buf@ =~= old(buf)@ + encode_value(v@));
        },
        DataValue::EnId(e) => {
            buf.push(EN_ID_TAG);
            push_be(buf, e.0);
            assert(buf@ =~= old(buf)@ + encode_value(v@));
        },
    }
}

/// The encoding of `v` on its own.
pub fn encode_value_to_vec(v: &DataValue) -> (out: Vec<u8>)
    ensures
        out@ == encode_value(v@),
{
    let mut out: Vec<u8> = Vec::new();
    push_value(&mut out, v);
    assert(Seq::<u8>::empty() + encode_value(v@) =~= encode_value(v@));
    out
}

/// Reads the value whose encoding starts at `src[at]`. Gives the value and
/// the position behind its encoding, or `None` where no encoded value starts
/// there.
pub fn read_value(src: &[u8], at: usize) -> (r: Option<(DataValue, usize)>)
    requires
        at <= src@.len(),
    ensures
        match parse_value(src@.skip(at as int)) {
            Some((v, n)) => r matches Some((dv, next)) && dv@ == v && next == at + n,
            None => r is None,
        },
{
    let ghost s = src@.skip(at as int);
    if at >= src.len() {
        return None;
    }
    assert(s[0] == src@[at as int]);
    assert(s.skip(1) =~= src@.skip(at + 1));
    let tag = src[at];
    if tag == NULL_TAG {
        Some((DataValue::Null, at + 1))
    } else if tag == BOOL_TAG {
        if src.len() - at < 2 {
            return None;
        }
        assert(s[1] == src@[at + 1]);
        let b = src[at + 1];
        if b > 1 {
            return None;
        }
        Some((DataValue::Bool(b == 1), at + 2))
    } else if tag == INT_TAG {
        if src.len() - at < 9 {
            return None;
        }
        let k = read_be(src, at + 1);
        Some((DataValue::Int(int_from_sort_key(k)), at + 9))
    } else if tag == FLOAT_TAG {
        if src.len() - at < 9 {
            return None;
        }
        let k = read_be(src, at + 1);
        Some((DataValue::Float(float_from_sort_key(k)), at + 9))
    } else if tag == STR_TAG {
        match read_text(src, at + 1) {
            Some((bytes, next)) => match string_from_utf8(bytes) {
                Some(text) => Some((DataValue::Str(text), next)),
                None => None,
            },
            None => None,
        }
    } else if tag == EN_ID_TAG {
        if src.len() - at < 9 {
            return None;
        }
        let e = read_be(src, at + 1);
        Some((DataValue::EnId(EntityId(e)), at + 9))
    } else {
        None
    }
}

/// Reads the value that `src` encodes from `src[at]` to its last byte.
pub fn read_whole_value(src: &[u8], at: usize) -> (r: Option<DataValue>)
    requires
        at <= src@.len(),
    ensures
        match parse_whole_value(src@.skip(at as int)) {
            Some(v) => r matches Some(dv) && dv@ == v,
            None => r is None,
        },
{
    match read_value(src, at) {
        Some((v, next)) => if next == src.len() {
            Some(v)
        } else {
            None
        },
        None => None,
    }
}

} // verus!
