//! The typed values a fact can hold, and their order.
use crate::data::bytes::{
    bytes_eq, bytes_lt, lemma_lex_lt_asymmetric, lemma_lex_lt_connected,
    lemma_lex_lt_irreflexive, lemma_lex_lt_transitive, lex_lt,
};
use crate::data::order::ordering_of;
use core::cmp::Ordering;
use vstd::prelude::*;
use vstd::utf8::{encode_utf8, encode_utf8_decode_utf8};

verus! {

/// Identifier of an entity.
#[derive(Clone, Copy, Debug, PartialEq, Eq, Hash)]
pub struct EntityId(pub u64);

/// Identifier of an attribute.
#[derive(Clone, Copy, Debug, PartialEq, Eq, Hash)]
pub struct AttrId(pub u64);

/// Identifier of a transaction; later transactions have larger identifiers.
#[derive(Clone, Copy, Debug, PartialEq, Eq, Hash)]
pub struct TxId(pub u64);

/// A typed value.
///
/// A floating-point number is held as its IEEE-754 binary64 bit pattern, so
/// that it is stored and found again exactly; it is ordered through
/// [`float_sort_key`].
#[derive(Clone, Debug, PartialEq, Eq, Hash)]
pub enum DataValue {
    Null,
    Bool(bool),
    Int(i64),
    Float(u64),
    Str(String),
    EnId(EntityId),
}

/// What a [`DataValue`] denotes.
pub enum ValueView {
    Null,
    Bool(bool),
    Int(i64),
    Float(u64),
    Str(Seq<char>),
    EnId(u64),
}

impl View for DataValue {
    type V = ValueView;

    open spec fn view(&self) -> ValueView {
        match self {
            DataValue::Null => ValueView::Null,
            DataValue::Bool(b) => ValueView::Bool(*b),
            DataValue::Int(i) => ValueView::Int(*i),
            DataValue::Float(bits) => ValueView::Float(*bits),
            DataValue::Str(s) => ValueView::Str(s@),
            DataValue::EnId(e) => ValueView::EnId(e.0),
        }
    }
}

pub const NULL_TAG: u8 = 0x01;

pub const BOOL_TAG: u8 = 0x02;

pub const INT_TAG: u8 = 0x03;

pub const FLOAT_TAG: u8 = 0x04;

pub const STR_TAG: u8 = 0x05;

pub const EN_ID_TAG: u8 = 0x06;

/// The byte that marks the type of a value. Values of different types are
/// ordered by it: null, boolean, integer, float, text, entity reference.
pub open spec fn type_tag(v: ValueView) -> u8 {
    match v {
        ValueView::Null => NULL_TAG,
        ValueView::Bool(_) => BOOL_TAG,
        ValueView::Int(_) => INT_TAG,
        ValueView::Float(_) => FLOAT_TAG,
        ValueView::Str(_) => STR_TAG,
        ValueView::EnId(_) => EN_ID_TAG,
    }
}

/// The unsigned integer by which a signed integer is ordered: the integer
/// shifted up by 2^63.
pub open spec fn int_sort_key(i: i64) -> u64 {
    (i + 0x8000_0000_0000_0000) as u64
}

/// The signed integer that has `k` as its sort key.
pub open spec fn int_of_sort_key(k: u64) -> i64 {
    (k - 0x8000_0000_0000_0000) as i64
}

/// The unsigned integer by which a binary64 bit pattern is ordered. Patterns
/// with a clear sign bit move above all patterns with the sign bit set; among
/// those with the sign bit set the order of the magnitudes is inverted.
pub open spec fn float_sort_key(bits: u64) -> u64 {
    if bits < 0x8000_0000_0000_0000 {
        (bits + 0x8000_0000_0000_0000) as u64
    } else {
        (0xffff_ffff_ffff_ffff - bits) as u64
    }
}

/// The bit pattern that has `k` as its sort key.
pub open spec fn float_of_sort_key(k: u64) -> u64 {
    if k >= 0x8000_0000_0000_0000 {
        (k - 0x8000_0000_0000_0000) as u64
    } else {
        (0xffff_ffff_ffff_ffff - k) as u64
    }
}

/// `a` sorts strictly before `b`: by type first, then by the natural order of
/// the type (false before true, numeric order, byte order of the UTF-8 text).
pub open spec fn value_lt(a: ValueView, b: ValueView) -> bool {
    match (a, b) {
        (ValueView::Bool(x), ValueView::Bool(y)) => !x && y,
        (ValueView::Int(x), ValueView::Int(y)) => x < y,
        (ValueView::Float(x), ValueView::Float(y)) => float_sort_key(x) < float_sort_key(y),
        (ValueView::Str(x), ValueView::Str(y)) => lex_lt(encode_utf8(x), encode_utf8(y)),
        (ValueView::EnId(x), ValueView::EnId(y)) => x < y,
        _ => type_tag(a) < type_tag(b),
    }
}

/// Three-way order of two values.
pub open spec fn value_order(a: ValueView, b: ValueView) -> Ordering {
    ordering_of(value_lt(a, b), a == b)
}

/// Two texts with the same UTF-8 bytes are the same text.
pub proof fn lemma_utf8_injective(x: Seq<char>, y: Seq<char>)
    requires
        encode_utf8(x) == encode_utf8(y),
    ensures
        x == y,
{
    encode_utf8_decode_utf8(x);
    encode_utf8_decode_utf8(y);
}

/// The order of values is strict: no value sorts before itself, and of two
/// values at most one sorts before the other.
pub proof fn lemma_value_lt_asymmetric(a: ValueView, b: ValueView)
    ensures
        !value_lt(a, a),
        !(value_lt(a, b) && value_lt(b, a)),
{
    match (a, b) {
        (ValueView::Str(x), ValueView::Str(y)) => {
            lemma_lex_lt_asymmetric(encode_utf8(x), encode_utf8(y));
        },
        _ => {},
    }
    match a {
        ValueView::Str(x) => {
            lemma_lex_lt_irreflexive(encode_utf8(x));
        },
        _ => {},
    }
}

/// The order of values is total: two different values are ordered one way or
/// the other.
pub proof fn lemma_value_lt_connected(a: ValueView, b: ValueView)
    ensures
        a != b ==> value_lt(a, b) || value_lt(b, a),
{
    match (a, b) {
        (ValueView::Str(x), ValueView::Str(y)) => {
            lemma_lex_lt_connected(encode_utf8(x), encode_utf8(y));
            if encode_utf8(x) == encode_utf8(y) {
                lemma_utf8_injective(x, y);
            }
        },
        (ValueView::Float(x), ValueView::Float(y)) => {
            assert(float_of_sort_key(float_sort_key(x)) == x);
            assert(float_of_sort_key(float_sort_key(y)) == y);
        },
        _ => {},
    }
}

/// The order of values is transitive.
pub proof fn lemma_value_lt_transitive(a: ValueView, b: ValueView, c: ValueView)
    requires
        value_lt(a, b),
        value_lt(b, c),
    ensures
        value_lt(a, c),
{
    match (a, b, c) {
        (ValueView::Str(x), ValueView::Str(y), ValueView::Str(z)) => {
            lemma_lex_lt_transitive(encode_utf8(x), encode_utf8(y), encode_utf8(z));
        },
        _ => {},
    }
}

/// Sort keys of bit patterns are distinct for distinct patterns, and the
/// pattern is found again from its key.
pub proof fn lemma_float_sort_key_inverse(bits: u64)
    ensures
        float_of_sort_key(float_sort_key(bits)) == bits,
        float_sort_key(float_of_sort_key(bits)) == bits,
{
}

/// Sort keys of signed integers keep their order, and the integer is found
/// again from its key.
pub proof fn lemma_int_sort_key(i: i64, j: i64)
    ensures
        int_of_sort_key(int_sort_key(i)) == i,
        (int_sort_key(i) < int_sort_key(j)) == (i < j),
{
}

/// Computes [`int_sort_key`].
pub fn sort_key_of_int(i: i64) -> (k: u64)
    ensures
        k == int_sort_key(i),
{
    if i >= 0 {
        (i as u64) + 0x8000_0000_0000_0000
    } else {
        (i - i64::MIN) as u64
    }
}

/// Computes [`int_of_sort_key`].
pub fn int_from_sort_key(k: u64) -> (i: i64)
    ensures
        i == int_of_sort_key(k),
        int_sort_key(i) == k,
{
    if k >= 0x8000_0000_0000_0000 {
        (k - 0x8000_0000_0000_0000) as i64
    } else {
        (k as i64) + i64::MIN
    }
}

/// Computes [`float_sort_key`].
pub fn sort_key_of_float(bits: u64) -> (k: u64)
    ensures
        k == float_sort_key(bits),
{
    if bits < 0x8000_0000_0000_0000 {
        bits + 0x8000_0000_0000_0000
    } else {
        0xffff_ffff_ffff_ffff - bits
    }
}

/// Computes [`float_of_sort_key`].
pub fn float_from_sort_key(k: u64) -> (bits: u64)
    ensures
        bits == float_of_sort_key(k),
        float_sort_key(bits) == k,
{
    if k >= 0x8000_0000_0000_0000 {
        k - 0x8000_0000_0000_0000
    } else {
        0xffff_ffff_ffff_ffff - k
    }
}

impl DataValue {
    /// The byte that marks the type of this value.
    pub fn type_tag(&self) -> (t: u8)
        ensures
            t == type_tag(self@),
    {
        match self {
            DataValue::Null => NULL_TAG,
            DataValue::Bool(_) => BOOL_TAG,
            DataValue::Int(_) => INT_TAG,
            DataValue::Float(_) => FLOAT_TAG,
            DataValue::Str(_) => STR_TAG,
            DataValue::EnId(_) => EN_ID_TAG,
        }
    }

    /// Whether the two values denote the same thing.
    pub fn same(&self, other: &DataValue) -> (r: bool)
        ensures
            r == (self@ == other@),
    {
        match (self, other) {
            (DataValue::Null, DataValue::Null) => true,
            (DataValue::Bool(x), DataValue::Bool(y)) => *x == *y,
            (DataValue::Int(x), DataValue::Int(y)) => *x == *y,
            (DataValue::Float(x), DataValue::Float(y)) => *x == *y,
            (DataValue::Str(x), DataValue::Str(y)) => {
                proof {
                    if encode_utf8(x@) == encode_utf8(y@) {
                        lemma_utf8_injective(x@, y@);
                    }
                }
                bytes_eq(x.as_str().as_bytes(), y.as_str().as_bytes())
            },
            (DataValue::EnId(x), DataValue::EnId(y)) => x.0 == y.0,
            _ => false,
        }
    }

    /// Whether this value sorts strictly before `other`.
    pub fn less_than(&self, other: &DataValue) -> (r: bool)
        ensures
            r == value_lt(self@, other@),
    {
        match (self, other) {
            (DataValue::Bool(x), DataValue::Bool(y)) => !*x && *y,
            (DataValue::Int(x), DataValue::Int(y)) => *x < *y,
            (DataValue::Float(x), DataValue::Float(y)) => sort_key_of_float(*x)
                < sort_key_of_float(*y),
            (DataValue::Str(x), DataValue::Str(y)) => bytes_lt(
                x.as_str().as_bytes(),
                y.as_str().as_bytes(),
            ),
            (DataValue::EnId(x), DataValue::EnId(y)) => x.0 < y.0,
            _ => self.type_tag() < other.type_tag(),
        }
    }

    /// Three-way comparison in the order of values.
    pub fn compare(&self, other: &DataValue) -> (r: Ordering)
        ensures
            r == value_order(self@, other@),
    {
        if self.same(other) {
            Ordering::Equal
        } else if self.less_than(other) {
            Ordering::Less
        } else {
            Ordering::Greater
        }
    }
}

} // verus!
