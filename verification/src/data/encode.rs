//! Index keys: the eleven layouts in which a fact or a piece of schema is
//! written as a byte key.
//!
//! Every key starts with the byte of its storage tag. Identifiers follow as
//! eight big-endian bytes each, in a fixed place for each tag; a value or a
//! keyword, whose length varies, comes last.
//!
//! | tag | layout after the tag byte |
//! |---|---|
//! | `TripleEntityAttrValue` | entity, attribute, transaction, value |
//! | `TripleAttrEntityValue` | attribute, entity, transaction, value |
//! | `TripleAttrValueEntity` | attribute, entity, transaction, value |
//! | `TripleValueAttrEntity` | referred entity, attribute, entity, transaction |
//! | `AttrById` | attribute, transaction |
//! | `AttrByKeyword` | transaction, keyword |
//! | `Tx` | transaction |
//! | `UniqueEntity` | entity |
//! | `UniqueAttrValue` | attribute, value |
//! | `UniqueAttrById` | attribute |
//! | `UniqueAttrByKeyword` | keyword |
use crate::data::bytes::{
    be_bytes, be_value, lemma_be_bytes_of_value, lemma_be_value_of_bytes, push_be, read_be,
};
use crate::data::codec::{
    encode_value, lemma_parse_encoded_value, lemma_parsed_value_is_encoded, parse_value,
    parse_whole_value, push_value, read_whole_value, string_from_utf8,
};
use crate::data::text::{
    encode_text, lemma_parse_encoded_text, lemma_parsed_text_is_encoded, parse_text, push_text,
    read_text,
};
use crate::data::value::{AttrId, DataValue, EntityId, TxId, ValueView};
use vstd::prelude::*;
use vstd::utf8::{
    decode_utf8, decode_utf8_encode_utf8, encode_utf8, encode_utf8_decode_utf8,
    encode_utf8_valid_utf8, valid_utf8,
};

verus! {

/// The kind of index a key belongs to; its byte is the first byte of the key.
#[derive(Clone, Copy, Debug, PartialEq, Eq, Hash)]
pub enum StorageTag {
    TripleEntityAttrValue,
    TripleAttrEntityValue,
    TripleAttrValueEntity,
    TripleValueAttrEntity,
    AttrById,
    AttrByKeyword,
    Tx,
    UniqueEntity,
    UniqueAttrValue,
    UniqueAttrById,
    UniqueAttrByKeyword,
}

impl StorageTag {
    /// The byte that stands for this tag.
    pub open spec fn byte(self) -> u8 {
        match self {
            StorageTag::TripleEntityAttrValue => 1,
            StorageTag::TripleAttrEntityValue => 2,
            StorageTag::TripleAttrValueEntity => 3,
            StorageTag::TripleValueAttrEntity => 4,
            StorageTag::AttrById => 5,
            StorageTag::AttrByKeyword => 6,
            StorageTag::Tx => 7,
            StorageTag::UniqueEntity => 8,
            StorageTag::UniqueAttrValue => 9,
            StorageTag::UniqueAttrById => 10,
            StorageTag::UniqueAttrByKeyword => 11,
        }
    }

    /// The tag that `b` stands for, if any.
    pub open spec fn of_byte(b: u8) -> Option<StorageTag> {
        if b == 1 {
            Some(StorageTag::TripleEntityAttrValue)
        } else if b == 2 {
            Some(StorageTag::TripleAttrEntityValue)
        } else if b == 3 {
            Some(StorageTag::TripleAttrValueEntity)
        } else if b == 4 {
            Some(StorageTag::TripleValueAttrEntity)
        } else if b == 5 {
            Some(StorageTag::AttrById)
        } else if b == 6 {
            Some(StorageTag::AttrByKeyword)
        } else if b == 7 {
            Some(StorageTag::Tx)
        } else if b == 8 {
            Some(StorageTag::UniqueEntity)
        } else if b == 9 {
            Some(StorageTag::UniqueAttrValue)
        } else if b == 10 {
            Some(StorageTag::UniqueAttrById)
        } else if b == 11 {
            Some(StorageTag::UniqueAttrByKeyword)
        } else {
            None
        }
    }

    /// Computes [`StorageTag::byte`].
    pub fn to_byte(self) -> (b: u8)
        ensures
            b == self.byte(),
            StorageTag::of_byte(b) == Some(self),
    {
        match self {
            StorageTag::TripleEntityAttrValue => 1,
            StorageTag::TripleAttrEntityValue => 2,
            StorageTag::TripleAttrValueEntity => 3,
            StorageTag::TripleValueAttrEntity => 4,
            StorageTag::AttrById => 5,
            StorageTag::AttrByKeyword => 6,
            StorageTag::Tx => 7,
            StorageTag::UniqueEntity => 8,
            StorageTag::UniqueAttrValue => 9,
            StorageTag::UniqueAttrById => 10,
            StorageTag::UniqueAttrByKeyword => 11,
        }
    }

    /// The tag that `value` stands for; a byte that stands for no tag comes
    /// back as the error.
    pub fn try_from(value: u8) -> (r: Result<StorageTag, u8>)
        ensures
            match r {
                Ok(tag) => StorageTag::of_byte(value) == Some(tag) && tag.byte() == value,
                Err(b) => StorageTag::of_byte(value) is None && b == value,
            },
    {
        if value == 1 {
            Ok(StorageTag::TripleEntityAttrValue)
        } else if value == 2 {
            Ok(StorageTag::TripleAttrEntityValue)
        } else if value == 3 {
            Ok(StorageTag::TripleAttrValueEntity)
        } else if value == 4 {
            Ok(StorageTag::TripleValueAttrEntity)
        } else if value == 5 {
            Ok(StorageTag::AttrById)
        } else if value == 6 {
            Ok(StorageTag::AttrByKeyword)
        } else if value == 7 {
            Ok(StorageTag::Tx)
        } else if value == 8 {
            Ok(StorageTag::UniqueEntity)
        } else if value == 9 {
            Ok(StorageTag::UniqueAttrValue)
        } else if value == 10 {
            Ok(StorageTag::UniqueAttrById)
        } else if value == 11 {
            Ok(StorageTag::UniqueAttrByKeyword)
        } else {
            Err(value)
        }
    }
}

/// Why a byte string is not a key.
#[derive(Clone, Copy, Debug, PartialEq, Eq)]
pub enum KeyError {
    /// The first byte stands for no storage tag.
    UnknownTag(u8),
    /// The bytes are too few or too many for the layout, or a value or
    /// keyword in them is not well-formed.
    Malformed,
}

/// A key as the fields it is made of.
#[derive(Clone, Debug, PartialEq, Eq)]
pub enum IndexKey {
    TripleEntityAttrValue { entity: EntityId, attr: AttrId, value: DataValue, tx: TxId },
    TripleAttrEntityValue { attr: AttrId, entity: EntityId, value: DataValue, tx: TxId },
    TripleAttrValueEntity { attr: AttrId, value: DataValue, entity: EntityId, tx: TxId },
    TripleValueAttrEntity { target: EntityId, attr: AttrId, entity: EntityId, tx: TxId },
    AttrById { attr: AttrId, tx: TxId },
    AttrByKeyword { keyword: String, tx: TxId },
    Tx { tx: TxId },
    UniqueEntity { entity: EntityId },
    UniqueAttrValue { attr: AttrId, value: DataValue },
    UniqueAttrById { attr: AttrId },
    UniqueAttrByKeyword { keyword: String },
}

/// What an [`IndexKey`] denotes.
pub enum KeyView {
    TripleEntityAttrValue { e: u64, a: u64, v: ValueView, t: u64 },
    TripleAttrEntityValue { a: u64, e: u64, v: ValueView, t: u64 },
    TripleAttrValueEntity { a: u64, v: ValueView, e: u64, t: u64 },
    TripleValueAttrEntity { r: u64, a: u64, e: u64, t: u64 },
    AttrById { a: u64, t: u64 },
    AttrByKeyword { kw: Seq<char>, t: u64 },
    Tx { t: u64 },
    UniqueEntity { e: u64 },
    UniqueAttrValue { a: u64, v: ValueView },
    UniqueAttrById { a: u64 },
    UniqueAttrByKeyword { kw: Seq<char> },
}

impl View for IndexKey {
    type V = KeyView;

    open spec fn view(&self) -> KeyView {
        match self {
            IndexKey::TripleEntityAttrValue { entity, attr, value, tx } => {
                KeyView::TripleEntityAttrValue { e: entity.0, a: attr.0, v: value@, t: tx.0 }
            },
            IndexKey::TripleAttrEntityValue { attr, entity, value, tx } => {
                KeyView::TripleAttrEntityValue { a: attr.0, e: entity.0, v: value@, t: tx.0 }
            },
            IndexKey::TripleAttrValueEntity { attr, value, entity, tx } => {
                KeyView::TripleAttrValueEntity { a: attr.0, v: value@, e: entity.0, t: tx.0 }
            },
            IndexKey::TripleValueAttrEntity { target, attr, entity, tx } => {
                KeyView::TripleValueAttrEntity { r: target.0, a: attr.0, e: entity.0, t: tx.0 }
            },
            IndexKey::AttrById { attr, tx } => KeyView::AttrById { a: attr.0, t: tx.0 },
            IndexKey::AttrByKeyword { keyword, tx } => {
                KeyView::AttrByKeyword { kw: keyword@, t: tx.0 }
            },
            IndexKey::Tx { tx } => KeyView::Tx { t: tx.0 },
            IndexKey::UniqueEntity { entity } => KeyView::UniqueEntity { e: entity.0 },
            IndexKey::UniqueAttrValue { attr, value } => {
                KeyView::UniqueAttrValue { a: attr.0, v: value@ }
            },
            IndexKey::UniqueAttrById { attr } => KeyView::UniqueAttrById { a: attr.0 },
            IndexKey::UniqueAttrByKeyword { keyword } => {
                KeyView::UniqueAttrByKeyword { kw: keyword@ }
            },
        }
    }
}

impl KeyView {
    /// The storage tag of this key.
    pub open spec fn tag(self) -> StorageTag {
        match self {
            KeyView::TripleEntityAttrValue { .. } => StorageTag::TripleEntityAttrValue,
            KeyView::TripleAttrEntityValue { .. } => StorageTag::TripleAttrEntityValue,
            KeyView::TripleAttrValueEntity { .. } => StorageTag::TripleAttrValueEntity,
            KeyView::TripleValueAttrEntity { .. } => StorageTag::TripleValueAttrEntity,
            KeyView::AttrById { .. } => StorageTag::AttrById,
            KeyView::AttrByKeyword { .. } => StorageTag::AttrByKeyword,
            KeyView::Tx { .. } => StorageTag::Tx,
            KeyView::UniqueEntity { .. } => StorageTag::UniqueEntity,
            KeyView::UniqueAttrValue { .. } => StorageTag::UniqueAttrValue,
            KeyView::UniqueAttrById { .. } => StorageTag::UniqueAttrById,
            KeyView::UniqueAttrByKeyword { .. } => StorageTag::UniqueAttrByKeyword,
        }
    }
}

/// Length of the tag byte and three identifiers: where the value of a triple
/// key starts.
pub const TRIPLE_PREFIX_LEN: usize = 25;

/// The encoding of the keyword `kw`.
pub open spec fn encode_keyword(kw: Seq<char>) -> Seq<u8> {
    encode_text(encode_utf8(kw))
}

/// The keyword that `s` encodes from its first to its last byte, if any.
pub open spec fn parse_whole_keyword(s: Seq<u8>) -> Option<Seq<char>> {
    match parse_text(s) {
        Some((t, n)) => if n == s.len() && valid_utf8(t) {
            Some(decode_utf8(t))
        } else {
            None
        },
        None => None,
    }
}

/// The identifier whose eight bytes start at `s[at]`.
pub open spec fn id_at(s: Seq<u8>, at: int) -> u64 {
    be_value(s.skip(at))
}

/// The bytes of the key `k`.
pub open spec fn encode_key(k: KeyView) -> Seq<u8> {
    match k {
        KeyView::TripleEntityAttrValue { e, a, v, t } => seq![1u8] + be_bytes(e) + be_bytes(a)
            + be_bytes(t) + encode_value(v),
        KeyView::TripleAttrEntityValue { a, e, v, t } => seq![2u8] + be_bytes(a) + be_bytes(e)
            + be_bytes(t) + encode_value(v),
        KeyView::TripleAttrValueEntity { a, v, e, t } => seq![3u8] + be_bytes(a) + be_bytes(e)
            + be_bytes(t) + encode_value(v),
        KeyView::TripleValueAttrEntity { r, a, e, t } => seq![4u8] + be_bytes(r) + be_bytes(a)
            + be_bytes(e) + be_bytes(t),
        KeyView::AttrById { a, t } => seq![5u8] + be_bytes(a) + be_bytes(t),
        KeyView::AttrByKeyword { kw, t } => seq![6u8] + be_bytes(t) + encode_keyword(kw),
        KeyView::Tx { t } => seq![7u8] + be_bytes(t),
        KeyView::UniqueEntity { e } => seq![8u8] + be_bytes(e),
        KeyView::UniqueAttrValue { a, v } => seq![9u8] + be_bytes(a) + encode_value(v),
        KeyView::UniqueAttrById { a } => seq![10u8] + be_bytes(a),
        KeyView::UniqueAttrByKeyword { kw } => seq![11u8] + encode_keyword(kw),
    }
}

/// The value of a triple key: what is encoded from byte 25 to the end.
pub open spec fn triple_value(s: Seq<u8>) -> Option<ValueView> {
    if s.len() >= 25 {
        parse_whole_value(s.skip(25))
    } else {
        None
    }
}

/// The value of a unique-attribute-value key: what is encoded from byte 9 to
/// the end.
pub open spec fn unique_value(s: Seq<u8>) -> Option<ValueView> {
    if s.len() >= 9 {
        parse_whole_value(s.skip(9))
    } else {
        None
    }
}

/// The keyword of an attribute-by-keyword key: what is encoded from byte 9
/// to the end.
pub open spec fn attr_keyword(s: Seq<u8>) -> Option<Seq<char>> {
    if s.len() >= 9 {
        parse_whole_keyword(s.skip(9))
    } else {
        None
    }
}

/// The key that `s` is the bytes of, or `None` where `s` is no key.
pub open spec fn parse_key(s: Seq<u8>) -> Option<KeyView> {
    if s.len() == 0 {
        None
    } else {
        match StorageTag::of_byte(s[0]) {
            Some(StorageTag::TripleEntityAttrValue) => match triple_value(s) {
                Some(v) => Some(
                    KeyView::TripleEntityAttrValue {
                        e: id_at(s, 1),
                        a: id_at(s, 9),
                        v,
                        t: id_at(s, 17),
                    },
                ),
                None => None,
            },
            Some(StorageTag::TripleAttrEntityValue) => match triple_value(s) {
                Some(v) => Some(
                    KeyView::TripleAttrEntityValue {
                        a: id_at(s, 1),
                        e: id_at(s, 9),
                        v,
                        t: id_at(s, 17),
                    },
                ),
                None => None,
            },
            Some(StorageTag::TripleAttrValueEntity) => match triple_value(s) {
                Some(v) => Some(
                    KeyView::TripleAttrValueEntity {
                        a: id_at(s, 1),
                        v,
                        e: id_at(s, 9),
                        t: id_at(s, 17),
                    },
                ),
                None => None,
            },
            Some(StorageTag::TripleValueAttrEntity) => if s.len() == 33 {
                Some(
                    KeyView::TripleValueAttrEntity {
                        r: id_at(s, 1),
                        a: id_at(s, 9),
                        e: id_at(s, 17),
                        t: id_at(s, 25),
                    },
                )
            } else {
                None
            },
            Some(StorageTag::AttrById) => if s.len() == 17 {
                Some(KeyView::AttrById { a: id_at(s, 1), t: id_at(s, 9) })
            } else {
                None
            },
            Some(StorageTag::AttrByKeyword) => match attr_keyword(s) {
                Some(kw) => Some(KeyView::AttrByKeyword { kw, t: id_at(s, 1) }),
                None => None,
            },
            Some(StorageTag::Tx) => if s.len() == 9 {
                Some(KeyView::Tx { t: id_at(s, 1) })
            } else {
                None
            },
            Some(StorageTag::UniqueEntity) => if s.len() == 9 {
                Some(KeyView::UniqueEntity { e: id_at(s, 1) })
            } else {
                None
            },
            Some(StorageTag::UniqueAttrValue) => match unique_value(s) {
                Some(v) => Some(KeyView::UniqueAttrValue { a: id_at(s, 1), v }),
                None => None,
            },
            Some(StorageTag::UniqueAttrById) => if s.len() == 9 {
                Some(KeyView::UniqueAttrById { a: id_at(s, 1) })
            } else {
                None
            },
            Some(StorageTag::UniqueAttrByKeyword) => match parse_whole_keyword(s.skip(1)) {
                Some(kw) => Some(KeyView::UniqueAttrByKeyword { kw }),
                None => None,
            },
            None => None,
        }
    }
}

/// What is wrong with a byte string that is no key.
pub open spec fn key_fault(s: Seq<u8>) -> KeyError {
    if s.len() > 0 && StorageTag::of_byte(s[0]) is None {
        KeyError::UnknownTag(s[0])
    } else {
        KeyError::Malformed
    }
}

/// An identifier written between `pre` and `post` is read back from where it
/// starts.
pub proof fn lemma_id_at_written(pre: Seq<u8>, x: u64, post: Seq<u8>)
    ensures
        id_at(pre + be_bytes(x) + post, pre.len() as int) == x,
        (pre + be_bytes(x) + post).len() == pre.len() + 8 + post.len(),
{
    lemma_be_value_of_bytes(x, post);
    assert((pre + be_bytes(x) + post).skip(pre.len() as int) =~= be_bytes(x) + post);
}

/// The eight bytes from which an identifier is read are its image.
pub proof fn lemma_id_at_read(s: Seq<u8>, at: int)
    requires
        0 <= at,
        at + 8 <= s.len(),
    ensures
        be_bytes(id_at(s, at)) == s.subrange(at, at + 8),
{
    lemma_be_bytes_of_value(s.skip(at));
    assert(s.skip(at).subrange(0, 8) =~= s.subrange(at, at + 8));
}

/// An encoded keyword on its own is read back as it was written.
pub proof fn lemma_parse_encoded_keyword(kw: Seq<char>)
    ensures
        parse_whole_keyword(encode_keyword(kw)) == Some(kw),
{
    let u = encode_utf8(kw);
    lemma_parse_encoded_text(u, Seq::empty());
    assert(encode_text(u) + Seq::<u8>::empty() =~= encode_text(u));
    encode_utf8_valid_utf8(kw);
    encode_utf8_decode_utf8(kw);
}

/// What was read as a keyword is the encoding of that keyword.
pub proof fn lemma_parsed_keyword_is_encoded(s: Seq<u8>)
    requires
        parse_whole_keyword(s) is Some,
    ensures
        s == encode_keyword(parse_whole_keyword(s)->0),
{
    lemma_parsed_text_is_encoded(s);
    let (t, n) = parse_text(s)->0;
    decode_utf8_encode_utf8(t);
    assert(s.subrange(0, n) =~= s);
}

/// An encoded value on its own is read back as it was written.
pub proof fn lemma_parse_whole_encoded_value(v: ValueView)
    ensures
        parse_whole_value(encode_value(v)) == Some(v),
{
    lemma_parse_encoded_value(v, Seq::empty());
    assert(encode_value(v) + Seq::<u8>::empty() =~= encode_value(v));
}

/// What was read as a whole value is the encoding of that value.
pub proof fn lemma_parsed_whole_value_is_encoded(s: Seq<u8>)
    requires
        parse_whole_value(s) is Some,
    ensures
        s == encode_value(parse_whole_value(s)->0),
{
    lemma_parsed_value_is_encoded(s);
    let (v, n) = parse_value(s)->0;
    assert(s.subrange(0, n) =~= s);
}

/// Layout of a tag byte, one identifier and a tail.
proof fn lemma_layout_one(tag: u8, x: u64, tail: Seq<u8>)
    ensures
        ({
            let s = seq![tag] + be_bytes(x) + tail;
            &&& s.len() == 9 + tail.len()
            &&& s[0] == tag
            &&& id_at(s, 1) == x
            &&& s.skip(9) == tail
        }),
{
    let s = seq![tag] + be_bytes(x) + tail;
    lemma_id_at_written(seq![tag], x, tail);
    assert(s.skip(9) =~= tail);
}

/// Layout of a tag byte, two identifiers and a tail.
proof fn lemma_layout_two(tag: u8, x: u64, y: u64, tail: Seq<u8>)
    ensures
        ({
            let s = seq![tag] + be_bytes(x) + be_bytes(y) + tail;
            &&& s.len() == 17 + tail.len()
            &&& s[0] == tag
            &&& id_at(s, 1) == x
            &&& id_at(s, 9) == y
            &&& s.skip(17) == tail
        }),
{
    let s = seq![tag] + be_bytes(x) + be_bytes(y) + tail;
    lemma_layout_one(tag, x, be_bytes(y) + tail);
    assert(s =~= seq![tag] + be_bytes(x) + (be_bytes(y) + tail));
    lemma_id_at_written(seq![tag] + be_bytes(x), y, tail);
    assert(s.skip(17) =~= tail);
}

/// Layout of a tag byte, three identifiers and a tail.
proof fn lemma_layout_three(tag: u8, x: u64, y: u64, z: u64, tail: Seq<u8>)
    ensures
        ({
            let s = seq![tag] + be_bytes(x) + be_bytes(y) + be_bytes(z) + tail;
            &&& s.len() == 25 + tail.len()
            &&& s[0] == tag
            &&& id_at(s, 1) == x
            &&& id_at(s, 9) == y
            &&& id_at(s, 17) == z
            &&& s.skip(25) == tail
        }),
{
    let s = seq![tag] + be_bytes(x) + be_bytes(y) + be_bytes(z) + tail;
    lemma_layout_two(tag, x, y, be_bytes(z) + tail);
    assert(s =~= seq![tag] + be_bytes(x) + be_bytes(y) + (be_bytes(z) + tail));
    lemma_id_at_written(seq![tag] + be_bytes(x) + be_bytes(y), z, tail);
    assert(s.skip(25) =~= tail);
}

/// Layout of a tag byte and four identifiers.
proof fn lemma_layout_four(tag: u8, x: u64, y: u64, z: u64, w: u64)
    ensures
        ({
            let s = seq![tag] + be_bytes(x) + be_bytes(y) + be_bytes(z) + be_bytes(w);
            &&& s.len() == 33
            &&& s[0] == tag
            &&& id_at(s, 1) == x
            &&& id_at(s, 9) == y
            &&& id_at(s, 17) == z
            &&& id_at(s, 25) == w
        }),
{
    let s = seq![tag] + be_bytes(x) + be_bytes(y) + be_bytes(z) + be_bytes(w);
    lemma_layout_three(tag, x, y, z, be_bytes(w));
    lemma_id_at_written(seq![tag] + be_bytes(x) + be_bytes(y) + be_bytes(z), w, Seq::empty());
    assert(s =~= s + Seq::<u8>::empty());
}

/// Every key is read back from its bytes as it was written, for each of the
/// eleven layouts and each type of value.
pub proof fn lemma_parse_encoded_key(k: KeyView)
    ensures
        encode_key(k).len() >= 1,
        encode_key(k)[0] == k.tag().byte(),
        parse_key(encode_key(k)) == Some(k),
{
    let none = Seq::<u8>::empty();
    match k {
        KeyView::TripleEntityAttrValue { e, a, v, t } => {
            lemma_layout_three(1, e, a, t, encode_value(v));
            lemma_parse_whole_encoded_value(v);
        },
        KeyView::TripleAttrEntityValue { a, e, v, t } => {
            lemma_layout_three(2, a, e, t, encode_value(v));
            lemma_parse_whole_encoded_value(v);
        },
        KeyView::TripleAttrValueEntity { a, v, e, t } => {
            lemma_layout_three(3, a, e, t, encode_value(v));
            lemma_parse_whole_encoded_value(v);
        },
        KeyView::TripleValueAttrEntity { r, a, e, t } => {
            lemma_layout_four(4, r, a, e, t);
        },
        KeyView::AttrById { a, t } => {
            lemma_layout_two(5, a, t, none);
            assert(encode_key(k) =~= encode_key(k) + none);
        },
        KeyView::AttrByKeyword { kw, t } => {
            lemma_layout_one(6, t, encode_keyword(kw));
            lemma_parse_encoded_keyword(kw);
        },
        KeyView::Tx { t } => {
            lemma_layout_one(7, t, none);
            assert(encode_key(k) =~= encode_key(k) + none);
        },
        KeyView::UniqueEntity { e } => {
            lemma_layout_one(8, e, none);
            assert(encode_key(k) =~= encode_key(k) + none);
        },
        KeyView::UniqueAttrValue { a, v } => {
            lemma_layout_one(9, a, encode_value(v));
            lemma_parse_whole_encoded_value(v);
        },
        KeyView::UniqueAttrById { a } => {
            lemma_layout_one(10, a, none);
            assert(encode_key(k) =~= encode_key(k) + none);
        },
        KeyView::UniqueAttrByKeyword { kw } => {
            assert(encode_key(k).skip(1) =~= encode_keyword(kw));
            lemma_parse_encoded_keyword(kw);
        },
    }
}

/// The bytes from which a key was read are the bytes of that key: no key has
/// two encodings.
pub proof fn lemma_parsed_key_is_encoded(s: Seq<u8>)
    requires
        parse_key(s) is Some,
    ensures
        encode_key(parse_key(s)->0) == s,
{
    let k = parse_key(s)->0;
    let tag = seq![s[0]];
    match k {
        KeyView::TripleEntityAttrValue { .. }
        | KeyView::TripleAttrEntityValue { .. }
        | KeyView::TripleAttrValueEntity { .. } => {
            lemma_id_at_read(s, 1);
            lemma_id_at_read(s, 9);
            lemma_id_at_read(s, 17);
            lemma_parsed_whole_value_is_encoded(s.skip(25));
            assert(s =~= tag + s.subrange(1, 9) + s.subrange(9, 17) + s.subrange(17, 25) + s.skip(
                25,
            ));
        },
        KeyView::TripleValueAttrEntity { .. } => {
            lemma_id_at_read(s, 1);
            lemma_id_at_read(s, 9);
            lemma_id_at_read(s, 17);
            lemma_id_at_read(s, 25);
            assert(s =~= tag + s.subrange(1, 9) + s.subrange(9, 17) + s.subrange(17, 25)
                + s.subrange(25, 33));
        },
        KeyView::AttrById { .. } => {
            lemma_id_at_read(s, 1);
            lemma_id_at_read(s, 9);
            assert(s =~= tag + s.subrange(1, 9) + s.subrange(9, 17));
        },
        KeyView::AttrByKeyword { .. } => {
            lemma_id_at_read(s, 1);
            lemma_parsed_keyword_is_encoded(s.skip(9));
            assert(s =~= tag + s.subrange(1, 9) + s.skip(9));
        },
        KeyView::Tx { .. } | KeyView::UniqueEntity { .. } | KeyView::UniqueAttrById { .. } => {
            lemma_id_at_read(s, 1);
            assert(s =~= tag + s.subrange(1, 9));
        },
        KeyView::UniqueAttrValue { .. } => {
            lemma_id_at_read(s, 1);
            lemma_parsed_whole_value_is_encoded(s.skip(9));
            assert(s =~= tag + s.subrange(1, 9) + s.skip(9));
        },
        KeyView::UniqueAttrByKeyword { .. } => {
            lemma_parsed_keyword_is_encoded(s.skip(1));
            assert(s =~= tag + s.skip(1));
        },
    }
}

/// Reads the keyword that `src` encodes from `src[at]` to its last byte.
pub fn read_whole_keyword(src: &[u8], at: usize) -> (r: Option<String>)
    requires
        at <= src@.len(),
    ensures
        match parse_whole_keyword(src@.skip(at as int)) {
            Some(kw) => r matches Some(s) && s@ == kw,
            None => r is None,
        },
{
    match read_text(src, at) {
        Some((bytes, next)) => if next == src.len() {
            string_from_utf8(bytes)
        } else {
            None
        },
        None => None,
    }
}

/// The three identifiers behind the tag byte of a key that starts with
/// entity, attribute, transaction.
pub fn decode_ea_key(src: &[u8]) -> (r: Result<(EntityId, AttrId, TxId), KeyError>)
    ensures
        match r {
            Ok((e, a, t)) => src@.len() >= 25 && e.0 == id_at(src@, 1) && a.0 == id_at(src@, 9)
                && t.0 == id_at(src@, 17),
            Err(err) => src@.len() < 25 && err == KeyError::Malformed,
        },
{
    if src.len() < 25 {
        return Err(KeyError::Malformed);
    }
    Ok((EntityId(read_be(src, 1)), AttrId(read_be(src, 9)), TxId(read_be(src, 17))))
}

/// The three identifiers behind the tag byte of a key that starts with
/// attribute, entity, transaction.
pub fn decode_ae_key(src: &[u8]) -> (r: Result<(AttrId, EntityId, TxId), KeyError>)
    ensures
        match r {
            Ok((a, e, t)) => src@.len() >= 25 && a.0 == id_at(src@, 1) && e.0 == id_at(src@, 9)
                && t.0 == id_at(src@, 17),
            Err(err) => src@.len() < 25 && err == KeyError::Malformed,
        },
{
    if src.len() < 25 {
        return Err(KeyError::Malformed);
    }
    Ok((AttrId(read_be(src, 1)), EntityId(read_be(src, 9)), TxId(read_be(src, 17))))
}

/// The four identifiers of a key that holds referred entity, attribute,
/// entity, transaction.
pub fn decode_vae_key(src: &[u8]) -> (r: Result<(EntityId, AttrId, EntityId, TxId), KeyError>)
    ensures
        match r {
            Ok((v, a, e, t)) => src@.len() >= 33 && v.0 == id_at(src@, 1) && a.0 == id_at(
                src@,
                9,
            ) && e.0 == id_at(src@, 17) && t.0 == id_at(src@, 25),
            Err(err) => src@.len() < 33 && err == KeyError::Malformed,
        },
{
    if src.len() < 33 {
        return Err(KeyError::Malformed);
    }
    Ok(
        (
            EntityId(read_be(src, 1)),
            AttrId(read_be(src, 9)),
            EntityId(read_be(src, 17)),
            TxId(read_be(src, 25)),
        ),
    )
}

/// The value of a triple key.
pub fn decode_value_from_key(src: &[u8]) -> (r: Result<DataValue, KeyError>)
    ensures
        match r {
            Ok(v) => triple_value(src@) == Some(v@),
            Err(err) => triple_value(src@) is None && err == KeyError::Malformed,
        },
{
    if src.len() < TRIPLE_PREFIX_LEN {
        return Err(KeyError::Malformed);
    }
    match read_whole_value(src, TRIPLE_PREFIX_LEN) {
        Some(v) => Ok(v),
        None => Err(KeyError::Malformed),
    }
}

/// Attribute and transaction of an attribute-by-id key.
pub fn decode_attr_key_by_id(src: &[u8]) -> (r: Result<(AttrId, TxId), KeyError>)
    ensures
        match r {
            Ok((a, t)) => src@.len() >= 17 && a.0 == id_at(src@, 1) && t.0 == id_at(src@, 9),
            Err(err) => src@.len() < 17 && err == KeyError::Malformed,
        },
{
    if src.len() < 17 {
        return Err(KeyError::Malformed);
    }
    Ok((AttrId(read_be(src, 1)), TxId(read_be(src, 9))))
}

/// Keyword and transaction of an attribute-by-keyword key.
pub fn decode_attr_key_by_kw(src: &[u8]) -> (r: Result<(String, TxId), KeyError>)
    ensures
        match r {
            Ok((kw, t)) => attr_keyword(src@) == Some(kw@) && t.0 == id_at(src@, 1),
            Err(err) => attr_keyword(src@) is None && err == KeyError::Malformed,
        },
{
    if src.len() < 9 {
        return Err(KeyError::Malformed);
    }
    match read_whole_keyword(src, 9) {
        Some(kw) => Ok((kw, TxId(read_be(src, 1)))),
        None => Err(KeyError::Malformed),
    }
}

/// Attribute and value of a unique-attribute-value key.
pub fn decode_unique_attr_val(src: &[u8]) -> (r: Result<(AttrId, DataValue), KeyError>)
    ensures
        match r {
            Ok((a, v)) => unique_value(src@) == Some(v@) && a.0 == id_at(src@, 1),
            Err(err) => unique_value(src@) is None && err == KeyError::Malformed,
        },
{
    if src.len() < 9 {
        return Err(KeyError::Malformed);
    }
    match read_whole_value(src, 9) {
        Some(v) => Ok((AttrId(read_be(src, 1)), v)),
        None => Err(KeyError::Malformed),
    }
}

impl IndexKey {
    /// The storage tag of this key.
    pub fn tag(&self) -> (t: StorageTag)
        ensures
            t == self@.tag(),
    {
        match self {
            IndexKey::TripleEntityAttrValue { .. } => StorageTag::TripleEntityAttrValue,
            IndexKey::TripleAttrEntityValue { .. } => StorageTag::TripleAttrEntityValue,
            IndexKey::TripleAttrValueEntity { .. } => StorageTag::TripleAttrValueEntity,
            IndexKey::TripleValueAttrEntity { .. } => StorageTag::TripleValueAttrEntity,
            IndexKey::AttrById { .. } => StorageTag::AttrById,
            IndexKey::AttrByKeyword { .. } => StorageTag::AttrByKeyword,
            IndexKey::Tx { .. } => StorageTag::Tx,
            IndexKey::UniqueEntity { .. } => StorageTag::UniqueEntity,
            IndexKey::UniqueAttrValue { .. } => StorageTag::UniqueAttrValue,
            IndexKey::UniqueAttrById { .. } => StorageTag::UniqueAttrById,
            IndexKey::UniqueAttrByKeyword { .. } => StorageTag::UniqueAttrByKeyword,
        }
    }

    /// The bytes of this key.
    pub fn encode(&self) -> (out: Vec<u8>)
        ensures
            out@ == encode_key(self@),
            parse_key(out@) == Some(self@),
    {
        let mut out: Vec<u8> = Vec::new();
        out.push(self.tag().to_byte());
        match self {
            IndexKey::TripleEntityAttrValue { entity, attr, value, tx } => {
                push_be(&mut out, entity.0);
                push_be(&mut out, attr.0);
                push_be(&mut out, tx.0);
                push_value(&mut out, value);
            },
            IndexKey::TripleAttrEntityValue { attr, entity, value, tx } => {
                push_be(&mut out, attr.0);
                push_be(&mut out, entity.0);
                push_be(&mut out, tx.0);
                push_value(&mut out, value);
            },
            IndexKey::TripleAttrValueEntity { attr, value, entity, tx } => {
                push_be(&mut out, attr.0);
                push_be(&mut out, entity.0);
                push_be(&mut out, tx.0);
                push_value(&mut out, value);
            },
            IndexKey::TripleValueAttrEntity { target, attr, entity, tx } => {
                push_be(&mut out, target.0);
                push_be(&mut out, attr.0);
                push_be(&mut out, entity.0);
                push_be(&mut out, tx.0);
            },
            IndexKey::AttrById { attr, tx } => {
                push_be(&mut out, attr.0);
                push_be(&mut out, tx.0);
            },
            IndexKey::AttrByKeyword { keyword, tx } => {
                push_be(&mut out, tx.0);
                push_text(&mut out, keyword.as_str().as_bytes());
            },
            IndexKey::Tx { tx } => {
                push_be(&mut out, tx.0);
            },
            IndexKey::UniqueEntity { entity } => {
                push_be(&mut out, entity.0);
            },
            IndexKey::UniqueAttrValue { attr, value } => {
                push_be(&mut out, attr.0);
                push_value(&mut out, value);
            },
            IndexKey::UniqueAttrById { attr } => {
                push_be(&mut out, attr.0);
            },
            IndexKey::UniqueAttrByKeyword { keyword } => {
                push_text(&mut out, keyword.as_str().as_bytes());
            },
        }
        proof {
            assert(seq![self@.tag().byte()] =~= Seq::<u8>::empty().push(self@.tag().byte()));
            assert(out@ =~= encode_key(self@));
            lemma_parse_encoded_key(self@);
        }
        out
    }

    /// The key that `src` is the bytes of.
    pub fn decode(src: &[u8]) -> (r: Result<IndexKey, KeyError>)
        ensures
            match r {
                Ok(k) => parse_key(src@) == Some(k@),
                Err(err) => parse_key(src@) is None && err == key_fault(src@),
            },
    {
        if src.len() == 0 {
            return Err(KeyError::Malformed);
        }
        let tag = match StorageTag::try_from(src[0]) {
            Ok(tag) => tag,
            Err(b) => {
                return Err(KeyError::UnknownTag(b));
            },
        };
        match tag {
            StorageTag::TripleEntityAttrValue => {
                match decode_value_from_key(src) {
                    Ok(value) => Ok(
                        IndexKey::TripleEntityAttrValue {
                            entity: EntityId(read_be(src, 1)),
                            attr: AttrId(read_be(src, 9)),
                            value,
                            tx: TxId(read_be(src, 17)),
                        },
                    ),
                    Err(err) => Err(err),
                }
            },
            StorageTag::TripleAttrEntityValue => {
                match decode_value_from_key(src) {
                    Ok(value) => Ok(
                        IndexKey::TripleAttrEntityValue {
                            attr: AttrId(read_be(src, 1)),
                            entity: EntityId(read_be(src, 9)),
                            value,
                            tx: TxId(read_be(src, 17)),
                        },
                    ),
                    Err(err) => Err(err),
                }
            },
            StorageTag::TripleAttrValueEntity => {
                match decode_value_from_key(src) {
                    Ok(value) => Ok(
                        IndexKey::TripleAttrValueEntity {
                            attr: AttrId(read_be(src, 1)),
                            value,
                            entity: EntityId(read_be(src, 9)),
                            tx: TxId(read_be(src, 17)),
                        },
                    ),
                    Err(err) => Err(err),
                }
            },
            StorageTag::TripleValueAttrEntity => {
                if src.len() != 33 {
                    return Err(KeyError::Malformed);
                }
                Ok(
                    IndexKey::TripleValueAttrEntity {
                        target: EntityId(read_be(src, 1)),
                        attr: AttrId(read_be(src, 9)),
                        entity: EntityId(read_be(src, 17)),
                        tx: TxId(read_be(src, 25)),
                    },
                )
            },
            StorageTag::AttrById => {
                if src.len() != 17 {
                    return Err(KeyError::Malformed);
                }
                Ok(IndexKey::AttrById { attr: AttrId(read_be(src, 1)), tx: TxId(read_be(src, 9)) })
            },
            StorageTag::AttrByKeyword => {
                match decode_attr_key_by_kw(src) {
                    Ok((keyword, tx)) => Ok(IndexKey::AttrByKeyword { keyword, tx }),
                    Err(err) => Err(err),
                }
            },
            StorageTag::Tx => {
                if src.len() != 9 {
                    return Err(KeyError::Malformed);
                }
                Ok(IndexKey::Tx { tx: TxId(read_be(src, 1)) })
            },
            StorageTag::UniqueEntity => {
                if src.len() != 9 {
                    return Err(KeyError::Malformed);
                }
                Ok(IndexKey::UniqueEntity { entity: EntityId(read_be(src, 1)) })
            },
            StorageTag::UniqueAttrValue => {
                match decode_unique_attr_val(src) {
                    Ok((attr, value)) => Ok(IndexKey::UniqueAttrValue { attr, value }),
                    Err(err) => Err(err),
                }
            },
            StorageTag::UniqueAttrById => {
                if src.len() != 9 {
                    return Err(KeyError::Malformed);
                }
                Ok(IndexKey::UniqueAttrById { attr: AttrId(read_be(src, 1)) })
            },
            StorageTag::UniqueAttrByKeyword => {
                match read_whole_keyword(src, 1) {
                    Some(keyword) => Ok(IndexKey::UniqueAttrByKeyword { keyword }),
                    None => Err(KeyError::Malformed),
                }
            },
        }
    }
}

} // verus!
