//! The order of keys, rebuilt from their bytes.
//!
//! The tag byte settles the order of keys of different kinds. Within one kind
//! the comparator reads the fields that kind sorts by, in that kind's order,
//! and stops at the first pair that differs. Where a kind carries a
//! transaction, the transaction is compared last and the result is turned
//! round, so that the newest version of a fact comes first.
use crate::data::bytes::{
    be_bytes, lemma_be_bytes_order, lemma_lex_lt_asymmetric, lemma_lex_lt_common_prefix,
    lemma_lex_lt_connected, lemma_lex_lt_irreflexive, lemma_lex_lt_transitive, lex_lt,
};
use crate::data::encode::{
    attr_keyword, decode_ae_key, decode_attr_key_by_id, decode_attr_key_by_kw, decode_ea_key,
    decode_unique_attr_val, decode_vae_key, decode_value_from_key, encode_key, encode_keyword,
    id_at, lemma_parse_encoded_key, lemma_parsed_key_is_encoded, parse_key, triple_value,
    unique_value, KeyError, KeyView, StorageTag,
};
use crate::data::text::{encode_text, lemma_encoded_text_order, lemma_parse_encoded_text};
use crate::data::value::{
    lemma_utf8_injective, lemma_value_lt_asymmetric, lemma_value_lt_connected,
    lemma_value_lt_transitive, value_lt, ValueView,
};
use crate::data::order::{
    bytes_order, order_bytes, order_u64, order_u8, refined, reverse, reversed, u64_order,
    u8_order,
};
use crate::data::value::value_order;
use core::cmp::Ordering;
use vstd::prelude::*;
use vstd::utf8::encode_utf8;

verus! {

/// Order of two keywords: byte order of their UTF-8 text.
pub open spec fn keyword_order(x: Seq<char>, y: Seq<char>) -> Ordering {
    bytes_order(encode_utf8(x), encode_utf8(y))
}

/// Order of two keys that sort by entity, attribute, value, then newest
/// transaction first.
pub open spec fn eav_order(a: Seq<u8>, b: Seq<u8>) -> Ordering {
    refined(
        u64_order(id_at(a, 1), id_at(b, 1)),
        refined(
            u64_order(id_at(a, 9), id_at(b, 9)),
            refined(
                value_order(triple_value(a)->0, triple_value(b)->0),
                reversed(u64_order(id_at(a, 17), id_at(b, 17))),
            ),
        ),
    )
}

/// Order of two keys that sort by attribute, entity, value, then newest
/// transaction first.
pub open spec fn aev_order(a: Seq<u8>, b: Seq<u8>) -> Ordering {
    refined(
        u64_order(id_at(a, 1), id_at(b, 1)),
        refined(
            u64_order(id_at(a, 9), id_at(b, 9)),
            refined(
                value_order(triple_value(a)->0, triple_value(b)->0),
                reversed(u64_order(id_at(a, 17), id_at(b, 17))),
            ),
        ),
    )
}

/// Order of two keys that sort by attribute, value, entity, then newest
/// transaction first.
pub open spec fn ave_order(a: Seq<u8>, b: Seq<u8>) -> Ordering {
    refined(
        u64_order(id_at(a, 1), id_at(b, 1)),
        refined(
            value_order(triple_value(a)->0, triple_value(b)->0),
            refined(
                u64_order(id_at(a, 9), id_at(b, 9)),
                reversed(u64_order(id_at(a, 17), id_at(b, 17))),
            ),
        ),
    )
}

/// Order of two keys that sort by referred entity, attribute, entity, then
/// newest transaction first.
pub open spec fn vae_order(a: Seq<u8>, b: Seq<u8>) -> Ordering {
    refined(
        u64_order(id_at(a, 1), id_at(b, 1)),
        refined(
            u64_order(id_at(a, 9), id_at(b, 9)),
            refined(
                u64_order(id_at(a, 17), id_at(b, 17)),
                reversed(u64_order(id_at(a, 25), id_at(b, 25))),
            ),
        ),
    )
}

/// Order of two keys that sort by attribute, then newest transaction first.
pub open spec fn attr_by_id_order(a: Seq<u8>, b: Seq<u8>) -> Ordering {
    refined(u64_order(id_at(a, 1), id_at(b, 1)), reversed(u64_order(id_at(a, 9), id_at(b, 9))))
}

/// Order of two keys that sort by keyword, then newest transaction first.
pub open spec fn attr_by_kw_order(a: Seq<u8>, b: Seq<u8>) -> Ordering {
    refined(
        keyword_order(attr_keyword(a)->0, attr_keyword(b)->0),
        reversed(u64_order(id_at(a, 1), id_at(b, 1))),
    )
}

/// Order of two keys that sort by attribute, then value.
pub open spec fn unique_attr_val_order(a: Seq<u8>, b: Seq<u8>) -> Ordering {
    refined(
        u64_order(id_at(a, 1), id_at(b, 1)),
        value_order(unique_value(a)->0, unique_value(b)->0),
    )
}

/// What the comparator reads of a key, going by its tag byte, is there.
pub open spec fn comparable(s: Seq<u8>) -> bool {
    s.len() > 0 && match StorageTag::of_byte(s[0]) {
        Some(StorageTag::TripleEntityAttrValue) => triple_value(s) is Some,
        Some(StorageTag::TripleAttrEntityValue) => triple_value(s) is Some,
        Some(StorageTag::TripleAttrValueEntity) => triple_value(s) is Some,
        Some(StorageTag::TripleValueAttrEntity) => s.len() >= 33,
        Some(StorageTag::AttrById) => s.len() >= 17,
        Some(StorageTag::AttrByKeyword) => attr_keyword(s) is Some,
        Some(StorageTag::Tx) => true,
        Some(StorageTag::UniqueEntity) => true,
        Some(StorageTag::UniqueAttrValue) => unique_value(s) is Some,
        Some(StorageTag::UniqueAttrById) => true,
        Some(StorageTag::UniqueAttrByKeyword) => true,
        None => false,
    }
}

/// The two keys can be compared: neither is empty, and where their tag bytes
/// agree, what the comparator reads of each is there.
pub open spec fn comparable_pair(a: Seq<u8>, b: Seq<u8>) -> bool {
    &&& a.len() > 0
    &&& b.len() > 0
    &&& a[0] == b[0] ==> comparable(a) && comparable(b)
}

/// The order of two keys.
pub open spec fn key_order(a: Seq<u8>, b: Seq<u8>) -> Ordering {
    if a[0] != b[0] {
        u8_order(a[0], b[0])
    } else {
        match StorageTag::of_byte(a[0]) {
            Some(StorageTag::TripleEntityAttrValue) => eav_order(a, b),
            Some(StorageTag::TripleAttrEntityValue) => aev_order(a, b),
            Some(StorageTag::TripleAttrValueEntity) => ave_order(a, b),
            Some(StorageTag::TripleValueAttrEntity) => vae_order(a, b),
            Some(StorageTag::AttrById) => attr_by_id_order(a, b),
            Some(StorageTag::AttrByKeyword) => attr_by_kw_order(a, b),
            Some(StorageTag::Tx) => reversed(bytes_order(a, b)),
            Some(StorageTag::UniqueEntity) => bytes_order(a, b),
            Some(StorageTag::UniqueAttrValue) => unique_attr_val_order(a, b),
            Some(StorageTag::UniqueAttrById) => bytes_order(a, b),
            Some(StorageTag::UniqueAttrByKeyword) => bytes_order(a, b),
            None => Ordering::Equal,
        }
    }
}

/// The order in which two keys are meant to sort, told from their fields:
/// keys of different kinds by kind; keys of one kind field by field in the
/// order of that kind, the transaction last and newest first.
pub open spec fn logical_order(x: KeyView, y: KeyView) -> Ordering {
    match (x, y) {
        (
            KeyView::TripleEntityAttrValue { e: e1, a: a1, v: v1, t: t1 },
            KeyView::TripleEntityAttrValue { e: e2, a: a2, v: v2, t: t2 },
        ) => refined(
            u64_order(e1, e2),
            refined(
                u64_order(a1, a2),
                refined(value_order(v1, v2), reversed(u64_order(t1, t2))),
            ),
        ),
        (
            KeyView::TripleAttrEntityValue { a: a1, e: e1, v: v1, t: t1 },
            KeyView::TripleAttrEntityValue { a: a2, e: e2, v: v2, t: t2 },
        ) => refined(
            u64_order(a1, a2),
            refined(
                u64_order(e1, e2),
                refined(value_order(v1, v2), reversed(u64_order(t1, t2))),
            ),
        ),
        (
            KeyView::TripleAttrValueEntity { a: a1, v: v1, e: e1, t: t1 },
            KeyView::TripleAttrValueEntity { a: a2, v: v2, e: e2, t: t2 },
        ) => refined(
            u64_order(a1, a2),
            refined(
                value_order(v1, v2),
                refined(u64_order(e1, e2), reversed(u64_order(t1, t2))),
            ),
        ),
        (
            KeyView::TripleValueAttrEntity { r: r1, a: a1, e: e1, t: t1 },
            KeyView::TripleValueAttrEntity { r: r2, a: a2, e: e2, t: t2 },
        ) => refined(
            u64_order(r1, r2),
            refined(
                u64_order(a1, a2),
                refined(u64_order(e1, e2), reversed(u64_order(t1, t2))),
            ),
        ),
        (KeyView::AttrById { a: a1, t: t1 }, KeyView::AttrById { a: a2, t: t2 }) => refined(
            u64_order(a1, a2),
            reversed(u64_order(t1, t2)),
        ),
        (
            KeyView::AttrByKeyword { kw: kw1, t: t1 },
            KeyView::AttrByKeyword { kw: kw2, t: t2 },
        ) => refined(keyword_order(kw1, kw2), reversed(u64_order(t1, t2))),
        (KeyView::Tx { t: t1 }, KeyView::Tx { t: t2 }) => reversed(u64_order(t1, t2)),
        (KeyView::UniqueEntity { e: e1 }, KeyView::UniqueEntity { e: e2 }) => u64_order(e1, e2),
        (
            KeyView::UniqueAttrValue { a: a1, v: v1 },
            KeyView::UniqueAttrValue { a: a2, v: v2 },
        ) => refined(u64_order(a1, a2), value_order(v1, v2)),
        (KeyView::UniqueAttrById { a: a1 }, KeyView::UniqueAttrById { a: a2 }) => u64_order(
            a1,
            a2,
        ),
        (
            KeyView::UniqueAttrByKeyword { kw: kw1 },
            KeyView::UniqueAttrByKeyword { kw: kw2 },
        ) => keyword_order(kw1, kw2),
        _ => u8_order(x.tag().byte(), y.tag().byte()),
    }
}

/// Keys of different kinds are ordered by their tag bytes alone: whatever
/// else the keys hold does not change the result.
pub proof fn lemma_tag_major(a: Seq<u8>, b: Seq<u8>, c: Seq<u8>, d: Seq<u8>)
    requires
        a.len() > 0,
        b.len() > 0,
        c.len() > 0,
        d.len() > 0,
        a[0] != b[0],
        c[0] == a[0],
        d[0] == b[0],
    ensures
        key_order(a, b) == u8_order(a[0], b[0]),
        key_order(c, d) == key_order(a, b),
        key_order(a, b) != Ordering::Equal,
{
}

/// A tag byte and the image of an identifier sort like the identifier.
proof fn lemma_tagged_id_order(tag: u8, x: u64, y: u64)
    ensures
        bytes_order(seq![tag] + be_bytes(x), seq![tag] + be_bytes(y)) == u64_order(x, y),
{
    lemma_be_bytes_order(x, y);
    lemma_lex_lt_common_prefix(seq![tag], be_bytes(x), be_bytes(y));
}

/// A tag byte and an encoded keyword sort like the keyword.
proof fn lemma_tagged_keyword_order(tag: u8, x: Seq<char>, y: Seq<char>)
    ensures
        bytes_order(seq![tag] + encode_keyword(x), seq![tag] + encode_keyword(y))
            == keyword_order(x, y),
{
    let u = encode_utf8(x);
    let w = encode_utf8(y);
    let none = Seq::<u8>::empty();
    lemma_lex_lt_common_prefix(seq![tag], encode_text(u), encode_text(w));
    assert(encode_text(u) + none =~= encode_text(u));
    assert(encode_text(w) + none =~= encode_text(w));
    if u != w {
        lemma_encoded_text_order(u, w, none, none);
        lemma_parse_encoded_text(u, none);
        lemma_parse_encoded_text(w, none);
    }
}

/// The comparator orders encoded keys as their fields say: for every index
/// kind, the order rebuilt from the bytes is the order of the kind's fields.
pub proof fn lemma_order_of_encoded_keys(x: KeyView, y: KeyView)
    ensures
        comparable_pair(encode_key(x), encode_key(y)),
        key_order(encode_key(x), encode_key(y)) == logical_order(x, y),
{
    lemma_parse_encoded_key(x);
    lemma_parse_encoded_key(y);
    match (x, y) {
        (KeyView::Tx { t: t1 }, KeyView::Tx { t: t2 }) => {
            lemma_tagged_id_order(7, t1, t2);
        },
        (KeyView::UniqueEntity { e: e1 }, KeyView::UniqueEntity { e: e2 }) => {
            lemma_tagged_id_order(8, e1, e2);
        },
        (KeyView::UniqueAttrById { a: a1 }, KeyView::UniqueAttrById { a: a2 }) => {
            lemma_tagged_id_order(10, a1, a2);
        },
        (
            KeyView::UniqueAttrByKeyword { kw: kw1 },
            KeyView::UniqueAttrByKeyword { kw: kw2 },
        ) => {
            lemma_tagged_keyword_order(11, kw1, kw2);
        },
        _ => {},
    }
}

/// Whether a key of this kind carries a transaction.
pub open spec fn has_tx(k: KeyView) -> bool {
    match k {
        KeyView::TripleEntityAttrValue { .. } => true,
        KeyView::TripleAttrEntityValue { .. } => true,
        KeyView::TripleAttrValueEntity { .. } => true,
        KeyView::TripleValueAttrEntity { .. } => true,
        KeyView::AttrById { .. } => true,
        KeyView::AttrByKeyword { .. } => true,
        KeyView::Tx { .. } => true,
        _ => false,
    }
}

/// The key `k` with the transaction `t` in place of its own.
pub open spec fn with_tx(k: KeyView, t: u64) -> KeyView {
    match k {
        KeyView::TripleEntityAttrValue { e, a, v, .. } => {
            KeyView::TripleEntityAttrValue { e, a, v, t }
        },
        KeyView::TripleAttrEntityValue { a, e, v, .. } => {
            KeyView::TripleAttrEntityValue { a, e, v, t }
        },
        KeyView::TripleAttrValueEntity { a, v, e, .. } => {
            KeyView::TripleAttrValueEntity { a, v, e, t }
        },
        KeyView::TripleValueAttrEntity { r, a, e, .. } => {
            KeyView::TripleValueAttrEntity { r, a, e, t }
        },
        KeyView::AttrById { a, .. } => KeyView::AttrById { a, t },
        KeyView::AttrByKeyword { kw, .. } => KeyView::AttrByKeyword { kw, t },
        KeyView::Tx { .. } => KeyView::Tx { t },
        _ => k,
    }
}

/// Two keys of one kind agree on every field that the kind sorts before the
/// value. Holds of no pair of a kind that carries no value.
pub open spec fn same_up_to_value(x: KeyView, y: KeyView) -> bool {
    match (x, y) {
        (
            KeyView::TripleEntityAttrValue { e: e1, a: a1, .. },
            KeyView::TripleEntityAttrValue { e: e2, a: a2, .. },
        ) => e1 == e2 && a1 == a2,
        (
            KeyView::TripleAttrEntityValue { a: a1, e: e1, .. },
            KeyView::TripleAttrEntityValue { a: a2, e: e2, .. },
        ) => a1 == a2 && e1 == e2,
        (
            KeyView::TripleAttrValueEntity { a: a1, .. },
            KeyView::TripleAttrValueEntity { a: a2, .. },
        ) => a1 == a2,
        (KeyView::UniqueAttrValue { a: a1, .. }, KeyView::UniqueAttrValue { a: a2, .. }) => a1
            == a2,
        _ => false,
    }
}

/// The value a key carries; null for a kind that carries none.
pub open spec fn value_of(k: KeyView) -> ValueView {
    match k {
        KeyView::TripleEntityAttrValue { v, .. } => v,
        KeyView::TripleAttrEntityValue { v, .. } => v,
        KeyView::TripleAttrValueEntity { v, .. } => v,
        KeyView::UniqueAttrValue { v, .. } => v,
        _ => ValueView::Null,
    }
}

/// Newest first: of two keys that differ in the transaction alone, the one
/// with the later transaction sorts first.
pub proof fn lemma_newest_first(k: KeyView, newer: u64, older: u64)
    requires
        has_tx(k),
        newer > older,
    ensures
        key_order(encode_key(with_tx(k, newer)), encode_key(with_tx(k, older)))
            == Ordering::Less,
{
    lemma_order_of_encoded_keys(with_tx(k, newer), with_tx(k, older));
    match k {
        KeyView::AttrByKeyword { kw, .. } => {
            assert(keyword_order(kw, kw) == Ordering::Equal);
        },
        _ => {},
    }
}

/// Ascending values: of two keys that agree on the fields sorted before the
/// value, the one with the smaller value sorts first, whatever the fields
/// after the value are.
pub proof fn lemma_smaller_value_first(x: KeyView, y: KeyView)
    requires
        same_up_to_value(x, y),
        value_lt(value_of(x), value_of(y)),
    ensures
        key_order(encode_key(x), encode_key(y)) == Ordering::Less,
{
    lemma_order_of_encoded_keys(x, y);
    lemma_value_lt_asymmetric(value_of(x), value_of(y));
}

/// What makes the order of values a strict total order, for three values at
/// once.
proof fn lemma_value_order_facts(a: ValueView, b: ValueView, c: ValueView)
    ensures
        !value_lt(a, a),
        !(value_lt(a, b) && value_lt(b, a)),
        a != b ==> value_lt(a, b) || value_lt(b, a),
        value_lt(a, b) && value_lt(b, c) ==> value_lt(a, c),
{
    lemma_value_lt_asymmetric(a, b);
    lemma_value_lt_connected(a, b);
    if value_lt(a, b) && value_lt(b, c) {
        lemma_value_lt_transitive(a, b, c);
    }
}

/// What makes the order of keywords a strict total order, for three keywords
/// at once.
proof fn lemma_keyword_order_facts(a: Seq<char>, b: Seq<char>, c: Seq<char>)
    ensures
        keyword_order(a, a) == Ordering::Equal,
        keyword_order(a, b) == Ordering::Equal <==> a == b,
        keyword_order(b, a) == reversed(keyword_order(a, b)),
        keyword_order(a, b) == Ordering::Less && keyword_order(b, c) == Ordering::Less
            ==> keyword_order(a, c) == Ordering::Less,
{
    let x = encode_utf8(a);
    let y = encode_utf8(b);
    let z = encode_utf8(c);
    lemma_lex_lt_irreflexive(x);
    lemma_lex_lt_asymmetric(x, y);
    lemma_lex_lt_connected(x, y);
    lemma_lex_lt_irreflexive(z);
    if x == y {
        lemma_utf8_injective(a, b);
    }
    if lex_lt(x, y) && lex_lt(y, z) {
        lemma_lex_lt_transitive(x, y, z);
    }
}

/// Two keys tie exactly when they are the same key, and swapping the two
/// turns the result round.
pub proof fn lemma_logical_order_antisymmetric(x: KeyView, y: KeyView)
    ensures
        logical_order(x, y) == Ordering::Equal <==> x == y,
        logical_order(y, x) == reversed(logical_order(x, y)),
{
    lemma_value_order_facts(value_of(x), value_of(y), value_of(x));
    lemma_value_order_facts(value_of(y), value_of(x), value_of(y));
    match (x, y) {
        (
            KeyView::AttrByKeyword { kw: kw1, .. },
            KeyView::AttrByKeyword { kw: kw2, .. },
        ) => {
            lemma_keyword_order_facts(kw1, kw2, kw1);
        },
        (
            KeyView::UniqueAttrByKeyword { kw: kw1 },
            KeyView::UniqueAttrByKeyword { kw: kw2 },
        ) => {
            lemma_keyword_order_facts(kw1, kw2, kw1);
        },
        _ => {},
    }
}

/// Three results, for the pairs (x, y), (y, z) and (x, z), fit together as
/// the results of one total order do.
pub open spec fn chained(xy: Ordering, yz: Ordering, xz: Ordering) -> bool {
    &&& xy == Ordering::Equal ==> xz == yz
    &&& yz == Ordering::Equal ==> xz == xy
    &&& xy == Ordering::Less && yz == Ordering::Less ==> xz == Ordering::Less
    &&& xy == Ordering::Greater && yz == Ordering::Greater ==> xz == Ordering::Greater
}

proof fn lemma_chained_u64(a: u64, b: u64, c: u64)
    ensures
        chained(u64_order(a, b), u64_order(b, c), u64_order(a, c)),
        chained(
            reversed(u64_order(a, b)),
            reversed(u64_order(b, c)),
            reversed(u64_order(a, c)),
        ),
{
}

proof fn lemma_chained_value(a: ValueView, b: ValueView, c: ValueView)
    ensures
        chained(value_order(a, b), value_order(b, c), value_order(a, c)),
{
    lemma_value_order_facts(a, b, c);
    lemma_value_order_facts(b, c, a);
    lemma_value_order_facts(a, c, b);
    lemma_value_order_facts(c, b, a);
    lemma_value_order_facts(b, a, c);
    lemma_value_order_facts(c, a, b);
}

proof fn lemma_chained_keyword(a: Seq<char>, b: Seq<char>, c: Seq<char>)
    ensures
        chained(keyword_order(a, b), keyword_order(b, c), keyword_order(a, c)),
{
    let x = encode_utf8(a);
    let y = encode_utf8(b);
    let z = encode_utf8(c);
    lemma_keyword_order_facts(a, b, c);
    lemma_keyword_order_facts(b, c, a);
    lemma_keyword_order_facts(a, c, b);
    lemma_lex_lt_asymmetric(x, z);
    lemma_lex_lt_asymmetric(y, z);
    lemma_lex_lt_connected(x, z);
    lemma_lex_lt_connected(y, z);
    if lex_lt(z, y) && lex_lt(y, x) {
        lemma_lex_lt_transitive(z, y, x);
    }
    if x == z {
        lemma_utf8_injective(a, c);
    }
    if y == z {
        lemma_utf8_injective(b, c);
    }
}

proof fn lemma_chained_refined(
    f_xy: Ordering,
    f_yz: Ordering,
    f_xz: Ordering,
    s_xy: Ordering,
    s_yz: Ordering,
    s_xz: Ordering,
)
    requires
        chained(f_xy, f_yz, f_xz),
        chained(s_xy, s_yz, s_xz),
    ensures
        chained(refined(f_xy, s_xy), refined(f_yz, s_yz), refined(f_xz, s_xz)),
{
}

/// Keys of different kinds are ordered by their tags, and never tie.
proof fn lemma_logical_order_by_tag(x: KeyView, y: KeyView)
    requires
        x.tag() != y.tag(),
    ensures
        logical_order(x, y) == u8_order(x.tag().byte(), y.tag().byte()),
        x.tag().byte() != y.tag().byte(),
{
}

proof fn lemma_chained_two_ids(a1: u64, t1: u64, a2: u64, t2: u64, a3: u64, t3: u64)
    ensures
        chained(
            refined(u64_order(a1, a2), reversed(u64_order(t1, t2))),
            refined(u64_order(a2, a3), reversed(u64_order(t2, t3))),
            refined(u64_order(a1, a3), reversed(u64_order(t1, t3))),
        ),
{
}

/// The results of the order of keys on three keys of one kind fit together.
proof fn lemma_chained_same_kind(x: KeyView, y: KeyView, z: KeyView)
    requires
        x.tag() == y.tag(),
        y.tag() == z.tag(),
    ensures
        chained(logical_order(x, y), logical_order(y, z), logical_order(x, z)),
{
    match (x, y, z) {
        (
            KeyView::TripleEntityAttrValue { e: e1, a: a1, v: v1, t: t1 },
            KeyView::TripleEntityAttrValue { e: e2, a: a2, v: v2, t: t2 },
            KeyView::TripleEntityAttrValue { e: e3, a: a3, v: v3, t: t3 },
        ) => {
            lemma_chained_u64(e1, e2, e3);
            lemma_chained_u64(a1, a2, a3);
            lemma_chained_value(v1, v2, v3);
            lemma_chained_u64(t1, t2, t3);
            let l_xy = refined(value_order(v1, v2), reversed(u64_order(t1, t2)));
            let l_yz = refined(value_order(v2, v3), reversed(u64_order(t2, t3)));
            let l_xz = refined(value_order(v1, v3), reversed(u64_order(t1, t3)));
            lemma_chained_refined(
                value_order(v1, v2),
                value_order(v2, v3),
                value_order(v1, v3),
                reversed(u64_order(t1, t2)),
                reversed(u64_order(t2, t3)),
                reversed(u64_order(t1, t3)),
            );
            lemma_chained_refined(
                u64_order(a1, a2),
                u64_order(a2, a3),
                u64_order(a1, a3),
                l_xy,
                l_yz,
                l_xz,
            );
            lemma_chained_refined(
                u64_order(e1, e2),
                u64_order(e2, e3),
                u64_order(e1, e3),
                refined(u64_order(a1, a2), l_xy),
                refined(u64_order(a2, a3), l_yz),
                refined(u64_order(a1, a3), l_xz),
            );
        },
        (
            KeyView::TripleAttrEntityValue { a: a1, e: e1, v: v1, t: t1 },
            KeyView::TripleAttrEntityValue { a: a2, e: e2, v: v2, t: t2 },
            KeyView::TripleAttrEntityValue { a: a3, e: e3, v: v3, t: t3 },
        ) => {
            lemma_chained_u64(e1, e2, e3);
            lemma_chained_u64(a1, a2, a3);
            lemma_chained_value(v1, v2, v3);
            lemma_chained_u64(t1, t2, t3);
            let l_xy = refined(value_order(v1, v2), reversed(u64_order(t1, t2)));
            let l_yz = refined(value_order(v2, v3), reversed(u64_order(t2, t3)));
            let l_xz = refined(value_order(v1, v3), reversed(u64_order(t1, t3)));
            lemma_chained_refined(
                value_order(v1, v2),
                value_order(v2, v3),
                value_order(v1, v3),
                reversed(u64_order(t1, t2)),
                reversed(u64_order(t2, t3)),
                reversed(u64_order(t1, t3)),
            );
            lemma_chained_refined(
                u64_order(e1, e2),
                u64_order(e2, e3),
                u64_order(e1, e3),
                l_xy,
                l_yz,
                l_xz,
            );
            lemma_chained_refined(
                u64_order(a1, a2),
                u64_order(a2, a3),
                u64_order(a1, a3),
                refined(u64_order(e1, e2), l_xy),
                refined(u64_order(e2, e3), l_yz),
                refined(u64_order(e1, e3), l_xz),
            );
        },
        (
            KeyView::TripleAttrValueEntity { a: a1, v: v1, e: e1, t: t1 },
            KeyView::TripleAttrValueEntity { a: a2, v: v2, e: e2, t: t2 },
            KeyView::TripleAttrValueEntity { a: a3, v: v3, e: e3, t: t3 },
        ) => {
            lemma_chained_u64(a1, a2, a3);
            lemma_chained_value(v1, v2, v3);
            lemma_chained_two_ids(e1, t1, e2, t2, e3, t3);
            let l_xy = refined(u64_order(e1, e2), reversed(u64_order(t1, t2)));
            let l_yz = refined(u64_order(e2, e3), reversed(u64_order(t2, t3)));
            let l_xz = refined(u64_order(e1, e3), reversed(u64_order(t1, t3)));
            lemma_chained_refined(
                value_order(v1, v2),
                value_order(v2, v3),
                value_order(v1, v3),
                l_xy,
                l_yz,
                l_xz,
            );
            lemma_chained_refined(
                u64_order(a1, a2),
                u64_order(a2, a3),
                u64_order(a1, a3),
                refined(value_order(v1, v2), l_xy),
                refined(value_order(v2, v3), l_yz),
                refined(value_order(v1, v3), l_xz),
            );
        },
        (
            KeyView::TripleValueAttrEntity { r: r1, a: a1, e: e1, t: t1 },
            KeyView::TripleValueAttrEntity { r: r2, a: a2, e: e2, t: t2 },
            KeyView::TripleValueAttrEntity { r: r3, a: a3, e: e3, t: t3 },
        ) => {
            lemma_chained_u64(r1, r2, r3);
            lemma_chained_u64(a1, a2, a3);
            lemma_chained_two_ids(e1, t1, e2, t2, e3, t3);
            let l_xy = refined(u64_order(e1, e2), reversed(u64_order(t1, t2)));
            let l_yz = refined(u64_order(e2, e3), reversed(u64_order(t2, t3)));
            let l_xz = refined(u64_order(e1, e3), reversed(u64_order(t1, t3)));
            lemma_chained_refined(
                u64_order(a1, a2),
                u64_order(a2, a3),
                u64_order(a1, a3),
                l_xy,
                l_yz,
                l_xz,
            );
            lemma_chained_refined(
                u64_order(r1, r2),
                u64_order(r2, r3),
                u64_order(r1, r3),
                refined(u64_order(a1, a2), l_xy),
                refined(u64_order(a2, a3), l_yz),
                refined(u64_order(a1, a3), l_xz),
            );
        },
        (
            KeyView::AttrById { a: a1, t: t1 },
            KeyView::AttrById { a: a2, t: t2 },
            KeyView::AttrById { a: a3, t: t3 },
        ) => {
            lemma_chained_two_ids(a1, t1, a2, t2, a3, t3);
        },
        (
            KeyView::AttrByKeyword { kw: kw1, t: t1 },
            KeyView::AttrByKeyword { kw: kw2, t: t2 },
            KeyView::AttrByKeyword { kw: kw3, t: t3 },
        ) => {
            lemma_chained_keyword(kw1, kw2, kw3);
            lemma_chained_u64(t1, t2, t3);
            lemma_chained_refined(
                keyword_order(kw1, kw2),
                keyword_order(kw2, kw3),
                keyword_order(kw1, kw3),
                reversed(u64_order(t1, t2)),
                reversed(u64_order(t2, t3)),
                reversed(u64_order(t1, t3)),
            );
        },
        (KeyView::Tx { t: t1 }, KeyView::Tx { t: t2 }, KeyView::Tx { t: t3 }) => {
            lemma_chained_u64(t1, t2, t3);
        },
        (
            KeyView::UniqueEntity { e: e1 },
            KeyView::UniqueEntity { e: e2 },
            KeyView::UniqueEntity { e: e3 },
        ) => {
            lemma_chained_u64(e1, e2, e3);
        },
        (
            KeyView::UniqueAttrValue { a: a1, v: v1 },
            KeyView::UniqueAttrValue { a: a2, v: v2 },
            KeyView::UniqueAttrValue { a: a3, v: v3 },
        ) => {
            lemma_chained_u64(a1, a2, a3);
            lemma_chained_value(v1, v2, v3);
            lemma_chained_refined(
                u64_order(a1, a2),
                u64_order(a2, a3),
                u64_order(a1, a3),
                value_order(v1, v2),
                value_order(v2, v3),
                value_order(v1, v3),
            );
        },
        (
            KeyView::UniqueAttrById { a: a1 },
            KeyView::UniqueAttrById { a: a2 },
            KeyView::UniqueAttrById { a: a3 },
        ) => {
            lemma_chained_u64(a1, a2, a3);
        },
        (
            KeyView::UniqueAttrByKeyword { kw: kw1 },
            KeyView::UniqueAttrByKeyword { kw: kw2 },
            KeyView::UniqueAttrByKeyword { kw: kw3 },
        ) => {
            lemma_chained_keyword(kw1, kw2, kw3);
        },
        _ => {},
    }
}

/// The order of keys is transitive.
pub proof fn lemma_logical_order_transitive(x: KeyView, y: KeyView, z: KeyView)
    requires
        logical_order(x, y) == Ordering::Less,
        logical_order(y, z) == Ordering::Less,
    ensures
        logical_order(x, z) == Ordering::Less,
{
    if x.tag() == y.tag() && y.tag() == z.tag() {
        lemma_chained_same_kind(x, y, z);
    } else {
        if x.tag() != y.tag() {
            lemma_logical_order_by_tag(x, y);
        }
        if y.tag() != z.tag() {
            lemma_logical_order_by_tag(y, z);
        }
        if x.tag() != z.tag() {
            lemma_logical_order_by_tag(x, z);
        }
    }
}

/// On byte strings that are keys the comparator is a total order: it ties
/// only a key with itself, swapping the arguments turns the result round, and
/// it is transitive. It is the order of the keys' fields.
pub proof fn lemma_key_order_total(a: Seq<u8>, b: Seq<u8>, c: Seq<u8>)
    requires
        parse_key(a) is Some,
        parse_key(b) is Some,
        parse_key(c) is Some,
    ensures
        key_order(a, b) == logical_order(parse_key(a)->0, parse_key(b)->0),
        key_order(a, b) == Ordering::Equal <==> a == b,
        key_order(b, a) == reversed(key_order(a, b)),
        key_order(a, b) == Ordering::Less && key_order(b, c) == Ordering::Less ==> key_order(a, c)
            == Ordering::Less,
{
    let x = parse_key(a)->0;
    let y = parse_key(b)->0;
    let z = parse_key(c)->0;
    lemma_parsed_key_is_encoded(a);
    lemma_parsed_key_is_encoded(b);
    lemma_parsed_key_is_encoded(c);
    lemma_order_of_encoded_keys(x, y);
    lemma_order_of_encoded_keys(y, x);
    lemma_order_of_encoded_keys(y, z);
    lemma_order_of_encoded_keys(x, z);
    lemma_logical_order_antisymmetric(x, y);
    if logical_order(x, y) == Ordering::Less && logical_order(y, z) == Ordering::Less {
        lemma_logical_order_transitive(x, y, z);
    }
}

/// A byte string that is a key holds all that the comparator reads of it.
pub proof fn lemma_key_is_comparable(s: Seq<u8>)
    requires
        parse_key(s) is Some,
    ensures
        comparable(s),
{
}

/// The number a foreign caller takes for a comparison result.
pub open spec fn sign_of(o: Ordering) -> i8 {
    match o {
        Ordering::Greater => 1i8,
        Ordering::Equal => 0i8,
        Ordering::Less => -1i8,
    }
}

/// What keeps a pair of byte strings from being compared.
pub open spec fn pair_fault(a: Seq<u8>, b: Seq<u8>) -> KeyError {
    if a.len() > 0 && b.len() > 0 && StorageTag::of_byte(a[0]) is None {
        KeyError::UnknownTag(a[0])
    } else {
        KeyError::Malformed
    }
}

/// The comparator in the form the storage engine calls it: 1, 0 or -1.
pub fn rusty_cmp(a: &[u8], b: &[u8]) -> (r: i8)
    requires
        comparable_pair(a@, b@),
    ensures
        r == sign_of(key_order(a@, b@)),
{
    match compare_key(a, b) {
        Ordering::Greater => 1,
        Ordering::Equal => 0,
        Ordering::Less => -1,
    }
}

/// Compares two keys. Keys with different tag bytes are ordered by the tag
/// byte alone, whatever else they hold.
pub fn compare_key(a: &[u8], b: &[u8]) -> (r: Ordering)
    requires
        comparable_pair(a@, b@),
    ensures
        r == key_order(a@, b@),
        a@[0] != b@[0] ==> r == u8_order(a@[0], b@[0]),
{
    match order_u8(a[0], b[0]) {
        Ordering::Equal => {},
        o => {
            return o;
        },
    }
    let tag = StorageTag::try_from(a[0]).unwrap();
    match tag {
        StorageTag::TripleEntityAttrValue => compare_key_triple_eav(a, b),
        StorageTag::TripleAttrEntityValue => compare_key_triple_aev(a, b),
        StorageTag::TripleAttrValueEntity => compare_key_triple_ave(a, b),
        StorageTag::TripleValueAttrEntity => compare_key_triple_vae(a, b),
        StorageTag::AttrById => compare_key_attr_by_id(a, b),
        StorageTag::AttrByKeyword => compare_key_attr_by_kw(a, b),
        StorageTag::Tx => compare_key_tx(a, b),
        StorageTag::UniqueEntity => compare_key_unique_entity(a, b),
        StorageTag::UniqueAttrValue => compare_key_unique_attr_val(a, b),
        StorageTag::UniqueAttrById => compare_key_unique_attr_by_id(a, b),
        StorageTag::UniqueAttrByKeyword => compare_key_unique_attr_by_kw(a, b),
    }
}

/// Whether what the comparator reads of `src` is there, and if not, why.
pub fn check_comparable(src: &[u8]) -> (r: Result<(), KeyError>)
    ensures
        match r {
            Ok(_) => comparable(src@),
            Err(err) => !comparable(src@) && err == (if src@.len() > 0 && StorageTag::of_byte(
                src@[0],
            ) is None {
                KeyError::UnknownTag(src@[0])
            } else {
                KeyError::Malformed
            }),
        },
{
    if src.len() == 0 {
        return Err(KeyError::Malformed);
    }
    let tag = match StorageTag::try_from(src[0]) {
        Ok(tag) => tag,
        Err(b) => {
            return Err(KeyError::UnknownTag(b));
        },
    };
    match tag {
        StorageTag::TripleEntityAttrValue
        | StorageTag::TripleAttrEntityValue
        | StorageTag::TripleAttrValueEntity => match decode_value_from_key(src) {
            Ok(_) => Ok(()),
            Err(err) => Err(err),
        },
        StorageTag::TripleValueAttrEntity => match decode_vae_key(src) {
            Ok(_) => Ok(()),
            Err(err) => Err(err),
        },
        StorageTag::AttrById => match decode_attr_key_by_id(src) {
            Ok(_) => Ok(()),
            Err(err) => Err(err),
        },
        StorageTag::AttrByKeyword => match decode_attr_key_by_kw(src) {
            Ok(_) => Ok(()),
            Err(err) => Err(err),
        },
        StorageTag::UniqueAttrValue => match decode_unique_attr_val(src) {
            Ok(_) => Ok(()),
            Err(err) => Err(err),
        },
        StorageTag::Tx
        | StorageTag::UniqueEntity
        | StorageTag::UniqueAttrById
        | StorageTag::UniqueAttrByKeyword => Ok(()),
    }
}

/// Compares two byte strings as keys where they can be compared, and says
/// what is wrong where they cannot: the comparator for bytes whose origin is
/// not known.
pub fn try_compare_key(a: &[u8], b: &[u8]) -> (r: Result<Ordering, KeyError>)
    ensures
        match r {
            Ok(o) => comparable_pair(a@, b@) && o == key_order(a@, b@),
            Err(err) => !comparable_pair(a@, b@) && err == pair_fault(a@, b@),
        },
{
    if a.len() == 0 || b.len() == 0 {
        return Err(KeyError::Malformed);
    }
    if a[0] == b[0] {
        match check_comparable(a) {
            Ok(_) => {},
            Err(err) => {
                return Err(err);
            },
        }
        match check_comparable(b) {
            Ok(_) => {},
            Err(err) => {
                return Err(err);
            },
        }
    }
    Ok(compare_key(a, b))
}

/// Compares two keys by entity, attribute, value, then newest transaction
/// first.
pub fn compare_key_triple_eav(a: &[u8], b: &[u8]) -> (r: Ordering)
    requires
        triple_value(a@) is Some,
        triple_value(b@) is Some,
    ensures
        r == eav_order(a@, b@),
{
    let (a_e, a_a, a_t) = decode_ea_key(a).unwrap();
    let (b_e, b_a, b_t) = decode_ea_key(b).unwrap();

    match order_u64(a_e.0, b_e.0) {
        Ordering::Equal => {},
        o => {
            return o;
        },
    }
    match order_u64(a_a.0, b_a.0) {
        Ordering::Equal => {},
        o => {
            return o;
        },
    }

    let a_v = decode_value_from_key(a).unwrap();
    let b_v = decode_value_from_key(b).unwrap();

    match a_v.compare(&b_v) {
        Ordering::Equal => {},
        o => {
            return o;
        },
    }
    reverse(order_u64(a_t.0, b_t.0))
}

/// Compares two keys by attribute, entity, value, then newest transaction
/// first.
pub fn compare_key_triple_aev(a: &[u8], b: &[u8]) -> (r: Ordering)
    requires
        triple_value(a@) is Some,
        triple_value(b@) is Some,
    ensures
        r == aev_order(a@, b@),
{
    let (a_a, a_e, a_t) = decode_ae_key(a).unwrap();
    let (b_a, b_e, b_t) = decode_ae_key(b).unwrap();

    match order_u64(a_a.0, b_a.0) {
        Ordering::Equal => {},
        o => {
            return o;
        },
    }
    match order_u64(a_e.0, b_e.0) {
        Ordering::Equal => {},
        o => {
            return o;
        },
    }

    let a_v = decode_value_from_key(a).unwrap();
    let b_v = decode_value_from_key(b).unwrap();

    match a_v.compare(&b_v) {
        Ordering::Equal => {},
        o => {
            return o;
        },
    }
    reverse(order_u64(a_t.0, b_t.0))
}

/// Compares two keys by attribute, value, entity, then newest transaction
/// first.
pub fn compare_key_triple_ave(a: &[u8], b: &[u8]) -> (r: Ordering)
    requires
        triple_value(a@) is Some,
        triple_value(b@) is Some,
    ensures
        r == ave_order(a@, b@),
{
    let (a_a, a_e, a_t) = decode_ae_key(a).unwrap();
    let (b_a, b_e, b_t) = decode_ae_key(b).unwrap();

    match order_u64(a_a.0, b_a.0) {
        Ordering::Equal => {},
        o => {
            return o;
        },
    }

    let a_v = decode_value_from_key(a).unwrap();
    let b_v = decode_value_from_key(b).unwrap();

    match a_v.compare(&b_v) {
        Ordering::Equal => {},
        o => {
            return o;
        },
    }
    match order_u64(a_e.0, b_e.0) {
        Ordering::Equal => {},
        o => {
            return o;
        },
    }
    reverse(order_u64(a_t.0, b_t.0))
}

/// Compares two keys by referred entity, attribute, entity, then newest
/// transaction first.
pub fn compare_key_triple_vae(a: &[u8], b: &[u8]) -> (r: Ordering)
    requires
        a@.len() >= 33,
        b@.len() >= 33,
    ensures
        r == vae_order(a@, b@),
{
    let (a_v, a_a, a_e, a_t) = decode_vae_key(a).unwrap();
    let (b_v, b_a, b_e, b_t) = decode_vae_key(b).unwrap();

    match order_u64(a_v.0, b_v.0) {
        Ordering::Equal => {},
        o => {
            return o;
        },
    }
    match order_u64(a_a.0, b_a.0) {
        Ordering::Equal => {},
        o => {
            return o;
        },
    }
    match order_u64(a_e.0, b_e.0) {
        Ordering::Equal => {},
        o => {
            return o;
        },
    }
    reverse(order_u64(a_t.0, b_t.0))
}

/// Compares two keys by attribute, then newest transaction first.
pub fn compare_key_attr_by_id(a: &[u8], b: &[u8]) -> (r: Ordering)
    requires
        a@.len() >= 17,
        b@.len() >= 17,
    ensures
        r == attr_by_id_order(a@, b@),
{
    let (a_a, a_t) = decode_attr_key_by_id(a).unwrap();
    let (b_a, b_t) = decode_attr_key_by_id(b).unwrap();

    match order_u64(a_a.0, b_a.0) {
        Ordering::Equal => {},
        o => {
            return o;
        },
    }
    reverse(order_u64(a_t.0, b_t.0))
}

/// Compares two keys by keyword, then newest transaction first.
pub fn compare_key_attr_by_kw(a: &[u8], b: &[u8]) -> (r: Ordering)
    requires
        attr_keyword(a@) is Some,
        attr_keyword(b@) is Some,
    ensures
        r == attr_by_kw_order(a@, b@),
{
    let (a_kw, a_t) = decode_attr_key_by_kw(a).unwrap();
    let (b_kw, b_t) = decode_attr_key_by_kw(b).unwrap();

    match order_bytes(a_kw.as_str().as_bytes(), b_kw.as_str().as_bytes()) {
        Ordering::Equal => {},
        o => {
            return o;
        },
    }
    reverse(order_u64(a_t.0, b_t.0))
}

/// Compares two keys by their bytes, the larger first.
pub fn compare_key_tx(a: &[u8], b: &[u8]) -> (r: Ordering)
    ensures
        r == reversed(bytes_order(a@, b@)),
{
    reverse(order_bytes(a, b))
}

/// Compares two keys by their bytes.
pub fn compare_key_unique_entity(a: &[u8], b: &[u8]) -> (r: Ordering)
    ensures
        r == bytes_order(a@, b@),
{
    order_bytes(a, b)
}

/// Compares two keys by attribute, then value.
pub fn compare_key_unique_attr_val(a: &[u8], b: &[u8]) -> (r: Ordering)
    requires
        unique_value(a@) is Some,
        unique_value(b@) is Some,
    ensures
        r == unique_attr_val_order(a@, b@),
{
    let (a_a, a_v) = decode_unique_attr_val(a).unwrap();
    let (b_a, b_v) = decode_unique_attr_val(b).unwrap();
    match order_u64(a_a.0, b_a.0) {
        Ordering::Equal => {},
        o => {
            return o;
        },
    }
    a_v.compare(&b_v)
}

/// Compares two keys by their bytes.
pub fn compare_key_unique_attr_by_id(a: &[u8], b: &[u8]) -> (r: Ordering)
    ensures
        r == bytes_order(a@, b@),
{
    order_bytes(a, b)
}

/// Compares two keys by their bytes.
pub fn compare_key_unique_attr_by_kw(a: &[u8], b: &[u8]) -> (r: Ordering)
    ensures
        r == bytes_order(a@, b@),
{
    order_bytes(a, b)
}

} // verus!
