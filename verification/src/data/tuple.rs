//! Keys of relation rows: the identifier of the relation followed by the
//! encoded values of the row, one after another.
use crate::data::bytes::{
    be_bytes, be_value, lemma_be_bytes_order, lemma_be_value_of_bytes,
    lemma_lex_lt_common_prefix, lemma_lex_lt_same_length, lex_lt, push_be, read_be,
};
use crate::data::codec::{
    encode_value, lemma_encoded_value_order, lemma_parse_encoded_value,
    lemma_parsed_value_is_encoded, parse_value, push_value, read_value,
};
use crate::data::value::{value_lt, DataValue, ValueView};
use crate::runtime::relation::RelationId;
use vstd::prelude::*;

verus! {

/// Number of bytes the relation identifier takes at the start of a row key.
pub const DB_KEY_PREFIX_LEN: usize = 8;

/// What the values of a row denote.
pub open spec fn views(t: Seq<DataValue>) -> Seq<ValueView> {
    t.map_values(|v: DataValue| v@)
}

/// The encodings of the values of `t`, one after another.
pub open spec fn encode_values(t: Seq<ValueView>) -> Seq<u8>
    decreases t.len(),
{
    if t.len() == 0 {
        Seq::empty()
    } else {
        encode_value(t[0]) + encode_values(t.skip(1))
    }
}

/// The key of the row `t` of the relation `rel`.
pub open spec fn tuple_key(rel: u64, t: Seq<ValueView>) -> Seq<u8> {
    be_bytes(rel) + encode_values(t)
}

/// The values that `s` encodes one after another from its first to its last
/// byte, if any.
pub open spec fn parse_values(s: Seq<u8>) -> Option<Seq<ValueView>>
    decreases s.len(),
{
    if s.len() == 0 {
        Some(Seq::empty())
    } else {
        match parse_value(s) {
            Some((v, n)) => if 1 <= n <= s.len() {
                match parse_values(s.skip(n)) {
                    Some(rest) => Some(seq![v] + rest),
                    None => None,
                }
            } else {
                None
            },
            None => None,
        }
    }
}

/// The relation and the row that `s` is the key of, if any.
pub open spec fn parse_tuple_key(s: Seq<u8>) -> Option<(u64, Seq<ValueView>)> {
    if s.len() < 8 {
        None
    } else {
        match parse_values(s.skip(8)) {
            Some(t) => Some((be_value(s), t)),
            None => None,
        }
    }
}

/// The encoded values of a row are read back as they were written.
pub proof fn lemma_parse_encoded_values(t: Seq<ValueView>)
    ensures
        parse_values(encode_values(t)) == Some(t),
    decreases t.len(),
{
    let s = encode_values(t);
    if t.len() == 0 {
        assert(t =~= Seq::empty());
    } else {
        let rest = encode_values(t.skip(1));
        lemma_parse_encoded_value(t[0], rest);
        lemma_parse_encoded_values(t.skip(1));
        assert(s.skip(encode_value(t[0]).len() as int) =~= rest);
        assert(seq![t[0]] + t.skip(1) =~= t);
    }
}

/// The key of a row is read back as the relation and the row it was made of.
pub proof fn lemma_parse_tuple_key(rel: u64, t: Seq<ValueView>)
    ensures
        tuple_key(rel, t).len() >= 8,
        parse_tuple_key(tuple_key(rel, t)) == Some((rel, t)),
{
    lemma_be_value_of_bytes(rel, encode_values(t));
    lemma_parse_encoded_values(t);
    assert(tuple_key(rel, t).skip(8) =~= encode_values(t));
}

/// The row `a` sorts strictly before the row `b`: at the first position where
/// they differ `a` holds the smaller value, or `a` is a proper prefix of `b`.
pub open spec fn row_lt(a: Seq<ValueView>, b: Seq<ValueView>) -> bool
    decreases a.len(),
{
    if b.len() == 0 {
        false
    } else if a.len() == 0 {
        true
    } else if a[0] != b[0] {
        value_lt(a[0], b[0])
    } else {
        row_lt(a.skip(1), b.skip(1))
    }
}

/// The encoded values of rows sort, byte by byte, as the rows do, and two
/// rows with the same bytes are the same row.
pub proof fn lemma_encoded_values_order(a: Seq<ValueView>, b: Seq<ValueView>)
    ensures
        lex_lt(encode_values(a), encode_values(b)) == row_lt(a, b),
        (encode_values(a) == encode_values(b)) == (a == b),
    decreases a.len(),
{
    lemma_parse_encoded_values(a);
    lemma_parse_encoded_values(b);
    if a.len() > 0 && b.len() > 0 {
        let ra = encode_values(a.skip(1));
        let rb = encode_values(b.skip(1));
        if a[0] != b[0] {
            lemma_encoded_value_order(a[0], b[0], ra, rb);
        } else {
            lemma_lex_lt_common_prefix(encode_value(a[0]), ra, rb);
            lemma_encoded_values_order(a.skip(1), b.skip(1));
        }
    } else if a.len() == 0 && b.len() > 0 {
        lemma_parse_encoded_value(b[0], encode_values(b.skip(1)));
    } else if a.len() == 0 {
        assert(a =~= b);
    }
}

/// Row keys sort, byte by byte, by relation first and then as the rows do.
pub proof fn lemma_tuple_key_order(r1: u64, a: Seq<ValueView>, r2: u64, b: Seq<ValueView>)
    ensures
        lex_lt(tuple_key(r1, a), tuple_key(r2, b)) == (r1 < r2 || (r1 == r2 && row_lt(a, b))),
        (tuple_key(r1, a) == tuple_key(r2, b)) == (r1 == r2 && a == b),
{
    lemma_be_bytes_order(r1, r2);
    lemma_encoded_values_order(a, b);
    if r1 != r2 {
        lemma_lex_lt_same_length(be_bytes(r1), be_bytes(r2), encode_values(a), encode_values(b));
    } else {
        lemma_lex_lt_common_prefix(be_bytes(r1), encode_values(a), encode_values(b));
    }
}

/// The key under which the row `tuple` of the relation `prefix` is stored.
pub fn encode_as_key(tuple: &[DataValue], prefix: RelationId) -> (out: Vec<u8>)
    ensures
        out@ == tuple_key(prefix.0, views(tuple@)),
        parse_tuple_key(out@) == Some((prefix.0, views(tuple@))),
{
    let ghost row = views(tuple@);
    let mut out: Vec<u8> = Vec::new();
    push_be(&mut out, prefix.0);
    let mut i: usize = 0;
    assert(row.skip(0) =~= row);
    assert(out@ =~= be_bytes(prefix.0));
    while i < tuple.len()
        invariant
            i <= tuple@.len(),
            row == views(tuple@),
            out@ + encode_values(row.skip(i as int)) =~= tuple_key(prefix.0, row),
        decreases tuple@.len() - i,
    {
        let ghost before = out@;
        assert(row.skip(i as int)[0] == tuple@[i as int]@);
        assert(row.skip(i as int).skip(1) =~= row.skip(i + 1));
        push_value(&mut out, &tuple[i]);
        assert(out@ + encode_values(row.skip(i + 1)) =~= before + encode_values(
            row.skip(i as int),
        ));
        i += 1;
    }
    proof {
        assert(row.skip(i as int).len() == 0);
        assert(out@ =~= tuple_key(prefix.0, row));
        lemma_parse_tuple_key(prefix.0, row);
    }
    out
}

/// The relation and the row that `key` is the key of, or `None` where `key`
/// is no row key.
pub fn decode_tuple_from_key(key: &[u8]) -> (r: Option<(RelationId, Vec<DataValue>)>)
    ensures
        match parse_tuple_key(key@) {
            Some((rel, t)) => r matches Some((id, row)) && id.0 == rel && views(row@) == t,
            None => r is None,
        },
{
    if key.len() < DB_KEY_PREFIX_LEN {
        return None;
    }
    assert(key@.skip(0) =~= key@);
    let rel = RelationId::new(read_be(key, 0));
    let mut row: Vec<DataValue> = Vec::new();
    let mut i: usize = DB_KEY_PREFIX_LEN;
    assert(views(row@) =~= Seq::empty());
    assert forall|rest: Seq<ValueView>| Seq::<ValueView>::empty() + rest == rest by {
        assert(Seq::<ValueView>::empty() + rest =~= rest);
    }
    while i < key.len()
        invariant
            8 <= i <= key@.len(),
            parse_values(key@.skip(8)) == (match parse_values(key@.skip(i as int)) {
                Some(rest) => Some(views(row@) + rest),
                None => None,
            }),
        decreases key@.len() - i,
    {
        let ghost here = key@.skip(i as int);
        let ghost before = views(row@);
        match read_value(key, i) {
            Some((v, next)) => {
                proof {
                    lemma_parsed_value_is_encoded(here);
                    assert(here.skip(next - i) =~= key@.skip(next as int));
                }
                let ghost shown = v@;
                row.push(v);
                proof {
                    assert(views(row@) =~= before + seq![shown]);
                    assert forall|rest: Seq<ValueView>|
                        before + (seq![shown] + rest) == views(row@) + rest by {
                        assert(before + (seq![shown] + rest) =~= views(row@) + rest);
                    }
                }
                i = next;
            },
            None => {
                return None;
            },
        }
    }
    proof {
        assert(key@.skip(i as int).len() == 0);
        assert(views(row@) + Seq::<ValueView>::empty() =~= views(row@));
    }
    Some((rel, row))
}

} // verus!
