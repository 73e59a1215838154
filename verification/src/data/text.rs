//! Self-delimiting, order-preserving encoding of byte strings of any length.
//!
//! A zero byte inside the text is written as `00 FF`, every other byte as
//! itself, and the text ends with `00 00`. The end mark is smaller than
//! anything that can follow in a longer text, so encoded texts sort like the
//! texts themselves, whatever bytes come after them.
use crate::data::bytes::{lemma_lex_lt_common_prefix, lex_lt};
use vstd::prelude::*;

verus! {

/// The encoding of the text `b`.
pub open spec fn encode_text(b: Seq<u8>) -> Seq<u8>
    decreases b.len(),
{
    if b.len() == 0 {
        seq![0u8, 0u8]
    } else if b[0] == 0 {
        seq![0u8, 0xffu8] + encode_text(b.skip(1))
    } else {
        seq![b[0]] + encode_text(b.skip(1))
    }
}

/// The text encoded at the start of `s` and the number of bytes its encoding
/// takes, or `None` where `s` does not start with an encoded text.
pub open spec fn parse_text(s: Seq<u8>) -> Option<(Seq<u8>, int)>
    decreases s.len(),
{
    if s.len() == 0 {
        None
    } else if s[0] != 0 {
        match parse_text(s.skip(1)) {
            Some((t, n)) => Some((seq![s[0]] + t, n + 1)),
            None => None,
        }
    } else if s.len() < 2 {
        None
    } else if s[1] == 0 {
        Some((Seq::empty(), 2))
    } else if s[1] == 0xff {
        match parse_text(s.skip(2)) {
            Some((t, n)) => Some((seq![0u8] + t, n + 2)),
            None => None,
        }
    } else {
        None
    }
}

/// An encoded text is read back as it was written, whatever follows it.
pub proof fn lemma_parse_encoded_text(b: Seq<u8>, rest: Seq<u8>)
    ensures
        encode_text(b).len() >= 2,
        parse_text(encode_text(b) + rest) == Some((b, encode_text(b).len() as int)),
    decreases b.len(),
{
    let s = encode_text(b) + rest;
    if b.len() == 0 {
        assert(s[0] == 0 && s[1] == 0);
        assert(b =~= Seq::empty());
    } else if b[0] == 0 {
        lemma_parse_encoded_text(b.skip(1), rest);
        assert(s[0] == 0 && s[1] == 0xff);
        assert(s.skip(2) =~= encode_text(b.skip(1)) + rest);
        assert(seq![0u8] + b.skip(1) =~= b);
    } else {
        lemma_parse_encoded_text(b.skip(1), rest);
        assert(s[0] == b[0]);
        assert(s.skip(1) =~= encode_text(b.skip(1)) + rest);
        assert(seq![b[0]] + b.skip(1) =~= b);
    }
}

/// What was read as a text is the encoding of that text and nothing else.
pub proof fn lemma_parsed_text_is_encoded(s: Seq<u8>)
    requires
        parse_text(s) is Some,
    ensures
        parse_text(s) matches Some((t, n)) && 2 <= n <= s.len() && s.subrange(0, n)
            == encode_text(t),
    decreases s.len(),
{
    if s[0] != 0 {
        let tail = s.skip(1);
        lemma_parsed_text_is_encoded(tail);
        let (t, n) = parse_text(tail)->0;
        assert((seq![s[0]] + t).skip(1) =~= t);
        assert(s.subrange(0, n + 1) =~= seq![s[0]] + tail.subrange(0, n));
    } else if s[1] == 0 {
        assert(s.subrange(0, 2) =~= seq![0u8, 0u8]);
    } else {
        let tail = s.skip(2);
        lemma_parsed_text_is_encoded(tail);
        let (t, n) = parse_text(tail)->0;
        assert((seq![0u8] + t).skip(1) =~= t);
        assert(s.subrange(0, n + 2) =~= seq![0u8, 0xffu8] + tail.subrange(0, n));
    }
}

/// Encodings of two different texts sort as the texts do, whatever follows
/// each of them.
pub proof fn lemma_encoded_text_order(x: Seq<u8>, y: Seq<u8>, r1: Seq<u8>, r2: Seq<u8>)
    requires
        x != y,
    ensures
        lex_lt(encode_text(x) + r1, encode_text(y) + r2) == lex_lt(x, y),
    decreases x.len(),
{
    let a = encode_text(x) + r1;
    let b = encode_text(y) + r2;
    if x.len() == 0 {
        if y.len() == 0 {
            assert(x =~= y);
        }
        assert(a[0] == 0 && a[1] == 0);
        if y[0] == 0 {
            assert(b[0] == 0 && b[1] == 0xff);
            assert(a.skip(1)[0] == 0 && b.skip(1)[0] == 0xff);
            assert(lex_lt(a.skip(1), b.skip(1)));
        } else {
            assert(b[0] == y[0]);
        }
        assert(lex_lt(a, b));
    } else if y.len() == 0 {
        assert(b[0] == 0 && b[1] == 0);
        if x[0] == 0 {
            assert(a[0] == 0 && a[1] == 0xff);
            assert(a.skip(1)[0] == 0xff && b.skip(1)[0] == 0);
            assert(!lex_lt(a.skip(1), b.skip(1)));
        } else {
            assert(a[0] == x[0]);
        }
        assert(!lex_lt(a, b));
    } else if x[0] != y[0] {
        assert(a[0] == x[0]);
        assert(b[0] == y[0]);
        assert(lex_lt(a, b) == (x[0] < y[0]));
    } else {
        let p = if x[0] == 0 {
            seq![0u8, 0xffu8]
        } else {
            seq![x[0]]
        };
        let ta = encode_text(x.skip(1)) + r1;
        let tb = encode_text(y.skip(1)) + r2;
        assert(a =~= p + ta);
        assert(b =~= p + tb);
        lemma_lex_lt_common_prefix(p, ta, tb);
        if x.skip(1) == y.skip(1) {
            assert(x =~= seq![x[0]] + x.skip(1));
            assert(y =~= seq![y[0]] + y.skip(1));
        }
        lemma_encoded_text_order(x.skip(1), y.skip(1), r1, r2);
    }
}

/// Appends the encoding of the text `src` to `buf`.
pub fn push_text(buf: &mut Vec<u8>, src: &[u8])
    ensures
        final(buf)@ == old(buf)@ + encode_text(src@),
{
    let mut i: usize = 0;
    assert(src@.skip(0) =~= src@);
    while i < src.len()
        invariant
            i <= src@.len(),
            buf@ + encode_text(src@.skip(i as int)) =~= old(buf)@ + encode_text(src@),
        decreases src@.len() - i,
    {
        let ghost before = buf@;
        let ghost here = src@.skip(i as int);
        assert(here.skip(1) =~= src@.skip(i + 1));
        assert(here[0] == src@[i as int]);
        let b = src[i];
        if b == 0 {
            buf.push(0);
            buf.push(0xff);
            assert(buf@ =~= before + seq![0u8, 0xffu8]);
        } else {
            buf.push(b);
            assert(buf@ =~= before + seq![b]);
        }
        i += 1;
    }
    assert(src@.skip(i as int).len() == 0);
    buf.push(0);
    buf.push(0);
}

/// Reads the text whose encoding starts at `src[at]`. Gives the text and the
/// position behind its end mark.
pub fn read_text(src: &[u8], at: usize) -> (r: Option<(Vec<u8>, usize)>)
    requires
        at <= src@.len(),
    ensures
        match parse_text(src@.skip(at as int)) {
            Some((t, n)) => r matches Some((out, next)) && out@ == t && next == at + n,
            None => r is None,
        },
{
    let mut out: Vec<u8> = Vec::new();
    let mut i: usize = at;
    assert(out@ + Seq::<u8>::empty() =~= Seq::<u8>::empty());
    loop
        invariant
            at <= i <= src@.len(),
            parse_text(src@.skip(at as int)) == (match parse_text(src@.skip(i as int)) {
                Some((t, n)) => Some((out@ + t, n + (i - at))),
                None => None,
            }),
        decreases src@.len() - i,
    {
        let ghost here = src@.skip(i as int);
        let ghost before = out@;
        if i >= src.len() {
            return None;
        }
        assert(here[0] == src@[i as int]);
        let b = src[i];
        if b != 0 {
            out.push(b);
            assert(here.skip(1) =~= src@.skip(i + 1));
            assert forall|t: Seq<u8>| before + (seq![b] + t) == out@ + t by {
                assert(before + (seq![b] + t) =~= out@ + t);
            }
            i += 1;
        } else {
            if i + 1 >= src.len() {
                return None;
            }
            assert(here[1] == src@[i + 1]);
            let c = src[i + 1];
            if c == 0 {
                assert(before + Seq::<u8>::empty() =~= before);
                return Some((out, i + 2));
            } else if c == 0xff {
                out.push(0);
                assert(here.skip(2) =~= src@.skip(i + 2));
                assert forall|t: Seq<u8>| before + (seq![0u8] + t) == out@ + t by {
                    assert(before + (seq![0u8] + t) =~= out@ + t);
                }
                i += 2;
            } else {
                return None;
            }
        }
    }
}

} // verus!
