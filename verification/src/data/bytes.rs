//! Byte strings: lexicographic order and big-endian integers.
//!
//! Everything that is stored ends up as a byte string, and the underlying
//! engine orders byte strings. This module fixes what "less than" means for
//! two byte strings and shows that the fixed-width big-endian image of an
//! unsigned integer sorts exactly like the integer itself.
use vstd::prelude::*;

verus! {

/// `a` sorts strictly before `b` in lexicographic byte order: at the first
/// position where they differ `a` holds the smaller byte, or `a` is a proper
/// prefix of `b`.
pub open spec fn lex_lt(a: Seq<u8>, b: Seq<u8>) -> bool
    decreases a.len(),
{
    if b.len() == 0 {
        false
    } else if a.len() == 0 {
        true
    } else if a[0] != b[0] {
        a[0] < b[0]
    } else {
        lex_lt(a.skip(1), b.skip(1))
    }
}

/// No byte string sorts before itself.
pub proof fn lemma_lex_lt_irreflexive(a: Seq<u8>)
    ensures
        !lex_lt(a, a),
    decreases a.len(),
{
    if a.len() > 0 {
        lemma_lex_lt_irreflexive(a.skip(1));
    }
}

/// Two byte strings never sort before each other.
pub proof fn lemma_lex_lt_asymmetric(a: Seq<u8>, b: Seq<u8>)
    ensures
        !(lex_lt(a, b) && lex_lt(b, a)),
    decreases a.len(),
{
    if a.len() > 0 && b.len() > 0 && a[0] == b[0] {
        lemma_lex_lt_asymmetric(a.skip(1), b.skip(1));
    }
}

/// Two different byte strings are always ordered one way or the other.
pub proof fn lemma_lex_lt_connected(a: Seq<u8>, b: Seq<u8>)
    ensures
        a != b ==> lex_lt(a, b) || lex_lt(b, a),
    decreases a.len(),
{
    if a.len() == 0 || b.len() == 0 {
        if a.len() == 0 && b.len() == 0 {
            assert(a =~= b);
        }
    } else if a[0] == b[0] {
        lemma_lex_lt_connected(a.skip(1), b.skip(1));
        if a.skip(1) == b.skip(1) {
            assert forall|i: int| 0 <= i < a.len() implies a[i] == b[i] by {
                if i > 0 {
                    assert(a[i] == a.skip(1)[i - 1]);
                    assert(b[i] == b.skip(1)[i - 1]);
                }
            }
            assert(a.len() == a.skip(1).len() + 1);
            assert(b.len() == b.skip(1).len() + 1);
            assert(a =~= b);
        }
    }
}

/// Lexicographic order is transitive.
pub proof fn lemma_lex_lt_transitive(a: Seq<u8>, b: Seq<u8>, c: Seq<u8>)
    requires
        lex_lt(a, b),
        lex_lt(b, c),
    ensures
        lex_lt(a, c),
    decreases a.len(),
{
    if a.len() > 0 && a[0] == b[0] && b[0] == c[0] {
        lemma_lex_lt_transitive(a.skip(1), b.skip(1), c.skip(1));
    }
}

/// A shared prefix does not change how two byte strings compare.
pub proof fn lemma_lex_lt_common_prefix(p: Seq<u8>, a: Seq<u8>, b: Seq<u8>)
    ensures
        lex_lt(p + a, p + b) == lex_lt(a, b),
        (p + a == p + b) == (a == b),
    decreases p.len(),
{
    if p.len() == 0 {
        assert(p + a =~= a);
        assert(p + b =~= b);
    } else {
        assert((p + a).skip(1) =~= p.skip(1) + a);
        assert((p + b).skip(1) =~= p.skip(1) + b);
        lemma_lex_lt_common_prefix(p.skip(1), a, b);
        if p + a == p + b {
            assert(a =~= (p + a).skip(p.len() as int));
            assert(b =~= (p + b).skip(p.len() as int));
        }
    }
}

/// Two byte strings that agree on their first `i` bytes compare as their
/// remainders do.
pub proof fn lemma_lex_lt_skip_equal(a: Seq<u8>, b: Seq<u8>, i: int)
    requires
        0 <= i <= a.len(),
        i <= b.len(),
        a.subrange(0, i) == b.subrange(0, i),
    ensures
        lex_lt(a, b) == lex_lt(a.skip(i), b.skip(i)),
        (a == b) == (a.skip(i) == b.skip(i)),
{
    let p = a.subrange(0, i);
    assert(a =~= p + a.skip(i));
    assert(b =~= p + b.skip(i));
    lemma_lex_lt_common_prefix(p, a.skip(i), b.skip(i));
}

/// Where two different byte strings of one length are each followed by more
/// bytes, the order is settled within the two strings.
pub proof fn lemma_lex_lt_same_length(p: Seq<u8>, q: Seq<u8>, r1: Seq<u8>, r2: Seq<u8>)
    requires
        p.len() == q.len(),
        p != q,
    ensures
        lex_lt(p + r1, q + r2) == lex_lt(p, q),
        p + r1 != q + r2,
    decreases p.len(),
{
    if p.len() == 0 {
        assert(p =~= q);
    } else if p[0] == q[0] {
        assert((p + r1).skip(1) =~= p.skip(1) + r1);
        assert((q + r2).skip(1) =~= q.skip(1) + r2);
        if p.skip(1) == q.skip(1) {
            assert(p =~= seq![p[0]] + p.skip(1));
            assert(q =~= seq![q[0]] + q.skip(1));
        }
        lemma_lex_lt_same_length(p.skip(1), q.skip(1), r1, r2);
    } else {
        assert((p + r1)[0] == p[0]);
        assert((q + r2)[0] == q[0]);
    }
}

/// Length of the longest common prefix of `a` and `b`.
pub fn mismatch(a: &[u8], b: &[u8]) -> (i: usize)
    ensures
        i <= a@.len(),
        i <= b@.len(),
        a@.subrange(0, i as int) == b@.subrange(0, i as int),
        i < a@.len() && i < b@.len() ==> a@[i as int] != b@[i as int],
{
    let mut i: usize = 0;
    while i < a.len() && i < b.len() && a[i] == b[i]
        invariant
            i <= a@.len(),
            i <= b@.len(),
            a@.subrange(0, i as int) =~= b@.subrange(0, i as int),
        decreases a@.len() - i,
    {
        i += 1;
    }
    i
}

/// Whether `a` sorts strictly before `b`.
pub fn bytes_lt(a: &[u8], b: &[u8]) -> (r: bool)
    ensures
        r == lex_lt(a@, b@),
{
    let i = mismatch(a, b);
    proof {
        lemma_lex_lt_skip_equal(a@, b@, i as int);
    }
    if i < a.len() && i < b.len() {
        a[i] < b[i]
    } else {
        i < b.len()
    }
}

/// Whether `a` and `b` hold the same bytes.
pub fn bytes_eq(a: &[u8], b: &[u8]) -> (r: bool)
    ensures
        r == (a@ == b@),
{
    let i = mismatch(a, b);
    proof {
        lemma_lex_lt_skip_equal(a@, b@, i as int);
        if i == a@.len() && i == b@.len() {
            assert(a@.skip(i as int) =~= b@.skip(i as int));
        } else if i < a@.len() && i < b@.len() {
            assert(a@.skip(i as int)[0] != b@.skip(i as int)[0]);
        } else {
            assert(a@.skip(i as int).len() != b@.skip(i as int).len());
        }
    }
    i == a.len() && i == b.len()
}

/// The eight bytes of `x`, most significant first.
pub open spec fn be_bytes(x: u64) -> Seq<u8> {
    seq![
        ((x >> 56) & 0xff) as u8,
        ((x >> 48) & 0xff) as u8,
        ((x >> 40) & 0xff) as u8,
        ((x >> 32) & 0xff) as u8,
        ((x >> 24) & 0xff) as u8,
        ((x >> 16) & 0xff) as u8,
        ((x >> 8) & 0xff) as u8,
        (x & 0xff) as u8,
    ]
}

/// The integer whose big-endian image is the first eight bytes of `s`.
pub open spec fn be_value(s: Seq<u8>) -> u64
    recommends
        s.len() >= 8,
{
    (s[0] as u64) << 56 | (s[1] as u64) << 48 | (s[2] as u64) << 40 | (s[3] as u64) << 32 | (
    s[4] as u64) << 24 | (s[5] as u64) << 16 | (s[6] as u64) << 8 | (s[7] as u64)
}

proof fn lemma_be_join_split(x: u64)
    by (bit_vector)
    ensures
        (((x >> 56) & 0xff) as u8 as u64) << 56 | (((x >> 48) & 0xff) as u8 as u64) << 48 | (((x
            >> 40) & 0xff) as u8 as u64) << 40 | (((x >> 32) & 0xff) as u8 as u64) << 32 | (((x
            >> 24) & 0xff) as u8 as u64) << 24 | (((x >> 16) & 0xff) as u8 as u64) << 16 | (((x
            >> 8) & 0xff) as u8 as u64) << 8 | ((x & 0xff) as u8 as u64) == x,
{
}

proof fn lemma_be_split_join(b0: u8, b1: u8, b2: u8, b3: u8, b4: u8, b5: u8, b6: u8, b7: u8)
    by (bit_vector)
    ensures
        ({
            let x = (b0 as u64) << 56 | (b1 as u64) << 48 | (b2 as u64) << 40 | (b3 as u64) << 32
                | (b4 as u64) << 24 | (b5 as u64) << 16 | (b6 as u64) << 8 | (b7 as u64);
            &&& ((x >> 56) & 0xff) as u8 == b0
            &&& ((x >> 48) & 0xff) as u8 == b1
            &&& ((x >> 40) & 0xff) as u8 == b2
            &&& ((x >> 32) & 0xff) as u8 == b3
            &&& ((x >> 24) & 0xff) as u8 == b4
            &&& ((x >> 16) & 0xff) as u8 == b5
            &&& ((x >> 8) & 0xff) as u8 == b6
            &&& (x & 0xff) as u8 == b7
        }),
{
}

proof fn lemma_be_digits_decide(x: u64, y: u64)
    by (bit_vector)
    ensures
        ({
            let x0 = ((x >> 56) & 0xff) as u8;
            let x1 = ((x >> 48) & 0xff) as u8;
            let x2 = ((x >> 40) & 0xff) as u8;
            let x3 = ((x >> 32) & 0xff) as u8;
            let x4 = ((x >> 24) & 0xff) as u8;
            let x5 = ((x >> 16) & 0xff) as u8;
            let x6 = ((x >> 8) & 0xff) as u8;
            let x7 = (x & 0xff) as u8;
            let y0 = ((y >> 56) & 0xff) as u8;
            let y1 = ((y >> 48) & 0xff) as u8;
            let y2 = ((y >> 40) & 0xff) as u8;
            let y3 = ((y >> 32) & 0xff) as u8;
            let y4 = ((y >> 24) & 0xff) as u8;
            let y5 = ((y >> 16) & 0xff) as u8;
            let y6 = ((y >> 8) & 0xff) as u8;
            let y7 = (y & 0xff) as u8;
            &&& x0 != y0 ==> (x < y <==> x0 < y0)
            &&& x0 == y0 && x1 != y1 ==> (x < y <==> x1 < y1)
            &&& x0 == y0 && x1 == y1 && x2 != y2 ==> (x < y <==> x2 < y2)
            &&& x0 == y0 && x1 == y1 && x2 == y2 && x3 != y3 ==> (x < y <==> x3 < y3)
            &&& x0 == y0 && x1 == y1 && x2 == y2 && x3 == y3 && x4 != y4 ==> (x < y <==> x4 < y4)
            &&& x0 == y0 && x1 == y1 && x2 == y2 && x3 == y3 && x4 == y4 && x5 != y5 ==> (x < y
                <==> x5 < y5)
            &&& x0 == y0 && x1 == y1 && x2 == y2 && x3 == y3 && x4 == y4 && x5 == y5 && x6 != y6
                ==> (x < y <==> x6 < y6)
            &&& x0 == y0 && x1 == y1 && x2 == y2 && x3 == y3 && x4 == y4 && x5 == y5 && x6 == y6
                && x7 != y7 ==> (x < y <==> x7 < y7)
            &&& x0 == y0 && x1 == y1 && x2 == y2 && x3 == y3 && x4 == y4 && x5 == y5 && x6 == y6
                && x7 == y7 ==> x == y
        }),
{
}

/// Reading back the big-endian image of an integer gives the integer, also
/// when other bytes follow the image.
pub proof fn lemma_be_value_of_bytes(x: u64, rest: Seq<u8>)
    ensures
        be_bytes(x).len() == 8,
        be_value(be_bytes(x) + rest) == x,
        be_value(be_bytes(x)) == x,
{
    lemma_be_join_split(x);
    let s = be_bytes(x) + rest;
    assert(s[0] == be_bytes(x)[0]);
    assert(s[1] == be_bytes(x)[1]);
    assert(s[2] == be_bytes(x)[2]);
    assert(s[3] == be_bytes(x)[3]);
    assert(s[4] == be_bytes(x)[4]);
    assert(s[5] == be_bytes(x)[5]);
    assert(s[6] == be_bytes(x)[6]);
    assert(s[7] == be_bytes(x)[7]);
}

/// Eight bytes are the big-endian image of the integer they denote.
pub proof fn lemma_be_bytes_of_value(s: Seq<u8>)
    requires
        s.len() >= 8,
    ensures
        be_bytes(be_value(s)) == s.subrange(0, 8),
{
    lemma_be_split_join(s[0], s[1], s[2], s[3], s[4], s[5], s[6], s[7]);
    assert(be_bytes(be_value(s)) =~= s.subrange(0, 8));
}

/// Big-endian images sort like the integers they stand for.
pub proof fn lemma_be_bytes_order(x: u64, y: u64)
    ensures
        lex_lt(be_bytes(x), be_bytes(y)) == (x < y),
        (be_bytes(x) == be_bytes(y)) == (x == y),
{
    let a = be_bytes(x);
    let b = be_bytes(y);
    lemma_be_digits_decide(x, y);
    if a[0] != b[0] {
    } else if a[1] != b[1] {
        assert(a.subrange(0, 1) =~= b.subrange(0, 1));
        lemma_lex_lt_skip_equal(a, b, 1);
        assert(a.skip(1)[0] == a[1] && b.skip(1)[0] == b[1]);
    } else if a[2] != b[2] {
        assert(a.subrange(0, 2) =~= b.subrange(0, 2));
        lemma_lex_lt_skip_equal(a, b, 2);
        assert(a.skip(2)[0] == a[2] && b.skip(2)[0] == b[2]);
    } else if a[3] != b[3] {
        assert(a.subrange(0, 3) =~= b.subrange(0, 3));
        lemma_lex_lt_skip_equal(a, b, 3);
        assert(a.skip(3)[0] == a[3] && b.skip(3)[0] == b[3]);
    } else if a[4] != b[4] {
        assert(a.subrange(0, 4) =~= b.subrange(0, 4));
        lemma_lex_lt_skip_equal(a, b, 4);
        assert(a.skip(4)[0] == a[4] && b.skip(4)[0] == b[4]);
    } else if a[5] != b[5] {
        assert(a.subrange(0, 5) =~= b.subrange(0, 5));
        lemma_lex_lt_skip_equal(a, b, 5);
        assert(a.skip(5)[0] == a[5] && b.skip(5)[0] == b[5]);
    } else if a[6] != b[6] {
        assert(a.subrange(0, 6) =~= b.subrange(0, 6));
        lemma_lex_lt_skip_equal(a, b, 6);
        assert(a.skip(6)[0] == a[6] && b.skip(6)[0] == b[6]);
    } else if a[7] != b[7] {
        assert(a.subrange(0, 7) =~= b.subrange(0, 7));
        lemma_lex_lt_skip_equal(a, b, 7);
        assert(a.skip(7)[0] == a[7] && b.skip(7)[0] == b[7]);
    } else {
        assert(a =~= b);
        lemma_lex_lt_irreflexive(a);
    }
}

/// Appends the big-endian image of `x` to `buf`.
pub fn push_be(buf: &mut Vec<u8>, x: u64)
    ensures
        final(buf)@ == old(buf)@ + be_bytes(x),
{
    buf.push(((x >> 56) & 0xff) as u8);
    buf.push(((x >> 48) & 0xff) as u8);
    buf.push(((x >> 40) & 0xff) as u8);
    buf.push(((x >> 32) & 0xff) as u8);
    buf.push(((x >> 24) & 0xff) as u8);
    buf.push(((x >> 16) & 0xff) as u8);
    buf.push(((x >> 8) & 0xff) as u8);
    buf.push((x & 0xff) as u8);
    assert(buf@ =~= old(buf)@ + be_bytes(x));
}

/// Reads the integer whose big-endian image starts at `src[at]`.
pub fn read_be(src: &[u8], at: usize) -> (x: u64)
    requires
        at + 8 <= src@.len(),
    ensures
        x == be_value(src@.skip(at as int)),
{
    let x = (src[at] as u64) << 56 | (src[at + 1] as u64) << 48 | (src[at + 2] as u64) << 40 | (
    src[at + 3] as u64) << 32 | (src[at + 4] as u64) << 24 | (src[at + 5] as u64) << 16 | (src[at
        + 6] as u64) << 8 | (src[at + 7] as u64);
    x
}

/// Appends all of `src` to `buf`.
pub fn push_all(buf: &mut Vec<u8>, src: &[u8])
    ensures
        final(buf)@ == old(buf)@ + src@,
{
    let mut i: usize = 0;
    while i < src.len()
        invariant
            i <= src@.len(),
            buf@ =~= old(buf)@ + src@.subrange(0, i as int),
        decreases src@.len() - i,
    {
        buf.push(src[i]);
        i += 1;
    }
    assert(src@.subrange(0, src@.len() as int) =~= src@);
}

} // verus!
