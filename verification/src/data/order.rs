//! Three-way comparison results and how they combine.
use crate::data::bytes::{bytes_eq, bytes_lt, lex_lt};
use core::cmp::Ordering;
use vstd::prelude::*;

verus! {

/// The three-way result for a pair of which it is known whether the first is
/// smaller and whether the two are equal.
pub open spec fn ordering_of(lt: bool, eq: bool) -> Ordering {
    if eq {
        Ordering::Equal
    } else if lt {
        Ordering::Less
    } else {
        Ordering::Greater
    }
}

/// Numeric order of two unsigned integers.
pub open spec fn u64_order(a: u64, b: u64) -> Ordering {
    ordering_of(a < b, a == b)
}

/// Numeric order of two bytes.
pub open spec fn u8_order(a: u8, b: u8) -> Ordering {
    ordering_of(a < b, a == b)
}

/// Lexicographic order of two byte strings.
pub open spec fn bytes_order(a: Seq<u8>, b: Seq<u8>) -> Ordering {
    ordering_of(lex_lt(a, b), a == b)
}

/// The opposite result: `Less` and `Greater` change places.
pub open spec fn reversed(o: Ordering) -> Ordering {
    match o {
        Ordering::Less => Ordering::Greater,
        Ordering::Equal => Ordering::Equal,
        Ordering::Greater => Ordering::Less,
    }
}

/// `first` where it settles the order, `next` where `first` is a tie.
pub open spec fn refined(first: Ordering, next: Ordering) -> Ordering {
    match first {
        Ordering::Equal => next,
        _ => first,
    }
}

/// Compares two unsigned integers.
pub fn order_u64(a: u64, b: u64) -> (r: Ordering)
    ensures
        r == u64_order(a, b),
{
    if a < b {
        Ordering::Less
    } else if a == b {
        Ordering::Equal
    } else {
        Ordering::Greater
    }
}

/// Compares two bytes.
pub fn order_u8(a: u8, b: u8) -> (r: Ordering)
    ensures
        r == u8_order(a, b),
{
    if a < b {
        Ordering::Less
    } else if a == b {
        Ordering::Equal
    } else {
        Ordering::Greater
    }
}

/// Compares two byte strings lexicographically.
pub fn order_bytes(a: &[u8], b: &[u8]) -> (r: Ordering)
    ensures
        r == bytes_order(a@, b@),
{
    if bytes_eq(a, b) {
        Ordering::Equal
    } else if bytes_lt(a, b) {
        Ordering::Less
    } else {
        Ordering::Greater
    }
}

/// Swaps `Less` and `Greater`.
pub fn reverse(o: Ordering) -> (r: Ordering)
    ensures
        r == reversed(o),
{
    match o {
        Ordering::Less => Ordering::Greater,
        Ordering::Equal => Ordering::Equal,
        Ordering::Greater => Ordering::Less,
    }
}

} // verus!
