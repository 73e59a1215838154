//! Stable numeric identifiers of relations.
use crate::data::bytes::{be_bytes, be_value, lemma_be_value_of_bytes, push_be, read_be};
use vstd::prelude::*;

verus! {

/// Identifier of a relation. It is given once and never changes.
#[derive(Clone, Copy, Debug, PartialEq, Eq, Hash)]
pub struct RelationId(pub u64);

/// Number of bytes a stored relation identifier takes.
pub const RELATION_ID_LEN: usize = 8;

/// Number of the relation that holds the storage version and the identifier
/// counter.
pub const SYSTEM_RELATION: u64 = 0;

impl RelationId {
    /// The relation that holds the storage version and the identifier counter.
    pub fn system() -> (id: RelationId)
        ensures
            id.0 == SYSTEM_RELATION,
    {
        RelationId(SYSTEM_RELATION)
    }

    /// The identifier with the number `u`.
    pub fn new(u: u64) -> (id: RelationId)
        ensures
            id.0 == u,
    {
        RelationId(u)
    }

    /// The identifier that follows this one, or `None` where the numbers are
    /// used up.
    pub fn next(&self) -> (r: Option<RelationId>)
        ensures
            match r {
                Some(id) => self.0 < u64::MAX && id.0 == self.0 + 1,
                None => self.0 == u64::MAX,
            },
    {
        if self.0 < u64::MAX {
            Some(RelationId(self.0 + 1))
        } else {
            None
        }
    }

    /// The eight bytes under which this identifier is stored.
    pub fn raw_encode(&self) -> (out: Vec<u8>)
        ensures
            out@ == be_bytes(self.0),
            out@.len() == 8,
            be_value(out@) == self.0,
    {
        let mut out: Vec<u8> = Vec::new();
        push_be(&mut out, self.0);
        proof {
            assert(out@ =~= be_bytes(self.0));
            lemma_be_value_of_bytes(self.0, Seq::empty());
        }
        out
    }

    /// The identifier stored in the first eight bytes of `src`.
    pub fn raw_decode(src: &[u8]) -> (id: RelationId)
        requires
            src@.len() >= 8,
        ensures
            id.0 == be_value(src@),
    {
        assert(src@.skip(0) =~= src@);
        RelationId(read_be(src, 0))
    }

    /// The identifier stored in `src`, or `None` where `src` is too short to
    /// hold one.
    pub fn try_raw_decode(src: &[u8]) -> (r: Option<RelationId>)
        ensures
            match r {
                Some(id) => src@.len() >= 8 && id.0 == be_value(src@),
                None => src@.len() < 8,
            },
    {
        if src.len() < RELATION_ID_LEN {
            None
        } else {
            Some(RelationId::raw_decode(src))
        }
    }
}

} // verus!
