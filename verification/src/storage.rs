//! The transaction interface of the underlying key-value engine.
//!
//! The layers above read and write through one open transaction of an
//! ordered key-value engine. What they rely on is stated here once, over the
//! map from keys to values that the transaction sees; an engine is anything
//! that keeps these promises.
use vstd::prelude::*;

pub mod bytemap;
pub mod temp;

verus! {

/// A failure reported by the engine. It is handed on as it came.
#[derive(Clone, Debug, PartialEq, Eq)]
pub struct EngineError {
    pub message: String,
}

/// One open transaction of a key-value engine.
///
/// A call that fails promises nothing about what it left behind; a call that
/// succeeds has done exactly what is stated. Code that is generic over the
/// engine knows of `contents` and `committed` only what the methods promise.
pub trait StoreTx {
    /// The records this transaction sees. A store defined here says what they
    /// are; for an engine bound in from outside they stay unspecified.
    open spec fn contents(&self) -> Map<Seq<u8>, Seq<u8>> {
        arbitrary()
    }

    /// Whether this transaction has been committed. Unspecified for an engine
    /// bound in from outside, as `contents` is.
    open spec fn committed(&self) -> bool {
        arbitrary()
    }

    /// Whether this is a store on which no call fails, as a store in memory
    /// is. Unspecified for an engine bound in from outside.
    open spec fn never_fails(&self) -> bool {
        arbitrary()
    }

    /// The value stored under `key`, if there is one. `for_update` asks the
    /// engine to lock the record for a later write; it does not change what is
    /// read.
    fn get(&self, key: &[u8], for_update: bool) -> (r: Result<Option<Vec<u8>>, EngineError>)
        ensures
            self.never_fails() ==> r is Ok,
            r matches Ok(found) ==> match found {
                Some(v) => self.contents().contains_key(key@) && self.contents()[key@] == v@,
                None => !self.contents().contains_key(key@),
            },
    ;

    /// Stores `val` under `key`, in place of what was there.
    fn put(&mut self, key: &[u8], val: &[u8]) -> (r: Result<(), EngineError>)
        ensures
            old(self).never_fails() ==> r is Ok && final(self).never_fails(),
            r is Ok ==> final(self).contents() == old(self).contents().insert(key@, val@),
            r is Ok ==> final(self).committed() == old(self).committed(),
    ;

    /// Removes the record under `key`, if there is one.
    fn del(&mut self, key: &[u8]) -> (r: Result<(), EngineError>)
        ensures
            old(self).never_fails() ==> r is Ok && final(self).never_fails(),
            r is Ok ==> final(self).contents() == old(self).contents().remove(key@),
            r is Ok ==> final(self).committed() == old(self).committed(),
    ;

    /// Makes what this transaction wrote permanent.
    fn commit(&mut self) -> (r: Result<(), EngineError>)
        ensures
            old(self).never_fails() ==> r is Ok && final(self).never_fails(),
            r is Ok ==> final(self).committed(),
            r is Ok ==> final(self).contents() == old(self).contents(),
    ;
}

} // verus!
