//! The temporary store: records that live in memory for one session only.
use crate::storage::bytemap::ByteMap;
use crate::storage::{EngineError, StoreTx};
use vstd::prelude::*;

verus! {

/// A transaction on the temporary store. Nothing it does can fail.
pub struct TempTx {
    pub records: ByteMap,
    pub done: bool,
}

impl View for TempTx {
    type V = Map<Seq<u8>, Seq<u8>>;

    open spec fn view(&self) -> Map<Seq<u8>, Seq<u8>> {
        self.records@
    }
}

impl TempTx {
    /// A transaction on an empty store.
    pub fn new() -> (tx: TempTx)
        ensures
            tx@ == Map::<Seq<u8>, Seq<u8>>::empty(),
            !tx.done,
    {
        TempTx { records: ByteMap::new(), done: false }
    }

    /// Number of records.
    pub fn len(&self) -> (n: usize)
        ensures
            self@.dom().finite(),
            n == self@.dom().len(),
    {
        self.records.len()
    }
}

impl StoreTx for TempTx {
    open spec fn contents(&self) -> Map<Seq<u8>, Seq<u8>> {
        self@
    }

    open spec fn committed(&self) -> bool {
        self.done
    }

    open spec fn never_fails(&self) -> bool {
        true
    }

    fn get(&self, key: &[u8], for_update: bool) -> (r: Result<Option<Vec<u8>>, EngineError>)
        ensures
            r is Ok,
    {
        Ok(self.records.get(key))
    }

    fn put(&mut self, key: &[u8], val: &[u8]) -> (r: Result<(), EngineError>)
        ensures
            r is Ok,
            final(self).done == old(self).done,
    {
        self.records.insert(key, val);
        Ok(())
    }

    fn del(&mut self, key: &[u8]) -> (r: Result<(), EngineError>)
        ensures
            r is Ok,
            final(self).done == old(self).done,
    {
        self.records.remove(key);
        Ok(())
    }

    fn commit(&mut self) -> (r: Result<(), EngineError>)
        ensures
            r is Ok,
    {
        self.done = true;
        Ok(())
    }
}

} // verus!
