//! The session transaction: the unit of work against the store.
//!
//! A session owns one transaction of the underlying store and one of the
//! temporary store. Before anything else it calls [`SessionTx::init_storage`],
//! which lays down the storage version and the relation counter in an empty
//! store and refuses a store written under another version.
use crate::data::bytes::{be_bytes, be_value, bytes_eq, lemma_be_value_of_bytes};
use crate::data::codec::encode_value;
use crate::data::tuple::{encode_as_key, encode_values, tuple_key, views};
use crate::data::value::{DataValue, ValueView};
use crate::runtime::relation::RelationId;
use crate::storage::temp::TempTx;
use crate::storage::{EngineError, StoreTx};
use std::sync::atomic::{AtomicU32, AtomicU64};
use std::sync::Arc;
use vstd::prelude::*;

verus! {

/// The only byte of the version marker that this code reads and writes.
pub const CURRENT_STORAGE_VERSION: u8 = 0x00;

/// Why a store cannot be used.
#[derive(Clone, Debug, PartialEq, Eq)]
pub enum StorageError {
    /// The store holds data but no version marker: it was written before
    /// stores were versioned.
    Unversioned,
    /// The store was written under another storage version.
    VersionMismatch { expected: Vec<u8>, found: Vec<u8> },
    /// The record that should hold the relation counter is too short to hold
    /// one.
    CorruptCounter { found: Vec<u8> },
    /// The engine failed; its error is handed on as it came.
    Engine(EngineError),
}

/// What a store turns out to be when a session opens it.
pub enum StoreState {
    /// Nothing has been written yet.
    Fresh,
    /// Written under the current version; holds the relation counter.
    Ready(u64),
    /// Data but no version marker.
    Unversioned,
    /// A version marker other than the current one.
    VersionMismatch(Seq<u8>),
    /// The counter record is too short.
    CorruptCounter(Seq<u8>),
}

/// One unit of work: a transaction of the store, a transaction of the
/// temporary store, the counter of relation identifiers that all sessions
/// share, and this session's counter of temporary relations.
pub struct SessionTx<S: StoreTx> {
    pub store_tx: S,
    pub temp_store_tx: TempTx,
    pub relation_store_id: Arc<AtomicU64>,
    pub temp_store_id: AtomicU32,
}

/// The value of the version marker of this storage version.
pub open spec fn current_version() -> Seq<u8> {
    seq![CURRENT_STORAGE_VERSION]
}

/// Key of the record that marks a store as in use and holds the relation
/// counter: the row `(null)` of the system relation.
pub open spec fn sentinel_key() -> Seq<u8> {
    tuple_key(0, seq![ValueView::Null])
}

/// Key of the version marker: the row `(null, "STORAGE_VERSION")` of the
/// system relation.
pub open spec fn version_key() -> Seq<u8> {
    tuple_key(0, seq![ValueView::Null, ValueView::Str("STORAGE_VERSION"@)])
}

/// What a store with the records `m` turns out to be.
pub open spec fn store_state(m: Map<Seq<u8>, Seq<u8>>) -> StoreState {
    if !m.contains_key(sentinel_key()) {
        StoreState::Fresh
    } else if !m.contains_key(version_key()) {
        StoreState::Unversioned
    } else if m[version_key()] != current_version() {
        StoreState::VersionMismatch(m[version_key()])
    } else if m[sentinel_key()].len() < 8 {
        StoreState::CorruptCounter(m[sentinel_key()])
    } else {
        StoreState::Ready(be_value(m[sentinel_key()]))
    }
}

/// The records of a fresh store after its first initialization: the version
/// marker, and the relation counter at zero.
pub open spec fn initialized(m: Map<Seq<u8>, Seq<u8>>) -> Map<Seq<u8>, Seq<u8>> {
    m.insert(version_key(), current_version()).insert(sentinel_key(), be_bytes(0))
}

/// What a call of [`SessionTx::init_storage`] may leave behind and hand back
/// on a store that held `before`: `after` is what the store holds then, `r`
/// the result.
///
/// A store in use is never written. A fresh store ends up initialized where
/// the call succeeds. The result tells the state the store was found in,
/// unless the engine failed; on a store that never fails it always does.
pub open spec fn init_outcome(
    before: Map<Seq<u8>, Seq<u8>>,
    after: Map<Seq<u8>, Seq<u8>>,
    r: Result<RelationId, StorageError>,
) -> bool {
    &&& before.contains_key(sentinel_key()) ==> after == before
    &&& match r {
        Ok(id) => match store_state(before) {
            StoreState::Fresh => id.0 == 0 && after == initialized(before),
            StoreState::Ready(n) => id.0 == n,
            _ => false,
        },
        Err(StorageError::Unversioned) => store_state(before) is Unversioned,
        Err(StorageError::VersionMismatch { expected, found }) => store_state(before)
            == StoreState::VersionMismatch(found@) && expected@ == current_version(),
        Err(StorageError::CorruptCounter { found }) => store_state(before)
            == StoreState::CorruptCounter(found@),
        Err(StorageError::Engine(_)) => true,
    }
}

/// The sentinel record and the version marker lie under different keys.
pub proof fn lemma_keys_differ()
    ensures
        sentinel_key() != version_key(),
{
    let one = seq![ValueView::Null];
    let two = seq![ValueView::Null, ValueView::Str("STORAGE_VERSION"@)];
    assert(encode_values(one.skip(1)) =~= Seq::empty());
    assert(encode_values(one) == encode_value(one[0]) + encode_values(one.skip(1)));
    assert(encode_values(one).len() == 1);
    let tail = two.skip(1);
    assert(encode_values(tail.skip(1)) =~= Seq::empty());
    assert(encode_values(tail) == encode_value(tail[0]) + encode_values(tail.skip(1)));
    assert(encode_value(tail[0]).len() >= 1);
    assert(encode_values(two) == encode_value(two[0]) + encode_values(tail));
    assert(encode_values(two).len() >= 2);
    assert(sentinel_key().len() == 9);
    assert(version_key().len() >= 10);
}

/// Initialization is idempotent: a fresh store is ready after it, with the
/// counter at zero, and initializing a ready store finds the same counter and
/// changes nothing.
pub proof fn lemma_init_idempotent(m: Map<Seq<u8>, Seq<u8>>)
    ensures
        store_state(m) is Fresh ==> store_state(initialized(m)) == StoreState::Ready(0),
        store_state(m) is Fresh ==> initialized(m).dom() == m.dom().insert(
            version_key(),
        ).insert(sentinel_key()),
{
    lemma_keys_differ();
    lemma_be_value_of_bytes(0, Seq::empty());
    assert(be_bytes(0) + Seq::<u8>::empty() =~= be_bytes(0));
    assert(initialized(m).dom() =~= m.dom().insert(version_key()).insert(sentinel_key()));
}

/// Calling initialization twice on one store gives the same relation counter
/// both times, and the second call writes nothing.
pub proof fn lemma_init_twice(
    before: Map<Seq<u8>, Seq<u8>>,
    between: Map<Seq<u8>, Seq<u8>>,
    after: Map<Seq<u8>, Seq<u8>>,
    first: Result<RelationId, StorageError>,
    second: Result<RelationId, StorageError>,
)
    requires
        init_outcome(before, between, first),
        init_outcome(between, after, second),
        first is Ok,
        second is Ok,
    ensures
        first->Ok_0.0 == second->Ok_0.0,
        after == between,
{
    lemma_init_idempotent(before);
}

/// The version gate: a store whose version marker differs from the current
/// one is never opened and never written.
pub proof fn lemma_version_gate(
    before: Map<Seq<u8>, Seq<u8>>,
    after: Map<Seq<u8>, Seq<u8>>,
    r: Result<RelationId, StorageError>,
)
    requires
        init_outcome(before, after, r),
        before.contains_key(sentinel_key()),
        before.contains_key(version_key()),
        before[version_key()] != current_version(),
    ensures
        after == before,
        r is Err,
        r matches Err(StorageError::VersionMismatch { expected, found }) ==> expected@
            == current_version() && found@ == before[version_key()],
        !(r matches Err(StorageError::Unversioned)),
        !(r matches Err(StorageError::CorruptCounter { .. })),
{
}

/// Legacy detection: a store that is in use but has no version marker is
/// never opened and never written, and is told apart from a store of another
/// version.
pub proof fn lemma_legacy_store(
    before: Map<Seq<u8>, Seq<u8>>,
    after: Map<Seq<u8>, Seq<u8>>,
    r: Result<RelationId, StorageError>,
)
    requires
        init_outcome(before, after, r),
        before.contains_key(sentinel_key()),
        !before.contains_key(version_key()),
    ensures
        after == before,
        r is Err,
        !(r matches Err(StorageError::VersionMismatch { .. })),
        !(r matches Err(StorageError::CorruptCounter { .. })),
{
}

/// The key under which the version marker is stored.
pub fn storage_version_key() -> (key: Vec<u8>)
    ensures
        key@ == version_key(),
{
    let storage_version_tuple = vec![
        DataValue::Null,
        DataValue::Str("STORAGE_VERSION".to_owned()),
    ];
    assert(views(storage_version_tuple@) =~= seq![
        ValueView::Null,
        ValueView::Str("STORAGE_VERSION"@),
    ]);
    encode_as_key(storage_version_tuple.as_slice(), RelationId::system())
}

/// The key under which the relation counter is stored.
pub fn storage_sentinel_key() -> (key: Vec<u8>)
    ensures
        key@ == sentinel_key(),
{
    let tuple = vec![DataValue::Null];
    assert(views(tuple@) =~= seq![ValueView::Null]);
    encode_as_key(tuple.as_slice(), RelationId::system())
}

/// The value of the version marker of this storage version.
pub fn current_storage_version() -> (v: Vec<u8>)
    ensures
        v@ == current_version(),
{
    let mut v: Vec<u8> = Vec::new();
    v.push(CURRENT_STORAGE_VERSION);
    assert(v@ =~= current_version());
    v
}

/// Judges the version marker that was found in a store that is in use.
pub fn check_version(version_found: Option<Vec<u8>>) -> (r: Result<(), StorageError>)
    ensures
        match version_found {
            None => r == Err::<(), StorageError>(StorageError::Unversioned),
            Some(v) => if v@ == current_version() {
                r is Ok
            } else {
                r matches Err(StorageError::VersionMismatch { expected, found })
                    && expected@ == current_version() && found@ == v@
            },
        },
{
    match version_found {
        None => Err(StorageError::Unversioned),
        Some(v) => {
            let expected = current_storage_version();
            if bytes_eq(v.as_slice(), expected.as_slice()) {
                Ok(())
            } else {
                Err(StorageError::VersionMismatch { expected, found: v })
            }
        },
    }
}

/// Reads the relation counter out of the record that holds it.
pub fn decode_counter(slice: Vec<u8>) -> (r: Result<RelationId, StorageError>)
    ensures
        match r {
            Ok(id) => slice@.len() >= 8 && id.0 == be_value(slice@),
            Err(StorageError::CorruptCounter { found }) => slice@.len() < 8 && found@
                == slice@,
            Err(_) => false,
        },
{
    match RelationId::try_raw_decode(slice.as_slice()) {
        Some(id) => Ok(id),
        None => Err(StorageError::CorruptCounter { found: slice }),
    }
}

impl<S: StoreTx> SessionTx<S> {
    /// A session on the given transactions and counters.
    pub fn new(
        store_tx: S,
        temp_store_tx: TempTx,
        relation_store_id: Arc<AtomicU64>,
        temp_store_id: AtomicU32,
    ) -> (tx: SessionTx<S>)
        ensures
            tx.store_tx == store_tx,
            tx.temp_store_tx == temp_store_tx,
    {
        SessionTx { store_tx, temp_store_tx, relation_store_id, temp_store_id }
    }

    /// Establishes or checks the versioned layout of the store and gives the
    /// relation counter it holds.
    ///
    /// A fresh store gets the version marker and a counter of zero. A store in
    /// use is only read: it is refused if it has no version marker, another
    /// version, or a counter record that is too short.
    pub fn init_storage(&mut self) -> (r: Result<RelationId, StorageError>)
        ensures
            final(self).temp_store_tx@ == old(self).temp_store_tx@,
            init_outcome(old(self).store_tx.contents(), final(self).store_tx.contents(), r),
            old(self).store_tx.never_fails() ==> final(self).store_tx.never_fails(),
            old(self).store_tx.never_fails() ==> !(r matches Err(StorageError::Engine(_))),
    {
        let t_encoded = storage_sentinel_key();
        let found = match self.store_tx.get(t_encoded.as_slice(), false) {
            Ok(found) => found,
            Err(e) => {
                return Err(StorageError::Engine(e));
            },
        };
        let storage_version_key = storage_version_key();
        match found {
            None => {
                let version = current_storage_version();
                match self.store_tx.put(storage_version_key.as_slice(), version.as_slice()) {
                    Ok(_) => {},
                    Err(e) => {
                        return Err(StorageError::Engine(e));
                    },
                }
                let zero = RelationId::new(0).raw_encode();
                match self.store_tx.put(t_encoded.as_slice(), zero.as_slice()) {
                    Ok(_) => {},
                    Err(e) => {
                        return Err(StorageError::Engine(e));
                    },
                }
                Ok(RelationId::system())
            },
            Some(slice) => {
                let version_found = match self.store_tx.get(
                    storage_version_key.as_slice(),
                    false,
                ) {
                    Ok(found) => found,
                    Err(e) => {
                        return Err(StorageError::Engine(e));
                    },
                };
                match check_version(version_found) {
                    Ok(_) => {},
                    Err(e) => {
                        return Err(e);
                    },
                }
                decode_counter(slice)
            },
        }
    }

    /// Commits the transaction of the store. A failure of the engine comes
    /// back as the engine reported it; nothing is tried again.
    pub fn commit_tx(&mut self) -> (r: Result<(), EngineError>)
        ensures
            final(self).temp_store_tx@ == old(self).temp_store_tx@,
            old(self).store_tx.never_fails() ==> r is Ok,
            r is Ok ==> final(self).store_tx.committed(),
            r is Ok ==> final(self).store_tx.contents() == old(self).store_tx.contents(),
    {
        self.store_tx.commit()
    }
}

} // verus!
