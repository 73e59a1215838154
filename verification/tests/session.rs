use cozo_core::runtime::relation::RelationId;
use cozo_core::runtime::transact::{
    current_storage_version, storage_sentinel_key, storage_version_key, SessionTx, StorageError,
    CURRENT_STORAGE_VERSION,
};
use cozo_core::storage::temp::TempTx;
use cozo_core::storage::{EngineError, StoreTx};
use std::sync::atomic::{AtomicU32, AtomicU64};
use std::sync::Arc;

fn session(store: TempTx) -> SessionTx<TempTx> {
    SessionTx::new(store, TempTx::new(), Arc::new(AtomicU64::new(0)), AtomicU32::new(0))
}

#[test]
fn sentinel_key_is_system_relation_then_null() {
    assert_eq!(storage_sentinel_key(), vec![0, 0, 0, 0, 0, 0, 0, 0, 0x01]);
}

#[test]
fn version_key_is_system_relation_null_and_name() {
    let mut expected = vec![0u8, 0, 0, 0, 0, 0, 0, 0, 0x01, 0x05];
    expected.extend_from_slice(b"STORAGE_VERSION");
    expected.extend_from_slice(&[0, 0]);
    assert_eq!(storage_version_key(), expected);
}

#[test]
fn current_version_is_one_zero_byte() {
    assert_eq!(CURRENT_STORAGE_VERSION, 0);
    assert_eq!(current_storage_version(), vec![0x00]);
}

#[test]
fn fresh_store_is_initialized_with_two_records() {
    let mut tx = session(TempTx::new());
    let id = tx.init_storage().unwrap();
    assert_eq!(id, RelationId(0));
    assert_eq!(tx.store_tx.len(), 2);
    assert_eq!(
        tx.store_tx.get(&storage_sentinel_key(), false).unwrap(),
        Some(vec![0, 0, 0, 0, 0, 0, 0, 0])
    );
    assert_eq!(tx.store_tx.get(&storage_version_key(), false).unwrap(), Some(vec![0x00]));
    assert_eq!(tx.temp_store_tx.len(), 0);
}

#[test]
fn store_with_counter_42_gives_42_and_is_not_written() {
    let mut store = TempTx::new();
    store.put(&storage_version_key(), &[0x00]).unwrap();
    store.put(&storage_sentinel_key(), &RelationId(42).raw_encode()).unwrap();
    let mut tx = session(store);
    assert_eq!(tx.init_storage().unwrap(), RelationId(42));
    assert_eq!(tx.store_tx.len(), 2);
    assert_eq!(
        tx.store_tx.get(&storage_sentinel_key(), false).unwrap(),
        Some(vec![0, 0, 0, 0, 0, 0, 0, 42])
    );
    assert_eq!(tx.store_tx.get(&storage_version_key(), false).unwrap(), Some(vec![0x00]));
}

#[test]
fn initializing_twice_gives_the_same_id_and_writes_nothing_more() {
    let mut tx = session(TempTx::new());
    let first = tx.init_storage().unwrap();
    let sentinel = tx.store_tx.get(&storage_sentinel_key(), false).unwrap();
    let version = tx.store_tx.get(&storage_version_key(), false).unwrap();
    let second = tx.init_storage().unwrap();
    assert_eq!(first, second);
    assert_eq!(tx.store_tx.len(), 2);
    assert_eq!(tx.store_tx.get(&storage_sentinel_key(), false).unwrap(), sentinel);
    assert_eq!(tx.store_tx.get(&storage_version_key(), false).unwrap(), version);
}

#[test]
fn other_version_is_refused_and_nothing_is_written() {
    let mut store = TempTx::new();
    store.put(&storage_version_key(), &[0x01]).unwrap();
    store.put(&storage_sentinel_key(), &RelationId(7).raw_encode()).unwrap();
    let mut tx = session(store);
    assert_eq!(
        tx.init_storage(),
        Err(StorageError::VersionMismatch { expected: vec![0x00], found: vec![0x01] })
    );
    assert_eq!(tx.store_tx.len(), 2);
    assert_eq!(tx.store_tx.get(&storage_version_key(), false).unwrap(), Some(vec![0x01]));
    assert_eq!(
        tx.store_tx.get(&storage_sentinel_key(), false).unwrap(),
        Some(vec![0, 0, 0, 0, 0, 0, 0, 7])
    );
}

#[test]
fn longer_version_marker_is_refused() {
    let mut store = TempTx::new();
    store.put(&storage_version_key(), &[0x00, 0x00]).unwrap();
    store.put(&storage_sentinel_key(), &RelationId(7).raw_encode()).unwrap();
    let mut tx = session(store);
    assert_eq!(
        tx.init_storage(),
        Err(StorageError::VersionMismatch { expected: vec![0x00], found: vec![0x00, 0x00] })
    );
}

#[test]
fn store_without_version_marker_is_refused_as_unversioned() {
    let mut store = TempTx::new();
    store.put(&storage_sentinel_key(), &RelationId(3).raw_encode()).unwrap();
    let mut tx = session(store);
    assert_eq!(tx.init_storage(), Err(StorageError::Unversioned));
    assert_eq!(tx.store_tx.len(), 1);
}

#[test]
fn short_counter_record_is_reported() {
    let mut store = TempTx::new();
    store.put(&storage_version_key(), &[0x00]).unwrap();
    store.put(&storage_sentinel_key(), &[1, 2, 3]).unwrap();
    let mut tx = session(store);
    assert_eq!(tx.init_storage(), Err(StorageError::CorruptCounter { found: vec![1, 2, 3] }));
}

#[test]
fn commit_marks_the_store_transaction_done() {
    let mut tx = session(TempTx::new());
    tx.init_storage().unwrap();
    assert_eq!(tx.commit_tx(), Ok(()));
    assert_eq!(tx.store_tx.len(), 2);
}

struct Broken {
    fail_get: bool,
}

impl StoreTx for Broken {
    fn get(&self, _key: &[u8], _for_update: bool) -> Result<Option<Vec<u8>>, EngineError> {
        if self.fail_get {
            Err(EngineError { message: "get failed".to_string() })
        } else {
            Ok(None)
        }
    }

    fn put(&mut self, _key: &[u8], _val: &[u8]) -> Result<(), EngineError> {
        Err(EngineError { message: "put failed".to_string() })
    }

    fn del(&mut self, _key: &[u8]) -> Result<(), EngineError> {
        Err(EngineError { message: "del failed".to_string() })
    }

    fn commit(&mut self) -> Result<(), EngineError> {
        Err(EngineError { message: "commit failed".to_string() })
    }
}

#[test]
fn engine_failure_on_read_is_handed_on() {
    let mut tx = SessionTx::new(
        Broken { fail_get: true },
        TempTx::new(),
        Arc::new(AtomicU64::new(0)),
        AtomicU32::new(0),
    );
    assert_eq!(
        tx.init_storage(),
        Err(StorageError::Engine(EngineError { message: "get failed".to_string() }))
    );
}

#[test]
fn engine_failure_on_write_is_handed_on() {
    let mut tx = SessionTx::new(
        Broken { fail_get: false },
        TempTx::new(),
        Arc::new(AtomicU64::new(0)),
        AtomicU32::new(0),
    );
    assert_eq!(
        tx.init_storage(),
        Err(StorageError::Engine(EngineError { message: "put failed".to_string() }))
    );
}

#[test]
fn engine_failure_on_commit_is_handed_on() {
    let mut tx = SessionTx::new(
        Broken { fail_get: false },
        TempTx::new(),
        Arc::new(AtomicU64::new(0)),
        AtomicU32::new(0),
    );
    assert_eq!(tx.commit_tx(), Err(EngineError { message: "commit failed".to_string() }));
}
