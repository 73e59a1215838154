use cozo_core::db::eval::{EnvError, MemoryEnv};
use cozo_core::storage::bytemap::ByteMap;
use cozo_core::storage::temp::TempTx;
use cozo_core::storage::StoreTx;

#[test]
fn byte_map_holds_each_key_once() {
    let mut m = ByteMap::new();
    assert_eq!(m.len(), 0);
    assert_eq!(m.get(b"a"), None);
    assert!(!m.contains_key(b"a"));
    m.insert(b"a", b"1");
    m.insert(b"b", b"2");
    m.insert(b"a", b"3");
    assert_eq!(m.len(), 2);
    assert_eq!(m.get(b"a"), Some(b"3".to_vec()));
    assert_eq!(m.get(b"b"), Some(b"2".to_vec()));
    assert!(m.contains_key(b"b"));
    assert!(m.remove(b"a"));
    assert!(!m.remove(b"a"));
    assert_eq!(m.len(), 1);
    assert_eq!(m.get(b"a"), None);
    assert_eq!(m.get(b""), None);
    m.insert(b"", b"");
    assert_eq!(m.get(b""), Some(Vec::new()));
}

#[test]
fn temporary_store_reads_what_was_written() {
    let mut tx = TempTx::new();
    assert_eq!(tx.len(), 0);
    assert_eq!(tx.get(b"k", false), Ok(None));
    assert_eq!(tx.put(b"k", b"v"), Ok(()));
    assert_eq!(tx.put(b"k2", b"v2"), Ok(()));
    assert_eq!(tx.get(b"k", true), Ok(Some(b"v".to_vec())));
    assert_eq!(tx.put(b"k", b"w"), Ok(()));
    assert_eq!(tx.get(b"k", false), Ok(Some(b"w".to_vec())));
    assert_eq!(tx.len(), 2);
    assert_eq!(tx.del(b"k"), Ok(()));
    assert_eq!(tx.del(b"absent"), Ok(()));
    assert_eq!(tx.get(b"k", false), Ok(None));
    assert_eq!(tx.len(), 1);
    assert!(!tx.done);
    assert_eq!(tx.commit(), Ok(()));
    assert!(tx.done);
    assert_eq!(tx.get(b"k2", false), Ok(Some(b"v2".to_vec())));
}

#[test]
fn new_environment_has_one_layer_and_no_ids() {
    let mut env = MemoryEnv::default();
    assert_eq!(env.get_stack_depth(), -1);
    assert_eq!(env.resolve("x"), Ok(None));
    assert_eq!(env.get_next_storage_id(false), Ok(1));
    assert_eq!(env.get_next_storage_id(true), Ok(2));
    assert_eq!(env.get_next_storage_id(false), Ok(3));
}

#[test]
fn depth_is_the_negated_number_of_layers() {
    let mut env = MemoryEnv::default();
    env.push_env();
    env.push_env();
    assert_eq!(env.get_stack_depth(), -3);
    assert_eq!(env.pop_env(), Ok(()));
    assert_eq!(env.get_stack_depth(), -2);
    assert_eq!(env.pop_env(), Ok(()));
    assert_eq!(env.get_stack_depth(), -1);
    assert_eq!(env.pop_env(), Ok(()));
    assert_eq!(env.get_stack_depth(), -1);
}

#[test]
fn definition_goes_to_the_root_or_to_the_top_layer() {
    let mut env = MemoryEnv::default();
    assert_eq!(env.define_data("x", b"root".to_vec(), true), Ok(()));
    assert_eq!(env.resolve("x"), Ok(Some(b"root".to_vec())));
    env.push_env();
    assert_eq!(env.define_data("y", b"top".to_vec(), false), Ok(()));
    assert_eq!(env.resolve("y"), Ok(Some(b"top".to_vec())));
    assert_eq!(env.pop_env(), Ok(()));
    assert_eq!(env.resolve("y"), Ok(None));
    assert_eq!(env.resolve("x"), Ok(Some(b"root".to_vec())));
}

#[test]
fn first_layer_wins_over_later_layers_and_root() {
    let mut env = MemoryEnv::default();
    assert_eq!(env.define_data("x", b"root".to_vec(), true), Ok(()));
    assert_eq!(env.define_data("x", b"first".to_vec(), false), Ok(()));
    env.push_env();
    assert_eq!(env.define_data("x", b"second".to_vec(), false), Ok(()));
    assert_eq!(env.resolve("x"), Ok(Some(b"first".to_vec())));
}

#[test]
fn delete_takes_the_definition_from_the_last_layer_that_has_it() {
    let mut env = MemoryEnv::default();
    assert_eq!(env.define_data("x", b"root".to_vec(), true), Ok(()));
    assert_eq!(env.define_data("x", b"first".to_vec(), false), Ok(()));
    env.push_env();
    assert_eq!(env.define_data("x", b"second".to_vec(), false), Ok(()));
    env.push_env();
    assert_eq!(env.delete_defined("x", false), Ok(()));
    assert_eq!(env.resolve("x"), Ok(Some(b"first".to_vec())));
    assert_eq!(env.delete_defined("x", false), Ok(()));
    assert_eq!(env.resolve("x"), Ok(Some(b"root".to_vec())));
    assert_eq!(env.delete_defined("x", false), Ok(()));
    assert_eq!(env.resolve("x"), Ok(Some(b"root".to_vec())));
    assert_eq!(env.delete_defined("x", true), Ok(()));
    assert_eq!(env.resolve("x"), Ok(None));
    assert_eq!(env.get_stack_depth(), -3);
}

#[test]
fn redefinition_replaces_the_data() {
    let mut env = MemoryEnv::default();
    assert_eq!(env.define_data("x", b"one".to_vec(), false), Ok(()));
    assert_eq!(env.define_data("x", b"two".to_vec(), false), Ok(()));
    assert_eq!(env.resolve("x"), Ok(Some(b"two".to_vec())));
    assert_eq!(env.define_data("\u{e9}", Vec::new(), false), Ok(()));
    assert_eq!(env.resolve("\u{e9}"), Ok(Some(Vec::new())));
    assert_eq!(env.resolve("e"), Ok(None));
}

#[test]
fn ids_run_out_at_the_largest_number() {
    let mut env = MemoryEnv::default();
    let mut last = 0;
    for _ in 0..1000 {
        last = env.get_next_storage_id(false).unwrap();
    }
    assert_eq!(last, 1000);
    assert_eq!(EnvError::IdsExhausted, EnvError::IdsExhausted);
}
