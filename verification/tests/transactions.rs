//! Transaction semantics against a real environment: visibility,
//! rollback, isolation, absence, and store separation.

use kvstore::{Env, Manager, StoreError, Value};

fn temp_env(max_stores: u32) -> (tempfile::TempDir, Env) {
    let dir = tempfile::tempdir().unwrap();
    let env = Env::open_or_create(dir.path().to_str().unwrap(), max_stores).unwrap();
    (dir, env)
}

#[test]
fn missing_directory_is_reported() {
    let r = Env::open_or_create("/nonexistent/surely/not/here", 5);
    assert!(matches!(r, Err(StoreError::DirectoryDoesNotExist)));
}

#[test]
fn write_then_read_back() {
    let (_dir, mut env) = temp_env(5);
    let store = env.create_or_open(Some("db")).unwrap();

    let mut w = env.begin_write().unwrap();
    w.put(&store, b"foo", &Value::I64(1234)).unwrap();
    w.commit().unwrap();

    let r = env.begin_read().unwrap();
    assert_eq!(r.get(&store, b"foo").unwrap(), Some(Value::I64(1234)));
    r.abort();
}

#[test]
fn put_replaces_value() {
    let (_dir, mut env) = temp_env(5);
    let store = env.create_or_open(Some("db")).unwrap();

    let mut w = env.begin_write().unwrap();
    w.put(&store, b"k", &Value::Str("first".to_owned())).unwrap();
    w.put(&store, b"k", &Value::Str("second".to_owned())).unwrap();
    w.commit().unwrap();

    let r = env.begin_read().unwrap();
    assert_eq!(r.get(&store, b"k").unwrap(), Some(Value::Str("second".to_owned())));
    r.abort();
}

#[test]
fn absent_key_is_none_not_error() {
    let (_dir, mut env) = temp_env(5);
    let store = env.create_or_open(Some("db")).unwrap();

    let r = env.begin_read().unwrap();
    assert_eq!(r.get(&store, b"never-written").unwrap(), None);
    r.abort();
}

#[test]
fn deleted_key_reads_none_after_commit() {
    let (_dir, mut env) = temp_env(5);
    let store = env.create_or_open(Some("db")).unwrap();

    let mut w = env.begin_write().unwrap();
    w.put(&store, b"gone", &Value::Bool(true)).unwrap();
    w.commit().unwrap();

    let mut w = env.begin_write().unwrap();
    w.delete(&store, b"gone").unwrap();
    w.commit().unwrap();

    let r = env.begin_read().unwrap();
    assert_eq!(r.get(&store, b"gone").unwrap(), None);
    r.abort();
}

#[test]
fn delete_of_absent_key_is_key_absent() {
    let (_dir, mut env) = temp_env(5);
    let store = env.create_or_open(Some("db")).unwrap();

    let mut w = env.begin_write().unwrap();
    assert!(matches!(w.delete(&store, b"nothing"), Err(StoreError::KeyAbsent)));
    w.abort();
}

#[test]
fn rollback_on_abort() {
    let (_dir, mut env) = temp_env(5);
    let store = env.create_or_open(Some("db")).unwrap();

    let mut w = env.begin_write().unwrap();
    w.put(&store, b"k", &Value::I64(1)).unwrap();
    w.abort();

    let r = env.begin_read().unwrap();
    assert_eq!(r.get(&store, b"k").unwrap(), None);
    r.abort();
}

#[test]
fn rollback_on_drop_without_commit() {
    let (_dir, mut env) = temp_env(5);
    let store = env.create_or_open(Some("db")).unwrap();

    {
        let mut w = env.begin_write().unwrap();
        w.put(&store, b"k", &Value::I64(2)).unwrap();
        // Dropped here without commit.
    }

    let r = env.begin_read().unwrap();
    assert_eq!(r.get(&store, b"k").unwrap(), None);
    r.abort();
}

#[test]
fn writer_sees_own_uncommitted_writes() {
    let (_dir, mut env) = temp_env(5);
    let store = env.create_or_open(Some("db")).unwrap();

    let mut w = env.begin_write().unwrap();
    w.put(&store, b"mine", &Value::Str("pending".to_owned())).unwrap();
    assert_eq!(w.get(&store, b"mine").unwrap(), Some(Value::Str("pending".to_owned())));
    w.abort();
}

#[test]
fn reader_snapshot_ignores_later_commit() {
    let (_dir, mut env) = temp_env(5);
    let store = env.create_or_open(Some("db")).unwrap();

    let mut w = env.begin_write().unwrap();
    w.put(&store, b"stable", &Value::I64(1)).unwrap();
    w.commit().unwrap();

    // The reader's view is fixed now, before the second write commits.
    let r = env.begin_read().unwrap();
    assert_eq!(r.get(&store, b"stable").unwrap(), Some(Value::I64(1)));
    assert_eq!(r.get(&store, b"later").unwrap(), None);

    let mut w = env.begin_write().unwrap();
    w.put(&store, b"later", &Value::I64(2)).unwrap();
    w.put(&store, b"stable", &Value::I64(99)).unwrap();
    w.commit().unwrap();

    // Still the old state through the old reader, even after the commit.
    assert_eq!(r.get(&store, b"later").unwrap(), None);
    assert_eq!(r.get(&store, b"stable").unwrap(), Some(Value::I64(1)));
    r.abort();

    // A reader opened after the commit sees the new state.
    let r2 = env.begin_read().unwrap();
    assert_eq!(r2.get(&store, b"later").unwrap(), Some(Value::I64(2)));
    assert_eq!(r2.get(&store, b"stable").unwrap(), Some(Value::I64(99)));
    r2.abort();
}

#[test]
fn stores_do_not_leak_into_each_other() {
    let (_dir, mut env) = temp_env(5);
    let a = env.create_or_open(Some("a")).unwrap();
    let b = env.create_or_open(Some("b")).unwrap();

    let mut w = env.begin_write().unwrap();
    w.put(&a, b"foo", &Value::Str("from-a".to_owned())).unwrap();
    w.put(&b, b"foo", &Value::Str("from-b".to_owned())).unwrap();
    w.commit().unwrap();

    let r = env.begin_read().unwrap();
    assert_eq!(r.get(&a, b"foo").unwrap(), Some(Value::Str("from-a".to_owned())));
    assert_eq!(r.get(&b, b"foo").unwrap(), Some(Value::Str("from-b".to_owned())));
    r.abort();
}

#[test]
fn default_store_is_separate_from_named_ones() {
    let (_dir, mut env) = temp_env(5);
    let anon = env.create_or_open(None).unwrap();
    let named = env.create_or_open(Some("named")).unwrap();

    let mut w = env.begin_write().unwrap();
    w.put(&anon, b"k", &Value::I64(1)).unwrap();
    w.put(&named, b"k", &Value::I64(2)).unwrap();
    w.commit().unwrap();

    let r = env.begin_read().unwrap();
    assert_eq!(r.get(&anon, b"k").unwrap(), Some(Value::I64(1)));
    assert_eq!(r.get(&named, b"k").unwrap(), Some(Value::I64(2)));
    r.abort();
}

#[test]
fn named_store_limit_is_enforced() {
    let (_dir, mut env) = temp_env(2);
    env.create_or_open(Some("one")).unwrap();
    env.create_or_open(Some("two")).unwrap();
    assert!(matches!(env.create_or_open(Some("three")), Err(StoreError::TooManyStores)));
    // Reopening an already-open name still succeeds at the limit.
    env.create_or_open(Some("one")).unwrap();
}

#[test]
fn open_existing_finds_created_stores_only() {
    let (_dir, mut env) = temp_env(5);
    assert!(matches!(env.open_existing("ghost"), Err(StoreError::StoreDoesNotExist)));
    env.create_or_open(Some("real")).unwrap();
    env.open_existing("real").unwrap();
}

#[test]
fn manager_returns_one_environment_per_path() {
    let dir = tempfile::tempdir().unwrap();
    let path = dir.path().to_str().unwrap();
    let mut manager = Manager::new();
    let first = manager.get_or_create(path, 5).unwrap();
    let second = manager.get_or_create(path, 5).unwrap();
    assert_eq!(first, second);

    let other = tempfile::tempdir().unwrap();
    let third = manager.get_or_create(other.path().to_str().unwrap(), 5).unwrap();
    assert_ne!(first, third);

    // The shared environment really is the same one: a store opened
    // through the first slot is readable through the second.
    let store = manager.env_mut(first).create_or_open(Some("db")).unwrap();
    let mut w = manager.env(first).begin_write().unwrap();
    w.put(&store, b"k", &Value::I64(7)).unwrap();
    w.commit().unwrap();
    let r = manager.env(second).begin_read().unwrap();
    assert_eq!(r.get(&store, b"k").unwrap(), Some(Value::I64(7)));
    r.abort();
}

#[test]
fn manager_refuses_to_raise_the_store_limit_later() {
    let dir = tempfile::tempdir().unwrap();
    let path = dir.path().to_str().unwrap();
    let mut manager = Manager::new();
    let slot = manager.get_or_create(path, 3).unwrap();
    // Asking again within the fixed limit shares the environment.
    assert_eq!(manager.get_or_create(path, 3).unwrap(), slot);
    assert_eq!(manager.get_or_create(path, 2).unwrap(), slot);
    // Asking for more than it was opened with cannot be honoured.
    assert!(matches!(manager.get_or_create(path, 4), Err(StoreError::TooManyStores)));
}

#[test]
fn manager_rejects_missing_directories() {
    let mut manager = Manager::new();
    assert!(matches!(
        manager.get_or_create("/nonexistent/surely/not/here", 5),
        Err(StoreError::DirectoryDoesNotExist)
    ));
}

#[test]
fn every_value_variant_survives_storage() {
    let (_dir, mut env) = temp_env(5);
    let store = env.create_or_open(Some("db")).unwrap();

    let values = vec![
        Value::Null,
        Value::Bool(true),
        Value::I64(-42),
        Value::F64(2.5f64.to_bits()),
        Value::Str("stored".to_owned()),
        Value::Blob(vec![1, 2, 3]),
    ];
    let mut w = env.begin_write().unwrap();
    for (i, v) in values.iter().enumerate() {
        w.put(&store, format!("key{}", i).as_bytes(), v).unwrap();
    }
    w.commit().unwrap();

    let r = env.begin_read().unwrap();
    for (i, v) in values.iter().enumerate() {
        assert_eq!(r.get(&store, format!("key{}", i).as_bytes()).unwrap().as_ref(), Some(v));
    }
    r.abort();
}

#[test]
fn a_batch_lands_atomically_and_in_order() {
    let (_dir, mut env) = temp_env(5);
    let store = env.create_or_open(Some("db")).unwrap();

    let mut w = env.begin_write().unwrap();
    w.put(&store, b"old", &Value::I64(1)).unwrap();
    w.commit().unwrap();

    let batch: Vec<(Vec<u8>, Option<Value>)> = vec![
        (b"a".to_vec(), Some(Value::I64(10))),
        (b"old".to_vec(), None),
        (b"a".to_vec(), Some(Value::I64(11))),
        (b"never-there".to_vec(), None),
        (b"b".to_vec(), Some(Value::Bool(true))),
    ];

    let mut w = env.begin_write().unwrap();
    w.apply_batch(&store, &batch).unwrap();

    // Nothing is visible before the commit.
    let r = env.begin_read().unwrap();
    assert_eq!(r.get(&store, b"a").unwrap(), None);
    assert_eq!(r.get(&store, b"old").unwrap(), Some(Value::I64(1)));
    r.abort();

    w.commit().unwrap();

    // Afterwards the store holds exactly the folded batch: the later
    // write of "a" wins, "old" is gone, the absent removal was a no-op.
    let r = env.begin_read().unwrap();
    assert_eq!(r.get(&store, b"a").unwrap(), Some(Value::I64(11)));
    assert_eq!(r.get(&store, b"b").unwrap(), Some(Value::Bool(true)));
    assert_eq!(r.get(&store, b"old").unwrap(), None);
    r.abort();
}

#[test]
fn empty_key_is_an_engine_error_and_changes_nothing() {
    let (_dir, mut env) = temp_env(5);
    let store = env.create_or_open(Some("db")).unwrap();

    let mut w = env.begin_write().unwrap();
    assert!(matches!(w.put(&store, b"", &Value::I64(1)), Err(StoreError::Engine(_))));
    w.put(&store, b"ok", &Value::I64(2)).unwrap();
    w.commit().unwrap();

    let r = env.begin_read().unwrap();
    assert_eq!(r.get(&store, b"ok").unwrap(), Some(Value::I64(2)));
    r.abort();
}

#[test]
fn a_store_name_with_a_nul_byte_is_an_error_not_a_panic() {
    let (_dir, mut env) = temp_env(5);
    assert!(matches!(env.create_or_open(Some("a\0b")), Err(StoreError::Engine(_))));
    assert!(matches!(env.open_existing("a\0b"), Err(StoreError::Engine(_))));
    // The environment is still usable afterwards.
    let store = env.create_or_open(Some("db")).unwrap();
    let mut w = env.begin_write().unwrap();
    w.put(&store, b"k", &Value::I64(1)).unwrap();
    w.commit().unwrap();
}
