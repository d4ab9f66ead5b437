//! The two concurrency contracts: one writer at a time across the whole
//! environment, and at most one live reader per thread.

use kvstore::{Env, StoreError, Value};
use std::sync::atomic::{AtomicBool, Ordering};
use std::time::{Duration, Instant};

fn temp_env() -> (tempfile::TempDir, Env) {
    let dir = tempfile::tempdir().unwrap();
    let env = Env::open_or_create(dir.path().to_str().unwrap(), 5).unwrap();
    (dir, env)
}

fn wait_for(flag: &AtomicBool) {
    let start = Instant::now();
    while !flag.load(Ordering::SeqCst) {
        assert!(start.elapsed() < Duration::from_secs(20), "timed out waiting");
        std::hint::spin_loop();
    }
}

fn pause(d: Duration) {
    let start = Instant::now();
    while start.elapsed() < d {
        std::hint::spin_loop();
    }
}

#[test]
fn second_writer_blocks_until_the_first_commits() {
    let (_dir, mut env) = temp_env();
    let store = env.create_or_open(Some("db")).unwrap();
    let env = &env;

    let first_holds = AtomicBool::new(false);
    let first_committed = AtomicBool::new(false);

    crossbeam_utils::thread::scope(|scope| {
        let holder = scope.spawn(|_| {
            let mut w = env.begin_write().unwrap();
            w.put(&store, b"who", &Value::Str("first".to_owned())).unwrap();
            first_holds.store(true, Ordering::SeqCst);
            // Keep the writer lock for a while before committing.
            pause(Duration::from_millis(300));
            first_committed.store(true, Ordering::SeqCst);
            w.commit().unwrap();
        });

        let contender = scope.spawn(|_| {
            wait_for(&first_holds);
            // This must block until the first writer is done, not fail
            // and not run concurrently.
            let mut w = env.begin_write().unwrap();
            assert!(
                first_committed.load(Ordering::SeqCst),
                "second writer started while the first still held the lock"
            );
            // The first writer's commit is visible to the second.
            assert_eq!(w.get(&store, b"who").unwrap(), Some(Value::Str("first".to_owned())));
            w.put(&store, b"who", &Value::Str("second".to_owned())).unwrap();
            w.commit().unwrap();
        });

        holder.join().unwrap();
        contender.join().unwrap();
    })
    .unwrap();

    let r = env.begin_read().unwrap();
    assert_eq!(r.get(&store, b"who").unwrap(), Some(Value::Str("second".to_owned())));
    r.abort();
}

#[test]
fn second_reader_on_one_thread_is_an_error_not_a_hang() {
    let (_dir, mut env) = temp_env();
    let _store = env.create_or_open(Some("db")).unwrap();

    let first = env.begin_read().unwrap();
    let second = env.begin_read();
    assert!(matches!(second, Err(StoreError::ReadTransactionAlreadyExists)));
    first.abort();

    // Once the first is gone, the thread may read again.
    let third = env.begin_read().unwrap();
    third.abort();
}

#[test]
fn readers_on_different_threads_run_concurrently() {
    let (_dir, mut env) = temp_env();
    let store = env.create_or_open(Some("db")).unwrap();
    let mut w = env.begin_write().unwrap();
    w.put(&store, b"k", &Value::I64(5)).unwrap();
    w.commit().unwrap();
    let env = &env;

    crossbeam_utils::thread::scope(|scope| {
        let a = scope.spawn(|_| {
            let r = env.begin_read().unwrap();
            let v = r.get(&store, b"k").unwrap();
            r.abort();
            v
        });
        let b = scope.spawn(|_| {
            let r = env.begin_read().unwrap();
            let v = r.get(&store, b"k").unwrap();
            r.abort();
            v
        });
        assert_eq!(a.join().unwrap(), Some(Value::I64(5)));
        assert_eq!(b.join().unwrap(), Some(Value::I64(5)));
    })
    .unwrap();
}
