//! Timing helpers and default configurations.

use std::cell::Cell;
use varvedb::config::ReaderConfig;
use varvedb::storage::Storage;
use varvedb::storage::StorageConfig;
use varvedb::writer::Writer;
use varvedb::config::VarveConfig;
use varvedb::config::WriterConfig;
use varvedb::config::DEFAULT_MAP_SIZE;
use varvedb::config::DEFAULT_MAX_DBS;
use varvedb::util::timed;
use varvedb::util::timed_dbg;

#[test]
fn test_timed_returns_block_result() {
    let result = timed("test", |_: &str, _: u128| {}, || 42);
    assert_eq!(result, 42);
}

#[test]
fn test_timed_calls_callback() {
    let called = Cell::new(false);
    let _: () = timed(
        "test",
        |label: &str, _dur: u128| {
            assert_eq!(label, "test");
            called.set(true);
        },
        || {},
    );
    assert!(called.get(), "callback should be called in debug builds");
}

#[test]
fn test_timed_dbg_returns_block_result() {
    let result = timed_dbg("test_op", || "hello");
    assert_eq!(result, "hello");
}

#[test]
fn test_timed_with_named_function() {
    let called = Cell::new(false);
    let result = timed("named_fn_test", |_: &str, _: u128| called.set(true), || 123);
    assert_eq!(result, 123);
    assert!(called.get());
}

#[test]
fn test_reader_config_default() {
    let config = ReaderConfig::default();
    assert_eq!(config.max_dbs, DEFAULT_MAX_DBS);
    assert_eq!(config.map_size, DEFAULT_MAP_SIZE);
}

#[test]
fn test_writer_config_default() {
    let config = WriterConfig::default();
    assert_eq!(config.max_dbs, DEFAULT_MAX_DBS);
    assert_eq!(config.map_size, DEFAULT_MAP_SIZE);
}

#[test]
fn test_varve_config_default() {
    let config = VarveConfig::default();
    assert_eq!(config.max_dbs, DEFAULT_MAX_DBS);
    assert_eq!(config.map_size, DEFAULT_MAP_SIZE);
}

#[test]
fn test_notifier_publishes_monotonically() {
    let mut store = Storage::open(StorageConfig::default()).expect("open failed");
    let writer = Writer::new();
    assert_eq!(store.notifier.current(), 0);
    let mut last = 0;
    for i in 0..5u32 {
        writer.append(&mut store, 1, i + 1, &[i as u8]).expect("append failed");
        let now = store.notifier.current();
        assert!(now > last, "notifier value decreased");
        last = now;
    }
    assert_eq!(last, 5);
}
