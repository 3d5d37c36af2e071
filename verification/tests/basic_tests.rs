//! End-to-end tests of the plain (unencrypted) store: appends, reads by
//! sequence and by stream, conflicts, configuration validation.

use varvedb::encoding::StreamKey;
use varvedb::error::Error;
use varvedb::reader::Reader;
use varvedb::storage::Storage;
use varvedb::storage::StorageConfig;
use varvedb::writer::next_version;
use varvedb::writer::StreamVersion;
use varvedb::writer::ExpectedVersion;
use varvedb::writer::Writer;

fn open_plain() -> Storage {
    Storage::open(StorageConfig::default()).expect("open failed")
}

fn simple_event(id: u64, timestamp: u64, value: i32) -> Vec<u8> {
    let mut b = Vec::new();
    b.extend_from_slice(&id.to_be_bytes());
    b.extend_from_slice(&timestamp.to_be_bytes());
    b.extend_from_slice(&value.to_be_bytes());
    b
}

fn simple_value(bytes: &[u8]) -> i32 {
    i32::from_be_bytes(bytes[16..20].try_into().unwrap())
}

#[test]
fn test_basic_round_trip_plain() {
    let mut store = open_plain();
    let writer = Writer::new();
    let reader = Reader::new();
    let payload = simple_event(1, 0, 42);
    let seq = writer.append(&mut store, 1, 1, &payload).expect("append failed");
    assert_eq!(seq, 1);
    let view = reader.get_by_stream(&store, 1, 1).expect("get failed").expect("missing");
    assert_eq!(simple_value(view.bytes()), 42);
    assert_eq!(reader.count(&store), 1);
}

#[test]
fn test_concurrency_conflict() {
    let mut store = open_plain();
    let writer = Writer::new();
    let reader = Reader::new();
    let a = simple_event(1, 0, 42);
    writer.append(&mut store, 1, 1, &a).expect("append failed");
    let b = simple_event(1, 0, 99);
    let err = writer.append(&mut store, 1, 1, &b).unwrap_err();
    match err {
        Error::ConcurrencyConflict { stream_id, version } => {
            assert_eq!(stream_id, 1);
            assert_eq!(version, 1);
        },
        other => panic!("Expected Validation error, got {:?}", other),
    }
    assert_eq!(reader.count(&store), 1);
    let view = reader.get_by_stream(&store, 1, 1).expect("get failed").expect("missing");
    assert_eq!(simple_value(view.bytes()), 42);
}

#[test]
fn test_auto_version_race_simulation() {
    let mut store = open_plain();
    let writer = Writer::new();
    let reader = Reader::new();
    let a = b"a".to_vec();
    let b = b"b".to_vec();
    let c = b"c".to_vec();
    writer.append(&mut store, 1, 1, &a).expect("append failed");
    writer.append(&mut store, 1, 2, &b).expect("append failed");
    writer.append(&mut store, 2, 1, &c).expect("append failed");
    let all = reader.collect_events(&store).expect("collect failed");
    assert_eq!(all, vec![a.clone(), b.clone(), c.clone()]);
    let view = reader.get_by_stream(&store, 1, 2).expect("get failed").expect("missing");
    assert_eq!(view.bytes(), b.as_slice());
}

#[test]
fn test_next_version_prefix_scan() {
    let mut store = open_plain();
    let writer = Writer::new();
    assert_eq!(next_version(&store, 7), 1);
    writer.append(&mut store, 7, 1, b"x").expect("append failed");
    writer.append(&mut store, 7, 2, b"y").expect("append failed");
    writer.append(&mut store, 9, 5, b"z").expect("append failed");
    assert_eq!(next_version(&store, 7), 3);
    assert_eq!(next_version(&store, 9), 6);
    let (seq, v) = writer
        .append_expected(&mut store, 7, ExpectedVersion::Auto, b"w")
        .expect("append failed");
    assert_eq!(v, 3);
    assert_eq!(seq, 4);
}

#[test]
fn test_stream_versions_prefix_order() {
    let mut store = open_plain();
    let writer = Writer::new();
    let reader = Reader::new();
    writer.append(&mut store, 5, 3, b"c").expect("append failed");
    writer.append(&mut store, 5, 1, b"a").expect("append failed");
    writer.append(&mut store, 6, 1, b"x").expect("append failed");
    writer.append(&mut store, 5, 2, b"b").expect("append failed");
    let versions = reader.stream_versions(&store, 5);
    let vs: Vec<u32> = versions.iter().map(|p| p.0).collect();
    assert_eq!(vs, vec![1, 2, 3]);
    for (v, seq) in versions {
        let direct = reader.get(&store, seq).expect("get failed").expect("missing");
        let by_stream = reader.get_by_stream(&store, 5, v).expect("get failed").expect("missing");
        assert_eq!(direct.bytes(), by_stream.bytes());
    }
}

#[test]
fn test_get_by_stream() {
    let mut store = open_plain();
    let writer = Writer::new();
    let reader = Reader::new();
    writer.append(&mut store, 1, 1, &simple_event(0, 0, 10)).expect("append failed");
    writer.append(&mut store, 1, 2, &simple_event(0, 0, 20)).expect("append failed");
    writer.append(&mut store, 2, 1, &simple_event(0, 0, 30)).expect("append failed");

    let event1 = reader.get_by_stream(&store, 1, 1).unwrap().unwrap();
    assert_eq!(simple_value(event1.bytes()), 10);

    let event2 = reader.get_by_stream(&store, 1, 2).unwrap().unwrap();
    assert_eq!(simple_value(event2.bytes()), 20);

    let event3 = reader.get_by_stream(&store, 2, 1).unwrap().unwrap();
    assert_eq!(simple_value(event3.bytes()), 30);

    assert!(reader.get_by_stream(&store, 1, 3).unwrap().is_none());
    assert!(reader.get_by_stream(&store, 3, 1).unwrap().is_none());
}

#[test]
fn test_storage_validation() {
    let mut config = StorageConfig::default();
    config.map_size = 0;
    match Storage::open(config) {
        Err(Error::InvalidConfig) => {},
        other => panic!("Expected Validation error, got {:?}", other.map(|_| ())),
    }
    let mut config = StorageConfig::default();
    config.max_dbs = 3;
    match Storage::open(config) {
        Err(Error::InvalidConfig) => {},
        other => panic!("Expected Validation error, got {:?}", other.map(|_| ())),
    }
}

#[test]
fn test_get_nonexistent_sequence_returns_none() {
    let store = open_plain();
    let reader = Reader::new();
    assert!(reader.get(&store, 1).expect("Failed to get").is_none());
    assert!(reader.get(&store, 0).expect("Failed to get").is_none());
}

#[test]
fn test_get_out_of_range_sequence_returns_none() {
    let mut store = open_plain();
    let writer = Writer::new();
    let reader = Reader::new();
    writer.append(&mut store, 1, 1, b"one").expect("Failed to append");
    assert!(reader.get(&store, 1).expect("Failed to get").is_some());
    assert!(reader.get(&store, 2).expect("Failed to get").is_none());
    assert!(reader.get(&store, 999999).expect("Failed to get").is_none());
}

#[test]
fn test_multiple_sequential_reads_same_sequence() {
    let mut store = open_plain();
    let writer = Writer::new();
    let reader = Reader::new();
    let payload = simple_event(42, 1234567890, 100);
    writer.append(&mut store, 1, 1, &payload).expect("Failed to append event");
    for _ in 0..10 {
        let view = reader.get(&store, 1).expect("Failed to get event").expect("missing");
        let bytes = view.bytes();
        assert_eq!(u64::from_be_bytes(bytes[0..8].try_into().unwrap()), 42);
        assert_eq!(u64::from_be_bytes(bytes[8..16].try_into().unwrap()), 1234567890);
        assert_eq!(simple_value(bytes), 100);
    }
}

#[test]
fn test_write_and_read_multiple_simple_events() {
    let mut store = open_plain();
    let writer = Writer::new();
    let reader = Reader::new();
    for i in 0..10u64 {
        let payload = simple_event(i, 1702400000 + i, (i as i32) * 100);
        writer.append(&mut store, 1, (i + 1) as u32, &payload).expect("Failed to append event");
    }
    for i in 0..10u64 {
        let view = reader.get(&store, i + 1).expect("Failed to get event").expect("missing");
        let bytes = view.bytes();
        assert_eq!(u64::from_be_bytes(bytes[0..8].try_into().unwrap()), i);
        assert_eq!(simple_value(bytes), (i as i32) * 100);
    }
}

#[test]
fn test_stream_key_layout() {
    let key = StreamKey::new(1, 1);
    let bytes = key.to_be_bytes();
    let mut expected = vec![0u8; 15];
    expected.push(1);
    expected.extend_from_slice(&[0, 0, 0, 1]);
    assert_eq!(bytes, expected);

    let key = StreamKey::new(0x0102030405060708090a0b0c0d0e0f10, 0xdeadbeef);
    let bytes = key.to_be_bytes();
    assert_eq!(bytes.len(), 20);
    assert_eq!(&bytes[0..16], &[1, 2, 3, 4, 5, 6, 7, 8, 9, 10, 11, 12, 13, 14, 15, 16]);
    assert_eq!(&bytes[16..20], &[0xde, 0xad, 0xbe, 0xef]);
}

#[test]
fn test_count_and_collect() {
    let mut store = open_plain();
    let writer = Writer::new();
    let reader = Reader::new();
    assert_eq!(reader.count(&store), 0);
    assert_eq!(reader.collect_events(&store).expect("collect failed").len(), 0);
    writer.append(&mut store, 1, 1, b"alpha").expect("append failed");
    writer.append(&mut store, 2, 1, b"beta").expect("append failed");
    assert_eq!(reader.count(&store), 2);
    let all = reader.collect_events(&store).expect("collect failed");
    assert_eq!(all, vec![b"alpha".to_vec(), b"beta".to_vec()]);
}

#[test]
fn test_stream_version_nonzero() {
    assert!(StreamVersion::new(0).is_none());
    let v = StreamVersion::new(1).expect("nonzero version rejected");
    assert_eq!(v.get(), 1);
    let v = StreamVersion::new(u32::MAX).expect("nonzero version rejected");
    assert_eq!(v.get(), u32::MAX);
}

#[test]
fn test_with_read_txn_scoped_snapshot() {
    let mut store = open_plain();
    let writer = Writer::new();
    let reader = Reader::new();
    writer.append(&mut store, 1, 1, b"snap").expect("append failed");
    let n = reader.with_read_txn(&store, |snapshot| {
        let reader = Reader::new();
        reader.count(snapshot)
    });
    assert_eq!(n, 1);
}

#[test]
fn test_validate_accepts_good_and_rejects_corrupt() {
    let mut store = open_plain();
    let writer = Writer::new();
    assert!(store.validate());
    writer.append(&mut store, 1, 1, b"a").expect("append failed");
    writer.append(&mut store, 2, 1, b"b").expect("append failed");
    assert!(store.validate());

    // A duplicated global sequence in the index is corruption.
    let mut broken = open_plain();
    let writer2 = Writer::new();
    writer2.append(&mut broken, 1, 1, b"a").expect("append failed");
    writer2.append(&mut broken, 1, 2, b"b").expect("append failed");
    let dup = broken.stream_index[0].seq;
    broken.stream_index[1].seq = dup;
    assert!(!broken.validate());

    // A stale notifier slot is corruption too.
    let mut stale = open_plain();
    let writer3 = Writer::new();
    writer3.append(&mut stale, 1, 1, b"a").expect("append failed");
    stale.notifier.publish(9);
    assert!(!stale.validate());
}

#[test]
fn test_plain_record_layout() {
    let mut store = open_plain();
    let writer = Writer::new();
    // Small payloads are stored as a tagged inline envelope.
    writer.append(&mut store, 1, 1, b"abc").expect("append failed");
    let mut expected = vec![0u8];
    expected.extend_from_slice(b"abc");
    assert_eq!(store.events_log[0], expected);
    // Large payloads are stored as a blob reference: tag plus content hash.
    let big = vec![5u8; 3000];
    writer.append(&mut store, 1, 2, &big).expect("append failed");
    assert_eq!(store.events_log[1].len(), 33);
    assert_eq!(store.events_log[1][0], 1);
    assert_eq!(&store.events_log[1][1..], store.blobs[0].hash.as_slice());
}

#[test]
fn test_append_expected_conflict() {
    let mut store = open_plain();
    let writer = Writer::new();
    writer.append(&mut store, 3, 1, b"x").expect("append failed");
    match writer.append_expected(&mut store, 3, ExpectedVersion::Exact(1), b"y") {
        Err(Error::ConcurrencyConflict { stream_id, version }) => {
            assert_eq!(stream_id, 3);
            assert_eq!(version, 1);
        },
        other => panic!("expected a conflict, got {:?}", other),
    }
    assert_eq!(store.events_log.len(), 1);
}

#[test]
fn test_corrupt_record_detected() {
    let mut store = open_plain();
    let writer = Writer::new();
    let reader = Reader::new();
    writer.append(&mut store, 1, 1, b"payload").expect("append failed");
    // An unknown envelope tag must be rejected, never trusted.
    store.events_log[0] = vec![7, 7, 7];
    match reader.get(&store, 1) {
        Err(Error::CorruptRecord) => {},
        other => panic!("Expected validation error, got {:?}", other.map(|_| ())),
    }
}
