//! Inline/blob routing and the idempotence of content-addressed insertion.

use varvedb::reader::Reader;
use varvedb::storage::Storage;
use varvedb::storage::StorageConfig;
use varvedb::writer::Writer;
use varvedb::MAX_INLINE_SIZE;

fn open_plain() -> Storage {
    Storage::open(StorageConfig::default()).expect("open failed")
}

#[test]
fn test_sidecar_storage_small_payload() {
    let mut store = open_plain();
    let writer = Writer::new();
    let reader = Reader::new();
    let payload = vec![7u8; 100];
    writer.append(&mut store, 1, 1, &payload).expect("append failed");
    let view = reader.get(&store, 1).expect("get failed");
    assert!(view.is_some(), "Event should exist");
    assert_eq!(store.blobs.len(), 0);
}

#[test]
fn test_sidecar_storage_large_payload() {
    let mut store = open_plain();
    let writer = Writer::new();
    let reader = Reader::new();
    let payload = vec![7u8; 5000];
    writer.append(&mut store, 1, 1, &payload).expect("append failed");
    let view = reader.get(&store, 1).expect("get failed");
    assert!(view.is_some(), "Event should exist");
    assert_eq!(store.blobs.len(), 1, "Blobs DB should have 1 entry");
}

#[test]
fn test_large_payload_routing_round_trip() {
    let mut store = open_plain();
    let writer = Writer::new();
    let reader = Reader::new();
    let payload: Vec<u8> = (0..5000u32).map(|i| (i % 251) as u8).collect();
    assert!(payload.len() > MAX_INLINE_SIZE);
    writer.append(&mut store, 1, 1, &payload).expect("append failed");
    let view = reader.get(&store, 1).expect("get failed").expect("missing");
    assert_eq!(view.bytes(), payload.as_slice());
    assert_eq!(store.blobs.len(), 1);
    // A byte-identical append adds zero new blob entries.
    writer.append(&mut store, 1, 2, &payload).expect("append failed");
    assert_eq!(store.blobs.len(), 1);
    let view = reader.get(&store, 2).expect("get failed").expect("missing");
    assert_eq!(view.bytes(), payload.as_slice());
}

#[test]
fn test_distinct_large_payloads_get_distinct_blobs() {
    let mut store = open_plain();
    let writer = Writer::new();
    let reader = Reader::new();
    let a = vec![1u8; 3000];
    let b = vec![2u8; 3000];
    writer.append(&mut store, 1, 1, &a).expect("append failed");
    writer.append(&mut store, 1, 2, &b).expect("append failed");
    assert_eq!(store.blobs.len(), 2);
    assert_ne!(store.blobs[0].hash, store.blobs[1].hash);
    assert_eq!(store.blobs[0].hash.len(), 32);
    let va = reader.get(&store, 1).expect("get failed").expect("missing");
    assert_eq!(va.bytes(), a.as_slice());
    let vb = reader.get(&store, 2).expect("get failed").expect("missing");
    assert_eq!(vb.bytes(), b.as_slice());
}

#[test]
fn test_inline_threshold_boundary() {
    let mut store = open_plain();
    let writer = Writer::new();
    let reader = Reader::new();
    let at_limit = vec![3u8; MAX_INLINE_SIZE];
    let over_limit = vec![4u8; MAX_INLINE_SIZE + 1];
    writer.append(&mut store, 1, 1, &at_limit).expect("append failed");
    assert_eq!(store.blobs.len(), 0);
    writer.append(&mut store, 1, 2, &over_limit).expect("append failed");
    assert_eq!(store.blobs.len(), 1);
    let v1 = reader.get(&store, 1).expect("get failed").expect("missing");
    assert_eq!(v1.bytes(), at_limit.as_slice());
    let v2 = reader.get(&store, 2).expect("get failed").expect("missing");
    assert_eq!(v2.bytes(), over_limit.as_slice());
}

#[test]
fn test_missing_blob_is_corruption() {
    let mut store = open_plain();
    let writer = Writer::new();
    let reader = Reader::new();
    let payload = vec![9u8; 4000];
    writer.append(&mut store, 1, 1, &payload).expect("append failed");
    store.blobs.clear();
    match reader.get(&store, 1) {
        Err(varvedb::error::Error::CorruptRecord) => {},
        other => panic!("Expected validation error, got {:?}", other.map(|_| ())),
    }
}
