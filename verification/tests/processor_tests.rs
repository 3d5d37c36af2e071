//! The processor's batched drain: in-order, exactly-once delivery within a
//! drain, and cursor persistence.

use varvedb::processor::Processor;
use varvedb::processor::ProcessorConfig;
use varvedb::processor::RecordingHandler;
use varvedb::storage::lookup_cursor;
use varvedb::storage::Storage;
use varvedb::storage::StorageConfig;
use varvedb::writer::Writer;

fn open_plain() -> Storage {
    Storage::open(StorageConfig::default()).expect("open failed")
}

#[test]
fn test_processor_drain() {
    let mut store = open_plain();
    let writer = Writer::new();
    for i in 0..200u64 {
        let payload = i.to_be_bytes().to_vec();
        writer.append(&mut store, 1, (i + 1) as u32, &payload).expect("append failed");
    }
    let processor = Processor::new(101).with_config(
        ProcessorConfig { batch_size: 10, batch_timeout_ms: 100 },
    );
    let mut handler = RecordingHandler::new();
    let head = processor.process_backlog(&mut store, &mut handler).expect("drain failed");
    assert_eq!(head, 200);
    let events = handler.events();
    assert_eq!(events.len(), 200);
    for i in 0..200u64 {
        assert_eq!(events[i as usize], i.to_be_bytes().to_vec());
    }
    assert_eq!(lookup_cursor(&store.consumer_cursors, 101), Some(200));
}

#[test]
fn test_processor_resumes_from_cursor() {
    let mut store = open_plain();
    let writer = Writer::new();
    for i in 0..5u64 {
        writer.append(&mut store, 1, (i + 1) as u32, &[i as u8]).expect("append failed");
    }
    let processor = Processor::new(7);
    let mut handler = RecordingHandler::new();
    processor.process_backlog(&mut store, &mut handler).expect("drain failed");
    assert_eq!(handler.events().len(), 5);

    // New events after the first drain: only they are delivered next time.
    for i in 5..8u64 {
        writer.append(&mut store, 1, (i + 1) as u32, &[i as u8]).expect("append failed");
    }
    let mut handler2 = RecordingHandler::new();
    processor.process_backlog(&mut store, &mut handler2).expect("drain failed");
    let seen: Vec<Vec<u8>> = handler2.events().clone();
    assert_eq!(seen, vec![vec![5u8], vec![6u8], vec![7u8]]);
    assert_eq!(lookup_cursor(&store.consumer_cursors, 7), Some(8));
}

#[test]
fn test_processor_empty_log_is_noop() {
    let mut store = open_plain();
    let processor = Processor::new(3);
    let mut handler = RecordingHandler::new();
    let head = processor.process_backlog(&mut store, &mut handler).expect("drain failed");
    assert_eq!(head, 0);
    assert_eq!(handler.events().len(), 0);
    assert_eq!(lookup_cursor(&store.consumer_cursors, 3), None);
}

#[test]
fn test_processor_halts_on_corrupt_record() {
    let mut store = open_plain();
    let writer = Writer::new();
    writer.append(&mut store, 1, 1, b"good").expect("append failed");
    writer.append(&mut store, 1, 2, b"bad").expect("append failed");
    writer.append(&mut store, 1, 3, b"after").expect("append failed");
    store.events_log[1] = vec![9, 9];
    let processor = Processor::new(5).with_config(
        ProcessorConfig { batch_size: 1, batch_timeout_ms: 100 },
    );
    let mut handler = RecordingHandler::new();
    // The failure is exactly the unreadable record's read error.
    match processor.process_backlog(&mut store, &mut handler) {
        Err(varvedb::error::Error::CorruptRecord) => {},
        other => panic!("expected the read error, got {:?}", other),
    }
    // The cursor never moves past the failed event.
    assert_eq!(handler.events().len(), 1);
    assert_eq!(lookup_cursor(&store.consumer_cursors, 5), Some(1));
}
