//! Encrypted round trips, tamper detection, master-key binding and
//! crypto-shredding.

use varvedb::crypto::MasterKey;
use varvedb::error::Error;
use varvedb::keys::KeyManager;
use varvedb::reader::Reader;
use varvedb::storage::Storage;
use varvedb::storage::StorageConfig;
use varvedb::writer::Writer;

fn open_encrypted(master: [u8; 32]) -> Storage {
    let mut config = StorageConfig::default();
    config.encryption_enabled = true;
    config.master_key = Some(MasterKey::new(&master));
    Storage::open(config).expect("open failed")
}

#[test]
fn test_encryption_roundtrip() {
    let mut store = open_encrypted([0x42u8; 32]);
    let writer = Writer::new();
    let reader = Reader::new();
    let secret = b"Top Secret".to_vec();
    writer.append(&mut store, 1, 1, &secret).expect("append failed");
    let view = reader.get_by_stream(&store, 1, 1).expect("get failed").expect("missing");
    assert_eq!(view.bytes(), secret.as_slice());
}

#[test]
fn test_encrypted_round_trip_and_tamper_detection() {
    let mut store = open_encrypted([0x42u8; 32]);
    let writer = Writer::new();
    let reader = Reader::new();
    let secret = b"The eagle".to_vec();
    writer.append(&mut store, 1, 1, &secret).expect("append failed");
    let view = reader.get_by_stream(&store, 1, 1).expect("get failed").expect("missing");
    assert_eq!(view.bytes(), secret.as_slice());

    // The same store under an all-zero master key cannot unwrap the stream
    // key: the read fails with a decryption error.
    store.config.master_key = Some(MasterKey::new(&[0u8; 32]));
    match reader.get_by_stream(&store, 1, 1) {
        Err(Error::DecryptionFailed) => {},
        other => panic!("expected decryption failure, got {:?}", other.map(|_| ())),
    }

    // Restore the correct key: the read works again.
    store.config.master_key = Some(MasterKey::new(&[0x42u8; 32]));
    let view = reader.get_by_stream(&store, 1, 1).expect("get failed").expect("missing");
    assert_eq!(view.bytes(), secret.as_slice());

    // Flip a single ciphertext byte at offset >= 28: authentication fails.
    let flip_at = 28;
    store.events_log[0][flip_at] ^= 0x01;
    match reader.get_by_stream(&store, 1, 1) {
        Err(Error::DecryptionFailed) => {},
        other => panic!("expected decryption failure, got {:?}", other.map(|_| ())),
    }
}

#[test]
fn test_aad_integrity() {
    let mut store = open_encrypted([0x42u8; 32]);
    let writer = Writer::new();
    let reader = Reader::new();
    let secret = b"Sensitive".to_vec();
    writer.append(&mut store, 1, 1, &secret).expect("append failed");
    // Flipping any byte of the stored record, including the leading stream
    // id prefix at offset < 28, must never yield a silent success.
    let len = store.events_log[0].len();
    for offset in 0..len {
        store.events_log[0][offset] ^= 0x01;
        match reader.get(&store, 1) {
            Err(_) => {},
            Ok(Some(v)) => {
                panic!("tampered record at offset {} read back {:?}", offset, v.bytes())
            },
            Ok(None) => panic!("record vanished"),
        }
        store.events_log[0][offset] ^= 0x01;
    }
    let view = reader.get(&store, 1).expect("get failed").expect("missing");
    assert_eq!(view.bytes(), secret.as_slice());
}

#[test]
fn test_disk_inspection() {
    let mut store = open_encrypted([0x42u8; 32]);
    let writer = Writer::new();
    let secret = b"MySuperSecretString";
    writer.append(&mut store, 1, 1, secret).expect("append failed");
    let stored = &store.events_log[0];
    let found = stored.windows(secret.len()).any(|w| w == secret.as_slice());
    assert!(!found, "Secret string found in raw bytes!");
}

#[test]
fn test_crypto_shredding() {
    let mut store = open_encrypted([0x07u8; 32]);
    let writer = Writer::new();
    let reader = Reader::new();
    let km = KeyManager::new();
    let payload = vec![123u8; 10];
    writer.append(&mut store, 42, 1, &payload).expect("append failed");
    let view = reader.get_by_stream(&store, 42, 1).expect("get failed").expect("missing");
    assert_eq!(view.bytes(), payload.as_slice());

    km.delete_key(&mut store, 42).expect("delete failed");
    match reader.get_by_stream(&store, 42, 1) {
        Err(Error::KeyNotFound { stream_id }) => assert_eq!(stream_id, 42),
        other => panic!("expected key loss, got {:?}", other.map(|_| ())),
    }

    // A later append regenerates a fresh key for the stream, but the old
    // record stays unreadable: the new key cannot open it.
    let payload2 = vec![99u8; 10];
    writer.append(&mut store, 42, 2, &payload2).expect("append failed");
    let view = reader.get_by_stream(&store, 42, 2).expect("get failed").expect("missing");
    assert_eq!(view.bytes(), payload2.as_slice());
    match reader.get_by_stream(&store, 42, 1) {
        Err(Error::DecryptionFailed) => {},
        Err(Error::KeyNotFound { .. }) => {},
        other => panic!("shredded record became readable: {:?}", other.map(|_| ())),
    }
}

#[test]
fn test_master_key_encryption() {
    let mut store = open_encrypted([0x42u8; 32]);
    let writer = Writer::new();
    let reader = Reader::new();
    let secret = b"Secret Data".to_vec();
    writer.append(&mut store, 42, 1, &secret).expect("append failed");
    assert!(reader.get(&store, 1).expect("get failed").is_some(), "Event should exist");
    assert_eq!(store.keystore.len(), 1, "Key should exist");
    assert_eq!(store.keystore[0].wrapped.len(), 60);

    store.config.master_key = Some(MasterKey::new(&[0u8; 32]));
    assert!(
        reader.get(&store, 1).is_err(),
        "Decryption with wrong master key should fail"
    );

    store.config.master_key = Some(MasterKey::new(&[0x42u8; 32]));
    assert!(
        reader.get(&store, 1).expect("get failed").is_some(),
        "Decryption with correct master key should succeed"
    );
}

#[test]
fn test_wrong_master_key_access() {
    let mut store = open_encrypted([0x11u8; 32]);
    let writer = Writer::new();
    let reader = Reader::new();
    writer.append(&mut store, 1, 1, b"Sensitive").expect("append failed");
    store.config.master_key = Some(MasterKey::new(&[0x22u8; 32]));
    assert!(
        reader.get(&store, 1).is_err(),
        "Reader should fail when using wrong master key"
    );
}

#[test]
fn test_master_key_missing() {
    let mut config = StorageConfig::default();
    config.encryption_enabled = true;
    let mut store = Storage::open(config).expect("open failed");
    let writer = Writer::new();
    match writer.append(&mut store, 1, 1, b"x") {
        Err(Error::MasterKeyMissing) => {},
        other => panic!("expected missing master key, got {:?}", other),
    }
    assert_eq!(store.events_log.len(), 0);
}

#[test]
fn test_stream_keys_are_independent() {
    let mut store = open_encrypted([0x42u8; 32]);
    let writer = Writer::new();
    writer.append(&mut store, 1, 1, b"one").expect("append failed");
    writer.append(&mut store, 2, 1, b"two").expect("append failed");
    assert_eq!(store.keystore.len(), 2);
    // Fresh random keys and nonces: the wrapped values differ.
    assert_ne!(store.keystore[0].wrapped, store.keystore[1].wrapped);

    // A wrapped key moved into another stream's slot does not unwrap: the
    // associated data binds it to its own stream id.
    let w0 = store.keystore[0].wrapped.clone();
    store.keystore[1].wrapped = w0;
    let reader = Reader::new();
    assert!(reader.get(&store, 1).expect("get failed").is_some());
    assert!(reader.get(&store, 2).is_err());
}

#[test]
fn test_encrypted_record_layout() {
    let mut store = open_encrypted([0x42u8; 32]);
    let writer = Writer::new();
    let payload = b"layout".to_vec();
    writer.append(&mut store, 7, 1, &payload).expect("append failed");
    let stored = &store.events_log[0];
    // stream id (16) | nonce (12) | ciphertext | tag (16), over the
    // one-byte-tagged inline envelope.
    assert_eq!(stored.len(), (1 + payload.len()) + 44);
    let mut sid_be = [0u8; 16];
    sid_be[15] = 7;
    assert_eq!(&stored[0..16], &sid_be);
    // The envelope plaintext never appears in the stored bytes.
    assert!(!stored.windows(payload.len()).any(|w| w == payload.as_slice()));
}

#[test]
fn test_encrypt_decrypt_helpers() {
    let key = [0x55u8; 32];
    let aad = b"context";
    let sealed = varvedb::crypto::encrypt(&key, b"hello world", aad).expect("encrypt failed");
    assert_eq!(sealed.len(), 11 + 28);
    let opened = varvedb::crypto::decrypt(&key, &sealed, aad).expect("decrypt failed");
    assert_eq!(opened, b"hello world".to_vec());

    // Wrong associated data must fail.
    assert!(varvedb::crypto::decrypt(&key, &sealed, b"other").is_err());
    // Wrong key must fail.
    assert!(varvedb::crypto::decrypt(&[0x66u8; 32], &sealed, aad).is_err());
    // A flipped ciphertext byte must fail.
    let mut tampered = sealed.clone();
    tampered[20] ^= 0x01;
    assert!(varvedb::crypto::decrypt(&key, &tampered, aad).is_err());
    // Too short to even hold a nonce.
    match varvedb::crypto::decrypt(&key, &sealed[0..5], aad) {
        Err(Error::InvalidLength { actual, required, .. }) => {
            assert_eq!(actual, 5);
            assert_eq!(required, 12);
        },
        other => panic!("expected length error, got {:?}", other),
    }
}

#[test]
fn test_short_encrypted_record_rejected() {
    let mut store = open_encrypted([0x42u8; 32]);
    let writer = Writer::new();
    let reader = Reader::new();
    writer.append(&mut store, 1, 1, b"abc").expect("append failed");
    store.events_log[0].truncate(20);
    match reader.get(&store, 1) {
        Err(Error::InvalidLength { actual, required, .. }) => {
            assert_eq!(actual, 20);
            assert_eq!(required, 44);
        },
        other => panic!("expected length error, got {:?}", other.map(|_| ())),
    }
}
