//! The read path: retrieval by global sequence and by (stream id, version),
//! with decryption and integrity validation.
//!
//! `read_back` is the mathematical description of a read: what payload, if
//! any, the store yields at a sequence. The executable reader returns
//! exactly that payload and classifies every failure.

use crate::crypto::aead_decrypt;
use crate::crypto::aead_open;
use crate::encoding::be_bytes;
use crate::encoding::be_to_nat;
use crate::encoding::be_to_u128;
use crate::encoding::lemma_be_to_nat_bound;
use crate::encoding::pow256;
use crate::encoding::u128_to_be;
use crate::error::Error;
use crate::error::LengthKind;
use crate::crypto::secret_view;
use crate::keys::stream_key_of;
use crate::keys::unwrap_error_spec;
use crate::keys::KeyManager;
use crate::model::decode_envelope;
use crate::model::EnvelopeView;
use crate::model::StoragePayload;
use crate::model::TAG_BLOB_REF;
use crate::model::TAG_INLINE;
use crate::storage::find_blob;
use crate::storage::find_index_seq;
use crate::storage::entry_key;
use crate::storage::find_wrapped_key;
use crate::storage::index_sorted;
use crate::storage::lookup_blob;
use crate::storage::lookup_index;
use crate::storage::Storage;
use vstd::prelude::*;
use vstd::slice::slice_subrange;
use vstd::slice::slice_to_vec;

verus! {

/// Least length of an encrypted record: stream id (16), nonce (12), tag (16).
pub const ENCRYPTED_EVENT_MIN_SIZE: usize = 44;

/// The stream id an encrypted record claims in its 16-byte prefix.
pub open spec fn record_stream_id(stored: Seq<u8>) -> u128 {
    be_to_nat(stored.subrange(0, 16)) as u128
}

/// The envelope bytes an encrypted record yields: the remainder after the
/// stream id prefix, opened with the stream's key under the stream id and
/// sequence as associated data.
pub open spec fn decrypt_record_spec(store: Storage, seq: u64, stored: Seq<u8>) -> Option<Seq<u8>> {
    if stored.len() >= 44 {
        match stream_key_of(store, record_stream_id(stored)) {
            Some(key) => aead_open(
                key,
                stored.subrange(16, 28),
                stored.subrange(0, 16) + be_bytes(seq as nat, 8),
                stored.subrange(28, stored.len() as int),
            ),
            None => None,
        }
    } else {
        None
    }
}

/// The payload bytes an envelope finally denotes in this store.
pub open spec fn payload_of_envelope(store: Storage, env: EnvelopeView) -> Option<Seq<u8>> {
    match env {
        EnvelopeView::Inline(b) => Some(b),
        EnvelopeView::BlobRef(h) => find_blob(store.blobs@, h),
    }
}

/// The mathematical read function: the payload a read of `seq` yields, if
/// every step (lookup, decryption, structural validation, blob resolution)
/// succeeds.
pub open spec fn read_back(store: Storage, seq: u64) -> Option<Seq<u8>> {
    match store.record_at(seq) {
        None => None,
        Some(stored) => {
            let env_bytes = if store.config.encryption_enabled {
                decrypt_record_spec(store, seq, stored)
            } else {
                Some(stored)
            };
            match env_bytes {
                None => None,
                Some(eb) => match decode_envelope(eb) {
                    None => None,
                    Some(env) => payload_of_envelope(store, env),
                },
            }
        },
    }
}

/// Reads do not depend on the consumer cursors: two stores that agree on the
/// log, keystore, blobs and configuration read alike.
pub proof fn lemma_read_back_cursor_independent(a: Storage, b: Storage, seq: u64)
    requires
        a.events_log == b.events_log,
        a.keystore == b.keystore,
        a.blobs == b.blobs,
        a.config == b.config,
    ensures
        read_back(a, seq) == read_back(b, seq),
{
    assert(a.record_at(seq) == b.record_at(seq));
    if a.record_at(seq) is Some {
        let st = a.record_at(seq)->Some_0;
        let rsid = record_stream_id(st);
        assert(stream_key_of(a, rsid) == stream_key_of(b, rsid));
        assert(decrypt_record_spec(a, seq, st) == decrypt_record_spec(b, seq, st));
        let eb = if a.config.encryption_enabled {
            decrypt_record_spec(a, seq, st)
        } else {
            Some(st)
        };
        if eb is Some {
            match decode_envelope(eb->Some_0) {
                Some(env) => {
                    assert(payload_of_envelope(a, env) == payload_of_envelope(b, env));
                },
                None => {},
            }
        }
    }
}

/// Nor does the classification of a failed read: stores that agree on the
/// log, keystore, blobs and configuration report the same error.
pub proof fn lemma_read_error_cursor_independent(
    a: Storage,
    b: Storage,
    seq: u64,
    stored: Seq<u8>,
    e: Error,
)
    requires
        a.events_log == b.events_log,
        a.keystore == b.keystore,
        a.blobs == b.blobs,
        a.config == b.config,
    ensures
        read_error_spec(a, seq, stored, e) == read_error_spec(b, seq, stored, e),
{
    let rsid = record_stream_id(stored);
    assert(stream_key_of(a, rsid) == stream_key_of(b, rsid));
    assert(decrypt_record_spec(a, seq, stored) == decrypt_record_spec(b, seq, stored));
}

/// The error a failed read of a present record reports.
pub open spec fn read_error_spec(store: Storage, seq: u64, stored: Seq<u8>, e: Error) -> bool {
    if !store.config.encryption_enabled {
        e == Error::CorruptRecord
    } else if stored.len() < 44 {
        e == (Error::InvalidLength {
            kind: LengthKind::Record,
            actual: stored.len() as usize,
            required: 44,
        })
    } else if find_wrapped_key(store.keystore@, record_stream_id(stored)) is None {
        e == (Error::KeyNotFound { stream_id: record_stream_id(stored) })
    } else if store.config.master_key is None {
        e == Error::MasterKeyMissing
    } else if stream_key_of(store, record_stream_id(stored)) is None {
        e == unwrap_error_spec(
            secret_view(store.config.master_key->Some_0),
            record_stream_id(stored),
            find_wrapped_key(store.keystore@, record_stream_id(stored))->Some_0,
        )
    } else if decrypt_record_spec(store, seq, stored) is None {
        e == Error::DecryptionFailed
    } else {
        e == Error::CorruptRecord
    }
}

/// Crypto-shredding is irreversible: while a stream has no wrapped key, no
/// encrypted record carrying that stream's id in its prefix can be read,
/// even though the master key is still available, and a well-framed record
/// fails with exactly `KeyNotFound`. The plaintext stream key was never
/// stored, so removing the wrapped key destroys the only way to open these
/// records. An append writes its stream id into the record's prefix and at
/// least the 44-byte framing, so this applies to every record a shredded
/// stream ever committed.
pub proof fn lemma_crypto_shred(store: Storage, seq: u64, e: Error)
    requires
        store.config.encryption_enabled,
        store.record_at(seq) is Some,
        find_wrapped_key(
            store.keystore@,
            record_stream_id(store.record_at(seq)->Some_0),
        ) is None,
    ensures
        read_back(store, seq) is None,
        store.record_at(seq)->Some_0.len() >= 44 ==> (read_error_spec(
            store,
            seq,
            store.record_at(seq)->Some_0,
            e,
        ) <==> e == (Error::KeyNotFound {
            stream_id: record_stream_id(store.record_at(seq)->Some_0),
        })),
{
    let st = store.record_at(seq)->Some_0;
    assert(stream_key_of(store, record_stream_id(st)) is None);
}

/// Event bytes either borrowed from the store (zero-copy) or owned
/// (decrypted or resolved from a blob).
pub enum EventData<'a> {
    /// Bytes borrowed straight out of the event log.
    Borrowed(&'a [u8]),
    /// Bytes materialized by decryption or blob resolution.
    Owned(Vec<u8>),
}

/// A validated view of one event's payload bytes.
pub struct EventView<'a> {
    pub data: EventData<'a>,
}

impl<'a> View for EventView<'a> {
    type V = Seq<u8>;

    open spec fn view(&self) -> Seq<u8> {
        match self.data {
            EventData::Borrowed(b) => b@,
            EventData::Owned(v) => v@,
        }
    }
}

impl<'a> EventView<'a> {
    /// The payload bytes.
    pub fn bytes(&self) -> (r: &[u8])
        ensures
            r@ == self@,
    {
        match &self.data {
            EventData::Borrowed(b) => b,
            EventData::Owned(v) => v.as_slice(),
        }
    }

    /// Detaches the view from the store by copying borrowed bytes.
    pub fn into_owned(self) -> (r: EventView<'static>)
        ensures
            r@ == self@,
    {
        match self.data {
            EventData::Borrowed(b) => EventView { data: EventData::Owned(slice_to_vec(b)) },
            EventData::Owned(v) => EventView { data: EventData::Owned(v) },
        }
    }
}

/// Retrieves events by global sequence or by (stream id, version).
pub struct Reader {}

impl Reader {
    /// Creates a reader.
    pub fn new() -> (r: Reader) {
        Reader {  }
    }

    /// Retrieves the event at a global sequence.
    ///
    /// Returns nothing exactly when the sequence is not in the log, the
    /// payload exactly when every step of `read_back` succeeds, and the
    /// error `read_error_spec` names otherwise.
    pub fn get<'a>(&self, store: &'a Storage, seq: u64) -> (r: Result<Option<EventView<'a>>, Error>)
        requires
            store.wf(),
        ensures
            match r {
                Ok(None) => store.record_at(seq) is None,
                Ok(Some(v)) => read_back(*store, seq) == Some(v@),
                Err(e) => {
                    &&& store.record_at(seq) is Some
                    &&& read_back(*store, seq) is None
                    &&& read_error_spec(*store, seq, store.record_at(seq)->Some_0, e)
                },
            },
            r is Err <==> (store.record_at(seq) is Some && read_back(*store, seq) is None),
            r matches Ok(None) <==> store.record_at(seq) is None,
    {
        if seq == 0 || seq > store.events_log.len() as u64 {
            return Ok(None);
        }
        let idx = (seq - 1) as usize;
        let stored: &Vec<u8> = &store.events_log[idx];
        proof {
            assert(store.record_at(seq) == Some(stored@));
        }
        if store.config.encryption_enabled {
            if stored.len() < ENCRYPTED_EVENT_MIN_SIZE {
                return Err(
                    Error::InvalidLength {
                        kind: LengthKind::Record,
                        actual: stored.len(),
                        required: ENCRYPTED_EVENT_MIN_SIZE,
                    },
                );
            }
            let sid_bytes = slice_subrange(stored.as_slice(), 0, 16);
            let stream_id = be_to_u128(sid_bytes);
            proof {
                lemma_be_to_nat_bound(stored@.subrange(0, 16));
                assert(pow256(16) == 0x100000000000000000000000000000000) by {
                    reveal_with_fuel(pow256, 17);
                }
                assert(stream_id == record_stream_id(stored@));
            }
            let km = KeyManager::new();
            let key = match km.get_key(store, stream_id) {
                Ok(Some(k)) => k,
                Ok(None) => {
                    return Err(Error::KeyNotFound { stream_id });
                },
                Err(e) => {
                    return Err(e);
                },
            };
            let nonce = slice_subrange(stored.as_slice(), 16, 28);
            let ciphertext = slice_subrange(stored.as_slice(), 28, stored.len());
            let mut aad = slice_to_vec(sid_bytes);
            let mut seq_be = u128_to_be(seq as u128, 8);
            aad.append(&mut seq_be);
            proof {
                assert(aad@ == stored@.subrange(0, 16) + be_bytes(seq as nat, 8));
            }
            let env_bytes = match aead_decrypt(
                key.as_slice(),
                nonce,
                aad.as_slice(),
                ciphertext,
            ) {
                Some(p) => p,
                None => {
                    return Err(Error::DecryptionFailed);
                },
            };
            proof {
                assert(decrypt_record_spec(*store, seq, stored@) == Some(env_bytes@));
            }
            match StoragePayload::decode(env_bytes.as_slice()) {
                None => Err(Error::CorruptRecord),
                Some(StoragePayload::Inline(b)) => Ok(
                    Some(EventView { data: EventData::Owned(b) }),
                ),
                Some(StoragePayload::BlobRef(h)) => match lookup_blob(&store.blobs, &h) {
                    Some(data) => Ok(Some(EventView { data: EventData::Owned(data) })),
                    None => Err(Error::CorruptRecord),
                },
            }
        } else {
            if stored.len() == 0 {
                return Err(Error::CorruptRecord);
            }
            let tag = stored[0];
            if tag == TAG_INLINE {
                let b = slice_subrange(stored.as_slice(), 1, stored.len());
                proof {
                    assert(b@ =~= stored@.drop_first());
                }
                Ok(Some(EventView { data: EventData::Borrowed(b) }))
            } else if tag == TAG_BLOB_REF && stored.len() == 33 {
                let h = slice_to_vec(slice_subrange(stored.as_slice(), 1, 33));
                proof {
                    assert(h@ =~= stored@.drop_first());
                }
                match lookup_blob(&store.blobs, &h) {
                    Some(data) => Ok(Some(EventView { data: EventData::Owned(data) })),
                    None => Err(Error::CorruptRecord),
                }
            } else {
                Err(Error::CorruptRecord)
            }
        }
    }

    /// Resolves (stream id, version) through the stream index, then reads
    /// the event at the resolved sequence.
    pub fn get_by_stream<'a>(&self, store: &'a Storage, stream_id: u128, version: u32) -> (r:
        Result<Option<EventView<'a>>, Error>)
        requires
            store.wf(),
        ensures
            match find_index_seq(store.stream_index@, stream_id, version) {
                None => r matches Ok(None),
                Some(seq) => match r {
                    Ok(Some(v)) => read_back(*store, seq) == Some(v@),
                    Ok(None) => false,
                    Err(e) => read_back(*store, seq) is None && read_error_spec(
                        *store,
                        seq,
                        store.record_at(seq)->Some_0,
                        e,
                    ),
                },
            },
    {
        match lookup_index(&store.stream_index, stream_id, version) {
            None => Ok(None),
            Some(seq) => {
                proof {
                    crate::storage::lemma_find_index_seq_in_range(
                        store.stream_index@,
                        stream_id,
                        version,
                        *store,
                    );
                }
                self.get(store, seq)
            },
        }
    }

    /// Runs a synchronous closure against a read snapshot.
    ///
    /// The shared borrow is the snapshot: it is scoped to the closure, so it
    /// can never be held across a suspension point of an async caller.
    pub fn with_read_txn<T, F: FnOnce(&Storage) -> T>(&self, store: &Storage, f: F) -> (r: T)
        requires
            call_requires(f, (store,)),
        ensures
            call_ensures(f, (store,), r),
    {
        f(store)
    }

    /// The number of committed events.
    pub fn count(&self, store: &Storage) -> (r: u64)
        requires
            store.head() < 0xffffffffffffffff,
        ensures
            r == store.head(),
    {
        store.count()
    }

    /// Iterates the stream index with a stream id prefix: the versions of
    /// that stream with their global sequences, in ascending version order.
    ///
    /// Ascending order comes from the index being sorted on its key, whose
    /// big-endian layout makes bytewise order agree with (stream id,
    /// version) order.
    pub fn stream_versions(&self, store: &Storage, stream_id: u128) -> (r: Vec<(u32, u64)>)
        requires
            store.wf(),
        ensures
            forall|a: int, b: int|
                0 <= a < b < r@.len() ==> (#[trigger] r@[a]).0 < (#[trigger] r@[b]).0,
            forall|a: int|
                0 <= a < r@.len() ==> find_index_seq(store.stream_index@, stream_id, (
                #[trigger] r@[a]).0) == Some(r@[a].1),
            forall|v: u32|
                #[trigger] find_index_seq(store.stream_index@, stream_id, v) is Some ==> exists|
                    a: int,
                | 0 <= a < r@.len() && (#[trigger] r@[a]).0 == v,
    {
        let ghost s = store.stream_index@;
        let mut r: Vec<(u32, u64)> = Vec::new();
        let ghost mut pos: Seq<int> = Seq::empty();
        let mut i: usize = 0;
        while i < store.stream_index.len()
            invariant
                i <= s.len(),
                store.stream_index@ == s,
                index_sorted(s),
                pos.len() == r@.len(),
                forall|a: int| 0 <= a < pos.len() ==> 0 <= #[trigger] pos[a] < i,
                forall|a: int|
                    0 <= a < pos.len() ==> s[#[trigger] pos[a]].stream_id == stream_id
                        && s[pos[a]].version == r@[a].0 && s[pos[a]].seq == r@[a].1,
                forall|a: int, b: int| 0 <= a < b < pos.len() ==> #[trigger] pos[a] < #[trigger] pos[b],
                forall|j: int|
                    0 <= j < i && (#[trigger] s[j]).stream_id == stream_id ==> exists|a: int|
                        0 <= a < pos.len() && #[trigger] pos[a] == j,
            decreases s.len() - i,
        {
            let e = &store.stream_index[i];
            if e.stream_id == stream_id {
                let ghost r0 = r@;
                let ghost pos0 = pos;
                r.push((e.version, e.seq));
                proof {
                    pos = pos.push(i as int);
                    assert forall|a: int| 0 <= a < pos.len() implies s[
                        #[trigger] pos[a]].stream_id == stream_id && s[pos[a]].version == r@[a].0
                        && s[pos[a]].seq == r@[a].1 by {
                        if a < pos0.len() {
                            assert(pos[a] == pos0[a]);
                            assert(r@[a] == r0[a]);
                        } else {
                            assert(pos[a] == i as int);
                            assert(r@[a] == (e.version, e.seq));
                        }
                    }
                    assert forall|a: int, b: int| 0 <= a < b < pos.len() implies #[trigger] pos[a]
                        < #[trigger] pos[b] by {
                        assert(pos[a] == pos0[a]);
                        if b < pos.len() - 1 {
                            assert(pos[b] == pos0[b]);
                        } else {
                            assert(pos[b] == i as int);
                        }
                    }
                    assert forall|j: int|
                        0 <= j < i + 1 && (#[trigger] s[j]).stream_id == stream_id implies exists|
                        a: int,
                    | 0 <= a < pos.len() && #[trigger] pos[a] == j by {
                        if j < i {
                            let a = choose|a: int|
                                0 <= a < pos0.len() && #[trigger] pos0[a] == j;
                            assert(pos[a] == j);
                        } else {
                            assert(pos[pos.len() - 1] == j);
                        }
                    }
                }
            } else {
                proof {
                    assert forall|j: int|
                        0 <= j < i + 1 && (#[trigger] s[j]).stream_id == stream_id implies exists|
                        a: int,
                    | 0 <= a < pos.len() && #[trigger] pos[a] == j by {
                        if j < i {
                            let a = choose|a: int|
                                0 <= a < pos.len() && #[trigger] pos[a] == j;
                            assert(pos[a] == j);
                        }
                    }
                }
            }
            i += 1;
        }
        proof {
            assert forall|a: int, b: int| 0 <= a < b < r@.len() implies (#[trigger] r@[a]).0 < (
            #[trigger] r@[b]).0 by {
                assert(entry_key(s[pos[a]]).spec_less(entry_key(s[pos[b]])));
            }
            assert forall|a: int| 0 <= a < r@.len() implies find_index_seq(s, stream_id, (
            #[trigger] r@[a]).0) == Some(r@[a].1) by {
                crate::storage::lemma_find_index_at(s, pos[a]);
            }
            assert forall|v: u32| #[trigger] find_index_seq(s, stream_id, v) is Some implies exists|
                a: int,
            | 0 <= a < r@.len() && (#[trigger] r@[a]).0 == v by {
                crate::storage::lemma_find_index_witness(s, stream_id, v);
                let k = choose|k: int|
                    0 <= k < s.len() && (#[trigger] s[k]).stream_id == stream_id && s[k].version
                        == v && s[k].seq == find_index_seq(s, stream_id, v)->Some_0;
                let a = choose|a: int| 0 <= a < pos.len() && #[trigger] pos[a] == k;
                assert(r@[a].0 == v);
            }
        }
        r
    }

    /// Reads every committed event in global-sequence order.
    ///
    /// Fails with the first unreadable record's error.
    pub fn collect_events(&self, store: &Storage) -> (r: Result<Vec<Vec<u8>>, Error>)
        requires
            store.wf(),
            store.head() < 0xffffffffffffffff,
        ensures
            match r {
                Ok(v) => {
                    &&& v@.len() == store.head()
                    &&& forall|i: int|
                        0 <= i < v@.len() ==> read_back(*store, (i + 1) as u64) == Some(
                            #[trigger] v@[i]@,
                        )
                },
                Err(_) => exists|s: u64|
                    1 <= s <= store.head() && #[trigger] read_back(*store, s) is None,
            },
    {
        let mut out: Vec<Vec<u8>> = Vec::new();
        let mut seq: u64 = 1;
        let total = store.count();
        while seq <= total
            invariant
                store.wf(),
                total == store.head(),
                total < 0xffffffffffffffff,
                1 <= seq <= total + 1,
                out@.len() == seq - 1,
                forall|i: int|
                    0 <= i < out@.len() ==> read_back(*store, (i + 1) as u64) == Some(
                        #[trigger] out@[i]@,
                    ),
            decreases total + 1 - seq,
        {
            match self.get(store, seq) {
                Ok(Some(v)) => {
                    let owned = v.into_owned();
                    match owned.data {
                        EventData::Owned(bytes) => {
                            out.push(bytes);
                        },
                        EventData::Borrowed(b) => {
                            out.push(slice_to_vec(b));
                        },
                    }
                },
                Ok(None) => {
                    proof {
                        assert(false);
                    }
                },
                Err(e) => {
                    return Err(e);
                },
            }
            seq = seq + 1;
        }
        Ok(out)
    }
}

} // verus!
