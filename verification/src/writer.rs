//! The single-writer append path: optimistic concurrency check, global
//! sequence assignment, inline/blob routing, optional authenticated
//! encryption, index update and notification.
//!
//! `append` is atomic: on any failure the store is exactly as it was. On
//! success the new record reads back as the payload that was routed
//! (`read_back` of the returned sequence), every record that could be read
//! before still reads the same bytes, and the notifier carries the new head.

use crate::crypto::aead_encrypt;
use crate::crypto::aead_open;
use crate::crypto::random_bytes;
use crate::crypto::sha256;
use crate::crypto::secret_view;
use crate::crypto::sha256_of;
use crate::encoding::be_bytes;
use crate::encoding::lemma_be_roundtrip;
use crate::encoding::lemma_be_to_nat_bound;
use crate::encoding::pow256;
use crate::encoding::u128_to_be;
use crate::error::Error;
use crate::keys::stream_key_of;
use crate::keys::unwrap_error_spec;
use crate::keys::KeyManager;
use crate::model::decode_envelope;
use crate::model::encode_envelope;
use crate::model::envelope_wf;
use crate::model::lemma_envelope_roundtrip;
use crate::model::EnvelopeView;
use crate::model::StoragePayload;
use crate::reader::decrypt_record_spec;
use crate::reader::read_back;
use crate::reader::record_stream_id;
use crate::storage::clone_bytes;
use crate::storage::find_blob;
use crate::storage::find_index_seq;
use crate::storage::find_wrapped_key;
use crate::storage::insert_index_entry;
use crate::storage::lemma_find_blob_present;
use crate::storage::lemma_find_blob_push;
use crate::storage::index_sorted;
use crate::storage::lemma_find_index_absent;
use crate::storage::lemma_find_index_at;
use crate::storage::lemma_find_index_insert;
use crate::storage::lookup_blob;
use crate::storage::lookup_index;
use crate::storage::BlobEntry;
use crate::storage::IndexEntry;
use crate::storage::Storage;
use crate::MAX_INLINE_SIZE;
use vstd::prelude::*;
use vstd::slice::slice_to_vec;

verus! {

/// The payload a fresh append finally reads back as: the payload itself,
/// unless it was routed to a blob whose content hash already named an entry,
/// in which case content addressing keeps the stored entry.
pub open spec fn routed_payload(pre: Storage, payload: Seq<u8>) -> Seq<u8> {
    if payload.len() <= MAX_INLINE_SIZE {
        payload
    } else {
        match find_blob(pre.blobs@, sha256_of(payload)) {
            None => payload,
            Some(d) => d,
        }
    }
}

/// The envelope an append stores for a payload: the payload itself inline
/// when it is small, else a reference to its content hash.
pub open spec fn routed_envelope(payload: Seq<u8>) -> EnvelopeView {
    if payload.len() <= MAX_INLINE_SIZE {
        EnvelopeView::Inline(payload)
    } else {
        EnvelopeView::BlobRef(sha256_of(payload))
    }
}

/// The only failure an append can report once its claimed version is fresh:
/// encryption is on and either no master key is configured, or the stream's
/// stored wrapped key does not unwrap, with the exact unwrap error.
pub open spec fn append_key_failure(pre: Storage, stream_id: u128, e: Error) -> bool {
    &&& pre.config.encryption_enabled
    &&& (e == Error::MasterKeyMissing <==> pre.config.master_key is None)
    &&& (pre.config.master_key matches Some(mk) ==> find_wrapped_key(pre.keystore@, stream_id)
        is Some && stream_key_of(pre, stream_id) is None && e == unwrap_error_spec(
        secret_view(mk),
        stream_id,
        find_wrapped_key(pre.keystore@, stream_id)->Some_0,
    ))
}

/// Frames and seals an envelope: `stream id (16) ‖ nonce (12) ‖ ciphertext ‖
/// tag (16)`, with the stream id and global sequence as associated data.
fn seal_record(key: &Vec<u8>, stream_id: u128, seq: u64, env_bytes: &Vec<u8>) -> (r: Vec<u8>)
    requires
        key@.len() == 32,
        env_bytes@.len() < 0x100000000,
    ensures
        r@.len() == env_bytes@.len() + 44,
        r@.subrange(0, 16) == be_bytes(stream_id as nat, 16),
        record_stream_id(r@) == stream_id,
        aead_open(
            key@,
            r@.subrange(16, 28),
            r@.subrange(0, 16) + be_bytes(seq as nat, 8),
            r@.subrange(28, r@.len() as int),
        ) == Some(env_bytes@),
{
    let sid_be = u128_to_be(stream_id, 16);
    let mut aad = clone_bytes(&sid_be);
    let mut seq_be = u128_to_be(seq as u128, 8);
    aad.append(&mut seq_be);
    let nonce = random_bytes(12);
    let ghost nonce_view = nonce@;
    let mut sealed = aead_encrypt(
        key.as_slice(),
        nonce.as_slice(),
        aad.as_slice(),
        env_bytes.as_slice(),
    );
    let ghost sealed_view = sealed@;
    let ghost aad_view = aad@;
    let mut rec = sid_be;
    let mut nonce_tail = nonce;
    rec.append(&mut nonce_tail);
    rec.append(&mut sealed);
    proof {
        let sid = be_bytes(stream_id as nat, 16);
        assert(rec@ == sid + nonce_view + sealed_view);
        assert(rec@.subrange(0, 16) =~= sid);
        assert(rec@.subrange(16, 28) =~= nonce_view);
        assert(rec@.subrange(28, rec@.len() as int) =~= sealed_view);
        assert(aad_view =~= sid + be_bytes(seq as nat, 8));
        lemma_be_roundtrip(stream_id as nat, 16);
        lemma_be_to_nat_bound(sid);
        assert(pow256(16) == 0x100000000000000000000000000000000) by {
            reveal_with_fuel(pow256, 17);
        }
        assert((stream_id as nat) % pow256(16) == stream_id as nat) by (nonlinear_arith)
            requires
                (stream_id as nat) < pow256(16),
                pow256(16) >= 1,
        ;
    }
    rec
}

/// Upserts a large payload into the content-addressed blob store and
/// returns its hash. Idempotent: a hash that already names an entry adds
/// nothing.
fn route_blob(blobs: &mut Vec<BlobEntry>, payload: &[u8]) -> (hash: Vec<u8>)
    requires
        forall|i: int, j: int|
            0 <= i < j < old(blobs)@.len() ==> (#[trigger] old(blobs)@[i]).hash@ != (
            #[trigger] old(blobs)@[j]).hash@,
        forall|i: int| 0 <= i < old(blobs)@.len() ==> (#[trigger] old(blobs)@[i]).hash@.len() == 32,
    ensures
        hash@ == sha256_of(payload@),
        hash@.len() == 32,
        forall|i: int, j: int|
            0 <= i < j < final(blobs)@.len() ==> (#[trigger] final(blobs)@[i]).hash@ != (
            #[trigger] final(blobs)@[j]).hash@,
        forall|i: int| 0 <= i < final(blobs)@.len() ==> (#[trigger] final(blobs)@[i]).hash@.len() == 32,
        forall|h: Seq<u8>|
            find_blob(old(blobs)@, h) is Some ==> #[trigger] find_blob(final(blobs)@, h)
                == find_blob(old(blobs)@, h),
        forall|h: Seq<u8>|
            h != hash@ ==> #[trigger] find_blob(final(blobs)@, h) == find_blob(old(blobs)@, h),
        find_blob(old(blobs)@, hash@) is Some ==> final(blobs)@ == old(blobs)@,
        find_blob(old(blobs)@, hash@) is None ==> final(blobs)@.len() == old(blobs)@.len() + 1
            && find_blob(final(blobs)@, hash@) == Some(payload@),
{
    let hash = sha256(payload);
    let existing = lookup_blob(blobs, &hash);
    match existing {
        Some(_) => hash,
        None => {
            let ghost s = blobs@;
            let entry = BlobEntry { hash: clone_bytes(&hash), data: slice_to_vec(payload) };
            proof {
                assert forall|k: int| 0 <= k < s.len() implies (#[trigger] s[k]).hash@
                    != hash@ by {
                    if s[k].hash@ == hash@ {
                        lemma_find_blob_present(s, k);
                    }
                }
            }
            blobs.push(entry);
            proof {
                lemma_find_blob_push(s, entry, hash@);
                assert forall|h: Seq<u8>| h != hash@ implies #[trigger] find_blob(blobs@, h)
                    == find_blob(s, h) by {
                    lemma_find_blob_push(s, entry, h);
                }
                assert forall|h: Seq<u8>| find_blob(s, h) is Some implies #[trigger] find_blob(
                    blobs@,
                    h,
                ) == find_blob(s, h) by {
                    lemma_find_blob_push(s, entry, h);
                }
                assert forall|a: int, b: int| 0 <= a < b < blobs@.len() implies (
                #[trigger] blobs@[a]).hash@ != (#[trigger] blobs@[b]).hash@ by {
                    if b == s.len() {
                        assert(blobs@[a] == s[a]);
                    }
                }
            }
            hash
        },
    }
}

/// A validated per-stream version: versions are 1-indexed, never zero.
#[derive(Clone, Copy, Debug, PartialEq, Eq, Structural)]
pub struct StreamVersion {
    value: u32,
}

impl StreamVersion {
    /// Accepts exactly the nonzero version numbers.
    pub fn new(value: u32) -> (r: Option<StreamVersion>)
        ensures
            match r {
                Some(v) => value >= 1 && v.spec_get() == value,
                None => value == 0,
            },
    {
        if value >= 1 {
            Some(StreamVersion { value })
        } else {
            None
        }
    }

    /// The version number; at least 1.
    pub fn get(&self) -> (r: u32)
        ensures
            r == self.spec_get(),
    {
        self.value
    }

    /// The version number in specifications.
    pub closed spec fn spec_get(self) -> u32 {
        self.value
    }
}

/// The caller's claim about the version an append should take.
pub enum ExpectedVersion {
    /// Take the next free version of the stream, found by a prefix scan.
    Auto,
    /// Take exactly this version, failing on a conflict.
    Exact(u32),
}

/// The next free version of a stream: one past the highest version the index
/// holds for it, or 1 for a fresh stream. Advisory: a race between this scan
/// and the append surfaces as `ConcurrencyConflict` there.
pub fn next_version(store: &Storage, stream_id: u128) -> (r: u32)
    requires
        store.wf(),
        find_index_seq(store.stream_index@, stream_id, 0xffffffffu32) is None,
    ensures
        r >= 1,
        find_index_seq(store.stream_index@, stream_id, r) is None,
        r > 1 ==> find_index_seq(store.stream_index@, stream_id, (r - 1) as u32) is Some,
{
    let ghost s = store.stream_index@;
    let mut max_v: u32 = 0;
    let mut i: usize = 0;
    while i < store.stream_index.len()
        invariant
            store.wf(),
            i <= s.len(),
            store.stream_index@ == s,
            index_sorted(s),
            find_index_seq(s, stream_id, 0xffffffffu32) is None,
            max_v == 0 ==> forall|j: int|
                0 <= j < i ==> (#[trigger] s[j]).stream_id != stream_id,
            max_v > 0 ==> exists|j: int|
                0 <= j < i && (#[trigger] s[j]).stream_id == stream_id && s[j].version == max_v,
            forall|j: int|
                0 <= j < i && (#[trigger] s[j]).stream_id == stream_id ==> s[j].version <= max_v,
        decreases s.len() - i,
    {
        let e = &store.stream_index[i];
        if e.stream_id == stream_id && e.version > max_v {
            max_v = e.version;
            proof {
                assert(s[i as int].stream_id == stream_id && s[i as int].version == max_v);
            }
        }
        i += 1;
    }
    proof {
        if max_v > 0 {
            let j = choose|j: int|
                0 <= j < s.len() && (#[trigger] s[j]).stream_id == stream_id && s[j].version
                    == max_v;
            lemma_find_index_at(s, j);
            assert(find_index_seq(s, stream_id, max_v) is Some);
        }
        assert(max_v < 0xffffffffu32);
        assert forall|j: int|
            0 <= j < s.len() implies !((#[trigger] s[j]).stream_id == stream_id && s[j].version
            == (max_v + 1) as u32) by {
            if s[j].stream_id == stream_id {
                assert(s[j].version <= max_v);
            }
        }
        lemma_find_index_absent(s, stream_id, (max_v + 1) as u32);
    }
    max_v + 1
}

/// Appends events with optimistic concurrency control.
pub struct Writer {}

impl Writer {
    /// Creates a writer.
    pub fn new() -> (r: Writer) {
        Writer {  }
    }

    /// Appends one event to a stream at the claimed version and returns its
    /// global sequence.
    ///
    /// Fails with `ConcurrencyConflict` exactly when the (stream id,
    /// version) pair already exists; with `MasterKeyMissing` when encryption
    /// is on and no master key is configured; with the exact unwrap error
    /// when the stream's stored wrapped key does not authenticate. On any
    /// failure the store is unchanged. On success the stored record is the
    /// routed envelope — in plain mode those bytes themselves, in encrypted
    /// mode under the `stream id ‖ nonce ‖ ciphertext ‖ tag` framing with
    /// the stream id and sequence as associated data and the stream's
    /// persisted key — it reads back as the routed payload, every
    /// previously readable record reads unchanged, and the notifier
    /// publishes the new head.
    pub fn append(&self, store: &mut Storage, stream_id: u128, version: u32, payload: &[u8]) -> (r:
        Result<u64, Error>)
        requires
            old(store).wf(),
            version >= 1,
            old(store).head() < 0xffffffffffffffff,
        ensures
            final(store).wf(),
            final(store).config == old(store).config,
            final(store).consumer_cursors == old(store).consumer_cursors,
            match r {
                Ok(seq) => {
                    &&& find_index_seq(old(store).stream_index@, stream_id, version) is None
                    &&& seq == old(store).head() + 1
                    &&& final(store).head() == old(store).head() + 1
                    &&& final(store).notifier.last == seq
                    &&& find_index_seq(final(store).stream_index@, stream_id, version) == Some(seq)
                    &&& forall|sid: u128, v: u32|
                        !(sid == stream_id && v == version) ==> find_index_seq(
                            final(store).stream_index@,
                            sid,
                            v,
                        ) == #[trigger] find_index_seq(old(store).stream_index@, sid, v)
                    &&& read_back(*final(store), seq) == Some(
                        routed_payload(*old(store), payload@),
                    )
                    &&& (!old(store).config.encryption_enabled ==> final(store).record_at(seq)
                        == Some(encode_envelope(routed_envelope(payload@))))
                    &&& (old(store).config.encryption_enabled ==> stream_key_of(
                        *final(store),
                        stream_id,
                    ) is Some)
                    &&& (old(store).config.encryption_enabled ==> ({
                        let st = final(store).record_at(seq)->Some_0;
                        let env = encode_envelope(routed_envelope(payload@));
                        &&& final(store).record_at(seq) is Some
                        &&& st.len() == env.len() + 44
                        &&& st.subrange(0, 16) == be_bytes(stream_id as nat, 16)
                        &&& record_stream_id(st) == stream_id
                        &&& aead_open(
                            stream_key_of(*final(store), stream_id)->Some_0,
                            st.subrange(16, 28),
                            st.subrange(0, 16) + be_bytes(seq as nat, 8),
                            st.subrange(28, st.len() as int),
                        ) == Some(env)
                    }))
                    &&& forall|s: u64|
                        1 <= s <= old(store).head() ==> #[trigger] final(store).record_at(s)
                            == old(store).record_at(s)
                    &&& forall|s: u64|
                        #[trigger] read_back(*old(store), s) is Some ==> read_back(
                            *final(store),
                            s,
                        ) == read_back(*old(store), s)
                    &&& (payload@.len() <= MAX_INLINE_SIZE ==> final(store).blobs == old(
                        store,
                    ).blobs)
                    &&& (payload@.len() > MAX_INLINE_SIZE ==> {
                        let h = sha256_of(payload@);
                        &&& find_blob(final(store).blobs@, h) is Some
                        &&& (find_blob(old(store).blobs@, h) is Some ==> final(store).blobs@ == old(
                            store,
                        ).blobs@)
                        &&& (find_blob(old(store).blobs@, h) is None ==> final(store).blobs@.len()
                            == old(store).blobs@.len() + 1 && find_blob(final(store).blobs@, h)
                            == Some(payload@))
                        &&& forall|hh: Seq<u8>|
                            hh != h ==> #[trigger] find_blob(final(store).blobs@, hh) == find_blob(
                                old(store).blobs@,
                                hh,
                            )
                    })
                    &&& (!old(store).config.encryption_enabled ==> final(store).keystore == old(
                        store,
                    ).keystore)
                    &&& forall|sid: u128|
                        sid != stream_id ==> #[trigger] find_wrapped_key(
                            final(store).keystore@,
                            sid,
                        ) == find_wrapped_key(old(store).keystore@, sid)
                },
                Err(e) => {
                    &&& *final(store) == *old(store)
                    &&& (e matches Error::ConcurrencyConflict { stream_id: cs, version: cv } ==> cs
                        == stream_id && cv == version && find_index_seq(
                        old(store).stream_index@,
                        stream_id,
                        version,
                    ) is Some)
                    &&& (find_index_seq(old(store).stream_index@, stream_id, version) is Some ==> e
                        == (Error::ConcurrencyConflict { stream_id, version }))
                    &&& (find_index_seq(old(store).stream_index@, stream_id, version) is None
                        ==> append_key_failure(*old(store), stream_id, e))
                },
            },
    {
        let ghost pre = *old(store);

        // Optimistic concurrency check.
        if let Some(_) = lookup_index(&store.stream_index, stream_id, version) {
            return Err(Error::ConcurrencyConflict { stream_id, version });
        }

        // Retrieve or create the stream key first: it is the only fallible
        // step left, so a failure leaves the store untouched.
        let key_opt: Option<Vec<u8>> = if store.config.encryption_enabled {
            let km = KeyManager::new();
            match km.get_or_create_key(store, stream_id) {
                Ok(k) => Some(k),
                Err(e) => {
                    return Err(e);
                },
            }
        } else {
            None
        };
        let ghost after_key = *store;

        // Assign the next global sequence.
        let new_seq = store.events_log.len() as u64 + 1;

        // Route the payload: inline when small, content-addressed otherwise.
        let env: StoragePayload = if payload.len() > MAX_INLINE_SIZE {
            let hash = route_blob(&mut store.blobs, payload);
            StoragePayload::BlobRef(hash)
        } else {
            StoragePayload::Inline(slice_to_vec(payload))
        };
        let ghost after_blob = *store;

        // Serialize the envelope.
        let env_bytes = env.encode();
        let ghost env_bytes_view = env_bytes@;
        let ghost key_view: Seq<u8> = if key_opt is Some {
            key_opt->0@
        } else {
            Seq::empty()
        };

        // Seal the envelope when encryption is on.
        let stored: Vec<u8> = match key_opt {
            Some(key) => seal_record(&key, stream_id, new_seq, &env_bytes),
            None => env_bytes,
        };
        let ghost stored_view = stored@;

        // Commit: log record, index entry, notification.
        store.events_log.push(stored);
        let entry = IndexEntry { stream_id, version, seq: new_seq };
        insert_index_entry(&mut store.stream_index, entry);
        store.notifier.publish(new_seq);

        proof {
            let post = *store;
            let enc = pre.config.encryption_enabled;

            // The stores agree on everything the commit did not touch.
            assert(post.keystore == after_key.keystore);
            assert(post.blobs == after_blob.blobs);
            assert(post.config == pre.config);
            assert(after_blob.events_log == pre.events_log);
            assert(after_blob.stream_index == pre.stream_index);
            assert(post.events_log@ == pre.events_log@.push(stored));
            assert(post.record_at(new_seq) == Some(stored_view));
            assert forall|s: u64| 1 <= s <= pre.head() implies #[trigger] post.record_at(s)
                == pre.record_at(s) by {
                assert(post.events_log@[s - 1] == pre.events_log@[s - 1]);
            }

            // Well-formedness of the index after the sorted insertion.
            let p = choose|p: int|
                0 <= p <= pre.stream_index@.len() && post.stream_index@
                    == pre.stream_index@.insert(p, entry);
            assert forall|a: int| 0 <= a < post.stream_index@.len() implies 1 <= (
            #[trigger] post.stream_index@[a]).seq <= post.events_log@.len()
                && post.stream_index@[a].version >= 1 by {
                if a < p {
                    assert(post.stream_index@[a] == pre.stream_index@[a]);
                } else if a == p {
                    assert(post.stream_index@[a] == entry);
                } else {
                    assert(post.stream_index@[a] == pre.stream_index@[a - 1]);
                }
            }
            assert forall|a: int, b: int| 0 <= a < b < post.stream_index@.len() implies (
            #[trigger] post.stream_index@[a]).seq != (#[trigger] post.stream_index@[b]).seq by {
                if a < p {
                    assert(post.stream_index@[a] == pre.stream_index@[a]);
                } else if a == p {
                    assert(post.stream_index@[a] == entry);
                } else {
                    assert(post.stream_index@[a] == pre.stream_index@[a - 1]);
                }
                if b < p {
                    assert(post.stream_index@[b] == pre.stream_index@[b]);
                } else if b == p {
                    assert(post.stream_index@[b] == entry);
                } else {
                    assert(post.stream_index@[b] == pre.stream_index@[b - 1]);
                }
            }

            // Index lookups after the insertion.
            lemma_find_index_insert(pre.stream_index@, p, entry, stream_id, version);
            assert forall|sid: u128, v: u32| !(sid == stream_id && v == version) implies find_index_seq(
                post.stream_index@,
                sid,
                v,
            ) == #[trigger] find_index_seq(pre.stream_index@, sid, v) by {
                lemma_find_index_insert(pre.stream_index@, p, entry, sid, v);
            }

            // The fresh record reads back as the routed payload.
            assert(envelope_wf(env@));
            lemma_envelope_roundtrip(env@);
            if enc {
                assert(stream_key_of(post, stream_id) == stream_key_of(after_key, stream_id));
                assert(stream_key_of(post, stream_id) == Some(key_view));
                assert(record_stream_id(stored_view) == stream_id);
                assert(stored_view.len() >= 44);
                assert(decrypt_record_spec(post, new_seq, stored_view) == Some(env_bytes_view));
            } else {
                assert(stored_view == env_bytes_view);
            }
            assert(decode_envelope(env_bytes_view) == Some(env@));
            if payload@.len() > MAX_INLINE_SIZE {
                let h = sha256_of(payload@);
                assert(env@ == EnvelopeView::BlobRef(h));
                assert(find_blob(post.blobs@, h) is Some);
                if find_blob(pre.blobs@, h) is Some {
                    assert(find_blob(post.blobs@, h) == find_blob(pre.blobs@, h));
                } else {
                    assert(find_blob(post.blobs@, h) == Some(payload@));
                }
            } else {
                assert(env@ == EnvelopeView::Inline(payload@));
            }
            assert(env@ == routed_envelope(payload@));
            assert(env_bytes_view == encode_envelope(routed_envelope(payload@)));
            assert(read_back(post, new_seq) == Some(routed_payload(pre, payload@)));
            if enc {
                assert(aead_open(
                    stream_key_of(post, stream_id)->Some_0,
                    stored_view.subrange(16, 28),
                    stored_view.subrange(0, 16) + be_bytes(new_seq as nat, 8),
                    stored_view.subrange(28, stored_view.len() as int),
                ) == Some(env_bytes_view));
                assert(stored_view.subrange(0, 16) == be_bytes(stream_id as nat, 16));
                assert(stored_view.len() == env_bytes_view.len() + 44);
            }

            // Every record that could be read before reads back unchanged.
            assert forall|s: u64| #[trigger] read_back(pre, s) is Some implies read_back(post, s)
                == read_back(pre, s) by {
                assert(pre.record_at(s) is Some);
                assert(1 <= s <= pre.head());
                assert(post.record_at(s) == pre.record_at(s));
                let st = pre.record_at(s)->Some_0;
                let eb_pre = if enc {
                    decrypt_record_spec(pre, s, st)
                } else {
                    Some(st)
                };
                assert(eb_pre is Some);
                if enc {
                    let rsid = record_stream_id(st);
                    assert(stream_key_of(pre, rsid) is Some);
                    if rsid == stream_id {
                        if find_wrapped_key(pre.keystore@, stream_id) is None {
                            assert(stream_key_of(pre, rsid) is None);
                            assert(false);
                        }
                        assert(after_key == pre);
                    }
                    assert(find_wrapped_key(post.keystore@, rsid) == find_wrapped_key(
                        pre.keystore@,
                        rsid,
                    ));
                    assert(stream_key_of(post, rsid) == stream_key_of(pre, rsid));
                    assert(decrypt_record_spec(post, s, st) == decrypt_record_spec(pre, s, st));
                }
                let eb = eb_pre->Some_0;
                assert(decode_envelope(eb) is Some);
                let env_s = decode_envelope(eb)->Some_0;
                match env_s {
                    EnvelopeView::Inline(_) => {},
                    EnvelopeView::BlobRef(h) => {
                        assert(find_blob(pre.blobs@, h) is Some);
                        assert(find_blob(post.blobs@, h) == find_blob(pre.blobs@, h));
                    },
                }
            }
        }

        Ok(new_seq)
    }

    /// Appends at an exact version, or at the next free version of the
    /// stream found by a prefix scan. The scan is advisory: a race between
    /// it and the append surfaces as `ConcurrencyConflict`.
    pub fn append_expected(
        &self,
        store: &mut Storage,
        stream_id: u128,
        expected: ExpectedVersion,
        payload: &[u8],
    ) -> (r: Result<(u64, u32), Error>)
        requires
            old(store).wf(),
            old(store).head() < 0xffffffffffffffff,
            expected matches ExpectedVersion::Exact(v) ==> v >= 1,
            expected is Auto ==> find_index_seq(
                old(store).stream_index@,
                stream_id,
                0xffffffffu32,
            ) is None,
        ensures
            final(store).wf(),
            match r {
                Ok((seq, v)) => {
                    &&& v >= 1
                    &&& (expected matches ExpectedVersion::Exact(ev) ==> v == ev)
                    &&& (expected is Auto ==> (v == 1 || find_index_seq(
                        old(store).stream_index@,
                        stream_id,
                        (v - 1) as u32,
                    ) is Some))
                    &&& seq == old(store).head() + 1
                    &&& final(store).head() == old(store).head() + 1
                    &&& find_index_seq(old(store).stream_index@, stream_id, v) is None
                    &&& find_index_seq(final(store).stream_index@, stream_id, v) == Some(seq)
                    &&& read_back(*final(store), seq) == Some(
                        routed_payload(*old(store), payload@),
                    )
                },
                Err(e) => {
                    &&& *final(store) == *old(store)
                    &&& (expected matches ExpectedVersion::Exact(ev) ==> {
                        &&& (e matches Error::ConcurrencyConflict { stream_id: cs, version: cv }
                            ==> cs == stream_id && cv == ev && find_index_seq(
                            old(store).stream_index@,
                            stream_id,
                            ev,
                        ) is Some)
                        &&& (find_index_seq(old(store).stream_index@, stream_id, ev) is Some ==> e
                            == (Error::ConcurrencyConflict { stream_id, version: ev }))
                        &&& (find_index_seq(old(store).stream_index@, stream_id, ev) is None
                            ==> append_key_failure(*old(store), stream_id, e))
                    })
                    &&& (expected is Auto ==> append_key_failure(*old(store), stream_id, e))
                },
            },
    {
        let version = match expected {
            ExpectedVersion::Auto => next_version(store, stream_id),
            ExpectedVersion::Exact(v) => v,
        };
        match self.append(store, stream_id, version, payload) {
            Ok(seq) => Ok((seq, version)),
            Err(e) => Err(e),
        }
    }
}

} // verus!
