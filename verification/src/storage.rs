//! The storage environment: configuration, the five logical namespaces, and
//! the new-tail notifier.
//!
//! The namespaces form the logical contents of the store: the gap-free event
//! log keyed by global sequence, the stream index keyed by (stream id,
//! version), the consumer cursors, the per-stream wrapped keys, and the
//! content-addressed blobs. A shared borrow of a `Storage` value is a
//! consistent read snapshot; writes take the value exclusively, so a reader
//! can never observe a half-applied append.

use crate::crypto::MasterKey;
use crate::encoding::StreamKey;
use crate::error::Error;
use vstd::pervasive::VecAdditionalExecFns;
use vstd::prelude::*;

verus! {

/// Default virtual reservation for the memory map of a durable backend.
pub const DEFAULT_MAP_SIZE: u64 = 10737418240;

/// Default number of named spaces a durable backend must offer.
pub const DEFAULT_MAX_DBS: u32 = 10;

/// The named spaces the store needs from its backend.
pub const REQUIRED_NAMED_SPACES: u32 = 5;

/// One stream index entry: (stream id, version) maps to a global sequence.
#[derive(Clone, Copy)]
pub struct IndexEntry {
    pub stream_id: u128,
    pub version: u32,
    pub seq: u64,
}

/// One keystore entry: a stream id with its wrapped key ciphertext.
pub struct KeystoreEntry {
    pub stream_id: u128,
    pub wrapped: Vec<u8>,
}

/// One content-addressed blob: a 32-byte hash with its immutable bytes.
pub struct BlobEntry {
    pub hash: Vec<u8>,
    pub data: Vec<u8>,
}

/// One consumer cursor: a consumer id with its last processed sequence.
#[derive(Clone, Copy)]
pub struct CursorEntry {
    pub consumer_id: u64,
    pub seq: u64,
}

/// The single-slot broadcast of the latest committed global sequence.
pub struct Notifier {
    pub last: u64,
}

impl Notifier {
    /// A notifier that has seen no commit yet.
    pub fn new() -> (r: Notifier)
        ensures
            r.last == 0,
    {
        Notifier { last: 0 }
    }

    /// Publishes a newly committed sequence. The slot only moves forward, so
    /// every subscriber observes a nondecreasing series of values.
    pub fn publish(&mut self, seq: u64)
        requires
            old(self).last <= seq,
        ensures
            final(self).last == seq,
    {
        self.last = seq;
    }

    /// The latest published sequence.
    pub fn current(&self) -> (r: u64)
        ensures
            r == self.last,
    {
        self.last
    }
}

/// Configuration of a storage environment.
pub struct StorageConfig {
    /// Directory of the backing store of a durable deployment.
    pub path: String,
    /// Virtual reservation for the backend's memory map, in bytes.
    pub map_size: u64,
    /// Named spaces the backend is opened with; at least five are needed.
    pub max_dbs: u32,
    /// Whether to create the directory if it does not exist.
    pub create_dir: bool,
    /// Whether event records are sealed with per-stream encryption.
    pub encryption_enabled: bool,
    /// The master key that wraps per-stream keys; required for encrypted
    /// reads and writes.
    pub master_key: Option<MasterKey>,
}

impl Default for StorageConfig {
    /// A plaintext store with the default reservation.
    fn default() -> (r: StorageConfig)
        ensures
            r.map_size == DEFAULT_MAP_SIZE,
            r.max_dbs == DEFAULT_MAX_DBS,
            r.create_dir == true,
            r.encryption_enabled == false,
            r.master_key is None,
    {
        StorageConfig {
            path: String::new(),
            map_size: DEFAULT_MAP_SIZE,
            max_dbs: DEFAULT_MAX_DBS,
            create_dir: true,
            encryption_enabled: false,
            master_key: None,
        }
    }
}

/// The key a stream index entry sorts under.
pub open spec fn entry_key(e: IndexEntry) -> StreamKey {
    StreamKey { stream_id: e.stream_id, version: e.version }
}

/// The stream index is strictly sorted by (stream id, version); this is the
/// in-memory image of a byte-keyed index sorted on the 20-byte big-endian
/// key.
pub open spec fn index_sorted(s: Seq<IndexEntry>) -> bool {
    forall|i: int, j: int|
        0 <= i < j < s.len() ==> entry_key(#[trigger] s[i]).spec_less(entry_key(#[trigger] s[j]))
}

/// The global sequence the index maps (stream id, version) to, if any.
pub open spec fn find_index_seq(s: Seq<IndexEntry>, stream_id: u128, version: u32) -> Option<u64>
    decreases s.len(),
{
    if s.len() == 0 {
        None
    } else if s[0].stream_id == stream_id && s[0].version == version {
        Some(s[0].seq)
    } else {
        find_index_seq(s.drop_first(), stream_id, version)
    }
}

/// The wrapped key stored for a stream, if any.
pub open spec fn find_wrapped_key(s: Seq<KeystoreEntry>, stream_id: u128) -> Option<Seq<u8>>
    decreases s.len(),
{
    if s.len() == 0 {
        None
    } else if s[0].stream_id == stream_id {
        Some(s[0].wrapped@)
    } else {
        find_wrapped_key(s.drop_first(), stream_id)
    }
}

/// The blob stored under a content hash, if any.
pub open spec fn find_blob(s: Seq<BlobEntry>, hash: Seq<u8>) -> Option<Seq<u8>>
    decreases s.len(),
{
    if s.len() == 0 {
        None
    } else if s[0].hash@ == hash {
        Some(s[0].data@)
    } else {
        find_blob(s.drop_first(), hash)
    }
}

/// The cursor persisted for a consumer, if any.
pub open spec fn find_cursor(s: Seq<CursorEntry>, consumer_id: u64) -> Option<u64>
    decreases s.len(),
{
    if s.len() == 0 {
        None
    } else if s[0].consumer_id == consumer_id {
        Some(s[0].seq)
    } else {
        find_cursor(s.drop_first(), consumer_id)
    }
}

/// The storage environment: the five namespaces, the configuration they were
/// opened with, and the notifier.
pub struct Storage {
    /// Global sequence `s` maps to `events_log[s - 1]`: the keys are the
    /// gap-free range `1 ..= head` by construction.
    pub events_log: Vec<Vec<u8>>,
    /// (stream id, version) to global sequence, strictly sorted by key.
    pub stream_index: Vec<IndexEntry>,
    /// Consumer id to last processed global sequence.
    pub consumer_cursors: Vec<CursorEntry>,
    /// Stream id to wrapped key ciphertext.
    pub keystore: Vec<KeystoreEntry>,
    /// Content hash to immutable blob bytes.
    pub blobs: Vec<BlobEntry>,
    /// The configuration this environment was opened with.
    pub config: StorageConfig,
    /// The new-tail notifier.
    pub notifier: Notifier,
}

impl Storage {
    /// The highest committed global sequence; 0 when the log is empty.
    pub open spec fn head(self) -> nat {
        self.events_log@.len()
    }

    /// The record stored at a global sequence, if any.
    pub open spec fn record_at(self, seq: u64) -> Option<Seq<u8>> {
        if 1 <= seq && seq <= self.events_log@.len() {
            Some(self.events_log@[seq - 1]@)
        } else {
            None
        }
    }

    /// Well-formedness of the whole environment.
    ///
    /// The log keys are `1 ..= head` by construction; the index is strictly
    /// sorted, holds exactly one entry per log record, maps only to live
    /// sequences, injectively, and only for versions of at least 1; wrapped
    /// keys are 60 bytes and unique per stream; blobs are unique per hash
    /// with 32-byte hashes; cursors are unique per consumer; the notifier
    /// slot carries the latest committed sequence.
    pub open spec fn wf(self) -> bool {
        &&& index_sorted(self.stream_index@)
        &&& self.stream_index@.len() == self.events_log@.len()
        &&& forall|i: int|
            0 <= i < self.stream_index@.len() ==> 1 <= (#[trigger] self.stream_index@[i]).seq
                <= self.events_log@.len() && self.stream_index@[i].version >= 1
        &&& forall|i: int, j: int|
            0 <= i < j < self.stream_index@.len() ==> (#[trigger] self.stream_index@[i]).seq != (
            #[trigger] self.stream_index@[j]).seq
        &&& forall|i: int, j: int|
            0 <= i < j < self.keystore@.len() ==> (#[trigger] self.keystore@[i]).stream_id != (
            #[trigger] self.keystore@[j]).stream_id
        &&& forall|i: int|
            0 <= i < self.keystore@.len() ==> (#[trigger] self.keystore@[i]).wrapped@.len() == 60
        &&& forall|i: int, j: int|
            0 <= i < j < self.blobs@.len() ==> (#[trigger] self.blobs@[i]).hash@ != (
            #[trigger] self.blobs@[j]).hash@
        &&& forall|i: int| 0 <= i < self.blobs@.len() ==> (#[trigger] self.blobs@[i]).hash@.len() == 32
        &&& forall|i: int, j: int|
            0 <= i < j < self.consumer_cursors@.len() ==> (
            #[trigger] self.consumer_cursors@[i]).consumer_id != (
            #[trigger] self.consumer_cursors@[j]).consumer_id
        &&& self.notifier.last == self.events_log@.len()
    }

    /// Opens a fresh environment: validates the configuration and creates
    /// the five empty namespaces.
    pub fn open(config: StorageConfig) -> (r: Result<Storage, Error>)
        ensures
            match r {
                Ok(s) => {
                    &&& config.map_size > 0
                    &&& config.max_dbs >= REQUIRED_NAMED_SPACES
                    &&& s.wf()
                    &&& s.head() == 0
                    &&& s.stream_index@.len() == 0
                    &&& s.consumer_cursors@.len() == 0
                    &&& s.keystore@.len() == 0
                    &&& s.blobs@.len() == 0
                    &&& s.config == config
                },
                Err(e) => {
                    &&& e == Error::InvalidConfig
                    &&& (config.map_size == 0 || config.max_dbs < REQUIRED_NAMED_SPACES)
                },
            },
    {
        if config.map_size == 0 {
            return Err(Error::InvalidConfig);
        }
        if config.max_dbs < REQUIRED_NAMED_SPACES {
            return Err(Error::InvalidConfig);
        }
        Ok(
            Storage {
                events_log: Vec::new(),
                stream_index: Vec::new(),
                consumer_cursors: Vec::new(),
                keystore: Vec::new(),
                blobs: Vec::new(),
                config,
                notifier: Notifier::new(),
            },
        )
    }

    /// The number of committed events.
    pub fn count(&self) -> (r: u64)
        requires
            self.head() < 0xffffffffffffffff,
        ensures
            r == self.head(),
    {
        self.events_log.len() as u64
    }
}

/// As the log only ever grows, the notifier slot only ever moves forward:
/// the value any subscriber observes never decreases.
pub proof fn lemma_notifier_monotonic(pre: Storage, post: Storage)
    requires
        pre.wf(),
        post.wf(),
        post.head() >= pre.head(),
    ensures
        post.notifier.last >= pre.notifier.last,
{
}

/// An entry that is present is found.
pub proof fn lemma_find_index_present(s: Seq<IndexEntry>, k: int)
    requires
        0 <= k < s.len(),
    ensures
        find_index_seq(s, s[k].stream_id, s[k].version) is Some,
    decreases s.len(),
{
    if k > 0 && !(s[0].stream_id == s[k].stream_id && s[0].version == s[k].version) {
        lemma_find_index_present(s.drop_first(), k - 1);
    }
}

/// When no entry matches, nothing is found.
pub proof fn lemma_find_index_absent(s: Seq<IndexEntry>, stream_id: u128, version: u32)
    requires
        forall|j: int|
            0 <= j < s.len() ==> !((#[trigger] s[j]).stream_id == stream_id && s[j].version
                == version),
    ensures
        find_index_seq(s, stream_id, version) is None,
    decreases s.len(),
{
    if s.len() > 0 {
        lemma_find_index_absent(s.drop_first(), stream_id, version);
    }
}

/// How every lookup reads through an insertion of a fresh key.
pub proof fn lemma_find_index_insert(
    s: Seq<IndexEntry>,
    p: int,
    e: IndexEntry,
    stream_id: u128,
    version: u32,
)
    requires
        0 <= p <= s.len(),
        find_index_seq(s, e.stream_id, e.version) is None,
    ensures
        find_index_seq(s.insert(p, e), stream_id, version) == if stream_id == e.stream_id
            && version == e.version {
            Some(e.seq)
        } else {
            find_index_seq(s, stream_id, version)
        },
    decreases s.len(),
{
    let t = s.insert(p, e);
    if p == 0 {
        assert(t[0] == e);
        assert(t.drop_first() =~= s);
    } else {
        assert(t[0] == s[0]);
        assert(t.drop_first() =~= s.drop_first().insert(p - 1, e));
        if !(s[0].stream_id == stream_id && s[0].version == version) {
            lemma_find_index_insert(s.drop_first(), p - 1, e, stream_id, version);
        }
    }
}

/// A strictly sorted index stays strictly sorted without its first entry.
pub proof fn lemma_index_sorted_drop_first(s: Seq<IndexEntry>)
    requires
        index_sorted(s),
        s.len() > 0,
    ensures
        index_sorted(s.drop_first()),
{
    assert forall|i: int, j: int| 0 <= i < j < s.drop_first().len() implies entry_key(
        #[trigger] s.drop_first()[i],
    ).spec_less(entry_key(#[trigger] s.drop_first()[j])) by {
        assert(s.drop_first()[i] == s[i + 1]);
        assert(s.drop_first()[j] == s[j + 1]);
    }
}

/// In a strictly sorted index, the lookup of an entry's key resolves to that
/// entry's sequence.
pub proof fn lemma_find_index_at(s: Seq<IndexEntry>, k: int)
    requires
        index_sorted(s),
        0 <= k < s.len(),
    ensures
        find_index_seq(s, s[k].stream_id, s[k].version) == Some(s[k].seq),
    decreases k,
{
    if k > 0 {
        assert(entry_key(s[0]).spec_less(entry_key(s[k])));
        lemma_index_sorted_drop_first(s);
        lemma_find_index_at(s.drop_first(), k - 1);
        assert(s.drop_first()[k - 1] == s[k]);
    }
}

/// The log keys of a well-formed store are exactly the gap-free range
/// `1 ..= head`, and the stream index holds exactly one entry per key,
/// mapping onto live sequences injectively.
pub proof fn lemma_log_keys_dense(store: Storage)
    requires
        store.wf(),
    ensures
        forall|s: u64| #[trigger] store.record_at(s) is Some <==> 1 <= s <= store.head(),
        store.stream_index@.len() == store.head(),
        forall|i: int|
            0 <= i < store.stream_index@.len() ==> 1 <= (#[trigger] store.stream_index@[i]).seq
                <= store.head(),
        forall|i: int, j: int|
            0 <= i < j < store.stream_index@.len() ==> (#[trigger] store.stream_index@[i]).seq != (
            #[trigger] store.stream_index@[j]).seq,
{
}

/// A found sequence belongs to some matching entry.
pub proof fn lemma_find_index_witness(s: Seq<IndexEntry>, stream_id: u128, version: u32)
    requires
        find_index_seq(s, stream_id, version) is Some,
    ensures
        exists|k: int|
            0 <= k < s.len() && (#[trigger] s[k]).stream_id == stream_id && s[k].version == version
                && s[k].seq == find_index_seq(s, stream_id, version)->Some_0,
    decreases s.len(),
{
    if s.len() > 0 {
        if s[0].stream_id == stream_id && s[0].version == version {
            assert(s[0].seq == find_index_seq(s, stream_id, version)->Some_0);
        } else {
            lemma_find_index_witness(s.drop_first(), stream_id, version);
            let k = choose|k: int|
                0 <= k < s.drop_first().len() && (#[trigger] s.drop_first()[k]).stream_id
                    == stream_id && s.drop_first()[k].version == version && s.drop_first()[k].seq
                    == find_index_seq(s.drop_first(), stream_id, version)->Some_0;
            assert(s[k + 1] == s.drop_first()[k]);
        }
    }
}

/// Under well-formedness, every sequence the index resolves to is a live log
/// key.
pub proof fn lemma_find_index_seq_in_range(
    s: Seq<IndexEntry>,
    stream_id: u128,
    version: u32,
    store: Storage,
)
    requires
        store.wf(),
        s == store.stream_index@,
        find_index_seq(s, stream_id, version) is Some,
    ensures
        1 <= find_index_seq(s, stream_id, version)->Some_0 <= store.head(),
{
    lemma_find_index_witness(s, stream_id, version);
}

/// An entry that is present is found.
pub proof fn lemma_find_blob_present(s: Seq<BlobEntry>, k: int)
    requires
        0 <= k < s.len(),
    ensures
        find_blob(s, s[k].hash@) is Some,
    decreases s.len(),
{
    if k > 0 && s[0].hash@ != s[k].hash@ {
        lemma_find_blob_present(s.drop_first(), k - 1);
    }
}

/// How every lookup reads through appending a blob.
pub proof fn lemma_find_blob_push(s: Seq<BlobEntry>, e: BlobEntry, hash: Seq<u8>)
    ensures
        find_blob(s.push(e), hash) == if find_blob(s, hash) is Some {
            find_blob(s, hash)
        } else if e.hash@ == hash {
            Some(e.data@)
        } else {
            None
        },
    decreases s.len(),
{
    if s.len() == 0 {
        assert(s.push(e)[0] == e);
        assert(s.push(e).drop_first() =~= Seq::<BlobEntry>::empty());
        assert(find_blob(Seq::<BlobEntry>::empty(), hash) is None);
    } else {
        assert(s.push(e)[0] == s[0]);
        assert(s.push(e).drop_first() =~= s.drop_first().push(e));
        lemma_find_blob_push(s.drop_first(), e, hash);
    }
}

/// How every lookup reads through adding a wrapped key for a fresh stream.
pub proof fn lemma_find_wrapped_push(s: Seq<KeystoreEntry>, e: KeystoreEntry, stream_id: u128)
    ensures
        find_wrapped_key(s, stream_id) is Some ==> find_wrapped_key(s.push(e), stream_id)
            == find_wrapped_key(s, stream_id),
        find_wrapped_key(s, stream_id) is None && e.stream_id == stream_id ==> find_wrapped_key(
            s.push(e),
            stream_id,
        ) == Some(e.wrapped@),
        find_wrapped_key(s, stream_id) is None && e.stream_id != stream_id ==> find_wrapped_key(
            s.push(e),
            stream_id,
        ) is None,
    decreases s.len(),
{
    if s.len() == 0 {
        assert(s.push(e)[0] == e);
        assert(s.push(e).drop_first() =~= Seq::<KeystoreEntry>::empty());
        assert(find_wrapped_key(Seq::<KeystoreEntry>::empty(), stream_id) is None);
    } else {
        assert(s.push(e)[0] == s[0]);
        assert(s.push(e).drop_first() =~= s.drop_first().push(e));
        lemma_find_wrapped_push(s.drop_first(), e, stream_id);
        if s[0].stream_id == stream_id {
            assert(find_wrapped_key(s.push(e), stream_id) == Some(s[0].wrapped@));
            assert(find_wrapped_key(s, stream_id) == Some(s[0].wrapped@));
        } else {
            assert(find_wrapped_key(s.push(e), stream_id) == find_wrapped_key(
                s.drop_first().push(e),
                stream_id,
            ));
            assert(find_wrapped_key(s, stream_id) == find_wrapped_key(s.drop_first(), stream_id));
        }
    }
}

/// An entry that is present is found.
pub proof fn lemma_find_wrapped_present(s: Seq<KeystoreEntry>, k: int)
    requires
        0 <= k < s.len(),
    ensures
        find_wrapped_key(s, s[k].stream_id) is Some,
    decreases s.len(),
{
    if k > 0 && s[0].stream_id != s[k].stream_id {
        lemma_find_wrapped_present(s.drop_first(), k - 1);
    }
}

/// When no entry matches, nothing is found.
pub proof fn lemma_find_wrapped_absent(s: Seq<KeystoreEntry>, stream_id: u128)
    requires
        forall|j: int| 0 <= j < s.len() ==> (#[trigger] s[j]).stream_id != stream_id,
    ensures
        find_wrapped_key(s, stream_id) is None,
    decreases s.len(),
{
    if s.len() > 0 {
        lemma_find_wrapped_absent(s.drop_first(), stream_id);
    }
}

/// How every lookup reads through removal of one stream's wrapped key.
pub proof fn lemma_find_wrapped_remove(s: Seq<KeystoreEntry>, k: int, stream_id: u128)
    requires
        0 <= k < s.len(),
        forall|i: int, j: int|
            0 <= i < j < s.len() ==> (#[trigger] s[i]).stream_id != (#[trigger] s[j]).stream_id,
    ensures
        find_wrapped_key(s.remove(k), stream_id) == if stream_id == s[k].stream_id {
            None
        } else {
            find_wrapped_key(s, stream_id)
        },
    decreases s.len(),
{
    let t = s.remove(k);
    if k == 0 {
        assert(t =~= s.drop_first());
        if stream_id == s[0].stream_id {
            assert forall|j: int| 0 <= j < t.len() implies (#[trigger] t[j]).stream_id
                != stream_id by {
                assert(t[j] == s[j + 1]);
            }
            lemma_find_wrapped_absent(t, stream_id);
        }
    } else {
        assert(t[0] == s[0]);
        assert(t.drop_first() =~= s.drop_first().remove(k - 1));
        if s[0].stream_id != stream_id {
            lemma_find_wrapped_remove(s.drop_first(), k - 1, stream_id);
        }
    }
}

/// When no entry matches, nothing is found.
pub proof fn lemma_find_cursor_absent(s: Seq<CursorEntry>, consumer_id: u64)
    requires
        forall|j: int| 0 <= j < s.len() ==> (#[trigger] s[j]).consumer_id != consumer_id,
    ensures
        find_cursor(s, consumer_id) is None,
    decreases s.len(),
{
    if s.len() > 0 {
        lemma_find_cursor_absent(s.drop_first(), consumer_id);
    }
}

/// How every lookup reads through adding a cursor for a fresh consumer.
pub proof fn lemma_find_cursor_push(s: Seq<CursorEntry>, e: CursorEntry, consumer_id: u64)
    ensures
        find_cursor(s.push(e), consumer_id) == if find_cursor(s, consumer_id) is Some {
            find_cursor(s, consumer_id)
        } else if e.consumer_id == consumer_id {
            Some(e.seq)
        } else {
            None
        },
    decreases s.len(),
{
    if s.len() == 0 {
        assert(s.push(e)[0] == e);
        assert(s.push(e).drop_first() =~= Seq::<CursorEntry>::empty());
        assert(find_cursor(Seq::<CursorEntry>::empty(), consumer_id) is None);
    } else {
        assert(s.push(e)[0] == s[0]);
        assert(s.push(e).drop_first() =~= s.drop_first().push(e));
        lemma_find_cursor_push(s.drop_first(), e, consumer_id);
    }
}

/// How every lookup reads through overwriting one consumer's cursor.
pub proof fn lemma_find_cursor_update(s: Seq<CursorEntry>, k: int, e: CursorEntry, consumer_id: u64)
    requires
        0 <= k < s.len(),
        s[k].consumer_id == e.consumer_id,
        forall|j: int| 0 <= j < k ==> (#[trigger] s[j]).consumer_id != e.consumer_id,
    ensures
        find_cursor(s.update(k, e), consumer_id) == if consumer_id == e.consumer_id {
            Some(e.seq)
        } else {
            find_cursor(s, consumer_id)
        },
    decreases s.len(),
{
    let t = s.update(k, e);
    if k == 0 {
        assert(t[0] == e);
        assert(t.drop_first() =~= s.drop_first());
    } else {
        assert(t[0] == s[0]);
        assert(t.drop_first() =~= s.drop_first().update(k - 1, e));
        if s[0].consumer_id != consumer_id {
            lemma_find_cursor_update(s.drop_first(), k - 1, e, consumer_id);
        }
    }
}

/// Copies a byte vector.
pub(crate) fn clone_bytes(v: &Vec<u8>) -> (r: Vec<u8>)
    ensures
        r@ == v@,
{
    let mut r: Vec<u8> = Vec::new();
    let mut i: usize = 0;
    while i < v.len()
        invariant
            i <= v@.len(),
            r@ == v@.take(i as int),
        decreases v@.len() - i,
    {
        r.push(v[i]);
        proof {
            assert(v@.take(i + 1) =~= v@.take(i as int).push(v@[i as int]));
        }
        i += 1;
    }
    proof {
        assert(v@.take(v@.len() as int) =~= v@);
    }
    r
}

/// Looks a (stream id, version) pair up in the stream index.
pub(crate) fn lookup_index(entries: &Vec<IndexEntry>, stream_id: u128, version: u32) -> (r: Option<
    u64,
>)
    ensures
        r == find_index_seq(entries@, stream_id, version),
{
    let ghost s = entries@;
    proof {
        assert(s.skip(0) =~= s);
    }
    let mut i: usize = 0;
    while i < entries.len()
        invariant
            i <= s.len(),
            entries@ == s,
            find_index_seq(s, stream_id, version) == find_index_seq(
                s.skip(i as int),
                stream_id,
                version,
            ),
        decreases s.len() - i,
    {
        proof {
            assert(s.skip(i as int)[0] == s[i as int]);
            assert(s.skip(i as int).drop_first() =~= s.skip(i + 1));
        }
        let e = &entries[i];
        if e.stream_id == stream_id && e.version == version {
            return Some(e.seq);
        }
        i += 1;
    }
    proof {
        assert(s.skip(s.len() as int) =~= Seq::<IndexEntry>::empty());
    }
    None
}

/// Looks a stream's wrapped key up in the keystore.
pub(crate) fn lookup_wrapped(entries: &Vec<KeystoreEntry>, stream_id: u128) -> (r: Option<Vec<u8>>)
    ensures
        match r {
            Some(w) => find_wrapped_key(entries@, stream_id) == Some(w@),
            None => find_wrapped_key(entries@, stream_id) is None,
        },
{
    let ghost s = entries@;
    proof {
        assert(s.skip(0) =~= s);
    }
    let mut i: usize = 0;
    while i < entries.len()
        invariant
            i <= s.len(),
            entries@ == s,
            find_wrapped_key(s, stream_id) == find_wrapped_key(s.skip(i as int), stream_id),
        decreases s.len() - i,
    {
        proof {
            assert(s.skip(i as int)[0] == s[i as int]);
            assert(s.skip(i as int).drop_first() =~= s.skip(i + 1));
        }
        if entries[i].stream_id == stream_id {
            return Some(clone_bytes(&entries[i].wrapped));
        }
        i += 1;
    }
    proof {
        assert(s.skip(s.len() as int) =~= Seq::<KeystoreEntry>::empty());
    }
    None
}

/// Looks a content hash up in the blob store.
pub(crate) fn lookup_blob(entries: &Vec<BlobEntry>, hash: &Vec<u8>) -> (r: Option<Vec<u8>>)
    ensures
        match r {
            Some(b) => find_blob(entries@, hash@) == Some(b@),
            None => find_blob(entries@, hash@) is None,
        },
{
    let ghost s = entries@;
    proof {
        assert(s.skip(0) =~= s);
    }
    let mut i: usize = 0;
    while i < entries.len()
        invariant
            i <= s.len(),
            entries@ == s,
            find_blob(s, hash@) == find_blob(s.skip(i as int), hash@),
        decreases s.len() - i,
    {
        proof {
            assert(s.skip(i as int)[0] == s[i as int]);
            assert(s.skip(i as int).drop_first() =~= s.skip(i + 1));
        }
        if bytes_equal(&entries[i].hash, hash) {
            return Some(clone_bytes(&entries[i].data));
        }
        i += 1;
    }
    proof {
        assert(s.skip(s.len() as int) =~= Seq::<BlobEntry>::empty());
    }
    None
}

/// Looks a consumer's cursor up.
pub fn lookup_cursor(entries: &Vec<CursorEntry>, consumer_id: u64) -> (r: Option<u64>)
    ensures
        r == find_cursor(entries@, consumer_id),
{
    let ghost s = entries@;
    proof {
        assert(s.skip(0) =~= s);
    }
    let mut i: usize = 0;
    while i < entries.len()
        invariant
            i <= s.len(),
            entries@ == s,
            find_cursor(s, consumer_id) == find_cursor(s.skip(i as int), consumer_id),
        decreases s.len() - i,
    {
        proof {
            assert(s.skip(i as int)[0] == s[i as int]);
            assert(s.skip(i as int).drop_first() =~= s.skip(i + 1));
        }
        let e = &entries[i];
        if e.consumer_id == consumer_id {
            return Some(e.seq);
        }
        i += 1;
    }
    proof {
        assert(s.skip(s.len() as int) =~= Seq::<CursorEntry>::empty());
    }
    None
}

/// Compares two byte vectors for equality.
pub(crate) fn bytes_equal(a: &Vec<u8>, b: &Vec<u8>) -> (r: bool)
    ensures
        r <==> a@ == b@,
{
    if a.len() != b.len() {
        proof {
            assert(a@ != b@);
        }
        return false;
    }
    let mut i: usize = 0;
    while i < a.len()
        invariant
            i <= a@.len(),
            a@.len() == b@.len(),
            forall|j: int| 0 <= j < i ==> a@[j] == b@[j],
        decreases a@.len() - i,
    {
        if a[i] != b[i] {
            return false;
        }
        i += 1;
    }
    proof {
        assert(a@ =~= b@);
    }
    true
}

/// Inserts a fresh (stream id, version) entry at its sorted position.
pub(crate) fn insert_index_entry(entries: &mut Vec<IndexEntry>, entry: IndexEntry)
    requires
        index_sorted(old(entries)@),
        find_index_seq(old(entries)@, entry.stream_id, entry.version) is None,
    ensures
        index_sorted(final(entries)@),
        exists|p: int|
            0 <= p <= old(entries)@.len() && final(entries)@ == old(entries)@.insert(p, entry),
{
    let ghost s = entries@;
    let mut i: usize = 0;
    while i < entries.len() && (entries[i].stream_id < entry.stream_id || (entries[i].stream_id
        == entry.stream_id && entries[i].version < entry.version))
        invariant
            i <= s.len(),
            entries@ == s,
            index_sorted(s),
            find_index_seq(s, entry.stream_id, entry.version) is None,
            forall|j: int| 0 <= j < i ==> entry_key(#[trigger] s[j]).spec_less(entry_key(entry)),
        decreases s.len() - i,
    {
        i += 1;
    }
    let ghost p = i as int;
    proof {
        if p < s.len() {
            if s[p].stream_id == entry.stream_id && s[p].version == entry.version {
                lemma_find_index_present(s, p);
            }
            assert(entry_key(entry).spec_less(entry_key(s[p])));
        }
    }
    entries.insert(i, entry);
    proof {
        let t = s.insert(p, entry);
        assert forall|a: int, b: int| 0 <= a < b < t.len() implies entry_key(
            #[trigger] t[a],
        ).spec_less(entry_key(#[trigger] t[b])) by {
            if a < p {
                assert(t[a] == s[a]);
            } else if a == p {
                assert(t[a] == entry);
            } else {
                assert(t[a] == s[a - 1]);
            }
            if b < p {
                assert(t[b] == s[b]);
            } else if b == p {
                assert(t[b] == entry);
            } else {
                assert(t[b] == s[b - 1]);
            }
            if a == p && b > p && b - 1 > p {
                assert(entry_key(s[p]).spec_less(entry_key(s[b - 1])));
            }
            if a < p && b > p && a < b - 1 {
                assert(entry_key(s[a]).spec_less(entry_key(s[b - 1])));
            }
        }
    }
}

/// Writes or overwrites a consumer's cursor.
pub(crate) fn set_cursor(entries: &mut Vec<CursorEntry>, consumer_id: u64, seq: u64)
    requires
        forall|i: int, j: int|
            0 <= i < j < old(entries)@.len() ==> (#[trigger] old(entries)@[i]).consumer_id != (
            #[trigger] old(entries)@[j]).consumer_id,
    ensures
        forall|i: int, j: int|
            0 <= i < j < final(entries)@.len() ==> (#[trigger] final(entries)@[i]).consumer_id != (
            #[trigger] final(entries)@[j]).consumer_id,
        find_cursor(final(entries)@, consumer_id) == Some(seq),
        forall|c: u64|
            c != consumer_id ==> #[trigger] find_cursor(final(entries)@, c) == find_cursor(
                old(entries)@,
                c,
            ),
{
    let ghost s = entries@;
    let mut i: usize = 0;
    while i < entries.len()
        invariant
            i <= s.len(),
            entries@ == s,
            old(entries)@ == s,
            forall|a: int, b: int|
                0 <= a < b < s.len() ==> (#[trigger] s[a]).consumer_id != (
                #[trigger] s[b]).consumer_id,
            forall|j: int| 0 <= j < i ==> (#[trigger] s[j]).consumer_id != consumer_id,
        decreases s.len() - i,
    {
        if entries[i].consumer_id == consumer_id {
            let ghost k = i as int;
            let e = CursorEntry { consumer_id, seq };
            entries.set(i, e);
            proof {
                let t = s.update(k, e);
                assert(entries@ == t);
                lemma_find_cursor_update(s, k, e, consumer_id);
                assert forall|c: u64| c != consumer_id implies #[trigger] find_cursor(entries@, c)
                    == find_cursor(s, c) by {
                    lemma_find_cursor_update(s, k, e, c);
                }
                assert forall|a: int, b: int| 0 <= a < b < t.len() implies (
                #[trigger] t[a]).consumer_id != (#[trigger] t[b]).consumer_id by {
                    assert(t[a].consumer_id == s[a].consumer_id);
                    assert(t[b].consumer_id == s[b].consumer_id);
                }
            }
            return ;
        }
        i += 1;
    }
    let e = CursorEntry { consumer_id, seq };
    entries.push(e);
    proof {
        let t = s.push(e);
        lemma_find_cursor_absent(s, consumer_id);
        lemma_find_cursor_push(s, e, consumer_id);
        assert forall|c: u64| c != consumer_id implies #[trigger] find_cursor(t, c) == find_cursor(
            s,
            c,
        ) by {
            lemma_find_cursor_push(s, e, c);
        }
        assert forall|a: int, b: int| 0 <= a < b < t.len() implies (#[trigger] t[a]).consumer_id
            != (#[trigger] t[b]).consumer_id by {
            if b == s.len() {
                assert(t[a] == s[a]);
            }
        }
    }
}

/// Strict ascent of adjacent index keys propagates to every pair.
proof fn lemma_adjacent_sorted(s: Seq<IndexEntry>, i: int, j: int)
    requires
        forall|k: int|
            0 <= k < s.len() - 1 ==> entry_key(#[trigger] s[k]).spec_less(entry_key(s[k + 1])),
        0 <= i < j < s.len(),
    ensures
        entry_key(s[i]).spec_less(entry_key(s[j])),
    decreases j - i,
{
    if i + 1 < j {
        lemma_adjacent_sorted(s, i, j - 1);
        assert(entry_key(s[j - 1]).spec_less(entry_key(s[j])));
    } else {
        assert(entry_key(s[i]).spec_less(entry_key(s[i + 1])));
    }
}

/// Checks ascent, bounds and count of the stream index in one pass.
fn index_entries_ok(entries: &Vec<IndexEntry>, log_len: usize) -> (r: bool)
    ensures
        r ==> index_sorted(entries@) && entries@.len() == log_len && forall|i: int|
            0 <= i < entries@.len() ==> 1 <= (#[trigger] entries@[i]).seq <= log_len
                && entries@[i].version >= 1,
{
    if entries.len() != log_len {
        return false;
    }
    let ghost s = entries@;
    let mut i: usize = 0;
    while i < entries.len()
        invariant
            i <= s.len(),
            entries@ == s,
            s.len() == log_len,
            forall|j: int|
                0 <= j < i ==> 1 <= (#[trigger] s[j]).seq <= log_len && s[j].version >= 1,
            forall|j: int|
                0 <= j < i && j + 1 < s.len() ==> entry_key(#[trigger] s[j]).spec_less(
                    entry_key(s[j + 1]),
                ),
        decreases s.len() - i,
    {
        let e = &entries[i];
        if e.seq == 0 || e.seq > log_len as u64 || e.version == 0 {
            return false;
        }
        if i + 1 < entries.len() {
            let n = &entries[i + 1];
            if !(e.stream_id < n.stream_id || (e.stream_id == n.stream_id && e.version
                < n.version)) {
                return false;
            }
        }
        i += 1;
    }
    proof {
        assert forall|a: int, b: int| 0 <= a < b < s.len() implies entry_key(
            #[trigger] s[a],
        ).spec_less(entry_key(#[trigger] s[b])) by {
            lemma_adjacent_sorted(s, a, b);
        }
    }
    true
}

/// Checks that no two index entries share a global sequence.
fn index_seqs_distinct(entries: &Vec<IndexEntry>) -> (r: bool)
    ensures
        r ==> forall|i: int, j: int|
            0 <= i < j < entries@.len() ==> (#[trigger] entries@[i]).seq != (
            #[trigger] entries@[j]).seq,
{
    let ghost s = entries@;
    let mut i: usize = 0;
    while i < entries.len()
        invariant
            i <= s.len(),
            entries@ == s,
            forall|a: int, b: int|
                0 <= a < b < s.len() && a < i ==> (#[trigger] s[a]).seq != (#[trigger] s[b]).seq,
        decreases s.len() - i,
    {
        let mut j: usize = i + 1;
        while j < entries.len()
            invariant
                i < s.len(),
                i + 1 <= j <= s.len(),
                entries@ == s,
                forall|b: int| i < b < j ==> (#[trigger] s[b]).seq != s[i as int].seq,
            decreases s.len() - j,
        {
            if entries[i].seq == entries[j].seq {
                return false;
            }
            j += 1;
        }
        i += 1;
    }
    true
}

/// Checks that keystore entries name distinct streams and hold 60-byte
/// wrapped keys.
fn keystore_ok(entries: &Vec<KeystoreEntry>) -> (r: bool)
    ensures
        r ==> (forall|i: int, j: int|
            0 <= i < j < entries@.len() ==> (#[trigger] entries@[i]).stream_id != (
            #[trigger] entries@[j]).stream_id) && forall|i: int|
            0 <= i < entries@.len() ==> (#[trigger] entries@[i]).wrapped@.len() == 60,
{
    let ghost s = entries@;
    let mut i: usize = 0;
    while i < entries.len()
        invariant
            i <= s.len(),
            entries@ == s,
            forall|j: int| 0 <= j < i ==> (#[trigger] s[j]).wrapped@.len() == 60,
            forall|a: int, b: int|
                0 <= a < b < s.len() && a < i ==> (#[trigger] s[a]).stream_id != (
                #[trigger] s[b]).stream_id,
        decreases s.len() - i,
    {
        if entries[i].wrapped.len() != 60 {
            return false;
        }
        let mut j: usize = i + 1;
        while j < entries.len()
            invariant
                i < s.len(),
                i + 1 <= j <= s.len(),
                entries@ == s,
                forall|b: int| i < b < j ==> (#[trigger] s[b]).stream_id != s[i as int].stream_id,
            decreases s.len() - j,
        {
            if entries[i].stream_id == entries[j].stream_id {
                return false;
            }
            j += 1;
        }
        i += 1;
    }
    true
}

/// Checks that blobs carry distinct 32-byte content hashes.
fn blobs_ok(entries: &Vec<BlobEntry>) -> (r: bool)
    ensures
        r ==> (forall|i: int, j: int|
            0 <= i < j < entries@.len() ==> (#[trigger] entries@[i]).hash@ != (
            #[trigger] entries@[j]).hash@) && forall|i: int|
            0 <= i < entries@.len() ==> (#[trigger] entries@[i]).hash@.len() == 32,
{
    let ghost s = entries@;
    let mut i: usize = 0;
    while i < entries.len()
        invariant
            i <= s.len(),
            entries@ == s,
            forall|j: int| 0 <= j < i ==> (#[trigger] s[j]).hash@.len() == 32,
            forall|a: int, b: int|
                0 <= a < b < s.len() && a < i ==> (#[trigger] s[a]).hash@ != (
                #[trigger] s[b]).hash@,
        decreases s.len() - i,
    {
        if entries[i].hash.len() != 32 {
            return false;
        }
        let mut j: usize = i + 1;
        while j < entries.len()
            invariant
                i < s.len(),
                i + 1 <= j <= s.len(),
                entries@ == s,
                forall|b: int| i < b < j ==> (#[trigger] s[b]).hash@ != s[i as int].hash@,
            decreases s.len() - j,
        {
            if bytes_equal(&entries[i].hash, &entries[j].hash) {
                return false;
            }
            j += 1;
        }
        i += 1;
    }
    true
}

/// Checks that consumer cursors name distinct consumers.
fn cursors_ok(entries: &Vec<CursorEntry>) -> (r: bool)
    ensures
        r ==> forall|i: int, j: int|
            0 <= i < j < entries@.len() ==> (#[trigger] entries@[i]).consumer_id != (
            #[trigger] entries@[j]).consumer_id,
{
    let ghost s = entries@;
    let mut i: usize = 0;
    while i < entries.len()
        invariant
            i <= s.len(),
            entries@ == s,
            forall|a: int, b: int|
                0 <= a < b < s.len() && a < i ==> (#[trigger] s[a]).consumer_id != (
                #[trigger] s[b]).consumer_id,
        decreases s.len() - i,
    {
        let mut j: usize = i + 1;
        while j < entries.len()
            invariant
                i < s.len(),
                i + 1 <= j <= s.len(),
                entries@ == s,
                forall|b: int|
                    i < b < j ==> (#[trigger] s[b]).consumer_id != s[i as int].consumer_id,
            decreases s.len() - j,
        {
            if entries[i].consumer_id == entries[j].consumer_id {
                return false;
            }
            j += 1;
        }
        i += 1;
    }
    true
}

impl Storage {
    /// Checks the well-formedness invariant executably.
    ///
    /// A store assembled from outside bytes — a durable mirror reloading its
    /// namespaces — is admitted to the verified operations only after this
    /// passes.
    pub fn validate(&self) -> (r: bool)
        ensures
            r ==> self.wf(),
    {
        if self.notifier.last != self.events_log.len() as u64 {
            return false;
        }
        index_entries_ok(&self.stream_index, self.events_log.len()) && index_seqs_distinct(
            &self.stream_index,
        ) && keystore_ok(&self.keystore) && blobs_ok(&self.blobs) && cursors_ok(
            &self.consumer_cursors,
        )
    }
}

} // verus!
