//! The key manager: 32-byte per-stream keys, wrapped under the master key
//! with the stream id as associated data, and crypto-shredding.
//!
//! A wrapped key is stored as `nonce (12) ‖ ciphertext (32) ‖ tag (16)`,
//! 60 bytes. The associated-data binding means a wrapped key copied into
//! another stream's slot does not unwrap: a key belongs to exactly one
//! stream. Deleting a stream's wrapped key makes every record sealed under
//! it permanently unrecoverable, because the plaintext key is never stored.

use crate::crypto::aead_decrypt;
use crate::crypto::aead_encrypt;
use crate::crypto::aead_open;
use crate::crypto::random_bytes;
use crate::crypto::secret_view;
use crate::encoding::be_bytes;
use crate::encoding::u128_to_be;
use crate::error::Error;
use crate::error::LengthKind;
use crate::storage::find_wrapped_key;
use crate::storage::lemma_find_wrapped_present;
use crate::storage::lemma_find_wrapped_push;
use crate::storage::lemma_find_wrapped_remove;
use crate::storage::lookup_wrapped;
use crate::storage::KeystoreEntry;
use crate::storage::Storage;
use vstd::prelude::*;
use vstd::slice::slice_subrange;

verus! {

/// What a stored wrapped key yields under a master key: the 32-byte stream
/// key, when the 60-byte value authenticates with the stream id as
/// associated data.
pub open spec fn unwrap_key_spec(master: Seq<u8>, stream_id: u128, wrapped: Seq<u8>) -> Option<
    Seq<u8>,
> {
    if wrapped.len() == 60 {
        match aead_open(
            master,
            wrapped.subrange(0, 12),
            be_bytes(stream_id as nat, 16),
            wrapped.subrange(12, 60),
        ) {
            Some(k) => if k.len() == 32 {
                Some(k)
            } else {
                None
            },
            None => None,
        }
    } else {
        None
    }
}

/// The exact error a failed unwrap reports: a wrong stored size, a failed
/// authentication, or an unwrapped key of the wrong size, in that order.
/// Meaningful only when `unwrap_key_spec` yields nothing.
pub open spec fn unwrap_error_spec(master: Seq<u8>, stream_id: u128, wrapped: Seq<u8>) -> Error {
    if wrapped.len() != 60 {
        Error::InvalidLength {
            kind: LengthKind::WrappedKey,
            actual: wrapped.len() as usize,
            required: 60,
        }
    } else {
        match aead_open(
            master,
            wrapped.subrange(0, 12),
            be_bytes(stream_id as nat, 16),
            wrapped.subrange(12, 60),
        ) {
            None => Error::DecryptionFailed,
            Some(k) => if k.len() != 32 {
                Error::InvalidLength {
                    kind: LengthKind::StreamKey,
                    actual: k.len() as usize,
                    required: 32,
                }
            } else {
                Error::DecryptionFailed
            },
        }
    }
}

/// The stream key that can be recovered for `stream_id` from this store:
/// the wrapped keystore entry unwrapped under the configured master key.
pub open spec fn stream_key_of(store: Storage, stream_id: u128) -> Option<Seq<u8>> {
    match store.config.master_key {
        Some(mk) => match find_wrapped_key(store.keystore@, stream_id) {
            Some(w) => unwrap_key_spec(secret_view(mk), stream_id, w),
            None => None,
        },
        None => None,
    }
}

/// Unwraps a stored wrapped key under the master key.
fn unwrap_stored_key(master: &Vec<u8>, stream_id: u128, wrapped: &Vec<u8>) -> (r: Result<
    Vec<u8>,
    Error,
>)
    requires
        master@.len() == 32,
    ensures
        match r {
            Ok(k) => unwrap_key_spec(master@, stream_id, wrapped@) == Some(k@) && k@.len() == 32,
            Err(e) => {
                &&& unwrap_key_spec(master@, stream_id, wrapped@) is None
                &&& e == unwrap_error_spec(master@, stream_id, wrapped@)
            },
        },
{
    if wrapped.len() != 60 {
        return Err(
            Error::InvalidLength {
                kind: LengthKind::WrappedKey,
                actual: wrapped.len(),
                required: 60,
            },
        );
    }
    let nonce = slice_subrange(wrapped.as_slice(), 0, 12);
    let sealed = slice_subrange(wrapped.as_slice(), 12, 60);
    let aad = u128_to_be(stream_id, 16);
    match aead_decrypt(master.as_slice(), nonce, aad.as_slice(), sealed) {
        Some(k) => {
            if k.len() == 32 {
                Ok(k)
            } else {
                Err(
                    Error::InvalidLength {
                        kind: LengthKind::StreamKey,
                        actual: k.len(),
                        required: 32,
                    },
                )
            }
        },
        None => Err(Error::DecryptionFailed),
    }
}

/// Provides per-stream keys to the writer and reader without ever persisting
/// them in plaintext.
pub struct KeyManager {}

impl KeyManager {
    /// Creates a key manager.
    pub fn new() -> (r: KeyManager) {
        KeyManager {  }
    }

    /// Returns the stream key for `stream_id`, generating, wrapping and
    /// persisting a fresh one on first use of the stream.
    ///
    /// Succeeds exactly when a master key is configured and any existing
    /// wrapped entry authenticates under it. Only the keystore can change,
    /// and only by gaining an entry for this stream.
    pub fn get_or_create_key(&self, store: &mut Storage, stream_id: u128) -> (r: Result<
        Vec<u8>,
        Error,
    >)
        requires
            old(store).wf(),
        ensures
            final(store).wf(),
            final(store).events_log == old(store).events_log,
            final(store).stream_index == old(store).stream_index,
            final(store).consumer_cursors == old(store).consumer_cursors,
            final(store).blobs == old(store).blobs,
            final(store).config == old(store).config,
            final(store).notifier == old(store).notifier,
            forall|sid: u128|
                sid != stream_id ==> #[trigger] find_wrapped_key(final(store).keystore@, sid)
                    == find_wrapped_key(old(store).keystore@, sid),
            match r {
                Ok(k) => {
                    &&& k@.len() == 32
                    &&& stream_key_of(*final(store), stream_id) == Some(k@)
                    &&& (find_wrapped_key(old(store).keystore@, stream_id) is Some ==> *final(store)
                        == *old(store))
                },
                Err(e) => {
                    &&& *final(store) == *old(store)
                    &&& (e == Error::MasterKeyMissing <==> old(store).config.master_key is None)
                    &&& (old(store).config.master_key matches Some(mk) ==> find_wrapped_key(
                        old(store).keystore@,
                        stream_id,
                    ) is Some && stream_key_of(*old(store), stream_id) is None && e
                        == unwrap_error_spec(
                        secret_view(mk),
                        stream_id,
                        find_wrapped_key(old(store).keystore@, stream_id)->Some_0,
                    ))
                },
            },
    {
        let master = match &store.config.master_key {
            Some(mk) => mk.bytes(),
            None => {
                return Err(Error::MasterKeyMissing);
            },
        };
        match lookup_wrapped(&store.keystore, stream_id) {
            Some(wrapped) => unwrap_stored_key(&master, stream_id, &wrapped),
            None => {
                let key = random_bytes(32);
                let nonce = random_bytes(12);
                let aad = u128_to_be(stream_id, 16);
                let sealed = aead_encrypt(
                    master.as_slice(),
                    nonce.as_slice(),
                    aad.as_slice(),
                    key.as_slice(),
                );
                let mut wrapped = nonce;
                let mut tail = sealed;
                wrapped.append(&mut tail);
                let ghost old_ks = store.keystore@;
                let entry = KeystoreEntry { stream_id, wrapped };
                proof {
                    assert forall|k: int| 0 <= k < old_ks.len() implies (
                    #[trigger] old_ks[k]).stream_id != stream_id by {
                        if old_ks[k].stream_id == stream_id {
                            lemma_find_wrapped_present(old_ks, k);
                        }
                    }
                }
                store.keystore.push(entry);
                proof {
                    lemma_find_wrapped_push(old_ks, entry, stream_id);
                    assert forall|sid: u128| sid != stream_id implies #[trigger] find_wrapped_key(
                        store.keystore@,
                        sid,
                    ) == find_wrapped_key(old_ks, sid) by {
                        lemma_find_wrapped_push(old_ks, entry, sid);
                    }
                    assert(entry.wrapped@.subrange(0, 12) =~= nonce@);
                    assert(entry.wrapped@.subrange(12, 60) =~= sealed@);
                    assert forall|a: int, b: int|
                        0 <= a < b < store.keystore@.len() implies (
                    #[trigger] store.keystore@[a]).stream_id != (
                    #[trigger] store.keystore@[b]).stream_id by {
                        if b == old_ks.len() {
                            assert(store.keystore@[a] == old_ks[a]);
                        }
                    }
                }
                Ok(key)
            },
        }
    }

    /// Reads the stream key for `stream_id` without creating one.
    ///
    /// Returns nothing when the stream has no wrapped key (never written, or
    /// crypto-shredded); fails when the master key is missing or the wrapped
    /// entry does not authenticate.
    pub fn get_key(&self, store: &Storage, stream_id: u128) -> (r: Result<Option<Vec<u8>>, Error>)
        requires
            store.wf(),
        ensures
            match r {
                Ok(Some(k)) => stream_key_of(*store, stream_id) == Some(k@) && k@.len() == 32,
                Ok(None) => find_wrapped_key(store.keystore@, stream_id) is None,
                Err(e) => {
                    &&& find_wrapped_key(store.keystore@, stream_id) is Some
                    &&& stream_key_of(*store, stream_id) is None
                    &&& (e == Error::MasterKeyMissing <==> store.config.master_key is None)
                    &&& (store.config.master_key matches Some(mk) ==> e == unwrap_error_spec(
                        secret_view(mk),
                        stream_id,
                        find_wrapped_key(store.keystore@, stream_id)->Some_0,
                    ))
                },
            },
    {
        match lookup_wrapped(&store.keystore, stream_id) {
            None => Ok(None),
            Some(wrapped) => {
                let master = match &store.config.master_key {
                    Some(mk) => mk.bytes(),
                    None => {
                        return Err(Error::MasterKeyMissing);
                    },
                };
                match unwrap_stored_key(&master, stream_id, &wrapped) {
                    Ok(k) => Ok(Some(k)),
                    Err(e) => Err(e),
                }
            },
        }
    }

    /// Crypto-shreds a stream: removes its wrapped key, making every record
    /// sealed under it permanently unrecoverable. The generated plaintext
    /// key was never stored anywhere else.
    pub fn delete_key(&self, store: &mut Storage, stream_id: u128) -> (r: Result<(), Error>)
        requires
            old(store).wf(),
        ensures
            r is Ok,
            final(store).wf(),
            final(store).events_log == old(store).events_log,
            final(store).stream_index == old(store).stream_index,
            final(store).consumer_cursors == old(store).consumer_cursors,
            final(store).blobs == old(store).blobs,
            final(store).config == old(store).config,
            final(store).notifier == old(store).notifier,
            find_wrapped_key(final(store).keystore@, stream_id) is None,
            stream_key_of(*final(store), stream_id) is None,
            forall|sid: u128|
                sid != stream_id ==> #[trigger] find_wrapped_key(final(store).keystore@, sid)
                    == find_wrapped_key(old(store).keystore@, sid),
    {
        let ghost s = store.keystore@;
        let mut i: usize = 0;
        while i < store.keystore.len()
            invariant
                i <= s.len(),
                store.keystore@ == s,
                old(store).wf(),
                *store == *old(store),
                forall|j: int| 0 <= j < i ==> (#[trigger] s[j]).stream_id != stream_id,
            decreases s.len() - i,
        {
            if store.keystore[i].stream_id == stream_id {
                let ghost k = i as int;
                store.keystore.remove(i);
                proof {
                    lemma_find_wrapped_remove(s, k, stream_id);
                    assert forall|sid: u128| sid != stream_id implies #[trigger] find_wrapped_key(
                        store.keystore@,
                        sid,
                    ) == find_wrapped_key(s, sid) by {
                        lemma_find_wrapped_remove(s, k, sid);
                    }
                    let t = s.remove(k);
                    assert forall|a: int, b: int| 0 <= a < b < t.len() implies (
                    #[trigger] t[a]).stream_id != (#[trigger] t[b]).stream_id by {
                        assert(t[a] == if a < k {
                            s[a]
                        } else {
                            s[a + 1]
                        });
                        assert(t[b] == if b < k {
                            s[b]
                        } else {
                            s[b + 1]
                        });
                    }
                    assert forall|a: int| 0 <= a < t.len() implies (
                    #[trigger] t[a]).wrapped@.len() == 60 by {
                        assert(t[a] == if a < k {
                            s[a]
                        } else {
                            s[a + 1]
                        });
                    }
                }
                return Ok(());
            }
            i += 1;
        }
        proof {
            crate::storage::lemma_find_wrapped_absent(s, stream_id);
        }
        Ok(())
    }
}

} // verus!
