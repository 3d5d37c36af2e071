//! Trusted bindings to the cryptographic primitives.
//!
//! The store relies on an AEAD cipher (AES-256-GCM), a content hash
//! (SHA-256), an operating-system random source, and a zeroize-on-drop
//! wrapper for the master key. Each binding states only what the crate it
//! calls shows; everything built on top of them is verified.

use aes_gcm::aead::Aead;
use aes_gcm::aead::KeyInit;
use crate::error::Error;
use crate::error::LengthKind;
use rand::RngCore;
use sha2::Digest;
use vstd::prelude::*;

verus! {

/// What AES-256-GCM sealing returns for a key, nonce, associated data and
/// plaintext: the ciphertext followed by the 16-byte authentication tag.
pub uninterp spec fn aead_seal(key: Seq<u8>, nonce: Seq<u8>, aad: Seq<u8>, plaintext: Seq<u8>) -> Seq<u8>;

/// What AES-256-GCM opening returns: the plaintext when the ciphertext
/// authenticates under the key, nonce and associated data, nothing otherwise.
pub uninterp spec fn aead_open(key: Seq<u8>, nonce: Seq<u8>, aad: Seq<u8>, ciphertext: Seq<u8>) -> Option<Seq<u8>>;

/// What SHA-256 returns for a byte string: its 32-byte digest.
pub uninterp spec fn sha256_of(data: Seq<u8>) -> Seq<u8>;

/// The secret bytes held inside a zeroize-on-drop wrapper.
pub uninterp spec fn secret_view(secret: MasterKey) -> Seq<u8>;

/// A 32-byte master key held in a zeroize-on-drop wrapper, so that the
/// secret bytes are wiped from memory when the value is dropped.
#[verifier::external_body]
pub struct MasterKey {
    inner: zeroize::Zeroizing<[u8; 32]>,
}

/// Relies on aes_gcm::Aes256Gcm through Aead::encrypt: AES-256-GCM with a
/// 12-byte nonce and a postfix 16-byte tag. The result is a function of key,
/// nonce, associated data and plaintext; it authenticates back to the
/// plaintext under the same parameters; and encryption only fails for inputs
/// far larger than the sizes admitted here.
#[verifier::external_body]
pub(crate) fn aead_encrypt(key: &[u8], nonce: &[u8], aad: &[u8], plaintext: &[u8]) -> (r: Vec<u8>)
    requires
        key@.len() == 32,
        nonce@.len() == 12,
        plaintext@.len() < 0x100000000,
        aad@.len() < 0x100000000,
    ensures
        r@ == aead_seal(key@, nonce@, aad@, plaintext@),
        r@.len() == plaintext@.len() + 16,
        aead_open(key@, nonce@, aad@, r@) == Some(plaintext@),
{
    let key_arr = aes_gcm::Key::<aes_gcm::Aes256Gcm>::try_from(key).unwrap();
    let nonce_arr = aes_gcm::aead::Nonce::<aes_gcm::Aes256Gcm>::try_from(nonce).unwrap();
    let cipher = aes_gcm::Aes256Gcm::new(&key_arr);
    cipher.encrypt(&nonce_arr, aes_gcm::aead::Payload { msg: plaintext, aad }).unwrap()
}

/// Relies on aes_gcm::Aes256Gcm through Aead::decrypt: returns the plaintext
/// exactly when the ciphertext authenticates under the key, nonce and
/// associated data, and fails otherwise (wrong key, tampering, wrong
/// associated data).
#[verifier::external_body]
pub(crate) fn aead_decrypt(key: &[u8], nonce: &[u8], aad: &[u8], ciphertext: &[u8]) -> (r: Option<
    Vec<u8>,
>)
    requires
        key@.len() == 32,
        nonce@.len() == 12,
    ensures
        match r {
            Some(p) => aead_open(key@, nonce@, aad@, ciphertext@) == Some(p@),
            None => aead_open(key@, nonce@, aad@, ciphertext@) is None,
        },
{
    let key_arr = aes_gcm::Key::<aes_gcm::Aes256Gcm>::try_from(key).unwrap();
    let nonce_arr = aes_gcm::aead::Nonce::<aes_gcm::Aes256Gcm>::try_from(nonce).unwrap();
    let cipher = aes_gcm::Aes256Gcm::new(&key_arr);
    cipher.decrypt(&nonce_arr, aes_gcm::aead::Payload { msg: ciphertext, aad }).ok()
}

/// Relies on sha2::Sha256 through Digest::digest: the 32-byte SHA-256 digest,
/// a function of the input bytes alone.
#[verifier::external_body]
pub(crate) fn sha256(data: &[u8]) -> (r: Vec<u8>)
    ensures
        r@ == sha256_of(data@),
        r@.len() == 32,
{
    sha2::Sha256::digest(data).to_vec()
}

/// Relies on rand::rngs::OsRng through RngCore::fill_bytes: fills the buffer
/// from the operating system's secure random source. Nothing is promised of
/// the values.
#[verifier::external_body]
pub(crate) fn random_bytes(n: usize) -> (r: Vec<u8>)
    ensures
        r@.len() == n,
{
    let mut buf = vec![0u8; n];
    rand::rngs::OsRng.fill_bytes(&mut buf);
    buf
}

impl MasterKey {
    /// Relies on zeroize::Zeroizing::new: wraps the 32 secret bytes so that
    /// they are wiped when the wrapper drops; it holds exactly those bytes.
    #[verifier::external_body]
    pub fn new(bytes: &[u8]) -> (r: MasterKey)
        requires
            bytes@.len() == 32,
        ensures
            secret_view(r) == bytes@,
    {
        let mut arr = [0u8; 32];
        arr.copy_from_slice(bytes);
        MasterKey { inner: zeroize::Zeroizing::new(arr) }
    }

    /// Relies on zeroize::Zeroizing's Deref to the wrapped 32-byte array:
    /// exposes a copy of the secret bytes.
    #[verifier::external_body]
    pub(crate) fn bytes(&self) -> (r: Vec<u8>)
        ensures
            r@ == secret_view(*self),
            r@.len() == 32,
    {
        self.inner.to_vec()
    }
}

/// Seals plaintext under a 32-byte key with authenticated encryption: the
/// result is a fresh random nonce (12 bytes) followed by the ciphertext and
/// its 16-byte tag, bound to the associated data.
pub fn encrypt(key: &[u8], plaintext: &[u8], aad: &[u8]) -> (r: Result<Vec<u8>, Error>)
    requires
        key@.len() == 32,
        plaintext@.len() < 0x100000000,
        aad@.len() < 0x100000000,
    ensures
        match r {
            Ok(v) => {
                &&& v@.len() == plaintext@.len() + 28
                &&& aead_open(
                    key@,
                    v@.subrange(0, 12),
                    aad@,
                    v@.subrange(12, v@.len() as int),
                ) == Some(plaintext@)
            },
            Err(_) => false,
        },
{
    let nonce = random_bytes(12);
    let ghost nonce_view = nonce@;
    let mut sealed = aead_encrypt(key, nonce.as_slice(), aad, plaintext);
    let ghost sealed_view = sealed@;
    let mut out = nonce;
    out.append(&mut sealed);
    proof {
        assert(out@.subrange(0, 12) =~= nonce_view);
        assert(out@.subrange(12, out@.len() as int) =~= sealed_view);
    }
    Ok(out)
}

/// Opens a value produced by `encrypt`: splits off the leading 12-byte
/// nonce and authenticates the remainder against the associated data.
/// Fails exactly when the input is too short for a nonce or when
/// authentication fails (wrong key, tampering, or wrong associated data).
pub fn decrypt(key: &[u8], data: &[u8], aad: &[u8]) -> (r: Result<Vec<u8>, Error>)
    requires
        key@.len() == 32,
    ensures
        match r {
            Ok(p) => {
                &&& data@.len() >= 12
                &&& aead_open(
                    key@,
                    data@.subrange(0, 12),
                    aad@,
                    data@.subrange(12, data@.len() as int),
                ) == Some(p@)
            },
            Err(e) => {
                if data@.len() < 12 {
                    e == (Error::InvalidLength {
                        kind: LengthKind::Ciphertext,
                        actual: data@.len() as usize,
                        required: 12,
                    })
                } else {
                    &&& aead_open(
                        key@,
                        data@.subrange(0, 12),
                        aad@,
                        data@.subrange(12, data@.len() as int),
                    ) is None
                    &&& e == Error::DecryptionFailed
                }
            },
        },
{
    if data.len() < 12 {
        return Err(
            Error::InvalidLength { kind: LengthKind::Ciphertext, actual: data.len(), required: 12 },
        );
    }
    let nonce = vstd::slice::slice_subrange(data, 0, 12);
    let ciphertext = vstd::slice::slice_subrange(data, 12, data.len());
    match aead_decrypt(key, nonce, aad, ciphertext) {
        Some(p) => Ok(p),
        None => Err(Error::DecryptionFailed),
    }
}

} // verus!
