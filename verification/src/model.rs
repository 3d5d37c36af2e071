//! The stored payload envelope and the user-facing payload container.

use vstd::prelude::*;

verus! {

/// Leading byte of an envelope that carries its payload inline.
pub const TAG_INLINE: u8 = 0;

/// Leading byte of an envelope that references a blob by content hash.
pub const TAG_BLOB_REF: u8 = 1;

/// The payload of an event as stored in the event log: either the serialized
/// bytes themselves, or a 32-byte content hash referencing the blob store.
pub enum StoragePayload {
    /// Small data stored directly in the event log.
    Inline(Vec<u8>),
    /// Large data stored in the blob store, referenced by its 32-byte hash.
    BlobRef(Vec<u8>),
}

/// The mathematical shape of an envelope.
pub enum EnvelopeView {
    Inline(Seq<u8>),
    BlobRef(Seq<u8>),
}

impl View for StoragePayload {
    type V = EnvelopeView;

    open spec fn view(&self) -> EnvelopeView {
        match self {
            StoragePayload::Inline(b) => EnvelopeView::Inline(b@),
            StoragePayload::BlobRef(h) => EnvelopeView::BlobRef(h@),
        }
    }
}

/// A structurally valid envelope: a blob reference holds exactly a 32-byte
/// hash, and inline bytes leave room for the leading tag byte.
pub open spec fn envelope_wf(e: EnvelopeView) -> bool {
    match e {
        EnvelopeView::Inline(b) => b.len() < usize::MAX,
        EnvelopeView::BlobRef(h) => h.len() == 32,
    }
}

/// The byte encoding of an envelope: one tag byte, then the contents.
pub open spec fn encode_envelope(e: EnvelopeView) -> Seq<u8> {
    match e {
        EnvelopeView::Inline(b) => seq![TAG_INLINE] + b,
        EnvelopeView::BlobRef(h) => seq![TAG_BLOB_REF] + h,
    }
}

/// Structural validation of envelope bytes: an unknown tag, an empty string,
/// or a blob reference of the wrong size decode to nothing.
pub open spec fn decode_envelope(s: Seq<u8>) -> Option<EnvelopeView> {
    if s.len() == 0 {
        None
    } else if s[0] == TAG_INLINE {
        Some(EnvelopeView::Inline(s.drop_first()))
    } else if s[0] == TAG_BLOB_REF && s.len() == 33 {
        Some(EnvelopeView::BlobRef(s.drop_first()))
    } else {
        None
    }
}

/// Decoding an encoded well-formed envelope gives it back.
pub proof fn lemma_envelope_roundtrip(e: EnvelopeView)
    requires
        envelope_wf(e),
    ensures
        decode_envelope(encode_envelope(e)) == Some(e),
{
    match e {
        EnvelopeView::Inline(b) => {
            assert(encode_envelope(e).drop_first() =~= b);
        },
        EnvelopeView::BlobRef(h) => {
            assert(encode_envelope(e).drop_first() =~= h);
        },
    }
}

/// The encoding is canonical: bytes that decode are the encoding of what they
/// decode to.
pub proof fn lemma_envelope_canonical(s: Seq<u8>)
    requires
        decode_envelope(s) is Some,
    ensures
        encode_envelope(decode_envelope(s)->Some_0) == s,
{
    assert(seq![s[0]] + s.drop_first() =~= s);
}

impl StoragePayload {
    /// A structurally valid envelope value.
    pub open spec fn wf(self) -> bool {
        envelope_wf(self@)
    }

    /// Serializes the envelope to its byte encoding.
    pub fn encode(&self) -> (r: Vec<u8>)
        requires
            self.wf(),
        ensures
            r@ == encode_envelope(self@),
    {
        match self {
            StoragePayload::Inline(b) => {
                let mut r: Vec<u8> = Vec::new();
                r.push(TAG_INLINE);
                let mut i: usize = 0;
                while i < b.len()
                    invariant
                        i <= b@.len(),
                        b@.len() < usize::MAX,
                        r@ == seq![TAG_INLINE] + b@.take(i as int),
                    decreases b@.len() - i,
                {
                    r.push(b[i]);
                    proof {
                        assert(seq![TAG_INLINE] + b@.take(i + 1)
                            =~= (seq![TAG_INLINE] + b@.take(i as int)).push(b@[i as int]));
                    }
                    i += 1;
                }
                proof {
                    assert(b@.take(b@.len() as int) =~= b@);
                }
                r
            },
            StoragePayload::BlobRef(h) => {
                let mut r: Vec<u8> = Vec::new();
                r.push(TAG_BLOB_REF);
                let mut i: usize = 0;
                while i < h.len()
                    invariant
                        i <= h@.len(),
                        h@.len() == 32,
                        r@ == seq![TAG_BLOB_REF] + h@.take(i as int),
                    decreases h@.len() - i,
                {
                    r.push(h[i]);
                    proof {
                        assert(seq![TAG_BLOB_REF] + h@.take(i + 1)
                            =~= (seq![TAG_BLOB_REF] + h@.take(i as int)).push(h@[i as int]));
                    }
                    i += 1;
                }
                proof {
                    assert(h@.take(h@.len() as int) =~= h@);
                }
                r
            },
        }
    }

    /// Structurally validates envelope bytes without trusting them.
    pub fn decode(bytes: &[u8]) -> (r: Option<StoragePayload>)
        ensures
            match r {
                Some(e) => decode_envelope(bytes@) == Some(e@) && e.wf(),
                None => decode_envelope(bytes@) is None,
            },
    {
        if bytes.len() == 0 {
            return None;
        }
        let tag = bytes[0];
        if tag == TAG_INLINE {
            let rest = copy_tail(bytes);
            Some(StoragePayload::Inline(rest))
        } else if tag == TAG_BLOB_REF && bytes.len() == 33 {
            let rest = copy_tail(bytes);
            Some(StoragePayload::BlobRef(rest))
        } else {
            None
        }
    }
}

/// Copies every byte after the first into a fresh vector.
fn copy_tail(bytes: &[u8]) -> (r: Vec<u8>)
    requires
        bytes@.len() >= 1,
    ensures
        r@ == bytes@.drop_first(),
{
    let mut r: Vec<u8> = Vec::new();
    let mut i: usize = 1;
    while i < bytes.len()
        invariant
            1 <= i <= bytes@.len(),
            r@ == bytes@.subrange(1, i as int),
        decreases bytes@.len() - i,
    {
        r.push(bytes[i]);
        proof {
            assert(bytes@.subrange(1, i + 1) =~= bytes@.subrange(1, i as int).push(
                bytes@[i as int]));
        }
        i += 1;
    }
    proof {
        assert(bytes@.subrange(1, bytes@.len() as int) =~= bytes@.drop_first());
    }
    r
}

/// A user event together with the metadata that routes it into a stream.
pub struct Payload<E, M> {
    pub event: E,
    pub metadata: M,
}

impl<E, M> Payload<E, M> {
    /// Creates a new `Payload` with the given event and metadata.
    pub fn new(event: E, metadata: M) -> (r: Payload<E, M>)
        ensures
            r == (Payload { event, metadata }),
    {
        Payload { event, metadata }
    }
}

/// Metadata that tells the store which stream an event belongs to and which
/// per-stream version it claims.
pub trait MetadataExt {
    /// The unique identifier of the stream this event belongs to.
    fn stream_id(&self) -> u128;

    /// The 1-indexed version this event should have within its stream.
    fn version(&self) -> u32;
}

} // verus!
