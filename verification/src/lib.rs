//! An embedded, append-only event store for event-sourced applications.
//!
//! Events are written into logical streams identified by 128-bit stream ids;
//! each event carries a per-stream version and receives a global sequence
//! number. Records are routed inline or into a content-addressed blob store,
//! optionally sealed with authenticated per-stream encryption, and read back
//! with integrity validation.

use vstd::prelude::*;

pub mod config;
pub mod crypto;
pub mod encoding;
pub mod error;
pub mod keys;
pub mod model;
pub mod processor;
pub mod reader;
pub mod storage;
pub mod util;
pub mod writer;

verus! {

/// Serialized payloads up to this many bytes are stored inline in the event
/// log; larger payloads move to the content-addressed blob store.
pub const MAX_INLINE_SIZE: usize = 2048;

} // verus!
