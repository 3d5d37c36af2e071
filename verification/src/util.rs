//! Timing helpers: run a block, measure how long it took, and hand the
//! measurement to a caller-supplied callback.

use vstd::prelude::*;

verus! {

#[verifier::external_type_specification]
#[verifier::external_body]
pub struct ExInstant(std::time::Instant);

/// Relies on std::time::Instant::now: a moment of the monotonic clock.
/// Nothing is promised of the value.
#[verifier::external_body]
fn instant_now() -> (r: std::time::Instant) {
    std::time::Instant::now()
}

/// Relies on std::time::Instant::elapsed: the nanoseconds since the instant.
/// The value depends on the clock, so nothing is promised of it.
#[verifier::external_body]
fn elapsed_nanos(start: &std::time::Instant) -> (r: u128) {
    start.elapsed().as_nanos()
}

/// Runs a block, then hands the label and the elapsed nanoseconds to the
/// callback, and returns the block's result.
pub fn timed<T, C: FnOnce(&str, u128), F: FnOnce() -> T>(label: &str, callback: C, body: F) -> (r:
    T)
    requires
        call_requires(body, ()),
        forall|n: u128| call_requires(callback, (label, n)),
    ensures
        call_ensures(body, (), r),
{
    let start = instant_now();
    let result = body();
    let elapsed = elapsed_nanos(&start);
    callback(label, elapsed);
    result
}

/// Runs a block, timing it for diagnostics, and returns its result.
pub fn timed_dbg<T, F: FnOnce() -> T>(label: &str, body: F) -> (r: T)
    requires
        call_requires(body, ()),
    ensures
        call_ensures(body, (), r),
{
    let _ = label;
    let start = instant_now();
    let result = body();
    let _elapsed = elapsed_nanos(&start);
    result
}

} // verus!
