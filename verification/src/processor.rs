//! The consumer processor: drains the log from a persisted cursor to the
//! head in batched hops, feeding each event to a handler in strictly
//! ascending global-sequence order.
//!
//! Delivery is at least once: the cursor is committed per batch, so after a
//! crash between a handled event and the next commit the same event is
//! handled again. Within one drain the handler sees each sequence exactly
//! once, in order, and the cursor never moves past a failed event.

use crate::error::Error;
use crate::reader::lemma_read_back_cursor_independent;
use crate::reader::lemma_read_error_cursor_independent;
use crate::reader::read_error_spec;
use crate::reader::read_back;
use crate::reader::Reader;
use crate::storage::find_cursor;
use crate::storage::lookup_cursor;
use crate::storage::set_cursor;
use crate::storage::Storage;
use vstd::prelude::*;
use vstd::slice::slice_to_vec;

verus! {

/// A consumer of event payloads.
///
/// `seen` is the handler's own record of every payload it has accepted; a
/// conforming implementation appends exactly the accepted payload on
/// success and nothing on failure.
pub trait EventHandler {
    /// The payloads this handler has accepted, oldest first.
    spec fn seen(&self) -> Seq<Seq<u8>>;

    /// Handles one event payload.
    fn handle(&mut self, payload: &[u8]) -> (r: Result<(), Error>)
        ensures
            r is Ok ==> final(self).seen() == old(self).seen().push(payload@),
            r is Err ==> final(self).seen() == old(self).seen(),
    ;
}

/// A handler that records every payload it is given, in order.
pub struct RecordingHandler {
    /// The accepted payloads, oldest first.
    pub events: Vec<Vec<u8>>,
}

impl RecordingHandler {
    /// A handler that has seen nothing.
    pub fn new() -> (r: RecordingHandler)
        ensures
            r.seen() == Seq::<Seq<u8>>::empty(),
    {
        let r = RecordingHandler { events: Vec::new() };
        proof {
            assert(r.seen() =~= Seq::<Seq<u8>>::empty());
        }
        r
    }

    /// The recorded payloads.
    pub fn events(&self) -> (r: &Vec<Vec<u8>>)
        ensures
            r@.len() == self.seen().len(),
            forall|i: int| 0 <= i < r@.len() ==> #[trigger] r@[i]@ == self.seen()[i],
    {
        &self.events
    }
}

impl EventHandler for RecordingHandler {
    open spec fn seen(&self) -> Seq<Seq<u8>> {
        self.events@.map(|i: int, v: Vec<u8>| v@)
    }

    fn handle(&mut self, payload: &[u8]) -> (r: Result<(), Error>)
        ensures
            r is Ok,
    {
        let ghost before = self.seen();
        self.events.push(slice_to_vec(payload));
        proof {
            assert(self.seen() =~= before.push(payload@));
        }
        Ok(())
    }
}

/// Configuration of a processor's batching.
#[derive(Clone, Copy)]
pub struct ProcessorConfig {
    /// How many events to process before committing the cursor.
    pub batch_size: usize,
    /// Longest time between cursor commits, in milliseconds; enforced by the
    /// loop that drives the drain.
    pub batch_timeout_ms: u64,
}

impl Default for ProcessorConfig {
    /// Commit every 100 events or 100 milliseconds.
    fn default() -> (r: ProcessorConfig)
        ensures
            r.batch_size == 100,
            r.batch_timeout_ms == 100,
    {
        ProcessorConfig { batch_size: 100, batch_timeout_ms: 100 }
    }
}

/// Drains the log on behalf of one consumer.
pub struct Processor {
    /// The consumer whose cursor this processor advances.
    pub consumer_id: u64,
    /// Batching configuration.
    pub config: ProcessorConfig,
}

/// The sequence a consumer has processed up to: its cursor, or 0 before the
/// first commit.
pub open spec fn cursor_start(store: Storage, consumer_id: u64) -> u64 {
    match find_cursor(store.consumer_cursors@, consumer_id) {
        Some(c) => c,
        None => 0,
    }
}

impl Processor {
    /// Creates a processor for one consumer.
    pub fn new(consumer_id: u64) -> (r: Processor)
        ensures
            r.consumer_id == consumer_id,
            r.config.batch_size == 100,
            r.config.batch_timeout_ms == 100,
    {
        Processor { consumer_id, config: ProcessorConfig::default() }
    }

    /// Sets the batching configuration.
    pub fn with_config(self, config: ProcessorConfig) -> (r: Processor)
        ensures
            r.consumer_id == self.consumer_id,
            r.config == config,
    {
        Processor { consumer_id: self.consumer_id, config }
    }

    /// Drains the log from this consumer's cursor to the current head.
    ///
    /// The handler sees the records at sequences `cursor+1 ..= head` in
    /// exactly that order; the cursor is committed per `batch_size` events
    /// and after the drain, and never moves past a failed event. Only the
    /// consumer cursors change, and only this consumer's.
    pub fn process_backlog<H: EventHandler>(&self, store: &mut Storage, handler: &mut H) -> (r:
        Result<u64, Error>)
        requires
            old(store).wf(),
            old(store).head() < 0xffffffffffffffff,
        ensures
            final(store).wf(),
            final(store).events_log == old(store).events_log,
            final(store).stream_index == old(store).stream_index,
            final(store).keystore == old(store).keystore,
            final(store).blobs == old(store).blobs,
            final(store).config == old(store).config,
            final(store).notifier == old(store).notifier,
            forall|c: u64|
                c != self.consumer_id ==> #[trigger] find_cursor(
                    final(store).consumer_cursors@,
                    c,
                ) == find_cursor(old(store).consumer_cursors@, c),
            // The handler's record grows by exactly the payloads at the
            // drained sequences, in ascending sequence order.
            final(handler).seen().len() >= old(handler).seen().len(),
            forall|i: int|
                0 <= i < old(handler).seen().len() ==> #[trigger] final(handler).seen()[i] == old(
                    handler,
                ).seen()[i],
            forall|i: int|
                old(handler).seen().len() <= i < final(handler).seen().len()
                    ==> read_back(
                    *old(store),
                    (cursor_start(*old(store), self.consumer_id) + 1 + (i - old(
                        handler,
                    ).seen().len())) as u64,
                ) == Some(#[trigger] final(handler).seen()[i]),
            // The committed cursor equals the last handled sequence.
            ({
                let delivered = final(handler).seen().len() - old(handler).seen().len();
                let committed = cursor_start(*old(store), self.consumer_id) + delivered;
                if delivered == 0 {
                    final(store).consumer_cursors == old(store).consumer_cursors
                } else {
                    find_cursor(final(store).consumer_cursors@, self.consumer_id) == Some(
                        committed as u64,
                    )
                }
            }),
            match r {
                Ok(head) => {
                    &&& head == old(store).head()
                    &&& (cursor_start(*old(store), self.consumer_id) >= old(store).head()
                        ==> final(handler).seen() == old(handler).seen())
                    &&& (cursor_start(*old(store), self.consumer_id) < old(store).head()
                        ==> final(handler).seen().len() == old(handler).seen().len() + old(
                        store,
                    ).head() - cursor_start(*old(store), self.consumer_id))
                },
                Err(e) => {
                    &&& final(handler).seen().len() < old(handler).seen().len() + old(
                        store,
                    ).head() - cursor_start(*old(store), self.consumer_id)
                    // When the event at the failure position was unreadable,
                    // the returned error is exactly that record's read
                    // error; otherwise the handler rejected it and the error
                    // is the handler's own.
                    &&& ({
                        let d = final(handler).seen().len() - old(handler).seen().len();
                        let f = (cursor_start(*old(store), self.consumer_id) + d + 1) as u64;
                        read_back(*old(store), f) is None ==> old(store).record_at(f) is Some
                            && read_error_spec(
                            *old(store),
                            f,
                            old(store).record_at(f)->Some_0,
                            e,
                        )
                    })
                },
            },
    {
        let start = match lookup_cursor(&store.consumer_cursors, self.consumer_id) {
            Some(c) => c,
            None => 0,
        };
        let head = store.count();
        let reader = Reader::new();
        let mut current: u64 = start;
        let mut pending: u64 = 0;
        let ghost seen0 = handler.seen();
        while current < head
            invariant
                store.wf(),
                store.events_log == old(store).events_log,
                store.stream_index == old(store).stream_index,
                store.keystore == old(store).keystore,
                store.blobs == old(store).blobs,
                store.config == old(store).config,
                store.notifier == old(store).notifier,
                head == old(store).head(),
                head < 0xffffffffffffffff,
                start == cursor_start(*old(store), self.consumer_id),
                start <= current,
                current <= head || current == start,
                pending <= current - start,
                seen0 == old(handler).seen(),
                handler.seen().len() == seen0.len() + (current - start),
                forall|i: int| 0 <= i < seen0.len() ==> #[trigger] handler.seen()[i] == seen0[i],
                forall|i: int|
                    seen0.len() <= i < handler.seen().len() ==> read_back(
                        *old(store),
                        (start + 1 + (i - seen0.len())) as u64,
                    ) == Some(#[trigger] handler.seen()[i]),
                current - pending == start ==> store.consumer_cursors == old(
                    store,
                ).consumer_cursors,
                current - pending > start ==> find_cursor(
                    store.consumer_cursors@,
                    self.consumer_id,
                ) == Some((current - pending) as u64),
                forall|c: u64|
                    c != self.consumer_id ==> #[trigger] find_cursor(store.consumer_cursors@, c)
                        == find_cursor(old(store).consumer_cursors@, c),
            decreases head - current,
        {
            let next = current + 1;
            let outcome = match reader.get(store, next) {
                Ok(Some(view)) => {
                    let b = view.bytes();
                    proof {
                        lemma_read_back_cursor_independent(*store, *old(store), next);
                    }
                    handler.handle(b)
                },
                Ok(None) => {
                    // A sequence at or below the head always has a record.
                    proof {
                        assert(false);
                    }
                    Err(Error::Backend)
                },
                Err(e) => {
                    proof {
                        lemma_read_back_cursor_independent(*store, *old(store), next);
                        lemma_read_error_cursor_independent(
                            *store,
                            *old(store),
                            next,
                            store.record_at(next)->Some_0,
                            e,
                        );
                        assert(old(store).record_at(next) == store.record_at(next));
                    }
                    if pending > 0 {
                        set_cursor(&mut store.consumer_cursors, self.consumer_id, current);
                    }
                    return Err(e);
                },
            };
            match outcome {
                Ok(()) => {
                    current = next;
                    pending = pending + 1;
                },
                Err(e) => {
                    if pending > 0 {
                        set_cursor(&mut store.consumer_cursors, self.consumer_id, current);
                    }
                    return Err(e);
                },
            }
            if pending >= self.config.batch_size as u64 {
                set_cursor(&mut store.consumer_cursors, self.consumer_id, current);
                pending = 0;
            }
        }
        if pending > 0 {
            set_cursor(&mut store.consumer_cursors, self.consumer_id, current);
        }
        Ok(head)
    }
}

} // verus!
