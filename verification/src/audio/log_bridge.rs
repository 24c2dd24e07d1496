//! Realtime-safe audio→log bridge: the audio thread pushes fixed-shape events
//! into a bounded single-producer queue; a drain thread forwards them.
//!
//! Whether the queue has room depends on the drain thread, so the outcome of
//! each push is treated as an arbitrary value.  The logger keeps ghost
//! journals of what it handed to the queue, with the outcome of each push,
//! and of how many drops it counted; `log` is proved to count a drop exactly
//! for a refused push.
use std::sync::Arc;
use std::sync::atomic::{AtomicU64, Ordering};
use vstd::prelude::*;

verus! {

/// Fixed-shape event enum for the audio→log bridge.
#[derive(Clone, Copy, Debug, PartialEq, Eq, Structural)]
pub enum AudioLogEvent {
    /// An xrun (underflow) was detected.
    Xrun,
}

#[verifier::external_type_specification]
#[verifier::external_body]
#[verifier::reject_recursive_types(T)]
pub struct ExProducer<T>(rtrb::Producer<T>);

/// `rtrb::Producer::push`: moves the event into the queue unless the queue
/// is full.  The consumer pops on another thread, so whether the queue is
/// full at this moment is not known here and nothing is said of the result.
#[verifier::external_body]
fn push_event(producer: &mut rtrb::Producer<AudioLogEvent>, event: AudioLogEvent) -> (pushed: bool) {
    producer.push(event).is_ok()
}

/// Drops counted after a push with outcome `pushed`, from `drops` before it:
/// one more exactly when the queue refused the event.
pub open spec fn drops_after(drops: nat, pushed: bool) -> nat {
    if pushed {
        drops
    } else {
        drops + 1
    }
}

/// Write end of the audio→log channel.  Handed to the audio thread.
pub struct AudioLogger {
    producer: rtrb::Producer<AudioLogEvent>,
    dropped: Arc<AtomicU64>,
    offers: Ghost<Seq<(AudioLogEvent, bool)>>,
    drops: Ghost<nat>,
}

impl AudioLogger {
    /// Pair the write end of a queue with the counter of dropped events.
    pub fn new(producer: rtrb::Producer<AudioLogEvent>, dropped: Arc<AtomicU64>) -> (r: Self)
        ensures
            r.dropped_counter() == dropped,
            r.offers() == Seq::<(AudioLogEvent, bool)>::empty(),
            r.drops_counted() == 0,
    {
        AudioLogger { producer, dropped, offers: Ghost(Seq::empty()), drops: Ghost(0) }
    }

    /// The shared counter of events that found the queue full.
    pub closed spec fn dropped_counter(&self) -> Arc<AtomicU64> {
        self.dropped
    }

    /// Every event this logger handed to the queue, in order, each with
    /// whether the queue took it.
    pub closed spec fn offers(&self) -> Seq<(AudioLogEvent, bool)> {
        self.offers@
    }

    /// How many increments this logger has made to the dropped counter.
    pub closed spec fn drops_counted(&self) -> nat {
        self.drops@
    }

    /// Hand `event` to the queue; returns whether the queue took it.
    fn offer(&mut self, event: AudioLogEvent) -> (pushed: bool)
        ensures
            final(self).offers() == old(self).offers().push((event, pushed)),
            final(self).drops_counted() == old(self).drops_counted(),
            final(self).dropped_counter() == old(self).dropped_counter(),
    {
        let pushed = push_event(&mut self.producer, event);
        self.offers = Ghost(self.offers@.push((event, pushed)));
        pushed
    }

    /// Add one to the dropped counter.
    fn count_drop(&mut self)
        ensures
            final(self).drops_counted() == old(self).drops_counted() + 1,
            final(self).offers() == old(self).offers(),
            final(self).dropped_counter() == old(self).dropped_counter(),
    {
        let _ = self.dropped.fetch_add(1, Ordering::Relaxed);
        self.drops = Ghost(self.drops@ + 1);
    }

    /// Push an event to the drain thread.  Non-blocking; if the queue is full
    /// the event is counted in the dropped counter and discarded.  Whatever
    /// the queue answered, the event was handed to it once and at most one
    /// drop was counted: one exactly when the queue refused it.
    pub fn log(&mut self, event: AudioLogEvent)
        ensures
            exists|pushed: bool|
                {
                    &&& final(self).offers() == old(self).offers().push((event, pushed))
                    &&& final(self).drops_counted() == drops_after(
                        old(self).drops_counted(),
                        pushed,
                    )
                },
            final(self).dropped_counter() == old(self).dropped_counter(),
    {
        let pushed = self.offer(event);
        if !pushed {
            self.count_drop();
        }
        assert(self.offers() == old(self).offers().push((event, pushed)));
        assert(self.drops_counted() == drops_after(old(self).drops_counted(), pushed));
    }
}

} // verus!
