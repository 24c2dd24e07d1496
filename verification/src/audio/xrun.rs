//! Shared xrun counter.
use std::sync::Arc;
use std::sync::atomic::{AtomicU64, Ordering};
use vstd::prelude::*;

verus! {

/// Counts audio thread xruns (underflows).  Shared between the audio thread
/// and the GUI via `Arc`; other threads may bump it at any time, so what
/// `read` returns is whatever the counter holds at that moment.
pub struct XrunCounter(pub Arc<AtomicU64>);

impl XrunCounter {
    /// Increment the counter by one (wrapping).  Safe to call from a
    /// realtime thread.
    pub fn bump(&self) {
        let _ = self.0.fetch_add(1, Ordering::Relaxed);
    }

    /// Read the current counter value.
    pub fn read(&self) -> u64 {
        self.0.load(Ordering::Relaxed)
    }
}

impl Default for XrunCounter {
    /// A fresh counter at zero.
    fn default() -> Self {
        XrunCounter(Arc::new(AtomicU64::new(0)))
    }
}

impl Clone for XrunCounter {
    /// Another handle to the same counter.
    fn clone(&self) -> (r: Self)
        ensures
            r.0 == self.0,
    {
        XrunCounter(crate::audio::latency::share(&self.0))
    }
}

} // verus!
