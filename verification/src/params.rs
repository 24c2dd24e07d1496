//! Lock-free boolean parameters shared by the GUI and audio threads.
use std::sync::Arc;
use std::sync::atomic::{AtomicBool, Ordering};
use vstd::prelude::*;

verus! {

/// GUI- and audio-side handle for a bool parameter.  Clones share the same
/// storage, so a value set through one clone is what another clone reads
/// (unless some thread sets it in between).
pub struct BoolParam {
    storage: Arc<AtomicBool>,
    name: &'static str,
    initial: Ghost<bool>,
}

impl BoolParam {
    /// The parameter's display name.
    pub closed spec fn label(&self) -> Seq<char> {
        self.name@
    }

    /// The value the shared cell was created holding.  Verus sees nothing
    /// inside a std atomic, so this is recorded beside the cell's creation.
    pub closed spec fn initial(&self) -> bool {
        self.initial@
    }

    /// The shared cell that holds the parameter's value.
    pub closed spec fn cell(&self) -> Arc<AtomicBool> {
        self.storage
    }

    /// A new parameter named `name` holding `default`.
    pub fn new(name: &'static str, default: bool) -> (r: Self)
        ensures
            r.label() == name@,
            r.initial() == default,
    {
        let cell = AtomicBool::new(default);
        BoolParam { storage: Arc::new(cell), name, initial: Ghost(default) }
    }

    /// Store a new value.  Lock-free; safe to call from any thread.
    pub fn set(&self, value: bool) {
        self.storage.store(value, Ordering::Relaxed);
    }

    /// The value most recently stored by any clone.
    pub fn value(&self) -> bool {
        self.storage.load(Ordering::Relaxed)
    }

    /// The parameter's display name.
    pub fn name(&self) -> (r: &'static str)
        ensures
            r@ == self.label(),
    {
        self.name
    }
}

impl Clone for BoolParam {
    /// Another handle to the same storage, with the same name.
    fn clone(&self) -> (r: Self)
        ensures
            r.label() == self.label(),
            r.cell() == self.cell(),
            r.initial() == self.initial(),
    {
        BoolParam {
            storage: crate::audio::latency::share(&self.storage),
            name: self.name,
            initial: self.initial,
        }
    }
}

} // verus!
