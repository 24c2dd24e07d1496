//! Audio backend markers.
use vstd::prelude::*;

verus! {

/// Marker for a future cpal-backed backend (offline render, file-based
/// capture).  The live audio loop is built by the application and does not
/// go through it.
pub struct CpalBackend;

} // verus!
