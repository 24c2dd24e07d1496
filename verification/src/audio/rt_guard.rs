//! Wrapper around audio-thread closures.
use vstd::prelude::*;

verus! {

/// Run an audio-thread closure.  In this build the closure is called
/// directly, so the wrapper costs nothing; its result is the closure's.
pub fn assert_no_alloc_audio<F: FnOnce() -> R, R>(f: F) -> (r: R)
    requires
        f.requires(()),
    ensures
        f.ensures((), r),
{
    f()
}

} // verus!
