use vstd::prelude::*;

verus! {

/// Errors that can be produced by the domain layer.
#[derive(Clone, Copy, Debug, PartialEq, Eq, Structural)]
pub enum DomainError {
    /// The supplied sample rate is not supported or out of valid range.
    InvalidSampleRate(u32),
    /// The loopback contains no detectable correlation peak (e.g. silence).
    LatencyNoPeak,
    /// The loopback is shorter than the reference impulse.
    LoopbackTooShort,
}

} // verus!
