use vstd::prelude::*;

verus! {

/// Audio buffer size in frames (e.g. 128, 512).
#[derive(Clone, Copy, Debug, PartialEq, Eq, Structural)]
pub struct BufferSize(u32);

impl BufferSize {
    /// The frame count this size stands for.
    pub closed spec fn frames(self) -> u32 {
        self.0
    }

    pub fn new(value: u32) -> (r: Self)
        ensures
            r.frames() == value,
    {
        BufferSize(value)
    }

    pub fn value(self) -> (r: u32)
        ensures
            r == self.frames(),
    {
        self.0
    }
}

impl Default for BufferSize {
    fn default() -> (r: Self)
        ensures
            r.frames() == 512,
    {
        BufferSize(512)
    }
}

} // verus!
