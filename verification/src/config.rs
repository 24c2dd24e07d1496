//! Persisted device selection.
use vstd::prelude::*;

verus! {

/// Saved device selection: identity strings of the input and output
/// devices, sample rate and buffer size.  `None` means "no selection".
#[derive(Clone, Debug)]
pub struct TonismConfig {
    pub input_device_id: Option<String>,
    pub output_device_id: Option<String>,
    pub sample_rate: Option<u32>,
    pub buffer_size: Option<u32>,
}

impl Default for TonismConfig {
    /// No selections at all.
    fn default() -> (r: Self)
        ensures
            r.input_device_id is None,
            r.output_device_id is None,
            r.sample_rate is None,
            r.buffer_size is None,
    {
        TonismConfig {
            input_device_id: None,
            output_device_id: None,
            sample_rate: None,
            buffer_size: None,
        }
    }
}

impl TonismConfig {
    /// Record an applied device selection: both device identities (as they
    /// could be read), the sample rate and the buffer size.
    pub fn record_selection(
        &mut self,
        input_device_id: Option<String>,
        output_device_id: Option<String>,
        sample_rate: u32,
        buffer_size: Option<u32>,
    )
        ensures
            final(self).input_device_id == input_device_id,
            final(self).output_device_id == output_device_id,
            final(self).sample_rate == Some(sample_rate),
            final(self).buffer_size == buffer_size,
    {
        self.input_device_id = input_device_id;
        self.output_device_id = output_device_id;
        self.sample_rate = Some(sample_rate);
        self.buffer_size = buffer_size;
    }
}

} // verus!
