//! Decisions behind the device-picker and latency panels: labels, how a
//! selection survives a change of the offered lists, and what the latency
//! readout does on each frame.
use vstd::prelude::*;

use crate::audio::latency::CaptureState;
use crate::device::{
    available_sizes, common_rates, compute_available_buffer_sizes, compute_common_sample_rates,
    DeviceInfo, FALLBACK_SAMPLE_RATE,
};

verus! {

/// The decimal digit character for `d` (0..=9).
pub open spec fn digit_char(d: int) -> char {
    (48 + d) as char
}

/// Decimal representation of `n`, most significant digit first, no leading
/// zeros ("0" for zero).
pub open spec fn decimal(n: nat) -> Seq<char>
    decreases n,
{
    if n < 10 {
        seq![digit_char(n as int)]
    } else {
        decimal(n / 10).push(digit_char((n % 10) as int))
    }
}

/// The one-character string of a decimal digit.
fn digit_str(d: u32) -> (r: &'static str)
    requires
        d < 10,
    ensures
        r@ == seq![digit_char(d as int)],
{
    proof {
        reveal_strlit("0");
        reveal_strlit("1");
        reveal_strlit("2");
        reveal_strlit("3");
        reveal_strlit("4");
        reveal_strlit("5");
        reveal_strlit("6");
        reveal_strlit("7");
        reveal_strlit("8");
        reveal_strlit("9");
    }
    let r = match d {
        0 => "0",
        1 => "1",
        2 => "2",
        3 => "3",
        4 => "4",
        5 => "5",
        6 => "6",
        7 => "7",
        8 => "8",
        _ => "9",
    };
    assert(r@ =~= seq![digit_char(d as int)]);
    r
}

/// Append the decimal representation of `n` to `s`.
fn push_decimal(s: &mut String, n: u32)
    ensures
        final(s)@ == old(s)@ + decimal(n as nat),
    decreases n,
{
    if n >= 10 {
        push_decimal(s, n / 10);
    }
    let d = digit_str(n % 10);
    s.append(d);
    assert(final(s)@ =~= old(s)@ + decimal(n as nat));
}

/// What the buffer-size picker shows for a choice.
pub open spec fn buffer_size_text(bs: Option<u32>) -> Seq<char> {
    match bs {
        None => "Default"@,
        Some(n) => decimal(n as nat),
    }
}

/// Label of a buffer-size choice: "Default" for the backend's default, the
/// frame count in decimal otherwise.
pub fn buffer_size_label(bs: Option<u32>) -> (r: String)
    ensures
        r@ == buffer_size_text(bs),
{
    match bs {
        None => String::from_str("Default"),
        Some(n) => {
            let mut s = String::new();
            push_decimal(&mut s, n);
            assert(s@ =~= decimal(n as nat));
            s
        },
    }
}

/// Index of the first element equal to `x`, if any.
pub open spec fn first_index<T>(list: Seq<T>, x: T) -> Option<int> {
    if list.contains(x) {
        Some(choose|i: int| 0 <= i < list.len() && list[i] == x && forall|j: int| 0 <= j < i ==> list[j] != x)
    } else {
        None
    }
}

/// Index the picker keeps after its list changes from `old` to `new`: the
/// position in `new` of the previously selected value (`old[old_idx]`), or
/// 0 when there was no selection or `new` lacks that value.
pub open spec fn kept_index<T>(old: Seq<T>, old_idx: int, new: Seq<T>) -> int {
    if 0 <= old_idx < old.len() && new.contains(old[old_idx]) {
        first_index(new, old[old_idx])->0
    } else {
        0
    }
}

proof fn lemma_first_index<T>(list: Seq<T>, x: T, i: int)
    requires
        0 <= i < list.len(),
        list[i] == x,
        forall|j: int| 0 <= j < i ==> list[j] != x,
    ensures
        first_index(list, x) == Some(i),
{
    assert(list.contains(x));
    let k = choose|k: int| 0 <= k < list.len() && list[k] == x && forall|j: int| 0 <= j < k ==> list[j] != x;
    if k < i {
        assert(list[k] != x);
    } else if i < k {
        assert(list[i] != x);
    }
}

/// Position of `x` in `list`, if it occurs (first occurrence).
pub fn position_of_rate(list: &[u32], x: u32) -> (r: Option<usize>)
    ensures
        match r {
            Some(i) => first_index(list@, x) == Some(i as int),
            None => first_index(list@, x) == None::<int>,
        },
{
    let mut i: usize = 0;
    while i < list.len()
        invariant
            i <= list@.len(),
            forall|j: int| 0 <= j < i ==> list@[j] != x,
        decreases list@.len() - i,
    {
        if list[i] == x {
            proof {
                lemma_first_index(list@, x, i as int);
            }
            return Some(i);
        }
        i = i + 1;
    }
    None
}

/// Position of the buffer-size choice `x` in `list`, if it occurs (first
/// occurrence).
pub fn position_of_buffer_size(list: &[Option<u32>], x: Option<u32>) -> (r: Option<usize>)
    ensures
        match r {
            Some(i) => first_index(list@, x) == Some(i as int),
            None => first_index(list@, x) == None::<int>,
        },
{
    let mut i: usize = 0;
    while i < list.len()
        invariant
            i <= list@.len(),
            forall|j: int| 0 <= j < i ==> list@[j] != x,
        decreases list@.len() - i,
    {
        let same = match (list[i], x) {
            (None, None) => true,
            (Some(a), Some(b)) => a == b,
            _ => false,
        };
        if same {
            proof {
                lemma_first_index(list@, x, i as int);
            }
            return Some(i);
        }
        i = i + 1;
    }
    None
}

/// Keep the selected sample rate across a change of the offered rates.
pub fn keep_selected_rate(old: &[u32], old_idx: usize, new: &[u32]) -> (r: usize)
    ensures
        r == kept_index(old@, old_idx as int, new@),
{
    if old_idx < old.len() {
        match position_of_rate(new, old[old_idx]) {
            Some(i) => i,
            None => 0,
        }
    } else {
        0
    }
}

/// Keep the selected buffer size across a change of the offered sizes.
pub fn keep_selected_buffer_size(old: &[Option<u32>], old_idx: usize, new: &[Option<u32>]) -> (r: usize)
    ensures
        r == kept_index(old@, old_idx as int, new@),
{
    if old_idx < old.len() {
        match position_of_buffer_size(new, old[old_idx]) {
            Some(i) => i,
            None => 0,
        }
    } else {
        0
    }
}

/// What the latency readout does on a frame, given the meter's state.
#[derive(Clone, Copy, Debug, PartialEq, Eq, Structural)]
pub enum LatencyAction {
    /// Leave the readout as it is (the last result stays visible).
    Keep,
    /// Show that a measurement is in flight.
    ShowMeasuring,
    /// Read the capture, estimate the latency, show it, and reset the meter.
    EvaluateAndReset,
    /// Show that the measurement was cancelled, and reset the meter.
    ShowCancelledAndReset,
}

/// The readout's response to each meter state.
pub open spec fn latency_action_for(state: CaptureState) -> LatencyAction {
    match state {
        CaptureState::Idle => LatencyAction::Keep,
        CaptureState::Capturing => LatencyAction::ShowMeasuring,
        CaptureState::Done => LatencyAction::EvaluateAndReset,
        CaptureState::Cancelled => LatencyAction::ShowCancelledAndReset,
    }
}

/// Decide what the latency readout does this frame.
pub fn latency_action(state: CaptureState) -> (r: LatencyAction)
    ensures
        r == latency_action_for(state),
{
    match state {
        CaptureState::Idle => LatencyAction::Keep,
        CaptureState::Capturing => LatencyAction::ShowMeasuring,
        CaptureState::Done => LatencyAction::EvaluateAndReset,
        CaptureState::Cancelled => LatencyAction::ShowCancelledAndReset,
    }
}

/// Sample-rate and buffer-size lists offered by the device picker, with the
/// selected entry of each.
pub struct RatePicker {
    pub available_sample_rates: Vec<u32>,
    pub selected_sr_idx: usize,
    pub available_buffer_sizes: Vec<Option<u32>>,
    pub selected_buf_idx: usize,
}

/// Index of `x` in `list`, or 0 when absent.
pub open spec fn index_or_zero<T>(list: Seq<T>, x: T) -> int {
    match first_index(list, x) {
        Some(i) => i,
        None => 0,
    }
}

/// Both device lists are non-empty and the selected indices lie within them.
pub open spec fn selection_valid(
    inputs: Seq<DeviceInfo>,
    outputs: Seq<DeviceInfo>,
    in_idx: int,
    out_idx: int,
) -> bool {
    0 <= in_idx < inputs.len() && 0 <= out_idx < outputs.len()
}

impl RatePicker {
    /// Lists for the initially selected devices: their common rates and the
    /// buffer sizes both accept, selecting the initial rate and size where
    /// offered (index 0 otherwise).  With no devices on either side, the
    /// lists hold just the initial rate and "Default".
    pub fn new(
        inputs: &[DeviceInfo],
        outputs: &[DeviceInfo],
        in_idx: usize,
        out_idx: usize,
        initial_sr: u32,
        initial_buf: Option<u32>,
    ) -> (r: Self)
        requires
            inputs@.len() > 0 && outputs@.len() > 0 ==> selection_valid(
                inputs@,
                outputs@,
                in_idx as int,
                out_idx as int,
            ),
        ensures
            r.available_sample_rates@ == if inputs@.len() > 0 && outputs@.len() > 0 {
                common_rates(
                    inputs@[in_idx as int].supported_sample_rates@,
                    outputs@[out_idx as int].supported_sample_rates@,
                )
            } else {
                seq![initial_sr]
            },
            r.available_buffer_sizes@ == if inputs@.len() > 0 && outputs@.len() > 0 {
                available_sizes(
                    inputs@[in_idx as int].buffer_size_range,
                    outputs@[out_idx as int].buffer_size_range,
                )
            } else {
                seq![None]
            },
            r.selected_sr_idx == index_or_zero(r.available_sample_rates@, initial_sr),
            r.selected_buf_idx == index_or_zero(r.available_buffer_sizes@, initial_buf),
    {
        let both = inputs.len() > 0 && outputs.len() > 0;
        let rates = if both {
            compute_common_sample_rates(&inputs[in_idx], &outputs[out_idx])
        } else {
            let v = vec![initial_sr];
            assert(v@ =~= seq![initial_sr]);
            v
        };
        let sr_idx = match position_of_rate(rates.as_slice(), initial_sr) {
            Some(i) => i,
            None => 0,
        };
        let sizes = if both {
            compute_available_buffer_sizes(&inputs[in_idx], &outputs[out_idx])
        } else {
            let v: Vec<Option<u32>> = vec![None];
            assert(v@ =~= seq![None]);
            v
        };
        let buf_idx = match position_of_buffer_size(sizes.as_slice(), initial_buf) {
            Some(i) => i,
            None => 0,
        };
        RatePicker {
            available_sample_rates: rates,
            selected_sr_idx: sr_idx,
            available_buffer_sizes: sizes,
            selected_buf_idx: buf_idx,
        }
    }

    /// Recompute both lists after the device selection changed, keeping the
    /// selected rate and size where the new lists still offer them.  Nothing
    /// changes while either device list is empty.
    pub fn recompute(
        &mut self,
        inputs: &[DeviceInfo],
        outputs: &[DeviceInfo],
        in_idx: usize,
        out_idx: usize,
    )
        requires
            inputs@.len() > 0 && outputs@.len() > 0 ==> selection_valid(
                inputs@,
                outputs@,
                in_idx as int,
                out_idx as int,
            ),
        ensures
            if inputs@.len() > 0 && outputs@.len() > 0 {
                &&& final(self).available_sample_rates@ == common_rates(
                    inputs@[in_idx as int].supported_sample_rates@,
                    outputs@[out_idx as int].supported_sample_rates@,
                )
                &&& final(self).selected_sr_idx == kept_index(
                    old(self).available_sample_rates@,
                    old(self).selected_sr_idx as int,
                    final(self).available_sample_rates@,
                )
                &&& final(self).available_buffer_sizes@ == available_sizes(
                    inputs@[in_idx as int].buffer_size_range,
                    outputs@[out_idx as int].buffer_size_range,
                )
                &&& final(self).selected_buf_idx == kept_index(
                    old(self).available_buffer_sizes@,
                    old(self).selected_buf_idx as int,
                    final(self).available_buffer_sizes@,
                )
            } else {
                *final(self) == *old(self)
            },
    {
        if inputs.len() == 0 || outputs.len() == 0 {
            return ;
        }
        let new_rates = compute_common_sample_rates(&inputs[in_idx], &outputs[out_idx]);
        let sr_idx = keep_selected_rate(
            self.available_sample_rates.as_slice(),
            self.selected_sr_idx,
            new_rates.as_slice(),
        );
        self.available_sample_rates = new_rates;
        self.selected_sr_idx = sr_idx;
        let new_sizes = compute_available_buffer_sizes(&inputs[in_idx], &outputs[out_idx]);
        let buf_idx = keep_selected_buffer_size(
            self.available_buffer_sizes.as_slice(),
            self.selected_buf_idx,
            new_sizes.as_slice(),
        );
        self.available_buffer_sizes = new_sizes;
        self.selected_buf_idx = buf_idx;
    }

    /// The selected sample rate, or 48000 when the selection is out of range.
    pub fn selected_sample_rate(&self) -> (r: u32)
        ensures
            r == if self.selected_sr_idx < self.available_sample_rates@.len() {
                self.available_sample_rates@[self.selected_sr_idx as int]
            } else {
                FALLBACK_SAMPLE_RATE
            },
    {
        if self.selected_sr_idx < self.available_sample_rates.len() {
            self.available_sample_rates[self.selected_sr_idx]
        } else {
            FALLBACK_SAMPLE_RATE
        }
    }

    /// The selected buffer size, or `None` (Default) when the selection is out
    /// of range.
    pub fn selected_buffer_size(&self) -> (r: Option<u32>)
        ensures
            r == if self.selected_buf_idx < self.available_buffer_sizes@.len() {
                self.available_buffer_sizes@[self.selected_buf_idx as int]
            } else {
                None
            },
    {
        if self.selected_buf_idx < self.available_buffer_sizes.len() {
            self.available_buffer_sizes[self.selected_buf_idx]
        } else {
            None
        }
    }
}

/// Identity string of the selected device, if the selection is in range.
pub fn selected_device_id(list: &[DeviceInfo], idx: usize) -> (r: Option<String>)
    ensures
        match r {
            Some(s) => idx < list@.len() && s@ == list@[idx as int].id_string@,
            None => idx >= list@.len(),
        },
{
    if idx < list.len() {
        Some(list[idx].id_string.clone())
    } else {
        None
    }
}

} // verus!
