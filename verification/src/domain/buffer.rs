//! Pure buffer utilities for interleaved audio data: copy one channel lane
//! out of an interleaved buffer, and write it back.  Generic over the sample
//! type.
use vstd::prelude::*;
use vstd::arithmetic::div_mod::{lemma_fundamental_div_mod, lemma_fundamental_div_mod_converse};

verus! {

/// Number of whole frames in an interleaved buffer of `len` samples.
pub open spec fn frame_count(len: int, channels: int) -> int {
    len / channels
}

/// `j` is a sample of lane `channel` within the first `n_frames` frames.
pub open spec fn in_lane(j: int, channel: int, channels: int, n_frames: int) -> bool {
    j % channels == channel && j / channels < n_frames
}

/// `out` after copying lane `channel` of `interleaved` into its first frames.
pub open spec fn deinterleaved<T>(interleaved: Seq<T>, channel: int, channels: int, out: Seq<T>) -> Seq<T> {
    Seq::new(
        out.len(),
        |i: int|
            if i < frame_count(interleaved.len() as int, channels) {
                interleaved[i * channels + channel]
            } else {
                out[i]
            },
    )
}

/// `interleaved` after writing `source` into lane `channel`.
pub open spec fn interleaved_with<T>(interleaved: Seq<T>, channel: int, channels: int, source: Seq<T>) -> Seq<T> {
    Seq::new(
        interleaved.len(),
        |j: int|
            if in_lane(j, channel, channels, frame_count(interleaved.len() as int, channels)) {
                source[j / channels]
            } else {
                interleaved[j]
            },
    )
}

proof fn lemma_lane_position(i: int, channel: int, channels: int, n_frames: int, len: int)
    requires
        0 <= channel < channels,
        0 <= i < n_frames,
        n_frames == len / channels,
        len >= 0,
    ensures
        0 <= i * channels + channel < len,
        (i * channels + channel) % channels == channel,
        (i * channels + channel) / channels == i,
{
    lemma_fundamental_div_mod(len, channels);
    vstd::arithmetic::div_mod::lemma_mod_bound(len, channels);
    assert(0 <= i * channels + channel < len) by (nonlinear_arith)
        requires
            0 <= i < n_frames,
            0 <= channel < channels,
            len == channels * n_frames + len % channels,
            0 <= len % channels,
    ;
    lemma_fundamental_div_mod_converse(i * channels + channel, channels, i, channel);
}

/// Copy lane `channel` of `interleaved` (with `channels` samples per frame)
/// into `out[0..n_frames]`, where `n_frames = interleaved.len() / channels`.
/// The rest of `out` is left as it was.
pub fn deinterleave_channel<T: Copy>(interleaved: &[T], channel: usize, channels: usize, out: &mut [T])
    requires
        channel < channels,
        old(out)@.len() >= (interleaved@.len() as int) / (channels as int),
    ensures
        final(out)@ == deinterleaved(interleaved@, channel as int, channels as int, old(out)@),
{
    let total = interleaved.len();
    let n_frames = total / channels;
    let ghost o = out@;
    let mut i: usize = 0;
    while i < n_frames
        invariant
            channel < channels,
            total == interleaved@.len(),
            n_frames == (interleaved@.len() as int) / (channels as int),
            n_frames <= out@.len(),
            i <= n_frames,
            out@.len() == o.len(),
            forall|k: int|
                0 <= k < out@.len() ==> #[trigger] out@[k] == if k < i {
                    interleaved@[k * channels + channel]
                } else {
                    o[k]
                },
        decreases n_frames - i,
    {
        proof {
            lemma_lane_position(
                i as int,
                channel as int,
                channels as int,
                n_frames as int,
                interleaved@.len() as int,
            );
        }
        out[i] = interleaved[i * channels + channel];
        i = i + 1;
    }
    assert(out@ =~= deinterleaved(interleaved@, channel as int, channels as int, o));
}

/// Write `source[0..n_frames]` into lane `channel` of `interleaved`, where
/// `n_frames = interleaved.len() / channels`.  Samples outside that lane are
/// left as they were.
pub fn interleave_channel<T: Copy>(interleaved: &mut [T], channel: usize, channels: usize, source: &[T])
    requires
        channel < channels,
        source@.len() >= (old(interleaved)@.len() as int) / (channels as int),
    ensures
        final(interleaved)@ == interleaved_with(
            old(interleaved)@,
            channel as int,
            channels as int,
            source@,
        ),
{
    let total = interleaved.len();
    let n_frames = total / channels;
    let ghost o = interleaved@;
    let ghost len = o.len() as int;
    let mut i: usize = 0;
    while i < n_frames
        invariant
            channel < channels,
            n_frames == len / (channels as int),
            len == o.len(),
            total == len,
            n_frames <= source@.len(),
            i <= n_frames,
            interleaved@.len() == o.len(),
            forall|j: int|
                0 <= j < len ==> #[trigger] interleaved@[j] == if in_lane(
                    j,
                    channel as int,
                    channels as int,
                    i as int,
                ) {
                    source@[j / (channels as int)]
                } else {
                    o[j]
                },
        decreases n_frames - i,
    {
        proof {
            lemma_lane_position(i as int, channel as int, channels as int, n_frames as int, len);
        }
        let k = i * channels + channel;
        interleaved[k] = source[i];
        proof {
            assert forall|j: int|
                0 <= j < len && j != k && #[trigger] (j % (channels as int)) == channel as int
                    && j / (channels as int) == i as int implies false by {
                lemma_fundamental_div_mod(j, channels as int);
                vstd::arithmetic::mul::lemma_mul_is_commutative(channels as int, i as int);
            }
        }
        i = i + 1;
    }
    assert(interleaved@ =~= interleaved_with(o, channel as int, channels as int, source@));
}

/// Copying a lane out and writing it straight back leaves the buffer as it was.
pub proof fn lemma_interleave_round_trip<T>(
    interleaved: Seq<T>,
    channel: int,
    channels: int,
    out: Seq<T>,
)
    requires
        0 <= channel < channels,
        out.len() >= (interleaved.len() as int) / channels,
    ensures
        interleaved_with(
            interleaved,
            channel,
            channels,
            deinterleaved(interleaved, channel, channels, out),
        ) == interleaved,
{
    let d = deinterleaved(interleaved, channel, channels, out);
    let r = interleaved_with(interleaved, channel, channels, d);
    assert forall|j: int| 0 <= j < interleaved.len() implies r[j] == interleaved[j] by {
        if in_lane(j, channel, channels, frame_count(interleaved.len() as int, channels)) {
            lemma_fundamental_div_mod(j, channels);
            assert(j / channels >= 0) by {
                vstd::arithmetic::div_mod::lemma_div_pos_is_pos(j, channels);
            }
            assert((j / channels) * channels + channel == j) by {
                vstd::arithmetic::mul::lemma_mul_is_commutative(channels, j / channels);
            }
        }
    }
    assert(r =~= interleaved);
}

} // verus!
