use tonism::domain::buffer::{deinterleave_channel, interleave_channel};

#[test]
fn deinterleave_stereo_ch0() {
    let interleaved = [1.0, 2.0, 3.0, 4.0, 5.0, 6.0];
    let mut out = [0.0f32; 3];
    deinterleave_channel(&interleaved, 0, 2, &mut out);
    assert_eq!(out, [1.0, 3.0, 5.0]);
}

#[test]
fn deinterleave_stereo_ch1() {
    let interleaved = [1.0, 2.0, 3.0, 4.0, 5.0, 6.0];
    let mut out = [0.0f32; 3];
    deinterleave_channel(&interleaved, 1, 2, &mut out);
    assert_eq!(out, [2.0, 4.0, 6.0]);
}

#[test]
fn interleave_round_trips() {
    let original = [1.0, 2.0, 3.0, 4.0, 5.0, 6.0];
    let mut out = [0.0f32; 3];
    deinterleave_channel(&original, 0, 2, &mut out);
    for s in out.iter_mut() {
        *s *= 2.0;
    }
    let mut result = original;
    interleave_channel(&mut result, 0, 2, &out);
    assert_eq!(result, [2.0, 2.0, 6.0, 4.0, 10.0, 6.0]);
}

#[test]
fn mono_deinterleave_is_copy() {
    let interleaved = [1.0, 2.0, 3.0];
    let mut out = [0.0f32; 3];
    deinterleave_channel(&interleaved, 0, 1, &mut out);
    assert_eq!(out, [1.0, 2.0, 3.0]);
}

#[test]
fn empty_buffer_no_panic() {
    let interleaved: [f32; 0] = [];
    let mut out: [f32; 0] = [];
    deinterleave_channel(&interleaved, 0, 2, &mut out);
    interleave_channel::<f32>(&mut [], 0, 2, &[]);
}

#[test]
fn partial_frame_and_longer_out_are_left_alone() {
    let interleaved = [1u32, 2, 3, 4, 5, 6, 7];
    let mut out = [9u32; 5];
    deinterleave_channel(&interleaved, 2, 3, &mut out);
    assert_eq!(out, [3, 6, 9, 9, 9]);
    let mut buf = [0u32; 7];
    interleave_channel(&mut buf, 1, 3, &[11, 22, 33]);
    assert_eq!(buf, [0, 11, 0, 0, 22, 0, 0]);
}

#[test]
fn lane_round_trip_leaves_other_lane_alone() {
    let channels: usize = 2;
    let frames: usize = 300;
    let mut interleaved = vec![0.0_f32; frames * channels];
    for i in 0..frames {
        interleaved[i * channels] = i as f32;
        interleaved[i * channels + 1] = 0.5;
    }
    let original = interleaved.clone();
    let mut scratch = vec![0.0_f32; frames];
    deinterleave_channel(&interleaved, 0, channels, &mut scratch);
    interleave_channel(&mut interleaved, 0, channels, &scratch);
    assert_eq!(interleaved, original);
}
