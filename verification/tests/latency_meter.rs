use tonism::audio::latency::{CaptureState, LatencyHandle, LatencyMeter, CAPTURE_LEN, IMPULSE_BITS};

fn make() -> (LatencyMeter, LatencyHandle) {
    let m = LatencyMeter::default();
    let h = m.handle();
    (m, h)
}

fn bits_of(v: &[f32]) -> Vec<u32> {
    v.iter().map(|s| s.to_bits()).collect()
}

fn floats_of(v: &[u32]) -> Vec<f32> {
    v.iter().map(|b| f32::from_bits(*b)).collect()
}

fn drive_n(meter: &mut LatencyMeter, buf_size: usize, value: f32, n: usize) {
    let mut buf = bits_of(&vec![value; buf_size]);
    for _ in 0..n {
        meter.process(&mut buf);
    }
}

#[test]
fn meter_idle_with_no_arm_passes_buffer_unchanged() {
    let (mut meter, h) = make();
    let mut buf = bits_of(&vec![0.5_f32; 64]);
    meter.process(&mut buf);
    assert!(floats_of(&buf).iter().all(|&s| (s - 0.5).abs() < 1e-9));
    assert_eq!(meter.write_index(), 0);
    assert_eq!(h.state(), CaptureState::Idle);
}

#[test]
fn meter_arm_transitions_idle_to_capturing() {
    let (mut meter, handle) = make();
    handle.request_measurement();
    let mut buf = bits_of(&vec![0.5_f32; 64]);
    meter.process(&mut buf);
    assert_eq!(handle.state(), CaptureState::Capturing);
    assert!(!meter.arm_requested());
}

#[test]
fn meter_emits_impulse_on_first_frame_of_capture_window() {
    let (mut meter, handle) = make();
    handle.request_measurement();
    let mut buf = bits_of(&vec![0.5_f32; 64]);
    meter.process(&mut buf);
    let out = floats_of(&buf);
    assert!((out[0] - 1.0).abs() < 1e-9, "buf[0] should be impulse 1.0, got {}", out[0]);
    for (i, &s) in out[1..].iter().enumerate() {
        assert!((s - 0.5).abs() < 1e-9, "buf[{i}] should be unchanged 0.5, got {s}");
    }
}

#[test]
fn meter_captures_input_before_overwriting() {
    let (mut meter, handle) = make();
    handle.request_measurement();
    let mut buf = bits_of(&vec![0.5_f32; 64]);
    meter.process(&mut buf);
    let mut captured = Vec::new();
    handle.read_capture_into(&mut captured);
    let captured_slot_0 = f32::from_bits(captured[0]);
    assert!(
        (captured_slot_0 - 0.5).abs() < 1e-9,
        "capture[0] should be original 0.5, got {captured_slot_0}"
    );
    let captured_slot_1 = f32::from_bits(captured[1]);
    assert!(
        (captured_slot_1 - 0.5).abs() < 1e-9,
        "capture[1] should be 0.5, got {captured_slot_1}"
    );
}

#[test]
fn meter_completes_after_capture_len_samples() {
    let (mut meter, handle) = make();
    handle.request_measurement();
    let mut buf = bits_of(&vec![0.0_f32; 256]);
    for _ in 0..16 {
        meter.process(&mut buf);
    }
    assert_eq!(handle.state(), CaptureState::Done);
}

#[test]
fn meter_arm_while_capturing_is_ignored() {
    let (mut meter, handle) = make();
    handle.request_measurement();
    let mut buf = bits_of(&vec![0.0_f32; 64]);
    meter.process(&mut buf);
    assert_eq!(handle.state(), CaptureState::Capturing);
    let idx_after_first = meter.write_index();
    handle.request_measurement();
    meter.process(&mut buf);
    assert_eq!(meter.write_index(), idx_after_first + 64);
    assert_eq!(handle.state(), CaptureState::Capturing);
}

#[test]
fn meter_cancel_during_capture_transitions_to_cancelled() {
    let (mut meter, handle) = make();
    handle.request_measurement();
    drive_n(&mut meter, 64, 0.0, 1);
    assert_eq!(handle.state(), CaptureState::Capturing);
    meter.cancel();
    assert_eq!(handle.state(), CaptureState::Cancelled);
}

#[test]
fn handle_request_measurement_sets_arm_request() {
    let (meter, handle) = make();
    assert!(!meter.arm_requested());
    handle.request_measurement();
    assert!(meter.arm_requested());
}

#[test]
fn handle_read_capture_into_copies_full_buffer_when_done() {
    let (mut meter, handle) = make();
    handle.request_measurement();
    let step = 1.0_f32 / CAPTURE_LEN as f32;
    let mut total_written = 0usize;
    let buf_size = 256usize;
    while total_written < CAPTURE_LEN {
        let end = (total_written + buf_size).min(CAPTURE_LEN);
        let mut buf: Vec<f32> = (total_written..end).map(|i| i as f32 * step).collect();
        buf.resize(buf_size, 0.0);
        let mut bits = bits_of(&buf);
        meter.process(&mut bits);
        total_written += buf_size;
    }
    assert_eq!(handle.state(), CaptureState::Done);
    let mut captured = Vec::with_capacity(CAPTURE_LEN);
    handle.read_capture_into(&mut captured);
    assert_eq!(captured.len(), CAPTURE_LEN);
    let mid = CAPTURE_LEN / 2;
    let expected = mid as f32 * step;
    let got = f32::from_bits(captured[mid]);
    assert!((got - expected).abs() < 1e-6, "captured[{mid}] = {got}, expected {expected}");
}

#[test]
fn handle_reset_to_idle_only_transitions_from_done_or_cancelled() {
    {
        let (_, handle) = make();
        assert_eq!(handle.state(), CaptureState::Idle);
        handle.reset_to_idle();
        assert_eq!(handle.state(), CaptureState::Idle);
    }
    {
        let (mut meter, handle) = make();
        handle.request_measurement();
        meter.process(&mut vec![0u32; 64]);
        assert_eq!(handle.state(), CaptureState::Capturing);
        handle.reset_to_idle();
        assert_eq!(handle.state(), CaptureState::Capturing);
    }
    {
        let (mut meter, handle) = make();
        handle.request_measurement();
        let mut buf = vec![0u32; 256];
        for _ in 0..16 {
            meter.process(&mut buf);
        }
        assert_eq!(handle.state(), CaptureState::Done);
        handle.reset_to_idle();
        assert_eq!(handle.state(), CaptureState::Idle);
    }
    {
        let (mut meter, handle) = make();
        handle.request_measurement();
        meter.process(&mut vec![0u32; 64]);
        meter.cancel();
        assert_eq!(handle.state(), CaptureState::Cancelled);
        handle.reset_to_idle();
        assert_eq!(handle.state(), CaptureState::Idle);
    }
}

#[test]
fn meter_alloc_free_steady_state() {
    let (mut meter, handle) = make();
    handle.request_measurement();
    let mut buf = bits_of(&vec![0.0_f32; 256]);
    for _ in 0..16 {
        meter.process(&mut buf);
    }
    assert_eq!(handle.state(), CaptureState::Done);
}

#[test]
fn capture_state_codes_round_trip() {
    for s in [
        CaptureState::Idle,
        CaptureState::Capturing,
        CaptureState::Done,
        CaptureState::Cancelled,
    ] {
        assert_eq!(CaptureState::from_u8(s.to_u8()), s);
    }
    assert_eq!(CaptureState::Done.to_u8(), 2);
    assert_eq!(CaptureState::from_u8(3), CaptureState::Cancelled);
    assert_eq!(CaptureState::from_u8(200), CaptureState::Idle);
}

#[test]
fn window_fills_across_uneven_buffers() {
    let (mut meter, handle) = make();
    handle.request_measurement();
    let mut a = vec![0u32; 1000];
    let mut b = vec![0u32; 3000];
    meter.process(&mut a);
    assert_eq!(meter.write_index(), 1000);
    assert_eq!(a[0], IMPULSE_BITS);
    meter.process(&mut b);
    assert_eq!(meter.write_index(), 4000);
    assert_eq!(b[0], 0);
    assert_eq!(handle.state(), CaptureState::Capturing);
    let mut c = vec![7u32; 500];
    meter.process(&mut c);
    assert_eq!(meter.write_index(), CAPTURE_LEN);
    assert_eq!(handle.state(), CaptureState::Done);
    assert!(c.iter().all(|&x| x == 7));
}

#[test]
fn cancel_outside_capture_is_noop_and_disarm_drops_request() {
    let (mut meter, handle) = make();
    meter.cancel();
    assert_eq!(handle.state(), CaptureState::Idle);
    handle.request_measurement();
    meter.disarm();
    let mut buf = vec![0u32; 16];
    meter.process(&mut buf);
    assert_eq!(handle.state(), CaptureState::Idle);
    assert_eq!(meter.write_index(), 0);
}

#[test]
fn reset_keeps_pending_arm_and_rearm_after_cancel() {
    let (mut meter, handle) = make();
    handle.request_measurement();
    meter.process(&mut vec![0u32; 64]);
    meter.cancel();
    handle.reset_to_idle();
    handle.request_measurement();
    meter.reset();
    assert_eq!(handle.state(), CaptureState::Idle);
    assert!(meter.arm_requested());
    let mut buf = vec![5u32; 8];
    meter.process(&mut buf);
    assert_eq!(handle.state(), CaptureState::Capturing);
    assert_eq!(buf[0], IMPULSE_BITS);
    let cloned = handle.clone();
    assert_eq!(cloned.state(), CaptureState::Capturing);
}

#[test]
fn pass_steps_follow_the_values_given() {
    let (mut meter, h) = make();
    // Not armed, or armed outside Idle: nothing starts.
    meter.start_if_armed(false, CaptureState::Idle);
    assert_eq!(h.state(), CaptureState::Idle);
    meter.start_if_armed(true, CaptureState::Done);
    assert_eq!(h.state(), CaptureState::Idle);
    // A capture step outside Capturing leaves buffer and cursor alone.
    let mut buf: Vec<u32> = vec![7, 8, 9];
    meter.capture_pass(CaptureState::Idle, &mut buf);
    assert_eq!(buf, vec![7, 8, 9]);
    assert_eq!(meter.write_index(), 0);
    // Armed in Idle: the window starts; the capture step emits the impulse
    // and captures the inbound samples.
    meter.start_if_armed(true, CaptureState::Idle);
    assert_eq!(h.state(), CaptureState::Capturing);
    meter.capture_pass(CaptureState::Capturing, &mut buf);
    assert_eq!(buf, vec![IMPULSE_BITS, 8, 9]);
    assert_eq!(meter.write_index(), 3);
    let mut out = Vec::new();
    h.read_capture_into(&mut out);
    assert_eq!(&out[..4], &[7, 8, 9, 0]);
    // Filling the rest of the window stores Done.
    let mut rest = vec![1u32; CAPTURE_LEN];
    meter.capture_pass(CaptureState::Capturing, &mut rest);
    assert_eq!(meter.write_index(), CAPTURE_LEN);
    assert_eq!(h.state(), CaptureState::Done);
    assert!(rest[CAPTURE_LEN - 3..].iter().all(|&b| b == 1));
}

#[test]
fn apply_cancel_only_moves_capturing() {
    let (mut meter, h) = make();
    meter.apply_cancel(CaptureState::Idle);
    assert_eq!(h.state(), CaptureState::Idle);
    meter.apply_cancel(CaptureState::Capturing);
    assert_eq!(h.state(), CaptureState::Cancelled);
}
