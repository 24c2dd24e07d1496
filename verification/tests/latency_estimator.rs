use tonism::audio::latency::{LatencyMeter, CAPTURE_LEN, IMPULSE_INTERVAL, N_IMPULSES};
use tonism::domain::buffer::{deinterleave_channel, interleave_channel};
use tonism::domain::error::DomainError;
use tonism::domain::latency::{measure_latency_lag, DEFAULT_MIN_LAG_SAMPLES};

fn bits_of(v: &[f32]) -> Vec<u32> {
    v.iter().map(|s| s.to_bits()).collect()
}

fn round_to_1dp(x: f32) -> f32 {
    (x * 10.0).round() / 10.0
}

fn lag_to_ms(lag: usize, sr: f32) -> f32 {
    round_to_1dp((lag as f32 / sr) * 1000.0)
}

fn build_multi_impulse_loopback(n_impulses: usize, chunk_len: usize, delay: usize) -> Vec<f32> {
    let mut v = vec![0.0_f32; n_impulses * chunk_len];
    for k in 0..n_impulses {
        v[k * chunk_len + delay] = 1.0;
    }
    v
}

#[test]
fn measure_latency_recovers_synthetic_delay_at_boundary_rates() {
    let delays: &[usize] = &[32, 256, 512];
    let sample_rates: &[f32] = &[44_100.0, 48_000.0, 88_200.0, 96_000.0];
    for &delay in delays {
        for &sr in sample_rates {
            let loopback = bits_of(&build_multi_impulse_loopback(4, 2048, delay));
            let result = measure_latency_lag(&loopback, 4, 0, 0);
            assert!(result.is_ok(), "expected Ok for delay={delay} sr={sr}, got {result:?}");
            let lag = result.unwrap();
            assert_eq!(lag, delay);
            let expected = round_to_1dp((delay as f32 / sr) * 1000.0);
            assert_eq!(lag_to_ms(lag, sr), expected);
        }
    }
}

#[test]
fn silent_loopback_returns_no_peak() {
    let loopback = bits_of(&vec![0.0_f32; 8192]);
    let result = measure_latency_lag(&loopback, 4, 16, 0);
    assert!(matches!(result, Err(DomainError::LatencyNoPeak)), "got {result:?}");
}

#[test]
fn loopback_shorter_than_min_lag_returns_too_short() {
    let loopback = bits_of(&vec![0.0_f32; 64]);
    let result = measure_latency_lag(&loopback, 4, 100, 0);
    assert!(matches!(result, Err(DomainError::LoopbackTooShort)), "got {result:?}");
}

#[test]
fn three_of_four_chunks_agreeing_accepts_majority() {
    let chunk_len = 1024;
    let n_impulses = 4;
    let mut loopback = vec![0.0_f32; n_impulses * chunk_len];
    loopback[100] = 1.0;
    loopback[chunk_len + 800] = 1.0;
    loopback[2 * chunk_len + 800] = 1.0;
    loopback[3 * chunk_len + 800] = 1.0;
    let result = measure_latency_lag(&bits_of(&loopback), n_impulses, 0, 0);
    assert!(result.is_ok(), "expected Ok with 3-of-4 majority, got {result:?}");
    let lag = result.unwrap();
    assert_eq!(lag, 800);
    assert_eq!(lag_to_ms(lag, 48_000.0), round_to_1dp((800.0_f32 / 48_000.0) * 1000.0));
}

#[test]
fn split_chunk_measurements_return_no_peak() {
    let chunk_len = 1024;
    let n_impulses = 4;
    let mut loopback = vec![0.0_f32; n_impulses * chunk_len];
    loopback[100] = 1.0;
    loopback[chunk_len + 100] = 1.0;
    loopback[2 * chunk_len + 800] = 1.0;
    loopback[3 * chunk_len + 800] = 1.0;
    let result = measure_latency_lag(&bits_of(&loopback), n_impulses, 0, 0);
    assert!(matches!(result, Err(DomainError::LatencyNoPeak)), "got {result:?}");
}

#[test]
fn ring_latency_subtracted_from_result() {
    let delay = 7200usize;
    let ring = 7000usize;
    let loopback = bits_of(&build_multi_impulse_loopback(4, 8192, delay));
    let result = measure_latency_lag(&loopback, 4, 0, ring);
    assert!(result.is_ok(), "expected Ok, got {result:?}");
    let lag = result.unwrap();
    assert_eq!(lag, delay - ring);
    assert_eq!(
        lag_to_ms(lag, 48_000.0),
        round_to_1dp(((delay - ring) as f32 / 48_000.0) * 1000.0)
    );
}

#[test]
fn ring_latency_saturates_to_zero() {
    let loopback = bits_of(&build_multi_impulse_loopback(4, 8192, 100));
    let result = measure_latency_lag(&loopback, 4, 0, 7000);
    assert!(result.is_ok(), "expected Ok, got {result:?}");
    assert_eq!(lag_to_ms(result.unwrap(), 48_000.0), 0.0);
}

#[test]
fn impulse_count_out_of_range_is_too_short() {
    let loopback = bits_of(&build_multi_impulse_loopback(4, 1024, 100));
    assert_eq!(measure_latency_lag(&loopback, 0, 0, 0), Err(DomainError::LoopbackTooShort));
    assert_eq!(measure_latency_lag(&loopback, 9, 0, 0), Err(DomainError::LoopbackTooShort));
    assert_eq!(measure_latency_lag(&loopback, 8, 0, 0), Err(DomainError::LatencyNoPeak));
}

#[test]
fn negative_samples_and_nan_are_handled_like_floats() {
    let mut loopback = vec![0.0_f32; 1024];
    loopback[300] = 0.5;
    loopback[400] = -0.9;
    loopback[500] = f32::NAN;
    loopback[600] = 0.9;
    let result = measure_latency_lag(&bits_of(&loopback), 1, 0, 0);
    assert_eq!(result, Ok(400));
    let mut quiet = vec![0.0_f32; 1024];
    quiet[10] = 5e-7;
    quiet[20] = f32::NAN;
    assert_eq!(measure_latency_lag(&bits_of(&quiet), 1, 0, 0), Err(DomainError::LatencyNoPeak));
    quiet[30] = -1e-6;
    assert_eq!(measure_latency_lag(&bits_of(&quiet), 1, 0, 0), Ok(30));
    let mut inf = vec![0.0_f32; 64];
    inf[40] = f32::INFINITY;
    assert_eq!(measure_latency_lag(&bits_of(&inf), 1, 16, 0), Ok(40));
}

#[test]
fn min_lag_hides_early_peaks() {
    let mut loopback = vec![0.0_f32; 256];
    loopback[3] = 1.0;
    loopback[100] = 0.5;
    assert_eq!(measure_latency_lag(&bits_of(&loopback), 1, 16, 0), Ok(100));
    assert_eq!(measure_latency_lag(&bits_of(&loopback), 1, 0, 0), Ok(3));
}

#[test]
fn single_outlier_among_five_chunks_is_tolerated() {
    let chunk_len = 512;
    let mut loopback = vec![0.0_f32; 5 * chunk_len];
    for k in 0..5 {
        let lag = if k == 2 { 40 } else { 300 };
        loopback[k * chunk_len + lag] = 1.0;
    }
    assert_eq!(measure_latency_lag(&bits_of(&loopback), 5, 16, 100), Ok(200));
}

#[test]
fn even_chunk_count_uses_mean_of_middle_lags() {
    let chunk_len = 1024;
    let mut loopback = vec![0.0_f32; 2 * chunk_len];
    loopback[100] = 1.0;
    loopback[chunk_len + 103] = 1.0;
    assert_eq!(measure_latency_lag(&bits_of(&loopback), 2, 0, 0), Ok(101));
}

/// The meter's capture window analysed as one chunk recovers a synthetic
/// echo delay (the loopback sample at `delay` is captured at slot `delay`).
fn drive_meter_over(input: &[f32], buf_size: usize) -> (LatencyMeter, Vec<u32>) {
    let mut meter = LatencyMeter::default();
    let handle = meter.handle();
    handle.request_measurement();
    meter.reset();
    let bits = bits_of(input);
    for chunk in bits.chunks(buf_size) {
        let mut work = chunk.to_vec();
        meter.process(&mut work);
    }
    let mut captured = Vec::with_capacity(CAPTURE_LEN);
    handle.read_capture_into(&mut captured);
    (meter, captured)
}

#[test]
fn round_trip_with_synthetic_delay_via_buffer_backend() {
    let delay: usize = 256;
    for &bs in &[32u32, 64, 128, 256, 512, 1024, 2048] {
        let total = CAPTURE_LEN + 1024;
        let mut input = vec![0.0_f32; total];
        for k in 0..N_IMPULSES {
            input[k * IMPULSE_INTERVAL + delay] = 1.0;
        }
        let (meter, captured) = drive_meter_over(&input, bs as usize);
        assert_eq!(meter.handle().state() as u8, 2, "buffer_size {bs}: expected Done");
        assert_eq!(captured.len(), CAPTURE_LEN, "buffer_size {bs}: captured len mismatch");
        let result = measure_latency_lag(&captured, N_IMPULSES, 0, 0);
        assert!(result.is_ok(), "buffer_size {bs}: measure_latency failed: {result:?}");
        let ms = lag_to_ms(result.unwrap(), 48_000.0);
        let expected = ((delay as f32 / 48_000.0) * 1000.0 * 10.0).round() / 10.0;
        assert_eq!(ms, expected, "buffer_size {bs}: recovered {ms} ms, expected {expected} ms");
    }
}

#[test]
fn silent_loopback_yields_no_signal() {
    let input = vec![0.0_f32; CAPTURE_LEN + 256];
    let (_, captured) = drive_meter_over(&input, 128);
    let result = measure_latency_lag(&captured, N_IMPULSES, DEFAULT_MIN_LAG_SAMPLES, 0);
    assert!(matches!(result, Err(DomainError::LatencyNoPeak)), "got {result:?}");
}

#[test]
fn ring_loopback_within_chunk() {
    let ring_delay: usize = 2000;
    let hw_delay: usize = 500;
    let total_delay = ring_delay + hw_delay;
    let buf_size: usize = 256;
    let mut delay_line = std::collections::VecDeque::new();
    for _ in 0..total_delay {
        delay_line.push_back(0u32);
    }
    let mut meter = LatencyMeter::default();
    let handle = meter.handle();
    meter.reset();
    handle.request_measurement();
    let mut buf = vec![0u32; buf_size];
    let max_iters = (CAPTURE_LEN / buf_size) + (total_delay / buf_size) + 10;
    for _ in 0..max_iters {
        for s in buf.iter_mut() {
            *s = delay_line.pop_front().unwrap_or(0);
        }
        meter.process(&mut buf);
        for &s in buf.iter() {
            delay_line.push_back(s);
        }
        if handle.state() as u8 == 2 {
            break;
        }
    }
    assert_eq!(handle.state() as u8, 2, "meter did not reach Done");
    let mut captured = Vec::with_capacity(CAPTURE_LEN);
    handle.read_capture_into(&mut captured);
    let result = measure_latency_lag(&captured, N_IMPULSES, DEFAULT_MIN_LAG_SAMPLES, ring_delay);
    assert!(result.is_ok(), "measure_latency failed: {result:?}");
    let ms = lag_to_ms(result.unwrap(), 48_000.0);
    let expected_ms = ((hw_delay as f32 / 48_000.0) * 1000.0 * 10.0).round() / 10.0;
    assert_eq!(ms, expected_ms, "expected {expected_ms} ms, got {ms} ms");
}

#[test]
fn deinterleave_round_trip_stereo() {
    let channels: usize = 2;
    let delay: usize = 256;
    for &bs in &[32u32, 64, 128, 256, 512, 1024, 2048] {
        let bs = bs as usize;
        let total_frames = CAPTURE_LEN + 1024;
        let mut ch0_input = vec![0.0_f32; total_frames];
        for k in 0..N_IMPULSES {
            ch0_input[k * IMPULSE_INTERVAL + delay] = 1.0;
        }
        let total_samples = total_frames * channels;
        let mut interleaved = vec![0.0_f32; total_samples];
        for i in 0..total_frames {
            interleaved[i * channels] = ch0_input[i];
            interleaved[i * channels + 1] = 0.5;
        }
        let mut meter = LatencyMeter::default();
        let handle = meter.handle();
        meter.reset();
        handle.request_measurement();
        let mut scratch = vec![0.0_f32; total_frames];
        for chunk in interleaved.chunks_mut(bs * channels) {
            let n_frames = chunk.len() / channels;
            deinterleave_channel(chunk, 0, channels, &mut scratch[..n_frames]);
            let mut bits = bits_of(&scratch[..n_frames]);
            meter.process(&mut bits);
            for i in 0..n_frames {
                scratch[i] = f32::from_bits(bits[i]);
            }
            interleave_channel(chunk, 0, channels, &scratch[..n_frames]);
        }
        for i in 0..total_frames {
            assert!(
                (interleaved[i * channels + 1] - 0.5).abs() < 1e-9,
                "buffer_size {bs}: ch1 at frame {i} was modified"
            );
        }
        assert_eq!(handle.state() as u8, 2, "buffer_size {bs}: expected Done (2)");
        let mut captured = Vec::with_capacity(CAPTURE_LEN);
        handle.read_capture_into(&mut captured);
        let result = measure_latency_lag(&captured, N_IMPULSES, 0, 0);
        assert!(result.is_ok(), "buffer_size {bs}: measure_latency failed: {result:?}");
        let ms = lag_to_ms(result.unwrap(), 48_000.0);
        let expected = ((delay as f32 / 48_000.0) * 1000.0 * 10.0).round() / 10.0;
        assert_eq!(ms, expected, "buffer_size {bs}: recovered {ms} ms, expected {expected} ms");
    }
}
