use tonism::audio::latency::CaptureState;
use tonism::config::TonismConfig;
use tonism::device::DeviceInfo;
use tonism::domain::types::BufferSize;
use tonism::gui::{
    buffer_size_label, keep_selected_buffer_size, keep_selected_rate, latency_action,
    position_of_buffer_size, position_of_rate, selected_device_id, LatencyAction, RatePicker,
};
use tonism::params::BoolParam;

#[test]
fn bool_param_round_trips_across_handle_clones() {
    let a = BoolParam::new("test", false);
    let b = a.clone();
    a.set(true);
    assert!(b.value());
    b.set(false);
    assert!(!a.value());
}

#[test]
fn bool_param_keeps_name_and_default() {
    let p = BoolParam::new("Bypass", true);
    assert_eq!(p.name(), "Bypass");
    assert!(p.value());
    assert_eq!(p.clone().name(), "Bypass");
}

#[test]
fn default_config_has_no_selections() {
    let cfg = TonismConfig::default();
    assert_eq!(cfg.input_device_id, None);
    assert_eq!(cfg.output_device_id, None);
    assert_eq!(cfg.sample_rate, None);
    assert_eq!(cfg.buffer_size, None);
}

#[test]
fn config_records_applied_selection() {
    let mut cfg = TonismConfig::default();
    cfg.record_selection(Some("in".to_string()), None, 96000, Some(256));
    assert_eq!(cfg.input_device_id.as_deref(), Some("in"));
    assert_eq!(cfg.output_device_id, None);
    assert_eq!(cfg.sample_rate, Some(96000));
    assert_eq!(cfg.buffer_size, Some(256));
}

#[test]
fn buffer_size_label_none_is_default() {
    assert_eq!(buffer_size_label(None), "Default");
}

#[test]
fn buffer_size_label_some_is_number() {
    assert_eq!(buffer_size_label(Some(256)), "256");
    assert_eq!(buffer_size_label(Some(1024)), "1024");
}

#[test]
fn buffer_size_label_edge_values() {
    assert_eq!(buffer_size_label(Some(0)), "0");
    assert_eq!(buffer_size_label(Some(7)), "7");
    assert_eq!(buffer_size_label(Some(10)), "10");
    assert_eq!(buffer_size_label(Some(u32::MAX)), "4294967295");
}

#[test]
fn buffer_size_default_and_value() {
    assert_eq!(BufferSize::default().value(), 512);
    assert_eq!(BufferSize::new(128).value(), 128);
}

#[test]
fn positions_and_kept_selection() {
    assert_eq!(position_of_rate(&[44100, 48000, 48000], 48000), Some(1));
    assert_eq!(position_of_rate(&[44100], 96000), None);
    assert_eq!(position_of_buffer_size(&[None, Some(64)], Some(64)), Some(1));
    assert_eq!(position_of_buffer_size(&[Some(64)], None), None);
    assert_eq!(keep_selected_rate(&[44100, 48000], 1, &[48000, 96000]), 0);
    assert_eq!(keep_selected_rate(&[44100, 48000], 1, &[96000, 48000]), 1);
    assert_eq!(keep_selected_rate(&[44100, 48000], 0, &[96000, 48000]), 0);
    assert_eq!(keep_selected_rate(&[], 3, &[96000]), 0);
    assert_eq!(keep_selected_buffer_size(&[None, Some(256)], 1, &[None, Some(128), Some(256)]), 2);
}

fn dev(id: &str, rates: Vec<u32>, range: Option<(u32, u32)>) -> DeviceInfo {
    DeviceInfo {
        name: id.to_string(),
        id_string: id.to_string(),
        supported_sample_rates: rates,
        buffer_size_range: range,
    }
}

#[test]
fn rate_picker_initial_and_recompute() {
    let inputs = vec![dev("i0", vec![44100, 48000], Some((64, 512))), dev("i1", vec![48000, 96000], None)];
    let outputs = vec![dev("o0", vec![44100, 48000, 96000], Some((128, 1024)))];
    let mut picker = RatePicker::new(&inputs, &outputs, 0, 0, 48000, Some(256));
    assert_eq!(picker.available_sample_rates, vec![44100, 48000]);
    assert_eq!(picker.selected_sr_idx, 1);
    assert_eq!(picker.available_buffer_sizes, vec![None, Some(128), Some(256), Some(512)]);
    assert_eq!(picker.selected_buf_idx, 2);
    assert_eq!(picker.selected_sample_rate(), 48000);
    assert_eq!(picker.selected_buffer_size(), Some(256));
    picker.recompute(&inputs, &outputs, 1, 0);
    assert_eq!(picker.available_sample_rates, vec![48000, 96000]);
    assert_eq!(picker.selected_sr_idx, 0);
    assert_eq!(picker.available_buffer_sizes, vec![None, Some(128), Some(256), Some(512), Some(1024)]);
    assert_eq!(picker.selected_buf_idx, 2);
    let empty: Vec<DeviceInfo> = vec![];
    let lone = RatePicker::new(&empty, &outputs, 5, 5, 44100, None);
    assert_eq!(lone.available_sample_rates, vec![44100]);
    assert_eq!(lone.available_buffer_sizes, vec![None]);
    assert_eq!(lone.selected_buffer_size(), None);
    assert_eq!(selected_device_id(&inputs, 1), Some("i1".to_string()));
    assert_eq!(selected_device_id(&inputs, 2), None);
}

#[test]
fn latency_action_per_state() {
    assert_eq!(latency_action(CaptureState::Idle), LatencyAction::Keep);
    assert_eq!(latency_action(CaptureState::Capturing), LatencyAction::ShowMeasuring);
    assert_eq!(latency_action(CaptureState::Done), LatencyAction::EvaluateAndReset);
    assert_eq!(latency_action(CaptureState::Cancelled), LatencyAction::ShowCancelledAndReset);
}
