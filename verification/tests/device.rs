use tonism::device::{
    compute_available_buffer_sizes, compute_common_sample_rates, extract_device_capabilities,
    device_source, find_device_by_id, find_device_by_name, first_name_match, negotiate_stream_config, pick_buffer_size,
    pick_sample_rate, ConfigRange, DeviceInfo, DeviceSource, SampleFormat,
};

fn mock_device_info(rates: Vec<u32>, buf_range: Option<(u32, u32)>) -> DeviceInfo {
    DeviceInfo {
        name: "mock".to_owned(),
        id_string: "mock:mock".to_owned(),
        supported_sample_rates: rates,
        buffer_size_range: buf_range,
    }
}

fn named(name: &str, id: &str) -> DeviceInfo {
    DeviceInfo {
        name: name.to_owned(),
        id_string: id.to_owned(),
        supported_sample_rates: vec![],
        buffer_size_range: None,
    }
}

#[test]
fn common_rates_intersection() {
    let input = mock_device_info(vec![44100, 48000, 96000], None);
    let output = mock_device_info(vec![48000, 96000, 192000], None);
    assert_eq!(compute_common_sample_rates(&input, &output), vec![48000, 96000]);
}

#[test]
fn common_rates_identical() {
    let d = mock_device_info(vec![44100, 48000], None);
    let d2 = mock_device_info(vec![44100, 48000], None);
    assert_eq!(compute_common_sample_rates(&d, &d2), vec![44100, 48000]);
}

#[test]
fn common_rates_no_overlap_returns_empty() {
    let input = mock_device_info(vec![44100], None);
    let output = mock_device_info(vec![48000], None);
    assert!(compute_common_sample_rates(&input, &output).is_empty());
}

#[test]
fn buffer_sizes_with_range() {
    let input = mock_device_info(vec![], Some((64, 1024)));
    let output = mock_device_info(vec![], Some((64, 1024)));
    let result = compute_available_buffer_sizes(&input, &output);
    assert_eq!(result[0], None);
    assert!(result.contains(&Some(64)));
    assert!(result.contains(&Some(128)));
    assert!(result.contains(&Some(256)));
    assert!(result.contains(&Some(512)));
    assert!(result.contains(&Some(1024)));
    assert!(!result.contains(&Some(32)));
    assert!(!result.contains(&Some(2048)));
}

#[test]
fn buffer_sizes_intersection_of_ranges() {
    let input = mock_device_info(vec![], Some((32, 512)));
    let output = mock_device_info(vec![], Some((128, 1024)));
    let result = compute_available_buffer_sizes(&input, &output);
    assert_eq!(result[0], None);
    assert!(result.contains(&Some(128)));
    assert!(result.contains(&Some(256)));
    assert!(result.contains(&Some(512)));
    assert!(!result.contains(&Some(64)));
    assert!(!result.contains(&Some(1024)));
}

#[test]
fn buffer_sizes_no_overlap_returns_only_default() {
    let input = mock_device_info(vec![], Some((32, 64)));
    let output = mock_device_info(vec![], Some((512, 2048)));
    assert_eq!(compute_available_buffer_sizes(&input, &output), vec![None]);
}

#[test]
fn buffer_sizes_both_none_returns_only_default() {
    let input = mock_device_info(vec![], None);
    let output = mock_device_info(vec![], None);
    assert_eq!(compute_available_buffer_sizes(&input, &output), vec![None]);
}

#[test]
fn buffer_sizes_one_none_uses_other_range() {
    let input = mock_device_info(vec![], Some((128, 512)));
    let output = mock_device_info(vec![], None);
    let result = compute_available_buffer_sizes(&input, &output);
    assert_eq!(result[0], None);
    assert!(result.contains(&Some(128)));
    assert!(result.contains(&Some(256)));
    assert!(result.contains(&Some(512)));
}

#[test]
fn buffer_sizes_exact_list_in_order() {
    let input = mock_device_info(vec![], Some((100, 600)));
    let output = mock_device_info(vec![], Some((50, 5000)));
    assert_eq!(
        compute_available_buffer_sizes(&input, &output),
        vec![None, Some(128), Some(256), Some(512)]
    );
}

#[test]
fn pick_sample_rate_prefers_saved_then_first_then_fallback() {
    assert_eq!(pick_sample_rate(Some(96000), &[48000, 96000]), 96000);
    assert_eq!(pick_sample_rate(Some(44100), &[48000, 96000]), 48000);
    assert_eq!(pick_sample_rate(None, &[88200]), 88200);
    assert_eq!(pick_sample_rate(Some(44100), &[]), 48000);
}

#[test]
fn pick_buffer_size_keeps_only_available_saved_size() {
    let available = [None, Some(128), Some(256)];
    assert_eq!(pick_buffer_size(Some(256), &available), Some(256));
    assert_eq!(pick_buffer_size(Some(64), &available), None);
    assert_eq!(pick_buffer_size(None, &available), None);
}

#[test]
fn capabilities_from_config_ranges() {
    let configs = [
        ConfigRange {
            format: SampleFormat::F32,
            min_sample_rate: 44100,
            max_sample_rate: 48000,
            buffer_size: Some((64, 512)),
        },
        ConfigRange {
            format: SampleFormat::Other,
            min_sample_rate: 1,
            max_sample_rate: 400000,
            buffer_size: Some((1, 100000)),
        },
        ConfigRange {
            format: SampleFormat::I16,
            min_sample_rate: 96000,
            max_sample_rate: 96000,
            buffer_size: Some((32, 1024)),
        },
        ConfigRange {
            format: SampleFormat::F32,
            min_sample_rate: 176400,
            max_sample_rate: 200000,
            buffer_size: None,
        },
    ];
    let (rates, range) = extract_device_capabilities(&configs);
    assert_eq!(rates, vec![44100, 48000, 96000, 176400, 192000]);
    assert_eq!(range, Some((32, 1024)));
    let (none_rates, none_range) = extract_device_capabilities(&[]);
    assert!(none_rates.is_empty());
    assert_eq!(none_range, None);
}

#[test]
fn device_lookup_by_name_ignores_case() {
    let list = [named("Built-in Microphone", "a"), named("USB Audio CODEC", "b"), named("usb headset", "c")];
    assert_eq!(find_device_by_name(&list, "usb"), Some(1));
    assert_eq!(find_device_by_name(&list, "MICRO"), Some(0));
    assert_eq!(find_device_by_name(&list, "HeadSet"), Some(2));
    assert_eq!(find_device_by_name(&list, "scarlett"), None);
}

#[test]
fn first_name_match_is_case_sensitive_and_takes_the_first() {
    let names = vec!["built-in mic".to_string(), "usb audio".to_string(), "usb headset".to_string()];
    assert_eq!(first_name_match(&names, "usb"), Some(1));
    assert_eq!(first_name_match(&names, "headset"), Some(2));
    assert_eq!(first_name_match(&names, "USB"), None);
    assert_eq!(first_name_match(&names, ""), Some(0));
    assert_eq!(first_name_match(&[], "usb"), None);
}

#[test]
fn device_source_follows_cli_then_saved_then_default() {
    let list = [named("Built-in Microphone", "a"), named("USB Audio CODEC", "b")];
    assert_eq!(device_source(&list, Some("usb"), Some("a")), DeviceSource::Listed(1));
    assert_eq!(device_source(&list, Some("scarlett"), Some("a")), DeviceSource::NoMatch);
    assert_eq!(device_source(&list, None, Some("a")), DeviceSource::SavedId);
    assert_eq!(device_source(&list, None, None), DeviceSource::SystemDefault);
    assert_eq!(device_source(&[], Some("usb"), None), DeviceSource::NoMatch);
}

#[test]
fn device_lookup_by_id() {
    let list = [named("x", "CoreAudio:A"), named("y", "CoreAudio:B")];
    assert_eq!(find_device_by_id(&list, &"CoreAudio:B".to_string()), Some(1));
    assert_eq!(find_device_by_id(&list, &"CoreAudio:C".to_string()), None);
}

#[test]
fn negotiation_uses_both_devices() {
    let input = mock_device_info(vec![44100, 48000, 96000], Some((64, 1024)));
    let output = mock_device_info(vec![48000, 96000], Some((128, 2048)));
    assert_eq!(
        negotiate_stream_config(Some(96000), Some(256), Some(&input), Some(&output)),
        (96000, Some(256))
    );
    assert_eq!(
        negotiate_stream_config(Some(44100), Some(64), Some(&input), Some(&output)),
        (48000, None)
    );
    assert_eq!(negotiate_stream_config(Some(44100), Some(64), None, Some(&output)), (48000, Some(64)));
}
