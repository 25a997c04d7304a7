use stereo_mix::backend::AudioBackend;
use stereo_mix::error::AudioError;
use stereo_mix::ieee::{scale_clamped, scale_sample};
use stereo_mix::loopback::{
    loopback_packet, mix_to_i16, spawn_loopback_capture, MixInfo, LOOPBACK_DEVICE_INDEX,
    LOOPBACK_DEVICE_NAME,
};
use stereo_mix::mock::MockAudioBackend;
use stereo_mix::monitor::{
    frames_per_chunk, monitor_frame, monitor_open_failed, monitor_request, plan_monitor,
    MONITOR_DEVICE_INDEX, MONITOR_DEVICE_NAME,
};
use stereo_mix::null::NullBackend;
use stereo_mix::pipeline::{CapturePipeline, DeviceConfig};
use stereo_mix::types::PcmFormat;
use stereo_mix::wasapi::{
    choose_config, device_not_found, input_frame, list_devices, map_f32_channels, map_i16_channels,
    map_u16_channels, plan_stream, route, DeviceRoute, NextFrame, Platform, SampleFormat,
    SupportedConfig, WasapiBackend,
};

fn format(sample_rate: u32, channels: u16, bit_depth: u16) -> PcmFormat {
    PcmFormat { sample_rate, channels, bit_depth }
}

fn sample(out: &[u8], i: usize) -> i16 {
    i16::from_le_bytes([out[2 * i], out[2 * i + 1]])
}

// --- Loopback --------------------------------------------------------------

#[test]
fn float_stereo_passthrough_scales_to_i16() {
    let info = MixInfo { sample_rate: 48000, channels: 2, bits: 32, is_float: true };
    let mut bytes = Vec::new();
    bytes.extend_from_slice(&1.0f32.to_le_bytes());
    bytes.extend_from_slice(&(-1.0f32).to_le_bytes());
    let out = mix_to_i16(&bytes, info, 2);
    assert_eq!(out.len(), 4);
    assert_eq!(sample(&out, 0), i16::MAX);
    assert_eq!(sample(&out, 1), -i16::MAX);
}

#[test]
fn float_mono_upmixes_to_stereo() {
    let info = MixInfo { sample_rate: 48000, channels: 1, bits: 32, is_float: true };
    let bytes = 0.5f32.to_le_bytes().to_vec();
    let out = mix_to_i16(&bytes, info, 2);
    assert_eq!(out.len(), 4);
    let l = sample(&out, 0);
    let r = sample(&out, 1);
    assert_eq!(l, r);
    assert!((l - (i16::MAX / 2)).abs() <= 1);
}

#[test]
fn i16_stereo_passthrough() {
    let info = MixInfo { sample_rate: 44100, channels: 2, bits: 16, is_float: false };
    let mut bytes = Vec::new();
    bytes.extend_from_slice(&1234i16.to_le_bytes());
    bytes.extend_from_slice(&(-4321i16).to_le_bytes());
    let out = mix_to_i16(&bytes, info, 2);
    assert_eq!(i16::from_le_bytes([out[0], out[1]]), 1234);
    assert_eq!(i16::from_le_bytes([out[2], out[3]]), -4321);
}

#[test]
fn surround_downmix_takes_first_two() {
    let info = MixInfo { sample_rate: 48000, channels: 6, bits: 32, is_float: true };
    let vals = [0.1f32, 0.2, 0.3, 0.4, 0.5, 0.6];
    let mut bytes = Vec::new();
    for v in vals {
        bytes.extend_from_slice(&v.to_le_bytes());
    }
    let out = mix_to_i16(&bytes, info, 2);
    assert_eq!(out.len(), 4);
    let l = sample(&out, 0);
    let r = sample(&out, 1);
    assert!((l - (0.1 * i16::MAX as f32) as i16).abs() <= 2);
    assert!((r - (0.2 * i16::MAX as f32) as i16).abs() <= 2);
}

#[test]
fn empty_input_is_safe() {
    let info = MixInfo { sample_rate: 48000, channels: 2, bits: 32, is_float: true };
    assert!(mix_to_i16(&[], info, 2).is_empty());
}

#[test]
fn mix_of_other_sizes() {
    // 32-bit integers keep their upper 16 bits; sizes that are not known are silent.
    let info24 = MixInfo { sample_rate: 48000, channels: 1, bits: 24, is_float: false };
    let out = mix_to_i16(&[0xFF, 0x34, 0x12], info24, 1);
    assert_eq!(out, vec![0, 0]);
    let info32 = MixInfo { sample_rate: 48000, channels: 1, bits: 32, is_float: false };
    let out = mix_to_i16(&(-0x1234_5678i32).to_le_bytes(), info32, 1);
    assert_eq!(sample(&out, 0), (-0x1234_5678i32 >> 16) as i16);
    // An incomplete frame at the end does not count.
    let info16 = MixInfo { sample_rate: 48000, channels: 2, bits: 16, is_float: false };
    assert_eq!(mix_to_i16(&[1, 0, 2, 0, 3], info16, 2), vec![1, 0, 2, 0]);
}

#[test]
fn wave_formats_are_read() {
    let float = MixInfo::of_wave_format(3, 2, 48000, 32, false);
    assert!(float.is_float);
    let pcm = MixInfo::of_wave_format(1, 2, 44100, 16, true);
    assert!(!pcm.is_float);
    let extensible = MixInfo::of_wave_format(0xFFFE, 2, 48000, 32, true);
    assert!(extensible.is_float);
    let f = float.to_pcm_format(2);
    assert_eq!(f, format(48000, 2, 16));
}

#[test]
fn silent_loopback_packets_are_zero() {
    let info = MixInfo { sample_rate: 48000, channels: 2, bits: 32, is_float: true };
    let frame = loopback_packet(info, 2, 3, None, 5, 7);
    assert_eq!(frame.data, vec![0; 12]);
    assert_eq!(frame.frame_count, 3);
    assert_eq!(frame.sequence, 7);
    let bytes = [0u8; 16];
    let frame = loopback_packet(info, 1, 2, Some(&bytes), 5, 8);
    assert_eq!(frame.data, vec![0; 4]);
    assert_eq!(frame.format, format(48000, 1, 16));
}

#[test]
fn loopback_needs_windows() {
    match spawn_loopback_capture(format(48000, 2, 16)) {
        Err(AudioError::UnsupportedFormat(m)) => assert!(m.contains("Windows-only")),
        other => panic!("{:?}", other),
    }
}

#[test]
fn scaling_agrees_with_floating_point() {
    let mut bits: u32 = 0;
    for _ in 0..2_000_000u32 {
        bits = bits.wrapping_mul(1_664_525).wrapping_add(1_013_904_223);
        let f = f32::from_bits(bits);
        assert_eq!(scale_sample(bits), (f * i16::MAX as f32) as i16, "{bits:#x}");
        let clamped = (f.clamp(-1.0, 1.0) * i16::MAX as f32) as i16;
        assert_eq!(scale_clamped(bits), clamped, "{bits:#x}");
    }
    // Values of ordinary size, where rounding matters.
    for i in 0..3_000_000u32 {
        let f = (i as f32 / 1_500_000.0) - 1.0;
        assert_eq!(scale_sample(f.to_bits()), (f * i16::MAX as f32) as i16);
    }
    for f in [0.0f32, -0.0, 1.0, -1.0, 1.00003, f32::NAN, f32::INFINITY, f32::NEG_INFINITY, f32::MIN_POSITIVE] {
        assert_eq!(scale_sample(f.to_bits()), (f * i16::MAX as f32) as i16);
        assert_eq!(scale_clamped(f.to_bits()), (f.clamp(-1.0, 1.0) * i16::MAX as f32) as i16);
    }
}

// --- Monitor ---------------------------------------------------------------

#[test]
fn frames_per_chunk_is_about_20ms() {
    assert_eq!(frames_per_chunk(48000), 960);
    assert_eq!(frames_per_chunk(44100), 882);
    assert!(frames_per_chunk(0) >= 1, "must never be zero (no divide-by-zero downstream)");
}

#[test]
fn monitor_sentinel_is_distinct_from_loopback() {
    assert_ne!(MONITOR_DEVICE_INDEX, LOOPBACK_DEVICE_INDEX);
}

#[test]
fn monitor_plans() {
    let plan = plan_monitor(&format(48000, 2, 24), true).unwrap();
    assert_eq!(plan.format, format(48000, 2, 16));
    assert_eq!(plan.bytes_per_frame, 4);
    assert_eq!(plan.chunk_bytes, 3840);
    assert_eq!(plan.chunk_bytes % plan.bytes_per_frame, 0);
    assert_eq!(monitor_request(&format(48000, 2, 24)), plan.format);
    let frame = monitor_frame(&plan, vec![0; 3840], 10, 3);
    assert_eq!(frame.frame_count, 960);
    assert_eq!(frame.sequence, 3);
    assert!(plan_monitor(&format(48000, 2, 16), false).is_err());
    match monitor_open_failed("no server") {
        AudioError::DeviceOpenFailed(m) => assert!(m.contains("no server")),
        other => panic!("{:?}", other),
    }
}

// --- Backends --------------------------------------------------------------

#[test]
fn mock_enumerate_returns_one_device() {
    let backend = MockAudioBackend::new();
    let devices = backend.enumerate_devices().unwrap();
    assert_eq!(devices.len(), 1);
    assert!(devices[0].is_loopback);
}

#[test]
fn mock_produces_frames_when_active() {
    let mut backend = MockAudioBackend::new();
    backend.open_device(0, format(48000, 2, 16)).unwrap();
    backend.start().unwrap();
    assert!(backend.is_active());
    let signal: Vec<i16> = (0..480).collect();
    let frame = backend.next_frame(10_000, &signal).unwrap();
    assert!(frame.is_some());
    let f = frame.unwrap();
    assert!(!f.data.is_empty());
    assert_eq!(f.format.sample_rate, 48000);
    assert_eq!(f.frame_count, 480);
    assert_eq!(sample(&f.data, 6), 3);
    assert_eq!(sample(&f.data, 7), 3);
    assert_eq!(backend.signal_position(480), 480);
    backend.stop().unwrap();
    assert!(!backend.is_active());
}

#[test]
fn mock_returns_none_when_stopped() {
    let mut backend = MockAudioBackend::new();
    backend.open_device(0, format(48000, 2, 16)).unwrap();
    assert!(backend.next_frame(0, &[]).unwrap().is_none());
}

#[test]
fn null_backend_produces_silence() {
    let mut b = NullBackend::new();
    b.open_device(0, format(48000, 2, 16)).unwrap();
    b.start().unwrap();
    let frame = b.next_frame(0, &[]).unwrap().unwrap();
    assert!(frame.data.iter().all(|&b| b == 0), "all bytes must be zero");
    assert!(frame.frame_count > 0);
}

#[test]
fn null_backend_stopped_returns_none() {
    let mut b = NullBackend::new();
    let frame = b.next_frame(0, &[]).unwrap();
    assert!(frame.is_none(), "stopped backend must return None");
}

#[test]
fn pipeline_with_mock_backend_runs() {
    let fmt = format(48000, 2, 16);
    let mut pipeline = CapturePipeline::new(MockAudioBackend::new(), fmt);
    let devices = pipeline.enumerate().unwrap();
    assert!(!devices.is_empty());
    pipeline.open_with_config(0, DeviceConfig::with_format(fmt)).unwrap();
    pipeline.start().unwrap();
    let f = pipeline.next_frame(0, &[0; 480]).unwrap();
    assert!(f.is_some());
    assert!(pipeline.negotiated_format().is_some());
    pipeline.stop().unwrap();
}

// --- Input devices ---------------------------------------------------------

#[test]
fn enumerate_lists_loopback_device_first() {
    let names = [Some("Microphone".to_string()), None];
    let default = Some("Microphone".to_string());
    let devs = list_devices(Platform::Linux, &names, &default);
    assert!(!devs.is_empty());
    let first = &devs[0];
    assert!(first.is_loopback, "first device should be the system audio entry");
    assert_eq!(first.index, MONITOR_DEVICE_INDEX);
    assert_eq!(first.name, MONITOR_DEVICE_NAME);
    let mic = devs.iter().find(|d| d.name == "Microphone").unwrap();
    assert_eq!(mic.index, 0);
    assert!(mic.is_default);

    let devs = list_devices(Platform::Windows, &names, &default);
    assert_eq!(devs.len(), 3);
    assert!(devs[0].is_loopback && devs[0].is_default);
    assert_eq!((devs[0].index, devs[0].name.as_str()), (LOOPBACK_DEVICE_INDEX, LOOPBACK_DEVICE_NAME));
    assert!(!devs[1].is_default && !devs[2].is_default);
    assert_eq!((devs[2].index, devs[2].name.as_str()), (1, "Unnamed"));

    let devs = list_devices(Platform::Other, &names, &default);
    assert_eq!(devs.len(), 2);
    assert!(devs[0].is_default && !devs[0].is_loopback);
}

#[test]
fn devices_are_routed() {
    for platform in [Platform::Windows, Platform::Linux, Platform::Other] {
        assert_eq!(route(platform, LOOPBACK_DEVICE_INDEX), DeviceRoute::Loopback);
        assert_eq!(route(platform, 0), DeviceRoute::Input);
    }
    assert_eq!(route(Platform::Linux, MONITOR_DEVICE_INDEX), DeviceRoute::Monitor);
    assert_eq!(route(Platform::Windows, MONITOR_DEVICE_INDEX), DeviceRoute::Input);
    assert_eq!(LOOPBACK_DEVICE_NAME, "System Audio (Loopback)");
}

#[test]
fn mono_to_stereo_mapping_i16() {
    let mono: Vec<i16> = vec![1000i16, -1000i16, 12345i16, -12345i16];
    let out = map_i16_channels(&mono, 1, 2);
    assert_eq!(out.len(), 4 * 2 * 2);
    for i in 0..4 {
        let l = i16::from_le_bytes([out[i * 4], out[i * 4 + 1]]);
        let r = i16::from_le_bytes([out[i * 4 + 2], out[i * 4 + 3]]);
        assert_eq!(l, mono[i]);
        assert_eq!(r, mono[i]);
    }
}

#[test]
fn other_channel_mappings() {
    let stereo = [100i16, 200, -100, -200];
    let out = map_i16_channels(&stereo, 2, 2);
    assert_eq!((sample(&out, 0), sample(&out, 1), sample(&out, 3)), (100, 200, -200));
    let out = map_i16_channels(&stereo, 2, 1);
    assert_eq!(out.len(), 4);
    assert_eq!((sample(&out, 0), sample(&out, 1)), (100, -100));
    let out = map_i16_channels(&stereo[..2], 2, 3);
    assert_eq!((sample(&out, 0), sample(&out, 1), sample(&out, 2)), (100, 200, 100));
    assert!(map_i16_channels(&stereo, 0, 2).is_empty());
    let out = map_u16_channels(&[32768u16, 65535, 5], 1, 1);
    assert_eq!((sample(&out, 0), sample(&out, 1), sample(&out, 2)), (-32768, -1, 5));
    let out = map_f32_channels(&[1.0f32.to_bits(), (-0.5f32).to_bits()], 1, 1);
    assert_eq!(sample(&out, 0), 32767);
    assert_eq!(sample(&out, 1), -16383);
}

fn offered() -> Vec<SupportedConfig> {
    vec![
        SupportedConfig { channels: 1, min_sample_rate: 8000, max_sample_rate: 16000, sample_format: SampleFormat::I16 },
        SupportedConfig { channels: 2, min_sample_rate: 44100, max_sample_rate: 96000, sample_format: SampleFormat::F32 },
    ]
}

#[test]
fn the_best_configuration_is_chosen() {
    let configs = offered();
    assert_eq!(choose_config(&configs, &format(48000, 2, 16)), Some(1));
    assert_eq!(choose_config(&configs, &format(16000, 1, 16)), Some(0));
    assert_eq!(choose_config(&[], &format(48000, 2, 16)), None);
    let plan = plan_stream(&configs, &format(192_000, 2, 16)).unwrap();
    assert_eq!(plan.sample_rate, 96000);
    assert!(plan_stream(&[], &format(48000, 2, 16)).is_err());
}

#[test]
fn negotiation_is_explained() {
    let configs = offered();
    let info = WasapiBackend::diagnose_negotiation(3, format(32000, 2, 16), &configs).unwrap();
    assert_eq!(info.device_index, 3);
    assert_eq!(info.negotiated_sample_rate, 44100);
    assert!(info.candidate_rates.windows(2).all(|w| w[0] < w[1]));
    let rates = WasapiBackend::enumerate_supported_sample_rates(&configs, 2);
    assert!(rates.contains(&44100) && rates.contains(&48000) && rates.contains(&96000));
    assert!(!rates.contains(&8000));
}

#[test]
fn channels_are_those_of_the_selected_configuration() {
    let config = |channels| SupportedConfig {
        channels,
        min_sample_rate: 44100,
        max_sample_rate: 48000,
        sample_format: SampleFormat::I16,
    };
    let configs = vec![config(1), config(2)];
    let info = WasapiBackend::diagnose_negotiation(0, format(48000, 2, 16), &configs).unwrap();
    assert_eq!(info.chosen_channels, 2);
    assert_eq!(plan_stream(&configs, &format(48000, 2, 16)).unwrap().device_channels, 2);
    assert_eq!(plan_stream(&configs, &format(48000, 1, 16)).unwrap().device_channels, 1);
    assert_eq!(plan_stream(&configs, &format(48000, 6, 16)).unwrap().device_channels, 1);
}

#[test]
fn a_stopped_device_remains_open() {
    let mut b = WasapiBackend::new();
    b.select(DeviceRoute::Input, None);
    b.opened(format(48000, 2, 16));
    assert!(!b.start());
    assert!(b.is_active());
    assert!(b.stop());
    assert!(!b.is_active());
    assert!(matches!(b.next_frame(), NextFrame::Nothing));
    assert!(b.start());
    assert!(matches!(b.next_frame(), NextFrame::Receive));
    assert!(!b.start());
    assert!(b.close());
    assert!(!b.close());
    assert!(!b.start());
    assert!(matches!(b.next_frame(), NextFrame::Nothing));
    assert_eq!(b.actual_format(), Some(format(48000, 2, 16)));
    assert_eq!(b.device_name(), None);
}

#[test]
fn the_backend_keeps_its_state() {
    let mut b = WasapiBackend::new();
    assert!(matches!(b.next_frame(), NextFrame::Nothing));
    b.select(DeviceRoute::Monitor, None);
    assert_eq!(b.device_name.as_deref(), Some(MONITOR_DEVICE_NAME));
    b.select(DeviceRoute::Input, Some("Microphone".to_string()));
    assert_eq!(b.device_name.as_deref(), Some("Microphone"));
    b.opened(format(48000, 2, 16));
    b.start();
    assert!(matches!(b.next_frame(), NextFrame::Receive));
    assert!(b.stop());
    assert!(!b.active);
    match device_not_found(7) {
        AudioError::DeviceNotFound(m) => assert!(m.contains('7')),
        other => panic!("{:?}", other),
    }
}

#[test]
fn input_frames_count_their_frames() {
    let plan = plan_stream(&offered(), &format(48000, 2, 16)).unwrap();
    let frame = input_frame(vec![0; 16], &plan, 2, 8, 99_999, 4);
    assert_eq!(frame.frame_count, 4);
    assert_eq!(frame.timestamp_us, 99);
    assert_eq!(frame.sequence, 4);
    assert_eq!(frame.format.channels, 2);
}
