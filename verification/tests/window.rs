use stereo_mix::muxer::ContainerFormat;
use stereo_mix::satellite::{build_json, collect, count_matching, dir_size, extension, Entry};
use stereo_mix::telemetry_client::{forwarded, resolve_addr};
use stereo_mix::types::{DeviceEntry, PcmFormat, PcmFrame};
use stereo_mix::wasapi::{NegotiationInfo, SampleFormat};
use stereo_mix::window::{
    container_named, diagnostic_lines, frame_peaks, record_step, recordings_dir_in,
    settings_path_in, stop_step, BsmWindow, DeviceChoice, OpenOutcome, RecordEvent, RecordStep,
    StopStep, UiConfig,
};

#[test]
fn unset_means_no_telemetry_connection() {
    assert_eq!(resolve_addr(None), None);
}

#[test]
fn empty_or_whitespace_means_no_telemetry_connection() {
    assert_eq!(resolve_addr(Some(String::new())), None);
    assert_eq!(resolve_addr(Some("   ".into())), None);
    assert_eq!(resolve_addr(Some("\t\n".into())), None);
}

#[test]
fn a_real_address_is_used_and_trimmed() {
    assert_eq!(
        resolve_addr(Some("127.0.0.1:9000".into())),
        Some("127.0.0.1:9000".to_string())
    );
    assert_eq!(
        resolve_addr(Some("  10.0.0.5:4000\n".into())),
        Some("10.0.0.5:4000".to_string())
    );
}

#[test]
fn lines_are_forwarded_without_their_end() {
    assert_eq!(forwarded(" {} \r\n"), Some(" {}".to_string()));
    assert_eq!(forwarded("\n"), None);
}

#[test]
fn new_window_defaults() {
    let w = BsmWindow::new(None);
    assert_eq!(w.sample_rates.get(0).copied().unwrap_or(0), 48000);
    assert_eq!(w.sample_rates, vec![48000, 44100, 96000]);
    assert_eq!(w.bitrate_kbps, 128);
    assert_eq!(w.container_format, ContainerFormat::Wav);
    assert!(w.output_dir.ends_with("BSM_output"));
    assert!(!w.recording);
}

#[test]
fn settings_are_kept() {
    let config = UiConfig {
        output_dir: "/takes".to_string(),
        bitrate_kbps: Some(320),
        container: Some("flac".to_string()),
    };
    let w = BsmWindow::new(Some(config));
    assert_eq!(w.container_format, ContainerFormat::Flac);
    let kept = w.config();
    assert_eq!(kept.output_dir, "/takes");
    assert_eq!(kept.bitrate_kbps, Some(320));
    assert_eq!(kept.container.as_deref(), Some("flac"));
    assert_eq!(container_named("ogg"), ContainerFormat::Wav);
    for f in [ContainerFormat::Wav, ContainerFormat::Mp3, ContainerFormat::Flac] {
        assert_eq!(container_named(f.extension()), f);
    }
    let bare = UiConfig { output_dir: "/takes".to_string(), bitrate_kbps: None, container: None };
    let w = BsmWindow::new(Some(bare));
    assert_eq!((w.bitrate_kbps, w.container_format), (128, ContainerFormat::Wav));
    assert_eq!(settings_path_in("/c"), "/c/bsm-ui/config.json");
    assert_eq!(UiConfig::path_in(None), None);
    assert_eq!(
        UiConfig::path_in(Some("/home/u/.config".into())).as_deref(),
        Some("/home/u/.config/bsm-ui/config.json")
    );
    if let Some(p) = UiConfig::path() {
        assert!(p.ends_with("/bsm-ui/config.json"));
    }
    assert_eq!(recordings_dir_in(None, None), "BSM_output");
    assert_eq!(recordings_dir_in(Some("/m".to_string()), Some("/h".to_string())), "/m/BSM_output");
    assert_eq!(recordings_dir_in(None, Some("/h".to_string())), "/h/Music/BSM_output");
}

#[test]
fn recording_by_the_buttons() {
    let mut w = BsmWindow::new(None);
    w.folder_chosen("/takes".to_string());
    w.container_format = ContainerFormat::Mp3;
    w.pause_clicked();
    assert!(!w.recording_paused);
    let request = w.record_clicked(1700000000).unwrap();
    assert_eq!(request.path, "/takes/recording-1700000000.mp3");
    assert_eq!(request.codec_name, "mp3");
    assert_eq!(request.bitrate_kbps, 128);
    assert!(w.monitor_wanted(false));
    w.recording_started(request.path);
    assert!(!w.monitor_wanted(false));
    assert!(w.record_clicked(1700000001).is_none());
    w.pause_clicked();
    assert!(w.recording_paused);
    w.pause_clicked();
    assert!(!w.recording_paused);
    w.pause_clicked();
    w.recording_stopped();
    assert!(!w.recording && !w.recording_paused && w.record_path.is_none());
    assert_eq!(
        w.logs,
        vec![
            "Output folder set: /takes",
            "recording started: /takes/recording-1700000000.mp3",
            "Already recording",
            "Recording paused: true",
            "Recording paused: false",
            "Recording paused: true",
            "recording saved: /takes/recording-1700000000.mp3",
        ]
    );
    for i in 0..60 {
        w.log(format!("line {i}"));
    }
    let recent = w.recent_logs();
    assert_eq!(recent.len(), 50);
    assert_eq!(recent[0], "line 59");
    assert_eq!(recent[49], "line 10");
}

#[test]
fn devices_and_formats_are_chosen() {
    let mut w = BsmWindow::new(None);
    assert_eq!(w.selected_index(), u32::MAX);
    w.refreshed(vec![
        DeviceEntry { index: 9, name: "Monitor".to_string(), is_default: false, is_loopback: true },
        DeviceEntry { index: 0, name: "Mic".to_string(), is_default: true, is_loopback: false },
    ]);
    assert_eq!(w.device_clicked(1), DeviceChoice { index: 0, diagnose: true });
    assert_eq!(w.selected_index(), 0);
    w.rates_found(vec![8000, 16000]);
    let fmt = PcmFormat { sample_rate: 48000, channels: 2, bit_depth: 16 };
    let fmt = w.rate_clicked(1, fmt);
    assert_eq!(fmt.sample_rate, 16000);
    let fmt = w.channels_clicked(true, fmt);
    assert_eq!(fmt, PcmFormat { sample_rate: 16000, channels: 1, bit_depth: 16 });
    assert!(w.mono);
    w.diagnosed(diagnosis());
    assert_eq!(w.device_clicked(0), DeviceChoice { index: 9, diagnose: false });
    assert!(w.last_diag.is_none());
    w.opened("Mic", OpenOutcome::Started);
    w.opened("Mic", OpenOutcome::StartFailed("NotActive".to_string()));
    w.opened("Mic", OpenOutcome::OpenFailed("gone".to_string()));
    assert!(w.telemetry_event("audio_stats"));
    assert!(!w.telemetry_event("audio_started"));
    assert!(!w.telemetry_event("other"));
    assert_eq!(
        w.logs,
        vec![
            "Refreshed 2 devices",
            "Selected device Mic",
            "Found 2 sample-rates",
            "Selected sample rate 16000 Hz",
            "Set channels: mono",
            "Selected device Monitor",
            "Device Mic opened and started",
            "Device opened but failed to start: NotActive",
            "Failed to open device: gone",
            "telemetry: audio_started",
        ]
    );
}

fn diagnosis() -> NegotiationInfo {
    NegotiationInfo {
        device_index: 4,
        requested_format: PcmFormat { sample_rate: 48000, channels: 2, bit_depth: 16 },
        chosen_channels: 2,
        chosen_sample_format: SampleFormat::F32,
        chosen_min_sr: 44100,
        chosen_max_sr: 96000,
        negotiated_sample_rate: 48000,
        bit_depth: 32,
        candidate_rates: vec![44100, 48000],
        score: 17,
    }
}

#[test]
fn diagnostics_are_told() {
    let lines = diagnostic_lines(&diagnosis(), None);
    assert_eq!(
        lines,
        vec![
            "Device idx: 4",
            "Requested: 48000 Hz, 2 ch, 16 bit",
            "Chosen channels: 2",
            "Chosen SF: F32",
            "Negotiated SR: 48000 (range 44100-96000)",
            "Bit depth reported: 32",
            "Score: 17",
            "Candidate rates: [44100, 48000]",
            "Pipeline negotiated: <none>",
        ]
    );
    let f = PcmFormat { sample_rate: 44100, channels: 1, bit_depth: 16 };
    assert_eq!(diagnostic_lines(&diagnosis(), Some(f))[8], "Pipeline negotiated: 44100 Hz, 1 ch, 16 bit");
}

fn frame(samples: &[i16], channels: u16, bit_depth: u16) -> PcmFrame {
    PcmFrame {
        data: samples.iter().flat_map(|s| s.to_le_bytes()).collect(),
        format: PcmFormat { sample_rate: 48000, channels, bit_depth },
        timestamp_us: 11,
        sequence: 0,
        frame_count: 2,
    }
}

#[test]
fn telemetry_lines_are_heard() {
    let mut w = BsmWindow::new(None);
    assert!(w.telemetry_line(r#"{"event":"audio_stats","data":{"peak_left":0.5}}"#));
    assert!(!w.telemetry_line(r#"{"data":null,"event":"audio_started"}"#));
    for line in ["", "not json", "[]", r#"{"event":7}"#, r#"{"other":"audio_stats"}"#, r#""event""#] {
        assert!(!w.telemetry_line(line), "{line}");
    }
    assert_eq!(w.logs, vec!["telemetry: audio_started"]);
}

#[test]
fn meters_show_peaks() {
    assert_eq!(frame_peaks(&frame(&[1, -9, 3, 4], 2, 16)), Some((3, 9)));
    assert_eq!(frame_peaks(&frame(&[1, -9, 3], 1, 16)), Some((9, 9)));
    assert_eq!(frame_peaks(&frame(&[1, 2, -30, 4, 5, 6], 3, 16)), Some((4, 30)));
    assert_eq!(frame_peaks(&frame(&[1, 2], 2, 24)), None);
    assert_eq!(frame_peaks(&frame(&[i16::MIN, 2], 2, 16)), Some((32768, 2)));
    match record_step(RecordEvent::Frame(frame(&[1, -9], 2, 16))) {
        RecordStep::Take { peaks, packet } => {
            assert_eq!(peaks, Some((1, 9)));
            assert_eq!(packet.data, vec![1, 0, 0xF7, 0xFF]);
            assert_eq!((packet.pts, packet.duration, packet.is_key), (11, 2, true));
        }
        other => panic!("{:?}", other),
    }
    assert!(matches!(record_step(RecordEvent::Stop), RecordStep::End));
    assert!(matches!(record_step(RecordEvent::Failed), RecordStep::End));
    assert!(matches!(record_step(RecordEvent::Nothing), RecordStep::Wait));
}

#[test]
fn splash_and_stop_have_limits() {
    let mut w = BsmWindow::new(None);
    assert!(w.show_splash(1499));
    assert!(!w.show_splash(1500));
    assert!(!w.show_splash(0));
    assert_eq!(stop_step(true, 999), StopStep::Join);
    assert_eq!(stop_step(false, 200), StopStep::Abort);
    assert_eq!(stop_step(false, 199), StopStep::Wait);
}

// --- Satellite -------------------------------------------------------------

fn file(name: &str, size: Option<u64>) -> Entry {
    Entry::File { name: name.to_string(), size }
}

#[test]
fn extensions_agree_with_the_standard_library() {
    for name in ["a.tmp", ".tmp", "a", "a.", "a.b.tmp", "..x", ".a.b", "a..", "\u{e9}.\u{e9}"] {
        let expected = std::path::Path::new(name).extension().map(|e| e.to_string_lossy().into_owned());
        assert_eq!(extension(name), expected, "{name}");
    }
}

#[test]
fn the_report_counts_files() {
    let tree = || {
        vec![
            file("a.tmp", Some(10)),
            file("b.log", None),
            Entry::Directory { entries: vec![file("c.bak", Some(5)), file("d.tmp", Some(1)), file(".tmp", Some(2))] },
        ]
    };
    assert_eq!(dir_size(&tree()), Some(18));
    assert_eq!(count_matching(&tree(), "tmp"), Some(2));
    assert_eq!(dir_size(&vec![file("x", Some(u64::MAX)), file("y", Some(1))]), None);
    assert_eq!(
        collect(99, &tree(), &vec![file("b.log", None)], &tree()).unwrap(),
        r#"{"app_code":"BSM","timestamp":99,"target_size_bytes":18,"log_file_count":1,"temp_file_count":3}"#
    );
    assert_eq!(
        build_json("X", 1, 2, 3, 4),
        r#"{"app_code":"X","timestamp":1,"target_size_bytes":2,"log_file_count":3,"temp_file_count":4}"#
    );
}
