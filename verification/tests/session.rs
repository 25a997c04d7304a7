use stereo_mix::agent::{
    check_start, error_reply, ok_reply, session_id, session_id_at, SessionTable, StartRequest,
};
use stereo_mix::config::{
    config_path, config_path_in, log_path_in, output_folder_in, validate_config, AudioConfig,
    BsmConfig, EncoderConfig, OutputConfig,
};
use stereo_mix::encoder::{
    encode_step, packet_of, report_due, EncodeEvent, EncodeStep, EncoderWindow,
};
use stereo_mix::error::{AudioError, BsmError, EncodeError, IpcError};
use stereo_mix::instance::{
    Instance, InstanceError, InstanceManager, InstanceState, LockOutcome, SingleInstanceGuard,
};
use stereo_mix::muxer::{AudioMuxer, ContainerFormat, Patch};
use stereo_mix::output::{
    check_disk_space, expand_at, expand_filename_template, mux_join_failed, resolve_output_path,
    resolve_output_path_at, session_info, LocalTime, MuxResult, MuxTally, RecordingSession,
    SessionFacts,
};
use stereo_mix::paths::join;
use stereo_mix::probe::{probe_audio_encoders, select_encoder, AudioEncoderInfo};
use stereo_mix::state::{millis_of, AppState, RecordingState};
use stereo_mix::text;
use stereo_mix::types::{InstanceId, PcmFormat, PcmFrame, Timestamp};

fn stereo() -> PcmFormat {
    PcmFormat { sample_rate: 48000, channels: 2, bit_depth: 16 }
}

fn silent_frame() -> PcmFrame {
    PcmFrame {
        data: vec![0u8; 480 * 2 * 2],
        format: stereo(),
        timestamp_us: 0,
        sequence: 0,
        frame_count: 480,
    }
}

// --- Configuration ---------------------------------------------------------

#[test]
fn default_config_validates() {
    let cfg = BsmConfig::default();
    let errs = validate_config(&cfg);
    assert!(errs.is_empty(), "default config should validate, got: {:?}", errs);
}

#[test]
fn bad_configs_are_explained() {
    let mut cfg = BsmConfig::default();
    cfg.audio = AudioConfig { sample_rate: 0, ..cfg.audio };
    assert_eq!(validate_config(&cfg), vec!["audio.sample_rate must be > 0"]);
    cfg.audio = AudioConfig { sample_rate: 0, channels: 9, buffer_ms: 0, ..cfg.audio };
    cfg.encoder = EncoderConfig { bitrate_kbps: 0, ..cfg.encoder };
    cfg.output.output_folder = String::new();
    cfg.output.file_name_pattern = String::new();
    assert_eq!(
        validate_config(&cfg),
        vec![
            "audio.sample_rate must be > 0",
            "audio.channels must be 1\u{2013}8",
            "audio.buffer_ms must be > 0",
            "encoder.bitrate_kbps must be > 0",
            "output.output_folder must not be empty",
            "output.file_name_pattern must not be empty",
        ]
    );
    cfg = BsmConfig::default();
    cfg.audio = AudioConfig { channels: 0, ..cfg.audio };
    assert_eq!(validate_config(&cfg).len(), 1);
    cfg.audio = AudioConfig { channels: 8, ..cfg.audio };
    assert!(validate_config(&cfg).is_empty());
}

#[test]
fn default_paths() {
    let dir = Some("/home/u/.config".to_string());
    assert_eq!(config_path_in(dir.clone()), "/home/u/.config/BaxtersStereoMix/config.toml");
    assert_eq!(config_path_in(None), "./BaxtersStereoMix/config.toml");
    assert_eq!(log_path_in(dir), "/home/u/.config/BaxtersStereoMix/bsm.log");
    assert_eq!(log_path_in(None), "./bsm.log");
    assert_eq!(output_folder_in(Some("/m".to_string()), None), "/m/BSM_output");
    assert_eq!(output_folder_in(None, Some("/h".to_string())), "/h/Music/BSM_output");
    assert_eq!(output_folder_in(None, None), "./BSM_output");
    assert!(config_path().ends_with("BaxtersStereoMix/config.toml"));
    assert!(OutputConfig::default().output_folder.ends_with("BSM_output"));
}

#[test]
fn paths_join_like_the_standard_library() {
    for (a, b) in [("a", "b"), ("a/", "b"), ("", "b"), ("a", ""), ("a", "/b"), ("/", "b")] {
        let expected = std::path::Path::new(a).join(b);
        assert_eq!(join(a, b), expected.to_string_lossy());
    }
}

// --- Errors ----------------------------------------------------------------

#[test]
fn error_messages() {
    let x = || "x".to_string();
    let messages = [
        (BsmError::Config(x()).message(), "config error: x"),
        (BsmError::Io(x()).message(), "IO error: x"),
        (BsmError::Serialization(x()).message(), "serialization error: x"),
        (BsmError::Audio(x()).message(), "audio error: x"),
        (BsmError::Encoder(x()).message(), "encoder error: x"),
        (BsmError::Muxer(x()).message(), "muxer error: x"),
        (BsmError::Ipc(x()).message(), "IPC error: x"),
        (BsmError::Hrt(x()).message(), "HRT error: x"),
        (BsmError::AlreadyRunning.message(), "already running"),
        (BsmError::NotSupported(x()).message(), "operation not supported: x"),
        (BsmError::Unknown(x()).message(), "unknown error: x"),
        (AudioError::DeviceNotFound(x()).message(), "device not found: x"),
        (AudioError::DeviceOpenFailed(x()).message(), "device open failed: x"),
        (AudioError::BufferOverrun.message(), "buffer overrun"),
        (AudioError::DeviceDisconnected.message(), "device disconnected"),
        (AudioError::UnsupportedFormat(x()).message(), "unsupported format: x"),
        (AudioError::Wasapi(0x00AD_BE0F, x()).message(), "WASAPI error (HRESULT 0x00adbe0f): x"),
        (AudioError::NotActive.message(), "not active"),
        (EncodeError::NotFound(x()).message(), "encoder not found: x"),
        (EncodeError::OpenFailed(x()).message(), "encoder open failed: x"),
        (EncodeError::EncodeFailed(x()).message(), "encode failed: x"),
        (EncodeError::MuxFailed(x()).message(), "mux failed: x"),
        (EncodeError::OutputFile(x()).message(), "output file error: x"),
        (EncodeError::UnsupportedCodec(x()).message(), "codec not supported: x"),
        (IpcError::Pipe(x()).message(), "pipe error: x"),
        (IpcError::Serialization(x()).message(), "serialization error: x"),
        (IpcError::UnknownCommand(x()).message(), "command unknown: x"),
        (IpcError::Timeout.message(), "timeout"),
        (IpcError::Disconnected.message(), "disconnected"),
        (
            InstanceError::AlreadyRunning.message(),
            "Another instance of Baxter's Stereo Mix is already running",
        ),
        (
            InstanceError::SystemError(x()).message(),
            "System error acquiring instance guard: x",
        ),
    ];
    for (message, expected) in messages {
        assert_eq!(message, expected);
    }
}

// --- Encoder and session ---------------------------------------------------

#[test]
fn start_encoder_smoke() {
    let info = AudioEncoderInfo::new("mp3");
    assert_eq!(info.name, "mp3");
    let frame = silent_frame();
    let packet = packet_of(&frame);
    assert_eq!(packet.data, frame.data);
    assert_eq!(packet.duration, 480);
    assert!(packet.is_key);
}

#[test]
fn encoder_statistics() {
    let mut w = EncoderWindow::new();
    w.count_packet(100);
    w.record_time(10);
    w.count_packet(50);
    w.record_time(30);
    let stats = w.report(3);
    assert_eq!(stats.packets_encoded, 2);
    assert_eq!(stats.encode_time_avg_us, 20);
    assert_eq!(stats.encode_time_max_us, 30);
    assert_eq!(stats.bits, 1200);
    assert_eq!(stats.queue_depth, 3);
    assert!(!report_due(0));
    assert!(report_due(60));
}

#[test]
fn the_encode_task_goes_on_until_it_is_told() {
    let mut w = EncoderWindow::new();
    let sent = |interval_secs| EncodeEvent::Sent { elapsed_us: 8, interval_secs, queue_depth: 2 };
    match encode_step(&mut w, EncodeEvent::Frame(silent_frame())) {
        EncodeStep::Send(packet) => assert_eq!(packet.data, silent_frame().data),
        other => panic!("{:?}", other),
    }
    assert!(matches!(encode_step(&mut w, sent(0)), EncodeStep::Wait));
    assert!(matches!(encode_step(&mut w, EncodeEvent::Frame(silent_frame())), EncodeStep::Send(_)));
    match encode_step(&mut w, sent(1)) {
        EncodeStep::Report(stats) => {
            assert_eq!(stats.packets_encoded, 2);
            assert_eq!(stats.bits, 8 * 2 * 1920);
            assert_eq!((stats.encode_time_avg_us, stats.queue_depth), (8, 2));
        }
        other => panic!("{:?}", other),
    }
    match encode_step(&mut w, sent(1)) {
        EncodeStep::Report(stats) => assert_eq!(stats.packets_encoded, 0),
        other => panic!("{:?}", other),
    }
    for event in [EncodeEvent::Shutdown, EncodeEvent::Closed, EncodeEvent::Refused] {
        assert!(matches!(encode_step(&mut w, event), EncodeStep::End));
    }
}

#[test]
fn frames_become_packets_in_order() {
    let mut w = EncoderWindow::new();
    let mut sent = Vec::new();
    for k in 0..5u8 {
        let frame = PcmFrame { data: vec![k; 4], timestamp_us: 10 * k as u64, ..silent_frame() };
        match encode_step(&mut w, EncodeEvent::Frame(frame)) {
            EncodeStep::Send(packet) => sent.push((packet.pts, packet.data)),
            other => panic!("{:?}", other),
        }
        let taken = EncodeEvent::Sent { elapsed_us: 1, interval_secs: (k % 2) as u64, queue_depth: 0 };
        assert!(!matches!(encode_step(&mut w, taken), EncodeStep::End | EncodeStep::Send(_)));
    }
    assert!(matches!(encode_step(&mut w, EncodeEvent::Closed), EncodeStep::End));
    let expected: Vec<_> = (0..5u8).map(|k| (10 * k as i64, vec![k; 4])).collect();
    assert_eq!(sent, expected);
}

#[test]
fn probe_returns_at_least_one() {
    assert!(!probe_audio_encoders().is_empty());
}

#[test]
fn select_encoder_prefers_requested() {
    let enc = select_encoder(Some("mp3")).unwrap();
    assert_eq!(enc.name, "mp3");
}

#[test]
fn expand_template_has_tokens() {
    let s = expand_filename_template("BSM_{date}_{time}_{n}", 3, &None);
    assert!(s.contains("BSM_"));
    assert!(s.ends_with("_03"));
    let stamp: Vec<char> = s.chars().collect();
    assert_eq!(stamp.len(), "BSM_2026-01-02_03-04-05_03".len());
    for (i, c) in "BSM_2026-01-02_03-04-05_03".chars().enumerate() {
        assert_eq!(c.is_ascii_digit(), stamp[i].is_ascii_digit(), "{s}");
        assert!(c.is_ascii_digit() || c == stamp[i], "{s}");
    }
}

#[test]
fn templates_expand_in_order() {
    let agent = Some("box".to_string());
    assert_eq!(expand_at("{app}-{agent_id}-{date}-{time}-{n}", 7, "2026-01-02", "03-04-05", &agent), "BSM-box-2026-01-02-03-04-05-07");
    assert_eq!(expand_at("{agent_id}", 7, "d", "t", &None), "local");
    assert_eq!(expand_at("plain", 7, "d", "t", &None), "plain");
    assert_eq!(expand_at("{n}{n}", 123, "d", "t", &None), "123123");
}

#[test]
fn resolve_output_path_creates_dir() {
    let cfg = OutputConfig {
        output_folder: "/recordings".to_string(),
        file_name_pattern: "BSM_{date}_{time}_{n}".to_string(),
        ..Default::default()
    };
    let p = resolve_output_path(&cfg, ContainerFormat::Mp3, &None, |_p: &str| false).unwrap();
    assert!(p.ends_with(".mp3"));
    assert!(p.starts_with("/recordings/BSM_"));
    let second = resolve_output_path(&cfg, ContainerFormat::Wav, &None, |p: &str| p.ends_with("_01.wav")).unwrap();
    assert!(second.ends_with("_02.wav"));
    assert!(resolve_output_path(&cfg, ContainerFormat::Wav, &None, |_p: &str| true).is_err());
}

#[test]
fn dates_and_times_are_written_out() {
    let t = LocalTime { year: 2026, month: 1, day: 2, hour: 3, minute: 4, second: 5, nanosecond: 999_999_999 };
    assert_eq!((t.date().as_str(), t.time().as_str()), ("2026-01-02", "03-04-05"));
    let leap = LocalTime { month: 12, day: 31, hour: 23, minute: 59, second: 59, nanosecond: 1_000_000_000, ..t };
    assert_eq!((leap.date().as_str(), leap.time().as_str()), ("2026-12-31", "23-59-60"));
    let naive = |year| chrono::NaiveDate::from_ymd_opt(year, 7, 9).unwrap().format("%Y-%m-%d").to_string();
    for year in [-262143, -12345, -44, -1, 0, 7, 70, 700, 999, 1000, 9999, 10000, 262142] {
        assert_eq!(LocalTime { year, month: 7, day: 9, ..t }.date(), naive(year));
    }
    let clock = |h, m, s, n| chrono::NaiveTime::from_hms_nano_opt(h, m, s, n).unwrap().format("%H-%M-%S").to_string();
    for (hour, minute, second, nanosecond) in [(0, 0, 0, 0), (9, 10, 11, 12), (23, 59, 59, 1_999_999_999)] {
        let t = LocalTime { hour, minute, second, nanosecond, ..t };
        assert_eq!(t.time(), clock(hour, minute, second, nanosecond));
    }
}

#[test]
fn the_first_free_path_is_taken() {
    let cfg = OutputConfig {
        output_folder: "/r".to_string(),
        file_name_pattern: "{date}_{time}_{agent_id}_{n}".to_string(),
        ..Default::default()
    };
    let taken = ["/r/2026-01-02_03-04-05_box_01.wav", "/r/2026-01-02_03-04-05_box_02.wav"];
    let agent = Some("box".to_string());
    let path = resolve_output_path_at(&cfg, ContainerFormat::Wav, "2026-01-02", "03-04-05", &agent, |p: &str| taken.contains(&p));
    assert_eq!(path.unwrap(), "/r/2026-01-02_03-04-05_box_03.wav");
    match resolve_output_path_at(&cfg, ContainerFormat::Wav, "d", "t", &None, |_p: &str| true) {
        Err(EncodeError::OutputFile(m)) => assert_eq!(m, "could not find unique name"),
        _ => panic!("every path is taken"),
    }
}

#[test]
fn the_duration_is_that_of_the_session() {
    let summed = |from: (i64, u32), to: (i64, u32)| {
        let mux = MuxResult {
            frames_written: 1,
            frames_dropped: 2,
            bytes_written: 3,
            started_at: Timestamp { secs: from.0, nanos: from.1 },
            stopped_at: Timestamp { secs: to.0, nanos: to.1 },
        };
        let facts = SessionFacts {
            output_file: "a".to_string(),
            codec: "flac".to_string(),
            sample_rate: 48000,
            channels: 2,
        };
        let info = session_info(facts, &mux);
        assert_eq!((info.frames_captured, info.frames_dropped, info.bytes_written), (1, 2, 3));
        (info.duration_secs, info.duration_nanos)
    };
    assert_eq!(summed((1000, 0), (1002, 500_000_000)), (2, 500_000_000));
    assert_eq!(summed((1000, 900_000_000), (1002, 0)), (1, 100_000_000));
    assert_eq!(summed((1002, 500_000_000), (1000, 0)), (-2, -500_000_000));
}

#[test]
fn recording_session_integration() {
    let session = RecordingSession::new(
        "rec_test.wav".to_string(),
        "libopus".to_string(),
        EncoderConfig::default(),
        stereo(),
        ContainerFormat::Wav,
    );
    let mut plan = session.prepare(Some(Ok(1 << 40))).unwrap();
    let mut bytes = plan.muxer.open(&plan.input_format, "pcm", plan.bitrate_kbps).unwrap();
    let mut tally = MuxTally::new();
    for _ in 0..4 {
        let packet = packet_of(&silent_frame());
        let written = plan.muxer.write_packet(&packet);
        assert!(tally.count(written.is_ok(), packet.data.len()));
        bytes.extend_from_slice(&written.unwrap());
    }
    let finish = plan.muxer.finalize().unwrap();
    bytes.extend_from_slice(&finish.append);
    for patch in finish.patches {
        match patch {
            Patch::Put { offset, bytes: put } => {
                let at = offset as usize;
                bytes[at..at + put.len()].copy_from_slice(&put);
            }
            Patch::TotalSamples { .. } => unreachable!(),
        }
    }
    let t = Timestamp { secs: 1000, nanos: 0 };
    let mux = MuxResult {
        frames_written: tally.frames_written,
        frames_dropped: tally.frames_dropped,
        bytes_written: tally.bytes_written,
        started_at: t,
        stopped_at: Timestamp { secs: 1002, nanos: 500_000_000 },
    };
    let facts = SessionFacts {
        output_file: plan.output_path,
        codec: plan.encoder.name,
        sample_rate: 48000,
        channels: 2,
    };
    let info = session_info(facts, &mux);
    assert!(info.bytes_written > 0);
    assert_eq!(info.frames_captured, 4);
    assert_eq!(info.duration_secs, 2);
    assert_eq!(info.codec, "pcm_s16le");

    assert!(!bytes.is_empty());
    let riff_sz = u32::from_le_bytes(bytes[4..8].try_into().unwrap());
    let data_sz = u32::from_le_bytes(bytes[40..44].try_into().unwrap());
    assert_eq!(riff_sz, 36u32 + data_sz);
    assert_eq!(bytes.len() as u64, 44u64 + data_sz as u64);
    assert_eq!(data_sz as usize, 480 * 2 * 2 * 4);
}

#[test]
fn sessions_need_room() {
    let session = RecordingSession::new(
        "a.wav".to_string(),
        "wav".to_string(),
        EncoderConfig::default(),
        stereo(),
        ContainerFormat::Wav,
    );
    match session.prepare(Some(Ok(511 << 20))) {
        Err(EncodeError::OutputFile(m)) => assert_eq!(m, "only 511 MiB free"),
        _ => panic!("there is no room"),
    }
    assert_eq!(check_disk_space(Ok(512 << 20)).unwrap(), 512 << 20);
    match check_disk_space(Err("gone".to_string())) {
        Err(EncodeError::OutputFile(m)) => assert_eq!(m, "disk query failed: gone"),
        _ => panic!("the disk is gone"),
    }
    assert!(mux_join_failed("panic").message().contains("mux task join error: panic"));
    let mut tally = MuxTally::new();
    assert!(!tally.count(false, 10));
    assert_eq!(tally.frames_dropped, 1);
}

// --- Instances -------------------------------------------------------------

#[test]
fn instances_are_kept() {
    let mut m = InstanceManager::new();
    let id = m.create(Some("studio".to_string())).unwrap();
    assert!(id.0.starts_with("inst-"));
    assert_eq!(m.list().unwrap().len(), 1);
    let got: Instance = m.get(&id).unwrap().unwrap();
    assert_eq!(got.state, InstanceState::Created);
    assert!(m.get(&InstanceId::from("nobody")).unwrap().is_none());
    assert!(m.destroy(&InstanceId::from("nobody")).is_err());
    m.destroy(&id).unwrap();
    assert!(m.list().unwrap().is_empty());
}

#[test]
fn instances_are_stamped_with_the_time() {
    let before = std::time::SystemTime::now().duration_since(std::time::UNIX_EPOCH).unwrap().as_secs() as i64;
    let i = Instance::new(None);
    let after = std::time::SystemTime::now().duration_since(std::time::UNIX_EPOCH).unwrap().as_secs() as i64;
    assert!(before <= i.created_at.secs && i.created_at.secs <= after);
    let made = Instance::made_at(None, Timestamp { secs: 1, nanos: 0 }, Timestamp { secs: 2, nanos: 5 });
    assert_eq!(made.created_at, Timestamp { secs: 2, nanos: 5 });
}

#[test]
fn only_one_program_runs() {
    let path = SingleInstanceGuard::lock_path_in("/tmp");
    assert!(path.starts_with("/tmp/"));
    let guard = SingleInstanceGuard::acquire(path.clone(), LockOutcome::Created).unwrap();
    assert_eq!(guard.lock_path, path);
    assert!(matches!(
        SingleInstanceGuard::acquire(path.clone(), LockOutcome::AlreadyExists),
        Err(InstanceError::AlreadyRunning)
    ));
    match SingleInstanceGuard::acquire(path, LockOutcome::Failed("read-only".to_string())) {
        Err(InstanceError::SystemError(m)) => assert!(m.contains("read-only")),
        _ => panic!("there is no lock"),
    }
}

#[test]
fn the_program_starts_idle() {
    let s = AppState::new(BsmConfig::default());
    assert_eq!(s.recording_state, RecordingState::Idle);
    assert!(s.output_file.is_none());
    assert_eq!(millis_of(2, 345_999_999), 2345);
}

// --- Agent -----------------------------------------------------------------

fn request() -> StartRequest {
    StartRequest {
        token: None,
        output_dir: "takes".to_string(),
        filename_template: None,
        encoder: None,
        format: None,
    }
}

#[test]
fn start_requests_are_checked() {
    let root = Some("/srv/audio/".to_string());
    let plan = check_start(request(), &None, &root).unwrap();
    assert_eq!(plan.output.output_folder, "/srv/audio/takes");
    assert_eq!(plan.encoder, "libopus");
    assert_eq!(plan.output.container, stereo_mix::config::ContainerFormat::Mp3);
    assert!(!plan.output.auto_remux_to_mp4);

    let refused = check_start(request(), &Some("key".to_string()), &root).unwrap_err();
    assert!(refused.contains("authentication failed"));
    let mut good = request();
    good.token = Some("key".to_string());
    good.format = Some("flac".to_string());
    let plan = check_start(good, &Some("key".to_string()), &root).unwrap();
    assert_eq!(plan.format, ContainerFormat::Flac);

    for dir in ["../up", "a/../b", "/etc"] {
        let mut bad = request();
        bad.output_dir = dir.to_string();
        assert!(check_start(bad, &None, &root).is_err(), "{dir}");
    }
    let mut bad = request();
    bad.filename_template = Some("a/b".to_string());
    assert!(check_start(bad, &None, &root).unwrap_err().contains("invalid filename_template"));
    let mut bad = request();
    bad.filename_template = Some("x".repeat(129));
    assert!(check_start(bad, &None, &root).is_err());
}

#[test]
fn sessions_are_limited_and_listed() {
    let mut table = SessionTable::new();
    let mut refused = None;
    for i in 0..100 {
        if let Err(line) = table.check_limits("10.0.0.1") {
            refused = Some((i, line));
            break;
        }
        table.started(format!("s{i}"), "10.0.0.1", "/srv/a.wav");
    }
    let (n, line) = refused.expect("there is a limit");
    assert!(n >= 1);
    let v: serde_json::Value = serde_json::from_str(&line).unwrap();
    assert_eq!(v["status"], "error");
    let listed: serde_json::Value = serde_json::from_str(&table.status(&None)).unwrap();
    assert_eq!(listed["status"], "ok");
    table.take("s0").unwrap();
    assert!(table.take("s0").is_err());
    assert!(table.check_limits("10.0.0.1").is_ok());
}

#[test]
fn replies_are_json_lines() {
    let line = error_reply("a \"quoted\"\nline \\ \u{7} \u{e9}");
    assert!(line.ends_with('\n'));
    assert_eq!(line.matches('\n').count(), 1);
    let v: serde_json::Value = serde_json::from_str(&line).unwrap();
    assert_eq!(v["error"], "a \"quoted\"\nline \\ \u{7} \u{e9}");
    let v: serde_json::Value = serde_json::from_str(&ok_reply("[1]")).unwrap();
    assert_eq!(v["data"][0], 1);
}

#[test]
fn session_ids_tell_the_time() {
    assert_eq!(session_id_at(Timestamp { secs: 1, nanos: 2_999_999 }), "session-1002");
    let before = std::time::SystemTime::now().duration_since(std::time::UNIX_EPOCH).unwrap().as_millis();
    let id = session_id();
    let after = std::time::SystemTime::now().duration_since(std::time::UNIX_EPOCH).unwrap().as_millis();
    let millis: u128 = id.strip_prefix("session-").unwrap().parse().unwrap();
    assert!(before <= millis && millis <= after);
}

// --- Text ------------------------------------------------------------------

#[test]
fn white_space_agrees_with_the_standard_library() {
    for n in 0..=0x10_FFFFu32 {
        if let Some(c) = char::from_u32(n) {
            assert_eq!(text::space(c), c.is_whitespace(), "{n:#x}");
        }
    }
    for s in ["", " ", " a b \n", "\u{3000}x\u{2028}", "x"] {
        assert_eq!(text::trim(s), s.trim());
        assert_eq!(text::trim_end(s), s.trim_end());
    }
}

#[test]
fn numbers_are_written_out() {
    for n in [0u64, 9, 10, 1234567890123456789, u64::MAX] {
        assert_eq!(text::decimal_u64(n), n.to_string());
    }
    for n in [0i128, -1, i64::MIN as i128, 42] {
        assert_eq!(text::decimal_i128(n), n.to_string());
    }
    assert_eq!(text::hex_u32(0x8889_ABCD), format!("{:08x}", 0x8889_ABCDu32));
    assert_eq!(text::decimal2_of(7), "07");
    assert_eq!(text::byte_len("a\u{e9}\u{20ac}\u{1F600}"), 10);
    assert_eq!(text::replace("aXbXX", "X", "yy"), "ayybyyyy");
}
