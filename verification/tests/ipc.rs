use serde_json::Value;
use stereo_mix::commands::{
    invalid_json, parse_command, CommandEnvelope, IpcCommand, ResponseEnvelope,
};
use stereo_mix::dispatcher::{
    capture_step, shutdown_step, AudioQualityState, CaptureEvent, CaptureStep, Dispatcher, Effect,
    PeakTexts, RecordingState, ShutdownStep, Surroundings,
};
use stereo_mix::error::{IpcError, IpcResult};
use stereo_mix::hrt::{
    act_on, bridge_step, handle_inbound_message, heartbeat_line, register_line, session_step,
    BridgeEvent, BridgeStep, HrtInboundMsg, SessionEvent, SessionStep,
};
use stereo_mix::json::json_string;
use stereo_mix::server::{answer, classify_line, farewell, pipe_path, LineAction, Reply};
use stereo_mix::state;
use stereo_mix::telemetry::{
    audio_started_event, audio_stats_event, audio_stopped_event, disk_stats_event,
    encoder_stats_event, error_event, AudioStartedPayload, AudioStatsPayload, AudioStoppedPayload,
    DiskStatsPayload, EncoderStatsPayload, ErrorPayload,
};
use stereo_mix::types::{PcmFormat, PcmFrame};

fn parsed(json: &str) -> IpcResult<(IpcCommand, String)> {
    let v: Value = match serde_json::from_str(json) {
        Ok(v) => v,
        Err(e) => return parse_command(Err(invalid_json(&e.to_string()))),
    };
    parse_command(Ok(CommandEnvelope {
        cmd: v["cmd"].as_str().unwrap().to_string(),
        id: v["id"].as_str().unwrap().to_string(),
        payload: v["payload"].to_string(),
    }))
}

fn around(now_ms: u64) -> Surroundings {
    Surroundings {
        now_ms,
        uptime_ms: 77,
        quality: AudioQualityState { peak_left: 1, peak_right: 2, underrun_count: 3, sample_rate: 48000, samples_captured: 5 },
        peaks: PeakTexts { amplitude: "0.5".to_string(), left: "0.25".to_string(), right: "0.75".to_string() },
    }
}

fn json(text: &str) -> Value {
    serde_json::from_str(text).unwrap()
}

// --- Commands --------------------------------------------------------------

#[test]
fn parse_start_recording_no_device() {
    let (cmd, id) = parsed(r#"{"cmd":"start_recording","id":"abc","payload":{}}"#).unwrap();
    assert_eq!(id, "abc");
    assert!(matches!(cmd, IpcCommand::StartRecording { device_index: None }));
}

#[test]
fn parse_start_recording_with_device() {
    let (cmd, _) = parsed(r#"{"cmd":"start_recording","id":"xyz","payload":{"device_index":2}}"#).unwrap();
    assert!(matches!(cmd, IpcCommand::StartRecording { device_index: Some(2) }));
}

#[test]
fn parse_set_device_missing_index_is_error() {
    assert!(parsed(r#"{"cmd":"set_device","id":"1","payload":{}}"#).is_err());
}

#[test]
fn parse_unknown_command_is_error() {
    let r = parsed(r#"{"cmd":"fly_a_kite","id":"1","payload":{}}"#);
    assert!(r.is_err());
    assert!(matches!(r, Err(IpcError::UnknownCommand(_))));
}

#[test]
fn parse_bad_json_is_error() {
    assert!(matches!(parsed("{"), Err(IpcError::Serialization(_))));
}

#[test]
fn parse_all_other_commands() {
    let names = ["stop_recording", "pause_recording", "resume_recording", "subscribe_telemetry", "health", "stats"];
    for name in names {
        assert!(parsed(&format!(r#"{{"cmd":"{name}","id":"1","payload":{{}}}}"#)).is_ok(), "{name}");
    }
    let (cmd, _) = parsed(r#"{"cmd":"set_device","id":"1","payload":{"device_index":4294967297}}"#).unwrap();
    assert!(matches!(cmd, IpcCommand::SetDevice { device_index: 1 }));
    let (cmd, _) = parsed(r#"{"cmd":"update_config","id":"1","payload":{"a":1}}"#).unwrap();
    match cmd {
        IpcCommand::UpdateConfig { patch } => assert_eq!(json(&patch)["a"], 1),
        other => panic!("{:?}", other),
    }
}

#[test]
fn response_ok_serializes_without_error_field() {
    let s = ResponseEnvelope::ok("my-id").to_json().unwrap();
    assert!(s.contains("\"ok\":true"));
    assert!(!s.contains("\"error\""));
    assert!(!s.contains("\"data\""));
}

#[test]
fn response_err_serializes_error_field() {
    let s = ResponseEnvelope::err("my-id", "something went wrong").to_json().unwrap();
    assert!(s.contains("\"ok\":false"));
    assert!(s.contains("\"error\""));
}

#[test]
fn response_ok_data_serializes_data_field() {
    let data = r#"{"state":"idle"}"#.to_string();
    let s = ResponseEnvelope::ok_data("my-id", data).to_json().unwrap();
    assert!(s.contains("\"data\""));
    assert!(s.contains("\"state\""));
}

#[test]
fn parse_shutdown_command() {
    let (cmd, _) = parsed(r#"{"cmd":"shutdown","id":"s1","payload":{}}"#).unwrap();
    assert!(matches!(cmd, IpcCommand::Shutdown));
}

#[test]
fn parse_get_status() {
    let (cmd, _) = parsed(r#"{"cmd":"get_status","id":"g1","payload":{}}"#).unwrap();
    assert!(matches!(cmd, IpcCommand::GetStatus));
}

// --- Dispatcher ------------------------------------------------------------

fn started_line(e: &Effect) -> String {
    match e {
        Effect::AudioStarted { device_name, sample_rate, channels } => audio_started_event(
            &AudioStartedPayload { device_name: device_name.clone(), sample_rate: *sample_rate, channels: *channels, ts_ms: 1 },
            2,
        ),
        Effect::AudioStopped { duration_ms, total_frames } => audio_stopped_event(
            &AudioStoppedPayload { duration_ms: *duration_ms, total_frames: *total_frames, ts_ms: 1 },
            2,
        ),
        other => panic!("{:?}", other),
    }
}

#[test]
fn start_stop_flow_emits_telemetry_and_changes_state() {
    let mut d = Dispatcher::new();
    let h = d.handle_command(IpcCommand::StartRecording { device_index: Some(1) }, "id1", &around(1000));
    assert!(h.response.ok);
    assert!(matches!(d.state(), RecordingState::Recording { .. }));
    assert!(matches!(h.effects[0], Effect::SpawnTasks { device_index: Some(1) }));
    let v = json(&started_line(&h.effects[1]));
    assert_eq!(v["event"], "audio_started");
    assert_eq!(v["data"]["device_name"], "device-1");

    let h = d.handle_command(IpcCommand::GetStatus, "id2", &around(1500));
    assert!(h.response.ok);
    let data = json(&h.response.data.unwrap());
    assert_eq!(data["state"], "recording");
    assert_eq!(data["device_index"], 1);
    assert_eq!(data["started_at"], 1000);

    let h = d.handle_command(IpcCommand::StopRecording, "id3", &around(3500));
    assert!(h.response.ok);
    assert!(matches!(d.state(), RecordingState::Idle));
    assert!(matches!(h.effects[0], Effect::SignalShutdown));
    let v2 = json(&started_line(&h.effects[1]));
    assert_eq!(v2["event"], "audio_stopped");
    assert_eq!(v2["data"]["duration_ms"], 2500);
}

#[test]
fn pause_resume_transitions() {
    let mut d = Dispatcher::new();
    d.handle_command(IpcCommand::StartRecording { device_index: None }, "s1", &around(1));
    assert!(matches!(d.state(), RecordingState::Recording { .. }));
    let p = d.handle_command(IpcCommand::PauseRecording, "p1", &around(2));
    assert!(p.response.ok);
    assert!(matches!(d.state(), RecordingState::Paused { .. }));
    let r = d.handle_command(IpcCommand::ResumeRecording, "r1", &around(3));
    assert!(r.response.ok);
    assert_eq!(*d.state(), RecordingState::Recording { device_index: None, started_at: 1 });
}

#[test]
fn commands_out_of_turn_are_refused() {
    let mut d = Dispatcher::new();
    let h = d.handle_command(IpcCommand::PauseRecording, "a", &around(1));
    assert_eq!(h.response.error.as_deref(), Some("not_recording"));
    let h = d.handle_command(IpcCommand::ResumeRecording, "b", &around(1));
    assert_eq!(h.response.error.as_deref(), Some("not_paused"));
    let h = d.handle_command(IpcCommand::SubscribeTelemetry, "c", &around(1));
    assert_eq!(h.response.error.as_deref(), Some("unsupported_command"));
    let h = d.handle_command(IpcCommand::StopRecording, "d", &around(9));
    assert!(matches!(h.effects[..], [Effect::AudioStopped { duration_ms: 0, total_frames: 0 }]));
    assert_eq!(*d.state(), RecordingState::Idle);
    let h = d.handle_command(IpcCommand::Shutdown, "e", &around(9));
    assert!(matches!(h.effects[..], [Effect::Error { .. }]));
}

#[test]
fn health_and_stats() {
    let mut d = Dispatcher::new();
    let h = d.handle_command(IpcCommand::Health, "h", &around(1));
    let v = json(&h.response.data.unwrap());
    assert_eq!(v["status"], "ok");
    assert_eq!(v["recording_active"], false);
    assert_eq!(v["state"], "idle");
    assert_eq!(v["uptime_ms"], 77);
    let h = d.handle_command(IpcCommand::Stats, "s", &around(1));
    let v = json(&h.response.data.unwrap());
    assert_eq!(v["buffer_underruns"], 3);
    assert_eq!(v["peak_amplitude"], 0.5);
    assert_eq!(v["peak_left"], 0.25);
    assert_eq!(v["peak_right"], 0.75);
    assert_eq!(v["sample_rate"], 48000);
    assert_eq!(v["samples_captured"], 5);
    let h = d.handle_command(IpcCommand::GetStatus, "g", &around(1));
    assert_eq!(h.response.data.as_deref(), Some("{\"state\":\"idle\"}"));
}

fn frame(samples: &[i16], channels: u16) -> PcmFrame {
    PcmFrame {
        data: samples.iter().flat_map(|s| s.to_le_bytes()).collect(),
        format: PcmFormat { sample_rate: 44100, channels, bit_depth: 16 },
        timestamp_us: 0,
        sequence: 0,
        frame_count: 2,
    }
}

#[test]
fn capture_feeds_the_metrics() {
    let mut q = AudioQualityState::default();
    let step = capture_step(&mut q, CaptureEvent::Frame(frame(&[-32768, 5, 100, -7], 2)));
    assert!(matches!(step, CaptureStep::Forward(_)));
    assert_eq!((q.peak_left, q.peak_right, q.samples_captured, q.sample_rate), (32768, 7, 2, 44100));
    assert!(q.is_clipping());
    capture_step(&mut q, CaptureEvent::Frame(frame(&[32439, 32439], 1)));
    assert_eq!((q.peak_left, q.peak_right), (32439, 0));
    assert!(!q.is_clipping());
    capture_step(&mut q, CaptureEvent::Frame(frame(&[32440], 1)));
    assert!(q.is_clipping());
    capture_step(&mut q, CaptureEvent::Frame(frame(&[], 2)));
    assert_eq!(q.underrun_count, 1);
    assert!(matches!(capture_step(&mut q, CaptureEvent::Failed), CaptureStep::End));
    assert_eq!(q.underrun_count, 2);
    assert!(matches!(capture_step(&mut q, CaptureEvent::Ended), CaptureStep::End));
    assert!(matches!(capture_step(&mut q, CaptureEvent::Shutdown), CaptureStep::StopCapture));
    assert_eq!(q.underrun_count, 2);
}

#[test]
fn shutdown_waits_for_tasks() {
    assert_eq!(shutdown_step(0, 9, Some(5)), ShutdownStep::Completed);
    assert_eq!(shutdown_step(1, 5, Some(5)), ShutdownStep::TimedOut);
    assert_eq!(shutdown_step(1, 4, Some(5)), ShutdownStep::Wait);
    assert_eq!(shutdown_step(1, u64::MAX, None), ShutdownStep::Wait);
}

// --- Server ----------------------------------------------------------------

#[test]
fn server_accepts_and_replies_get_status() {
    let mut d = Dispatcher::new();
    let req = r#"{"cmd":"get_status","id":"t1","payload":{}}"#;
    assert_eq!(classify_line(false, req), LineAction::Parse);
    match answer(&mut d, parsed(req), &around(1)) {
        Reply::Line { line, effects } => {
            let v = json(&line);
            assert!(v["ok"].as_bool().unwrap());
            assert_eq!(v["id"], "t1");
            assert_eq!(v["data"]["state"], "idle");
            assert!(line.ends_with('\n'));
            assert!(effects.is_empty());
        }
        other => panic!("{:?}", other),
    }
}

#[test]
fn telemetry_subscribe_streams_events() {
    let mut d = Dispatcher::new();
    let req = r#"{"cmd":"subscribe_telemetry","id":"s1","payload":{}}"#;
    match answer(&mut d, parsed(req), &around(1)) {
        Reply::Stream { line } => assert!(json(line.trim())["ok"].as_bool().unwrap()),
        other => panic!("{:?}", other),
    }
    let payload = AudioStartedPayload { device_name: "test-device".to_string(), sample_rate: 48000, channels: 2, ts_ms: 5 };
    let v2 = json(&audio_started_event(&payload, 6));
    assert_eq!(v2["event"], "audio_started");
}

#[test]
fn bad_lines_get_an_answer() {
    let mut d = Dispatcher::new();
    assert_eq!(classify_line(false, " \t\r\n"), LineAction::Skip);
    assert_eq!(classify_line(true, " "), LineAction::Shutdown);
    match answer(&mut d, parsed("{"), &around(1)) {
        Reply::Line { line, .. } => {
            let v = json(&line);
            assert_eq!(v["ok"], false);
            assert!(v["id"].is_null());
            assert!(v["error"].is_string());
        }
        other => panic!("{:?}", other),
    }
    let (line, effects) = farewell(&mut d, &around(1));
    let v = json(&line);
    assert_eq!(v["id"], "shutdown");
    assert_eq!(v["ok"], true);
    assert_eq!(effects.len(), 1);
}

#[test]
fn pipes_have_full_paths() {
    assert_eq!(pipe_path("bsm"), r"\\.\pipe\bsm");
    assert_eq!(pipe_path(r"\\.\pipe\bsm"), r"\\.\pipe\bsm");
    assert_eq!(pipe_path(r"\\.\pip"), r"\\.\pipe\\\.\pip");
}

// --- Telemetry -------------------------------------------------------------

#[test]
fn audio_started_event_is_valid_json() {
    let payload = AudioStartedPayload { device_name: "Stereo Mix".to_string(), sample_rate: 48000, channels: 2, ts_ms: 5 };
    let v = json(&audio_started_event(&payload, 6));
    assert_eq!(v["event"], "audio_started");
    assert_eq!(v["data"]["sample_rate"], 48000);
    assert_eq!(v["data"]["channels"], 2);
    assert_eq!(v["ts_ms"], 6);
    assert_eq!(v["data"]["ts_ms"], 5);
}

#[test]
fn audio_stopped_event_fields_present() {
    let payload = AudioStoppedPayload { duration_ms: 30_000, total_frames: 1_440_000, ts_ms: 5 };
    let v = json(&audio_stopped_event(&payload, 6));
    assert_eq!(v["event"], "audio_stopped");
    assert!(v["data"]["duration_ms"].is_number());
    assert_eq!(v["data"]["total_frames"], 1_440_000);
}

#[test]
fn error_event_contains_component() {
    let payload = ErrorPayload {
        code: "WASAPI_ERR".to_string(),
        message: "device lost".to_string(),
        component: "bsm-audio".to_string(),
        ts_ms: 5,
    };
    let v = json(&error_event(&payload, 6));
    assert_eq!(v["event"], "error_occurred");
    assert_eq!(v["data"]["component"], "bsm-audio");
}

#[test]
fn other_events_are_valid_json() {
    let stats = AudioStatsPayload {
        rms_left: "0.1".to_string(),
        rms_right: "0.2".to_string(),
        peak_left: "0.3".to_string(),
        peak_right: "0.4".to_string(),
        clipping: true,
        queue_depth: 9,
        ts_ms: 5,
    };
    let v = json(&audio_stats_event(&stats, 6));
    assert_eq!(v["event"], "audio_stats");
    assert_eq!(v["data"]["peak_right"], 0.4);
    assert_eq!(v["data"]["clipping"], true);
    let enc = EncoderStatsPayload {
        bitrate_kbps: "128.0".to_string(),
        encode_time_avg_us: 1,
        encode_time_max_us: 2,
        queue_depth: 3,
        packets_encoded: 4,
        frames_dropped: 5,
        ts_ms: 6,
    };
    let v = json(&encoder_stats_event(&enc, 7));
    assert_eq!(v["event"], "encoder_stats");
    assert_eq!(v["data"]["packets_encoded"], 4);
    let disk = DiskStatsPayload {
        file_size_mb: "1.23".to_string(),
        disk_free_mb: "1024.0".to_string(),
        output_path: "./out \"put\".wav".to_string(),
        ts_ms: 8,
    };
    let v = json(&disk_stats_event(&disk, 9));
    assert_eq!(v["event"], "disk_stats");
    assert_eq!(v["data"]["output_path"], "./out \"put\".wav");
}

// --- HRT -------------------------------------------------------------------

#[test]
fn heartbeat_json_contains_required_fields() {
    let line = heartbeat_line(state::RecordingState::Idle, 100, 0);
    assert_eq!(line.trim_end(), r#"{"msg":"heartbeat","agent_id":"bsm","state":"idle","uptime_ms":100,"ts_ms":0}"#);
    let v = json(&line);
    assert_eq!(v["msg"], "heartbeat");
    assert_eq!(v["agent_id"], "bsm");
    assert!(v["state"].is_string());
}

#[test]
fn register_json_contains_capabilities() {
    let line = register_line();
    assert_eq!(line.trim_end(), r#"{"msg":"register","agent_id":"bsm","version":"0.1.0","capabilities":["audio_record","audio_encode"]}"#);
    let v = json(&line);
    assert_eq!(v["msg"], "register");
    let caps = v["capabilities"].as_array().unwrap();
    assert!(caps.contains(&Value::from("audio_record")));
}

fn inbound(msg: &str, data: &str) -> HrtInboundMsg {
    HrtInboundMsg { msg: msg.to_string(), data: data.to_string() }
}

#[test]
fn throttling_is_reported() {
    let r = handle_inbound_message(&inbound("THROTTLE", r#"{"level":0.5}"#), 12);
    assert!(!r.shutdown);
    assert_eq!(r.emit.as_deref(), Some(r#"{"data":{"level":0.5},"event":"hrt_throttle","ts_ms":12}"#));
    let r = handle_inbound_message(&inbound("throttle", r#"{"level":"x","percent":3}"#), 12);
    assert_eq!(json(&r.emit.unwrap())["data"]["level"], 3.0);
    let r = handle_inbound_message(&inbound("throttle", r#"{"value":7,"percent":3}"#), 12);
    assert_eq!(json(&r.emit.unwrap())["data"]["level"], 7.0);
    let r = handle_inbound_message(&inbound("throttle", "{}"), 12);
    assert!(r.emit.is_none());
}

#[test]
fn emergency_stops_shut_down() {
    for tag in ["e-stop", "EStop", "Emergency_STOP"] {
        let r = handle_inbound_message(&inbound(tag, r#"{"why":"heat"}"#), 1);
        assert!(r.shutdown, "{tag}");
        let v = json(&r.emit.unwrap());
        assert_eq!(v["event"], "hrt_emergency_stop");
        assert_eq!(v["data"]["why"], "heat");
    }
}

#[test]
fn other_messages_are_reported() {
    let r = handle_inbound_message(&inbound("Ack", "{}"), 1);
    assert!(!r.shutdown);
    assert_eq!(json(&r.emit.unwrap())["event"], "hrt_ack");
    let r = handle_inbound_message(&inbound("Dance\"", r#"{"a":1}"#), 1);
    let v = json(&r.emit.unwrap());
    assert_eq!(v["event"], "hrt_unknown");
    assert_eq!(v["data"]["msg"], "Dance\"");
    assert_eq!(v["data"]["payload"]["a"], 1);
    // The Kelvin sign is small in the form of an ordinary letter.
    let r = handle_inbound_message(&inbound("AC\u{212A}", "{}"), 1);
    assert_eq!(json(&r.emit.unwrap())["event"], "hrt_ack");
    let r = act_on("acknowledge", None, &inbound("x", "null"), 1);
    assert_eq!(r.emit.as_deref(), Some(r#"{"data":null,"event":"hrt_ack","ts_ms":1}"#));
}

#[test]
fn sessions_and_bridges_step() {
    assert!(matches!(session_step(SessionEvent::Shutdown), SessionStep::End));
    assert!(matches!(session_step(SessionEvent::WriteFailed), SessionStep::End));
    assert!(matches!(session_step(SessionEvent::Closed), SessionStep::End));
    assert!(matches!(session_step(SessionEvent::Line(None)), SessionStep::Wait));
    assert!(matches!(session_step(SessionEvent::Line(Some(inbound("a", "{}")))), SessionStep::Forward(_)));
    let tick = SessionEvent::Tick { state: state::RecordingState::Paused, uptime_ms: 4, ts_ms: 5 };
    match session_step(tick) {
        SessionStep::Write(line) => assert_eq!(json(&line)["state"], "paused"),
        other => panic!("{:?}", other),
    }
    assert!(matches!(bridge_step(BridgeEvent::Lagged), BridgeStep::Wait));
    assert!(matches!(bridge_step(BridgeEvent::Closed), BridgeStep::Stop));
    assert!(matches!(bridge_step(BridgeEvent::Shutdown), BridgeStep::Stop));
    assert!(matches!(bridge_step(BridgeEvent::Message(inbound("a", "{}"))), BridgeStep::Route(_)));
}

#[test]
fn literals_are_escaped() {
    let text = "a\"b\\c\u{8}\t\n\u{c}\r\u{0}\u{1f}\u{7f}\u{e9}/";
    let expected = r#""a\"b\\c\b\t\n\f\r\u0000\u001f"#.to_string() + "\u{7f}\u{e9}/\"";
    assert_eq!(json_string(text), expected);
    assert_eq!(json_string(""), "\"\"");
}
