//! Telemetry events as JSON text, each a single line.
use crate::json;
use crate::json::{bool_of, extend, extend_literal, extend_number};
use crate::text;
use crate::text::owned;
use vstd::prelude::*;

verus! {

// ---------------------------------------------------------------------------
// Event payload structs
// ---------------------------------------------------------------------------
#[derive(Debug, Clone)]
pub struct AudioStartedPayload {
    pub device_name: String,
    pub sample_rate: u32,
    pub channels: u16,
    pub ts_ms: u64,
}

#[derive(Debug, Clone, Copy)]
pub struct AudioStoppedPayload {
    pub duration_ms: u64,
    pub total_frames: u64,
    pub ts_ms: u64,
}

/// The levels are JSON numbers.
#[derive(Debug, Clone)]
pub struct AudioStatsPayload {
    pub rms_left: String,
    pub rms_right: String,
    pub peak_left: String,
    pub peak_right: String,
    pub clipping: bool,
    pub queue_depth: usize,
    pub ts_ms: u64,
}

/// The bit rate is a JSON number.
#[derive(Debug, Clone)]
pub struct EncoderStatsPayload {
    pub bitrate_kbps: String,
    pub encode_time_avg_us: u64,
    pub encode_time_max_us: u64,
    pub queue_depth: usize,
    pub packets_encoded: u64,
    pub frames_dropped: u64,
    pub ts_ms: u64,
}

/// The sizes are JSON numbers.
#[derive(Debug, Clone)]
pub struct DiskStatsPayload {
    pub file_size_mb: String,
    pub disk_free_mb: String,
    pub output_path: String,
    pub ts_ms: u64,
}

#[derive(Debug, Clone)]
pub struct ErrorPayload {
    pub code: String,
    pub message: String,
    pub component: String,
    pub ts_ms: u64,
}

fn push_number(s: &mut String, key: &str, n: u64)
    ensures
        final(s)@ == old(s)@ + key@ + text::decimal(n as nat),
        json::is_line(old(s)@) && json::is_line(key@) ==> json::is_line(final(s)@),
{
    extend(s, key);
    extend_number(s, n);
}

fn push_text(s: &mut String, key: &str, value: &str)
    ensures
        final(s)@ == old(s)@ + key@ + json::string_literal(value@),
        json::is_line(old(s)@) && json::is_line(key@) ==> json::is_line(final(s)@),
{
    extend(s, key);
    extend_literal(s, value);
}

fn push_raw(s: &mut String, key: &str, value: &str)
    ensures
        final(s)@ == old(s)@ + key@ + value@,
        json::is_line(old(s)@) && json::is_line(key@) && json::is_line(value@) ==> json::is_line(
            final(s)@,
        ),
{
    extend(s, key);
    extend(s, value);
}

impl AudioStartedPayload {
    /// The members in alphabetical order.
    pub open spec fn text(&self) -> Seq<char> {
        "{\"channels\":"@ + text::decimal(self.channels as nat) + ",\"device_name\":"@
            + json::string_literal(self.device_name@) + ",\"sample_rate\":"@ + text::decimal(
            self.sample_rate as nat,
        ) + ",\"ts_ms\":"@ + text::decimal(self.ts_ms as nat) + "}"@
    }

    pub fn to_json(&self) -> (s: String)
        ensures
            s@ == self.text(),
            json::is_line(s@),
    {
        proof {
            reveal_strlit("{\"channels\":");
            reveal_strlit(",\"device_name\":");
            reveal_strlit(",\"sample_rate\":");
            reveal_strlit(",\"ts_ms\":");
            reveal_strlit("}");
        }
        let mut s = owned("{\"channels\":");
        extend_number(&mut s, self.channels as u64);
        push_text(&mut s, ",\"device_name\":", self.device_name.as_str());
        push_number(&mut s, ",\"sample_rate\":", self.sample_rate as u64);
        push_number(&mut s, ",\"ts_ms\":", self.ts_ms);
        extend(&mut s, "}");
        s
    }
}

impl AudioStoppedPayload {
    /// The members in alphabetical order.
    pub open spec fn text(&self) -> Seq<char> {
        "{\"duration_ms\":"@ + text::decimal(self.duration_ms as nat) + ",\"total_frames\":"@
            + text::decimal(self.total_frames as nat) + ",\"ts_ms\":"@ + text::decimal(
            self.ts_ms as nat,
        ) + "}"@
    }

    pub fn to_json(&self) -> (s: String)
        ensures
            s@ == self.text(),
            json::is_line(s@),
    {
        proof {
            reveal_strlit("{\"duration_ms\":");
            reveal_strlit(",\"total_frames\":");
            reveal_strlit(",\"ts_ms\":");
            reveal_strlit("}");
        }
        let mut s = owned("{\"duration_ms\":");
        extend_number(&mut s, self.duration_ms);
        push_number(&mut s, ",\"total_frames\":", self.total_frames);
        push_number(&mut s, ",\"ts_ms\":", self.ts_ms);
        extend(&mut s, "}");
        s
    }
}

impl AudioStatsPayload {
    /// The members in alphabetical order.
    pub open spec fn text(&self) -> Seq<char> {
        "{\"clipping\":"@ + json::bool_text(self.clipping) + ",\"peak_left\":"@ + self.peak_left@
            + ",\"peak_right\":"@ + self.peak_right@ + ",\"queue_depth\":"@ + text::decimal(
            self.queue_depth as nat,
        ) + ",\"rms_left\":"@ + self.rms_left@ + ",\"rms_right\":"@ + self.rms_right@
            + ",\"ts_ms\":"@ + text::decimal(self.ts_ms as nat) + "}"@
    }

    /// Whether the numbers hold no line end.
    pub open spec fn has_lines(&self) -> bool {
        &&& json::is_line(self.peak_left@)
        &&& json::is_line(self.peak_right@)
        &&& json::is_line(self.rms_left@)
        &&& json::is_line(self.rms_right@)
    }

    pub fn to_json(&self) -> (s: String)
        ensures
            s@ == self.text(),
            self.has_lines() ==> json::is_line(s@),
    {
        proof {
            reveal_strlit("{\"clipping\":");
            reveal_strlit(",\"peak_left\":");
            reveal_strlit(",\"peak_right\":");
            reveal_strlit(",\"queue_depth\":");
            reveal_strlit(",\"rms_left\":");
            reveal_strlit(",\"rms_right\":");
            reveal_strlit(",\"ts_ms\":");
            reveal_strlit("}");
        }
        let mut s = owned("{\"clipping\":");
        extend(&mut s, bool_of(self.clipping));
        push_raw(&mut s, ",\"peak_left\":", self.peak_left.as_str());
        push_raw(&mut s, ",\"peak_right\":", self.peak_right.as_str());
        push_number(&mut s, ",\"queue_depth\":", self.queue_depth as u64);
        push_raw(&mut s, ",\"rms_left\":", self.rms_left.as_str());
        push_raw(&mut s, ",\"rms_right\":", self.rms_right.as_str());
        push_number(&mut s, ",\"ts_ms\":", self.ts_ms);
        extend(&mut s, "}");
        s
    }
}

impl EncoderStatsPayload {
    /// The members in alphabetical order.
    pub open spec fn text(&self) -> Seq<char> {
        "{\"bitrate_kbps\":"@ + self.bitrate_kbps@ + ",\"encode_time_avg_us\":"@ + text::decimal(
            self.encode_time_avg_us as nat,
        ) + ",\"encode_time_max_us\":"@ + text::decimal(self.encode_time_max_us as nat)
            + ",\"frames_dropped\":"@ + text::decimal(self.frames_dropped as nat)
            + ",\"packets_encoded\":"@ + text::decimal(self.packets_encoded as nat)
            + ",\"queue_depth\":"@ + text::decimal(self.queue_depth as nat) + ",\"ts_ms\":"@
            + text::decimal(self.ts_ms as nat) + "}"@
    }

    /// Whether the numbers hold no line end.
    pub open spec fn has_lines(&self) -> bool {
        &&& json::is_line(self.bitrate_kbps@)
    }

    pub fn to_json(&self) -> (s: String)
        ensures
            s@ == self.text(),
            self.has_lines() ==> json::is_line(s@),
    {
        proof {
            reveal_strlit("{\"bitrate_kbps\":");
            reveal_strlit(",\"encode_time_avg_us\":");
            reveal_strlit(",\"encode_time_max_us\":");
            reveal_strlit(",\"frames_dropped\":");
            reveal_strlit(",\"packets_encoded\":");
            reveal_strlit(",\"queue_depth\":");
            reveal_strlit(",\"ts_ms\":");
            reveal_strlit("}");
        }
        let mut s = owned("{\"bitrate_kbps\":");
        extend(&mut s, self.bitrate_kbps.as_str());
        push_number(&mut s, ",\"encode_time_avg_us\":", self.encode_time_avg_us);
        push_number(&mut s, ",\"encode_time_max_us\":", self.encode_time_max_us);
        push_number(&mut s, ",\"frames_dropped\":", self.frames_dropped);
        push_number(&mut s, ",\"packets_encoded\":", self.packets_encoded);
        push_number(&mut s, ",\"queue_depth\":", self.queue_depth as u64);
        push_number(&mut s, ",\"ts_ms\":", self.ts_ms);
        extend(&mut s, "}");
        s
    }
}

impl DiskStatsPayload {
    /// The members in alphabetical order.
    pub open spec fn text(&self) -> Seq<char> {
        "{\"disk_free_mb\":"@ + self.disk_free_mb@ + ",\"file_size_mb\":"@ + self.file_size_mb@
            + ",\"output_path\":"@ + json::string_literal(self.output_path@) + ",\"ts_ms\":"@
            + text::decimal(self.ts_ms as nat) + "}"@
    }

    /// Whether the numbers hold no line end.
    pub open spec fn has_lines(&self) -> bool {
        &&& json::is_line(self.disk_free_mb@)
        &&& json::is_line(self.file_size_mb@)
    }

    pub fn to_json(&self) -> (s: String)
        ensures
            s@ == self.text(),
            self.has_lines() ==> json::is_line(s@),
    {
        proof {
            reveal_strlit("{\"disk_free_mb\":");
            reveal_strlit(",\"file_size_mb\":");
            reveal_strlit(",\"output_path\":");
            reveal_strlit(",\"ts_ms\":");
            reveal_strlit("}");
        }
        let mut s = owned("{\"disk_free_mb\":");
        extend(&mut s, self.disk_free_mb.as_str());
        push_raw(&mut s, ",\"file_size_mb\":", self.file_size_mb.as_str());
        push_text(&mut s, ",\"output_path\":", self.output_path.as_str());
        push_number(&mut s, ",\"ts_ms\":", self.ts_ms);
        extend(&mut s, "}");
        s
    }
}

impl ErrorPayload {
    /// The members in alphabetical order.
    pub open spec fn text(&self) -> Seq<char> {
        "{\"code\":"@ + json::string_literal(self.code@) + ",\"component\":"@ + json::string_literal(
            self.component@,
        ) + ",\"message\":"@ + json::string_literal(self.message@) + ",\"ts_ms\":"@ + text::decimal(
            self.ts_ms as nat,
        ) + "}"@
    }

    pub fn to_json(&self) -> (s: String)
        ensures
            s@ == self.text(),
            json::is_line(s@),
    {
        proof {
            reveal_strlit("{\"code\":");
            reveal_strlit(",\"component\":");
            reveal_strlit(",\"message\":");
            reveal_strlit(",\"ts_ms\":");
            reveal_strlit("}");
        }
        let mut s = owned("{\"code\":");
        extend_literal(&mut s, self.code.as_str());
        push_text(&mut s, ",\"component\":", self.component.as_str());
        push_text(&mut s, ",\"message\":", self.message.as_str());
        push_number(&mut s, ",\"ts_ms\":", self.ts_ms);
        extend(&mut s, "}");
        s
    }
}

// ---------------------------------------------------------------------------
// Generic event envelope
// ---------------------------------------------------------------------------
/// An event; its data is JSON text.
#[derive(Debug, Clone)]
pub struct TelemetryEnvelope {
    pub event: String,
    pub ts_ms: u64,
    pub data: String,
}

/// An event as JSON text.
pub open spec fn event_text(event: Seq<char>, ts_ms: nat, data: Seq<char>) -> Seq<char> {
    "{\"event\":"@ + json::string_literal(event) + ",\"ts_ms\":"@ + text::decimal(ts_ms)
        + ",\"data\":"@ + data + "}"@
}

impl TelemetryEnvelope {
    pub fn new(event: &str, ts_ms: u64, data: String) -> (e: Self)
        ensures
            e.event@ == event@,
            e.ts_ms == ts_ms,
            e.data == data,
    {
        TelemetryEnvelope { event: owned(event), ts_ms, data }
    }

    pub fn to_json(&self) -> (s: String)
        ensures
            s@ == event_text(self.event@, self.ts_ms as nat, self.data@),
            json::is_line(self.data@) ==> json::is_line(s@),
    {
        proof {
            reveal_strlit("{\"event\":");
            reveal_strlit(",\"ts_ms\":");
            reveal_strlit(",\"data\":");
            reveal_strlit("}");
        }
        let mut s = owned("{\"event\":");
        extend_literal(&mut s, self.event.as_str());
        push_number(&mut s, ",\"ts_ms\":", self.ts_ms);
        push_raw(&mut s, ",\"data\":", self.data.as_str());
        extend(&mut s, "}");
        s
    }
}

/// The event that audio capture started; `ts_ms` is the time of the event.
pub fn audio_started_event(payload: &AudioStartedPayload, ts_ms: u64) -> (s: String)
    ensures
        s@ == event_text("audio_started"@, ts_ms as nat, payload.text()),
        json::is_line(s@),
{
    TelemetryEnvelope::new("audio_started", ts_ms, payload.to_json()).to_json()
}

/// The event that audio capture stopped.
pub fn audio_stopped_event(payload: &AudioStoppedPayload, ts_ms: u64) -> (s: String)
    ensures
        s@ == event_text("audio_stopped"@, ts_ms as nat, payload.text()),
        json::is_line(s@),
{
    TelemetryEnvelope::new("audio_stopped", ts_ms, payload.to_json()).to_json()
}

/// The event that tells audio levels.
pub fn audio_stats_event(payload: &AudioStatsPayload, ts_ms: u64) -> (s: String)
    ensures
        s@ == event_text("audio_stats"@, ts_ms as nat, payload.text()),
        payload.has_lines() ==> json::is_line(s@),
{
    TelemetryEnvelope::new("audio_stats", ts_ms, payload.to_json()).to_json()
}

/// The event that tells encoder statistics.
pub fn encoder_stats_event(payload: &EncoderStatsPayload, ts_ms: u64) -> (s: String)
    ensures
        s@ == event_text("encoder_stats"@, ts_ms as nat, payload.text()),
        payload.has_lines() ==> json::is_line(s@),
{
    TelemetryEnvelope::new("encoder_stats", ts_ms, payload.to_json()).to_json()
}

/// The event that tells disk statistics.
pub fn disk_stats_event(payload: &DiskStatsPayload, ts_ms: u64) -> (s: String)
    ensures
        s@ == event_text("disk_stats"@, ts_ms as nat, payload.text()),
        payload.has_lines() ==> json::is_line(s@),
{
    TelemetryEnvelope::new("disk_stats", ts_ms, payload.to_json()).to_json()
}

/// The event that an error occurred.
pub fn error_event(payload: &ErrorPayload, ts_ms: u64) -> (s: String)
    ensures
        s@ == event_text("error_occurred"@, ts_ms as nat, payload.text()),
        json::is_line(s@),
{
    TelemetryEnvelope::new("error_occurred", ts_ms, payload.to_json()).to_json()
}

// ---------------------------------------------------------------------------
// Laws
// ---------------------------------------------------------------------------
/// The news of a start tells the channels, the device, the rate and the time.
pub proof fn started_tells_all(p: AudioStartedPayload)
    ensures
        json::tells(
            p.text(),
            seq![
                json::Member { key: "channels"@, value: text::decimal(p.channels as nat) },
                json::Member { key: "device_name"@, value: json::string_literal(p.device_name@) },
                json::Member { key: "sample_rate"@, value: text::decimal(p.sample_rate as nat) },
                json::Member { key: "ts_ms"@, value: text::decimal(p.ts_ms as nat) },
            ],
        ),
{
    let b0 = Seq::<char>::empty();
    assert(b0 + "{\"channels\":"@ =~= "{\"channels\":"@);
    let m0 = Seq::<json::Member>::empty();
    assert(json::opens_member("{\"channels\":"@, "channels"@)) by {
        reveal_strlit("{\"channels\":");
        reveal_strlit("channels");
    }
    assert(",\"device_name\":"@.len() >= 1
        && (",\"device_name\":"@[0] == ',' || ",\"device_name\":"@[0] == '}')) by {
        reveal_strlit(",\"device_name\":");
    }
    json::lemma_tells_next(
        b0,
        m0,
        "{\"channels\":"@,
        "channels"@,
        text::decimal(p.channels as nat),
        ",\"device_name\":"@,
    );
    let m1 = m0.push(json::Member { key: "channels"@, value: text::decimal(p.channels as nat) });
    let b1 = "{\"channels\":"@ + text::decimal(p.channels as nat);
    assert(json::opens_member(",\"device_name\":"@, "device_name"@)) by {
        reveal_strlit(",\"device_name\":");
        reveal_strlit("device_name");
    }
    assert(",\"sample_rate\":"@.len() >= 1
        && (",\"sample_rate\":"@[0] == ',' || ",\"sample_rate\":"@[0] == '}')) by {
        reveal_strlit(",\"sample_rate\":");
    }
    json::lemma_tells_next(
        b1,
        m1,
        ",\"device_name\":"@,
        "device_name"@,
        json::string_literal(p.device_name@),
        ",\"sample_rate\":"@,
    );
    let m2 = m1.push(
        json::Member { key: "device_name"@, value: json::string_literal(p.device_name@) },
    );
    let b2 = b1 + ",\"device_name\":"@ + json::string_literal(p.device_name@);
    assert(json::opens_member(",\"sample_rate\":"@, "sample_rate"@)) by {
        reveal_strlit(",\"sample_rate\":");
        reveal_strlit("sample_rate");
    }
    assert(",\"ts_ms\":"@.len() >= 1 && (",\"ts_ms\":"@[0] == ',' || ",\"ts_ms\":"@[0] == '}')) by {
        reveal_strlit(",\"ts_ms\":");
    }
    json::lemma_tells_next(
        b2,
        m2,
        ",\"sample_rate\":"@,
        "sample_rate"@,
        text::decimal(p.sample_rate as nat),
        ",\"ts_ms\":"@,
    );
    let m3 = m2.push(
        json::Member { key: "sample_rate"@, value: text::decimal(p.sample_rate as nat) },
    );
    let b3 = b2 + ",\"sample_rate\":"@ + text::decimal(p.sample_rate as nat);
    assert(json::opens_member(",\"ts_ms\":"@, "ts_ms"@)) by {
        reveal_strlit(",\"ts_ms\":");
        reveal_strlit("ts_ms");
    }
    assert("}"@.len() >= 1 && ("}"@[0] == ',' || "}"@[0] == '}')) by {
        reveal_strlit("}");
    }
    json::lemma_tells_next(b3, m3, ",\"ts_ms\":"@, "ts_ms"@, text::decimal(p.ts_ms as nat), "}"@);
    let m4 = m3.push(json::Member { key: "ts_ms"@, value: text::decimal(p.ts_ms as nat) });
    let b4 = b3 + ",\"ts_ms\":"@ + text::decimal(p.ts_ms as nat);
    assert(m4 =~= seq![
        json::Member { key: "channels"@, value: text::decimal(p.channels as nat) },
        json::Member { key: "device_name"@, value: json::string_literal(p.device_name@) },
        json::Member { key: "sample_rate"@, value: text::decimal(p.sample_rate as nat) },
        json::Member { key: "ts_ms"@, value: text::decimal(p.ts_ms as nat) },
    ]);
}

/// The news of a stop tells how long it took, how many frames came, and the time.
pub proof fn stopped_tells_all(p: AudioStoppedPayload)
    ensures
        json::tells(
            p.text(),
            seq![
                json::Member { key: "duration_ms"@, value: text::decimal(p.duration_ms as nat) },
                json::Member { key: "total_frames"@, value: text::decimal(p.total_frames as nat) },
                json::Member { key: "ts_ms"@, value: text::decimal(p.ts_ms as nat) },
            ],
        ),
{
    let b0 = Seq::<char>::empty();
    assert(b0 + "{\"duration_ms\":"@ =~= "{\"duration_ms\":"@);
    let m0 = Seq::<json::Member>::empty();
    assert(json::opens_member("{\"duration_ms\":"@, "duration_ms"@)) by {
        reveal_strlit("{\"duration_ms\":");
        reveal_strlit("duration_ms");
    }
    assert(",\"total_frames\":"@.len() >= 1
        && (",\"total_frames\":"@[0] == ',' || ",\"total_frames\":"@[0] == '}')) by {
        reveal_strlit(",\"total_frames\":");
    }
    json::lemma_tells_next(
        b0,
        m0,
        "{\"duration_ms\":"@,
        "duration_ms"@,
        text::decimal(p.duration_ms as nat),
        ",\"total_frames\":"@,
    );
    let m1 = m0.push(
        json::Member { key: "duration_ms"@, value: text::decimal(p.duration_ms as nat) },
    );
    let b1 = "{\"duration_ms\":"@ + text::decimal(p.duration_ms as nat);
    assert(json::opens_member(",\"total_frames\":"@, "total_frames"@)) by {
        reveal_strlit(",\"total_frames\":");
        reveal_strlit("total_frames");
    }
    assert(",\"ts_ms\":"@.len() >= 1 && (",\"ts_ms\":"@[0] == ',' || ",\"ts_ms\":"@[0] == '}')) by {
        reveal_strlit(",\"ts_ms\":");
    }
    json::lemma_tells_next(
        b1,
        m1,
        ",\"total_frames\":"@,
        "total_frames"@,
        text::decimal(p.total_frames as nat),
        ",\"ts_ms\":"@,
    );
    let m2 = m1.push(
        json::Member { key: "total_frames"@, value: text::decimal(p.total_frames as nat) },
    );
    let b2 = b1 + ",\"total_frames\":"@ + text::decimal(p.total_frames as nat);
    assert(json::opens_member(",\"ts_ms\":"@, "ts_ms"@)) by {
        reveal_strlit(",\"ts_ms\":");
        reveal_strlit("ts_ms");
    }
    assert("}"@.len() >= 1 && ("}"@[0] == ',' || "}"@[0] == '}')) by {
        reveal_strlit("}");
    }
    json::lemma_tells_next(b2, m2, ",\"ts_ms\":"@, "ts_ms"@, text::decimal(p.ts_ms as nat), "}"@);
    let m3 = m2.push(json::Member { key: "ts_ms"@, value: text::decimal(p.ts_ms as nat) });
    let b3 = b2 + ",\"ts_ms\":"@ + text::decimal(p.ts_ms as nat);
    assert(m3 =~= seq![
        json::Member { key: "duration_ms"@, value: text::decimal(p.duration_ms as nat) },
        json::Member { key: "total_frames"@, value: text::decimal(p.total_frames as nat) },
        json::Member { key: "ts_ms"@, value: text::decimal(p.ts_ms as nat) },
    ]);
}

/// Audio levels are told side by side: left is left and right is right, peaks are
/// peaks and means are means.
pub proof fn levels_tell_all(p: AudioStatsPayload)
    ensures
        json::tells(
            p.text(),
            seq![
                json::Member { key: "clipping"@, value: json::bool_text(p.clipping) },
                json::Member { key: "peak_left"@, value: p.peak_left@ },
                json::Member { key: "peak_right"@, value: p.peak_right@ },
                json::Member { key: "queue_depth"@, value: text::decimal(p.queue_depth as nat) },
                json::Member { key: "rms_left"@, value: p.rms_left@ },
                json::Member { key: "rms_right"@, value: p.rms_right@ },
                json::Member { key: "ts_ms"@, value: text::decimal(p.ts_ms as nat) },
            ],
        ),
{
    let b0 = Seq::<char>::empty();
    assert(b0 + "{\"clipping\":"@ =~= "{\"clipping\":"@);
    let m0 = Seq::<json::Member>::empty();
    assert(json::opens_member("{\"clipping\":"@, "clipping"@)) by {
        reveal_strlit("{\"clipping\":");
        reveal_strlit("clipping");
    }
    assert(",\"peak_left\":"@.len() >= 1
        && (",\"peak_left\":"@[0] == ',' || ",\"peak_left\":"@[0] == '}')) by {
        reveal_strlit(",\"peak_left\":");
    }
    json::lemma_tells_next(
        b0,
        m0,
        "{\"clipping\":"@,
        "clipping"@,
        json::bool_text(p.clipping),
        ",\"peak_left\":"@,
    );
    let m1 = m0.push(json::Member { key: "clipping"@, value: json::bool_text(p.clipping) });
    let b1 = "{\"clipping\":"@ + json::bool_text(p.clipping);
    assert(json::opens_member(",\"peak_left\":"@, "peak_left"@)) by {
        reveal_strlit(",\"peak_left\":");
        reveal_strlit("peak_left");
    }
    assert(",\"peak_right\":"@.len() >= 1
        && (",\"peak_right\":"@[0] == ',' || ",\"peak_right\":"@[0] == '}')) by {
        reveal_strlit(",\"peak_right\":");
    }
    json::lemma_tells_next(
        b1,
        m1,
        ",\"peak_left\":"@,
        "peak_left"@,
        p.peak_left@,
        ",\"peak_right\":"@,
    );
    let m2 = m1.push(json::Member { key: "peak_left"@, value: p.peak_left@ });
    let b2 = b1 + ",\"peak_left\":"@ + p.peak_left@;
    assert(json::opens_member(",\"peak_right\":"@, "peak_right"@)) by {
        reveal_strlit(",\"peak_right\":");
        reveal_strlit("peak_right");
    }
    assert(",\"queue_depth\":"@.len() >= 1
        && (",\"queue_depth\":"@[0] == ',' || ",\"queue_depth\":"@[0] == '}')) by {
        reveal_strlit(",\"queue_depth\":");
    }
    json::lemma_tells_next(
        b2,
        m2,
        ",\"peak_right\":"@,
        "peak_right"@,
        p.peak_right@,
        ",\"queue_depth\":"@,
    );
    let m3 = m2.push(json::Member { key: "peak_right"@, value: p.peak_right@ });
    let b3 = b2 + ",\"peak_right\":"@ + p.peak_right@;
    assert(json::opens_member(",\"queue_depth\":"@, "queue_depth"@)) by {
        reveal_strlit(",\"queue_depth\":");
        reveal_strlit("queue_depth");
    }
    assert(",\"rms_left\":"@.len() >= 1
        && (",\"rms_left\":"@[0] == ',' || ",\"rms_left\":"@[0] == '}')) by {
        reveal_strlit(",\"rms_left\":");
    }
    json::lemma_tells_next(
        b3,
        m3,
        ",\"queue_depth\":"@,
        "queue_depth"@,
        text::decimal(p.queue_depth as nat),
        ",\"rms_left\":"@,
    );
    let m4 = m3.push(
        json::Member { key: "queue_depth"@, value: text::decimal(p.queue_depth as nat) },
    );
    let b4 = b3 + ",\"queue_depth\":"@ + text::decimal(p.queue_depth as nat);
    assert(json::opens_member(",\"rms_left\":"@, "rms_left"@)) by {
        reveal_strlit(",\"rms_left\":");
        reveal_strlit("rms_left");
    }
    assert(",\"rms_right\":"@.len() >= 1
        && (",\"rms_right\":"@[0] == ',' || ",\"rms_right\":"@[0] == '}')) by {
        reveal_strlit(",\"rms_right\":");
    }
    json::lemma_tells_next(b4, m4, ",\"rms_left\":"@, "rms_left"@, p.rms_left@, ",\"rms_right\":"@);
    let m5 = m4.push(json::Member { key: "rms_left"@, value: p.rms_left@ });
    let b5 = b4 + ",\"rms_left\":"@ + p.rms_left@;
    assert(json::opens_member(",\"rms_right\":"@, "rms_right"@)) by {
        reveal_strlit(",\"rms_right\":");
        reveal_strlit("rms_right");
    }
    assert(",\"ts_ms\":"@.len() >= 1 && (",\"ts_ms\":"@[0] == ',' || ",\"ts_ms\":"@[0] == '}')) by {
        reveal_strlit(",\"ts_ms\":");
    }
    json::lemma_tells_next(b5, m5, ",\"rms_right\":"@, "rms_right"@, p.rms_right@, ",\"ts_ms\":"@);
    let m6 = m5.push(json::Member { key: "rms_right"@, value: p.rms_right@ });
    let b6 = b5 + ",\"rms_right\":"@ + p.rms_right@;
    assert(json::opens_member(",\"ts_ms\":"@, "ts_ms"@)) by {
        reveal_strlit(",\"ts_ms\":");
        reveal_strlit("ts_ms");
    }
    assert("}"@.len() >= 1 && ("}"@[0] == ',' || "}"@[0] == '}')) by {
        reveal_strlit("}");
    }
    json::lemma_tells_next(b6, m6, ",\"ts_ms\":"@, "ts_ms"@, text::decimal(p.ts_ms as nat), "}"@);
    let m7 = m6.push(json::Member { key: "ts_ms"@, value: text::decimal(p.ts_ms as nat) });
    let b7 = b6 + ",\"ts_ms\":"@ + text::decimal(p.ts_ms as nat);
    assert(m7 =~= seq![
        json::Member { key: "clipping"@, value: json::bool_text(p.clipping) },
        json::Member { key: "peak_left"@, value: p.peak_left@ },
        json::Member { key: "peak_right"@, value: p.peak_right@ },
        json::Member { key: "queue_depth"@, value: text::decimal(p.queue_depth as nat) },
        json::Member { key: "rms_left"@, value: p.rms_left@ },
        json::Member { key: "rms_right"@, value: p.rms_right@ },
        json::Member { key: "ts_ms"@, value: text::decimal(p.ts_ms as nat) },
    ]);
}

/// Encoder statistics tell each number under its own name.
pub proof fn encoder_stats_tell_all(p: EncoderStatsPayload)
    ensures
        json::tells(
            p.text(),
            seq![
                json::Member { key: "bitrate_kbps"@, value: p.bitrate_kbps@ },
                json::Member {
                    key: "encode_time_avg_us"@,
                    value: text::decimal(p.encode_time_avg_us as nat),
                },
                json::Member {
                    key: "encode_time_max_us"@,
                    value: text::decimal(p.encode_time_max_us as nat),
                },
                json::Member {
                    key: "frames_dropped"@,
                    value: text::decimal(p.frames_dropped as nat),
                },
                json::Member {
                    key: "packets_encoded"@,
                    value: text::decimal(p.packets_encoded as nat),
                },
                json::Member { key: "queue_depth"@, value: text::decimal(p.queue_depth as nat) },
                json::Member { key: "ts_ms"@, value: text::decimal(p.ts_ms as nat) },
            ],
        ),
{
    let b0 = Seq::<char>::empty();
    assert(b0 + "{\"bitrate_kbps\":"@ =~= "{\"bitrate_kbps\":"@);
    let m0 = Seq::<json::Member>::empty();
    assert(json::opens_member("{\"bitrate_kbps\":"@, "bitrate_kbps"@)) by {
        reveal_strlit("{\"bitrate_kbps\":");
        reveal_strlit("bitrate_kbps");
    }
    assert(",\"encode_time_avg_us\":"@.len() >= 1
        && (",\"encode_time_avg_us\":"@[0] == ',' || ",\"encode_time_avg_us\":"@[0] == '}')) by {
        reveal_strlit(",\"encode_time_avg_us\":");
    }
    json::lemma_tells_next(
        b0,
        m0,
        "{\"bitrate_kbps\":"@,
        "bitrate_kbps"@,
        p.bitrate_kbps@,
        ",\"encode_time_avg_us\":"@,
    );
    let m1 = m0.push(json::Member { key: "bitrate_kbps"@, value: p.bitrate_kbps@ });
    let b1 = "{\"bitrate_kbps\":"@ + p.bitrate_kbps@;
    assert(json::opens_member(",\"encode_time_avg_us\":"@, "encode_time_avg_us"@)) by {
        reveal_strlit(",\"encode_time_avg_us\":");
        reveal_strlit("encode_time_avg_us");
    }
    assert(",\"encode_time_max_us\":"@.len() >= 1
        && (",\"encode_time_max_us\":"@[0] == ',' || ",\"encode_time_max_us\":"@[0] == '}')) by {
        reveal_strlit(",\"encode_time_max_us\":");
    }
    json::lemma_tells_next(
        b1,
        m1,
        ",\"encode_time_avg_us\":"@,
        "encode_time_avg_us"@,
        text::decimal(p.encode_time_avg_us as nat),
        ",\"encode_time_max_us\":"@,
    );
    let m2 = m1.push(
        json::Member {
            key: "encode_time_avg_us"@,
            value: text::decimal(p.encode_time_avg_us as nat),
        },
    );
    let b2 = b1 + ",\"encode_time_avg_us\":"@ + text::decimal(p.encode_time_avg_us as nat);
    assert(json::opens_member(",\"encode_time_max_us\":"@, "encode_time_max_us"@)) by {
        reveal_strlit(",\"encode_time_max_us\":");
        reveal_strlit("encode_time_max_us");
    }
    assert(",\"frames_dropped\":"@.len() >= 1
        && (",\"frames_dropped\":"@[0] == ',' || ",\"frames_dropped\":"@[0] == '}')) by {
        reveal_strlit(",\"frames_dropped\":");
    }
    json::lemma_tells_next(
        b2,
        m2,
        ",\"encode_time_max_us\":"@,
        "encode_time_max_us"@,
        text::decimal(p.encode_time_max_us as nat),
        ",\"frames_dropped\":"@,
    );
    let m3 = m2.push(
        json::Member {
            key: "encode_time_max_us"@,
            value: text::decimal(p.encode_time_max_us as nat),
        },
    );
    let b3 = b2 + ",\"encode_time_max_us\":"@ + text::decimal(p.encode_time_max_us as nat);
    assert(json::opens_member(",\"frames_dropped\":"@, "frames_dropped"@)) by {
        reveal_strlit(",\"frames_dropped\":");
        reveal_strlit("frames_dropped");
    }
    assert(",\"packets_encoded\":"@.len() >= 1
        && (",\"packets_encoded\":"@[0] == ',' || ",\"packets_encoded\":"@[0] == '}')) by {
        reveal_strlit(",\"packets_encoded\":");
    }
    json::lemma_tells_next(
        b3,
        m3,
        ",\"frames_dropped\":"@,
        "frames_dropped"@,
        text::decimal(p.frames_dropped as nat),
        ",\"packets_encoded\":"@,
    );
    let m4 = m3.push(
        json::Member { key: "frames_dropped"@, value: text::decimal(p.frames_dropped as nat) },
    );
    let b4 = b3 + ",\"frames_dropped\":"@ + text::decimal(p.frames_dropped as nat);
    assert(json::opens_member(",\"packets_encoded\":"@, "packets_encoded"@)) by {
        reveal_strlit(",\"packets_encoded\":");
        reveal_strlit("packets_encoded");
    }
    assert(",\"queue_depth\":"@.len() >= 1
        && (",\"queue_depth\":"@[0] == ',' || ",\"queue_depth\":"@[0] == '}')) by {
        reveal_strlit(",\"queue_depth\":");
    }
    json::lemma_tells_next(
        b4,
        m4,
        ",\"packets_encoded\":"@,
        "packets_encoded"@,
        text::decimal(p.packets_encoded as nat),
        ",\"queue_depth\":"@,
    );
    let m5 = m4.push(
        json::Member { key: "packets_encoded"@, value: text::decimal(p.packets_encoded as nat) },
    );
    let b5 = b4 + ",\"packets_encoded\":"@ + text::decimal(p.packets_encoded as nat);
    assert(json::opens_member(",\"queue_depth\":"@, "queue_depth"@)) by {
        reveal_strlit(",\"queue_depth\":");
        reveal_strlit("queue_depth");
    }
    assert(",\"ts_ms\":"@.len() >= 1 && (",\"ts_ms\":"@[0] == ',' || ",\"ts_ms\":"@[0] == '}')) by {
        reveal_strlit(",\"ts_ms\":");
    }
    json::lemma_tells_next(
        b5,
        m5,
        ",\"queue_depth\":"@,
        "queue_depth"@,
        text::decimal(p.queue_depth as nat),
        ",\"ts_ms\":"@,
    );
    let m6 = m5.push(
        json::Member { key: "queue_depth"@, value: text::decimal(p.queue_depth as nat) },
    );
    let b6 = b5 + ",\"queue_depth\":"@ + text::decimal(p.queue_depth as nat);
    assert(json::opens_member(",\"ts_ms\":"@, "ts_ms"@)) by {
        reveal_strlit(",\"ts_ms\":");
        reveal_strlit("ts_ms");
    }
    assert("}"@.len() >= 1 && ("}"@[0] == ',' || "}"@[0] == '}')) by {
        reveal_strlit("}");
    }
    json::lemma_tells_next(b6, m6, ",\"ts_ms\":"@, "ts_ms"@, text::decimal(p.ts_ms as nat), "}"@);
    let m7 = m6.push(json::Member { key: "ts_ms"@, value: text::decimal(p.ts_ms as nat) });
    let b7 = b6 + ",\"ts_ms\":"@ + text::decimal(p.ts_ms as nat);
    assert(m7 =~= seq![
        json::Member { key: "bitrate_kbps"@, value: p.bitrate_kbps@ },
        json::Member {
            key: "encode_time_avg_us"@,
            value: text::decimal(p.encode_time_avg_us as nat),
        },
        json::Member {
            key: "encode_time_max_us"@,
            value: text::decimal(p.encode_time_max_us as nat),
        },
        json::Member { key: "frames_dropped"@, value: text::decimal(p.frames_dropped as nat) },
        json::Member { key: "packets_encoded"@, value: text::decimal(p.packets_encoded as nat) },
        json::Member { key: "queue_depth"@, value: text::decimal(p.queue_depth as nat) },
        json::Member { key: "ts_ms"@, value: text::decimal(p.ts_ms as nat) },
    ]);
}

/// Disk statistics tell the free space, the size of the file, its path and the time.
pub proof fn disk_stats_tell_all(p: DiskStatsPayload)
    ensures
        json::tells(
            p.text(),
            seq![
                json::Member { key: "disk_free_mb"@, value: p.disk_free_mb@ },
                json::Member { key: "file_size_mb"@, value: p.file_size_mb@ },
                json::Member { key: "output_path"@, value: json::string_literal(p.output_path@) },
                json::Member { key: "ts_ms"@, value: text::decimal(p.ts_ms as nat) },
            ],
        ),
{
    let b0 = Seq::<char>::empty();
    assert(b0 + "{\"disk_free_mb\":"@ =~= "{\"disk_free_mb\":"@);
    let m0 = Seq::<json::Member>::empty();
    assert(json::opens_member("{\"disk_free_mb\":"@, "disk_free_mb"@)) by {
        reveal_strlit("{\"disk_free_mb\":");
        reveal_strlit("disk_free_mb");
    }
    assert(",\"file_size_mb\":"@.len() >= 1
        && (",\"file_size_mb\":"@[0] == ',' || ",\"file_size_mb\":"@[0] == '}')) by {
        reveal_strlit(",\"file_size_mb\":");
    }
    json::lemma_tells_next(
        b0,
        m0,
        "{\"disk_free_mb\":"@,
        "disk_free_mb"@,
        p.disk_free_mb@,
        ",\"file_size_mb\":"@,
    );
    let m1 = m0.push(json::Member { key: "disk_free_mb"@, value: p.disk_free_mb@ });
    let b1 = "{\"disk_free_mb\":"@ + p.disk_free_mb@;
    assert(json::opens_member(",\"file_size_mb\":"@, "file_size_mb"@)) by {
        reveal_strlit(",\"file_size_mb\":");
        reveal_strlit("file_size_mb");
    }
    assert(",\"output_path\":"@.len() >= 1
        && (",\"output_path\":"@[0] == ',' || ",\"output_path\":"@[0] == '}')) by {
        reveal_strlit(",\"output_path\":");
    }
    json::lemma_tells_next(
        b1,
        m1,
        ",\"file_size_mb\":"@,
        "file_size_mb"@,
        p.file_size_mb@,
        ",\"output_path\":"@,
    );
    let m2 = m1.push(json::Member { key: "file_size_mb"@, value: p.file_size_mb@ });
    let b2 = b1 + ",\"file_size_mb\":"@ + p.file_size_mb@;
    assert(json::opens_member(",\"output_path\":"@, "output_path"@)) by {
        reveal_strlit(",\"output_path\":");
        reveal_strlit("output_path");
    }
    assert(",\"ts_ms\":"@.len() >= 1 && (",\"ts_ms\":"@[0] == ',' || ",\"ts_ms\":"@[0] == '}')) by {
        reveal_strlit(",\"ts_ms\":");
    }
    json::lemma_tells_next(
        b2,
        m2,
        ",\"output_path\":"@,
        "output_path"@,
        json::string_literal(p.output_path@),
        ",\"ts_ms\":"@,
    );
    let m3 = m2.push(
        json::Member { key: "output_path"@, value: json::string_literal(p.output_path@) },
    );
    let b3 = b2 + ",\"output_path\":"@ + json::string_literal(p.output_path@);
    assert(json::opens_member(",\"ts_ms\":"@, "ts_ms"@)) by {
        reveal_strlit(",\"ts_ms\":");
        reveal_strlit("ts_ms");
    }
    assert("}"@.len() >= 1 && ("}"@[0] == ',' || "}"@[0] == '}')) by {
        reveal_strlit("}");
    }
    json::lemma_tells_next(b3, m3, ",\"ts_ms\":"@, "ts_ms"@, text::decimal(p.ts_ms as nat), "}"@);
    let m4 = m3.push(json::Member { key: "ts_ms"@, value: text::decimal(p.ts_ms as nat) });
    let b4 = b3 + ",\"ts_ms\":"@ + text::decimal(p.ts_ms as nat);
    assert(m4 =~= seq![
        json::Member { key: "disk_free_mb"@, value: p.disk_free_mb@ },
        json::Member { key: "file_size_mb"@, value: p.file_size_mb@ },
        json::Member { key: "output_path"@, value: json::string_literal(p.output_path@) },
        json::Member { key: "ts_ms"@, value: text::decimal(p.ts_ms as nat) },
    ]);
}

/// The news of an error tells its code, its component, its message and the time.
pub proof fn errors_tell_all(p: ErrorPayload)
    ensures
        json::tells(
            p.text(),
            seq![
                json::Member { key: "code"@, value: json::string_literal(p.code@) },
                json::Member { key: "component"@, value: json::string_literal(p.component@) },
                json::Member { key: "message"@, value: json::string_literal(p.message@) },
                json::Member { key: "ts_ms"@, value: text::decimal(p.ts_ms as nat) },
            ],
        ),
{
    let b0 = Seq::<char>::empty();
    assert(b0 + "{\"code\":"@ =~= "{\"code\":"@);
    let m0 = Seq::<json::Member>::empty();
    assert(json::opens_member("{\"code\":"@, "code"@)) by {
        reveal_strlit("{\"code\":");
        reveal_strlit("code");
    }
    assert(",\"component\":"@.len() >= 1
        && (",\"component\":"@[0] == ',' || ",\"component\":"@[0] == '}')) by {
        reveal_strlit(",\"component\":");
    }
    json::lemma_tells_next(
        b0,
        m0,
        "{\"code\":"@,
        "code"@,
        json::string_literal(p.code@),
        ",\"component\":"@,
    );
    let m1 = m0.push(json::Member { key: "code"@, value: json::string_literal(p.code@) });
    let b1 = "{\"code\":"@ + json::string_literal(p.code@);
    assert(json::opens_member(",\"component\":"@, "component"@)) by {
        reveal_strlit(",\"component\":");
        reveal_strlit("component");
    }
    assert(",\"message\":"@.len() >= 1
        && (",\"message\":"@[0] == ',' || ",\"message\":"@[0] == '}')) by {
        reveal_strlit(",\"message\":");
    }
    json::lemma_tells_next(
        b1,
        m1,
        ",\"component\":"@,
        "component"@,
        json::string_literal(p.component@),
        ",\"message\":"@,
    );
    let m2 = m1.push(json::Member { key: "component"@, value: json::string_literal(p.component@) });
    let b2 = b1 + ",\"component\":"@ + json::string_literal(p.component@);
    assert(json::opens_member(",\"message\":"@, "message"@)) by {
        reveal_strlit(",\"message\":");
        reveal_strlit("message");
    }
    assert(",\"ts_ms\":"@.len() >= 1 && (",\"ts_ms\":"@[0] == ',' || ",\"ts_ms\":"@[0] == '}')) by {
        reveal_strlit(",\"ts_ms\":");
    }
    json::lemma_tells_next(
        b2,
        m2,
        ",\"message\":"@,
        "message"@,
        json::string_literal(p.message@),
        ",\"ts_ms\":"@,
    );
    let m3 = m2.push(json::Member { key: "message"@, value: json::string_literal(p.message@) });
    let b3 = b2 + ",\"message\":"@ + json::string_literal(p.message@);
    assert(json::opens_member(",\"ts_ms\":"@, "ts_ms"@)) by {
        reveal_strlit(",\"ts_ms\":");
        reveal_strlit("ts_ms");
    }
    assert("}"@.len() >= 1 && ("}"@[0] == ',' || "}"@[0] == '}')) by {
        reveal_strlit("}");
    }
    json::lemma_tells_next(b3, m3, ",\"ts_ms\":"@, "ts_ms"@, text::decimal(p.ts_ms as nat), "}"@);
    let m4 = m3.push(json::Member { key: "ts_ms"@, value: text::decimal(p.ts_ms as nat) });
    let b4 = b3 + ",\"ts_ms\":"@ + text::decimal(p.ts_ms as nat);
    assert(m4 =~= seq![
        json::Member { key: "code"@, value: json::string_literal(p.code@) },
        json::Member { key: "component"@, value: json::string_literal(p.component@) },
        json::Member { key: "message"@, value: json::string_literal(p.message@) },
        json::Member { key: "ts_ms"@, value: text::decimal(p.ts_ms as nat) },
    ]);
}

/// An event tells its name, its time and its data.
pub proof fn events_tell_all(event: Seq<char>, ts_ms: nat, data: Seq<char>)
    ensures
        json::tells(
            event_text(event, ts_ms, data),
            seq![
                json::Member { key: "event"@, value: json::string_literal(event) },
                json::Member { key: "ts_ms"@, value: text::decimal(ts_ms) },
                json::Member { key: "data"@, value: data },
            ],
        ),
{
    let b0 = Seq::<char>::empty();
    assert(b0 + "{\"event\":"@ =~= "{\"event\":"@);
    let m0 = Seq::<json::Member>::empty();
    assert(json::opens_member("{\"event\":"@, "event"@)) by {
        reveal_strlit("{\"event\":");
        reveal_strlit("event");
    }
    assert(",\"ts_ms\":"@.len() >= 1 && (",\"ts_ms\":"@[0] == ',' || ",\"ts_ms\":"@[0] == '}')) by {
        reveal_strlit(",\"ts_ms\":");
    }
    json::lemma_tells_next(
        b0,
        m0,
        "{\"event\":"@,
        "event"@,
        json::string_literal(event),
        ",\"ts_ms\":"@,
    );
    let m1 = m0.push(json::Member { key: "event"@, value: json::string_literal(event) });
    let b1 = "{\"event\":"@ + json::string_literal(event);
    assert(json::opens_member(",\"ts_ms\":"@, "ts_ms"@)) by {
        reveal_strlit(",\"ts_ms\":");
        reveal_strlit("ts_ms");
    }
    assert(",\"data\":"@.len() >= 1 && (",\"data\":"@[0] == ',' || ",\"data\":"@[0] == '}')) by {
        reveal_strlit(",\"data\":");
    }
    json::lemma_tells_next(b1, m1, ",\"ts_ms\":"@, "ts_ms"@, text::decimal(ts_ms), ",\"data\":"@);
    let m2 = m1.push(json::Member { key: "ts_ms"@, value: text::decimal(ts_ms) });
    let b2 = b1 + ",\"ts_ms\":"@ + text::decimal(ts_ms);
    assert(json::opens_member(",\"data\":"@, "data"@)) by {
        reveal_strlit(",\"data\":");
        reveal_strlit("data");
    }
    assert("}"@.len() >= 1 && ("}"@[0] == ',' || "}"@[0] == '}')) by {
        reveal_strlit("}");
    }
    json::lemma_tells_next(b2, m2, ",\"data\":"@, "data"@, data, "}"@);
    let m3 = m2.push(json::Member { key: "data"@, value: data });
    let b3 = b2 + ",\"data\":"@ + data;
    assert(m3 =~= seq![
        json::Member { key: "event"@, value: json::string_literal(event) },
        json::Member { key: "ts_ms"@, value: text::decimal(ts_ms) },
        json::Member { key: "data"@, value: data },
    ]);
}

/// Each kind of news is an event of its own name and carries its payload.
pub proof fn events_have_names(
    a: AudioStartedPayload,
    b: AudioStoppedPayload,
    c: AudioStatsPayload,
    d: EncoderStatsPayload,
    e: DiskStatsPayload,
    f: ErrorPayload,
    t: u64,
    texts: Seq<String>,
)
    requires
        texts.len() == 6,
        call_ensures(audio_started_event, (&a, t), texts[0]),
        call_ensures(audio_stopped_event, (&b, t), texts[1]),
        call_ensures(audio_stats_event, (&c, t), texts[2]),
        call_ensures(encoder_stats_event, (&d, t), texts[3]),
        call_ensures(disk_stats_event, (&e, t), texts[4]),
        call_ensures(error_event, (&f, t), texts[5]),
    ensures
        texts[0]@ == event_text("audio_started"@, t as nat, a.text()),
        texts[1]@ == event_text("audio_stopped"@, t as nat, b.text()),
        texts[2]@ == event_text("audio_stats"@, t as nat, c.text()),
        texts[3]@ == event_text("encoder_stats"@, t as nat, d.text()),
        texts[4]@ == event_text("disk_stats"@, t as nat, e.text()),
        texts[5]@ == event_text("error_occurred"@, t as nat, f.text()),
{
}

} // verus!
