//! What IPC commands do: the recording state, replies, and what the program has to
//! carry out.
use crate::commands;
use crate::commands::{IpcCommand, ResponseEnvelope};
use crate::error::labelled;
use crate::json;
use crate::json::{bool_of, extend, extend_number};
use crate::pcm;
use crate::pcm::samples_of;
use crate::text;
use crate::text::{decimal_u64, owned};
use crate::types::PcmFrame;
use vstd::prelude::*;

verus! {

// ---------------------------------------------------------------------------
// Audio quality
// ---------------------------------------------------------------------------
/// Audio quality metrics. A peak is the largest magnitude of a 16-bit sample; full
/// scale is 32767.
#[derive(Debug, Clone, Copy, PartialEq, Eq, Structural)]
pub struct AudioQualityState {
    pub peak_left: u32,
    pub peak_right: u32,
    pub underrun_count: u64,
    pub sample_rate: u32,
    pub samples_captured: u64,
}

impl Default for AudioQualityState {
    fn default() -> (q: Self)
        ensures
            q == (AudioQualityState {
                peak_left: 0,
                peak_right: 0,
                underrun_count: 0,
                sample_rate: 0,
                samples_captured: 0,
            }),
    {
        AudioQualityState {
            peak_left: 0,
            peak_right: 0,
            underrun_count: 0,
            sample_rate: 0,
            samples_captured: 0,
        }
    }
}

/// The largest magnitude among the samples of channel `c`, of `channels`.
pub open spec fn peak_of(samples: Seq<i16>, channels: nat, c: nat) -> nat
    decreases samples.len(),
{
    if samples.len() == 0 {
        0
    } else {
        let before = peak_of(samples.drop_last(), channels, c);
        let i = (samples.len() - 1) as nat;
        if i % channels == c && pcm::magnitude(samples.last()) > before {
            pcm::magnitude(samples.last())
        } else {
            before
        }
    }
}

/// At least one channel.
pub open spec fn at_least_one(channels: u16) -> nat {
    if channels == 0 {
        1
    } else {
        channels as nat
    }
}

/// The metrics after a captured frame: 16-bit frames give new peaks, frames
/// without data count as underruns.
pub open spec fn observed(q: AudioQualityState, f: PcmFrame) -> AudioQualityState {
    let samples = pcm::samples16(f.data@);
    let channels = at_least_one(f.format.channels);
    if f.format.bit_depth == 16 && f.data.len() >= 2 {
        AudioQualityState {
            peak_left: peak_of(samples, channels, 0) as u32,
            peak_right: peak_of(samples, channels, 1) as u32,
            sample_rate: f.format.sample_rate,
            samples_captured: (q.samples_captured + f.frame_count) as u64,
            ..q
        }
    } else if f.data.len() == 0 {
        AudioQualityState { underrun_count: (q.underrun_count + 1) as u64, ..q }
    } else {
        q
    }
}

/// The largest magnitudes of two channels; see [`peak_of`].
fn peaks(samples: &[i16], channels: usize) -> (r: (u32, u32))
    requires
        channels >= 1,
    ensures
        r.0 == peak_of(samples@, channels as nat, 0),
        r.1 == peak_of(samples@, channels as nat, 1),
        r.0 <= 32768,
        r.1 <= 32768,
{
    let mut left: u32 = 0;
    let mut right: u32 = 0;
    let mut i: usize = 0;
    assert(samples@.take(0) =~= Seq::empty());
    while i < samples.len()
        invariant
            i <= samples.len(),
            channels >= 1,
            left <= 32768,
            right <= 32768,
            left == peak_of(samples@.take(i as int), channels as nat, 0),
            right == peak_of(samples@.take(i as int), channels as nat, 1),
        decreases samples.len() - i,
    {
        let s: i32 = samples[i] as i32;
        let m: u32 = if s < 0 {
            (-s) as u32
        } else {
            s as u32
        };
        let c: usize = i % channels;
        if c == 0 && m > left {
            left = m;
        }
        if c == 1 && m > right {
            right = m;
        }
        proof {
            assert(samples@.take(i + 1).drop_last() =~= samples@.take(i as int));
            assert(samples@.take(i + 1).last() == samples@[i as int]);
        }
        i = i + 1;
    }
    assert(samples@.take(samples@.len() as int) =~= samples@);
    (left, right)
}

impl AudioQualityState {
    /// See [`observed`].
    pub fn observe(&mut self, f: &PcmFrame)
        requires
            old(self).samples_captured + f.frame_count <= u64::MAX,
            old(self).underrun_count < u64::MAX,
        ensures
            *final(self) == observed(*old(self), *f),
    {
        if f.format.bit_depth == 16 && f.data.len() >= 2 {
            let samples: Vec<i16> = samples_of(f.data.as_slice());
            let channels: usize = if f.format.channels == 0 {
                1
            } else {
                f.format.channels as usize
            };
            let (left, right) = peaks(samples.as_slice(), channels);
            self.peak_left = left;
            self.peak_right = right;
            self.sample_rate = f.format.sample_rate;
            self.samples_captured = self.samples_captured + f.frame_count as u64;
        } else if f.data.len() == 0 {
            self.underrun_count = self.underrun_count + 1;
        }
    }

    /// Whether a peak reaches 99 % of full scale.
    pub fn is_clipping(&self) -> (r: bool)
        ensures
            r == (100 * self.peak_left >= 99 * 32767 || 100 * self.peak_right >= 99 * 32767),
    {
        100 * (self.peak_left as u64) >= 99 * 32767 || 100 * (self.peak_right as u64) >= 99 * 32767
    }
}

/// What the capture task hears.
#[derive(Debug)]
pub enum CaptureEvent {
    /// The tasks are told to stop.
    Shutdown,
    /// The capture gave a frame.
    Frame(PcmFrame),
    /// The capture has no more frames.
    Ended,
    /// The capture failed.
    Failed,
}

/// What the capture task does next.
#[derive(Debug)]
pub enum CaptureStep {
    /// Stop the capture and end.
    StopCapture,
    /// Hand the frame to the encoder and go on.
    Forward(PcmFrame),
    /// End.
    End,
}

/// What an event does to the metrics, and the step it calls for.
pub open spec fn capture_follows(
    before: AudioQualityState,
    event: CaptureEvent,
    after: AudioQualityState,
    r: CaptureStep,
) -> bool {
    match event {
        CaptureEvent::Shutdown => r == CaptureStep::StopCapture && after == before,
        CaptureEvent::Frame(f) => r == CaptureStep::Forward(f) && after == observed(before, f),
        CaptureEvent::Ended => r == CaptureStep::End && after == before,
        CaptureEvent::Failed => r == CaptureStep::End && after == (AudioQualityState {
            underrun_count: (before.underrun_count + 1) as u64,
            ..before
        }),
    }
}

/// The step that an event calls for; frames and failures count in the metrics.
pub fn capture_step(quality: &mut AudioQualityState, event: CaptureEvent) -> (r: CaptureStep)
    requires
        event matches CaptureEvent::Frame(f) ==> old(quality).samples_captured + f.frame_count
            <= u64::MAX,
        old(quality).underrun_count < u64::MAX,
    ensures
        capture_follows(*old(quality), event, *final(quality), r),
{
    match event {
        CaptureEvent::Shutdown => CaptureStep::StopCapture,
        CaptureEvent::Frame(f) => {
            quality.observe(&f);
            CaptureStep::Forward(f)
        },
        CaptureEvent::Ended => CaptureStep::End,
        CaptureEvent::Failed => {
            quality.underrun_count = quality.underrun_count + 1;
            CaptureStep::End
        },
    }
}

// ---------------------------------------------------------------------------
// Commands
// ---------------------------------------------------------------------------
#[derive(Debug, Clone, Copy, PartialEq, Eq, Structural)]
pub enum RecordingState {
    Idle,
    Recording { device_index: Option<u32>, started_at: u64 },
    Paused { device_index: Option<u32>, started_at: u64 },
}

/// What the program carries out for a command.
#[derive(Debug)]
pub enum Effect {
    /// Start capture, encoder and statistics.
    SpawnTasks { device_index: Option<u32> },
    /// Tell the running tasks to stop.
    SignalShutdown,
    /// Emit that audio started.
    AudioStarted { device_name: String, sample_rate: u32, channels: u16 },
    /// Emit that audio stopped.
    AudioStopped { duration_ms: u64, total_frames: u64 },
    /// Emit an error.
    Error { code: String, message: String, component: String },
}

pub enum EffectView {
    SpawnTasks { device_index: Option<u32> },
    SignalShutdown,
    AudioStarted { device_name: Seq<char>, sample_rate: u32, channels: u16 },
    AudioStopped { duration_ms: u64, total_frames: u64 },
    Error { code: Seq<char>, message: Seq<char>, component: Seq<char> },
}

impl View for Effect {
    type V = EffectView;

    open spec fn view(&self) -> EffectView {
        match self {
            Effect::SpawnTasks { device_index } => EffectView::SpawnTasks {
                device_index: *device_index,
            },
            Effect::SignalShutdown => EffectView::SignalShutdown,
            Effect::AudioStarted { device_name, sample_rate, channels } => EffectView::AudioStarted {
                device_name: device_name@,
                sample_rate: *sample_rate,
                channels: *channels,
            },
            Effect::AudioStopped { duration_ms, total_frames } => EffectView::AudioStopped {
                duration_ms: *duration_ms,
                total_frames: *total_frames,
            },
            Effect::Error { code, message, component } => EffectView::Error {
                code: code@,
                message: message@,
                component: component@,
            },
        }
    }
}

pub open spec fn effect_views(effects: Seq<Effect>) -> Seq<EffectView> {
    Seq::new(effects.len(), |i: int| effects[i]@)
}

/// Peaks as fractions of full scale, each written as a JSON number.
#[derive(Debug)]
pub struct PeakTexts {
    pub amplitude: String,
    pub left: String,
    pub right: String,
}

impl PeakTexts {
    /// Whether the numbers hold no line end.
    pub open spec fn are_lines(&self) -> bool {
        &&& json::is_line(self.amplitude@)
        &&& json::is_line(self.left@)
        &&& json::is_line(self.right@)
    }
}

/// What a command may need to know from outside: the time, how long the program
/// runs, and the audio metrics.
#[derive(Debug)]
pub struct Surroundings {
    pub now_ms: u64,
    pub uptime_ms: u64,
    pub quality: AudioQualityState,
    pub peaks: PeakTexts,
}

/// The response to a command and what it brings about.
#[derive(Debug)]
pub struct Handled {
    pub response: ResponseEnvelope,
    pub effects: Vec<Effect>,
}

/// The state that follows a command.
pub open spec fn next_state(state: RecordingState, cmd: IpcCommand, now_ms: u64) -> RecordingState {
    match cmd {
        IpcCommand::StartRecording { device_index } => RecordingState::Recording {
            device_index,
            started_at: now_ms,
        },
        IpcCommand::StopRecording => RecordingState::Idle,
        IpcCommand::PauseRecording => match state {
            RecordingState::Recording { device_index, started_at } => RecordingState::Paused {
                device_index,
                started_at,
            },
            _ => state,
        },
        IpcCommand::ResumeRecording => match state {
            RecordingState::Paused { device_index, started_at } => RecordingState::Recording {
                device_index,
                started_at,
            },
            _ => state,
        },
        _ => state,
    }
}

/// How long a recording has run; nothing where there is none or the clock went
/// back.
pub open spec fn duration_of(state: RecordingState, now_ms: u64) -> u64 {
    let started = match state {
        RecordingState::Idle => now_ms,
        RecordingState::Recording { started_at, .. } => started_at,
        RecordingState::Paused { started_at, .. } => started_at,
    };
    if now_ms > started {
        (now_ms - started) as u64
    } else {
        0
    }
}

pub open spec fn device_text(device_index: Option<u32>) -> Seq<char> {
    match device_index {
        Some(i) => "device-"@ + text::decimal(i as nat),
        None => "default-device"@,
    }
}

/// A number or null.
pub open spec fn index_text(device_index: Option<u32>) -> Seq<char> {
    match device_index {
        Some(i) => text::decimal(i as nat),
        None => "null"@,
    }
}

pub open spec fn state_name(state: RecordingState) -> Seq<char> {
    match state {
        RecordingState::Idle => "idle"@,
        RecordingState::Recording { .. } => "recording"@,
        RecordingState::Paused { .. } => "paused"@,
    }
}

/// The state as a JSON object, its members in alphabetical order.
pub open spec fn status_text(state: RecordingState) -> Seq<char> {
    match state {
        RecordingState::Idle => "{\"state\":\"idle\"}"@,
        RecordingState::Recording { device_index, started_at } => "{\"device_index\":"@
            + index_text(device_index) + ",\"started_at\":"@ + text::decimal(started_at as nat)
            + ",\"state\":\""@ + state_name(state) + "\"}"@,
        RecordingState::Paused { device_index, started_at } => "{\"device_index\":"@ + index_text(
            device_index,
        ) + ",\"started_at\":"@ + text::decimal(started_at as nat) + ",\"state\":\""@ + state_name(
            state,
        ) + "\"}"@,
    }
}

/// The answer to a liveness probe, its members in alphabetical order.
pub open spec fn health_text(state: RecordingState, uptime_ms: u64) -> Seq<char> {
    "{\"recording_active\":"@ + json::bool_text(state is Recording) + ",\"state\":\""@ + state_name(
        state,
    ) + "\",\"status\":\"ok\",\"uptime_ms\":"@ + text::decimal(uptime_ms as nat) + "}"@
}

/// The audio metrics, their members in alphabetical order.
pub open spec fn stats_text(q: AudioQualityState, peaks: PeakTexts) -> Seq<char> {
    "{\"buffer_underruns\":"@ + text::decimal(q.underrun_count as nat) + ",\"peak_amplitude\":"@
        + peaks.amplitude@ + ",\"peak_left\":"@ + peaks.left@ + ",\"peak_right\":"@ + peaks.right@
        + ",\"sample_rate\":"@ + text::decimal(q.sample_rate as nat) + ",\"samples_captured\":"@
        + text::decimal(q.samples_captured as nat) + "}"@
}

/// The response to a command.
pub open spec fn response_of(
    state: RecordingState,
    cmd: IpcCommand,
    id: Seq<char>,
    around: Surroundings,
) -> commands::ResponseView {
    match cmd {
        IpcCommand::PauseRecording => if state is Recording {
            commands::ok_response(id)
        } else {
            commands::error_response(id, "not_recording"@)
        },
        IpcCommand::ResumeRecording => if state is Paused {
            commands::ok_response(id)
        } else {
            commands::error_response(id, "not_paused"@)
        },
        IpcCommand::GetStatus => commands::data_response(id, status_text(state)),
        IpcCommand::Health => commands::data_response(id, health_text(state, around.uptime_ms)),
        IpcCommand::Stats => commands::data_response(
            id,
            stats_text(around.quality, around.peaks),
        ),
        IpcCommand::SubscribeTelemetry => commands::error_response(id, "unsupported_command"@),
        _ => commands::ok_response(id),
    }
}

/// What a command brings about; `running` tells whether tasks can be told to stop.
pub open spec fn effects_of(
    state: RecordingState,
    running: bool,
    cmd: IpcCommand,
    now_ms: u64,
) -> Seq<EffectView> {
    let signal = if running {
        seq![EffectView::SignalShutdown]
    } else {
        Seq::empty()
    };
    match cmd {
        IpcCommand::StartRecording { device_index } => seq![
            EffectView::SpawnTasks { device_index },
            EffectView::AudioStarted {
                device_name: device_text(device_index),
                sample_rate: 48000,
                channels: 2,
            },
        ],
        IpcCommand::StopRecording => signal.push(
            EffectView::AudioStopped {
                duration_ms: duration_of(state, now_ms),
                total_frames: 0,
            },
        ),
        IpcCommand::Shutdown => signal.push(
            EffectView::Error {
                code: "shutdown"@,
                message: "shutdown requested"@,
                component: "bsm-ipc"@,
            },
        ),
        _ => Seq::empty(),
    }
}

/// Handles the commands of one connection.
#[derive(Debug)]
pub struct Dispatcher {
    state: RecordingState,
    running: bool,
}

fn name_of(state: &RecordingState) -> (r: &'static str)
    ensures
        r@ == state_name(*state),
        json::is_line(r@),
{
    proof {
        reveal_strlit("idle");
        reveal_strlit("recording");
        reveal_strlit("paused");
    }
    match state {
        RecordingState::Idle => "idle",
        RecordingState::Recording { .. } => "recording",
        RecordingState::Paused { .. } => "paused",
    }
}

fn running_status(state: &RecordingState, device_index: Option<u32>, started_at: u64) -> (s: String)
    requires
        state is Recording || state is Paused,
        state matches RecordingState::Recording { device_index: d, started_at: t } ==> d
            == device_index && t == started_at,
        state matches RecordingState::Paused { device_index: d, started_at: t } ==> d
            == device_index && t == started_at,
    ensures
        s@ == status_text(*state),
        json::is_line(s@),
{
    proof {
        reveal_strlit("{\"device_index\":");
        reveal_strlit("null");
        reveal_strlit(",\"started_at\":");
        reveal_strlit(",\"state\":\"");
        reveal_strlit("\"}");
    }
    let mut s = owned("{\"device_index\":");
    match device_index {
        Some(i) => extend_number(&mut s, i as u64),
        None => extend(&mut s, "null"),
    }
    extend(&mut s, ",\"started_at\":");
    extend_number(&mut s, started_at);
    extend(&mut s, ",\"state\":\"");
    extend(&mut s, name_of(state));
    extend(&mut s, "\"}");
    s
}

fn status_of(state: &RecordingState) -> (s: String)
    ensures
        s@ == status_text(*state),
        json::is_line(s@),
{
    proof {
        reveal_strlit("{\"state\":\"idle\"}");
    }
    match state {
        RecordingState::Idle => owned("{\"state\":\"idle\"}"),
        RecordingState::Recording { device_index, started_at } => running_status(
            state,
            *device_index,
            *started_at,
        ),
        RecordingState::Paused { device_index, started_at } => running_status(
            state,
            *device_index,
            *started_at,
        ),
    }
}

fn health_of(state: &RecordingState, uptime_ms: u64) -> (s: String)
    ensures
        s@ == health_text(*state, uptime_ms),
        json::is_line(s@),
{
    let active: bool = match state {
        RecordingState::Recording { .. } => true,
        _ => false,
    };
    proof {
        reveal_strlit("{\"recording_active\":");
        reveal_strlit(",\"state\":\"");
        reveal_strlit("\",\"status\":\"ok\",\"uptime_ms\":");
        reveal_strlit("}");
    }
    let mut s = owned("{\"recording_active\":");
    extend(&mut s, bool_of(active));
    extend(&mut s, ",\"state\":\"");
    extend(&mut s, name_of(state));
    extend(&mut s, "\",\"status\":\"ok\",\"uptime_ms\":");
    extend_number(&mut s, uptime_ms);
    extend(&mut s, "}");
    s
}

fn stats_of(q: &AudioQualityState, peaks: &PeakTexts) -> (s: String)
    ensures
        s@ == stats_text(*q, *peaks),
        peaks.are_lines() ==> json::is_line(s@),
{
    proof {
        reveal_strlit("{\"buffer_underruns\":");
        reveal_strlit(",\"peak_amplitude\":");
        reveal_strlit(",\"peak_left\":");
        reveal_strlit(",\"peak_right\":");
        reveal_strlit(",\"sample_rate\":");
        reveal_strlit(",\"samples_captured\":");
        reveal_strlit("}");
    }
    let mut s = owned("{\"buffer_underruns\":");
    extend_number(&mut s, q.underrun_count);
    extend(&mut s, ",\"peak_amplitude\":");
    extend(&mut s, peaks.amplitude.as_str());
    extend(&mut s, ",\"peak_left\":");
    extend(&mut s, peaks.left.as_str());
    extend(&mut s, ",\"peak_right\":");
    extend(&mut s, peaks.right.as_str());
    extend(&mut s, ",\"sample_rate\":");
    extend_number(&mut s, q.sample_rate as u64);
    extend(&mut s, ",\"samples_captured\":");
    extend_number(&mut s, q.samples_captured);
    extend(&mut s, "}");
    s
}

fn signal_if(running: bool) -> (effects: Vec<Effect>)
    ensures
        effect_views(effects@) == if running {
            seq![EffectView::SignalShutdown]
        } else {
            Seq::empty()
        },
{
    let mut effects: Vec<Effect> = Vec::new();
    if running {
        effects.push(Effect::SignalShutdown);
        assert(effect_views(effects@) =~= seq![EffectView::SignalShutdown]);
    } else {
        assert(effect_views(effects@) =~= Seq::empty());
    }
    effects
}

fn push_effect(effects: &mut Vec<Effect>, e: Effect)
    ensures
        effect_views(final(effects)@) == effect_views(old(effects)@).push(e@),
{
    effects.push(e);
    assert(effect_views(effects@) =~= effect_views(old(effects)@).push(e@));
}

impl Dispatcher {
    pub closed spec fn current(&self) -> RecordingState {
        self.state
    }

    /// Whether tasks were started that can be told to stop.
    pub closed spec fn has_tasks(&self) -> bool {
        self.running
    }

    pub fn new() -> (d: Self)
        ensures
            d.current() == RecordingState::Idle,
            !d.has_tasks(),
    {
        Dispatcher { state: RecordingState::Idle, running: false }
    }

    /// Handle a single `IpcCommand`.
    pub fn handle_command(&mut self, cmd: IpcCommand, id: &str, around: &Surroundings) -> (r:
        Handled)
        ensures
            final(self).current() == next_state(old(self).current(), cmd, around.now_ms),
            final(self).has_tasks() == (old(self).has_tasks() || cmd is StartRecording),
            r.response@ == response_of(old(self).current(), cmd, id@, *around),
            around.peaks.are_lines() ==> (r.response@.data matches Some(d) ==> json::is_line(d)),
            effect_views(r.effects@) == effects_of(
                old(self).current(),
                old(self).has_tasks(),
                cmd,
                around.now_ms,
            ),
    {
        let none: Vec<Effect> = Vec::new();
        assert(effect_views(none@) =~= Seq::empty());
        match cmd {
            IpcCommand::StartRecording { device_index } => {
                self.running = true;
                self.state = RecordingState::Recording { device_index, started_at: around.now_ms };
                let device_name = match device_index {
                    Some(i) => labelled("device-", decimal_u64(i as u64).as_str()),
                    None => owned("default-device"),
                };
                let mut effects = none;
                push_effect(&mut effects, Effect::SpawnTasks { device_index });
                push_effect(
                    &mut effects,
                    Effect::AudioStarted { device_name, sample_rate: 48000, channels: 2 },
                );
                assert(effect_views(effects@) =~= effects_of(
                    old(self).current(),
                    old(self).has_tasks(),
                    cmd,
                    around.now_ms,
                ));
                Handled { response: ResponseEnvelope::ok(id), effects }
            },
            IpcCommand::StopRecording => {
                let started: u64 = match self.state {
                    RecordingState::Idle => around.now_ms,
                    RecordingState::Recording { started_at, .. } => started_at,
                    RecordingState::Paused { started_at, .. } => started_at,
                };
                let duration_ms: u64 = if around.now_ms > started {
                    around.now_ms - started
                } else {
                    0
                };
                let mut effects = signal_if(self.running);
                push_effect(&mut effects, Effect::AudioStopped { duration_ms, total_frames: 0 });
                self.state = RecordingState::Idle;
                Handled { response: ResponseEnvelope::ok(id), effects }
            },
            IpcCommand::PauseRecording => match self.state {
                RecordingState::Recording { device_index, started_at } => {
                    self.state = RecordingState::Paused { device_index, started_at };
                    Handled { response: ResponseEnvelope::ok(id), effects: none }
                },
                _ => Handled {
                    response: ResponseEnvelope::err(id, "not_recording"),
                    effects: none,
                },
            },
            IpcCommand::ResumeRecording => match self.state {
                RecordingState::Paused { device_index, started_at } => {
                    self.state = RecordingState::Recording { device_index, started_at };
                    Handled { response: ResponseEnvelope::ok(id), effects: none }
                },
                _ => Handled { response: ResponseEnvelope::err(id, "not_paused"), effects: none },
            },
            IpcCommand::GetStatus => Handled {
                response: ResponseEnvelope::ok_data(id, status_of(&self.state)),
                effects: none,
            },
            IpcCommand::SetDevice { .. } => Handled {
                response: ResponseEnvelope::ok(id),
                effects: none,
            },
            IpcCommand::UpdateConfig { .. } => Handled {
                response: ResponseEnvelope::ok(id),
                effects: none,
            },
            IpcCommand::Shutdown => {
                let mut effects = signal_if(self.running);
                push_effect(
                    &mut effects,
                    Effect::Error {
                        code: owned("shutdown"),
                        message: owned("shutdown requested"),
                        component: owned("bsm-ipc"),
                    },
                );
                Handled { response: ResponseEnvelope::ok(id), effects }
            },
            IpcCommand::Health => Handled {
                response: ResponseEnvelope::ok_data(id, health_of(&self.state, around.uptime_ms)),
                effects: none,
            },
            IpcCommand::Stats => Handled {
                response: ResponseEnvelope::ok_data(id, stats_of(&around.quality, &around.peaks)),
                effects: none,
            },
            IpcCommand::SubscribeTelemetry => Handled {
                response: ResponseEnvelope::err(id, "unsupported_command"),
                effects: none,
            },
        }
    }

    /// The tasks are gone.
    pub fn tasks_ended(&mut self)
        ensures
            !final(self).has_tasks(),
            final(self).current() == old(self).current(),
    {
        self.running = false;
    }

    pub fn state(&self) -> (s: &RecordingState)
        ensures
            *s == self.current(),
    {
        &self.state
    }
}

/// What to do while tasks end.
#[derive(Debug, Clone, Copy, PartialEq, Eq, Structural)]
pub enum ShutdownStep {
    Completed,
    TimedOut,
    Wait,
}

/// Shutdown is complete once no task is active, and given up at the deadline, if
/// there is one.
pub fn shutdown_step(active_tasks: usize, now_ms: u64, deadline_ms: Option<u64>) -> (r: ShutdownStep)
    ensures
        r == if active_tasks == 0 {
            ShutdownStep::Completed
        } else if deadline_ms matches Some(d) && now_ms >= d {
            ShutdownStep::TimedOut
        } else {
            ShutdownStep::Wait
        },
{
    if active_tasks == 0 {
        return ShutdownStep::Completed;
    }
    match deadline_ms {
        Some(d) => if now_ms >= d {
            ShutdownStep::TimedOut
        } else {
            ShutdownStep::Wait
        },
        None => ShutdownStep::Wait,
    }
}

// ---------------------------------------------------------------------------
// Laws
// ---------------------------------------------------------------------------
/// Resuming undoes pausing: device and start time are kept.
pub proof fn resume_undoes_pause(state: RecordingState, t1: u64, t2: u64)
    requires
        state is Recording,
    ensures
        next_state(next_state(state, IpcCommand::PauseRecording, t1), IpcCommand::ResumeRecording, t2)
            == state,
{
}

/// Every response carries the identifier of its command, and an error exactly
/// where it is not ok.
pub proof fn responses_answer_their_command(
    state: RecordingState,
    cmd: IpcCommand,
    id: Seq<char>,
    around: Surroundings,
)
    ensures
        ({
            let r = response_of(state, cmd, id, around);
            &&& r.id == id
            &&& r.ok == (r.error is None)
        }),
{
}

/// A command that is refused changes nothing and brings nothing about.
pub proof fn refused_commands_change_nothing(
    state: RecordingState,
    running: bool,
    cmd: IpcCommand,
    id: Seq<char>,
    around: Surroundings,
)
    requires
        !response_of(state, cmd, id, around).ok,
    ensures
        next_state(state, cmd, around.now_ms) == state,
        effects_of(state, running, cmd, around.now_ms) == Seq::<EffectView>::empty(),
{
}

/// Asking changes nothing.
pub proof fn queries_change_nothing(state: RecordingState, running: bool, cmd: IpcCommand, t: u64)
    requires
        cmd is GetStatus || cmd is Health || cmd is Stats,
    ensures
        next_state(state, cmd, t) == state,
        effects_of(state, running, cmd, t) == Seq::<EffectView>::empty(),
{
}

/// Whatever went before, a stop leaves nothing recorded and a start records the
/// named device from now on.
pub proof fn start_and_stop_settle_the_state(
    state: RecordingState,
    device_index: Option<u32>,
    now_ms: u64,
)
    ensures
        next_state(state, IpcCommand::StopRecording, now_ms) == RecordingState::Idle,
        next_state(state, IpcCommand::StartRecording { device_index }, now_ms)
            == (RecordingState::Recording { device_index, started_at: now_ms }),
{
}

/// Pausing and resuming keep the device and the start time, whether or not they
/// are carried out: a recording pauses, a paused one resumes, and nothing else
/// changes.
pub proof fn pausing_keeps_the_recording(
    device_index: Option<u32>,
    started_at: u64,
    now_ms: u64,
)
    ensures
        ({
            let recording = RecordingState::Recording { device_index, started_at };
            let paused = RecordingState::Paused { device_index, started_at };
            &&& next_state(recording, IpcCommand::PauseRecording, now_ms) == paused
            &&& next_state(paused, IpcCommand::PauseRecording, now_ms) == paused
            &&& next_state(paused, IpcCommand::ResumeRecording, now_ms) == recording
            &&& next_state(recording, IpcCommand::ResumeRecording, now_ms) == recording
            &&& next_state(RecordingState::Idle, IpcCommand::PauseRecording, now_ms)
                == RecordingState::Idle
            &&& next_state(RecordingState::Idle, IpcCommand::ResumeRecording, now_ms)
                == RecordingState::Idle
        }),
{
}

/// Only starting, stopping, pausing and resuming touch the recording.
pub proof fn other_commands_keep_the_recording(state: RecordingState, cmd: IpcCommand, now_ms: u64)
    requires
        !(cmd is StartRecording),
        !(cmd is StopRecording),
        !(cmd is PauseRecording),
        !(cmd is ResumeRecording),
    ensures
        next_state(state, cmd, now_ms) == state,
{
}

/// A recording is as long as the time from its start to now, paused or not, if the
/// clock went forward; where nothing is recorded, there is no length.
pub proof fn durations_count_from_the_start(
    device_index: Option<u32>,
    started_at: u64,
    now_ms: u64,
)
    ensures
        now_ms >= started_at ==> duration_of(
            RecordingState::Recording { device_index, started_at },
            now_ms,
        ) == now_ms - started_at,
        now_ms >= started_at ==> duration_of(
            RecordingState::Paused { device_index, started_at },
            now_ms,
        ) == now_ms - started_at,
        now_ms < started_at ==> duration_of(
            RecordingState::Recording { device_index, started_at },
            now_ms,
        ) == 0,
        now_ms < started_at ==> duration_of(
            RecordingState::Paused { device_index, started_at },
            now_ms,
        ) == 0,
        duration_of(RecordingState::Idle, now_ms) == 0,
{
}

/// What was started at one time and stopped at another, with any number of pauses
/// between them, is reported with the time between the two.
pub proof fn a_stop_reports_the_whole_recording(
    state: RecordingState,
    running: bool,
    device_index: Option<u32>,
    start_ms: u64,
    pause_ms: u64,
    stop_ms: u64,
)
    requires
        start_ms <= stop_ms,
    ensures
        ({
            let started = next_state(
                state,
                IpcCommand::StartRecording { device_index },
                start_ms,
            );
            let paused = next_state(started, IpcCommand::PauseRecording, pause_ms);
            &&& effects_of(started, running, IpcCommand::StopRecording, stop_ms).last()
                == (EffectView::AudioStopped {
                duration_ms: (stop_ms - start_ms) as u64,
                total_frames: 0,
            })
            &&& effects_of(paused, running, IpcCommand::StopRecording, stop_ms).last()
                == (EffectView::AudioStopped {
                duration_ms: (stop_ms - start_ms) as u64,
                total_frames: 0,
            })
        }),
{
}

/// A start brings about tasks for the named device and then the news of it; a stop
/// and a shutdown first tell running tasks to stop, if there are any, and then give
/// their own news; nothing else brings anything about.
pub proof fn effects_follow_the_command(
    state: RecordingState,
    running: bool,
    cmd: IpcCommand,
    now_ms: u64,
)
    ensures
        ({
            let effects = effects_of(state, running, cmd, now_ms);
            &&& cmd matches IpcCommand::StartRecording { device_index } ==> {
                &&& effects.len() == 2
                &&& effects[0] == (EffectView::SpawnTasks { device_index })
                &&& effects[1] matches EffectView::AudioStarted {
                    device_name,
                    sample_rate,
                    channels,
                } && sample_rate == 48000 && channels == 2 && match device_index {
                    Some(i) => device_name == "device-"@ + text::decimal(i as nat),
                    None => device_name == "default-device"@,
                }
            }
            &&& cmd is StopRecording || cmd is Shutdown ==> {
                &&& running ==> effects.len() == 2 && effects[0] is SignalShutdown
                &&& !running ==> effects.len() == 1
                &&& !(effects.last() is SignalShutdown)
            }
            &&& cmd is StopRecording ==> effects.last() is AudioStopped
            &&& cmd is Shutdown ==> effects.last() is Error
            &&& effects.len() > 0 ==> cmd is StartRecording || cmd is StopRecording
                || cmd is Shutdown
        }),
{
}

/// A pause is refused unless something is recorded, and a resume unless it is
/// paused; telemetry cannot be asked for here; everything else is answered well,
/// with data exactly where something was asked for.
pub proof fn responses_tell_what_was_done(
    state: RecordingState,
    cmd: IpcCommand,
    id: Seq<char>,
    around: Surroundings,
)
    ensures
        ({
            let r = response_of(state, cmd, id, around);
            &&& !r.ok <==> (cmd is PauseRecording && !(state is Recording)) || (
            cmd is ResumeRecording && !(state is Paused)) || cmd is SubscribeTelemetry
            &&& r.data is Some <==> cmd is GetStatus || cmd is Health || cmd is Stats
            &&& cmd is PauseRecording && !r.ok ==> r.error == Some("not_recording"@)
            &&& cmd is ResumeRecording && !r.ok ==> r.error == Some("not_paused"@)
            &&& cmd is SubscribeTelemetry ==> r.error == Some("unsupported_command"@)
        }),
{
}

/// A peak is the magnitude of a sample of its channel, or zero where the channel has
/// none, and no sample of the channel is louder.
pub proof fn peaks_bound_their_channel(samples: Seq<i16>, channels: nat, c: nat)
    requires
        c < channels,
    ensures
        forall|i: int|
            0 <= i < samples.len() && i % channels as int == c ==> peak_of(samples, channels, c)
                >= #[trigger] samples[i] && peak_of(samples, channels, c) >= -samples[i],
        peak_of(samples, channels, c) == 0 || exists|i: int|
            0 <= i < samples.len() && i % channels as int == c && (peak_of(samples, channels, c)
                == #[trigger] samples[i] || peak_of(samples, channels, c) == -samples[i]),
    decreases samples.len(),
{
    if samples.len() > 0 {
        let t = samples.drop_last();
        let n = samples.len() - 1;
        peaks_bound_their_channel(t, channels, c);
        let p = peak_of(samples, channels, c);
        assert(samples[n] == samples.last());
        assert forall|i: int| 0 <= i < samples.len() && i % channels as int == c implies p
            >= #[trigger] samples[i] && p >= -samples[i] by {
            if i < n {
                assert(t[i] == samples[i]);
            }
        }
        if p != 0 && p == peak_of(t, channels, c) {
            let i = choose|i: int|
                0 <= i < t.len() && i % channels as int == c && (p == #[trigger] t[i] || p
                    == -t[i]);
            assert(samples[i] == t[i]);
        }
    }
}

/// The metrics after a frame of 16-bit samples: peaks that no sample of the left and
/// the right channel exceeds, the frame's sample rate, and its frames counted.
pub proof fn frames_give_their_peaks(q: AudioQualityState, f: PcmFrame, i: int)
    requires
        f.format.bit_depth == 16,
        f.data.len() >= 2,
        f.format.channels >= 1,
        q.samples_captured + f.frame_count <= u64::MAX,
        0 <= i,
        2 * i + 1 < f.data.len(),
    ensures
        ({
            let after = observed(q, f);
            let u = f.data@[2 * i] + 256 * f.data@[2 * i + 1];
            let m = if u >= 32768 {
                65536 - u
            } else {
                u
            };
            &&& i % f.format.channels as int == 0 ==> after.peak_left >= m
            &&& i % f.format.channels as int == 1 ==> after.peak_right >= m
            &&& after.peak_left <= 32768
            &&& after.peak_right <= 32768
            &&& after.sample_rate == f.format.sample_rate
            &&& after.samples_captured == q.samples_captured + f.frame_count
            &&& after.underrun_count == q.underrun_count
        }),
{
    let samples = pcm::samples16(f.data@);
    let channels = f.format.channels as nat;
    lemma_peak_bound(samples, channels, 0);
    lemma_peak_bound(samples, channels, 1);
    pcm::each_sample_has_its_bytes(f.data@, i);
    pcm::samples_are_little_endian(f.data@[2 * i], f.data@[2 * i + 1]);
    peaks_bound_their_channel(samples, channels, 0);
    if channels > 1 {
        peaks_bound_their_channel(samples, channels, 1);
    }
    assert(samples[i] == pcm::sample16(f.data@[2 * i], f.data@[2 * i + 1]));
}

proof fn lemma_peak_bound(samples: Seq<i16>, channels: nat, c: nat)
    ensures
        peak_of(samples, channels, c) <= 32768,
    decreases samples.len(),
{
    if samples.len() > 0 {
        lemma_peak_bound(samples.drop_last(), channels, c);
    }
}

/// Only a frame without data counts as an underrun, and it changes nothing else;
/// other frames that are not of 16 bits change nothing.
pub proof fn empty_frames_are_underruns(q: AudioQualityState, f: PcmFrame)
    requires
        q.underrun_count < u64::MAX,
    ensures
        f.data.len() == 0 ==> observed(q, f).underrun_count == q.underrun_count + 1,
        f.data.len() == 0 ==> observed(q, f) == (AudioQualityState {
            underrun_count: observed(q, f).underrun_count,
            ..q
        }),
        f.data.len() > 0 ==> observed(q, f).underrun_count == q.underrun_count,
        f.data.len() > 0 && f.format.bit_depth != 16 ==> observed(q, f) == q,
{
}

/// The audio metrics are told each under its own name.
pub proof fn stats_tell_all(q: AudioQualityState, peaks: PeakTexts)
    ensures
        json::tells(
            stats_text(q, peaks),
            seq![
                json::Member {
                    key: "buffer_underruns"@,
                    value: text::decimal(q.underrun_count as nat),
                },
                json::Member { key: "peak_amplitude"@, value: peaks.amplitude@ },
                json::Member { key: "peak_left"@, value: peaks.left@ },
                json::Member { key: "peak_right"@, value: peaks.right@ },
                json::Member { key: "sample_rate"@, value: text::decimal(q.sample_rate as nat) },
                json::Member {
                    key: "samples_captured"@,
                    value: text::decimal(q.samples_captured as nat),
                },
            ],
        ),
{
    let b0 = Seq::<char>::empty();
    assert(b0 + "{\"buffer_underruns\":"@ =~= "{\"buffer_underruns\":"@);
    let m0 = Seq::<json::Member>::empty();
    assert(json::opens_member("{\"buffer_underruns\":"@, "buffer_underruns"@)) by {
        reveal_strlit("{\"buffer_underruns\":");
        reveal_strlit("buffer_underruns");
    }
    assert(",\"peak_amplitude\":"@.len() >= 1
        && (",\"peak_amplitude\":"@[0] == ',' || ",\"peak_amplitude\":"@[0] == '}')) by {
        reveal_strlit(",\"peak_amplitude\":");
    }
    json::lemma_tells_next(
        b0,
        m0,
        "{\"buffer_underruns\":"@,
        "buffer_underruns"@,
        text::decimal(q.underrun_count as nat),
        ",\"peak_amplitude\":"@,
    );
    let m1 = m0.push(
        json::Member { key: "buffer_underruns"@, value: text::decimal(q.underrun_count as nat) },
    );
    let b1 = "{\"buffer_underruns\":"@ + text::decimal(q.underrun_count as nat);
    assert(json::opens_member(",\"peak_amplitude\":"@, "peak_amplitude"@)) by {
        reveal_strlit(",\"peak_amplitude\":");
        reveal_strlit("peak_amplitude");
    }
    assert(",\"peak_left\":"@.len() >= 1
        && (",\"peak_left\":"@[0] == ',' || ",\"peak_left\":"@[0] == '}')) by {
        reveal_strlit(",\"peak_left\":");
    }
    json::lemma_tells_next(
        b1,
        m1,
        ",\"peak_amplitude\":"@,
        "peak_amplitude"@,
        peaks.amplitude@,
        ",\"peak_left\":"@,
    );
    let m2 = m1.push(json::Member { key: "peak_amplitude"@, value: peaks.amplitude@ });
    let b2 = b1 + ",\"peak_amplitude\":"@ + peaks.amplitude@;
    assert(json::opens_member(",\"peak_left\":"@, "peak_left"@)) by {
        reveal_strlit(",\"peak_left\":");
        reveal_strlit("peak_left");
    }
    assert(",\"peak_right\":"@.len() >= 1
        && (",\"peak_right\":"@[0] == ',' || ",\"peak_right\":"@[0] == '}')) by {
        reveal_strlit(",\"peak_right\":");
    }
    json::lemma_tells_next(
        b2,
        m2,
        ",\"peak_left\":"@,
        "peak_left"@,
        peaks.left@,
        ",\"peak_right\":"@,
    );
    let m3 = m2.push(json::Member { key: "peak_left"@, value: peaks.left@ });
    let b3 = b2 + ",\"peak_left\":"@ + peaks.left@;
    assert(json::opens_member(",\"peak_right\":"@, "peak_right"@)) by {
        reveal_strlit(",\"peak_right\":");
        reveal_strlit("peak_right");
    }
    assert(",\"sample_rate\":"@.len() >= 1
        && (",\"sample_rate\":"@[0] == ',' || ",\"sample_rate\":"@[0] == '}')) by {
        reveal_strlit(",\"sample_rate\":");
    }
    json::lemma_tells_next(
        b3,
        m3,
        ",\"peak_right\":"@,
        "peak_right"@,
        peaks.right@,
        ",\"sample_rate\":"@,
    );
    let m4 = m3.push(json::Member { key: "peak_right"@, value: peaks.right@ });
    let b4 = b3 + ",\"peak_right\":"@ + peaks.right@;
    assert(json::opens_member(",\"sample_rate\":"@, "sample_rate"@)) by {
        reveal_strlit(",\"sample_rate\":");
        reveal_strlit("sample_rate");
    }
    assert(",\"samples_captured\":"@.len() >= 1
        && (",\"samples_captured\":"@[0] == ',' || ",\"samples_captured\":"@[0] == '}')) by {
        reveal_strlit(",\"samples_captured\":");
    }
    json::lemma_tells_next(
        b4,
        m4,
        ",\"sample_rate\":"@,
        "sample_rate"@,
        text::decimal(q.sample_rate as nat),
        ",\"samples_captured\":"@,
    );
    let m5 = m4.push(
        json::Member { key: "sample_rate"@, value: text::decimal(q.sample_rate as nat) },
    );
    let b5 = b4 + ",\"sample_rate\":"@ + text::decimal(q.sample_rate as nat);
    assert(json::opens_member(",\"samples_captured\":"@, "samples_captured"@)) by {
        reveal_strlit(",\"samples_captured\":");
        reveal_strlit("samples_captured");
    }
    assert("}"@.len() >= 1 && ("}"@[0] == ',' || "}"@[0] == '}')) by {
        reveal_strlit("}");
    }
    json::lemma_tells_next(
        b5,
        m5,
        ",\"samples_captured\":"@,
        "samples_captured"@,
        text::decimal(q.samples_captured as nat),
        "}"@,
    );
    let m6 = m5.push(
        json::Member { key: "samples_captured"@, value: text::decimal(q.samples_captured as nat) },
    );
    let b6 = b5 + ",\"samples_captured\":"@ + text::decimal(q.samples_captured as nat);
    assert(m6 =~= seq![
        json::Member { key: "buffer_underruns"@, value: text::decimal(q.underrun_count as nat) },
        json::Member { key: "peak_amplitude"@, value: peaks.amplitude@ },
        json::Member { key: "peak_left"@, value: peaks.left@ },
        json::Member { key: "peak_right"@, value: peaks.right@ },
        json::Member { key: "sample_rate"@, value: text::decimal(q.sample_rate as nat) },
        json::Member { key: "samples_captured"@, value: text::decimal(q.samples_captured as nat) },
    ]);
}

/// A liveness probe is told whether something is being recorded, the state, that all
/// is well, and how long the program runs.
pub proof fn health_tells_all(state: RecordingState, uptime_ms: u64)
    ensures
        json::tells(
            health_text(state, uptime_ms),
            seq![
                json::Member {
                    key: "recording_active"@,
                    value: json::bool_text(state is Recording),
                },
                json::Member { key: "state"@, value: json::quoted(state_name(state)) },
                json::Member { key: "status"@, value: "\"ok\""@ },
                json::Member { key: "uptime_ms"@, value: text::decimal(uptime_ms as nat) },
            ],
        ),
{
    let b0 = Seq::<char>::empty();
    assert(b0 + "{\"recording_active\":"@ =~= "{\"recording_active\":"@);
    let m0 = Seq::<json::Member>::empty();
    assert(json::opens_member("{\"recording_active\":"@, "recording_active"@)) by {
        reveal_strlit("{\"recording_active\":");
        reveal_strlit("recording_active");
    }
    assert(",\"state\":\""@.len() >= 1
        && (",\"state\":\""@[0] == ',' || ",\"state\":\""@[0] == '}')) by {
        reveal_strlit(",\"state\":\"");
    }
    json::lemma_tells_next(
        b0,
        m0,
        "{\"recording_active\":"@,
        "recording_active"@,
        json::bool_text(state is Recording),
        ",\"state\":\""@,
    );
    let m1 = m0.push(
        json::Member { key: "recording_active"@, value: json::bool_text(state is Recording) },
    );
    let b1 = "{\"recording_active\":"@ + json::bool_text(state is Recording);
    assert(json::opens_quoted(",\"state\":\""@, "state"@)) by {
        reveal_strlit(",\"state\":\"");
        reveal_strlit("state");
    }
    assert("\",\"status\":\"ok\",\"uptime_ms\":"@.len() >= 2
        && "\",\"status\":\"ok\",\"uptime_ms\":"@[0] == '"'
        && ("\",\"status\":\"ok\",\"uptime_ms\":"@[1] == ',' || "\",\"status\":\"ok\",\"uptime_ms\":"@[1] == '}')) by {
        reveal_strlit("\",\"status\":\"ok\",\"uptime_ms\":");
    }
    json::lemma_tells_quoted(
        b1,
        m1,
        ",\"state\":\""@,
        "state"@,
        state_name(state),
        "\",\"status\":\"ok\",\"uptime_ms\":"@,
    );
    let m2 = m1.push(json::Member { key: "state"@, value: json::quoted(state_name(state)) });
    let b2 = b1 + ",\"state\":\""@ + state_name(state);
    assert(json::member_at(
        "\",\"status\":\"ok\",\"uptime_ms\":"@,
        2,
        json::Member { key: "status"@, value: "\"ok\""@ },
    )) by {
        reveal_strlit("\",\"status\":\"ok\",\"uptime_ms\":");
        reveal_strlit("status");
        reveal_strlit("\"ok\"");
    }
    json::lemma_tells_also(
        b2,
        "\",\"status\":\"ok\",\"uptime_ms\":"@,
        m2,
        json::Member { key: "status"@, value: "\"ok\""@ },
        2,
    );
    let m3 = m2.push(json::Member { key: "status"@, value: "\"ok\""@ });
    assert(json::opens_member("\",\"status\":\"ok\",\"uptime_ms\":"@, "uptime_ms"@)) by {
        reveal_strlit("\",\"status\":\"ok\",\"uptime_ms\":");
        reveal_strlit("uptime_ms");
    }
    assert("}"@.len() >= 1 && ("}"@[0] == ',' || "}"@[0] == '}')) by {
        reveal_strlit("}");
    }
    json::lemma_tells_next(
        b2,
        m3,
        "\",\"status\":\"ok\",\"uptime_ms\":"@,
        "uptime_ms"@,
        text::decimal(uptime_ms as nat),
        "}"@,
    );
    let m4 = m3.push(json::Member { key: "uptime_ms"@, value: text::decimal(uptime_ms as nat) });
    let b3 = b2 + "\",\"status\":\"ok\",\"uptime_ms\":"@ + text::decimal(uptime_ms as nat);
    assert(m4 =~= seq![
        json::Member { key: "recording_active"@, value: json::bool_text(state is Recording) },
        json::Member { key: "state"@, value: json::quoted(state_name(state)) },
        json::Member { key: "status"@, value: "\"ok\""@ },
        json::Member { key: "uptime_ms"@, value: text::decimal(uptime_ms as nat) },
    ]);
}

/// The status of what is recorded tells the device, the start and the state.
pub proof fn recording_status_tells_all(device_index: Option<u32>, started_at: u64)
    ensures
        json::tells(
            status_text(RecordingState::Recording { device_index, started_at }),
            seq![
                json::Member { key: "device_index"@, value: index_text(device_index) },
                json::Member { key: "started_at"@, value: text::decimal(started_at as nat) },
                json::Member { key: "state"@, value: json::quoted("recording"@) },
            ],
        ),
{
    let b0 = Seq::<char>::empty();
    assert(b0 + "{\"device_index\":"@ =~= "{\"device_index\":"@);
    let m0 = Seq::<json::Member>::empty();
    assert(json::opens_member("{\"device_index\":"@, "device_index"@)) by {
        reveal_strlit("{\"device_index\":");
        reveal_strlit("device_index");
    }
    assert(",\"started_at\":"@.len() >= 1
        && (",\"started_at\":"@[0] == ',' || ",\"started_at\":"@[0] == '}')) by {
        reveal_strlit(",\"started_at\":");
    }
    json::lemma_tells_next(
        b0,
        m0,
        "{\"device_index\":"@,
        "device_index"@,
        index_text(device_index),
        ",\"started_at\":"@,
    );
    let m1 = m0.push(json::Member { key: "device_index"@, value: index_text(device_index) });
    let b1 = "{\"device_index\":"@ + index_text(device_index);
    assert(json::opens_member(",\"started_at\":"@, "started_at"@)) by {
        reveal_strlit(",\"started_at\":");
        reveal_strlit("started_at");
    }
    assert(",\"state\":\""@.len() >= 1
        && (",\"state\":\""@[0] == ',' || ",\"state\":\""@[0] == '}')) by {
        reveal_strlit(",\"state\":\"");
    }
    json::lemma_tells_next(
        b1,
        m1,
        ",\"started_at\":"@,
        "started_at"@,
        text::decimal(started_at as nat),
        ",\"state\":\""@,
    );
    let m2 = m1.push(json::Member { key: "started_at"@, value: text::decimal(started_at as nat) });
    let b2 = b1 + ",\"started_at\":"@ + text::decimal(started_at as nat);
    assert(json::opens_quoted(",\"state\":\""@, "state"@)) by {
        reveal_strlit(",\"state\":\"");
        reveal_strlit("state");
    }
    assert("\"}"@.len() >= 2 && "\"}"@[0] == '"' && ("\"}"@[1] == ',' || "\"}"@[1] == '}')) by {
        reveal_strlit("\"}");
    }
    json::lemma_tells_quoted(b2, m2, ",\"state\":\""@, "state"@, "recording"@, "\"}"@);
    let m3 = m2.push(json::Member { key: "state"@, value: json::quoted("recording"@) });
    let b3 = b2 + ",\"state\":\""@ + "recording"@;
    assert(m3 =~= seq![
        json::Member { key: "device_index"@, value: index_text(device_index) },
        json::Member { key: "started_at"@, value: text::decimal(started_at as nat) },
        json::Member { key: "state"@, value: json::quoted("recording"@) },
    ]);
}

/// The status of what is paused tells the device, the start and the state.
pub proof fn paused_status_tells_all(device_index: Option<u32>, started_at: u64)
    ensures
        json::tells(
            status_text(RecordingState::Paused { device_index, started_at }),
            seq![
                json::Member { key: "device_index"@, value: index_text(device_index) },
                json::Member { key: "started_at"@, value: text::decimal(started_at as nat) },
                json::Member { key: "state"@, value: json::quoted("paused"@) },
            ],
        ),
{
    let b0 = Seq::<char>::empty();
    assert(b0 + "{\"device_index\":"@ =~= "{\"device_index\":"@);
    let m0 = Seq::<json::Member>::empty();
    assert(json::opens_member("{\"device_index\":"@, "device_index"@)) by {
        reveal_strlit("{\"device_index\":");
        reveal_strlit("device_index");
    }
    assert(",\"started_at\":"@.len() >= 1
        && (",\"started_at\":"@[0] == ',' || ",\"started_at\":"@[0] == '}')) by {
        reveal_strlit(",\"started_at\":");
    }
    json::lemma_tells_next(
        b0,
        m0,
        "{\"device_index\":"@,
        "device_index"@,
        index_text(device_index),
        ",\"started_at\":"@,
    );
    let m1 = m0.push(json::Member { key: "device_index"@, value: index_text(device_index) });
    let b1 = "{\"device_index\":"@ + index_text(device_index);
    assert(json::opens_member(",\"started_at\":"@, "started_at"@)) by {
        reveal_strlit(",\"started_at\":");
        reveal_strlit("started_at");
    }
    assert(",\"state\":\""@.len() >= 1
        && (",\"state\":\""@[0] == ',' || ",\"state\":\""@[0] == '}')) by {
        reveal_strlit(",\"state\":\"");
    }
    json::lemma_tells_next(
        b1,
        m1,
        ",\"started_at\":"@,
        "started_at"@,
        text::decimal(started_at as nat),
        ",\"state\":\""@,
    );
    let m2 = m1.push(json::Member { key: "started_at"@, value: text::decimal(started_at as nat) });
    let b2 = b1 + ",\"started_at\":"@ + text::decimal(started_at as nat);
    assert(json::opens_quoted(",\"state\":\""@, "state"@)) by {
        reveal_strlit(",\"state\":\"");
        reveal_strlit("state");
    }
    assert("\"}"@.len() >= 2 && "\"}"@[0] == '"' && ("\"}"@[1] == ',' || "\"}"@[1] == '}')) by {
        reveal_strlit("\"}");
    }
    json::lemma_tells_quoted(b2, m2, ",\"state\":\""@, "state"@, "paused"@, "\"}"@);
    let m3 = m2.push(json::Member { key: "state"@, value: json::quoted("paused"@) });
    let b3 = b2 + ",\"state\":\""@ + "paused"@;
    assert(m3 =~= seq![
        json::Member { key: "device_index"@, value: index_text(device_index) },
        json::Member { key: "started_at"@, value: text::decimal(started_at as nat) },
        json::Member { key: "state"@, value: json::quoted("paused"@) },
    ]);
}

/// Where nothing is recorded, the status tells just that.
pub proof fn idle_status_tells_all()
    ensures
        json::tells(
            status_text(RecordingState::Idle),
            seq![
                json::Member { key: "state"@, value: "\"idle\""@ },
            ],
        ),
{
    let b0 = Seq::<char>::empty();
    assert(b0 + "{\"state\":\"idle\"}"@ =~= "{\"state\":\"idle\"}"@);
    let m0 = Seq::<json::Member>::empty();
    assert(json::member_at(
        "{\"state\":\"idle\"}"@,
        1,
        json::Member { key: "state"@, value: "\"idle\""@ },
    )) by {
        reveal_strlit("{\"state\":\"idle\"}");
        reveal_strlit("state");
        reveal_strlit("\"idle\"");
    }
    json::lemma_tells_also(
        b0,
        "{\"state\":\"idle\"}"@,
        m0,
        json::Member { key: "state"@, value: "\"idle\""@ },
        1,
    );
    let m1 = m0.push(json::Member { key: "state"@, value: "\"idle\""@ });
    assert(m1 =~= seq![
        json::Member { key: "state"@, value: "\"idle\""@ },
    ]);
}

/// A device is told by its number, or by null where none is named.
pub proof fn devices_are_told(i: u32)
    ensures
        text::numeral_value(index_text(Some(i))) == i,
        index_text(None) == "null"@,
        device_text(Some(i)) == "device-"@ + text::decimal(i as nat),
        device_text(None) == "default-device"@,
{
    text::numerals_read_back(i as nat);
}

/// The peaks after a frame of 16-bit samples are the magnitudes of samples of the left
/// and the right channel, or zero where such a channel has none.
pub proof fn peaks_are_heard(q: AudioQualityState, f: PcmFrame)
    requires
        f.format.bit_depth == 16,
        f.data.len() >= 2,
        f.format.channels >= 1,
    ensures
        ({
            let samples = pcm::samples16(f.data@);
            let channels = f.format.channels as int;
            let left = observed(q, f).peak_left;
            let right = observed(q, f).peak_right;
            &&& left == 0 || exists|i: int|
                0 <= i < samples.len() && i % channels == 0 && (left == #[trigger] samples[i] || left
                    == -samples[i])
            &&& right == 0 || exists|i: int|
                0 <= i < samples.len() && i % channels == 1 && (right == #[trigger] samples[i]
                    || right == -samples[i])
        }),
{
    let samples = pcm::samples16(f.data@);
    let channels = f.format.channels as nat;
    lemma_peak_bound(samples, channels, 0);
    lemma_peak_bound(samples, channels, 1);
    peaks_bound_their_channel(samples, channels, 0);
    if channels > 1 {
        peaks_bound_their_channel(samples, channels, 1);
    } else {
        lemma_no_second_channel(samples);
    }
}

proof fn lemma_no_second_channel(samples: Seq<i16>)
    ensures
        peak_of(samples, 1, 1) == 0,
    decreases samples.len(),
{
    if samples.len() > 0 {
        lemma_no_second_channel(samples.drop_last());
    }
}

/// Clipping begins at 99 % of full scale on either side: louder never stops it, and
/// full scale clips.
pub proof fn louder_never_stops_clipping(
    a: AudioQualityState,
    b: AudioQualityState,
    clips_a: bool,
    clips_b: bool,
)
    requires
        call_ensures(AudioQualityState::is_clipping, (&a,), clips_a),
        call_ensures(AudioQualityState::is_clipping, (&b,), clips_b),
        a.peak_left <= b.peak_left,
        a.peak_right <= b.peak_right,
    ensures
        clips_a ==> clips_b,
        a.peak_left >= 32440 || a.peak_right >= 32440 ==> clips_a,
        a.peak_left <= 32439 && a.peak_right <= 32439 ==> !clips_a,
{
}

/// Shutdown is complete exactly where no task is left; a deadline that has passed ends
/// the wait, and without one the wait goes on.
pub proof fn shutdown_waits_for_tasks(
    active: usize,
    now_ms: u64,
    deadline_ms: u64,
    with: ShutdownStep,
    without: ShutdownStep,
)
    requires
        call_ensures(shutdown_step, (active, now_ms, Some(deadline_ms)), with),
        call_ensures(shutdown_step, (active, now_ms, None), without),
    ensures
        with == ShutdownStep::Completed <==> active == 0,
        without == ShutdownStep::Completed <==> active == 0,
        active > 0 ==> (with == ShutdownStep::TimedOut <==> now_ms >= deadline_ms),
        without != ShutdownStep::TimedOut,
{
}

/// Every frame is handed on as it is; the capture is stopped only by a shutdown; a failure
/// counts as an underrun, and nothing but frames and failures touches the metrics.
pub proof fn captured_frames_are_handed_on(
    before: AudioQualityState,
    event: CaptureEvent,
    after: AudioQualityState,
    r: CaptureStep,
)
    requires
        capture_follows(before, event, after, r),
        before.underrun_count < u64::MAX,
    ensures
        event matches CaptureEvent::Frame(f) ==> r == CaptureStep::Forward(f),
        r is StopCapture <==> event is Shutdown,
        r is End <==> event is Ended || event is Failed,
        event is Failed ==> after.underrun_count == before.underrun_count + 1 && after.peak_left
            == before.peak_left && after.peak_right == before.peak_right && after.samples_captured
            == before.samples_captured && after.sample_rate == before.sample_rate,
        event is Shutdown || event is Ended ==> after == before,
{
}

/// A handled command is answered under its identifier; a stop leaves nothing recorded, a
/// start records from now on and has tasks, and a query leaves all as it was.
pub proof fn handled_commands_take_effect(
    d: &mut Dispatcher,
    cmd: IpcCommand,
    id: &str,
    around: Surroundings,
    r: Handled,
)
    requires
        call_ensures(Dispatcher::handle_command, (d, cmd, id, &around), r),
    ensures
        r.response.id@ == id@,
        cmd is StopRecording ==> final(d).current() == RecordingState::Idle && r.response.ok,
        cmd matches IpcCommand::StartRecording { device_index } ==> final(d).current()
            == (RecordingState::Recording { device_index, started_at: around.now_ms })
            && final(d).has_tasks(),
        cmd is PauseRecording ==> (r.response.ok <==> old(d).current() is Recording),
        cmd is ResumeRecording ==> (r.response.ok <==> old(d).current() is Paused),
        cmd is PauseRecording && r.response.ok ==> final(d).current() is Paused,
        cmd is ResumeRecording && r.response.ok ==> final(d).current() is Recording,
        cmd is GetStatus || cmd is Health || cmd is Stats ==> final(d).current() == old(d).current()
            && r.effects@.len() == 0,
        old(d).has_tasks() ==> final(d).has_tasks(),
{
    assert(effect_views(r.effects@).len() == r.effects@.len());
}

/// A new dispatcher records nothing and has no tasks; the end of the tasks leaves the state
/// alone.
pub proof fn dispatchers_begin_idle(new: Dispatcher, d: &mut Dispatcher)
    requires
        call_ensures(Dispatcher::new, (), new),
        call_ensures(Dispatcher::tasks_ended, (d,), ()),
    ensures
        new.current() is Idle,
        !new.has_tasks(),
        !final(d).has_tasks(),
        final(d).current() == old(d).current(),
{
}

} // verus!
