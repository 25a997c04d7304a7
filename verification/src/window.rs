//! The recorder's window: its controls, what they bring about, and what it shows.
use crate::encoder;
use crate::encoder::{packet_of, AudioPacket};
use crate::error::labelled;
use crate::json;
use crate::json::{bool_of, json_text_member};
use crate::muxer::ContainerFormat;
use crate::paths;
use crate::paths::join;
use crate::pcm;
use crate::pcm::samples_of;
use crate::text;
use crate::text::{decimal_u64, owned, same};
use crate::types::{DeviceEntry, PcmFormat, PcmFrame};
use crate::wasapi::{NegotiationInfo, SampleFormat};
use vstd::prelude::*;

verus! {

// ---------------------------------------------------------------------------
// Kept settings
// ---------------------------------------------------------------------------
/// The settings that are kept between runs.
#[derive(Debug)]
pub struct UiConfig {
    pub output_dir: String,
    pub bitrate_kbps: Option<u32>,
    pub container: Option<String>,
}

/// `dirs_next::config_dir` gives the user's configuration directory, if the system
/// names one.
///
/// Which one rests on the environment; nothing is stated of it.
#[verifier::external_body]
fn config_dir() -> (r: Option<String>) {
    dirs_next::config_dir().map(|p| p.to_string_lossy().into_owned())
}

/// `dirs_next::audio_dir` gives the user's music directory, if the system names one.
///
/// Which one rests on the environment; nothing is stated of it.
#[verifier::external_body]
fn audio_dir() -> (r: Option<String>) {
    dirs_next::audio_dir().map(|p| p.to_string_lossy().into_owned())
}

/// `dirs_next::home_dir` gives the user's home directory, if the system names one.
///
/// Which one rests on the environment; nothing is stated of it.
#[verifier::external_body]
fn home_dir() -> (r: Option<String>) {
    dirs_next::home_dir().map(|p| p.to_string_lossy().into_owned())
}

/// Where the settings are kept below a configuration directory.
pub open spec fn settings_path(dir: Seq<char>) -> Seq<char> {
    paths::joined_path(paths::joined_path(dir, "bsm-ui"@), "config.json"@)
}

/// See [`settings_path`].
pub fn settings_path_in(dir: &str) -> (r: String)
    ensures
        r@ == settings_path(dir@),
{
    join(join(dir, "bsm-ui").as_str(), "config.json")
}

/// The folder for recordings lies below the music directory, else below `Music` in
/// the home directory, else in the working directory.
pub open spec fn recordings_dir(audio: Option<Seq<char>>, home: Option<Seq<char>>) -> Seq<char> {
    match audio {
        Some(dir) => paths::joined_path(dir, "BSM_output"@),
        None => match home {
            Some(dir) => paths::joined_path(paths::joined_path(dir, "Music"@), "BSM_output"@),
            None => "BSM_output"@,
        },
    }
}

/// See [`recordings_dir`].
pub fn recordings_dir_in(audio: Option<String>, home: Option<String>) -> (r: String)
    ensures
        r@ == recordings_dir(text::opt_view(audio), text::opt_view(home)),
{
    match audio {
        Some(dir) => join(dir.as_str(), "BSM_output"),
        None => match home {
            Some(dir) => join(join(dir.as_str(), "Music").as_str(), "BSM_output"),
            None => owned("BSM_output"),
        },
    }
}

/// Whether some directories of the user lead to this folder.
pub open spec fn is_recordings_dir(folder: Seq<char>) -> bool {
    exists|audio: Option<Seq<char>>, home: Option<Seq<char>>|
        folder == #[trigger] recordings_dir(audio, home)
}

fn default_recordings_dir() -> (r: String)
    ensures
        is_recordings_dir(r@),
{
    let audio = audio_dir();
    let home = home_dir();
    let r = recordings_dir_in(audio, home);
    assert(r@ == recordings_dir(text::opt_view(audio), text::opt_view(home)));
    r
}

/// The container that a kept setting names; anything unknown means WAV.
pub open spec fn named_container(name: Seq<char>) -> ContainerFormat {
    if name == "mp3"@ {
        ContainerFormat::Mp3
    } else if name == "flac"@ {
        ContainerFormat::Flac
    } else {
        ContainerFormat::Wav
    }
}

/// See [`named_container`].
pub fn container_named(name: &str) -> (f: ContainerFormat)
    ensures
        f == named_container(name@),
{
    if same(name, "mp3") {
        ContainerFormat::Mp3
    } else if same(name, "flac") {
        ContainerFormat::Flac
    } else {
        ContainerFormat::Wav
    }
}

/// The container that is kept is the one that is used again.
pub proof fn container_survives(f: ContainerFormat)
    ensures
        named_container(f.extension_text()) == f,
{
    reveal_strlit("mp3");
    reveal_strlit("flac");
    reveal_strlit("wav");
    assert("mp3"@.len() != "flac"@.len());
    assert("wav"@.len() != "flac"@.len());
    assert("mp3"@[0] != "wav"@[0]);
}

impl UiConfig {
    /// Where the settings are kept, if the user has a configuration directory.
    pub fn path() -> (r: Option<String>)
        ensures
            r matches Some(p) ==> exists|dir: Seq<char>| p@ == #[trigger] settings_path(dir),
    {
        UiConfig::path_in(config_dir())
    }

    /// Where the settings are kept for a given configuration directory: nowhere
    /// exactly if there is none.
    pub fn path_in(dir: Option<String>) -> (r: Option<String>)
        ensures
            text::opt_view(r) == match text::opt_view(dir) {
                Some(d) => Some(settings_path(d)),
                None => None,
            },
    {
        match dir {
            Some(d) => Some(settings_path_in(d.as_str())),
            None => None,
        }
    }
}

// ---------------------------------------------------------------------------
// Peaks
// ---------------------------------------------------------------------------
/// The largest magnitude of the samples of the first channel, or of the samples of
/// all other channels.
pub open spec fn side_peak(samples: Seq<i16>, channels: nat, first: bool) -> nat
    decreases samples.len(),
{
    if samples.len() == 0 {
        0
    } else {
        let before = side_peak(samples.drop_last(), channels, first);
        let i = (samples.len() - 1) as nat;
        if (i % channels == 0) == first && pcm::magnitude(samples.last()) > before {
            pcm::magnitude(samples.last())
        } else {
            before
        }
    }
}

/// What the meters show of a frame: the peak of the first channel and that of the
/// others; with one channel both show that one.
pub open spec fn meter_peaks(f: PcmFrame) -> Option<(u32, u32)> {
    if f.format.bit_depth == 16 {
        let samples = pcm::samples16(f.data@);
        let left = side_peak(samples, f.format.channels as nat, true) as u32;
        if f.format.channels > 1 {
            Some((left, side_peak(samples, f.format.channels as nat, false) as u32))
        } else {
            Some((left, left))
        }
    } else {
        None
    }
}

fn side_peaks(samples: &[i16], channels: usize) -> (r: (u32, u32))
    requires
        channels >= 1 || samples.len() == 0,
    ensures
        r.0 == side_peak(samples@, channels as nat, true),
        r.1 == side_peak(samples@, channels as nat, false),
        r.0 <= 32768,
        r.1 <= 32768,
{
    let mut left: u32 = 0;
    let mut right: u32 = 0;
    let mut i: usize = 0;
    assert(samples@.take(0) =~= Seq::empty());
    while i < samples.len()
        invariant
            i <= samples.len(),
            channels >= 1 || samples.len() == 0,
            left <= 32768,
            right <= 32768,
            left == side_peak(samples@.take(i as int), channels as nat, true),
            right == side_peak(samples@.take(i as int), channels as nat, false),
        decreases samples.len() - i,
    {
        let s: i16 = samples[i];
        let m: u32 = if s < 0 {
            (-(s as i32)) as u32
        } else {
            s as u32
        };
        if i % channels == 0 {
            if m > left {
                left = m;
            }
        } else if m > right {
            right = m;
        }
        proof {
            assert(samples@.take(i + 1).drop_last() =~= samples@.take(i as int));
            assert(samples@.take(i + 1).last() == samples@[i as int]);
        }
        i = i + 1;
    }
    assert(samples@.take(samples@.len() as int) =~= samples@);
    (left, right)
}

/// Whether the samples of a frame belong to channels: a frame of 16-bit samples has
/// a channel, unless it has no sample.
pub open spec fn can_meter(f: PcmFrame) -> bool {
    f.format.bit_depth == 16 ==> f.format.channels >= 1 || f.data.len() < 2
}

/// What the meters show of a frame of 16-bit samples, out of 32767. The least of all
/// samples counts as 32768.
pub fn frame_peaks(f: &PcmFrame) -> (r: Option<(u32, u32)>)
    requires
        can_meter(*f),
    ensures
        r == meter_peaks(*f),
        r matches Some((left, right)) ==> left <= 32768 && right <= 32768,
{
    if f.format.bit_depth != 16 {
        return None;
    }
    let samples: Vec<i16> = samples_of(f.data.as_slice());
    let (left, right) = side_peaks(samples.as_slice(), f.format.channels as usize);
    if f.format.channels > 1 {
        Some((left, right))
    } else {
        Some((left, left))
    }
}

/// What the capture of a recording hears.
#[derive(Debug)]
pub enum RecordEvent {
    /// The recording is told to stop.
    Stop,
    /// The capture gave a frame.
    Frame(PcmFrame),
    /// There is no frame yet.
    Nothing,
    /// The capture failed.
    Failed,
}

/// What the capture of a recording does next.
#[derive(Debug)]
pub enum RecordStep {
    /// End.
    End,
    /// Show the peaks, if there are any, and hand the packet to the muxer.
    Take { peaks: Option<(u32, u32)>, packet: AudioPacket },
    /// Wait for a moment.
    Wait,
}

/// The step that an event calls for; of a frame, the same is asked as in
/// [`frame_peaks`].
pub fn record_step(event: RecordEvent) -> (r: RecordStep)
    requires
        event matches RecordEvent::Frame(f) ==> can_meter(f),
    ensures
        match event {
            RecordEvent::Stop | RecordEvent::Failed => r == RecordStep::End,
            RecordEvent::Nothing => r == RecordStep::Wait,
            RecordEvent::Frame(f) => r matches RecordStep::Take { peaks, packet } && {
                &&& peaks == meter_peaks(f)
                &&& packet.data@ == f.data@
                &&& packet.pts == encoder::as_signed(f.timestamp_us)
                &&& packet.duration == f.frame_count
                &&& packet.is_key
            },
        },
{
    match event {
        RecordEvent::Stop => RecordStep::End,
        RecordEvent::Failed => RecordStep::End,
        RecordEvent::Nothing => RecordStep::Wait,
        RecordEvent::Frame(f) => RecordStep::Take {
            peaks: frame_peaks(&f),
            packet: packet_of(&f),
        },
    }
}

// ---------------------------------------------------------------------------
// Controls
// ---------------------------------------------------------------------------
/// What the window knows.
#[derive(Debug)]
pub struct BsmWindow {
    pub devices: Vec<DeviceEntry>,
    pub selected_device: usize,
    pub sample_rates: Vec<u32>,
    pub selected_rate_idx: usize,
    pub logs: Vec<String>,
    pub last_diag: Option<NegotiationInfo>,
    pub mono: bool,
    pub recording: bool,
    pub recording_paused: bool,
    pub record_path: Option<String>,
    pub output_dir: String,
    pub bitrate_kbps: u32,
    pub container_format: ContainerFormat,
    pub in_splash: bool,
}

/// A recording to start.
#[derive(Debug)]
pub struct RecordRequest {
    pub path: String,
    pub container: ContainerFormat,
    pub codec_name: &'static str,
    pub bitrate_kbps: u32,
}

/// A device to open.
#[derive(Debug, Clone, Copy, PartialEq, Eq, Structural)]
pub struct DeviceChoice {
    pub index: u32,
    /// Ask for its rates and how a format is negotiated with it: not for the
    /// loopback, which has the format of what is played.
    pub diagnose: bool,
}

/// How opening a device went; errors are in words.
#[derive(Debug)]
pub enum OpenOutcome {
    Started,
    StartFailed(String),
    OpenFailed(String),
}

/// The name of a recording that starts at a time.
pub open spec fn recording_name(ts: u64, f: ContainerFormat) -> Seq<char> {
    "recording-"@ + text::decimal(ts as nat) + "."@ + f.extension_text()
}

pub open spec fn codec_text(f: ContainerFormat) -> Seq<char> {
    match f {
        ContainerFormat::Wav => "pcm_s16le"@,
        ContainerFormat::Mp3 => "mp3"@,
        ContainerFormat::Flac => "flac"@,
    }
}

/// The log after a line more.
pub open spec fn logged(before: Seq<String>, after: Seq<String>, line: Seq<char>) -> bool {
    text::views(after) == text::views(before).push(line)
}

/// What `Pause` does: while a recording runs, it pauses it or goes on with it.
pub open spec fn pause_pressed(before: BsmWindow, after: BsmWindow) -> bool {
    if before.recording {
        &&& after == (BsmWindow {
            logs: after.logs,
            recording_paused: !before.recording_paused,
            ..before
        })
        &&& logged(
            before.logs@,
            after.logs@,
            "Recording paused: "@ + json::bool_text(!before.recording_paused),
        )
    } else {
        after == before
    }
}

/// What a recording that has begun changes: it is told with its path.
pub open spec fn recording_begun(before: BsmWindow, path: String, after: BsmWindow) -> bool {
    &&& after == (BsmWindow {
        logs: after.logs,
        recording: true,
        record_path: Some(path),
        ..before
    })
    &&& logged(before.logs@, after.logs@, "recording started: "@ + path@)
}

/// What a recording that has ended changes: it is told with its path, if that is known.
pub open spec fn recording_ended(before: BsmWindow, after: BsmWindow) -> bool {
    &&& after == (BsmWindow {
        logs: after.logs,
        recording: false,
        recording_paused: false,
        record_path: None,
        ..before
    })
    &&& match before.record_path {
        Some(p) => logged(before.logs@, after.logs@, "recording saved: "@ + p@),
        None => after.logs == before.logs,
    }
}

/// A label, a number and a unit.
fn counted(label: &str, n: u64, unit: &str) -> (s: String)
    ensures
        s@ == label@ + text::decimal(n as nat) + unit@,
{
    let mut s = owned(label);
    s.append(decimal_u64(n).as_str());
    s.append(unit);
    s
}

impl BsmWindow {
    /// The window at the start; without kept settings it has the defaults, which the
    /// program then keeps.
    pub fn new(config: Option<UiConfig>) -> (w: Self)
        ensures
            w.devices@ == Seq::<DeviceEntry>::empty(),
            w.selected_device == 0,
            w.sample_rates@ == seq![48000u32, 44100, 96000],
            w.selected_rate_idx == 0,
            w.logs@ == Seq::<String>::empty(),
            w.last_diag is None,
            !w.mono,
            !w.recording,
            !w.recording_paused,
            w.record_path is None,
            w.in_splash,
            match config {
                Some(c) => {
                    &&& w.output_dir@ == c.output_dir@
                    &&& w.bitrate_kbps == match c.bitrate_kbps {
                        Some(b) => b,
                        None => 128,
                    }
                    &&& w.container_format == match c.container {
                        Some(name) => named_container(name@),
                        None => ContainerFormat::Wav,
                    }
                },
                None => {
                    &&& is_recordings_dir(w.output_dir@)
                    &&& w.bitrate_kbps == 128
                    &&& w.container_format == ContainerFormat::Wav
                },
            },
    {
        let mut bitrate_kbps: u32 = 128;
        let mut container_format = ContainerFormat::Wav;
        let output_dir = match config {
            Some(c) => {
                match c.bitrate_kbps {
                    Some(b) => {
                        bitrate_kbps = b;
                    },
                    None => {},
                }
                match c.container {
                    Some(name) => {
                        container_format = container_named(name.as_str());
                    },
                    None => {},
                }
                c.output_dir
            },
            None => default_recordings_dir(),
        };
        let mut sample_rates: Vec<u32> = Vec::new();
        sample_rates.push(48000);
        sample_rates.push(44100);
        sample_rates.push(96000);
        assert(sample_rates@ =~= seq![48000u32, 44100, 96000]);
        BsmWindow {
            devices: Vec::new(),
            selected_device: 0,
            sample_rates,
            selected_rate_idx: 0,
            logs: Vec::new(),
            last_diag: None,
            mono: false,
            recording: false,
            recording_paused: false,
            record_path: None,
            output_dir,
            bitrate_kbps,
            container_format,
            in_splash: true,
        }
    }

    /// The settings to keep.
    pub fn config(&self) -> (c: UiConfig)
        ensures
            c.output_dir@ == self.output_dir@,
            c.bitrate_kbps == Some(self.bitrate_kbps),
            c.container matches Some(name) && name@ == self.container_format.extension_text(),
    {
        UiConfig {
            output_dir: owned(self.output_dir.as_str()),
            bitrate_kbps: Some(self.bitrate_kbps),
            container: Some(owned(self.container_format.extension())),
        }
    }

    /// Adds a line to the log.
    pub fn log(&mut self, line: String)
        ensures
            *final(self) == (BsmWindow { logs: final(self).logs, ..*old(self) }),
            logged(old(self).logs@, final(self).logs@, line@),
    {
        self.logs.push(line);
        assert(text::views(self.logs@) =~= text::views(old(self).logs@).push(line@));
    }

    /// Whether the splash screen is shown: for the first 1.5 seconds.
    pub fn show_splash(&mut self, elapsed_ms: u128) -> (r: bool)
        ensures
            r == (old(self).in_splash && elapsed_ms < 1500),
            *final(self) == (BsmWindow { in_splash: r, ..*old(self) }),
    {
        let r: bool = self.in_splash && elapsed_ms < 1500;
        self.in_splash = r;
        r
    }

    /// The devices were listed anew.
    pub fn refreshed(&mut self, devices: Vec<DeviceEntry>)
        ensures
            *final(self) == (BsmWindow { logs: final(self).logs, devices, ..*old(self) }),
            logged(
                old(self).logs@,
                final(self).logs@,
                "Refreshed "@ + text::decimal(devices.len() as nat) + " devices"@,
            ),
    {
        let line = counted("Refreshed ", devices.len() as u64, " devices");
        self.devices = devices;
        self.log(line);
    }

    /// A device was chosen.
    pub fn device_clicked(&mut self, i: usize) -> (r: DeviceChoice)
        requires
            i < old(self).devices.len(),
        ensures
            r == (DeviceChoice {
                index: old(self).devices@[i as int].index,
                diagnose: !old(self).devices@[i as int].is_loopback,
            }),
            *final(self) == (BsmWindow {
                logs: final(self).logs,
                selected_device: i,
                last_diag: if r.diagnose {
                    old(self).last_diag
                } else {
                    None
                },
                ..*old(self)
            }),
            logged(
                old(self).logs@,
                final(self).logs@,
                "Selected device "@ + old(self).devices@[i as int].name@,
            ),
    {
        let index: u32 = self.devices[i].index;
        let diagnose: bool = !self.devices[i].is_loopback;
        let line = labelled("Selected device ", self.devices[i].name.as_str());
        self.selected_device = i;
        if !diagnose {
            self.last_diag = None;
        }
        self.log(line);
        DeviceChoice { index, diagnose }
    }

    /// The rates of the chosen device are known.
    pub fn rates_found(&mut self, rates: Vec<u32>)
        ensures
            *final(self) == (BsmWindow {
                logs: final(self).logs,
                sample_rates: rates,
                selected_rate_idx: 0,
                ..*old(self)
            }),
            logged(
                old(self).logs@,
                final(self).logs@,
                "Found "@ + text::decimal(rates.len() as nat) + " sample-rates"@,
            ),
    {
        let line = counted("Found ", rates.len() as u64, " sample-rates");
        self.sample_rates = rates;
        self.selected_rate_idx = 0;
        self.log(line);
    }

    /// It is known how a format is negotiated.
    pub fn diagnosed(&mut self, diag: NegotiationInfo)
        ensures
            *final(self) == (BsmWindow { last_diag: Some(diag), ..*old(self) }),
    {
        self.last_diag = Some(diag);
    }

    /// A device was opened, or not.
    pub fn opened(&mut self, name: &str, outcome: OpenOutcome)
        ensures
            *final(self) == (BsmWindow { logs: final(self).logs, ..*old(self) }),
            logged(
                old(self).logs@,
                final(self).logs@,
                match outcome {
                    OpenOutcome::Started => "Device "@ + name@ + " opened and started"@,
                    OpenOutcome::StartFailed(e) => "Device opened but failed to start: "@ + e@,
                    OpenOutcome::OpenFailed(e) => "Failed to open device: "@ + e@,
                },
            ),
    {
        let line = match outcome {
            OpenOutcome::Started => {
                let mut line = labelled("Device ", name);
                line.append(" opened and started");
                line
            },
            OpenOutcome::StartFailed(e) => labelled(
                "Device opened but failed to start: ",
                e.as_str(),
            ),
            OpenOutcome::OpenFailed(e) => labelled("Failed to open device: ", e.as_str()),
        };
        self.log(line);
    }

    /// A sample rate was chosen: the format to ask for.
    pub fn rate_clicked(&mut self, i: usize, format: PcmFormat) -> (r: PcmFormat)
        requires
            i < old(self).sample_rates.len(),
        ensures
            r == (PcmFormat { sample_rate: old(self).sample_rates@[i as int], ..format }),
            *final(self) == (BsmWindow {
                logs: final(self).logs,
                selected_rate_idx: i,
                ..*old(self)
            }),
            logged(
                old(self).logs@,
                final(self).logs@,
                "Selected sample rate "@ + text::decimal(r.sample_rate as nat) + " Hz"@,
            ),
    {
        let rate: u32 = self.sample_rates[i];
        self.selected_rate_idx = i;
        self.log(counted("Selected sample rate ", rate as u64, " Hz"));
        PcmFormat { sample_rate: rate, channels: format.channels, bit_depth: format.bit_depth }
    }

    /// The index of the chosen device, or one that no device has.
    pub fn selected_index(&self) -> (i: u32)
        ensures
            i == if self.selected_device < self.devices.len() {
                self.devices@[self.selected_device as int].index
            } else {
                u32::MAX
            },
    {
        if self.selected_device < self.devices.len() {
            self.devices[self.selected_device].index
        } else {
            u32::MAX
        }
    }

    /// Mono or stereo was chosen: the format to ask for.
    pub fn channels_clicked(&mut self, mono: bool, format: PcmFormat) -> (r: PcmFormat)
        ensures
            r == (PcmFormat {
                channels: if mono {
                    1
                } else {
                    2
                },
                ..format
            }),
            *final(self) == (BsmWindow { logs: final(self).logs, mono, ..*old(self) }),
            logged(
                old(self).logs@,
                final(self).logs@,
                if mono {
                    "Set channels: mono"@
                } else {
                    "Set channels: stereo"@
                },
            ),
    {
        self.mono = mono;
        let channels: u16 = if mono {
            1
        } else {
            2
        };
        if mono {
            self.log(owned("Set channels: mono"));
        } else {
            self.log(owned("Set channels: stereo"));
        }
        PcmFormat { sample_rate: format.sample_rate, channels, bit_depth: format.bit_depth }
    }

    /// A folder for recordings was chosen.
    pub fn folder_chosen(&mut self, dir: String)
        ensures
            *final(self) == (BsmWindow { logs: final(self).logs, output_dir: dir, ..*old(self) }),
            logged(old(self).logs@, final(self).logs@, "Output folder set: "@ + dir@),
    {
        let line = labelled("Output folder set: ", dir.as_str());
        self.output_dir = dir;
        self.log(line);
    }

    /// `Record` was pressed at a time: the recording to start, unless one runs.
    pub fn record_clicked(&mut self, ts: u64) -> (r: Option<RecordRequest>)
        ensures
            old(self).recording ==> {
                &&& r is None
                &&& *final(self) == (BsmWindow { logs: final(self).logs, ..*old(self) })
                &&& logged(old(self).logs@, final(self).logs@, "Already recording"@)
            },
            !old(self).recording ==> {
                &&& *final(self) == *old(self)
                &&& r matches Some(request) && {
                    &&& request.path@ == paths::joined_path(
                        old(self).output_dir@,
                        recording_name(ts, old(self).container_format),
                    )
                    &&& request.container == old(self).container_format
                    &&& request.codec_name@ == codec_text(old(self).container_format)
                    &&& request.bitrate_kbps == old(self).bitrate_kbps
                }
            },
    {
        if self.recording {
            self.log(owned("Already recording"));
            return None;
        }
        let mut name = counted("recording-", ts, ".");
        name.append(self.container_format.extension());
        let codec_name: &'static str = match self.container_format {
            ContainerFormat::Wav => "pcm_s16le",
            ContainerFormat::Mp3 => "mp3",
            ContainerFormat::Flac => "flac",
        };
        Some(
            RecordRequest {
                path: join(self.output_dir.as_str(), name.as_str()),
                container: self.container_format,
                codec_name,
                bitrate_kbps: self.bitrate_kbps,
            },
        )
    }

    /// A recording runs.
    pub fn recording_started(&mut self, path: String)
        ensures
            recording_begun(*old(self), path, *final(self)),
    {
        let line = labelled("recording started: ", path.as_str());
        self.recording = true;
        self.record_path = Some(path);
        self.log(line);
    }

    /// `Pause` was pressed.
    pub fn pause_clicked(&mut self)
        ensures
            pause_pressed(*old(self), *final(self)),
    {
        if self.recording {
            let paused: bool = !self.recording_paused;
            self.recording_paused = paused;
            self.log(labelled("Recording paused: ", bool_of(paused)));
        }
    }

    /// A recording has ended.
    pub fn recording_stopped(&mut self)
        ensures
            recording_ended(*old(self), *final(self)),
    {
        let line: Option<String> = match &self.record_path {
            Some(p) => Some(labelled("recording saved: ", p.as_str())),
            None => None,
        };
        self.record_path = None;
        self.recording = false;
        self.recording_paused = false;
        match line {
            Some(line) => self.log(line),
            None => {},
        }
    }

    /// Whether the meters need a capture of their own: while nothing is recorded.
    pub fn monitor_wanted(&self, running: bool) -> (r: bool)
        ensures
            r == (!self.recording && !running),
    {
        !self.recording && !running
    }

    /// A telemetry event came in: whether it carries peaks for the meters.
    pub fn telemetry_event(&mut self, event: &str) -> (r: bool)
        ensures
            r == (event@ == "audio_stats"@),
            if event@ == "audio_started"@ || event@ == "audio_stopped"@ {
                &&& *final(self) == (BsmWindow { logs: final(self).logs, ..*old(self) })
                &&& logged(old(self).logs@, final(self).logs@, "telemetry: "@ + event@)
            } else {
                *final(self) == *old(self)
            },
    {
        proof {
            reveal_strlit("audio_stats");
            reveal_strlit("audio_started");
            reveal_strlit("audio_stopped");
            assert("audio_stats"@.len() != "audio_started"@.len());
            assert("audio_stats"@.len() != "audio_stopped"@.len());
        }
        if same(event, "audio_stats") {
            return true;
        }
        if same(event, "audio_started") || same(event, "audio_stopped") {
            self.log(labelled("telemetry: ", event));
        }
        false
    }

    /// A telemetry line came in: whether its event carries peaks for the meters. A
    /// line that tells no event changes nothing.
    pub fn telemetry_line(&mut self, line: &str) -> (r: bool)
        ensures
            match json::text_member(line@, "event"@) {
                Some(event) => {
                    &&& r == (event == "audio_stats"@)
                    &&& if event == "audio_started"@ || event == "audio_stopped"@ {
                        &&& *final(self) == (BsmWindow { logs: final(self).logs, ..*old(self) })
                        &&& logged(old(self).logs@, final(self).logs@, "telemetry: "@ + event)
                    } else {
                        *final(self) == *old(self)
                    }
                },
                None => !r && *final(self) == *old(self),
            },
    {
        match json_text_member(line, "event") {
            Some(event) => self.telemetry_event(event.as_str()),
            None => false,
        }
    }

    /// The last 50 lines of the log, the newest first.
    pub fn recent_logs(&self) -> (r: Vec<String>)
        ensures
            r.len() == if self.logs.len() < 50 {
                self.logs.len() as int
            } else {
                50
            },
            forall|i: int|
                0 <= i < r.len() ==> (#[trigger] r@[i])@ == self.logs@[self.logs.len() - 1 - i]@,
    {
        let mut r: Vec<String> = Vec::new();
        let n: usize = self.logs.len();
        while r.len() < 50 && r.len() < n
            invariant
                n == self.logs.len(),
                r.len() <= 50,
                r.len() <= n,
                forall|i: int|
                    0 <= i < r.len() ==> (#[trigger] r@[i])@ == self.logs@[n - 1 - i]@,
            decreases n - r.len(),
        {
            let line = owned(self.logs[n - 1 - r.len()].as_str());
            r.push(line);
        }
        r
    }
}

/// Pressing `Pause` twice changes nothing but the log.
pub proof fn pausing_twice_resumes(a: BsmWindow, b: BsmWindow, c: BsmWindow)
    requires
        pause_pressed(a, b),
        pause_pressed(b, c),
    ensures
        c == (BsmWindow { logs: c.logs, ..a }),
{
}

/// What to do about a recording that is ending.
#[derive(Debug, Clone, Copy, PartialEq, Eq, Structural)]
pub enum StopStep {
    /// It has ended.
    Join,
    /// It takes too long: end it by force.
    Abort,
    /// Wait for a moment.
    Wait,
}

/// A recording gets 200 milliseconds to end.
pub fn stop_step(finished: bool, elapsed_ms: u128) -> (r: StopStep)
    ensures
        r == if finished {
            StopStep::Join
        } else if elapsed_ms >= 200 {
            StopStep::Abort
        } else {
            StopStep::Wait
        },
{
    if finished {
        StopStep::Join
    } else if elapsed_ms >= 200 {
        StopStep::Abort
    } else {
        StopStep::Wait
    }
}

// ---------------------------------------------------------------------------
// Diagnostics
// ---------------------------------------------------------------------------
pub open spec fn format_text(f: PcmFormat) -> Seq<char> {
    text::decimal(f.sample_rate as nat) + " Hz, "@ + text::decimal(f.channels as nat) + " ch, "@
        + text::decimal(f.bit_depth as nat) + " bit"@
}

fn format_of(f: PcmFormat) -> (s: String)
    ensures
        s@ == format_text(f),
{
    let mut s = decimal_u64(f.sample_rate as u64);
    s.append(" Hz, ");
    s.append(decimal_u64(f.channels as u64).as_str());
    s.append(" ch, ");
    s.append(decimal_u64(f.bit_depth as u64).as_str());
    s.append(" bit");
    s
}

pub open spec fn sample_format_text(f: SampleFormat) -> Seq<char> {
    match f {
        SampleFormat::I8 => "I8"@,
        SampleFormat::I16 => "I16"@,
        SampleFormat::I24 => "I24"@,
        SampleFormat::I32 => "I32"@,
        SampleFormat::I64 => "I64"@,
        SampleFormat::U8 => "U8"@,
        SampleFormat::U16 => "U16"@,
        SampleFormat::U32 => "U32"@,
        SampleFormat::U64 => "U64"@,
        SampleFormat::F32 => "F32"@,
        SampleFormat::F64 => "F64"@,
    }
}

fn sample_format_name(f: SampleFormat) -> (s: &'static str)
    ensures
        s@ == sample_format_text(f),
{
    match f {
        SampleFormat::I8 => "I8",
        SampleFormat::I16 => "I16",
        SampleFormat::I24 => "I24",
        SampleFormat::I32 => "I32",
        SampleFormat::I64 => "I64",
        SampleFormat::U8 => "U8",
        SampleFormat::U16 => "U16",
        SampleFormat::U32 => "U32",
        SampleFormat::U64 => "U64",
        SampleFormat::F32 => "F32",
        SampleFormat::F64 => "F64",
    }
}

/// Numbers, separated by commas and spaces.
pub open spec fn numbers(list: Seq<u32>) -> Seq<char>
    decreases list.len(),
{
    if list.len() == 0 {
        Seq::empty()
    } else if list.len() == 1 {
        text::decimal(list[0] as nat)
    } else {
        numbers(list.drop_last()) + ", "@ + text::decimal(list.last() as nat)
    }
}

fn numbers_of(list: &Vec<u32>) -> (s: String)
    ensures
        s@ == numbers(list@),
{
    let mut s = String::new();
    let mut i: usize = 0;
    assert(list@.take(0) =~= Seq::empty());
    while i < list.len()
        invariant
            i <= list.len(),
            s@ == numbers(list@.take(i as int)),
        decreases list.len() - i,
    {
        let n = decimal_u64(list[i] as u64);
        proof {
            assert(list@.take(i + 1).drop_last() =~= list@.take(i as int));
        }
        if i > 0 {
            s.append(", ");
        }
        s.append(n.as_str());
        assert(i == 0 ==> s@ =~= n@);
        i = i + 1;
    }
    assert(list@.take(list@.len() as int) =~= list@);
    s
}

/// What the window tells about a negotiation, line by line; `negotiated` is the
/// format that the capture has settled on.
pub open spec fn diagnostics(diag: NegotiationInfo, negotiated: Option<PcmFormat>) -> Seq<Seq<char>> {
    seq![
        "Device idx: "@ + text::decimal(diag.device_index as nat),
        "Requested: "@ + format_text(diag.requested_format),
        "Chosen channels: "@ + text::decimal(diag.chosen_channels as nat),
        "Chosen SF: "@ + sample_format_text(diag.chosen_sample_format),
        "Negotiated SR: "@ + text::decimal(diag.negotiated_sample_rate as nat) + " (range "@
            + text::decimal(diag.chosen_min_sr as nat) + "-"@ + text::decimal(
            diag.chosen_max_sr as nat,
        ) + ")"@,
        "Bit depth reported: "@ + text::decimal(diag.bit_depth as nat),
        "Score: "@ + text::decimal(diag.score as nat),
        "Candidate rates: ["@ + numbers(diag.candidate_rates@) + "]"@,
        match negotiated {
            Some(f) => "Pipeline negotiated: "@ + format_text(f),
            None => "Pipeline negotiated: <none>"@,
        },
    ]
}

/// See [`diagnostics`].
pub fn diagnostic_lines(diag: &NegotiationInfo, negotiated: Option<PcmFormat>) -> (r: Vec<String>)
    ensures
        text::views(r@) == diagnostics(*diag, negotiated),
{
    let index = labelled("Device idx: ", decimal_u64(diag.device_index as u64).as_str());
    let requested = labelled("Requested: ", format_of(diag.requested_format).as_str());
    let channels = labelled("Chosen channels: ", decimal_u64(diag.chosen_channels as u64).as_str());
    let format = labelled("Chosen SF: ", sample_format_name(diag.chosen_sample_format));
    let mut rate = counted("Negotiated SR: ", diag.negotiated_sample_rate as u64, " (range ");
    rate.append(decimal_u64(diag.chosen_min_sr as u64).as_str());
    rate.append("-");
    rate.append(decimal_u64(diag.chosen_max_sr as u64).as_str());
    rate.append(")");
    let depth = labelled("Bit depth reported: ", decimal_u64(diag.bit_depth as u64).as_str());
    let score = labelled("Score: ", decimal_u64(diag.score).as_str());
    let mut rates = labelled("Candidate rates: [", numbers_of(&diag.candidate_rates).as_str());
    rates.append("]");
    let pipeline = match negotiated {
        Some(f) => labelled("Pipeline negotiated: ", format_of(f).as_str()),
        None => owned("Pipeline negotiated: <none>"),
    };
    let mut r: Vec<String> = Vec::new();
    r.push(index);
    r.push(requested);
    r.push(channels);
    r.push(format);
    r.push(rate);
    r.push(depth);
    r.push(score);
    r.push(rates);
    r.push(pipeline);
    assert(text::views(r@) =~= diagnostics(*diag, negotiated));
    r
}

// ---------------------------------------------------------------------------
// Laws
// ---------------------------------------------------------------------------
/// The peak of a side is the magnitude of one of its samples, or zero where it has none,
/// and no sample of the side is louder: the first channel is one side, all others are
/// the other.
pub proof fn peaks_bound_their_side(samples: Seq<i16>, channels: nat, first: bool)
    requires
        channels >= 1,
    ensures
        forall|i: int|
            0 <= i < samples.len() && (i % channels as int == 0) == first ==> side_peak(
                samples,
                channels,
                first,
            ) >= #[trigger] samples[i] && side_peak(samples, channels, first) >= -samples[i],
        side_peak(samples, channels, first) == 0 || exists|i: int|
            0 <= i < samples.len() && (i % channels as int == 0) == first && (side_peak(
                samples,
                channels,
                first,
            ) == #[trigger] samples[i] || side_peak(samples, channels, first) == -samples[i]),
        side_peak(samples, channels, first) <= 32768,
    decreases samples.len(),
{
    if samples.len() > 0 {
        let t = samples.drop_last();
        let n = samples.len() - 1;
        peaks_bound_their_side(t, channels, first);
        let p = side_peak(samples, channels, first);
        assert(samples[n] == samples.last());
        assert forall|i: int|
            0 <= i < samples.len() && (i % channels as int == 0) == first implies p
            >= #[trigger] samples[i] && p >= -samples[i] by {
            if i < n {
                assert(t[i] == samples[i]);
            }
        }
        if p != 0 && p == side_peak(t, channels, first) {
            let i = choose|i: int|
                0 <= i < t.len() && (i % channels as int == 0) == first && (p == #[trigger] t[i]
                    || p == -t[i]);
            assert(samples[i] == t[i]);
        }
    }
}

/// The meters show 16-bit frames only: on the left no less than any sample of the first
/// channel, on the right no less than any other; with one channel both show the same.
pub proof fn meters_show_the_peaks(f: PcmFrame, i: int)
    requires
        f.format.channels >= 1,
        0 <= i,
        2 * i + 1 < f.data.len(),
    ensures
        f.format.bit_depth != 16 ==> meter_peaks(f) is None,
        f.format.bit_depth == 16 ==> meter_peaks(f) is Some && {
            let (left, right) = meter_peaks(f)->0;
            let u = f.data@[2 * i] + 256 * f.data@[2 * i + 1];
            let m = if u >= 32768 {
                65536 - u
            } else {
                u
            };
            &&& left <= 32768
            &&& right <= 32768
            &&& i % f.format.channels as int == 0 ==> left >= m
            &&& i % f.format.channels as int != 0 ==> right >= m
            &&& f.format.channels == 1 ==> left == right
        },
{
    let samples = pcm::samples16(f.data@);
    let channels = f.format.channels as nat;
    peaks_bound_their_side(samples, channels, true);
    peaks_bound_their_side(samples, channels, false);
    pcm::samples_are_little_endian(f.data@[2 * i], f.data@[2 * i + 1]);
    assert(samples[i] == pcm::sample16(f.data@[2 * i], f.data@[2 * i + 1]));
}

/// What the meters show was heard: each of the two is the magnitude of a sample of its
/// side, or zero.
pub proof fn meters_show_what_was_heard(f: PcmFrame)
    requires
        f.format.channels >= 1,
        f.format.bit_depth == 16,
    ensures
        ({
            let samples = pcm::samples16(f.data@);
            let channels = f.format.channels as int;
            let (left, right) = meter_peaks(f)->0;
            &&& left == 0 || exists|i: int|
                0 <= i < samples.len() && i % channels == 0 && (left == #[trigger] samples[i] || left
                    == -samples[i])
            &&& channels > 1 ==> right == 0 || exists|i: int|
                0 <= i < samples.len() && i % channels != 0 && (right == #[trigger] samples[i]
                    || right == -samples[i])
        }),
{
    let samples = pcm::samples16(f.data@);
    let channels = f.format.channels as nat;
    peaks_bound_their_side(samples, channels, true);
    peaks_bound_their_side(samples, channels, false);
}

/// A recording takes every frame as it is and ends only where it is told to, or where
/// the capture fails.
pub proof fn recordings_take_every_frame(
    f: PcmFrame,
    on_frame: RecordStep,
    on_nothing: RecordStep,
    on_stop: RecordStep,
    on_failure: RecordStep,
)
    requires
        can_meter(f),
        call_ensures(record_step, (RecordEvent::Frame(f),), on_frame),
        call_ensures(record_step, (RecordEvent::Nothing,), on_nothing),
        call_ensures(record_step, (RecordEvent::Stop,), on_stop),
        call_ensures(record_step, (RecordEvent::Failed,), on_failure),
    ensures
        on_frame is Take && on_frame->packet.data@ == f.data@,
        on_frame->packet.duration == f.frame_count,
        f.timestamp_us <= i64::MAX ==> on_frame->packet.pts == f.timestamp_us,
        on_frame->peaks is Some <==> f.format.bit_depth == 16,
        on_nothing is Wait,
        on_stop is End,
        on_failure is End,
{
}

/// A recording that is ending is waited for up to 200 milliseconds, unless it has
/// ended.
pub proof fn endings_have_a_deadline(elapsed_ms: u128, running: StopStep, finished: StopStep)
    requires
        call_ensures(stop_step, (false, elapsed_ms), running),
        call_ensures(stop_step, (true, elapsed_ms), finished),
    ensures
        finished == StopStep::Join,
        running == StopStep::Abort <==> elapsed_ms >= 200,
        running == StopStep::Wait <==> elapsed_ms < 200,
{
}

/// Settings and recordings lie below the user's directories, each where its name says.
pub proof fn folders_lie_below_the_user(dir: Seq<char>, other: Option<Seq<char>>)
    requires
        dir.len() > 0,
        dir.last() != '/',
    ensures
        settings_path(dir) == dir + "/bsm-ui/config.json"@,
        recordings_dir(Some(dir), other) == dir + "/BSM_output"@,
        recordings_dir(None, Some(dir)) == dir + "/Music/BSM_output"@,
        recordings_dir(None, None) == "BSM_output"@,
{
    reveal_strlit("BSM_output");
    reveal_strlit("Music");
    reveal_strlit("bsm-ui");
    reveal_strlit("config.json");
    reveal_strlit("/BSM_output");
    reveal_strlit("/Music/BSM_output");
    reveal_strlit("/bsm-ui/config.json");
    assert(settings_path(dir) =~= dir + "/bsm-ui/config.json"@);
    assert(recordings_dir(Some(dir), other) =~= dir + "/BSM_output"@);
    assert(recordings_dir(None, Some(dir)) =~= dir + "/Music/BSM_output"@);
}

/// A recording is named after its time and its container, and two of different times
/// have different names.
pub proof fn recordings_have_their_own_names(a: u64, b: u64, f: ContainerFormat)
    ensures
        ({
            let name = recording_name(a, f);
            let digits = text::decimal(a as nat).len() as int;
            &&& name.take(10) == "recording-"@
            &&& text::numeral_value(name.subrange(10, 10 + digits)) == a
            &&& name[10 + digits] == '.'
            &&& name.skip(11 + digits) == f.extension_text()
        }),
        recording_name(a, f) == recording_name(b, f) ==> a == b,
{
    lemma_recording_name(a, f);
    lemma_recording_name(b, f);
    if recording_name(a, f) == recording_name(b, f) {
        text::numerals_read_back(a as nat);
        text::numerals_read_back(b as nat);
    }
}

proof fn lemma_recording_name(a: u64, f: ContainerFormat)
    ensures
        ({
            let name = recording_name(a, f);
            let digits = text::decimal(a as nat).len() as int;
            &&& name.len() == 11 + digits + f.extension_text().len()
            &&& name.take(10) == "recording-"@
            &&& text::numeral_value(name.subrange(10, 10 + digits)) == a
            &&& name[10 + digits] == '.'
            &&& name.skip(11 + digits) == f.extension_text()
        }),
{
    reveal_strlit("recording-");
    reveal_strlit(".");
    text::numerals_read_back(a as nat);
    let name = recording_name(a, f);
    let digits = text::decimal(a as nat).len() as int;
    assert(name.take(10) =~= "recording-"@);
    assert(name.subrange(10, 10 + digits) =~= text::decimal(a as nat));
    assert(name.skip(11 + digits) =~= f.extension_text());
}

/// Each container is written by the codec of its kind.
pub proof fn containers_have_codecs()
    ensures
        codec_text(ContainerFormat::Wav) == "pcm_s16le"@,
        codec_text(ContainerFormat::Mp3) == "mp3"@,
        codec_text(ContainerFormat::Flac) == "flac"@,
{
}

/// Pressing `Pause` turns a running recording's pause on and off and tells which; the
/// recording goes on, and without one nothing happens.
pub proof fn pausing_keeps_the_recording(before: BsmWindow, after: BsmWindow)
    requires
        pause_pressed(before, after),
    ensures
        after.recording == before.recording,
        after.record_path == before.record_path,
        before.recording ==> after.recording_paused != before.recording_paused,
        before.recording ==> after.logs@.len() == before.logs@.len() + 1,
        !before.recording ==> after == before,
{
    if before.recording {
        assert(text::views(after.logs@).len() == text::views(before.logs@).len() + 1);
    }
}

/// A log grows by one line at its end and keeps all others.
pub proof fn logs_only_grow(before: Seq<String>, after: Seq<String>, line: Seq<char>, i: int)
    requires
        logged(before, after, line),
        0 <= i < before.len(),
    ensures
        after.len() == before.len() + 1,
        after.last()@ == line,
        after[i]@ == before[i]@,
{
    let a = text::views(after);
    let b = text::views(before);
    assert(a.len() == b.len() + 1);
    assert(a[before.len() as int] == line);
    assert(a[i] == b[i]);
}

/// Numbers are listed in order, with a comma and a blank between any two.
pub proof fn numbers_are_listed(a: Seq<u32>, n: u32)
    ensures
        numbers(Seq::empty()) == Seq::<char>::empty(),
        numbers(seq![n]) == text::decimal(n as nat),
        a.len() > 0 ==> numbers(a.push(n)) == numbers(a) + ", "@ + text::decimal(n as nat),
{
    assert(a.push(n).drop_last() =~= a);
}

/// A format is told by its rate, its channels and its bits.
pub proof fn formats_are_told(f: PcmFormat)
    ensures
        ({
            let t = format_text(f);
            let r = text::decimal(f.sample_rate as nat).len() as int;
            let c = text::decimal(f.channels as nat).len() as int;
            let b = text::decimal(f.bit_depth as nat).len() as int;
            &&& t.len() == r + c + b + 14
            &&& text::numeral_value(t.take(r)) == f.sample_rate
            &&& t.subrange(r, r + 5) == " Hz, "@
            &&& text::numeral_value(t.subrange(r + 5, r + 5 + c)) == f.channels
            &&& t.subrange(r + 5 + c, r + 10 + c) == " ch, "@
            &&& text::numeral_value(t.subrange(r + 10 + c, r + 10 + c + b)) == f.bit_depth
            &&& t.skip(r + 10 + c + b) == " bit"@
        }),
{
    reveal_strlit(" Hz, ");
    reveal_strlit(" ch, ");
    reveal_strlit(" bit");
    text::numerals_read_back(f.sample_rate as nat);
    text::numerals_read_back(f.channels as nat);
    text::numerals_read_back(f.bit_depth as nat);
    let t = format_text(f);
    let r = text::decimal(f.sample_rate as nat).len() as int;
    let c = text::decimal(f.channels as nat).len() as int;
    let b = text::decimal(f.bit_depth as nat).len() as int;
    assert(t.take(r) =~= text::decimal(f.sample_rate as nat));
    assert(t.subrange(r, r + 5) =~= " Hz, "@);
    assert(t.subrange(r + 5, r + 5 + c) =~= text::decimal(f.channels as nat));
    assert(t.subrange(r + 5 + c, r + 10 + c) =~= " ch, "@);
    assert(t.subrange(r + 10 + c, r + 10 + c + b) =~= text::decimal(f.bit_depth as nat));
    assert(t.skip(r + 10 + c + b) =~= " bit"@);
}

/// The window tells each fact of a negotiation in a line of its own, behind its label.
pub proof fn diagnostics_tell_all(diag: NegotiationInfo, negotiated: PcmFormat)
    ensures
        ({
            let lines = diagnostics(diag, Some(negotiated));
            &&& lines.len() == 9
            &&& lines[0] == "Device idx: "@ + text::decimal(diag.device_index as nat)
            &&& lines[1] == "Requested: "@ + format_text(diag.requested_format)
            &&& lines[2] == "Chosen channels: "@ + text::decimal(diag.chosen_channels as nat)
            &&& lines[4] == "Negotiated SR: "@ + text::decimal(diag.negotiated_sample_rate as nat)
                + " (range "@ + text::decimal(diag.chosen_min_sr as nat) + "-"@ + text::decimal(
                diag.chosen_max_sr as nat,
            ) + ")"@
            &&& lines[5] == "Bit depth reported: "@ + text::decimal(diag.bit_depth as nat)
            &&& lines[6] == "Score: "@ + text::decimal(diag.score as nat)
            &&& lines[8] == "Pipeline negotiated: "@ + format_text(negotiated)
        }),
        diagnostics(diag, None)[8] == "Pipeline negotiated: <none>"@,
        diagnostics(diag, None).take(8) == diagnostics(diag, Some(negotiated)).take(8),
{
    assert(diagnostics(diag, None).take(8) =~= diagnostics(diag, Some(negotiated)).take(8));
}

/// Sample formats are told by their names: a letter for the kind and the bits.
pub proof fn sample_formats_have_names()
    ensures
        sample_format_text(SampleFormat::I8) == "I8"@,
        sample_format_text(SampleFormat::I16) == "I16"@,
        sample_format_text(SampleFormat::I24) == "I24"@,
        sample_format_text(SampleFormat::I32) == "I32"@,
        sample_format_text(SampleFormat::I64) == "I64"@,
        sample_format_text(SampleFormat::U8) == "U8"@,
        sample_format_text(SampleFormat::U16) == "U16"@,
        sample_format_text(SampleFormat::U32) == "U32"@,
        sample_format_text(SampleFormat::U64) == "U64"@,
        sample_format_text(SampleFormat::F32) == "F32"@,
        sample_format_text(SampleFormat::F64) == "F64"@,
{
}

/// From its beginning to its end a recording is told twice, with the same path, and leaves
/// the window as it was, whether it was paused or not.
pub proof fn recordings_leave_the_window_as_it_was(
    a: BsmWindow,
    path: String,
    b: BsmWindow,
    c: BsmWindow,
    d: BsmWindow,
)
    requires
        !a.recording,
        !a.recording_paused,
        a.record_path is None,
        recording_begun(a, path, b),
        pause_pressed(b, c),
        recording_ended(c, d),
    ensures
        b.recording && b.record_path == Some(path),
        c.recording_paused,
        d == (BsmWindow { logs: d.logs, ..a }),
        d.logs@.len() == a.logs@.len() + 3,
        d.logs@.last()@ == "recording saved: "@ + path@,
        b.logs@.last()@ == "recording started: "@ + path@,
{
    let va = text::views(a.logs@);
    let vb = text::views(b.logs@);
    let vc = text::views(c.logs@);
    let vd = text::views(d.logs@);
    assert(vb.len() == va.len() + 1);
    assert(vc.len() == vb.len() + 1);
    assert(vd.len() == vc.len() + 1);
    assert(vd.last() == "recording saved: "@ + path@);
    assert(vb.last() == "recording started: "@ + path@);
}

/// The settings that are kept bring back the window that they were kept of.
pub proof fn settings_survive(w: BsmWindow, kept: UiConfig, again: BsmWindow)
    requires
        call_ensures(BsmWindow::config, (&w,), kept),
        call_ensures(BsmWindow::new, (Some(kept),), again),
    ensures
        again.output_dir@ == w.output_dir@,
        again.bitrate_kbps == w.bitrate_kbps,
        again.container_format == w.container_format,
{
    container_survives(w.container_format);
}

/// A new window has 48 kHz chosen out of three rates, stereo, 128 kbit/s and WAV where
/// nothing was kept, and neither a device nor a recording.
pub proof fn new_windows_are_empty(w: BsmWindow)
    requires
        call_ensures(BsmWindow::new, (None,), w),
    ensures
        w.devices@.len() == 0 && w.selected_device == 0,
        w.sample_rates@ == seq![48000u32, 44100, 96000] && w.selected_rate_idx == 0,
        w.logs@.len() == 0,
        !w.mono && !w.recording && !w.recording_paused && w.record_path is None,
        w.bitrate_kbps == 128,
        w.container_format == ContainerFormat::Wav,
        w.in_splash,
{
}

/// The log is shown from its newest line back, up to fifty lines.
pub proof fn newest_lines_come_first(w: BsmWindow, shown: Vec<String>, i: int)
    requires
        call_ensures(BsmWindow::recent_logs, (&w,), shown),
        0 <= i < shown.len(),
    ensures
        shown.len() <= 50,
        shown.len() == w.logs.len() || shown.len() == 50,
        shown@[0]@ == w.logs@.last()@,
        shown@[i]@ == w.logs@[w.logs.len() - 1 - i]@,
{
}

/// A device is chosen only among those that are listed; without a choice the index is one
/// that no device has. Meters capture only while nothing else does.
pub proof fn choices_are_listed(w: BsmWindow, index: u32, running: bool, wanted: bool)
    requires
        call_ensures(BsmWindow::selected_index, (&w,), index),
        call_ensures(BsmWindow::monitor_wanted, (&w, running), wanted),
    ensures
        w.selected_device < w.devices.len() ==> index
            == w.devices@[w.selected_device as int].index,
        w.selected_device >= w.devices.len() ==> index == 0xFFFF_FFFF,
        wanted <==> !w.recording && !running,
{
}

/// Choosing mono or stereo asks for one or two channels and leaves rate and bits alone.
pub proof fn channels_are_asked_for(w: &mut BsmWindow, mono: bool, format: PcmFormat, r: PcmFormat)
    requires
        call_ensures(BsmWindow::channels_clicked, (w, mono, format), r),
    ensures
        mono ==> r.channels == 1,
        !mono ==> r.channels == 2,
        r.sample_rate == format.sample_rate,
        r.bit_depth == format.bit_depth,
        final(w).mono == mono,
        final(w).recording == old(w).recording,
        final(w).logs@.len() == old(w).logs@.len() + 1,
{
    assert(text::views(final(w).logs@).len() == text::views(old(w).logs@).len() + 1);
}

/// Choosing a rate asks for that one and leaves channels and bits alone.
pub proof fn rates_are_asked_for(w: &mut BsmWindow, i: usize, format: PcmFormat, r: PcmFormat)
    requires
        i < old(w).sample_rates.len(),
        call_ensures(BsmWindow::rate_clicked, (w, i, format), r),
    ensures
        r.sample_rate == old(w).sample_rates@[i as int],
        r.channels == format.channels,
        r.bit_depth == format.bit_depth,
        final(w).selected_rate_idx == i,
        final(w).sample_rates == old(w).sample_rates,
        final(w).recording == old(w).recording,
{
}

/// Choosing a device asks for its index, and for a diagnosis unless it is a loopback.
pub proof fn devices_are_asked_for(w: &mut BsmWindow, i: usize, r: DeviceChoice)
    requires
        i < old(w).devices.len(),
        call_ensures(BsmWindow::device_clicked, (w, i), r),
    ensures
        r.index == old(w).devices@[i as int].index,
        r.diagnose == !old(w).devices@[i as int].is_loopback,
        final(w).selected_device == i,
        final(w).devices == old(w).devices,
        old(w).devices@[i as int].is_loopback ==> final(w).last_diag is None,
        !old(w).devices@[i as int].is_loopback ==> final(w).last_diag == old(w).last_diag,
{
}

/// A recording is started only where none runs, below the chosen folder, with the chosen
/// container and bit rate; asking for one changes nothing but the log.
pub proof fn one_recording_at_a_time(w: &mut BsmWindow, ts: u64, r: Option<RecordRequest>)
    requires
        call_ensures(BsmWindow::record_clicked, (w, ts), r),
    ensures
        r is Some <==> !old(w).recording,
        r is Some ==> r->0.container == old(w).container_format,
        r is Some ==> r->0.bitrate_kbps == old(w).bitrate_kbps,
        r is Some && old(w).output_dir@.len() > 0 && old(w).output_dir@.last() != '/' ==> r->0.path@
            == old(w).output_dir@ + seq!['/'] + recording_name(ts, old(w).container_format),
        final(w).recording == old(w).recording,
        !old(w).recording ==> *final(w) == *old(w),
{
    reveal_strlit("recording-");
    let name = recording_name(ts, old(w).container_format);
    assert(name[0] == 'r');
    if old(w).output_dir@.len() > 0 {
        paths::leaves_lie_below_their_base(old(w).output_dir@, name);
    }
}

/// The splash screen is shown for the first one and a half seconds and does not come back.
pub proof fn splashes_end(w: &mut BsmWindow, elapsed_ms: u128, shown: bool)
    requires
        call_ensures(BsmWindow::show_splash, (w, elapsed_ms), shown),
    ensures
        shown ==> old(w).in_splash && elapsed_ms < 1500,
        old(w).in_splash && elapsed_ms < 1500 ==> shown,
        final(w).in_splash == shown,
{
}

/// Starts and stops of audio are logged, statistics move the meters, and all else is passed
/// over.
pub proof fn telemetry_is_sorted(w: &mut BsmWindow, event: &str, meters: bool)
    requires
        call_ensures(BsmWindow::telemetry_event, (w, event), meters),
    ensures
        meters <==> event@ == "audio_stats"@,
        event@ == "audio_started"@ || event@ == "audio_stopped"@ ==> final(w).logs@.len() == old(
            w,
        ).logs@.len() + 1,
        event@ != "audio_started"@ && event@ != "audio_stopped"@ ==> *final(w) == *old(w),
        final(w).recording == old(w).recording,
{
    if event@ == "audio_started"@ || event@ == "audio_stopped"@ {
        assert(text::views(final(w).logs@).len() == text::views(old(w).logs@).len() + 1);
    }
}

/// New rates are offered as they are, with the first one chosen; new devices and a new
/// folder take the place of the old ones.
pub proof fn news_replaces_the_old(
    a: &mut BsmWindow,
    rates: Vec<u32>,
    b: &mut BsmWindow,
    devices: Vec<DeviceEntry>,
    c: &mut BsmWindow,
    dir: String,
)
    requires
        call_ensures(BsmWindow::rates_found, (a, rates), ()),
        call_ensures(BsmWindow::refreshed, (b, devices), ()),
        call_ensures(BsmWindow::folder_chosen, (c, dir), ()),
    ensures
        final(a).sample_rates == rates,
        final(a).selected_rate_idx == 0,
        final(a).devices == old(a).devices,
        final(b).devices == devices,
        final(b).sample_rates == old(b).sample_rates,
        final(c).output_dir == dir,
        final(c).container_format == old(c).container_format,
{
}

} // verus!
