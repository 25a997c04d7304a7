//! Configuration: sections, defaults and validation.
use crate::error::{labelled, BsmError};
use crate::paths;
use crate::paths::{audio_dir, config_dir, home_dir, join};
use crate::text;
use crate::text::owned;
use vstd::prelude::*;

verus! {

/// Top-level configuration that other modules read from.
#[derive(Debug, Clone)]
pub struct BsmConfig {
    pub config_version: u32,
    pub audio: AudioConfig,
    pub encoder: EncoderConfig,
    pub output: OutputConfig,
    pub hotkeys: HotkeyConfig,
    pub hrt: HrtConfig,
    pub ui: UiConfig,
    pub logging: LoggingConfig,
}

#[derive(Debug, Clone, Copy)]
pub struct AudioConfig {
    pub device_index: u32,
    pub sample_rate: u32,
    pub channels: u16,
    pub bit_depth: u16,
    pub buffer_ms: u32,
}

#[derive(Debug, Clone, Copy)]
pub struct EncoderConfig {
    pub codec: AudioCodec,
    pub bitrate_kbps: u32,
    pub vbr: bool,
    pub preset: EncoderPreset,
}

#[derive(Debug, Clone, Copy, PartialEq, Eq, Structural)]
pub enum AudioCodec {
    Aac,
    Opus,
    Flac,
}

#[derive(Debug, Clone, Copy, PartialEq, Eq, Structural)]
pub enum EncoderPreset {
    Fast,
    Balanced,
    Quality,
}

#[derive(Debug, Clone)]
pub struct OutputConfig {
    pub output_folder: String,
    pub container: ContainerFormat,
    pub auto_remux_to_mp4: bool,
    pub file_name_pattern: String,
}

#[derive(Debug, Clone, Copy, PartialEq, Eq, Structural)]
pub enum ContainerFormat {
    Mp3,
    Flac,
    Wav,
}

#[derive(Debug, Clone)]
pub struct HotkeyConfig {
    pub toggle_recording: String,
    pub toggle_pause: String,
    pub show_ui: String,
    pub emergency_stop: String,
}

/// The thresholds are single-precision bit patterns, in degrees Celsius.
#[derive(Debug, Clone)]
pub struct HrtConfig {
    pub enabled: bool,
    pub pipe_path: String,
    pub throttle_threshold_c: u32,
    pub auto_stop_threshold_c: u32,
}

#[derive(Debug, Clone, Copy)]
pub struct UiConfig {
    pub show_on_launch: bool,
    pub headless: bool,
    pub window_width: u32,
    pub window_height: u32,
}

#[derive(Debug, Clone)]
pub struct LoggingConfig {
    pub level: String,
    pub log_to_file: bool,
    pub log_file: String,
}

// ---------------------------------------------------------------------------
// Defaults
// ---------------------------------------------------------------------------
/// Recordings go below the music directory, else below the home directory, else
/// below the working directory.
pub open spec fn output_folder_text(audio: Option<Seq<char>>, home: Option<Seq<char>>) -> Seq<
    char,
> {
    match (audio, home) {
        (Some(dir), _) => paths::joined_path(dir, "BSM_output"@),
        (None, Some(dir)) => paths::joined_path(
            paths::joined_path(dir, "Music"@),
            "BSM_output"@,
        ),
        (None, None) => "./BSM_output"@,
    }
}

/// See [`output_folder_text`].
pub fn output_folder_in(audio: Option<String>, home: Option<String>) -> (r: String)
    ensures
        r@ == output_folder_text(text::opt_view(audio), text::opt_view(home)),
{
    match audio {
        Some(dir) => join(dir.as_str(), "BSM_output"),
        None => match home {
            Some(dir) => join(join(dir.as_str(), "Music").as_str(), "BSM_output"),
            None => owned("./BSM_output"),
        },
    }
}

fn default_output_folder() -> (r: String)
    ensures
        is_output_folder(r@),
{
    let audio = audio_dir();
    let home = home_dir();
    let r = output_folder_in(audio, home);
    assert(r@ == output_folder_text(text::opt_view(audio), text::opt_view(home)));
    r
}

/// Whether some directories of the user lead to this folder.
pub open spec fn is_output_folder(folder: Seq<char>) -> bool {
    exists|audio: Option<Seq<char>>, home: Option<Seq<char>>|
        folder == #[trigger] output_folder_text(audio, home)
}

/// The log lies below the configuration directory, else in the working directory.
pub open spec fn log_path_text(config: Option<Seq<char>>) -> Seq<char> {
    match config {
        Some(dir) => paths::joined_path(
            paths::joined_path(dir, "BaxtersStereoMix"@),
            "bsm.log"@,
        ),
        None => "./bsm.log"@,
    }
}

/// See [`log_path_text`].
pub fn log_path_in(config: Option<String>) -> (r: String)
    ensures
        r@ == log_path_text(text::opt_view(config)),
{
    match config {
        Some(dir) => join(join(dir.as_str(), "BaxtersStereoMix").as_str(), "bsm.log"),
        None => owned("./bsm.log"),
    }
}

fn default_log_path() -> (r: String)
    ensures
        is_log_path(r@),
{
    let config = config_dir();
    let r = log_path_in(config);
    assert(r@ == log_path_text(text::opt_view(config)));
    r
}

/// Whether some configuration directory leads to this log file.
pub open spec fn is_log_path(path: Seq<char>) -> bool {
    exists|config: Option<Seq<char>>| path == #[trigger] log_path_text(config)
}

/// The configuration file lies below the configuration directory, else below the
/// working directory.
pub open spec fn config_path_text(config: Option<Seq<char>>) -> Seq<char> {
    let dir = match config {
        Some(dir) => dir,
        None => "."@,
    };
    paths::joined_path(paths::joined_path(dir, "BaxtersStereoMix"@), "config.toml"@)
}

/// See [`config_path_text`].
pub fn config_path_in(config: Option<String>) -> (r: String)
    ensures
        r@ == config_path_text(text::opt_view(config)),
{
    let dir = match config {
        Some(dir) => dir,
        None => owned("."),
    };
    join(join(dir.as_str(), "BaxtersStereoMix").as_str(), "config.toml")
}

/// Where the configuration is kept.
pub fn config_path() -> (r: String)
    ensures
        exists|config: Option<Seq<char>>| r@ == #[trigger] config_path_text(config),
{
    let config = config_dir();
    let r = config_path_in(config);
    assert(r@ == config_path_text(text::opt_view(config)));
    r
}

impl Default for AudioConfig {
    fn default() -> (r: Self)
        ensures
            r == (AudioConfig {
                device_index: 0,
                sample_rate: 48000,
                channels: 2,
                bit_depth: 16,
                buffer_ms: 10,
            }),
    {
        AudioConfig {
            device_index: 0,
            sample_rate: 48000,
            channels: 2,
            bit_depth: 16,
            buffer_ms: 10,
        }
    }
}

impl Default for EncoderConfig {
    fn default() -> (r: Self)
        ensures
            r == (EncoderConfig {
                codec: AudioCodec::Aac,
                bitrate_kbps: 192,
                vbr: false,
                preset: EncoderPreset::Balanced,
            }),
    {
        EncoderConfig {
            codec: AudioCodec::Aac,
            bitrate_kbps: 192,
            vbr: false,
            preset: EncoderPreset::Balanced,
        }
    }
}

impl OutputConfig {
    /// Whether this is a default section, for some directories of the user.
    pub open spec fn is_default(&self) -> bool {
        &&& is_output_folder(self.output_folder@)
        &&& self.container == ContainerFormat::Mp3
        &&& !self.auto_remux_to_mp4
        &&& self.file_name_pattern@ == "BSM_{date}_{time}_{n}"@
    }
}

impl Default for OutputConfig {
    fn default() -> (r: Self)
        ensures
            r.is_default(),
    {
        OutputConfig {
            output_folder: default_output_folder(),
            container: ContainerFormat::Mp3,
            auto_remux_to_mp4: false,
            file_name_pattern: owned("BSM_{date}_{time}_{n}"),
        }
    }
}

impl HotkeyConfig {
    pub open spec fn is_default(&self) -> bool {
        &&& self.toggle_recording@ == "Ctrl+Shift+R"@
        &&& self.toggle_pause@ == "Ctrl+Shift+P"@
        &&& self.show_ui@ == "Ctrl+Shift+M"@
        &&& self.emergency_stop@ == "Ctrl+Shift+Escape"@
    }
}

impl Default for HotkeyConfig {
    fn default() -> (r: Self)
        ensures
            r.is_default(),
    {
        HotkeyConfig {
            toggle_recording: owned("Ctrl+Shift+R"),
            toggle_pause: owned("Ctrl+Shift+P"),
            show_ui: owned("Ctrl+Shift+M"),
            emergency_stop: owned("Ctrl+Shift+Escape"),
        }
    }
}

impl HrtConfig {
    /// Off; throttling at 85 degrees, stopping at 95.
    pub open spec fn is_default(&self) -> bool {
        &&& !self.enabled
        &&& self.pipe_path@ == "\\\\.\\pipe\\hrt-command"@
        &&& self.throttle_threshold_c == 0x42AA_0000
        &&& self.auto_stop_threshold_c == 0x42BE_0000
    }
}

impl Default for HrtConfig {
    fn default() -> (r: Self)
        ensures
            r.is_default(),
    {
        HrtConfig {
            enabled: false,
            pipe_path: owned("\\\\.\\pipe\\hrt-command"),
            throttle_threshold_c: 0x42AA_0000,
            auto_stop_threshold_c: 0x42BE_0000,
        }
    }
}

impl Default for UiConfig {
    fn default() -> (r: Self)
        ensures
            r == (UiConfig {
                show_on_launch: true,
                headless: false,
                window_width: 520,
                window_height: 340,
            }),
    {
        UiConfig { show_on_launch: true, headless: false, window_width: 520, window_height: 340 }
    }
}

impl LoggingConfig {
    pub open spec fn is_default(&self) -> bool {
        &&& self.level@ == "info"@
        &&& self.log_to_file
        &&& is_log_path(self.log_file@)
    }
}

impl Default for LoggingConfig {
    fn default() -> (r: Self)
        ensures
            r.is_default(),
    {
        LoggingConfig { level: owned("info"), log_to_file: true, log_file: default_log_path() }
    }
}

impl BsmConfig {
    /// Whether every section is a default one.
    pub open spec fn is_default(&self) -> bool {
        &&& self.config_version == 1
        &&& self.audio == (AudioConfig {
            device_index: 0,
            sample_rate: 48000,
            channels: 2,
            bit_depth: 16,
            buffer_ms: 10,
        })
        &&& self.encoder == (EncoderConfig {
            codec: AudioCodec::Aac,
            bitrate_kbps: 192,
            vbr: false,
            preset: EncoderPreset::Balanced,
        })
        &&& self.output.is_default()
        &&& self.hotkeys.is_default()
        &&& self.hrt.is_default()
        &&& self.ui == (UiConfig {
            show_on_launch: true,
            headless: false,
            window_width: 520,
            window_height: 340,
        })
        &&& self.logging.is_default()
    }
}

impl Default for BsmConfig {
    fn default() -> (r: Self)
        ensures
            r.is_default(),
    {
        BsmConfig {
            config_version: 1,
            audio: AudioConfig::default(),
            encoder: EncoderConfig::default(),
            output: OutputConfig::default(),
            hotkeys: HotkeyConfig::default(),
            hrt: HrtConfig::default(),
            ui: UiConfig::default(),
            logging: LoggingConfig::default(),
        }
    }
}

// ---------------------------------------------------------------------------
// Validation
// ---------------------------------------------------------------------------
/// A list of one message, or none.
pub open spec fn when(failed: bool, message: Seq<char>) -> Seq<Seq<char>> {
    if failed {
        seq![message]
    } else {
        Seq::empty()
    }
}

/// Everything that is wrong with a configuration, in order.
pub open spec fn config_errors(config: &BsmConfig) -> Seq<Seq<char>> {
    when(config.audio.sample_rate == 0, "audio.sample_rate must be > 0"@) + when(
        config.audio.channels == 0 || config.audio.channels > 8,
        "audio.channels must be 1–8"@,
    ) + when(config.audio.buffer_ms == 0, "audio.buffer_ms must be > 0"@) + when(
        config.encoder.bitrate_kbps == 0,
        "encoder.bitrate_kbps must be > 0"@,
    ) + when(
        config.output.output_folder@.len() == 0,
        "output.output_folder must not be empty"@,
    ) + when(
        config.output.file_name_pattern@.len() == 0,
        "output.file_name_pattern must not be empty"@,
    )
}

fn push_when(errors: &mut Vec<String>, failed: bool, message: &str)
    ensures
        text::views(final(errors)@) == text::views(old(errors)@) + when(failed, message@),
{
    if failed {
        errors.push(owned(message));
    }
    assert(text::views(errors@) =~= text::views(old(errors)@) + when(failed, message@));
}

/// Validate config, returning a list of human-readable error strings.
pub fn validate_config(config: &BsmConfig) -> (errors: Vec<String>)
    ensures
        text::views(errors@) == config_errors(config),
{
    let mut errors: Vec<String> = Vec::new();
    push_when(&mut errors, config.audio.sample_rate == 0, "audio.sample_rate must be > 0");
    push_when(
        &mut errors,
        config.audio.channels == 0 || config.audio.channels > 8,
        "audio.channels must be 1–8",
    );
    push_when(&mut errors, config.audio.buffer_ms == 0, "audio.buffer_ms must be > 0");
    push_when(&mut errors, config.encoder.bitrate_kbps == 0, "encoder.bitrate_kbps must be > 0");
    push_when(
        &mut errors,
        config.output.output_folder.as_str().unicode_len() == 0,
        "output.output_folder must not be empty",
    );
    push_when(
        &mut errors,
        config.output.file_name_pattern.as_str().unicode_len() == 0,
        "output.file_name_pattern must not be empty",
    );
    assert(text::views(errors@) =~= config_errors(config));
    errors
}

/// A default configuration is valid, whatever directories the user has.
pub proof fn default_config_is_valid(config: &BsmConfig)
    requires
        config.is_default(),
    ensures
        config_errors(config) == Seq::<Seq<char>>::empty(),
{
    reveal_strlit("BSM_output");
    reveal_strlit("./BSM_output");
    reveal_strlit("BSM_{date}_{time}_{n}");
    assert(config.output.output_folder@.len() > 0);
    assert(config_errors(config) =~= Seq::<Seq<char>>::empty());
}

// ---------------------------------------------------------------------------
// Errors
// ---------------------------------------------------------------------------
/// The error for a configuration file that cannot be parsed.
pub fn parse_failed(detail: &str) -> (e: BsmError)
    ensures
        e matches BsmError::Config(m) && m@ == "Failed to parse config: "@ + detail@,
{
    BsmError::Config(labelled("Failed to parse config: ", detail))
}

/// The error for a configuration that cannot be written as text.
pub fn serialize_failed(detail: &str) -> (e: BsmError)
    ensures
        e matches BsmError::Serialization(m) && m@ == "Failed to serialize config: "@ + detail@,
{
    BsmError::Serialization(labelled("Failed to serialize config: ", detail))
}

// ---------------------------------------------------------------------------
// Laws
// ---------------------------------------------------------------------------
/// A configuration is valid exactly where its rate, its buffer and its bit rate are
/// above zero, it has one to eight channels, and folder and pattern are not empty.
pub proof fn valid_configurations(config: &BsmConfig)
    ensures
        config_errors(config).len() == 0 <==> {
            &&& config.audio.sample_rate >= 1
            &&& 1 <= config.audio.channels <= 8
            &&& config.audio.buffer_ms >= 1
            &&& config.encoder.bitrate_kbps >= 1
            &&& config.output.output_folder@.len() >= 1
            &&& config.output.file_name_pattern@.len() >= 1
        },
{
}

/// Every mistake is told by a message of its own, so as many messages come as there are
/// mistakes.
pub proof fn each_mistake_has_a_message(config: &BsmConfig)
    ensures
        config.audio.sample_rate == 0 ==> config_errors(config).contains(
            "audio.sample_rate must be > 0"@,
        ),
        config.audio.channels == 0 || config.audio.channels > 8 ==> config_errors(config).contains(
            "audio.channels must be 1–8"@,
        ),
        config.audio.buffer_ms == 0 ==> config_errors(config).contains(
            "audio.buffer_ms must be > 0"@,
        ),
        config.encoder.bitrate_kbps == 0 ==> config_errors(config).contains(
            "encoder.bitrate_kbps must be > 0"@,
        ),
        config.output.output_folder@.len() == 0 ==> config_errors(config).contains(
            "output.output_folder must not be empty"@,
        ),
        config.output.file_name_pattern@.len() == 0 ==> config_errors(config).contains(
            "output.file_name_pattern must not be empty"@,
        ),
        config_errors(config).len() == (if config.audio.sample_rate == 0 {
            1int
        } else {
            0
        }) + (if 1 <= config.audio.channels <= 8 {
            0int
        } else {
            1
        }) + (if config.audio.buffer_ms == 0 {
            1int
        } else {
            0
        }) + (if config.encoder.bitrate_kbps == 0 {
            1int
        } else {
            0
        }) + (if config.output.output_folder@.len() == 0 {
            1int
        } else {
            0
        }) + (if config.output.file_name_pattern@.len() == 0 {
            1int
        } else {
            0
        }),
{
    let a = when(config.audio.sample_rate == 0, "audio.sample_rate must be > 0"@);
    let b = when(
        config.audio.channels == 0 || config.audio.channels > 8,
        "audio.channels must be 1–8"@,
    );
    let c = when(config.audio.buffer_ms == 0, "audio.buffer_ms must be > 0"@);
    let d = when(config.encoder.bitrate_kbps == 0, "encoder.bitrate_kbps must be > 0"@);
    let e = when(
        config.output.output_folder@.len() == 0,
        "output.output_folder must not be empty"@,
    );
    let f = when(
        config.output.file_name_pattern@.len() == 0,
        "output.file_name_pattern must not be empty"@,
    );
    lemma_told(a, b);
    lemma_told(a + b, c);
    lemma_told(a + b + c, d);
    lemma_told(a + b + c + d, e);
    lemma_told(a + b + c + d + e, f);
    if a.len() > 0 {
        assert(a.contains(a[0]));
    }
}

proof fn lemma_told(before: Seq<Seq<char>>, one: Seq<Seq<char>>)
    ensures
        forall|m: Seq<char>| before.contains(m) ==> #[trigger] (before + one).contains(m),
        one.len() > 0 ==> (before + one).contains(one[0]),
{
    assert forall|m: Seq<char>| before.contains(m) implies #[trigger] (before + one).contains(m) by {
        let i = before.index_of(m);
        assert((before + one)[i] == m);
    }
    if one.len() > 0 {
        assert((before + one)[before.len() as int] == one[0]);
    }
}

/// Recordings go to one folder below the user's music, else below that of the home
/// directory, else of the working directory; each lies where its name says.
pub proof fn folders_lie_below_the_user(dir: Seq<char>, other: Option<Seq<char>>)
    requires
        dir.len() > 0,
        dir.last() != '/',
    ensures
        output_folder_text(Some(dir), other) == dir + "/BSM_output"@,
        output_folder_text(None, Some(dir)) == dir + "/Music/BSM_output"@,
        output_folder_text(None, None) == "./BSM_output"@,
        log_path_text(Some(dir)) == dir + "/BaxtersStereoMix/bsm.log"@,
        log_path_text(None) == "./bsm.log"@,
        config_path_text(Some(dir)) == dir + "/BaxtersStereoMix/config.toml"@,
        config_path_text(None) == "./BaxtersStereoMix/config.toml"@,
{
    reveal_strlit("BSM_output");
    reveal_strlit("Music");
    reveal_strlit("/BSM_output");
    reveal_strlit("/Music/BSM_output");
    assert(output_folder_text(Some(dir), other) =~= dir + "/BSM_output"@);
    assert(output_folder_text(None, Some(dir)) =~= dir + "/Music/BSM_output"@);
    lemma_own_folder(dir);
    reveal_strlit(".");
    lemma_own_folder("."@);
    reveal_strlit("/BaxtersStereoMix/config.toml");
    reveal_strlit("./BaxtersStereoMix/config.toml");
    assert("."@ + "/BaxtersStereoMix/config.toml"@ =~= "./BaxtersStereoMix/config.toml"@);
}

proof fn lemma_own_folder(dir: Seq<char>)
    requires
        dir.len() > 0,
        dir.last() != '/',
    ensures
        log_path_text(Some(dir)) == dir + "/BaxtersStereoMix/bsm.log"@,
        config_path_text(Some(dir)) == dir + "/BaxtersStereoMix/config.toml"@,
{
    reveal_strlit("BaxtersStereoMix");
    reveal_strlit("bsm.log");
    reveal_strlit("config.toml");
    reveal_strlit("/BaxtersStereoMix/bsm.log");
    reveal_strlit("/BaxtersStereoMix/config.toml");
    assert(log_path_text(Some(dir)) =~= dir + "/BaxtersStereoMix/bsm.log"@);
    assert(config_path_text(Some(dir)) =~= dir + "/BaxtersStereoMix/config.toml"@);
}

/// The defaults: 48 kHz stereo of 16 bits in buffers of 10 ms, 192 kbit/s, MP3 files, and
/// HRT off with its thresholds at 85 and 95 degrees.
pub proof fn defaults(config: &BsmConfig)
    requires
        config.is_default(),
    ensures
        config.config_version == 1,
        config.audio.device_index == 0,
        config.audio.sample_rate == 48000,
        config.audio.channels == 2,
        config.audio.bit_depth == 16,
        config.audio.buffer_ms == 10,
        config.encoder.codec == AudioCodec::Aac,
        config.encoder.bitrate_kbps == 192,
        !config.encoder.vbr,
        config.encoder.preset == EncoderPreset::Balanced,
        config.output.container == ContainerFormat::Mp3,
        !config.output.auto_remux_to_mp4,
        config.output.file_name_pattern@ == "BSM_{date}_{time}_{n}"@,
        config.hotkeys.toggle_recording@ == "Ctrl+Shift+R"@,
        config.hotkeys.toggle_pause@ == "Ctrl+Shift+P"@,
        config.hotkeys.show_ui@ == "Ctrl+Shift+M"@,
        config.hotkeys.emergency_stop@ == "Ctrl+Shift+Escape"@,
        !config.hrt.enabled,
        config.hrt.pipe_path@ == "\\\\.\\pipe\\hrt-command"@,
        config.hrt.throttle_threshold_c < config.hrt.auto_stop_threshold_c,
        0x80_0000 + config.hrt.throttle_threshold_c % 0x80_0000 == 85 * 0x2_0000,
        0x80_0000 + config.hrt.auto_stop_threshold_c % 0x80_0000 == 95 * 0x2_0000,
        config.hrt.throttle_threshold_c / 0x80_0000 == 133,
        config.hrt.auto_stop_threshold_c / 0x80_0000 == 133,
        config.ui.show_on_launch && !config.ui.headless,
        config.ui.window_width == 520 && config.ui.window_height == 340,
        config.logging.level@ == "info"@,
        config.logging.log_to_file,
{
}

/// Files that cannot be read or written as a configuration are told apart, with the detail.
pub proof fn bad_files_are_told(detail: &str, read: BsmError, written: BsmError)
    requires
        call_ensures(parse_failed, (detail,), read),
        call_ensures(serialize_failed, (detail,), written),
    ensures
        read is Config && read->Config_0@ == "Failed to parse config: "@ + detail@,
        written is Serialization && written->Serialization_0@ == "Failed to serialize config: "@
            + detail@,
{
}

/// A configuration is found without mistakes exactly where it has none.
pub proof fn mistakes_are_found(config: BsmConfig, errors: Vec<String>)
    requires
        call_ensures(validate_config, (&config,), errors),
    ensures
        errors@.len() == 0 <==> {
            &&& config.audio.sample_rate >= 1
            &&& 1 <= config.audio.channels <= 8
            &&& config.audio.buffer_ms >= 1
            &&& config.encoder.bitrate_kbps >= 1
            &&& config.output.output_folder@.len() >= 1
            &&& config.output.file_name_pattern@.len() >= 1
        },
{
    valid_configurations(&config);
    assert(text::views(errors@).len() == errors@.len());
}

} // verus!
