//! State that the whole program shares.
use crate::config::BsmConfig;
use vstd::prelude::*;

verus! {

/// Recording session state machine.
#[derive(Debug, Clone, Copy, PartialEq, Eq, Structural)]
pub enum RecordingState {
    Idle,
    Recording,
    Paused,
    Stopping,
    Error,
}

/// App-wide state. How it is shared between tasks is up to the program.
#[derive(Debug)]
pub struct AppState {
    /// Live config, which can be changed at run time.
    pub config: BsmConfig,
    /// Current recording state.
    pub recording_state: RecordingState,
    /// Name of the currently selected audio device.
    pub device_name: String,
    /// Current session output file path (None if not recording).
    pub output_file: Option<String>,
}

/// Whole milliseconds of a time span, as far as 64 bits hold them.
pub open spec fn millis(secs: u64, nanos: u32) -> int {
    (secs * 1000 + nanos as int / 1_000_000) % 0x1_0000_0000_0000_0000
}

/// See [`millis`].
pub fn millis_of(secs: u64, nanos: u32) -> (ms: u64)
    ensures
        ms == millis(secs, nanos),
{
    let total: u128 = secs as u128 * 1000 + (nanos / 1_000_000) as u128;
    (total % 0x1_0000_0000_0000_0000) as u64
}

impl AppState {
    pub fn new(config: BsmConfig) -> (s: Self)
        ensures
            s.config == config,
            s.recording_state == RecordingState::Idle,
            s.device_name@ == Seq::<char>::empty(),
            s.output_file is None,
    {
        let device_name = String::new();
        assert(device_name@ =~= Seq::<char>::empty());
        AppState { config, recording_state: RecordingState::Idle, device_name, output_file: None }
    }
}

/// The milliseconds of a time span are its seconds a thousandfold and the whole
/// milliseconds of its rest, for half a billion years at least.
pub proof fn millis_are_whole(secs: u64, nanos: u32)
    requires
        secs <= 18_446_744_073_709_547,
        nanos < 1_000_000_000,
    ensures
        millis(secs, nanos) * 1_000_000 <= secs * 1_000_000_000 + nanos < (millis(secs, nanos) + 1)
            * 1_000_000,
{
}

/// A program begins with its configuration, with nothing recorded, no device and no file.
pub proof fn programs_begin_idle(config: BsmConfig, s: AppState)
    requires
        call_ensures(AppState::new, (config,), s),
    ensures
        s.config == config,
        s.recording_state == RecordingState::Idle,
        s.device_name@.len() == 0,
        s.output_file is None,
{
}

} // verus!
