//! The boundary between the recorder and what delivers audio.
use crate::error::AudioResult;
use crate::types::{DeviceEntry, PcmFormat, PcmFrame};
use vstd::prelude::*;

verus! {

/// Platform abstraction boundary for audio capture.
///
/// A backend decides and computes. Its caller waits, reads the clock, and hands in
/// what only the outside knows. What a backend promises of its methods stands in the
/// spec functions; one that defines none of them promises nothing.
pub trait AudioBackend: Sized {
    /// What enumerating gives.
    open spec fn enumerated(&self, r: AudioResult<Vec<DeviceEntry>>) -> bool {
        true
    }

    /// How opening a device changes the backend.
    open spec fn opened(
        &self,
        device_index: u32,
        format: PcmFormat,
        after: Self,
        r: AudioResult<()>,
    ) -> bool {
        true
    }

    /// How starting changes the backend.
    open spec fn started(&self, after: Self, r: AudioResult<()>) -> bool {
        true
    }

    /// How stopping changes the backend.
    open spec fn stopped(&self, after: Self, r: AudioResult<()>) -> bool {
        true
    }

    /// How closing changes the backend.
    open spec fn released(&self, after: Self, r: AudioResult<()>) -> bool {
        true
    }

    /// What must hold for the next frame to be made.
    open spec fn can_deliver(&self, elapsed_us: u64, signal: Seq<i16>) -> bool {
        true
    }

    /// What the next frame is, and how taking it changes the backend.
    open spec fn delivered(
        &self,
        elapsed_us: u64,
        signal: Seq<i16>,
        after: Self,
        r: AudioResult<Option<PcmFrame>>,
    ) -> bool {
        true
    }

    /// Whether the backend streams.
    open spec fn active_is(&self, r: bool) -> bool {
        true
    }

    /// The negotiated format.
    open spec fn format_is(&self, r: Option<PcmFormat>) -> bool {
        true
    }

    /// The name of the open device.
    open spec fn name_is(&self, r: Option<String>) -> bool {
        true
    }

    /// Enumerate available loopback/capture devices.
    fn enumerate_devices(&self) -> (r: AudioResult<Vec<DeviceEntry>>)
        ensures
            self.enumerated(r),
    ;

    /// Open the device at the given index and prepare for capture.
    /// Does NOT start streaming: call start() after open().
    fn open_device(&mut self, device_index: u32, format: PcmFormat) -> (r: AudioResult<()>)
        ensures
            old(self).opened(device_index, format, *final(self), r),
    ;

    /// Start streaming PCM frames. Must have called open_device() first.
    fn start(&mut self) -> (r: AudioResult<()>)
        ensures
            old(self).started(*final(self), r),
    ;

    /// Stop streaming. Flushes any buffered data. Device remains open.
    fn stop(&mut self) -> (r: AudioResult<()>)
        ensures
            old(self).stopped(*final(self), r),
    ;

    /// Close the device and release all platform resources.
    fn close(&mut self) -> (r: AudioResult<()>)
        ensures
            old(self).released(*final(self), r),
    ;

    /// The next PCM frame, given the time since the start and the signal to
    /// deliver. Returns Ok(None) when the backend is stopped.
    fn next_frame(&mut self, elapsed_us: u64, signal: &[i16]) -> (r: AudioResult<Option<PcmFrame>>)
        requires
            old(self).can_deliver(elapsed_us, signal@),
        ensures
            old(self).delivered(elapsed_us, signal@, *final(self), r),
    ;

    /// Returns true if the backend is currently streaming.
    fn is_active(&self) -> (r: bool)
        ensures
            self.active_is(r),
    ;

    /// Returns the actual PCM format negotiated with the device.
    /// May differ from the requested format (device may coerce sample rate).
    fn actual_format(&self) -> (r: Option<PcmFormat>)
        ensures
            self.format_is(r),
    ;

    /// Returns the name of the currently open device, if any.
    fn device_name(&self) -> (r: Option<String>)
        ensures
            self.name_is(r),
    ;
}

/// The state of a backend that makes its own frames.
pub struct SourceState {
    pub active: bool,
    pub format: Option<PcmFormat>,
    pub started: bool,
    pub sequence: nat,
}

/// The format of such a backend: the opened one, else 48 kHz stereo of 16 bits.
pub open spec fn format_or_default(format: Option<PcmFormat>) -> PcmFormat {
    match format {
        Some(f) => f,
        None => PcmFormat { sample_rate: 48000, channels: 2, bit_depth: 16 },
    }
}

/// See [`format_or_default`].
pub fn or_default(format: Option<PcmFormat>) -> (r: PcmFormat)
    ensures
        r == format_or_default(format),
{
    match format {
        Some(f) => f,
        None => PcmFormat { sample_rate: 48000, channels: 2, bit_depth: 16 },
    }
}

/// The header of a frame of 10 ms that such a backend makes.
pub open spec fn source_frame(state: SourceState, elapsed_us: u64, frame: PcmFrame) -> bool {
    let format = format_or_default(state.format);
    &&& frame.format == format
    &&& frame.frame_count == format.sample_rate / 100
    &&& frame.sequence == state.sequence
    &&& frame.timestamp_us == if state.started {
        elapsed_us
    } else {
        0
    }
}

/// Frames bear the format that was opened, 48 kHz stereo of 16 bits where none was, last
/// ten milliseconds, and are numbered; before a start their time is zero.
pub proof fn frames_last_ten_milliseconds(state: SourceState, elapsed_us: u64, frame: PcmFrame)
    requires
        source_frame(state, elapsed_us, frame),
    ensures
        state.format is Some ==> frame.format == state.format->0,
        state.format is None ==> frame.format.sample_rate == 48000 && frame.format.channels == 2
            && frame.format.bit_depth == 16,
        100 * frame.frame_count <= frame.format.sample_rate < 100 * (frame.frame_count + 1),
        frame.sequence == state.sequence,
        state.started ==> frame.timestamp_us == elapsed_us,
        !state.started ==> frame.timestamp_us == 0,
{
}

} // verus!
