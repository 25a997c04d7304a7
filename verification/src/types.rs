//! Types that all parts of the recorder share.
use crate::text;
use vstd::prelude::*;
use vstd::std_specs::convert::FromSpecImpl;

verus! {

pub type SampleRate = u32;

pub type Channels = u16;

pub type FrameCount = u64;

/// An enumerated audio device.
#[derive(Debug, Clone)]
pub struct DeviceEntry {
    pub index: u32,
    pub name: String,
    pub is_default: bool,
    pub is_loopback: bool,
}

/// PCM audio format descriptor.
#[derive(Debug, Clone, Copy, PartialEq, Eq, Structural)]
pub struct PcmFormat {
    pub sample_rate: u32,
    pub channels: u16,
    pub bit_depth: u16,
}

impl PcmFormat {
    /// Bytes of one frame: one sample of each channel.
    pub open spec fn frame_size(&self) -> nat {
        ((self.bit_depth / 8) * self.channels) as nat
    }

    pub fn bytes_per_sample(&self) -> (n: u16)
        ensures
            n == self.bit_depth / 8,
    {
        self.bit_depth / 8
    }

    pub fn bytes_per_frame(&self) -> (n: u32)
        ensures
            n == self.frame_size(),
    {
        assert((self.bit_depth / 8) * self.channels <= 8191 * 65535) by (nonlinear_arith)
            requires
                self.bit_depth / 8 <= 8191,
                self.channels <= 65535,
        ;
        assert(0 <= (self.bit_depth / 8) * self.channels) by (nonlinear_arith);
        self.bytes_per_sample() as u32 * self.channels as u32
    }

    /// Bytes per second; the product must fit in 32 bits.
    pub fn byte_rate(&self) -> (n: u32)
        requires
            self.frame_size() * self.sample_rate <= u32::MAX,
        ensures
            n == self.frame_size() * self.sample_rate,
    {
        self.bytes_per_frame() * self.sample_rate
    }
}

/// A single PCM audio buffer from the capture pipeline.
#[derive(Debug, Clone)]
pub struct PcmFrame {
    pub data: Vec<u8>,
    pub format: PcmFormat,
    pub timestamp_us: u64,
    pub sequence: u64,
    pub frame_count: u32,
}

/// A point in time: seconds and nanoseconds since the Unix epoch.
#[derive(Debug, Clone, Copy, PartialEq, Eq, Structural)]
pub struct Timestamp {
    pub secs: i64,
    pub nanos: u32,
}

/// Recording session summary emitted on stop.
///
/// The duration is the sum of the whole seconds in `duration_secs` and the
/// nanoseconds beyond them in `duration_nanos`.
#[derive(Debug, Clone)]
pub struct SessionInfo {
    pub session_id: String,
    pub output_file: String,
    pub started_at: Timestamp,
    pub stopped_at: Timestamp,
    pub duration_secs: i64,
    pub duration_nanos: i64,
    pub frames_captured: u64,
    pub frames_dropped: u64,
    pub bytes_written: u64,
    pub codec: String,
    pub sample_rate: u32,
    pub channels: u16,
    pub bitrate_kbps: u32,
}

/// The name of an instance.
#[derive(Debug, Clone, PartialEq, Eq, Hash)]
pub struct InstanceId(pub String);

impl From<&str> for InstanceId {
    fn from(s: &str) -> (id: Self)
        ensures
            id.0@ == s@,
    {
        InstanceId(text::owned(s))
    }
}

impl FromSpecImpl<&str> for InstanceId {
    open spec fn obeys_from_spec() -> bool {
        false
    }

    open spec fn from_spec(s: &str) -> Self {
        arbitrary()
    }
}

impl From<String> for InstanceId {
    fn from(s: String) -> (id: Self) {
        InstanceId(s)
    }
}

impl FromSpecImpl<String> for InstanceId {
    open spec fn obeys_from_spec() -> bool {
        true
    }

    open spec fn from_spec(s: String) -> Self {
        InstanceId(s)
    }
}

/// A frame holds one sample of each channel: its bits are those of all of them,
/// where samples are whole bytes.
pub proof fn frames_hold_every_channel(format: PcmFormat)
    ensures
        format.bit_depth % 8 == 0 ==> 8 * format.frame_size() == format.channels
            * format.bit_depth,
        format.channels == 1 ==> format.frame_size() == format.bit_depth / 8,
{
    let b = format.bit_depth as int / 8;
    let c = format.channels as int;
    assert(8 * (b * c) == c * (8 * b) && 0 <= b * c && (c == 1 ==> b * c == b))
        by (nonlinear_arith)
        requires
            b >= 0,
            c >= 0,
    ;
}

} // verus!
