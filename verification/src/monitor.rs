//! Capture of what a PulseAudio or PipeWire sink plays, from its monitor source.
use crate::error::{AudioError, AudioResult};
use crate::text;
use crate::text::{decimal_u64, owned};
use crate::types::{PcmFormat, PcmFrame};
use vstd::prelude::*;

verus! {

/// Synthetic device index that means "System Audio (Monitor)".
pub const MONITOR_DEVICE_INDEX: u32 = 0xFFFF_FFFE;

pub const MONITOR_DEVICE_NAME: &'static str = "System Audio (Monitor)";

/// Frames captured per read: 20 ms at `rate`, but at least one.
pub fn frames_per_chunk(rate: u32) -> (n: usize)
    ensures
        n == chunk_frames(rate as nat),
{
    let n: u32 = rate / 50;
    if n < 1 {
        1
    } else {
        n as usize
    }
}

pub open spec fn chunk_frames(rate: nat) -> nat {
    if rate < 50 {
        1
    } else {
        rate / 50
    }
}

/// What the sound server is asked for: 16-bit PCM with at least one channel, and
/// 48 kHz where no rate was requested.
pub open spec fn monitor_format(requested: PcmFormat) -> PcmFormat {
    PcmFormat {
        sample_rate: if requested.sample_rate == 0 {
            48000
        } else {
            requested.sample_rate
        },
        channels: if requested.channels == 0 {
            1
        } else {
            requested.channels
        },
        bit_depth: 16,
    }
}

/// See [`monitor_format`].
pub fn monitor_request(requested: &PcmFormat) -> (r: PcmFormat)
    ensures
        r == monitor_format(*requested),
{
    PcmFormat {
        sample_rate: if requested.sample_rate == 0 {
            48000
        } else {
            requested.sample_rate
        },
        channels: if requested.channels == 0 {
            1
        } else {
            requested.channels
        },
        bit_depth: 16,
    }
}

/// How a monitor stream is read.
#[derive(Debug, Clone, Copy)]
pub struct MonitorPlan {
    /// The format that is asked for and delivered.
    pub format: PcmFormat,
    /// Bytes of one frame.
    pub bytes_per_frame: u64,
    /// Bytes of one read.
    pub chunk_bytes: u64,
    /// The fragment size for the server: the low 32 bits of `chunk_bytes`.
    pub fragment: u32,
}

/// Plans the capture, given whether the sound server knows the format as valid.
pub fn plan_monitor(requested: &PcmFormat, spec_valid: bool) -> (r: AudioResult<MonitorPlan>)
    ensures
        ({
            let format = monitor_format(*requested);
            if spec_valid {
                r matches Ok(plan) && {
                    &&& plan.format == format
                    &&& plan.bytes_per_frame == 2 * format.channels
                    &&& plan.chunk_bytes == chunk_frames(format.sample_rate as nat) * (2
                        * format.channels)
                    &&& plan.fragment == plan.chunk_bytes as int % 0x1_0000_0000
                }
            } else {
                r matches Err(AudioError::UnsupportedFormat(m)) && m@
                    == "invalid PulseAudio spec: "@ + text::decimal(format.channels as nat)
                    + "ch @ "@ + text::decimal(format.sample_rate as nat) + "Hz S16LE"@
            }
        }),
{
    let format = monitor_request(requested);
    if !spec_valid {
        let mut m = owned("invalid PulseAudio spec: ");
        m.append(decimal_u64(format.channels as u64).as_str());
        m.append("ch @ ");
        m.append(decimal_u64(format.sample_rate as u64).as_str());
        m.append("Hz S16LE");
        return Err(AudioError::UnsupportedFormat(m));
    }
    let bytes_per_frame: u64 = 2 * (format.channels as u64);
    let frames: u64 = frames_per_chunk(format.sample_rate) as u64;
    assert(frames * bytes_per_frame <= 0xFFFF_FFFF * 0x1_FFFE) by (nonlinear_arith)
        requires
            frames <= 0xFFFF_FFFF,
            bytes_per_frame <= 0x1_FFFE,
    ;
    let chunk_bytes: u64 = frames * bytes_per_frame;
    Ok(
        MonitorPlan {
            format,
            bytes_per_frame,
            chunk_bytes,
            fragment: (chunk_bytes % 0x1_0000_0000) as u32,
        },
    )
}

/// The error for a stream that could not be opened.
pub fn monitor_open_failed(detail: &str) -> (e: AudioError)
    ensures
        e matches AudioError::DeviceOpenFailed(m) && m@
            == "PulseAudio/PipeWire monitor open failed: "@ + detail@
            + " (is a PulseAudio or PipeWire sound server running?)"@,
{
    let mut m = owned("PulseAudio/PipeWire monitor open failed: ");
    m.append(detail);
    m.append(" (is a PulseAudio or PipeWire sound server running?)");
    AudioError::DeviceOpenFailed(m)
}

/// The frame that one read gives.
pub fn monitor_frame(plan: &MonitorPlan, data: Vec<u8>, now_ms: u64, sequence: u64) -> (frame:
    PcmFrame)
    requires
        plan.bytes_per_frame >= 1,
    ensures
        frame.data == data,
        frame.format == plan.format,
        frame.timestamp_us == now_ms,
        frame.sequence == sequence,
        frame.frame_count == (data.len() as int / plan.bytes_per_frame as int) % 0x1_0000_0000,
{
    let frame_count: u64 = (data.len() as u64 / plan.bytes_per_frame) % 0x1_0000_0000;
    PcmFrame {
        data,
        format: plan.format,
        timestamp_us: now_ms,
        sequence,
        frame_count: frame_count as u32,
    }
}

/// A whole read holds exactly the frames of one chunk.
pub proof fn monitor_chunk_is_whole(requested: PcmFormat)
    ensures
        ({
            let format = monitor_format(requested);
            let frames = chunk_frames(format.sample_rate as nat);
            let per_frame = (2 * format.channels) as nat;
            &&& frames >= 1
            &&& (frames * per_frame) % per_frame == 0
            &&& (frames * per_frame) / per_frame == frames
        }),
{
    let format = monitor_format(requested);
    let frames = chunk_frames(format.sample_rate as nat);
    let per_frame = 2 * format.channels;
    vstd::arithmetic::div_mod::lemma_fundamental_div_mod_converse(
        (frames * per_frame) as int,
        per_frame,
        frames as int,
        0,
    );
}

/// A chunk is 20 milliseconds of sound: fifty chunks are no more than a second, and
/// one frame more in each would be over it, from 50 Hz on.
pub proof fn chunks_last_twenty_milliseconds(rate: nat)
    ensures
        rate >= 50 ==> 50 * chunk_frames(rate) <= rate < 50 * (chunk_frames(rate) + 1),
        rate < 50 ==> chunk_frames(rate) == 1,
{
}

/// What is asked for is what was requested, as far as that says anything: only a
/// missing rate or missing channels are filled in, and samples have 16 bits.
pub proof fn requests_are_kept(requested: PcmFormat)
    ensures
        ({
            let format = monitor_format(requested);
            &&& requested.sample_rate > 0 ==> format.sample_rate == requested.sample_rate
            &&& requested.sample_rate == 0 ==> format.sample_rate == 48000
            &&& requested.channels > 0 ==> format.channels == requested.channels
            &&& requested.channels == 0 ==> format.channels == 1
            &&& format.bit_depth == 16
        }),
{
}

/// A plan reads 20 milliseconds at a time, two bytes for each sample of each channel, and
/// tells the server as much; a format that the server does not know is refused.
pub proof fn plans_read_whole_chunks(
    requested: PcmFormat,
    known: AudioResult<MonitorPlan>,
    unknown: AudioResult<MonitorPlan>,
)
    requires
        call_ensures(plan_monitor, (&requested, true), known),
        call_ensures(plan_monitor, (&requested, false), unknown),
    ensures
        known is Ok,
        unknown is Err && unknown->Err_0 is UnsupportedFormat,
        ({
            let plan = known->Ok_0;
            &&& requested.channels > 0 ==> plan.bytes_per_frame == requested.channels
                + requested.channels
            &&& requested.channels > 0 ==> plan.format.channels == requested.channels
            &&& requested.sample_rate > 0 ==> plan.format.sample_rate == requested.sample_rate
            &&& requested.sample_rate >= 50 ==> 50 * plan.chunk_bytes <= requested.sample_rate
                * plan.bytes_per_frame
            &&& plan.chunk_bytes <= u32::MAX ==> plan.fragment == plan.chunk_bytes
        }),
{
    let plan = known->Ok_0;
    let n = chunk_frames(plan.format.sample_rate as nat) as int;
    let b = plan.bytes_per_frame as int;
    let rate = requested.sample_rate as int;
    if rate >= 50 {
        assert(50 * (n * b) <= rate * b) by (nonlinear_arith)
            requires
                50 * n <= rate,
                b >= 0,
        ;
    }
}

/// A frame keeps what was read and counts its frames.
pub proof fn reads_are_kept(
    plan: MonitorPlan,
    data: Vec<u8>,
    now_ms: u64,
    sequence: u64,
    frame: PcmFrame,
)
    requires
        plan.bytes_per_frame >= 1,
        data.len() <= u32::MAX,
        call_ensures(monitor_frame, (&plan, data, now_ms, sequence), frame),
    ensures
        frame.data == data,
        frame.format == plan.format,
        frame.sequence == sequence,
        frame.timestamp_us == now_ms,
        frame.frame_count * plan.bytes_per_frame <= data.len() < (frame.frame_count + 1)
            * plan.bytes_per_frame,
{
    let b = plan.bytes_per_frame as int;
    let n = data.len() as int;
    let q = n / b;
    vstd::arithmetic::div_mod::lemma_fundamental_div_mod(n, b);
    vstd::arithmetic::div_mod::lemma_mod_bound(n, b);
    vstd::arithmetic::div_mod::lemma_div_pos_is_pos(n, b);
    assert(q <= n && q * b <= n < (q + 1) * b) by (nonlinear_arith)
        requires
            n == b * q + n % b,
            0 <= n % b < b,
            q >= 0,
            b >= 1,
    ;
}

} // verus!
