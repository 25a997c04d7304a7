//! A fallback backend that delivers silence.
use crate::backend;
use crate::backend::{or_default, AudioBackend};
use crate::error::AudioResult;
use crate::text::owned;
use crate::types::{DeviceEntry, PcmFormat, PcmFrame};
use vstd::prelude::*;

verus! {

/// Silence-producing fallback backend: every frame is 10 ms of zeros.
pub struct NullBackend {
    active: bool,
    format: Option<PcmFormat>,
    started: bool,
    sequence: u64,
}

impl View for NullBackend {
    type V = backend::SourceState;

    closed spec fn view(&self) -> backend::SourceState {
        backend::SourceState {
            active: self.active,
            format: self.format,
            started: self.started,
            sequence: self.sequence as nat,
        }
    }
}

impl NullBackend {
    pub fn new() -> (b: Self)
        ensures
            b@ == (backend::SourceState {
                active: false,
                format: None,
                started: false,
                sequence: 0,
            }),
    {
        NullBackend { active: false, format: None, started: false, sequence: 0 }
    }
}

impl Default for NullBackend {
    fn default() -> (b: Self)
        ensures
            b@ == (backend::SourceState {
                active: false,
                format: None,
                started: false,
                sequence: 0,
            }),
    {
        Self::new()
    }
}

/// Bytes of 10 ms of silence.
pub open spec fn silence_len(format: PcmFormat) -> nat {
    (format.sample_rate / 100) as nat * format.frame_size()
}

impl AudioBackend for NullBackend {
    open spec fn enumerated(&self, r: AudioResult<Vec<DeviceEntry>>) -> bool {
        r matches Ok(list) && {
            &&& list.len() == 1
            &&& list@[0].index == 0
            &&& list@[0].name@ == "Null (Silence)"@
            &&& !list@[0].is_default
            &&& !list@[0].is_loopback
        }
    }

    open spec fn opened(
        &self,
        device_index: u32,
        format: PcmFormat,
        after: Self,
        r: AudioResult<()>,
    ) -> bool {
        r is Ok && after@ == (backend::SourceState { format: Some(format), ..self@ })
    }

    open spec fn started(&self, after: Self, r: AudioResult<()>) -> bool {
        r is Ok && after@ == (backend::SourceState { active: true, started: true, ..self@ })
    }

    open spec fn stopped(&self, after: Self, r: AudioResult<()>) -> bool {
        r is Ok && after@ == (backend::SourceState { active: false, ..self@ })
    }

    open spec fn released(&self, after: Self, r: AudioResult<()>) -> bool {
        r is Ok && after@ == (backend::SourceState { active: false, format: None, ..self@ })
    }

    /// The frame must fit in memory and have a number.
    open spec fn can_deliver(&self, elapsed_us: u64, signal: Seq<i16>) -> bool {
        self@.active ==> {
            &&& silence_len(backend::format_or_default(self@.format)) <= usize::MAX
            &&& self@.sequence < u64::MAX
        }
    }

    open spec fn delivered(
        &self,
        elapsed_us: u64,
        signal: Seq<i16>,
        after: Self,
        r: AudioResult<Option<PcmFrame>>,
    ) -> bool {
        if self@.active {
            &&& after@ == (backend::SourceState { sequence: self@.sequence + 1, ..self@ })
            &&& r matches Ok(Some(frame)) && {
                &&& backend::source_frame(self@, elapsed_us, frame)
                &&& frame.data@ == Seq::new(
                    silence_len(backend::format_or_default(self@.format)),
                    |i: int| 0u8,
                )
            }
        } else {
            after@ == self@ && r matches Ok(None)
        }
    }

    open spec fn active_is(&self, r: bool) -> bool {
        r == self@.active
    }

    open spec fn format_is(&self, r: Option<PcmFormat>) -> bool {
        r == self@.format
    }

    open spec fn name_is(&self, r: Option<String>) -> bool {
        r matches Some(name) && name@ == "Null (Silence)"@
    }

    fn enumerate_devices(&self) -> (r: AudioResult<Vec<DeviceEntry>>) {
        let mut list: Vec<DeviceEntry> = Vec::new();
        list.push(
            DeviceEntry {
                index: 0,
                name: owned("Null (Silence)"),
                is_default: false,
                is_loopback: false,
            },
        );
        Ok(list)
    }

    fn open_device(&mut self, _device_index: u32, format: PcmFormat) -> (r: AudioResult<()>) {
        self.format = Some(format);
        Ok(())
    }

    fn start(&mut self) -> (r: AudioResult<()>) {
        self.active = true;
        self.started = true;
        Ok(())
    }

    fn stop(&mut self) -> (r: AudioResult<()>) {
        self.active = false;
        Ok(())
    }

    fn close(&mut self) -> (r: AudioResult<()>) {
        self.active = false;
        self.format = None;
        Ok(())
    }

    fn next_frame(&mut self, elapsed_us: u64, _signal: &[i16]) -> (r: AudioResult<
        Option<PcmFrame>,
    >) {
        if !self.active {
            return Ok(None);
        }
        let format = or_default(self.format);
        let frame_count: u32 = format.sample_rate / 100;
        let n: usize = (frame_count as usize) * (format.bytes_per_frame() as usize);
        let data: Vec<u8> = vec![0;n];
        assert(data@ =~= Seq::new(silence_len(format), |i: int| 0u8));
        let timestamp_us: u64 = if self.started {
            elapsed_us
        } else {
            0
        };
        let sequence: u64 = self.sequence;
        self.sequence = self.sequence + 1;
        Ok(Some(PcmFrame { data, format, timestamp_us, sequence, frame_count }))
    }

    fn is_active(&self) -> (r: bool) {
        self.active
    }

    fn actual_format(&self) -> (r: Option<PcmFormat>) {
        self.format
    }

    fn device_name(&self) -> (r: Option<String>) {
        Some(owned("Null (Silence)"))
    }
}

// ---------------------------------------------------------------------------
// Laws
// ---------------------------------------------------------------------------
/// Frames come exactly between a start and a stop, in the opened format and with
/// consecutive numbers: what is opened and started delivers, what is stopped or closed
/// does not.
pub proof fn frames_come_while_active(
    a: NullBackend,
    format: PcmFormat,
    b: NullBackend,
    c: NullBackend,
    d: NullBackend,
    e: NullBackend,
    f: NullBackend,
    g: NullBackend,
    t: u64,
    signal: Seq<i16>,
    first: AudioResult<Option<PcmFrame>>,
    second: AudioResult<Option<PcmFrame>>,
    none: AudioResult<Option<PcmFrame>>,
)
    requires
        a.opened(0, format, b, Ok(())),
        b.started(c, Ok(())),
        c.delivered(t, signal, d, first),
        d.delivered(t, signal, e, second),
        e.stopped(f, Ok(())),
        f.delivered(t, signal, g, none),
    ensures
        c@.active,
        first matches Ok(Some(x)) && second matches Ok(Some(y)) && {
            &&& x.format == format
            &&& y.format == format
            &&& x.sequence == a@.sequence
            &&& y.sequence == x.sequence + 1
            &&& x.timestamp_us == t
        },
        none matches Ok(None),
        f@.format == Some(format),
{
}

/// Closing ends delivery and forgets the format.
pub proof fn closing_forgets_the_format(
    a: NullBackend,
    b: NullBackend,
    c: NullBackend,
    t: u64,
    signal: Seq<i16>,
    r: AudioResult<Option<PcmFrame>>,
)
    requires
        a.released(b, Ok(())),
        b.delivered(t, signal, c, r),
    ensures
        !b@.active,
        b@.format is None,
        r matches Ok(None),
        c@ == b@,
{
}

/// A frame of silence holds nothing but zeros, ten milliseconds of them for every
/// channel.
pub proof fn silence_is_silent(
    a: NullBackend,
    format: PcmFormat,
    t: u64,
    signal: Seq<i16>,
    b: NullBackend,
    frame: PcmFrame,
    i: int,
)
    requires
        a@.active,
        a@.format == Some(format),
        a.delivered(t, signal, b, Ok(Some(frame))),
        0 <= i < frame.data.len(),
    ensures
        frame.data@[i] == 0,
        frame.data.len() == (format.sample_rate as int / 100) * (format.bit_depth as int / 8
            * format.channels),
        frame.frame_count == format.sample_rate as int / 100,
{
}

} // verus!
