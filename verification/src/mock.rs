//! A backend that delivers a given tone, for tests and headless runs.
use crate::backend;
use crate::backend::{or_default, AudioBackend};
use crate::error::AudioResult;
use crate::pcm;
use crate::pcm::push_sample;
use crate::text::owned;
use crate::types::{DeviceEntry, PcmFormat, PcmFrame};
use vstd::arithmetic::div_mod::*;
use vstd::prelude::*;

verus! {

/// Delivers the signal it is handed, one sample per frame, on every channel.
pub struct MockAudioBackend {
    active: bool,
    format: Option<PcmFormat>,
    started: bool,
    sequence: u64,
}

impl View for MockAudioBackend {
    type V = backend::SourceState;

    closed spec fn view(&self) -> backend::SourceState {
        backend::SourceState {
            active: self.active,
            format: self.format,
            started: self.started,
            sequence: self.sequence as nat,
        }
    }
}

/// Each of the first `frames` samples of the signal on every channel.
pub open spec fn spread(signal: Seq<i16>, frames: nat, channels: nat) -> Seq<i16> {
    Seq::new(frames * channels, |i: int| signal[i / channels as int])
}

/// See [`spread`].
fn spread_bytes(signal: &[i16], frames: u32, channels: u16) -> (data: Vec<u8>)
    requires
        frames <= signal.len(),
    ensures
        data@ == pcm::bytes16(spread(signal@, frames as nat, channels as nat)),
{
    let ghost all = spread(signal@, frames as nat, channels as nat);
    let mut data: Vec<u8> = Vec::new();
    let mut f: u32 = 0;
    assert(0 * channels == 0) by (nonlinear_arith);
    assert(all.take(0) =~= Seq::empty());
    while f < frames
        invariant
            f <= frames <= signal.len(),
            all == spread(signal@, frames as nat, channels as nat),
            data@ == pcm::bytes16(all.take(f * channels)),
        decreases frames - f,
    {
        proof {
            assert((f + 1) * channels == f * channels + channels) by (nonlinear_arith);
            assert(0 <= f * channels) by (nonlinear_arith);
            assert((f + 1) * channels <= frames * channels) by (nonlinear_arith)
                requires
                    f + 1 <= frames,
            ;
        }
        let mut c: u16 = 0;
        while c < channels
            invariant
                c <= channels,
                f < frames <= signal.len(),
                all == spread(signal@, frames as nat, channels as nat),
                0 <= f * channels,
                f * channels + channels <= all.len(),
                data@ == pcm::bytes16(all.take(f * channels + c)),
            decreases channels - c,
        {
            push_sample(&mut data, signal[f as usize]);
            proof {
                let i = f * channels + c;
                lemma_fundamental_div_mod_converse(i, channels as int, f as int, c as int);
                assert(all[i] == signal@[f as int]);
                assert(all.take(i + 1).drop_last() =~= all.take(i));
            }
            c = c + 1;
        }
        f = f + 1;
    }
    assert(all.take(frames * channels) =~= all);
    data
}

impl MockAudioBackend {
    pub fn new() -> (b: Self)
        ensures
            b@ == (backend::SourceState {
                active: false,
                format: None,
                started: false,
                sequence: 0,
            }),
    {
        MockAudioBackend { active: false, format: None, started: false, sequence: 0 }
    }

    /// The number of the first sample that the next frame of `frame_count` asks for.
    pub fn signal_position(&self, frame_count: u32) -> (n: u64)
        requires
            self@.sequence * frame_count <= u64::MAX,
        ensures
            n == self@.sequence * frame_count,
    {
        self.sequence * (frame_count as u64)
    }

    fn generate_frame(&mut self, frame_count: u32, elapsed_us: u64, signal: &[i16]) -> (frame:
        PcmFrame)
        requires
            old(self)@.sequence < u64::MAX,
            frame_count <= signal.len(),
            frame_count == backend::format_or_default(old(self)@.format).sample_rate / 100,
        ensures
            final(self)@ == (backend::SourceState {
                sequence: old(self)@.sequence + 1,
                ..old(self)@
            }),
            backend::source_frame(old(self)@, elapsed_us, frame),
            frame.data@ == pcm::bytes16(
                spread(
                    signal@,
                    frame_count as nat,
                    backend::format_or_default(old(self)@.format).channels as nat,
                ),
            ),
    {
        let format = or_default(self.format);
        let data: Vec<u8> = spread_bytes(signal, frame_count, format.channels);
        let timestamp_us: u64 = if self.started {
            elapsed_us
        } else {
            0
        };
        let sequence: u64 = self.sequence;
        self.sequence = self.sequence + 1;
        PcmFrame { data, format, timestamp_us, sequence, frame_count }
    }
}

impl AudioBackend for MockAudioBackend {
    open spec fn enumerated(&self, r: AudioResult<Vec<DeviceEntry>>) -> bool {
        r matches Ok(list) && {
            &&& list.len() == 1
            &&& list@[0].index == 0
            &&& list@[0].name@ == "Mock Loopback Device"@
            &&& list@[0].is_default
            &&& list@[0].is_loopback
        }
    }

    open spec fn opened(
        &self,
        device_index: u32,
        format: PcmFormat,
        after: Self,
        r: AudioResult<()>,
    ) -> bool {
        r is Ok && after@ == (backend::SourceState { format: Some(format), ..self@ })
    }

    open spec fn started(&self, after: Self, r: AudioResult<()>) -> bool {
        r is Ok && after@ == (backend::SourceState { active: true, started: true, ..self@ })
    }

    open spec fn stopped(&self, after: Self, r: AudioResult<()>) -> bool {
        r is Ok && after@ == (backend::SourceState { active: false, ..self@ })
    }

    open spec fn released(&self, after: Self, r: AudioResult<()>) -> bool {
        r is Ok && after@ == (backend::SourceState { active: false, format: None, ..self@ })
    }

    /// There must be a sample for every frame of 10 ms, and a number for the frame.
    open spec fn can_deliver(&self, elapsed_us: u64, signal: Seq<i16>) -> bool {
        self@.active ==> {
            &&& backend::format_or_default(self@.format).sample_rate / 100 <= signal.len()
            &&& self@.sequence < u64::MAX
        }
    }

    open spec fn delivered(
        &self,
        elapsed_us: u64,
        signal: Seq<i16>,
        after: Self,
        r: AudioResult<Option<PcmFrame>>,
    ) -> bool {
        let format = backend::format_or_default(self@.format);
        if self@.active {
            &&& after@ == (backend::SourceState { sequence: self@.sequence + 1, ..self@ })
            &&& r matches Ok(Some(frame)) && {
                &&& backend::source_frame(self@, elapsed_us, frame)
                &&& frame.data@ == pcm::bytes16(
                    spread(signal, (format.sample_rate / 100) as nat, format.channels as nat),
                )
            }
        } else {
            after@ == self@ && r matches Ok(None)
        }
    }

    open spec fn active_is(&self, r: bool) -> bool {
        r == self@.active
    }

    open spec fn format_is(&self, r: Option<PcmFormat>) -> bool {
        r == self@.format
    }

    open spec fn name_is(&self, r: Option<String>) -> bool {
        r matches Some(name) && name@ == "Mock Loopback Device"@
    }

    fn enumerate_devices(&self) -> (r: AudioResult<Vec<DeviceEntry>>) {
        let mut list: Vec<DeviceEntry> = Vec::new();
        list.push(
            DeviceEntry {
                index: 0,
                name: owned("Mock Loopback Device"),
                is_default: true,
                is_loopback: true,
            },
        );
        Ok(list)
    }

    fn open_device(&mut self, _device_index: u32, format: PcmFormat) -> (r: AudioResult<()>) {
        self.format = Some(format);
        Ok(())
    }

    fn start(&mut self) -> (r: AudioResult<()>) {
        self.active = true;
        self.started = true;
        Ok(())
    }

    fn stop(&mut self) -> (r: AudioResult<()>) {
        self.active = false;
        Ok(())
    }

    fn close(&mut self) -> (r: AudioResult<()>) {
        self.active = false;
        self.format = None;
        Ok(())
    }

    fn next_frame(&mut self, elapsed_us: u64, signal: &[i16]) -> (r: AudioResult<
        Option<PcmFrame>,
    >) {
        if !self.active {
            return Ok(None);
        }
        let frame_count: u32 = or_default(self.format).sample_rate / 100;
        Ok(Some(self.generate_frame(frame_count, elapsed_us, signal)))
    }

    fn is_active(&self) -> (r: bool) {
        self.active
    }

    fn actual_format(&self) -> (r: Option<PcmFormat>) {
        self.format
    }

    fn device_name(&self) -> (r: Option<String>) {
        Some(owned("Mock Loopback Device"))
    }
}

// ---------------------------------------------------------------------------
// Laws
// ---------------------------------------------------------------------------
/// Frames come exactly between a start and a stop, in the opened format and with
/// consecutive numbers: what is opened and started delivers, what is stopped or closed
/// does not.
pub proof fn frames_come_while_active(
    a: MockAudioBackend,
    format: PcmFormat,
    b: MockAudioBackend,
    c: MockAudioBackend,
    d: MockAudioBackend,
    e: MockAudioBackend,
    f: MockAudioBackend,
    g: MockAudioBackend,
    t: u64,
    signal: Seq<i16>,
    first: AudioResult<Option<PcmFrame>>,
    second: AudioResult<Option<PcmFrame>>,
    none: AudioResult<Option<PcmFrame>>,
)
    requires
        a.opened(0, format, b, Ok(())),
        b.started(c, Ok(())),
        c.delivered(t, signal, d, first),
        d.delivered(t, signal, e, second),
        e.stopped(f, Ok(())),
        f.delivered(t, signal, g, none),
    ensures
        c@.active,
        first matches Ok(Some(x)) && second matches Ok(Some(y)) && {
            &&& x.format == format
            &&& y.format == format
            &&& x.sequence == a@.sequence
            &&& y.sequence == x.sequence + 1
            &&& x.timestamp_us == t
        },
        none matches Ok(None),
        f@.format == Some(format),
{
}

/// Closing ends delivery and forgets the format.
pub proof fn closing_forgets_the_format(
    a: MockAudioBackend,
    b: MockAudioBackend,
    c: MockAudioBackend,
    t: u64,
    signal: Seq<i16>,
    r: AudioResult<Option<PcmFrame>>,
)
    requires
        a.released(b, Ok(())),
        b.delivered(t, signal, c, r),
    ensures
        !b@.active,
        b@.format is None,
        r matches Ok(None),
        c@ == b@,
{
}

/// Every sample of the signal is delivered on every channel, in order: the frame's
/// sample for channel `c` of its frame `f` is the signal's sample `f`.
pub proof fn the_signal_is_on_every_channel(
    a: MockAudioBackend,
    format: PcmFormat,
    t: u64,
    signal: Seq<i16>,
    b: MockAudioBackend,
    frame: PcmFrame,
    f: int,
    c: int,
)
    requires
        a@.active,
        a@.format == Some(format),
        a.delivered(t, signal, b, Ok(Some(frame))),
        0 <= f < format.sample_rate as int / 100,
        0 <= c < format.channels,
    ensures
        pcm::samples16(frame.data@).len() == (format.sample_rate as int / 100) * format.channels,
        pcm::samples16(frame.data@)[f * format.channels + c] == signal[f],
        frame.frame_count == format.sample_rate as int / 100,
{
    let n = (format.sample_rate / 100) as nat;
    let w = format.channels as nat;
    let all = spread(signal, n, w);
    pcm::samples_of_bytes(all);
    assert(pcm::samples16(frame.data@) == all);
    let i = f * w + c;
    assert(0 <= i < n * w) by (nonlinear_arith)
        requires
            0 <= f < n,
            0 <= c < w,
            i == f * w + c,
    ;
    lemma_fundamental_div_mod_converse(i, w as int, f, c);
}

} // verus!
