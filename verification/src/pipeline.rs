//! A capture pipeline: a backend and the format requested of it.
use crate::backend::AudioBackend;
use crate::error::AudioResult;
use crate::null::NullBackend;
use crate::types::{DeviceEntry, PcmFormat, PcmFrame};
use vstd::prelude::*;

verus! {

/// Device selection and negotiation configuration.
#[derive(Clone, Copy, Debug)]
pub struct DeviceConfig {
    pub preferred_format: PcmFormat,
}

impl DeviceConfig {
    pub fn with_format(fmt: PcmFormat) -> (c: Self)
        ensures
            c.preferred_format == fmt,
    {
        DeviceConfig { preferred_format: fmt }
    }
}

/// Simple capture pipeline that owns a backend and exposes a high-level API.
pub struct CapturePipeline<B: AudioBackend> {
    backend: B,
    requested_format: PcmFormat,
}

impl<B: AudioBackend> CapturePipeline<B> {
    pub closed spec fn source(&self) -> B {
        self.backend
    }

    pub closed spec fn requested(&self) -> PcmFormat {
        self.requested_format
    }

    pub fn new(backend: B, fmt: PcmFormat) -> (p: Self)
        ensures
            p.source() == backend,
            p.requested() == fmt,
    {
        CapturePipeline { backend, requested_format: fmt }
    }

    /// Change the requested format (e.g., from UI). This will be used on next open.
    pub fn set_requested_format(&mut self, fmt: PcmFormat)
        ensures
            final(self).requested() == fmt,
            final(self).source() == old(self).source(),
    {
        self.requested_format = fmt;
    }

    /// Read the last negotiated format from the backend, if any.
    pub fn negotiated_format(&self) -> (r: Option<PcmFormat>)
        ensures
            self.source().format_is(r),
    {
        self.backend.actual_format()
    }

    /// Access current requested format.
    pub fn requested_format(&self) -> (r: &PcmFormat)
        ensures
            *r == self.requested(),
    {
        &self.requested_format
    }

    pub fn enumerate(&self) -> (r: AudioResult<Vec<DeviceEntry>>)
        ensures
            self.source().enumerated(r),
    {
        self.backend.enumerate_devices()
    }

    /// Open device using pipeline's requested format (basic)
    pub fn open(&mut self, idx: u32) -> (r: AudioResult<()>)
        ensures
            old(self).source().opened(idx, old(self).requested(), final(self).source(), r),
            final(self).requested() == old(self).requested(),
    {
        let cfg = DeviceConfig::with_format(self.requested_format);
        self.open_with_config(idx, cfg)
    }

    /// Open device with explicit `DeviceConfig`. The backend negotiates the format.
    pub fn open_with_config(&mut self, idx: u32, cfg: DeviceConfig) -> (r: AudioResult<()>)
        ensures
            old(self).source().opened(idx, cfg.preferred_format, final(self).source(), r),
            final(self).requested() == cfg.preferred_format,
    {
        self.requested_format = cfg.preferred_format;
        self.backend.open_device(idx, cfg.preferred_format)
    }

    pub fn start(&mut self) -> (r: AudioResult<()>)
        ensures
            old(self).source().started(final(self).source(), r),
            final(self).requested() == old(self).requested(),
    {
        self.backend.start()
    }

    pub fn stop(&mut self) -> (r: AudioResult<()>)
        ensures
            old(self).source().stopped(final(self).source(), r),
            final(self).requested() == old(self).requested(),
    {
        self.backend.stop()
    }

    pub fn next_frame(&mut self, elapsed_us: u64, signal: &[i16]) -> (r: AudioResult<
        Option<PcmFrame>,
    >)
        requires
            old(self).source().can_deliver(elapsed_us, signal@),
        ensures
            old(self).source().delivered(elapsed_us, signal@, final(self).source(), r),
            final(self).requested() == old(self).requested(),
    {
        self.backend.next_frame(elapsed_us, signal)
    }
}

// ---------------------------------------------------------------------------
// Laws
// ---------------------------------------------------------------------------
/// A pipeline opens its device in the requested format, which stays what it was; a format
/// that is set is the one that is asked for next, and the device stays as it was.
pub proof fn pipelines_ask_for_the_requested_format(
    p: &mut CapturePipeline<NullBackend>,
    index: u32,
    r: AudioResult<()>,
    q: &mut CapturePipeline<NullBackend>,
    format: PcmFormat,
)
    requires
        call_ensures(CapturePipeline::<NullBackend>::open, (p, index), r),
        call_ensures(CapturePipeline::<NullBackend>::set_requested_format, (q, format), ()),
    ensures
        r is Ok,
        final(p).source()@.format == Some(old(p).requested()),
        final(p).requested() == old(p).requested(),
        final(q).requested() == format,
        final(q).source() == old(q).source(),
{
}

} // verus!
