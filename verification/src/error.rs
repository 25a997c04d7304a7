//! Errors and their messages.
use crate::text;
use vstd::prelude::*;

verus! {

/// A label followed by a detail.
pub fn labelled(label: &str, detail: &str) -> (r: String)
    ensures
        r@ == label@ + detail@,
{
    let mut r = text::owned(label);
    r.append(detail);
    r
}

/// Errors of the recorder as a whole.
#[derive(Debug)]
pub enum BsmError {
    Config(String),
    Io(String),
    Serialization(String),
    Audio(String),
    Encoder(String),
    Muxer(String),
    Ipc(String),
    Hrt(String),
    AlreadyRunning,
    NotSupported(String),
    Unknown(String),
}

pub type BsmResult<T> = Result<T, BsmError>;

impl BsmError {
    pub open spec fn text(&self) -> Seq<char> {
        match self {
            BsmError::Config(s) => "config error: "@ + s@,
            BsmError::Io(s) => "IO error: "@ + s@,
            BsmError::Serialization(s) => "serialization error: "@ + s@,
            BsmError::Audio(s) => "audio error: "@ + s@,
            BsmError::Encoder(s) => "encoder error: "@ + s@,
            BsmError::Muxer(s) => "muxer error: "@ + s@,
            BsmError::Ipc(s) => "IPC error: "@ + s@,
            BsmError::Hrt(s) => "HRT error: "@ + s@,
            BsmError::AlreadyRunning => "already running"@,
            BsmError::NotSupported(s) => "operation not supported: "@ + s@,
            BsmError::Unknown(s) => "unknown error: "@ + s@,
        }
    }

    /// The message shown to users.
    pub fn message(&self) -> (r: String)
        ensures
            r@ == self.text(),
    {
        match self {
            BsmError::Config(s) => labelled("config error: ", s.as_str()),
            BsmError::Io(s) => labelled("IO error: ", s.as_str()),
            BsmError::Serialization(s) => labelled("serialization error: ", s.as_str()),
            BsmError::Audio(s) => labelled("audio error: ", s.as_str()),
            BsmError::Encoder(s) => labelled("encoder error: ", s.as_str()),
            BsmError::Muxer(s) => labelled("muxer error: ", s.as_str()),
            BsmError::Ipc(s) => labelled("IPC error: ", s.as_str()),
            BsmError::Hrt(s) => labelled("HRT error: ", s.as_str()),
            BsmError::AlreadyRunning => text::owned("already running"),
            BsmError::NotSupported(s) => labelled("operation not supported: ", s.as_str()),
            BsmError::Unknown(s) => labelled("unknown error: ", s.as_str()),
        }
    }
}

/// Errors of the audio layer.
#[derive(Debug)]
pub enum AudioError {
    DeviceNotFound(String),
    DeviceOpenFailed(String),
    BufferOverrun,
    DeviceDisconnected,
    UnsupportedFormat(String),
    Wasapi(u32, String),
    NotActive,
}

pub type AudioResult<T> = Result<T, AudioError>;

impl AudioError {
    pub open spec fn text(&self) -> Seq<char> {
        match self {
            AudioError::DeviceNotFound(s) => "device not found: "@ + s@,
            AudioError::DeviceOpenFailed(s) => "device open failed: "@ + s@,
            AudioError::BufferOverrun => "buffer overrun"@,
            AudioError::DeviceDisconnected => "device disconnected"@,
            AudioError::UnsupportedFormat(s) => "unsupported format: "@ + s@,
            AudioError::Wasapi(code, s) => "WASAPI error (HRESULT 0x"@ + text::hex(*code as nat, 8)
                + "): "@ + s@,
            AudioError::NotActive => "not active"@,
        }
    }

    /// The message shown to users.
    pub fn message(&self) -> (r: String)
        ensures
            r@ == self.text(),
    {
        match self {
            AudioError::DeviceNotFound(s) => labelled("device not found: ", s.as_str()),
            AudioError::DeviceOpenFailed(s) => labelled("device open failed: ", s.as_str()),
            AudioError::BufferOverrun => text::owned("buffer overrun"),
            AudioError::DeviceDisconnected => text::owned("device disconnected"),
            AudioError::UnsupportedFormat(s) => labelled("unsupported format: ", s.as_str()),
            AudioError::Wasapi(code, s) => {
                let mut r = labelled("WASAPI error (HRESULT 0x", text::hex_u32(*code).as_str());
                r.append("): ");
                r.append(s.as_str());
                r
            },
            AudioError::NotActive => text::owned("not active"),
        }
    }
}

/// Errors of the encoding layer.
#[derive(Debug)]
pub enum EncodeError {
    NotFound(String),
    OpenFailed(String),
    EncodeFailed(String),
    MuxFailed(String),
    OutputFile(String),
    UnsupportedCodec(String),
}

pub type EncodeResult<T> = Result<T, EncodeError>;

impl EncodeError {
    pub open spec fn text(&self) -> Seq<char> {
        match self {
            EncodeError::NotFound(s) => "encoder not found: "@ + s@,
            EncodeError::OpenFailed(s) => "encoder open failed: "@ + s@,
            EncodeError::EncodeFailed(s) => "encode failed: "@ + s@,
            EncodeError::MuxFailed(s) => "mux failed: "@ + s@,
            EncodeError::OutputFile(s) => "output file error: "@ + s@,
            EncodeError::UnsupportedCodec(s) => "codec not supported: "@ + s@,
        }
    }

    /// The message shown to users.
    pub fn message(&self) -> (r: String)
        ensures
            r@ == self.text(),
    {
        match self {
            EncodeError::NotFound(s) => labelled("encoder not found: ", s.as_str()),
            EncodeError::OpenFailed(s) => labelled("encoder open failed: ", s.as_str()),
            EncodeError::EncodeFailed(s) => labelled("encode failed: ", s.as_str()),
            EncodeError::MuxFailed(s) => labelled("mux failed: ", s.as_str()),
            EncodeError::OutputFile(s) => labelled("output file error: ", s.as_str()),
            EncodeError::UnsupportedCodec(s) => labelled("codec not supported: ", s.as_str()),
        }
    }
}

/// Errors of the IPC layer.
#[derive(Debug)]
pub enum IpcError {
    Pipe(String),
    Serialization(String),
    UnknownCommand(String),
    Timeout,
    Disconnected,
}

pub type IpcResult<T> = Result<T, IpcError>;

impl IpcError {
    pub open spec fn text(&self) -> Seq<char> {
        match self {
            IpcError::Pipe(s) => "pipe error: "@ + s@,
            IpcError::Serialization(s) => "serialization error: "@ + s@,
            IpcError::UnknownCommand(s) => "command unknown: "@ + s@,
            IpcError::Timeout => "timeout"@,
            IpcError::Disconnected => "disconnected"@,
        }
    }

    /// The message shown to users.
    pub fn message(&self) -> (r: String)
        ensures
            r@ == self.text(),
    {
        match self {
            IpcError::Pipe(s) => labelled("pipe error: ", s.as_str()),
            IpcError::Serialization(s) => labelled("serialization error: ", s.as_str()),
            IpcError::UnknownCommand(s) => labelled("command unknown: ", s.as_str()),
            IpcError::Timeout => text::owned("timeout"),
            IpcError::Disconnected => text::owned("disconnected"),
        }
    }
}

// ---------------------------------------------------------------------------
// Laws
// ---------------------------------------------------------------------------
/// Every message ends with its detail, behind a label of its kind.
pub proof fn messages_end_with_their_detail(s: String)
    ensures
        BsmError::Config(s).text() == "config error: "@ + s@,
        BsmError::Io(s).text() == "IO error: "@ + s@,
        BsmError::Serialization(s).text() == "serialization error: "@ + s@,
        BsmError::Audio(s).text() == "audio error: "@ + s@,
        BsmError::Encoder(s).text() == "encoder error: "@ + s@,
        BsmError::Muxer(s).text() == "muxer error: "@ + s@,
        BsmError::Ipc(s).text() == "IPC error: "@ + s@,
        BsmError::Hrt(s).text() == "HRT error: "@ + s@,
        BsmError::NotSupported(s).text() == "operation not supported: "@ + s@,
        BsmError::Unknown(s).text() == "unknown error: "@ + s@,
        AudioError::DeviceNotFound(s).text() == "device not found: "@ + s@,
        AudioError::DeviceOpenFailed(s).text() == "device open failed: "@ + s@,
        AudioError::UnsupportedFormat(s).text() == "unsupported format: "@ + s@,
        EncodeError::NotFound(s).text() == "encoder not found: "@ + s@,
        EncodeError::OpenFailed(s).text() == "encoder open failed: "@ + s@,
        EncodeError::EncodeFailed(s).text() == "encode failed: "@ + s@,
        EncodeError::MuxFailed(s).text() == "mux failed: "@ + s@,
        EncodeError::OutputFile(s).text() == "output file error: "@ + s@,
        EncodeError::UnsupportedCodec(s).text() == "codec not supported: "@ + s@,
        IpcError::Pipe(s).text() == "pipe error: "@ + s@,
        IpcError::Serialization(s).text() == "serialization error: "@ + s@,
        IpcError::UnknownCommand(s).text() == "command unknown: "@ + s@,
{
}

/// The code of a WASAPI error reads back from the eight digits behind its label.
pub proof fn wasapi_codes_read_back(code: u32, s: String)
    ensures
        ({
            let t = AudioError::Wasapi(code, s).text();
            &&& t.take(24) == "WASAPI error (HRESULT 0x"@
            &&& text::hex_value(t.subrange(24, 32)) == code
            &&& t.subrange(32, 35) == "): "@
            &&& t.skip(35) == s@
        }),
{
    reveal_strlit("WASAPI error (HRESULT 0x");
    reveal_strlit("): ");
    text::hex_reads_back(code);
    let t = AudioError::Wasapi(code, s).text();
    assert(t.take(24) =~= "WASAPI error (HRESULT 0x"@);
    assert(t.subrange(24, 32) =~= text::hex(code as nat, 8));
    assert(t.subrange(32, 35) =~= "): "@);
    assert(t.skip(35) =~= s@);
}

/// Errors without a detail have their words.
pub proof fn plain_errors_have_words()
    ensures
        BsmError::AlreadyRunning.text() == "already running"@,
        AudioError::BufferOverrun.text() == "buffer overrun"@,
        AudioError::DeviceDisconnected.text() == "device disconnected"@,
        AudioError::NotActive.text() == "not active"@,
        IpcError::Timeout.text() == "timeout"@,
        IpcError::Disconnected.text() == "disconnected"@,
{
}

} // verus!
