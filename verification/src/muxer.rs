//! Container formats and what their writers have in common.
//!
//! A muxer computes bytes; its caller owns the file. Opening gives the bytes that
//! start the file, each packet gives bytes to append, and finalizing gives bytes
//! to append and then places to overwrite.
use crate::bits;
use crate::bits::BitWriter;
use crate::encoder::AudioPacket;
use crate::error::EncodeResult;
use crate::flac_mux::FlacMuxer;
use crate::mp3::Mp3Muxer;
use crate::types::PcmFormat;
use crate::wav::WavMuxer;
use vstd::prelude::*;

verus! {

/// Container formats supported by the muxer.
#[derive(Debug, Clone, Copy, PartialEq, Eq, Structural)]
pub enum ContainerFormat {
    Mp3,
    Flac,
    Wav,
}

impl ContainerFormat {
    pub open spec fn extension_text(&self) -> Seq<char> {
        match self {
            ContainerFormat::Mp3 => "mp3"@,
            ContainerFormat::Flac => "flac"@,
            ContainerFormat::Wav => "wav"@,
        }
    }

    /// The file name extension.
    pub fn extension(&self) -> (e: &'static str)
        ensures
            e@ == self.extension_text(),
    {
        match self {
            ContainerFormat::Mp3 => "mp3",
            ContainerFormat::Flac => "flac",
            ContainerFormat::Wav => "wav",
        }
    }
}

/// A place of a written file to overwrite.
#[derive(Debug)]
pub enum Patch {
    /// Put these bytes at this offset.
    Put { offset: u64, bytes: Vec<u8> },
    /// Put the number of samples into the stream header of a FLAC file: the five
    /// bytes at offset 21 become what [`patch_total_samples`] makes of them.
    TotalSamples { total: u64 },
}

pub enum PatchView {
    Put { offset: nat, bytes: Seq<u8> },
    TotalSamples { total: nat },
}

impl View for Patch {
    type V = PatchView;

    open spec fn view(&self) -> PatchView {
        match self {
            Patch::Put { offset, bytes } => PatchView::Put { offset: *offset as nat, bytes: bytes@ },
            Patch::TotalSamples { total } => PatchView::TotalSamples { total: *total as nat },
        }
    }
}

pub open spec fn patch_views(patches: Seq<Patch>) -> Seq<PatchView> {
    Seq::new(patches.len(), |i: int| patches[i]@)
}

/// What is left to do with a file: append, then patch.
#[derive(Debug)]
pub struct Finish {
    pub append: Vec<u8>,
    pub patches: Vec<Patch>,
}

/// A file with `bytes` in place of what it had at `offset`.
pub open spec fn overwritten(file: Seq<u8>, offset: nat, bytes: Seq<u8>) -> Seq<u8> {
    file.take(offset as int) + bytes + file.skip((offset + bytes.len()) as int)
}

pub proof fn lemma_overwritten(before: Seq<u8>, at: Seq<u8>, new: Seq<u8>, after: Seq<u8>)
    requires
        at.len() == new.len(),
    ensures
        overwritten(before + at + after, before.len(), new) == before + new + after,
{
    let file = before + at + after;
    assert(file.take(before.len() as int) =~= before);
    assert(file.skip((before.len() + new.len()) as int) =~= after);
}

/// All packets, one after the other.
pub open spec fn joined(packets: Seq<Seq<u8>>) -> Seq<u8>
    decreases packets.len(),
{
    if packets.len() == 0 {
        Seq::empty()
    } else {
        joined(packets.drop_last()) + packets.last()
    }
}

/// The five bytes of a stream header that end with the number of samples: four
/// bits of something else, then 36 bits.
pub open spec fn total_samples_bytes(current: Seq<u8>, total: nat) -> Seq<u8> {
    bits::pack_bits(
        bits::uint_bits((current[0] / 16) as nat, 4) + bits::uint_bits(total, 36),
    )
}

/// A file after a patch.
pub open spec fn patched(file: Seq<u8>, patch: PatchView) -> Seq<u8> {
    match patch {
        PatchView::Put { offset, bytes } => overwritten(file, offset, bytes),
        PatchView::TotalSamples { total } => overwritten(
            file,
            21,
            total_samples_bytes(file.subrange(21, 26), total),
        ),
    }
}

/// A file after some patches, one after the other.
pub open spec fn all_patched(file: Seq<u8>, patches: Seq<PatchView>) -> Seq<u8>
    decreases patches.len(),
{
    if patches.len() == 0 {
        file
    } else {
        patched(all_patched(file, patches.drop_last()), patches.last())
    }
}

/// Puts the number of samples into the five bytes read from a stream header.
pub fn patch_total_samples(current: &[u8], total: u64) -> (r: Vec<u8>)
    requires
        current.len() >= 1,
    ensures
        r@ == total_samples_bytes(current@, total as nat),
        r.len() == 5,
{
    let mut w = BitWriter::new();
    w.write_bits((current[0] / 16) as u64, 4);
    w.write_bits(total, 36);
    let ghost written = w@;
    let r = w.into_bytes();
    proof {
        bits::lemma_uint_bits_len((current@[0] / 16) as nat, 4);
        bits::lemma_uint_bits_len(total as nat, 36);
        assert(written + bits::zero_bits(0) =~= bits::uint_bits((current@[0] / 16) as nat, 4)
            + bits::uint_bits(total as nat, 36));
        bits::lemma_pack_byte_bits(r@);
        bits::lemma_byte_bits_len(r@);
    }
    r
}

/// Container writers.
pub trait AudioMuxer: Sized {
    /// What the format must fulfil for a file to be opened.
    spec fn can_open(&self, format: PcmFormat) -> bool;

    /// How opening changes the muxer, and what it returns.
    spec fn opened(
        &self,
        format: PcmFormat,
        bitrate_kbps: u32,
        after: Self,
        r: EncodeResult<Vec<u8>>,
    ) -> bool;

    /// What a packet must fulfil to be written.
    spec fn can_write(&self, data: Seq<u8>) -> bool;

    /// How writing a packet changes the muxer, and what it returns.
    spec fn written(&self, data: Seq<u8>, after: Self, r: EncodeResult<Vec<u8>>) -> bool;

    /// What the muxer must fulfil to be finalized.
    spec fn can_finalize(&self) -> bool;

    /// How finalizing changes the muxer, and what it returns.
    spec fn finalized(&self, after: Self, r: EncodeResult<Finish>) -> bool;

    spec fn format(&self) -> ContainerFormat;

    /// Starts a file: the bytes it begins with.
    fn open(&mut self, pcm_format: &PcmFormat, codec_name: &str, bitrate_kbps: u32) -> (r:
        EncodeResult<Vec<u8>>)
        requires
            old(self).can_open(*pcm_format),
        ensures
            old(self).opened(*pcm_format, bitrate_kbps, *final(self), r),
    ;

    /// Takes a packet: the bytes to append to the file.
    fn write_packet(&mut self, pkt: &AudioPacket) -> (r: EncodeResult<Vec<u8>>)
        requires
            old(self).can_write(pkt.data@),
        ensures
            old(self).written(pkt.data@, *final(self), r),
    ;

    /// Completes the file.
    fn finalize(&mut self) -> (r: EncodeResult<Finish>)
        requires
            old(self).can_finalize(),
        ensures
            old(self).finalized(*final(self), r),
    ;

    fn container_format(&self) -> (f: ContainerFormat)
        ensures
            f == self.format(),
    ;
}

/// Whether each packet was written by the muxer that the one before it left, with
/// these results.
pub open spec fn wrote_packets<M: AudioMuxer>(
    muxers: Seq<M>,
    packets: Seq<Seq<u8>>,
    results: Seq<EncodeResult<Vec<u8>>>,
) -> bool {
    &&& muxers.len() == packets.len() + 1
    &&& results.len() == packets.len()
    &&& forall|i: int|
        0 <= i < packets.len() ==> (#[trigger] muxers[i]).written(
            packets[i],
            muxers[i + 1],
            results[i],
        )
}

/// The bytes of a result, none of a failure.
pub open spec fn result_bytes(r: EncodeResult<Vec<u8>>) -> Seq<u8> {
    match r {
        Ok(bytes) => bytes@,
        Err(_) => Seq::empty(),
    }
}

pub open spec fn all_result_bytes(results: Seq<EncodeResult<Vec<u8>>>) -> Seq<Seq<u8>> {
    Seq::new(results.len(), |i: int| result_bytes(results[i]))
}

/// A muxer of any format.
pub enum Muxer {
    Wav(WavMuxer),
    Mp3(Mp3Muxer),
    Flac(FlacMuxer),
}

impl Muxer {
    /// Whether the muxer is as it was made: nothing opened, nothing written.
    pub open spec fn is_fresh(&self) -> bool {
        match self {
            Muxer::Wav(m) => m@ == (crate::wav::WavState {
                open: false,
                written: 0,
                channels: 2,
                rate: 48000,
                bits: 16,
            }),
            Muxer::Mp3(m) => m@ == (crate::mp3::Mp3State { open: false, encoder: None, channels: 2 }),
            Muxer::Flac(m) => m@ == (crate::flac_mux::FlacState {
                open: false,
                buffer: Seq::empty(),
                channels: 2,
                rate: 48000,
                bps: 16,
                number: 0,
                total: 0,
            }),
        }
    }
}

/// A new muxer that writes this format.
pub fn create_muxer(format: ContainerFormat) -> (m: Muxer)
    ensures
        m.format() == format,
        m.is_fresh(),
{
    match format {
        ContainerFormat::Wav => Muxer::Wav(WavMuxer::new()),
        ContainerFormat::Mp3 => Muxer::Mp3(Mp3Muxer::new()),
        ContainerFormat::Flac => Muxer::Flac(FlacMuxer::new()),
    }
}

impl AudioMuxer for Muxer {
    open spec fn can_open(&self, format: PcmFormat) -> bool {
        match self {
            Muxer::Wav(m) => m.can_open(format),
            Muxer::Mp3(m) => m.can_open(format),
            Muxer::Flac(m) => m.can_open(format),
        }
    }

    open spec fn opened(
        &self,
        format: PcmFormat,
        bitrate_kbps: u32,
        after: Self,
        r: EncodeResult<Vec<u8>>,
    ) -> bool {
        match (*self, after) {
            (Muxer::Wav(m), Muxer::Wav(n)) => m.opened(format, bitrate_kbps, n, r),
            (Muxer::Mp3(m), Muxer::Mp3(n)) => m.opened(format, bitrate_kbps, n, r),
            (Muxer::Flac(m), Muxer::Flac(n)) => m.opened(format, bitrate_kbps, n, r),
            _ => false,
        }
    }

    open spec fn can_write(&self, data: Seq<u8>) -> bool {
        match self {
            Muxer::Wav(m) => m.can_write(data),
            Muxer::Mp3(m) => m.can_write(data),
            Muxer::Flac(m) => m.can_write(data),
        }
    }

    open spec fn written(&self, data: Seq<u8>, after: Self, r: EncodeResult<Vec<u8>>) -> bool {
        match (*self, after) {
            (Muxer::Wav(m), Muxer::Wav(n)) => m.written(data, n, r),
            (Muxer::Mp3(m), Muxer::Mp3(n)) => m.written(data, n, r),
            (Muxer::Flac(m), Muxer::Flac(n)) => m.written(data, n, r),
            _ => false,
        }
    }

    open spec fn can_finalize(&self) -> bool {
        match self {
            Muxer::Wav(m) => m.can_finalize(),
            Muxer::Mp3(m) => m.can_finalize(),
            Muxer::Flac(m) => m.can_finalize(),
        }
    }

    open spec fn finalized(&self, after: Self, r: EncodeResult<Finish>) -> bool {
        match (*self, after) {
            (Muxer::Wav(m), Muxer::Wav(n)) => m.finalized(n, r),
            (Muxer::Mp3(m), Muxer::Mp3(n)) => m.finalized(n, r),
            (Muxer::Flac(m), Muxer::Flac(n)) => m.finalized(n, r),
            _ => false,
        }
    }

    open spec fn format(&self) -> ContainerFormat {
        match self {
            Muxer::Wav(_) => ContainerFormat::Wav,
            Muxer::Mp3(_) => ContainerFormat::Mp3,
            Muxer::Flac(_) => ContainerFormat::Flac,
        }
    }

    fn open(&mut self, pcm_format: &PcmFormat, codec_name: &str, bitrate_kbps: u32) -> (r:
        EncodeResult<Vec<u8>>) {
        match self {
            Muxer::Wav(m) => m.open(pcm_format, codec_name, bitrate_kbps),
            Muxer::Mp3(m) => m.open(pcm_format, codec_name, bitrate_kbps),
            Muxer::Flac(m) => m.open(pcm_format, codec_name, bitrate_kbps),
        }
    }

    fn write_packet(&mut self, pkt: &AudioPacket) -> (r: EncodeResult<Vec<u8>>) {
        match self {
            Muxer::Wav(m) => m.write_packet(pkt),
            Muxer::Mp3(m) => m.write_packet(pkt),
            Muxer::Flac(m) => m.write_packet(pkt),
        }
    }

    fn finalize(&mut self) -> (r: EncodeResult<Finish>) {
        match self {
            Muxer::Wav(m) => m.finalize(),
            Muxer::Mp3(m) => m.finalize(),
            Muxer::Flac(m) => m.finalize(),
        }
    }

    fn container_format(&self) -> (f: ContainerFormat) {
        match self {
            Muxer::Wav(m) => m.container_format(),
            Muxer::Mp3(m) => m.container_format(),
            Muxer::Flac(m) => m.container_format(),
        }
    }
}

// ---------------------------------------------------------------------------
// Laws
// ---------------------------------------------------------------------------
/// Putting bytes into a file changes just those places and not the length.
pub proof fn overwriting_spares_the_rest(file: Seq<u8>, offset: nat, bytes: Seq<u8>, i: int)
    requires
        offset + bytes.len() <= file.len(),
        0 <= i < file.len(),
    ensures
        overwritten(file, offset, bytes).len() == file.len(),
        offset <= i < offset + bytes.len() ==> overwritten(file, offset, bytes)[i] == bytes[i
            - offset],
        i < offset || i >= offset + bytes.len() ==> overwritten(file, offset, bytes)[i] == file[i],
{
}

/// Packets are joined in their order, each whole.
pub proof fn packets_are_joined(a: Seq<Seq<u8>>, packet: Seq<u8>)
    ensures
        joined(Seq::empty()) == Seq::<u8>::empty(),
        joined(seq![packet]) == packet,
        joined(a.push(packet)) == joined(a) + packet,
{
    reveal_with_fuel(joined, 2);
    assert(seq![packet].drop_last() =~= Seq::<Seq<u8>>::empty());
    assert(joined(seq![packet]) =~= packet);
    assert(a.push(packet).drop_last() =~= a);
}

/// Files bear the extension of their container.
pub proof fn containers_have_extensions()
    ensures
        ContainerFormat::Mp3.extension_text() == "mp3"@,
        ContainerFormat::Flac.extension_text() == "flac"@,
        ContainerFormat::Wav.extension_text() == "wav"@,
{
}

/// A new muxer of any format has nothing opened and nothing written.
pub proof fn new_muxers_are_empty(format: ContainerFormat, m: Muxer)
    requires
        call_ensures(create_muxer, (format,), m),
    ensures
        m is Wav <==> format == ContainerFormat::Wav,
        m is Mp3 <==> format == ContainerFormat::Mp3,
        m is Flac <==> format == ContainerFormat::Flac,
        m matches Muxer::Wav(w) ==> !w@.open && w@.written == 0,
        m matches Muxer::Mp3(p) ==> !p@.open && p@.encoder is None,
        m matches Muxer::Flac(f) ==> !f@.open && f@.buffer.len() == 0 && f@.total == 0,
{
}

} // verus!
