//! RIFF/WAVE files.
use crate::encoder::AudioPacket;
use crate::error::{EncodeError, EncodeResult};
use crate::muxer;
use crate::muxer::{AudioMuxer, ContainerFormat, Finish, Patch};
use crate::pcm;
use crate::pcm::{copy_bytes, push_bytes, push_le};
use crate::text::owned;
use crate::types::PcmFormat;
use vstd::prelude::*;

verus! {

/// The 44 bytes before the samples: `riff` counts what follows the size field
/// itself, `data` the bytes of the samples.
pub open spec fn wav_header(
    channels: nat,
    rate: nat,
    bits: nat,
    riff: nat,
    data: nat,
) -> Seq<u8> {
    let block_align = channels * (bits / 8);
    seq![0x52u8, 0x49u8, 0x46u8, 0x46u8] + pcm::le_bytes(riff, 4) + seq![
        0x57u8,
        0x41u8,
        0x56u8,
        0x45u8,
        0x66u8,
        0x6du8,
        0x74u8,
        0x20u8,
    ] + pcm::le_bytes(16, 4) + pcm::le_bytes(1, 2) + pcm::le_bytes(channels, 2) + pcm::le_bytes(
        rate,
        4,
    ) + pcm::le_bytes(rate * block_align, 4) + pcm::le_bytes(block_align, 2) + pcm::le_bytes(
        bits,
        2,
    ) + seq![0x64u8, 0x61u8, 0x74u8, 0x61u8] + pcm::le_bytes(data, 4)
}

/// Writes WAV files.
pub struct WavMuxer {
    open: bool,
    bytes_written: u32,
    channels: u16,
    sample_rate: u32,
    bits_per_sample: u16,
}

/// The state of a [`WavMuxer`]: how many bytes of samples were written is
/// counted modulo `2^32`.
pub struct WavState {
    pub open: bool,
    pub written: nat,
    pub channels: nat,
    pub rate: nat,
    pub bits: nat,
}

impl View for WavMuxer {
    type V = WavState;

    closed spec fn view(&self) -> WavState {
        WavState {
            open: self.open,
            written: self.bytes_written as nat,
            channels: self.channels as nat,
            rate: self.sample_rate as nat,
            bits: self.bits_per_sample as nat,
        }
    }
}

/// The state after a file was opened.
pub open spec fn wav_opened(state: WavState, format: PcmFormat) -> WavState {
    WavState {
        open: true,
        channels: format.channels as nat,
        rate: format.sample_rate as nat,
        bits: format.bit_depth as nat,
        ..state
    }
}

/// The state after `n` bytes were written to an open file.
pub open spec fn wav_written(state: WavState, n: nat) -> WavState {
    WavState { written: (state.written + n) % 0x1_0000_0000, ..state }
}

impl WavMuxer {
    pub fn new() -> (m: Self)
        ensures
            m@ == (WavState { open: false, written: 0, channels: 2, rate: 48000, bits: 16 }),
    {
        WavMuxer {
            open: false,
            bytes_written: 0,
            channels: 2,
            sample_rate: 48000,
            bits_per_sample: 16,
        }
    }

    /// The header of a file whose sizes are not known yet.
    pub fn write_riff_header(channels: u16, sample_rate: u32, bits: u16) -> (w: Vec<u8>)
        requires
            channels * (bits / 8) <= u16::MAX,
            sample_rate * (channels * (bits / 8)) <= u32::MAX,
        ensures
            w@ == wav_header(channels as nat, sample_rate as nat, bits as nat, 0, 0),
    {
        assert(0 <= channels * (bits / 8)) by (nonlinear_arith);
        let block_align: u16 = channels * (bits / 8);
        assert(0 <= sample_rate * block_align) by (nonlinear_arith);
        let byte_rate: u32 = sample_rate * (block_align as u32);
        let mut w: Vec<u8> = vec![0x52u8, 0x49u8, 0x46u8, 0x46u8];
        push_le(&mut w, 0, 4);
        push_bytes(
            &mut w,
            vec![0x57u8, 0x41u8, 0x56u8, 0x45u8, 0x66u8, 0x6du8, 0x74u8, 0x20u8].as_slice(),
        );
        push_le(&mut w, 16, 4);
        push_le(&mut w, 1, 2);
        push_le(&mut w, channels as u32, 2);
        push_le(&mut w, sample_rate, 4);
        push_le(&mut w, byte_rate, 4);
        push_le(&mut w, block_align as u32, 2);
        push_le(&mut w, bits as u32, 2);
        push_bytes(&mut w, vec![0x64u8, 0x61u8, 0x74u8, 0x61u8].as_slice());
        push_le(&mut w, 0, 4);
        w
    }
}

impl AudioMuxer for WavMuxer {
    /// The sizes in the header must fit in their fields.
    open spec fn can_open(&self, format: PcmFormat) -> bool {
        &&& format.channels * (format.bit_depth / 8) <= u16::MAX
        &&& format.sample_rate * (format.channels * (format.bit_depth / 8)) <= u32::MAX
    }

    open spec fn opened(
        &self,
        format: PcmFormat,
        bitrate_kbps: u32,
        after: Self,
        r: EncodeResult<Vec<u8>>,
    ) -> bool {
        &&& after@ == wav_opened(self@, format)
        &&& r matches Ok(bytes) && bytes@ == wav_header(
            format.channels as nat,
            format.sample_rate as nat,
            format.bit_depth as nat,
            0,
            0,
        )
    }

    open spec fn can_write(&self, data: Seq<u8>) -> bool {
        true
    }

    open spec fn written(&self, data: Seq<u8>, after: Self, r: EncodeResult<Vec<u8>>) -> bool {
        if self@.open {
            &&& after@ == wav_written(self@, data.len())
            &&& r matches Ok(bytes) && bytes@ == data
        } else {
            &&& after@ == self@
            &&& r matches Err(EncodeError::OutputFile(m)) && m@ == "not open"@
        }
    }

    open spec fn can_finalize(&self) -> bool {
        true
    }

    open spec fn finalized(&self, after: Self, r: EncodeResult<Finish>) -> bool {
        &&& after@ == (WavState { open: false, ..self@ })
        &&& r matches Ok(finish) && {
            &&& finish.append@ == Seq::<u8>::empty()
            &&& muxer::patch_views(finish.patches@) == wav_patches(self@)
        }
    }

    open spec fn format(&self) -> ContainerFormat {
        ContainerFormat::Wav
    }

    fn open(&mut self, pcm_format: &PcmFormat, _codec_name: &str, _bitrate_kbps: u32) -> (r:
        EncodeResult<Vec<u8>>) {
        self.channels = pcm_format.channels;
        self.sample_rate = pcm_format.sample_rate;
        self.bits_per_sample = pcm_format.bit_depth;
        self.open = true;
        Ok(Self::write_riff_header(self.channels, self.sample_rate, self.bits_per_sample))
    }

    fn write_packet(&mut self, pkt: &AudioPacket) -> (r: EncodeResult<Vec<u8>>) {
        if !self.open {
            return Err(EncodeError::OutputFile(owned("not open")));
        }
        let n: u64 = (pkt.data.len() as u64) % 0x1_0000_0000;
        let total: u64 = (self.bytes_written as u64 + n) % 0x1_0000_0000;
        proof {
            vstd::arithmetic::div_mod::lemma_add_mod_noop(
                self.bytes_written as int,
                pkt.data.len() as int,
                0x1_0000_0000,
            );
            vstd::arithmetic::div_mod::lemma_small_mod(
                self.bytes_written as nat,
                0x1_0000_0000,
            );
        }
        self.bytes_written = total as u32;
        Ok(copy_bytes(pkt.data.as_slice()))
    }

    fn finalize(&mut self) -> (r: EncodeResult<Finish>) {
        let mut patches: Vec<Patch> = Vec::new();
        if self.open {
            let riff: u32 = ((self.bytes_written as u64 + 36) % 0x1_0000_0000) as u32;
            let mut riff_bytes: Vec<u8> = Vec::new();
            push_le(&mut riff_bytes, riff, 4);
            let mut data_bytes: Vec<u8> = Vec::new();
            push_le(&mut data_bytes, self.bytes_written, 4);
            patches.push(Patch::Put { offset: 4, bytes: riff_bytes });
            patches.push(Patch::Put { offset: 40, bytes: data_bytes });
            assert(muxer::patch_views(patches@) =~= wav_patches(self@));
        }
        assert(!self.open ==> muxer::patch_views(patches@) =~= wav_patches(self@));
        self.open = false;
        Ok(Finish { append: Vec::new(), patches })
    }

    fn container_format(&self) -> (f: ContainerFormat) {
        ContainerFormat::Wav
    }
}

/// What completes the header of an open file: both of its size fields.
pub open spec fn wav_patches(state: WavState) -> Seq<muxer::PatchView> {
    if state.open {
        seq![
            muxer::PatchView::Put {
                offset: 4,
                bytes: pcm::le_bytes(((state.written + 36) % 0x1_0000_0000) as nat, 4),
            },
            muxer::PatchView::Put { offset: 40, bytes: pcm::le_bytes(state.written, 4) },
        ]
    } else {
        Seq::empty()
    }
}

/// The state of an open file after some packets.
pub open spec fn wav_after(state: WavState, packets: Seq<Seq<u8>>) -> WavState
    decreases packets.len(),
{
    if packets.len() == 0 {
        state
    } else {
        wav_written(wav_after(state, packets.drop_last()), packets.last().len())
    }
}

proof fn lemma_wav_after(state: WavState, packets: Seq<Seq<u8>>)
    requires
        state.written + muxer::joined(packets).len() < 0x1_0000_0000,
    ensures
        wav_after(state, packets) == (WavState {
            written: state.written + muxer::joined(packets).len(),
            ..state
        }),
    decreases packets.len(),
{
    if packets.len() > 0 {
        lemma_wav_after(state, packets.drop_last());
    }
}

/// What stands before the first size field, between the two, and the fields.
proof fn lemma_wav_header_parts(channels: nat, rate: nat, bits: nat, riff: nat, data: nat) -> (parts:
    (Seq<u8>, Seq<u8>))
    ensures
        parts == header_parts(channels, rate, bits),
        parts.0.len() == 4,
        parts.1.len() == 32,
        wav_header(channels, rate, bits, riff, data) == parts.0 + pcm::le_bytes(riff, 4) + parts.1
            + pcm::le_bytes(data, 4),
{
    let parts = header_parts(channels, rate, bits);
    let block_align = channels * (bits / 8);
    pcm::lemma_le_bytes_len(riff, 4);
    pcm::lemma_le_bytes_len(data, 4);
    pcm::lemma_le_bytes_len(16, 4);
    pcm::lemma_le_bytes_len(1, 2);
    pcm::lemma_le_bytes_len(channels, 2);
    pcm::lemma_le_bytes_len(rate, 4);
    pcm::lemma_le_bytes_len(rate * block_align, 4);
    pcm::lemma_le_bytes_len(block_align, 2);
    pcm::lemma_le_bytes_len(bits, 2);
    assert(wav_header(channels, rate, bits, riff, data) =~= parts.0 + pcm::le_bytes(riff, 4)
        + parts.1 + pcm::le_bytes(data, 4));
    parts
}

spec fn header_parts(channels: nat, rate: nat, bits: nat) -> (Seq<u8>, Seq<u8>) {
    let block_align = channels * (bits / 8);
    (
        seq![0x52u8, 0x49u8, 0x46u8, 0x46u8],
        seq![0x57u8, 0x41u8, 0x56u8, 0x45u8, 0x66u8, 0x6du8, 0x74u8, 0x20u8] + pcm::le_bytes(16, 4)
            + pcm::le_bytes(1, 2) + pcm::le_bytes(channels, 2) + pcm::le_bytes(rate, 4)
            + pcm::le_bytes(rate * block_align, 4) + pcm::le_bytes(block_align, 2) + pcm::le_bytes(
            bits,
            2,
        ) + seq![0x64u8, 0x61u8, 0x74u8, 0x61u8],
    )
}

/// A finalized WAV file is a header with the true sizes followed by all packets.
///
/// The muxer must not have written another file before: the count of bytes is not
/// reset. The sizes must fit in 32 bits.
pub proof fn wav_file_is_complete(state: WavState, format: PcmFormat, packets: Seq<Seq<u8>>)
    requires
        state.written == 0,
        muxer::joined(packets).len() + 36 < 0x1_0000_0000,
    ensures
        ({
            let channels = format.channels as nat;
            let rate = format.sample_rate as nat;
            let bits = format.bit_depth as nat;
            let data = muxer::joined(packets);
            muxer::all_patched(
                wav_header(channels, rate, bits, 0, 0) + data,
                wav_patches(wav_after(wav_opened(state, format), packets)),
            ) == wav_header(channels, rate, bits, data.len() + 36, data.len()) + data
        }),
{
    let channels = format.channels as nat;
    let rate = format.sample_rate as nat;
    let bits = format.bit_depth as nat;
    let data = muxer::joined(packets);
    let n = data.len();
    lemma_wav_after(wav_opened(state, format), packets);
    let patches = wav_patches(wav_after(wav_opened(state, format), packets));
    let parts = lemma_wav_header_parts(channels, rate, bits, 0, 0);
    lemma_wav_header_parts(channels, rate, bits, n + 36, n);
    let zero = pcm::le_bytes(0, 4);
    let riff = pcm::le_bytes(n + 36, 4);
    let size = pcm::le_bytes(n, 4);
    pcm::lemma_le_bytes_len(0, 4);
    pcm::lemma_le_bytes_len(n + 36, 4);
    pcm::lemma_le_bytes_len(n, 4);
    let file = wav_header(channels, rate, bits, 0, 0) + data;
    assert(patches.drop_last().drop_last() =~= Seq::empty());
    assert(muxer::all_patched(file, patches.drop_last().drop_last()) == file);
    assert(file =~= parts.0 + zero + (parts.1 + zero + data));
    muxer::lemma_overwritten(parts.0, zero, riff, parts.1 + zero + data);
    let half = parts.0 + riff + (parts.1 + zero + data);
    assert(muxer::all_patched(file, patches.drop_last()) == half);
    assert(half =~= (parts.0 + riff + parts.1) + zero + data);
    muxer::lemma_overwritten(parts.0 + riff + parts.1, zero, size, data);
}

proof fn lemma_wrote_packets(
    muxers: Seq<WavMuxer>,
    packets: Seq<Seq<u8>>,
    results: Seq<EncodeResult<Vec<u8>>>,
)
    requires
        muxer::wrote_packets(muxers, packets, results),
        muxers[0]@.open,
    ensures
        muxers.last()@ == wav_after(muxers[0]@, packets),
        muxers.last()@.open,
        muxer::joined(muxer::all_result_bytes(results)) == muxer::joined(packets),
        forall|i: int| 0 <= i < results.len() ==> (#[trigger] results[i]) is Ok,
    decreases packets.len(),
{
    if packets.len() > 0 {
        let n = packets.len() - 1;
        let before = muxers.drop_last();
        let head = packets.drop_last();
        let first = results.drop_last();
        assert(muxer::wrote_packets(before, head, first)) by {
            assert forall|i: int| 0 <= i < n implies (#[trigger] before[i]).written(
                head[i],
                before[i + 1],
                first[i],
            ) by {
                assert(muxers[i].written(packets[i], muxers[i + 1], results[i]));
            }
        }
        lemma_wrote_packets(before, head, first);
        assert(muxers[n].written(packets[n], muxers[n + 1], results[n]));
        assert(before.last() == muxers[n]);
        assert(muxer::all_result_bytes(results).drop_last() =~= muxer::all_result_bytes(first));
        assert forall|i: int| 0 <= i < results.len() implies (#[trigger] results[i]) is Ok by {
            if i < n {
                assert(first[i] is Ok);
            }
        }
    }
}

/// A recording is complete: opening, writing packets and finalizing all succeed, and
/// the file that their bytes and patches make is a header with the true sizes
/// followed by exactly the packets, in order.
///
/// The muxer must not have written another file before, and the sizes must fit in 32
/// bits.
pub proof fn recording_is_complete(
    new: WavMuxer,
    format: PcmFormat,
    bitrate_kbps: u32,
    begin: EncodeResult<Vec<u8>>,
    muxers: Seq<WavMuxer>,
    packets: Seq<Seq<u8>>,
    results: Seq<EncodeResult<Vec<u8>>>,
    end: WavMuxer,
    finish: EncodeResult<Finish>,
)
    requires
        new@.written == 0,
        muxer::wrote_packets(muxers, packets, results),
        new.opened(format, bitrate_kbps, muxers[0], begin),
        muxers.last().finalized(end, finish),
        muxer::joined(packets).len() + 36 < 0x1_0000_0000,
    ensures
        begin is Ok,
        forall|i: int| 0 <= i < results.len() ==> (#[trigger] results[i]) is Ok,
        finish is Ok,
        ({
            let data = muxer::joined(packets);
            let file = muxer::all_patched(
                muxer::result_bytes(begin) + muxer::joined(muxer::all_result_bytes(results))
                    + finish->Ok_0.append@,
                muxer::patch_views(finish->Ok_0.patches@),
            );
            file == wav_header(
                format.channels as nat,
                format.sample_rate as nat,
                format.bit_depth as nat,
                data.len() + 36,
                data.len(),
            ) + data
        }),
{
    let data = muxer::joined(packets);
    lemma_wrote_packets(muxers, packets, results);
    wav_file_is_complete(new@, format, packets);
    let raw = muxer::result_bytes(begin) + muxer::joined(muxer::all_result_bytes(results));
    assert(raw + finish->Ok_0.append@ =~= raw);
}

// ---------------------------------------------------------------------------
// Reading back
// ---------------------------------------------------------------------------
/// What a reader finds in a WAV file.
pub struct WavContents {
    pub tag: nat,
    pub channels: nat,
    pub rate: nat,
    pub byte_rate: nat,
    pub block_align: nat,
    pub bits: nat,
    pub data: Seq<u8>,
}

/// The `n` bytes of a file at an offset as a little-endian number.
pub open spec fn field(file: Seq<u8>, offset: int, n: int) -> nat {
    pcm::le_value(file.subrange(offset, offset + n))
}

/// Reads a WAV file of one format chunk and one data chunk: the text `RIFF`, how many
/// bytes follow, the text `WAVE`; the text `fmt ` and 16 bytes that tell the format;
/// the text `data`, the number of bytes of samples and those bytes, up to the end of
/// the file. Anything else is no such file.
pub open spec fn read_wav(file: Seq<u8>) -> Option<WavContents> {
    if file.len() < 44 {
        None
    } else if file.subrange(0, 4) != seq![0x52u8, 0x49u8, 0x46u8, 0x46u8] {
        None
    } else if field(file, 4, 4) != file.len() - 8 {
        None
    } else if file.subrange(8, 12) != seq![0x57u8, 0x41u8, 0x56u8, 0x45u8] {
        None
    } else if file.subrange(12, 16) != seq![0x66u8, 0x6du8, 0x74u8, 0x20u8] {
        None
    } else if field(file, 16, 4) != 16 {
        None
    } else if file.subrange(36, 40) != seq![0x64u8, 0x61u8, 0x74u8, 0x61u8] {
        None
    } else if field(file, 40, 4) != file.len() - 44 {
        None
    } else {
        Some(
            WavContents {
                tag: field(file, 20, 2),
                channels: field(file, 22, 2),
                rate: field(file, 24, 4),
                byte_rate: field(file, 28, 4),
                block_align: field(file, 32, 2),
                bits: field(file, 34, 2),
                data: file.skip(44),
            },
        )
    }
}

/// Where the fields between the two sizes stand.
#[verifier::spinoff_prover]
proof fn lemma_format_fields(channels: nat, rate: nat, bits: nat)
    ensures
        ({
            let format = header_parts(channels, rate, bits).1;
            let block_align = channels * (bits / 8);
            &&& format.len() == 32
            &&& format.subrange(0, 4) == seq![0x57u8, 0x41u8, 0x56u8, 0x45u8]
            &&& format.subrange(4, 8) == seq![0x66u8, 0x6du8, 0x74u8, 0x20u8]
            &&& format.subrange(8, 12) == pcm::le_bytes(16, 4)
            &&& format.subrange(12, 14) == pcm::le_bytes(1, 2)
            &&& format.subrange(14, 16) == pcm::le_bytes(channels, 2)
            &&& format.subrange(16, 20) == pcm::le_bytes(rate, 4)
            &&& format.subrange(20, 24) == pcm::le_bytes(rate * block_align, 4)
            &&& format.subrange(24, 26) == pcm::le_bytes(block_align, 2)
            &&& format.subrange(26, 28) == pcm::le_bytes(bits, 2)
            &&& format.subrange(28, 32) == seq![0x64u8, 0x61u8, 0x74u8, 0x61u8]
        }),
{
    let block_align = channels * (bits / 8);
    pcm::lemma_le_bytes_len(16, 4);
    pcm::lemma_le_bytes_len(1, 2);
    pcm::lemma_le_bytes_len(channels, 2);
    pcm::lemma_le_bytes_len(rate, 4);
    pcm::lemma_le_bytes_len(rate * block_align, 4);
    pcm::lemma_le_bytes_len(block_align, 2);
    pcm::lemma_le_bytes_len(bits, 2);
}

/// What a sequence holds stands in a longer one after what comes before it.
proof fn lemma_part(before: Seq<u8>, middle: Seq<u8>, after: Seq<u8>, i: int, j: int)
    requires
        0 <= i <= j <= middle.len(),
    ensures
        (before + middle + after).subrange(before.len() + i, before.len() + j) == middle.subrange(
            i,
            j,
        ),
{
    assert((before + middle + after).subrange(before.len() + i, before.len() + j)
        =~= middle.subrange(i, j));
}

/// A header and some samples read back as what they were made of.
#[verifier::spinoff_prover]
proof fn lemma_reads_back(channels: nat, rate: nat, bits: nat, data: Seq<u8>)
    requires
        channels <= u16::MAX,
        rate <= u32::MAX,
        bits <= u16::MAX,
        channels * (bits / 8) <= u16::MAX,
        rate * (channels * (bits / 8)) <= u32::MAX,
        data.len() + 36 < 0x1_0000_0000,
    ensures
        read_wav(wav_header(channels, rate, bits, data.len() + 36, data.len()) + data) == Some(
            WavContents {
                tag: 1,
                channels,
                rate,
                byte_rate: rate * (channels * (bits / 8)),
                block_align: channels * (bits / 8),
                bits,
                data,
            },
        ),
{
    let n = data.len();
    let align = channels * (bits / 8);
    let (id, format) = lemma_wav_header_parts(channels, rate, bits, n + 36, n);
    let riff = pcm::le_bytes(n + 36, 4);
    let len = pcm::le_bytes(n, 4);
    let file = wav_header(channels, rate, bits, n + 36, n) + data;
    lemma_format_fields(channels, rate, bits);
    pcm::lemma_le_bytes_len(n + 36, 4);
    pcm::lemma_le_bytes_len(n, 4);
    let before = id + riff;
    let after = len + data;
    assert(file =~= before + format + after);
    lemma_part(before, format, after, 0, 4);
    lemma_part(before, format, after, 4, 8);
    lemma_part(before, format, after, 8, 12);
    lemma_part(before, format, after, 12, 14);
    lemma_part(before, format, after, 14, 16);
    lemma_part(before, format, after, 16, 20);
    lemma_part(before, format, after, 20, 24);
    lemma_part(before, format, after, 24, 26);
    lemma_part(before, format, after, 26, 28);
    lemma_part(before, format, after, 28, 32);
    assert(file.len() == n + 44);
    assert(file.subrange(0, 4) =~= id);
    assert(file.subrange(4, 8) =~= riff);
    assert(file.subrange(40, 44) =~= len);
    assert(file.skip(44) =~= data);
    assert(pcm::le_value(riff) == n + 36) by {
        pcm::numbers_survive_their_bytes(n + 36);
    }
    assert(pcm::le_value(pcm::le_bytes(16, 4)) == 16) by {
        pcm::numbers_survive_their_bytes(16);
    }
    assert(pcm::le_value(pcm::le_bytes(1, 2)) == 1) by {
        pcm::numbers_survive_their_bytes(1);
    }
    assert(pcm::le_value(pcm::le_bytes(channels, 2)) == channels) by {
        pcm::numbers_survive_their_bytes(channels);
    }
    assert(pcm::le_value(pcm::le_bytes(rate, 4)) == rate) by {
        pcm::numbers_survive_their_bytes(rate);
    }
    assert(pcm::le_value(pcm::le_bytes(rate * align, 4)) == rate * align) by {
        pcm::numbers_survive_their_bytes(rate * align);
    }
    assert(pcm::le_value(pcm::le_bytes(align, 2)) == align) by {
        pcm::numbers_survive_their_bytes(align);
    }
    assert(pcm::le_value(pcm::le_bytes(bits, 2)) == bits) by {
        pcm::numbers_survive_their_bytes(bits);
    }
    assert(pcm::le_value(len) == n) by {
        pcm::numbers_survive_their_bytes(n);
    }
}

/// A finished recording reads back: the file that opening, writing packets and
/// finalizing make is one of integer PCM (tag 1) with the channels, the sample rate
/// and the bits of the format, its blocks hold one sample of every channel, and its
/// data is exactly the packets, in order.
///
/// The muxer must not have written another file before, and the sizes must fit in 32
/// bits.
pub proof fn recording_reads_back(
    new: WavMuxer,
    format: PcmFormat,
    bitrate_kbps: u32,
    begin: EncodeResult<Vec<u8>>,
    muxers: Seq<WavMuxer>,
    packets: Seq<Seq<u8>>,
    results: Seq<EncodeResult<Vec<u8>>>,
    end: WavMuxer,
    finish: EncodeResult<Finish>,
)
    requires
        new@.written == 0,
        new.can_open(format),
        muxer::wrote_packets(muxers, packets, results),
        new.opened(format, bitrate_kbps, muxers[0], begin),
        muxers.last().finalized(end, finish),
        muxer::joined(packets).len() + 36 < 0x1_0000_0000,
    ensures
        begin is Ok,
        finish is Ok,
        !end@.open,
        ({
            let file = muxer::all_patched(
                muxer::result_bytes(begin) + muxer::joined(muxer::all_result_bytes(results))
                    + finish->Ok_0.append@,
                muxer::patch_views(finish->Ok_0.patches@),
            );
            let block_align = format.channels as nat * (format.bit_depth as nat / 8);
            &&& read_wav(file) matches Some(found) && {
                &&& found.tag == 1
                &&& found.channels == format.channels
                &&& found.rate == format.sample_rate
                &&& found.bits == format.bit_depth
                &&& found.block_align == block_align
                &&& found.byte_rate == format.sample_rate * block_align
                &&& found.data == muxer::joined(packets)
            }
        }),
{
    recording_is_complete(
        new,
        format,
        bitrate_kbps,
        begin,
        muxers,
        packets,
        results,
        end,
        finish,
    );
    lemma_reads_back(
        format.channels as nat,
        format.sample_rate as nat,
        format.bit_depth as nat,
        muxer::joined(packets),
    );
}

/// Only an open muxer takes packets: it hands each on unchanged. Another one says
/// that it is not open, and nothing changes.
pub proof fn packets_pass_unchanged(
    before: WavMuxer,
    data: Seq<u8>,
    after: WavMuxer,
    r: EncodeResult<Vec<u8>>,
)
    requires
        before.written(data, after, r),
    ensures
        before@.open ==> r is Ok && r->Ok_0@ == data && after@.open,
        !before@.open ==> r is Err && r->Err_0 is OutputFile && after@ == before@,
{
}

/// A file that was never opened needs nothing to complete it.
pub proof fn unopened_files_stay_empty(
    before: WavMuxer,
    after: WavMuxer,
    finish: EncodeResult<Finish>,
)
    requires
        !before@.open,
        before.finalized(after, finish),
    ensures
        finish is Ok,
        finish->Ok_0.append@.len() == 0,
        finish->Ok_0.patches@.len() == 0,
{
    assert(muxer::patch_views(finish->Ok_0.patches@).len() == 0);
}

/// The header that a file begins with tells integer PCM, the channels, the rate and the
/// bits, whole blocks, and sizes of zero.
#[verifier::spinoff_prover]
pub proof fn headers_tell_the_format(channels: u16, sample_rate: u32, bits: u16, w: Vec<u8>)
    requires
        channels * (bits / 8) <= u16::MAX,
        sample_rate * (channels * (bits / 8)) <= u32::MAX,
        call_ensures(WavMuxer::write_riff_header, (channels, sample_rate, bits), w),
    ensures
        w@.len() == 44,
        w@.subrange(0, 4) == seq![0x52u8, 0x49u8, 0x46u8, 0x46u8],
        field(w@, 4, 4) == 0,
        w@.subrange(8, 12) == seq![0x57u8, 0x41u8, 0x56u8, 0x45u8],
        field(w@, 16, 4) == 16,
        field(w@, 20, 2) == 1,
        field(w@, 22, 2) == channels,
        field(w@, 24, 4) == sample_rate,
        field(w@, 28, 4) == sample_rate * (channels * (bits / 8)),
        field(w@, 32, 2) == channels * (bits / 8),
        field(w@, 34, 2) == bits,
        field(w@, 40, 4) == 0,
{
    let align = channels as nat * (bits as nat / 8);
    let byte_rate = sample_rate as nat * align;
    pcm::numbers_survive_their_bytes(0);
    pcm::numbers_survive_their_bytes(16);
    pcm::numbers_survive_their_bytes(1);
    pcm::numbers_survive_their_bytes(channels as nat);
    pcm::numbers_survive_their_bytes(sample_rate as nat);
    pcm::numbers_survive_their_bytes(byte_rate);
    pcm::numbers_survive_their_bytes(align);
    pcm::numbers_survive_their_bytes(bits as nat);
    let file = w@;
    assert(file.subrange(0, 4) =~= seq![0x52u8, 0x49u8, 0x46u8, 0x46u8]);
    assert(file.subrange(4, 8) =~= pcm::le_bytes(0, 4));
    assert(file.subrange(8, 12) =~= seq![0x57u8, 0x41u8, 0x56u8, 0x45u8]);
    assert(file.subrange(16, 20) =~= pcm::le_bytes(16, 4));
    assert(file.subrange(20, 22) =~= pcm::le_bytes(1, 2));
    assert(file.subrange(22, 24) =~= pcm::le_bytes(channels as nat, 2));
    assert(file.subrange(24, 28) =~= pcm::le_bytes(sample_rate as nat, 4));
    assert(file.subrange(28, 32) =~= pcm::le_bytes(byte_rate, 4));
    assert(file.subrange(32, 34) =~= pcm::le_bytes(align, 2));
    assert(file.subrange(34, 36) =~= pcm::le_bytes(bits as nat, 2));
    assert(file.subrange(40, 44) =~= pcm::le_bytes(0, 4));
}

} // verus!
