//! FLAC files.
use crate::bits;
use crate::encoder::AudioPacket;
use crate::error::{EncodeError, EncodeResult};
use crate::flac_dec;
use crate::flac_enc;
use crate::flac_enc::{build_streaminfo, encode_frame};
use crate::muxer;
use crate::muxer::{AudioMuxer, ContainerFormat, Finish, Patch};
use crate::pcm;
use crate::pcm::{push_bytes, samples_of};
use crate::text::owned;
use crate::types::PcmFormat;
use vstd::arithmetic::div_mod::*;
use vstd::prelude::*;

verus! {

/// Samples per channel in every frame but the last.
pub const FLAC_BLOCK_SIZE: usize = 4096;

/// Writes FLAC files.
pub struct FlacMuxer {
    open: bool,
    pcm_buffer: Vec<i16>,
    channels: u16,
    sample_rate: u32,
    bits_per_sample: u16,
    frame_number: u32,
    total_samples: u64,
}

/// The state of a [`FlacMuxer`]: the samples that wait for their frame, the
/// number of the next frame, and the samples per channel encoded so far.
pub struct FlacState {
    pub open: bool,
    pub buffer: Seq<i16>,
    pub channels: nat,
    pub rate: nat,
    pub bps: nat,
    pub number: nat,
    pub total: nat,
}

impl View for FlacMuxer {
    type V = FlacState;

    closed spec fn view(&self) -> FlacState {
        FlacState {
            open: self.open,
            buffer: self.pcm_buffer@,
            channels: self.channels as nat,
            rate: self.sample_rate as nat,
            bps: self.bits_per_sample as nat,
            number: self.frame_number as nat,
            total: self.total_samples as nat,
        }
    }
}

/// The frames of all complete blocks of `buffer`.
pub open spec fn emitted(
    buffer: Seq<i16>,
    channels: nat,
    rate: nat,
    bps: nat,
    number: nat,
) -> Seq<u8>
    decreases buffer.len(),
{
    let block = FLAC_BLOCK_SIZE as nat * channels;
    if channels == 0 || buffer.len() < block {
        Seq::empty()
    } else {
        flac_enc::frame_bytes(buffer.take(block as int), channels, rate, bps, number) + emitted(
            buffer.skip(block as int),
            channels,
            rate,
            bps,
            number + 1,
        )
    }
}

/// How many complete blocks `len` samples hold.
pub open spec fn block_count(len: nat, channels: nat) -> nat {
    len / (FLAC_BLOCK_SIZE as nat * channels)
}

/// What is left of `buffer` after its complete blocks.
pub open spec fn remainder(buffer: Seq<i16>, channels: nat) -> Seq<i16> {
    buffer.skip(
        (block_count(buffer.len(), channels) * (FLAC_BLOCK_SIZE as nat * channels)) as int,
    )
}

/// The state after `count` blocks left the buffer.
pub open spec fn blocks_taken(state: FlacState, count: nat) -> FlacState {
    FlacState {
        buffer: state.buffer.skip((count * (FLAC_BLOCK_SIZE as nat * state.channels)) as int),
        number: state.number + count,
        total: state.total + FLAC_BLOCK_SIZE as nat * count,
        ..state
    }
}

pub open spec fn buffered(state: FlacState, data: Seq<u8>) -> FlacState {
    FlacState { buffer: state.buffer + pcm::samples16(data), ..state }
}

/// The bytes before the first frame, with the number of samples left at zero.
pub open spec fn flac_start(rate: nat, channels: nat, bps: nat, total: nat) -> Seq<u8> {
    seq![0x66u8, 0x4cu8, 0x61u8, 0x43u8, 0x80u8, 0x00u8, 0x00u8, 0x22u8] + bits::pack_bits(
        flac_enc::streaminfo_bits(
            FLAC_BLOCK_SIZE as nat,
            FLAC_BLOCK_SIZE as nat,
            rate,
            channels,
            bps,
            total,
        ),
    )
}

pub open spec fn flac_opened(state: FlacState, format: PcmFormat) -> FlacState {
    FlacState {
        open: true,
        buffer: Seq::empty(),
        channels: format.channels as nat,
        rate: format.sample_rate as nat,
        bps: format.bit_depth as nat,
        number: 0,
        total: 0,
    }
}

/// The samples per channel that a shorter last frame takes.
pub open spec fn last_block(state: FlacState) -> nat {
    state.buffer.len() / state.channels
}

/// The shorter last frame, if any sample is left for it.
pub open spec fn last_frame(state: FlacState) -> Seq<u8> {
    if last_block(state) > 0 {
        flac_enc::frame_bytes(
            state.buffer.take((last_block(state) * state.channels) as int),
            state.channels,
            state.rate,
            state.bps,
            state.number,
        )
    } else {
        Seq::empty()
    }
}

proof fn lemma_take_block(buffer: Seq<i16>, channels: nat)
    requires
        channels >= 1,
        buffer.len() >= FLAC_BLOCK_SIZE as nat * channels,
    ensures
        ({
            let block = FLAC_BLOCK_SIZE as nat * channels;
            let rest = buffer.skip(block as int);
            &&& block >= 1
            &&& block_count(buffer.len(), channels) == block_count(rest.len(), channels) + 1
            &&& remainder(rest, channels) == remainder(buffer, channels)
        }),
{
    let block = FLAC_BLOCK_SIZE as nat * channels;
    let rest = buffer.skip(block as int);
    let k = block_count(rest.len(), channels);
    lemma_div_minus_one(buffer.len() as int, block as int);
    lemma_fundamental_div_mod(rest.len() as int, block as int);
    assert((k + 1) * block == k * block + block) by (nonlinear_arith);
    assert(0 <= k * block <= rest.len()) by (nonlinear_arith)
        requires
            rest.len() == block * k + rest.len() % block,
            rest.len() % block >= 0,
    ;
    assert(remainder(rest, channels) =~= remainder(buffer, channels));
}

proof fn lemma_no_block(buffer: Seq<i16>, channels: nat)
    requires
        channels >= 1,
        buffer.len() < FLAC_BLOCK_SIZE as nat * channels,
    ensures
        block_count(buffer.len(), channels) == 0,
        remainder(buffer, channels) == buffer,
{
    lemma_basic_div(buffer.len() as int, (FLAC_BLOCK_SIZE as nat * channels) as int);
    assert(0 * (FLAC_BLOCK_SIZE as nat * channels) == 0);
    assert(remainder(buffer, channels) =~= buffer);
}

impl FlacMuxer {
    pub fn new() -> (m: Self)
        ensures
            m@ == (FlacState {
                open: false,
                buffer: Seq::empty(),
                channels: 2,
                rate: 48000,
                bps: 16,
                number: 0,
                total: 0,
            }),
    {
        FlacMuxer {
            open: false,
            pcm_buffer: Vec::new(),
            channels: 2,
            sample_rate: 48000,
            bits_per_sample: 16,
            frame_number: 0,
            total_samples: 0,
        }
    }

    /// Encodes queued full blocks. A muxer without a file fails at the first one.
    fn flush_blocks(&mut self) -> (r: EncodeResult<Vec<u8>>)
        requires
            old(self)@.channels >= 1,
            old(self)@.bps < 64,
            old(self)@.number + block_count(old(self)@.buffer.len(), old(self)@.channels)
                <= u32::MAX,
            old(self)@.total + FLAC_BLOCK_SIZE as nat * block_count(
                old(self)@.buffer.len(),
                old(self)@.channels,
            ) <= u64::MAX,
        ensures
            flushed(old(self)@, final(self)@, r),
    {
        let samples_per_block: usize = FLAC_BLOCK_SIZE * (self.channels as usize);
        let ghost start = self@;
        let ghost all = emitted(
            start.buffer,
            start.channels,
            start.rate,
            start.bps,
            start.number,
        );
        let mut out: Vec<u8> = Vec::new();
        assert(out@ + all =~= all);
        while self.pcm_buffer.len() >= samples_per_block
            invariant
                start == old(self)@,
                start.channels >= 1,
                start.bps < 64,
                samples_per_block == FLAC_BLOCK_SIZE * start.channels,
                self@.channels == start.channels,
                self@.rate == start.rate,
                self@.bps == start.bps,
                self@.open == start.open,
                self@.number + block_count(self@.buffer.len(), start.channels) == start.number
                    + block_count(start.buffer.len(), start.channels),
                self@.total + FLAC_BLOCK_SIZE as nat * block_count(
                    self@.buffer.len(),
                    start.channels,
                ) == start.total + FLAC_BLOCK_SIZE as nat * block_count(
                    start.buffer.len(),
                    start.channels,
                ),
                start.number + block_count(start.buffer.len(), start.channels) <= u32::MAX,
                start.total + FLAC_BLOCK_SIZE as nat * block_count(
                    start.buffer.len(),
                    start.channels,
                ) <= u64::MAX,
                remainder(self@.buffer, start.channels) == remainder(start.buffer, start.channels),
                out@ + emitted(
                    self@.buffer,
                    start.channels,
                    start.rate,
                    start.bps,
                    self@.number,
                ) == all,
                all == emitted(
                    start.buffer,
                    start.channels,
                    start.rate,
                    start.bps,
                    start.number,
                ),
                !start.open ==> self@ == start && out@ == Seq::<u8>::empty(),
            decreases self.pcm_buffer.len(),
        {
            let ghost before = self@;
            proof {
                lemma_take_block(before.buffer, start.channels);
            }
            let rest: Vec<i16> = self.pcm_buffer.split_off(samples_per_block);
            let mut block: Vec<i16> = rest;
            std::mem::swap(&mut block, &mut self.pcm_buffer);
            assert(block@ =~= before.buffer.take(samples_per_block as int));
            assert(self.pcm_buffer@ =~= before.buffer.skip(samples_per_block as int));
            let frame: Vec<u8> = encode_frame(
                block.as_slice(),
                self.channels,
                self.sample_rate,
                self.bits_per_sample,
                self.frame_number,
            );
            self.frame_number = self.frame_number + 1;
            self.total_samples = self.total_samples + FLAC_BLOCK_SIZE as u64;
            if !self.open {
                assert(1 * (FLAC_BLOCK_SIZE as nat * start.channels) == samples_per_block);
                assert(self@.buffer =~= blocks_taken(start, 1).buffer);
                return Err(EncodeError::OutputFile(owned("not open")));
            }
            let ghost partial = out@;
            push_bytes(&mut out, frame.as_slice());
            assert(out@ + emitted(
                self@.buffer,
                start.channels,
                start.rate,
                start.bps,
                self@.number,
            ) =~= partial + (frame@ + emitted(
                self@.buffer,
                start.channels,
                start.rate,
                start.bps,
                self@.number,
            )));
        }
        proof {
            lemma_no_block(self@.buffer, start.channels);
            assert(out@ =~= all);
            assert(self@.buffer =~= blocks_taken(
                start,
                block_count(start.buffer.len(), start.channels),
            ).buffer);
        }
        Ok(out)
    }
}

/// What flushing complete blocks does to a muxer, and what it returns.
pub open spec fn flushed(before: FlacState, after: FlacState, r: EncodeResult<Vec<u8>>) -> bool {
    if before.open {
        &&& after == blocks_taken(before, block_count(before.buffer.len(), before.channels))
        &&& r matches Ok(bytes) && bytes@ == emitted(
            before.buffer,
            before.channels,
            before.rate,
            before.bps,
            before.number,
        )
    } else if before.buffer.len() >= FLAC_BLOCK_SIZE as nat * before.channels {
        &&& after == blocks_taken(before, 1)
        &&& r matches Err(EncodeError::OutputFile(m)) && m@ == "not open"@
    } else {
        &&& after == before
        &&& r matches Ok(bytes) && bytes@ == Seq::<u8>::empty()
    }
}

impl AudioMuxer for FlacMuxer {
    open spec fn can_open(&self, format: PcmFormat) -> bool {
        format.channels >= 1 && 1 <= format.bit_depth < 64
    }

    open spec fn opened(
        &self,
        format: PcmFormat,
        bitrate_kbps: u32,
        after: Self,
        r: EncodeResult<Vec<u8>>,
    ) -> bool {
        &&& after@ == flac_opened(self@, format)
        &&& r matches Ok(bytes) && bytes@ == flac_start(
            format.sample_rate as nat,
            format.channels as nat,
            format.bit_depth as nat,
            0,
        )
    }

    /// The counts of frames and of samples must fit in their 32 and 64 bits.
    open spec fn can_write(&self, data: Seq<u8>) -> bool {
        let blocks = block_count(self@.buffer.len() + data.len() / 2, self@.channels);
        &&& self@.channels >= 1
        &&& self@.bps < 64
        &&& self@.number + blocks <= u32::MAX
        &&& self@.total + FLAC_BLOCK_SIZE as nat * blocks <= u64::MAX
    }

    open spec fn written(&self, data: Seq<u8>, after: Self, r: EncodeResult<Vec<u8>>) -> bool {
        flushed(buffered(self@, data), after@, r)
    }

    open spec fn can_finalize(&self) -> bool {
        &&& self@.channels >= 1
        &&& self@.bps < 64
        &&& self@.total + last_block(self@) <= u64::MAX
    }

    open spec fn finalized(&self, after: Self, r: EncodeResult<Finish>) -> bool {
        let total = self@.total + last_block(self@);
        &&& after@ == (FlacState { open: false, buffer: Seq::empty(), total, ..self@ })
        &&& r matches Ok(finish) && {
            &&& finish.append@ == if self@.open {
                last_frame(self@)
            } else {
                Seq::empty()
            }
            &&& muxer::patch_views(finish.patches@) == if self@.open {
                seq![muxer::PatchView::TotalSamples { total }]
            } else {
                Seq::empty()
            }
        }
    }

    open spec fn format(&self) -> ContainerFormat {
        ContainerFormat::Flac
    }

    fn open(&mut self, pcm_format: &PcmFormat, _codec_name: &str, _bitrate_kbps: u32) -> (r:
        EncodeResult<Vec<u8>>) {
        self.channels = pcm_format.channels;
        self.sample_rate = pcm_format.sample_rate;
        self.bits_per_sample = pcm_format.bit_depth;
        self.frame_number = 0;
        self.total_samples = 0;
        self.pcm_buffer.clear();
        // marker, then the header of the last metadata block: STREAMINFO, 34 bytes
        let mut w: Vec<u8> = vec![
            0x66u8,
            0x4cu8,
            0x61u8,
            0x43u8,
            0x80u8,
            0x00u8,
            0x00u8,
            0x22u8,
        ];
        let si: [u8; 34] = build_streaminfo(
            FLAC_BLOCK_SIZE as u16,
            FLAC_BLOCK_SIZE as u16,
            self.sample_rate,
            self.channels,
            self.bits_per_sample,
            0,
        );
        proof {
            bits::lemma_pack_byte_bits(si@);
        }
        push_bytes(&mut w, si.as_slice());
        self.open = true;
        assert(w@ =~= flac_start(
            pcm_format.sample_rate as nat,
            pcm_format.channels as nat,
            pcm_format.bit_depth as nat,
            0,
        ));
        Ok(w)
    }

    fn write_packet(&mut self, pkt: &AudioPacket) -> (r: EncodeResult<Vec<u8>>) {
        let mut samples: Vec<i16> = samples_of(pkt.data.as_slice());
        self.pcm_buffer.append(&mut samples);
        assert(self@.buffer =~= buffered(old(self)@, pkt.data@).buffer);
        self.flush_blocks()
    }

    fn finalize(&mut self) -> (r: EncodeResult<Finish>) {
        let ghost before = self@;
        let mut append: Vec<u8> = Vec::new();
        let mut remaining: Vec<i16> = Vec::new();
        std::mem::swap(&mut remaining, &mut self.pcm_buffer);
        let channels: usize = self.channels as usize;
        let block_samples: usize = remaining.len() / channels;
        if block_samples > 0 {
            proof {
                lemma_fundamental_div_mod(remaining.len() as int, channels as int);
                assert(channels <= block_samples * channels <= remaining.len()) by (nonlinear_arith)
                    requires
                        remaining.len() == channels * block_samples + remaining.len() % channels,
                        remaining.len() % channels >= 0,
                        block_samples >= 1,
                ;
            }
            remaining.truncate(block_samples * channels);
            assert(remaining@ =~= before.buffer.take((last_block(before) * before.channels) as int));
            let frame: Vec<u8> = encode_frame(
                remaining.as_slice(),
                self.channels,
                self.sample_rate,
                self.bits_per_sample,
                self.frame_number,
            );
            self.total_samples = self.total_samples + block_samples as u64;
            if self.open {
                append = frame;
            }
        }
        let mut patches: Vec<Patch> = Vec::new();
        if self.open {
            patches.push(Patch::TotalSamples { total: self.total_samples });
            assert(muxer::patch_views(patches@) =~= seq![
                muxer::PatchView::TotalSamples { total: before.total + last_block(before) },
            ]);
        }
        assert(!self.open ==> muxer::patch_views(patches@) =~= Seq::empty());
        self.open = false;
        assert(self@.buffer =~= Seq::empty());
        Ok(Finish { append, patches })
    }

    fn container_format(&self) -> (f: ContainerFormat) {
        ContainerFormat::Flac
    }
}

// ---------------------------------------------------------------------------
// Whole files
// ---------------------------------------------------------------------------
/// The state of an open file after some packets.
pub open spec fn flac_after(state: FlacState, packets: Seq<Seq<u8>>) -> FlacState
    decreases packets.len(),
{
    if packets.len() == 0 {
        state
    } else {
        let fed = buffered(flac_after(state, packets.drop_last()), packets.last());
        blocks_taken(fed, block_count(fed.buffer.len(), fed.channels))
    }
}

/// The bytes that an open file gets from some packets.
pub open spec fn flac_output(state: FlacState, packets: Seq<Seq<u8>>) -> Seq<u8>
    decreases packets.len(),
{
    if packets.len() == 0 {
        Seq::empty()
    } else {
        let fed = buffered(flac_after(state, packets.drop_last()), packets.last());
        flac_output(state, packets.drop_last()) + emitted(
            fed.buffer,
            fed.channels,
            fed.rate,
            fed.bps,
            fed.number,
        )
    }
}

/// The samples of all packets, one after the other.
pub open spec fn all_samples(packets: Seq<Seq<u8>>) -> Seq<i16>
    decreases packets.len(),
{
    if packets.len() == 0 {
        Seq::empty()
    } else {
        all_samples(packets.drop_last()) + pcm::samples16(packets.last())
    }
}

/// The samples that make up complete frames of one sample per channel.
pub open spec fn whole_frames(samples: Seq<i16>, channels: nat) -> Seq<i16> {
    samples.take(((samples.len() / channels) * channels) as int)
}

proof fn lemma_emitted_append(
    a: Seq<i16>,
    b: Seq<i16>,
    channels: nat,
    rate: nat,
    bps: nat,
    number: nat,
)
    requires
        channels >= 1,
    ensures
        ({
            let k = block_count(a.len(), channels);
            let rest = remainder(a, channels);
            &&& emitted(a + b, channels, rate, bps, number) == emitted(
                a,
                channels,
                rate,
                bps,
                number,
            ) + emitted(rest + b, channels, rate, bps, number + k)
            &&& block_count((a + b).len(), channels) == k + block_count((rest + b).len(), channels)
            &&& remainder(a + b, channels) == remainder(rest + b, channels)
        }),
    decreases a.len(),
{
    let block = FLAC_BLOCK_SIZE as nat * channels;
    let k = block_count(a.len(), channels);
    let rest = remainder(a, channels);
    if a.len() < block {
        lemma_no_block(a, channels);
        assert(emitted(a, channels, rate, bps, number) + emitted(
            rest + b,
            channels,
            rate,
            bps,
            number + k,
        ) =~= emitted(a + b, channels, rate, bps, number));
    } else {
        let a2 = a.skip(block as int);
        lemma_take_block(a, channels);
        lemma_take_block(a + b, channels);
        assert((a + b).take(block as int) =~= a.take(block as int));
        assert((a + b).skip(block as int) =~= a2 + b);
        lemma_emitted_append(a2, b, channels, rate, bps, number + 1);
        let frame = flac_enc::frame_bytes(a.take(block as int), channels, rate, bps, number);
        let first = emitted(a2, channels, rate, bps, number + 1);
        let second = emitted(rest + b, channels, rate, bps, number + k);
        assert(frame + (first + second) =~= (frame + first) + second);
    }
}

/// Packets are encoded as one stream: where one ends leaves no trace.
pub proof fn packets_form_one_stream(state: FlacState, packets: Seq<Seq<u8>>)
    requires
        state.channels >= 1,
        state.buffer == Seq::<i16>::empty(),
    ensures
        ({
            let samples = all_samples(packets);
            let all = FlacState { buffer: samples, ..state };
            &&& flac_after(state, packets) == blocks_taken(
                all,
                block_count(samples.len(), state.channels),
            )
            &&& flac_output(state, packets) == emitted(
                samples,
                state.channels,
                state.rate,
                state.bps,
                state.number,
            )
        }),
    decreases packets.len(),
{
    let samples = all_samples(packets);
    let all = FlacState { buffer: samples, ..state };
    if packets.len() == 0 {
        lemma_block_positive(state.channels);
        lemma_no_block(samples, state.channels);
        assert(blocks_taken(all, 0).buffer =~= state.buffer);
    } else {
        let head = packets.drop_last();
        packets_form_one_stream(state, head);
        let a = all_samples(head);
        let b = pcm::samples16(packets.last());
        lemma_emitted_append(a, b, state.channels, state.rate, state.bps, state.number);
        let fed = buffered(flac_after(state, head), packets.last());
        let k = block_count(a.len(), state.channels);
        let m = block_count(fed.buffer.len(), state.channels);
        assert(fed.buffer == remainder(a, state.channels) + b);
        assert(blocks_taken(fed, m).buffer == remainder(fed.buffer, state.channels));
        assert(blocks_taken(all, k + m).buffer == remainder(samples, state.channels));
        assert(FLAC_BLOCK_SIZE as nat * (k + m) == FLAC_BLOCK_SIZE as nat * k
            + FLAC_BLOCK_SIZE as nat * m);
    }
}

proof fn lemma_block_positive(channels: nat)
    requires
        channels >= 1,
    ensures
        FLAC_BLOCK_SIZE as nat * channels >= 1,
{
}

/// The frames of a whole stream: complete blocks and a shorter last one.
pub open spec fn stream_bytes(state: FlacState) -> Seq<u8> {
    emitted(state.buffer, state.channels, state.rate, state.bps, state.number) + last_frame(
        blocks_taken(state, block_count(state.buffer.len(), state.channels)),
    )
}

proof fn lemma_whole_frames_step(samples: Seq<i16>, channels: nat)
    requires
        channels >= 1,
        samples.len() >= FLAC_BLOCK_SIZE as nat * channels,
    ensures
        ({
            let block = (FLAC_BLOCK_SIZE as nat * channels) as int;
            whole_frames(samples, channels) == samples.take(block) + whole_frames(
                samples.skip(block),
                channels,
            )
        }),
{
    let block = (FLAC_BLOCK_SIZE as nat * channels) as int;
    let c = channels as int;
    let rest = samples.skip(block);
    let q = (rest.len() / channels) as int;
    lemma_fundamental_div_mod(rest.len() as int, c);
    lemma_mod_bound(rest.len() as int, c);
    assert(samples.len() == c * (q + 4096) + rest.len() as int % c) by (nonlinear_arith)
        requires
            samples.len() == rest.len() + 4096 * c,
            rest.len() == c * q + rest.len() as int % c,
    ;
    lemma_fundamental_div_mod_converse(
        samples.len() as int,
        c,
        q + 4096,
        rest.len() as int % c,
    );
    assert((q + 4096) * c == q * c + block) by (nonlinear_arith)
        requires
            block == 4096 * c,
    ;
    assert(0 <= q * c <= rest.len()) by (nonlinear_arith)
        requires
            rest.len() == c * q + rest.len() as int % c,
            rest.len() as int % c >= 0,
            q >= 0,
            c >= 1,
    ;
    assert(whole_frames(samples, channels) =~= samples.take(block) + whole_frames(rest, channels));
}

proof fn lemma_read_frame_bytes(
    samples: Seq<i16>,
    channels: nat,
    rate: nat,
    bps: nat,
    number: nat,
    info: flac_dec::StreamInfo,
    told: Option<nat>,
    rest: Seq<u8>,
)
    requires
        1 <= channels <= 8,
        samples.len() % channels == 0,
        1 <= samples.len() / channels <= 65536,
        16 <= bps,
        number < 0x10_0000_0000,
        info.channels == channels,
        info.bps == bps,
        samples.len() / channels <= info.max_block,
        rest.len() > 0 ==> samples.len() / channels >= info.min_block,
        told matches Some(r) ==> flac_dec::header_rate(rate) == r,
    ensures
        flac_dec::read_frames(
            bits::byte_bits(flac_enc::frame_bytes(samples, channels, rate, bps, number) + rest),
            info,
            number,
            told,
        ) == match flac_dec::read_frames(bits::byte_bits(rest), info, number + 1, told) {
            None => None,
            Some(tail) => Some(flac_dec::ints16(samples) + tail),
        },
{
    reveal_with_fuel(flac_dec::read_frames, 1);
    let frame = flac_enc::frame_bits(samples, channels, rate, bps, number);
    flac_dec::lemma_frame_len(samples, channels, rate, bps, number);
    bits::lemma_byte_bits_pack(frame);
    bits::lemma_byte_bits_add(bits::pack_bits(frame), rest);
    assert forall|i: int| 0 <= i < samples.len() implies flac_dec::fits(
        #[trigger] samples[i] as int,
        bps,
    ) by {
        flac_dec::lemma_fits16(samples[i], bps);
    }
    flac_dec::frame_is_lossless(
        samples,
        channels,
        rate,
        bps,
        number,
        info.rate,
        bits::byte_bits(rest),
    );
}

proof fn lemma_read_no_frames(info: flac_dec::StreamInfo, number: nat, told: Option<nat>)
    ensures
        flac_dec::read_frames(bits::byte_bits(Seq::empty()), info, number, told) == Some(
            Seq::<int>::empty(),
        ),
{
    reveal_with_fuel(flac_dec::read_frames, 1);
}

proof fn lemma_read_stream_frames(
    state: FlacState,
    info: flac_dec::StreamInfo,
    told: Option<nat>,
)
    requires
        1 <= state.channels <= 8,
        16 <= state.bps,
        state.number + block_count(state.buffer.len(), state.channels) < 0x10_0000_0000,
        info.channels == state.channels,
        info.bps == state.bps,
        info.min_block == 4096,
        info.max_block == 4096,
        told matches Some(r) ==> flac_dec::header_rate(state.rate) == r,
    ensures
        flac_dec::read_frames(
            bits::byte_bits(stream_bytes(state)),
            info,
            state.number,
            told,
        ) == Some(
            flac_dec::ints16(whole_frames(state.buffer, state.channels)),
        ),
    decreases state.buffer.len(),
{
    let channels = state.channels;
    let samples = state.buffer;
    let block = FLAC_BLOCK_SIZE as nat * channels;
    let k = block_count(samples.len(), channels);
    if samples.len() >= block {
        let next = FlacState {
            buffer: samples.skip(block as int),
            number: state.number + 1,
            ..state
        };
        lemma_take_block(samples, channels);
        lemma_read_stream_frames(next, info, told);
        let first = samples.take(block as int);
        assert(first.len() % channels == 0 && first.len() / channels == 4096) by {
            lemma_fundamental_div_mod_converse(first.len() as int, channels as int, 4096, 0);
        }
        let frame = flac_enc::frame_bytes(
            first,
            channels,
            state.rate,
            state.bps,
            state.number,
        );
        let after = blocks_taken(state, k);
        let after_next = blocks_taken(next, (k - 1) as nat);
        assert(after.buffer == remainder(samples, channels));
        assert(after_next.buffer == remainder(next.buffer, channels));
        assert(last_frame(after) == last_frame(after_next));
        assert(stream_bytes(state) =~= frame + stream_bytes(next));
        lemma_read_frame_bytes(
            first,
            channels,
            state.rate,
            state.bps,
            state.number,
            info,
            told,
            stream_bytes(next),
        );
        lemma_whole_frames_step(samples, channels);
        let tail = whole_frames(next.buffer, channels);
        assert(flac_dec::ints16(first) + flac_dec::ints16(tail) =~= flac_dec::ints16(
            first + tail,
        ));
    } else {
        lemma_no_block(samples, channels);
        let after = blocks_taken(state, 0);
        assert(after.buffer =~= samples) by {
            assert(0 * block == 0);
        }
        let q = samples.len() / channels;
        let first = whole_frames(samples, channels);
        lemma_fundamental_div_mod(samples.len() as int, channels as int);
        lemma_mod_bound(samples.len() as int, channels as int);
        assert(0 <= q * channels <= samples.len()) by (nonlinear_arith)
            requires
                samples.len() == channels * q + samples.len() as int % channels as int,
                samples.len() as int % channels as int >= 0,
        ;
        assert(stream_bytes(state) =~= last_frame(after));
        lemma_read_no_frames(info, state.number, told);
        lemma_read_no_frames(info, state.number + 1, told);
        if q > 0 {
            assert(q < 4096) by (nonlinear_arith)
                requires
                    samples.len() == channels * q + samples.len() as int % channels as int,
                    samples.len() as int % channels as int >= 0,
                    samples.len() < 4096 * channels,
                    channels >= 1,
            ;
            assert(first.len() % channels == 0 && first.len() / channels == q) by {
                lemma_fundamental_div_mod_converse(
                    first.len() as int,
                    channels as int,
                    q as int,
                    0,
                );
            }
            lemma_read_frame_bytes(
                first,
                channels,
                state.rate,
                state.bps,
                state.number,
                info,
                told,
                Seq::empty(),
            );
            assert(last_frame(after) + Seq::<u8>::empty() =~= last_frame(after));
            assert(flac_dec::ints16(first) + Seq::<int>::empty() =~= flac_dec::ints16(first));
        } else {
            assert(0 * channels == 0);
            assert(flac_dec::ints16(first) =~= Seq::<int>::empty());
        }
    }
}

/// Patching the number of samples changes nothing else of the stream header.
proof fn lemma_patch_start(rate: nat, channels: nat, bps: nat, total: nat, frames: Seq<u8>)
    ensures
        muxer::patched(
            flac_start(rate, channels, bps, 0) + frames,
            muxer::PatchView::TotalSamples { total },
        ) == flac_start(rate, channels, bps, total) + frames,
{
    let marker = seq![0x66u8, 0x4cu8, 0x61u8, 0x43u8, 0x80u8, 0x00u8, 0x00u8, 0x22u8];
    let sizes = bits::uint_bits(4096, 16) + bits::uint_bits(4096, 16) + bits::zero_bits(48);
    let high = sizes + bits::uint_bits(rate, 20) + bits::uint_bits((channels - 1) as nat, 3)
        + bits::uint_bits((bps - 1) as nat / 16, 1);
    let low = bits::uint_bits((bps - 1) as nat, 4);
    let signature = bits::zero_bits(128);
    let old_count = low + bits::uint_bits(0, 36);
    let new_count = low + bits::uint_bits(total, 36);
    bits::lemma_uint_bits_len(4096, 16);
    bits::lemma_uint_bits_len(rate, 20);
    bits::lemma_uint_bits_len((channels - 1) as nat, 3);
    bits::lemma_uint_bits_len((bps - 1) as nat / 16, 1);
    bits::lemma_uint_bits_len((bps - 1) as nat, 4);
    bits::lemma_uint_bits_len(0, 36);
    bits::lemma_uint_bits_len(total, 36);
    vstd::arithmetic::power2::lemma2_to64();
    bits::lemma_uint_bits_split((bps - 1) as nat, 1, 4);
    assert(flac_enc::streaminfo_bits(4096, 4096, rate, channels, bps, 0) =~= high + old_count
        + signature);
    assert(flac_enc::streaminfo_bits(4096, 4096, rate, channels, bps, total) =~= high + new_count
        + signature);
    bits::lemma_pack_add(high, old_count);
    bits::lemma_pack_add(high + old_count, signature);
    bits::lemma_pack_add(high, new_count);
    bits::lemma_pack_add(high + new_count, signature);
    bits::lemma_byte_bits_pack(high);
    bits::lemma_byte_bits_pack(old_count);
    bits::lemma_byte_bits_pack(new_count);
    let before = marker + bits::pack_bits(high);
    let at = bits::pack_bits(old_count);
    let new = bits::pack_bits(new_count);
    let after = bits::pack_bits(signature) + frames;
    let file = flac_start(rate, channels, bps, 0) + frames;
    assert(file =~= before + at + after);
    assert(flac_start(rate, channels, bps, total) + frames =~= before + new + after);
    assert(file.subrange(21, 26) =~= at);
    // the four bits before the count stay what they were
    bits::lemma_byte_bits_first(at);
    bits::lemma_uint_bits_split(at[0] as nat, 4, 4);
    bits::lemma_uint_bits_len((at[0] / 16) as nat, 4);
    assert(bits::byte_bits(at).take(4) =~= bits::uint_bits((at[0] / 16) as nat, 4));
    assert(bits::byte_bits(at).take(4) =~= low);
    muxer::lemma_overwritten(before, at, new, after);
}

/// Whether a rate can be told in full by a STREAMINFO block and by frames.
pub open spec fn rate_fits(rate: nat) -> bool {
    rate <= 65535 || (rate % 10 == 0 && rate <= 655350)
}

/// A finalized FLAC file decodes to exactly the samples of all packets, and its
/// header tells the format and how many samples per channel there are.
///
/// Samples that do not complete a frame of all channels are dropped. A rate and a
/// count that exceed their 20 and 36 bits of the header are told modulo what those
/// hold; the samples are whole all the same. Frames are counted in 32 bits.
pub proof fn flac_file_is_lossless(state: FlacState, format: PcmFormat, packets: Seq<Seq<u8>>)
    requires
        1 <= format.channels <= 8,
        16 <= format.bit_depth <= 32,
        block_count(all_samples(packets).len(), format.channels as nat) <= u32::MAX,
    ensures
        ({
            let channels = format.channels as nat;
            let rate = format.sample_rate as nat;
            let bps = format.bit_depth as nat;
            let samples = all_samples(packets);
            let opened = flac_opened(state, format);
            let done = flac_after(opened, packets);
            let total = done.total + last_block(done);
            let file = muxer::patched(
                flac_start(rate, channels, bps, 0) + flac_output(opened, packets) + last_frame(
                    done,
                ),
                muxer::PatchView::TotalSamples { total },
            );
            &&& total == samples.len() / channels
            &&& flac_dec::read_stream(file) == Some(
                (
                    flac_dec::told_info(4096, 4096, rate, channels, bps, total),
                    flac_dec::ints16(whole_frames(samples, channels)),
                ),
            )
        }),
{
    let channels = format.channels as nat;
    let rate = format.sample_rate as nat;
    let bps = format.bit_depth as nat;
    let samples = all_samples(packets);
    let all = FlacState { buffer: samples, ..flac_opened(state, format) };
    let total = samples.len() / channels;
    let info = flac_dec::told_info(4096, 4096, rate, channels, bps, total);
    lemma_file_layout(state, format, packets);
    lemma_read_start(rate, channels, bps, total, stream_bytes(all), false);
    lemma_total(samples.len(), channels);
    lemma_read_stream_frames(all, info, None);
}

/// The file is its stream header, with the number of samples put in, and its frames.
proof fn lemma_file_layout(state: FlacState, format: PcmFormat, packets: Seq<Seq<u8>>)
    requires
        1 <= format.channels,
    ensures
        ({
            let channels = format.channels as nat;
            let rate = format.sample_rate as nat;
            let bps = format.bit_depth as nat;
            let samples = all_samples(packets);
            let opened = flac_opened(state, format);
            let done = flac_after(opened, packets);
            let total = done.total + last_block(done);
            &&& total == samples.len() / channels
            &&& muxer::patched(
                flac_start(rate, channels, bps, 0) + flac_output(opened, packets) + last_frame(
                    done,
                ),
                muxer::PatchView::TotalSamples { total },
            ) == flac_start(rate, channels, bps, total) + stream_bytes(
                FlacState { buffer: samples, ..opened },
            )
        }),
{
    let channels = format.channels as nat;
    let rate = format.sample_rate as nat;
    let bps = format.bit_depth as nat;
    let samples = all_samples(packets);
    let opened = flac_opened(state, format);
    let done = flac_after(opened, packets);
    let all = FlacState { buffer: samples, ..opened };
    let k = block_count(samples.len(), channels);
    packets_form_one_stream(opened, packets);
    lemma_total(samples.len(), channels);
    assert(done == blocks_taken(all, k));
    assert(done.buffer.len() == samples.len() - k * (4096 * channels)) by {
        lemma_blocks_fit(samples.len(), channels);
    }
    let total = done.total + last_block(done);
    assert(total == samples.len() / channels);
    let frames = flac_output(opened, packets) + last_frame(done);
    assert(frames == stream_bytes(all));
    assert(flac_start(rate, channels, bps, 0) + flac_output(opened, packets) + last_frame(done)
        =~= flac_start(rate, channels, bps, 0) + frames);
    lemma_patch_start(rate, channels, bps, total, frames);
}

/// The frames of a finalized FLAC file tell the rate too, where that fits in what frames
/// can tell.
pub proof fn flac_frames_tell_the_rate(state: FlacState, format: PcmFormat, packets: Seq<Seq<u8>>)
    requires
        1 <= format.channels <= 8,
        16 <= format.bit_depth <= 32,
        block_count(all_samples(packets).len(), format.channels as nat) <= u32::MAX,
        rate_fits(format.sample_rate as nat),
    ensures
        ({
            let channels = format.channels as nat;
            let rate = format.sample_rate as nat;
            let bps = format.bit_depth as nat;
            let samples = all_samples(packets);
            let opened = flac_opened(state, format);
            let done = flac_after(opened, packets);
            let total = done.total + last_block(done);
            let file = muxer::patched(
                flac_start(rate, channels, bps, 0) + flac_output(opened, packets) + last_frame(
                    done,
                ),
                muxer::PatchView::TotalSamples { total },
            );
            flac_dec::read_stream_with(file, true) == Some(
                (
                    flac_dec::told_info(4096, 4096, rate, channels, bps, total),
                    flac_dec::ints16(whole_frames(samples, channels)),
                ),
            )
        }),
{
    let channels = format.channels as nat;
    let rate = format.sample_rate as nat;
    let bps = format.bit_depth as nat;
    let samples = all_samples(packets);
    let all = FlacState { buffer: samples, ..flac_opened(state, format) };
    let total = samples.len() / channels;
    let info = flac_dec::told_info(4096, 4096, rate, channels, bps, total);
    lemma_file_layout(state, format, packets);
    flac_dec::headers_tell_the_rate(rate);
    lemma_read_start(rate, channels, bps, total, stream_bytes(all), true);
    lemma_total(samples.len(), channels);
    lemma_read_stream_frames(all, info, Some(rate));
}

/// The bits of a file: marker, block header, stream header, frames.
#[verifier::spinoff_prover]
proof fn lemma_start_bits(rate: nat, channels: nat, bps: nat, total: nat, frames: Seq<u8>)
    ensures
        bits::byte_bits(flac_start(rate, channels, bps, total) + frames) == bits::uint_bits(
            0x664C6143,
            32,
        ) + (bits::uint_bits(0x80000022, 32) + (flac_enc::streaminfo_bits(
            4096,
            4096,
            rate,
            channels,
            bps,
            total,
        ) + bits::byte_bits(frames))),
{
    let file = flac_start(rate, channels, bps, total) + frames;
    let header = flac_enc::streaminfo_bits(4096, 4096, rate, channels, bps, total);
    let a = seq![0x66u8, 0x4cu8, 0x61u8, 0x43u8];
    let b = seq![0x80u8, 0x00u8, 0x00u8, 0x22u8];
    flac_enc::lemma_streaminfo_len(4096, 4096, rate, channels, bps, total);
    bits::lemma_byte_bits_pack(header);
    bits::lemma_byte_bits_four(0x66, 0x4c, 0x61, 0x43);
    bits::lemma_byte_bits_four(0x80, 0x00, 0x00, 0x22);
    let packed = bits::pack_bits(header);
    let tail = packed + frames;
    assert(file =~= a + (b + tail));
    bits::lemma_byte_bits_add(packed, frames);
    bits::lemma_byte_bits_add(b, tail);
    bits::lemma_byte_bits_add(a, b + tail);
}

/// A file is read as its stream header and then its frames.
#[verifier::spinoff_prover]
proof fn lemma_read_start(
    rate: nat,
    channels: nat,
    bps: nat,
    total: nat,
    frames: Seq<u8>,
    strict: bool,
)
    requires
        1 <= channels <= 8,
        1 <= bps <= 32,
    ensures
        flac_dec::read_stream_with(flac_start(rate, channels, bps, total) + frames, strict) == (
        match flac_dec::read_frames(
            bits::byte_bits(frames),
            flac_dec::told_info(4096, 4096, rate, channels, bps, total),
            0,
            if strict {
                Some(rate % 0x100000)
            } else {
                None
            },
        ) {
            None => None,
            Some(samples) => Some((flac_dec::told_info(4096, 4096, rate, channels, bps, total), samples)),
        }),
{
    let header = flac_enc::streaminfo_bits(4096, 4096, rate, channels, bps, total);
    let body = bits::byte_bits(frames);
    reveal(flac_dec::read_stream_with);
    lemma_start_bits(rate, channels, bps, total, frames);
    vstd::arithmetic::power2::lemma2_to64();
    flac_dec::lemma_read_uint(
        0x664C6143,
        32,
        bits::uint_bits(0x80000022, 32) + (header + body),
    );
    flac_dec::lemma_read_uint(0x80000022, 32, header + body);
    flac_dec::streaminfo_is_lossless(4096, 4096, rate, channels, bps, total, body);
}

proof fn lemma_blocks_fit(len: nat, channels: nat)
    requires
        channels >= 1,
    ensures
        0 <= block_count(len, channels) * (4096 * channels) <= len,
{
    let block = 4096 * channels;
    let k = block_count(len, channels);
    lemma_fundamental_div_mod(len as int, block as int);
    lemma_mod_bound(len as int, block as int);
    assert(0 <= k * block <= len) by (nonlinear_arith)
        requires
            len == block * k + len as int % block as int,
            len as int % block as int >= 0,
    ;
}

/// Complete blocks and the last one count all samples per channel.
proof fn lemma_total(len: nat, channels: nat)
    requires
        channels >= 1,
    ensures
        4096 * block_count(len, channels) + ((len - block_count(len, channels) * (4096 * channels))
            as nat) / channels == len / channels,
        block_count(len, channels) <= len / channels / 4096,
{
    let k = block_count(len, channels) as int;
    let c = channels as int;
    lemma_blocks_fit(len, channels);
    let rest = len - k * (4096 * c);
    let q = rest / c;
    lemma_fundamental_div_mod(rest, c);
    lemma_mod_bound(rest, c);
    assert(len == c * (q + 4096 * k) + rest % c) by (nonlinear_arith)
        requires
            rest == len - k * (4096 * c),
            rest == c * q + rest % c,
    ;
    lemma_fundamental_div_mod_converse(len as int, c, q + 4096 * k, rest % c);
    lemma_div_pos_is_pos(rest, c);
}

// ---------------------------------------------------------------------------
// Recordings
// ---------------------------------------------------------------------------
proof fn lemma_wrote_packets(
    muxers: Seq<FlacMuxer>,
    packets: Seq<Seq<u8>>,
    results: Seq<EncodeResult<Vec<u8>>>,
)
    requires
        muxer::wrote_packets(muxers, packets, results),
        muxers[0]@.open,
    ensures
        muxers.last()@ == flac_after(muxers[0]@, packets),
        muxers.last()@.open,
        muxer::joined(muxer::all_result_bytes(results)) == flac_output(muxers[0]@, packets),
        forall|i: int| 0 <= i < results.len() ==> (#[trigger] results[i]) is Ok,
    decreases packets.len(),
{
    if packets.len() > 0 {
        let n = packets.len() - 1;
        let before = muxers.drop_last();
        let head = packets.drop_last();
        let first = results.drop_last();
        assert(muxer::wrote_packets(before, head, first)) by {
            assert forall|i: int| 0 <= i < n implies (#[trigger] before[i]).written(
                head[i],
                before[i + 1],
                first[i],
            ) by {
                assert(muxers[i].written(packets[i], muxers[i + 1], results[i]));
            }
        }
        lemma_wrote_packets(before, head, first);
        assert(muxers[n].written(packets[n], muxers[n + 1], results[n]));
        assert(before.last() == muxers[n]);
        assert(muxer::all_result_bytes(results).drop_last() =~= muxer::all_result_bytes(first));
        assert forall|i: int| 0 <= i < results.len() implies (#[trigger] results[i]) is Ok by {
            if i < n {
                assert(first[i] is Ok);
            }
        }
    }
}

proof fn lemma_samples_of_joined(packets: Seq<Seq<u8>>)
    requires
        forall|i: int| 0 <= i < packets.len() ==> (#[trigger] packets[i]).len() % 2 == 0,
    ensures
        all_samples(packets) == pcm::samples16(muxer::joined(packets)),
        muxer::joined(packets).len() % 2 == 0,
    decreases packets.len(),
{
    if packets.len() == 0 {
        assert(pcm::samples16(muxer::joined(packets)) =~= Seq::empty());
    } else {
        let head = packets.drop_last();
        assert forall|i: int| 0 <= i < head.len() implies (#[trigger] head[i]).len() % 2 == 0 by {
            assert(packets[i].len() % 2 == 0);
        }
        lemma_samples_of_joined(head);
        let a = muxer::joined(head);
        let b = packets.last();
        assert(b.len() % 2 == 0);
        assert(pcm::samples16(a + b) =~= pcm::samples16(a) + pcm::samples16(b)) by {
            assert forall|i: int| 0 <= i < (a + b).len() / 2 implies pcm::samples16(a + b)[i] == (
            pcm::samples16(a) + pcm::samples16(b))[i] by {
                if 2 * i < a.len() {
                    assert((a + b)[2 * i] == a[2 * i] && (a + b)[2 * i + 1] == a[2 * i + 1]);
                } else {
                    let j = i - a.len() as int / 2;
                    assert((a + b)[2 * i] == b[2 * j] && (a + b)[2 * i + 1] == b[2 * j + 1]);
                }
            }
        }
    }
}

/// A recording is lossless: opening, writing packets and finalizing all succeed, and
/// the file that their bytes and patches make decodes to exactly the PCM of all
/// packets, wherever one packet ends and the next begins.
///
/// Each packet holds whole samples, and together they hold whole frames of all
/// channels. Frames are counted in 32 bits.
pub proof fn recording_is_lossless(
    new: FlacMuxer,
    format: PcmFormat,
    bitrate_kbps: u32,
    begin: EncodeResult<Vec<u8>>,
    muxers: Seq<FlacMuxer>,
    packets: Seq<Seq<u8>>,
    results: Seq<EncodeResult<Vec<u8>>>,
    end: FlacMuxer,
    finish: EncodeResult<Finish>,
)
    requires
        1 <= format.channels <= 8,
        16 <= format.bit_depth <= 32,
        muxer::wrote_packets(muxers, packets, results),
        new.opened(format, bitrate_kbps, muxers[0], begin),
        muxers.last().finalized(end, finish),
        forall|i: int| 0 <= i < packets.len() ==> (#[trigger] packets[i]).len() % 2 == 0,
        muxer::joined(packets).len() % (2 * format.channels as nat) == 0,
        block_count(muxer::joined(packets).len() / 2, format.channels as nat) <= u32::MAX,
    ensures
        begin is Ok,
        forall|i: int| 0 <= i < results.len() ==> (#[trigger] results[i]) is Ok,
        finish is Ok,
        ({
            let data = muxer::joined(packets);
            let channels = format.channels as nat;
            let file = muxer::all_patched(
                muxer::result_bytes(begin) + muxer::joined(muxer::all_result_bytes(results)) + finish->Ok_0.append@,
                muxer::patch_views(finish->Ok_0.patches@),
            );
            flac_dec::read_stream(file) == Some(
                (
                    flac_dec::told_info(
                        4096,
                        4096,
                        format.sample_rate as nat,
                        channels,
                        format.bit_depth as nat,
                        data.len() / (2 * channels),
                    ),
                    flac_dec::ints16(pcm::samples16(data)),
                ),
            ) && (rate_fits(format.sample_rate as nat) ==> flac_dec::read_stream_with(file, true)
                == flac_dec::read_stream(file))
        }),
{
    let channels = format.channels as nat;
    let data = muxer::joined(packets);
    let samples = pcm::samples16(data);
    lemma_wrote_packets(muxers, packets, results);
    lemma_samples_of_joined(packets);
    flac_file_is_lossless(new@, format, packets);
    let n = (data.len() / (2 * channels)) as int;
    let c = channels as int;
    lemma_fundamental_div_mod(data.len() as int, 2 * c);
    assert(data.len() == (2 * c) * n);
    assert((2 * c) * n == 2 * (n * c)) by (nonlinear_arith);
    assert(n * c == c * n) by (nonlinear_arith);
    lemma_fundamental_div_mod_converse(samples.len() as int, c, n, 0);
    assert(whole_frames(samples, channels) =~= samples);
    let finished = finish->Ok_0;
    let patches = muxer::patch_views(finished.patches@);
    let raw = muxer::result_bytes(begin) + muxer::joined(muxer::all_result_bytes(results)) + finished.append@;
    assert(patches.drop_last() =~= Seq::empty());
    assert(muxer::all_patched(raw, patches.drop_last()) == raw);
    assert(muxer::all_patched(raw, patches) == muxer::patched(raw, patches.last()));
    if rate_fits(format.sample_rate as nat) {
        flac_frames_tell_the_rate(new@, format, packets);
    }
}

/// Whether a decoder found a stream of this format whose samples are the numbers that the
/// bytes spell, two by two, low byte first.
pub open spec fn decodes_to(
    info: flac_dec::StreamInfo,
    samples: Seq<int>,
    format: PcmFormat,
    data: Seq<u8>,
) -> bool {
    &&& info.channels == format.channels
    &&& info.bps == format.bit_depth
    &&& format.sample_rate < 0x100000 ==> info.rate == format.sample_rate
    &&& data.len() < 0x10_0000_0000 ==> info.total * (2 * format.channels) == data.len()
    &&& info.min_block == 4096
    &&& info.max_block == 4096
    &&& info.min_frame == 0
    &&& info.max_frame == 0
    &&& info.signature == 0
    &&& 2 * samples.len() == data.len()
    &&& forall|i: int|
        0 <= i < samples.len() ==> -32768 <= #[trigger] samples[i] <= 32767 && (samples[i] - data[2
            * i] - 256 * data[2 * i + 1]) % 65536 == 0
}

proof fn lemma_decodes_to(format: PcmFormat, data: Seq<u8>)
    requires
        1 <= format.channels,
        data.len() % 2 == 0,
        data.len() % (2 * format.channels as nat) == 0,
    ensures
        decodes_to(
            flac_dec::told_info(
                4096,
                4096,
                format.sample_rate as nat,
                format.channels as nat,
                format.bit_depth as nat,
                data.len() / (2 * format.channels as nat),
            ),
            flac_dec::ints16(pcm::samples16(data)),
            format,
            data,
        ),
{
    let c = format.channels as int;
    let n = data.len() as int / (2 * c);
    lemma_fundamental_div_mod(data.len() as int, 2 * c);
    lemma_div_pos_is_pos(data.len() as int, 2 * c);
    assert(n * (2 * c) == (2 * c) * n) by (nonlinear_arith);
    assert(n <= data.len()) by (nonlinear_arith)
        requires
            data.len() == (2 * c) * n,
            c >= 1,
            n >= 0,
    ;
    let ints = flac_dec::ints16(pcm::samples16(data));
    assert forall|i: int| 0 <= i < ints.len() implies -32768 <= #[trigger] ints[i] <= 32767 && (
    ints[i] - data[2 * i] - 256 * data[2 * i + 1]) % 65536 == 0 by {
        pcm::each_sample_has_its_bytes(data, i);
    }
}

/// The same, told by what the decoder finds: the channels, the sample size and the rate of
/// the format, as many frames as the packets hold, and each sample the two bytes that the
/// packets hold at its place. Blocks are of 4096 samples; frame sizes and signature are
/// left open.
pub proof fn recording_decodes_to_its_bytes(
    new: FlacMuxer,
    format: PcmFormat,
    bitrate_kbps: u32,
    begin: EncodeResult<Vec<u8>>,
    muxers: Seq<FlacMuxer>,
    packets: Seq<Seq<u8>>,
    results: Seq<EncodeResult<Vec<u8>>>,
    end: FlacMuxer,
    finish: EncodeResult<Finish>,
)
    requires
        1 <= format.channels <= 8,
        16 <= format.bit_depth <= 32,
        muxer::wrote_packets(muxers, packets, results),
        new.opened(format, bitrate_kbps, muxers[0], begin),
        muxers.last().finalized(end, finish),
        forall|i: int| 0 <= i < packets.len() ==> (#[trigger] packets[i]).len() % 2 == 0,
        muxer::joined(packets).len() % (2 * format.channels as nat) == 0,
        block_count(muxer::joined(packets).len() / 2, format.channels as nat) <= u32::MAX,
    ensures
        ({
            let data = muxer::joined(packets);
            let file = muxer::all_patched(
                muxer::result_bytes(begin) + muxer::joined(muxer::all_result_bytes(results)) + finish->Ok_0.append@,
                muxer::patch_views(finish->Ok_0.patches@),
            );
            &&& flac_dec::read_stream(file) matches Some((info, samples)) && decodes_to(
                info,
                samples,
                format,
                data,
            )
            &&& format.sample_rate <= 65535 || (format.sample_rate % 10 == 0 && format.sample_rate
                <= 655350) ==> flac_dec::read_stream_with(file, true) == flac_dec::read_stream(file)
        }),
{
    recording_is_lossless(
        new,
        format,
        bitrate_kbps,
        begin,
        muxers,
        packets,
        results,
        end,
        finish,
    );
    lemma_samples_of_joined(packets);
    lemma_decodes_to(format, muxer::joined(packets));
}

} // verus!
