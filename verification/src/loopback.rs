//! Capture of what a render endpoint plays: conversion of its mix to 16-bit PCM.
use crate::error::{AudioError, AudioResult};
use crate::ieee;
use crate::ieee::scale_clamped;
use crate::pcm;
use crate::pcm::{push_sample, sample_of};
use crate::text::owned;
use crate::types::{PcmFormat, PcmFrame};
use vstd::arithmetic::div_mod::*;
use vstd::prelude::*;

verus! {

/// Synthetic device index that means "System Audio (Loopback)".
pub const LOOPBACK_DEVICE_INDEX: u32 = 0xFFFF_FFFF;

pub const LOOPBACK_DEVICE_NAME: &'static str = "System Audio (Loopback)";

/// The render mix format, reduced to what conversion needs.
#[derive(Debug, Clone, Copy)]
pub struct MixInfo {
    pub sample_rate: u32,
    pub channels: u16,
    pub bits: u16,
    pub is_float: bool,
}

impl MixInfo {
    /// The pipeline-facing format: 16-bit PCM at the mix rate, requested channels.
    pub fn to_pcm_format(&self, requested_channels: u16) -> (r: PcmFormat)
        ensures
            r == (PcmFormat {
                sample_rate: self.sample_rate,
                channels: requested_channels,
                bit_depth: 16,
            }),
    {
        PcmFormat { sample_rate: self.sample_rate, channels: requested_channels, bit_depth: 16 }
    }

    /// The mix that a wave format describes: samples are floating point where its
    /// tag says so, or where it is an extensible one with that sub-format.
    pub fn of_wave_format(
        format_tag: u16,
        channels: u16,
        sample_rate: u32,
        bits: u16,
        sub_format_is_float: bool,
    ) -> (r: MixInfo)
        ensures
            r == (MixInfo {
                sample_rate,
                channels,
                bits,
                is_float: format_tag == 3 || (format_tag == 0xFFFE && sub_format_is_float),
            }),
    {
        MixInfo {
            sample_rate,
            channels,
            bits,
            is_float: format_tag == 3 || (format_tag == 0xFFFE && sub_format_is_float),
        }
    }

    /// Channels of the mix, at least one.
    pub open spec fn source_channels(&self) -> nat {
        if self.channels == 0 {
            1
        } else {
            self.channels as nat
        }
    }

    /// Bytes of one sample, at least one.
    pub open spec fn sample_size(&self) -> nat {
        if self.bits < 8 {
            1
        } else {
            (self.bits / 8) as nat
        }
    }

    /// Bytes of one sample of every channel.
    pub open spec fn stride(&self) -> nat {
        self.source_channels() * self.sample_size()
    }
}

/// Which channel of the mix goes to channel `d`: the same one, or, where more
/// are wanted than there are, they repeat.
pub open spec fn mapped_channel(source: nat, wanted: nat, d: nat) -> nat {
    if wanted > source {
        d % source
    } else {
        d
    }
}

/// A sample of the mix as 16 bits: a single is kept within full scale and scaled,
/// 16-bit integers are kept, 32-bit integers lose their low half, and any other
/// kind is silence.
pub open spec fn mix_sample(bytes: Seq<u8>, info: MixInfo, frame: nat, channel: nat) -> i16 {
    let at = ((frame * info.source_channels() + channel) * info.sample_size()) as int;
    if info.is_float && info.bits == 32 {
        ieee::clamped_scaled(
            (bytes[at] + 256 * bytes[at + 1] + 0x1_0000 * bytes[at + 2] + 0x100_0000 * bytes[at
                + 3]) as u32,
        ) as i16
    } else if info.bits == 16 {
        pcm::sample16(bytes[at], bytes[at + 1])
    } else if info.bits == 32 {
        pcm::sample16(bytes[at + 2], bytes[at + 3])
    } else {
        0
    }
}

/// At least one channel is wanted.
pub open spec fn wanted_channels(dst_channels: u16) -> nat {
    if dst_channels == 0 {
        1
    } else {
        dst_channels as nat
    }
}

/// The whole mix as interleaved samples of the wanted channels; what does not
/// complete a frame is dropped.
pub open spec fn mix_samples(bytes: Seq<u8>, info: MixInfo, dst_channels: u16) -> Seq<i16> {
    let wanted = wanted_channels(dst_channels);
    Seq::new(
        (bytes.len() / info.stride()) * wanted,
        |i: int|
            mix_sample(
                bytes,
                info,
                (i / wanted as int) as nat,
                mapped_channel(info.source_channels(), wanted, (i % wanted as int) as nat),
            ),
    )
}

proof fn lemma_sample_in_range(len: nat, info: MixInfo, frame: nat, channel: nat)
    requires
        frame < len / info.stride(),
        channel < info.source_channels(),
    ensures
        0 <= (frame * info.source_channels() + channel) * info.sample_size(),
        (frame * info.source_channels() + channel) * info.sample_size() + info.sample_size() <= len,
        frame * info.source_channels() + channel <= len,
{
    let c = info.source_channels() as int;
    let s = info.sample_size() as int;
    let stride = info.stride() as int;
    assert(stride >= 1) by (nonlinear_arith)
        requires
            c >= 1,
            s >= 1,
            stride == c * s,
    ;
    let n = len as int / stride;
    lemma_fundamental_div_mod(len as int, stride);
    lemma_mod_bound(len as int, stride);
    assert(stride * n <= len);
    assert((frame * c + channel) * s + s <= n * c * s) by (nonlinear_arith)
        requires
            frame < n,
            channel < c,
            s >= 1,
            c >= 1,
    ;
    assert(n * c * s == stride * n) by (nonlinear_arith)
        requires
            stride == c * s,
    ;
    assert(frame * c + channel <= (frame * c + channel) * s) by (nonlinear_arith)
        requires
            s >= 1,
            frame >= 0,
            channel >= 0,
            c >= 1,
    ;
}

fn mix_sample_of(bytes: &[u8], info: MixInfo, frame: usize, channel: usize) -> (s: i16)
    requires
        frame < bytes.len() as nat / info.stride(),
        channel < info.source_channels(),
    ensures
        s == mix_sample(bytes@, info, frame as nat, channel as nat),
{
    let source: usize = if info.channels == 0 {
        1
    } else {
        info.channels as usize
    };
    let size: usize = if info.bits < 8 {
        1
    } else {
        (info.bits / 8) as usize
    };
    proof {
        lemma_sample_in_range(bytes.len() as nat, info, frame as nat, channel as nat);
        assert(0 <= frame * source) by (nonlinear_arith);
    }
    let at: usize = (frame * source + channel) * size;
    if info.is_float && info.bits == 32 {
        scale_clamped(
            bytes[at] as u32 + 256 * (bytes[at + 1] as u32) + 0x1_0000 * (bytes[at + 2] as u32)
                + 0x100_0000 * (bytes[at + 3] as u32),
        )
    } else if info.bits == 16 {
        sample_of(bytes[at], bytes[at + 1])
    } else if info.bits == 32 {
        sample_of(bytes[at + 2], bytes[at + 3])
    } else {
        0
    }
}

/// Convert an interleaved render-mix buffer to interleaved 16-bit PCM, mapping
/// the mix's channel count to `dst_channels`; see [`mix_samples`].
pub fn mix_to_i16(bytes: &[u8], info: MixInfo, dst_channels: u16) -> (out: Vec<u8>)
    ensures
        out@ == pcm::bytes16(mix_samples(bytes@, info, dst_channels)),
{
    let source: usize = if info.channels == 0 {
        1
    } else {
        info.channels as usize
    };
    let wanted: usize = if dst_channels == 0 {
        1
    } else {
        dst_channels as usize
    };
    let size: usize = if info.bits < 8 {
        1
    } else {
        (info.bits / 8) as usize
    };
    proof {
        assert(1 <= source * size <= 65535 * 8191) by (nonlinear_arith)
            requires
                1 <= source <= 65535,
                1 <= size <= 8191,
        ;
    }
    let stride: usize = source * size;
    let frames: usize = bytes.len() / stride;
    let ghost all = mix_samples(bytes@, info, dst_channels);
    let mut out: Vec<u8> = Vec::new();
    let mut f: usize = 0;
    assert(all.take(0) =~= Seq::empty());
    assert(0 * wanted == 0) by (nonlinear_arith);
    while f < frames
        invariant
            f <= frames,
            frames == bytes.len() as nat / info.stride(),
            source == info.source_channels(),
            wanted == wanted_channels(dst_channels),
            all == mix_samples(bytes@, info, dst_channels),
            out@ == pcm::bytes16(all.take(f * wanted)),
        decreases frames - f,
    {
        proof {
            assert((f + 1) * wanted == f * wanted + wanted) by (nonlinear_arith);
            assert(0 <= f * wanted) by (nonlinear_arith);
            assert((f + 1) * wanted <= frames * wanted) by (nonlinear_arith)
                requires
                    f + 1 <= frames,
            ;
        }
        let mut d: usize = 0;
        while d < wanted
            invariant
                d <= wanted,
                f < frames,
                frames == bytes.len() as nat / info.stride(),
                source == info.source_channels(),
                source >= 1,
                wanted == wanted_channels(dst_channels),
                all == mix_samples(bytes@, info, dst_channels),
                0 <= f * wanted,
                f * wanted + wanted <= all.len(),
                out@ == pcm::bytes16(all.take(f * wanted + d)),
            decreases wanted - d,
        {
            let channel: usize = if wanted > source {
                d % source
            } else {
                d
            };
            let s: i16 = mix_sample_of(bytes, info, f, channel);
            push_sample(&mut out, s);
            proof {
                let i = f * wanted + d;
                lemma_fundamental_div_mod_converse(i, wanted as int, f as int, d as int);
                assert(all[i] == s);
                assert(all.take(i + 1).drop_last() =~= all.take(i));
            }
            d = d + 1;
        }
        f = f + 1;
    }
    assert(all.take(frames * wanted) =~= all);
    out
}

/// A captured packet: zeros where it was flagged silent, else the converted mix.
pub fn loopback_packet(
    mix: MixInfo,
    requested_channels: u16,
    num_frames: u32,
    data: Option<&[u8]>,
    now_ms: u64,
    sequence: u64,
) -> (frame: PcmFrame)
    requires
        2 * num_frames * requested_channels <= usize::MAX,
    ensures
        frame.data@ == match data {
            Some(bytes) => pcm::bytes16(mix_samples(bytes@, mix, requested_channels)),
            None => Seq::new((2 * num_frames * requested_channels) as nat, |i: int| 0u8),
        },
        frame.format == (PcmFormat {
            sample_rate: mix.sample_rate,
            channels: requested_channels,
            bit_depth: 16,
        }),
        frame.timestamp_us == now_ms,
        frame.sequence == sequence,
        frame.frame_count == num_frames,
{
    let bytes: Vec<u8> = match data {
        Some(bytes) => mix_to_i16(bytes, mix, requested_channels),
        None => {
            proof {
                assert(num_frames * requested_channels <= 0xFFFF_FFFF * 0xFFFF) by (nonlinear_arith)
                    requires
                        num_frames <= 0xFFFF_FFFF,
                        requested_channels <= 0xFFFF,
                ;
                assert(0 <= num_frames * requested_channels) by (nonlinear_arith);
                assert(2 * num_frames * requested_channels == 2 * (num_frames
                    * requested_channels)) by (nonlinear_arith);
            }
            let n: u64 = num_frames as u64 * requested_channels as u64;
            let zeros: Vec<u8> = vec![0;(2 * n) as usize];
            assert(zeros@ =~= Seq::new(
                (2 * num_frames * requested_channels) as nat,
                |i: int| 0u8,
            ));
            zeros
        },
    };
    PcmFrame {
        data: bytes,
        format: mix.to_pcm_format(requested_channels),
        timestamp_us: now_ms,
        sequence,
        frame_count: num_frames,
    }
}

/// Loopback capture is refused where there is no render endpoint to tap.
pub fn spawn_loopback_capture(requested: PcmFormat) -> (r: AudioResult<PcmFormat>)
    ensures
        r matches Err(AudioError::UnsupportedFormat(m)) && m@
            == "WASAPI loopback is Windows-only (Linux uses a PipeWire/PulseAudio monitor backend)"@,
{
    Err(
        AudioError::UnsupportedFormat(
            owned(
                "WASAPI loopback is Windows-only (Linux uses a PipeWire/PulseAudio monitor backend)",
            ),
        ),
    )
}

// ---------------------------------------------------------------------------
// Laws
// ---------------------------------------------------------------------------
proof fn lemma_stride(info: MixInfo)
    ensures
        info.stride() >= 1,
{
    let c = info.source_channels() as int;
    let s = info.sample_size() as int;
    assert(c * s >= 1) by (nonlinear_arith)
        requires
            c >= 1,
            s >= 1,
    ;
}

/// Every whole frame of the mix gives one sample for each wanted channel; bytes that
/// complete no frame give none. No channels at all count as one, wanted or there.
pub proof fn every_frame_is_converted(bytes: Seq<u8>, info: MixInfo, dst_channels: u16)
    requires
        info.channels >= 1,
        info.bits >= 8,
        dst_channels >= 1,
    ensures
        mix_samples(bytes, info, dst_channels).len() == (bytes.len() as int / (info.channels * (
        info.bits as int / 8))) * dst_channels,
        mix_samples(bytes, info, 0) == mix_samples(bytes, info, 1),
        mix_samples(bytes, MixInfo { channels: 0, ..info }, dst_channels) == mix_samples(
            bytes,
            MixInfo { channels: 1, ..info },
            dst_channels,
        ),
{
    lemma_stride(info);
    assert(info.stride() == info.channels * (info.bits as int / 8));
    let n = (bytes.len() / info.stride()) as int;
    assert(n * dst_channels >= 0) by (nonlinear_arith)
        requires
            n >= 0,
            dst_channels >= 1,
    ;
    assert(mix_samples(bytes, info, 0) =~= mix_samples(bytes, info, 1));
    let none = MixInfo { channels: 0, ..info };
    let one = MixInfo { channels: 1, ..info };
    assert(none.stride() == one.stride());
    assert(mix_samples(bytes, none, dst_channels) =~= mix_samples(bytes, one, dst_channels));
}

/// The sample for channel `d` of frame `f` comes from frame `f` of the mix: from its
/// channel `d`, or, where more channels are wanted than there are, from channel `d`
/// counted round. 16-bit samples keep their value, 32-bit integers lose their low
/// half, singles are kept within full scale and scaled, other kinds are silence.
pub proof fn each_sample_keeps_its_place(
    bytes: Seq<u8>,
    info: MixInfo,
    dst_channels: u16,
    f: int,
    d: int,
    c: int,
)
    requires
        info.channels >= 1,
        info.bits >= 8,
        dst_channels >= 1,
        0 <= f < bytes.len() as int / (info.channels * (info.bits as int / 8)),
        0 <= d < dst_channels,
        0 <= c < info.channels,
        dst_channels <= info.channels ==> c == d,
        dst_channels > info.channels ==> exists|k: int| d == #[trigger] (k * info.channels) + c,
    ensures
        0 <= f * dst_channels + d < mix_samples(bytes, info, dst_channels).len(),
        ({
            let size = info.bits as int / 8;
            let at = (f * info.channels + c) * size;
            let s = mix_samples(bytes, info, dst_channels)[f * dst_channels + d];
            &&& 0 <= at
            &&& at + size <= bytes.len()
            &&& info.bits == 16 ==> (s - bytes[at] - 256 * bytes[at + 1]) % 65536 == 0
            &&& info.bits == 32 && !info.is_float ==> (s - bytes[at + 2] - 256 * bytes[at + 3])
                % 65536 == 0
            &&& info.bits == 32 && info.is_float ==> s == ieee::clamped_scaled(
                (bytes[at] + 256 * bytes[at + 1] + 0x1_0000 * bytes[at + 2] + 0x100_0000 * bytes[at
                    + 3]) as u32,
            )
            &&& info.bits != 16 && info.bits != 32 ==> s == 0
        }),
{
    let w = dst_channels as int;
    let size = info.bits as int / 8;
    let n = bytes.len() as int / (info.channels * size);
    lemma_stride(info);
    assert(info.stride() == info.channels * size);
    let i = f * w + d;
    assert(0 <= i < n * w) by (nonlinear_arith)
        requires
            0 <= f < n,
            0 <= d < w,
            i == f * w + d,
    ;
    lemma_fundamental_div_mod_converse(i, w, f, d);
    lemma_sample_in_range(bytes.len(), info, f as nat, c as nat);
    if dst_channels > info.channels {
        let k = choose|k: int| d == #[trigger] (k * info.channels) + c;
        lemma_fundamental_div_mod_converse(d, info.channels as int, k, c);
    }
    let at = (f * info.channels + c) * size;
    assert(mix_samples(bytes, info, dst_channels)[i] == mix_sample(
        bytes,
        info,
        f as nat,
        c as nat,
    ));
    if info.bits == 16 {
        pcm::samples_are_little_endian(bytes[at], bytes[at + 1]);
    } else if info.bits == 32 {
        pcm::samples_are_little_endian(bytes[at + 2], bytes[at + 3]);
        if info.is_float {
            ieee::clamped_stays_symmetric(
                (bytes[at] + 256 * bytes[at + 1] + 0x1_0000 * bytes[at + 2] + 0x100_0000 * bytes[at
                    + 3]) as u32,
            );
        }
    }
}

/// A mix of 16-bit samples with just the wanted channels stays as it is, byte for
/// byte, up to its last whole frame.
pub proof fn sixteen_bit_mix_passes_through(bytes: Seq<u8>, info: MixInfo, dst_channels: u16)
    requires
        info.bits == 16,
        info.channels == dst_channels,
        dst_channels >= 1,
    ensures
        ({
            let stride = 2 * dst_channels;
            pcm::bytes16(mix_samples(bytes, info, dst_channels)) == bytes.take(
                bytes.len() as int / stride * stride,
            )
        }),
{
    let w = dst_channels as int;
    let stride = 2 * w;
    let n = bytes.len() as int / stride;
    let whole = n * stride;
    lemma_stride(info);
    assert(info.sample_size() == 2);
    assert(info.source_channels() == w);
    assert(info.stride() == stride) by (nonlinear_arith)
        requires
            info.stride() == info.source_channels() * info.sample_size(),
            info.source_channels() == w,
            info.sample_size() == 2,
            stride == 2 * w,
    ;
    lemma_fundamental_div_mod(bytes.len() as int, stride);
    lemma_mod_bound(bytes.len() as int, stride);
    assert(0 <= whole <= bytes.len() && whole == 2 * (n * w) && 0 <= n * w) by (nonlinear_arith)
        requires
            bytes.len() == stride * n + bytes.len() as int % stride,
            0 <= bytes.len() as int % stride,
            whole == n * stride,
            stride == 2 * w,
            n >= 0,
            w >= 1,
    ;
    let kept = bytes.take(whole);
    let all = mix_samples(bytes, info, dst_channels);
    assert(all.len() == n * w);
    assert forall|i: int| 0 <= i < all.len() implies all[i] == pcm::samples16(kept)[i] by {
        lemma_fundamental_div_mod(i, w);
        lemma_mod_bound(i, w);
        lemma_div_pos_is_pos(i, w);
        assert(i / w * w == w * (i / w)) by (nonlinear_arith);
        assert((i / w * w + i % w) * 2 == 2 * i);
    }
    assert(all =~= pcm::samples16(kept));
    pcm::bytes_of_samples(kept);
}

/// Conversion goes frame by frame: what is converted in two parts, the first of whole
/// frames, is what the whole is converted to.
pub proof fn parts_convert_as_the_whole(
    a: Seq<u8>,
    b: Seq<u8>,
    info: MixInfo,
    dst_channels: u16,
)
    requires
        a.len() % info.stride() == 0,
    ensures
        mix_samples(a + b, info, dst_channels) == mix_samples(a, info, dst_channels) + mix_samples(
            b,
            info,
            dst_channels,
        ),
        pcm::bytes16(mix_samples(a + b, info, dst_channels)) == pcm::bytes16(
            mix_samples(a, info, dst_channels),
        ) + pcm::bytes16(mix_samples(b, info, dst_channels)),
{
    let w = wanted_channels(dst_channels) as int;
    let stride = info.stride() as int;
    let source = info.source_channels() as int;
    let size = info.sample_size() as int;
    lemma_stride(info);
    let ka = a.len() as int / stride;
    let kb = b.len() as int / stride;
    lemma_fundamental_div_mod(a.len() as int, stride);
    lemma_fundamental_div_mod(b.len() as int, stride);
    lemma_mod_bound(b.len() as int, stride);
    assert(stride * ka + stride * kb == (ka + kb) * stride) by (nonlinear_arith);
    lemma_fundamental_div_mod_converse(
        (a + b).len() as int,
        stride,
        ka + kb,
        b.len() as int % stride,
    );
    let whole = mix_samples(a + b, info, dst_channels);
    let first = mix_samples(a, info, dst_channels);
    let second = mix_samples(b, info, dst_channels);
    assert((ka + kb) * w == ka * w + kb * w && 0 <= ka * w && 0 <= kb * w) by (nonlinear_arith)
        requires
            ka >= 0,
            kb >= 0,
            w >= 1,
    ;
    assert forall|i: int| 0 <= i < whole.len() implies whole[i] == (first + second)[i] by {
        lemma_fundamental_div_mod(i, w);
        lemma_mod_bound(i, w);
        let d = i % w;
        let c = mapped_channel(source as nat, w as nat, d as nat);
        assert(c < source) by {
            if w > source {
                lemma_mod_bound(d, source);
            }
        }
        if i < ka * w {
            let f = i / w;
            lemma_div_pos_is_pos(i, w);
            assert(f < ka) by (nonlinear_arith)
                requires
                    i < ka * w,
                    i == w * f + d,
                    d >= 0,
                    w >= 1,
            ;
            lemma_sample_in_range(a.len(), info, f as nat, c);
        } else {
            let j = i - ka * w;
            let f = j / w;
            lemma_fundamental_div_mod(j, w);
            lemma_mod_bound(j, w);
            lemma_div_pos_is_pos(j, w);
            assert(i == (ka + f) * w + j % w) by (nonlinear_arith)
                requires
                    j == i - ka * w,
                    j == w * f + j % w,
            ;
            lemma_fundamental_div_mod_converse(i, w, ka + f, j % w);
            assert(f < kb) by (nonlinear_arith)
                requires
                    j < kb * w,
                    j == w * f + j % w,
                    j % w >= 0,
                    w >= 1,
            ;
            lemma_sample_in_range(b.len(), info, f as nat, c);
            assert(((ka + f) * source + c) * size == a.len() + (f * source + c) * size)
                by (nonlinear_arith)
                requires
                    a.len() == stride * ka,
                    stride == source * size,
            ;
        }
    }
    assert(whole =~= first + second);
    pcm::bytes_of_joined_samples(first, second);
}

/// A packet that was flagged silent is as long as it says and holds nothing but zeros;
/// every packet bears the rate of the mix, the requested channels, 16 bits, its time and
/// its number.
pub proof fn silent_packets_are_silent(
    mix: MixInfo,
    requested_channels: u16,
    num_frames: u32,
    now_ms: u64,
    sequence: u64,
    frame: PcmFrame,
    i: int,
)
    requires
        2 * num_frames * requested_channels <= usize::MAX,
        call_ensures(
            loopback_packet,
            (mix, requested_channels, num_frames, None, now_ms, sequence),
            frame,
        ),
        0 <= i < frame.data.len(),
    ensures
        frame.data@[i] == 0,
        frame.data.len() == num_frames * requested_channels * 2,
        frame.format.sample_rate == mix.sample_rate,
        frame.format.channels == requested_channels,
        frame.format.bit_depth == 16,
        frame.timestamp_us == now_ms,
        frame.sequence == sequence,
        frame.frame_count == num_frames,
{
    assert(2 * num_frames * requested_channels == num_frames * requested_channels * 2 && 0
        <= num_frames * requested_channels) by (nonlinear_arith);
}

/// A wave format is one of singles exactly where its tag is that of singles, or where it
/// is an extensible one whose sub-format says so; all else is kept.
pub proof fn float_formats_are_known(
    tag: u16,
    channels: u16,
    rate: u32,
    bits: u16,
    sub: bool,
    r: MixInfo,
)
    requires
        call_ensures(MixInfo::of_wave_format, (tag, channels, rate, bits, sub), r),
    ensures
        tag == 3 ==> r.is_float,
        tag == 0xFFFE ==> r.is_float == sub,
        tag != 3 && tag != 0xFFFE ==> !r.is_float,
        r.channels == channels,
        r.sample_rate == rate,
        r.bits == bits,
{
}

/// A packet of a 16-bit mix with just the requested channels carries the mix as it is, up to
/// its last whole frame.
pub proof fn packets_carry_the_mix(
    mix: MixInfo,
    requested_channels: u16,
    num_frames: u32,
    bytes: &[u8],
    now_ms: u64,
    sequence: u64,
    frame: PcmFrame,
    converted: Vec<u8>,
)
    requires
        2 * num_frames * requested_channels <= usize::MAX,
        mix.bits == 16,
        mix.channels == requested_channels,
        requested_channels >= 1,
        call_ensures(
            loopback_packet,
            (mix, requested_channels, num_frames, Some(bytes), now_ms, sequence),
            frame,
        ),
        call_ensures(mix_to_i16, (bytes, mix, requested_channels), converted),
    ensures
        frame.data@ == bytes@.take(
            bytes@.len() as int / (2 * requested_channels) * (2 * requested_channels),
        ),
        converted@ == frame.data@,
        frame.format.sample_rate == mix.sample_rate,
        frame.format.channels == requested_channels,
        frame.sequence == sequence,
{
    sixteen_bit_mix_passes_through(bytes@, mix, requested_channels);
}

} // verus!
