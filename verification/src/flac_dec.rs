//! How a reader decodes the FLAC streams of this crate, and the proof that
//! decoding gives back what was encoded.
//!
//! A reader takes a bit string and returns a value with the bits that follow,
//! or `None` where the string is not what it expects. The readers cover the part
//! of FLAC that the encoder writes: constant subframes and fixed prediction of
//! order one, with one residual partition.
use crate::bits;
use crate::crc;
use crate::flac_enc;
use vstd::arithmetic::power2::*;
use vstd::prelude::*;

verus! {

// ---------------------------------------------------------------------------
// Numbers
// ---------------------------------------------------------------------------
/// Reads an unsigned number of `n` bits.
pub open spec fn read_uint(s: Seq<bool>, n: nat) -> Option<(nat, Seq<bool>)> {
    if s.len() < n {
        None
    } else {
        Some((bits::bits_uint(s.take(n as int)), s.skip(n as int)))
    }
}

/// Reads an unsigned number of `n` bits that must be `v`.
pub open spec fn expect_uint(s: Seq<bool>, n: nat, v: nat) -> Option<Seq<bool>> {
    match read_uint(s, n) {
        None => None,
        Some((u, rest)) => if u == v {
            Some(rest)
        } else {
            None
        },
    }
}

/// Reads a two's complement number of `n` bits.
pub open spec fn read_sint(s: Seq<bool>, n: nat) -> Option<(int, Seq<bool>)> {
    match read_uint(s, n) {
        None => None,
        Some((u, rest)) => Some(
            (
                if 2 * u >= pow2(n) && n > 0 {
                    u - pow2(n)
                } else {
                    u as int
                },
                rest,
            ),
        ),
    }
}

/// Reads a number of zero bits that a one bit ends.
pub open spec fn read_unary(s: Seq<bool>) -> Option<(nat, Seq<bool>)>
    decreases s.len(),
{
    if s.len() == 0 {
        None
    } else if s[0] {
        Some((0, s.skip(1)))
    } else {
        match read_unary(s.skip(1)) {
            None => None,
            Some((q, rest)) => Some((q + 1, rest)),
        }
    }
}

/// The inverse of [`flac_enc::fold`].
pub open spec fn unfold(f: nat) -> int {
    if f % 2 == 0 {
        f as int / 2
    } else {
        -((f as int + 1) / 2)
    }
}

/// Reads one residual in Rice code.
pub open spec fn read_rice(s: Seq<bool>, k: nat) -> Option<(int, Seq<bool>)> {
    match read_unary(s) {
        None => None,
        Some((q, tail)) => match read_uint(tail, k) {
            None => None,
            Some((r, rest)) => Some((unfold(q * pow2(k) + r), rest)),
        },
    }
}

/// Reads `n` residuals in Rice code.
pub open spec fn read_rices(s: Seq<bool>, n: nat, k: nat) -> Option<(Seq<int>, Seq<bool>)>
    decreases n,
{
    if n == 0 {
        Some((Seq::empty(), s))
    } else {
        match read_rices(s, (n - 1) as nat, k) {
            None => None,
            Some((head, tail)) => match read_rice(tail, k) {
                None => None,
                Some((r, rest)) => Some((head.push(r), rest)),
            },
        }
    }
}

/// Reads `n` residuals of `width` bits each.
pub open spec fn read_raws(s: Seq<bool>, n: nat, width: nat) -> Option<(Seq<int>, Seq<bool>)>
    decreases n,
{
    if n == 0 {
        Some((Seq::empty(), s))
    } else {
        match read_raws(s, (n - 1) as nat, width) {
            None => None,
            Some((head, tail)) => match read_sint(tail, width) {
                None => None,
                Some((r, rest)) => Some((head.push(r), rest)),
            },
        }
    }
}

/// Reads a residual section that holds `n` residuals in one partition.
pub open spec fn read_residuals(s: Seq<bool>, n: nat) -> Option<(Seq<int>, Seq<bool>)> {
    match expect_uint(s, 6, 0) {
        None => None,
        Some(partition) => match read_uint(partition, 4) {
            None => None,
            Some((k, body)) => if k < 15 {
                read_rices(body, n, k)
            } else {
                match read_uint(body, 5) {
                    None => None,
                    Some((width, raws)) => read_raws(raws, n, width),
                }
            },
        },
    }
}

/// Sums up differences to samples.
pub open spec fn integrate(first: int, differences: Seq<int>) -> Seq<int>
    decreases differences.len(),
{
    if differences.len() == 0 {
        seq![first]
    } else {
        let head = integrate(first, differences.drop_last());
        head.push(head.last() + differences.last())
    }
}

/// Reads one channel of a frame of `n` samples.
pub open spec fn read_subframe(s: Seq<bool>, n: nat, bps: nat) -> Option<(Seq<int>, Seq<bool>)> {
    match read_uint(s, 8) {
        None => None,
        Some((kind, body)) => match read_sint(body, bps) {
            None => None,
            Some((first, tail)) => if kind == 0 {
                Some((Seq::new(n, |i: int| first), tail))
            } else if kind == 18 && n > 0 {
                match read_residuals(tail, (n - 1) as nat) {
                    None => None,
                    Some((differences, rest)) => Some((integrate(first, differences), rest)),
                }
            } else {
                None
            },
        },
    }
}

/// Reads `c` channels, one after the other.
pub open spec fn read_subframes(s: Seq<bool>, c: nat, n: nat, bps: nat) -> Option<
    (Seq<Seq<int>>, Seq<bool>),
>
    decreases c,
{
    if c == 0 {
        Some((Seq::empty(), s))
    } else {
        match read_subframes(s, (c - 1) as nat, n, bps) {
            None => None,
            Some((head, tail)) => match read_subframe(tail, n, bps) {
                None => None,
                Some((samples, rest)) => Some((head.push(samples), rest)),
            },
        }
    }
}

// ---------------------------------------------------------------------------
// Frame header
// ---------------------------------------------------------------------------
/// Reads `n` continuation bytes of a coded number, after `high`.
pub open spec fn read_continuations(s: Seq<bool>, n: nat, high: nat) -> Option<(nat, Seq<bool>)>
    decreases n,
{
    if n == 0 {
        Some((high, s))
    } else {
        match read_uint(s, 8) {
            None => None,
            Some((b, rest)) => if 0x80 <= b < 0xC0 {
                read_continuations(rest, (n - 1) as nat, (64 * high + b - 0x80) as nat)
            } else {
                None
            },
        }
    }
}

/// Reads a frame number: the first byte tells how many bytes follow.
pub open spec fn read_coded_number(s: Seq<bool>) -> Option<(nat, Seq<bool>)> {
    match read_uint(s, 8) {
        None => None,
        Some((b, rest)) => if b < 0x80 {
            Some((b, rest))
        } else if 0xC0 <= b < 0xE0 {
            read_continuations(rest, 1, (b - 0xC0) as nat)
        } else if 0xE0 <= b < 0xF0 {
            read_continuations(rest, 2, (b - 0xE0) as nat)
        } else if 0xF0 <= b < 0xF8 {
            read_continuations(rest, 3, (b - 0xF0) as nat)
        } else if 0xF8 <= b < 0xFC {
            read_continuations(rest, 4, (b - 0xF8) as nat)
        } else if 0xFC <= b < 0xFE {
            read_continuations(rest, 5, (b - 0xFC) as nat)
        } else if b == 0xFE {
            read_continuations(rest, 6, 0)
        } else {
            None
        },
    }
}

/// Reads the block size that belongs to a block size code.
pub open spec fn read_block_size(s: Seq<bool>, code: nat) -> Option<(nat, Seq<bool>)> {
    if code == 0 {
        None
    } else if code == 1 {
        Some((192, s))
    } else if code <= 5 {
        Some((144 * pow2(code), s))
    } else if code == 6 {
        match read_uint(s, 8) {
            None => None,
            Some((v, rest)) => Some((v + 1, rest)),
        }
    } else if code == 7 {
        match read_uint(s, 16) {
            None => None,
            Some((v, rest)) => Some((v + 1, rest)),
        }
    } else {
        Some((pow2(code), s))
    }
}

/// The sample rates that have a code of their own.
pub open spec fn listed_rate(code: nat) -> nat {
    if code == 1 {
        88200
    } else if code == 2 {
        176400
    } else if code == 3 {
        192000
    } else if code == 4 {
        8000
    } else if code == 5 {
        16000
    } else if code == 6 {
        22050
    } else if code == 7 {
        24000
    } else if code == 8 {
        32000
    } else if code == 9 {
        44100
    } else if code == 10 {
        48000
    } else {
        96000
    }
}

/// Reads the sample rate that belongs to a sample rate code; code 0 refers to
/// the rate of the stream.
pub open spec fn read_rate(s: Seq<bool>, code: nat, stream_rate: nat) -> Option<
    (nat, Seq<bool>),
> {
    if code == 0 {
        Some((stream_rate, s))
    } else if code <= 11 {
        Some((listed_rate(code), s))
    } else if code == 12 {
        match read_uint(s, 8) {
            None => None,
            Some((v, rest)) => Some((1000 * v, rest)),
        }
    } else if code == 13 {
        read_uint(s, 16)
    } else if code == 14 {
        match read_uint(s, 16) {
            None => None,
            Some((v, rest)) => Some((10 * v, rest)),
        }
    } else {
        None
    }
}

/// The sample size that a code stands for; code 0 refers to that of the stream.
pub open spec fn sample_size(code: nat, stream_bps: nat) -> Option<nat> {
    if code == 0 {
        Some(stream_bps)
    } else if code == 1 {
        Some(8)
    } else if code == 2 {
        Some(12)
    } else if code == 4 {
        Some(16)
    } else if code == 5 {
        Some(20)
    } else if code == 6 {
        Some(24)
    } else if code == 7 {
        Some(32)
    } else {
        None
    }
}

/// What the first 32 bits of a frame header hold.
pub struct HeaderCodes {
    pub block: nat,
    pub rate: nat,
    pub channels: nat,
    pub bps: nat,
}

/// Reads the sync code and the codes that follow it.
pub open spec fn read_codes(s: Seq<bool>, stream_bps: nat) -> Option<(HeaderCodes, Seq<bool>)> {
    match expect_uint(s, 16, 0xFFF8) {
        None => None,
        Some(s1) => match read_uint(s1, 4) {
            None => None,
            Some((block, s2)) => match read_uint(s2, 4) {
                None => None,
                Some((rate, s3)) => match read_uint(s3, 4) {
                    None => None,
                    Some((assignment, s4)) => match read_uint(s4, 3) {
                        None => None,
                        Some((size, s5)) => match (
                            expect_uint(s5, 1, 0),
                            sample_size(size, stream_bps),
                        ) {
                            (Some(rest), Some(bps)) => if assignment < 8 {
                                Some(
                                    (
                                        HeaderCodes { block, rate, channels: assignment + 1, bps },
                                        rest,
                                    ),
                                )
                            } else {
                                None
                            },
                            _ => None,
                        },
                    },
                },
            },
        },
    }
}

pub struct Header {
    pub number: nat,
    pub block_size: nat,
    pub rate: nat,
    pub channels: nat,
    pub bps: nat,
}

/// Reads a frame header up to its checksum.
pub open spec fn read_header(s: Seq<bool>, stream_rate: nat, stream_bps: nat) -> Option<
    (Header, Seq<bool>),
> {
    match read_codes(s, stream_bps) {
        None => None,
        Some((codes, s1)) => match read_coded_number(s1) {
            None => None,
            Some((number, s2)) => match read_block_size(s2, codes.block) {
                None => None,
                Some((block_size, s3)) => match read_rate(s3, codes.rate, stream_rate) {
                    None => None,
                    Some((rate, rest)) => Some(
                        (
                            Header {
                                number,
                                block_size,
                                rate,
                                channels: codes.channels,
                                bps: codes.bps,
                            },
                            rest,
                        ),
                    ),
                },
            },
        },
    }
}

// ---------------------------------------------------------------------------
// Frames
// ---------------------------------------------------------------------------
/// One sample of each channel after the other, as in a PCM stream.
pub open spec fn interleave(channels: Seq<Seq<int>>, n: nat) -> Seq<int> {
    Seq::new(
        n * channels.len(),
        |i: int| channels[i % channels.len() as int][i / channels.len() as int],
    )
}

/// What a frame tells: its header and its samples, interleaved.
pub struct Frame {
    pub header: Header,
    pub samples: Seq<int>,
}

/// What precedes `rest` in `s`.
pub open spec fn consumed(s: Seq<bool>, rest: Seq<bool>) -> Seq<bool> {
    s.take(s.len() - rest.len())
}

/// Reads a frame and checks both of its checksums.
#[verifier::opaque]
pub open spec fn read_frame(s: Seq<bool>, stream_rate: nat, stream_bps: nat) -> Option<
    (Frame, Seq<bool>),
> {
    match read_header(s, stream_rate, stream_bps) {
        None => None,
        Some((header, s1)) => match read_uint(s1, 8) {
            None => None,
            Some((check, s2)) => if check != crc::crc8_bits(consumed(s, s1)) {
                None
            } else {
                match read_subframes(s2, header.channels, header.block_size, header.bps) {
                    None => None,
                    Some((channels, s3)) => match expect_uint(
                        s3,
                        bits::pad_len(consumed(s, s3).len()),
                        0,
                    ) {
                        None => None,
                        Some(s4) => match read_uint(s4, 16) {
                            None => None,
                            Some((check, rest)) => if check != crc::crc16_bits(consumed(s, s4)) {
                                None
                            } else {
                                Some(
                                    (
                                        Frame {
                                            header,
                                            samples: interleave(channels, header.block_size),
                                        },
                                        rest,
                                    ),
                                )
                            },
                        },
                    },
                }
            },
        },
    }
}

// ---------------------------------------------------------------------------
// Streams
// ---------------------------------------------------------------------------
/// What the STREAMINFO block tells: the smallest and the largest block and frame, the
/// samples, and their signature. Zero for a frame or the signature means that it is not
/// known.
pub struct StreamInfo {
    pub min_block: nat,
    pub max_block: nat,
    pub min_frame: nat,
    pub max_frame: nat,
    pub rate: nat,
    pub channels: nat,
    pub bps: nat,
    pub total: nat,
    pub signature: nat,
}

/// What the first 80 bits of a STREAMINFO block tell.
pub struct BlockSizes {
    pub min_block: nat,
    pub max_block: nat,
    pub min_frame: nat,
    pub max_frame: nat,
}

/// Reads the block and frame sizes of a STREAMINFO block.
pub open spec fn read_sizes(s: Seq<bool>) -> Option<(BlockSizes, Seq<bool>)> {
    match read_uint(s, 16) {
        None => None,
        Some((min_block, s1)) => match read_uint(s1, 16) {
            None => None,
            Some((max_block, s2)) => match read_uint(s2, 24) {
                None => None,
                Some((min_frame, s3)) => match read_uint(s3, 24) {
                    None => None,
                    Some((max_frame, rest)) => Some(
                        (BlockSizes { min_block, max_block, min_frame, max_frame }, rest),
                    ),
                },
            },
        },
    }
}

/// Reads the 272 bits of a STREAMINFO block.
pub open spec fn read_streaminfo(s: Seq<bool>) -> Option<(StreamInfo, Seq<bool>)> {
    match read_sizes(s) {
        None => None,
        Some((sizes, s1)) => match read_uint(s1, 20) {
            None => None,
            Some((rate, s2)) => match read_uint(s2, 3) {
                None => None,
                Some((channels, s3)) => match read_uint(s3, 5) {
                    None => None,
                    Some((bps, s4)) => match read_uint(s4, 36) {
                        None => None,
                        Some((total, s5)) => match read_uint(s5, 128) {
                            None => None,
                            Some((signature, rest)) => Some(
                                (
                                    StreamInfo {
                                        min_block: sizes.min_block,
                                        max_block: sizes.max_block,
                                        min_frame: sizes.min_frame,
                                        max_frame: sizes.max_frame,
                                        rate,
                                        channels: channels + 1,
                                        bps: bps + 1,
                                        total,
                                        signature,
                                    },
                                    rest,
                                ),
                            ),
                        },
                    },
                },
            },
        },
    }
}

/// Whether a frame with this header belongs at this place of a stream: it bears the
/// next number, has the channels and the sample size of the stream, and is a block of
/// the stream's size, or a shorter one at the end; its rate is `rate`, if that is given.
pub open spec fn belongs(
    header: Header,
    info: StreamInfo,
    number: nat,
    last: bool,
    rate: Option<nat>,
) -> bool {
    &&& header.number == number
    &&& header.channels == info.channels
    &&& header.bps == info.bps
    &&& header.block_size <= info.max_block
    &&& !last ==> header.block_size >= info.min_block
    &&& rate matches Some(r) ==> header.rate == r
}

/// Reads frames up to the end, the first of which bears `number`: their samples,
/// interleaved. Where a rate is given, all of them must tell it.
#[verifier::opaque]
pub open spec fn read_frames(
    s: Seq<bool>,
    info: StreamInfo,
    number: nat,
    rate: Option<nat>,
) -> Option<Seq<int>>
    decreases s.len(),
{
    if s.len() == 0 {
        Some(Seq::empty())
    } else {
        match read_frame(s, info.rate, info.bps) {
            None => None,
            Some((frame, rest)) => if rest.len() < s.len() && belongs(
                frame.header,
                info,
                number,
                rest.len() == 0,
                rate,
            ) {
                match read_frames(rest, info, number + 1, rate) {
                    None => None,
                    Some(samples) => Some(frame.samples + samples),
                }
            } else {
                None
            },
        }
    }
}

/// Decodes a file: its marker, one STREAMINFO block, then frames. The rates that the
/// frames tell are not looked at.
pub open spec fn read_stream(file: Seq<u8>) -> Option<(StreamInfo, Seq<int>)> {
    read_stream_with(file, false)
}

/// Decodes a file; where `strict`, every frame must tell the rate of the stream.
#[verifier::opaque]
pub open spec fn read_stream_with(file: Seq<u8>, strict: bool) -> Option<(StreamInfo, Seq<int>)> {
    match expect_uint(bits::byte_bits(file), 32, 0x664C6143) {
        None => None,
        Some(s1) => match expect_uint(s1, 32, 0x80000022) {
            None => None,
            Some(s2) => match read_streaminfo(s2) {
                None => None,
                Some((info, s3)) => match read_frames(
                    s3,
                    info,
                    0,
                    if strict {
                        Some(info.rate)
                    } else {
                        None
                    },
                ) {
                    None => None,
                    Some(samples) => Some((info, samples)),
                },
            },
        },
    }
}

// ---------------------------------------------------------------------------
// Reading what was written
// ---------------------------------------------------------------------------
/// The samples as mathematical integers.
pub open spec fn ints16(s: Seq<i16>) -> Seq<int> {
    Seq::new(s.len(), |i: int| s[i] as int)
}

pub open spec fn ints32(s: Seq<i32>) -> Seq<int> {
    Seq::new(s.len(), |i: int| s[i] as int)
}

/// Whether two's complement of `n` bits can hold `v`.
pub open spec fn fits(v: int, n: nat) -> bool {
    n >= 1 && -(pow2((n - 1) as nat) as int) <= v < pow2((n - 1) as nat)
}

pub proof fn lemma_read_uint_mod(v: nat, n: nat, rest: Seq<bool>)
    ensures
        read_uint(bits::uint_bits(v, n) + rest, n) == Some((v % pow2(n), rest)),
{
    let b = bits::uint_bits(v, n);
    bits::lemma_uint_bits_len(v, n);
    bits::lemma_bits_uint_of_uint_bits(v, n);
    assert((b + rest).take(n as int) =~= b);
    assert((b + rest).skip(n as int) =~= rest);
}

pub proof fn lemma_read_uint(v: nat, n: nat, rest: Seq<bool>)
    requires
        v < pow2(n),
    ensures
        read_uint(bits::uint_bits(v, n) + rest, n) == Some((v, rest)),
{
    lemma_read_uint_mod(v, n, rest);
    vstd::arithmetic::div_mod::lemma_small_mod(v, pow2(n));
}

proof fn lemma_read_sint(v: int, n: nat, rest: Seq<bool>)
    requires
        fits(v, n),
    ensures
        read_sint(flac_enc::sint_bits(v, n) + rest, n) == Some((v, rest)),
{
    let p = pow2(n) as int;
    lemma_pow2_unfold(n);
    lemma_pow2_pos(n);
    if v >= 0 {
        vstd::arithmetic::div_mod::lemma_small_mod(v as nat, pow2(n));
    } else {
        vstd::arithmetic::div_mod::lemma_fundamental_div_mod_converse(v, p, -1, v + p);
    }
    lemma_read_uint((v % p) as nat, n, rest);
}

proof fn lemma_read_unary(q: nat, rest: Seq<bool>)
    ensures
        read_unary(bits::zero_bits(q).push(true) + rest) == Some((q, rest)),
    decreases q,
{
    let s = bits::zero_bits(q).push(true) + rest;
    if q == 0 {
        assert(s.skip(1) =~= rest);
    } else {
        lemma_read_unary((q - 1) as nat, rest);
        assert(s.skip(1) =~= bits::zero_bits((q - 1) as nat).push(true) + rest);
    }
}

proof fn lemma_read_rice(r: int, k: nat, rest: Seq<bool>)
    ensures
        read_rice(flac_enc::rice_bits(r, k) + rest, k) == Some((r, rest)),
{
    let f = flac_enc::fold(r);
    let p = pow2(k);
    lemma_pow2_pos(k);
    let unary = bits::zero_bits(f / p).push(true);
    let binary = bits::uint_bits(f % p, k);
    assert((unary + binary) + rest =~= unary + (binary + rest));
    lemma_read_unary(f / p, binary + rest);
    vstd::arithmetic::div_mod::lemma_mod_bound(f as int, p as int);
    lemma_read_uint(f % p, k, rest);
    vstd::arithmetic::div_mod::lemma_fundamental_div_mod(f as int, p as int);
    assert((f / p) * p + f % p == f) by (nonlinear_arith)
        requires
            f == p * (f / p) + f % p,
    ;
}

proof fn lemma_read_rices(res: Seq<i32>, k: nat, rest: Seq<bool>)
    ensures
        read_rices(flac_enc::all_rice_bits(res, k) + rest, res.len(), k) == Some(
            (ints32(res), rest),
        ),
    decreases res.len(),
{
    let s = flac_enc::all_rice_bits(res, k) + rest;
    if res.len() == 0 {
        assert(s =~= rest);
        assert(ints32(res) =~= Seq::empty());
    } else {
        let head = res.drop_last();
        let tail = flac_enc::rice_bits(res.last() as int, k) + rest;
        assert(s =~= flac_enc::all_rice_bits(head, k) + tail);
        lemma_read_rices(head, k, tail);
        lemma_read_rice(res.last() as int, k, rest);
        assert(ints32(head).push(res.last() as int) =~= ints32(res));
    }
}

proof fn lemma_read_raws(res: Seq<i32>, n: nat, rest: Seq<bool>)
    requires
        forall|i: int| 0 <= i < res.len() ==> fits(#[trigger] res[i] as int, n),
    ensures
        read_raws(flac_enc::all_raw_bits(res, n) + rest, res.len(), n) == Some((ints32(res), rest)),
    decreases res.len(),
{
    let s = flac_enc::all_raw_bits(res, n) + rest;
    if res.len() == 0 {
        assert(s =~= rest);
        assert(ints32(res) =~= Seq::empty());
    } else {
        let head = res.drop_last();
        let tail = flac_enc::sint_bits(res.last() as int, n) + rest;
        assert(s =~= flac_enc::all_raw_bits(head, n) + tail);
        lemma_read_raws(head, n, tail);
        lemma_read_sint(res.last() as int, n, rest);
        assert(ints32(head).push(res.last() as int) =~= ints32(res));
    }
}

/// Written residuals are read back exactly, whatever follows them: every residual
/// that 17 bits of two's complement hold, which is every difference of two samples
/// of 16 bits.
///
/// No unary run is longer than 128 zeros: the raw form is taken exactly if one would
/// be.
pub proof fn residuals_are_lossless(res: Seq<i32>, rest: Seq<bool>)
    requires
        forall|i: int| 0 <= i < res.len() ==> fits(#[trigger] res[i] as int, 17),
    ensures
        read_residuals(flac_enc::residual_bits(res) + rest, res.len()) == Some((ints32(res), rest)),
        !flac_enc::needs_escape(res, flac_enc::rice_param(res)) ==> forall|i: int|
            0 <= i < res.len() ==> flac_enc::fold(#[trigger] res[i] as int) / pow2(
                flac_enc::rice_param(res),
            ) <= 128,
{
    let k = flac_enc::rice_param(res);
    let start = bits::uint_bits(0, 2) + bits::uint_bits(0, 4);
    lemma2_to64();
    flac_enc::rice_param_is_optimal(res);
    bits::lemma_uint_bits_split(0, 2, 4);
    assert(start == bits::uint_bits(0, 6));
    if flac_enc::needs_escape(res, k) {
        let raws = flac_enc::all_raw_bits(res, 17) + rest;
        let width = bits::uint_bits(17, 5) + raws;
        let escape = bits::uint_bits(15, 4) + width;
        assert(flac_enc::residual_bits(res) + rest =~= start + escape);
        lemma_read_uint(0, 6, escape);
        lemma_read_uint(15, 4, width);
        lemma_read_uint(17, 5, raws);
        lemma_read_raws(res, 17, rest);
    } else {
        let rices = flac_enc::all_rice_bits(res, k) + rest;
        let param = bits::uint_bits(k, 4) + rices;
        assert(flac_enc::residual_bits(res) + rest =~= start + param);
        lemma_read_uint(0, 6, param);
        lemma_read_uint(k, 4, rices);
        lemma_read_rices(res, k, rest);
    }
}

proof fn lemma_integrate(s: Seq<i16>)
    requires
        s.len() >= 1,
    ensures
        integrate(s[0] as int, ints32(flac_enc::differences(s))) == ints16(s),
    decreases s.len(),
{
    let d = ints32(flac_enc::differences(s));
    if s.len() == 1 {
        assert(integrate(s[0] as int, d) =~= ints16(s));
    } else {
        let t = s.drop_last();
        lemma_integrate(t);
        assert(d.drop_last() =~= ints32(flac_enc::differences(t)));
        assert(integrate(s[0] as int, d) =~= ints16(s));
    }
}

proof fn lemma_read_subframe(s: Seq<i16>, bps: nat, rest: Seq<bool>)
    requires
        s.len() >= 1,
        forall|i: int| 0 <= i < s.len() ==> fits(#[trigger] s[i] as int, bps),
    ensures
        read_subframe(flac_enc::subframe_bits(s, bps) + rest, s.len(), bps) == Some(
            (ints16(s), rest),
        ),
{
    let first = flac_enc::sint_bits(s[0] as int, bps);
    lemma2_to64();
    assert(fits(s[0] as int, bps));
    if flac_enc::all_equal(s) {
        let body = first + rest;
        bits::lemma_uint_bits_split(0, 1, 6);
        bits::lemma_uint_bits_split(0, 7, 1);
        assert(bits::uint_bits(0, 1) + bits::uint_bits(0, 6) + bits::uint_bits(0, 1)
            == bits::uint_bits(0, 8));
        assert(flac_enc::subframe_bits(s, bps) + rest =~= bits::uint_bits(0, 8) + body);
        lemma_read_uint(0, 8, body);
        lemma_read_sint(s[0] as int, bps, rest);
        assert(Seq::new(s.len(), |i: int| s[0] as int) =~= ints16(s));
    } else {
        let d = flac_enc::differences(s);
        let tail = flac_enc::residual_bits(d) + rest;
        let body = first + tail;
        bits::lemma_uint_bits_split(9, 1, 6);
        bits::lemma_uint_bits_split(18, 7, 1);
        bits::lemma_uint_bits_mod(18, 0, 1);
        assert(bits::uint_bits(0, 1) + bits::uint_bits(9, 6) + bits::uint_bits(0, 1)
            == bits::uint_bits(18, 8));
        assert(flac_enc::subframe_bits(s, bps) + rest =~= bits::uint_bits(18, 8) + body);
        lemma_read_uint(18, 8, body);
        lemma_read_sint(s[0] as int, bps, tail);
        assert forall|i: int| 0 <= i < d.len() implies fits(#[trigger] d[i] as int, 17) by {
            assert(-65535 <= s[i + 1] - s[i] <= 65535);
        }
        residuals_are_lossless(d, rest);
        lemma_integrate(s);
    }
}

/// The channels of a block of interleaved samples.
pub open spec fn split_channels(s: Seq<i16>, channels: nat, n: nat) -> Seq<Seq<int>> {
    Seq::new(n, |c: int| ints16(flac_enc::channel_samples(s, channels, c as nat)))
}

proof fn lemma_channel_len_exact(len: nat, channels: nat, c: nat)
    requires
        c < channels <= len,
        len % channels == 0,
    ensures
        flac_enc::channel_len(len, channels, c) == len / channels,
        len / channels >= 1,
        len == (len / channels) * channels,
{
    let q = len / channels;
    let t = len - c + channels - 1;
    vstd::arithmetic::div_mod::lemma_fundamental_div_mod(len as int, channels as int);
    vstd::arithmetic::div_mod::lemma_div_non_zero(len as int, channels as int);
    assert(q * channels == len) by (nonlinear_arith)
        requires
            len == channels * q + 0,
    ;
    vstd::arithmetic::div_mod::lemma_fundamental_div_mod_converse(
        t,
        channels as int,
        q as int,
        channels - 1 - c,
    );
}

proof fn lemma_read_subframes(s: Seq<i16>, channels: nat, bps: nat, n: nat, rest: Seq<bool>)
    requires
        n <= channels <= s.len(),
        channels >= 1,
        s.len() % channels == 0,
        forall|i: int| 0 <= i < s.len() ==> fits(#[trigger] s[i] as int, bps),
    ensures
        read_subframes(
            flac_enc::subframes_bits(s, channels, bps, n) + rest,
            n,
            s.len() / channels,
            bps,
        ) == Some((split_channels(s, channels, n), rest)),
    decreases n,
{
    let all = flac_enc::subframes_bits(s, channels, bps, n) + rest;
    if n == 0 {
        assert(all =~= rest);
        assert(split_channels(s, channels, n) =~= Seq::empty());
    } else {
        let c = (n - 1) as nat;
        let own = flac_enc::channel_samples(s, channels, c);
        let tail = flac_enc::subframe_bits(own, bps) + rest;
        assert(all =~= flac_enc::subframes_bits(s, channels, bps, c) + tail);
        lemma_read_subframes(s, channels, bps, c, tail);
        lemma_channel_len_exact(s.len(), channels, c);
        assert forall|j: int| 0 <= j < own.len() implies fits(#[trigger] own[j] as int, bps) by {
            lemma_index_in_block(s.len(), channels, c, j);
        }
        lemma_read_subframe(own, bps, rest);
        assert(split_channels(s, channels, c).push(ints16(own)) =~= split_channels(
            s,
            channels,
            n,
        ));
    }
}

proof fn lemma_index_in_block(len: nat, channels: nat, c: nat, j: int)
    requires
        c < channels,
        len == (len / channels) * channels,
        0 <= j < len / channels,
    ensures
        0 <= j * channels + c < len,
{
    let q = (len / channels) as int;
    assert(0 <= j * channels + c < q * channels) by (nonlinear_arith)
        requires
            c < channels,
            0 <= j < q,
    ;
}

proof fn lemma_interleave(s: Seq<i16>, channels: nat)
    requires
        1 <= channels <= s.len(),
        s.len() % channels == 0,
    ensures
        interleave(split_channels(s, channels, channels), s.len() / channels) == ints16(s),
{
    let n = s.len() / channels;
    let split = split_channels(s, channels, channels);
    lemma_channel_len_exact(s.len(), channels, 0);
    assert forall|i: int| 0 <= i < s.len() implies split[#[trigger] (i % channels as int)][i
        / channels as int] == s[i] as int by {
        let c = i % channels as int;
        let j = i / channels as int;
        vstd::arithmetic::div_mod::lemma_fundamental_div_mod(i, channels as int);
        vstd::arithmetic::div_mod::lemma_mod_bound(i, channels as int);
        vstd::arithmetic::div_mod::lemma_div_pos_is_pos(i, channels as int);
        vstd::arithmetic::div_mod::lemma_multiply_divide_lt(i, channels as int, n as int);
        assert(j * channels + c == i) by (nonlinear_arith)
            requires
                i == channels * j + c,
        ;
        lemma_channel_len_exact(s.len(), channels, c as nat);
    }
    assert(interleave(split, n) =~= ints16(s)) by {
        assert(split.len() == channels);
        assert forall|i: int| 0 <= i < s.len() implies interleave(split, n)[i] == ints16(s)[i] by {
            assert(split[i % channels as int][i / channels as int] == s[i] as int);
        }
    }
}

proof fn lemma_read_continuation(v: nat, n: nat, high: nat, rest: Seq<bool>)
    requires
        n > 0,
    ensures
        read_continuations(flac_enc::continuation(v) + rest, n, high) == read_continuations(
            rest,
            (n - 1) as nat,
            64 * high + v % 64,
        ),
{
    lemma2_to64();
    lemma_read_uint((128 + v % 64) as nat, 8, rest);
}

/// Six bits further down, what is above the low six bits.
proof fn lemma_shift_six(v: nat, d: nat)
    requires
        d > 0,
    ensures
        v / (64 * d) == (v / d) / 64,
        64 * (v / (64 * d)) + (v / d) % 64 == v / d,
{
    vstd::arithmetic::div_mod::lemma_div_denominator(v as int, d as int, 64);
    assert(d * 64 == 64 * d);
}

proof fn lemma_read_one_continuation(v: nat, rest: Seq<bool>)
    ensures
        read_continuations(flac_enc::continuation(v) + rest, 1, v / 64) == Some((v, rest)),
{
    lemma_read_continuation(v, 1, v / 64, rest);
}

proof fn lemma_read_two_continuations(v: nat, rest: Seq<bool>)
    ensures
        read_continuations(
            flac_enc::continuation(v / 64) + (flac_enc::continuation(v) + rest),
            2,
            v / 4096,
        ) == Some((v, rest)),
{
    lemma_shift_six(v, 64);
    lemma_read_continuation(v / 64, 2, v / 4096, flac_enc::continuation(v) + rest);
    lemma_read_one_continuation(v, rest);
}

proof fn lemma_read_three_continuations(v: nat, rest: Seq<bool>)
    ensures
        read_continuations(
            flac_enc::continuation(v / 4096) + (flac_enc::continuation(v / 64) + (
            flac_enc::continuation(v) + rest)),
            3,
            v / 0x40000,
        ) == Some((v, rest)),
{
    lemma_shift_six(v, 4096);
    lemma_read_continuation(
        v / 4096,
        3,
        v / 0x40000,
        flac_enc::continuation(v / 64) + (flac_enc::continuation(v) + rest),
    );
    lemma_read_two_continuations(v, rest);
}

proof fn lemma_read_four_continuations(v: nat, rest: Seq<bool>)
    ensures
        read_continuations(
            flac_enc::continuation(v / 0x40000) + (flac_enc::continuation(v / 4096) + (
            flac_enc::continuation(v / 64) + (flac_enc::continuation(v) + rest))),
            4,
            v / 0x1000000,
        ) == Some((v, rest)),
{
    lemma_shift_six(v, 0x40000);
    lemma_read_continuation(
        v / 0x40000,
        4,
        v / 0x1000000,
        flac_enc::continuation(v / 4096) + (flac_enc::continuation(v / 64) + (
        flac_enc::continuation(v) + rest)),
    );
    lemma_read_three_continuations(v, rest);
}

proof fn lemma_read_five_continuations(v: nat, rest: Seq<bool>)
    ensures
        read_continuations(
            flac_enc::continuation(v / 0x1000000) + (flac_enc::continuation(v / 0x40000) + (
            flac_enc::continuation(v / 4096) + (flac_enc::continuation(v / 64) + (
            flac_enc::continuation(v) + rest)))),
            5,
            v / 0x40000000,
        ) == Some((v, rest)),
{
    lemma_shift_six(v, 0x1000000);
    lemma_read_continuation(
        v / 0x1000000,
        5,
        v / 0x40000000,
        flac_enc::continuation(v / 0x40000) + (flac_enc::continuation(v / 4096) + (
        flac_enc::continuation(v / 64) + (flac_enc::continuation(v) + rest))),
    );
    lemma_read_four_continuations(v, rest);
}

proof fn lemma_read_six_continuations(v: nat, rest: Seq<bool>)
    requires
        v < 0x10_0000_0000,
    ensures
        read_continuations(
            flac_enc::continuation(v / 0x40000000) + (flac_enc::continuation(v / 0x1000000) + (
            flac_enc::continuation(v / 0x40000) + (flac_enc::continuation(v / 4096) + (
            flac_enc::continuation(v / 64) + (flac_enc::continuation(v) + rest))))),
            6,
            0,
        ) == Some((v, rest)),
{
    lemma_read_continuation(
        v / 0x40000000,
        6,
        0,
        flac_enc::continuation(v / 0x1000000) + (flac_enc::continuation(v / 0x40000) + (
        flac_enc::continuation(v / 4096) + (flac_enc::continuation(v / 64) + (
        flac_enc::continuation(v) + rest)))),
    );
    lemma_read_five_continuations(v, rest);
}

proof fn lemma_concat_eight(
    a: Seq<bool>,
    b: Seq<bool>,
    c: Seq<bool>,
    d: Seq<bool>,
    e: Seq<bool>,
    f: Seq<bool>,
    g: Seq<bool>,
    h: Seq<bool>,
)
    ensures
        a + b + c + d + e + f + g + h == a + (b + (c + (d + (e + (f + (g + h)))))),
{
    assert(a + b + c + d + e + f + g + h =~= a + b + c + d + e + (f + (g + h)));
    let i = f + (g + h);
    assert(a + b + c + d + e + i =~= a + b + c + (d + (e + i)));
    let j = d + (e + i);
    assert(a + b + c + j =~= a + (b + (c + j)));
}

proof fn lemma_read_six_byte_number(v: nat, rest: Seq<bool>)
    requires
        0x4000000 <= v < 0x80000000,
    ensures
        read_coded_number(flac_enc::coded_number(v) + rest) == Some((v, rest)),
{
    lemma2_to64();
    let e0 = flac_enc::continuation(v);
    let e1 = flac_enc::continuation(v / 64);
    let e2 = flac_enc::continuation(v / 4096);
    let e3 = flac_enc::continuation(v / 0x40000);
    let e4 = flac_enc::continuation(v / 0x1000000);
    let b = (0xFC + v / 0x40000000) as nat;
    let first = bits::uint_bits(b, 8);
    lemma_concat_eight(Seq::empty(), first, e4, e3, e2, e1, e0, rest);
    assert(Seq::<bool>::empty() + first =~= first);
    let tail = e4 + (e3 + (e2 + (e1 + (e0 + rest))));
    assert(Seq::<bool>::empty() + (first + tail) =~= first + tail);
    lemma_read_uint(b, 8, tail);
    lemma_read_five_continuations(v, rest);
}

proof fn lemma_read_seven_byte_number(v: nat, rest: Seq<bool>)
    requires
        0x80000000 <= v < 0x10_0000_0000,
    ensures
        read_coded_number(flac_enc::coded_number(v) + rest) == Some((v, rest)),
{
    lemma2_to64();
    let e0 = flac_enc::continuation(v);
    let e1 = flac_enc::continuation(v / 64);
    let e2 = flac_enc::continuation(v / 4096);
    let e3 = flac_enc::continuation(v / 0x40000);
    let e4 = flac_enc::continuation(v / 0x1000000);
    let e5 = flac_enc::continuation(v / 0x40000000);
    let first = bits::uint_bits(0xFE, 8);
    lemma_concat_eight(first, e5, e4, e3, e2, e1, e0, rest);
    let tail = e5 + (e4 + (e3 + (e2 + (e1 + (e0 + rest)))));
    lemma_read_uint(0xFE, 8, tail);
    lemma_read_six_continuations(v, rest);
}

proof fn lemma_read_coded_number(v: nat, rest: Seq<bool>)
    requires
        v < 0x10_0000_0000,
    ensures
        read_coded_number(flac_enc::coded_number(v) + rest) == Some((v, rest)),
{
    lemma2_to64();
    let e0 = flac_enc::continuation(v);
    let e1 = flac_enc::continuation(v / 64);
    let e2 = flac_enc::continuation(v / 4096);
    let e3 = flac_enc::continuation(v / 0x40000);
    if v < 0x80 {
        lemma_read_uint(v, 8, rest);
    } else if v < 0x800 {
        let b = (0xC0 + v / 64) as nat;
        let first = bits::uint_bits(b, 8);
        assert(first + e0 + rest =~= first + (e0 + rest));
        lemma_read_uint(b, 8, e0 + rest);
        lemma_read_one_continuation(v, rest);
    } else if v < 0x10000 {
        let b = (0xE0 + v / 4096) as nat;
        let first = bits::uint_bits(b, 8);
        assert(first + e1 + e0 + rest =~= first + (e1 + (e0 + rest)));
        lemma_read_uint(b, 8, e1 + (e0 + rest));
        lemma_read_two_continuations(v, rest);
    } else if v < 0x200000 {
        let b = (0xF0 + v / 0x40000) as nat;
        let first = bits::uint_bits(b, 8);
        assert(first + e2 + e1 + e0 + rest =~= first + (e2 + (e1 + (e0 + rest))));
        lemma_read_uint(b, 8, e2 + (e1 + (e0 + rest)));
        lemma_read_three_continuations(v, rest);
    } else if v < 0x4000000 {
        let b = (0xF8 + v / 0x1000000) as nat;
        let first = bits::uint_bits(b, 8);
        assert(first + e3 + e2 + e1 + e0 + rest =~= first + (e3 + (e2 + (e1 + (e0 + rest)))));
        lemma_read_uint(b, 8, e3 + (e2 + (e1 + (e0 + rest))));
        lemma_read_four_continuations(v, rest);
    } else if v < 0x80000000 {
        lemma_read_six_byte_number(v, rest);
    } else {
        lemma_read_seven_byte_number(v, rest);
    }
}

/// The sample rate that a frame header tells: rates without a code that do not
/// fit in 16 bits are told in tens of Hz, modulo what 16 bits hold.
#[verifier::opaque]
pub open spec fn header_rate(sr: nat) -> nat {
    if flac_enc::rate_code(sr) == 14 {
        10 * ((sr / 10) % 65536)
    } else {
        sr
    }
}

proof fn lemma_read_block_size(bs: nat, rest: Seq<bool>)
    requires
        1 <= bs <= 65536,
    ensures
        read_block_size(flac_enc::block_tail(bs) + rest, flac_enc::block_code(bs)) == Some(
            (bs, rest),
        ),
{
    lemma2_to64();
    let code = flac_enc::block_code(bs);
    if code == 6 {
        lemma_read_uint((bs - 1) as nat, 8, rest);
    } else if code == 7 {
        lemma_read_uint((bs - 1) as nat, 16, rest);
    } else {
        assert(flac_enc::block_tail(bs) + rest =~= rest);
    }
}

proof fn lemma_read_rate(sr: nat, stream_rate: nat, rest: Seq<bool>)
    ensures
        read_rate(flac_enc::rate_tail(sr) + rest, flac_enc::rate_code(sr), stream_rate) == Some(
            (header_rate(sr), rest),
        ),
{
    reveal(header_rate);
    lemma2_to64();
    let code = flac_enc::rate_code(sr);
    if code == 12 {
        lemma_read_uint(sr / 1000, 8, rest);
    } else if code == 13 {
        lemma_read_uint(sr, 16, rest);
    } else if code == 14 {
        lemma_read_uint_mod(sr / 10, 16, rest);
    } else {
        assert(flac_enc::rate_tail(sr) + rest =~= rest);
    }
}

proof fn lemma_read_codes(block: nat, rate: nat, channels: nat, bps: nat, rest: Seq<bool>)
    requires
        block < 16,
        rate < 16,
        1 <= channels <= 8,
    ensures
        read_codes(
            bits::uint_bits(0xFFF8, 16) + (bits::uint_bits(block, 4) + (bits::uint_bits(rate, 4) + (
            bits::uint_bits((channels - 1) as nat, 4) + (bits::uint_bits(
                flac_enc::size_code(bps),
                3,
            ) + (bits::uint_bits(0, 1) + rest))))),
            bps,
        ) == Some((HeaderCodes { block, rate, channels, bps }, rest)),
{
    lemma2_to64();
    let s5 = bits::uint_bits(0, 1) + rest;
    let s4 = bits::uint_bits(flac_enc::size_code(bps), 3) + s5;
    let s3 = bits::uint_bits((channels - 1) as nat, 4) + s4;
    let s2 = bits::uint_bits(rate, 4) + s3;
    let s1 = bits::uint_bits(block, 4) + s2;
    lemma_read_uint(0xFFF8, 16, s1);
    lemma_read_uint(block, 4, s2);
    lemma_read_uint(rate, 4, s3);
    lemma_read_uint((channels - 1) as nat, 4, s4);
    lemma_read_uint(flac_enc::size_code(bps), 3, s5);
    lemma_read_uint(0, 1, rest);
}

proof fn lemma_concat_ten(
    a: Seq<bool>,
    b: Seq<bool>,
    c: Seq<bool>,
    d: Seq<bool>,
    e: Seq<bool>,
    f: Seq<bool>,
    g: Seq<bool>,
    h: Seq<bool>,
    i: Seq<bool>,
    j: Seq<bool>,
)
    ensures
        a + b + c + d + e + f + g + h + i + j == a + (b + (c + (d + (e + (f + (g + (h + (i
            + j)))))))),
{
    assert(h + i + j =~= h + (i + j));
    assert(a + b + c + d + e + f + g + h + i + j =~= a + b + c + d + e + f + g + (h + (i + j)));
    let k = h + (i + j);
    assert(a + b + c + d + e + f + g + k =~= a + b + c + d + e + (f + (g + k)));
    let l = f + (g + k);
    assert(a + b + c + d + e + l =~= a + b + c + (d + (e + l)));
    let m = d + (e + l);
    assert(a + b + c + m =~= a + (b + (c + m)));
}

proof fn lemma_read_header(
    bs: nat,
    channels: nat,
    sr: nat,
    bps: nat,
    number: nat,
    stream_rate: nat,
    rest: Seq<bool>,
)
    requires
        1 <= bs <= 65536,
        1 <= channels <= 8,
        number < 0x10_0000_0000,
    ensures
        read_header(
            flac_enc::header_bits(bs, channels, sr, bps, number) + rest,
            stream_rate,
            bps,
        ) == Some(
            (Header { number, block_size: bs, rate: header_rate(sr), channels, bps }, rest),
        ),
{
    let t2 = flac_enc::rate_tail(sr) + rest;
    let t1 = flac_enc::block_tail(bs) + t2;
    let t0 = flac_enc::coded_number(number) + t1;
    assert(flac_enc::header_bits(bs, channels, sr, bps, number) + rest == bits::uint_bits(
        0xFFF8,
        16,
    ) + (bits::uint_bits(flac_enc::block_code(bs), 4) + (bits::uint_bits(
        flac_enc::rate_code(sr),
        4,
    ) + (bits::uint_bits((channels - 1) as nat, 4) + (bits::uint_bits(flac_enc::size_code(bps), 3)
        + (bits::uint_bits(0, 1) + t0)))))) by {
        reveal(flac_enc::header_bits);
        lemma_concat_ten(
            bits::uint_bits(0xFFF8, 16),
            bits::uint_bits(flac_enc::block_code(bs), 4),
            bits::uint_bits(flac_enc::rate_code(sr), 4),
            bits::uint_bits((channels - 1) as nat, 4),
            bits::uint_bits(flac_enc::size_code(bps), 3),
            bits::uint_bits(0, 1),
            flac_enc::coded_number(number),
            flac_enc::block_tail(bs),
            flac_enc::rate_tail(sr),
            rest,
        );
    }
    lemma_read_codes(flac_enc::block_code(bs), flac_enc::rate_code(sr), channels, bps, t0);
    lemma_read_coded_number(number, t1);
    lemma_read_block_size(bs, t2);
    lemma_read_rate(sr, stream_rate, rest);
}

/// Reading a number of zero bits gives zero.
proof fn lemma_read_zero_bits(n: nat, rest: Seq<bool>)
    ensures
        expect_uint(bits::zero_bits(n) + rest, n, 0) == Some(rest),
{
    bits::lemma_zero_bits(n);
    lemma_pow2_pos(n);
    lemma_read_uint(0, n, rest);
}

/// Where the parts of a frame begin and end.
proof fn lemma_frame_layout(
    a: Seq<bool>,
    b: Seq<bool>,
    c: Seq<bool>,
    d: Seq<bool>,
    e: Seq<bool>,
    rest: Seq<bool>,
)
    ensures
        a + b + c + d + e + rest == a + (b + (c + (d + (e + rest)))),
        consumed(a + b + c + d + e + rest, b + (c + (d + (e + rest)))) == a,
        consumed(a + b + c + d + e + rest, d + (e + rest)) == a + b + c,
        consumed(a + b + c + d + e + rest, e + rest) == a + b + c + d,
{
    let s = a + b + c + d + e + rest;
    assert(s =~= a + b + c + d + (e + rest));
    assert(consumed(s, e + rest) =~= a + b + c + d);
    let f = e + rest;
    assert(s =~= a + b + c + (d + f));
    assert(consumed(s, d + f) =~= a + b + c);
    let g = d + f;
    assert(s =~= a + (b + (c + g)));
    assert(consumed(s, b + (c + g)) =~= a);
}

/// A frame decodes to the samples it was made from, whatever follows it.
///
/// The frame number must fit in the 36 bits that its coding holds, and each sample
/// in the sample size.
#[verifier::spinoff_prover]
pub proof fn frame_is_lossless(
    samples: Seq<i16>,
    channels: nat,
    sr: nat,
    bps: nat,
    number: nat,
    stream_rate: nat,
    rest: Seq<bool>,
)
    requires
        1 <= channels <= 8,
        samples.len() % channels == 0,
        1 <= samples.len() / channels <= 65536,
        number < 0x10_0000_0000,
        forall|i: int| 0 <= i < samples.len() ==> fits(#[trigger] samples[i] as int, bps),
    ensures
        read_frame(
            flac_enc::frame_bits(samples, channels, sr, bps, number) + rest,
            stream_rate,
            bps,
        ) == Some(
            (
                Frame {
                    header: Header {
                        number,
                        block_size: samples.len() / channels,
                        rate: header_rate(sr),
                        channels,
                        bps,
                    },
                    samples: ints16(samples),
                },
                rest,
            ),
        ),
{
    reveal(read_frame);
    let bs = samples.len() / channels;
    vstd::arithmetic::div_mod::lemma_fundamental_div_mod(samples.len() as int, channels as int);
    assert(channels <= samples.len()) by (nonlinear_arith)
        requires
            samples.len() == channels * bs,
            bs >= 1,
    ;
    let header = flac_enc::header_bits(bs, channels, sr, bps, number);
    let check8 = crc::crc8_bits(header);
    let subframes = flac_enc::subframes_bits(samples, channels, bps, channels);
    let open = header + bits::uint_bits(check8 as nat, 8) + subframes;
    let pad = bits::zero_bits(bits::pad_len(open.len()));
    let body = open + pad;
    let check16 = crc::crc16_bits(body);
    let s = flac_enc::frame_bits(samples, channels, sr, bps, number) + rest;
    let s4 = bits::uint_bits(check16 as nat, 16) + rest;
    let s3 = pad + s4;
    let s2 = subframes + s3;
    let s1 = bits::uint_bits(check8 as nat, 8) + s2;
    lemma_frame_layout(
        header,
        bits::uint_bits(check8 as nat, 8),
        subframes,
        pad,
        bits::uint_bits(check16 as nat, 16),
        rest,
    );
    assert(s == header + s1);
    lemma2_to64();
    lemma_read_header(bs, channels, sr, bps, number, stream_rate, s1);
    lemma_read_uint(check8 as nat, 8, s2);
    lemma_read_subframes(samples, channels, bps, channels, s3);
    lemma_read_zero_bits(bits::pad_len(open.len()), s4);
    lemma_read_uint(check16 as nat, 16, rest);
    lemma_interleave(samples, channels);
}

proof fn lemma_read_any(b: Seq<bool>, rest: Seq<bool>)
    ensures
        read_uint(b + rest, b.len()) == Some((bits::bits_uint(b), rest)),
{
    assert((b + rest).take(b.len() as int) =~= b);
    assert((b + rest).skip(b.len() as int) =~= rest);
}

/// What a STREAMINFO block tells: block sizes, a rate and a number of samples that fit
/// in their 16, 20 and 36 bits stand as they are.
pub open spec fn told_info(
    min_block: nat,
    max_block: nat,
    sr: nat,
    channels: nat,
    bps: nat,
    total: nat,
) -> StreamInfo {
    StreamInfo {
        min_block: min_block % 0x10000,
        max_block: max_block % 0x10000,
        min_frame: 0,
        max_frame: 0,
        rate: sr % 0x100000,
        channels,
        bps,
        total: total % 0x10_0000_0000,
        signature: 0,
    }
}

/// A rate that fits in 16 bits, in Hz or in tens of Hz, is told by frames as it is.
pub proof fn headers_tell_the_rate(sr: nat)
    requires
        sr <= 65535 || (sr % 10 == 0 && sr <= 655350),
    ensures
        header_rate(sr) == sr,
{
    reveal(header_rate);
}

/// The STREAMINFO block tells the format and the number of samples, the rate and the
/// number modulo what their 20 and 36 bits hold.
pub proof fn streaminfo_is_lossless(
    min_block: nat,
    max_block: nat,
    sr: nat,
    channels: nat,
    bps: nat,
    total: nat,
    rest: Seq<bool>,
)
    requires
        1 <= channels <= 8,
        1 <= bps <= 32,
    ensures
        read_streaminfo(
            flac_enc::streaminfo_bits(min_block, max_block, sr, channels, bps, total) + rest,
        ) == Some((told_info(min_block, max_block, sr, channels, bps, total), rest)),
{
    lemma2_to64();
    lemma2_to64_rest();
    let sizes = bits::uint_bits(min_block, 16) + bits::uint_bits(max_block, 16) + bits::zero_bits(
        48,
    );
    let signature = bits::zero_bits(128);
    let s5 = signature + rest;
    let s4 = bits::uint_bits(total, 36) + s5;
    let s3 = bits::uint_bits((bps - 1) as nat, 5) + s4;
    let s2 = bits::uint_bits((channels - 1) as nat, 3) + s3;
    let s1 = bits::uint_bits(sr, 20) + s2;
    assert(flac_enc::streaminfo_bits(min_block, max_block, sr, channels, bps, total) + rest
        =~= sizes + s1);
    lemma_read_sizes(min_block, max_block, s1);
    lemma_read_uint_mod(sr, 20, s2);
    lemma_read_uint((channels - 1) as nat, 3, s3);
    lemma_read_uint((bps - 1) as nat, 5, s4);
    lemma_read_uint_mod(total, 36, s5);
    lemma_read_zeros(128, rest);
}

proof fn lemma_read_zeros(n: nat, rest: Seq<bool>)
    ensures
        read_uint(bits::zero_bits(n) + rest, n) == Some((0nat, rest)),
{
    lemma_pow2_pos(n);
    bits::lemma_zero_bits(n);
    lemma_read_uint(0, n, rest);
}

proof fn lemma_read_sizes(min_block: nat, max_block: nat, rest: Seq<bool>)
    ensures
        read_sizes(
            bits::uint_bits(min_block, 16) + bits::uint_bits(max_block, 16) + bits::zero_bits(48)
                + rest,
        ) == Some(
            (
                BlockSizes {
                    min_block: min_block % 0x10000,
                    max_block: max_block % 0x10000,
                    min_frame: 0,
                    max_frame: 0,
                },
                rest,
            ),
        ),
{
    lemma2_to64();
    let s3 = bits::zero_bits(24) + rest;
    let s2 = bits::zero_bits(24) + s3;
    let s1 = bits::uint_bits(max_block, 16) + s2;
    assert(bits::zero_bits(24) + bits::zero_bits(24) =~= bits::zero_bits(48));
    assert(bits::uint_bits(min_block, 16) + bits::uint_bits(max_block, 16) + bits::zero_bits(48)
        + rest =~= bits::uint_bits(min_block, 16) + s1);
    lemma_read_uint_mod(min_block, 16, s1);
    lemma_read_uint_mod(max_block, 16, s2);
    lemma_read_zeros(24, s3);
    lemma_read_zeros(24, rest);
}

/// Every 16-bit sample fits in 16 bits or more.
pub proof fn lemma_fits16(v: i16, n: nat)
    requires
        n >= 16,
    ensures
        fits(v as int, n),
{
    lemma2_to64();
    if n > 16 {
        lemma_pow2_strictly_increases(15, (n - 1) as nat);
    }
}

/// A frame fills whole bytes.
pub proof fn lemma_frame_len(samples: Seq<i16>, channels: nat, sr: nat, bps: nat, number: nat)
    ensures
        flac_enc::frame_bits(samples, channels, sr, bps, number).len() % 8 == 0,
        flac_enc::frame_bits(samples, channels, sr, bps, number).len() >= 16,
{
    let body = flac_enc::body_bits(samples, channels, sr, bps, number);
    bits::lemma_uint_bits_len(crc::crc16_bits(body) as nat, 16);
}

/// How many bytes the header of a frame takes, its checksum among them.
pub open spec fn header_len(samples: Seq<i16>, channels: nat, sr: nat, bps: nat, number: nat) -> nat {
    flac_enc::header_bits(samples.len() / channels, channels, sr, bps, number).len() / 8 + 1
}

/// Every frame checks to zero: all of it under CRC-16, and its header with the
/// header's checksum under CRC-8.
pub proof fn frame_checks_to_zero(samples: Seq<i16>, channels: nat, sr: nat, bps: nat, number: nat)
    ensures
        ({
            let frame = flac_enc::frame_bytes(samples, channels, sr, bps, number);
            let header = header_len(samples, channels, sr, bps, number);
            &&& header <= frame.len()
            &&& crc::crc16_bits(bits::byte_bits(frame)) == 0
            &&& crc::crc8_bits(bits::byte_bits(frame.take(header as int))) == 0
        }),
{
    let header = flac_enc::header_bits(samples.len() / channels, channels, sr, bps, number);
    let checked = header + bits::uint_bits(crc::crc8_bits(header) as nat, 8);
    let subframes = flac_enc::subframes_bits(samples, channels, bps, channels);
    let open = checked + subframes;
    let pad = bits::zero_bits(bits::pad_len(open.len()));
    let body = flac_enc::body_bits(samples, channels, sr, bps, number);
    let check = bits::uint_bits(crc::crc16_bits(body) as nat, 16);
    let all = flac_enc::frame_bits(samples, channels, sr, bps, number);
    flac_enc::lemma_header_len(samples.len() / channels, channels, sr, bps, number);
    bits::lemma_uint_bits_len(crc::crc8_bits(header) as nat, 8);
    lemma_frame_len(samples, channels, sr, bps, number);
    bits::lemma_byte_bits_pack(all);
    crc::crc16_of_checked_string_is_zero(body);
    let rest = subframes + pad + check;
    assert(all =~= checked + rest);
    bits::lemma_pack_add(checked, rest);
    bits::lemma_byte_bits_pack(checked);
    bits::lemma_byte_bits_len(bits::pack_bits(checked));
    assert(flac_enc::frame_bytes(samples, channels, sr, bps, number).take(
        header_len(samples, channels, sr, bps, number) as int,
    ) =~= bits::pack_bits(checked));
    crc::crc8_of_checked_string_is_zero(header);
}

} // verus!
