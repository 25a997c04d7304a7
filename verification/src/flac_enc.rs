//! FLAC frames: fixed prediction of order one with Rice coding.
//!
//! The functions write standard FLAC; [`crate::flac_dec`] states how a reader
//! decodes it and proves that nothing is lost.
use crate::bits;
use crate::bits::BitWriter;
use crate::crc;
use crate::crc::{crc16, crc8};
use vstd::arithmetic::power2::*;
use vstd::prelude::*;

verus! {

// ---------------------------------------------------------------------------
// Format
// ---------------------------------------------------------------------------
/// The four-bit code of a block size: a listed size has a code of its own,
/// another one is written out after the header in one byte (6) or two (7).
pub open spec fn block_code(bs: nat) -> nat {
    if bs == 192 {
        1
    } else if bs == 576 {
        2
    } else if bs == 1152 {
        3
    } else if bs == 2304 {
        4
    } else if bs == 4608 {
        5
    } else if bs == 256 {
        8
    } else if bs == 512 {
        9
    } else if bs == 1024 {
        10
    } else if bs == 2048 {
        11
    } else if bs == 4096 {
        12
    } else if bs == 8192 {
        13
    } else if bs == 16384 {
        14
    } else if bs == 32768 {
        15
    } else if bs <= 256 {
        6
    } else {
        7
    }
}

/// The four-bit code of a sample rate: a listed rate has a code of its own,
/// another one is written out in kHz (12), in Hz (13) or in tens of Hz (14).
pub open spec fn rate_code(sr: nat) -> nat {
    if sr == 88200 {
        1
    } else if sr == 176400 {
        2
    } else if sr == 192000 {
        3
    } else if sr == 8000 {
        4
    } else if sr == 16000 {
        5
    } else if sr == 22050 {
        6
    } else if sr == 24000 {
        7
    } else if sr == 32000 {
        8
    } else if sr == 44100 {
        9
    } else if sr == 48000 {
        10
    } else if sr == 96000 {
        11
    } else if sr % 1000 == 0 && sr / 1000 <= 255 {
        12
    } else if sr <= 65535 {
        13
    } else {
        14
    }
}

/// The three-bit code of a sample size; 0 refers to the stream's own header.
pub open spec fn size_code(bps: nat) -> nat {
    if bps == 8 {
        1
    } else if bps == 12 {
        2
    } else if bps == 16 {
        4
    } else if bps == 20 {
        5
    } else if bps == 24 {
        6
    } else if bps == 32 {
        7
    } else {
        0
    }
}

/// A byte of six payload bits, the continuation byte of a coded number.
pub open spec fn continuation(v: nat) -> Seq<bool> {
    bits::uint_bits((128 + v % 64) as nat, 8)
}

/// The coding of a frame number in one to seven bytes, in the manner of UTF-8: the
/// first byte tells how many bytes follow, each of them holds six bits.
pub open spec fn coded_number(v: nat) -> Seq<bool> {
    if v < 0x80 {
        bits::uint_bits(v, 8)
    } else if v < 0x800 {
        bits::uint_bits((0xC0 + v / 64) as nat, 8) + continuation(v)
    } else if v < 0x10000 {
        bits::uint_bits((0xE0 + v / 4096) as nat, 8) + continuation(v / 64) + continuation(v)
    } else if v < 0x200000 {
        bits::uint_bits((0xF0 + v / 0x40000) as nat, 8) + continuation(v / 4096) + continuation(
            v / 64,
        ) + continuation(v)
    } else if v < 0x4000000 {
        bits::uint_bits((0xF8 + v / 0x1000000) as nat, 8) + continuation(v / 0x40000)
            + continuation(v / 4096) + continuation(v / 64) + continuation(v)
    } else if v < 0x80000000 {
        bits::uint_bits((0xFC + v / 0x40000000) as nat, 8) + continuation(v / 0x1000000)
            + continuation(v / 0x40000) + continuation(v / 4096) + continuation(v / 64)
            + continuation(v)
    } else {
        bits::uint_bits(0xFE, 8) + continuation(v / 0x40000000) + continuation(v / 0x1000000)
            + continuation(v / 0x40000) + continuation(v / 4096) + continuation(v / 64)
            + continuation(v)
    }
}

/// A number written out in `n` bits of two's complement.
pub open spec fn sint_bits(v: int, n: nat) -> Seq<bool> {
    bits::uint_bits((v % pow2(n) as int) as nat, n)
}

/// The frame header up to its checksum.
#[verifier::opaque]
pub open spec fn header_bits(bs: nat, channels: nat, sr: nat, bps: nat, number: nat) -> Seq<bool> {
    bits::uint_bits(0xFFF8, 16) + bits::uint_bits(block_code(bs), 4) + bits::uint_bits(
        rate_code(sr),
        4,
    ) + bits::uint_bits((channels - 1) as nat, 4) + bits::uint_bits(size_code(bps), 3)
        + bits::uint_bits(0, 1) + coded_number(number) + block_tail(bs) + rate_tail(sr)
}

/// The block size written out, where its code asks for it.
pub open spec fn block_tail(bs: nat) -> Seq<bool> {
    if block_code(bs) == 6 {
        bits::uint_bits((bs - 1) as nat, 8)
    } else if block_code(bs) == 7 {
        bits::uint_bits((bs - 1) as nat, 16)
    } else {
        Seq::empty()
    }
}

/// The sample rate written out, where its code asks for it.
pub open spec fn rate_tail(sr: nat) -> Seq<bool> {
    if rate_code(sr) == 12 {
        bits::uint_bits(sr / 1000, 8)
    } else if rate_code(sr) == 13 {
        bits::uint_bits(sr, 16)
    } else if rate_code(sr) == 14 {
        bits::uint_bits(sr / 10, 16)
    } else {
        Seq::empty()
    }
}

/// The samples of channel `c` out of interleaved samples.
pub open spec fn channel_samples(s: Seq<i16>, channels: nat, c: nat) -> Seq<i16> {
    Seq::new(channel_len(s.len(), channels, c), |j: int| s[j * channels + c])
}

/// How many of `len` interleaved samples belong to channel `c`.
pub open spec fn channel_len(len: nat, channels: nat, c: nat) -> nat {
    if len <= c || channels == 0 {
        0
    } else {
        ((len - c + channels - 1) / channels as int) as nat
    }
}

/// Maps the integers to the naturals: 0, -1, 1, -2, 2, ...
pub open spec fn fold(r: int) -> nat {
    if r >= 0 {
        (2 * r) as nat
    } else {
        (-2 * r - 1) as nat
    }
}

/// How many bits all residuals take in Rice code with parameter `k`: each takes its
/// quotient in unary, one bit that ends it, and `k` bits of remainder.
pub open spec fn rice_cost(res: Seq<i32>, k: nat) -> nat
    decreases res.len(),
{
    if res.len() == 0 {
        0
    } else {
        rice_cost(res.drop_last(), k) + fold(res.last() as int) / pow2(k) + 1 + k
    }
}

/// The least of the parameters up to `cap` that none of them undercuts.
pub open spec fn cheapest_param(res: Seq<i32>, cap: nat) -> nat
    decreases cap,
{
    if cap == 0 {
        0
    } else {
        let best = cheapest_param(res, (cap - 1) as nat);
        if rice_cost(res, cap) < rice_cost(res, best) {
            cap
        } else {
            best
        }
    }
}

/// The Rice parameter for residuals: the optimal one, capped at 14.
pub open spec fn rice_param(res: Seq<i32>) -> nat {
    cheapest_param(res, 14)
}

/// No parameter up to `cap` costs less than the chosen one, and none below it as
/// little.
proof fn lemma_cheapest_param(res: Seq<i32>, cap: nat)
    ensures
        cheapest_param(res, cap) <= cap,
        forall|j: nat|
            j <= cap ==> rice_cost(res, cheapest_param(res, cap)) <= #[trigger] rice_cost(res, j),
        forall|j: nat|
            j < cheapest_param(res, cap) ==> rice_cost(res, cheapest_param(res, cap))
                < #[trigger] rice_cost(res, j),
    decreases cap,
{
    if cap > 0 {
        lemma_cheapest_param(res, (cap - 1) as nat);
    }
}

/// The Rice parameter is optimal: no parameter up to 14 takes fewer bits, and no
/// smaller one as few.
pub proof fn rice_param_is_optimal(res: Seq<i32>)
    ensures
        rice_param(res) <= 14,
        forall|j: nat|
            j <= 14 ==> rice_cost(res, rice_param(res)) <= #[trigger] rice_cost(res, j),
        forall|j: nat|
            j < rice_param(res) ==> rice_cost(res, rice_param(res)) < #[trigger] rice_cost(res, j),
        res.len() == 0 ==> rice_param(res) == 0,
{
    lemma_cheapest_param(res, 14);
    if res.len() == 0 {
        assert(rice_cost(res, 0) == 0);
    }
}

/// Rice code takes as many bits as its cost tells.
pub proof fn rice_cost_is_length(res: Seq<i32>, k: nat)
    ensures
        all_rice_bits(res, k).len() == rice_cost(res, k),
    decreases res.len(),
{
    if res.len() > 0 {
        rice_cost_is_length(res.drop_last(), k);
        let f = fold(res.last() as int);
        lemma_pow2_pos(k);
        vstd::arithmetic::div_mod::lemma_div_pos_is_pos(f as int, pow2(k) as int);
        bits::lemma_uint_bits_len(f % pow2(k), k);
        assert(bits::zero_bits(f / pow2(k)).push(true).len() == f / pow2(k) + 1);
        assert(rice_bits(res.last() as int, k).len() == f / pow2(k) + 1 + k);
    }
}

/// Rice code with parameter `k`: the quotient in unary, the remainder in binary.
pub open spec fn rice_bits(r: int, k: nat) -> Seq<bool> {
    bits::zero_bits(fold(r) / pow2(k)).push(true) + bits::uint_bits(fold(r) % pow2(k), k)
}

pub open spec fn all_rice_bits(res: Seq<i32>, k: nat) -> Seq<bool>
    decreases res.len(),
{
    if res.len() == 0 {
        Seq::empty()
    } else {
        all_rice_bits(res.drop_last(), k) + rice_bits(res.last() as int, k)
    }
}

pub open spec fn all_raw_bits(res: Seq<i32>, n: nat) -> Seq<bool>
    decreases res.len(),
{
    if res.len() == 0 {
        Seq::empty()
    } else {
        all_raw_bits(res.drop_last(), n) + sint_bits(res.last() as int, n)
    }
}

/// Whether some residual has too long a Rice code, so that all are written raw.
pub open spec fn needs_escape(res: Seq<i32>, k: nat) -> bool {
    exists|i: int| 0 <= i < res.len() && fold(#[trigger] res[i] as int) / pow2(k) > 128
}

/// The residual section of a subframe: one partition, Rice coded or raw.
pub open spec fn residual_bits(res: Seq<i32>) -> Seq<bool> {
    let k = rice_param(res);
    let start = bits::uint_bits(0, 2) + bits::uint_bits(0, 4);
    if needs_escape(res, k) {
        start + bits::uint_bits(15, 4) + bits::uint_bits(17, 5) + all_raw_bits(res, 17)
    } else {
        start + bits::uint_bits(k, 4) + all_rice_bits(res, k)
    }
}

/// The difference of each sample but the first to its predecessor.
pub open spec fn differences(s: Seq<i16>) -> Seq<i32> {
    Seq::new((s.len() - 1) as nat, |i: int| (s[i + 1] - s[i]) as i32)
}

pub open spec fn all_equal(s: Seq<i16>) -> bool {
    forall|i: int| 0 <= i < s.len() ==> #[trigger] s[i] == s[0]
}

/// One channel of a frame: a constant, or its first sample and the differences.
pub open spec fn subframe_bits(s: Seq<i16>, bps: nat) -> Seq<bool> {
    if s.len() == 0 {
        Seq::empty()
    } else if all_equal(s) {
        bits::uint_bits(0, 1) + bits::uint_bits(0, 6) + bits::uint_bits(0, 1) + sint_bits(
            s[0] as int,
            bps,
        )
    } else {
        bits::uint_bits(0, 1) + bits::uint_bits(9, 6) + bits::uint_bits(0, 1) + sint_bits(
            s[0] as int,
            bps,
        ) + residual_bits(differences(s))
    }
}

/// The first `n` channels of a frame, one after the other.
pub open spec fn subframes_bits(s: Seq<i16>, channels: nat, bps: nat, n: nat) -> Seq<bool>
    decreases n,
{
    if n == 0 {
        Seq::empty()
    } else {
        subframes_bits(s, channels, bps, (n - 1) as nat) + subframe_bits(
            channel_samples(s, channels, (n - 1) as nat),
            bps,
        )
    }
}

/// Everything that the frame's own checksum covers.
pub open spec fn body_bits(
    s: Seq<i16>,
    channels: nat,
    sr: nat,
    bps: nat,
    number: nat,
) -> Seq<bool> {
    let header = header_bits(s.len() / channels, channels, sr, bps, number);
    let open = header + bits::uint_bits(crc::crc8_bits(header) as nat, 8) + subframes_bits(
        s,
        channels,
        bps,
        channels,
    );
    open + bits::zero_bits(bits::pad_len(open.len()))
}

/// A whole frame: header, header checksum, subframes, padding, checksum.
pub open spec fn frame_bits(
    s: Seq<i16>,
    channels: nat,
    sr: nat,
    bps: nat,
    number: nat,
) -> Seq<bool> {
    let body = body_bits(s, channels, sr, bps, number);
    body + bits::uint_bits(crc::crc16_bits(body) as nat, 16)
}

/// The bytes of a whole frame.
pub open spec fn frame_bytes(
    s: Seq<i16>,
    channels: nat,
    sr: nat,
    bps: nat,
    number: nat,
) -> Seq<u8> {
    bits::pack_bits(frame_bits(s, channels, sr, bps, number))
}

// ---------------------------------------------------------------------------
// Stream header
// ---------------------------------------------------------------------------
/// The data of the STREAMINFO block: smallest and largest block, frame sizes
/// unknown, sample rate, channels, sample size, number of samples, no signature.
pub open spec fn streaminfo_bits(
    min_block: nat,
    max_block: nat,
    sr: nat,
    channels: nat,
    bps: nat,
    total: nat,
) -> Seq<bool> {
    bits::uint_bits(min_block, 16) + bits::uint_bits(max_block, 16) + bits::zero_bits(48)
        + bits::uint_bits(sr, 20) + bits::uint_bits((channels - 1) as nat, 3) + bits::uint_bits(
        (bps - 1) as nat,
        5,
    ) + bits::uint_bits(total, 36) + bits::zero_bits(128)
}

/// Build the 34 bytes of STREAMINFO data; see [`streaminfo_bits`].
pub fn build_streaminfo(
    min_block: u16,
    max_block: u16,
    sample_rate: u32,
    channels: u16,
    bits_per_sample: u16,
    total_samples: u64,
) -> (si: [u8; 34])
    requires
        channels >= 1,
        bits_per_sample >= 1,
    ensures
        bits::byte_bits(si@) == streaminfo_bits(
            min_block as nat,
            max_block as nat,
            sample_rate as nat,
            channels as nat,
            bits_per_sample as nat,
            total_samples as nat,
        ),
{
    let mut w = BitWriter::new();
    w.write_bits(min_block as u64, 16);
    w.write_bits(max_block as u64, 16);
    w.write_bits(0, 48);
    w.write_bits(sample_rate as u64, 20);
    w.write_bits((channels - 1) as u64, 3);
    w.write_bits((bits_per_sample - 1) as u64, 5);
    w.write_bits(total_samples, 36);
    w.write_bits(0, 64);
    w.write_bits(0, 64);
    let ghost written = w@;
    let bytes: Vec<u8> = w.into_bytes();
    proof {
        lemma_streaminfo_len(
            min_block as nat,
            max_block as nat,
            sample_rate as nat,
            channels as nat,
            bits_per_sample as nat,
            total_samples as nat,
        );
        bits::lemma_zero_bits(48);
        bits::lemma_zero_bits(64);
        assert(bits::zero_bits(128) =~= bits::zero_bits(64) + bits::zero_bits(64));
        assert(written =~= streaminfo_bits(
            min_block as nat,
            max_block as nat,
            sample_rate as nat,
            channels as nat,
            bits_per_sample as nat,
            total_samples as nat,
        ));
        assert(written + bits::zero_bits(0) =~= written);
        bits::lemma_byte_bits_len(bytes@);
    }
    let mut si: [u8; 34] = [0;34];
    let mut i: usize = 0;
    while i < 34
        invariant
            i <= 34,
            bytes.len() == 34,
            forall|j: int| 0 <= j < i ==> #[trigger] si@[j] == bytes@[j],
        decreases 34 - i,
    {
        si[i] = bytes[i];
        i = i + 1;
    }
    assert(si@ =~= bytes@);
    si
}

pub proof fn lemma_streaminfo_len(
    min_block: nat,
    max_block: nat,
    sr: nat,
    channels: nat,
    bps: nat,
    total: nat,
)
    ensures
        streaminfo_bits(min_block, max_block, sr, channels, bps, total).len() == 272,
{
    bits::lemma_uint_bits_len(min_block, 16);
    bits::lemma_uint_bits_len(max_block, 16);
    bits::lemma_uint_bits_len(sr, 20);
    bits::lemma_uint_bits_len((channels - 1) as nat, 3);
    bits::lemma_uint_bits_len((bps - 1) as nat, 5);
    bits::lemma_uint_bits_len(total, 36);
}

// ---------------------------------------------------------------------------
// Frame header
// ---------------------------------------------------------------------------
/// See [`block_code`].
pub fn block_size_code(bs: usize) -> (code: u8)
    ensures
        code == block_code(bs as nat),
{
    match bs {
        192 => 1,
        576 => 2,
        1152 => 3,
        2304 => 4,
        4608 => 5,
        256 => 8,
        512 => 9,
        1024 => 10,
        2048 => 11,
        4096 => 12,
        8192 => 13,
        16384 => 14,
        32768 => 15,
        _ => if bs <= 256 {
            6
        } else {
            7
        },
    }
}

/// See [`rate_code`].
pub fn sample_rate_code(sr: u32) -> (code: u8)
    ensures
        code == rate_code(sr as nat),
{
    match sr {
        88200 => 1,
        176400 => 2,
        192000 => 3,
        8000 => 4,
        16000 => 5,
        22050 => 6,
        24000 => 7,
        32000 => 8,
        44100 => 9,
        48000 => 10,
        96000 => 11,
        _ => if sr % 1000 == 0 && sr / 1000 <= 255 {
            12
        } else if sr <= 65535 {
            13
        } else {
            14
        },
    }
}

/// See [`size_code`].
pub fn sample_size_code(bps: u16) -> (code: u8)
    ensures
        code == size_code(bps as nat),
{
    match bps {
        8 => 1,
        12 => 2,
        16 => 4,
        20 => 5,
        24 => 6,
        32 => 7,
        _ => 0,
    }
}

fn write_continuation(w: &mut BitWriter, val: u32)
    requires
        old(w).wf(),
    ensures
        final(w).wf(),
        final(w)@ == old(w)@ + continuation(val as nat),
{
    w.write_bits((128 + val % 64) as u64, 8);
}

/// Writes a frame number; see [`coded_number`].
pub fn write_utf8_coded(w: &mut BitWriter, val: u32)
    requires
        old(w).wf(),
    ensures
        final(w).wf(),
        final(w)@ == old(w)@ + coded_number(val as nat),
{
    if val < 0x80 {
        w.write_bits(val as u64, 8);
    } else if val < 0x800 {
        w.write_bits((0xC0 + val / 64) as u64, 8);
        write_continuation(w, val);
        assert(w@ =~= old(w)@ + coded_number(val as nat));
    } else if val < 0x10000 {
        w.write_bits((0xE0 + val / 4096) as u64, 8);
        write_continuation(w, val / 64);
        write_continuation(w, val);
        assert(w@ =~= old(w)@ + coded_number(val as nat));
    } else if val < 0x200000 {
        w.write_bits((0xF0 + val / 0x40000) as u64, 8);
        write_continuation(w, val / 4096);
        write_continuation(w, val / 64);
        write_continuation(w, val);
        assert(w@ =~= old(w)@ + coded_number(val as nat));
    } else if val < 0x4000000 {
        w.write_bits((0xF8 + val / 0x1000000) as u64, 8);
        write_continuation(w, val / 0x40000);
        write_continuation(w, val / 4096);
        write_continuation(w, val / 64);
        write_continuation(w, val);
        assert(w@ =~= old(w)@ + coded_number(val as nat));
    } else if val < 0x80000000 {
        w.write_bits((0xFC + val / 0x40000000) as u64, 8);
        write_continuation(w, val / 0x1000000);
        write_continuation(w, val / 0x40000);
        write_continuation(w, val / 4096);
        write_continuation(w, val / 64);
        write_continuation(w, val);
        assert(w@ =~= old(w)@ + coded_number(val as nat));
    } else {
        w.write_bits(0xFE, 8);
        write_continuation(w, val / 0x40000000);
        write_continuation(w, val / 0x1000000);
        write_continuation(w, val / 0x40000);
        write_continuation(w, val / 4096);
        write_continuation(w, val / 64);
        write_continuation(w, val);
        assert(w@ =~= old(w)@ + coded_number(val as nat));
    }
}

fn write_header(
    w: &mut BitWriter,
    block_size: usize,
    channels: u16,
    sample_rate: u32,
    bits_per_sample: u16,
    frame_number: u32,
)
    requires
        old(w).wf(),
        block_size >= 1,
        channels >= 1,
    ensures
        final(w).wf(),
        final(w)@ == old(w)@ + header_bits(
            block_size as nat,
            channels as nat,
            sample_rate as nat,
            bits_per_sample as nat,
            frame_number as nat,
        ),
{
    // sync code, reserved bit, fixed block size
    w.write_bits(0xFFF8, 16);
    let bs_code: u8 = block_size_code(block_size);
    let sr_code: u8 = sample_rate_code(sample_rate);
    w.write_bits(bs_code as u64, 4);
    w.write_bits(sr_code as u64, 4);
    w.write_bits((channels - 1) as u64, 4);
    w.write_bits(sample_size_code(bits_per_sample) as u64, 3);
    w.write_bits(0, 1);
    write_utf8_coded(w, frame_number);
    let ghost fixed = w@;
    if bs_code == 6 {
        w.write_bits((block_size - 1) as u64, 8);
    } else if bs_code == 7 {
        w.write_bits((block_size - 1) as u64, 16);
    }
    assert(w@ =~= fixed + block_tail(block_size as nat));
    let ghost sized = w@;
    if sr_code == 12 {
        w.write_bits((sample_rate / 1000) as u64, 8);
    } else if sr_code == 13 {
        w.write_bits(sample_rate as u64, 16);
    } else if sr_code == 14 {
        w.write_bits((sample_rate / 10) as u64, 16);
    }
    assert(w@ =~= sized + rate_tail(sample_rate as nat));
    reveal(header_bits);
    assert(w@ =~= old(w)@ + header_bits(
        block_size as nat,
        channels as nat,
        sample_rate as nat,
        bits_per_sample as nat,
        frame_number as nat,
    ));
}

// ---------------------------------------------------------------------------
// Subframes
// ---------------------------------------------------------------------------
fn write_signed(w: &mut BitWriter, v: i32, count: u8)
    requires
        old(w).wf(),
        count <= 64,
    ensures
        final(w).wf(),
        final(w)@ == old(w)@ + sint_bits(v as int, count as nat),
{
    let u: u64 = if v >= 0 {
        v as u64
    } else {
        u64::MAX - (-1 - v) as u64
    };
    proof {
        let n = count as nat;
        let p = pow2(n) as int;
        lemma_pow2_pos(n);
        lemma2_to64();
        lemma2_to64_rest();
        assert(u as int % p == v as int % p) by {
            if v < 0 {
                let m = (64 - n) as nat;
                lemma_pow2_adds(n, m);
                assert(u as int == v + p * pow2(m) as int);
                vstd::arithmetic::div_mod::lemma_mod_multiples_vanish(pow2(m) as int, v as int, p);
                assert(p * pow2(m) as int + v == u);
            }
        }
        vstd::arithmetic::div_mod::lemma_mod_twice(v as int, p);
        bits::lemma_uint_bits_mod(u as nat, (v as int % p) as nat, n);
    }
    w.write_bits(u, count);
}

fn folded(r: i32) -> (f: u32)
    ensures
        f == fold(r as int),
{
    if r >= 0 {
        2 * (r as u32)
    } else {
        2 * ((-1 - r) as u32) + 1
    }
}

/// The cost of the residuals for one parameter; see [`rice_cost`].
fn cost_of(residuals: &[i32], k: u8) -> (cost: u128)
    requires
        k <= 14,
    ensures
        cost == rice_cost(residuals@, k as nat),
{
    let scale: u32 = 1u32 << (k as u32);
    proof {
        lemma_scale(k);
    }
    let mut cost: u128 = 0;
    let mut i: usize = 0;
    assert(residuals@.take(0) =~= Seq::empty());
    while i < residuals.len()
        invariant
            i <= residuals.len(),
            k <= 14,
            scale == pow2(k as nat),
            scale > 0,
            cost == rice_cost(residuals@.take(i as int), k as nat),
            cost <= 0x1_0000_000F * i,
        decreases residuals.len() - i,
    {
        assert(residuals@.take(i + 1).drop_last() =~= residuals@.take(i as int));
        let f: u32 = folded(residuals[i]);
        assert(f / scale <= f) by (nonlinear_arith)
            requires
                scale > 0,
        ;
        cost = cost + (f / scale) as u128 + 1 + k as u128;
        i = i + 1;
    }
    assert(residuals@.take(residuals@.len() as int) =~= residuals@);
    cost
}

proof fn lemma_scale(k: u8)
    requires
        k <= 14,
    ensures
        1u32 << (k as u32) == pow2(k as nat),
        pow2(k as nat) > 0,
{
    lemma2_to64();
    lemma_pow2_strictly_increases(k as nat, 15);
    vstd::bits::lemma_u32_shl_is_mul(1, k as u32);
    lemma_pow2_pos(k as nat);
}

/// The optimal Rice parameter for a partition of residuals, capped at 14; the least
/// one where several are optimal.
pub fn choose_rice_param(residuals: &[i32]) -> (k: u8)
    ensures
        k == rice_param(residuals@),
        k <= 14,
        forall|j: nat|
            j <= 14 ==> rice_cost(residuals@, k as nat) <= #[trigger] rice_cost(residuals@, j),
        residuals@.len() == 0 ==> k == 0,
{
    let mut best: u8 = 0;
    let mut least: u128 = cost_of(residuals, 0);
    let mut k: u8 = 0;
    while k < 14
        invariant
            k <= 14,
            best == cheapest_param(residuals@, k as nat),
            least == rice_cost(residuals@, best as nat),
        decreases 14 - k,
    {
        k = k + 1;
        let cost: u128 = cost_of(residuals, k);
        if cost < least {
            best = k;
            least = cost;
        }
    }
    proof {
        rice_param_is_optimal(residuals@);
    }
    best
}

/// Writes the residual section of a subframe; see [`residual_bits`].
pub fn encode_residuals(w: &mut BitWriter, residuals: &[i32])
    requires
        old(w).wf(),
    ensures
        final(w).wf(),
        final(w)@ == old(w)@ + residual_bits(residuals@),
{
    // coding method: partitioned Rice with a four-bit parameter
    w.write_bits(0, 2);
    // partition order zero: one partition for all residuals
    w.write_bits(0, 4);
    let ghost start = w@;
    let k: u8 = choose_rice_param(residuals);
    let scale: u32 = 1u32 << (k as u32);
    proof {
        lemma_scale(k);
    }
    let mut escape: bool = false;
    let mut i: usize = 0;
    while i < residuals.len()
        invariant
            i <= residuals.len(),
            scale == pow2(k as nat),
            scale > 0,
            escape <==> exists|j: int|
                0 <= j < i && fold(#[trigger] residuals@[j] as int) / pow2(k as nat) > 128,
        decreases residuals.len() - i,
    {
        if folded(residuals[i]) / scale > 128 {
            escape = true;
            assert(fold(residuals@[i as int] as int) / pow2(k as nat) > 128);
        }
        i = i + 1;
    }
    assert(escape == needs_escape(residuals@, k as nat));
    if escape {
        w.write_bits(15, 4);
        w.write_bits(17, 5);
        let ghost head = w@;
        let mut j: usize = 0;
        assert(residuals@.take(0) =~= Seq::empty());
        assert(w@ =~= head + all_raw_bits(residuals@.take(0), 17));
        while j < residuals.len()
            invariant
                j <= residuals.len(),
                w.wf(),
                w@ == head + all_raw_bits(residuals@.take(j as int), 17),
            decreases residuals.len() - j,
        {
            write_signed(w, residuals[j], 17);
            assert(residuals@.take(j + 1).drop_last() =~= residuals@.take(j as int));
            j = j + 1;
            assert(w@ =~= head + all_raw_bits(residuals@.take(j as int), 17));
        }
        assert(residuals@.take(residuals@.len() as int) =~= residuals@);
        assert(w@ =~= old(w)@ + residual_bits(residuals@));
    } else {
        w.write_bits(k as u64, 4);
        let ghost head = w@;
        let mut j: usize = 0;
        assert(residuals@.take(0) =~= Seq::empty());
        assert(w@ =~= head + all_rice_bits(residuals@.take(0), k as nat));
        while j < residuals.len()
            invariant
                j <= residuals.len(),
                k <= 14,
                scale == pow2(k as nat),
                scale > 0,
                w.wf(),
                w@ == head + all_rice_bits(residuals@.take(j as int), k as nat),
            decreases residuals.len() - j,
        {
            let f: u32 = folded(residuals[j]);
            w.write_unary(f / scale);
            w.write_bits((f % scale) as u64, k);
            assert(residuals@.take(j + 1).drop_last() =~= residuals@.take(j as int));
            j = j + 1;
            assert(w@ =~= head + all_rice_bits(residuals@.take(j as int), k as nat));
        }
        assert(residuals@.take(residuals@.len() as int) =~= residuals@);
        assert(w@ =~= old(w)@ + residual_bits(residuals@));
    }
}

fn encode_subframe_fixed1(w: &mut BitWriter, samples: &[i16], bps: u16)
    requires
        old(w).wf(),
        samples.len() >= 1,
        !all_equal(samples@),
        bps < 64,
    ensures
        final(w).wf(),
        final(w)@ == old(w)@ + subframe_bits(samples@, bps as nat),
{
    w.write_bits(0, 1);
    // fixed predictor, order one
    w.write_bits(9, 6);
    w.write_bits(0, 1);
    write_signed(w, samples[0] as i32, bps as u8);
    let ghost head = w@;
    let mut residuals: Vec<i32> = Vec::new();
    let mut i: usize = 1;
    while i < samples.len()
        invariant
            1 <= i <= samples.len(),
            residuals.len() == i - 1,
            forall|j: int|
                0 <= j < i - 1 ==> #[trigger] residuals@[j] == samples@[j + 1] - samples@[j],
        decreases samples.len() - i,
    {
        residuals.push(samples[i] as i32 - samples[i - 1] as i32);
        i = i + 1;
    }
    assert(residuals@ =~= differences(samples@));
    encode_residuals(w, residuals.as_slice());
    assert(w@ =~= old(w)@ + subframe_bits(samples@, bps as nat));
}

/// Writes one channel of a frame; see [`subframe_bits`].
pub fn encode_subframe(w: &mut BitWriter, samples: &[i16], bps: u16)
    requires
        old(w).wf(),
        bps < 64,
    ensures
        final(w).wf(),
        final(w)@ == old(w)@ + subframe_bits(samples@, bps as nat),
{
    if samples.len() == 0 {
        assert(w@ =~= old(w)@ + subframe_bits(samples@, bps as nat));
        return ;
    }
    let first: i16 = samples[0];
    let mut constant: bool = true;
    let mut i: usize = 0;
    while i < samples.len()
        invariant
            i <= samples.len(),
            samples.len() > 0,
            first == samples@[0],
            constant <==> forall|j: int| 0 <= j < i ==> #[trigger] samples@[j] == samples@[0],
        decreases samples.len() - i,
    {
        if samples[i] != first {
            constant = false;
        }
        i = i + 1;
    }
    if constant {
        w.write_bits(0, 1);
        w.write_bits(0, 6);
        w.write_bits(0, 1);
        write_signed(w, first as i32, bps as u8);
        assert(w@ =~= old(w)@ + subframe_bits(samples@, bps as nat));
    } else {
        encode_subframe_fixed1(w, samples, bps);
    }
}

proof fn lemma_channel_len(len: nat, channels: nat, c: nat, n: nat)
    requires
        channels > 0,
        c < channels <= len,
        n * channels + c >= len,
        n == 0 || (n - 1) * channels + c < len,
    ensures
        n == channel_len(len, channels, c),
{
    assert(n > 0);
    let t = len - c + channels - 1;
    let q = t / channels as int;
    assert(n * channels <= t < (n + 1) * channels) by (nonlinear_arith)
        requires
            n > 0,
            n * channels + c >= len,
            (n - 1) * channels + c < len,
            t == len - c + channels - 1,
    ;
    vstd::arithmetic::div_mod::lemma_fundamental_div_mod_converse(
        t,
        channels as int,
        n as int,
        t - n * channels,
    );
}

fn channel_of(interleaved: &[i16], channels: usize, c: usize) -> (out: Vec<i16>)
    requires
        c < channels <= interleaved.len(),
    ensures
        out@ == channel_samples(interleaved@, channels as nat, c as nat),
{
    let mut out: Vec<i16> = Vec::new();
    let mut pos: usize = c;
    let mut more: bool = true;
    assert(0 * channels == 0) by (nonlinear_arith);
    while more
        invariant
            c < channels <= interleaved.len(),
            more ==> pos < interleaved.len() && pos == out.len() * channels + c,
            !more ==> out.len() * channels + c >= interleaved.len() && out.len() > 0 && (out.len()
                - 1) * channels + c < interleaved.len(),
            forall|j: int|
                0 <= j < out.len() ==> #[trigger] out@[j] == interleaved@[j * channels + c],
        decreases (if more { interleaved.len() - pos } else { 0 }),
    {
        let ghost n = out.len();
        out.push(interleaved[pos]);
        assert((n + 1) * channels + c == n * channels + c + channels) by (nonlinear_arith);
        if interleaved.len() - pos > channels {
            pos = pos + channels;
        } else {
            more = false;
        }
    }
    proof {
        lemma_channel_len(interleaved.len() as nat, channels as nat, c as nat, out@.len());
        assert(out@ =~= channel_samples(interleaved@, channels as nat, c as nat));
    }
    out
}

/// Encodes one block of interleaved samples into a complete frame.
pub fn encode_frame(
    interleaved: &[i16],
    channels: u16,
    sample_rate: u32,
    bits_per_sample: u16,
    frame_number: u32,
) -> (frame: Vec<u8>)
    requires
        1 <= channels <= interleaved.len(),
        bits_per_sample < 64,
    ensures
        frame@ == frame_bytes(
            interleaved@,
            channels as nat,
            sample_rate as nat,
            bits_per_sample as nat,
            frame_number as nat,
        ),
{
    let ch: usize = channels as usize;
    let block_size: usize = interleaved.len() / ch;
    proof {
        vstd::arithmetic::div_mod::lemma_div_non_zero(interleaved.len() as int, ch as int);
        lemma_header_len(
            block_size as nat,
            channels as nat,
            sample_rate as nat,
            bits_per_sample as nat,
            frame_number as nat,
        );
    }
    let ghost header = header_bits(
        block_size as nat,
        channels as nat,
        sample_rate as nat,
        bits_per_sample as nat,
        frame_number as nat,
    );
    let mut w = BitWriter::new();
    write_header(&mut w, block_size, channels, sample_rate, bits_per_sample, frame_number);
    assert(w@ =~= header);
    assert(header.take(header.len() as int) =~= header);
    let header_crc: u8 = crc8(w.bytes());
    w.write_bits(header_crc as u64, 8);
    let ghost head = w@;
    let mut c: usize = 0;
    assert(w@ =~= head + subframes_bits(interleaved@, channels as nat, bits_per_sample as nat, 0));
    while c < ch
        invariant
            c <= ch == channels,
            1 <= channels <= interleaved.len(),
            bits_per_sample < 64,
            w.wf(),
            w@ == head + subframes_bits(
                interleaved@,
                channels as nat,
                bits_per_sample as nat,
                c as nat,
            ),
        decreases ch - c,
    {
        let samples: Vec<i16> = channel_of(interleaved, ch, c);
        encode_subframe(&mut w, samples.as_slice(), bits_per_sample);
        c = c + 1;
        assert(w@ =~= head + subframes_bits(
            interleaved@,
            channels as nat,
            bits_per_sample as nat,
            c as nat,
        ));
    }
    w.byte_align();
    let ghost body = body_bits(
        interleaved@,
        channels as nat,
        sample_rate as nat,
        bits_per_sample as nat,
        frame_number as nat,
    );
    assert(w@ =~= body);
    assert(body.take(body.len() as int) =~= body);
    let frame_crc: u16 = crc16(w.bytes());
    w.write_bits(frame_crc as u64, 16);
    let ghost whole = w@;
    let frame = w.into_bytes();
    proof {
        bits::lemma_uint_bits_len(frame_crc as nat, 16);
        assert(whole + bits::zero_bits(0) =~= whole);
        bits::lemma_pack_byte_bits(frame@);
    }
    frame
}

/// A frame header fills whole bytes.
pub proof fn lemma_header_len(bs: nat, channels: nat, sr: nat, bps: nat, number: nat)
    ensures
        header_bits(bs, channels, sr, bps, number).len() % 8 == 0,
        header_bits(bs, channels, sr, bps, number).len() >= 40,
{
    reveal(header_bits);
    bits::lemma_uint_bits_len(0xFFF8, 16);
    bits::lemma_uint_bits_len(block_code(bs), 4);
    bits::lemma_uint_bits_len(rate_code(sr), 4);
    bits::lemma_uint_bits_len((channels - 1) as nat, 4);
    bits::lemma_uint_bits_len(size_code(bps), 3);
    bits::lemma_uint_bits_len(0, 1);
    lemma_coded_number_len(number);
    bits::lemma_uint_bits_len((bs - 1) as nat, 8);
    bits::lemma_uint_bits_len((bs - 1) as nat, 16);
    bits::lemma_uint_bits_len(sr / 1000, 8);
    bits::lemma_uint_bits_len(sr, 16);
    bits::lemma_uint_bits_len(sr / 10, 16);
}

proof fn lemma_coded_number_len(v: nat)
    ensures
        coded_number(v).len() % 8 == 0,
        coded_number(v).len() >= 8,
{
    bits::lemma_uint_bits_len(v, 8);
    bits::lemma_uint_bits_len((0xC0 + v / 64) as nat, 8);
    bits::lemma_uint_bits_len((0xE0 + v / 4096) as nat, 8);
    bits::lemma_uint_bits_len((0xF0 + v / 0x40000) as nat, 8);
    bits::lemma_uint_bits_len((0xF8 + v / 0x1000000) as nat, 8);
    bits::lemma_uint_bits_len((0xFC + v / 0x40000000) as nat, 8);
    bits::lemma_uint_bits_len(0xFE, 8);
    bits::lemma_uint_bits_len((128 + v % 64) as nat, 8);
    bits::lemma_uint_bits_len((128 + (v / 64) % 64) as nat, 8);
    bits::lemma_uint_bits_len((128 + (v / 4096) % 64) as nat, 8);
    bits::lemma_uint_bits_len((128 + (v / 0x40000) % 64) as nat, 8);
    bits::lemma_uint_bits_len((128 + (v / 0x1000000) % 64) as nat, 8);
    bits::lemma_uint_bits_len((128 + (v / 0x40000000) % 64) as nat, 8);
}

/// A channel whose samples are all equal takes one sample, however long it is.
pub proof fn equal_samples_take_one(s: Seq<i16>, bps: nat)
    requires
        s.len() > 0,
        forall|i: int| 0 <= i < s.len() ==> #[trigger] s[i] == s[0],
    ensures
        subframe_bits(s, bps).len() == 8 + bps,
{
    bits::lemma_uint_bits_len(0, 1);
    bits::lemma_uint_bits_len(0, 6);
    bits::lemma_uint_bits_len((s[0] as int % pow2(bps) as int) as nat, bps);
}

proof fn lemma_raw_len(res: Seq<i32>, n: nat)
    ensures
        all_raw_bits(res, n).len() == n * res.len(),
    decreases res.len(),
{
    if res.len() > 0 {
        lemma_raw_len(res.drop_last(), n);
        bits::lemma_uint_bits_len((res.last() as int % pow2(n) as int) as nat, n);
        assert(n * (res.len() - 1) + n == n * res.len()) by (nonlinear_arith);
    } else {
        assert(n * 0 == 0) by (nonlinear_arith);
    }
}

/// Residuals take as few bits as the best Rice parameter lets them, behind ten bits that
/// tell it; where a code would have more than 128 bits in unary, all of them take 17 bits,
/// behind fifteen.
pub proof fn residuals_take_few_bits(res: Seq<i32>)
    ensures
        (forall|i: int|
            0 <= i < res.len() ==> fold(#[trigger] res[i] as int) / pow2(rice_param(res)) <= 128)
            ==> residual_bits(res).len() == 10 + rice_cost(res, rice_param(res)),
        (exists|i: int|
            0 <= i < res.len() && fold(#[trigger] res[i] as int) / pow2(rice_param(res)) > 128)
            ==> residual_bits(res).len() == 15 + 17 * res.len(),
{
    let k = rice_param(res);
    bits::lemma_uint_bits_len(0, 2);
    bits::lemma_uint_bits_len(0, 4);
    bits::lemma_uint_bits_len(15, 4);
    bits::lemma_uint_bits_len(17, 5);
    bits::lemma_uint_bits_len(k, 4);
    lemma_raw_len(res, 17);
    rice_cost_is_length(res, k);
    if needs_escape(res, k) {
        let i = choose|i: int|
            0 <= i < res.len() && fold(#[trigger] res[i] as int) / pow2(k) > 128;
        assert(fold(res[i] as int) / pow2(k) > 128);
    }
}

/// Folding keeps numbers apart and small ones small: twice the magnitude, less one for
/// negative numbers.
pub proof fn folding_orders_by_magnitude(a: int, b: int)
    ensures
        fold(a) == fold(b) ==> a == b,
        a >= 0 ==> fold(a) == a + a,
        a < 0 ==> fold(a) == -a - a - 1,
{
}

} // verus!
