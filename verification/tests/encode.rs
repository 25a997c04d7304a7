use stereo_mix::bits::BitWriter;
use stereo_mix::crc::{crc16, crc8};
use stereo_mix::encoder::AudioPacket;
use stereo_mix::error::EncodeError;
use stereo_mix::flac_enc::{
    block_size_code, build_streaminfo, choose_rice_param, encode_frame, encode_residuals,
    sample_rate_code, sample_size_code, write_utf8_coded,
};
use stereo_mix::flac_mux::FlacMuxer;
use stereo_mix::lame::Mp3Bitrate;
use stereo_mix::mp3::{nearest_bitrate, Mp3Muxer};
use stereo_mix::muxer::{
    create_muxer, patch_total_samples, AudioMuxer, ContainerFormat, Finish, Muxer, Patch,
};
use stereo_mix::types::PcmFormat;
use stereo_mix::wav::WavMuxer;

const SR: u32 = 48000;
const CH: u16 = 2;

fn format(sample_rate: u32, channels: u16, bit_depth: u16) -> PcmFormat {
    PcmFormat { sample_rate, channels, bit_depth }
}

fn packet(data: Vec<u8>) -> AudioPacket {
    AudioPacket { data, pts: 0, duration: 1024, is_key: true }
}

/// One second of 440 Hz stereo as interleaved little-endian bytes.
fn sine_pcm() -> Vec<u8> {
    let mut out = Vec::new();
    for i in 0..SR {
        let t = i as f32 / SR as f32;
        let s = ((t * 440.0 * std::f32::consts::TAU).sin() * 0.7 * i16::MAX as f32) as i16;
        out.extend_from_slice(&s.to_le_bytes());
        out.extend_from_slice(&s.to_le_bytes());
    }
    out
}

fn apply(file: &mut Vec<u8>, finish: Finish) {
    file.extend_from_slice(&finish.append);
    for patch in finish.patches {
        match patch {
            Patch::Put { offset, bytes } => {
                let at = offset as usize;
                file[at..at + bytes.len()].copy_from_slice(&bytes);
            }
            Patch::TotalSamples { total } => {
                let bytes = patch_total_samples(&file[21..26], total);
                file[21..26].copy_from_slice(&bytes);
            }
        }
    }
}

/// The file that a muxer writes from PCM in packets of `size` bytes.
fn record(mut muxer: Muxer, fmt: &PcmFormat, pcm: &[u8], size: usize) -> Vec<u8> {
    let mut file = muxer.open(fmt, "libopus", 128).unwrap();
    for chunk in pcm.chunks(size) {
        file.extend_from_slice(&muxer.write_packet(&packet(chunk.to_vec())).unwrap());
    }
    let finish = muxer.finalize().unwrap();
    apply(&mut file, finish);
    file
}

fn samples_of(pcm: &[u8]) -> Vec<i16> {
    pcm.chunks_exact(2).map(|s| i16::from_le_bytes([s[0], s[1]])).collect()
}

#[test]
fn crc8_known() {
    assert_eq!(crc8(&[]), 0);
    assert_eq!(crc8(&[0xFF]), 0xF3);
}

#[test]
fn crc16_known() {
    assert_eq!(crc16(&[]), 0);
}

#[test]
fn crc_check_values() {
    let digits = b"123456789";
    assert_eq!(crc8(digits), 0xF4);
    assert_eq!(crc16(digits), 0xFEE8);
    let mut checked = digits.to_vec();
    checked.push(0xF4);
    assert_eq!(crc8(&checked), 0);
    let mut checked = digits.to_vec();
    checked.extend_from_slice(&[0xFE, 0xE8]);
    assert_eq!(crc16(&checked), 0);
}

#[test]
fn bitwriter_full_byte() {
    let mut w = BitWriter::new();
    w.write_bits(0xFF, 8);
    w.write_bits(0x00, 8);
    assert_eq!(w.bytes(), &[0xFF, 0x00]);
}

#[test]
fn bitwriter_nibbles() {
    let mut w = BitWriter::new();
    w.write_bits(0b1010, 4);
    w.write_bits(0b0101, 4);
    assert_eq!(w.bytes(), &[0b10100101]);
}

#[test]
fn bitwriter_unary_and_padding() {
    let mut w = BitWriter::new();
    w.write_unary(3);
    w.write_bits(0b11, 2);
    assert_eq!(w.bytes(), &[] as &[u8]);
    w.byte_align();
    assert_eq!(w.bytes(), &[0b0001_1100]);
    w.write_bits(0x1_FFFF, 1);
    assert_eq!(w.into_bytes(), vec![0b0001_1100, 0b1000_0000]);
}

#[test]
fn streaminfo_sample_rate() {
    let si = build_streaminfo(4096, 4096, 48000, 2, 16, 0);
    assert_eq!(si.len(), 34);
    let sr = ((si[10] as u32) << 12) | ((si[11] as u32) << 4) | ((si[12] as u32) >> 4);
    assert_eq!(sr, 48000);
}

#[test]
fn streaminfo_fields() {
    let si = build_streaminfo(4096, 4096, 44100, 2, 16, 0x9_1234_5678);
    assert_eq!(&si[0..4], &[0x10, 0x00, 0x10, 0x00]);
    assert_eq!(&si[4..10], &[0; 6]);
    assert_eq!(&si[10..18], &[0x0A, 0xC4, 0x42, 0xF9, 0x12, 0x34, 0x56, 0x78]);
    assert_eq!(&si[18..], &[0; 16]);
}

#[test]
fn frame_starts_with_sync() {
    let samples = vec![0i16; 4096 * 2];
    let frame = encode_frame(&samples, 2, 48000, 16, 0);
    assert_eq!(frame[0], 0xFF);
    assert_eq!(frame[1] & 0xFC, 0xF8);
}

#[test]
fn frame_encodes_nonzero_audio() {
    let mut samples = Vec::with_capacity(1024 * 2);
    for i in 0..1024 {
        let v = (i as i16).wrapping_mul(13);
        samples.push(v);
        samples.push(v);
    }
    let frame = encode_frame(&samples, 2, 44100, 16, 0);
    assert!(frame.len() > 10);
    assert_eq!(frame[0], 0xFF);
}

#[test]
fn silent_frame_bytes() {
    let frame = encode_frame(&[0i16; 8192], 2, 48000, 16, 0);
    // sync, 4096 samples at 48 kHz, two channels of 16 bits, frame number zero
    assert_eq!(&frame[0..5], &[0xFF, 0xF8, 0xCA, 0x18, 0x00]);
    assert_eq!(frame[5], crc8(&frame[0..5]));
    // two constant subframes
    assert_eq!(&frame[6..12], &[0; 6]);
    assert_eq!(frame.len(), 14);
    assert_eq!(crc16(&frame), 0);
}

#[test]
fn header_codes() {
    assert_eq!(block_size_code(4096), 12);
    assert_eq!(block_size_code(192), 1);
    assert_eq!(block_size_code(256), 8);
    assert_eq!(block_size_code(255), 6);
    assert_eq!(block_size_code(257), 7);
    assert_eq!(sample_rate_code(48000), 10);
    assert_eq!(sample_rate_code(11000), 12);
    assert_eq!(sample_rate_code(11025), 13);
    assert_eq!(sample_rate_code(352800), 14);
    assert_eq!(sample_size_code(16), 4);
    assert_eq!(sample_size_code(17), 0);
}

#[test]
fn rice_parameter_is_optimal() {
    assert_eq!(choose_rice_param(&[]), 0);
    assert_eq!(choose_rice_param(&[0, 0]), 0);
    assert_eq!(choose_rice_param(&[4, 4]), 2);
    assert_eq!(choose_rice_param(&[-4, -4]), 2);
    assert_eq!(choose_rice_param(&[-1, -1, -1, -2]), 1);
    assert_eq!(choose_rice_param(&[65535; 4]), 14);
    let cost = |res: &[i32], k: u8| -> u64 {
        let folded = |r: i32| if r >= 0 { 2 * r as u64 } else { (-2 * r as i64 - 1) as u64 };
        res.iter().map(|&r| (folded(r) >> k) + k as u64 + 1).sum()
    };
    for res in [vec![0, 5, -300, 7], vec![1; 50], vec![-65535, 65535, 0], vec![100, -100, 3, 900]] {
        let best = choose_rice_param(&res);
        assert!((0..=14).all(|k| cost(&res, best) <= cost(&res, k)), "{res:?}");
    }
}

/// The bits of a byte string, read one after the other.
struct Bits(Vec<u8>, usize);

impl Bits {
    fn uint(&mut self, n: usize) -> u32 {
        let mut v = 0;
        for _ in 0..n {
            v = 2 * v + (self.0[self.1 / 8] >> (7 - self.1 % 8) & 1) as u32;
            self.1 += 1;
        }
        v
    }

    fn unary(&mut self) -> u32 {
        let mut n = 0;
        while self.uint(1) == 0 {
            n += 1;
        }
        n
    }
}

#[test]
fn residuals_are_read_back() {
    let spiky: Vec<i32> = (0..400).map(|i| if i == 7 { 65535 } else { -(i % 2) }).collect();
    for res in [vec![-1, -1, -1, -2], vec![0; 9], vec![65535, -65535, 12], spiky] {
        let mut w = BitWriter::new();
        w.write_bits(0b101, 3);
        encode_residuals(&mut w, &res);
        w.byte_align();
        let mut bits = Bits(w.into_bytes(), 0);
        assert_eq!(bits.uint(3), 0b101);
        assert_eq!(bits.uint(6), 0);
        let k = bits.uint(4);
        let folded = |r: i32| if r >= 0 { 2 * r as u32 } else { (-2 * r - 1) as u32 };
        let chosen = choose_rice_param(&res);
        assert_eq!(k == 15, res.iter().any(|&r| folded(r) >> chosen > 128));
        if k == 15 {
            assert_eq!(bits.uint(5), 17);
        }
        for &r in &res {
            let got = if k == 15 {
                let v = bits.uint(17) as i32;
                if v >= 1 << 16 { v - (1 << 17) } else { v }
            } else {
                let q = bits.unary();
                let f = (q << k) + bits.uint(k as usize);
                if f % 2 == 0 { (f / 2) as i32 } else { -(((f + 1) / 2) as i32) }
            };
            assert_eq!(got, r);
        }
    }
}

#[test]
fn frames_check_to_zero() {
    let samples: Vec<i16> = (0..600i32).map(|i| (i * i * 37 % 4001 - 2000) as i16).collect();
    for (channels, number) in [(1u16, 0u32), (2, 0x80), (3, 0x4000000), (8, u32::MAX)] {
        let frame = encode_frame(&samples, channels, 44100, 16, number);
        assert_eq!(crc16(&frame), 0);
        // four bytes of codes, the number, one or two bytes of block size, the check
        let number_len = match number {
            0..=0x7F => 1,
            0x80..=0x7FF => 2,
            0x4000000..=0x7FFFFFFF => 6,
            _ => 7,
        };
        let tail = if samples.len() / channels as usize <= 256 { 1 } else { 2 };
        assert_eq!(crc8(&frame[..4 + number_len + tail + 1]), 0);
    }
}

#[test]
fn frame_numbers_above_one_byte() {
    let number = |n: u32| encode_frame(&[0i16; 192], 1, 48000, 16, n)[4..].to_vec();
    assert_eq!(&number(0x7F)[0..1], &[0x7F]);
    assert_eq!(&number(0x80)[0..2], &[0xC2, 0x80]);
    assert_eq!(&number(0xFFFF)[0..3], &[0xEF, 0xBF, 0xBF]);
    assert_eq!(&number(0x10000)[0..4], &[0xF0, 0x90, 0x80, 0x80]);
    assert_eq!(&number(0x200000)[0..5], &[0xF8, 0x88, 0x80, 0x80, 0x80]);
    assert_eq!(&number(0x3FFFFFF)[0..5], &[0xFB, 0xBF, 0xBF, 0xBF, 0xBF]);
    assert_eq!(&number(0x4000000)[0..6], &[0xFC, 0x84, 0x80, 0x80, 0x80, 0x80]);
    assert_eq!(&number(0x7FFFFFFF)[0..6], &[0xFD, 0xBF, 0xBF, 0xBF, 0xBF, 0xBF]);
    assert_eq!(&number(0x80000000)[0..7], &[0xFE, 0x82, 0x80, 0x80, 0x80, 0x80, 0x80]);
    let mut w = BitWriter::new();
    write_utf8_coded(&mut w, 0x4000000);
    assert_eq!(w.into_bytes(), vec![0xFC, 0x84, 0x80, 0x80, 0x80, 0x80]);
}

#[test]
fn wav_writes_and_patches_header() {
    let mut m = WavMuxer::new();
    let mut bytes = m.open(&format(48000, 2, 16), "pcm_s16le", 128).unwrap();
    bytes.extend_from_slice(&m.write_packet(&packet(vec![0u8; 4])).unwrap());
    let finish = m.finalize().unwrap();
    apply(&mut bytes, finish);
    assert_eq!(&bytes[0..4], b"RIFF");
    assert_eq!(&bytes[8..12], b"WAVE");
    let channels = u16::from_le_bytes(bytes[22..24].try_into().unwrap());
    let sample_rate = u32::from_le_bytes(bytes[24..28].try_into().unwrap());
    let bits_per_sample = u16::from_le_bytes(bytes[34..36].try_into().unwrap());
    let data_chunk_size = u32::from_le_bytes(bytes[40..44].try_into().unwrap());
    assert_eq!(channels, 2);
    assert_eq!(sample_rate, 48000);
    assert_eq!(bits_per_sample, 16);
    assert_eq!(data_chunk_size, 4);
}

#[test]
fn wav_records_and_roundtrips_exactly() {
    let pcm = sine_pcm();
    let bytes = record(create_muxer(ContainerFormat::Wav), &format(SR, CH, 16), &pcm, 3840);
    assert!(bytes.len() > 44, "wav too small");
    assert_eq!(&bytes[0..4], b"RIFF");
    assert_eq!(&bytes[8..12], b"WAVE");
    assert_eq!(u16::from_le_bytes([bytes[22], bytes[23]]), CH);
    assert_eq!(u32::from_le_bytes([bytes[24], bytes[25], bytes[26], bytes[27]]), SR);
    assert_eq!(u32::from_le_bytes([bytes[28], bytes[29], bytes[30], bytes[31]]), SR * 4);
    assert_eq!(u32::from_le_bytes([bytes[4], bytes[5], bytes[6], bytes[7]]) as usize, bytes.len() - 8);
    let data_sz = u32::from_le_bytes([bytes[40], bytes[41], bytes[42], bytes[43]]) as usize;
    let data = &bytes[44..44 + data_sz];
    assert_eq!(data, &pcm[..], "WAV PCM did not round-trip byte-exactly");
    let peak = samples_of(data).iter().map(|s| s.saturating_abs()).max().unwrap_or(0);
    assert!(peak > 10000, "WAV is silent (peak={peak})");
}

fn decode(file: &[u8]) -> (u32, u32, u32, Option<u64>, Vec<i32>) {
    let mut reader = claxon::FlacReader::new(file).unwrap();
    let si = reader.streaminfo();
    let samples = reader.samples().map(|s| s.expect("flac sample")).collect();
    (si.sample_rate, si.channels, si.bits_per_sample, si.samples, samples)
}

#[test]
fn flac_records_and_decodes_losslessly() {
    let pcm = sine_pcm();
    let file = record(create_muxer(ContainerFormat::Flac), &format(SR, CH, 16), &pcm, 3840);
    let (rate, channels, bits, total, decoded) = decode(&file);
    assert_eq!(rate, SR, "flac sample rate");
    assert_eq!(channels as u16, CH, "flac channels");
    assert_eq!(bits, 16, "flac bit depth");
    assert_eq!(total, Some(48000));
    let input = samples_of(&pcm);
    assert_eq!(decoded.len(), input.len(), "flac sample count mismatch");
    let mut peak = 0i32;
    for (d, i) in decoded.iter().zip(input.iter()) {
        assert_eq!(*d, *i as i32, "FLAC not lossless — decoded sample differs from input");
        peak = peak.max(d.abs());
    }
    assert!(peak > 10000, "FLAC decoded to silence (peak={peak})");
}

#[test]
fn flac_keeps_three_channels() {
    // one channel is constant, the others jump now and then
    let mut pcm = Vec::new();
    for i in 0..5000 {
        let v: i16 = if i % 700 == 0 { 50 } else if i % 701 == 0 { -50 } else { (i % 3) as i16 };
        pcm.extend_from_slice(&v.to_le_bytes());
        pcm.extend_from_slice(&(-5i16).to_le_bytes());
        pcm.extend_from_slice(&((i * 37 % 4000 - 2000) as i16).to_le_bytes());
    }
    for size in [1000, 30000] {
        let file = record(create_muxer(ContainerFormat::Flac), &format(44100, 3, 16), &pcm, size);
        let (rate, channels, _, total, decoded) = decode(&file);
        assert_eq!((rate, channels), (44100, 3));
        let input: Vec<i32> = samples_of(&pcm).into_iter().map(|s| s as i32).collect();
        assert_eq!(decoded, input);
        assert_eq!(total, Some(5000));
    }
}

#[test]
fn large_residuals_are_escaped() {
    let mut residuals = vec![0i32; 1000];
    residuals[0] = 65535;
    residuals[1] = -65535;
    let mut w = BitWriter::new();
    encode_residuals(&mut w, &residuals);
    w.byte_align();
    // method 0, order 0, escape, 17 bits each: 65535, then -65535 as two's complement
    assert_eq!(&w.bytes()[..7], &[0b0000_0011, 0b1110_0010, 0xFF, 0xFF, 0b1000_0000, 0b0000_0000, 0b1000_0000]);
    assert_eq!(w.bytes().len(), (15 + 17 * 1000 + 7) / 8);
}

#[test]
fn flac_without_samples_is_a_header() {
    let file = record(create_muxer(ContainerFormat::Flac), &format(48000, 2, 16), &[], 4);
    assert_eq!(file.len(), 42);
    assert_eq!(&file[0..8], &[0x66, 0x4C, 0x61, 0x43, 0x80, 0, 0, 0x22]);
}

#[test]
fn patching_keeps_the_sample_size() {
    assert_eq!(patch_total_samples(&[0xF0, 0, 0, 0, 0], 0xA_0000_0001), vec![0xFA, 0, 0, 0, 1]);
    assert_eq!(patch_total_samples(&[0x7F, 9, 9, 9, 9], 0), vec![0x70, 0, 0, 0, 0]);
}

#[test]
fn writing_without_a_file_fails() {
    let quiet = packet(vec![0; 8]);
    let mut wav = WavMuxer::new();
    assert!(matches!(wav.write_packet(&quiet), Err(EncodeError::OutputFile(m)) if m == "not open"));
    let mut mp3 = Mp3Muxer::new();
    assert!(matches!(mp3.write_packet(&quiet),
        Err(EncodeError::EncodeFailed(m)) if m == "MP3 encoder not initialised"));
    let mut flac = FlacMuxer::new();
    assert!(flac.write_packet(&quiet).unwrap().is_empty());
    let block = packet(vec![0; 4096 * 4]);
    assert!(matches!(flac.write_packet(&block), Err(EncodeError::OutputFile(m)) if m == "not open"));
    let finish = flac.finalize().unwrap();
    assert!(finish.append.is_empty() && finish.patches.is_empty());
}

#[test]
fn mp3_records_valid_mpeg_frames() {
    let pcm = sine_pcm();
    let bytes = record(create_muxer(ContainerFormat::Mp3), &format(SR, CH, 16), &pcm, 3840);
    assert!(bytes.len() > 500, "mp3 too small ({} bytes)", bytes.len());
    let start = if &bytes[0..3] == b"ID3" {
        let sz = ((bytes[6] as usize & 0x7f) << 21)
            | ((bytes[7] as usize & 0x7f) << 14)
            | ((bytes[8] as usize & 0x7f) << 7)
            | (bytes[9] as usize & 0x7f);
        10 + sz
    } else {
        0
    };
    let mut frames = 0;
    let mut i = start;
    while i + 4 < bytes.len() {
        if bytes[i] == 0xFF && (bytes[i + 1] & 0xE0) == 0xE0 {
            frames += 1;
            i += 4;
        } else {
            i += 1;
        }
    }
    assert!(frames > 5, "expected multiple MPEG frames, found {frames}");
    assert!(bytes.len() > 2000, "mp3 implausibly small for 1s ({} bytes)", bytes.len());
}

#[test]
fn mp3_refuses_bad_formats() {
    let message = |fmt: PcmFormat| match Mp3Muxer::new().open(&fmt, "mp3", 128) {
        Err(EncodeError::OpenFailed(m)) => m,
        _ => String::new(),
    };
    assert_eq!(message(format(48000, 3, 16)), "LAME channels: error");
    assert_eq!(message(format(48000, 0, 16)), "LAME channels: error");
    assert_eq!(message(format(0, 2, 16)), "LAME sample rate: error");
    assert_eq!(message(format(48000, 1, 16)), "");
}

#[test]
fn bitrates_are_rounded_to_the_nearest() {
    assert_eq!(nearest_bitrate(0), Mp3Bitrate::Kbps8);
    assert_eq!(nearest_bitrate(128), Mp3Bitrate::Kbps128);
    assert_eq!(nearest_bitrate(144), Mp3Bitrate::Kbps128);
    assert_eq!(nearest_bitrate(145), Mp3Bitrate::Kbps160);
    assert_eq!(nearest_bitrate(1000), Mp3Bitrate::Kbps320);
}

#[test]
fn container_formats() {
    assert_eq!(ContainerFormat::Wav.extension(), "wav");
    assert_eq!(ContainerFormat::Flac.extension(), "flac");
    assert_eq!(ContainerFormat::Mp3.extension(), "mp3");
    for f in [ContainerFormat::Wav, ContainerFormat::Flac, ContainerFormat::Mp3] {
        assert_eq!(create_muxer(f).container_format(), f);
    }
}

#[test]
fn large_rates_and_counts_are_told_modulo_their_fields() {
    let told = |rate, total| build_streaminfo(4096, 4096, rate, 2, 16, total);
    assert_eq!(told(0x100005, 7), told(5, 7));
    assert_eq!(told(48000, 0x10_0000_0007), told(48000, 7));
    assert_ne!(told(0xFFFFF, 7), told(5, 7));
}
