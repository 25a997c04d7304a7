//! MP3 files.
use crate::encoder::AudioPacket;
use crate::error::{labelled, EncodeError, EncodeResult};
use crate::lame;
use crate::lame::{
    lame_build_error, lame_encode, lame_flush, lame_set_brate, lame_set_quality, Mp3Bitrate,
    Mp3Quality,
};
use crate::muxer;
use crate::muxer::{AudioMuxer, ContainerFormat, Finish};
use crate::pcm;
use crate::pcm::samples_of;
use crate::text::owned;
use crate::types::PcmFormat;
use mp3lame_encoder::{max_required_buffer_size, Builder, Encoder};
use vstd::prelude::*;

verus! {

/// The bit rates that MPEG audio layer III defines, in kbit/s.
pub open spec fn frame_rates() -> Seq<int> {
    seq![8, 16, 24, 32, 40, 48, 64, 80, 96, 112, 128, 160, 192, 224, 256, 320]
}

/// How far two rates are apart.
pub open spec fn rate_distance(a: int, b: int) -> int {
    if a < b {
        b - a
    } else {
        a - b
    }
}

/// Whether no rate is nearer to `kbps` than `r`, and no lower one as near.
pub open spec fn is_nearest(r: int, kbps: int) -> bool {
    forall|other: Mp3Bitrate|
        {
            &&& rate_distance(r, kbps) <= #[trigger] rate_distance(other.rate(), kbps)
            &&& rate_distance(r, kbps) == rate_distance(other.rate(), kbps) ==> r <= other.rate()
        }
}

/// Maps a bit rate to the nearest one that MP3 frames can have; between two that
/// are equally near, to the lower one.
pub fn nearest_bitrate(kbps: u32) -> (r: Mp3Bitrate)
    ensures
        is_nearest(r.rate(), kbps as int),
        frame_rates().contains(r.rate()),
        forall|i: int|
            0 <= i < frame_rates().len() ==> no_nearer(
                r.rate(),
                kbps as int,
                #[trigger] frame_rates()[i],
            ),
{
    proof {
        lemma_rates();
    }
    if kbps <= 12 {
        Mp3Bitrate::Kbps8
    } else if kbps <= 20 {
        Mp3Bitrate::Kbps16
    } else if kbps <= 28 {
        Mp3Bitrate::Kbps24
    } else if kbps <= 36 {
        Mp3Bitrate::Kbps32
    } else if kbps <= 44 {
        Mp3Bitrate::Kbps40
    } else if kbps <= 56 {
        Mp3Bitrate::Kbps48
    } else if kbps <= 72 {
        Mp3Bitrate::Kbps64
    } else if kbps <= 88 {
        Mp3Bitrate::Kbps80
    } else if kbps <= 104 {
        Mp3Bitrate::Kbps96
    } else if kbps <= 120 {
        Mp3Bitrate::Kbps112
    } else if kbps <= 144 {
        Mp3Bitrate::Kbps128
    } else if kbps <= 176 {
        Mp3Bitrate::Kbps160
    } else if kbps <= 208 {
        Mp3Bitrate::Kbps192
    } else if kbps <= 240 {
        Mp3Bitrate::Kbps224
    } else if kbps <= 288 {
        Mp3Bitrate::Kbps256
    } else {
        Mp3Bitrate::Kbps320
    }
}

/// The rates of the enumeration are those that the frames can have.
proof fn lemma_rates()
    ensures
        forall|b: Mp3Bitrate| frame_rates().contains(#[trigger] b.rate()),
        forall|i: int|
            0 <= i < frame_rates().len() ==> exists|b: Mp3Bitrate|
                #[trigger] b.rate() == #[trigger] frame_rates()[i],
{
    let f = frame_rates();
    assert(f[0] == Mp3Bitrate::Kbps8.rate());
    assert(f[1] == Mp3Bitrate::Kbps16.rate());
    assert(f[2] == Mp3Bitrate::Kbps24.rate());
    assert(f[3] == Mp3Bitrate::Kbps32.rate());
    assert(f[4] == Mp3Bitrate::Kbps40.rate());
    assert(f[5] == Mp3Bitrate::Kbps48.rate());
    assert(f[6] == Mp3Bitrate::Kbps64.rate());
    assert(f[7] == Mp3Bitrate::Kbps80.rate());
    assert(f[8] == Mp3Bitrate::Kbps96.rate());
    assert(f[9] == Mp3Bitrate::Kbps112.rate());
    assert(f[10] == Mp3Bitrate::Kbps128.rate());
    assert(f[11] == Mp3Bitrate::Kbps160.rate());
    assert(f[12] == Mp3Bitrate::Kbps192.rate());
    assert(f[13] == Mp3Bitrate::Kbps224.rate());
    assert(f[14] == Mp3Bitrate::Kbps256.rate());
    assert(f[15] == Mp3Bitrate::Kbps320.rate());
}

/// The channels as LAME is told: their low eight bits.
pub open spec fn lame_channels(format: PcmFormat) -> int {
    format.channels as int % 256
}

/// The settings of an encoder for a format and a bit rate.
pub open spec fn settings_for(s: (int, int, int, int), format: PcmFormat, kbps: u32) -> bool {
    &&& s.0 == lame_channels(format)
    &&& s.1 == if format.sample_rate <= i32::MAX {
        format.sample_rate as int
    } else {
        i32::MAX as int
    }
    &&& frame_rates().contains(s.2)
    &&& is_nearest(s.2, kbps as int)
    &&& s.3 == 0
}

/// Writes MP3 files.
pub struct Mp3Muxer {
    open: bool,
    encoder: Option<Encoder>,
    channels: u16,
}

/// The state of an [`Mp3Muxer`].
pub struct Mp3State {
    pub open: bool,
    pub encoder: Option<mp3lame_encoder::Encoder>,
    pub channels: nat,
}

impl View for Mp3Muxer {
    type V = Mp3State;

    closed spec fn view(&self) -> Mp3State {
        Mp3State { open: self.open, encoder: self.encoder, channels: self.channels as nat }
    }
}

/// Sets up a new builder: one or two channels, a rate above zero, the nearest bit
/// rate, best quality.
pub fn configure(builder: Option<Builder>, pcm_format: &PcmFormat, bitrate_kbps: u32) -> (r:
    EncodeResult<Builder>)
    ensures
        match builder {
            None => r matches Err(EncodeError::OpenFailed(m)) && m@ == "LAME init failed"@,
            Some(_) => if !(1 <= lame_channels(*pcm_format) <= 2) {
                r matches Err(EncodeError::OpenFailed(m)) && m@ == "LAME channels: "@ + "error"@
            } else if pcm_format.sample_rate == 0 {
                r matches Err(EncodeError::OpenFailed(m)) && m@ == "LAME sample rate: "@ + "error"@
            } else {
                r matches Ok(b) && settings_for(
                    lame::lame_settings(b),
                    *pcm_format,
                    bitrate_kbps,
                )
            },
        },
        r matches Ok(b) ==> {
            &&& 1 <= lame::lame_settings(b).0 <= 2
            &&& pcm_format.channels <= 255 ==> lame::lame_settings(b).0 == pcm_format.channels
            &&& pcm_format.sample_rate <= i32::MAX ==> lame::lame_settings(b).1
                == pcm_format.sample_rate
            &&& frame_rates().contains(lame::lame_settings(b).2)
            &&& forall|i: int|
                0 <= i < frame_rates().len() ==> no_nearer(
                    lame::lame_settings(b).2,
                    bitrate_kbps as int,
                    #[trigger] frame_rates()[i],
                )
            &&& lame::lame_settings(b).3 == 0
        },
{
    proof {
        lemma_rates();
    }
    let mut builder = match builder {
        Some(b) => b,
        None => {
            return Err(EncodeError::OpenFailed(owned("LAME init failed")));
        },
    };
    match builder.set_num_channels((pcm_format.channels % 256) as u8) {
        Ok(_) => {},
        Err(e) => {
            return Err(
                EncodeError::OpenFailed(
                    labelled("LAME channels: ", lame_build_error(&e).as_str()),
                ),
            );
        },
    }
    match builder.set_sample_rate(pcm_format.sample_rate) {
        Ok(_) => {},
        Err(e) => {
            return Err(
                EncodeError::OpenFailed(
                    labelled("LAME sample rate: ", lame_build_error(&e).as_str()),
                ),
            );
        },
    }
    match lame_set_brate(&mut builder, nearest_bitrate(bitrate_kbps)) {
        Ok(_) => {},
        Err(e) => {
            return Err(
                EncodeError::OpenFailed(labelled("LAME bitrate: ", lame_build_error(&e).as_str())),
            );
        },
    }
    match lame_set_quality(&mut builder, Mp3Quality::Best) {
        Ok(_) => {},
        Err(e) => {
            return Err(
                EncodeError::OpenFailed(labelled("LAME quality: ", lame_build_error(&e).as_str())),
            );
        },
    }
    Ok(builder)
}

/// What comes of building an encoder.
pub fn built(result: Result<Encoder, mp3lame_encoder::BuildError>) -> (r: EncodeResult<Encoder>)
    ensures
        match result {
            Ok(e) => r == Ok::<Encoder, EncodeError>(e),
            Err(e) => r matches Err(EncodeError::OpenFailed(m)) && m@ == "LAME build: "@
                + lame::lame_build_error_text(e),
        },
{
    match result {
        Ok(e) => Ok(e),
        Err(e) => Err(
            EncodeError::OpenFailed(labelled("LAME build: ", lame_build_error(&e).as_str())),
        ),
    }
}

/// What comes of encoding or flushing.
pub fn encoded(label: &str, result: Result<Vec<u8>, String>) -> (r:
    EncodeResult<Vec<u8>>)
    ensures
        match result {
            Ok(bytes) => r == Ok::<Vec<u8>, EncodeError>(bytes),
            Err(e) => r matches Err(EncodeError::EncodeFailed(m)) && m@ == label@ + e@,
        },
{
    match result {
        Ok(bytes) => Ok(bytes),
        Err(e) => Err(EncodeError::EncodeFailed(labelled(label, e.as_str()))),
    }
}

impl Mp3Muxer {
    pub fn new() -> (m: Self)
        ensures
            m@ == (Mp3State { open: false, encoder: None, channels: 2 }),
    {
        Mp3Muxer { open: false, encoder: None, channels: 2 }
    }
}

/// An open failed with this message.
pub open spec fn open_failed(r: EncodeResult<Vec<u8>>, message: Seq<char>) -> bool {
    r matches Err(EncodeError::OpenFailed(m)) && m@ == message
}

impl AudioMuxer for Mp3Muxer {
    open spec fn can_open(&self, format: PcmFormat) -> bool {
        true
    }

    /// LAME decides whether it finds memory and accepts the settings.
    open spec fn opened(
        &self,
        format: PcmFormat,
        bitrate_kbps: u32,
        after: Self,
        r: EncodeResult<Vec<u8>>,
    ) -> bool {
        let channels_ok = 1 <= lame_channels(format) <= 2;
        let rate_ok = format.sample_rate >= 1;
        &&& after@.open
        &&& after@.channels == format.channels
        &&& r is Err ==> after@.encoder == self@.encoder
        &&& match r {
            Ok(bytes) => {
                &&& bytes@ == Seq::<u8>::empty()
                &&& channels_ok && rate_ok
                &&& after@.encoder matches Some(e) && {
                    &&& settings_for(lame::lame_encoder_settings(e), format, bitrate_kbps)
                    &&& lame::lame_input(e) == Seq::<i16>::empty()
                    &&& lame::lame_output(e) == Seq::<u8>::empty()
                }
            },
            Err(_) => {
                ||| open_failed(r, "LAME init failed"@)
                ||| !channels_ok && open_failed(r, "LAME channels: "@ + "error"@)
                ||| channels_ok && !rate_ok && open_failed(r, "LAME sample rate: "@ + "error"@)
                ||| channels_ok && rate_ok && exists|e: mp3lame_encoder::BuildError|
                    open_failed(r, "LAME build: "@ + #[trigger] lame::lame_build_error_text(e))
            },
        }
    }

    /// LAME takes pairs of samples, and sizes that fit in a C `int`.
    open spec fn can_write(&self, data: Seq<u8>) -> bool {
        let n = (data.len() / 2) as int;
        self@.encoder is Some && self@.open ==> n % 2 == 0 && n + (n + 3) / 4 + 7200 <= i32::MAX
    }

    open spec fn written(&self, data: Seq<u8>, after: Self, r: EncodeResult<Vec<u8>>) -> bool {
        &&& after@.open == self@.open
        &&& after@.channels == self@.channels
        &&& match self@.encoder {
            None => {
                &&& after@.encoder is None
                &&& r matches Err(EncodeError::EncodeFailed(m)) && m@
                    == "MP3 encoder not initialised"@
            },
            Some(e) => if !self@.open {
                &&& after@.encoder == self@.encoder
                &&& r matches Err(EncodeError::OutputFile(m)) && m@ == "not open"@
            } else {
                &&& after@.encoder matches Some(f) && {
                    &&& lame::lame_encoder_settings(f) == lame::lame_encoder_settings(e)
                    &&& lame::lame_input(f) == lame::lame_input(e) + pcm::samples16(data)
                    &&& lame::lame_output(f) == match r {
                        Ok(bytes) => lame::lame_output(e) + bytes@,
                        Err(_) => lame::lame_output(e),
                    }
                }
                &&& r matches Err(err) ==> err matches EncodeError::EncodeFailed(m) && exists|
                    detail: Seq<char>,
                |
                    m@ == #[trigger] ("LAME encode: "@ + detail)
            },
        }
    }

    open spec fn can_finalize(&self) -> bool {
        true
    }

    open spec fn finalized(&self, after: Self, r: EncodeResult<Finish>) -> bool {
        &&& after@.open == self@.open
        &&& after@.channels == self@.channels
        &&& r matches Ok(finish) ==> {
            &&& muxer::patch_views(finish.patches@) == Seq::<muxer::PatchView>::empty()
            &&& !self@.open ==> finish.append@ == Seq::<u8>::empty()
        }
        &&& match self@.encoder {
            None => {
                &&& after@.encoder is None
                &&& r matches Ok(finish) && finish.append@ == Seq::<u8>::empty()
            },
            Some(e) => {
                &&& after@.encoder matches Some(f) && {
                    &&& lame::lame_encoder_settings(f) == lame::lame_encoder_settings(e)
                    &&& lame::lame_input(f) == lame::lame_input(e)
                    &&& self@.open ==> lame::lame_output(f) == match r {
                        Ok(finish) => lame::lame_output(e) + finish.append@,
                        Err(_) => lame::lame_output(e),
                    }
                }
                &&& r matches Err(err) ==> err matches EncodeError::EncodeFailed(m) && exists|
                    detail: Seq<char>,
                |
                    m@ == #[trigger] ("LAME flush: "@ + detail)
            },
        }
    }

    open spec fn format(&self) -> ContainerFormat {
        ContainerFormat::Mp3
    }

    fn open(&mut self, pcm_format: &PcmFormat, _codec_name: &str, bitrate_kbps: u32) -> (r:
        EncodeResult<Vec<u8>>) {
        self.open = true;
        self.channels = pcm_format.channels;
        let builder = match configure(Builder::new(), pcm_format, bitrate_kbps) {
            Ok(b) => b,
            Err(e) => {
                return Err(e);
            },
        };
        match built(builder.build()) {
            Ok(encoder) => {
                self.encoder = Some(encoder);
                Ok(Vec::new())
            },
            Err(e) => Err(e),
        }
    }

    fn write_packet(&mut self, pkt: &AudioPacket) -> (r: EncodeResult<Vec<u8>>) {
        match self.encoder.take() {
            None => Err(EncodeError::EncodeFailed(owned("MP3 encoder not initialised"))),
            Some(mut encoder) => {
                if !self.open {
                    self.encoder = Some(encoder);
                    return Err(EncodeError::OutputFile(owned("not open")));
                }
                let samples: Vec<i16> = samples_of(pkt.data.as_slice());
                let needed: usize = max_required_buffer_size(samples.len());
                let result = lame_encode(&mut encoder, samples.as_slice(), needed);
                self.encoder = Some(encoder);
                encoded("LAME encode: ", result)
            },
        }
    }

    fn finalize(&mut self) -> (r: EncodeResult<Finish>) {
        let mut append: Vec<u8> = Vec::new();
        match self.encoder.take() {
            None => {},
            Some(mut encoder) => {
                let result = lame_flush(&mut encoder, 7200);
                self.encoder = Some(encoder);
                match encoded("LAME flush: ", result) {
                    Ok(bytes) => {
                        if self.open {
                            append = bytes;
                        }
                    },
                    Err(e) => {
                        return Err(e);
                    },
                }
            },
        }
        let r = Finish { append, patches: Vec::new() };
        assert(muxer::patch_views(r.patches@) =~= Seq::<muxer::PatchView>::empty());
        Ok(r)
    }

    fn container_format(&self) -> (f: ContainerFormat) {
        ContainerFormat::Mp3
    }
}

// ---------------------------------------------------------------------------
// Laws
// ---------------------------------------------------------------------------
/// Whether a muxer took these packets one after the other and gave this data for
/// each: `muxers` are its states before the first packet and after each one.
pub open spec fn took_packets(
    muxers: Seq<Mp3Muxer>,
    packets: Seq<Seq<u8>>,
    given: Seq<Vec<u8>>,
) -> bool {
    &&& muxers.len() == packets.len() + 1
    &&& given.len() == packets.len()
    &&& forall|i: int|
        0 <= i < packets.len() ==> (#[trigger] muxers[i]).written(
            packets[i],
            muxers[i + 1],
            Ok(given[i]),
        )
}

pub open spec fn given_views(given: Seq<Vec<u8>>) -> Seq<Seq<u8>> {
    Seq::new(given.len(), |i: int| given[i]@)
}

/// The samples of some packets, one packet after the other.
pub open spec fn packet_samples(packets: Seq<Seq<u8>>) -> Seq<i16>
    decreases packets.len(),
{
    if packets.len() == 0 {
        Seq::empty()
    } else {
        packet_samples(packets.drop_last()) + pcm::samples16(packets.last())
    }
}

proof fn lemma_packets_reach_lame(
    muxers: Seq<Mp3Muxer>,
    packets: Seq<Seq<u8>>,
    given: Seq<Vec<u8>>,
)
    requires
        took_packets(muxers, packets, given),
        muxers[0]@.open,
        muxers[0]@.encoder is Some,
    ensures
        muxers.last()@.open,
        muxers.last()@.encoder is Some,
        ({
            let e = muxers[0]@.encoder->0;
            let f = muxers.last()@.encoder->0;
            &&& lame::lame_encoder_settings(f) == lame::lame_encoder_settings(e)
            &&& lame::lame_input(f) == lame::lame_input(e) + packet_samples(packets)
            &&& lame::lame_output(f) == lame::lame_output(e) + muxer::joined(given_views(given))
        }),
    decreases packets.len(),
{
    let e = muxers[0]@.encoder->0;
    if packets.len() == 0 {
        assert(lame::lame_input(e) + Seq::<i16>::empty() =~= lame::lame_input(e));
        assert(given_views(given) =~= Seq::empty());
        assert(lame::lame_output(e) + Seq::<u8>::empty() =~= lame::lame_output(e));
    } else {
        let n = packets.len() - 1;
        let before = muxers.drop_last();
        assert(took_packets(before, packets.drop_last(), given.drop_last())) by {
            assert forall|i: int| 0 <= i < n implies (#[trigger] before[i]).written(
                packets.drop_last()[i],
                before[i + 1],
                Ok(given.drop_last()[i]),
            ) by {
                assert(muxers[i].written(packets[i], muxers[i + 1], Ok(given[i])));
            }
        }
        lemma_packets_reach_lame(before, packets.drop_last(), given.drop_last());
        assert(muxers[n].written(packets[n], muxers[n + 1], Ok(given[n])));
        assert(before.last() == muxers[n]);
        assert(given_views(given).drop_last() =~= given_views(given.drop_last()));
        let f = muxers.last()@.encoder->0;
        assert(lame::lame_input(f) =~= lame::lame_input(e) + packet_samples(packets));
        assert(lame::lame_output(f) =~= lame::lame_output(e) + muxer::joined(given_views(given)));
    }
}

/// Whether `other` lies no nearer to `wanted` than `r`, on either side of it, and is
/// not below `r` where it is as near.
pub open spec fn no_nearer(r: int, wanted: int, other: int) -> bool {
    &&& r >= wanted ==> other >= r || other < wanted - (r - wanted)
    &&& r < wanted ==> other <= r || other >= wanted + (wanted - r)
}

proof fn lemma_nearest(r: int, kbps: int)
    requires
        is_nearest(r, kbps),
    ensures
        forall|i: int|
            0 <= i < frame_rates().len() ==> no_nearer(r, kbps, #[trigger] frame_rates()[i]),
{
    lemma_rates();
    assert forall|i: int| 0 <= i < frame_rates().len() implies no_nearer(
        r,
        kbps,
        #[trigger] frame_rates()[i],
    ) by {
        let b = choose|b: Mp3Bitrate| #[trigger] b.rate() == frame_rates()[i];
        assert(rate_distance(r, kbps) <= rate_distance(b.rate(), kbps));
    }
}

/// An MP3 file is what LAME gave, all of it and in order, and LAME was set up for the
/// format and was given the samples of all packets in order.
pub proof fn mp3_file_is_what_lame_gave(
    new: Mp3Muxer,
    format: PcmFormat,
    bitrate_kbps: u32,
    begin: Vec<u8>,
    muxers: Seq<Mp3Muxer>,
    packets: Seq<Seq<u8>>,
    given: Seq<Vec<u8>>,
    end: Mp3Muxer,
    finish: Finish,
)
    requires
        took_packets(muxers, packets, given),
        new.opened(format, bitrate_kbps, muxers[0], Ok(begin)),
        muxers.last().finalized(end, Ok(finish)),
    ensures
        end@.encoder is Some,
        ({
            let e = end@.encoder->0;
            let file = begin@ + muxer::joined(given_views(given)) + finish.append@;
            &&& lame::lame_output(e) == file
            &&& lame::lame_input(e) == packet_samples(packets)
            &&& settings_for(lame::lame_encoder_settings(e), format, bitrate_kbps)
        }),
        ({
            let s = lame::lame_encoder_settings(end@.encoder->0);
            &&& format.sample_rate >= 1
            &&& 1 <= s.0 <= 2
            &&& format.channels <= 255 ==> s.0 == format.channels
            &&& format.sample_rate <= i32::MAX ==> s.1 == format.sample_rate
            &&& frame_rates().contains(s.2)
            &&& s.3 == 0
        }),
        forall|i: int|
            0 <= i < frame_rates().len() ==> no_nearer(
                lame::lame_encoder_settings(end@.encoder->0).2,
                bitrate_kbps as int,
                #[trigger] frame_rates()[i],
            ),
        muxer::patch_views(finish.patches@) == Seq::<muxer::PatchView>::empty(),
{
    lemma_packets_reach_lame(muxers, packets, given);
    let e = end@.encoder->0;
    lemma_nearest(lame::lame_encoder_settings(e).2, bitrate_kbps as int);
    assert(lame::lame_output(e) =~= begin@ + muxer::joined(given_views(given)) + finish.append@);
    assert(lame::lame_input(e) =~= packet_samples(packets));
}

/// An encoder that an open left has the channels and the sample rate of the format
/// and a bit rate that no other one of the frames is nearer to than to the wanted
/// one; between two equally near ones it is the lower. It was given nothing yet.
pub proof fn opened_encoders_fit_the_format(
    before: Mp3Muxer,
    format: PcmFormat,
    bitrate_kbps: u32,
    after: Mp3Muxer,
    begin: Vec<u8>,
    i: int,
)
    requires
        before.opened(format, bitrate_kbps, after, Ok(begin)),
        format.channels <= 255,
        format.sample_rate <= i32::MAX,
        0 <= i < frame_rates().len(),
    ensures
        after@.open,
        after@.encoder is Some,
        begin@.len() == 0,
        ({
            let s = lame::lame_encoder_settings(after@.encoder->0);
            &&& s.0 == format.channels
            &&& s.0 == 1 || s.0 == 2
            &&& s.1 == format.sample_rate
            &&& s.1 >= 1
            &&& frame_rates().contains(s.2)
            &&& no_nearer(s.2, bitrate_kbps as int, frame_rates()[i])
            &&& s.3 == 0
        }),
        lame::lame_input(after@.encoder->0).len() == 0,
{
    lemma_nearest(lame::lame_encoder_settings(after@.encoder->0).2, bitrate_kbps as int);
}

/// The samples of packets that end with whole samples are those of all their bytes:
/// each two bytes, low byte first, give one sample, in order, and none is left out.
pub proof fn lame_gets_every_sample(packets: Seq<Seq<u8>>)
    requires
        forall|i: int| 0 <= i < packets.len() ==> (#[trigger] packets[i]).len() % 2 == 0,
    ensures
        ({
            let data = muxer::joined(packets);
            let given = packet_samples(packets);
            &&& 2 * given.len() == data.len()
            &&& forall|k: int|
                0 <= k < given.len() ==> (#[trigger] given[k] - data[2 * k] - 256 * data[2 * k + 1])
                    % 65536 == 0
        }),
    decreases packets.len(),
{
    let data = muxer::joined(packets);
    let given = packet_samples(packets);
    if packets.len() > 0 {
        let head = packets.drop_last();
        assert forall|i: int| 0 <= i < head.len() implies (#[trigger] head[i]).len() % 2 == 0 by {
            assert(head[i] == packets[i]);
        }
        lame_gets_every_sample(head);
        let last = packets.last();
        assert(packets[packets.len() - 1].len() % 2 == 0);
        let before = packet_samples(head);
        let old_data = muxer::joined(head);
        assert forall|k: int| 0 <= k < given.len() implies (#[trigger] given[k] - data[2 * k] - 256
            * data[2 * k + 1]) % 65536 == 0 by {
            if k < before.len() {
                assert(given[k] == before[k]);
                assert(data[2 * k] == old_data[2 * k]);
                assert(data[2 * k + 1] == old_data[2 * k + 1]);
            } else {
                let j = k - before.len();
                pcm::each_sample_has_its_bytes(last, j);
                assert(given[k] == pcm::samples16(last)[j]);
                assert(data[2 * k] == last[2 * j]);
                assert(data[2 * k + 1] == last[2 * j + 1]);
            }
        }
    }
}

/// A muxer takes packets only while it has an encoder and is open; before that it
/// says so, and nothing changes.
pub proof fn packets_need_an_open_file(
    before: Mp3Muxer,
    data: Seq<u8>,
    after: Mp3Muxer,
    r: EncodeResult<Vec<u8>>,
)
    requires
        before.written(data, after, r),
    ensures
        before@.encoder is None || !before@.open ==> r is Err && after@ == before@,
        before@.encoder is None ==> r->Err_0 is EncodeFailed,
        before@.encoder is Some && !before@.open ==> r->Err_0 is OutputFile,
{
}

/// A builder is set up for every format of one or two channels and a rate, and for no
/// other.
pub proof fn mono_and_stereo_are_set_up(
    builder: Builder,
    format: PcmFormat,
    bitrate_kbps: u32,
    r: EncodeResult<Builder>,
)
    requires
        call_ensures(configure, (Some(builder), &format, bitrate_kbps), r),
        format.channels <= 255,
    ensures
        r is Ok <==> (format.channels == 1 || format.channels == 2) && format.sample_rate > 0,
        r is Ok ==> lame::lame_settings(r->Ok_0).0 == format.channels,
        r is Ok && format.sample_rate <= i32::MAX ==> lame::lame_settings(r->Ok_0).1
            == format.sample_rate,
        r is Err ==> r->Err_0 is OpenFailed,
{
}

/// What LAME gave is handed on; where it failed, that is told.
pub proof fn failures_are_told(
    label: &str,
    bytes: Vec<u8>,
    detail: String,
    good: EncodeResult<Vec<u8>>,
    bad: EncodeResult<Vec<u8>>,
)
    requires
        call_ensures(encoded, (label, Ok(bytes)), good),
        call_ensures(encoded, (label, Err(detail)), bad),
    ensures
        good is Ok && good->Ok_0@ == bytes@,
        bad is Err && bad->Err_0 is EncodeFailed,
{
}

} // verus!
