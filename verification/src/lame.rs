//! The MP3 encoder LAME, as `mp3lame_encoder` wraps it.
//!
//! Nothing is proved of the MP3 data itself: it rests on floating point. What is
//! tracked is how an encoder was set up, which samples it was given, and which data
//! it gave.
use mp3lame_encoder::{Bitrate, Builder, Encoder, FlushNoGap, InterleavedPcm, Quality};
use vstd::prelude::*;

verus! {

/// `mp3lame_encoder::Builder` holds the settings of an encoder to be made.
#[verifier::external_type_specification]
#[verifier::external_body]
pub struct ExBuilder(mp3lame_encoder::Builder);

/// `mp3lame_encoder::Encoder` encodes PCM samples to MP3 data.
#[verifier::external_type_specification]
#[verifier::external_body]
pub struct ExEncoder(mp3lame_encoder::Encoder);

/// `mp3lame_encoder::BuildError` tells why a setting or a build was refused.
#[verifier::external_type_specification]
#[verifier::external_body]
pub struct ExBuildError(mp3lame_encoder::BuildError);

/// The settings of a builder: channels, sample rate, bit rate in kbit/s, quality.
pub uninterp spec fn lame_settings(b: mp3lame_encoder::Builder) -> (int, int, int, int);

/// The settings that an encoder was built with, as in [`lame_settings`].
pub uninterp spec fn lame_encoder_settings(e: mp3lame_encoder::Encoder) -> (int, int, int, int);

/// The interleaved samples that an encoder was given since it was built.
pub uninterp spec fn lame_input(e: mp3lame_encoder::Encoder) -> Seq<i16>;

/// The MP3 data that an encoder has given since it was built.
pub uninterp spec fn lame_output(e: mp3lame_encoder::Encoder) -> Seq<u8>;

/// What `mp3lame_encoder::BuildError` displays.
pub uninterp spec fn lame_build_error_text(e: mp3lame_encoder::BuildError) -> Seq<char>;

/// The bit rates that MP3 frames can have.
#[derive(Debug, Clone, Copy, PartialEq, Eq, Structural)]
pub enum Mp3Bitrate {
    Kbps8,
    Kbps16,
    Kbps24,
    Kbps32,
    Kbps40,
    Kbps48,
    Kbps64,
    Kbps80,
    Kbps96,
    Kbps112,
    Kbps128,
    Kbps160,
    Kbps192,
    Kbps224,
    Kbps256,
    Kbps320,
}

impl Mp3Bitrate {
    /// The rate in kbit/s.
    pub open spec fn rate(&self) -> int {
        match self {
            Mp3Bitrate::Kbps8 => 8,
            Mp3Bitrate::Kbps16 => 16,
            Mp3Bitrate::Kbps24 => 24,
            Mp3Bitrate::Kbps32 => 32,
            Mp3Bitrate::Kbps40 => 40,
            Mp3Bitrate::Kbps48 => 48,
            Mp3Bitrate::Kbps64 => 64,
            Mp3Bitrate::Kbps80 => 80,
            Mp3Bitrate::Kbps96 => 96,
            Mp3Bitrate::Kbps112 => 112,
            Mp3Bitrate::Kbps128 => 128,
            Mp3Bitrate::Kbps160 => 160,
            Mp3Bitrate::Kbps192 => 192,
            Mp3Bitrate::Kbps224 => 224,
            Mp3Bitrate::Kbps256 => 256,
            Mp3Bitrate::Kbps320 => 320,
        }
    }
}

/// How thoroughly LAME encodes.
#[derive(Debug, Clone, Copy, PartialEq, Eq, Structural)]
pub enum Mp3Quality {
    Best,
    SecondBest,
    NearBest,
    VeryNice,
    Nice,
    Good,
    Decent,
    Okay,
    SecondWorst,
    Worst,
}

impl Mp3Quality {
    /// LAME's number for the quality.
    pub open spec fn level(&self) -> int {
        match self {
            Mp3Quality::Best => 0,
            Mp3Quality::SecondBest => 1,
            Mp3Quality::NearBest => 2,
            Mp3Quality::VeryNice => 3,
            Mp3Quality::Nice => 4,
            Mp3Quality::Good => 5,
            Mp3Quality::Decent => 6,
            Mp3Quality::Okay => 7,
            Mp3Quality::SecondWorst => 8,
            Mp3Quality::Worst => 9,
        }
    }
}

/// `Builder::new` allocates a builder; `None` where that fails.
pub assume_specification[ mp3lame_encoder::Builder::new ]() -> (b: Option<
    mp3lame_encoder::Builder,
>)
;

/// `Builder::set_num_channels` takes one or two channels and refuses others.
pub assume_specification[ mp3lame_encoder::Builder::set_num_channels ](
    b: &mut mp3lame_encoder::Builder,
    num: u8,
) -> (r: Result<(), mp3lame_encoder::BuildError>)
    ensures
        r is Ok <==> 1 <= num <= 2,
        r is Ok ==> lame_settings(*final(b)) == (
            num as int,
            lame_settings(*old(b)).1,
            lame_settings(*old(b)).2,
            lame_settings(*old(b)).3,
        ),
        r matches Err(e) ==> lame_build_error_text(e) == "error"@,
;

/// `Builder::set_sample_rate` takes any rate but zero; rates above the largest C
/// `int` are taken as that.
pub assume_specification[ mp3lame_encoder::Builder::set_sample_rate ](
    b: &mut mp3lame_encoder::Builder,
    rate: u32,
) -> (r: Result<(), mp3lame_encoder::BuildError>)
    ensures
        r is Ok <==> rate >= 1,
        r is Ok ==> lame_settings(*final(b)) == (
            lame_settings(*old(b)).0,
            if rate <= i32::MAX {
                rate as int
            } else {
                i32::MAX as int
            },
            lame_settings(*old(b)).2,
            lame_settings(*old(b)).3,
        ),
        r matches Err(e) ==> lame_build_error_text(e) == "error"@,
;

/// `Builder::set_brate` takes every rate of its enumeration.
#[verifier::external_body]
pub(crate) fn lame_set_brate(b: &mut Builder, brate: Mp3Bitrate) -> (r: Result<
    (),
    mp3lame_encoder::BuildError,
>)
    ensures
        r is Ok,
        lame_settings(*final(b)) == (
            lame_settings(*old(b)).0,
            lame_settings(*old(b)).1,
            brate.rate(),
            lame_settings(*old(b)).3,
        ),
{
    b.set_brate(match brate {
        Mp3Bitrate::Kbps8 => Bitrate::Kbps8, Mp3Bitrate::Kbps16 => Bitrate::Kbps16,
        Mp3Bitrate::Kbps24 => Bitrate::Kbps24, Mp3Bitrate::Kbps32 => Bitrate::Kbps32,
        Mp3Bitrate::Kbps40 => Bitrate::Kbps40, Mp3Bitrate::Kbps48 => Bitrate::Kbps48,
        Mp3Bitrate::Kbps64 => Bitrate::Kbps64, Mp3Bitrate::Kbps80 => Bitrate::Kbps80,
        Mp3Bitrate::Kbps96 => Bitrate::Kbps96, Mp3Bitrate::Kbps112 => Bitrate::Kbps112,
        Mp3Bitrate::Kbps128 => Bitrate::Kbps128, Mp3Bitrate::Kbps160 => Bitrate::Kbps160,
        Mp3Bitrate::Kbps192 => Bitrate::Kbps192, Mp3Bitrate::Kbps224 => Bitrate::Kbps224,
        Mp3Bitrate::Kbps256 => Bitrate::Kbps256, Mp3Bitrate::Kbps320 => Bitrate::Kbps320,
    })
}

/// `Builder::set_quality` takes every quality of its enumeration.
#[verifier::external_body]
pub(crate) fn lame_set_quality(b: &mut Builder, quality: Mp3Quality) -> (r: Result<
    (),
    mp3lame_encoder::BuildError,
>)
    ensures
        r is Ok,
        lame_settings(*final(b)) == (
            lame_settings(*old(b)).0,
            lame_settings(*old(b)).1,
            lame_settings(*old(b)).2,
            quality.level(),
        ),
{
    b.set_quality(match quality {
        Mp3Quality::Best => Quality::Best, Mp3Quality::SecondBest => Quality::SecondBest,
        Mp3Quality::NearBest => Quality::NearBest, Mp3Quality::VeryNice => Quality::VeryNice,
        Mp3Quality::Nice => Quality::Nice, Mp3Quality::Good => Quality::Good,
        Mp3Quality::Decent => Quality::Decent, Mp3Quality::Okay => Quality::Ok,
        Mp3Quality::SecondWorst => Quality::SecondWorst, Mp3Quality::Worst => Quality::Worst,
    })
}

/// `Builder::build` makes an encoder with the builder's settings, unless LAME
/// finds them incompatible or lacks memory.
pub assume_specification[ mp3lame_encoder::Builder::build ](
    b: mp3lame_encoder::Builder,
) -> (r: Result<mp3lame_encoder::Encoder, mp3lame_encoder::BuildError>)
    ensures
        r matches Ok(e) ==> lame_encoder_settings(e) == lame_settings(b),
        r matches Ok(e) ==> lame_input(e) == Seq::<i16>::empty(),
        r matches Ok(e) ==> lame_output(e) == Seq::<u8>::empty(),
;

/// `max_required_buffer_size` adds a quarter, rounded up, and 7200.
pub assume_specification[ mp3lame_encoder::max_required_buffer_size ](
    sample_number: usize,
) -> (n: usize)
    ensures
        sample_number + (sample_number + 3) / 4 + 7200 <= usize::MAX ==> n == sample_number + (
        sample_number + 3) / 4 + 7200,
;

/// `Encoder::encode_to_vec` on interleaved samples, with room for `capacity`
/// bytes: the MP3 data that became complete.
///
/// A failure is told by what the error displays. Which bytes come out, and whether
/// encoding fails, is not stated.
#[verifier::external_body]
pub(crate) fn lame_encode(encoder: &mut Encoder, samples: &[i16], capacity: usize) -> (r: Result<
    Vec<u8>,
    String,
>)
    requires
        samples.len() % 2 == 0,
        samples.len() / 2 <= i32::MAX,
        1 <= capacity <= i32::MAX,
    ensures
        lame_encoder_settings(*final(encoder)) == lame_encoder_settings(*old(encoder)),
        lame_input(*final(encoder)) == lame_input(*old(encoder)) + samples@,
        match r {
            Ok(bytes) => lame_output(*final(encoder)) == lame_output(*old(encoder)) + bytes@,
            Err(_) => lame_output(*final(encoder)) == lame_output(*old(encoder)),
        },
{
    let mut out = Vec::with_capacity(capacity);
    encoder.encode_to_vec(InterleavedPcm(samples), &mut out).map(|_written| out).map_err(|e| e.to_string())
}

/// `Encoder::flush_to_vec` in the manner of `FlushNoGap`, with room for `capacity`
/// bytes: the MP3 data that was still held back.
///
/// A failure is told by what the error displays. Which bytes come out, and whether
/// flushing fails, is not stated.
#[verifier::external_body]
pub(crate) fn lame_flush(encoder: &mut Encoder, capacity: usize) -> (r: Result<
    Vec<u8>,
    String,
>)
    requires
        1 <= capacity <= i32::MAX,
    ensures
        lame_encoder_settings(*final(encoder)) == lame_encoder_settings(*old(encoder)),
        lame_input(*final(encoder)) == lame_input(*old(encoder)),
        match r {
            Ok(bytes) => lame_output(*final(encoder)) == lame_output(*old(encoder)) + bytes@,
            Err(_) => lame_output(*final(encoder)) == lame_output(*old(encoder)),
        },
{
    let mut out = Vec::with_capacity(capacity);
    encoder.flush_to_vec::<FlushNoGap>(&mut out).map(|_written| out).map_err(|e| e.to_string())
}

/// `ToString::to_string` of a build error.
#[verifier::external_body]
pub(crate) fn lame_build_error(e: &mp3lame_encoder::BuildError) -> (r: String)
    ensures
        r@ == lame_build_error_text(*e),
{
    e.to_string()
}

} // verus!
