//! The encoders of this build.
use crate::text;
use crate::text::{owned, same};
use vstd::prelude::*;

verus! {

/// Basic info about an audio encoder available in this build.
#[derive(Debug, Clone)]
pub struct AudioEncoderInfo {
    pub name: String,
    pub long_name: Option<String>,
    pub sample_rates: Vec<u32>,
    pub channels: Vec<u16>,
}

impl AudioEncoderInfo {
    /// Whether the entry holds exactly this.
    pub open spec fn is(
        &self,
        name: Seq<char>,
        long_name: Option<Seq<char>>,
        sample_rates: Seq<u32>,
    ) -> bool {
        &&& self.name@ == name
        &&& text::opt_view(self.long_name) == long_name
        &&& self.sample_rates@ == sample_rates
        &&& self.channels@ == seq![1u16, 2u16]
    }

    pub fn new(name: &str) -> (r: Self)
        ensures
            r.is(name@, None, seq![48000u32, 44100u32]),
    {
        AudioEncoderInfo {
            name: owned(name),
            long_name: None,
            sample_rates: vec![48000u32, 44100u32],
            channels: vec![1u16, 2u16],
        }
    }
}

pub open spec fn is_wav_encoder(e: AudioEncoderInfo) -> bool {
    e.is("pcm_s16le"@, Some("WAV PCM 16-bit"@), seq![48000u32, 44100u32, 96000u32])
}

pub open spec fn is_mp3_encoder(e: AudioEncoderInfo) -> bool {
    e.is("mp3"@, Some("MP3 (LAME)"@), seq![48000u32, 44100u32])
}

pub open spec fn is_flac_encoder(e: AudioEncoderInfo) -> bool {
    e.is("flac"@, Some("FLAC (native)"@), seq![48000u32, 44100u32, 96000u32])
}

fn wav_encoder() -> (e: AudioEncoderInfo)
    ensures
        is_wav_encoder(e),
{
    AudioEncoderInfo {
        name: owned("pcm_s16le"),
        long_name: Some(owned("WAV PCM 16-bit")),
        sample_rates: vec![48000u32, 44100u32, 96000u32],
        channels: vec![1u16, 2u16],
    }
}

fn mp3_encoder() -> (e: AudioEncoderInfo)
    ensures
        is_mp3_encoder(e),
{
    AudioEncoderInfo {
        name: owned("mp3"),
        long_name: Some(owned("MP3 (LAME)")),
        sample_rates: vec![48000u32, 44100u32],
        channels: vec![1u16, 2u16],
    }
}

fn flac_encoder() -> (e: AudioEncoderInfo)
    ensures
        is_flac_encoder(e),
{
    AudioEncoderInfo {
        name: owned("flac"),
        long_name: Some(owned("FLAC (native)")),
        sample_rates: vec![48000u32, 44100u32, 96000u32],
        channels: vec![1u16, 2u16],
    }
}

/// Return the list of natively supported encoders.
pub fn probe_audio_encoders() -> (list: Vec<AudioEncoderInfo>)
    ensures
        list.len() == 3,
        is_wav_encoder(list@[0]),
        is_mp3_encoder(list@[1]),
        is_flac_encoder(list@[2]),
{
    let mut list: Vec<AudioEncoderInfo> = Vec::new();
    list.push(wav_encoder());
    list.push(mp3_encoder());
    list.push(flac_encoder());
    list
}

/// Select preferred encoder by name hint; falls back to the first available.
pub fn select_encoder(preferred: Option<&str>) -> (r: Option<AudioEncoderInfo>)
    ensures
        r matches Some(e) && match preferred {
            Some(name) => if name@ == "mp3"@ {
                is_mp3_encoder(e)
            } else if name@ == "flac"@ {
                is_flac_encoder(e)
            } else {
                is_wav_encoder(e)
            },
            None => is_wav_encoder(e),
        },
{
    let mut list: Vec<AudioEncoderInfo> = probe_audio_encoders();
    match preferred {
        Some(name) => {
            let mut i: usize = 0;
            while i < list.len()
                invariant
                    i <= list.len() == 3,
                    preferred == Some(name),
                    is_wav_encoder(list@[0]),
                    is_mp3_encoder(list@[1]),
                    is_flac_encoder(list@[2]),
                    forall|j: int| 0 <= j < i ==> (#[trigger] list@[j]).name@ != name@,
                decreases list.len() - i,
            {
                if same(list[i].name.as_str(), name) {
                    assert("mp3"@ != "flac"@ && "mp3"@ != "pcm_s16le"@ && "flac"@ != "pcm_s16le"@)
                        by {
                        reveal_strlit("mp3");
                        reveal_strlit("flac");
                        reveal_strlit("pcm_s16le");
                        assert("mp3"@.len() == 3 && "flac"@.len() == 4 && "pcm_s16le"@.len() == 9);
                    }
                    assert(list@[i as int].name@ == name@);
                    assert(i == 0 || i == 1 || i == 2);
                    let e = list.swap_remove(i);
                    return Some(e);
                }
                i = i + 1;
            }
            assert(list@[1].name@ != name@ && list@[2].name@ != name@);
        },
        None => {},
    }
    Some(list.swap_remove(0))
}

// ---------------------------------------------------------------------------
// Laws
// ---------------------------------------------------------------------------
/// An encoder that is asked for by its name is the one that bears it; any other name, and
/// none, gives the first. All take one or two channels.
pub proof fn encoders_are_found_by_name(name: &str, r: Option<AudioEncoderInfo>)
    requires
        call_ensures(select_encoder, (Some(name),), r),
    ensures
        r is Some,
        name@ == "mp3"@ || name@ == "flac"@ || name@ == "pcm_s16le"@ ==> r->0.name@ == name@,
        name@ != "mp3"@ && name@ != "flac"@ ==> r->0.name@ == "pcm_s16le"@,
        r->0.channels@ == seq![1u16, 2u16],
        r->0.sample_rates@.contains(48000) && r->0.sample_rates@.contains(44100),
        r->0.sample_rates@.contains(96000) <==> r->0.name@ != "mp3"@,
{
    reveal_strlit("mp3");
    reveal_strlit("flac");
    reveal_strlit("pcm_s16le");
    assert("mp3"@.len() == 3 && "flac"@.len() == 4 && "pcm_s16le"@.len() == 9);
    let rates = r->0.sample_rates@;
    assert(rates[0] == 48000 && rates[1] == 44100);
    if r->0.name@ != "mp3"@ {
        assert(rates[2] == 96000);
    }
}

/// The encoders are WAV, MP3 and FLAC, in this order.
pub proof fn encoders_are_listed(list: Vec<AudioEncoderInfo>)
    requires
        call_ensures(probe_audio_encoders, (), list),
    ensures
        list@.len() == 3,
        list@[0].name@ == "pcm_s16le"@,
        list@[1].name@ == "mp3"@,
        list@[2].name@ == "flac"@,
{
}

} // verus!
