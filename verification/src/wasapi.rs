//! Capture from input devices: which device, which of its formats, and the mapping
//! of its samples.
use crate::error::{labelled, AudioError, AudioResult};
use crate::ieee;
use crate::ieee::scale_sample;
use crate::loopback::{LOOPBACK_DEVICE_INDEX, LOOPBACK_DEVICE_NAME};
use crate::monitor::{MONITOR_DEVICE_INDEX, MONITOR_DEVICE_NAME};
use crate::pcm;
use crate::pcm::{bytes_of, push_sample};
use crate::text;
use crate::text::{decimal_u64, owned, same};
use crate::types::{DeviceEntry, PcmFormat, PcmFrame};
use vstd::arithmetic::div_mod::*;
use vstd::prelude::*;

verus! {

/// How a device represents a sample.
#[derive(Debug, Clone, Copy, PartialEq, Eq, Structural)]
pub enum SampleFormat {
    I8,
    I16,
    I24,
    I32,
    I64,
    U8,
    U16,
    U32,
    U64,
    F32,
    F64,
}

/// A range of formats that a device supports.
#[derive(Debug, Clone, Copy)]
pub struct SupportedConfig {
    pub channels: u16,
    pub min_sample_rate: u32,
    pub max_sample_rate: u32,
    pub sample_format: SampleFormat,
}

// ---------------------------------------------------------------------------
// Negotiation
// ---------------------------------------------------------------------------
/// How far a rate lies outside a range.
pub open spec fn range_distance(rate: int, min: int, max: int) -> int {
    if min <= rate <= max {
        0
    } else if rate < min {
        min - rate
    } else {
        rate - max
    }
}

/// Whether a sample format suits a bit depth.
pub open spec fn suits(sample_format: SampleFormat, bit_depth: u16) -> bool {
    ||| bit_depth == 32 && sample_format == SampleFormat::F32
    ||| bit_depth == 16 && (sample_format == SampleFormat::I16 || sample_format
        == SampleFormat::U16)
}

/// How badly a configuration fits: the distance of the rate, where a suiting
/// sample format makes up for 1000 Hz.
pub open spec fn misfit(config: SupportedConfig, format: PcmFormat) -> int {
    let d = range_distance(
        format.sample_rate as int,
        config.min_sample_rate as int,
        config.max_sample_rate as int,
    );
    if !suits(config.sample_format, format.bit_depth) {
        d
    } else if d <= 1000 {
        0
    } else {
        d - 1000
    }
}

pub open spec fn some_matches(configs: Seq<SupportedConfig>, channels: u16) -> bool {
    exists|i: int| 0 <= i < configs.len() && (#[trigger] configs[i]).channels == channels
}

/// Configurations with the requested channels come into question, or all of them
/// where there is none.
pub open spec fn eligible(configs: Seq<SupportedConfig>, channels: u16, i: int) -> bool {
    &&& 0 <= i < configs.len()
    &&& some_matches(configs, channels) ==> configs[i].channels == channels
}

/// Whether `i` is the first of the best fitting configurations.
pub open spec fn is_chosen(configs: Seq<SupportedConfig>, format: PcmFormat, i: int) -> bool {
    &&& eligible(configs, format.channels, i)
    &&& forall|j: int| #[trigger]
        eligible(configs, format.channels, j) ==> {
            &&& misfit(configs[i], format) <= misfit(configs[j], format)
            &&& j < i ==> misfit(configs[i], format) < misfit(configs[j], format)
        }
}

/// The rates that are listed wherever they are supported.
pub open spec fn is_common_rate(r: u32) -> bool {
    r == 44100 || r == 48000 || r == 88200 || r == 96000 || r == 176400 || r == 192000
}

/// Whether a configuration offers a rate: one of its bounds, or a common rate
/// between them.
pub open spec fn offers(config: SupportedConfig, r: u32) -> bool {
    ||| r == config.min_sample_rate
    ||| r == config.max_sample_rate
    ||| is_common_rate(r) && config.min_sample_rate <= r <= config.max_sample_rate
}

pub open spec fn increasing(v: Seq<u32>) -> bool {
    forall|i: int, j: int| 0 <= i < j < v.len() ==> v[i] < v[j]
}

fn misfit_of(config: &SupportedConfig, format: &PcmFormat) -> (n: u64)
    ensures
        n == misfit(*config, *format),
{
    let rate: u32 = format.sample_rate;
    let d: u64 = if rate >= config.min_sample_rate && rate <= config.max_sample_rate {
        0
    } else if rate < config.min_sample_rate {
        (config.min_sample_rate - rate) as u64
    } else {
        (rate - config.max_sample_rate) as u64
    };
    let suiting: bool = (format.bit_depth == 32 && config.sample_format == SampleFormat::F32) || (
    format.bit_depth == 16 && (config.sample_format == SampleFormat::I16 || config.sample_format
        == SampleFormat::U16));
    if !suiting {
        d
    } else if d <= 1000 {
        0
    } else {
        d - 1000
    }
}

/// The first best fitting configuration among those with the wanted channels, or
/// among all.
fn best_of(configs: &[SupportedConfig], format: &PcmFormat, all: bool) -> (r: Option<usize>)
    ensures
        match r {
            Some(i) => {
                &&& i < configs.len()
                &&& all || configs@[i as int].channels == format.channels
                &&& forall|j: int|
                    0 <= j < configs.len() && (all || (#[trigger] configs@[j]).channels
                        == format.channels) ==> {
                        &&& misfit(configs@[i as int], *format) <= misfit(configs@[j], *format)
                        &&& j < i ==> misfit(configs@[i as int], *format) < misfit(
                            configs@[j],
                            *format,
                        )
                    }
            },
            None => forall|j: int|
                0 <= j < configs.len() ==> !all && (#[trigger] configs@[j]).channels
                    != format.channels,
        },
{
    let mut best: Option<usize> = None;
    let mut best_score: u64 = 0;
    let mut k: usize = 0;
    while k < configs.len()
        invariant
            k <= configs.len(),
            match best {
                Some(i) => {
                    &&& i < k
                    &&& all || configs@[i as int].channels == format.channels
                    &&& best_score == misfit(configs@[i as int], *format)
                    &&& forall|j: int|
                        0 <= j < k && (all || (#[trigger] configs@[j]).channels
                            == format.channels) ==> {
                            &&& misfit(configs@[i as int], *format) <= misfit(configs@[j], *format)
                            &&& j < i ==> misfit(configs@[i as int], *format) < misfit(
                                configs@[j],
                                *format,
                            )
                        }
                },
                None => forall|j: int|
                    0 <= j < k ==> !all && (#[trigger] configs@[j]).channels != format.channels,
            },
        decreases configs.len() - k,
    {
        if all || configs[k].channels == format.channels {
            let score: u64 = misfit_of(&configs[k], format);
            match best {
                Some(_) => {
                    if score < best_score {
                        best = Some(k);
                        best_score = score;
                    }
                },
                None => {
                    best = Some(k);
                    best_score = score;
                },
            }
        }
        k = k + 1;
    }
    best
}

/// The configuration to use; none only where there is none at all.
pub fn choose_config(configs: &[SupportedConfig], format: &PcmFormat) -> (r: Option<usize>)
    ensures
        match r {
            Some(i) => is_chosen(configs@, *format, i as int),
            None => configs.len() == 0,
        },
{
    match best_of(configs, format, false) {
        Some(i) => {
            proof {
                let c = configs@;
                assert(c[i as int].channels == format.channels);
                assert(some_matches(c, format.channels));
                assert forall|j: int| #[trigger] eligible(c, format.channels, j) implies misfit(
                    c[i as int],
                    *format,
                ) <= misfit(c[j], *format) && (j < i ==> misfit(c[i as int], *format) < misfit(
                    c[j],
                    *format,
                )) by {
                    assert(c[j].channels == format.channels);
                }
            }
            Some(i)
        },
        None => {
            assert(!some_matches(configs@, format.channels));
            let r = best_of(configs, format, true);
            proof {
                match r {
                    Some(i) => {
                        let c = configs@;
                        assert forall|j: int| #[trigger]
                            eligible(c, format.channels, j) implies misfit(c[i as int], *format)
                            <= misfit(c[j], *format) && (j < i ==> misfit(c[i as int], *format)
                            < misfit(c[j], *format)) by {
                            assert(0 <= j < c.len() && (true || c[j].channels == format.channels));
                        }
                    },
                    None => {
                        if configs.len() > 0 {
                            assert(configs@[0].channels != format.channels);
                        }
                    },
                }
            }
            r
        },
    }
}

/// Adds a rate to an increasing list, once.
fn insert_rate(v: &mut Vec<u32>, r: u32)
    requires
        increasing(old(v)@),
    ensures
        increasing(final(v)@),
        forall|x: u32| #[trigger] final(v)@.contains(x) <==> old(v)@.contains(x) || x == r,
{
    let mut i: usize = 0;
    while i < v.len() && v[i] < r
        invariant
            i <= v.len(),
            v@ == old(v)@,
            forall|j: int| 0 <= j < i ==> v@[j] < r,
        decreases v.len() - i,
    {
        i = i + 1;
    }
    if i < v.len() && v[i] == r {
        assert(v@[i as int] == r);
        return ;
    }
    let ghost before = v@;
    v.insert(i, r);
    proof {
        let now = v@;
        assert(now =~= before.insert(i as int, r));
        assert forall|a: int, b: int| 0 <= a < b < now.len() implies now[a] < now[b] by {
            if b < i {
                assert(before[a] < before[b]);
            } else if b == i {
            } else if a < i {
                assert(before[a] < before[b - 1]);
            } else if a == i {
                if b - 1 > i {
                    assert(before[i as int] < before[b - 1]);
                }
            } else {
                assert(before[a - 1] < before[b - 1]);
            }
        }
        assert forall|x: u32| #[trigger] now.contains(x) <==> before.contains(x) || x == r by {
            if before.contains(x) {
                let p = before.index_of(x);
                if p < i {
                    assert(now[p] == x);
                } else {
                    assert(now[p + 1] == x);
                }
            }
            if x == r {
                assert(now[i as int] == x);
            }
            if now.contains(x) && x != r {
                let p = now.index_of(x);
                if p < i {
                    assert(before[p] == x);
                } else {
                    assert(before[p - 1] == x);
                }
            }
        }
    }
}

fn insert_common(v: &mut Vec<u32>, config: &SupportedConfig, r: u32)
    requires
        increasing(old(v)@),
    ensures
        increasing(final(v)@),
        forall|x: u32| #[trigger]
            final(v)@.contains(x) <==> old(v)@.contains(x) || (x == r && config.min_sample_rate <= r
                <= config.max_sample_rate),
{
    if r >= config.min_sample_rate && r <= config.max_sample_rate {
        insert_rate(v, r);
    }
}

/// Adds the rates that a configuration offers.
fn insert_offered(v: &mut Vec<u32>, config: &SupportedConfig)
    requires
        increasing(old(v)@),
    ensures
        increasing(final(v)@),
        forall|x: u32| #[trigger]
            final(v)@.contains(x) <==> old(v)@.contains(x) || offers(*config, x),
{
    insert_common(v, config, 44100);
    insert_common(v, config, 48000);
    insert_common(v, config, 88200);
    insert_common(v, config, 96000);
    insert_common(v, config, 176400);
    insert_common(v, config, 192000);
    insert_rate(v, config.min_sample_rate);
    insert_rate(v, config.max_sample_rate);
}

/// The increasing list of rates offered by the configurations with the wanted
/// channels, or by all.
fn offered_rates(configs: &[SupportedConfig], channels: u16, all: bool) -> (v: Vec<u32>)
    ensures
        increasing(v@),
        forall|x: u32| #[trigger]
            v@.contains(x) <==> exists|i: int|
                0 <= i < configs.len() && (all || configs@[i].channels == channels)
                    && #[trigger] offers(configs@[i], x),
{
    let mut v: Vec<u32> = Vec::new();
    let mut k: usize = 0;
    while k < configs.len()
        invariant
            k <= configs.len(),
            increasing(v@),
            forall|x: u32| #[trigger]
                v@.contains(x) <==> exists|i: int|
                    0 <= i < k && (all || configs@[i].channels == channels) && #[trigger] offers(
                        configs@[i],
                        x,
                    ),
        decreases configs.len() - k,
    {
        let ghost before = v@;
        if all || configs[k].channels == channels {
            insert_offered(&mut v, &configs[k]);
        }
        proof {
            assert forall|x: u32| #[trigger] v@.contains(x) <==> exists|i: int|
                0 <= i < k + 1 && (all || configs@[i].channels == channels) && #[trigger] offers(
                    configs@[i],
                    x,
                ) by {
                if before.contains(x) {
                    let i = choose|i: int|
                        0 <= i < k && (all || configs@[i].channels == channels)
                            && #[trigger] offers(configs@[i], x);
                    assert(0 <= i < k + 1 && offers(configs@[i], x));
                }
                if (all || configs@[k as int].channels == channels) && offers(
                    configs@[k as int],
                    x,
                ) {
                    assert(0 <= k < k + 1 && offers(configs@[k as int], x));
                }
            }
        }
        k = k + 1;
    }
    v
}

impl WasapiBackend {
    /// Query supported sample rates for a channel count: common rates that fall
    /// within supported ranges, and the bounds of these, in increasing order.
    pub fn enumerate_supported_sample_rates(configs: &[SupportedConfig], channels: u16) -> (v: Vec<
        u32,
    >)
        ensures
            increasing(v@),
            forall|x: u32| #[trigger]
                v@.contains(x) <==> exists|i: int|
                    0 <= i < configs.len() && configs@[i].channels == channels && #[trigger] offers(
                        configs@[i],
                        x,
                    ),
    {
        let v: Vec<u32> = offered_rates(configs, channels, false);
        assert forall|x: u32| #[trigger] v@.contains(x) <==> exists|i: int|
            0 <= i < configs.len() && configs@[i].channels == channels && #[trigger] offers(
                configs@[i],
                x,
            ) by {
            if v@.contains(x) {
                let i = choose|i: int|
                    0 <= i < configs.len() && (false || configs@[i].channels == channels)
                        && #[trigger] offers(configs@[i], x);
                assert(0 <= i < configs.len() && configs@[i].channels == channels && offers(
                    configs@[i],
                    x,
                ));
            }
        }
        v
    }
}

/// Diagnostic information produced by negotiation logic.
#[derive(Debug)]
pub struct NegotiationInfo {
    pub device_index: u32,
    pub requested_format: PcmFormat,
    pub chosen_channels: u16,
    pub chosen_sample_format: SampleFormat,
    pub chosen_min_sr: u32,
    pub chosen_max_sr: u32,
    pub negotiated_sample_rate: u32,
    pub bit_depth: u16,
    pub candidate_rates: Vec<u32>,
    pub score: u64,
}

/// The rate of a range that is used for a requested one.
pub open spec fn clamped_rate(rate: u32, min: u32, max: u32) -> u32 {
    if min <= rate <= max {
        rate
    } else if rate < min {
        min
    } else {
        max
    }
}

/// The part of a negotiation that opening a stream needs.
#[derive(Debug, Clone, Copy)]
pub struct StreamPlan {
    /// Channels that the stream is opened with.
    pub device_channels: u16,
    pub sample_format: SampleFormat,
    pub min_sample_rate: u32,
    pub max_sample_rate: u32,
    pub sample_rate: u32,
    pub bit_depth: u16,
    pub score: u64,
}

impl StreamPlan {
    /// What the plan follows from: configuration `i` is the selected one.
    pub open spec fn follows(
        &self,
        configs: Seq<SupportedConfig>,
        format: PcmFormat,
        i: int,
    ) -> bool {
        &&& is_chosen(configs, format, i)
        &&& self.device_channels == configs[i].channels
        &&& self.sample_format == configs[i].sample_format
        &&& self.min_sample_rate == configs[i].min_sample_rate
        &&& self.max_sample_rate == configs[i].max_sample_rate
        &&& self.sample_rate == clamped_rate(
            format.sample_rate,
            configs[i].min_sample_rate,
            configs[i].max_sample_rate,
        )
        &&& self.bit_depth == if configs[i].sample_format == SampleFormat::F32 {
            32u16
        } else {
            16u16
        }
        &&& self.score == misfit(configs[i], format)
    }
}

impl StreamPlan {
    /// The format that is reported for the stream: its rate and bit depth, with the
    /// requested channels.
    pub fn reported_format(&self, requested_channels: u16) -> (f: PcmFormat)
        ensures
            f == (PcmFormat {
                sample_rate: self.sample_rate,
                channels: requested_channels,
                bit_depth: self.bit_depth,
            }),
    {
        PcmFormat {
            sample_rate: self.sample_rate,
            channels: requested_channels,
            bit_depth: self.bit_depth,
        }
    }
}

/// The error where a device supports no format at all.
pub open spec fn is_no_config(e: AudioError, channels: u16) -> bool {
    e matches AudioError::UnsupportedFormat(m) && m@ == "no supported config for "@ + text::decimal(
        channels as nat,
    ) + " channels"@
}

/// Plans the stream for a requested format.
pub fn plan_stream(configs: &[SupportedConfig], format: &PcmFormat) -> (r: AudioResult<StreamPlan>)
    ensures
        match r {
            Ok(plan) => exists|i: int| #[trigger] plan.follows(configs@, *format, i),
            Err(e) => configs.len() == 0 && is_no_config(e, format.channels),
        },
{
    let chosen: usize = match choose_config(configs, format) {
        Some(i) => i,
        None => {
            let mut m = owned("no supported config for ");
            m.append(decimal_u64(format.channels as u64).as_str());
            m.append(" channels");
            return Err(AudioError::UnsupportedFormat(m));
        },
    };
    let config: SupportedConfig = configs[chosen];
    let rate: u32 = format.sample_rate;
    let sample_rate: u32 = if rate >= config.min_sample_rate && rate <= config.max_sample_rate {
        rate
    } else if rate < config.min_sample_rate {
        config.min_sample_rate
    } else {
        config.max_sample_rate
    };
    let plan = StreamPlan {
        device_channels: config.channels,
        sample_format: config.sample_format,
        min_sample_rate: config.min_sample_rate,
        max_sample_rate: config.max_sample_rate,
        sample_rate,
        bit_depth: if config.sample_format == SampleFormat::F32 {
            32
        } else {
            16
        },
        score: misfit_of(&config, format),
    };
    assert(plan.follows(configs@, *format, chosen as int));
    Ok(plan)
}

impl WasapiBackend {
    /// Run the negotiation logic and return detailed diagnostics without opening or
    /// starting streams. Useful for UI previews and logging.
    pub fn diagnose_negotiation(
        device_index: u32,
        format: PcmFormat,
        configs: &[SupportedConfig],
    ) -> (r: AudioResult<NegotiationInfo>)
        ensures
            match r {
                Ok(info) => {
                    &&& info.device_index == device_index
                    &&& info.requested_format == format
                    &&& exists|plan: StreamPlan, i: int| #[trigger]
                        plan.follows(configs@, format, i) && info.chosen_channels
                            == plan.device_channels && info.chosen_sample_format == plan.sample_format
                            && info.chosen_min_sr == plan.min_sample_rate && info.chosen_max_sr
                            == plan.max_sample_rate && info.negotiated_sample_rate == plan.sample_rate
                            && info.bit_depth == plan.bit_depth && info.score == plan.score
                    &&& increasing(info.candidate_rates@)
                    &&& forall|x: u32| #[trigger]
                        info.candidate_rates@.contains(x) <==> exists|i: int|
                            eligible(configs@, format.channels, i) && #[trigger] offers(configs@[i], x)
                },
                Err(e) => configs.len() == 0 && is_no_config(e, format.channels),
            },
    {
        let plan: StreamPlan = match plan_stream(configs, &format) {
            Ok(p) => p,
            Err(e) => {
                return Err(e);
            },
        };
        let mut any: bool = false;
        let mut k: usize = 0;
        while k < configs.len()
            invariant
                k <= configs.len(),
                any <==> exists|i: int|
                    0 <= i < k && (#[trigger] configs@[i]).channels == format.channels,
            decreases configs.len() - k,
        {
            if configs[k].channels == format.channels {
                any = true;
                assert(configs@[k as int].channels == format.channels);
            }
            k = k + 1;
        }
        assert(any == some_matches(configs@, format.channels));
        let candidate_rates: Vec<u32> = offered_rates(configs, format.channels, !any);
        assert forall|x: u32| #[trigger] candidate_rates@.contains(x) <==> exists|i: int|
            eligible(configs@, format.channels, i) && #[trigger] offers(configs@[i], x) by {
            if candidate_rates@.contains(x) {
                let i = choose|i: int|
                    0 <= i < configs.len() && (!any || configs@[i].channels == format.channels)
                        && #[trigger] offers(configs@[i], x);
                assert(eligible(configs@, format.channels, i) && offers(configs@[i], x));
            }
            if exists|i: int|
                eligible(configs@, format.channels, i) && #[trigger] offers(configs@[i], x) {
                let i = choose|i: int|
                    eligible(configs@, format.channels, i) && #[trigger] offers(configs@[i], x);
                assert(0 <= i < configs.len() && (!any || configs@[i].channels == format.channels)
                    && offers(configs@[i], x));
            }
        }
        let info = NegotiationInfo {
            device_index,
            requested_format: format,
            chosen_channels: plan.device_channels,
            chosen_sample_format: plan.sample_format,
            chosen_min_sr: plan.min_sample_rate,
            chosen_max_sr: plan.max_sample_rate,
            negotiated_sample_rate: plan.sample_rate,
            bit_depth: plan.bit_depth,
            candidate_rates,
            score: plan.score,
        };
        proof {
            let i = choose|i: int| #[trigger] plan.follows(configs@, format, i);
            assert(plan.follows(configs@, format, i));
        }
        Ok(info)
    }
}

/// A negotiated rate lies in the chosen range and is the requested one where that
/// range holds it; no rate of the range is nearer.
pub proof fn negotiated_rate_is_nearest(rate: u32, min: u32, max: u32, other: u32)
    requires
        min <= max,
        min <= other <= max,
    ensures
        min <= clamped_rate(rate, min, max) <= max,
        min <= rate <= max ==> clamped_rate(rate, min, max) == rate,
        range_distance(clamped_rate(rate, min, max) as int, rate as int, rate as int)
            <= range_distance(other as int, rate as int, rate as int),
{
}

// ---------------------------------------------------------------------------
// Devices
// ---------------------------------------------------------------------------
/// The error where devices cannot be enumerated.
pub fn enumerate_failed(detail: &str) -> (e: AudioError)
    ensures
        e matches AudioError::Wasapi(0, m) && m@ == "device enumerate failed: "@ + detail@,
{
    AudioError::Wasapi(0, labelled("device enumerate failed: ", detail))
}

/// The error where a device does not tell its formats.
pub fn configs_failed(detail: &str) -> (e: AudioError)
    ensures
        e matches AudioError::Wasapi(0, m) && m@ == "supported configs failed: "@ + detail@,
{
    AudioError::Wasapi(0, labelled("supported configs failed: ", detail))
}

/// What comes of waiting for a frame of the capture thread: nothing where that has
/// ended, an error where the wait itself failed.
pub fn received(outcome: Result<Option<PcmFrame>, String>) -> (r: AudioResult<Option<PcmFrame>>)
    ensures
        match outcome {
            Ok(frame) => r == Ok::<Option<PcmFrame>, AudioError>(frame),
            Err(detail) => r matches Err(AudioError::Wasapi(0, m)) && m@ == "recv join error: "@
                + detail@,
        },
{
    match outcome {
        Ok(frame) => Ok(frame),
        Err(detail) => Err(AudioError::Wasapi(0, labelled("recv join error: ", detail.as_str()))),
    }
}

/// The error where there is no device with this index.
pub fn device_not_found(index: u32) -> (e: AudioError)
    ensures
        e matches AudioError::DeviceNotFound(m) && m@ == "index "@ + text::decimal(index as nat),
{
    AudioError::DeviceNotFound(labelled("index ", decimal_u64(index as u64).as_str()))
}

/// The name shown for a device.
pub open spec fn shown_name(name: Option<Seq<char>>) -> Seq<char> {
    match name {
        Some(n) => n,
        None => "Unnamed"@,
    }
}

/// The system that devices are captured on.
#[derive(Debug, Clone, Copy, PartialEq, Eq, Structural)]
pub enum Platform {
    Windows,
    Linux,
    Other,
}

/// The entry of the input device number `i`; on Windows none is the default, as
/// the loopback is.
pub open spec fn is_input_entry(
    entry: DeviceEntry,
    platform: Platform,
    i: int,
    name: Option<Seq<char>>,
    default_input: Option<Seq<char>>,
) -> bool {
    &&& entry.index == i % 0x1_0000_0000
    &&& entry.name@ == shown_name(name)
    &&& entry.is_default == (default_input == Some(shown_name(name)) && platform
        != Platform::Windows)
    &&& !entry.is_loopback
}

/// Whether an entry stands for what is played: by the loopback on Windows, by the
/// monitor of the default sink on Linux.
pub open spec fn is_system_entry(entry: DeviceEntry, platform: Platform) -> bool {
    &&& match platform {
        Platform::Windows => entry.index == LOOPBACK_DEVICE_INDEX && entry.name@
            == LOOPBACK_DEVICE_NAME@,
        Platform::Linux => entry.index == MONITOR_DEVICE_INDEX && entry.name@
            == MONITOR_DEVICE_NAME@,
        Platform::Other => false,
    }
    &&& entry.is_default
    &&& entry.is_loopback
}

/// How many entries stand before the input devices.
pub open spec fn system_entries(platform: Platform) -> int {
    if platform == Platform::Other {
        0
    } else {
        1
    }
}

/// All devices: what is played first, where the system lets it be captured, then the
/// input devices.
pub fn list_devices(
    platform: Platform,
    names: &[Option<String>],
    default_input: &Option<String>,
) -> (list: Vec<DeviceEntry>)
    ensures
        list.len() == system_entries(platform) + names.len(),
        platform != Platform::Other ==> is_system_entry(list@[0], platform),
        forall|i: int|
            0 <= i < names.len() ==> is_input_entry(
                #[trigger] list@[system_entries(platform) + i],
                platform,
                i,
                text::opt_view(names@[i]),
                text::opt_view(*default_input),
            ),
{
    let mut list: Vec<DeviceEntry> = Vec::new();
    match platform {
        Platform::Windows => {
            list.push(
                DeviceEntry {
                    index: LOOPBACK_DEVICE_INDEX,
                    name: owned(LOOPBACK_DEVICE_NAME),
                    is_default: true,
                    is_loopback: true,
                },
            );
        },
        Platform::Linux => {
            list.push(
                DeviceEntry {
                    index: MONITOR_DEVICE_INDEX,
                    name: owned(MONITOR_DEVICE_NAME),
                    is_default: true,
                    is_loopback: true,
                },
            );
        },
        Platform::Other => {},
    }
    let windows: bool = match platform {
        Platform::Windows => true,
        _ => false,
    };
    let mut k: usize = 0;
    while k < names.len()
        invariant
            k <= names.len(),
            windows == (platform == Platform::Windows),
            list.len() == system_entries(platform) + k,
            platform != Platform::Other ==> is_system_entry(list@[0], platform),
            forall|i: int|
                0 <= i < k ==> is_input_entry(
                    #[trigger] list@[system_entries(platform) + i],
                    platform,
                    i,
                    text::opt_view(names@[i]),
                    text::opt_view(*default_input),
                ),
        decreases names.len() - k,
    {
        let name: String = match &names[k] {
            Some(n) => n.clone(),
            None => owned("Unnamed"),
        };
        let named_default: bool = match default_input {
            Some(d) => same(d.as_str(), name.as_str()),
            None => false,
        };
        list.push(
            DeviceEntry {
                index: (k as u64 % 0x1_0000_0000) as u32,
                name,
                is_default: named_default && !windows,
                is_loopback: false,
            },
        );
        k = k + 1;
    }
    list
}

/// What a device index leads to.
#[derive(Debug, Clone, Copy, PartialEq, Eq, Structural)]
pub enum DeviceRoute {
    Loopback,
    Monitor,
    Input,
}

/// See [`DeviceRoute`]; only Linux has a monitor.
pub fn route(platform: Platform, device_index: u32) -> (r: DeviceRoute)
    ensures
        r == if device_index == LOOPBACK_DEVICE_INDEX {
            DeviceRoute::Loopback
        } else if device_index == MONITOR_DEVICE_INDEX && platform == Platform::Linux {
            DeviceRoute::Monitor
        } else {
            DeviceRoute::Input
        },
{
    let linux: bool = match platform {
        Platform::Linux => true,
        _ => false,
    };
    if device_index == LOOPBACK_DEVICE_INDEX {
        DeviceRoute::Loopback
    } else if device_index == MONITOR_DEVICE_INDEX && linux {
        DeviceRoute::Monitor
    } else {
        DeviceRoute::Input
    }
}

/// Whether the next frame has to be waited for.
#[derive(Debug, Clone, Copy, PartialEq, Eq, Structural)]
pub enum NextFrame {
    /// There is none.
    Nothing,
    /// It comes from the capture thread, if that still runs.
    Receive,
}

/// The state of device capture; its threads and channels belong to the caller.
#[derive(Debug)]
pub struct WasapiBackend {
    /// Whether frames arrive from a capture thread.
    pub connected: bool,
    /// Whether a capture thread waits for the signal that ends it.
    pub stoppable: bool,
    /// Whether frames from before or during a stop may still wait.
    pub stale: bool,
    pub active: bool,
    pub actual_format: Option<PcmFormat>,
    pub device_name: Option<String>,
}

impl WasapiBackend {
    pub fn new() -> (b: Self)
        ensures
            !b.connected && !b.stoppable && !b.stale && !b.active,
            b.actual_format is None,
            b.device_name is None,
    {
        WasapiBackend {
            connected: false,
            stoppable: false,
            stale: false,
            active: false,
            actual_format: None,
            device_name: None,
        }
    }

    /// Names the device that is about to be opened; an input device by its own name.
    pub fn select(&mut self, route: DeviceRoute, input_name: Option<String>)
        ensures
            final(self).connected == old(self).connected,
            final(self).stoppable == old(self).stoppable,
            final(self).stale == old(self).stale,
            final(self).active == old(self).active,
            final(self).actual_format == old(self).actual_format,
            text::opt_view(final(self).device_name) == match route {
                DeviceRoute::Loopback => Some(LOOPBACK_DEVICE_NAME@),
                DeviceRoute::Monitor => Some(MONITOR_DEVICE_NAME@),
                DeviceRoute::Input => text::opt_view(input_name),
            },
    {
        self.device_name =
        match route {
            DeviceRoute::Loopback => Some(owned(LOOPBACK_DEVICE_NAME)),
            DeviceRoute::Monitor => Some(owned(MONITOR_DEVICE_NAME)),
            DeviceRoute::Input => input_name,
        };
    }

    /// The capture thread runs and delivers this format.
    pub fn opened(&mut self, actual: PcmFormat)
        ensures
            final(self).connected && final(self).stoppable && !final(self).stale,
            final(self).actual_format == Some(actual),
            final(self).active == old(self).active,
            final(self).device_name == old(self).device_name,
    {
        self.actual_format = Some(actual);
        self.connected = true;
        self.stoppable = true;
        self.stale = false;
    }

    /// How starting changes the state.
    pub open spec fn started(self, after: Self) -> bool {
        after == (WasapiBackend { active: true, stale: false, ..self })
    }

    /// Starts; whether frames that wait are old ones, to be dropped first.
    pub fn start(&mut self) -> (flush: bool)
        ensures
            flush == old(self).stale,
            old(self).started(*final(self)),
    {
        let flush: bool = self.stale;
        self.active = true;
        self.stale = false;
        flush
    }

    /// How stopping changes the state: the capture thread runs on, and what it
    /// delivers meanwhile is old when streaming starts again.
    pub open spec fn stopped(self, after: Self) -> bool {
        after == (WasapiBackend { active: false, stale: self.stale || self.connected, ..self })
    }

    /// Stops, with the device left open; whether buffered frames have to be dropped.
    pub fn stop(&mut self) -> (flush: bool)
        ensures
            flush == old(self).connected,
            old(self).stopped(*final(self)),
    {
        self.active = false;
        if self.connected {
            self.stale = true;
        }
        self.connected
    }

    /// How closing changes the state.
    pub open spec fn closed_to(self, after: Self) -> bool {
        after == (WasapiBackend {
            active: false,
            connected: false,
            stoppable: false,
            stale: false,
            ..self
        })
    }

    /// Closes the device; whether a capture thread has to be told to end.
    pub fn close(&mut self) -> (signal: bool)
        ensures
            signal == old(self).stoppable,
            old(self).closed_to(*final(self)),
    {
        let signal: bool = self.stoppable;
        self.active = false;
        self.connected = false;
        self.stoppable = false;
        self.stale = false;
        signal
    }

    /// Returns true if the backend is currently streaming.
    pub fn is_active(&self) -> (r: bool)
        ensures
            r == self.active,
    {
        self.active
    }

    /// Returns the actual PCM format negotiated with the device.
    pub fn actual_format(&self) -> (r: Option<PcmFormat>)
        ensures
            r == self.actual_format,
    {
        self.actual_format
    }

    /// Returns the name of the currently open device, if any.
    pub fn device_name(&self) -> (r: Option<String>)
        ensures
            text::opt_view(r) == text::opt_view(self.device_name),
    {
        match &self.device_name {
            Some(name) => Some(owned(name.as_str())),
            None => None,
        }
    }

    /// Where the next frame comes from.
    pub open spec fn source(self) -> NextFrame {
        if self.active && self.connected {
            NextFrame::Receive
        } else {
            NextFrame::Nothing
        }
    }

    pub fn next_frame(&self) -> (r: NextFrame)
        ensures
            r == self.source(),
    {
        if self.active && self.connected {
            NextFrame::Receive
        } else {
            NextFrame::Nothing
        }
    }
}

/// The device remains open after a stop: nothing is delivered then, a start alone
/// brings back the frames of the same capture, and the old ones among them are
/// dropped.
pub proof fn stop_leaves_device_open(a: WasapiBackend, b: WasapiBackend, c: WasapiBackend)
    requires
        a.stopped(b),
        b.started(c),
    ensures
        b.source() == NextFrame::Nothing,
        c.source() == NextFrame::Receive <==> a.connected,
        c.stoppable == a.stoppable,
        a.connected ==> b.stale,
        !c.stale,
        c.actual_format == a.actual_format,
        c.device_name == a.device_name,
{
}

/// Only closing ends a capture: nothing is delivered after it, started or not.
pub proof fn closing_ends_capture(a: WasapiBackend, b: WasapiBackend, c: WasapiBackend)
    requires
        a.closed_to(b),
        b.started(c),
    ensures
        b.source() == NextFrame::Nothing,
        c.source() == NextFrame::Nothing,
        !c.stoppable,
{
}

impl Default for WasapiBackend {
    fn default() -> (b: Self)
        ensures
            !b.connected && !b.stoppable && !b.stale && !b.active,
            b.actual_format is None,
            b.device_name is None,
    {
        WasapiBackend::new()
    }
}

// ---------------------------------------------------------------------------
// Samples
// ---------------------------------------------------------------------------
/// Interleaved samples of `device` channels as ones of `requested` channels: the
/// same where the counts agree, else channels repeat or are left out.
pub open spec fn mapped_samples(data: Seq<i16>, device: nat, requested: nat) -> Seq<i16> {
    if device == requested {
        data
    } else {
        let frames = if device == 0 {
            0
        } else {
            data.len() / device
        };
        Seq::new(
            frames * requested,
            |i: int|
                data[(i / requested as int) * device + (i % requested as int) % device as int],
        )
    }
}

proof fn lemma_frame_index(len: nat, device: nat, f: nat, c: nat)
    requires
        device >= 1,
        f < len / device,
        c < device,
    ensures
        0 <= f * device,
        f * device + c < len,
{
    lemma_fundamental_div_mod(len as int, device as int);
    lemma_mod_bound(len as int, device as int);
    let n = (len / device) as int;
    assert(f * device + c < n * device && 0 <= f * device) by (nonlinear_arith)
        requires
            f < n,
            c < device,
            f >= 0,
    ;
    assert(n * device <= len) by (nonlinear_arith)
        requires
            len == device * n + len as int % device as int,
            len as int % device as int >= 0,
    ;
}

/// Map interleaved 16-bit samples from device channel count to requested channel
/// count; see [`mapped_samples`].
pub fn map_i16_channels(data: &[i16], device_channels: usize, requested_channels: usize) -> (out:
    Vec<u8>)
    ensures
        out@ == pcm::bytes16(
            mapped_samples(data@, device_channels as nat, requested_channels as nat),
        ),
{
    if device_channels == requested_channels {
        return bytes_of(data);
    }
    let frames: usize = if device_channels == 0 {
        0
    } else {
        data.len() / device_channels
    };
    let ghost all = mapped_samples(data@, device_channels as nat, requested_channels as nat);
    let mut out: Vec<u8> = Vec::new();
    let mut f: usize = 0;
    assert(0 * requested_channels == 0) by (nonlinear_arith);
    assert(all.take(0) =~= Seq::empty());
    while f < frames
        invariant
            f <= frames,
            device_channels != requested_channels,
            frames > 0 ==> device_channels > 0 && frames == data.len() as nat
                / device_channels as nat,
            all == mapped_samples(data@, device_channels as nat, requested_channels as nat),
            all.len() == frames * requested_channels,
            out@ == pcm::bytes16(all.take(f * requested_channels)),
        decreases frames - f,
    {
        proof {
            assert((f + 1) * requested_channels == f * requested_channels + requested_channels)
                by (nonlinear_arith);
            assert(0 <= f * requested_channels) by (nonlinear_arith);
            assert((f + 1) * requested_channels <= frames * requested_channels) by (nonlinear_arith)
                requires
                    f + 1 <= frames,
            ;
        }
        let mut c: usize = 0;
        while c < requested_channels
            invariant
                c <= requested_channels,
                f < frames,
                device_channels != requested_channels,
                device_channels > 0,
                frames == data.len() as nat / device_channels as nat,
                all == mapped_samples(data@, device_channels as nat, requested_channels as nat),
                0 <= f * requested_channels,
                f * requested_channels + requested_channels <= all.len(),
                out@ == pcm::bytes16(all.take(f * requested_channels + c)),
            decreases requested_channels - c,
        {
            let d: usize = c % device_channels;
            proof {
                lemma_frame_index(data.len() as nat, device_channels as nat, f as nat, d as nat);
            }
            let s: i16 = data[f * device_channels + d];
            push_sample(&mut out, s);
            proof {
                let i = f * requested_channels + c;
                lemma_fundamental_div_mod_converse(
                    i,
                    requested_channels as int,
                    f as int,
                    c as int,
                );
                assert(all[i] == s);
                assert(all.take(i + 1).drop_last() =~= all.take(i));
            }
            c = c + 1;
        }
        f = f + 1;
    }
    assert(all.take(frames * requested_channels) =~= all);
    out
}

/// An unsigned sample taken as two's complement.
pub open spec fn reinterpreted(data: Seq<u16>) -> Seq<i16> {
    Seq::new(data.len(), |i: int| pcm::sample16((data[i] % 256) as u8, (data[i] / 256) as u8))
}

/// The same for unsigned samples, taken as two's complement.
pub fn map_u16_channels(data: &[u16], device_channels: usize, requested_channels: usize) -> (out:
    Vec<u8>)
    ensures
        out@ == pcm::bytes16(
            mapped_samples(
                reinterpreted(data@),
                device_channels as nat,
                requested_channels as nat,
            ),
        ),
{
    let mut samples: Vec<i16> = Vec::new();
    let mut i: usize = 0;
    while i < data.len()
        invariant
            i <= data.len(),
            samples@ == reinterpreted(data@).take(i as int),
        decreases data.len() - i,
    {
        samples.push(pcm::sample_of((data[i] % 256) as u8, (data[i] / 256) as u8));
        i = i + 1;
        assert(samples@ =~= reinterpreted(data@).take(i as int));
    }
    assert(samples@ =~= reinterpreted(data@));
    map_i16_channels(samples.as_slice(), device_channels, requested_channels)
}

/// Single-precision samples, by their bit patterns, scaled to 16 bits.
pub open spec fn scaled_samples(data: Seq<u32>) -> Seq<i16> {
    Seq::new(data.len(), |i: int| ieee::scaled(data[i]) as i16)
}

/// The same for single-precision samples, given by their bit patterns.
pub fn map_f32_channels(data: &[u32], device_channels: usize, requested_channels: usize) -> (out:
    Vec<u8>)
    ensures
        out@ == pcm::bytes16(
            mapped_samples(
                scaled_samples(data@),
                device_channels as nat,
                requested_channels as nat,
            ),
        ),
{
    let mut samples: Vec<i16> = Vec::new();
    let mut i: usize = 0;
    while i < data.len()
        invariant
            i <= data.len(),
            samples@ == scaled_samples(data@).take(i as int),
        decreases data.len() - i,
    {
        samples.push(scale_sample(data[i]));
        i = i + 1;
        assert(samples@ =~= scaled_samples(data@).take(i as int));
    }
    assert(samples@ =~= scaled_samples(data@));
    map_i16_channels(samples.as_slice(), device_channels, requested_channels)
}

/// The frame that a capture callback makes of `samples` device samples.
pub fn input_frame(
    data: Vec<u8>,
    plan: &StreamPlan,
    requested_channels: u16,
    samples: usize,
    now_us: u64,
    sequence: u64,
) -> (frame: PcmFrame)
    requires
        plan.device_channels >= 1,
    ensures
        frame.data == data,
        frame.format == (PcmFormat {
            sample_rate: plan.sample_rate,
            channels: requested_channels,
            bit_depth: 16,
        }),
        frame.timestamp_us == now_us / 1000,
        frame.sequence == sequence,
        frame.frame_count == (samples as int % 0x1_0000_0000) / plan.device_channels as int,
{
    let count: u32 = (samples as u64 % 0x1_0000_0000) as u32;
    PcmFrame {
        data,
        format: PcmFormat {
            sample_rate: plan.sample_rate,
            channels: requested_channels,
            bit_depth: 16,
        },
        timestamp_us: now_us / 1000,
        sequence,
        frame_count: count / (plan.device_channels as u32),
    }
}

// ---------------------------------------------------------------------------
// Laws
// ---------------------------------------------------------------------------
/// A plan tells a configuration of the device: one with the requested channels, if
/// there is any. The rate is the nearest one of its range, and the bit depth is 32
/// for singles and 16 for everything else.
pub proof fn plans_tell_a_configuration(
    plan: StreamPlan,
    configs: Seq<SupportedConfig>,
    format: PcmFormat,
    i: int,
    j: int,
)
    requires
        plan.follows(configs, format, i),
        0 <= j < configs.len(),
    ensures
        0 <= i < configs.len(),
        configs[j].channels == format.channels ==> configs[i].channels == format.channels,
        plan.device_channels == configs[i].channels,
        plan.sample_format == configs[i].sample_format,
        plan.min_sample_rate == configs[i].min_sample_rate,
        plan.max_sample_rate == configs[i].max_sample_rate,
        ({
            let rate = format.sample_rate;
            let min = configs[i].min_sample_rate;
            let max = configs[i].max_sample_rate;
            &&& min <= rate <= max ==> plan.sample_rate == rate
            &&& rate < min ==> plan.sample_rate == min
            &&& min <= max < rate ==> plan.sample_rate == max
        }),
        plan.sample_format == SampleFormat::F32 ==> plan.bit_depth == 32,
        plan.sample_format != SampleFormat::F32 ==> plan.bit_depth == 16,
{
    if configs[j].channels == format.channels {
        assert(some_matches(configs, format.channels));
    }
}

/// Where a configuration that comes into question holds the requested rate, the
/// planned rate lies within 1000 Hz of it, and is the requested one itself unless
/// the planned sample format is one for the requested bit depth.
pub proof fn planned_rate_is_near(
    plan: StreamPlan,
    configs: Seq<SupportedConfig>,
    format: PcmFormat,
    i: int,
    j: int,
)
    requires
        plan.follows(configs, format, i),
        0 <= j < configs.len(),
        configs[j].channels == format.channels || forall|k: int|
            0 <= k < configs.len() ==> (#[trigger] configs[k]).channels != format.channels,
        configs[j].min_sample_rate <= format.sample_rate <= configs[j].max_sample_rate,
    ensures
        -1000 <= plan.sample_rate - format.sample_rate <= 1000,
        format.bit_depth != 16 && format.bit_depth != 32 ==> plan.sample_rate
            == format.sample_rate,
        format.bit_depth == 16 && plan.sample_format != SampleFormat::I16 && plan.sample_format
            != SampleFormat::U16 ==> plan.sample_rate == format.sample_rate,
        format.bit_depth == 32 && plan.sample_format != SampleFormat::F32 ==> plan.sample_rate
            == format.sample_rate,
{
    assert(eligible(configs, format.channels, j));
    assert(misfit(configs[j], format) == 0);
}

/// Of two configurations that come into question, the range of the chosen one is
/// never farther from the requested rate than the other's, up to the 1000 Hz that a
/// sample format for the requested bit depth is granted; with the same sample
/// format, of two that are within 1000 Hz or equally far, the first one is chosen.
pub proof fn chosen_range_is_nearest(
    configs: Seq<SupportedConfig>,
    format: PcmFormat,
    i: int,
    j: int,
)
    requires
        is_chosen(configs, format, i),
        0 <= j < configs.len(),
        configs[j].channels == format.channels || forall|k: int|
            0 <= k < configs.len() ==> (#[trigger] configs[k]).channels != format.channels,
    ensures
        ({
            let rate = format.sample_rate;
            let here = if rate < configs[i].min_sample_rate {
                configs[i].min_sample_rate - rate
            } else if rate > configs[i].max_sample_rate {
                rate - configs[i].max_sample_rate
            } else {
                0
            };
            let there = if rate < configs[j].min_sample_rate {
                configs[j].min_sample_rate - rate
            } else if rate > configs[j].max_sample_rate {
                rate - configs[j].max_sample_rate
            } else {
                0
            };
            let fits_here = (format.bit_depth == 32 && configs[i].sample_format
                == SampleFormat::F32) || (format.bit_depth == 16 && (configs[i].sample_format
                == SampleFormat::I16 || configs[i].sample_format == SampleFormat::U16));
            let fits_there = (format.bit_depth == 32 && configs[j].sample_format
                == SampleFormat::F32) || (format.bit_depth == 16 && (configs[j].sample_format
                == SampleFormat::I16 || configs[j].sample_format == SampleFormat::U16));
            &&& configs[i].sample_format == configs[j].sample_format ==> here <= there || here
                <= 1000
            &&& configs[i].sample_format == configs[j].sample_format && j < i ==> here < there
            &&& !fits_here && !fits_there ==> here <= there
            &&& !fits_here && fits_there ==> here + 1000 <= there || here == 0
            &&& here <= there + 1000
        }),
{
    assert(eligible(configs, format.channels, j));
}

/// The score tells how far the requested rate lies outside the planned range, less
/// the 1000 Hz that a sample format for the requested bit depth is granted.
pub proof fn scores_tell_the_distance(
    plan: StreamPlan,
    configs: Seq<SupportedConfig>,
    format: PcmFormat,
    i: int,
)
    requires
        plan.follows(configs, format, i),
        plan.min_sample_rate <= plan.max_sample_rate,
    ensures
        ({
            let rate = format.sample_rate as int;
            let off = if rate < plan.sample_rate {
                plan.sample_rate - rate
            } else {
                rate - plan.sample_rate
            };
            let fits = (format.bit_depth == 32 && plan.sample_format == SampleFormat::F32) || (
            format.bit_depth == 16 && (plan.sample_format == SampleFormat::I16
                || plan.sample_format == SampleFormat::U16));
            &&& !fits ==> plan.score == off
            &&& fits && off > 1000 ==> plan.score == off - 1000
            &&& fits && off <= 1000 ==> plan.score == 0
        }),
{
}

/// The rates that a configuration offers lie in its range, and its bounds and the
/// usual rates between them are among these.
pub proof fn offered_rates_lie_in_range(config: SupportedConfig, r: u32)
    requires
        config.min_sample_rate <= config.max_sample_rate,
    ensures
        offers(config, r) ==> config.min_sample_rate <= r <= config.max_sample_rate,
        offers(config, config.min_sample_rate),
        offers(config, config.max_sample_rate),
        config.min_sample_rate < r < config.max_sample_rate ==> (offers(config, r) <==> seq![
            44100u32,
            48000,
            88200,
            96000,
            176400,
            192000,
        ].contains(r)),
{
    let usual = seq![44100u32, 48000, 88200, 96000, 176400, 192000];
    assert(usual[0] == 44100 && usual[1] == 48000 && usual[2] == 88200 && usual[3] == 96000
        && usual[4] == 176400 && usual[5] == 192000);
}

/// Input devices keep their number and name and stand for nothing that is played;
/// the default one is marked, except where the loopback is the default.
pub proof fn input_entries_tell_their_device(
    entry: DeviceEntry,
    platform: Platform,
    i: int,
    name: Seq<char>,
    default_input: Option<Seq<char>>,
)
    requires
        is_input_entry(entry, platform, i, Some(name), default_input),
        0 <= i < 0x1_0000_0000,
    ensures
        entry.index == i,
        entry.name@ == name,
        !entry.is_loopback,
        platform == Platform::Windows ==> !entry.is_default,
        platform != Platform::Windows ==> entry.is_default == (default_input == Some(name)),
{
}

/// An entry for what is played is the default one, is marked as such, and has an
/// index of its own, which no input device within the range of indices below it has.
pub proof fn system_entries_stand_apart(
    entry: DeviceEntry,
    other: DeviceEntry,
    platform: Platform,
    i: int,
    name: Option<Seq<char>>,
    default_input: Option<Seq<char>>,
)
    requires
        is_system_entry(entry, platform),
        is_input_entry(other, platform, i, name, default_input),
        0 <= i < 0xFFFF_FFFE,
    ensures
        entry.is_default,
        entry.is_loopback,
        platform != Platform::Other,
        entry.index != other.index,
        platform == Platform::Windows ==> entry.index == 0xFFFF_FFFF && entry.name@
            == "System Audio (Loopback)"@,
{
}

/// Frames are delivered exactly while streaming from a capture that is open: opening
/// and starting bring them, in either order.
pub proof fn streaming_needs_capture_and_start(a: WasapiBackend, b: WasapiBackend)
    requires
        a.started(b),
    ensures
        a.connected ==> b.source() == NextFrame::Receive,
        !a.connected ==> b.source() == NextFrame::Nothing,
        !a.active ==> a.source() == NextFrame::Nothing,
        b.active,
        !b.stale,
        b.connected == a.connected,
        b.stoppable == a.stoppable,
        b.actual_format == a.actual_format,
        b.device_name == a.device_name,
{
}

/// Samples with as many channels as are wanted stay as they are; otherwise every
/// whole frame gives the wanted number of samples, and the one for channel `c` is
/// that of the same frame and channel, counted round where the device has fewer.
pub proof fn channels_keep_their_place(
    data: Seq<i16>,
    device: nat,
    requested: nat,
    f: int,
    c: int,
    k: int,
)
    requires
        device >= 1,
        0 <= f < data.len() as int / device as int,
        0 <= c < requested,
        k >= 0,
        0 <= c - k * device < device,
    ensures
        device == requested ==> mapped_samples(data, device, requested) == data,
        device != requested ==> mapped_samples(data, device, requested).len() == (
        data.len() as int / device as int) * requested,
        0 <= f * requested + c < mapped_samples(data, device, requested).len(),
        mapped_samples(data, device, requested)[f * requested + c] == data[f * device + (c - k
            * device)],
{
    let n = data.len() as int / device as int;
    let i = f * requested + c;
    assert(0 <= i < n * requested) by (nonlinear_arith)
        requires
            0 <= f < n,
            0 <= c < requested,
            i == f * requested + c,
    ;
    if device == requested {
        lemma_frame_index(data.len(), device, f as nat, c as nat);
        assert(k == 0) by (nonlinear_arith)
            requires
                k >= 0,
                c - k * device >= 0,
                c < device,
        ;
    } else {
        lemma_fundamental_div_mod_converse(i, requested as int, f, c);
        lemma_fundamental_div_mod_converse(c, device as int, k, c - k * device);
    }
}

/// Mapping goes frame by frame: samples mapped in two parts, the first of whole
/// frames, are the samples mapped together.
pub proof fn parts_map_as_the_whole(a: Seq<i16>, b: Seq<i16>, device: nat, requested: nat)
    requires
        device >= 1,
        a.len() % device == 0,
    ensures
        mapped_samples(a + b, device, requested) == mapped_samples(a, device, requested)
            + mapped_samples(b, device, requested),
{
    if device != requested {
        let w = requested as int;
        let d = device as int;
        let ka = a.len() as int / d;
        let kb = b.len() as int / d;
        lemma_fundamental_div_mod(a.len() as int, d);
        lemma_fundamental_div_mod(b.len() as int, d);
        lemma_mod_bound(b.len() as int, d);
        assert(d * ka + d * kb == (ka + kb) * d) by (nonlinear_arith);
        lemma_fundamental_div_mod_converse((a + b).len() as int, d, ka + kb, b.len() as int % d);
        assert((ka + kb) * w == ka * w + kb * w && 0 <= ka * w && 0 <= kb * w) by (nonlinear_arith)
            requires
                ka >= 0,
                kb >= 0,
                w >= 0,
        ;
        let whole = mapped_samples(a + b, device, requested);
        let first = mapped_samples(a, device, requested);
        let second = mapped_samples(b, device, requested);
        assert forall|i: int| 0 <= i < whole.len() implies whole[i] == (first + second)[i] by {
            assert(w >= 1) by {
                if w == 0 {
                    assert((ka + kb) * w == 0) by (nonlinear_arith)
                        requires
                            w == 0,
                    ;
                }
            }
            lemma_fundamental_div_mod(i, w);
            lemma_mod_bound(i, w);
            let c = (i % w) % d;
            lemma_mod_bound(i % w, d);
            if i < ka * w {
                let f = i / w;
                lemma_div_pos_is_pos(i, w);
                assert(f < ka) by (nonlinear_arith)
                    requires
                        i < ka * w,
                        i == w * f + i % w,
                        i % w >= 0,
                        w >= 1,
                ;
                lemma_frame_index(a.len(), device, f as nat, c as nat);
            } else {
                let j = i - ka * w;
                let f = j / w;
                lemma_fundamental_div_mod(j, w);
                lemma_mod_bound(j, w);
                lemma_div_pos_is_pos(j, w);
                assert(i == (ka + f) * w + j % w) by (nonlinear_arith)
                    requires
                        j == i - ka * w,
                        j == w * f + j % w,
                ;
                lemma_fundamental_div_mod_converse(i, w, ka + f, j % w);
                assert(f < kb) by (nonlinear_arith)
                    requires
                        j < kb * w,
                        j == w * f + j % w,
                        j % w >= 0,
                        w >= 1,
                ;
                lemma_frame_index(b.len(), device, f as nat, c as nat);
                assert((ka + f) * d == d * ka + f * d) by (nonlinear_arith);
            }
        }
        assert(whole =~= first + second);
    }
}

/// An unsigned sample keeps its bits, and none is added or left out.
pub proof fn unsigned_samples_keep_their_bits(data: Seq<u16>, i: int)
    requires
        0 <= i < data.len(),
    ensures
        reinterpreted(data).len() == data.len(),
        (reinterpreted(data)[i] - data[i]) % 65536 == 0,
{
    let low = (data[i] % 256) as u8;
    let high = (data[i] / 256) as u8;
    pcm::samples_are_little_endian(low, high);
    assert(low + 256 * high == data[i]);
}

/// The index of what is played leads there and nowhere else: the loopback on every
/// system, the monitor on Linux. Every other index leads to an input device.
pub proof fn indices_lead_to_their_device(
    platform: Platform,
    index: u32,
    loopback: DeviceRoute,
    monitor: DeviceRoute,
    other: DeviceRoute,
)
    requires
        call_ensures(route, (platform, 0xFFFF_FFFFu32), loopback),
        call_ensures(route, (platform, 0xFFFF_FFFEu32), monitor),
        call_ensures(route, (platform, index), other),
        index < 0xFFFF_FFFE,
    ensures
        loopback == DeviceRoute::Loopback,
        platform == Platform::Linux ==> monitor == DeviceRoute::Monitor,
        platform != Platform::Linux ==> monitor == DeviceRoute::Input,
        other == DeviceRoute::Input,
{
}

/// A frame of an input device keeps its data and its number, bears the planned rate and
/// the requested channels, counts the frames of the device, and tells milliseconds.
pub proof fn input_frames_keep_their_data(
    data: Vec<u8>,
    plan: StreamPlan,
    requested_channels: u16,
    samples: usize,
    now_us: u64,
    sequence: u64,
    frame: PcmFrame,
)
    requires
        plan.device_channels >= 1,
        samples <= u32::MAX,
        call_ensures(
            input_frame,
            (data, &plan, requested_channels, samples, now_us, sequence),
            frame,
        ),
    ensures
        frame.data == data,
        frame.sequence == sequence,
        frame.format.sample_rate == plan.sample_rate,
        frame.format.channels == requested_channels,
        frame.format.bit_depth == 16,
        frame.frame_count * plan.device_channels <= samples < (frame.frame_count + 1)
            * plan.device_channels,
        frame.timestamp_us * 1000 <= now_us < (frame.timestamp_us + 1) * 1000,
{
    let d = plan.device_channels as int;
    let q = samples as int / d;
    lemma_fundamental_div_mod(samples as int, d);
    lemma_mod_bound(samples as int, d);
    assert(q * d <= samples < (q + 1) * d) by (nonlinear_arith)
        requires
            samples == d * q + samples as int % d,
            0 <= samples as int % d < d,
    ;
}

/// A stream can be planned wherever a device supports anything at all.
pub proof fn any_configuration_is_enough(
    configs: &[SupportedConfig],
    format: PcmFormat,
    r: AudioResult<StreamPlan>,
)
    requires
        call_ensures(plan_stream, (configs, &format), r),
    ensures
        r is Ok <==> configs@.len() > 0,
        r is Err ==> r->Err_0 is UnsupportedFormat,
{
    if r is Ok {
        let i = choose|i: int| #[trigger] r->Ok_0.follows(configs@, format, i);
        assert(is_chosen(configs@, format, i));
    }
}

/// What is played is listed first, where it can be captured; then come the input devices,
/// all of them and in order.
pub proof fn listings_are_complete(
    platform: Platform,
    names: &[Option<String>],
    default_input: Option<String>,
    list: Vec<DeviceEntry>,
    i: int,
)
    requires
        call_ensures(list_devices, (platform, names, &default_input), list),
        0 <= i < names@.len() < 0x1_0000_0000,
    ensures
        platform == Platform::Other ==> list@.len() == names@.len() && list@[i].index == i,
        platform != Platform::Other ==> list@.len() == names@.len() + 1 && list@[i + 1].index == i
            && list@[0].is_loopback && list@[0].is_default,
        names@[i] is Some && platform == Platform::Other ==> list@[i].name@ == names@[i]->0@,
        names@[i] is Some && platform != Platform::Other ==> list@[i + 1].name@ == names@[i]->0@,
{
    assert(is_input_entry(
        list@[system_entries(platform) + i],
        platform,
        i,
        text::opt_view(names@[i]),
        text::opt_view(default_input),
    ));
}

/// The rates that are listed for a channel count are in increasing order, and a usual rate
/// within a range that the device supports with these channels is among them, as are the
/// bounds of the range.
pub proof fn supported_rates_are_listed(
    configs: &[SupportedConfig],
    channels: u16,
    rates: Vec<u32>,
    i: int,
    rate: u32,
)
    requires
        call_ensures(
            WasapiBackend::enumerate_supported_sample_rates,
            (configs, channels),
            rates,
        ),
        0 <= i < configs@.len(),
        configs@[i].channels == channels,
    ensures
        rates@.contains(configs@[i].min_sample_rate),
        rates@.contains(configs@[i].max_sample_rate),
        (rate == 44100 || rate == 48000 || rate == 96000) && configs@[i].min_sample_rate <= rate
            <= configs@[i].max_sample_rate ==> rates@.contains(rate),
        forall|a: int, b: int| 0 <= a < b < rates@.len() ==> rates@[a] < rates@[b],
{
    assert(offers(configs@[i], configs@[i].min_sample_rate));
    assert(offers(configs@[i], configs@[i].max_sample_rate));
    if (rate == 44100 || rate == 48000 || rate == 96000) && configs@[i].min_sample_rate <= rate
        && rate <= configs@[i].max_sample_rate {
        assert(offers(configs@[i], rate));
    }
}

/// Starting drops what is old and streams; stopping keeps the device; closing ends the
/// capture thread, if there is one.
pub proof fn streaming_follows_the_calls(
    a: &mut WasapiBackend,
    dropped: bool,
    b: &mut WasapiBackend,
    flushed: bool,
    c: &mut WasapiBackend,
    signalled: bool,
)
    requires
        call_ensures(WasapiBackend::start, (a,), dropped),
        call_ensures(WasapiBackend::stop, (b,), flushed),
        call_ensures(WasapiBackend::close, (c,), signalled),
    ensures
        dropped == old(a).stale,
        final(a).active && !final(a).stale && final(a).connected == old(a).connected,
        flushed == old(b).connected,
        !final(b).active && final(b).connected == old(b).connected && final(b).stoppable == old(
            b,
        ).stoppable,
        signalled == old(c).stoppable,
        !final(c).active && !final(c).connected && !final(c).stoppable,
{
}

/// An opened device delivers its own format and can be ended, but streams only once it is
/// started.
pub proof fn opened_devices_wait_for_a_start(b: &mut WasapiBackend, actual: PcmFormat)
    requires
        call_ensures(WasapiBackend::opened, (b, actual), ()),
    ensures
        final(b).actual_format == Some(actual),
        final(b).connected && final(b).stoppable && !final(b).stale,
        final(b).active == old(b).active,
{
}

/// What fails on a device is told by its kind, with the detail or the index.
pub proof fn device_failures_are_told(
    detail: &str,
    index: u32,
    a: AudioError,
    b: AudioError,
    c: AudioError,
)
    requires
        call_ensures(enumerate_failed, (detail,), a),
        call_ensures(configs_failed, (detail,), b),
        call_ensures(device_not_found, (index,), c),
    ensures
        a is Wasapi && a->Wasapi_0 == 0 && a->Wasapi_1@ == "device enumerate failed: "@ + detail@,
        b is Wasapi && b->Wasapi_0 == 0 && b->Wasapi_1@ == "supported configs failed: "@ + detail@,
        c is DeviceNotFound && c->DeviceNotFound_0@ == "index "@ + text::decimal(index as nat),
{
}

/// Samples of a device with just the requested channels come out as they went in: signed
/// ones with their values, unsigned ones with their bits, singles scaled one by one.
pub proof fn matching_channels_pass_through(
    signed: &[i16],
    unsigned: &[u16],
    singles: &[u32],
    channels: usize,
    a: Vec<u8>,
    b: Vec<u8>,
    c: Vec<u8>,
    i: int,
)
    requires
        call_ensures(map_i16_channels, (signed, channels, channels), a),
        call_ensures(map_u16_channels, (unsigned, channels, channels), b),
        call_ensures(map_f32_channels, (singles, channels, channels), c),
    ensures
        pcm::samples16(a@) == signed@,
        pcm::samples16(b@).len() == unsigned@.len(),
        0 <= i < unsigned@.len() ==> (pcm::samples16(b@)[i] - unsigned@[i]) % 65536 == 0,
        pcm::samples16(c@).len() == singles@.len(),
        0 <= i < singles@.len() ==> pcm::samples16(c@)[i] == ieee::scaled(singles@[i]) as i16,
{
    pcm::samples_of_bytes(signed@);
    pcm::samples_of_bytes(reinterpreted(unsigned@));
    pcm::samples_of_bytes(scaled_samples(singles@));
    if 0 <= i < unsigned@.len() {
        unsigned_samples_keep_their_bits(unsigned@, i);
    }
}

} // verus!
