//! Where recordings go, and what a session records.
use crate::config::{EncoderConfig, OutputConfig};
use crate::error::{labelled, EncodeError, EncodeResult};
use crate::muxer::{create_muxer, ContainerFormat, Muxer};
use crate::paths;
use crate::paths::join;
use crate::probe;
use crate::probe::{select_encoder, AudioEncoderInfo};
use crate::text;
use crate::text::{decimal2_of, decimal4_of, decimal_u64, owned, replace};
use crate::types::{PcmFormat, SessionInfo, Timestamp};
use vstd::prelude::*;

verus! {

// ---------------------------------------------------------------------------
// File names
// ---------------------------------------------------------------------------
/// The tokens of a template replaced, one kind after the other.
pub open spec fn expanded(
    template: Seq<char>,
    n: nat,
    date: Seq<char>,
    time: Seq<char>,
    agent: Seq<char>,
) -> Seq<char> {
    let s1 = text::replaced(template, "{date}"@, date);
    let s2 = text::replaced(s1, "{time}"@, time);
    let s3 = text::replaced(s2, "{app}"@, "BSM"@);
    let s4 = text::replaced(s3, "{agent_id}"@, agent);
    text::replaced(s4, "{n}"@, text::decimal2(n))
}

/// The name of the agent, where there is one.
pub open spec fn agent_or_local(agent: Option<Seq<char>>) -> Seq<char> {
    match agent {
        Some(a) => a,
        None => "local"@,
    }
}

/// A template expanded for a given local date and time; see [`expanded`].
pub fn expand_at(template: &str, n: u32, date: &str, time: &str, agent: &Option<String>) -> (r:
    String)
    ensures
        r@ == expanded(
            template@,
            n as nat,
            date@,
            time@,
            agent_or_local(text::opt_view(*agent)),
        ),
{
    proof {
        reveal_strlit("{date}");
        reveal_strlit("{time}");
        reveal_strlit("{app}");
        reveal_strlit("{agent_id}");
        reveal_strlit("{n}");
    }
    let agent_text: String = match agent {
        Some(a) => a.clone(),
        None => owned("local"),
    };
    let number = decimal2_of(n);
    let s1 = replace(template, "{date}", date);
    let s2 = replace(s1.as_str(), "{time}", time);
    let s3 = replace(s2.as_str(), "{app}", "BSM");
    let s4 = replace(s3.as_str(), "{agent_id}", agent_text.as_str());
    replace(s4.as_str(), "{n}", number.as_str())
}

/// A local date and time of day. A leap second is told by more than a second's worth
/// of nanoseconds.
#[derive(Debug, Clone, Copy)]
pub struct LocalTime {
    pub year: i32,
    pub month: u32,
    pub day: u32,
    pub hour: u32,
    pub minute: u32,
    pub second: u32,
    pub nanosecond: u32,
}

impl LocalTime {
    /// Whether the numbers are those of some date and time.
    pub open spec fn valid(&self) -> bool {
        &&& 1 <= self.month <= 12
        &&& 1 <= self.day <= 31
        &&& self.hour < 24
        &&& self.minute < 60
        &&& self.second < 60
        &&& self.nanosecond < 2_000_000_000
    }

    /// The date in words: year, month and day, each of full length.
    pub open spec fn date_text(&self) -> Seq<char> {
        year_text(self.year as int) + "-"@ + text::decimal2(self.month as nat) + "-"@
            + text::decimal2(self.day as nat)
    }

    /// The time of day in words: hour, minute and second, of two digits each.
    pub open spec fn time_text(&self) -> Seq<char> {
        text::decimal2(self.hour as nat) + "-"@ + text::decimal2(self.minute as nat) + "-"@
            + text::decimal2((self.second + self.nanosecond / 1_000_000_000) as nat)
    }

    /// See [`LocalTime::date_text`].
    pub fn date(&self) -> (r: String)
        ensures
            r@ == self.date_text(),
    {
        let mut r = year_of(self.year);
        r.append("-");
        r.append(decimal2_of(self.month).as_str());
        r.append("-");
        r.append(decimal2_of(self.day).as_str());
        r
    }

    /// See [`LocalTime::time_text`].
    pub fn time(&self) -> (r: String)
        requires
            self.valid(),
        ensures
            r@ == self.time_text(),
    {
        let mut r = decimal2_of(self.hour);
        r.append("-");
        r.append(decimal2_of(self.minute).as_str());
        r.append("-");
        r.append(decimal2_of(self.second + self.nanosecond / 1_000_000_000).as_str());
        r
    }
}

/// A year of at least four digits; one that has more, or lies before year zero, has
/// a sign.
pub open spec fn year_text(year: int) -> Seq<char> {
    if 0 <= year <= 9999 {
        text::decimal4(year as nat)
    } else if year > 0 {
        "+"@ + text::decimal4(year as nat)
    } else {
        "-"@ + text::decimal4((-year) as nat)
    }
}

fn year_of(year: i32) -> (r: String)
    ensures
        r@ == year_text(year as int),
{
    if year >= 0 && year <= 9999 {
        decimal4_of(year as u32)
    } else if year > 0 {
        labelled("+", decimal4_of(year as u32).as_str())
    } else {
        labelled("-", decimal4_of((-(year as i64)) as u32).as_str())
    }
}

/// `chrono::Local::now` reads the clock; `Datelike` and `Timelike` take its reading
/// apart: a month from 1 to 12, a day from 1 to 31, an hour below 24, a minute and a
/// second below 60.
#[verifier::external_body]
pub(crate) fn local_now() -> (t: LocalTime)
    ensures
        t.valid(),
{
    let now = chrono::Local::now();
    LocalTime {
        year: chrono::Datelike::year(&now),
        month: chrono::Datelike::month(&now),
        day: chrono::Datelike::day(&now),
        hour: chrono::Timelike::hour(&now),
        minute: chrono::Timelike::minute(&now),
        second: chrono::Timelike::second(&now),
        nanosecond: chrono::Timelike::nanosecond(&now),
    }
}

/// Whether a text is the template expanded at some time.
pub open spec fn is_expansion(
    s: Seq<char>,
    template: Seq<char>,
    n: nat,
    agent: Option<Seq<char>>,
) -> bool {
    exists|t: LocalTime| #[trigger]
        t.valid() && s == expanded(
            template,
            n,
            t.date_text(),
            t.time_text(),
            agent_or_local(agent),
        )
}

/// Expand a filename template (no extension) using tokens and the local time.
pub fn expand_filename_template(template: &str, n: u32, agent: &Option<String>) -> (r: String)
    ensures
        is_expansion(r@, template@, n as nat, text::opt_view(*agent)),
{
    let now = local_now();
    expand_at(template, n, now.date().as_str(), now.time().as_str(), agent)
}

pub open spec fn no_slash() -> spec_fn(char) -> bool {
    |c: char| c != '/'
}

pub open spec fn holds_no_slash(s: Seq<char>) -> bool {
    forall|i: int| 0 <= i < s.len() ==> #[trigger] s[i] != '/'
}

proof fn lemma_number_without_slash(n: nat)
    ensures
        holds_no_slash(text::decimal2(n)),
        holds_no_slash(text::decimal4(n)),
{
    text::decimal_holds_digits(n);
    let d = text::decimal(n);
    assert forall|i: int| 0 <= i < d.len() implies #[trigger] d[i] != '/' by {
        assert('0' <= d[i] <= '9');
    }
    lemma_joined_without_slash(seq!['0'], d);
    lemma_joined_without_slash(seq!['0', '0'], d);
    lemma_joined_without_slash(seq!['0', '0', '0'], d);
}

proof fn lemma_joined_without_slash(a: Seq<char>, b: Seq<char>)
    requires
        holds_no_slash(a),
        holds_no_slash(b),
    ensures
        holds_no_slash(a + b),
{
    assert forall|i: int| 0 <= i < (a + b).len() implies #[trigger] (a + b)[i] != '/' by {
        if i < a.len() {
            assert((a + b)[i] == a[i]);
        } else {
            assert((a + b)[i] == b[i - a.len()]);
        }
    }
}

proof fn lemma_stamps_without_slash(t: LocalTime)
    ensures
        holds_no_slash(t.date_text()),
        holds_no_slash(t.time_text()),
{
    reveal_strlit("-");
    reveal_strlit("+");
    let y = if t.year >= 0 {
        t.year as nat
    } else {
        (-t.year) as nat
    };
    let last = (t.second + t.nanosecond / 1_000_000_000) as nat;
    lemma_number_without_slash(y);
    lemma_number_without_slash(t.month as nat);
    lemma_number_without_slash(t.day as nat);
    lemma_number_without_slash(t.hour as nat);
    lemma_number_without_slash(t.minute as nat);
    lemma_number_without_slash(last);
    lemma_joined_without_slash("+"@, text::decimal4(y));
    lemma_joined_without_slash("-"@, text::decimal4(y));
    let year = year_text(t.year as int);
    let month = text::decimal2(t.month as nat);
    lemma_joined_without_slash(year, "-"@);
    lemma_joined_without_slash(year + "-"@, month);
    lemma_joined_without_slash(year + "-"@ + month, "-"@);
    lemma_joined_without_slash(year + "-"@ + month + "-"@, text::decimal2(t.day as nat));
    let hour = text::decimal2(t.hour as nat);
    let minute = text::decimal2(t.minute as nat);
    lemma_joined_without_slash(hour, "-"@);
    lemma_joined_without_slash(hour + "-"@, minute);
    lemma_joined_without_slash(hour + "-"@ + minute, "-"@);
    lemma_joined_without_slash(hour + "-"@ + minute + "-"@, text::decimal2(last));
}

/// A template without slashes expands to a name without slashes, whatever the
/// time, unless the agent's name brings one in.
pub proof fn expansion_stays_in_folder(
    s: Seq<char>,
    template: Seq<char>,
    n: nat,
    agent: Option<Seq<char>>,
)
    requires
        is_expansion(s, template, n, agent),
        holds_no_slash(template),
        agent matches Some(a) ==> holds_no_slash(a),
    ensures
        holds_no_slash(s),
{
    let name = agent_or_local(agent);
    let t = choose|t: LocalTime| #[trigger]
        t.valid() && s == expanded(template, n, t.date_text(), t.time_text(), name);
    let date = t.date_text();
    let time = t.time_text();
    reveal_strlit("BSM");
    reveal_strlit("local");
    lemma_stamps_without_slash(t);
    let number = text::decimal2(n);
    lemma_number_without_slash(n);
    let s1 = text::replaced(template, "{date}"@, date);
    let s2 = text::replaced(s1, "{time}"@, time);
    let s3 = text::replaced(s2, "{app}"@, "BSM"@);
    let s4 = text::replaced(s3, "{agent_id}"@, name);
    text::replaced_keeps(template, "{date}"@, date, no_slash());
    text::replaced_keeps(s1, "{time}"@, time, no_slash());
    text::replaced_keeps(s2, "{app}"@, "BSM"@, no_slash());
    text::replaced_keeps(s3, "{agent_id}"@, name, no_slash());
    text::replaced_keeps(s4, "{n}"@, number, no_slash());
    assert forall|i: int| 0 <= i < s.len() implies #[trigger] s[i] != '/' by {
        assert(no_slash()(s[i]));
    }
}

// ---------------------------------------------------------------------------
// Output paths
// ---------------------------------------------------------------------------
/// Decides on the free space of a disk: at least 512 MiB are asked for.
pub fn check_disk_space(free: Result<u64, String>) -> (r: EncodeResult<u64>)
    ensures
        match free {
            Err(detail) => r matches Err(EncodeError::OutputFile(m)) && m@ == "disk query failed: "@
                + detail@,
            Ok(n) => if n < 0x2000_0000 {
                r matches Err(EncodeError::OutputFile(m)) && m@ == "only "@ + text::decimal(
                    (n / 0x10_0000) as nat,
                ) + " MiB free"@
            } else {
                r == Ok::<u64, EncodeError>(n)
            },
        },
{
    match free {
        Err(detail) => Err(
            EncodeError::OutputFile(labelled("disk query failed: ", detail.as_str())),
        ),
        Ok(n) => {
            if n < 0x2000_0000 {
                let mut m = labelled("only ", decimal_u64(n / 0x10_0000).as_str());
                m.append(" MiB free");
                Err(EncodeError::OutputFile(m))
            } else {
                Ok(n)
            }
        },
    }
}

/// A file name made of a stem and an extension, below a folder.
pub open spec fn file_path(folder: Seq<char>, stem: Seq<char>, extension: Seq<char>) -> Seq<char> {
    paths::joined_path(folder, stem + "."@ + extension)
}

/// See [`file_path`].
pub fn path_of(folder: &str, stem: &str, extension: &str) -> (r: String)
    ensures
        r@ == file_path(folder@, stem@, extension@),
{
    let mut name = labelled(stem, ".");
    name.append(extension);
    join(folder, name.as_str())
}

/// Candidate number `n` for an output path, at a date and a time.
pub open spec fn candidate(
    config: OutputConfig,
    format: ContainerFormat,
    n: nat,
    date: Seq<char>,
    time: Seq<char>,
    agent: Option<Seq<char>>,
) -> Seq<char> {
    file_path(
        config.output_folder@,
        expanded(config.file_name_pattern@, n, date, time, agent_or_local(agent)),
        format.extension_text(),
    )
}

/// Whether the caller reported this of a path.
pub open spec fn reported<F: Fn(&str) -> bool>(exists_at: F, path: Seq<char>, found: bool) -> bool {
    exists|p: &str| p@ == path && #[trigger] call_ensures(exists_at, (p,), found)
}

/// Whether the first `n` candidates were reported to exist.
pub open spec fn all_taken<F: Fn(&str) -> bool>(
    exists_at: F,
    config: OutputConfig,
    format: ContainerFormat,
    n: nat,
    date: Seq<char>,
    time: Seq<char>,
    agent: Option<Seq<char>>,
) -> bool {
    forall|m: nat|
        1 <= m <= n ==> reported(
            exists_at,
            #[trigger] candidate(config, format, m, date, time, agent),
            true,
        )
}

/// Whether `r` is the first of 9999 numbered candidates that was reported not to
/// exist, or the error where there is none.
pub open spec fn is_first_free<F: Fn(&str) -> bool>(
    r: EncodeResult<String>,
    exists_at: F,
    config: OutputConfig,
    format: ContainerFormat,
    date: Seq<char>,
    time: Seq<char>,
    agent: Option<Seq<char>>,
) -> bool {
    match r {
        Ok(path) => exists|n: nat|
            1 <= n <= 9999 && path@ == #[trigger] candidate(config, format, n, date, time, agent)
                && reported(exists_at, path@, false) && all_taken(
                exists_at,
                config,
                format,
                (n - 1) as nat,
                date,
                time,
                agent,
            ),
        Err(e) => {
            &&& all_taken(exists_at, config, format, 9999, date, time, agent)
            &&& e matches EncodeError::OutputFile(m) && m@ == "could not find unique name"@
        },
    }
}

/// The output path at a date and a time; see [`is_first_free`].
pub fn resolve_output_path_at<F: Fn(&str) -> bool>(
    config: &OutputConfig,
    format: ContainerFormat,
    date: &str,
    time: &str,
    agent: &Option<String>,
    exists_at: F,
) -> (r: EncodeResult<String>)
    requires
        forall|p: &str| call_requires(exists_at, (p,)),
    ensures
        is_first_free(
            r,
            exists_at,
            *config,
            format,
            date@,
            time@,
            text::opt_view(*agent),
        ),
{
    let ghost who = text::opt_view(*agent);
    let mut n: u32 = 1;
    while n <= 9999
        invariant
            1 <= n <= 10000,
            who == text::opt_view(*agent),
            forall|p: &str| call_requires(exists_at, (p,)),
            all_taken(exists_at, *config, format, (n - 1) as nat, date@, time@, who),
        decreases 10000 - n,
    {
        let stem = expand_at(config.file_name_pattern.as_str(), n, date, time, agent);
        let path = path_of(config.output_folder.as_str(), stem.as_str(), format.extension());
        assert(path@ == candidate(*config, format, n as nat, date@, time@, who));
        let found: bool = exists_at(path.as_str());
        assert(reported(exists_at, path@, found));
        if !found {
            return Ok(path);
        }
        n = n + 1;
    }
    Err(EncodeError::OutputFile(owned("could not find unique name")))
}

/// Resolve a unique output path: the first of 9999 numbered candidates that does
/// not exist, with the tokens of the local time.
pub fn resolve_output_path<F: Fn(&str) -> bool>(
    config: &OutputConfig,
    format: ContainerFormat,
    agent: &Option<String>,
    exists_at: F,
) -> (r: EncodeResult<String>)
    requires
        forall|p: &str| call_requires(exists_at, (p,)),
    ensures
        exists|t: LocalTime| #[trigger]
            t.valid() && is_first_free(
                r,
                exists_at,
                *config,
                format,
                t.date_text(),
                t.time_text(),
                text::opt_view(*agent),
            ),
{
    let now = local_now();
    resolve_output_path_at(
        config,
        format,
        now.date().as_str(),
        now.time().as_str(),
        agent,
        exists_at,
    )
}

// ---------------------------------------------------------------------------
// Sessions
// ---------------------------------------------------------------------------
/// RecordingSession coordinates encoder + muxer (higher-level wrapper).
#[derive(Debug)]
pub struct RecordingSession {
    pub output_path: String,
    pub encoder_name: String,
    pub encoder_config: EncoderConfig,
    pub input_format: PcmFormat,
    pub container_format: ContainerFormat,
}

/// What starting a session settles.
pub struct SessionPlan {
    pub output_path: String,
    pub encoder: AudioEncoderInfo,
    pub encoder_config: EncoderConfig,
    pub input_format: PcmFormat,
    pub muxer: Muxer,
    /// The bit rate that the muxer is opened with.
    pub bitrate_kbps: u32,
}

impl RecordingSession {
    pub fn new(
        output_path: String,
        encoder_name: String,
        encoder_config: EncoderConfig,
        input_format: PcmFormat,
        container_format: ContainerFormat,
    ) -> (s: Self)
        ensures
            s == (RecordingSession {
                output_path,
                encoder_name,
                encoder_config,
                input_format,
                container_format,
            }),
    {
        RecordingSession {
            output_path,
            encoder_name,
            encoder_config,
            input_format,
            container_format,
        }
    }

    /// Settles how to record, given the free space of the output directory where
    /// the path has one: refused where the disk is too full.
    pub fn prepare(self, free: Option<Result<u64, String>>) -> (r: EncodeResult<SessionPlan>)
        ensures
            match r {
                Ok(plan) => {
                    &&& free matches Some(f) ==> f matches Ok(n) && n >= 0x2000_0000
                    &&& plan.output_path == self.output_path
                    &&& plan.encoder_config == self.encoder_config
                    &&& plan.input_format == self.input_format
                    &&& crate::muxer::AudioMuxer::format(&plan.muxer) == self.container_format
                    &&& plan.muxer.is_fresh()
                    &&& plan.bitrate_kbps == 128
                    &&& if self.encoder_name@ == "mp3"@ {
                        probe::is_mp3_encoder(plan.encoder)
                    } else if self.encoder_name@ == "flac"@ {
                        probe::is_flac_encoder(plan.encoder)
                    } else {
                        probe::is_wav_encoder(plan.encoder)
                    }
                },
                Err(e) => e matches EncodeError::OutputFile(m) && match free {
                    None => false,
                    Some(Ok(n)) => n < 0x2000_0000 && m@ == "only "@ + text::decimal(
                        (n / 0x10_0000) as nat,
                    ) + " MiB free"@,
                    Some(Err(detail)) => m@ == "disk query failed: "@ + detail@,
                },
            },
    {
        match free {
            Some(f) => match check_disk_space(f) {
                Ok(_) => {},
                Err(e) => {
                    return Err(e);
                },
            },
            None => {},
        }
        let encoder = match select_encoder(Some(self.encoder_name.as_str())) {
            Some(e) => e,
            None => {
                let mut m = labelled("encoder ", self.encoder_name.as_str());
                m.append(" not available");
                return Err(EncodeError::NotFound(m));
            },
        };
        Ok(
            SessionPlan {
                output_path: self.output_path,
                encoder,
                encoder_config: self.encoder_config,
                input_format: self.input_format,
                muxer: create_muxer(self.container_format),
                bitrate_kbps: 128,
            },
        )
    }
}

/// Counts what the mux task did.
#[derive(Debug, Clone, Copy)]
pub struct MuxTally {
    pub frames_written: u64,
    pub frames_dropped: u64,
    pub bytes_written: u64,
}

/// The counts after a packet of `len` bytes more.
pub open spec fn tallied(t: MuxTally, written: bool, len: usize) -> MuxTally {
    if written {
        MuxTally {
            frames_written: (t.frames_written + 1) as u64,
            bytes_written: (t.bytes_written + len) as u64,
            ..t
        }
    } else {
        MuxTally { frames_dropped: (t.frames_dropped + 1) as u64, ..t }
    }
}

impl MuxTally {
    pub fn new() -> (t: Self)
        ensures
            t == (MuxTally { frames_written: 0, frames_dropped: 0, bytes_written: 0 }),
    {
        MuxTally { frames_written: 0, frames_dropped: 0, bytes_written: 0 }
    }

    /// Counts a packet of `len` bytes; the task goes on only if it was written.
    pub fn count(&mut self, written: bool, len: usize) -> (go_on: bool)
        requires
            old(self).frames_written < u64::MAX,
            old(self).frames_dropped < u64::MAX,
            old(self).bytes_written + len <= u64::MAX,
        ensures
            go_on == written,
            *final(self) == tallied(*old(self), written, len),
    {
        if written {
            self.frames_written = self.frames_written + 1;
            self.bytes_written = self.bytes_written + len as u64;
        } else {
            self.frames_dropped = self.frames_dropped + 1;
        }
        written
    }
}

/// Result summary returned by the mux task.
#[derive(Debug, Clone, Copy)]
pub struct MuxResult {
    pub frames_written: u64,
    pub frames_dropped: u64,
    pub bytes_written: u64,
    pub started_at: Timestamp,
    pub stopped_at: Timestamp,
}

/// How many nanoseconds lie between two times.
pub open spec fn nanos_between(a: Timestamp, b: Timestamp) -> int {
    (b.secs - a.secs) * 1_000_000_000 + b.nanos - a.nanos
}

/// Whole seconds of a number of nanoseconds, cut off towards zero.
pub open spec fn whole_seconds(nanos: int) -> int {
    if nanos >= 0 {
        nanos / 1_000_000_000
    } else {
        -((-nanos) / 1_000_000_000)
    }
}

/// What a session handle knows besides the mux result.
#[derive(Debug)]
pub struct SessionFacts {
    pub output_file: String,
    pub codec: String,
    pub sample_rate: u32,
    pub channels: u16,
}

/// The error for a mux task that did not end normally.
pub fn mux_join_failed(detail: &str) -> (e: EncodeError)
    ensures
        e matches EncodeError::MuxFailed(m) && m@ == "mux task join error: "@ + detail@,
{
    EncodeError::MuxFailed(labelled("mux task join error: ", detail))
}

/// The summary of a finished session: it lasted from its start to its stop.
pub fn session_info(facts: SessionFacts, mux: &MuxResult) -> (info: SessionInfo)
    requires
        -0x2000_0000_0000_0000 <= mux.started_at.secs <= 0x2000_0000_0000_0000,
        -0x2000_0000_0000_0000 <= mux.stopped_at.secs <= 0x2000_0000_0000_0000,
    ensures
        info.session_id@ == "session"@,
        info.output_file == facts.output_file,
        info.started_at == mux.started_at,
        info.stopped_at == mux.stopped_at,
        ({
            let nanos = nanos_between(mux.started_at, mux.stopped_at);
            &&& info.duration_secs == whole_seconds(nanos)
            &&& info.duration_nanos == nanos - 1_000_000_000 * whole_seconds(nanos)
            &&& info.duration_secs * 1_000_000_000 + info.duration_nanos == nanos
        }),
        info.frames_captured == mux.frames_written,
        info.frames_dropped == mux.frames_dropped,
        info.bytes_written == mux.bytes_written,
        info.codec == facts.codec,
        info.sample_rate == facts.sample_rate,
        info.channels == facts.channels,
        info.bitrate_kbps == 0,
{
    let nanos: i128 = (mux.stopped_at.secs as i128 - mux.started_at.secs as i128) * 1_000_000_000
        + mux.stopped_at.nanos as i128 - mux.started_at.nanos as i128;
    let secs: i128 = if nanos >= 0 {
        nanos / 1_000_000_000
    } else {
        -((-nanos) / 1_000_000_000)
    };
    SessionInfo {
        session_id: owned("session"),
        output_file: facts.output_file,
        started_at: mux.started_at,
        stopped_at: mux.stopped_at,
        duration_secs: secs as i64,
        duration_nanos: (nanos - 1_000_000_000 * secs) as i64,
        frames_captured: mux.frames_written,
        frames_dropped: mux.frames_dropped,
        bytes_written: mux.bytes_written,
        codec: facts.codec,
        sample_rate: facts.sample_rate,
        channels: facts.channels,
        bitrate_kbps: 0,
    }
}

// ---------------------------------------------------------------------------
// Laws
// ---------------------------------------------------------------------------
proof fn lemma_braces()
    ensures
        "{date}"@.len() == 6 && "{date}"@[0] == '{' && "{date}"@[1] == 'd',
        "{time}"@.len() == 6 && "{time}"@[0] == '{' && "{time}"@[1] == 't',
        "{app}"@.len() == 5 && "{app}"@[0] == '{' && "{app}"@[1] == 'a' && "{app}"@[2] == 'p',
        "{agent_id}"@.len() == 10 && "{agent_id}"@[0] == '{' && "{agent_id}"@[1] == 'a'
            && "{agent_id}"@[2] == 'g',
        "{n}"@.len() == 3 && "{n}"@[0] == '{' && "{n}"@[1] == 'n',
{
    reveal_strlit("{date}");
    reveal_strlit("{time}");
    reveal_strlit("{app}");
    reveal_strlit("{agent_id}");
    reveal_strlit("{n}");
}

/// The one brace of a text stands where a token does, so no other token is found.
proof fn lemma_other_token(
    a: Seq<char>,
    token: Seq<char>,
    b: Seq<char>,
    pat: Seq<char>,
    to: Seq<char>,
)
    requires
        pat.len() >= 3,
        token.len() >= 3,
        pat[0] == '{',
        token[0] == '{',
        pat[1] != token[1] || pat[2] != token[2],
        !a.contains('{'),
        !token.skip(1).contains('{'),
        !b.contains('{'),
    ensures
        text::replaced(a + token + b, pat, to) == a + token + b,
{
    let s = a + token + b;
    assert forall|i: int| 0 <= i && i + pat.len() <= s.len() implies #[trigger] s.subrange(
        i,
        i + pat.len(),
    ) != pat by {
        let w = s.subrange(i, i + pat.len());
        assert(w[0] == s[i] && w[1] == s[i + 1] && w[2] == s[i + 2]);
        if i < a.len() {
            assert(a.contains(a[i]));
        } else if i == a.len() {
            assert(s[i + 1] == token[1] && s[i + 2] == token[2]);
        } else if i < a.len() + token.len() {
            assert(token.skip(1)[i - a.len() - 1] == s[i]);
            assert(token.skip(1).contains(s[i]));
        } else {
            assert(b[i - a.len() - token.len()] == s[i]);
            assert(b.contains(s[i]));
        }
    }
    text::replaced_without_occurrence(s, pat, to);
}

proof fn lemma_joined_without_brace(a: Seq<char>, to: Seq<char>, b: Seq<char>)
    requires
        !a.contains('{'),
        !to.contains('{'),
        !b.contains('{'),
    ensures
        !(a + to + b).contains('{'),
{
    let s = a + to + b;
    assert forall|i: int| 0 <= i < s.len() implies s[i] != '{' by {
        if i < a.len() {
            assert(a.contains(a[i]));
        } else if i < a.len() + to.len() {
            assert(to.contains(to[i - a.len()]));
        } else {
            assert(b.contains(b[i - a.len() - to.len()]));
        }
    }
}

proof fn lemma_token_alone(a: Seq<char>, token: Seq<char>, b: Seq<char>, to: Seq<char>)
    requires
        token.len() > 0,
        token[0] == '{',
        !a.contains('{'),
        !b.contains('{'),
    ensures
        text::replaced(a + token + b, token, to) == a + to + b,
{
    text::replaced_at_occurrence(a, token, b, to);
    text::replaced_without_start(b, token, to);
}

/// Each token of a template gives way to what it stands for, and to nothing else: the
/// date, the time, the name of the program, that of the agent, the number with at
/// least two digits. A template without tokens stays as it is.
pub proof fn tokens_expand(
    a: Seq<char>,
    b: Seq<char>,
    n: nat,
    date: Seq<char>,
    time: Seq<char>,
    agent: Seq<char>,
)
    requires
        !a.contains('{'),
        !b.contains('{'),
        !date.contains('{'),
        !time.contains('{'),
        !agent.contains('{'),
    ensures
        expanded(a, n, date, time, agent) == a,
        expanded(a + "{date}"@ + b, n, date, time, agent) == a + date + b,
        expanded(a + "{time}"@ + b, n, date, time, agent) == a + time + b,
        expanded(a + "{app}"@ + b, n, date, time, agent) == a + "BSM"@ + b,
        expanded(a + "{agent_id}"@ + b, n, date, time, agent) == a + agent + b,
        expanded(a + "{n}"@ + b, n, date, time, agent) == a + text::decimal2(n) + b,
{
    lemma_braces();
    lemma_plain(a, n, date, time, agent);
    lemma_joined_without_brace(a, date, b);
    lemma_plain(a + date + b, n, date, time, agent);
    lemma_token_alone(a, "{date}"@, b, date);
    lemma_plain_but_date(a + date + b, n, time, agent);
    lemma_time_token(a, b, n, date, time, agent);
    lemma_app_token(a, b, n, date, time, agent);
    lemma_agent_token(a, b, n, date, time, agent);
    lemma_number_token(a, b, n, date, time, agent);
}

proof fn lemma_plain_but_date(s: Seq<char>, n: nat, time: Seq<char>, agent: Seq<char>)
    requires
        !s.contains('{'),
    ensures
        text::replaced(s, "{time}"@, time) == s,
        text::replaced(s, "{app}"@, "BSM"@) == s,
        text::replaced(s, "{agent_id}"@, agent) == s,
        text::replaced(s, "{n}"@, text::decimal2(n)) == s,
{
    lemma_braces();
    text::replaced_without_start(s, "{time}"@, time);
    text::replaced_without_start(s, "{app}"@, "BSM"@);
    text::replaced_without_start(s, "{agent_id}"@, agent);
    text::replaced_without_start(s, "{n}"@, text::decimal2(n));
}

proof fn lemma_plain(s: Seq<char>, n: nat, date: Seq<char>, time: Seq<char>, agent: Seq<char>)
    requires
        !s.contains('{'),
    ensures
        expanded(s, n, date, time, agent) == s,
{
    lemma_braces();
    text::replaced_without_start(s, "{date}"@, date);
    lemma_plain_but_date(s, n, time, agent);
}

proof fn lemma_token_tails()
    ensures
        !"{time}"@.skip(1).contains('{'),
        !"{app}"@.skip(1).contains('{'),
        !"{agent_id}"@.skip(1).contains('{'),
        !"{n}"@.skip(1).contains('{'),
{
    reveal_strlit("{time}");
    reveal_strlit("{app}");
    reveal_strlit("{agent_id}");
    reveal_strlit("{n}");
}

proof fn lemma_time_token(
    a: Seq<char>,
    b: Seq<char>,
    n: nat,
    date: Seq<char>,
    time: Seq<char>,
    agent: Seq<char>,
)
    requires
        !a.contains('{'),
        !b.contains('{'),
        !time.contains('{'),
    ensures
        expanded(a + "{time}"@ + b, n, date, time, agent) == a + time + b,
{
    lemma_braces();
    lemma_token_tails();
    lemma_other_token(a, "{time}"@, b, "{date}"@, date);
    lemma_token_alone(a, "{time}"@, b, time);
    lemma_joined_without_brace(a, time, b);
    lemma_plain_but_date(a + time + b, n, time, agent);
}

proof fn lemma_app_token(
    a: Seq<char>,
    b: Seq<char>,
    n: nat,
    date: Seq<char>,
    time: Seq<char>,
    agent: Seq<char>,
)
    requires
        !a.contains('{'),
        !b.contains('{'),
    ensures
        expanded(a + "{app}"@ + b, n, date, time, agent) == a + "BSM"@ + b,
{
    lemma_braces();
    lemma_token_tails();
    lemma_other_token(a, "{app}"@, b, "{date}"@, date);
    lemma_other_token(a, "{app}"@, b, "{time}"@, time);
    lemma_token_alone(a, "{app}"@, b, "BSM"@);
    reveal_strlit("BSM");
    lemma_joined_without_brace(a, "BSM"@, b);
    lemma_plain_but_date(a + "BSM"@ + b, n, time, agent);
}

proof fn lemma_agent_token(
    a: Seq<char>,
    b: Seq<char>,
    n: nat,
    date: Seq<char>,
    time: Seq<char>,
    agent: Seq<char>,
)
    requires
        !a.contains('{'),
        !b.contains('{'),
        !agent.contains('{'),
    ensures
        expanded(a + "{agent_id}"@ + b, n, date, time, agent) == a + agent + b,
{
    lemma_braces();
    lemma_token_tails();
    lemma_other_token(a, "{agent_id}"@, b, "{date}"@, date);
    lemma_other_token(a, "{agent_id}"@, b, "{time}"@, time);
    lemma_other_token(a, "{agent_id}"@, b, "{app}"@, "BSM"@);
    lemma_token_alone(a, "{agent_id}"@, b, agent);
    lemma_joined_without_brace(a, agent, b);
    lemma_plain_but_date(a + agent + b, n, time, agent);
}

proof fn lemma_number_token(
    a: Seq<char>,
    b: Seq<char>,
    n: nat,
    date: Seq<char>,
    time: Seq<char>,
    agent: Seq<char>,
)
    requires
        !a.contains('{'),
        !b.contains('{'),
    ensures
        expanded(a + "{n}"@ + b, n, date, time, agent) == a + text::decimal2(n) + b,
{
    lemma_braces();
    lemma_token_tails();
    lemma_other_token(a, "{n}"@, b, "{date}"@, date);
    lemma_other_token(a, "{n}"@, b, "{time}"@, time);
    lemma_other_token(a, "{n}"@, b, "{app}"@, "BSM"@);
    lemma_other_token(a, "{n}"@, b, "{agent_id}"@, agent);
    lemma_token_alone(a, "{n}"@, b, text::decimal2(n));
}

/// Without an agent its name is `local`.
pub proof fn agents_have_a_name(agent: Seq<char>)
    ensures
        agent_or_local(Some(agent)) == agent,
        agent_or_local(None) == "local"@,
{
}

/// A date of a usual year is ten characters that read back as year, month and day, with
/// a dash between them; a time is eight that read back as hour, minute and second.
pub proof fn stamps_read_back(t: LocalTime)
    requires
        t.valid(),
        0 <= t.year <= 9999,
        t.nanosecond < 1_000_000_000,
    ensures
        ({
            let d = t.date_text();
            &&& d.len() == 10
            &&& text::numeral_value(d.subrange(0, 4)) == t.year
            &&& d[4] == '-'
            &&& text::numeral_value(d.subrange(5, 7)) == t.month
            &&& d[7] == '-'
            &&& text::numeral_value(d.subrange(8, 10)) == t.day
        }),
        ({
            let h = t.time_text();
            &&& h.len() == 8
            &&& text::numeral_value(h.subrange(0, 2)) == t.hour
            &&& h[2] == '-'
            &&& text::numeral_value(h.subrange(3, 5)) == t.minute
            &&& h[5] == '-'
            &&& text::numeral_value(h.subrange(6, 8)) == t.second
        }),
{
    reveal_strlit("-");
    text::padded_numerals_read_back(t.year as nat);
    text::padded_numerals_read_back(t.month as nat);
    text::padded_numerals_read_back(t.day as nat);
    text::padded_numerals_read_back(t.hour as nat);
    text::padded_numerals_read_back(t.minute as nat);
    text::padded_numerals_read_back(t.second as nat);
    let d = t.date_text();
    assert(d.subrange(0, 4) =~= text::decimal4(t.year as nat));
    assert(d.subrange(5, 7) =~= text::decimal2(t.month as nat));
    assert(d.subrange(8, 10) =~= text::decimal2(t.day as nat));
    let h = t.time_text();
    assert(h.subrange(0, 2) =~= text::decimal2(t.hour as nat));
    assert(h.subrange(3, 5) =~= text::decimal2(t.minute as nat));
    assert(h.subrange(6, 8) =~= text::decimal2(t.second as nat));
}

/// A year beyond four digits, or before year zero, has its sign in front and reads back
/// behind it; a leap second is told as the sixtieth.
pub proof fn unusual_stamps_read_back(year: int, t: LocalTime)
    requires
        year < 0 || year > 9999,
        t.valid(),
        t.second == 59,
        t.nanosecond >= 1_000_000_000,
    ensures
        year > 9999 ==> year_text(year)[0] == '+' && text::numeral_value(year_text(year).skip(1))
            == year,
        year < 0 ==> year_text(year)[0] == '-' && text::numeral_value(year_text(year).skip(1))
            == -year,
        t.time_text().len() == 8,
        text::numeral_value(t.time_text().subrange(6, 8)) == 60,
{
    reveal_strlit("+");
    reveal_strlit("-");
    let y = if year < 0 {
        (-year) as nat
    } else {
        year as nat
    };
    text::padded_numerals_read_back(y);
    assert(year_text(year).skip(1) =~= text::decimal4(y));
    text::padded_numerals_read_back(t.hour as nat);
    text::padded_numerals_read_back(t.minute as nat);
    text::padded_numerals_read_back(60);
    assert(t.time_text().subrange(6, 8) =~= text::decimal2(60));
}

/// A file lies in its folder, under its stem, a dot and its extension.
pub proof fn files_lie_in_their_folder(folder: Seq<char>, stem: Seq<char>, extension: Seq<char>)
    requires
        folder.len() > 0,
        folder.last() != '/',
        stem.len() > 0,
        stem[0] != '/',
    ensures
        file_path(folder, stem, extension) == folder + "/"@ + stem + "."@ + extension,
{
    reveal_strlit("/");
    reveal_strlit(".");
    paths::leaves_lie_below_their_base(folder, stem + "."@ + extension);
    assert("/"@ =~= seq!['/']);
    assert(folder + seq!['/'] + (stem + "."@ + extension) =~= folder + "/"@ + stem + "."@
        + extension);
}

/// Where the caller tells of every path whether it exists, the output path is one that
/// does not, and only where 9999 candidates exist is there none.
pub proof fn output_paths_are_new<F: Fn(&str) -> bool>(
    r: EncodeResult<String>,
    exists_at: F,
    taken: Set<Seq<char>>,
    config: OutputConfig,
    format: ContainerFormat,
    date: Seq<char>,
    time: Seq<char>,
    agent: Option<Seq<char>>,
    m: nat,
)
    requires
        is_first_free(r, exists_at, config, format, date, time, agent),
        forall|p: &str, found: bool| #[trigger]
            call_ensures(exists_at, (p,), found) ==> found == taken.contains(p@),
        1 <= m <= 9999,
    ensures
        r is Ok ==> !taken.contains(r->Ok_0@),
        r is Ok ==> exists|n: nat|
            1 <= n <= 9999 && r->Ok_0@ == #[trigger] candidate(config, format, n, date, time, agent),
        r is Err ==> taken.contains(candidate(config, format, m, date, time, agent)),
        !taken.contains(candidate(config, format, m, date, time, agent)) ==> r is Ok,
        !taken.contains(candidate(config, format, 1, date, time, agent)) ==> r is Ok && r->Ok_0@
            == candidate(config, format, 1, date, time, agent),
{
    match r {
        Ok(path) => {
            let n = choose|n: nat|
                1 <= n <= 9999 && path@ == #[trigger] candidate(config, format, n, date, time, agent)
                    && reported(exists_at, path@, false) && all_taken(
                    exists_at,
                    config,
                    format,
                    (n - 1) as nat,
                    date,
                    time,
                    agent,
                );
            if n > 1 {
                assert(reported(
                    exists_at,
                    candidate(config, format, 1, date, time, agent),
                    true,
                ));
            }
        },
        Err(_) => {
            assert(reported(exists_at, candidate(config, format, m, date, time, agent), true));
            assert(reported(exists_at, candidate(config, format, 1, date, time, agent), true));
        },
    }
}

/// Seconds and nanoseconds of a span, added to its start, give its end, and the
/// nanoseconds never make up a second.
pub proof fn durations_lead_from_start_to_stop(a: Timestamp, b: Timestamp)
    ensures
        ({
            let nanos = nanos_between(a, b);
            let secs = whole_seconds(nanos);
            let rest = nanos - 1_000_000_000 * secs;
            &&& a.secs * 1_000_000_000 + a.nanos + secs * 1_000_000_000 + rest == b.secs
                * 1_000_000_000 + b.nanos
            &&& -1_000_000_000 < rest < 1_000_000_000
            &&& nanos >= 0 ==> secs >= 0 && rest >= 0
            &&& nanos <= 0 ==> secs <= 0 && rest <= 0
        }),
{
}

/// The disk floor is one for all: what is enough stays enough with more room, what is
/// refused is refused with less, and the room that is reported is the room there is.
pub proof fn more_room_is_never_refused(
    a: u64,
    b: u64,
    with_a: EncodeResult<u64>,
    with_b: EncodeResult<u64>,
)
    requires
        call_ensures(check_disk_space, (Ok(a),), with_a),
        call_ensures(check_disk_space, (Ok(b),), with_b),
        a <= b,
    ensures
        with_a is Ok ==> with_b is Ok,
        with_a is Ok ==> with_a->Ok_0 == a,
        a >= 512 * 1024 * 1024 ==> with_a is Ok,
        a < 512 * 1024 * 1024 ==> with_a is Err && with_a->Err_0 is OutputFile,
{
}

/// Each packet counts once, as written with its bytes or as dropped without.
pub proof fn packets_count_once(t: MuxTally, written: bool, len: usize)
    requires
        t.frames_written < u64::MAX,
        t.frames_dropped < u64::MAX,
        t.bytes_written + len <= u64::MAX,
    ensures
        ({
            let after = tallied(t, written, len);
            &&& after.frames_written + after.frames_dropped == t.frames_written + t.frames_dropped
                + 1
            &&& written ==> after.bytes_written - t.bytes_written == len && after.frames_dropped
                == t.frames_dropped
            &&& !written ==> after.bytes_written == t.bytes_written && after.frames_written
                == t.frames_written
        }),
{
}

/// A session starts unless there is a disk with too little room: its plan takes path,
/// settings and format as they are and has a new muxer for its container.
pub proof fn sessions_need_room(
    s: RecordingSession,
    free: Option<Result<u64, String>>,
    r: EncodeResult<SessionPlan>,
)
    requires
        call_ensures(RecordingSession::prepare, (s, free), r),
    ensures
        r is Ok <==> free is None || (free->0 is Ok && free->0->Ok_0 >= 512 * 1024 * 1024),
        r is Ok ==> {
            let plan = r->Ok_0;
            &&& plan.output_path == s.output_path
            &&& plan.encoder_config == s.encoder_config
            &&& plan.input_format == s.input_format
            &&& plan.bitrate_kbps == 128
            &&& plan.muxer is Wav <==> s.container_format == ContainerFormat::Wav
            &&& plan.muxer is Mp3 <==> s.container_format == ContainerFormat::Mp3
            &&& plan.muxer is Flac <==> s.container_format == ContainerFormat::Flac
        },
{
}

/// The summary of a session tells its file, its times, what was counted, and a duration
/// that leads from its start to its stop.
pub proof fn summaries_tell_the_session(facts: SessionFacts, mux: MuxResult, info: SessionInfo)
    requires
        -0x2000_0000_0000_0000 <= mux.started_at.secs <= 0x2000_0000_0000_0000,
        -0x2000_0000_0000_0000 <= mux.stopped_at.secs <= 0x2000_0000_0000_0000,
        call_ensures(session_info, (facts, &mux), info),
    ensures
        info.output_file == facts.output_file,
        info.codec == facts.codec,
        info.sample_rate == facts.sample_rate,
        info.channels == facts.channels,
        info.frames_captured == mux.frames_written,
        info.frames_dropped == mux.frames_dropped,
        info.bytes_written == mux.bytes_written,
        (mux.started_at.secs + info.duration_secs) * 1_000_000_000 + mux.started_at.nanos
            + info.duration_nanos == mux.stopped_at.secs * 1_000_000_000 + mux.stopped_at.nanos,
        -1_000_000_000 < info.duration_nanos < 1_000_000_000,
{
}

/// Candidates differ by their number, wherever the pattern asks for it: they lie in the
/// folder, under the pattern with the number in its place, with the extension of the
/// container.
pub proof fn candidates_are_numbered(
    config: OutputConfig,
    format: ContainerFormat,
    n: nat,
    date: Seq<char>,
    time: Seq<char>,
    agent: Option<Seq<char>>,
    a: Seq<char>,
    b: Seq<char>,
)
    requires
        config.file_name_pattern@ == a + "{n}"@ + b,
        a.len() > 0,
        a[0] != '/',
        !a.contains('{'),
        !b.contains('{'),
        config.output_folder@.len() > 0,
        config.output_folder@.last() != '/',
    ensures
        candidate(config, format, n, date, time, agent) == config.output_folder@ + "/"@ + (a
            + text::decimal2(n) + b) + "."@ + format.extension_text(),
{
    lemma_number_token(a, b, n, date, time, agent_or_local(agent));
    files_lie_in_their_folder(
        config.output_folder@,
        a + text::decimal2(n) + b,
        format.extension_text(),
    );
}

/// A mux task that did not end normally is told as such, with what is known.
pub proof fn lost_mux_tasks_are_told(detail: &str, e: EncodeError)
    requires
        call_ensures(mux_join_failed, (detail,), e),
    ensures
        e is MuxFailed,
        e->MuxFailed_0@ == "mux task join error: "@ + detail@,
{
}

} // verus!
