//! The agent server: requests to start, stop and list recordings.
//!
//! A request is one line of JSON and gets one line in reply. The server owns the
//! sockets, the files and the recordings; what to do and what to reply is decided
//! here.
use crate::config::OutputConfig;
use crate::error::{labelled, EncodeError};
use crate::instance::utc_now;
use crate::json;
use crate::json::{bool_of, json_string, string_array};
use crate::muxer::ContainerFormat;
use crate::output;
use crate::paths;
use crate::text;
use crate::text::{byte_len, chars_of, holds_char, of_chars, owned, same};
use crate::types::Timestamp;
use vstd::prelude::*;

verus! {

// ---------------------------------------------------------------------------
// Replies
// ---------------------------------------------------------------------------
/// The line for a request that failed.
pub open spec fn error_line(message: Seq<char>) -> Seq<char> {
    "{\"status\":\"error\",\"data\":null,\"error\":"@ + json::string_literal(message) + "}\n"@
}

/// The line for a request that succeeded, with its data as JSON text.
pub open spec fn ok_line(data: Seq<char>) -> Seq<char> {
    "{\"status\":\"ok\",\"data\":"@ + data + ",\"error\":null}\n"@
}

/// See [`error_line`].
pub fn error_reply(message: &str) -> (r: String)
    ensures
        r@ == error_line(message@),
        json::is_reply_line(r@),
{
    let literal = json_string(message);
    let mut r = labelled("{\"status\":\"error\",\"data\":null,\"error\":", literal.as_str());
    r.append("}\n");
    proof {
        reveal_strlit("{\"status\":\"error\",\"data\":null,\"error\":");
        reveal_strlit("}\n");
        let head = "{\"status\":\"error\",\"data\":null,\"error\":"@;
        json::lemma_line_add(head, literal@);
        json::lemma_reply_line(head + literal@, seq!['}']);
        assert("}\n"@ =~= seq!['}'].push('\n'));
    }
    r
}

/// See [`ok_line`].
pub fn ok_reply(data: &str) -> (r: String)
    ensures
        r@ == ok_line(data@),
        json::is_line(data@) ==> json::is_reply_line(r@),
{
    let mut r = labelled("{\"status\":\"ok\",\"data\":", data);
    r.append(",\"error\":null}\n");
    proof {
        if json::is_line(data@) {
            reveal_strlit("{\"status\":\"ok\",\"data\":");
            reveal_strlit(",\"error\":null}\n");
            let head = "{\"status\":\"ok\",\"data\":"@;
            json::lemma_line_add(head, data@);
            let tail = ",\"error\":null}\n"@;
            json::lemma_reply_line(head + data@, tail.drop_last());
            assert(tail =~= tail.drop_last().push('\n'));
        }
    }
    r
}

// ---------------------------------------------------------------------------
// Starting
// ---------------------------------------------------------------------------
/// A request to start a recording.
#[derive(Debug)]
pub struct StartRequest {
    pub token: Option<String>,
    pub output_dir: String,
    pub filename_template: Option<String>,
    pub encoder: Option<String>,
    pub format: Option<String>,
}

/// What a start request settles.
#[derive(Debug)]
pub struct StartPlan {
    pub output: OutputConfig,
    pub format: ContainerFormat,
    pub encoder: String,
}

/// Whether the token of a request is the expected one, if one is expected.
pub open spec fn is_authentic(token: Option<Seq<char>>, expected: Option<Seq<char>>) -> bool {
    expected is Some ==> token == expected
}

/// The file name template of a request.
pub open spec fn template_of(request: StartRequest) -> Seq<char> {
    match request.filename_template {
        Some(t) => t@,
        None => "BSM_{date}_{time}_{n}"@,
    }
}

/// Templates are short and name no directory.
pub open spec fn is_good_template(t: Seq<char>) -> bool {
    text::utf8_len(t) <= 128 && !t.contains('/') && !t.contains('\\')
}

/// The container that a request names; WAV where it names none that is known.
pub open spec fn format_of(name: Option<Seq<char>>) -> ContainerFormat {
    if name == Some("mp3"@) {
        ContainerFormat::Mp3
    } else if name == Some("flac"@) {
        ContainerFormat::Flac
    } else {
        ContainerFormat::Wav
    }
}

pub open spec fn is_absolute(path: Seq<char>) -> bool {
    path.len() > 0 && path[0] == '/'
}

/// Whether `..` stands between slashes or ends of the path at `i`.
pub open spec fn parent_at(path: Seq<char>, i: int) -> bool {
    &&& 0 <= i && i + 2 <= path.len()
    &&& path[i] == '.' && path[i + 1] == '.'
    &&& i == 0 || path[i - 1] == '/'
    &&& i + 2 == path.len() || path[i + 2] == '/'
}

/// Whether one of the components of a path is `..`.
pub open spec fn has_parent(path: Seq<char>) -> bool {
    exists|i: int| parent_at(path, i)
}

/// A root without the slashes at its end.
pub open spec fn without_slashes(root: Seq<char>) -> Seq<char>
    decreases root.len(),
{
    if root.len() > 0 && root.last() == '/' {
        without_slashes(root.drop_last())
    } else {
        root
    }
}

/// The directory that recordings of the agent lie below.
pub open spec fn output_root(root: Option<Seq<char>>) -> Seq<char> {
    without_slashes(
        match root {
            Some(r) => r,
            None => "./recordings"@,
        },
    )
}

/// Why a start request is refused, if it is.
pub open spec fn start_refusal(request: StartRequest, expected: Option<Seq<char>>) -> Option<
    Seq<char>,
> {
    if !is_authentic(text::opt_view(request.token), expected) {
        Some("authentication failed"@)
    } else if !is_good_template(template_of(request)) {
        Some("invalid filename_template"@)
    } else if is_absolute(request.output_dir@) {
        Some("output_dir must be relative"@)
    } else if has_parent(request.output_dir@) {
        Some("output_dir contains parent traversal"@)
    } else {
        None
    }
}

fn contains_parent(path: &str) -> (r: bool)
    ensures
        r == has_parent(path@),
{
    let cs: Vec<char> = chars_of(path);
    let n: usize = cs.len();
    let mut i: usize = 0;
    while i < n
        invariant
            i <= n == cs.len(),
            cs@ == path@,
            forall|j: int| 0 <= j < i ==> !(#[trigger] parent_at(path@, j)),
        decreases n - i,
    {
        if n - i >= 2 && cs[i] == '.' && cs[i + 1] == '.' && (i == 0 || cs[i - 1] == '/') && (n - i
            == 2 || cs[i + 2] == '/') {
            assert(parent_at(path@, i as int));
            return true;
        }
        i = i + 1;
    }
    false
}

fn trim_slashes(root: &str) -> (r: String)
    ensures
        r@ == without_slashes(root@),
{
    let mut cs: Vec<char> = chars_of(root);
    while cs.len() > 0 && cs[cs.len() - 1] == '/'
        invariant
            without_slashes(cs@) == without_slashes(root@),
        decreases cs.len(),
    {
        let ghost before = cs@;
        let _slash = cs.pop();
        assert(cs@ =~= before.drop_last());
    }
    of_chars(cs.as_slice())
}

/// Checks a start request and plans the recording, or gives the reply that
/// refuses it.
pub fn check_start(request: StartRequest, expected: &Option<String>, root: &Option<String>) -> (r:
    Result<StartPlan, String>)
    ensures
        match start_refusal(request, text::opt_view(*expected)) {
            Some(reason) => r matches Err(line) && line@ == error_line(reason) && json::is_reply_line(
                line@,
            ),
            None => r matches Ok(plan) && {
                &&& plan.output.file_name_pattern@ == template_of(request)
                &&& plan.output.output_folder@ == output_root(text::opt_view(*root)) + "/"@
                    + request.output_dir@
                &&& plan.output.container == crate::config::ContainerFormat::Mp3
                &&& !plan.output.auto_remux_to_mp4
                &&& plan.format == format_of(text::opt_view(request.format))
                &&& plan.encoder@ == match request.encoder {
                    Some(e) => e@,
                    None => "libopus"@,
                }
            },
        },
{
    match expected {
        Some(secret) => {
            let good: bool = match &request.token {
                Some(t) => same(t.as_str(), secret.as_str()),
                None => false,
            };
            if !good {
                return Err(error_reply("authentication failed"));
            }
        },
        None => {},
    }
    let template: String = match &request.filename_template {
        Some(t) => t.clone(),
        None => owned("BSM_{date}_{time}_{n}"),
    };
    if byte_len(template.as_str()) > 128 || holds_char(template.as_str(), '/') || holds_char(
        template.as_str(),
        '\\',
    ) {
        return Err(error_reply("invalid filename_template"));
    }
    let format: ContainerFormat = match &request.format {
        Some(f) => if same(f.as_str(), "mp3") {
            ContainerFormat::Mp3
        } else if same(f.as_str(), "flac") {
            ContainerFormat::Flac
        } else {
            ContainerFormat::Wav
        },
        None => ContainerFormat::Wav,
    };
    if request.output_dir.as_str().unicode_len() > 0 && request.output_dir.as_str().get_char(0)
        == '/' {
        return Err(error_reply("output_dir must be relative"));
    }
    if contains_parent(request.output_dir.as_str()) {
        return Err(error_reply("output_dir contains parent traversal"));
    }
    let allowed: String = match root {
        Some(r) => r.clone(),
        None => owned("./recordings"),
    };
    let mut folder = trim_slashes(allowed.as_str());
    folder.append("/");
    folder.append(request.output_dir.as_str());
    let mut output = OutputConfig::default();
    output.output_folder = folder;
    output.file_name_pattern = template;
    let encoder: String = match request.encoder {
        Some(e) => e,
        None => owned("libopus"),
    };
    Ok(StartPlan { output, format, encoder })
}

/// The reply where no output path could be found.
pub fn resolve_failed(e: &EncodeError) -> (line: String)
    ensures
        line@ == error_line("resolve output path failed: "@ + e.text()),
        json::is_reply_line(line@),
{
    error_reply(labelled("resolve output path failed: ", e.message().as_str()).as_str())
}

/// A file for a checked request lies below the root: what follows the root names
/// no parent directory and does not start anew.
///
/// The agent's own name, which templates can ask for, must hold no slash.
pub proof fn recording_stays_below_root(
    request: StartRequest,
    expected: Option<Seq<char>>,
    root: Option<Seq<char>>,
    plan: StartPlan,
    n: nat,
    t: output::LocalTime,
    agent: Option<Seq<char>>,
    path: Seq<char>,
) -> (tail: Seq<char>)
    requires
        start_refusal(request, expected) is None,
        plan.output.file_name_pattern@ == template_of(request),
        plan.output.output_folder@ == output_root(root) + "/"@ + request.output_dir@,
        t.valid(),
        path == output::candidate(
            plan.output,
            plan.format,
            n,
            t.date_text(),
            t.time_text(),
            agent,
        ),
        agent matches Some(a) ==> output::holds_no_slash(a),
    ensures
        path == output_root(root) + "/"@ + tail,
        !is_absolute(tail),
        !has_parent(tail),
{
    let template = template_of(request);
    let stem = output::expanded(
        template,
        n,
        t.date_text(),
        t.time_text(),
        output::agent_or_local(agent),
    );
    assert(output::is_expansion(stem, template, n, agent));
    assert(output::holds_no_slash(template)) by {
        assert forall|i: int| 0 <= i < template.len() implies #[trigger] template[i] != '/' by {
            assert(template.contains(template[i]));
        }
    }
    output::expansion_stays_in_folder(stem, template, n, agent);
    let ext = plan.format.extension_text();
    let name = stem + "."@ + ext;
    reveal_strlit(".");
    reveal_strlit("/");
    reveal_strlit("mp3");
    reveal_strlit("flac");
    reveal_strlit("wav");
    assert(ext.len() >= 3);
    assert forall|i: int| 0 <= i < name.len() implies #[trigger] name[i] != '/' by {
        if i < stem.len() {
            assert(name[i] == stem[i]);
        } else if i > stem.len() {
            assert(name[i] == ext[i - stem.len() - 1]);
        }
    }
    // the last character of the name is one of the extension
    assert(name.last() != '.') by {
        assert(name.last() == ext.last());
    }
    let dir = request.output_dir@;
    let base = output_root(root) + "/"@;
    let folder = base + dir;
    assert(folder.last() == if dir.len() == 0 {
        '/'
    } else {
        dir.last()
    });
    let tail = if dir.len() == 0 {
        name
    } else if dir.last() == '/' {
        dir + name
    } else {
        dir.push('/') + name
    };
    assert(path == paths::joined_path(folder, name));
    assert(path =~= base + tail);
    if has_parent(tail) {
        let i = choose|i: int| parent_at(tail, i);
        lemma_parent_in_dir(dir, name, tail, i);
    }
    tail
}

proof fn lemma_parent_in_dir(dir: Seq<char>, name: Seq<char>, tail: Seq<char>, i: int)
    requires
        name.len() > 0,
        name.last() != '.',
        forall|k: int| 0 <= k < name.len() ==> #[trigger] name[k] != '/',
        tail == if dir.len() == 0 {
            name
        } else if dir.last() == '/' {
            dir + name
        } else {
            dir.push('/') + name
        },
        parent_at(tail, i),
    ensures
        has_parent(dir),
{
    let start = tail.len() - name.len();
    assert(forall|k: int| start <= k < tail.len() ==> tail[k] == name[k - start]);
    assert(forall|k: int| 0 <= k < dir.len() ==> tail[k] == dir[k]);
    if i >= start {
        // the component reaches to the end of the name, which ends with no dot
        if i + 2 == tail.len() {
            assert(tail[i + 1] == name.last());
        } else {
            assert(tail[i + 2] == name[i + 2 - start]);
        }
    } else {
        // two dots and what follows lie before the name
        assert(start >= 1 && tail[start - 1] == '/');
        assert(i + 1 < start - 1 || i + 1 != start - 1);
        if i + 1 >= start {
            assert(i == start - 1);
        }
        assert(i + 2 <= start - 1);
        assert(i + 2 <= dir.len());
        assert(parent_at(dir, i));
    }
}

// ---------------------------------------------------------------------------
// Sessions
// ---------------------------------------------------------------------------
/// A running session: its identifier and where its request came from.
#[derive(Debug)]
pub struct SessionEntry {
    pub id: String,
    pub origin: String,
}

/// The running sessions.
pub struct SessionTable {
    entries: Vec<SessionEntry>,
}

pub struct EntryView {
    pub id: Seq<char>,
    pub origin: Seq<char>,
}

impl View for SessionTable {
    type V = Seq<EntryView>;

    /// The sessions in the order of their starts.
    closed spec fn view(&self) -> Seq<EntryView> {
        Seq::new(
            self.entries@.len(),
            |i: int| EntryView { id: self.entries@[i].id@, origin: self.entries@[i].origin@ },
        )
    }
}

/// How many sessions an origin has.
pub open spec fn count_of(entries: Seq<EntryView>, origin: Seq<char>) -> nat
    decreases entries.len(),
{
    if entries.len() == 0 {
        0
    } else {
        count_of(entries.drop_last(), origin) + if entries.last().origin == origin {
            1nat
        } else {
            0nat
        }
    }
}

/// Whether another session of this origin may start: at most four of one origin,
/// at most 64 in all.
pub open spec fn admits(entries: Seq<EntryView>, origin: Seq<char>) -> bool {
    count_of(entries, origin) < 4 && entries.len() < 64
}

pub open spec fn holds_id(entries: Seq<EntryView>, id: Seq<char>) -> bool {
    exists|i: int| 0 <= i < entries.len() && (#[trigger] entries[i]).id == id
}

/// The sessions without those of an identifier.
pub open spec fn without(entries: Seq<EntryView>, id: Seq<char>) -> Seq<EntryView>
    decreases entries.len(),
{
    if entries.len() == 0 {
        Seq::empty()
    } else {
        let head = without(entries.drop_last(), id);
        if entries.last().id == id {
            head
        } else {
            head.push(entries.last())
        }
    }
}

/// The identifiers of some sessions.
pub open spec fn ids_of(entries: Seq<EntryView>) -> Seq<Seq<char>> {
    Seq::new(entries.len(), |i: int| entries[i].id)
}

/// The identifier of a session started at this time: its milliseconds.
pub open spec fn session_id_text(t: Timestamp) -> Seq<char> {
    "session-"@ + text::signed_decimal(t.secs * 1000 + t.nanos / 1_000_000)
}

/// See [`session_id_text`].
pub fn session_id_at(t: Timestamp) -> (id: String)
    ensures
        id@ == session_id_text(t),
{
    let millis: i128 = t.secs as i128 * 1000 + (t.nanos / 1_000_000) as i128;
    labelled("session-", text::decimal_i128(millis).as_str())
}

/// The identifier of a session that starts now.
pub fn session_id() -> (id: String)
    ensures
        exists|t: Timestamp| id@ == #[trigger] session_id_text(t),
{
    let now = utc_now();
    let id = session_id_at(now);
    assert(id@ == session_id_text(now));
    id
}

/// A session is stopped after five hours, in seconds.
pub const SESSION_LIMIT_SECS: u64 = 18000;

impl SessionTable {
    /// No identifier occurs twice.
    pub open spec fn wf(&self) -> bool {
        forall|i: int, j: int|
            0 <= i < self@.len() && 0 <= j < self@.len() && (#[trigger] self@[i]).id == (
            #[trigger] self@[j]).id ==> i == j
    }

    pub fn new() -> (t: Self)
        ensures
            t.wf(),
            t@ == Seq::<EntryView>::empty(),
    {
        let t = SessionTable { entries: Vec::new() };
        assert(t@ =~= Seq::<EntryView>::empty());
        t
    }

    /// Whether another session of this origin may start; else the reply that
    /// refuses it.
    pub fn check_limits(&self, origin: &str) -> (r: Result<(), String>)
        ensures
            if admits(self@, origin@) {
                r is Ok
            } else {
                r matches Err(line) && line@ == error_line("too many sessions"@) && json::is_reply_line(
                    line@,
                )
            },
    {
        let mut count: usize = 0;
        let mut i: usize = 0;
        assert(self@.take(0) =~= Seq::empty());
        while i < self.entries.len()
            invariant
                i <= self.entries.len() == self@.len(),
                count <= i,
                count == count_of(self@.take(i as int), origin@),
            decreases self.entries.len() - i,
        {
            if same(self.entries[i].origin.as_str(), origin) {
                count = count + 1;
            }
            assert(self@.take(i + 1).drop_last() =~= self@.take(i as int));
            i = i + 1;
        }
        assert(self@.take(self@.len() as int) =~= self@);
        if count >= 4 || self.entries.len() >= 64 {
            Err(error_reply("too many sessions"))
        } else {
            Ok(())
        }
    }

    /// Notes a started session and gives the reply that tells of it. A session
    /// with the same identifier makes way.
    pub fn started(&mut self, id: String, origin: &str, output: &str) -> (line: String)
        requires
            old(self).wf(),
        ensures
            final(self).wf(),
            final(self)@ == without(old(self)@, id@).push(EntryView { id: id@, origin: origin@ }),
            line@ == ok_line(
                "{\"id\":"@ + json::string_literal(id@) + ",\"output\":"@ + json::string_literal(
                    output@,
                ) + "}"@,
            ),
            json::is_reply_line(line@),
    {
        let id_literal = json_string(id.as_str());
        let output_literal = json_string(output);
        let mut data = labelled("{\"id\":", id_literal.as_str());
        data.append(",\"output\":");
        data.append(output_literal.as_str());
        data.append("}");
        proof {
            reveal_strlit("{\"id\":");
            reveal_strlit(",\"output\":");
            reveal_strlit("}");
            json::lemma_line_add("{\"id\":"@, id_literal@);
            json::lemma_line_add("{\"id\":"@ + id_literal@, ",\"output\":"@);
            json::lemma_line_add(
                "{\"id\":"@ + id_literal@ + ",\"output\":"@,
                output_literal@,
            );
            json::lemma_line_add(
                "{\"id\":"@ + id_literal@ + ",\"output\":"@ + output_literal@,
                "}"@,
            );
        }
        let _was_there: bool = self.remove(id.as_str());
        let ghost kept = self@;
        let ghost new_id = id@;
        let origin_text = owned(origin);
        proof {
            lemma_without(old(self)@, id@);
        }
        self.entries.push(SessionEntry { id, origin: origin_text });
        assert(self@ =~= kept.push(EntryView { id: new_id, origin: origin@ }));
        proof {
            assert forall|i: int, j: int|
                0 <= i < self@.len() && 0 <= j < self@.len() && (#[trigger] self@[i]).id == (
                #[trigger] self@[j]).id implies i == j by {
                if i < kept.len() {
                    assert(self@[i] == kept[i]);
                }
                if j < kept.len() {
                    assert(self@[j] == kept[j]);
                }
            }
        }
        ok_reply(data.as_str())
    }

    /// Removes the sessions of an identifier; whether there was one.
    fn remove(&mut self, id: &str) -> (found: bool)
        requires
            old(self).wf(),
        ensures
            final(self).wf(),
            final(self)@ == without(old(self)@, id@),
            found == holds_id(old(self)@, id@),
    {
        let ghost before = self@;
        let mut kept: Vec<SessionEntry> = Vec::new();
        let mut all: Vec<SessionEntry> = Vec::new();
        std::mem::swap(&mut all, &mut self.entries);
        let mut found: bool = false;
        let n: usize = all.len();
        let mut i: usize = 0;
        let ghost originals = all@;
        assert(originals.skip(0) =~= originals);
        assert(before.take(0) =~= Seq::empty());
        while i < n
            invariant
                i <= n == before.len(),
                originals.len() == n,
                all@ == originals.skip(i as int),
                forall|k: int|
                    0 <= k < n ==> #[trigger] before[k] == (EntryView {
                        id: originals[k].id@,
                        origin: originals[k].origin@,
                    }),
                kept.len() == without(before.take(i as int), id@).len(),
                forall|k: int|
                    0 <= k < kept.len() ==> #[trigger] without(before.take(i as int), id@)[k] == (
                    EntryView { id: kept@[k].id@, origin: kept@[k].origin@ }),
                found == holds_id(before.take(i as int), id@),
            decreases n - i,
        {
            let entry = all.remove(0);
            assert(originals[i as int] == entry);
            assert(all@ =~= originals.skip(i + 1));
            assert(before.take(i + 1).drop_last() =~= before.take(i as int));
            let hit: bool = same(entry.id.as_str(), id);
            proof {
                let now = before.take(i + 1);
                if hit {
                    assert(now[i as int].id == id@);
                }
                if holds_id(before.take(i as int), id@) {
                    let p = choose|p: int|
                        0 <= p < i && (#[trigger] before.take(i as int)[p]).id == id@;
                    assert(now[p].id == id@);
                }
                if holds_id(now, id@) {
                    let p = choose|p: int| 0 <= p < now.len() && (#[trigger] now[p]).id == id@;
                    if p < i {
                        assert(before.take(i as int)[p].id == id@);
                    }
                }
            }
            if hit {
                found = true;
            } else {
                kept.push(entry);
            }
            i = i + 1;
        }
        assert(before.take(before.len() as int) =~= before);
        self.entries = kept;
        assert(self@ =~= without(before, id@));
        proof {
            lemma_without(before, id@);
        }
        found
    }

    /// Takes a session out of the table to stop it; else the reply that there is
    /// none.
    pub fn take(&mut self, id: &str) -> (r: Result<(), String>)
        requires
            old(self).wf(),
        ensures
            final(self).wf(),
            final(self)@ == without(old(self)@, id@),
            if holds_id(old(self)@, id@) {
                r is Ok
            } else {
                r matches Err(line) && line@ == error_line("id not found"@) && json::is_reply_line(line@)
            },
    {
        if self.remove(id) {
            Ok(())
        } else {
            Err(error_reply("id not found"))
        }
    }

    /// The reply to a status request: about one session, or which there are.
    pub fn status(&self, id: &Option<String>) -> (line: String)
        ensures
            line@ == match id {
                Some(i) => ok_line(
                    "{\"active\":"@ + json::bool_text(holds_id(self@, i@)) + ",\"id\":"@
                        + json::string_literal(i@) + "}"@,
                ),
                None => ok_line("{\"sessions\":"@ + json::array_text(ids_of(self@)) + "}"@),
            },
            json::is_reply_line(line@),
    {
        match id {
            Some(name) => {
                let mut active: bool = false;
                let mut k: usize = 0;
                while k < self.entries.len()
                    invariant
                        k <= self.entries.len() == self@.len(),
                        active == exists|i: int|
                            0 <= i < k && (#[trigger] self@[i]).id == name@,
                    decreases self.entries.len() - k,
                {
                    if same(self.entries[k].id.as_str(), name.as_str()) {
                        assert(self@[k as int].id == name@);
                        active = true;
                    }
                    k = k + 1;
                }
                let literal = json_string(name.as_str());
                let flag = bool_of(active);
                let mut data = labelled("{\"active\":", flag);
                data.append(",\"id\":");
                data.append(literal.as_str());
                data.append("}");
                proof {
                    reveal_strlit("{\"active\":");
                    reveal_strlit(",\"id\":");
                    reveal_strlit("}");
                    reveal_strlit("true");
                    reveal_strlit("false");
                    json::lemma_line_add("{\"active\":"@, flag@);
                    json::lemma_line_add("{\"active\":"@ + flag@, ",\"id\":"@);
                    json::lemma_line_add("{\"active\":"@ + flag@ + ",\"id\":"@, literal@);
                    json::lemma_line_add("{\"active\":"@ + flag@ + ",\"id\":"@ + literal@, "}"@);
                }
                ok_reply(data.as_str())
            },
            None => {
                let mut ids: Vec<String> = Vec::new();
                let mut k: usize = 0;
                while k < self.entries.len()
                    invariant
                        k <= self.entries.len() == self@.len(),
                        ids.len() == k,
                        forall|i: int| 0 <= i < k ==> (#[trigger] ids@[i])@ == self@[i].id,
                    decreases self.entries.len() - k,
                {
                    ids.push(self.entries[k].id.clone());
                    k = k + 1;
                }
                assert(text::views(ids@) =~= ids_of(self@));
                let list = string_array(&ids);
                let mut data = labelled("{\"sessions\":", list.as_str());
                data.append("}");
                proof {
                    reveal_strlit("{\"sessions\":");
                    reveal_strlit("}");
                    json::lemma_line_add("{\"sessions\":"@, list@);
                    json::lemma_line_add("{\"sessions\":"@ + list@, "}"@);
                }
                ok_reply(data.as_str())
            },
        }
    }
}

/// The reply where a session could not be stopped.
pub fn stop_failed(e: &EncodeError) -> (line: String)
    ensures
        line@ == error_line("stop failed: "@ + e.text()),
        json::is_reply_line(line@),
{
    error_reply(labelled("stop failed: ", e.message().as_str()).as_str())
}

proof fn lemma_without(entries: Seq<EntryView>, id: Seq<char>)
    requires
        forall|i: int, j: int|
            0 <= i < entries.len() && 0 <= j < entries.len() && (#[trigger] entries[i]).id == (
            #[trigger] entries[j]).id ==> i == j,
    ensures
        forall|k: int|
            0 <= k < without(entries, id).len() ==> (#[trigger] without(entries, id)[k]).id != id
                && holds_id(entries, without(entries, id)[k].id),
        forall|i: int, j: int|
            0 <= i < without(entries, id).len() && 0 <= j < without(entries, id).len() && (
            #[trigger] without(entries, id)[i]).id == (#[trigger] without(entries, id)[j]).id
                ==> i == j,
    decreases entries.len(),
{
    if entries.len() > 0 {
        let head = entries.drop_last();
        assert forall|i: int, j: int|
            0 <= i < head.len() && 0 <= j < head.len() && (#[trigger] head[i]).id == (
            #[trigger] head[j]).id implies i == j by {
            assert(entries[i].id == entries[j].id);
        }
        lemma_without(head, id);
        let kept = without(head, id);
        let now = without(entries, id);
        assert forall|k: int| 0 <= k < now.len() implies (#[trigger] now[k]).id != id && holds_id(
            entries,
            now[k].id,
        ) by {
            if k < kept.len() {
                assert(kept[k].id != id);
                let p = choose|p: int| 0 <= p < head.len() && (#[trigger] head[p]).id == kept[k].id;
                assert(entries[p].id == now[k].id);
            } else {
                assert(entries[entries.len() - 1].id == now[k].id);
            }
        }
        assert forall|i: int, j: int|
            0 <= i < now.len() && 0 <= j < now.len() && (#[trigger] now[i]).id == (
            #[trigger] now[j]).id implies i == j by {
            if i < kept.len() && j < kept.len() {
                assert(kept[i].id == kept[j].id);
            } else if i < kept.len() {
                assert(holds_id(head, kept[i].id));
                let p = choose|p: int| 0 <= p < head.len() && (#[trigger] head[p]).id == kept[i].id;
                assert(entries[p].id == entries[entries.len() - 1].id);
            } else if j < kept.len() {
                assert(holds_id(head, kept[j].id));
                let p = choose|p: int| 0 <= p < head.len() && (#[trigger] head[p]).id == kept[j].id;
                assert(entries[p].id == entries[entries.len() - 1].id);
            }
        }
    }
}

/// Starting only where admitted keeps both limits, whatever the requests.
pub proof fn admission_keeps_limits(
    entries: Seq<EntryView>,
    id: Seq<char>,
    origin: Seq<char>,
    other: Seq<char>,
)
    requires
        entries.len() <= 64,
        count_of(entries, other) <= 4,
        admits(entries, origin),
    ensures
        ({
            let now = without(entries, id).push(EntryView { id, origin });
            now.len() <= 64 && count_of(now, other) <= 4
        }),
{
    lemma_without_count(entries, id, other);
    lemma_without_count(entries, id, origin);
    let kept = without(entries, id);
    assert(kept.push(EntryView { id, origin }).drop_last() =~= kept);
}

proof fn lemma_without_count(entries: Seq<EntryView>, id: Seq<char>, origin: Seq<char>)
    ensures
        without(entries, id).len() <= entries.len(),
        count_of(without(entries, id), origin) <= count_of(entries, origin),
    decreases entries.len(),
{
    if entries.len() > 0 {
        lemma_without_count(entries.drop_last(), id, origin);
        let head = without(entries.drop_last(), id);
        if entries.last().id != id {
            assert(head.push(entries.last()).drop_last() =~= head);
        }
    }
}

// ---------------------------------------------------------------------------
// Laws
// ---------------------------------------------------------------------------
/// The line for a failed request tells so, with the message and without data.
pub proof fn errors_are_told(message: Seq<char>)
    ensures
        json::tells(
            error_line(message),
            seq![
                json::Member { key: "status"@, value: "\"error\""@ },
                json::Member { key: "data"@, value: "null"@ },
                json::Member { key: "error"@, value: json::string_literal(message) },
            ],
        ),
{
    let b0 = Seq::<char>::empty();
    assert(b0 + "{\"status\":\"error\",\"data\":null,\"error\":"@ =~= "{\"status\":\"error\",\"data\":null,\"error\":"@);
    let m0 = Seq::<json::Member>::empty();
    assert(json::member_at(
        "{\"status\":\"error\",\"data\":null,\"error\":"@,
        1,
        json::Member { key: "status"@, value: "\"error\""@ },
    )) by {
        reveal_strlit("{\"status\":\"error\",\"data\":null,\"error\":");
        reveal_strlit("status");
        reveal_strlit("\"error\"");
    }
    json::lemma_tells_also(
        b0,
        "{\"status\":\"error\",\"data\":null,\"error\":"@,
        m0,
        json::Member { key: "status"@, value: "\"error\""@ },
        1,
    );
    let m1 = m0.push(json::Member { key: "status"@, value: "\"error\""@ });
    assert(json::member_at(
        "{\"status\":\"error\",\"data\":null,\"error\":"@,
        18,
        json::Member { key: "data"@, value: "null"@ },
    )) by {
        reveal_strlit("{\"status\":\"error\",\"data\":null,\"error\":");
        reveal_strlit("data");
        reveal_strlit("null");
    }
    json::lemma_tells_also(
        b0,
        "{\"status\":\"error\",\"data\":null,\"error\":"@,
        m1,
        json::Member { key: "data"@, value: "null"@ },
        18,
    );
    let m2 = m1.push(json::Member { key: "data"@, value: "null"@ });
    assert(json::opens_member("{\"status\":\"error\",\"data\":null,\"error\":"@, "error"@)) by {
        reveal_strlit("{\"status\":\"error\",\"data\":null,\"error\":");
        reveal_strlit("error");
    }
    assert("}\n"@.len() >= 1 && ("}\n"@[0] == ',' || "}\n"@[0] == '}')) by {
        reveal_strlit("}\n");
    }
    json::lemma_tells_next(
        b0,
        m2,
        "{\"status\":\"error\",\"data\":null,\"error\":"@,
        "error"@,
        json::string_literal(message),
        "}\n"@,
    );
    let m3 = m2.push(json::Member { key: "error"@, value: json::string_literal(message) });
    let b1 = "{\"status\":\"error\",\"data\":null,\"error\":"@ + json::string_literal(message);
    assert(m3 =~= seq![
        json::Member { key: "status"@, value: "\"error\""@ },
        json::Member { key: "data"@, value: "null"@ },
        json::Member { key: "error"@, value: json::string_literal(message) },
    ]);
}

/// The line for a request that succeeded tells so, with the data and without an error.
pub proof fn successes_are_told(data: Seq<char>)
    ensures
        json::tells(
            ok_line(data),
            seq![
                json::Member { key: "status"@, value: "\"ok\""@ },
                json::Member { key: "data"@, value: data },
                json::Member { key: "error"@, value: "null"@ },
            ],
        ),
{
    let b0 = Seq::<char>::empty();
    assert(b0 + "{\"status\":\"ok\",\"data\":"@ =~= "{\"status\":\"ok\",\"data\":"@);
    let m0 = Seq::<json::Member>::empty();
    assert(json::member_at(
        "{\"status\":\"ok\",\"data\":"@,
        1,
        json::Member { key: "status"@, value: "\"ok\""@ },
    )) by {
        reveal_strlit("{\"status\":\"ok\",\"data\":");
        reveal_strlit("status");
        reveal_strlit("\"ok\"");
    }
    json::lemma_tells_also(
        b0,
        "{\"status\":\"ok\",\"data\":"@,
        m0,
        json::Member { key: "status"@, value: "\"ok\""@ },
        1,
    );
    let m1 = m0.push(json::Member { key: "status"@, value: "\"ok\""@ });
    assert(json::opens_member("{\"status\":\"ok\",\"data\":"@, "data"@)) by {
        reveal_strlit("{\"status\":\"ok\",\"data\":");
        reveal_strlit("data");
    }
    assert(",\"error\":null}\n"@.len() >= 1
        && (",\"error\":null}\n"@[0] == ',' || ",\"error\":null}\n"@[0] == '}')) by {
        reveal_strlit(",\"error\":null}\n");
    }
    json::lemma_tells_next(
        b0,
        m1,
        "{\"status\":\"ok\",\"data\":"@,
        "data"@,
        data,
        ",\"error\":null}\n"@,
    );
    let m2 = m1.push(json::Member { key: "data"@, value: data });
    let b1 = "{\"status\":\"ok\",\"data\":"@ + data;
    assert(json::member_at(
        ",\"error\":null}\n"@,
        1,
        json::Member { key: "error"@, value: "null"@ },
    )) by {
        reveal_strlit(",\"error\":null}\n");
        reveal_strlit("error");
        reveal_strlit("null");
    }
    json::lemma_tells_also(
        b1,
        ",\"error\":null}\n"@,
        m2,
        json::Member { key: "error"@, value: "null"@ },
        1,
    );
    let m3 = m2.push(json::Member { key: "error"@, value: "null"@ });
    assert(m3 =~= seq![
        json::Member { key: "status"@, value: "\"ok\""@ },
        json::Member { key: "data"@, value: data },
        json::Member { key: "error"@, value: "null"@ },
    ]);
}

/// With a secret expected, only the very same token is let in; without one, all are.
pub proof fn only_the_secret_lets_in(request: StartRequest, secret: Seq<char>)
    ensures
        text::opt_view(request.token) != Some(secret) ==> start_refusal(request, Some(secret))
            == Some("authentication failed"@),
        text::opt_view(request.token) == Some(secret) ==> start_refusal(request, Some(secret))
            == start_refusal(request, None),
        start_refusal(request, None) != Some("authentication failed"@),
{
    reveal_strlit("authentication failed");
    reveal_strlit("invalid filename_template");
    reveal_strlit("output_dir must be relative");
    reveal_strlit("output_dir contains parent traversal");
    assert("authentication failed"@.len() == 21);
    assert("invalid filename_template"@.len() == 25);
    assert("output_dir must be relative"@.len() == 27);
    assert("output_dir contains parent traversal"@.len() == 36);
}

/// A template is refused exactly where it takes more than 128 bytes or holds a slash of
/// either kind.
pub proof fn long_or_slashed_templates_are_refused(request: StartRequest, t: String)
    requires
        request.filename_template == Some(t),
    ensures
        text::utf8_len(t@) > 128 || t@.contains('/') || t@.contains('\\') <==> start_refusal(
            request,
            None,
        ) == Some("invalid filename_template"@),
{
    reveal_strlit("invalid filename_template");
    reveal_strlit("output_dir must be relative");
    reveal_strlit("output_dir contains parent traversal");
    assert("invalid filename_template"@.len() == 25);
    assert("output_dir must be relative"@.len() == 27);
    assert("output_dir contains parent traversal"@.len() == 36);
}

/// A directory from the root, or with `..` as its whole, its beginning, its end or any
/// part of it, is refused, whatever stands around it.
pub proof fn no_way_leads_up(request: StartRequest, before: Seq<char>, after: Seq<char>)
    ensures
        request.output_dir@.len() > 0 && request.output_dir@[0] == '/' ==> start_refusal(
            request,
            None,
        ) is Some,
        request.output_dir@ == seq!['.', '.'] ==> start_refusal(request, None) is Some,
        request.output_dir@ == seq!['.', '.', '/'] + after ==> start_refusal(request, None) is Some,
        request.output_dir@ == before + seq!['/', '.', '.'] ==> start_refusal(request, None) is Some,
        request.output_dir@ == before + seq!['/', '.', '.', '/'] + after ==> start_refusal(
            request,
            None,
        ) is Some,
{
    let dir = request.output_dir@;
    let n = before.len() as int;
    if dir == seq!['.', '.'] {
        assert(parent_at(dir, 0));
    }
    if dir == seq!['.', '.', '/'] + after {
        assert(parent_at(dir, 0));
    }
    if dir == before + seq!['/', '.', '.'] {
        assert(parent_at(dir, n + 1));
    }
    if dir == before + seq!['/', '.', '.', '/'] + after {
        assert(parent_at(dir, n + 1));
    }
}

/// Nothing else is refused: with a short template of one name, a relative directory in
/// which no two dots meet is let in.
pub proof fn plain_directories_are_let_in(request: StartRequest)
    requires
        request.filename_template is None,
        request.output_dir@.len() > 0 ==> request.output_dir@[0] != '/',
        forall|i: int|
            0 <= i < request.output_dir@.len() - 1 ==> #[trigger] request.output_dir@[i] != '.'
                || request.output_dir@[i + 1] != '.',
    ensures
        start_refusal(request, None) is None,
{
    let t = "BSM_{date}_{time}_{n}"@;
    reveal_strlit("BSM_{date}_{time}_{n}");
    assert forall|i: int| 0 <= i < t.len() implies (#[trigger] t[i] as u32) < 128 && t[i] != '/'
        && t[i] != '\\' by {}
    text::utf8_len_adds_up(Seq::empty(), t);
    if has_parent(request.output_dir@) {
        let i = choose|i: int| parent_at(request.output_dir@, i);
        assert(request.output_dir@[i] == '.');
    }
}

/// The root of recordings is what was set, without slashes at its end; nothing else is
/// taken off.
pub proof fn roots_lose_only_slashes(root: Seq<char>) -> (slashes: Seq<char>)
    ensures
        root == output_root(Some(root)) + slashes,
        forall|i: int| 0 <= i < slashes.len() ==> #[trigger] slashes[i] == '/',
        output_root(Some(root)).len() > 0 ==> output_root(Some(root)).last() != '/',
        output_root(None) == "./recordings"@,
    decreases root.len(),
{
    reveal_strlit("./recordings");
    if root.len() > 0 && root.last() == '/' {
        let s = roots_lose_only_slashes(root.drop_last());
        let slashes = s.push('/');
        assert(root =~= root.drop_last().push('/'));
        assert(root =~= output_root(Some(root)) + slashes);
        slashes
    } else {
        assert(root =~= output_root(Some(root)) + Seq::<char>::empty());
        Seq::empty()
    }
}

/// Each container is asked for by its extension; without a name, and under any other
/// name, it is WAV.
pub proof fn containers_are_named_by_extension(f: ContainerFormat, name: Seq<char>)
    ensures
        format_of(Some(f.extension_text())) == f,
        format_of(None) == ContainerFormat::Wav,
        name != "mp3"@ && name != "flac"@ ==> format_of(Some(name)) == ContainerFormat::Wav,
{
    reveal_strlit("mp3");
    reveal_strlit("flac");
    reveal_strlit("wav");
    assert("mp3"@.len() == 3 && "flac"@.len() == 4 && "wav"@.len() == 3);
    assert("mp3"@[0] != "wav"@[0]);
}

/// Sessions of an origin are counted one by one.
pub proof fn sessions_are_counted(
    a: Seq<EntryView>,
    b: Seq<EntryView>,
    e: EntryView,
    origin: Seq<char>,
)
    ensures
        count_of(a + b, origin) == count_of(a, origin) + count_of(b, origin),
        count_of(seq![e], origin) == if e.origin == origin {
            1nat
        } else {
            0nat
        },
    decreases b.len(),
{
    reveal_with_fuel(count_of, 2);
    assert(seq![e].drop_last() =~= Seq::<EntryView>::empty());
    if b.len() == 0 {
        assert(a + b =~= a);
    } else {
        sessions_are_counted(a, b.drop_last(), e, origin);
        assert((a + b).drop_last() =~= a + b.drop_last());
    }
}

/// One origin may have up to four sessions, whatever others have; 64 are the limit for
/// all together.
pub proof fn limits_are_four_and_sixty_four(
    own: Seq<EntryView>,
    others: Seq<EntryView>,
    origin: Seq<char>,
)
    requires
        forall|i: int| 0 <= i < own.len() ==> (#[trigger] own[i]).origin == origin,
        forall|i: int| 0 <= i < others.len() ==> (#[trigger] others[i]).origin != origin,
    ensures
        admits(own + others, origin) <==> own.len() <= 3 && own.len() + others.len() <= 63,
        admits(others + own, origin) <==> own.len() <= 3 && own.len() + others.len() <= 63,
{
    lemma_count_all(own, origin);
    lemma_count_none(others, origin);
    sessions_are_counted(own, others, EntryView { id: origin, origin }, origin);
    sessions_are_counted(others, own, EntryView { id: origin, origin }, origin);
}

proof fn lemma_count_all(own: Seq<EntryView>, origin: Seq<char>)
    requires
        forall|i: int| 0 <= i < own.len() ==> (#[trigger] own[i]).origin == origin,
    ensures
        count_of(own, origin) == own.len(),
    decreases own.len(),
{
    if own.len() > 0 {
        let t = own.drop_last();
        assert forall|i: int| 0 <= i < t.len() implies (#[trigger] t[i]).origin == origin by {
            assert(own[i].origin == origin);
        }
        lemma_count_all(t, origin);
        assert(own[own.len() - 1].origin == origin);
    }
}

proof fn lemma_count_none(others: Seq<EntryView>, origin: Seq<char>)
    requires
        forall|i: int| 0 <= i < others.len() ==> (#[trigger] others[i]).origin != origin,
    ensures
        count_of(others, origin) == 0,
    decreases others.len(),
{
    if others.len() > 0 {
        let t = others.drop_last();
        assert forall|i: int| 0 <= i < t.len() implies (#[trigger] t[i]).origin != origin by {
            assert(others[i].origin != origin);
        }
        lemma_count_none(t, origin);
        assert(others[others.len() - 1].origin != origin);
    }
}

/// Taking out an identifier takes out its sessions and no others, and keeps the order
/// of what stays.
pub proof fn taking_out_spares_the_others(
    a: Seq<EntryView>,
    b: Seq<EntryView>,
    e: EntryView,
    id: Seq<char>,
)
    ensures
        without(a + b, id) == without(a, id) + without(b, id),
        e.id == id ==> without(seq![e], id) == Seq::<EntryView>::empty(),
        e.id != id ==> without(seq![e], id) == seq![e],
        !holds_id(without(a, id), id),
        forall|other: Seq<char>| other != id ==> (#[trigger] holds_id(without(a, id), other)
            <==> holds_id(a, other)),
    decreases b.len(),
{
    reveal_with_fuel(without, 2);
    assert(seq![e].drop_last() =~= Seq::<EntryView>::empty());
    assert(Seq::<EntryView>::empty().push(e) =~= seq![e]);
    if b.len() == 0 {
        assert(a + b =~= a);
        assert(without(a, id) + without(b, id) =~= without(a, id));
    } else {
        taking_out_spares_the_others(a, b.drop_last(), e, id);
        assert((a + b).drop_last() =~= a + b.drop_last());
        assert(without(a + b, id) =~= without(a, id) + without(b, id));
    }
    lemma_without_ids(a, id);
}

proof fn lemma_without_ids(a: Seq<EntryView>, id: Seq<char>)
    ensures
        !holds_id(without(a, id), id),
        forall|other: Seq<char>| other != id ==> (#[trigger] holds_id(without(a, id), other)
            <==> holds_id(a, other)),
    decreases a.len(),
{
    if a.len() > 0 {
        let t = a.drop_last();
        lemma_without_ids(t, id);
        let kept = without(t, id);
        let now = without(a, id);
        if holds_id(now, id) {
            let i = choose|i: int| 0 <= i < now.len() && (#[trigger] now[i]).id == id;
            if i < kept.len() {
                assert(kept[i].id == id);
            }
        }
        assert forall|other: Seq<char>| other != id implies (#[trigger] holds_id(now, other)
            <==> holds_id(a, other)) by {
            if holds_id(now, other) {
                let i = choose|i: int| 0 <= i < now.len() && (#[trigger] now[i]).id == other;
                if i < kept.len() {
                    assert(kept[i].id == other);
                    assert(holds_id(kept, other));
                    let j = choose|j: int| 0 <= j < t.len() && (#[trigger] t[j]).id == other;
                    assert(a[j].id == other);
                } else {
                    assert(a[a.len() - 1].id == other);
                }
            }
            if holds_id(a, other) {
                let j = choose|j: int| 0 <= j < a.len() && (#[trigger] a[j]).id == other;
                if j < t.len() {
                    assert(t[j].id == other);
                    assert(holds_id(kept, other));
                    let i = choose|i: int| 0 <= i < kept.len() && (#[trigger] kept[i]).id == other;
                    assert(now[i].id == other);
                } else {
                    assert(now[now.len() - 1].id == other);
                }
            }
        }
    }
}

/// The identifier of a session tells the milliseconds of its start.
pub proof fn session_ids_tell_their_start(t: Timestamp)
    requires
        t.secs >= 0,
    ensures
        ({
            let id = session_id_text(t);
            &&& id.len() > 8
            &&& id.take(8) == "session-"@
            &&& text::numeral_value(id.skip(8)) == t.secs * 1000 + t.nanos / 1_000_000
        }),
{
    reveal_strlit("session-");
    let n = t.secs * 1000 + t.nanos / 1_000_000;
    text::signed_numerals_read_back(n);
    text::numerals_read_back(n as nat);
    let id = session_id_text(t);
    assert(id.take(8) =~= "session-"@);
    assert(id.skip(8) =~= text::signed_decimal(n));
}

/// Five hours are 300 minutes of 60 seconds.
pub proof fn sessions_last_five_hours()
    ensures
        SESSION_LIMIT_SECS == 5 * 60 * 60,
{
}

/// The plan of a request that is let in takes its template, its encoder and its container,
/// and puts the recording into the directory below the root.
pub proof fn plans_follow_the_request(
    request: StartRequest,
    expected: Option<String>,
    root: Option<String>,
    r: Result<StartPlan, String>,
)
    requires
        call_ensures(check_start, (request, &expected, &root), r),
    ensures
        r is Ok <==> start_refusal(request, text::opt_view(expected)) is None,
        r is Ok ==> {
            let plan = r->Ok_0;
            &&& plan.output.output_folder@ == output_root(text::opt_view(root)) + "/"@
                + request.output_dir@
            &&& request.filename_template matches Some(t) ==> plan.output.file_name_pattern@ == t@
            &&& request.filename_template is None ==> plan.output.file_name_pattern@
                == "BSM_{date}_{time}_{n}"@
            &&& request.encoder matches Some(e) ==> plan.encoder@ == e@
            &&& request.encoder is None ==> plan.encoder@ == "libopus"@
            &&& text::opt_view(request.format) == Some("flac"@) ==> plan.format
                == ContainerFormat::Flac
            &&& text::opt_view(request.format) == Some("mp3"@) ==> plan.format
                == ContainerFormat::Mp3
            &&& request.format is None ==> plan.format == ContainerFormat::Wav
        },
{
    reveal_strlit("mp3");
    reveal_strlit("flac");
    assert("mp3"@.len() != "flac"@.len());
}

/// Asked about a session, the reply is one that succeeded and tells whether it runs, under
/// its identifier.
pub proof fn status_tells_whether_it_runs(table: SessionTable, id: String, line: String)
    requires
        call_ensures(SessionTable::status, (&table, &Some(id)), line),
    ensures
        ({
            let data = "{\"active\":"@ + json::bool_text(holds_id(table@, id@)) + ",\"id\":"@
                + json::string_literal(id@) + "}"@;
            &&& line@ == ok_line(data)
            &&& json::tells(
                data,
                seq![
                    json::Member {
                        key: "active"@,
                        value: json::bool_text(holds_id(table@, id@)),
                    },
                    json::Member { key: "id"@, value: json::string_literal(id@) },
                ],
            )
        }),
{
    let b0 = Seq::<char>::empty();
    assert(b0 + "{\"active\":"@ =~= "{\"active\":"@);
    let m0 = Seq::<json::Member>::empty();
    assert(json::opens_member("{\"active\":"@, "active"@)) by {
        reveal_strlit("{\"active\":");
        reveal_strlit("active");
    }
    assert(",\"id\":"@.len() >= 1 && (",\"id\":"@[0] == ',' || ",\"id\":"@[0] == '}')) by {
        reveal_strlit(",\"id\":");
    }
    json::lemma_tells_next(
        b0,
        m0,
        "{\"active\":"@,
        "active"@,
        json::bool_text(holds_id(table@, id@)),
        ",\"id\":"@,
    );
    let m1 = m0.push(
        json::Member { key: "active"@, value: json::bool_text(holds_id(table@, id@)) },
    );
    let b1 = "{\"active\":"@ + json::bool_text(holds_id(table@, id@));
    assert(json::opens_member(",\"id\":"@, "id"@)) by {
        reveal_strlit(",\"id\":");
        reveal_strlit("id");
    }
    assert("}"@.len() >= 1 && ("}"@[0] == ',' || "}"@[0] == '}')) by {
        reveal_strlit("}");
    }
    json::lemma_tells_next(b1, m1, ",\"id\":"@, "id"@, json::string_literal(id@), "}"@);
    let m2 = m1.push(json::Member { key: "id"@, value: json::string_literal(id@) });
    let b2 = b1 + ",\"id\":"@ + json::string_literal(id@);
    assert(m2 =~= seq![
        json::Member { key: "active"@, value: json::bool_text(holds_id(table@, id@)) },
        json::Member { key: "id"@, value: json::string_literal(id@) },
    ]);
}

/// A session that started is in the table, with its origin, as the last one; sessions of
/// other identifiers stay.
pub proof fn started_sessions_are_listed(
    table: &mut SessionTable,
    id: String,
    origin: &str,
    output: &str,
    line: String,
    other: Seq<char>,
)
    requires
        old(table).wf(),
        call_ensures(SessionTable::started, (table, id, origin, output), line),
    ensures
        final(table).wf(),
        holds_id(final(table)@, id@),
        final(table)@.last().id == id@,
        final(table)@.last().origin == origin@,
        other != id@ ==> (holds_id(final(table)@, other) <==> holds_id(old(table)@, other)),
        !holds_id(old(table)@, id@) ==> final(table)@.len() == old(table)@.len() + 1,
{
    let before = old(table)@;
    let after = final(table)@;
    let kept = without(before, id@);
    let e = EntryView { id: id@, origin: origin@ };
    assert(after == kept.push(e));
    assert(after[after.len() - 1].id == id@);
    lemma_without_ids(before, id@);
    if other != id@ {
        if holds_id(after, other) {
            let i = choose|i: int| 0 <= i < after.len() && (#[trigger] after[i]).id == other;
            assert(kept[i].id == other);
            assert(holds_id(kept, other));
        }
        if holds_id(before, other) {
            assert(holds_id(kept, other));
            let i = choose|i: int| 0 <= i < kept.len() && (#[trigger] kept[i]).id == other;
            assert(after[i].id == other);
        }
    }
    if !holds_id(before, id@) {
        lemma_without_missing(before, id@);
    }
}

proof fn lemma_without_missing(entries: Seq<EntryView>, id: Seq<char>)
    requires
        !holds_id(entries, id),
    ensures
        without(entries, id) == entries,
    decreases entries.len(),
{
    if entries.len() > 0 {
        let t = entries.drop_last();
        assert(entries[entries.len() - 1].id != id);
        assert forall|i: int| 0 <= i < t.len() implies (#[trigger] t[i]).id != id by {
            assert(entries[i].id != id);
        }
        lemma_without_missing(t, id);
        assert(without(entries, id) =~= entries);
    }
}

/// A session can be taken out of the table exactly while it is there, and then it is gone;
/// what is not there is told so, and the others stay.
pub proof fn stopped_sessions_are_gone(
    table: &mut SessionTable,
    id: &str,
    r: Result<(), String>,
    other: Seq<char>,
)
    requires
        old(table).wf(),
        call_ensures(SessionTable::take, (table, id), r),
    ensures
        r is Ok <==> holds_id(old(table)@, id@),
        !holds_id(final(table)@, id@),
        other != id@ ==> (holds_id(final(table)@, other) <==> holds_id(old(table)@, other)),
        r is Err ==> final(table)@ == old(table)@ && r->Err_0@ == error_line("id not found"@),
{
    lemma_without_ids(old(table)@, id@);
    if !holds_id(old(table)@, id@) {
        lemma_without_missing(old(table)@, id@);
    }
}

/// Another session is let in exactly where its origin has at most three and there are at
/// most 63 in all; else it is told why.
pub proof fn a_fifth_session_is_refused(table: SessionTable, origin: &str, r: Result<(), String>)
    requires
        call_ensures(SessionTable::check_limits, (&table, origin), r),
    ensures
        table@.len() <= 3 ==> r is Ok,
        table@.len() >= 64 ==> r is Err,
        count_of(table@, origin@) >= 4 ==> r is Err,
        count_of(table@, origin@) <= 3 && table@.len() <= 63 ==> r is Ok,
        r is Err ==> r->Err_0@ == error_line("too many sessions"@),
{
    lemma_count_bound(table@, origin@);
}

proof fn lemma_count_bound(entries: Seq<EntryView>, origin: Seq<char>)
    ensures
        count_of(entries, origin) <= entries.len(),
    decreases entries.len(),
{
    if entries.len() > 0 {
        lemma_count_bound(entries.drop_last(), origin);
    }
}

} // verus!
