//! Commands of IPC clients, and responses to them.
use crate::error::{IpcError, IpcResult};
use crate::json;
use crate::json::{bool_of, json_string};
use crate::text;
use crate::text::{owned, same};
use vstd::prelude::*;

verus! {

// ---------------------------------------------------------------------------
// Request envelope
// ---------------------------------------------------------------------------
/// Envelope received from the client; its payload is JSON text.
#[derive(Debug)]
pub struct CommandEnvelope {
    pub cmd: String,
    pub id: String,
    pub payload: String,
}

/// The error for a line that holds no envelope.
pub fn invalid_json(detail: &str) -> (e: IpcError)
    ensures
        e matches IpcError::Serialization(m) && m@ == "invalid JSON: "@ + detail@,
{
    let mut m = owned("invalid JSON: ");
    m.append(detail);
    IpcError::Serialization(m)
}

// ---------------------------------------------------------------------------
// Typed command enum
// ---------------------------------------------------------------------------
/// Fully-typed IPC command, derived from the CommandEnvelope.
#[derive(Debug, Clone, PartialEq)]
pub enum IpcCommand {
    StartRecording { device_index: Option<u32> },
    StopRecording,
    PauseRecording,
    ResumeRecording,
    GetStatus,
    SubscribeTelemetry,
    SetDevice { device_index: u32 },
    UpdateConfig { patch: String },
    Shutdown,
    /// Liveness probe; returns status and uptime.
    Health,
    /// Returns current audio quality stats.
    Stats,
}

/// The unsigned integer that the object in some JSON text has under a key, as
/// `serde_json` reads it.
pub uninterp spec fn u64_member(payload: Seq<char>, key: Seq<char>) -> Option<u64>;

/// `serde_json::from_str` to a value, then `Value::get` and `Value::as_u64`: the
/// unsigned integer under a key, if the text is an object that has one.
#[verifier::external_body]
pub(crate) fn json_u64_member(payload: &str, key: &str) -> (r: Option<u64>)
    ensures
        r == u64_member(payload@, key@),
{
    let value: Option<serde_json::Value> = serde_json::from_str(payload).ok();
    value.and_then(|v| v.get(key).and_then(|m| m.as_u64()))
}

/// A device index cut to 32 bits.
pub open spec fn cut_index(n: u64) -> u32 {
    (n % 0x1_0000_0000) as u32
}

fn index_of(n: u64) -> (i: u32)
    ensures
        i == cut_index(n),
{
    (n % 0x1_0000_0000) as u32
}

/// What a command's name and payload mean; `index` is the device index that the
/// payload holds.
pub open spec fn means(
    cmd: Seq<char>,
    payload: String,
    index: Option<u64>,
    r: IpcResult<IpcCommand>,
) -> bool {
    if cmd == "start_recording"@ {
        r matches Ok(IpcCommand::StartRecording { device_index }) && device_index == match index {
            Some(n) => Some(cut_index(n)),
            None => None,
        }
    } else if cmd == "stop_recording"@ {
        r matches Ok(IpcCommand::StopRecording)
    } else if cmd == "pause_recording"@ {
        r matches Ok(IpcCommand::PauseRecording)
    } else if cmd == "resume_recording"@ {
        r matches Ok(IpcCommand::ResumeRecording)
    } else if cmd == "get_status"@ {
        r matches Ok(IpcCommand::GetStatus)
    } else if cmd == "subscribe_telemetry"@ {
        r matches Ok(IpcCommand::SubscribeTelemetry)
    } else if cmd == "set_device"@ {
        match index {
            Some(n) => r matches Ok(IpcCommand::SetDevice { device_index }) && device_index
                == cut_index(n),
            None => r matches Err(IpcError::Serialization(m)) && m@
                == "set_device: missing device_index"@,
        }
    } else if cmd == "update_config"@ {
        r matches Ok(IpcCommand::UpdateConfig { patch }) && patch@ == payload@
    } else if cmd == "shutdown"@ {
        r matches Ok(IpcCommand::Shutdown)
    } else if cmd == "health"@ {
        r matches Ok(IpcCommand::Health)
    } else if cmd == "stats"@ {
        r matches Ok(IpcCommand::Stats)
    } else {
        r matches Err(IpcError::UnknownCommand(m)) && m@ == cmd
    }
}

/// See [`means`].
pub fn interpret(cmd: &str, payload: &String, index: Option<u64>) -> (r: IpcResult<IpcCommand>)
    ensures
        means(cmd@, *payload, index, r),
{
    if same(cmd, "start_recording") {
        Ok(
            IpcCommand::StartRecording {
                device_index: match index {
                    Some(n) => Some(index_of(n)),
                    None => None,
                },
            },
        )
    } else if same(cmd, "stop_recording") {
        Ok(IpcCommand::StopRecording)
    } else if same(cmd, "pause_recording") {
        Ok(IpcCommand::PauseRecording)
    } else if same(cmd, "resume_recording") {
        Ok(IpcCommand::ResumeRecording)
    } else if same(cmd, "get_status") {
        Ok(IpcCommand::GetStatus)
    } else if same(cmd, "subscribe_telemetry") {
        Ok(IpcCommand::SubscribeTelemetry)
    } else if same(cmd, "set_device") {
        match index {
            Some(n) => Ok(IpcCommand::SetDevice { device_index: index_of(n) }),
            None => Err(IpcError::Serialization(owned("set_device: missing device_index"))),
        }
    } else if same(cmd, "update_config") {
        Ok(IpcCommand::UpdateConfig { patch: payload.clone() })
    } else if same(cmd, "shutdown") {
        Ok(IpcCommand::Shutdown)
    } else if same(cmd, "health") {
        Ok(IpcCommand::Health)
    } else if same(cmd, "stats") {
        Ok(IpcCommand::Stats)
    } else {
        Err(IpcError::UnknownCommand(owned(cmd)))
    }
}

impl IpcCommand {
    /// Interpret a CommandEnvelope into a typed IpcCommand.
    pub fn from_envelope(env: &CommandEnvelope) -> (r: IpcResult<Self>)
        ensures
            means(env.cmd@, env.payload, u64_member(env.payload@, "device_index"@), r),
    {
        let index = json_u64_member(env.payload.as_str(), "device_index");
        interpret(env.cmd.as_str(), &env.payload, index)
    }
}

// ---------------------------------------------------------------------------
// Response envelope
// ---------------------------------------------------------------------------
/// Typed response; its data is JSON text.
#[derive(Debug)]
pub struct ResponseEnvelope {
    pub id: String,
    pub ok: bool,
    pub error: Option<String>,
    pub data: Option<String>,
}

pub struct ResponseView {
    pub id: Seq<char>,
    pub ok: bool,
    pub error: Option<Seq<char>>,
    pub data: Option<Seq<char>>,
}

impl View for ResponseEnvelope {
    type V = ResponseView;

    open spec fn view(&self) -> ResponseView {
        ResponseView {
            id: self.id@,
            ok: self.ok,
            error: text::opt_view(self.error),
            data: text::opt_view(self.data),
        }
    }
}

pub open spec fn ok_response(id: Seq<char>) -> ResponseView {
    ResponseView { id, ok: true, error: None, data: None }
}

pub open spec fn data_response(id: Seq<char>, data: Seq<char>) -> ResponseView {
    ResponseView { id, ok: true, error: None, data: Some(data) }
}

pub open spec fn error_response(id: Seq<char>, message: Seq<char>) -> ResponseView {
    ResponseView { id, ok: false, error: Some(message), data: None }
}

/// A response as compact JSON; error and data only where there are any.
pub open spec fn response_text(r: ResponseView) -> Seq<char> {
    "{\"id\":"@ + json::string_literal(r.id) + ",\"ok\":"@ + json::bool_text(r.ok) + match r.error {
        Some(e) => ",\"error\":"@ + json::string_literal(e),
        None => Seq::empty(),
    } + match r.data {
        Some(d) => ",\"data\":"@ + d,
        None => Seq::empty(),
    } + "}"@
}

impl ResponseEnvelope {
    /// Build a success response with no data.
    pub fn ok(id: &str) -> (r: Self)
        ensures
            r@ == ok_response(id@),
    {
        ResponseEnvelope { id: owned(id), ok: true, error: None, data: None }
    }

    /// Build a success response with a data payload.
    pub fn ok_data(id: &str, data: String) -> (r: Self)
        ensures
            r@ == data_response(id@, data@),
    {
        ResponseEnvelope { id: owned(id), ok: true, error: None, data: Some(data) }
    }

    /// Build an error response.
    pub fn err(id: &str, msg: &str) -> (r: Self)
        ensures
            r@ == error_response(id@, msg@),
    {
        ResponseEnvelope { id: owned(id), ok: false, error: Some(owned(msg)), data: None }
    }

    /// Serialize to a compact JSON string (no trailing newline). Where the data is
    /// a line, so is the response.
    pub fn to_json(&self) -> (r: IpcResult<String>)
        ensures
            r matches Ok(s) && s@ == response_text(self@) && ((self@.data matches Some(d)
                ==> json::is_line(d)) ==> json::is_line(s@)),
    {
        let id_literal = json_string(self.id.as_str());
        let mut s = owned("{\"id\":");
        s.append(id_literal.as_str());
        s.append(",\"ok\":");
        s.append(bool_of(self.ok));
        proof {
            reveal_strlit("{\"id\":");
            reveal_strlit(",\"ok\":");
            reveal_strlit("true");
            reveal_strlit("false");
            reveal_strlit(",\"error\":");
            reveal_strlit(",\"data\":");
            reveal_strlit("}");
            json::lemma_line_add("{\"id\":"@, id_literal@);
            json::lemma_line_add("{\"id\":"@ + id_literal@, ",\"ok\":"@);
            json::lemma_line_add(
                "{\"id\":"@ + id_literal@ + ",\"ok\":"@,
                json::bool_text(self.ok),
            );
        }
        let ghost head = s@;
        match &self.error {
            Some(e) => {
                let literal = json_string(e.as_str());
                s.append(",\"error\":");
                s.append(literal.as_str());
                proof {
                    json::lemma_line_add(",\"error\":"@, literal@);
                    json::lemma_line_add(head, ",\"error\":"@ + literal@);
                    assert(s@ =~= head + (",\"error\":"@ + literal@));
                }
            },
            None => {
                assert(s@ =~= head + Seq::<char>::empty());
            },
        }
        let ghost middle = s@;
        match &self.data {
            Some(d) => {
                s.append(",\"data\":");
                s.append(d.as_str());
                proof {
                    if json::is_line(d@) {
                        json::lemma_line_add(",\"data\":"@, d@);
                        json::lemma_line_add(middle, ",\"data\":"@ + d@);
                    }
                    assert(s@ =~= middle + (",\"data\":"@ + d@));
                }
            },
            None => {
                assert(s@ =~= middle + Seq::<char>::empty());
            },
        }
        let ghost tail = s@;
        s.append("}");
        proof {
            if json::is_line(tail) {
                json::lemma_line_add(tail, "}"@);
            }
        }
        Ok(s)
    }
}

// ---------------------------------------------------------------------------
// Round-trip helpers
// ---------------------------------------------------------------------------
/// The typed command and correlation id of a parsed line, or why it has none.
pub fn parse_command(parsed: IpcResult<CommandEnvelope>) -> (r: IpcResult<(IpcCommand, String)>)
    ensures
        match parsed {
            Err(e) => r == Err::<(IpcCommand, String), IpcError>(e),
            Ok(env) => match r {
                Ok((cmd, id)) => id@ == env.id@ && means(
                    env.cmd@,
                    env.payload,
                    u64_member(env.payload@, "device_index"@),
                    Ok(cmd),
                ),
                Err(e) => means(
                    env.cmd@,
                    env.payload,
                    u64_member(env.payload@, "device_index"@),
                    Err(e),
                ),
            },
        },
{
    match parsed {
        Err(e) => Err(e),
        Ok(env) => match IpcCommand::from_envelope(&env) {
            Ok(cmd) => Ok((cmd, env.id)),
            Err(e) => Err(e),
        },
    }
}

/// Serialise a response envelope to a raw JSON string.
pub fn serialize_response(resp: &ResponseEnvelope) -> (r: IpcResult<String>)
    ensures
        r matches Ok(s) && s@ == response_text(resp@),
{
    resp.to_json()
}

// ---------------------------------------------------------------------------
// Laws
// ---------------------------------------------------------------------------
proof fn lemma_names()
    ensures
        "start_recording"@.len() == 15 && "start_recording"@[0] == 's',
        "stop_recording"@.len() == 14,
        "pause_recording"@.len() == 15 && "pause_recording"@[0] == 'p',
        "resume_recording"@.len() == 16,
        "get_status"@.len() == 10 && "get_status"@[0] == 'g',
        "subscribe_telemetry"@.len() == 19,
        "set_device"@.len() == 10 && "set_device"@[0] == 's',
        "update_config"@.len() == 13,
        "shutdown"@.len() == 8,
        "health"@.len() == 6,
        "stats"@.len() == 5,
{
    reveal_strlit("start_recording");
    reveal_strlit("stop_recording");
    reveal_strlit("pause_recording");
    reveal_strlit("resume_recording");
    reveal_strlit("get_status");
    reveal_strlit("subscribe_telemetry");
    reveal_strlit("set_device");
    reveal_strlit("update_config");
    reveal_strlit("shutdown");
    reveal_strlit("health");
    reveal_strlit("stats");
}

/// Each command has one name: a line means it exactly where it bears that name.
pub proof fn commands_have_one_name(
    cmd: Seq<char>,
    payload: String,
    index: Option<u64>,
    r: IpcResult<IpcCommand>,
)
    requires
        means(cmd, payload, index, r),
    ensures
        r is Ok && r->Ok_0 is StartRecording <==> cmd == "start_recording"@,
        r is Ok && r->Ok_0 is StopRecording <==> cmd == "stop_recording"@,
        r is Ok && r->Ok_0 is PauseRecording <==> cmd == "pause_recording"@,
        r is Ok && r->Ok_0 is ResumeRecording <==> cmd == "resume_recording"@,
        r is Ok && r->Ok_0 is GetStatus <==> cmd == "get_status"@,
        r is Ok && r->Ok_0 is SubscribeTelemetry <==> cmd == "subscribe_telemetry"@,
        r is Ok && r->Ok_0 is SetDevice <==> cmd == "set_device"@ && index is Some,
        r is Ok && r->Ok_0 is UpdateConfig <==> cmd == "update_config"@,
        r is Ok && r->Ok_0 is Shutdown <==> cmd == "shutdown"@,
        r is Ok && r->Ok_0 is Health <==> cmd == "health"@,
        r is Ok && r->Ok_0 is Stats <==> cmd == "stats"@,
{
    lemma_names();
}

/// A device is named by its index, a patch is the payload, a device that is set must be
/// named, and a name that no command has is told back.
pub proof fn payloads_reach_their_command(
    cmd: Seq<char>,
    payload: String,
    index: Option<u64>,
    r: IpcResult<IpcCommand>,
)
    requires
        means(cmd, payload, index, r),
        index matches Some(n) ==> n <= u32::MAX,
    ensures
        r matches Ok(IpcCommand::StartRecording { device_index }) ==> match index {
            Some(n) => device_index is Some && device_index->0 == n,
            None => device_index is None,
        },
        r matches Ok(IpcCommand::SetDevice { device_index }) ==> index is Some && device_index
            == index->0,
        r matches Ok(IpcCommand::UpdateConfig { patch }) ==> patch@ == payload@,
        cmd == "set_device"@ && index is None ==> r is Err && r->Err_0 is Serialization,
        r is Err && r->Err_0 is UnknownCommand ==> r->Err_0->UnknownCommand_0@ == cmd,
        r is Err ==> r->Err_0 is UnknownCommand || cmd == "set_device"@,
{
    lemma_names();
}

/// A response is a success exactly where it has no error, and carries what it was made
/// of.
pub proof fn responses_carry_their_parts(id: Seq<char>, data: Seq<char>, message: Seq<char>)
    ensures
        ok_response(id).id == id && ok_response(id).ok && ok_response(id).error is None
            && ok_response(id).data is None,
        data_response(id, data).id == id && data_response(id, data).ok && data_response(
            id,
            data,
        ).error is None && data_response(id, data).data == Some(data),
        error_response(id, message).id == id && !error_response(id, message).ok
            && error_response(id, message).error == Some(message) && error_response(
            id,
            message,
        ).data is None,
{
}

/// A success is told with its identifier.
pub proof fn successes_are_told(id: Seq<char>)
    ensures
        json::tells(
            response_text(ok_response(id)),
            seq![
                json::Member { key: "id"@, value: json::string_literal(id) },
                json::Member { key: "ok"@, value: json::bool_text(true) },
            ],
        ),
{
    let r = ok_response(id);
    assert(response_text(r) =~= "{\"id\":"@ + json::string_literal(id) + ",\"ok\":"@ + json::bool_text(true) + "}"@);
    let b0 = Seq::<char>::empty();
    assert(b0 + "{\"id\":"@ =~= "{\"id\":"@);
    let m0 = Seq::<json::Member>::empty();
    assert(json::opens_member("{\"id\":"@, "id"@)) by {
        reveal_strlit("{\"id\":");
        reveal_strlit("id");
    }
    assert(",\"ok\":"@.len() >= 1 && (",\"ok\":"@[0] == ',' || ",\"ok\":"@[0] == '}')) by {
        reveal_strlit(",\"ok\":");
    }
    json::lemma_tells_next(b0, m0, "{\"id\":"@, "id"@, json::string_literal(id), ",\"ok\":"@);
    let m1 = m0.push(json::Member { key: "id"@, value: json::string_literal(id) });
    let b1 = "{\"id\":"@ + json::string_literal(id);
    assert(json::opens_member(",\"ok\":"@, "ok"@)) by {
        reveal_strlit(",\"ok\":");
        reveal_strlit("ok");
    }
    assert("}"@.len() >= 1 && ("}"@[0] == ',' || "}"@[0] == '}')) by {
        reveal_strlit("}");
    }
    json::lemma_tells_next(b1, m1, ",\"ok\":"@, "ok"@, json::bool_text(true), "}"@);
    let m2 = m1.push(json::Member { key: "ok"@, value: json::bool_text(true) });
    let b2 = b1 + ",\"ok\":"@ + json::bool_text(true);
    assert(m2 =~= seq![
        json::Member { key: "id"@, value: json::string_literal(id) },
        json::Member { key: "ok"@, value: json::bool_text(true) },
    ]);
}

/// Data is told with the success that it belongs to.
pub proof fn data_is_told(id: Seq<char>, data: Seq<char>)
    ensures
        json::tells(
            response_text(data_response(id, data)),
            seq![
                json::Member { key: "id"@, value: json::string_literal(id) },
                json::Member { key: "ok"@, value: json::bool_text(true) },
                json::Member { key: "data"@, value: data },
            ],
        ),
{
    let r = data_response(id, data);
    assert(response_text(r) =~= "{\"id\":"@ + json::string_literal(id) + ",\"ok\":"@ + json::bool_text(true) + ",\"data\":"@ + data + "}"@);
    let b0 = Seq::<char>::empty();
    assert(b0 + "{\"id\":"@ =~= "{\"id\":"@);
    let m0 = Seq::<json::Member>::empty();
    assert(json::opens_member("{\"id\":"@, "id"@)) by {
        reveal_strlit("{\"id\":");
        reveal_strlit("id");
    }
    assert(",\"ok\":"@.len() >= 1 && (",\"ok\":"@[0] == ',' || ",\"ok\":"@[0] == '}')) by {
        reveal_strlit(",\"ok\":");
    }
    json::lemma_tells_next(b0, m0, "{\"id\":"@, "id"@, json::string_literal(id), ",\"ok\":"@);
    let m1 = m0.push(json::Member { key: "id"@, value: json::string_literal(id) });
    let b1 = "{\"id\":"@ + json::string_literal(id);
    assert(json::opens_member(",\"ok\":"@, "ok"@)) by {
        reveal_strlit(",\"ok\":");
        reveal_strlit("ok");
    }
    assert(",\"data\":"@.len() >= 1 && (",\"data\":"@[0] == ',' || ",\"data\":"@[0] == '}')) by {
        reveal_strlit(",\"data\":");
    }
    json::lemma_tells_next(b1, m1, ",\"ok\":"@, "ok"@, json::bool_text(true), ",\"data\":"@);
    let m2 = m1.push(json::Member { key: "ok"@, value: json::bool_text(true) });
    let b2 = b1 + ",\"ok\":"@ + json::bool_text(true);
    assert(json::opens_member(",\"data\":"@, "data"@)) by {
        reveal_strlit(",\"data\":");
        reveal_strlit("data");
    }
    assert("}"@.len() >= 1 && ("}"@[0] == ',' || "}"@[0] == '}')) by {
        reveal_strlit("}");
    }
    json::lemma_tells_next(b2, m2, ",\"data\":"@, "data"@, data, "}"@);
    let m3 = m2.push(json::Member { key: "data"@, value: data });
    let b3 = b2 + ",\"data\":"@ + data;
    assert(m3 =~= seq![
        json::Member { key: "id"@, value: json::string_literal(id) },
        json::Member { key: "ok"@, value: json::bool_text(true) },
        json::Member { key: "data"@, value: data },
    ]);
}

/// An error is told with the failure that it belongs to.
pub proof fn errors_are_told(id: Seq<char>, message: Seq<char>)
    ensures
        json::tells(
            response_text(error_response(id, message)),
            seq![
                json::Member { key: "id"@, value: json::string_literal(id) },
                json::Member { key: "ok"@, value: json::bool_text(false) },
                json::Member { key: "error"@, value: json::string_literal(message) },
            ],
        ),
{
    let r = error_response(id, message);
    assert(response_text(r) =~= "{\"id\":"@ + json::string_literal(id) + ",\"ok\":"@ + json::bool_text(false) + ",\"error\":"@ + json::string_literal(message) + "}"@);
    let b0 = Seq::<char>::empty();
    assert(b0 + "{\"id\":"@ =~= "{\"id\":"@);
    let m0 = Seq::<json::Member>::empty();
    assert(json::opens_member("{\"id\":"@, "id"@)) by {
        reveal_strlit("{\"id\":");
        reveal_strlit("id");
    }
    assert(",\"ok\":"@.len() >= 1 && (",\"ok\":"@[0] == ',' || ",\"ok\":"@[0] == '}')) by {
        reveal_strlit(",\"ok\":");
    }
    json::lemma_tells_next(b0, m0, "{\"id\":"@, "id"@, json::string_literal(id), ",\"ok\":"@);
    let m1 = m0.push(json::Member { key: "id"@, value: json::string_literal(id) });
    let b1 = "{\"id\":"@ + json::string_literal(id);
    assert(json::opens_member(",\"ok\":"@, "ok"@)) by {
        reveal_strlit(",\"ok\":");
        reveal_strlit("ok");
    }
    assert(",\"error\":"@.len() >= 1 && (",\"error\":"@[0] == ',' || ",\"error\":"@[0] == '}')) by {
        reveal_strlit(",\"error\":");
    }
    json::lemma_tells_next(b1, m1, ",\"ok\":"@, "ok"@, json::bool_text(false), ",\"error\":"@);
    let m2 = m1.push(json::Member { key: "ok"@, value: json::bool_text(false) });
    let b2 = b1 + ",\"ok\":"@ + json::bool_text(false);
    assert(json::opens_member(",\"error\":"@, "error"@)) by {
        reveal_strlit(",\"error\":");
        reveal_strlit("error");
    }
    assert("}"@.len() >= 1 && ("}"@[0] == ',' || "}"@[0] == '}')) by {
        reveal_strlit("}");
    }
    json::lemma_tells_next(b2, m2, ",\"error\":"@, "error"@, json::string_literal(message), "}"@);
    let m3 = m2.push(json::Member { key: "error"@, value: json::string_literal(message) });
    let b3 = b2 + ",\"error\":"@ + json::string_literal(message);
    assert(m3 =~= seq![
        json::Member { key: "id"@, value: json::string_literal(id) },
        json::Member { key: "ok"@, value: json::bool_text(false) },
        json::Member { key: "error"@, value: json::string_literal(message) },
    ]);
}

/// A line that holds no envelope is told as bad JSON, with the detail.
pub proof fn bad_json_is_told(detail: &str, e: IpcError)
    requires
        call_ensures(invalid_json, (detail,), e),
    ensures
        e is Serialization,
        e->Serialization_0@ == "invalid JSON: "@ + detail@,
{
}

/// A line with an envelope is taken under its identifier; what is wrong with it, or with the
/// line, is handed on.
pub proof fn envelopes_keep_their_id(env: CommandEnvelope, r: IpcResult<(IpcCommand, String)>)
    requires
        call_ensures(parse_command, (Ok(env),), r),
    ensures
        r matches Ok((cmd, id)) ==> id@ == env.id@,
        env.cmd@ == "stop_recording"@ ==> (r matches Ok((cmd, id))
            && cmd is StopRecording),
        env.cmd@ == "shutdown"@ ==> (r matches Ok((cmd, id)) && cmd is Shutdown),
{
    lemma_names();
}

} // verus!
