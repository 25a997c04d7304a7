//! Messages to and from HRT, the daemon that watches and regulates the program.
use crate::json;
use crate::json::{extend, extend_literal, extend_number};
use crate::state::RecordingState;
use crate::text;
use crate::text::{owned, same};
use vstd::prelude::*;

verus! {

pub const HRT_HEARTBEAT_INTERVAL_MS: u64 = 2000;

pub const HRT_RECONNECT_DELAY_MS: u64 = 5000;

/// A message received from HRT: its tag, and its other members as the text of a
/// JSON object.
#[derive(Debug)]
pub struct HrtInboundMsg {
    pub msg: String,
    pub data: String,
}

// ---------------------------------------------------------------------------
// Outside calls
// ---------------------------------------------------------------------------
/// The lower-case text that `str::to_lowercase` gives for a text.
pub uninterp spec fn lowercase(s: Seq<char>) -> Seq<char>;

/// Whether all characters are ASCII.
pub open spec fn is_ascii(s: Seq<char>) -> bool {
    forall|i: int| 0 <= i < s.len() ==> (#[trigger] s[i]) as u32 <= 127
}

/// A character with the letters `A` to `Z` made small.
pub open spec fn small(c: char) -> char {
    if 'A' <= c <= 'Z' {
        ((c as u32 + 32) as u8) as char
    } else {
        c
    }
}

/// `str::to_lowercase`: the lower-case equivalent of a text, by the tables of
/// Unicode. Of ASCII text it makes the letters `A` to `Z` small and keeps the rest.
#[verifier::external_body]
pub(crate) fn to_lowercase(s: &str) -> (r: String)
    ensures
        r@ == lowercase(s@),
        is_ascii(s@) ==> r@ == Seq::new(s@.len(), |i: int| small(s@[i])),
{
    s.to_lowercase()
}

/// The number that the object in some JSON text has under a key, written as a JSON
/// number after `serde_json` has read it as a double.
pub uninterp spec fn number_member(data: Seq<char>, key: Seq<char>) -> Option<Seq<char>>;

/// `serde_json::from_str` to a value, then `Value::get` and `Value::as_f64`, and
/// `Value::to_string` of the number: the number under a key, if the text is an
/// object that has one. What is written has no control characters.
#[verifier::external_body]
pub(crate) fn json_number_member(data: &str, key: &str) -> (r: Option<String>)
    ensures
        text::opt_view(r) == number_member(data@, key@),
        r matches Some(n) ==> json::is_line(n@),
{
    let value: Option<serde_json::Value> = serde_json::from_str(data).ok();
    let number = value.and_then(|v| v.get(key).and_then(|m| m.as_f64()));
    number.map(|n| serde_json::Value::from(n).to_string())
}

// ---------------------------------------------------------------------------
// Inbound messages
// ---------------------------------------------------------------------------
/// What a message makes the program do.
#[derive(Debug)]
pub struct HrtOutcome {
    /// Shut the program down.
    pub shutdown: bool,
    /// A telemetry line to emit.
    pub emit: Option<String>,
}

/// A telemetry line, its members in alphabetical order.
pub open spec fn event_text(event: Seq<char>, ts_ms: u64, data: Seq<char>) -> Seq<char> {
    "{\"data\":"@ + data + ",\"event\":\""@ + event + "\",\"ts_ms\":"@ + text::decimal(ts_ms as nat)
        + "}"@
}

fn event_line(event: &str, ts_ms: u64, data: &str) -> (s: String)
    ensures
        s@ == event_text(event@, ts_ms, data@),
        json::is_line(event@) && json::is_line(data@) ==> json::is_line(s@),
{
    proof {
        reveal_strlit("{\"data\":");
        reveal_strlit(",\"event\":\"");
        reveal_strlit("\",\"ts_ms\":");
        reveal_strlit("}");
    }
    let mut s = owned("{\"data\":");
    extend(&mut s, data);
    extend(&mut s, ",\"event\":\"");
    extend(&mut s, event);
    extend(&mut s, "\",\"ts_ms\":");
    extend_number(&mut s, ts_ms);
    extend(&mut s, "}");
    s
}

pub open spec fn is_stop_tag(tag: Seq<char>) -> bool {
    tag == "e-stop"@ || tag == "estop"@ || tag == "emergency_stop"@
}

pub open spec fn is_ack_tag(tag: Seq<char>) -> bool {
    tag == "ack"@ || tag == "acknowledge"@
}

/// The line that a message calls for; `tag` is its tag in lower case and `level` the
/// throttle level that it holds.
pub open spec fn emitted(
    tag: Seq<char>,
    level: Option<Seq<char>>,
    msg: HrtInboundMsg,
    ts_ms: u64,
) -> Option<Seq<char>> {
    if tag == "throttle"@ {
        match level {
            Some(l) => Some(event_text("hrt_throttle"@, ts_ms, "{\"level\":"@ + l + "}"@)),
            None => None,
        }
    } else if is_stop_tag(tag) {
        Some(event_text("hrt_emergency_stop"@, ts_ms, msg.data@))
    } else if is_ack_tag(tag) {
        Some(event_text("hrt_ack"@, ts_ms, msg.data@))
    } else {
        Some(
            event_text(
                "hrt_unknown"@,
                ts_ms,
                "{\"msg\":"@ + json::string_literal(msg.msg@) + ",\"payload\":"@ + msg.data@ + "}"@,
            ),
        )
    }
}

/// What a message makes the program do; `tag` is its tag in lower case and `level`
/// the throttle level that it holds.
pub fn act_on(tag: &str, level: Option<String>, msg: &HrtInboundMsg, ts_ms: u64) -> (r: HrtOutcome)
    ensures
        r.shutdown == is_stop_tag(tag@),
        text::opt_view(r.emit) == emitted(tag@, text::opt_view(level), *msg, ts_ms),
        json::is_line(msg.data@) && (level matches Some(l) ==> json::is_line(l@)) ==> (
        r.emit matches Some(line) ==> json::is_line(line@)),
{
    proof {
        reveal_strlit("hrt_throttle");
        reveal_strlit("hrt_emergency_stop");
        reveal_strlit("hrt_ack");
        reveal_strlit("hrt_unknown");
        reveal_strlit("{\"level\":");
        reveal_strlit("{\"msg\":");
        reveal_strlit(",\"payload\":");
        reveal_strlit("}");
    }
    if same(tag, "throttle") {
        proof {
            reveal_strlit("throttle");
            reveal_strlit("e-stop");
            reveal_strlit("estop");
            reveal_strlit("emergency_stop");
            assert("throttle"@.len() != "e-stop"@.len());
            assert("throttle"@.len() != "estop"@.len());
            assert("throttle"@.len() != "emergency_stop"@.len());
        }
        match level {
            Some(l) => {
                let mut data = owned("{\"level\":");
                extend(&mut data, l.as_str());
                extend(&mut data, "}");
                HrtOutcome {
                    shutdown: false,
                    emit: Some(event_line("hrt_throttle", ts_ms, data.as_str())),
                }
            },
            None => HrtOutcome { shutdown: false, emit: None },
        }
    } else if same(tag, "e-stop") || same(tag, "estop") || same(tag, "emergency_stop") {
        HrtOutcome {
            shutdown: true,
            emit: Some(event_line("hrt_emergency_stop", ts_ms, msg.data.as_str())),
        }
    } else if same(tag, "ack") || same(tag, "acknowledge") {
        HrtOutcome {
            shutdown: false,
            emit: Some(event_line("hrt_ack", ts_ms, msg.data.as_str())),
        }
    } else {
        let mut data = owned("{\"msg\":");
        extend_literal(&mut data, msg.msg.as_str());
        extend(&mut data, ",\"payload\":");
        extend(&mut data, msg.data.as_str());
        extend(&mut data, "}");
        HrtOutcome {
            shutdown: false,
            emit: Some(event_line("hrt_unknown", ts_ms, data.as_str())),
        }
    }
}

/// The throttle level of a message: the first number among its members `level`,
/// `value` and `percent`.
pub open spec fn level_text(data: Seq<char>) -> Option<Seq<char>> {
    if number_member(data, "level"@) is Some {
        number_member(data, "level"@)
    } else if number_member(data, "value"@) is Some {
        number_member(data, "value"@)
    } else {
        number_member(data, "percent"@)
    }
}

fn level_of(data: &str) -> (r: Option<String>)
    ensures
        text::opt_view(r) == level_text(data@),
        r matches Some(l) ==> json::is_line(l@),
{
    let level = json_number_member(data, "level");
    if level.is_some() {
        return level;
    }
    let value = json_number_member(data, "value");
    if value.is_some() {
        return value;
    }
    json_number_member(data, "percent")
}

/// Handle an inbound HRT message: what it makes the program do.
pub fn handle_inbound_message(msg: &HrtInboundMsg, ts_ms: u64) -> (r: HrtOutcome)
    ensures
        r.shutdown == is_stop_tag(lowercase(msg.msg@)),
        text::opt_view(r.emit) == emitted(
            lowercase(msg.msg@),
            level_text(msg.data@),
            *msg,
            ts_ms,
        ),
        json::is_line(msg.data@) ==> (r.emit matches Some(line) ==> json::is_line(line@)),
{
    let tag = to_lowercase(msg.msg.as_str());
    let level = level_of(msg.data.as_str());
    act_on(tag.as_str(), level, msg, ts_ms)
}

/// An emergency stop is always reported.
pub proof fn emergency_stop_is_reported(
    tag: Seq<char>,
    level: Option<Seq<char>>,
    msg: HrtInboundMsg,
    ts_ms: u64,
)
    requires
        is_stop_tag(tag),
    ensures
        emitted(tag, level, msg, ts_ms) == Some(
            event_text("hrt_emergency_stop"@, ts_ms, msg.data@),
        ),
{
    reveal_strlit("throttle");
    reveal_strlit("e-stop");
    reveal_strlit("estop");
    reveal_strlit("emergency_stop");
    assert("throttle"@.len() != "e-stop"@.len());
    assert("throttle"@.len() != "estop"@.len());
    assert("throttle"@.len() != "emergency_stop"@.len());
}

// ---------------------------------------------------------------------------
// Outbound messages
// ---------------------------------------------------------------------------
/// The line with which the program registers.
pub fn register_line() -> (s: String)
    ensures
        s@
            == "{\"msg\":\"register\",\"agent_id\":\"bsm\",\"version\":\"0.1.0\",\"capabilities\":[\"audio_record\",\"audio_encode\"]}\n"@,
{
    owned(
        "{\"msg\":\"register\",\"agent_id\":\"bsm\",\"version\":\"0.1.0\",\"capabilities\":[\"audio_record\",\"audio_encode\"]}\n",
    )
}

pub open spec fn state_text(state: RecordingState) -> Seq<char> {
    match state {
        RecordingState::Idle => "idle"@,
        RecordingState::Recording => "recording"@,
        RecordingState::Paused => "paused"@,
        RecordingState::Stopping => "stopping"@,
        RecordingState::Error => "error"@,
    }
}

/// The line that tells HRT that the program is alive.
pub open spec fn heartbeat_text(state: RecordingState, uptime_ms: u64, ts_ms: u64) -> Seq<char> {
    "{\"msg\":\"heartbeat\",\"agent_id\":\"bsm\",\"state\":\""@ + state_text(state)
        + "\",\"uptime_ms\":"@ + text::decimal(uptime_ms as nat) + ",\"ts_ms\":"@ + text::decimal(
        ts_ms as nat,
    ) + "}\n"@
}

/// See [`heartbeat_text`].
pub fn heartbeat_line(state: RecordingState, uptime_ms: u64, ts_ms: u64) -> (s: String)
    ensures
        s@ == heartbeat_text(state, uptime_ms, ts_ms),
        json::is_reply_line(s@),
{
    proof {
        reveal_strlit("idle");
        reveal_strlit("recording");
        reveal_strlit("paused");
        reveal_strlit("stopping");
        reveal_strlit("error");
        reveal_strlit("{\"msg\":\"heartbeat\",\"agent_id\":\"bsm\",\"state\":\"");
        reveal_strlit("\",\"uptime_ms\":");
        reveal_strlit(",\"ts_ms\":");
        reveal_strlit("}\n");
    }
    let name: &str = match state {
        RecordingState::Idle => "idle",
        RecordingState::Recording => "recording",
        RecordingState::Paused => "paused",
        RecordingState::Stopping => "stopping",
        RecordingState::Error => "error",
    };
    let mut s = owned("{\"msg\":\"heartbeat\",\"agent_id\":\"bsm\",\"state\":\"");
    extend(&mut s, name);
    extend(&mut s, "\",\"uptime_ms\":");
    extend_number(&mut s, uptime_ms);
    extend(&mut s, ",\"ts_ms\":");
    extend_number(&mut s, ts_ms);
    proof {
        json::lemma_reply_line(s@, seq!['}']);
        assert("}\n"@ =~= seq!['}'].push('\n'));
    }
    s.append("}\n");
    s
}

// ---------------------------------------------------------------------------
// Loops
// ---------------------------------------------------------------------------
/// What the program hears while it is connected to HRT.
#[derive(Debug)]
pub enum SessionEvent {
    /// The program shuts down.
    Shutdown,
    /// It is time for a heartbeat.
    Tick { state: RecordingState, uptime_ms: u64, ts_ms: u64 },
    /// A heartbeat could not be written.
    WriteFailed,
    /// A line came in; it holds a message or is no valid one.
    Line(Option<HrtInboundMsg>),
    /// The connection ended.
    Closed,
}

/// What the program does next while it is connected to HRT.
#[derive(Debug)]
pub enum SessionStep {
    /// Leave the session.
    End,
    /// Write this line.
    Write(String),
    /// Hand on this message.
    Forward(HrtInboundMsg),
    /// Go on waiting.
    Wait,
}

/// The step that an event calls for.
pub fn session_step(event: SessionEvent) -> (r: SessionStep)
    ensures
        match event {
            SessionEvent::Shutdown | SessionEvent::WriteFailed | SessionEvent::Closed => r
                == SessionStep::End,
            SessionEvent::Tick { state, uptime_ms, ts_ms } => r matches SessionStep::Write(s) && s@
                == heartbeat_text(state, uptime_ms, ts_ms),
            SessionEvent::Line(Some(m)) => r == SessionStep::Forward(m),
            SessionEvent::Line(None) => r == SessionStep::Wait,
        },
{
    match event {
        SessionEvent::Shutdown => SessionStep::End,
        SessionEvent::WriteFailed => SessionStep::End,
        SessionEvent::Closed => SessionStep::End,
        SessionEvent::Tick { state, uptime_ms, ts_ms } => SessionStep::Write(
            heartbeat_line(state, uptime_ms, ts_ms),
        ),
        SessionEvent::Line(Some(m)) => SessionStep::Forward(m),
        SessionEvent::Line(None) => SessionStep::Wait,
    }
}

/// What the bridge hears.
#[derive(Debug)]
pub enum BridgeEvent {
    Shutdown,
    Message(HrtInboundMsg),
    /// Messages were lost.
    Lagged,
    /// No more messages will come.
    Closed,
}

/// What the bridge does next.
#[derive(Debug)]
pub enum BridgeStep {
    Stop,
    Route(HrtInboundMsg),
    Wait,
}

/// The step that an event calls for: the bridge survives the loss of messages.
pub fn bridge_step(event: BridgeEvent) -> (r: BridgeStep)
    ensures
        r == match event {
            BridgeEvent::Shutdown => BridgeStep::Stop,
            BridgeEvent::Message(m) => BridgeStep::Route(m),
            BridgeEvent::Lagged => BridgeStep::Wait,
            BridgeEvent::Closed => BridgeStep::Stop,
        },
{
    match event {
        BridgeEvent::Shutdown => BridgeStep::Stop,
        BridgeEvent::Message(m) => BridgeStep::Route(m),
        BridgeEvent::Lagged => BridgeStep::Wait,
        BridgeEvent::Closed => BridgeStep::Stop,
    }
}

// ---------------------------------------------------------------------------
// Laws
// ---------------------------------------------------------------------------
/// A telemetry line tells its data, its event and its time.
pub proof fn events_tell_all(event: Seq<char>, ts_ms: u64, data: Seq<char>)
    ensures
        json::tells(
            event_text(event, ts_ms, data),
            seq![
                json::Member { key: "data"@, value: data },
                json::Member { key: "event"@, value: json::quoted(event) },
                json::Member { key: "ts_ms"@, value: text::decimal(ts_ms as nat) },
            ],
        ),
{
    let b0 = Seq::<char>::empty();
    assert(b0 + "{\"data\":"@ =~= "{\"data\":"@);
    let m0 = Seq::<json::Member>::empty();
    assert(json::opens_member("{\"data\":"@, "data"@)) by {
        reveal_strlit("{\"data\":");
        reveal_strlit("data");
    }
    assert(",\"event\":\""@.len() >= 1
        && (",\"event\":\""@[0] == ',' || ",\"event\":\""@[0] == '}')) by {
        reveal_strlit(",\"event\":\"");
    }
    json::lemma_tells_next(b0, m0, "{\"data\":"@, "data"@, data, ",\"event\":\""@);
    let m1 = m0.push(json::Member { key: "data"@, value: data });
    let b1 = "{\"data\":"@ + data;
    assert(json::opens_quoted(",\"event\":\""@, "event"@)) by {
        reveal_strlit(",\"event\":\"");
        reveal_strlit("event");
    }
    assert("\",\"ts_ms\":"@.len() >= 2
        && "\",\"ts_ms\":"@[0] == '"'
        && ("\",\"ts_ms\":"@[1] == ',' || "\",\"ts_ms\":"@[1] == '}')) by {
        reveal_strlit("\",\"ts_ms\":");
    }
    json::lemma_tells_quoted(b1, m1, ",\"event\":\""@, "event"@, event, "\",\"ts_ms\":"@);
    let m2 = m1.push(json::Member { key: "event"@, value: json::quoted(event) });
    let b2 = b1 + ",\"event\":\""@ + event;
    assert(json::opens_member("\",\"ts_ms\":"@, "ts_ms"@)) by {
        reveal_strlit("\",\"ts_ms\":");
        reveal_strlit("ts_ms");
    }
    assert("}"@.len() >= 1 && ("}"@[0] == ',' || "}"@[0] == '}')) by {
        reveal_strlit("}");
    }
    json::lemma_tells_next(b2, m2, "\",\"ts_ms\":"@, "ts_ms"@, text::decimal(ts_ms as nat), "}"@);
    let m3 = m2.push(json::Member { key: "ts_ms"@, value: text::decimal(ts_ms as nat) });
    let b3 = b2 + "\",\"ts_ms\":"@ + text::decimal(ts_ms as nat);
    assert(m3 =~= seq![
        json::Member { key: "data"@, value: data },
        json::Member { key: "event"@, value: json::quoted(event) },
        json::Member { key: "ts_ms"@, value: text::decimal(ts_ms as nat) },
    ]);
}

/// A heartbeat tells who sends it, the state, how long the program runs, and the time.
pub proof fn heartbeats_tell_all(state: RecordingState, uptime_ms: u64, ts_ms: u64)
    ensures
        json::tells(
            heartbeat_text(state, uptime_ms, ts_ms),
            seq![
                json::Member { key: "msg"@, value: "\"heartbeat\""@ },
                json::Member { key: "agent_id"@, value: "\"bsm\""@ },
                json::Member { key: "state"@, value: json::quoted(state_text(state)) },
                json::Member { key: "uptime_ms"@, value: text::decimal(uptime_ms as nat) },
                json::Member { key: "ts_ms"@, value: text::decimal(ts_ms as nat) },
            ],
        ),
{
    let b0 = Seq::<char>::empty();
    assert(b0 + "{\"msg\":\"heartbeat\",\"agent_id\":\"bsm\",\"state\":\""@ =~= "{\"msg\":\"heartbeat\",\"agent_id\":\"bsm\",\"state\":\""@);
    let m0 = Seq::<json::Member>::empty();
    assert(json::member_at(
        "{\"msg\":\"heartbeat\",\"agent_id\":\"bsm\",\"state\":\""@,
        1,
        json::Member { key: "msg"@, value: "\"heartbeat\""@ },
    )) by {
        reveal_strlit("{\"msg\":\"heartbeat\",\"agent_id\":\"bsm\",\"state\":\"");
        reveal_strlit("msg");
        reveal_strlit("\"heartbeat\"");
    }
    json::lemma_tells_also(
        b0,
        "{\"msg\":\"heartbeat\",\"agent_id\":\"bsm\",\"state\":\""@,
        m0,
        json::Member { key: "msg"@, value: "\"heartbeat\""@ },
        1,
    );
    let m1 = m0.push(json::Member { key: "msg"@, value: "\"heartbeat\""@ });
    assert(json::member_at(
        "{\"msg\":\"heartbeat\",\"agent_id\":\"bsm\",\"state\":\""@,
        19,
        json::Member { key: "agent_id"@, value: "\"bsm\""@ },
    )) by {
        reveal_strlit("{\"msg\":\"heartbeat\",\"agent_id\":\"bsm\",\"state\":\"");
        reveal_strlit("agent_id");
        reveal_strlit("\"bsm\"");
    }
    json::lemma_tells_also(
        b0,
        "{\"msg\":\"heartbeat\",\"agent_id\":\"bsm\",\"state\":\""@,
        m1,
        json::Member { key: "agent_id"@, value: "\"bsm\""@ },
        19,
    );
    let m2 = m1.push(json::Member { key: "agent_id"@, value: "\"bsm\""@ });
    assert(json::opens_quoted(
        "{\"msg\":\"heartbeat\",\"agent_id\":\"bsm\",\"state\":\""@,
        "state"@,
    )) by {
        reveal_strlit("{\"msg\":\"heartbeat\",\"agent_id\":\"bsm\",\"state\":\"");
        reveal_strlit("state");
    }
    assert("\",\"uptime_ms\":"@.len() >= 2
        && "\",\"uptime_ms\":"@[0] == '"'
        && ("\",\"uptime_ms\":"@[1] == ',' || "\",\"uptime_ms\":"@[1] == '}')) by {
        reveal_strlit("\",\"uptime_ms\":");
    }
    json::lemma_tells_quoted(
        b0,
        m2,
        "{\"msg\":\"heartbeat\",\"agent_id\":\"bsm\",\"state\":\""@,
        "state"@,
        state_text(state),
        "\",\"uptime_ms\":"@,
    );
    let m3 = m2.push(json::Member { key: "state"@, value: json::quoted(state_text(state)) });
    let b1 = "{\"msg\":\"heartbeat\",\"agent_id\":\"bsm\",\"state\":\""@ + state_text(state);
    assert(json::opens_member("\",\"uptime_ms\":"@, "uptime_ms"@)) by {
        reveal_strlit("\",\"uptime_ms\":");
        reveal_strlit("uptime_ms");
    }
    assert(",\"ts_ms\":"@.len() >= 1 && (",\"ts_ms\":"@[0] == ',' || ",\"ts_ms\":"@[0] == '}')) by {
        reveal_strlit(",\"ts_ms\":");
    }
    json::lemma_tells_next(
        b1,
        m3,
        "\",\"uptime_ms\":"@,
        "uptime_ms"@,
        text::decimal(uptime_ms as nat),
        ",\"ts_ms\":"@,
    );
    let m4 = m3.push(json::Member { key: "uptime_ms"@, value: text::decimal(uptime_ms as nat) });
    let b2 = b1 + "\",\"uptime_ms\":"@ + text::decimal(uptime_ms as nat);
    assert(json::opens_member(",\"ts_ms\":"@, "ts_ms"@)) by {
        reveal_strlit(",\"ts_ms\":");
        reveal_strlit("ts_ms");
    }
    assert("}\n"@.len() >= 1 && ("}\n"@[0] == ',' || "}\n"@[0] == '}')) by {
        reveal_strlit("}\n");
    }
    json::lemma_tells_next(b2, m4, ",\"ts_ms\":"@, "ts_ms"@, text::decimal(ts_ms as nat), "}\n"@);
    let m5 = m4.push(json::Member { key: "ts_ms"@, value: text::decimal(ts_ms as nat) });
    let b3 = b2 + ",\"ts_ms\":"@ + text::decimal(ts_ms as nat);
    assert(m5 =~= seq![
        json::Member { key: "msg"@, value: "\"heartbeat\""@ },
        json::Member { key: "agent_id"@, value: "\"bsm\""@ },
        json::Member { key: "state"@, value: json::quoted(state_text(state)) },
        json::Member { key: "uptime_ms"@, value: text::decimal(uptime_ms as nat) },
        json::Member { key: "ts_ms"@, value: text::decimal(ts_ms as nat) },
    ]);
}

/// What is told of an unknown message is its tag and its data.
pub proof fn unknown_messages_are_told(msg: Seq<char>, payload: Seq<char>)
    ensures
        json::tells(
            "{\"msg\":"@ + json::string_literal(msg) + ",\"payload\":"@ + payload + "}"@,
            seq![
                json::Member { key: "msg"@, value: json::string_literal(msg) },
                json::Member { key: "payload"@, value: payload },
            ],
        ),
{
    let b0 = Seq::<char>::empty();
    assert(b0 + "{\"msg\":"@ =~= "{\"msg\":"@);
    let m0 = Seq::<json::Member>::empty();
    assert(json::opens_member("{\"msg\":"@, "msg"@)) by {
        reveal_strlit("{\"msg\":");
        reveal_strlit("msg");
    }
    assert(",\"payload\":"@.len() >= 1
        && (",\"payload\":"@[0] == ',' || ",\"payload\":"@[0] == '}')) by {
        reveal_strlit(",\"payload\":");
    }
    json::lemma_tells_next(
        b0,
        m0,
        "{\"msg\":"@,
        "msg"@,
        json::string_literal(msg),
        ",\"payload\":"@,
    );
    let m1 = m0.push(json::Member { key: "msg"@, value: json::string_literal(msg) });
    let b1 = "{\"msg\":"@ + json::string_literal(msg);
    assert(json::opens_member(",\"payload\":"@, "payload"@)) by {
        reveal_strlit(",\"payload\":");
        reveal_strlit("payload");
    }
    assert("}"@.len() >= 1 && ("}"@[0] == ',' || "}"@[0] == '}')) by {
        reveal_strlit("}");
    }
    json::lemma_tells_next(b1, m1, ",\"payload\":"@, "payload"@, payload, "}"@);
    let m2 = m1.push(json::Member { key: "payload"@, value: payload });
    let b2 = b1 + ",\"payload\":"@ + payload;
    assert(m2 =~= seq![
        json::Member { key: "msg"@, value: json::string_literal(msg) },
        json::Member { key: "payload"@, value: payload },
    ]);
}

proof fn lemma_tags()
    ensures
        "throttle"@ != "e-stop"@ && "throttle"@ != "estop"@ && "throttle"@ != "emergency_stop"@,
        "throttle"@ != "ack"@ && "throttle"@ != "acknowledge"@,
        "e-stop"@ != "ack"@ && "e-stop"@ != "acknowledge"@,
        "estop"@ != "ack"@ && "estop"@ != "acknowledge"@,
        "emergency_stop"@ != "ack"@ && "emergency_stop"@ != "acknowledge"@,
{
    reveal_strlit("throttle");
    reveal_strlit("e-stop");
    reveal_strlit("estop");
    reveal_strlit("emergency_stop");
    reveal_strlit("ack");
    reveal_strlit("acknowledge");
    assert("throttle"@.len() == 8 && "e-stop"@.len() == 6 && "estop"@.len() == 5);
    assert("emergency_stop"@.len() == 14 && "ack"@.len() == 3 && "acknowledge"@.len() == 11);
}

/// A message shuts the program down exactly where its tag is one of an emergency stop,
/// and then the stop is told with the message's data. Nothing else shuts it down.
pub proof fn only_emergency_stops_shut_down(
    tag: &str,
    level: Option<String>,
    msg: HrtInboundMsg,
    ts_ms: u64,
    r: HrtOutcome,
)
    requires
        call_ensures(act_on, (tag, level, &msg, ts_ms), r),
    ensures
        r.shutdown <==> tag@ == "e-stop"@ || tag@ == "estop"@ || tag@ == "emergency_stop"@,
        r.shutdown ==> r.emit is Some && r.emit->0@ == event_text(
            "hrt_emergency_stop"@,
            ts_ms,
            msg.data@,
        ),
{
    lemma_tags();
}

/// A throttle message is told with its level, and not at all without one; an
/// acknowledgement is told with its data; what is unknown is told with its tag too.
pub proof fn messages_are_told(
    tag: &str,
    level: Option<String>,
    msg: HrtInboundMsg,
    ts_ms: u64,
    r: HrtOutcome,
)
    requires
        call_ensures(act_on, (tag, level, &msg, ts_ms), r),
    ensures
        tag@ == "throttle"@ ==> !r.shutdown && (r.emit is Some <==> level is Some),
        tag@ == "throttle"@ && level is Some ==> r.emit->0@ == event_text(
            "hrt_throttle"@,
            ts_ms,
            "{\"level\":"@ + level->0@ + "}"@,
        ),
        tag@ == "ack"@ || tag@ == "acknowledge"@ ==> !r.shutdown && r.emit is Some && r.emit->0@
            == event_text("hrt_ack"@, ts_ms, msg.data@),
        tag@ != "throttle"@ && tag@ != "e-stop"@ && tag@ != "estop"@ && tag@ != "emergency_stop"@
            && tag@ != "ack"@ && tag@ != "acknowledge"@ ==> !r.shutdown && r.emit is Some
            && r.emit->0@ == event_text(
            "hrt_unknown"@,
            ts_ms,
            "{\"msg\":"@ + json::string_literal(msg.msg@) + ",\"payload\":"@ + msg.data@ + "}"@,
        ),
{
    lemma_tags();
}

/// The level goes before the value and the value before the percentage; there is none
/// only where none of the three is a number.
pub proof fn levels_have_an_order(data: Seq<char>)
    ensures
        number_member(data, "level"@) is Some ==> level_text(data) == number_member(data, "level"@),
        number_member(data, "level"@) is None && number_member(data, "value"@) is Some
            ==> level_text(data) == number_member(data, "value"@),
        number_member(data, "level"@) is None && number_member(data, "value"@) is None
            ==> level_text(data) == number_member(data, "percent"@),
{
}

/// Each state is told under its own name.
pub proof fn states_have_names()
    ensures
        state_text(RecordingState::Idle) == "idle"@,
        state_text(RecordingState::Recording) == "recording"@,
        state_text(RecordingState::Paused) == "paused"@,
        state_text(RecordingState::Stopping) == "stopping"@,
        state_text(RecordingState::Error) == "error"@,
{
}

/// A session ends where the program does, where nothing can be written and where the
/// connection ends; a message is handed on as it is, and a bad line is passed over.
pub proof fn sessions_survive_bad_lines(
    m: HrtInboundMsg,
    on_message: SessionStep,
    on_bad_line: SessionStep,
    on_shutdown: SessionStep,
    on_failure: SessionStep,
    on_close: SessionStep,
)
    requires
        call_ensures(session_step, (SessionEvent::Line(Some(m)),), on_message),
        call_ensures(session_step, (SessionEvent::Line(None),), on_bad_line),
        call_ensures(session_step, (SessionEvent::Shutdown,), on_shutdown),
        call_ensures(session_step, (SessionEvent::WriteFailed,), on_failure),
        call_ensures(session_step, (SessionEvent::Closed,), on_close),
    ensures
        on_message == SessionStep::Forward(m),
        on_bad_line is Wait,
        on_shutdown is End,
        on_failure is End,
        on_close is End,
{
}

/// The bridge routes every message, survives lost ones, and stops only where the
/// program does or no more can come.
pub proof fn the_bridge_survives_lost_messages(
    m: HrtInboundMsg,
    on_message: BridgeStep,
    on_lag: BridgeStep,
    on_shutdown: BridgeStep,
    on_close: BridgeStep,
)
    requires
        call_ensures(bridge_step, (BridgeEvent::Message(m),), on_message),
        call_ensures(bridge_step, (BridgeEvent::Lagged,), on_lag),
        call_ensures(bridge_step, (BridgeEvent::Shutdown,), on_shutdown),
        call_ensures(bridge_step, (BridgeEvent::Closed,), on_close),
    ensures
        on_message == BridgeStep::Route(m),
        on_lag is Wait,
        on_shutdown is Stop,
        on_close is Stop,
{
}

/// The program registers with its name, its version and what it can do.
pub proof fn registration_tells_who_it_is(s: String)
    requires
        call_ensures(register_line, (), s),
    ensures
        json::tells(
            s@,
            seq![
                json::Member { key: "msg"@, value: "\"register\""@ },
                json::Member { key: "agent_id"@, value: "\"bsm\""@ },
                json::Member { key: "version"@, value: "\"0.1.0\""@ },
                json::Member {
                    key: "capabilities"@,
                    value: "[\"audio_record\",\"audio_encode\"]"@,
                },
            ],
        ),
{
    let b0 = Seq::<char>::empty();
    assert(b0 + "{\"msg\":\"register\",\"agent_id\":\"bsm\",\"version\":\"0.1.0\",\"capabilities\":[\"audio_record\",\"audio_encode\"]}\n"@ =~= "{\"msg\":\"register\",\"agent_id\":\"bsm\",\"version\":\"0.1.0\",\"capabilities\":[\"audio_record\",\"audio_encode\"]}\n"@);
    let m0 = Seq::<json::Member>::empty();
    assert(json::member_at(
        "{\"msg\":\"register\",\"agent_id\":\"bsm\",\"version\":\"0.1.0\",\"capabilities\":[\"audio_record\",\"audio_encode\"]}\n"@,
        1,
        json::Member { key: "msg"@, value: "\"register\""@ },
    )) by {
        reveal_strlit("{\"msg\":\"register\",\"agent_id\":\"bsm\",\"version\":\"0.1.0\",\"capabilities\":[\"audio_record\",\"audio_encode\"]}\n");
        reveal_strlit("msg");
        reveal_strlit("\"register\"");
    }
    json::lemma_tells_also(
        b0,
        "{\"msg\":\"register\",\"agent_id\":\"bsm\",\"version\":\"0.1.0\",\"capabilities\":[\"audio_record\",\"audio_encode\"]}\n"@,
        m0,
        json::Member { key: "msg"@, value: "\"register\""@ },
        1,
    );
    let m1 = m0.push(json::Member { key: "msg"@, value: "\"register\""@ });
    assert(json::member_at(
        "{\"msg\":\"register\",\"agent_id\":\"bsm\",\"version\":\"0.1.0\",\"capabilities\":[\"audio_record\",\"audio_encode\"]}\n"@,
        18,
        json::Member { key: "agent_id"@, value: "\"bsm\""@ },
    )) by {
        reveal_strlit("{\"msg\":\"register\",\"agent_id\":\"bsm\",\"version\":\"0.1.0\",\"capabilities\":[\"audio_record\",\"audio_encode\"]}\n");
        reveal_strlit("agent_id");
        reveal_strlit("\"bsm\"");
    }
    json::lemma_tells_also(
        b0,
        "{\"msg\":\"register\",\"agent_id\":\"bsm\",\"version\":\"0.1.0\",\"capabilities\":[\"audio_record\",\"audio_encode\"]}\n"@,
        m1,
        json::Member { key: "agent_id"@, value: "\"bsm\""@ },
        18,
    );
    let m2 = m1.push(json::Member { key: "agent_id"@, value: "\"bsm\""@ });
    assert(json::member_at(
        "{\"msg\":\"register\",\"agent_id\":\"bsm\",\"version\":\"0.1.0\",\"capabilities\":[\"audio_record\",\"audio_encode\"]}\n"@,
        35,
        json::Member { key: "version"@, value: "\"0.1.0\""@ },
    )) by {
        reveal_strlit("{\"msg\":\"register\",\"agent_id\":\"bsm\",\"version\":\"0.1.0\",\"capabilities\":[\"audio_record\",\"audio_encode\"]}\n");
        reveal_strlit("version");
        reveal_strlit("\"0.1.0\"");
    }
    json::lemma_tells_also(
        b0,
        "{\"msg\":\"register\",\"agent_id\":\"bsm\",\"version\":\"0.1.0\",\"capabilities\":[\"audio_record\",\"audio_encode\"]}\n"@,
        m2,
        json::Member { key: "version"@, value: "\"0.1.0\""@ },
        35,
    );
    let m3 = m2.push(json::Member { key: "version"@, value: "\"0.1.0\""@ });
    assert(json::member_at(
        "{\"msg\":\"register\",\"agent_id\":\"bsm\",\"version\":\"0.1.0\",\"capabilities\":[\"audio_record\",\"audio_encode\"]}\n"@,
        53,
        json::Member { key: "capabilities"@, value: "[\"audio_record\",\"audio_encode\"]"@ },
    )) by {
        reveal_strlit("{\"msg\":\"register\",\"agent_id\":\"bsm\",\"version\":\"0.1.0\",\"capabilities\":[\"audio_record\",\"audio_encode\"]}\n");
        reveal_strlit("capabilities");
        reveal_strlit("[\"audio_record\",\"audio_encode\"]");
    }
    json::lemma_tells_also(
        b0,
        "{\"msg\":\"register\",\"agent_id\":\"bsm\",\"version\":\"0.1.0\",\"capabilities\":[\"audio_record\",\"audio_encode\"]}\n"@,
        m3,
        json::Member { key: "capabilities"@, value: "[\"audio_record\",\"audio_encode\"]"@ },
        53,
    );
    let m4 = m3.push(
        json::Member { key: "capabilities"@, value: "[\"audio_record\",\"audio_encode\"]"@ },
    );
    assert(m4 =~= seq![
        json::Member { key: "msg"@, value: "\"register\""@ },
        json::Member { key: "agent_id"@, value: "\"bsm\""@ },
        json::Member { key: "version"@, value: "\"0.1.0\""@ },
        json::Member { key: "capabilities"@, value: "[\"audio_record\",\"audio_encode\"]"@ },
    ]);
}

} // verus!
