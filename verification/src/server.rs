//! Connections of IPC clients: one line in, one line out.
use crate::commands;
use crate::commands::{IpcCommand, ResponseEnvelope};
use crate::dispatcher;
use crate::dispatcher::{Dispatcher, Effect, Surroundings};
use crate::error::{IpcError, IpcResult};
use crate::json;
use crate::json::extend_literal;
use crate::text;
use crate::text::{chars_of, is_blank, owned};
use vstd::prelude::*;

verus! {

/// What to do with a line of a client.
#[derive(Debug, Clone, Copy, PartialEq, Eq, Structural)]
pub enum LineAction {
    /// The program is ending: shut down, reply, and close.
    Shutdown,
    /// The line is blank.
    Skip,
    /// The line holds a command.
    Parse,
}

/// See [`LineAction`].
pub fn classify_line(shutdown: bool, line: &str) -> (r: LineAction)
    ensures
        r == if shutdown {
            LineAction::Shutdown
        } else if text::trimmed(line@).len() == 0 {
            LineAction::Skip
        } else {
            LineAction::Parse
        },
{
    if shutdown {
        LineAction::Shutdown
    } else if is_blank(line) {
        LineAction::Skip
    } else {
        LineAction::Parse
    }
}

/// What to send to the client, and what follows.
#[derive(Debug)]
pub enum Reply {
    /// Send the line and carry out the effects.
    Line { line: String, effects: Vec<Effect> },
    /// Send the line, then nothing but telemetry.
    Stream { line: String },
}

/// The reply to a line that is no command, its members in alphabetical order.
pub open spec fn parse_error_text(e: IpcError) -> Seq<char> {
    "{\"error\":"@ + json::string_literal(e.text()) + ",\"id\":null,\"ok\":false}\n"@
}

fn parse_error_line(e: &IpcError) -> (s: String)
    ensures
        s@ == parse_error_text(*e),
        json::is_reply_line(s@),
{
    let mut s = owned("{\"error\":");
    proof {
        reveal_strlit("{\"error\":");
    }
    extend_literal(&mut s, e.message().as_str());
    proof {
        let tail = ",\"id\":null,\"ok\":false}\n"@;
        reveal_strlit(",\"id\":null,\"ok\":false}\n");
        json::lemma_reply_line(s@, tail.drop_last());
        assert(tail =~= tail.drop_last().push('\n'));
    }
    s.append(",\"id\":null,\"ok\":false}\n");
    s
}

fn response_line(r: &ResponseEnvelope) -> (s: String)
    ensures
        s@ == commands::response_text(r@) + "\n"@,
        (r@.data matches Some(d) ==> json::is_line(d)) ==> json::is_reply_line(s@),
{
    let mut s: String = match r.to_json() {
        Ok(s) => s,
        Err(_) => String::new(),
    };
    proof {
        reveal_strlit("\n");
        if json::is_line(s@) {
            json::lemma_reply_line(s@, Seq::empty());
            assert("\n"@ =~= Seq::empty().push('\n'));
        }
    }
    s.append("\n");
    s
}

/// Answers a parsed line with a line.
pub fn answer(
    dispatcher: &mut Dispatcher,
    parsed: IpcResult<(IpcCommand, String)>,
    around: &Surroundings,
) -> (r: Reply)
    ensures
        match parsed {
            Err(e) => {
                &&& final(dispatcher).current() == old(dispatcher).current()
                &&& final(dispatcher).has_tasks() == old(dispatcher).has_tasks()
                &&& r matches Reply::Line { line, effects } && line@ == parse_error_text(e)
                    && effects@ == Seq::<Effect>::empty()
            },
            Ok((cmd, id)) => if cmd is SubscribeTelemetry {
                &&& final(dispatcher).current() == old(dispatcher).current()
                &&& final(dispatcher).has_tasks() == old(dispatcher).has_tasks()
                &&& r matches Reply::Stream { line } && line@ == commands::response_text(
                    commands::ok_response(id@),
                ) + "\n"@
            } else {
                &&& final(dispatcher).current() == dispatcher::next_state(
                    old(dispatcher).current(),
                    cmd,
                    around.now_ms,
                )
                &&& final(dispatcher).has_tasks() == (old(dispatcher).has_tasks()
                    || cmd is StartRecording)
                &&& r matches Reply::Line { line, effects } && {
                    &&& line@ == commands::response_text(
                        dispatcher::response_of(old(dispatcher).current(), cmd, id@, *around),
                    ) + "\n"@
                    &&& dispatcher::effect_views(effects@) == dispatcher::effects_of(
                        old(dispatcher).current(),
                        old(dispatcher).has_tasks(),
                        cmd,
                        around.now_ms,
                    )
                }
            },
        },
        around.peaks.are_lines() ==> json::is_reply_line(
            match r {
                Reply::Line { line, .. } => line@,
                Reply::Stream { line } => line@,
            },
        ),
{
    match parsed {
        Err(e) => Reply::Line { line: parse_error_line(&e), effects: Vec::new() },
        Ok((cmd, id)) => match cmd {
            IpcCommand::SubscribeTelemetry => Reply::Stream {
                line: response_line(&ResponseEnvelope::ok(id.as_str())),
            },
            other => {
                let handled = dispatcher.handle_command(other, id.as_str(), around);
                Reply::Line { line: response_line(&handled.response), effects: handled.effects }
            },
        },
    }
}

/// The line and the effects with which a connection ends when the program does.
pub fn farewell(dispatcher: &mut Dispatcher, around: &Surroundings) -> (r: (String, Vec<Effect>))
    ensures
        r.0@ == commands::response_text(commands::ok_response("shutdown"@)) + "\n"@,
        json::is_reply_line(r.0@),
        dispatcher::effect_views(r.1@) == dispatcher::effects_of(
            old(dispatcher).current(),
            old(dispatcher).has_tasks(),
            IpcCommand::Shutdown,
            around.now_ms,
        ),
        final(dispatcher).current() == old(dispatcher).current(),
        final(dispatcher).has_tasks() == old(dispatcher).has_tasks(),
{
    let handled = dispatcher.handle_command(IpcCommand::Shutdown, "shutdown", around);
    (response_line(&handled.response), handled.effects)
}

/// The full path of a named pipe.
pub open spec fn pipe_path_text(name: Seq<char>) -> Seq<char> {
    let prefix = "\\\\.\\pipe\\"@;
    if name.len() >= prefix.len() && name.take(prefix.len() as int) == prefix {
        name
    } else {
        prefix + name
    }
}

/// See [`pipe_path_text`].
pub fn pipe_path(name: &str) -> (path: String)
    ensures
        path@ == pipe_path_text(name@),
{
    let prefix: Vec<char> = chars_of("\\\\.\\pipe\\");
    let cs: Vec<char> = chars_of(name);
    if cs.len() >= prefix.len() {
        let mut i: usize = 0;
        let mut equal: bool = true;
        assert(name@.take(0) =~= prefix@.take(0));
        while i < prefix.len()
            invariant
                i <= prefix.len() <= cs.len(),
                cs@ == name@,
                equal == (name@.take(i as int) == prefix@.take(i as int)),
            decreases prefix.len() - i,
        {
            if cs[i] != prefix[i] {
                assert(name@.take(i + 1)[i as int] != prefix@.take(i + 1)[i as int]);
                equal = false;
            }
            proof {
                if equal {
                    assert(name@.take(i + 1) =~= name@.take(i as int).push(cs@[i as int]));
                    assert(prefix@.take(i + 1) =~= prefix@.take(i as int).push(prefix@[i as int]));
                } else if name@.take(i + 1) == prefix@.take(i + 1) {
                    assert(name@.take(i as int) =~= name@.take(i + 1).take(i as int));
                    assert(prefix@.take(i as int) =~= prefix@.take(i + 1).take(i as int));
                }
            }
            i = i + 1;
        }
        assert(prefix@.take(prefix@.len() as int) =~= prefix@);
        if equal {
            return owned(name);
        }
    }
    let mut path = owned("\\\\.\\pipe\\");
    path.append(name);
    path
}

/// A pipe's full path stays as it is.
pub proof fn pipe_path_is_stable(name: Seq<char>)
    ensures
        pipe_path_text(pipe_path_text(name)) == pipe_path_text(name),
{
    let prefix = "\\\\.\\pipe\\"@;
    assert((prefix + name).take(prefix.len() as int) =~= prefix);
}

/// A line that is no command is answered with the error, without an identifier, and
/// as not done.
pub proof fn parse_errors_are_told(e: IpcError)
    ensures
        json::tells(
            parse_error_text(e),
            seq![
                json::Member { key: "error"@, value: json::string_literal(e.text()) },
                json::Member { key: "id"@, value: "null"@ },
                json::Member { key: "ok"@, value: "false"@ },
            ],
        ),
{
    let b0 = Seq::<char>::empty();
    assert(b0 + "{\"error\":"@ =~= "{\"error\":"@);
    let m0 = Seq::<json::Member>::empty();
    assert(json::opens_member("{\"error\":"@, "error"@)) by {
        reveal_strlit("{\"error\":");
        reveal_strlit("error");
    }
    assert(",\"id\":null,\"ok\":false}\n"@.len() >= 1
        && (",\"id\":null,\"ok\":false}\n"@[0] == ',' || ",\"id\":null,\"ok\":false}\n"@[0] == '}')) by {
        reveal_strlit(",\"id\":null,\"ok\":false}\n");
    }
    json::lemma_tells_next(
        b0,
        m0,
        "{\"error\":"@,
        "error"@,
        json::string_literal(e.text()),
        ",\"id\":null,\"ok\":false}\n"@,
    );
    let m1 = m0.push(json::Member { key: "error"@, value: json::string_literal(e.text()) });
    let b1 = "{\"error\":"@ + json::string_literal(e.text());
    assert(json::member_at(
        ",\"id\":null,\"ok\":false}\n"@,
        1,
        json::Member { key: "id"@, value: "null"@ },
    )) by {
        reveal_strlit(",\"id\":null,\"ok\":false}\n");
        reveal_strlit("id");
        reveal_strlit("null");
    }
    json::lemma_tells_also(
        b1,
        ",\"id\":null,\"ok\":false}\n"@,
        m1,
        json::Member { key: "id"@, value: "null"@ },
        1,
    );
    let m2 = m1.push(json::Member { key: "id"@, value: "null"@ });
    assert(json::member_at(
        ",\"id\":null,\"ok\":false}\n"@,
        11,
        json::Member { key: "ok"@, value: "false"@ },
    )) by {
        reveal_strlit(",\"id\":null,\"ok\":false}\n");
        reveal_strlit("ok");
        reveal_strlit("false");
    }
    json::lemma_tells_also(
        b1,
        ",\"id\":null,\"ok\":false}\n"@,
        m2,
        json::Member { key: "ok"@, value: "false"@ },
        11,
    );
    let m3 = m2.push(json::Member { key: "ok"@, value: "false"@ });
    assert(m3 =~= seq![
        json::Member { key: "error"@, value: json::string_literal(e.text()) },
        json::Member { key: "id"@, value: "null"@ },
        json::Member { key: "ok"@, value: "false"@ },
    ]);
}

/// The path of a pipe begins with the prefix of pipes and ends with its name; a name
/// that has the prefix already stays as it is.
pub proof fn pipe_paths_have_one_prefix(name: Seq<char>)
    ensures
        ({
            let prefix = "\\\\.\\pipe\\"@;
            let path = pipe_path_text(name);
            &&& path.len() >= prefix.len()
            &&& path.take(prefix.len() as int) == prefix
            &&& path == name || path == prefix + name
            &&& pipe_path_text(prefix + name) == prefix + name
        }),
{
    let prefix = "\\\\.\\pipe\\"@;
    assert((prefix + name).take(prefix.len() as int) =~= prefix);
}

/// A line is looked at only while the program runs, and only where it holds more than
/// white space.
pub proof fn blank_lines_are_skipped(line: &str, shutdown: bool, r: LineAction)
    requires
        call_ensures(classify_line, (shutdown, line), r),
    ensures
        r == LineAction::Shutdown <==> shutdown,
        r == LineAction::Skip <==> !shutdown && text::all_space(line@),
        r == LineAction::Parse <==> !shutdown && !text::all_space(line@),
{
    let ends = text::trimming_takes_only_space(line@);
}

/// A line that is no command changes nothing and is answered with the error.
pub proof fn bad_lines_change_nothing(
    d: &mut Dispatcher,
    e: IpcError,
    around: Surroundings,
    r: Reply,
)
    requires
        call_ensures(answer, (d, Err(e), &around), r),
    ensures
        final(d).current() == old(d).current(),
        final(d).has_tasks() == old(d).has_tasks(),
        r matches Reply::Line { line, effects } && effects@.len() == 0 && line@ == parse_error_text(
            e,
        ),
{
}

/// A client that asks for telemetry gets it, is answered under its identifier, and changes
/// nothing; every other command is carried out and answered with one line.
pub proof fn commands_are_answered(
    d: &mut Dispatcher,
    cmd: IpcCommand,
    id: String,
    around: Surroundings,
    r: Reply,
)
    requires
        call_ensures(answer, (d, Ok((cmd, id)), &around), r),
    ensures
        r is Stream <==> cmd is SubscribeTelemetry,
        cmd is SubscribeTelemetry ==> final(d).current() == old(d).current() && r->Stream_line@
            == commands::response_text(commands::ok_response(id@)) + "\n"@,
        cmd is StopRecording ==> final(d).current() is Idle,
        cmd is StartRecording ==> final(d).current() is Recording && final(d).has_tasks(),
        old(d).has_tasks() ==> final(d).has_tasks(),
        cmd is GetStatus || cmd is Health || cmd is Stats || cmd is Shutdown ==> final(d).current()
            == old(d).current(),
{
}

/// When the program ends, a connection is told so, running tasks are told to stop, and the
/// recording state stays.
pub proof fn connections_end_with_a_farewell(
    d: &mut Dispatcher,
    around: Surroundings,
    r: (String, Vec<Effect>),
)
    requires
        call_ensures(farewell, (d, &around), r),
    ensures
        r.0@ == commands::response_text(commands::ok_response("shutdown"@)) + "\n"@,
        final(d).current() == old(d).current(),
        old(d).has_tasks() ==> r.1@.len() == 2 && r.1@[0] is SignalShutdown,
        !old(d).has_tasks() ==> r.1@.len() == 1,
{
    let views = dispatcher::effect_views(r.1@);
    assert(views.len() == r.1@.len());
    if old(d).has_tasks() {
        assert(views[0] is SignalShutdown);
        assert(views[0] == r.1@[0]@);
    }
}

} // verus!
