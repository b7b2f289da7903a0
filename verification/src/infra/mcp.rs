//! Tool servers: what is said to them, and what their answers mean.

pub mod findings;
pub mod http;
pub mod registry;

use crate::clock::Duration;
use crate::dict::Dict;
use crate::domain::ports::ToolCallResult;
use crate::domain::tool::ToolDef;
use crate::domain::tool_health;
use crate::domain::tool_health::{
    all_recorded, annotation_text, drained, handed_out, is_log, law_repeats_are_not_news,
    level_severity, recorded, words_severity, HealthLog, HealthView, NoteView, Severity, MAX_NOTES,
};
use crate::domain::tool_output;
use crate::domain::tool_output::{capped_text, DEFAULT_MAX_OUTPUT_CHARS};
use crate::infra::mcp::findings::RegisteredTool;
use crate::infra::timeouts::{from_setting, setting_secs};
use crate::json;
use crate::json::{
    array_view, json_text, opt_json, parsed_json, Json, JsonView, Num, Number, ParseFailure,
};
use crate::text;
use crate::text::{
    decimal, decimal_of, join, law_joined_parts_stand_in_their_order, lowercase, opt_text, texts,
    total_len, trim, trim_end,
};
use vstd::prelude::*;
use vstd::utf8::encode_utf8;

verus! {

// ── Timeouts ──────────────────────────────────────────────────────────────────

/// How long one request may take, for a server that does not say otherwise.
pub const DEFAULT_REQUEST_TIMEOUT_SECS: u64 = 60;

/// How long a server has to answer `initialize`, which includes its own startup.
pub const DEFAULT_INIT_TIMEOUT_SECS: u64 = 120;

/// How long one request may take, from what `ATOMA_MCP_TIMEOUT` is set to.
pub fn default_request_timeout(setting: Option<&str>) -> (r: Duration)
    ensures
        r == (Duration {
            secs: setting_secs(text::opt_str(setting), DEFAULT_REQUEST_TIMEOUT_SECS),
            nanos: 0,
        }),
{
    from_setting(setting, DEFAULT_REQUEST_TIMEOUT_SECS)
}

/// How long a server has to start, from what `ATOMA_MCP_INIT_TIMEOUT` is set to.
pub fn init_timeout(setting: Option<&str>) -> (r: Duration)
    ensures
        r == (Duration {
            secs: setting_secs(text::opt_str(setting), DEFAULT_INIT_TIMEOUT_SECS),
            nanos: 0,
        }),
{
    from_setting(setting, DEFAULT_INIT_TIMEOUT_SECS)
}

// ── Connecting ────────────────────────────────────────────────────────────────

/// How a server is reached.
#[derive(Debug, Clone, Copy, PartialEq, Eq, Structural)]
pub enum Channel {
    /// The pipes of a process that is started.
    Stdio,
    /// HTTP, to a process that is started. Its pipes are logs.
    HttpToOwnProcess,
    /// HTTP, to something that is already running.
    Http,
}

/// What connecting to a server takes.
#[derive(Debug)]
pub struct ConnectionPlan {
    pub channel: Channel,
    /// How long one request may take.
    pub request_timeout: Duration,
    /// How much of one result reaches the model.
    pub max_output_chars: usize,
}

impl ConnectionPlan {
    /// Whether the server is given time to start listening. Only one that was just started is:
    /// an address that is wrong stays wrong.
    pub fn waits_for_it(&self) -> (r: bool)
        ensures
            r == (self.channel == Channel::HttpToOwnProcess),
    {
        match self.channel {
            Channel::HttpToOwnProcess => true,
            _ => false,
        }
    }

    /// Whether `initialize` is asked again after it failed. Only where no connection was
    /// accepted: anything the server itself answers is an answer.
    pub fn asks_again(&self, refused: bool) -> (r: bool)
        ensures
            r == (refused && self.channel == Channel::HttpToOwnProcess),
    {
        refused && self.waits_for_it()
    }

    /// Whether a process is started.
    pub fn starts_a_process(&self) -> (r: bool)
        ensures
            r == (self.channel != Channel::Http),
    {
        match self.channel {
            Channel::Http => false,
            _ => true,
        }
    }
}

/// How a server is reached, where it can be.
pub open spec fn channel_of(def: ToolDef) -> Option<Channel> {
    let starts = trim(def.command@).len() > 0;
    match def.url {
        Some(_) => Some(
            if starts {
                Channel::HttpToOwnProcess
            } else {
                Channel::Http
            },
        ),
        None => if starts {
            Some(Channel::Stdio)
        } else {
            None
        },
    }
}

/// How long one request to a server may take: what it says, or the default.
pub open spec fn timeout_of(def: ToolDef, default_timeout: Duration) -> Duration {
    match def.request_timeout_secs {
        Some(n) => Duration { secs: n, nanos: 0 },
        None => default_timeout,
    }
}

/// How much of one result of a server reaches the model: what it says, or the default.
pub open spec fn output_limit_of(def: ToolDef) -> usize {
    match def.max_output_chars {
        Some(n) if n > 0 => n,
        _ => DEFAULT_MAX_OUTPUT_CHARS,
    }
}

/// What connecting to a server takes, or that it cannot be reached.
pub fn connection_plan(def: &ToolDef, default_timeout: Duration) -> (r: Result<
    ConnectionPlan,
    String,
>)
    ensures
        match r {
            Ok(plan) => channel_of(*def) == Some(plan.channel) && plan.request_timeout
                == timeout_of(*def, default_timeout) && plan.max_output_chars == output_limit_of(
                *def,
            ),
            Err(e) => channel_of(*def) is None && e@ == "MCP server '"@ + def.name@
                + "' has neither a command to start nor a url to reach"@,
        },
{
    let starts = !text::blank(def.command.as_str());
    let channel = match (&def.url, starts) {
        (Some(_), true) => Channel::HttpToOwnProcess,
        (Some(_), false) => Channel::Http,
        (None, true) => Channel::Stdio,
        (None, false) => {
            let mut e = "MCP server '".to_owned();
            e.append(def.name.as_str());
            e.append("' has neither a command to start nor a url to reach");
            return Err(e);
        },
    };
    Ok(
        ConnectionPlan {
            channel,
            request_timeout: match def.request_timeout_secs {
                Some(n) => Duration::from_secs(n),
                None => default_timeout,
            },
            max_output_chars: tool_output::resolve_limit(def.max_output_chars),
        },
    )
}

/// What this client tells a server it can do: it listens to log notifications.
pub open spec fn capabilities() -> JsonView {
    JsonView::Object(map!["logging"@ => JsonView::Object(Map::empty())])
}

/// What this client tells a server it can do. A server may withhold its reports from a client
/// that did not ask.
pub fn client_capabilities() -> (r: Json)
    ensures
        r@ == capabilities(),
{
    let mut out: Dict<Json> = Dict::new();
    out.put("logging", Json::Object(Dict::new()));
    Json::Object(out)
}

/// The parameters of `initialize`.
pub open spec fn initialize_value(client_name: Seq<char>, client_version: Seq<char>) -> JsonView {
    JsonView::Object(
        map![
            "protocolVersion"@ => JsonView::Text("2024-11-05"@),
            "capabilities"@ => capabilities(),
            "clientInfo"@ => JsonView::Object(
                map![
                    "name"@ => JsonView::Text(client_name),
                    "version"@ => JsonView::Text(client_version),
                ],
            ),
        ],
    )
}

/// The parameters of `initialize`.
pub fn initialize_params(client_name: &str, client_version: &str) -> (r: Json)
    ensures
        r@ == initialize_value(client_name@, client_version@),
{
    let mut info: Dict<Json> = Dict::new();
    info.put("name", Json::text(client_name));
    info.put("version", Json::text(client_version));
    let mut out: Dict<Json> = Dict::new();
    out.put("protocolVersion", Json::text("2024-11-05"));
    out.put("capabilities", client_capabilities());
    out.put("clientInfo", Json::Object(info));
    Json::Object(out)
}

/// What a server says of itself when it is initialized.
#[derive(Debug)]
pub struct ServerIntroduction {
    pub name: String,
    pub version: String,
    /// The protocol it speaks, which goes on every later request.
    pub protocol: Option<String>,
    /// Whether it can report its own trouble, so that it is worth asking it to.
    pub logs: bool,
}

/// A text inside an object inside a value.
pub open spec fn inner_text(v: JsonView, outer: Seq<char>, inner: Seq<char>) -> Option<Seq<char>> {
    match v.field(outer) {
        Some(o) => o.field_text(inner),
        None => None,
    }
}

/// A text, or `unknown`.
pub open spec fn or_unknown(s: Option<Seq<char>>) -> Seq<char> {
    match s {
        Some(x) => x,
        None => "unknown"@,
    }
}

fn inner(v: &Json, outer: &str, key: &str) -> (r: String)
    ensures
        r@ == or_unknown(inner_text(v@, outer@, key@)),
{
    match v.get(outer) {
        Some(o) => match o.get_str(key) {
            Some(s) => s.to_owned(),
            None => "unknown".to_owned(),
        },
        None => "unknown".to_owned(),
    }
}

/// Whether an introduction is what a server says of itself in a result.
pub open spec fn introduces(intro: ServerIntroduction, result: JsonView) -> bool {
    &&& intro.name@ == or_unknown(inner_text(result, "serverInfo"@, "name"@))
    &&& intro.version@ == or_unknown(inner_text(result, "serverInfo"@, "version"@))
    &&& opt_text(intro.protocol) == result.field_text("protocolVersion"@)
    &&& intro.logs == match result.field("capabilities"@) {
        Some(c) => c.field("logging"@) is Some,
        None => false,
    }
}

/// Reads the answer to `initialize`.
pub fn read_introduction(response: &Json) -> (r: Result<ServerIntroduction, &'static str>)
    ensures
        match r {
            Ok(intro) => response@.field("result"@) is Some && introduces(
                intro,
                response@.field("result"@)->0,
            ),
            Err(e) => response@.field("result"@) is None && e@
                == "Initialize response missing result"@,
        },
{
    let result = match response.get("result") {
        Some(v) => v,
        None => return Err("Initialize response missing result"),
    };
    Ok(
        ServerIntroduction {
            name: inner(result, "serverInfo", "name"),
            version: inner(result, "serverInfo", "version"),
            protocol: match result.get_str("protocolVersion") {
                Some(p) => Some(p.to_owned()),
                None => None,
            },
            logs: match result.get("capabilities") {
                Some(c) => c.get("logging").is_some(),
                None => false,
            },
        },
    )
}

/// What one channel of a server that failed to start adds to the error: nothing where it said
/// nothing.
pub open spec fn channel_said(channel: Seq<char>, output: Seq<char>) -> Seq<char> {
    if trim(output).len() == 0 {
        Seq::empty()
    } else {
        "\n--- "@ + channel + " ---\n"@ + trim_end(output) + "\n---------------"@
    }
}

fn said_on(channel: &str, output: &str) -> (r: String)
    ensures
        r@ == channel_said(channel@, output@),
{
    if text::blank(output) {
        let none = String::new();
        assert(none@ =~= Seq::<char>::empty());
        return none;
    }
    let mut out = "\n--- ".to_owned();
    out.append(channel);
    out.append(" ---\n");
    out.append(text::trimmed_end(output).as_str());
    out.append("\n---------------");
    out
}

/// Both log channels of a server that failed to start, labelled, for an error message.
pub fn what_it_said(stderr: &str, stdout: &str) -> (r: String)
    ensures
        r@ == channel_said("stderr"@, stderr@) + channel_said("stdout"@, stdout@),
{
    let mut out = said_on("stderr", stderr);
    out.append(said_on("stdout", stdout).as_str());
    out
}

/// What is said of a server that could not be initialized.
pub fn initialize_failed(server: &str, problem: &str, said: &str) -> (r: String)
    ensures
        r@ == "Failed to initialize MCP server '"@ + server@ + "': "@ + problem@ + said@,
{
    let mut out = "Failed to initialize MCP server '".to_owned();
    out.append(server);
    out.append("': ");
    out.append(problem);
    out.append(said);
    out
}

/// What is said of a server that did not answer `initialize` in time.
pub fn initialize_timed_out(server: &str, limit: Duration, said: &str) -> (r: String)
    ensures
        r@ == "MCP server '"@ + server@ + "' initialization timed out ("@ + decimal(
            limit.secs as nat,
        ) + "s)"@ + said@,
{
    let mut out = "MCP server '".to_owned();
    out.append(server);
    out.append("' initialization timed out (");
    out.append(decimal_of(limit.as_secs()).as_str());
    out.append("s)");
    out.append(said);
    out
}

// ── Requests ──────────────────────────────────────────────────────────────────

/// The requests made of one server: each has an id of its own.
#[derive(Debug)]
pub struct Requests {
    pub next_id: u64,
}

/// A request.
pub open spec fn request_value(id: u64, method: Seq<char>, params: JsonView) -> JsonView {
    JsonView::Object(
        map![
            "jsonrpc"@ => JsonView::Text("2.0"@),
            "id"@ => JsonView::Number(Num::PosInt(id)),
            "method"@ => JsonView::Text(method),
            "params"@ => params,
        ],
    )
}

impl Requests {
    /// Before the first request.
    pub fn new() -> (r: Requests)
        ensures
            r.next_id == 1,
    {
        Requests { next_id: 1 }
    }

    /// The next request, and its id.
    pub fn next(&mut self, method: &str, params: Json) -> (r: (u64, Json))
        requires
            old(self).next_id < u64::MAX,
        ensures
            r.0 == old(self).next_id,
            r.1@ == request_value(r.0, method@, params@),
            final(self).next_id == old(self).next_id + 1,
    {
        let id: u64 = self.next_id;
        self.next_id = id + 1;
        let mut out: Dict<Json> = Dict::new();
        out.put("jsonrpc", Json::text("2.0"));
        out.put("id", Json::number(id));
        out.put("method", Json::text(method));
        out.put("params", params);
        (id, Json::Object(out))
    }
}

/// A notification.
pub open spec fn notification_value(method: Seq<char>, params: JsonView) -> JsonView {
    JsonView::Object(
        map![
            "jsonrpc"@ => JsonView::Text("2.0"@),
            "method"@ => JsonView::Text(method),
            "params"@ => params,
        ],
    )
}

/// A notification.
pub fn notification(method: &str, params: Json) -> (r: Json)
    ensures
        r@ == notification_value(method@, params@),
{
    let mut out: Dict<Json> = Dict::new();
    out.put("jsonrpc", Json::text("2.0"));
    out.put("method", Json::text(method));
    out.put("params", params);
    Json::Object(out)
}

/// What to ask of a server, where it can report its own trouble.
pub open spec fn level_asked(logs: bool) -> Option<JsonView> {
    if logs {
        Some(JsonView::Object(map!["level"@ => JsonView::Text("warning"@)]))
    } else {
        None
    }
}

/// What to ask of a server that can report its own trouble: warnings and worse, which is what
/// reaches the agent.
pub fn level_request(intro: &ServerIntroduction) -> (r: Option<Json>)
    ensures
        opt_json(r) == level_asked(intro.logs),
{
    if !intro.logs {
        return None;
    }
    let mut level: Dict<Json> = Dict::new();
    level.put("level", Json::text("warning"));
    Some(Json::Object(level))
}

/// What a server's answer says went wrong, where it does.
pub open spec fn error_in(response: JsonView) -> Option<Seq<char>> {
    match response.field("error"@) {
        Some(e) => Some(
            "MCP JSON-RPC error: "@ + match e.field_text("message"@) {
                Some(m) => m,
                None => "unknown error"@,
            },
        ),
        None => None,
    }
}

/// What a server's answer says went wrong, where it does.
pub fn response_error(response: &Json) -> (r: Option<String>)
    ensures
        opt_text(r) == error_in(response@),
{
    match response.get("error") {
        Some(e) => {
            let mut out = "MCP JSON-RPC error: ".to_owned();
            out.append(
                match e.get_str("message") {
                    Some(m) => m,
                    None => "unknown error",
                },
            );
            Some(out)
        },
        None => None,
    }
}

// ── What a server sends ───────────────────────────────────────────────────────

/// What a value read from a server is, relative to the request being awaited.
#[derive(Debug, Clone, Copy, PartialEq, Eq, Structural)]
pub enum Incoming {
    /// The response to the request in flight.
    TheAnswer,
    /// A response to a request that timed out, carrying the id it answers.
    Abandoned(u64),
    /// Nothing this client asked for. Read past.
    NotAResponse,
}

/// What a value is, relative to the request being awaited. An id of `null` is about the one
/// request in flight, which the server could not read well enough to name.
pub open spec fn incoming(value: JsonView, expected_id: u64) -> Incoming {
    match value.field("id"@) {
        Some(JsonView::Number(Num::PosInt(id))) => if id == expected_id {
            Incoming::TheAnswer
        } else {
            Incoming::Abandoned(id)
        },
        Some(JsonView::Null) => Incoming::TheAnswer,
        _ => Incoming::NotAResponse,
    }
}

/// Whether a value read from the server answers request `expected_id`.
pub fn classify(value: &Json, expected_id: u64) -> (r: Incoming)
    ensures
        r == incoming(value@, expected_id),
{
    match value.get("id") {
        Some(Json::Number(Number::PosInt(id))) => if *id == expected_id {
            Incoming::TheAnswer
        } else {
            Incoming::Abandoned(*id)
        },
        Some(Json::Null) => Incoming::TheAnswer,
        _ => Incoming::NotAResponse,
    }
}

/// The answer to an abandoned request is never taken for the answer to another.
pub proof fn law_a_late_answer_is_never_the_answer(value: JsonView, id: u64, expected_id: u64)
    requires
        value.field("id"@) == Some(JsonView::Number(Num::PosInt(id))),
    ensures
        incoming(value, expected_id) == Incoming::TheAnswer <==> id == expected_id,
{
}

/// The method name of a server's log notification.
pub const LOG_NOTIFICATION: &'static str = "notifications/message";

/// What a log notification reports. The level is the server's own judgement; what it says is
/// free-form.
pub open spec fn reported(params: Option<JsonView>) -> Option<NoteView> {
    match params {
        None => None,
        Some(p) => {
            let level = match p.field_text("level"@) {
                Some(l) => l,
                None => ""@,
            };
            let severity = level_severity(lowercase(trim(level)));
            let data = match p.field("data"@) {
                Some(JsonView::Text(s)) => s,
                Some(other) => json_text(other),
                None => Seq::empty(),
            };
            if severity == Severity::Routine {
                None
            } else {
                Some(
                    NoteView {
                        severity,
                        message: match p.field_text("logger"@) {
                            Some(logger) => if trim(logger).len() > 0 {
                                trim(logger) + ": "@ + data
                            } else {
                                data
                            },
                            None => data,
                        },
                    },
                )
            }
        },
    }
}

/// A log notification turned into what an agent would need to read. `None` for anything
/// routine, and for one without a level.
pub fn log_note(params: Option<&Json>) -> (r: Option<(Severity, String)>)
    ensures
        match r {
            Some((severity, message)) => reported(
                match params {
                    Some(p) => Some(p@),
                    None => None,
                },
            ) == Some(NoteView { severity, message: message@ }),
            None => reported(
                match params {
                    Some(p) => Some(p@),
                    None => None,
                },
            ) is None,
        },
{
    let params = match params {
        Some(p) => p,
        None => return None,
    };
    let level = match params.get_str("level") {
        Some(l) => l,
        None => "",
    };
    let severity = tool_health::severity_of_level(level);
    if severity == Severity::Routine {
        return None;
    }
    let data: String = match params.get("data") {
        Some(Json::Text(s)) => s.clone(),
        Some(other) => json::print(other),
        None => {
            let none = String::new();
            assert(none@ =~= Seq::<char>::empty());
            none
        },
    };
    let message = match params.get_str("logger") {
        Some(logger) => {
            let name = text::trimmed(logger);
            if text::empty(name.as_str()) {
                data
            } else {
                let mut out = name;
                out.append(": ");
                out.append(data.as_str());
                out
            }
        },
        None => data,
    };
    Some((severity, message))
}

/// Whether a value is a log notification that reports something.
pub open spec fn report_in(value: JsonView) -> Option<NoteView> {
    if value.field_text("method"@) == Some(LOG_NOTIFICATION@) {
        reported(value.field("params"@))
    } else {
        None
    }
}

/// A log once a report has been made, or none.
pub open spec fn after_report(v: HealthView, report: Option<NoteView>) -> HealthView {
    match report {
        Some(n) => recorded(v, n.severity, n.message),
        None => v,
    }
}

/// A log once a value has been read while an answer was waited for.
pub open spec fn after_message(v: HealthView, value: JsonView, expected_id: u64) -> HealthView {
    if incoming(value, expected_id) == Incoming::NotAResponse {
        after_report(v, report_in(value))
    } else {
        v
    }
}

/// Takes a value read while waiting for the answer to `expected_id`, and says whether it is
/// the answer. Anything else is read past; a server's report about itself is kept for its next
/// result.
pub fn on_message(health: &mut HealthLog, value: &Json, expected_id: u64) -> (r: Incoming)
    requires
        old(health).wf(),
        old(health).dropped < usize::MAX,
    ensures
        final(health).wf(),
        r == incoming(value@, expected_id),
        final(health)@ == after_message(old(health)@, value@, expected_id),
{
    let what = classify(value, expected_id);
    if let Incoming::NotAResponse = what {
        let is_log = match value.get_str("method") {
            Some(m) => text::same(m, LOG_NOTIFICATION),
            None => false,
        };
        if is_log {
            if let Some((severity, message)) = log_note(value.get("params")) {
                health.record(severity, message.as_str());
            }
        }
    }
    what
}

/// The report a line of a log is, where its words are read for one.
pub open spec fn report_on_line(line: Seq<char>, guess_severity: bool) -> Option<NoteView> {
    if guess_severity {
        Some(NoteView { severity: words_severity(trim_end(line)), message: trim_end(line) })
    } else {
        None
    }
}

/// Takes a line a server wrote to a channel that is a log. Its words are read for a report
/// only where that was asked for.
pub fn on_log_line(health: &mut HealthLog, line: &str, guess_severity: bool)
    requires
        old(health).wf(),
        old(health).dropped < usize::MAX,
    ensures
        final(health).wf(),
        final(health)@ == after_report(old(health)@, report_on_line(line@, guess_severity)),
{
    let said = text::trimmed_end(line);
    let severity = tool_health::severity_of_output(said.as_str(), guess_severity);
    health.record(severity, said.as_str());
}

/// How much of one value is read before giving up on it, in bytes.
pub const MAX_VALUE_BYTES: usize = 10_485_760;

/// What what has been read so far amounts to.
#[derive(Debug)]
pub enum Reading {
    /// One complete value.
    Value(Json),
    /// The beginning of one: read another line.
    More,
    /// Nothing that can become one.
    Failed(String),
}

/// Whether reading is where it is once a text of so many bytes was read as JSON.
pub open spec fn is_reading(r: Reading, bytes: nat, parsed: Result<JsonView, (Seq<char>, bool)>) -> bool {
    match (r, parsed) {
        (Reading::Value(v), Ok(j)) => v@ == j,
        (Reading::More, Err((_, truncated))) => truncated && bytes <= MAX_VALUE_BYTES,
        (Reading::Failed(e), Err((problem, truncated))) => if truncated {
            bytes > MAX_VALUE_BYTES && e@ == "MCP response exceeded maximum size (10MB)"@
        } else {
            e@ == "Failed to parse MCP JSON-RPC response: "@ + problem
        },
        _ => false,
    }
}

/// What the lines read so far amount to, once those many bytes were read as JSON.
pub fn on_parsed(bytes: usize, parsed: Result<Json, ParseFailure>) -> (r: Reading)
    ensures
        is_reading(
            r,
            bytes as nat,
            match parsed {
                Ok(v) => Ok(v@),
                Err(e) => Err((e.message@, e.truncated)),
            },
        ),
{
    match parsed {
        Ok(v) => Reading::Value(v),
        Err(e) => {
            if e.truncated {
                if bytes > MAX_VALUE_BYTES {
                    Reading::Failed("MCP response exceeded maximum size (10MB)".to_owned())
                } else {
                    Reading::More
                }
            } else {
                let mut out = "Failed to parse MCP JSON-RPC response: ".to_owned();
                out.append(e.message.as_str());
                Reading::Failed(out)
            }
        },
    }
}

/// What the lines read so far amount to. A server may put one value across many lines.
pub fn read_so_far(buffer: &str) -> (r: Reading)
    ensures
        is_reading(r, encode_utf8(buffer@).len(), parsed_json(buffer@)),
{
    on_parsed(buffer.as_bytes().len(), json::parse(buffer))
}

// ── Listing tools ─────────────────────────────────────────────────────────────

/// The tools of an answer to `tools/list`.
pub open spec fn listed_tools(response: JsonView) -> Option<Seq<JsonView>> {
    match response.field("result"@) {
        Some(r) => r.field_items("tools"@),
        None => None,
    }
}

/// Whether every tool has a name.
pub open spec fn all_named(tools: Seq<JsonView>) -> bool {
    forall|i: int| 0 <= i < tools.len() ==> (#[trigger] tools[i]).field_text("name"@) is Some
}

/// The name the model calls a tool by.
pub open spec fn called_name(server: Seq<char>, unprefixed: bool, tool: Seq<char>) -> Seq<char> {
    if unprefixed {
        tool
    } else {
        server + "__"@ + tool
    }
}

/// Whether a registered tool is a listed one.
pub open spec fn is_registration(
    t: RegisteredTool,
    server: Seq<char>,
    unprefixed: bool,
    listed: JsonView,
) -> bool {
    &&& listed.field_text("name"@) == Some(t.tool_name@)
    &&& t.prefixed_name@ == called_name(server, unprefixed, t.tool_name@)
    &&& t.schema@ == listed
}

/// Reads the answer to `tools/list`. An entry without a name fails the listing: it is a server
/// that is not answering the protocol.
pub fn registered_tools(server: &str, unprefixed: bool, response: &Json) -> (r: Result<
    Vec<RegisteredTool>,
    String,
>)
    ensures
        match r {
            Ok(tools) => {
                let listed = listed_tools(response@)->0;
                &&& listed_tools(response@) is Some
                &&& all_named(listed)
                &&& tools@.len() == listed.len()
                &&& forall|i: int|
                    0 <= i < tools@.len() ==> is_registration(
                        #[trigger] tools@[i],
                        server@,
                        unprefixed,
                        listed[i],
                    )
            },
            Err(e) => match listed_tools(response@) {
                None => e@ == "MCP server did not return tools array"@,
                Some(listed) => !all_named(listed) && e@ == "MCP server '"@ + server@
                    + "' listed a tool with no name, which the protocol requires. Nothing can call it and nothing else it offers can be trusted to be described correctly either."@,
            },
        },
{
    let listed: &Vec<Json> = match response.get("result") {
        Some(r) => match r.get_array("tools") {
            Some(t) => t,
            None => return Err("MCP server did not return tools array".to_owned()),
        },
        None => return Err("MCP server did not return tools array".to_owned()),
    };
    let ghost all = array_view(listed@);
    let mut out: Vec<RegisteredTool> = Vec::new();
    for i in 0..listed.len()
        invariant
            all == array_view(listed@),
            listed_tools(response@) == Some(all),
            out@.len() == i,
            forall|j: int|
                0 <= j < i ==> (#[trigger] all[j]).field_text("name"@) is Some,
            forall|j: int|
                0 <= j < i ==> is_registration(#[trigger] out@[j], server@, unprefixed, all[j]),
    {
        assert(all[i as int] == listed@[i as int]@);
        match listed[i].get_str("name") {
            Some(name) => {
                let prefixed = if unprefixed {
                    name.to_owned()
                } else {
                    let mut p = server.to_owned();
                    p.append("__");
                    p.append(name);
                    p
                };
                out.push(
                    RegisteredTool {
                        prefixed_name: prefixed,
                        tool_name: name.to_owned(),
                        schema: listed[i].clone(),
                    },
                );
            },
            None => {
                assert(!all_named(all));
                let mut e = "MCP server '".to_owned();
                e.append(server);
                e.append(
                    "' listed a tool with no name, which the protocol requires. Nothing can call it and nothing else it offers can be trusted to be described correctly either.",
                );
                return Err(e);
            },
        }
    }
    Ok(out)
}

// ── Calling a tool ────────────────────────────────────────────────────────────

/// The parameters of `tools/call`.
pub open spec fn call_value(tool: Seq<char>, arguments: JsonView) -> JsonView {
    JsonView::Object(map!["name"@ => JsonView::Text(tool), "arguments"@ => arguments])
}

/// The parameters of `tools/call`.
pub fn call_params(tool: &str, arguments: &Json) -> (r: Json)
    ensures
        r@ == call_value(tool@, arguments@),
{
    let mut out: Dict<Json> = Dict::new();
    out.put("name", Json::text(tool));
    out.put("arguments", arguments.clone());
    Json::Object(out)
}

/// Whether a block of a result is a picture: one without a text.
pub open spec fn is_picture(item: JsonView) -> bool {
    item.field_text("text"@) is None && item.field_text("type"@) == Some("image"@)
}

/// What the text of a result has in place of a block: its text, a marker for a picture, and
/// the block itself for anything else.
pub open spec fn part_text(item: JsonView) -> Seq<char> {
    match item.field_text("text"@) {
        Some(s) => s,
        None => if is_picture(item) {
            "[image]"@
        } else {
            json_text(item)
        },
    }
}

/// The pictures of a result.
pub open spec fn pictures(items: Seq<JsonView>) -> Seq<JsonView>
    decreases items.len(),
{
    if items.len() == 0 {
        items
    } else if is_picture(items.last()) {
        pictures(items.drop_last()).push(items.last())
    } else {
        pictures(items.drop_last())
    }
}

/// The text of a result: a line for each block, or the whole result where it has none.
pub open spec fn result_text(result: JsonView) -> Seq<char> {
    match result.field_items("content"@) {
        Some(items) => join(items.map_values(|i: JsonView| part_text(i)), "\n"@),
        None => json_text(result),
    }
}

/// The pictures of a result.
pub open spec fn result_pictures(result: JsonView) -> Seq<JsonView> {
    match result.field_items("content"@) {
        Some(items) => pictures(items),
        None => Seq::empty(),
    }
}

/// Split a tool result's content into the text the model reads and the image blocks it should
/// see. The text keeps a marker where each picture was.
pub fn split_content(result: &Json) -> (r: (String, Vec<Json>))
    ensures
        r.0@ == result_text(result@),
        array_view(r.1@) == result_pictures(result@),
{
    let mut images: Vec<Json> = Vec::new();
    let items = match result.get_array("content") {
        Some(items) => items,
        None => {
            assert(array_view(images@) =~= Seq::<JsonView>::empty());
            return (json::print(result), images);
        },
    };
    let ghost all = array_view(items@);
    let mut parts: Vec<String> = Vec::new();
    assert(array_view(images@) =~= pictures(all.take(0)));
    for i in 0..items.len()
        invariant
            all == array_view(items@),
            parts@.len() == i,
            forall|j: int| 0 <= j < i ==> (#[trigger] parts@[j])@ == part_text(all[j]),
            array_view(images@) == pictures(all.take(i as int)),
    {
        assert(all.take(i + 1).drop_last() =~= all.take(i as int));
        assert(all.take(i + 1).last() == items@[i as int]@);
        let item = &items[i];
        match item.get_str("text") {
            Some(s) => parts.push(s.to_owned()),
            None => {
                let image = match item.get_str("type") {
                    Some(kind) => text::same(kind, "image"),
                    None => false,
                };
                if image {
                    let ghost before = images@;
                    images.push(item.clone());
                    assert(array_view(images@) =~= array_view(before).push(items@[i as int]@));
                    parts.push("[image]".to_owned());
                } else {
                    parts.push(json::print(item));
                }
            },
        }
    }
    assert(all.take(all.len() as int) =~= all);
    assert(texts(parts@) =~= all.map_values(|i: JsonView| part_text(i)));
    (text::joined(&parts, "\n"), images)
}

/// What an agent reads of a result: its text, kept to the limit, with what the server reported
/// appended. The limit cannot cut the report.
pub open spec fn answer_text(
    server: Seq<char>,
    result: JsonView,
    max_output_chars: usize,
    notes: Seq<NoteView>,
) -> Seq<char> {
    let capped = capped_text(result_text(result), max_output_chars as nat);
    if notes.len() == 0 {
        capped
    } else if trim(capped).len() == 0 {
        annotation_text(server, notes)
    } else {
        capped + "\n\n"@ + annotation_text(server, notes)
    }
}

/// However much a server reports, one result carries at most twenty of its reports and a count
/// of the rest.
pub proof fn law_few_reports_travel_with_one_result(v: HealthView)
    requires
        is_log(v),
    ensures
        handed_out(v).len() <= MAX_NOTES + 1,
        v.dropped == 0 ==> handed_out(v).len() <= MAX_NOTES,
{
}

/// Whether a result says that the session is to end.
pub open spec fn ends_session(result: JsonView) -> bool {
    match result.field("_meta"@) {
        Some(m) => m.field_bool("session_ends"@) == Some(true),
        None => false,
    }
}

/// What a call got: what the agent reads, the pictures, and whether the session is to end; or
/// what it failed with.
pub open spec fn call_outcome(
    server: Seq<char>,
    tool: Seq<char>,
    response: JsonView,
    max_output_chars: usize,
    notes: Seq<NoteView>,
) -> Result<(Seq<char>, Seq<JsonView>, bool), Seq<char>> {
    match response.field("result"@) {
        None => Err("MCP server did not return a result"@),
        Some(result) => {
            let said = answer_text(server, result, max_output_chars, notes);
            if result.field_bool("isError"@) == Some(true) {
                Err(
                    "Tool '"@ + tool + "' on MCP server '"@ + server + "' reported an error: "@
                        + said,
                )
            } else {
                Ok((said, result_pictures(result), ends_session(result)))
            }
        },
    }
}

/// Reads the answer to `tools/call`. Everything the server has reported since its last result
/// goes out with this one, on the error path too: that is when the agent most needs it.
pub fn read_call_result(
    server: &str,
    tool: &str,
    response: &Json,
    max_output_chars: usize,
    health: &mut HealthLog,
) -> (r: Result<ToolCallResult, String>)
    requires
        old(health).wf(),
    ensures
        final(health).wf(),
        response@.field("result"@) is None ==> *final(health) == *old(health),
        response@.field("result"@) is Some ==> final(health)@ == drained(old(health)@),
        call_outcome(server@, tool@, response@, max_output_chars, handed_out(old(health)@))
            == match r {
            Ok(out) => Ok::<(Seq<char>, Seq<JsonView>, bool), Seq<char>>(
                (out.content@, array_view(out.images@), out.session_ends),
            ),
            Err(e) => Err::<(Seq<char>, Seq<JsonView>, bool), Seq<char>>(e@),
        },
{
    let result = match response.get("result") {
        Some(v) => v,
        None => return Err("MCP server did not return a result".to_owned()),
    };
    let is_error = match result.get_bool("isError") {
        Some(b) => b,
        None => false,
    };
    let session_ends = match result.get("_meta") {
        Some(m) => match m.get_bool("session_ends") {
            Some(b) => b,
            None => false,
        },
        None => false,
    };
    let (content, images) = split_content(result);
    let capped = tool_output::cap(content.as_str(), max_output_chars);
    let notes = health.drain();
    let note = tool_health::annotation(server, notes.as_slice());
    let said = tool_health::with_annotation(capped.text, note);
    if is_error {
        let mut e = "Tool '".to_owned();
        e.append(tool);
        e.append("' on MCP server '");
        e.append(server);
        e.append("' reported an error: ");
        e.append(said.as_str());
        return Err(e);
    }
    Ok(ToolCallResult { content: said, images, session_ends })
}

/// A server's report reaches exactly one result: the next one carries it, and the one after
/// does not, even where the server has said it again in between.
pub proof fn law_a_report_reaches_one_result(
    server: Seq<char>,
    first: JsonView,
    second: JsonView,
    max_output_chars: usize,
    v: HealthView,
    repeats: Seq<NoteView>,
)
    requires
        is_log(v),
        v.held.len() > 0,
        forall|k: int|
            0 <= k < repeats.len() ==> v.reported.contains(trim((#[trigger] repeats[k]).message)),
        trim(capped_text(result_text(first), max_output_chars as nat)).len() > 0,
    ensures
        answer_text(server, first, max_output_chars, handed_out(v)) == capped_text(
            result_text(first),
            max_output_chars as nat,
        ) + "\n\n"@ + annotation_text(server, handed_out(v)),
        answer_text(
            server,
            second,
            max_output_chars,
            handed_out(all_recorded(drained(v), repeats)),
        ) == capped_text(result_text(second), max_output_chars as nat),
{
    law_repeats_are_not_news(drained(v), repeats);
}

// ── What a result says ────────────────────────────────────────────────────────

/// The text of a result holds what every block of it says, whole and in order, a line each: of
/// text blocks their texts, a marker for a picture, and the block itself for any other.
pub proof fn law_the_text_of_a_result_holds_every_block(
    result: JsonView,
    items: Seq<JsonView>,
    i: int,
)
    requires
        result.field_items("content"@) == Some(items),
        0 <= i < items.len(),
    ensures
        ({
            let said = Seq::new(
                items.len(),
                |k: int|
                    match items[k].field_text("text"@) {
                        Some(s) => s,
                        None => if items[k].field_text("type"@) == Some("image"@) {
                            "[image]"@
                        } else {
                            json_text(items[k])
                        },
                    },
            );
            let at = total_len(said.take(i)) + i;
            &&& result_text(result).len() == total_len(said) + items.len() - 1
            &&& result_text(result).subrange(at, at + said[i].len()) == said[i]
            &&& i > 0 ==> result_text(result)[at - 1] == '\n'
        }),
{
    let said = Seq::new(
        items.len(),
        |k: int|
            match items[k].field_text("text"@) {
                Some(s) => s,
                None => if items[k].field_text("type"@) == Some("image"@) {
                    "[image]"@
                } else {
                    json_text(items[k])
                },
            },
    );
    assert(items.map_values(|x: JsonView| part_text(x)) =~= said);
    reveal_strlit("\n");
    law_joined_parts_stand_in_their_order(said, "\n"@, i);
    assert(i * "\n"@.len() == i) by (nonlinear_arith)
        requires
            "\n"@.len() == 1,
    ;
    assert((said.len() - 1) * "\n"@.len() == said.len() - 1) by (nonlinear_arith)
        requires
            "\n"@.len() == 1,
    ;
    let at = total_len(said.take(i)) + i;
    if i > 0 {
        assert(result_text(result).subrange(at - 1, at)[0] == '\n');
    }
}

/// Every picture of a result travels, as it is and in order, and nothing else does: one more
/// block adds to the pictures exactly where it is one.
pub proof fn law_every_picture_of_a_result_travels(items: Seq<JsonView>, item: JsonView)
    ensures
        pictures(Seq::empty()).len() == 0,
        item.field_text("type"@) == Some("image"@) && item.field_text("text"@) is None ==> pictures(
            items.push(item),
        ) == pictures(items).push(item),
        item.field_text("type"@) != Some("image"@) || item.field_text("text"@) is Some
            ==> pictures(items.push(item)) == pictures(items),
{
    assert(items.push(item).drop_last() =~= items);
}

/// What an agent reads of a result begins with the result, and is nothing else on a healthy
/// call; what a server reported is behind it, never cut.
pub proof fn law_a_report_is_behind_the_answer(
    server: Seq<char>,
    result: JsonView,
    max_output_chars: usize,
    notes: Seq<NoteView>,
)
    ensures
        ({
            let said = answer_text(server, result, max_output_chars, notes);
            let shown = capped_text(result_text(result), max_output_chars as nat);
            let report = annotation_text(server, notes);
            &&& notes.len() == 0 && result_text(result).len() <= max_output_chars ==> said
                == result_text(result)
            &&& notes.len() == 0 ==> said == shown
            &&& notes.len() > 0 ==> said.len() >= report.len() && said.skip(
                said.len() - report.len(),
            ) == report
            &&& notes.len() > 0 && trim(shown).len() > 0 ==> said.len() > shown.len()
                && said.take(shown.len() as int) == shown
        }),
{
    let said = answer_text(server, result, max_output_chars, notes);
    let shown = capped_text(result_text(result), max_output_chars as nat);
    let report = annotation_text(server, notes);
    if notes.len() > 0 {
        reveal_strlit("\n\n");
        assert(said.skip(said.len() - report.len()) =~= report);
        if trim(shown).len() > 0 {
            assert(said.take(shown.len() as int) =~= shown);
        }
    }
}

/// A call fails exactly where the server returned no result or says that it is an error, and
/// then with what was said; else its answer is what was said, its pictures travel, and the
/// session ends exactly where the server says so.
pub proof fn law_a_call_is_read_as_it_was_answered(
    server: Seq<char>,
    tool: Seq<char>,
    response: JsonView,
    result: JsonView,
    max_output_chars: usize,
    notes: Seq<NoteView>,
)
    ensures
        response.field("result"@) is None ==> call_outcome(
            server,
            tool,
            response,
            max_output_chars,
            notes,
        ) is Err,
        response.field("result"@) == Some(result) ==> {
            let said = answer_text(server, result, max_output_chars, notes);
            let outcome = call_outcome(server, tool, response, max_output_chars, notes);
            &&& outcome is Err <==> result.field("isError"@) == Some(JsonView::Bool(true))
            &&& outcome is Err ==> {
                let e = outcome->Err_0;
                &&& e.len() >= said.len()
                &&& e.skip(e.len() - said.len()) == said
            }
            &&& outcome is Ok ==> {
                &&& outcome->Ok_0.0 == said
                &&& outcome->Ok_0.1 == result_pictures(result)
                &&& outcome->Ok_0.2 <==> result.field("_meta"@) is Some && result.field(
                    "_meta"@,
                )->0.field("session_ends"@) == Some(JsonView::Bool(true))
            }
        },
{
    if response.field("result"@) == Some(result) {
        let said = answer_text(server, result, max_output_chars, notes);
        if let Err(e) = call_outcome(server, tool, response, max_output_chars, notes) {
            assert(e.skip(e.len() - said.len()) =~= said);
        }
    }
}

/// What is waited for is the value with the id that was sent, or one whose id the server could
/// not read; one with another id answers an earlier request; and one without is no answer.
pub proof fn law_an_answer_names_its_request(value: JsonView, id: u64, expected_id: u64)
    ensures
        incoming(value, expected_id) == Incoming::TheAnswer <==> value.field("id"@) == Some(
            JsonView::Null,
        ) || value.field("id"@) == Some(JsonView::Number(Num::PosInt(expected_id))),
        incoming(value, expected_id) == Incoming::Abandoned(id) <==> id != expected_id
            && value.field("id"@) == Some(JsonView::Number(Num::PosInt(id))),
        value.field("id"@) is None ==> incoming(value, expected_id) == Incoming::NotAResponse,
{
}

/// A request carries its id, what is asked, and with what.
pub proof fn law_a_request_carries_what_is_asked(id: u64, method: Seq<char>, params: JsonView)
    ensures
        request_value(id, method, params).field("id"@) == Some(JsonView::Number(Num::PosInt(id))),
        request_value(id, method, params).field_text("method"@) == Some(method),
        request_value(id, method, params).field("params"@) == Some(params),
        request_value(id, method, params).field_text("jsonrpc"@) == Some("2.0"@),
{
    reveal_strlit("jsonrpc");
    reveal_strlit("id");
    reveal_strlit("method");
    reveal_strlit("params");
    assert("jsonrpc"@.len() == 7 && "id"@.len() == 2 && "method"@.len() == 6 && "params"@.len()
        == 6);
    assert("method"@[0] != "params"@[0]);
}

/// A tool is called by its own name where its server asks for that, and else by its server's
/// name and its own; two tools of one server are never called by one name.
pub proof fn law_tools_of_a_server_are_told_apart(
    server: Seq<char>,
    unprefixed: bool,
    tool: Seq<char>,
    other: Seq<char>,
)
    ensures
        called_name(server, true, tool) == tool,
        called_name(server, false, tool).take(server.len() as int) == server,
        called_name(server, false, tool).skip(server.len() as int + 2) == tool,
        called_name(server, false, tool).len() == server.len() + 2 + tool.len(),
        called_name(server, false, tool)[server.len() as int] == '_',
        called_name(server, false, tool)[server.len() as int + 1] == '_',
        called_name(server, unprefixed, tool) == called_name(server, unprefixed, other) <==> tool
            == other,
{
    reveal_strlit("__");
    let a = called_name(server, false, tool);
    let b = called_name(server, false, other);
    assert(a.take(server.len() as int) =~= server);
    assert(a.skip(server.len() as int + 2) =~= tool);
    assert(b.skip(server.len() as int + 2) =~= other);
}

/// What a server logs reaches the agent exactly where its level is one of those that matter,
/// with how bad it is and what it says behind who says it.
pub proof fn law_a_log_message_is_reported_by_its_level(params: JsonView)
    ensures
        reported(None) is None,
        ({
            let level = match params.field_text("level"@) {
                Some(l) => lowercase(trim(l)),
                None => Seq::empty(),
            };
            let report = reported(Some(params));
            &&& report is Some <==> level == "warning"@ || level == "error"@ || level
                == "critical"@ || level == "alert"@ || level == "emergency"@
            &&& report is Some ==> (report->0.severity == Severity::Warning <==> level
                == "warning"@) && report->0.severity != Severity::Routine
            &&& report is Some && params.field("data"@) is Some && params.field("data"@)->0 is Text
                ==> {
                let data = params.field("data"@)->0->Text_0;
                let said = report->0.message;
                &&& said.len() >= data.len()
                &&& said.skip(said.len() - data.len()) == data
                &&& params.field_text("logger"@) is None ==> said == data
            }
        }),
{
    reveal_strlit("");
    reveal_strlit("warning");
    reveal_strlit("error");
    reveal_strlit("critical");
    reveal_strlit("alert");
    reveal_strlit("emergency");
    assert("warning"@.len() == 7 && "error"@.len() == 5 && "critical"@.len() == 8
        && "alert"@.len() == 5 && "emergency"@.len() == 9);
    let level = match params.field_text("level"@) {
        Some(l) => lowercase(trim(l)),
        None => Seq::empty(),
    };
    if params.field_text("level"@) is None {
        assert(""@ =~= Seq::<char>::empty());
        assert(trim(""@).len() == 0);
        assert(lowercase(trim(""@)) =~= Seq::<char>::empty());
    }
    tool_health::law_levels_mean_what_they_say(level);
    if let Some(n) = reported(Some(params)) {
        if let Some(JsonView::Text(data)) = params.field("data"@) {
            assert(n.message.skip(n.message.len() - data.len()) =~= data);
        }
    }
}

/// Only a notification that says it is a log message reports anything, and a line of a log does
/// only where its words are to be read.
pub proof fn law_only_what_is_a_log_is_read_as_one(value: JsonView, line: Seq<char>)
    ensures
        value.field_text("method"@) != Some("notifications/message"@) ==> report_in(value) is None,
        value.field_text("method"@) == Some("notifications/message"@) ==> report_in(value)
            == reported(value.field("params"@)),
        report_on_line(line, false) is None,
        report_on_line(line, true) is Some,
        report_on_line(line, true)->0.message == trim_end(line),
        report_on_line(line, true)->0.severity == words_severity(trim_end(line)),
{
}

/// A server is reached over its pipes exactly where it names a command and no address, over
/// HTTP exactly where it names an address, and not at all where it names neither.
pub proof fn law_a_server_is_reached_by_what_it_names(def: ToolDef)
    ensures
        channel_of(def) is None <==> def.url is None && trim(def.command@).len() == 0,
        channel_of(def) == Some(Channel::Stdio) <==> def.url is None && trim(def.command@).len()
            > 0,
        channel_of(def) == Some(Channel::Http) <==> def.url is Some && trim(def.command@).len()
            == 0,
        channel_of(def) == Some(Channel::HttpToOwnProcess) <==> def.url is Some && trim(
            def.command@,
        ).len() > 0,
{
}

/// What was read is a value as soon as it is one; the beginning of one is read on up to the
/// limit; and nothing else is.
pub proof fn law_reading_goes_on_only_at_the_beginning_of_a_value(
    r: Reading,
    bytes: nat,
    parsed: Result<JsonView, (Seq<char>, bool)>,
)
    requires
        is_reading(r, bytes, parsed),
    ensures
        r is Value <==> parsed is Ok,
        r is Value ==> r->Value_0@ == parsed->Ok_0,
        r is More <==> parsed is Err && parsed->Err_0.1 && bytes <= 10_485_760,
{
}

/// A server that says how long a request may take and how much of a result is wanted is taken
/// at its word, and one that does not gets the default.
pub proof fn law_a_servers_own_limits_come_first(def: ToolDef, default_timeout: Duration)
    ensures
        def.request_timeout_secs is Some ==> timeout_of(def, default_timeout).secs
            == def.request_timeout_secs->0 && timeout_of(def, default_timeout).nanos == 0,
        def.request_timeout_secs is None ==> timeout_of(def, default_timeout) == default_timeout,
        def.max_output_chars is Some && def.max_output_chars->0 > 0 ==> output_limit_of(def)
            == def.max_output_chars->0,
        def.max_output_chars is None || def.max_output_chars == Some(0usize) ==> output_limit_of(
            def,
        ) == 50_000,
{
}

/// A server is told who asks, which protocol is spoken, and that its log is listened to.
pub proof fn law_a_server_is_told_who_asks(name: Seq<char>, version: Seq<char>)
    ensures
        ({
            let v = initialize_value(name, version);
            &&& v.field_text("protocolVersion"@) == Some("2024-11-05"@)
            &&& v.field("capabilities"@) is Some
            &&& v.field("capabilities"@)->0.field("logging"@) is Some
            &&& v.field("clientInfo"@) is Some
            &&& v.field("clientInfo"@)->0.field_text("name"@) == Some(name)
            &&& v.field("clientInfo"@)->0.field_text("version"@) == Some(version)
        }),
{
    reveal_strlit("protocolVersion");
    reveal_strlit("capabilities");
    reveal_strlit("clientInfo");
    reveal_strlit("name");
    reveal_strlit("version");
    assert("protocolVersion"@.len() == 15 && "capabilities"@.len() == 12 && "clientInfo"@.len()
        == 10 && "name"@.len() == 4 && "version"@.len() == 7);
}

/// A server is taken at its word about itself, and what it does not say is unknown; it is asked
/// for its warnings exactly where it says that it can send them.
pub proof fn law_a_server_is_taken_at_its_word(intro: ServerIntroduction, result: JsonView)
    requires
        introduces(intro, result),
    ensures
        result.field("serverInfo"@) is Some && result.field("serverInfo"@)->0.field_text("name"@)
            is Some ==> intro.name@ == result.field("serverInfo"@)->0.field_text("name"@)->0,
        result.field("serverInfo"@) is Some && result.field("serverInfo"@)->0.field_text(
            "version"@,
        ) is Some ==> intro.version@ == result.field("serverInfo"@)->0.field_text("version"@)->0,
        result.field("serverInfo"@) is None ==> intro.name@ == "unknown"@ && intro.version@
            == "unknown"@,
        result.field_text("protocolVersion"@) is Some ==> intro.protocol is Some
            && intro.protocol->0@ == result.field_text("protocolVersion"@)->0,
        result.field_text("protocolVersion"@) is None ==> intro.protocol is None,
        intro.logs <==> result.field("capabilities"@) is Some && result.field(
            "capabilities"@,
        )->0.field("logging"@) is Some,
        level_asked(intro.logs) is Some <==> intro.logs,
        intro.logs ==> level_asked(intro.logs)->0.field_text("level"@) == Some("warning"@),
{
}

/// A tool is called by the name its server knows it by, with the arguments it was called with.
pub proof fn law_a_call_carries_its_arguments(tool: Seq<char>, arguments: JsonView)
    ensures
        call_value(tool, arguments).field_text("name"@) == Some(tool),
        call_value(tool, arguments).field("arguments"@) == Some(arguments),
{
    reveal_strlit("name");
    reveal_strlit("arguments");
    assert("name"@.len() == 4 && "arguments"@.len() == 9);
}

/// A notification carries what it is about and has no id, so that nothing answers it.
pub proof fn law_a_notification_has_no_id(method: Seq<char>, params: JsonView)
    ensures
        notification_value(method, params).field_text("method"@) == Some(method),
        notification_value(method, params).field("params"@) == Some(params),
        notification_value(method, params).field("id"@) is None,
{
    reveal_strlit("jsonrpc");
    reveal_strlit("id");
    reveal_strlit("method");
    reveal_strlit("params");
    assert("jsonrpc"@.len() == 7 && "id"@.len() == 2 && "method"@.len() == 6 && "params"@.len()
        == 6);
    assert("method"@[0] != "params"@[0]);
}

/// An answer is an error exactly where it has one, and then with what the server says of it.
pub proof fn law_an_answer_with_an_error_is_one(response: JsonView)
    ensures
        error_in(response) is Some <==> response.field("error"@) is Some,
        response.field("error"@) is Some && response.field("error"@)->0.field_text("message"@)
            is Some ==> {
            let said = response.field("error"@)->0.field_text("message"@)->0;
            let e = error_in(response)->0;
            &&& e.len() >= said.len()
            &&& e.skip(e.len() - said.len()) == said
        },
{
    if response.field("error"@) is Some && response.field("error"@)->0.field_text("message"@)
        is Some {
        let said = response.field("error"@)->0.field_text("message"@)->0;
        let e = error_in(response)->0;
        assert(e.skip(e.len() - said.len()) =~= said);
    }
}

/// A report is kept wherever it comes on the way to an answer, and an answer is never taken for
/// a report.
pub proof fn law_a_report_on_the_way_is_kept(v: HealthView, value: JsonView, expected_id: u64)
    ensures
        value.field("id"@) is None && report_in(value) is Some ==> after_message(
            v,
            value,
            expected_id,
        ) == recorded(v, report_in(value)->0.severity, report_in(value)->0.message),
        report_in(value) is None ==> after_message(v, value, expected_id) == v,
        incoming(value, expected_id) != Incoming::NotAResponse ==> after_message(
            v,
            value,
            expected_id,
        ) == v,
{
}

/// A server that failed to start is quoted on every channel on which it said anything, and on
/// no other.
pub proof fn law_a_server_is_quoted_where_it_said_anything(channel: Seq<char>, output: Seq<char>)
    ensures
        trim(output).len() == 0 ==> channel_said(channel, output).len() == 0,
        trim(output).len() > 0 ==> text::contains(channel_said(channel, output), channel)
            && text::contains(channel_said(channel, output), trim_end(output)),
{
    if trim(output).len() > 0 {
        let a = "\n--- "@;
        let b = " ---\n"@ + trim_end(output) + "\n---------------"@;
        assert(channel_said(channel, output) =~= a + channel + b);
        text::law_what_occurs_is_a_part(a, channel, b);
        let c = "\n--- "@ + channel + " ---\n"@;
        text::law_what_occurs_is_a_part(c, trim_end(output), "\n---------------"@);
    }
}

/// What a server lists is registered tool for tool, each under the name the server gives it,
/// under the name the model calls it by, and with all that the server says of it; and a listing
/// with a tool that has no name is none.
pub proof fn law_a_tool_is_registered_as_it_is_listed(
    response: JsonView,
    result: JsonView,
    tools: Seq<JsonView>,
    t: RegisteredTool,
    server: Seq<char>,
    unprefixed: bool,
    listed: JsonView,
)
    ensures
        response.field("result"@) == Some(result) ==> listed_tools(response) == result.field_items(
            "tools"@,
        ),
        response.field("result"@) is None ==> listed_tools(response) is None,
        all_named(tools) <==> forall|i: int|
            0 <= i < tools.len() ==> (#[trigger] tools[i]).field_text("name"@) is Some,
        is_registration(t, server, unprefixed, listed) ==> {
            &&& listed.field_text("name"@) == Some(t.tool_name@)
            &&& unprefixed ==> t.prefixed_name@ == t.tool_name@
            &&& !unprefixed ==> t.prefixed_name@ == server + "__"@ + t.tool_name@
            &&& t.schema@ == listed
        },
        listed.field_text("name"@) == Some(t.tool_name@) && t.schema@ == listed && t.prefixed_name@
            == called_name(server, unprefixed, t.tool_name@) ==> is_registration(
            t,
            server,
            unprefixed,
            listed,
        ),
{
}

/// The pictures that travel with a result are those of its content.
pub proof fn law_the_pictures_of_a_result_are_its_contents(result: JsonView, items: Seq<JsonView>)
    ensures
        result.field_items("content"@) == Some(items) ==> result_pictures(result) == pictures(items),
        result.field_items("content"@) is None ==> result_pictures(result).len() == 0
            && result_text(result) == json_text(result),
{
}

} // verus!
