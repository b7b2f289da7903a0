use atoma::clock::Duration;
use atoma::dict::Dict;
use atoma::domain::tool::{Hooks, ToolDef};
use atoma::domain::tool_health::{HealthLog, Severity};
use atoma::infra::mcp::findings::{
    field, findings, report_on, Finding, FindingKind, LogLine, RegisteredTool,
};
use atoma::infra::mcp::http::{parse_body, sse_events, sse_messages, Http, HttpReply};
use atoma::infra::mcp::registry::{
    check_server_names, hook_payload, with_notice, McpRegistry, McpRegistryFactory,
};
use atoma::infra::mcp::{
    call_params, classify, client_capabilities, connection_plan, default_request_timeout,
    init_timeout, initialize_failed, initialize_params, initialize_timed_out, level_request,
    log_note,
    notification, on_log_line, on_message, read_call_result, read_introduction, read_so_far,
    registered_tools, response_error, split_content, what_it_said, Channel, Incoming, Reading,
    Requests, LOG_NOTIFICATION, MAX_VALUE_BYTES,
};
use atoma::json::{parse, print, Json};

fn json(text: &str) -> Json {
    parse(text).unwrap()
}

fn texts(list: &[&str]) -> Vec<String> {
    list.iter().map(|s| s.to_string()).collect()
}

// ── Results ───────────────────────────────────────────────────────────────────

#[test]
fn an_image_leaves_the_text_and_travels_on_its_own() {
    let result = json(
        r#"{"content": [
            {"type": "text", "text": "Here is the screen:"},
            {"type": "image", "data": "AAAA", "mimeType": "image/png"}
        ]}"#,
    );
    let (text, images) = split_content(&result);
    assert_eq!(text, "Here is the screen:\n[image]");
    assert_eq!(images.len(), 1);
    assert_eq!(images[0].get_str("data"), Some("AAAA"));
    assert!(
        !text.contains("AAAA"),
        "base64 must not be left in the text"
    );
}

#[test]
fn a_text_only_result_is_unchanged_and_carries_no_images() {
    let result = json(r#"{"content": [{"type": "text", "text": "done"}]}"#);
    assert_eq!(split_content(&result), ("done".to_string(), Vec::new()));
}

#[test]
fn an_unknown_block_is_still_serialised_into_the_text() {
    let result = json(r#"{"content": [{"type": "audio", "data": "BBBB"}]}"#);
    let (text, images) = split_content(&result);
    assert!(text.contains("audio"));
    assert!(images.is_empty());
    assert_eq!(text, r#"{"data":"BBBB","type":"audio"}"#);
}

#[test]
fn a_result_without_content_falls_back_to_the_whole_value() {
    let result = json(r#"{"unexpected": true}"#);
    let (text, images) = split_content(&result);
    assert!(text.contains("unexpected"));
    assert!(images.is_empty());
}

fn result(body: &str) -> Json {
    json(&format!("{{\"id\": 1, \"result\": {body}}}"))
}

#[test]
fn a_report_goes_out_with_the_next_result_and_no_later_one() {
    let mut health = HealthLog::default();
    health.record(Severity::Warning, "degraded");
    let answer = result(r#"{"content": [{"type": "text", "text": "found"}]}"#);
    let first = read_call_result("search", "find", &answer, 100, &mut health).unwrap();
    assert_eq!(
        first.content,
        "found\n\n--- 1 problem reported by the 'search' server, not part of the answer above ---\nwarning: degraded"
    );
    let second = read_call_result("search", "find", &answer, 100, &mut health).unwrap();
    assert_eq!(second.content, "found");
}

#[test]
fn a_report_that_comes_again_goes_out_once() {
    let mut health = HealthLog::default();
    let note = json(
        r#"{"method": "notifications/message", "params": {"level": "warning", "data": "degraded"}}"#,
    );
    let answer = result(r#"{"content": [{"type": "text", "text": "found"}]}"#);
    on_message(&mut health, &note, 1);
    let first = read_call_result("search", "find", &answer, 100, &mut health).unwrap();
    assert!(first.content.ends_with("warning: degraded"));
    on_message(&mut health, &note, 2);
    on_log_line(&mut health, "  degraded\n", true);
    let second = read_call_result("search", "find", &answer, 100, &mut health).unwrap();
    assert_eq!(second.content, "found");
}

#[test]
fn an_error_is_one_and_carries_the_report_too() {
    let mut health = HealthLog::default();
    health.record(Severity::Error, "down");
    let answer = result(r#"{"isError": true, "content": [{"type": "text", "text": "no"}]}"#);
    let error = read_call_result("search", "find", &answer, 100, &mut health).unwrap_err();
    assert!(
        error.starts_with("Tool 'find' on MCP server 'search' reported an error: no\n\n--- 1 "),
        "{error}"
    );
    let missing = read_call_result("search", "find", &json("{}"), 100, &mut health).unwrap_err();
    assert_eq!(missing, "MCP server did not return a result");
}

#[test]
fn a_long_result_is_capped_and_its_report_is_not() {
    let mut health = HealthLog::default();
    health.record(Severity::Warning, "degraded");
    let long = "x".repeat(500);
    let answer = result(&format!(
        r#"{{"content": [{{"type": "text", "text": "{long}"}}]}}"#
    ));
    let read = read_call_result("s", "t", &answer, 100, &mut health).unwrap();
    assert!(read
        .content
        .contains("400 characters dropped from the middle"));
    assert!(read.content.ends_with("warning: degraded"));
}

#[test]
fn a_result_may_end_the_session() {
    let mut health = HealthLog::default();
    let read = |body: &str, health: &mut HealthLog| {
        read_call_result("s", "t", &result(body), 100, health)
            .unwrap()
            .session_ends
    };
    assert!(read(
        r#"{"content": [], "_meta": {"session_ends": true}}"#,
        &mut health
    ));
    assert!(!read(r#"{"content": [], "_meta": {}}"#, &mut health));
    assert!(!read(r#"{"content": []}"#, &mut health));
}

// ── What a server sends ───────────────────────────────────────────────────────

#[test]
fn a_late_response_to_an_abandoned_request_is_not_the_answer() {
    let stale = json(r#"{"jsonrpc": "2.0", "id": 7, "result": {"content": []}}"#);
    assert_eq!(classify(&stale, 8), Incoming::Abandoned(7));
}

#[test]
fn the_response_with_the_matching_id_is_the_answer() {
    let fresh = json(r#"{"jsonrpc": "2.0", "id": 8, "result": {"content": []}}"#);
    assert_eq!(classify(&fresh, 8), Incoming::TheAnswer);
}

#[test]
fn a_notification_has_no_id_and_answers_nothing() {
    let progress = json(r#"{"jsonrpc": "2.0", "method": "notifications/progress"}"#);
    assert_eq!(classify(&progress, 8), Incoming::NotAResponse);
}

#[test]
fn a_null_id_carries_an_error_about_the_request_in_flight() {
    let parse_error = json(r#"{"jsonrpc": "2.0", "id": null, "error": {"code": -32700}}"#);
    assert_eq!(classify(&parse_error, 8), Incoming::TheAnswer);
}

#[test]
fn an_id_that_is_not_a_u64_is_never_the_answer() {
    for id in ["-1", "1.5"] {
        let value = json(&format!(
            r#"{{"jsonrpc": "2.0", "id": {id}, "result": {{}}}}"#
        ));
        assert_ne!(classify(&value, 8), Incoming::TheAnswer, "{id}");
    }
}

#[test]
fn several_stale_responses_are_all_read_past() {
    let queued = [
        json(r#"{"id": 5, "result": {}}"#),
        json(r#"{"id": 6, "result": {}}"#),
    ];
    for value in &queued {
        assert!(matches!(classify(value, 7), Incoming::Abandoned(_)));
    }
    assert_eq!(
        classify(&json(r#"{"id": 7, "result": {}}"#), 7),
        Incoming::TheAnswer
    );
}

#[test]
fn a_warning_carries_the_servers_own_severity() {
    let params = json(r#"{"level": "warning", "data": "reranker unavailable"}"#);
    assert_eq!(
        log_note(Some(&params)),
        Some((Severity::Warning, "reranker unavailable".to_string())),
    );
}

#[test]
fn an_info_message_is_not_a_report() {
    let params = json(r#"{"level": "info", "data": "listening"}"#);
    assert_eq!(log_note(Some(&params)), None);
}

#[test]
fn a_notification_without_a_level_is_dropped() {
    assert_eq!(log_note(Some(&json(r#"{"data": "something"}"#))), None);
    assert_eq!(log_note(None), None);
}

#[test]
fn the_logger_name_is_kept_when_there_is_one() {
    let params = json(r#"{"level": "error", "logger": "search.index", "data": "no such path"}"#);
    let (severity, message) = log_note(Some(&params)).expect("an error is a report");
    assert_eq!(severity, Severity::Error);
    assert_eq!(message, "search.index: no such path");
}

#[test]
fn structured_data_survives_as_text() {
    let params = json(r#"{"level": "warning", "data": {"stage": "rerank", "fell_back": true}}"#);
    let (_, message) = log_note(Some(&params)).unwrap();
    assert!(message.contains("rerank"), "{message}");
    assert!(message.contains("fell_back"), "{message}");
}

#[test]
fn a_bare_level_is_still_a_report() {
    let (severity, message) = log_note(Some(&json(r#"{"level": "error"}"#))).unwrap();
    assert_eq!(severity, Severity::Error);
    assert_eq!(
        message, "",
        "empty here; `HealthLog::record` is what refuses it"
    );
}

#[test]
fn the_method_name_is_the_one_mcp_defines() {
    assert_eq!(LOG_NOTIFICATION, "notifications/message");
}

#[test]
fn the_client_says_it_will_listen_to_log_notifications() {
    let capabilities = client_capabilities();
    assert!(
        capabilities.get("logging").is_some(),
        "a server may send nothing to a client that did not ask: {capabilities:?}",
    );
}

#[test]
fn a_report_on_the_way_to_an_answer_is_kept() {
    let mut health = HealthLog::default();
    let note = json(
        r#"{"method": "notifications/message", "params": {"level": "warning", "data": " slow "}}"#,
    );
    assert_eq!(on_message(&mut health, &note, 3), Incoming::NotAResponse);
    assert_eq!(
        on_message(&mut health, &json(r#"{"id": 2}"#), 3),
        Incoming::Abandoned(2)
    );
    assert_eq!(
        on_message(&mut health, &json(r#"{"id": 3}"#), 3),
        Incoming::TheAnswer
    );
    let notes = health.drain();
    assert_eq!(notes.len(), 1);
    assert_eq!(notes[0].message, "slow");
}

#[test]
fn a_line_of_a_log_is_a_report_only_where_that_was_asked_for() {
    let mut health = HealthLog::default();
    on_log_line(&mut health, "npm warn deprecated\n", false);
    assert!(health.drain().is_empty());
    on_log_line(&mut health, "npm warn deprecated\n", true);
    assert_eq!(health.drain()[0].message, "npm warn deprecated");
}

#[test]
fn a_value_may_take_several_lines() {
    assert!(matches!(read_so_far("{\n"), Reading::More));
    match read_so_far("{\n\"id\": 1}\n") {
        Reading::Value(v) => assert_eq!(v.get("id").unwrap().as_u64(), Some(1)),
        other => panic!("not a value: {other:?}"),
    }
    match read_so_far("oops\n") {
        Reading::Failed(e) => assert!(
            e.starts_with("Failed to parse MCP JSON-RPC response: "),
            "{e}"
        ),
        other => panic!("not a failure: {other:?}"),
    }
    let endless = format!("\"{}", "x".repeat(MAX_VALUE_BYTES));
    match read_so_far(&endless) {
        Reading::Failed(e) => assert_eq!(e, "MCP response exceeded maximum size (10MB)"),
        other => panic!("not a failure: {other:?}"),
    }
}

// ── Bodies ────────────────────────────────────────────────────────────────────

const JSON: &str = "application/json";
const SSE: &str = "text/event-stream";

fn id(message: &Json) -> Option<u64> {
    message.get("id").and_then(|v| v.as_u64())
}

#[test]
fn one_json_object_is_one_message() {
    let body = r#"{"jsonrpc":"2.0","id":1,"result":{}}"#;
    let messages = parse_body(JSON, body).expect("valid json");
    assert_eq!(messages.len(), 1);
    assert_eq!(id(&messages[0]), Some(1));
}

#[test]
fn a_batch_is_flattened_in_order() {
    let body = r#"[{"id":1,"result":{}},{"id":2,"result":{}}]"#;
    let messages = parse_body(JSON, body).expect("valid json");
    assert_eq!(messages.len(), 2);
    assert_eq!(id(&messages[0]), Some(1));
    assert_eq!(id(&messages[1]), Some(2));
}

#[test]
fn an_empty_body_carries_nothing() {
    assert!(parse_body(JSON, "").expect("empty is fine").is_empty());
    assert!(parse_body(SSE, "   \n").expect("blank is fine").is_empty());
}

#[test]
fn a_body_that_is_not_json_is_an_error_naming_the_body() {
    let message = parse_body(JSON, "<html>gateway timeout</html>").expect_err("not json");
    assert!(message.contains("gateway timeout"), "{message}");
}

#[test]
fn a_stream_carries_a_notification_then_the_answer() {
    let warning =
        r#"{"jsonrpc":"2.0","method":"notifications/message","params":{"level":"warning"}}"#;
    let answer = r#"{"jsonrpc":"2.0","id":7,"result":{}}"#;
    let body = format!("event: message\r\ndata: {warning}\r\n\r\ndata: {answer}\r\n\r\n");
    let messages = parse_body(SSE, &body).expect("a stream parses");
    assert_eq!(messages.len(), 2, "{messages:?}");
    assert_eq!(messages[0].get_str("method"), Some("notifications/message"));
    assert_eq!(id(&messages[1]), Some(7));
}

#[test]
fn several_data_lines_are_one_event() {
    let body = "data: {\ndata: \"id\": 3,\ndata: \"result\": {}\ndata: }\n\n";
    let messages = sse_messages(body);
    assert_eq!(messages.len(), 1, "{messages:?}");
    assert_eq!(id(&messages[0]), Some(3));
    assert_eq!(sse_events(body), vec!["{\n\"id\": 3,\n\"result\": {}\n}"]);
}

#[test]
fn the_last_event_needs_no_blank_line() {
    let messages = sse_messages("data: {\"id\":9,\"result\":{}}");
    assert_eq!(messages.len(), 1);
    assert_eq!(id(&messages[0]), Some(9));
}

#[test]
fn the_fields_this_client_cannot_use_are_ignored() {
    let event = r#"{"id":1,"result":{}}"#;
    let body = format!(": keep-alive\nid: 42\nretry: 3000\nevent: message\ndata: {event}\n\n");
    let messages = sse_messages(&body);
    assert_eq!(messages.len(), 1);
    assert_eq!(id(&messages[0]), Some(1));
}

#[test]
fn an_event_that_is_not_json_is_dropped_and_the_rest_survive() {
    let body = "data: not json at all\n\ndata: {\"id\":2,\"result\":{}}\n\n";
    let messages = sse_messages(body);
    assert_eq!(messages.len(), 1, "{messages:?}");
    assert_eq!(id(&messages[0]), Some(2));
}

fn reply(status: u16, session: Option<&str>, body: &str) -> HttpReply {
    HttpReply {
        session: session.map(str::to_string),
        status,
        shown: format!("{status} X"),
        content_type: JSON.to_string(),
        body: body.to_string(),
    }
}

#[test]
fn a_session_is_remembered_until_the_server_forgets_it() {
    let mut http = Http::new("http://x/mcp".to_string(), Dict::new());
    http.on_reply(&reply(200, Some("s1"), r#"{"id":1}"#))
        .unwrap();
    http.negotiated("2025-03-26");
    assert_eq!(http.session.as_deref(), Some("s1"));
    assert_eq!(http.protocol.as_deref(), Some("2025-03-26"));
    assert_eq!(id(&http.next_message().unwrap()), Some(1));
    assert_eq!(
        http.next_message().unwrap_err(),
        "MCP server at http://x/mcp sent no response to the request"
    );
    http.on_reply(&reply(202, None, "")).unwrap();
    assert_eq!(http.session.as_deref(), Some("s1"));
    assert_eq!(
        http.on_reply(&reply(404, None, "gone")).unwrap_err(),
        "MCP server at http://x/mcp no longer knows this session; it ended the conversation"
    );
    assert_eq!(http.session, None);
    assert_eq!(
        http.on_reply(&reply(404, None, " gone ")).unwrap_err(),
        "MCP server at http://x/mcp answered 404 X: gone"
    );
}

/// The session and the protocol go along once the server has named them, and not before.
#[test]
fn a_request_carries_what_the_server_has_to_be_told() {
    let mut headers: Dict<String> = Dict::new();
    headers.insert("Authorization".to_string(), "Bearer t".to_string());
    headers.entries.push(("X-Twice".to_string(), "first".to_string()));
    headers.entries.push(("X-Twice".to_string(), "second".to_string()));
    let mut http = Http::new("http://x/mcp".to_string(), headers);
    let pair = |name: &str, value: &str| (name.to_string(), value.to_string());
    let mut expected = vec![
        pair("content-type", "application/json"),
        pair("accept", "application/json, text/event-stream"),
        pair("Authorization", "Bearer t"),
        pair("X-Twice", "second"),
    ];
    assert_eq!(http.request_headers(), expected);
    http.on_reply(&reply(200, Some("s1"), r#"{"id":1}"#))
        .unwrap();
    expected.push(pair("mcp-session-id", "s1"));
    assert_eq!(http.request_headers(), expected);
    http.negotiated("2025-03-26");
    expected.push(pair("mcp-protocol-version", "2025-03-26"));
    assert_eq!(http.request_headers(), expected);
    http.on_reply(&reply(404, None, "gone")).unwrap_err();
    expected.remove(4);
    assert_eq!(http.request_headers(), expected);
}

#[test]
fn what_one_response_carries_comes_out_in_order() {
    let mut http = Http::new("u".to_string(), Dict::new());
    http.on_reply(&reply(200, None, r#"[{"id":1},{"id":2}]"#))
        .unwrap();
    http.on_reply(&reply(200, None, r#"{"id":3}"#)).unwrap();
    let taken: Vec<Option<u64>> = (0..3).map(|_| id(&http.next_message().unwrap())).collect();
    assert_eq!(taken, vec![Some(1), Some(2), Some(3)]);
}

// ── Connecting ────────────────────────────────────────────────────────────────

/// `unprefixed`, because that is the arrangement both defects live in.
fn server(name: &str, allow: &[&str], deny: &[&str]) -> ToolDef {
    ToolDef {
        name: name.to_string(),
        command: "/bin/true".to_string(),
        args: Vec::new(),
        env: Dict::new(),
        url: None,
        headers: Dict::new(),
        hooks: Hooks {
            tool_allowlist: texts(allow),
            tool_denylist: texts(deny),
            ..Default::default()
        },
        unprefixed: true,
        max_output_chars: None,
        request_timeout_secs: None,
        guess_severity_from_output: false,
    }
}

#[test]
fn a_server_is_reached_as_its_definition_says() {
    let sixty = Duration::from_secs(60);
    let stdio = connection_plan(&server("s", &[], &[]), sixty).unwrap();
    assert_eq!(stdio.channel, Channel::Stdio);
    assert_eq!(stdio.request_timeout, sixty);
    assert_eq!(stdio.max_output_chars, 50_000);
    assert!(stdio.starts_a_process() && !stdio.waits_for_it() && !stdio.asks_again(true));

    let both = ToolDef {
        url: Some("http://x".to_string()),
        request_timeout_secs: Some(3600),
        max_output_chars: Some(7),
        ..server("s", &[], &[])
    };
    let both = connection_plan(&both, sixty).unwrap();
    assert_eq!(both.channel, Channel::HttpToOwnProcess);
    assert_eq!(both.request_timeout, Duration::from_secs(3600));
    assert_eq!(both.max_output_chars, 7);
    assert!(both.starts_a_process() && both.waits_for_it());
    assert!(both.asks_again(true) && !both.asks_again(false));

    let remote = ToolDef {
        command: " ".to_string(),
        url: Some("http://x".to_string()),
        ..server("s", &[], &[])
    };
    let remote = connection_plan(&remote, sixty).unwrap();
    assert_eq!(remote.channel, Channel::Http);
    assert!(!remote.starts_a_process() && !remote.asks_again(true));

    let nowhere = ToolDef {
        command: String::new(),
        ..server("s", &[], &[])
    };
    assert_eq!(
        connection_plan(&nowhere, sixty).unwrap_err(),
        "MCP server 's' has neither a command to start nor a url to reach"
    );
}

#[test]
fn timeouts_have_their_defaults() {
    assert_eq!(default_request_timeout(None), Duration::from_secs(60));
    assert_eq!(default_request_timeout(Some("5")), Duration::from_secs(5));
    assert_eq!(init_timeout(Some("0")), Duration::from_secs(120));
}

#[test]
fn requests_are_numbered_and_notifications_are_not() {
    let mut requests = Requests::new();
    let (first, request) = requests.next("initialize", initialize_params("atoma", "1.0"));
    assert_eq!(first, 1);
    assert_eq!(
        print(&request),
        r#"{"id":1,"jsonrpc":"2.0","method":"initialize","params":{"capabilities":{"logging":{}},"clientInfo":{"name":"atoma","version":"1.0"},"protocolVersion":"2024-11-05"}}"#
    );
    let (second, _) = requests.next("tools/call", call_params("t", &json("{}")));
    assert_eq!(second, 2);
    assert_eq!(
        print(&call_params("t", &json("{\"a\": 1}"))),
        r#"{"arguments":{"a":1},"name":"t"}"#
    );
    assert_eq!(
        print(&notification("notifications/initialized", json("{}"))),
        r#"{"jsonrpc":"2.0","method":"notifications/initialized","params":{}}"#
    );
}

#[test]
fn a_server_introduces_itself() {
    let intro = read_introduction(&json(
        r#"{"id": 1, "result": {"protocolVersion": "p", "serverInfo": {"name": "n", "version": "v"}, "capabilities": {"logging": {}}}}"#,
    ))
    .unwrap();
    assert_eq!(
        (intro.name.as_str(), intro.version.as_str()),
        ("n", "v")
    );
    assert_eq!(intro.protocol.as_deref(), Some("p"));
    assert!(intro.logs);
    assert_eq!(
        print(&level_request(&intro).unwrap()),
        r#"{"level":"warning"}"#
    );
    let intro = read_introduction(&json(r#"{"result": {}}"#)).unwrap();
    assert_eq!(
        (intro.name.as_str(), intro.version.as_str()),
        ("unknown", "unknown")
    );
    assert_eq!(intro.protocol, None);
    assert!(!intro.logs);
    assert!(level_request(&intro).is_none());
    assert_eq!(
        read_introduction(&json("{}")).unwrap_err(),
        "Initialize response missing result"
    );
}

#[test]
fn a_server_that_did_not_start_is_quoted() {
    let said = what_it_said("bad port\n", " \n");
    assert_eq!(said, "\n--- stderr ---\nbad port\n---------------");
    assert_eq!(
        initialize_failed("s", "refused", &said),
        "Failed to initialize MCP server 's': refused\n--- stderr ---\nbad port\n---------------"
    );
    assert_eq!(
        initialize_timed_out("s", Duration::from_secs(120), ""),
        "MCP server 's' initialization timed out (120s)"
    );
}

#[test]
fn an_error_in_an_answer_is_one() {
    assert_eq!(
        response_error(&json(r#"{"error": {"message": "nope"}}"#)).as_deref(),
        Some("MCP JSON-RPC error: nope")
    );
    assert_eq!(
        response_error(&json(r#"{"error": {}}"#)).as_deref(),
        Some("MCP JSON-RPC error: unknown error")
    );
    assert_eq!(response_error(&json(r#"{"result": {}}"#)), None);
}

#[test]
fn tools_are_registered_by_the_names_they_are_called() {
    let response = json(r#"{"result": {"tools": [{"name": "read"}, {"name": "grep"}]}}"#);
    let tools = registered_tools("files", false, &response).unwrap();
    assert_eq!(tools[0].prefixed_name, "files__read");
    assert_eq!(tools[0].tool_name, "read");
    let tools = registered_tools("files", true, &response).unwrap();
    assert_eq!(tools[1].prefixed_name, "grep");
    assert_eq!(
        registered_tools("files", true, &json("{}")).unwrap_err(),
        "MCP server did not return tools array"
    );
    let nameless = json(r#"{"result": {"tools": [{"name": "read"}, {}]}}"#);
    let refused = registered_tools("files", true, &nameless).unwrap_err();
    assert!(
        refused.starts_with("MCP server 'files' listed a tool with no name"),
        "{refused}"
    );
}

// ── Findings ──────────────────────────────────────────────────────────────────

fn advertised(names: &[&str]) -> Vec<RegisteredTool> {
    names
        .iter()
        .map(|name| RegisteredTool {
            prefixed_name: name.to_string(),
            tool_name: name.to_string(),
            schema: json("{}"),
        })
        .collect()
}

fn dead_guard() -> Finding {
    Finding {
        fatal: false,
        message: "a pattern that is guarding nothing".to_string(),
        kind: FindingKind::DeadGuard {
            server: "files_ro".to_string(),
            pattern: "files_ro__*".to_string(),
            tools: vec!["read".to_string(), "grep".to_string()],
        },
    }
}

fn duplicate_tool() -> Finding {
    Finding {
        fatal: true,
        message: "two servers offer a tool named 'read'".to_string(),
        kind: FindingKind::DuplicateTool {
            tool: "read".to_string(),
            servers: vec!["files".to_string(), "files_ro".to_string()],
        },
    }
}

#[test]
fn a_dead_guard_line_names_the_server_the_pattern_and_every_tool() {
    let configs = vec![server("files_ro", &[], &["files_ro__*"])];
    let offered = vec![("files_ro".to_string(), advertised(&["read", "grep"]))];
    let found = findings(&configs, &offered);
    assert_eq!(found.len(), 1, "{found:?}");
    assert_eq!(
        found[0].machine_line(),
        "ATOMA_CONFIG_FINDING: kind=dead_guard severity=warn server=files_ro \
         pattern=files_ro__* tools=read,grep",
    );
    assert_eq!(
        found[0].message,
        "[files_ro] allow/deny pattern 'files_ro__*' matches none of this server's tools (read, grep). It is guarding nothing."
    );
}

#[test]
fn a_duplicate_tool_line_names_the_tool_and_both_servers() {
    let configs = vec![server("files", &[], &[]), server("files_ro", &[], &[])];
    let offered = vec![
        ("files".to_string(), advertised(&["read"])),
        ("files_ro".to_string(), advertised(&["read"])),
    ];
    let found = findings(&configs, &offered);
    assert_eq!(found.len(), 1, "{found:?}");
    assert_eq!(
        found[0].machine_line(),
        "ATOMA_CONFIG_FINDING: kind=duplicate_tool severity=error tool=read \
         servers=files,files_ro",
    );
    assert!(found[0].fatal);
}

#[test]
fn a_tool_that_is_denied_is_not_a_name_that_is_claimed() {
    let configs = vec![
        server("files", &[], &[]),
        server("files_ro", &["gone"], &["read"]),
        server("other", &[], &[]),
    ];
    let offered = vec![
        ("files".to_string(), advertised(&["read", "grep"])),
        ("files_ro".to_string(), advertised(&["read"])),
        ("other".to_string(), advertised(&["grep"])),
    ];
    let found = findings(&configs, &offered);
    assert_eq!(found.len(), 2, "{found:?}");
    assert!(
        matches!(&found[0].kind, FindingKind::DuplicateTool { tool, .. } if tool == "grep"),
        "fatal first: {found:?}"
    );
    assert!(
        matches!(&found[1].kind, FindingKind::DeadGuard { pattern, .. } if pattern == "gone"),
        "{found:?}"
    );
}

#[test]
fn a_fatal_finding_emits_its_line_before_the_run_is_refused() {
    let report = report_on(&vec![duplicate_tool()], false);
    assert_eq!(report.lines.len(), 1, "{:?}", report.lines);
    let (fatal, line) = &report.lines[0];
    assert!(*fatal, "a duplicate tool name is fatal");
    assert!(
        line.contains("kind=duplicate_tool severity=error"),
        "{:?}",
        report.lines,
    );
    assert!(report.refusal.is_some(), "a duplicate name is still fatal");
}

#[test]
fn a_warning_stops_a_run_only_when_the_caller_asks_it_to() {
    let found = vec![dead_guard()];
    let tolerated = report_on(&found, false);
    let refused = report_on(&found, true);
    assert!(tolerated.refusal.is_none(), "{:?}", tolerated.refusal);
    assert!(refused.refusal.is_some());
    assert_eq!(
        tolerated.warnings, refused.warnings,
        "the prose a person reads is the same either way",
    );
    assert_eq!(
        tolerated.lines, refused.lines,
        "the flag is the caller's policy, not a different finding",
    );
    assert!(
        refused.lines[0].1.contains("severity=warn"),
        "severity is atoma's verdict and not the caller's: {:?}",
        refused.lines,
    );
    assert_eq!(
        refused.refusal.as_deref(),
        Some("1 tool configuration finding(s), and --fail-on-tool-findings asks for a run to stop on them: a pattern that is guarding nothing")
    );
}

#[test]
fn no_findings_is_no_lines_and_no_refusal() {
    let report = report_on(&vec![], true);
    assert!(report.lines.is_empty());
    assert!(report.warnings.is_empty());
    assert!(report.refusal.is_none());
}

#[test]
fn every_line_is_logged_at_the_level_of_its_finding_and_before_the_prose() {
    let (log, refusal) = report_on(&vec![duplicate_tool(), dead_guard()], false).emit();
    assert_eq!(
        log.iter().map(|l: &LogLine| l.error).collect::<Vec<_>>(),
        vec![true, false]
    );
    assert!(log[1].text.contains("kind=dead_guard"));
    assert_eq!(
        refusal.as_deref(),
        Some("two servers offer a tool named 'read'")
    );
    let (log, refusal) = report_on(&vec![dead_guard()], false).emit();
    assert_eq!(log.len(), 2);
    assert_eq!(log[1].text, "a pattern that is guarding nothing");
    assert_eq!(refusal, None);
}

#[test]
fn a_value_with_a_space_in_it_cannot_become_two_fields() {
    let finding = Finding {
        fatal: false,
        message: "a server whose name has a space in it".to_string(),
        kind: FindingKind::DeadGuard {
            server: "my files".to_string(),
            pattern: "read *".to_string(),
            tools: vec!["read".to_string()],
        },
    };
    let line = finding.machine_line();
    assert_eq!(
        line.split_whitespace().count(),
        6,
        "the name and one token per field: {line}",
    );
    assert!(line.contains("server=my%20files"), "{line}");
    assert!(line.contains("pattern=read%20*"), "{line}");
}

#[test]
fn the_escape_character_and_the_list_separator_are_themselves_encoded() {
    assert_eq!(field("100%"), "100%25");
    assert_eq!(field("a,b"), "a%2Cb");
    assert_eq!(field("read_text_file"), "read_text_file");
    assert_eq!(field("a\u{3000}b\t"), "a%E3%80%80b%09");
}

fn decoded(text: &str) -> String {
    let bytes = text.as_bytes();
    let mut out: Vec<u8> = Vec::new();
    let mut i = 0;
    while i < bytes.len() {
        if bytes[i] == b'%' {
            out.push(u8::from_str_radix(&text[i + 1..i + 3], 16).unwrap());
            i += 3;
        } else {
            out.push(bytes[i]);
            i += 1;
        }
    }
    String::from_utf8(out).unwrap()
}

fn value_of(token: &str) -> &str {
    token.split_once('=').unwrap().1
}

/// Every name comes back, whatever is in it, and the line does not depend on the message.
#[test]
fn a_finding_reads_back_from_its_line() {
    let hostile = "a b\n\u{3000}c,d%2C=e\u{e9}";
    let finding = Finding {
        fatal: true,
        message: "one\nway".to_string(),
        kind: FindingKind::DeadGuard {
            server: hostile.to_string(),
            pattern: "=%,".to_string(),
            tools: texts(&[hostile, "", "plain"]),
        },
    };
    let line = finding.machine_line();
    assert_eq!(line.lines().count(), 1);
    let tokens: Vec<&str> = line.split_whitespace().collect();
    assert_eq!(tokens.len(), 6, "{line}");
    assert_eq!(tokens[0], "ATOMA_CONFIG_FINDING:");
    assert_eq!(value_of(tokens[1]), "dead_guard");
    assert_eq!(value_of(tokens[2]), "error");
    assert_eq!(decoded(value_of(tokens[3])), hostile);
    assert_eq!(decoded(value_of(tokens[4])), "=%,");
    let tools: Vec<String> = value_of(tokens[5]).split(',').map(decoded).collect();
    assert_eq!(tools, texts(&[hostile, "", "plain"]));
    assert_eq!(
        Finding {
            message: "another".to_string(),
            ..finding
        }
        .machine_line(),
        line
    );

    let clash = Finding {
        fatal: false,
        message: String::new(),
        kind: FindingKind::DuplicateTool {
            tool: hostile.to_string(),
            servers: texts(&["x,y", " "]),
        },
    };
    let line = clash.machine_line();
    let tokens: Vec<&str> = line.split_whitespace().collect();
    assert_eq!(tokens.len(), 5, "{line}");
    assert_eq!(value_of(tokens[1]), "duplicate_tool");
    assert_eq!(value_of(tokens[2]), "warn");
    assert_eq!(decoded(value_of(tokens[3])), hostile);
    assert_eq!(value_of(tokens[4]), "x%2Cy,%20");
}

#[test]
fn a_server_that_advertises_no_tools_writes_an_empty_list() {
    let configs = vec![server("silent", &[], &["silent__*"])];
    let offered = vec![("silent".to_string(), advertised(&[]))];
    let found = findings(&configs, &offered);
    assert_eq!(found.len(), 1, "{found:?}");
    assert!(found[0].machine_line().ends_with(" tools="), "{found:?}");
}

// ── The registry ──────────────────────────────────────────────────────────────

fn registry() -> McpRegistry {
    let files = ToolDef {
        hooks: Hooks {
            tool_denylist: texts(&["write"]),
            before_tool: texts(&["/b1", "/b2"]),
            after_tool: texts(&["/a"]),
            ..Default::default()
        },
        ..server("files", &[], &[])
    };
    let configs = vec![files, server("web", &[], &[])];
    let offered = vec![
        ("files".to_string(), advertised(&["read", "write"])),
        ("web".to_string(), advertised(&["web__get"])),
    ];
    let (report, registry) = McpRegistryFactory::new(true).build(&configs, &offered);
    assert_eq!(report.refusal, None);
    registry.expect("a registry")
}

#[test]
fn a_tool_goes_to_its_server_with_that_servers_hooks() {
    let registry = registry();
    let plan = registry.plan_call("read").unwrap();
    assert_eq!(
        (plan.server.as_str(), plan.tool.as_str()),
        ("files", "read")
    );
    assert_eq!(plan.before, vec!["/b1", "/b2"]);
    assert_eq!(plan.after, vec!["/a"]);
    let plan = registry.plan_call("web__get").unwrap();
    assert_eq!(plan.server, "web");
    assert!(plan.before.is_empty() && plan.after.is_empty());
}

#[test]
fn a_denied_tool_is_neither_offered_nor_called() {
    let registry = registry();
    let names: Vec<String> = registry
        .tool_definitions()
        .iter()
        .map(|d| {
            d.get("function")
                .unwrap()
                .get_str("name")
                .unwrap()
                .to_string()
        })
        .collect();
    assert_eq!(names, vec!["read", "web__get"]);
    assert!(registry
        .plan_call("write")
        .unwrap_err()
        .starts_with("Unknown tool 'write'."));
}

#[test]
fn a_name_nobody_offers_is_a_skill_or_unknown() {
    let registry = registry();
    assert!(registry
        .plan_call("engineering/tdd")
        .unwrap_err()
        .contains("is a skill, not a tool"));
    assert_eq!(
        registry.plan_call("nope").unwrap_err(),
        "Unknown tool 'nope'. A tool is named as its server advertises it, with `server__` in front unless that server sets `unprefixed: true`."
    );
}

#[test]
fn a_definition_carries_the_schema_of_its_arguments() {
    let configs = vec![server("s", &[], &[])];
    let tool = RegisteredTool {
        prefixed_name: "s__t".to_string(),
        tool_name: "t".to_string(),
        schema: json(r#"{"name": "t", "description": "d", "inputSchema": {"type": "object"}}"#),
    };
    let (_, registry) =
        McpRegistry::from_configs(&configs, &vec![("s".to_string(), vec![tool])], false);
    assert_eq!(
        print(&registry.unwrap().tool_definitions()[0]),
        r#"{"function":{"description":"d","name":"s__t","parameters":{"type":"object"}},"type":"function"}"#
    );
}

#[test]
fn two_servers_of_one_name_are_refused() {
    assert!(check_server_names(&vec![server("a", &[], &[]), server("b", &[], &[])]).is_ok());
    assert_eq!(
        check_server_names(&vec![server("a", &[], &[]), server("a", &[], &[])]).unwrap_err(),
        "Duplicate MCP server name: 'a'. Each server must have a unique name."
    );
}

#[test]
fn a_script_is_told_of_the_call() {
    assert_eq!(
        print(&hook_payload("agent", "t", &json("{\"a\": 1}"), None)),
        r#"{"agent":"agent","arguments":{"a":1},"tool":"t"}"#
    );
    assert_eq!(
        print(&hook_payload("agent", "t", &json("{}"), Some("r"))),
        r#"{"agent":"agent","arguments":{},"result":"r","tool":"t"}"#
    );
    assert_eq!(with_notice("r".to_string(), "n"), "r\n\nn");
}
