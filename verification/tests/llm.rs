use atoma::clock::Duration;
use atoma::dict::Dict;
use atoma::domain::ports::FinishReason;
use atoma::domain::session::{Message, ToolCall, ToolCallFunction, NO_CALL_TO_ANSWER};
use atoma::infra::llm::anthropic::{
    anthropic_to_chat_response, build_request_body, mark_last_message_cacheable,
    mcp_blocks_to_anthropic, messages_to_anthropic, tools_to_anthropic, AnthropicContentBlock,
    AnthropicResponse, AnthropicUsage,
};
use atoma::infra::llm::shared::{
    chat_response_to_llm, mcp_blocks_to_openai, merge_extra_body, on_reply, on_unreadable,
    openai_request_body, provider_error_of, report_unread_usage, request_url, retry_backoff,
    split_images_out_of_tool_message, tool_function, ChatChoice, ChatResponse,
    PromptTokensDetails, Reply, Usage, Verdict, IMAGE_BRIDGE,
};
use atoma::json::{parse, print, Json};

fn json(text: &str) -> Json {
    parse(text).unwrap()
}

fn fields(text: &str) -> Dict<Json> {
    match json(text) {
        Json::Object(fields) => fields,
        other => panic!("not an object: {other:?}"),
    }
}

fn same(value: &Json, text: &str) {
    assert_eq!(print(value), print(&json(text)));
}

fn at<'a>(value: &'a Json, path: &[&str]) -> &'a Json {
    let mut found = value;
    for key in path {
        found = match key.parse::<usize>() {
            Ok(i) => &found.as_array().unwrap()[i],
            Err(_) => found.get(key).unwrap(),
        };
    }
    found
}

fn text_at<'a>(value: &'a Json, path: &[&str]) -> &'a str {
    at(value, path).as_str().unwrap()
}

// ── Anthropic ─────────────────────────────────────────────────────────────────

const EPHEMERAL: &str = "{\"type\":\"ephemeral\"}";

fn cache_control_of(block: &Json) -> Option<String> {
    block.get("cache_control").map(print)
}

fn answered(usage: AnthropicUsage) -> AnthropicResponse {
    AnthropicResponse {
        content: vec![],
        stop_reason: Some("end_turn".to_string()),
        usage,
    }
}

/// The write is part of the prompt too, and is charged apart.
#[test]
fn a_cached_write_is_part_of_the_prompt_and_is_named_apart_from_a_read() {
    let raw = answered(AnthropicUsage {
        input_tokens: 200,
        output_tokens: 50,
        cache_read_input_tokens: Some(500),
        cache_creation_input_tokens: Some(300),
    });
    let usage = anthropic_to_chat_response(raw).usage.expect("usage");
    // 200 fresh + 500 read + 300 written is the thousand tokens it processed.
    assert_eq!(usage.prompt_tokens, 1000);
    assert_eq!(usage.total_tokens, 1050);
    assert_eq!(
        usage.prompt_tokens_details.and_then(|d| d.cached_tokens),
        Some(500)
    );
    assert_eq!(usage.prompt_cache_write_tokens, Some(300));
}

#[test]
fn a_cached_read_is_added_into_the_prompt_rather_than_left_beside_it() {
    let raw = answered(AnthropicUsage {
        input_tokens: 200,
        output_tokens: 50,
        cache_read_input_tokens: Some(800),
        cache_creation_input_tokens: None,
    });
    let usage = anthropic_to_chat_response(raw).usage.expect("usage");
    // 200 fresh + 800 cached is a thousand-token prompt, however it was served.
    assert_eq!(usage.prompt_tokens, 1000);
    assert_eq!(usage.total_tokens, 1050);
    assert_eq!(
        usage.prompt_tokens_details.and_then(|d| d.cached_tokens),
        Some(800)
    );
}

#[test]
fn an_answer_is_its_texts_and_its_calls() {
    let answer = |stop: &str| AnthropicResponse {
        content: vec![
            AnthropicContentBlock::Text {
                text: "a".to_string(),
            },
            AnthropicContentBlock::ToolUse {
                id: "c1".to_string(),
                name: "get".to_string(),
                input: json("{\"b\": 1, \"a\": 2}"),
            },
            AnthropicContentBlock::Text {
                text: "b".to_string(),
            },
        ],
        stop_reason: Some(stop.to_string()),
        usage: AnthropicUsage {
            input_tokens: 1,
            output_tokens: 1,
            cache_read_input_tokens: None,
            cache_creation_input_tokens: None,
        },
    };
    let read = anthropic_to_chat_response(answer("tool_use"));
    let message = &read.choices[0].message;
    assert_eq!(message.content, Some(Json::Text("ab".to_string())));
    let calls = message.tool_calls.as_ref().unwrap();
    assert_eq!(calls[0].id, "c1");
    assert_eq!(calls[0].function.arguments, "{\"a\":2,\"b\":1}");
    for (word, canonical) in [
        ("tool_use", "tool_calls"),
        ("max_tokens", "length"),
        ("refusal", "content_filter"),
        ("end_turn", "stop"),
        ("stop_sequence", "stop"),
    ] {
        assert_eq!(
            anthropic_to_chat_response(answer(word)).choices[0]
                .finish_reason
                .as_deref(),
            Some(canonical)
        );
    }
}

fn request(messages: &Vec<Message>) -> Json {
    build_request_body("model-x", messages, None, &Dict::new())
        .expect("these messages name their calls")
}

#[test]
fn system_prompt_gets_a_cache_control_breakpoint() {
    let messages = vec![
        Message::system("you are a helpful agent"),
        Message::user("hi"),
    ];
    let body = request(&messages);

    let blocks = body
        .get_array("system")
        .expect("system should be a block array");
    assert_eq!(blocks.len(), 1);
    assert_eq!(text_at(&blocks[0], &["text"]), "you are a helpful agent");
    assert_eq!(cache_control_of(&blocks[0]).as_deref(), Some(EPHEMERAL));
}

#[test]
fn no_system_key_when_there_is_no_system_message() {
    let body = request(&vec![Message::user("hi")]);
    assert!(body.get("system").is_none());
}

#[test]
fn last_message_with_plain_string_content_is_converted_and_marked_cacheable() {
    let messages = vec![Message::user("first"), Message::user("second (latest)")];
    let body = request(&messages);

    let out_messages = body.get_array("messages").unwrap();
    assert_eq!(out_messages.len(), 2);
    // Earlier message untouched (still a plain string, no cache_control).
    assert_eq!(text_at(&out_messages[0], &["content"]), "first");
    // Last message converted to block-array form with a cache_control breakpoint.
    let last_content = out_messages[1].get_array("content").unwrap();
    assert_eq!(text_at(&last_content[0], &["text"]), "second (latest)");
    assert_eq!(
        cache_control_of(&last_content[0]).as_deref(),
        Some(EPHEMERAL)
    );
}

#[test]
fn tool_result_as_last_message_gets_cache_control_on_the_tool_result_block() {
    let messages = vec![Message::tool("call_1", "issue #42: title, body...")];
    let body = request(&messages);

    let out_messages = body.get_array("messages").unwrap();
    assert_eq!(out_messages.len(), 1);
    assert_eq!(text_at(&out_messages[0], &["role"]), "user");
    let blocks = out_messages[0].get_array("content").unwrap();
    assert_eq!(blocks.len(), 1);
    assert_eq!(text_at(&blocks[0], &["type"]), "tool_result");
    assert_eq!(text_at(&blocks[0], &["tool_use_id"]), "call_1");
    assert_eq!(
        cache_control_of(&blocks[0]).as_deref(),
        Some(EPHEMERAL),
        "cache_control must land on the tool_result block itself, not be skipped"
    );
}

fn tool_call(arguments: &str) -> ToolCall {
    ToolCall {
        id: "call_1".to_string(),
        type_: "function".to_string(),
        function: ToolCallFunction {
            name: "get_issue".to_string(),
            arguments: arguments.to_string(),
        },
    }
}

#[test]
fn last_message_with_existing_block_array_gets_cache_control_on_its_last_block() {
    let messages = vec![Message::assistant(
        Some("checking"),
        Some(vec![tool_call("{}")]),
    )];
    let body = request(&messages);

    let blocks = at(&body, &["messages", "0"]).get_array("content").unwrap();
    assert_eq!(blocks.len(), 2, "expected a text block + a tool_use block");
    // cache_control lands on the LAST block only, not the first.
    assert_eq!(cache_control_of(&blocks[0]), None);
    assert_eq!(cache_control_of(&blocks[1]).as_deref(), Some(EPHEMERAL));
}

#[test]
fn empty_messages_does_not_panic() {
    let body = request(&vec![]);
    assert_eq!(body.get_array("messages").unwrap().len(), 0);
}

#[test]
fn extra_body_still_merges_alongside_cache_control_fields() {
    let extra = fields("{\"temperature\": 0.5}");
    let messages = vec![Message::user("hi")];
    let body = build_request_body("model-x", &messages, None, &extra)
        .expect("these messages name their calls");
    same(at(&body, &["temperature"]), "0.5");
    same(at(&body, &["max_tokens"]), "8192");
}

#[test]
fn a_budget_the_agent_sets_is_the_one_that_is_sent() {
    let body = build_request_body(
        "model-x",
        &vec![Message::user("hi")],
        None,
        &fields("{\"max_tokens\": 100}"),
    )
    .unwrap();
    same(at(&body, &["max_tokens"]), "100");
    same(at(&body, &["model"]), "\"model-x\"");
}

#[test]
fn a_result_that_names_no_call_cannot_be_sent() {
    let orphan = Message {
        tool_call_id: None,
        ..Message::tool("x", "y")
    };
    assert_eq!(
        build_request_body("model-x", &vec![orphan], None, &Dict::new()).unwrap_err(),
        NO_CALL_TO_ANSWER
    );
}

#[test]
fn a_call_is_sent_with_its_arguments_as_a_value() {
    let messages = vec![
        Message::assistant(None, Some(vec![tool_call("{\"n\": 1}")])),
        Message::tool("call_1", "done"),
    ];
    let (system, out) = messages_to_anthropic(&messages).unwrap();
    assert_eq!(system, None);
    same(
        &out[0],
        "{\"role\": \"assistant\", \"content\": [{\"type\": \"tool_use\", \"id\": \"call_1\", \"name\": \"get_issue\", \"input\": {\"n\": 1}}]}",
    );
    same(
        &out[1],
        "{\"role\": \"user\", \"content\": [{\"type\": \"tool_result\", \"tool_use_id\": \"call_1\", \"content\": \"done\"}]}",
    );
}

#[test]
fn a_tool_is_offered_by_its_schema() {
    let tools = vec![json(
        "{\"type\": \"function\", \"function\": {\"name\": \"n\", \"description\": \"d\", \"parameters\": {\"type\": \"object\"}}}",
    )];
    let out = tools_to_anthropic(&tools).unwrap();
    same(
        &out[0],
        "{\"name\": \"n\", \"description\": \"d\", \"input_schema\": {\"type\": \"object\"}}",
    );
    let refused = tools_to_anthropic(&vec![json("{\"type\": \"x\"}")]).unwrap_err();
    assert_eq!(
        refused,
        "a tool definition has no `function` object: {\"type\":\"x\"}"
    );
    assert!(tool_function(&json("{\"type\": \"x\"}")).is_err());
}

#[test]
fn marking_touches_the_last_message_alone() {
    let mut messages = vec![
        json("{\"role\": \"user\", \"content\": \"a\"}"),
        json("{\"role\": \"user\", \"content\": [{\"type\": \"text\", \"text\": \"b\"}, {\"type\": \"text\", \"text\": \"c\"}]}"),
    ];
    mark_last_message_cacheable(&mut messages);
    same(&messages[0], "{\"role\": \"user\", \"content\": \"a\"}");
    let blocks = messages[1].get_array("content").unwrap();
    assert_eq!(cache_control_of(&blocks[0]), None);
    assert_eq!(cache_control_of(&blocks[1]).as_deref(), Some(EPHEMERAL));
}

#[test]
fn an_mcp_image_block_becomes_an_anthropic_source_block() {
    let out = mcp_blocks_to_anthropic(json(
        "[{\"type\": \"text\", \"text\": \"Here is the screen:\"}, {\"type\": \"image\", \"data\": \"AAAA\", \"mimeType\": \"image/png\"}]",
    ));
    assert_eq!(text_at(&out, &["0", "type"]), "text");
    assert_eq!(text_at(&out, &["1", "source", "type"]), "base64");
    assert_eq!(text_at(&out, &["1", "source", "media_type"]), "image/png");
    assert_eq!(text_at(&out, &["1", "source", "data"]), "AAAA");
}

#[test]
fn a_plain_string_result_passes_through() {
    let out = mcp_blocks_to_anthropic(json("\"done\""));
    same(&out, "\"done\"");
}

#[test]
fn an_image_block_of_an_unknown_shape_is_left_alone() {
    let out = mcp_blocks_to_anthropic(json(
        "[{\"type\": \"image\", \"url\": \"http://x/y.png\"}]",
    ));
    assert_eq!(text_at(&out, &["0", "url"]), "http://x/y.png");
}

#[test]
fn a_user_message_picture_becomes_a_source_block() {
    let msg = Message {
        content: Some(json(
            "[{\"type\": \"text\", \"text\": \"look at this\"}, {\"type\": \"image\", \"data\": \"AAAA\", \"mimeType\": \"image/png\"}]",
        )),
        ..Message::user("look at this")
    };
    let (_, out) = messages_to_anthropic(&vec![msg]).expect("a user message names no call");
    assert_eq!(text_at(&out[0], &["role"]), "user");
    assert_eq!(
        text_at(&out[0], &["content", "1", "source", "media_type"]),
        "image/png"
    );
    assert_eq!(text_at(&out[0], &["content", "1", "source", "data"]), "AAAA");
}

// ── Attempts ──────────────────────────────────────────────────────────────────

const VALID_BODY: &str = r#"{"choices":[{"message":{"role":"assistant","content":"ok"},"finish_reason":"stop"}],"usage":null}"#;

fn retried(verdict: &Verdict) -> Option<(&Duration, &str)> {
    match verdict {
        Verdict::Retry { after, reason } => Some((after, reason.as_str())),
        _ => None,
    }
}

fn failed(verdict: &Verdict) -> &str {
    match verdict {
        Verdict::Fail(e) => e.as_str(),
        _ => panic!("not a failure"),
    }
}

#[test]
fn retries_when_a_success_response_body_is_truncated() {
    let reply = Reply::BodyFailed {
        transient: true,
        message: "error decoding response body".to_string(),
    };
    assert_eq!(
        retried(&on_reply(1, "LLM", &reply)),
        Some((
            &Duration::from_millis(1_000),
            "error decoding response body"
        ))
    );
    assert!(matches!(
        on_reply(2, "LLM", &Reply::Body(VALID_BODY.to_string())),
        Verdict::Accept
    ));
}

#[test]
fn retries_when_a_complete_response_holds_truncated_json() {
    let cut = &VALID_BODY[..40];
    assert!(matches!(
        on_reply(1, "LLM", &Reply::Body(cut.to_string())),
        Verdict::Accept
    ));
    let problem = parse(cut).unwrap_err();
    assert!(problem.truncated);
    let verdict = on_unreadable(1, "LLM", problem.truncated, &problem.message);
    let (after, reason) = retried(&verdict).expect("truncated JSON should be retried once");
    assert_eq!(after, &Duration::from_millis(1_000));
    assert!(reason.starts_with("truncated response body: "), "{reason}");
}

#[test]
fn the_last_attempt_is_the_last_even_where_the_answer_was_cut_off() {
    let verdict = on_unreadable(2, "LLM", true, "EOF while parsing");
    assert_eq!(
        retried(&verdict),
        Some((
            &Duration::from_millis(4_000),
            "truncated response body: EOF while parsing"
        ))
    );
    for attempt in [3, 4, 255] {
        assert_eq!(
            failed(&on_unreadable(attempt, "LLM", true, "EOF while parsing")),
            "Failed to parse LLM response. The model may be unavailable or returning an unexpected format."
        );
    }
}

#[test]
fn does_not_retry_structurally_invalid_json() {
    let wrong_shape = r#"{"choices":{"message":"nope"},"usage":null}"#;
    assert!(matches!(
        on_reply(1, "LLM", &Reply::Body(wrong_shape.to_string())),
        Verdict::Accept
    ));
    let verdict = on_unreadable(1, "LLM", false, "invalid type: map, expected a sequence");
    assert!(
        failed(&verdict).contains("Failed to parse LLM response"),
        "{}",
        failed(&verdict)
    );
}

#[test]
fn surfaces_provider_error_object_returned_under_http_200() {
    let body = r#"{"error":{"message":"upstream timed out","code":504}}"#;
    let verdict = on_reply(1, "LLM", &Reply::Body(body.to_string()));
    let rendered = failed(&verdict);
    assert!(rendered.contains("upstream timed out"), "got: {rendered}");
    assert!(rendered.contains("504"), "got: {rendered}");
}

#[test]
fn an_error_says_its_code_where_it_has_one() {
    let said = |text: &str| provider_error_of(&json(text));
    assert_eq!(
        said("{\"error\": {\"code\": -5}}").as_deref(),
        Some("LLM provider error (code: -5): unknown provider error")
    );
    assert_eq!(
        said("{\"error\": {\"message\": \"m\", \"code\": \"x\"}}").as_deref(),
        Some("LLM provider error: m")
    );
    assert_eq!(said("{\"error\": null}"), None);
    assert_eq!(said("{}"), None);
}

#[test]
fn a_status_that_may_change_is_tried_again_and_no_other() {
    let refused = |status: u16| Reply::Refused {
        status,
        shown: format!("{status} X"),
        body: "b".to_string(),
    };
    for status in [429, 500, 503, 599] {
        assert_eq!(
            retried(&on_reply(2, "LLM", &refused(status))).map(|r| *r.0),
            Some(Duration::from_millis(4_000)),
            "{status}"
        );
        assert_eq!(
            failed(&on_reply(3, "LLM", &refused(status))),
            format!("LLM API error ({status} X): b")
        );
    }
    for status in [400, 401, 404, 600] {
        failed(&on_reply(1, "LLM", &refused(status)));
    }
    let gone = |transient: bool| Reply::SendFailed {
        transient,
        message: "m".to_string(),
    };
    assert!(retried(&on_reply(1, "LLM", &gone(true))).is_some());
    assert_eq!(
        failed(&on_reply(1, "LLM", &gone(false))),
        "Failed to send LLM request"
    );
    assert_eq!(
        failed(&on_reply(3, "LLM", &gone(true))),
        "Failed to send LLM request"
    );
}

#[test]
fn backoff_grows_between_attempts() {
    assert_eq!(retry_backoff(1), Duration::from_millis(1_000));
    assert_eq!(retry_backoff(2), Duration::from_millis(4_000));
    assert!(retry_backoff(2) > retry_backoff(1));
}

#[test]
fn truncation_and_shape_errors_are_classified_apart() {
    let truncated = parse(&VALID_BODY[..40]).unwrap_err();
    assert!(truncated.truncated, "expected Eof classification");

    let wrong_shape = r#"{"choices":{"a":1},"usage":null}"#;
    assert!(
        parse(wrong_shape).is_ok(),
        "wrong shape must not be treated as truncation"
    );
    assert!(!parse("{]").unwrap_err().truncated);
}

// ── The request ───────────────────────────────────────────────────────────────

fn body_with_runtime_tools() -> Dict<Json> {
    fields(
        r#"{
            "model": "test-model",
            "messages": [],
            "tools": [
                { "type": "function", "function": { "name": "github__get_issue" } },
                { "type": "function", "function": { "name": "atoma_builtin__load_skill" } }
            ],
            "tool_choice": "auto"
        }"#,
    )
}

fn tool_names(body: &Dict<Json>) -> Vec<String> {
    body.field("tools")
        .unwrap()
        .as_array()
        .unwrap()
        .iter()
        .map(|t| {
            t.get("function")
                .and_then(|f| f.get_str("name"))
                .or_else(|| t.get_str("type"))
                .unwrap_or("?")
                .to_string()
        })
        .collect()
}

#[test]
fn extra_body_tools_are_appended_not_substituted_for_runtime_tools() {
    let mut body = body_with_runtime_tools();
    let extra = fields(
        r#"{"tools": [{ "type": "openrouter:web_search" }, { "type": "openrouter:web_fetch" }]}"#,
    );

    merge_extra_body(&mut body, &extra).expect("these keys merge");

    assert_eq!(
        tool_names(&body),
        vec![
            "github__get_issue",
            "atoma_builtin__load_skill",
            "openrouter:web_search",
            "openrouter:web_fetch",
        ],
        "runtime tool schemas must survive alongside the agent's server tools"
    );
}

#[test]
fn extra_body_tools_stand_alone_when_there_are_no_runtime_tools() {
    let mut body = fields(r#"{ "model": "m", "messages": [] }"#);
    let extra = fields(r#"{"tools": [{ "type": "openrouter:web_search" }]}"#);

    merge_extra_body(&mut body, &extra).expect("these keys merge");

    assert_eq!(tool_names(&body), vec!["openrouter:web_search"]);
}

#[test]
fn a_non_array_extra_body_tools_is_refused_rather_than_absorbed() {
    let mut body = body_with_runtime_tools();
    let extra = fields(r#"{"tools": "web_search"}"#);

    let refused = merge_extra_body(&mut body, &extra).expect_err("a string is not a tool list");
    assert!(refused.contains("not an array"), "{refused}");
}

#[test]
fn extra_body_overrides_other_keys_and_never_reserved_ones() {
    let mut body = body_with_runtime_tools();
    let extra = fields(
        r#"{
            "model": "hijacked",
            "messages": ["hijacked"],
            "tool_choice": "none",
            "temperature": 0,
            "provider": { "order": ["Xiaomi"], "allow_fallbacks": false }
        }"#,
    );

    merge_extra_body(&mut body, &extra).expect("these keys merge");

    same(body.field("model").unwrap(), "\"test-model\"");
    same(body.field("messages").unwrap(), "[]");
    same(body.field("tool_choice").unwrap(), "\"none\"");
    same(body.field("temperature").unwrap(), "0");
    same(
        body.field("provider").unwrap().get("order").unwrap(),
        "[\"Xiaomi\"]",
    );
}

#[test]
fn a_chat_request_is_the_conversation_and_the_tools() {
    let tools = vec![json("{\"type\": \"function\", \"function\": {\"name\": \"n\"}}")];
    let body = openai_request_body(
        "m",
        &vec![Message::system("s"), Message::user("u")],
        Some(&tools),
        &fields("{\"temperature\": 1}"),
    )
    .unwrap();
    same(
        &body,
        r#"{
            "model": "m",
            "messages": [{"role": "system", "content": "s"}, {"role": "user", "content": "u"}],
            "tools": [{"type": "function", "function": {"name": "n"}}],
            "tool_choice": "auto",
            "temperature": 1
        }"#,
    );
    let bare = openai_request_body("m", &vec![], None, &Dict::new()).unwrap();
    same(&bare, "{\"model\": \"m\", \"messages\": []}");
    assert!(openai_request_body("m", &vec![], None, &fields("{\"tools\": 1}")).is_err());
}

#[test]
fn an_endpoint_may_end_in_slashes() {
    assert_eq!(request_url("http://x/v1", "/chat"), "http://x/v1/chat");
    assert_eq!(request_url("http://x/v1//", "/chat"), "http://x/v1/chat");
}

// ── The answer ────────────────────────────────────────────────────────────────

fn hello(usage: Option<Usage>, finish_reason: &str) -> ChatResponse {
    ChatResponse {
        choices: vec![ChatChoice {
            message: Message::assistant(Some("hi"), None),
            finish_reason: Some(finish_reason.to_string()),
        }],
        usage,
    }
}

fn usage(cached: Option<u64>, unread: &str) -> Usage {
    Usage {
        prompt_tokens: 1000,
        completion_tokens: 50,
        total_tokens: 1050,
        prompt_tokens_details: cached.map(|n| PromptTokensDetails {
            cached_tokens: Some(n),
        }),
        prompt_cache_write_tokens: None,
        unread: fields(unread),
    }
}

#[test]
fn a_cached_prompt_is_carried_through_as_part_of_the_prompt() {
    let resp = hello(Some(usage(Some(800), "{}")), "stop");

    let usage = chat_response_to_llm(resp, None).usage.expect("usage");
    // 800 of the 1000, not 1800: this dialect counts the cached part inside.
    assert_eq!(usage.prompt_tokens, 1000);
    assert_eq!(usage.cached_prompt_tokens, Some(800));
}

#[test]
fn a_provider_that_reports_no_cache_is_not_recorded_as_a_cache_that_missed() {
    let resp = hello(Some(usage(None, "{}")), "stop");

    let usage = chat_response_to_llm(resp, None).usage.expect("usage");
    assert_eq!(usage.cached_prompt_tokens, None);
}

#[test]
fn a_usage_field_nothing_reads_is_kept_rather_than_dropped() {
    let resp = hello(
        Some(usage(
            None,
            "{\"prompt_cache_hit_tokens\": 768, \"prompt_cache_miss_tokens\": 232}",
        )),
        "stop",
    );

    let sent = resp.usage.as_ref().expect("usage");
    assert_eq!(
        sent.unread.keys(),
        vec!["prompt_cache_hit_tokens", "prompt_cache_miss_tokens"],
    );
    let said = report_unread_usage(sent).expect("a report");
    assert!(
        said.contains("prompt_cache_hit_tokens, prompt_cache_miss_tokens"),
        "{said}"
    );
    assert_eq!(
        chat_response_to_llm(resp, None)
            .usage
            .expect("usage")
            .cached_prompt_tokens,
        None,
    );
}

#[test]
fn a_provider_that_reports_only_what_is_modelled_leaves_nothing_unread() {
    let resp = hello(Some(usage(None, "{}")), "stop");

    let sent = resp.usage.as_ref().expect("usage");
    assert!(sent.unread.is_empty());
    assert_eq!(report_unread_usage(sent), None);
    assert_eq!(report_unread_usage(&usage(Some(1), "{\"x\": 1}")), None);
}

#[test]
fn a_finish_reason_this_dialect_does_not_define_is_not_taken_for_a_normal_stop() {
    let resp = hello(None, "banana");

    let read = chat_response_to_llm(resp, None);
    assert_eq!(read.choices[0].finish_reason, None);
    assert_eq!(read.choices[0].unknown_reason.as_deref(), Some("banana"));
    let read = chat_response_to_llm(hello(None, "length"), Some("req-1".to_string()));
    assert_eq!(read.choices[0].finish_reason, Some(FinishReason::Length));
    assert_eq!(read.choices[0].unknown_reason, None);
    assert_eq!(read.request_id.as_deref(), Some("req-1"));
}

// ── Pictures ──────────────────────────────────────────────────────────────────

#[test]
fn a_tool_result_with_a_picture_becomes_three_messages() {
    let out = split_images_out_of_tool_message(json(
        r#"{
            "role": "tool",
            "tool_call_id": "call_1",
            "content": [
                {"type": "text", "text": "Here is the screen:"},
                {"type": "image", "data": "AAAA", "mimeType": "image/png"}
            ]
        }"#,
    ));
    assert_eq!(out.len(), 3);
    assert_eq!(text_at(&out[0], &["role"]), "tool");
    assert_eq!(text_at(&out[0], &["content"]), "Here is the screen:");
    assert_eq!(text_at(&out[0], &["tool_call_id"]), "call_1");
    // The bridge is what keeps a strict provider from rejecting the sequence.
    assert_eq!(text_at(&out[1], &["role"]), "assistant");
    assert_eq!(text_at(&out[1], &["content"]), IMAGE_BRIDGE);
    assert_eq!(text_at(&out[2], &["role"]), "user");
    assert_eq!(
        text_at(&out[2], &["content", "0", "image_url", "url"]),
        "data:image/png;base64,AAAA"
    );
}

fn unchanged(out: Vec<Json>, text: &str) {
    assert_eq!(out.len(), 1);
    same(&out[0], text);
}

#[test]
fn a_text_only_tool_result_stays_one_message() {
    let msg = r#"{"role": "tool", "tool_call_id": "c", "content": "done"}"#;
    unchanged(split_images_out_of_tool_message(json(msg)), msg);
}

#[test]
fn other_roles_are_untouched() {
    let msg = r#"{"role": "user", "content": "hello"}"#;
    unchanged(split_images_out_of_tool_message(json(msg)), msg);
}

#[test]
fn a_user_message_picture_becomes_an_image_url_part() {
    let out = mcp_blocks_to_openai(json(
        r#"{
            "role": "user",
            "content": [
                {"type": "text", "text": "look at this"},
                {"type": "image", "data": "AAAA", "mimeType": "image/png"}
            ]
        }"#,
    ));
    assert_eq!(text_at(&out, &["content", "0", "type"]), "text");
    assert_eq!(text_at(&out, &["content", "1", "type"]), "image_url");
    assert_eq!(
        text_at(&out, &["content", "1", "image_url", "url"]),
        "data:image/png;base64,AAAA"
    );
}

#[test]
fn a_string_content_message_is_untouched() {
    let msg = r#"{"role": "user", "content": "hello"}"#;
    same(&mcp_blocks_to_openai(json(msg)), msg);
}

#[test]
fn parts_that_are_already_openai_shaped_are_left_alone() {
    let msg = r#"{
        "role": "user",
        "content": [{"type": "image_url", "image_url": {"url": "data:image/png;base64,AAAA"}}]
    }"#;
    same(&mcp_blocks_to_openai(json(msg)), msg);
}

// ── JSON ──────────────────────────────────────────────────────────────────────

#[test]
fn json_is_read_and_written() {
    let text = "{\"a\":[null,true,1,-2,2.5,\"x\\n\"],\"b\":{}}";
    assert_eq!(print(&json(text)), text);
    assert_eq!(print(&json(" { \"b\" : 1 , \"a\" : 2 } ")), "{\"a\":2,\"b\":1}");
    assert_eq!(json("18446744073709551615").as_u64(), Some(u64::MAX));
    assert_eq!(json("-1").as_u64(), None);
    assert_eq!(print(&json("{\"a\": 1, \"a\": 2}")), "{\"a\":2}");
    let twice = Json::Object(Dict {
        entries: vec![
            ("k".to_string(), Json::Bool(false)),
            ("j".to_string(), Json::Null),
            ("k".to_string(), Json::Bool(true)),
        ],
    });
    assert_eq!(print(&twice), "{\"j\":null,\"k\":true}");
    let failure = parse("[1,").unwrap_err();
    assert!(failure.truncated);
    assert_eq!(
        failure.message,
        "EOF while parsing a value at line 1 column 3"
    );
}
