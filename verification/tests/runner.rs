use atoma::application::runner::execution::{
    carries_image, content_blocks, ending_of, is_soft_stop, messages_for_provider,
    tool_result_message, BatchStep, CompletionReason, InferenceLoop, InferenceResult,
    MaxIterationsReached, Next, Outgoing, RunError, RunLimits, RunTimeExceeded, StopRequested,
    ToolBatch, IMAGE_WITHHELD,
};
use atoma::application::runner::report::{envelope, RunFacts, RunOutcome};
use atoma::application::runner::{
    colleague_missing_message, finish_run, inference_usage_line, open_session, record_run,
    record_run_at, resolve_prompt, save_whatever_was_reached, select_tool_defs, token_usage_line,
    tool_descriptions, tools_file_for, RunSettings, RUNS_KEY, TOOLS_FILE_MISSING,
};
use atoma::application::tools::{
    is_builtin, load_skill, runtime_tools, unknown_skill_message, SKILL_NAME_MISSING,
};
use atoma::clock::{now_rfc3339, rfc3339, seconds_between, Duration};
use atoma::dict::Dict;
use atoma::domain::agent::AgentDef;
use atoma::domain::ports::{FinishReason, LlmChoice, LlmResponse, LlmUsage, ToolCallResult};
use atoma::domain::session::{
    answer_unanswered_tool_calls, Message, Session, ToolCall, ToolCallFunction,
};
use atoma::domain::skill::{Skill, SkillCatalog, SkillMetadata, LOAD_SKILL_TOOL};
use atoma::domain::tool::{Hooks, ToolDef};
use atoma::domain::tool_loop::LoopTracker;
use atoma::infra::llm::shared::{chat_response_to_llm, ChatChoice, ChatResponse};
use atoma::json::{parse, print, Json, ParseFailure};

fn json(text: &str) -> Json {
    parse(text).unwrap()
}

// ── Endings ───────────────────────────────────────────────────────────────────

/// The three deliberate stops, and only those.
#[test]
fn a_deliberate_stop_is_one_and_a_failure_is_not() {
    assert!(is_soft_stop(&RunError::Iterations(MaxIterationsReached(50))));
    assert!(is_soft_stop(&RunError::Runtime(RunTimeExceeded(
        Duration::from_secs(60)
    ))));
    assert!(is_soft_stop(&RunError::Stopped(StopRequested(
        "/tmp/stop".to_string()
    ))));
    assert!(!is_soft_stop(&RunError::Failed(
        "the provider hung up".to_string()
    )));
}

#[test]
fn every_ending_has_its_word_and_its_message() {
    let cases = vec![
        (
            RunError::Iterations(MaxIterationsReached(50)),
            "iterations",
            "Inference loop exceeded maximum iterations (50)",
        ),
        (
            RunError::Runtime(RunTimeExceeded(Duration::from_millis(61_500))),
            "runtime",
            "Inference loop exceeded its time limit (61s)",
        ),
        (
            RunError::Stopped(StopRequested("/tmp/stop".to_string())),
            "stopped",
            "Stop requested via /tmp/stop",
        ),
        (RunError::Failed("x".to_string()), "failed", "x"),
    ];
    for (error, word, message) in cases {
        assert_eq!(ending_of(&error), word);
        assert_eq!(error.message(), message);
    }
}

// ── Pictures ──────────────────────────────────────────────────────────────────

fn user_with_image(url: &str) -> Message {
    Message {
        content: Some(json(&format!(
            "[{{\"type\": \"text\", \"text\": \"look at this\"}}, {{\"type\": \"image_url\", \"image_url\": {{\"url\": \"{url}\"}}}}]"
        ))),
        ..Message::user("")
    }
}

fn block<'a>(sent: &'a Vec<Message>, i: usize, key: &str) -> Option<&'a str> {
    content_blocks(&sent[0]).expect("blocks")[i].get_str(key)
}

/// A picture that a CALLER put in the session.
#[test]
fn a_pasted_image_does_not_reach_a_model_that_cannot_read_it() {
    let messages = vec![user_with_image("https://example.com/x.png")];
    let sent = messages_for_provider(&messages, false);
    let sent = sent.as_vec();

    assert_eq!(
        content_blocks(&sent[0]).expect("blocks").len(),
        2,
        "the text block stays"
    );
    assert_eq!(block(sent, 0, "text"), Some("look at this"));
    assert_eq!(block(sent, 1, "type"), Some("text"));
    assert_eq!(block(sent, 1, "text"), Some(IMAGE_WITHHELD));
    assert!(!carries_image(&sent[0]));
}

#[test]
fn the_session_itself_is_left_alone() {
    let messages = vec![user_with_image("https://example.com/x.png")];
    let _ = messages_for_provider(&messages, false);
    assert_eq!(
        block(&messages, 1, "type"),
        Some("image_url"),
        "what happened is still recorded"
    );
}

#[test]
fn a_tool_result_is_stored_as_it_arrived_whatever_the_agent_can_read() {
    let result = ToolCallResult {
        content: "Here is the screen:".to_string(),
        images: vec![json(
            "{\"type\": \"image\", \"data\": \"AAAA\", \"mimeType\": \"image/png\"}",
        )],
        ..Default::default()
    };

    let stored = vec![tool_result_message("call_1", &result)];
    assert_eq!(
        block(&stored, 1, "type"),
        Some("image"),
        "the session records the picture"
    );

    // And the agent that cannot read it still does not receive it.
    let sent = messages_for_provider(&stored, false);
    assert_eq!(block(sent.as_vec(), 1, "text"), Some(IMAGE_WITHHELD));
}

#[test]
fn a_model_that_can_read_images_gets_them() {
    let messages = vec![user_with_image("https://example.com/x.png")];
    let sent = messages_for_provider(&messages, true);
    assert!(
        matches!(sent, Outgoing::Borrowed(_)),
        "nothing to rewrite, nothing copied"
    );
    assert_eq!(block(sent.as_vec(), 1, "type"), Some("image_url"));
}

#[test]
fn a_run_without_pictures_copies_nothing() {
    let messages = vec![Message::user("plain text")];
    let sent = messages_for_provider(&messages, false);
    assert!(matches!(sent, Outgoing::Borrowed(_)));
}

#[test]
fn both_dialects_of_picture_are_recognised() {
    let anthropic = Message {
        content: Some(json(
            "[{\"type\": \"image\", \"source\": {\"type\": \"base64\", \"data\": \"...\"}}]",
        )),
        ..Message::user("")
    };
    let messages = vec![anthropic];
    let sent = messages_for_provider(&messages, false);
    assert_eq!(block(sent.as_vec(), 0, "text"), Some(IMAGE_WITHHELD));
}

#[test]
fn a_result_without_pictures_is_plain_text() {
    let result = ToolCallResult {
        content: "ok".to_string(),
        ..Default::default()
    };
    assert_eq!(
        tool_result_message("c", &result),
        Message::tool("c", "ok")
    );
}

// ── The loop ──────────────────────────────────────────────────────────────────

fn tool_call(id: &str, name: &str, args: &str) -> ToolCall {
    ToolCall {
        id: id.to_string(),
        type_: "function".to_string(),
        function: ToolCallFunction {
            name: name.to_string(),
            arguments: args.to_string(),
        },
    }
}

fn says(text: &str, reason: FinishReason) -> LlmResponse {
    LlmResponse {
        choices: vec![LlmChoice {
            message: Message::assistant(Some(text), None),
            finish_reason: Some(reason),
            unknown_reason: None,
        }],
        usage: Some(LlmUsage {
            prompt_tokens: 10,
            completion_tokens: 5,
            total_tokens: 15,
            cached_prompt_tokens: None,
            written_prompt_tokens: None,
        }),
        request_id: None,
    }
}

fn asks(calls: Vec<ToolCall>) -> LlmResponse {
    LlmResponse {
        choices: vec![LlmChoice {
            message: Message::assistant(None, Some(calls)),
            finish_reason: Some(FinishReason::ToolCalls),
            unknown_reason: None,
        }],
        usage: None,
        request_id: None,
    }
}

struct Run {
    session: Session,
    inference: InferenceLoop,
    result: Result<InferenceResult, RunError>,
    called: Vec<String>,
}

/// Runs the loop on answers that are known, with a tool that does what `tool` says.
fn run(
    session: Session,
    limits: RunLimits,
    stop_file_exists: bool,
    answers: Vec<LlmResponse>,
    tool: fn(&str, &Json) -> Result<ToolCallResult, String>,
) -> Run {
    let mut run = Run {
        session,
        inference: InferenceLoop::new(),
        result: Err(RunError::Failed("no more responses queued".to_string())),
        called: vec![],
    };
    let mut queue = answers.into_iter();
    loop {
        let begun = run
            .inference
            .begin_iteration(&limits, stop_file_exists, Duration::from_secs(0));
        if let Err(e) = begun {
            run.result = Err(e);
            return run;
        }
        let answer = match queue.next() {
            Some(answer) => answer,
            None => return run,
        };
        match run.inference.on_response(&mut run.session, answer) {
            Next::Again => {}
            Next::Ended(result) => {
                run.result = Ok(result);
                return run;
            }
            Next::Failed(e) => {
                run.result = Err(e);
                return run;
            }
            Next::Tools(batch) => {
                let mut batch: ToolBatch = batch;
                loop {
                    match batch.advance(&mut run.session, &mut run.inference.tracker) {
                        BatchStep::Call { name, arguments } => {
                            let outcome = tool(&name, &arguments);
                            run.called.push(name);
                            batch.answer(
                                &mut run.session,
                                &mut run.inference.tracker,
                                outcome,
                            );
                        }
                        BatchStep::Done(Ok(true)) => {
                            run.result = Ok(InferenceResult::SessionEnded);
                            return run;
                        }
                        BatchStep::Done(Ok(false)) => break,
                        BatchStep::Done(Err(reason)) => {
                            run.result = Err(RunError::Failed(reason));
                            return run;
                        }
                    }
                }
            }
        }
    }
}

fn no_limits() -> RunLimits {
    RunLimits {
        max_iterations: None,
        max_runtime: None,
        stop_file: None,
    }
}

fn turns(n: u32) -> RunLimits {
    RunLimits {
        max_iterations: Some(n),
        ..no_limits()
    }
}

fn answered(_name: &str, _arguments: &Json) -> Result<ToolCallResult, String> {
    Ok(ToolCallResult {
        content: "ok".to_string(),
        ..Default::default()
    })
}

fn failing(_name: &str, _arguments: &Json) -> Result<ToolCallResult, String> {
    Err("no response configured".to_string())
}

fn failure(run: &Run) -> String {
    run.result.as_ref().unwrap_err().message()
}

fn text_of(message: &Message) -> Option<&str> {
    message.content.as_ref().and_then(|c| c.as_str())
}

#[test]
fn test_single_text_response() {
    let r = run(
        Session::default(),
        turns(10),
        false,
        vec![says("Hello from the agent!", FinishReason::Stop)],
        answered,
    );
    match &r.result {
        Ok(InferenceResult::Completed { text, usage, reason }) => {
            assert_eq!(text, "Hello from the agent!");
            assert_eq!(usage.total_tokens, 15);
            assert_eq!(*reason, CompletionReason::Stop);
        }
        other => panic!("expected a completion, got: {other:?}"),
    }
    assert_eq!(r.inference.inferences, 1);
    assert_eq!(r.session.messages.len(), 1);
}

fn ends_with_word(word: Option<&str>) -> Run {
    let chat = ChatResponse {
        choices: vec![ChatChoice {
            message: Message::assistant(Some("half an answer"), None),
            finish_reason: word.map(|w| w.to_string()),
        }],
        usage: None,
    };
    run(
        Session::default(),
        turns(10),
        false,
        vec![chat_response_to_llm(chat, None)],
        answered,
    )
}

/// A word that nobody reads is not a normal stop, and no word at all is.
#[test]
fn a_reason_that_is_not_known_fails_the_run() {
    let r = ends_with_word(Some("banana"));
    assert_eq!(
        failure(&r),
        "LLM returned unexpected finish_reason: banana"
    );
    assert!(matches!(
        ends_with_word(None).result,
        Ok(InferenceResult::Completed {
            reason: CompletionReason::Stop,
            ..
        })
    ));
    for word in ["stop", "end_turn"] {
        assert!(matches!(
            ends_with_word(Some(word)).result,
            Ok(InferenceResult::Completed {
                reason: CompletionReason::Stop,
                ..
            })
        ));
    }
}

#[test]
fn test_tool_call_then_text_response() {
    let r = run(
        Session::default(),
        turns(10),
        false,
        vec![
            asks(vec![tool_call("c1", "test_tool", r#"{"input":"hello"}"#)]),
            says("Done!", FinishReason::Stop),
        ],
        |name, arguments| {
            assert_eq!(name, "test_tool");
            assert_eq!(arguments.get_str("input"), Some("hello"));
            Ok(ToolCallResult {
                content: "tool result".to_string(),
                ..Default::default()
            })
        },
    );
    assert!(matches!(r.result, Ok(InferenceResult::Completed { .. })));
    assert_eq!(r.called, vec!["test_tool"]);
    assert_eq!(r.session.messages[1], Message::tool("c1", "tool result"));
    assert_eq!(text_of(&r.session.messages[2]), Some("Done!"));
}

fn catalog() -> SkillCatalog {
    SkillCatalog::new(vec![Skill {
        metadata: SkillMetadata {
            name: "engineering/tdd".to_string(),
            description: "Test first.".to_string(),
        },
        instructions: "Use red-green-refactor.".to_string(),
    }])
    .unwrap()
}

/// Skill loading persists through the ordinary history.
#[test]
fn test_skill_load_is_persisted_as_tool_history() {
    let r = run(
        Session::default(),
        turns(10),
        false,
        vec![
            asks(vec![tool_call(
                "skill-1",
                LOAD_SKILL_TOOL,
                r#"{"skill_name":"engineering/tdd"}"#,
            )]),
            says("Applied the skill.", FinishReason::Stop),
        ],
        |name, arguments| {
            assert!(is_builtin(name));
            load_skill(&catalog(), arguments)
        },
    );
    let at = r
        .session
        .messages
        .iter()
        .position(|message| {
            message.tool_calls.as_ref().is_some_and(|calls| {
                calls
                    .iter()
                    .any(|call| call.function.name == LOAD_SKILL_TOOL)
            })
        })
        .unwrap();
    let skill_result = &r.session.messages[at + 1];
    assert_eq!(skill_result.role, "tool");
    assert_eq!(skill_result.tool_call_id.as_deref(), Some("skill-1"));
    assert!(text_of(skill_result)
        .unwrap()
        .contains("Use red-green-refactor."));
}

#[test]
fn test_max_iterations_exceeded() {
    let ask = || asks(vec![tool_call("c1", "test_tool", "{}")]);
    let r = run(
        Session::default(),
        turns(2),
        false,
        vec![ask(), ask(), ask()],
        answered,
    );
    let msg = failure(&r);
    assert!(
        msg.contains("maximum iterations"),
        "Expected max iterations error, got: {}",
        msg
    );
    assert_eq!(r.inference.inferences, 2);
}

/// Any elapsed time is at least zero, so the first turn trips it.
#[test]
fn test_max_runtime_exceeded() {
    let ask = || asks(vec![tool_call("c1", "test_tool", "{}")]);
    let r = run(
        Session::default(),
        RunLimits {
            max_runtime: Some(Duration::from_secs(0)),
            ..no_limits()
        },
        false,
        vec![ask(), ask()],
        answered,
    );
    assert!(
        is_soft_stop(r.result.as_ref().unwrap_err()),
        "a time limit is a ceiling the caller asked for, not a failure"
    );
    let msg = failure(&r);
    assert!(
        msg.contains("time limit"),
        "Expected a time limit error, got: {}",
        msg
    );
}

/// A run that fails still keeps its work, and keeps it resumable.
#[test]
fn test_a_failed_run_saves_a_resumable_session() {
    let fails = |id: &str| tool_call(id, "failer", r#"{"input":"same"}"#);
    let mut r = run(
        Session::default(),
        turns(10),
        false,
        vec![asks(vec![
            fails("c1"),
            fails("c2"),
            fails("c3"),
            fails("c4"),
        ])],
        failing,
    );
    let error = failure(&r);
    assert!(error.contains("3 identical failed calls"), "{error}");
    assert!(
        !is_soft_stop(r.result.as_ref().unwrap_err()),
        "an abort is a failure, and saying otherwise would report it as a pause"
    );
    assert_eq!(r.called.len(), 3, "the fourth is answered and not made");

    let repaired = save_whatever_was_reached(
        &mut r.session,
        Some("session.json"),
        "2026-01-01T00:00:00Z",
        "2026-01-01T00:00:09Z",
        "failed",
        1,
    );
    assert_eq!(repaired, Some(0), "the batch was finished");
    let calls: Vec<String> = r
        .session
        .messages
        .iter()
        .filter_map(|m| m.tool_calls.as_ref())
        .flatten()
        .map(|c| c.id.clone())
        .collect();
    let answers: Vec<String> = r
        .session
        .messages
        .iter()
        .filter_map(|m| m.tool_call_id.clone())
        .collect();
    for id in &calls {
        assert!(
            answers.contains(id),
            "tool call '{id}' has no result; this session cannot be resumed"
        );
    }
    assert_eq!(calls.len(), 4, "all four calls belong in the session");
}

#[test]
fn test_stop_file_ends_the_run() {
    let ask = || asks(vec![tool_call("c1", "test_tool", "{}")]);
    let r = run(
        Session::default(),
        RunLimits {
            stop_file: Some("/tmp/stop".to_string()),
            ..no_limits()
        },
        true,
        vec![ask(), ask()],
        answered,
    );
    assert!(
        is_soft_stop(r.result.as_ref().unwrap_err()),
        "being asked to stop is a hand-back, not a failure"
    );
    let msg = failure(&r);
    assert!(
        msg.contains("Stop requested"),
        "Expected a stop-requested error, got: {}",
        msg
    );
}

/// A stop file that is absent changes nothing.
#[test]
fn test_an_absent_stop_file_does_not_stop_the_run() {
    let r = run(
        Session::default(),
        RunLimits {
            stop_file: Some("never-written".to_string()),
            ..no_limits()
        },
        false,
        vec![says("nobody stopped me", FinishReason::Stop)],
        answered,
    );
    assert!(matches!(r.result, Ok(InferenceResult::Completed { .. })));
}

#[test]
fn test_identical_failed_tool_calls_abort() {
    let ask = |id: &str| asks(vec![tool_call(id, "test_tool", r#"{"input":"same"}"#)]);
    let r = run(
        Session::default(),
        turns(10),
        false,
        vec![ask("c1"), ask("c2"), ask("c3")],
        failing,
    );
    let message = failure(&r);
    assert!(message.contains("3 identical failed calls"), "{message}");
    assert!(!message.contains("maximum iterations"), "{message}");
    assert!(
        message.ends_with(" Last error: no response configured"),
        "{message}"
    );
}

/// A contentless completion is asked for again.
#[test]
fn test_empty_completion_is_retried_then_succeeds() {
    let r = run(
        Session::default(),
        turns(10),
        false,
        vec![
            says("", FinishReason::Stop),
            says("Recovered on the second attempt.", FinishReason::Stop),
        ],
        answered,
    );
    assert!(r.result.is_ok(), "Expected Ok, got: {:?}", r.result);
    assert_eq!(r.inference.inferences, 2, "it was waited on and billed");
    assert_eq!(r.inference.usage.total_tokens, 30);
}

/// Consecutive contentless completions abort instead of draining the budget.
#[test]
fn test_repeated_empty_completions_abort() {
    let nothing = || says("", FinishReason::Stop);
    let r = run(
        Session::default(),
        turns(50),
        false,
        vec![nothing(), nothing(), nothing(), nothing()],
        answered,
    );
    let message = failure(&r);
    assert!(message.contains("empty response"), "{message}");
    assert!(message.contains("times in a row"), "{message}");
    assert!(!message.contains("maximum iterations"), "{message}");
    assert_eq!(r.inference.inferences, 3);
}

#[test]
fn an_empty_list_of_calls_counts_as_contentless() {
    let r = run(
        Session::default(),
        turns(50),
        false,
        vec![asks(vec![]), says("", FinishReason::Stop), asks(vec![])],
        answered,
    );
    assert_eq!(
        failure(&r),
        "LLM returned an empty tool_calls array 3 times in a row"
    );
}

#[test]
fn test_content_filter_returns_error() {
    let r = run(
        Session::default(),
        turns(10),
        false,
        vec![says("filtered", FinishReason::ContentFilter)],
        answered,
    );
    let msg = failure(&r);
    assert!(
        msg.contains("content filter"),
        "Expected content filter error, got: {}",
        msg
    );
}

#[test]
fn test_truncated_response_reports_length_reason() {
    let r = run(
        Session::default(),
        turns(10),
        false,
        vec![says("partial", FinishReason::Length)],
        answered,
    );
    assert!(matches!(
        r.result,
        Ok(InferenceResult::Completed {
            reason: CompletionReason::Length,
            ..
        })
    ));
}

#[test]
fn calls_announced_and_not_made_are_a_failure() {
    let r = run(
        Session::default(),
        turns(10),
        false,
        vec![says("x", FinishReason::ToolCalls)],
        answered,
    );
    assert_eq!(
        failure(&r),
        "LLM returned finish_reason 'tool_calls' but no tool_calls in message"
    );
}

#[test]
fn an_answer_without_choices_is_a_failure() {
    let none = LlmResponse {
        choices: vec![],
        usage: None,
        request_id: None,
    };
    let r = run(Session::default(), turns(10), false, vec![none], answered);
    assert_eq!(failure(&r), "No choices returned from LLM");
}

#[test]
fn arguments_that_are_not_json_are_answered_and_nothing_is_called() {
    let r = run(
        Session::default(),
        turns(10),
        false,
        vec![
            asks(vec![tool_call("c1", "test_tool", "{not json")]),
            says("Done!", FinishReason::Stop),
        ],
        answered,
    );
    assert!(r.result.is_ok());
    assert!(r.called.is_empty());
    let said = text_of(&r.session.messages[1]).unwrap();
    assert!(
        said.starts_with("Invalid JSON arguments for tool 'test_tool': "),
        "{said}"
    );
    assert!(said.ends_with("\nRaw: {not json"), "{said}");
}

#[test]
fn what_the_arguments_were_read_as_decides() {
    let mut session = Session::default();
    let mut tracker = LoopTracker::default();
    let mut batch = ToolBatch::begin(vec![tool_call("c1", "t", "?"); 4], &mut session);
    match batch.on_arguments(&mut session, &mut tracker, Ok(json("{\"b\": 1}"))) {
        Some(BatchStep::Call { name, arguments }) => {
            assert_eq!(name, "t");
            assert_eq!(print(&arguments), "{\"b\":1}");
        }
        other => panic!("not a call: {other:?}"),
    }
    for _ in 0..3 {
        let failure = ParseFailure {
            message: "bad".to_string(),
            truncated: false,
        };
        let step = batch.on_arguments(&mut session, &mut tracker, Err(failure));
        assert!(step.is_none());
    }
    assert_eq!(
        session.messages[1],
        Message::tool("c1", "Invalid JSON arguments for tool 't': bad\nRaw: ?")
    );
    match batch.advance(&mut session, &mut tracker) {
        BatchStep::Done(Err(reason)) => {
            assert!(reason.contains("3 identical failed calls"), "{reason}")
        }
        other => panic!("not over: {other:?}"),
    }
    assert_eq!(session.messages.len(), 5);
}

#[test]
fn a_picture_alone_is_an_answer() {
    let r = run(
        Session::default(),
        turns(10),
        false,
        vec![
            asks(vec![
                tool_call("c1", "fail", "{}"),
                tool_call("c2", "fail", "{}"),
                tool_call("c3", "draw", "{}"),
                tool_call("c4", "fail", "{}"),
            ]),
            says("Done!", FinishReason::Stop),
        ],
        |name, _| {
            if name == "draw" {
                Ok(ToolCallResult {
                    images: vec![parse("{\"type\": \"image\"}").unwrap()],
                    ..Default::default()
                })
            } else {
                Err("no".to_string())
            }
        },
    );
    assert!(r.result.is_ok(), "the count starts again: {:?}", r.result);
    assert_eq!(r.called.len(), 4);
}

/// A tool that asks for the session to end said so on purpose.
#[test]
fn a_request_to_end_beats_a_loop_verdict() {
    let r = run(
        Session::default(),
        turns(10),
        false,
        vec![asks(vec![
            tool_call("c1", "create_pr", "{}"),
            tool_call("c2", "x", "{}"),
            tool_call("c3", "x", "{}"),
            tool_call("c4", "x", "{}"),
        ])],
        |name, _| {
            if name == "create_pr" {
                Ok(ToolCallResult {
                    content: "opened".to_string(),
                    session_ends: true,
                    ..Default::default()
                })
            } else {
                Err("no".to_string())
            }
        },
    );
    assert!(matches!(r.result, Ok(InferenceResult::SessionEnded)));
    assert_eq!(r.session.messages.len(), 5);
}

// ── Opening a session ─────────────────────────────────────────────────────────

#[test]
fn test_prompt_file_is_appended_and_persisted() {
    let mut session = Session::default();
    session.messages.push(Message::user("persistent history"));

    let prompt = resolve_prompt(Some("new prompt".to_string()), None);
    open_session(&mut session, "the system prompt", prompt.as_deref());

    {
        let seen = messages_for_provider(&session.messages, false);
        let seen = seen.as_vec();
        assert_eq!(seen.len(), 3);
        assert_eq!(seen[0].role, "system");
        assert_eq!(text_of(&seen[1]), Some("persistent history"));
        assert_eq!(text_of(&seen[2]), Some("new prompt"));
    }

    let r = run(
        session,
        turns(10),
        false,
        vec![says("Done!", FinishReason::Stop)],
        answered,
    );
    assert!(r.result.is_ok());
    let saved_texts: Vec<&str> = r.session.messages.iter().filter_map(text_of).collect();
    assert!(saved_texts.contains(&"persistent history"));
    assert!(saved_texts.contains(&"new prompt"));
    assert!(saved_texts.contains(&"Done!"));
}

#[test]
fn an_old_system_prompt_is_replaced() {
    let mut session = Session {
        messages: vec![
            Message::system("old"),
            Message::user("a"),
            Message::system("older"),
        ],
        ..Default::default()
    };
    open_session(&mut session, "new", None);
    assert_eq!(
        session.messages,
        vec![Message::system("new"), Message::user("a")]
    );
}

#[test]
fn a_conversation_that_is_whole_is_whole_once_it_is_opened() {
    let mut session = Session {
        messages: vec![
            Message::system("old"),
            Message::assistant(None, Some(vec![tool_call("c1", "x", "{}")])),
            Message::tool("c1", "ok"),
            Message::system("older"),
            Message::tool("c0", "stray"),
        ],
        ..Default::default()
    };
    open_session(&mut session, "new", Some("go on"));
    assert_eq!(session.messages.len(), 5);
    assert_eq!(answer_unanswered_tool_calls(&mut session, "gone"), 0);
}

#[test]
fn a_file_comes_before_a_pipe_and_a_blank_pipe_is_no_prompt() {
    let text = |s: &str| Some(s.to_string());
    assert_eq!(resolve_prompt(text("file"), text("pipe")), text("file"));
    assert_eq!(resolve_prompt(None, text("pipe\n")), text("pipe\n"));
    assert_eq!(resolve_prompt(None, text(" \n")), None);
    assert_eq!(resolve_prompt(text(" "), None), text(" "));
    assert_eq!(resolve_prompt(None, None), None);
}

fn settings(in_session: Option<&str>, out_session: Option<&str>) -> RunSettings {
    RunSettings {
        agent_def_path: "agent.md".to_string(),
        in_session: in_session.map(str::to_string),
        prompt_file: None,
        out_session: out_session.map(str::to_string),
        template_path: None,
        tools_file: None,
        skills_dir: None,
        max_iterations: None,
        max_runtime: None,
        stop_file: None,
    }
}

#[test]
fn a_session_is_written_where_it_was_asked_for_and_else_where_it_came_from() {
    assert_eq!(
        settings(Some("in"), Some("out")).out_path().as_deref(),
        Some("out")
    );
    assert_eq!(settings(Some("in"), None).out_path().as_deref(), Some("in"));
    assert_eq!(settings(None, None).out_path(), None);
}

fn agent(mcp_servers: &[&str]) -> AgentDef {
    AgentDef {
        name: "a".to_string(),
        description: "d".to_string(),
        model: "m".to_string(),
        provider: None,
        vision: false,
        knows_about: vec![],
        mcp_servers: mcp_servers.iter().map(|s| s.to_string()).collect(),
        extra_body: Dict::new(),
        extra_headers: Dict::new(),
    }
}

fn server(name: &str) -> ToolDef {
    ToolDef {
        name: name.to_string(),
        command: "echo".to_string(),
        args: vec![],
        env: Dict::new(),
        url: None,
        headers: Dict::new(),
        hooks: Hooks::default(),
        unprefixed: false,
        max_output_chars: None,
        request_timeout_secs: None,
        guess_severity_from_output: false,
    }
}

#[test]
fn servers_need_a_tools_file() {
    assert_eq!(tools_file_for(&agent(&[]), None), Ok(None));
    assert_eq!(tools_file_for(&agent(&[]), Some("t.yaml")), Ok(None));
    assert_eq!(
        tools_file_for(&agent(&["x"]), Some("t.yaml")),
        Ok(Some("t.yaml"))
    );
    assert_eq!(tools_file_for(&agent(&["x"]), None), Err(TOOLS_FILE_MISSING));
}

#[test]
fn the_servers_are_those_the_agent_names_in_its_order() {
    let mut defs: Dict<ToolDef> = Dict::new();
    defs.insert("a".to_string(), server("a"));
    defs.insert("b".to_string(), server("b"));
    defs.insert("c".to_string(), server("c"));
    let named = |names: &[&str]| names.iter().map(|s| s.to_string()).collect::<Vec<_>>();
    let chosen = select_tool_defs(&named(&["c", "a"]), &defs, "\"t.yaml\"").unwrap();
    let names: Vec<&str> = chosen.iter().map(|d| d.name.as_str()).collect();
    assert_eq!(names, vec!["c", "a"]);

    let refused = select_tool_defs(&named(&["c", "x"]), &defs, "\"t.yaml\"").unwrap_err();
    assert!(refused.contains("a, b, c"), "{refused}");
    assert!(refused.ends_with(" (tools file: \"t.yaml\")"), "{refused}");
}

#[test]
fn a_colleague_without_a_definition_is_named() {
    assert_eq!(
        colleague_missing_message("helper", "\"agents/helper.md\""),
        "Agent 'helper' listed in knows_about but its definition was not found at: \"agents/helper.md\""
    );
}

// ── Tools ─────────────────────────────────────────────────────────────────────

fn offered(name: &str) -> Json {
    json(&format!(
        "{{\"type\": \"function\", \"function\": {{\"name\": \"{name}\"}}}}"
    ))
}

#[test]
fn the_built_in_tool_is_offered_first() {
    let tools = runtime_tools(vec![offered("shell__run")]).unwrap();
    assert_eq!(
        tool_descriptions(&tools),
        vec!["- `atoma_builtin__load_skill`", "- `shell__run`"]
    );
    assert_eq!(
        print(&tools[0]),
        "{\"function\":{\"description\":\"Load the full instructions of one of the available skills.\",\"name\":\"atoma_builtin__load_skill\",\"parameters\":{\"properties\":{\"skill_name\":{\"type\":\"string\"}},\"required\":[\"skill_name\"],\"type\":\"object\"}},\"type\":\"function\"}"
    );
}

#[test]
fn a_tool_without_a_name_is_described_as_unknown() {
    assert_eq!(tool_descriptions(&vec![Json::Null]), vec!["- `unknown`"]);
}

#[test]
fn a_reserved_name_is_refused() {
    let refused = runtime_tools(vec![offered("x"), offered("atoma_builtin__other")]);
    assert_eq!(
        refused.unwrap_err(),
        "Tool 'atoma_builtin__other' uses the reserved prefix 'atoma_builtin__'"
    );
}

#[test]
fn a_skill_that_is_not_there_is_answered_with_those_that_are() {
    assert_eq!(
        load_skill(&catalog(), &json("{\"skill_name\": \"a/b\"}")).unwrap_err(),
        "Unknown skill 'a/b'. Available skills: engineering/tdd."
    );
    assert_eq!(
        load_skill(&catalog(), &json("{\"name\": \"engineering/tdd\"}")).unwrap_err(),
        SKILL_NAME_MISSING
    );
    assert_eq!(
        unknown_skill_message("a/b", &SkillCatalog::default()),
        "Unknown skill 'a/b'. No skills are available."
    );
}

// ── The record of a run ───────────────────────────────────────────────────────

fn iterations_of(session: &Session, index: usize) -> Option<u64> {
    let runs = session.extra.field(RUNS_KEY)?.as_array()?;
    runs.get(index)?.get("iterations")?.as_u64()
}

/// The history was compacted down to one message before this run started.
#[test]
fn a_compacted_history_does_not_erase_this_runs_inferences() {
    let mut session = Session::default();
    session.messages.push(Message::assistant(Some("x"), None));
    session.extra.put(RUNS_KEY, json("[{\"messages\": 400}]"));

    record_run(&mut session, "2026-01-01T00:00:00Z", "completed", 7);

    assert_eq!(iterations_of(&session, 1), Some(7));
}

#[test]
fn a_first_run_reports_the_count_it_was_given() {
    let mut session = Session::default();

    record_run(&mut session, "2026-01-01T00:00:00Z", "completed", 3);

    assert_eq!(iterations_of(&session, 0), Some(3));
}

#[test]
fn a_record_says_when_how_long_and_why() {
    let mut session = Session {
        messages: vec![Message::user("a")],
        ..Default::default()
    };
    record_run_at(
        &mut session,
        "2026-01-01T00:00:00Z",
        "2026-01-02T00:00:09Z",
        "stopped",
        3,
    );
    assert_eq!(
        print(session.extra.field(RUNS_KEY).unwrap()),
        "[{\"ended\":\"2026-01-02T00:00:09Z\",\"ended_because\":\"stopped\",\"iterations\":3,\"messages\":1,\"seconds\":86409,\"started\":\"2026-01-01T00:00:00Z\"}]"
    );
}

#[test]
fn nothing_is_recorded_where_nothing_is_written() {
    let mut session = Session::default();
    let saved = save_whatever_was_reached(
        &mut session,
        None,
        "2026-01-01T00:00:00Z",
        "2026-01-01T00:00:09Z",
        "completed",
        3,
    );
    assert_eq!(saved, None);
    assert_eq!(session, Session::default());
}

#[test]
fn a_session_is_repaired_before_it_is_written() {
    let mut session = Session {
        messages: vec![Message::assistant(
            None,
            Some(vec![tool_call("c1", "x", "{}")]),
        )],
        ..Default::default()
    };
    let saved = save_whatever_was_reached(
        &mut session,
        Some("s.json"),
        "2026-01-01T00:00:00Z",
        "2026-01-01T00:00:09Z",
        "failed",
        1,
    );
    assert_eq!(saved, Some(1));
    assert_eq!(
        session.messages[1],
        Message::tool("c1", "Error: the run ended before this tool call completed.")
    );
}

#[test]
fn every_ending_goes_through_one_door() {
    let mut facts = RunFacts {
        started: "2026-01-01T00:00:00Z".to_string(),
        iterations: 2,
        session_path: Some("s.json".to_string()),
        ..Default::default()
    };
    let mut session = Session::default();
    let outcome = finish_run(
        &mut facts,
        &mut session,
        Err(RunError::Iterations(MaxIterationsReached(2))),
        "2026-01-01T00:01:00Z".to_string(),
    );
    assert_eq!(ending_of(&outcome.unwrap_err()), "iterations");
    assert_eq!(facts.ended_because, "iterations");
    assert_eq!(facts.seconds, 60);
    let record = &session.extra.field(RUNS_KEY).unwrap().as_array().unwrap()[0];
    assert_eq!(record.get_str("ended_because"), Some("iterations"));
    assert_eq!(record.get("iterations").unwrap().as_u64(), Some(2));

    let outcome = finish_run(
        &mut facts,
        &mut session,
        Ok(InferenceResult::SessionEnded),
        "2026-01-01T00:02:00Z".to_string(),
    );
    assert!(matches!(outcome, Ok(RunOutcome::SessionEnded)));
    assert_eq!(facts.ended_because, "completed");
}

#[test]
fn what_was_spent_is_written_as_one_line() {
    let usage = LlmUsage {
        prompt_tokens: 100,
        completion_tokens: 20,
        total_tokens: 120,
        cached_prompt_tokens: Some(80),
        written_prompt_tokens: None,
    };
    assert_eq!(
        token_usage_line(&usage),
        "ATOMA_TOKEN_USAGE: prompt=100 completion=20 total=120 cached=80 written=unknown"
    );
    assert_eq!(
        inference_usage_line(3, &usage, None),
        "ATOMA_INFERENCE_USAGE: iteration=3 prompt=100 completion=20 cached=80 written=unknown request=unknown"
    );
    assert_eq!(
        inference_usage_line(3, &usage, Some("req-1")),
        "ATOMA_INFERENCE_USAGE: iteration=3 prompt=100 completion=20 cached=80 written=unknown request=req-1"
    );
}

// ── The envelope ──────────────────────────────────────────────────────────────

fn sample_facts() -> RunFacts {
    RunFacts {
        started: "2026-01-01T00:00:00Z".to_string(),
        ended: "2026-01-01T00:00:09Z".to_string(),
        ended_because: "completed",
        seconds: 9,
        iterations: 4,
        usage: LlmUsage {
            prompt_tokens: 100,
            completion_tokens: 20,
            total_tokens: 120,
            cached_prompt_tokens: Some(80),
            written_prompt_tokens: Some(10),
        },
        session_path: Some("/tmp/session.json".to_string()),
    }
}

fn keys(value: &Json) -> Vec<String> {
    let mut names = match value {
        Json::Object(fields) => fields.keys(),
        other => panic!("the envelope is a JSON object, not {other:?}"),
    };
    names.sort();
    names
}

fn number(value: &Json, outer: &str, inner: &str) -> Option<u64> {
    value.get(outer)?.get(inner)?.as_u64()
}

/// The contract is the key set, not what any one path happens to print.
#[test]
fn every_exit_path_answers_the_same_questions() {
    let completed = RunOutcome::Completed {
        text: "done".to_string(),
        reason: CompletionReason::Stop,
    };

    let after_completion = envelope(&sample_facts(), Some(&completed));
    let after_session_end = envelope(&sample_facts(), Some(&RunOutcome::SessionEnded));
    let after_soft_stop = envelope(&sample_facts(), None);

    assert_eq!(keys(&after_completion), keys(&after_session_end));
    assert_eq!(keys(&after_completion), keys(&after_soft_stop));
    for name in [
        "response",
        "usage",
        "finish_reason",
        "session_path",
        "ended_because",
        "seconds",
        "iterations",
    ] {
        assert!(after_soft_stop.get(name).is_some(), "missing {name}");
    }
}

#[test]
fn a_finished_run_still_answers_what_it_always_answered() {
    let outcome = RunOutcome::Completed {
        text: "done".to_string(),
        reason: CompletionReason::Length,
    };

    let value = envelope(&sample_facts(), Some(&outcome));

    assert_eq!(value.get_str("response"), Some("done"));
    assert_eq!(value.get_str("finish_reason"), Some("length"));
    assert_eq!(value.get_str("session_path"), Some("/tmp/session.json"));
    assert_eq!(number(&value, "usage", "prompt_tokens"), Some(100));
}

/// Having no assistant text is a `null` response, not an absent envelope.
#[test]
fn a_session_a_tool_ended_still_reports_what_it_spent() {
    let value = envelope(&sample_facts(), Some(&RunOutcome::SessionEnded));

    assert_eq!(value.get("response"), Some(&Json::Null));
    assert_eq!(value.get("finish_reason"), Some(&Json::Null));
    assert_eq!(value.get_str("ended_because"), Some("completed"));
    assert_eq!(number(&value, "usage", "total_tokens"), Some(120));
    assert_eq!(value.get("iterations").unwrap().as_u64(), Some(4));
    assert_eq!(value.get("seconds").unwrap().as_u64(), Some(9));
}

#[test]
fn a_soft_stop_says_which_ending_it_was() {
    let mut facts = sample_facts();
    facts.ended_because = "runtime";

    let value = envelope(&facts, None);

    assert_eq!(value.get_str("ended_because"), Some("runtime"));
    assert_eq!(value.get("response"), Some(&Json::Null));
    assert_eq!(value.get("iterations").unwrap().as_u64(), Some(4));
    assert_eq!(value.get("seconds").unwrap().as_u64(), Some(9));
}

/// Absence is not zero.
#[test]
fn a_cache_nobody_measured_is_null_and_not_zero() {
    let mut facts = sample_facts();
    facts.usage.cached_prompt_tokens = None;
    facts.usage.written_prompt_tokens = None;

    let value = envelope(&facts, None);
    let usage = value.get("usage").unwrap();

    assert_eq!(usage.get("cached_prompt_tokens"), Some(&Json::Null));
    assert_eq!(usage.get("written_prompt_tokens"), Some(&Json::Null));
}

#[test]
fn concluding_stamps_the_word_and_the_clock() {
    let mut facts = RunFacts::default();
    facts.start();
    facts.conclude("stopped");

    assert_eq!(facts.ended_because, "stopped");
    assert!(!facts.started.is_empty());
    assert!(!facts.ended.is_empty());
    assert_eq!(
        envelope(&facts, None).get_str("ended_because"),
        Some("stopped")
    );
}

/// `completed` as a default would report every such run as a success.
#[test]
fn facts_that_reached_no_ending_do_not_claim_one() {
    let value = envelope(&RunFacts::default(), None);

    assert_eq!(value.get_str("ended_because"), Some("failed"));
}

#[test]
fn an_envelope_is_one_object() {
    let completed = RunOutcome::Completed {
        text: "done".to_string(),
        reason: CompletionReason::Stop,
    };
    assert_eq!(
        print(&envelope(&sample_facts(), Some(&completed))),
        "{\"ended_because\":\"completed\",\"finish_reason\":\"stop\",\"iterations\":4,\"response\":\"done\",\"seconds\":9,\"session_path\":\"/tmp/session.json\",\"usage\":{\"cached_prompt_tokens\":80,\"completion_tokens\":20,\"prompt_tokens\":100,\"total_tokens\":120,\"written_prompt_tokens\":10}}"
    );
}

// ── The clock ─────────────────────────────────────────────────────────────────

#[test]
fn stamps_follow_the_calendar() {
    assert_eq!(rfc3339(0), "1970-01-01T00:00:00Z");
    assert_eq!(rfc3339(951_782_400), "2000-02-29T00:00:00Z");
    assert_eq!(rfc3339(951_868_799), "2000-02-29T23:59:59Z");
    assert_eq!(rfc3339(951_868_800), "2000-03-01T00:00:00Z");
    assert_eq!(rfc3339(4_107_542_399), "2100-02-28T23:59:59Z");
    assert_eq!(rfc3339(4_107_542_400), "2100-03-01T00:00:00Z");
    assert_eq!(rfc3339(-1), "1969-12-31T23:59:59Z");
}

#[test]
fn stamps_sort_by_time() {
    let moments = [
        0,
        1,
        59,
        60,
        3_599,
        3_600,
        86_399,
        86_400,
        951_782_399,
        951_868_799,
        951_868_800,
        978_307_199,
        978_307_200,
        253_402_300_799,
    ];
    for pair in moments.windows(2) {
        assert!(rfc3339(pair[0]) < rfc3339(pair[1]), "{pair:?}");
    }
    assert_eq!(rfc3339(253_402_300_799), "9999-12-31T23:59:59Z");
}

#[test]
fn a_duration_is_what_lies_between_two_stamps() {
    for (a, b) in [(0, 0), (5, 65), (951_782_399, 951_868_800)] {
        assert_eq!(seconds_between(&rfc3339(a), &rfc3339(b)), (b - a) as u64);
    }
    assert_eq!(seconds_between(&rfc3339(10), &rfc3339(5)), 0);
    assert_eq!(seconds_between("", &rfc3339(5)), 0);
    assert_eq!(seconds_between("not a stamp at all.", &rfc3339(5)), 0);
}

#[test]
fn the_clock_runs() {
    let now = now_rfc3339();
    assert_eq!(now.len(), 20);
    assert!(now.as_str() > "2024-01-01T00:00:00Z", "{now}");
    assert!(seconds_between("2024-01-01T00:00:00Z", &now) > 0);
}
