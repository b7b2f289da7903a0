use atoma::domain::ports::{FinishReason, LlmUsage};
use atoma::domain::session::{
    answer_unanswered_tool_calls, Message, Session, ToolCall, ToolCallFunction, NO_CALL_TO_ANSWER,
};
use atoma::domain::skill::{
    skill_called_as_tool_message, Skill, SkillCatalog, SkillMetadata, LOAD_SKILL_ARGUMENT,
    LOAD_SKILL_TOOL,
};
use atoma::domain::tool::unknown_server_message;
use atoma::domain::tool_health::{
    annotation, contains_word, severity_of_level, severity_of_output, severity_of_stderr,
    with_annotation, HealthLog, HealthNote, Severity, MAX_NOTES,
};
use atoma::domain::tool_loop::{CallOutcome, LoopTracker};
use atoma::domain::tool_output::{cap, resolve_limit, DEFAULT_MAX_OUTPUT_CHARS};
use atoma::json::{parse, print, Json};

// ── Sessions ──────────────────────────────────────────────────────────────────

fn call(id: &str) -> ToolCall {
    ToolCall {
        id: id.to_string(),
        type_: "function".to_string(),
        function: ToolCallFunction {
            name: "shell_execute".to_string(),
            arguments: "{}".to_string(),
        },
    }
}

fn ids_of_tool_messages(session: &Session) -> Vec<String> {
    session
        .messages
        .iter()
        .filter(|m| m.role == "tool")
        .filter_map(|m| m.tool_call_id.clone())
        .collect()
}

/// The shape that cannot be resumed: a batch abandoned part-way.
#[test]
fn an_unanswered_call_is_given_a_result() {
    let mut session = Session {
        messages: vec![
            Message::assistant(None, Some(vec![call("a"), call("b"), call("c")])),
            Message::tool("a", "ok"),
            Message::tool("b", "Error: no"),
        ],
        ..Default::default()
    };

    assert_eq!(answer_unanswered_tool_calls(&mut session, "gone"), 1);
    assert_eq!(ids_of_tool_messages(&session), vec!["a", "b", "c"]);
    assert_eq!(session.messages[3], Message::tool("c", "gone"));
}

/// A result that follows the NEXT assistant turn answers nothing, so the synthetic one has to
/// land inside its own block rather than at the end.
#[test]
fn a_synthetic_result_lands_in_its_own_block() {
    let mut session = Session {
        messages: vec![
            Message::assistant(None, Some(vec![call("a"), call("b")])),
            Message::tool("a", "ok"),
            Message::assistant(Some("done"), None),
        ],
        ..Default::default()
    };

    assert_eq!(answer_unanswered_tool_calls(&mut session, "gone"), 1);
    let roles: Vec<&str> = session.messages.iter().map(|m| m.role.as_str()).collect();
    assert_eq!(roles, vec!["assistant", "tool", "tool", "assistant"]);
    assert_eq!(session.messages[2].tool_call_id.as_deref(), Some("b"));
}

/// The common case, and the one that must not be touched: every call answered.
#[test]
fn a_whole_conversation_is_left_alone() {
    let before = vec![
        Message::assistant(None, Some(vec![call("a")])),
        Message::tool("a", "ok"),
        Message::assistant(Some("done"), None),
    ];
    let mut session = Session {
        messages: before.clone(),
        ..Default::default()
    };

    assert_eq!(answer_unanswered_tool_calls(&mut session, "gone"), 0);
    assert_eq!(session.messages.len(), before.len());
    assert_eq!(ids_of_tool_messages(&session), vec!["a"]);
    assert_eq!(session.messages, before);
}

#[test]
fn several_turns_are_each_repaired_in_place() {
    let mut session = Session {
        messages: vec![
            Message::assistant(None, Some(vec![call("a"), call("b")])),
            Message::tool("a", "ok"),
            Message::assistant(None, Some(vec![call("c")])),
        ],
        ..Default::default()
    };

    assert_eq!(answer_unanswered_tool_calls(&mut session, "gone"), 2);
    assert_eq!(ids_of_tool_messages(&session), vec!["a", "b", "c"]);
    assert_eq!(answer_unanswered_tool_calls(&mut session, "again"), 0);
}

#[test]
fn a_conversation_with_no_tool_calls_is_untouched() {
    let mut session = Session {
        messages: vec![Message::user("hello"), Message::assistant(Some("hi"), None)],
        ..Default::default()
    };
    assert_eq!(answer_unanswered_tool_calls(&mut session, "gone"), 0);
    assert_eq!(session.messages.len(), 2);
}

#[test]
fn test_message_system() {
    let m = Message::system("You are helpful.");
    assert_eq!(m.role, "system");
    assert_eq!(m.content, Some(Json::Text("You are helpful.".into())));
    assert!(m.tool_calls.is_none());
    assert!(m.atoma_metadata.is_none());
}

#[test]
fn test_message_user() {
    let m = Message::user("Hello!");
    assert_eq!(m.role, "user");
    assert_eq!(m.content, Some(Json::Text("Hello!".into())));
}

#[test]
fn test_message_assistant_text() {
    let m = Message::assistant(Some("I'm here."), None);
    assert_eq!(m.role, "assistant");
    assert_eq!(m.content, Some(Json::Text("I'm here.".into())));
    assert!(m.tool_calls.is_none());
}

#[test]
fn test_message_tool() {
    let m = Message::tool("call-1", "result_value");
    assert_eq!(m.role, "tool");
    assert_eq!(m.tool_call_id.as_deref(), Some("call-1"));
    assert_eq!(m.content, Some(Json::Text("result_value".into())));
}

#[test]
fn test_to_llm_value_strips_metadata() {
    let m = Message {
        atoma_metadata: Some(
            parse("{\"github_context\": {\"event_type\": \"issue_comment\"}}").unwrap(),
        ),
        ..Message::user("Hi")
    };
    let val = m.to_llm_value();
    assert!(
        val.get("atoma_metadata").is_none(),
        "atoma_metadata should be stripped"
    );
    assert_eq!(val.get_str("role"), Some("user"));
    assert_eq!(print(&val), "{\"content\":\"Hi\",\"role\":\"user\"}");
}

#[test]
fn test_to_llm_value_preserves_content() {
    let m = Message::system("sys");
    let val = m.to_llm_value();
    assert_eq!(val.get_str("content"), Some("sys"));
}

#[test]
fn a_calling_message_is_sent_with_its_calls() {
    let m = Message::assistant(None, Some(vec![call("a")]));
    assert_eq!(
        print(&m.to_llm_value()),
        "{\"role\":\"assistant\",\"tool_calls\":[{\"function\":{\"arguments\":\"{}\",\"name\":\"shell_execute\"},\"id\":\"a\",\"type\":\"function\"}]}"
    );
}

#[test]
fn a_result_without_a_call_is_named_as_such() {
    assert_eq!(Message::tool("x", "y").tool_call_id_for_result(), Ok("x"));
    assert_eq!(
        Message::user("y").tool_call_id_for_result(),
        Err(NO_CALL_TO_ANSWER)
    );
}

#[test]
fn pictures_follow_the_text_of_a_result() {
    let image = parse("{\"type\": \"image\", \"data\": \"AAAA\"}").unwrap();
    let m = Message::tool_blocks("c", "here", &vec![image]);
    assert_eq!(m.role, "tool");
    assert_eq!(m.tool_call_id.as_deref(), Some("c"));
    assert_eq!(
        print(&m.content.unwrap()),
        "[{\"text\":\"here\",\"type\":\"text\"},{\"data\":\"AAAA\",\"type\":\"image\"}]"
    );
}

// ── Skills ────────────────────────────────────────────────────────────────────

/// The property is that the message names the call that works.
#[test]
fn a_skill_path_is_told_which_tool_loads_it() {
    let message = skill_called_as_tool_message("engineering/environment").expect("a skill path");
    assert!(message.contains(LOAD_SKILL_TOOL));
    assert!(message.contains("engineering/environment"));
}

/// The corrected call is one a model copies verbatim, so the argument's name has to be the one
/// the tool takes.
#[test]
fn the_corrected_call_names_the_argument_the_tool_takes() {
    let message = skill_called_as_tool_message("engineering/tdd").expect("a skill path");
    assert!(
        message.contains(&format!(r#"{{"{LOAD_SKILL_ARGUMENT}": "engineering/tdd"}}"#)),
        "{message}"
    );
}

/// It has to say that nothing happened.
#[test]
fn the_message_says_nothing_has_run() {
    let message = skill_called_as_tool_message("review/quick-quality-gate").expect("a skill path");
    assert!(message.to_lowercase().contains("nothing has run"));
}

/// A tool name that is simply wrong keeps the format error.
#[test]
fn a_name_that_is_not_a_skill_path_is_left_alone() {
    for name in ["github", "create_pr", "a/b/c", "/leading", "trailing/"] {
        assert!(
            skill_called_as_tool_message(name).is_none(),
            "{name} should keep the format error"
        );
    }
}

fn skill(name: &str) -> Skill {
    Skill {
        metadata: SkillMetadata {
            name: name.to_string(),
            description: format!("about {name}"),
        },
        instructions: format!("do {name}"),
    }
}

#[test]
fn a_catalog_is_in_the_order_of_its_names_and_finds_each() {
    let catalog = SkillCatalog::new(vec![skill("b/x"), skill("a/y"), skill("a/x")]).unwrap();
    let names: Vec<String> = catalog.metadata().into_iter().map(|m| m.name).collect();
    assert_eq!(names, vec!["a/x", "a/y", "b/x"]);
    assert_eq!(catalog.get("a/y").unwrap().instructions, "do a/y");
    assert!(catalog.get("a/z").is_none());
}

#[test]
fn two_skills_of_one_name_are_refused() {
    let refused = SkillCatalog::new(vec![skill("a/x"), skill("b/x"), skill("a/x")]);
    assert_eq!(refused.unwrap_err(), "Duplicate skill name 'a/x'");
}

// ── Tool servers ──────────────────────────────────────────────────────────────

fn texts(list: &[&str]) -> Vec<String> {
    list.iter().map(|s| s.to_string()).collect()
}

#[test]
fn it_names_what_exists() {
    let have = texts(&["shell", "github"]);
    let message = unknown_server_message("githbu", &have);
    assert!(
        message.contains("githbu"),
        "it says what was asked for: {message}"
    );
    assert!(message.contains("github"), "and what exists: {message}");
}

/// Two runs of the same mistake producing two different messages is how a reader concludes
/// something changed.
#[test]
fn the_order_does_not_depend_on_the_map() {
    let one = unknown_server_message("x", &texts(&["web", "atoma", "shell"]));
    let two = unknown_server_message("x", &texts(&["shell", "web", "atoma"]));
    assert_eq!(one, two);
    assert!(one.contains("atoma, shell, web"), "sorted: {one}");
}

/// An empty tools file is a different mistake.
#[test]
fn an_empty_tools_file_says_so() {
    let message = unknown_server_message("shell", &vec![]);
    assert!(message.contains("no servers at all"), "{message}");
}

// ── Health ────────────────────────────────────────────────────────────────────

#[test]
fn protocol_levels_map_to_what_the_agent_needs_to_know() {
    assert_eq!(severity_of_level("warning"), Severity::Warning);
    assert_eq!(severity_of_level("ERROR"), Severity::Error);
    assert_eq!(severity_of_level("emergency"), Severity::Error);
    for routine in ["debug", "info", "notice", " "] {
        assert_eq!(severity_of_level(routine), Severity::Routine, "{routine}");
    }
}

/// A level this does not recognise is treated as routine.
#[test]
fn an_unknown_level_is_routine() {
    assert_eq!(severity_of_level("verbose"), Severity::Routine);
    assert_eq!(severity_of_level("trace"), Severity::Routine);
}

#[test]
fn the_reranker_line_is_a_warning() {
    let line = "[atoma-search] WARN could not preload the reranker (EACCES: permission denied)";
    assert_eq!(severity_of_stderr(line), Severity::Warning);
}

#[test]
fn stderr_severity_reads_the_words_it_knows() {
    assert_eq!(
        severity_of_stderr("Error: could not connect"),
        Severity::Error
    );
    assert_eq!(
        severity_of_stderr("fatal: not a git repository"),
        Severity::Error
    );
    assert_eq!(
        severity_of_stderr("warning: falling back"),
        Severity::Warning
    );
    assert_eq!(
        severity_of_stderr("Secure MCP Filesystem Server running on stdio"),
        Severity::Routine,
    );
}

/// The plural is the same report.
#[test]
fn the_plurals_are_on_the_list() {
    assert_eq!(
        severity_of_stderr("3 warnings during startup"),
        Severity::Warning
    );
    assert_eq!(
        severity_of_stderr("2 errors while indexing"),
        Severity::Error
    );
}

/// Word boundaries, or ordinary output becomes a warning.
#[test]
fn a_keyword_inside_a_word_is_not_a_report() {
    assert_eq!(
        severity_of_stderr("forwarding to port 8080"),
        Severity::Routine
    );
    assert_eq!(
        severity_of_stderr("errorless parse completed"),
        Severity::Routine
    );
    assert_eq!(severity_of_stderr("warning"), Severity::Warning);
    assert_eq!(severity_of_stderr("[WARN] x"), Severity::Warning);
}

#[test]
fn a_word_is_found_behind_one_that_only_holds_it() {
    assert!(contains_word("terror and error", "error"));
    assert!(!contains_word("terror and errors", "error"));
}

#[test]
fn the_guess_is_not_made_unless_it_was_asked_for() {
    let line = "npm warn deprecated glob@7.2.3: this package is no longer supported";
    assert_eq!(severity_of_output(line, false), Severity::Routine);
    assert_eq!(severity_of_output(line, true), Severity::Warning);
}

/// The flag gates the reading, it does not narrow it.
#[test]
fn asking_for_the_guess_gets_the_whole_of_it() {
    assert_eq!(
        severity_of_output("fatal: not a git repository", true),
        Severity::Error
    );
    assert_eq!(
        severity_of_output("running on stdio", true),
        Severity::Routine
    );
}

#[test]
fn routine_is_not_recorded() {
    let mut log = HealthLog::default();
    assert!(!log.record(Severity::Routine, "listening on stdio"));
    assert!(log.drain().is_empty());
}

/// Fifty search calls must not carry the same sentence fifty times.
#[test]
fn the_same_message_is_recorded_once() {
    let mut log = HealthLog::default();
    assert!(log.record(Severity::Warning, "reranker unavailable"));
    assert!(!log.record(Severity::Warning, "reranker unavailable"));
    assert!(!log.record(Severity::Warning, "  reranker unavailable  "));
    assert_eq!(log.drain().len(), 1);
}

#[test]
fn draining_leaves_nothing_behind() {
    let mut log = HealthLog::default();
    log.record(Severity::Warning, "one");
    log.record(Severity::Error, "two");
    assert_eq!(log.drain().len(), 2);
    assert!(
        log.drain().is_empty(),
        "a note reaches one result, not every result after it"
    );
}

/// What went out with one result does not go out with a later one.
#[test]
fn what_was_handed_out_is_not_recorded_again() {
    let mut log = HealthLog::default();
    assert!(log.record(Severity::Warning, "reranker unavailable"));
    assert_eq!(log.drain().len(), 1);
    assert!(!log.record(Severity::Warning, "reranker unavailable"));
    assert!(!log.record(Severity::Error, " reranker unavailable "));
    assert!(log.record(Severity::Warning, "index stale"));
    let notes = log.drain();
    assert_eq!(notes.len(), 1);
    assert_eq!(notes[0].message, "index stale");
}

/// The cap says how much it turned away.
#[test]
fn past_the_cap_the_count_is_kept_instead() {
    let mut log = HealthLog::default();
    for n in 0..MAX_NOTES + 7 {
        log.record(Severity::Warning, &format!("problem {n}"));
    }
    let notes = log.drain();
    assert_eq!(
        notes.len(),
        MAX_NOTES + 1,
        "the capped notes plus one count"
    );
    assert_eq!(
        notes.last().unwrap().message,
        "7 further reports from this server were not shown",
    );
    assert!(
        log.drain().is_empty(),
        "the count is reported once, not on every later result"
    );
}

#[test]
fn under_the_cap_nothing_is_counted() {
    let mut log = HealthLog::default();
    log.record(Severity::Warning, "one");
    let notes = log.drain();
    assert_eq!(notes.len(), 1, "no trailing count when nothing was dropped");
}

#[test]
fn an_empty_message_is_not_a_report() {
    let mut log = HealthLog::default();
    assert!(!log.record(Severity::Warning, "   "));
    assert!(log.drain().is_empty());
}

#[test]
fn nothing_held_means_no_annotation() {
    assert_eq!(annotation("search", &[]), None);
}

/// The server is named and the boundary is explicit.
#[test]
fn the_annotation_names_the_server_and_the_severity() {
    let notes = vec![HealthNote {
        severity: Severity::Warning,
        message: "reranker unavailable, results are first-stage ordered".to_string(),
    }];
    let text = annotation("search", &notes).expect("a note produces an annotation");
    assert!(text.contains("'search' server"), "{text}");
    assert!(text.contains("warning:"), "{text}");
    assert!(text.contains("not part of the answer above"), "{text}");
    assert!(text.contains("1 problem"), "{text}");
}

#[test]
fn several_notes_are_counted_in_the_plural() {
    let notes = vec![
        HealthNote {
            severity: Severity::Warning,
            message: "a".into(),
        },
        HealthNote {
            severity: Severity::Error,
            message: "b".into(),
        },
    ];
    let text = annotation("shell", &notes).unwrap();
    assert!(text.contains("2 problems"), "{text}");
    assert!(text.contains("warning: a"), "{text}");
    assert!(text.contains("error: b"), "{text}");
}

/// Appended, not prepended.
#[test]
fn the_answer_comes_first() {
    let combined = with_annotation("the results".into(), Some("--- note ---".into()));
    assert!(combined.starts_with("the results"), "{combined}");
    assert!(combined.ends_with("--- note ---"), "{combined}");
}

#[test]
fn no_annotation_leaves_the_answer_untouched() {
    assert_eq!(with_annotation("the results".into(), None), "the results");
}

/// A tool that returned nothing and warned should not open with a blank line.
#[test]
fn an_empty_answer_is_replaced_rather_than_padded() {
    assert_eq!(with_annotation("  ".into(), Some("note".into())), "note");
}

#[test]
fn an_annotated_answer_reads_as_documented() {
    let notes = vec![HealthNote {
        severity: Severity::Warning,
        message: "could not preload the reranker (EACCES), results are first-stage ordered"
            .to_string(),
    }];
    assert_eq!(
        with_annotation(
            "...the tool's answer...".to_string(),
            annotation("search", &notes)
        ),
        "...the tool's answer...\n\n--- 1 problem reported by the 'search' server, not part of the answer above ---\nwarning: could not preload the reranker (EACCES), results are first-stage ordered"
    );
}

// ── Output ────────────────────────────────────────────────────────────────────

#[test]
fn a_result_within_the_limit_is_untouched() {
    let capped = cap("short", 100);
    assert_eq!(capped.text, "short");
    assert_eq!(capped.dropped, 0);
}

#[test]
fn exactly_the_limit_is_within_it() {
    let text = "x".repeat(50);
    assert_eq!(cap(&text, 50).dropped, 0);
}

/// Keeping only the beginning throws away what failed.
#[test]
fn both_ends_survive_and_the_tail_gets_the_larger_share() {
    let text = format!("{}{}", "A".repeat(500), "Z".repeat(500));
    let capped = cap(&text, 100);
    assert!(capped.text.starts_with("AAAA"), "{}", capped.text);
    assert!(capped.text.ends_with("ZZZZ"), "{}", capped.text);
    assert_eq!(capped.dropped, 900);
    // 25 from the head, 75 from the tail.
    assert_eq!(capped.text.matches('A').count(), 25);
    assert_eq!(capped.text.matches('Z').count(), 75);
}

/// A truncated result that does not say so is worse than a short one.
#[test]
fn the_marker_says_how_much_went_and_from_where() {
    let capped = cap(&"x".repeat(1000), 100);
    assert!(
        capped
            .text
            .contains("900 characters dropped from the middle"),
        "{}",
        capped.text
    );
    assert!(capped.text.contains("100 shown"), "{}", capped.text);
}

/// Characters, not bytes.
#[test]
fn a_cut_never_lands_inside_a_character() {
    let text = "設計判断はコメントに書く。".repeat(100);
    let capped = cap(&text, 40);
    assert_eq!(capped.text.chars().filter(|c| *c != '\n').count() > 0, true);
    assert!(capped.dropped > 0);
    assert!(capped.text.contains("dropped from the middle"));
}

#[test]
fn zero_and_absent_mean_the_default() {
    assert_eq!(resolve_limit(None), DEFAULT_MAX_OUTPUT_CHARS);
    assert_eq!(resolve_limit(Some(0)), DEFAULT_MAX_OUTPUT_CHARS);
}

#[test]
fn a_configured_limit_is_used() {
    assert_eq!(resolve_limit(Some(1234)), 1234);
}

// ── Loops ─────────────────────────────────────────────────────────────────────

#[test]
fn the_third_identical_failure_in_a_row_is_the_last() {
    let mut tracker = LoopTracker::default();
    assert_eq!(tracker.record("a:{}", CallOutcome::Failed), None);
    assert_eq!(tracker.record("a:{}", CallOutcome::Failed), None);
    assert!(tracker.record("a:{}", CallOutcome::Failed).is_some());
}

#[test]
fn another_call_or_an_answer_starts_the_count_again() {
    let mut tracker = LoopTracker::default();
    tracker.record("a:{}", CallOutcome::Failed);
    tracker.record("a:{}", CallOutcome::Failed);
    assert_eq!(tracker.record("b:{}", CallOutcome::Failed), None);
    tracker.record("a:{}", CallOutcome::Failed);
    tracker.record("a:{}", CallOutcome::Failed);
    assert_eq!(tracker.record("a:{}", CallOutcome::Answered), None);
    assert_eq!(tracker.record("a:{}", CallOutcome::Failed), None);
}

// ── Ports ─────────────────────────────────────────────────────────────────────

#[test]
fn finish_words_read_back() {
    for reason in [
        FinishReason::Stop,
        FinishReason::Length,
        FinishReason::ToolCalls,
        FinishReason::ContentFilter,
    ] {
        assert_eq!(FinishReason::from_openai(reason.as_str()), Some(reason));
    }
    assert_eq!(FinishReason::from_openai("end_turn"), None);
}

#[test]
fn a_cache_is_summed_only_over_what_reported_one() {
    let none = LlmUsage {
        prompt_tokens: 10,
        completion_tokens: 2,
        total_tokens: 12,
        cached_prompt_tokens: None,
        written_prompt_tokens: None,
    };
    let some = LlmUsage {
        prompt_tokens: 5,
        completion_tokens: 1,
        total_tokens: 6,
        cached_prompt_tokens: Some(4),
        written_prompt_tokens: None,
    };
    let sum = LlmUsage::default().plus(&none).plus(&some).plus(&none);
    assert_eq!(sum.prompt_tokens, 25);
    assert_eq!(sum.completion_tokens, 5);
    assert_eq!(sum.total_tokens, 30);
    assert_eq!(sum.cached_prompt_tokens, Some(4));
    assert_eq!(sum.written_prompt_tokens, None);
}
