//! What providers have in common: retries, the request body and its merging, and the
//! chat-completions dialect.
use crate::clock::Duration;
use crate::dict::{entry_keys, lemma_entry_keys, Dict};
use crate::domain::ports::{finish_of, ChoiceView, FinishReason, LlmChoice, LlmResponse, LlmUsage};
use crate::domain::session::{
    call_value, clone_array, law_a_message_is_sent_with_what_it_says, llm_fields, messages_view,
    Message, MessageView,
};
use crate::json;
use crate::json::{
    array_view, json_text, lemma_object_entries, parsed_json, Json, JsonView, Num, Number,
};
use crate::text;
use crate::text::{decimal, decimal_of, join, opt_text, sort_texts, texts};
use vstd::prelude::*;

verus! {

// ── Retries ───────────────────────────────────────────────────────────────────

/// How often a request is attempted.
pub const MAX_HTTP_ATTEMPTS: u8 = 3;

/// The pause after the first attempt, in milliseconds.
pub const RETRY_BASE_DELAY_MS: u64 = 1_000;

/// A power of four, or the largest machine word where it is larger.
pub open spec fn power_of_four(n: nat) -> int
    decreases n,
{
    if n == 0 {
        1
    } else if 4 * power_of_four((n - 1) as nat) > u64::MAX {
        u64::MAX as int
    } else {
        4 * power_of_four((n - 1) as nat)
    }
}

/// The pause after an attempt, in milliseconds: four times the one before.
pub open spec fn backoff_millis(attempt: u8) -> int {
    let steps = if attempt == 0 { 0 } else { (attempt - 1) as nat };
    if RETRY_BASE_DELAY_MS * power_of_four(steps) > u64::MAX {
        u64::MAX as int
    } else {
        RETRY_BASE_DELAY_MS * power_of_four(steps)
    }
}

/// How long to wait after an attempt.
pub fn retry_backoff(attempt: u8) -> (r: Duration)
    ensures
        r.total_nanos() == backoff_millis(attempt) * 1_000_000,
        r.nanos < 1_000_000_000,
{
    let mut factor: u64 = 1;
    let mut step: u8 = 1;
    while step < attempt
        invariant
            1 <= step,
            attempt > 0 ==> step <= attempt,
            attempt == 0 ==> step == 1,
            factor == power_of_four((step - 1) as nat),
            1 <= factor,
        decreases attempt - step,
    {
        factor = if factor > u64::MAX / 4 {
            u64::MAX
        } else {
            factor * 4
        };
        step += 1;
    }
    let millis: u64 = if factor > u64::MAX / RETRY_BASE_DELAY_MS {
        u64::MAX
    } else {
        RETRY_BASE_DELAY_MS * factor
    };
    Duration::from_millis(millis)
}

/// What came back of one attempt.
pub enum Reply {
    /// The request could not be sent, or nothing came back.
    SendFailed { transient: bool, message: String },
    /// The provider answered with a status other than success. `shown` is the status as it is
    /// shown to a person.
    Refused { status: u16, shown: String, body: String },
    /// The answer could not be read to its end.
    BodyFailed { transient: bool, message: String },
    /// The answer.
    Body(String),
}

/// What to do after one attempt.
pub enum Verdict {
    /// Wait, and try again.
    Retry { after: Duration, reason: String },
    /// Give up.
    Fail(String),
    /// The answer is one to read.
    Accept,
}

/// What to do after one attempt.
pub enum VerdictView {
    Retry(Seq<char>),
    Fail(Seq<char>),
    Accept,
}

/// Whether a verdict is the one given.
pub open spec fn is_verdict(v: Verdict, want: VerdictView, attempt: u8) -> bool {
    match (v, want) {
        (Verdict::Retry { after, reason }, VerdictView::Retry(why)) => reason@ == why
            && after.total_nanos() == backoff_millis(attempt) * 1_000_000,
        (Verdict::Fail(e), VerdictView::Fail(why)) => e@ == why,
        (Verdict::Accept, VerdictView::Accept) => true,
        _ => false,
    }
}

/// Whether a status may be another one on the next attempt.
pub open spec fn is_retryable(status: u16) -> bool {
    status == 429 || 500 <= status <= 599
}

/// What a provider says is wrong in an answer that is otherwise a success, where it does.
pub open spec fn provider_error(v: JsonView) -> Option<Seq<char>> {
    match v.field("error"@) {
        None | Some(JsonView::Null) => None,
        Some(e) => {
            let code = match e.field("code"@) {
                Some(JsonView::Number(Num::PosInt(n))) if n <= i64::MAX => " (code: "@ + decimal(
                    n as nat,
                ) + ")"@,
                Some(JsonView::Number(Num::NegInt(n))) => " (code: "@ + signed_decimal(n as int)
                    + ")"@,
                _ => Seq::empty(),
            };
            let message = match e.field_text("message"@) {
                Some(m) => m,
                None => "unknown provider error"@,
            };
            Some("LLM provider error"@ + code + ": "@ + message)
        },
    }
}

/// A number in decimal, with a sign where it is negative.
pub open spec fn signed_decimal(n: int) -> Seq<char> {
    if n < 0 {
        seq!['-'] + decimal((-n) as nat)
    } else {
        decimal(n as nat)
    }
}

/// What to do after an attempt that came back so. A transport failure that may pass, a status
/// that may be another next time: those are tried again while attempts are left. Any other
/// status, and an error under a success, would come back the same.
pub open spec fn verdict_of(attempt: u8, label: Seq<char>, reply: Reply) -> VerdictView {
    let more = attempt < MAX_HTTP_ATTEMPTS;
    match reply {
        Reply::SendFailed { transient, message } => if more && transient {
            VerdictView::Retry(message@)
        } else {
            VerdictView::Fail("Failed to send "@ + label + " request"@)
        },
        Reply::Refused { status, shown, body } => {
            let text = label + " API error ("@ + shown@ + "): "@ + body@;
            if more && is_retryable(status) {
                VerdictView::Retry(text)
            } else {
                VerdictView::Fail(text)
            }
        },
        Reply::BodyFailed { transient, message } => if more && transient {
            VerdictView::Retry(message@)
        } else {
            VerdictView::Fail("Failed to read response body"@)
        },
        Reply::Body(text) => match parsed_json(text@) {
            Ok(v) => match provider_error(v) {
                Some(e) => VerdictView::Fail(e),
                None => VerdictView::Accept,
            },
            Err(_) => VerdictView::Accept,
        },
    }
}

/// A number in decimal, with a sign where it is negative.
fn signed_decimal_of(n: i64) -> (r: String)
    ensures
        r@ == signed_decimal(n as int),
{
    if n < 0 {
        let up: u64 = (-(n + 1)) as u64;
        let mut out = String::new();
        out.push('-');
        out.append(decimal_of(up + 1).as_str());
        assert(out@ =~= signed_decimal(n as int));
        out
    } else {
        decimal_of(n as u64)
    }
}

/// What a provider says is wrong in an answer that is otherwise a success, where it does.
pub fn provider_error_of(v: &Json) -> (r: Option<String>)
    ensures
        opt_text(r) == provider_error(v@),
{
    let e = match v.get("error") {
        Some(e) => e,
        None => return None,
    };
    if e.is_null() {
        return None;
    }
    let mut out = "LLM provider error".to_owned();
    let ghost head = out@;
    match e.get("code") {
        Some(Json::Number(Number::PosInt(n))) if *n <= 9_223_372_036_854_775_807 => {
            let mut code = " (code: ".to_owned();
            code.append(decimal_of(*n).as_str());
            code.append(")");
            out.append(code.as_str());
        },
        Some(Json::Number(Number::NegInt(n))) => {
            let mut code = " (code: ".to_owned();
            code.append(signed_decimal_of(*n).as_str());
            code.append(")");
            out.append(code.as_str());
        },
        _ => {
            assert(head + Seq::<char>::empty() =~= head);
        },
    }
    out.append(": ");
    out.append(
        match e.get_str("message") {
            Some(m) => m,
            None => "unknown provider error",
        },
    );
    Some(out)
}

/// What to do after an attempt.
pub fn on_reply(attempt: u8, label: &str, reply: &Reply) -> (r: Verdict)
    ensures
        is_verdict(r, verdict_of(attempt, label@, *reply), attempt),
{
    let more = attempt < MAX_HTTP_ATTEMPTS;
    match reply {
        Reply::SendFailed { transient, message } => {
            if more && *transient {
                Verdict::Retry { after: retry_backoff(attempt), reason: message.clone() }
            } else {
                let mut e = "Failed to send ".to_owned();
                e.append(label);
                e.append(" request");
                Verdict::Fail(e)
            }
        },
        Reply::Refused { status, shown, body } => {
            let mut e = label.to_owned();
            e.append(" API error (");
            e.append(shown.as_str());
            e.append("): ");
            e.append(body.as_str());
            if more && (*status == 429 || (500 <= *status && *status <= 599)) {
                Verdict::Retry { after: retry_backoff(attempt), reason: e }
            } else {
                Verdict::Fail(e)
            }
        },
        Reply::BodyFailed { transient, message } => {
            if more && *transient {
                Verdict::Retry { after: retry_backoff(attempt), reason: message.clone() }
            } else {
                Verdict::Fail("Failed to read response body".to_owned())
            }
        },
        Reply::Body(body) => {
            match json::parse(body.as_str()) {
                Ok(v) => match provider_error_of(&v) {
                    Some(e) => Verdict::Fail(e),
                    None => Verdict::Accept,
                },
                Err(_) => Verdict::Accept,
            }
        },
    }
}

/// What to do with an answer that is not of the shape it should have. Only one that was cut
/// off earns another attempt: a wrong shape comes back the same.
pub open spec fn unreadable_verdict(
    attempt: u8,
    label: Seq<char>,
    truncated: bool,
    problem: Seq<char>,
) -> VerdictView {
    if truncated && attempt < MAX_HTTP_ATTEMPTS {
        VerdictView::Retry("truncated response body: "@ + problem)
    } else {
        VerdictView::Fail(
            "Failed to parse "@ + label
                + " response. The model may be unavailable or returning an unexpected format."@,
        )
    }
}

/// What to do with an answer that is not of the shape it should have.
pub fn on_unreadable(attempt: u8, label: &str, truncated: bool, problem: &str) -> (r: Verdict)
    ensures
        is_verdict(r, unreadable_verdict(attempt, label@, truncated, problem@), attempt),
{
    if truncated && attempt < MAX_HTTP_ATTEMPTS {
        let mut reason = "truncated response body: ".to_owned();
        reason.append(problem);
        Verdict::Retry { after: retry_backoff(attempt), reason }
    } else {
        let mut e = "Failed to parse ".to_owned();
        e.append(label);
        e.append(
            " response. The model may be unavailable or returning an unexpected format.",
        );
        Verdict::Fail(e)
    }
}

/// The last attempt is the last: whatever came back of it, readable or not, it is not tried
/// again. And the pauses before are one second and four.
pub proof fn law_attempts_are_bounded(
    attempt: u8,
    label: Seq<char>,
    reply: Reply,
    truncated: bool,
    problem: Seq<char>,
)
    requires
        attempt >= MAX_HTTP_ATTEMPTS,
    ensures
        !(verdict_of(attempt, label, reply) is Retry),
        !(unreadable_verdict(attempt, label, truncated, problem) is Retry),
        backoff_millis(1) == 1_000,
        backoff_millis(2) == 4_000,
{
    reveal_with_fuel(power_of_four, 2);
}

// ── The request body ──────────────────────────────────────────────────────────

/// Whether a key of a request is set by the orchestrator alone. `tools` is not: an agent may
/// add to it.
pub open spec fn is_reserved(key: Seq<char>) -> bool {
    key == "model"@ || key == "messages"@ || key == "input"@ || key == "system"@ || key == "store"@
}

/// The keys of a request that are set by the orchestrator alone.
pub open spec fn reserved_keys() -> Seq<Seq<char>> {
    seq!["model"@, "messages"@, "input"@, "system"@, "store"@]
}

/// The keys of a request that are set by the orchestrator alone.
pub const RESERVED_KEYS: [&'static str; 5] = ["model", "messages", "input", "system", "store"];

/// Whether a key of a request is set by the orchestrator alone.
pub fn reserved(key: &str) -> (r: bool)
    ensures
        r == is_reserved(key@),
{
    text::same(key, "model") || text::same(key, "messages") || text::same(key, "input")
        || text::same(key, "system") || text::same(key, "store")
}

/// The callable inside a tool definition, which every definition has.
pub fn tool_function(tool: &Json) -> (r: Result<&Json, String>)
    ensures
        match r {
            Ok(f) => tool@.field("function"@) == Some(f@),
            Err(e) => tool@.field("function"@) is None && e@
                == "a tool definition has no `function` object: "@ + json_text(tool@),
        },
{
    match tool.get("function") {
        Some(f) => Ok(f),
        None => {
            let mut e = "a tool definition has no `function` object: ".to_owned();
            e.append(json::print(tool).as_str());
            Err(e)
        },
    }
}

/// The tools of a run, followed by those an agent adds.
pub open spec fn reconciled(runtime: Option<JsonView>, extra: Seq<JsonView>) -> JsonView {
    match runtime {
        Some(JsonView::Array(own)) => JsonView::Array(own + extra),
        _ => JsonView::Array(extra),
    }
}

/// Put the tools an agent adds behind those of the run. Appending rather than replacing is
/// the point: replacing would strip every tool of its schema.
pub fn reconcile_tools(runtime: Option<&Json>, extra: &Vec<Json>) -> (r: Json)
    ensures
        r@ == reconciled(
            match runtime {
                Some(v) => Some(v@),
                None => None,
            },
            array_view(extra@),
        ),
{
    let mut merged: Vec<Json> = match runtime {
        Some(Json::Array(own)) => clone_array(own),
        _ => Vec::new(),
    };
    let ghost own = array_view(merged@);
    for i in 0..extra.len()
        invariant
            array_view(merged@) == own + array_view(extra@).take(i as int),
    {
        let ghost before = merged@;
        merged.push(extra[i].clone());
        assert(array_view(merged@) =~= array_view(before).push(extra@[i as int]@));
        assert(array_view(merged@) =~= own + array_view(extra@).take(i + 1));
    }
    assert(array_view(extra@).take(extra@.len() as int) =~= array_view(extra@));
    assert(own.len() == 0 ==> own + array_view(extra@) =~= array_view(extra@));
    Json::Array(merged)
}

/// What the field `key` of a body becomes when an agent's `value` for it is merged in.
pub open spec fn merged_field(
    body: Map<Seq<char>, JsonView>,
    key: Seq<char>,
    value: JsonView,
) -> JsonView {
    if key == "tools"@ {
        reconciled(
            if body.contains_key(key) {
                Some(body[key])
            } else {
                None
            },
            value->Array_0,
        )
    } else {
        value
    }
}

/// A request body with an agent's additions merged in: reserved keys are left out, `tools`
/// are added to, and everything else overrides.
pub open spec fn merged_body(
    body: Map<Seq<char>, JsonView>,
    extra: Map<Seq<char>, JsonView>,
) -> Map<Seq<char>, JsonView> {
    Map::new(
        |k: Seq<char>| body.contains_key(k) || (extra.contains_key(k) && !is_reserved(k)),
        |k: Seq<char>|
            if extra.contains_key(k) && !is_reserved(k) {
                merged_field(body, k, extra[k])
            } else {
                body[k]
            },
    )
}

/// What an agent whose `tools` are not a list is refused with.
pub const TOOLS_NOT_AN_ARRAY: &'static str = "this agent's `extra_body.tools` is not an array, so it cannot be added to the tools this run offers. Write it as a list of tool definitions, or remove it.";

/// Whether an agent's additions can be merged: its `tools`, where it has some, are a list.
pub open spec fn is_mergeable(extra: Map<Seq<char>, JsonView>) -> bool {
    extra.contains_key("tools"@) ==> extra["tools"@] is Array
}

/// Merge an agent's additions into an assembled request body.
pub fn merge_extra_body(body: &mut Dict<Json>, extra_body: &Dict<Json>) -> (r: Result<(), &'static str>)
    ensures
        match r {
            Ok(()) => is_mergeable(extra_body.fields()) && final(body).fields() == merged_body(
                old(body).fields(),
                extra_body.fields(),
            ),
            Err(e) => !is_mergeable(extra_body.fields()) && e@ == TOOLS_NOT_AN_ARRAY@
                && *final(body) == *old(body),
        },
{
    if let Some(tools) = extra_body.field("tools") {
        if tools.as_array().is_none() {
            return Err(TOOLS_NOT_AN_ARRAY);
        }
    }
    let ghost base = body.fields();
    let ghost extra = extra_body.fields();
    let keys = extra_body.keys();
    let ghost names = texts(keys@);
    proof {
        lemma_entry_keys(extra_body.entries@);
        lemma_object_entries(extra_body.entries@);
        assert(body.fields() =~= merged_body(base, extra.restrict(names.take(0).to_set())));
    }
    for i in 0..keys.len()
        invariant
            names == texts(keys@),
            names == entry_keys(extra_body.entries@),
            names.no_duplicates(),
            extra == extra_body.fields(),
            extra.dom() == extra_body@.dom(),
            forall|k: Seq<char>| names.contains(k) <==> #[trigger] extra_body@.contains_key(k),
            is_mergeable(extra),
            body.fields() == merged_body(base, extra.restrict(names.take(i as int).to_set())),
    {
        let ghost key = names[i as int];
        let ghost a = names.take(i as int);
        let ghost b = names.take(i + 1);
        proof {
            assert(names.contains(key));
            assert(extra_body@.contains_key(key));
            assert(extra.contains_key(key));
            assert(b =~= a.push(key));
            assert forall|x: Seq<char>| #[trigger] b.to_set().contains(x) <==> a.to_set().contains(
                x,
            ) || x == key by {
                if b.contains(x) {
                    let m = choose|m: int| 0 <= m < b.len() && b[m] == x;
                    if m < a.len() {
                        assert(a[m] == x);
                    }
                }
                if a.contains(x) {
                    let m = choose|m: int| 0 <= m < a.len() && a[m] == x;
                    assert(b[m] == x);
                }
                assert(b[i as int] == key);
            }
            assert(!a.to_set().contains(key)) by {
                if a.contains(key) {
                    let m = choose|m: int| 0 <= m < a.len() && a[m] == key;
                    assert(names[m] == names[i as int]);
                }
            }
        }
        if !reserved(keys[i].as_str()) {
            if let Some(value) = extra_body.field(keys[i].as_str()) {
                let merged = if text::same(keys[i].as_str(), "tools") {
                    match value {
                        Json::Array(more) => reconcile_tools(body.field("tools"), more),
                        _ => Json::Null,
                    }
                } else {
                    value.clone()
                };
                assert(merged@ == merged_field(base, key, extra[key]));
                body.put(keys[i].as_str(), merged);
            }
        }
        assert(body.fields() =~= merged_body(base, extra.restrict(b.to_set())));
    }
    proof {
        assert(names.take(names.len() as int) =~= names);
        assert forall|k: Seq<char>| #[trigger] extra.contains_key(k) implies names.to_set().contains(
            k,
        ) by {
            assert(extra_body@.contains_key(k));
        }
        assert(extra.restrict(names.to_set()) =~= extra);
    }
    Ok(())
}

/// An agent's additions never set what the orchestrator sets alone, and never take a tool of
/// the run away.
pub proof fn law_merging_keeps_reserved_keys_and_runtime_tools(
    body: Map<Seq<char>, JsonView>,
    extra: Map<Seq<char>, JsonView>,
    key: Seq<char>,
    own: Seq<JsonView>,
)
    requires
        is_mergeable(extra),
    ensures
        is_reserved(key) ==> merged_body(body, extra).contains_key(key) == body.contains_key(key)
            && (body.contains_key(key) ==> merged_body(body, extra)[key] == body[key]),
        body.contains_key("tools"@) && body["tools"@] == JsonView::Array(own) ==> {
            let tools = merged_body(body, extra)["tools"@];
            &&& tools is Array
            &&& tools->Array_0.len() >= own.len()
            &&& tools->Array_0.take(own.len() as int) == own
        },
{
    if body.contains_key("tools"@) && body["tools"@] == JsonView::Array(own) {
        reveal_strlit("tools");
        reveal_strlit("model");
        reveal_strlit("messages");
        reveal_strlit("input");
        reveal_strlit("system");
        reveal_strlit("store");
        assert("tools"@[0] == 't');
        assert("model"@[0] == 'm');
        assert("input"@[0] == 'i');
        assert("store"@[0] == 's');
        assert("messages"@.len() == 8);
        assert("system"@.len() == 6);
        let tools = merged_body(body, extra)["tools"@];
        assert(tools->Array_0.take(own.len() as int) =~= own);
    }
}

// ── Chat completions ──────────────────────────────────────────────────────────

/// A chat-completions answer, as it is sent.
#[derive(Debug)]
pub struct ChatResponse {
    pub choices: Vec<ChatChoice>,
    pub usage: Option<Usage>,
}

/// One choice of a chat-completions answer.
#[derive(Debug)]
pub struct ChatChoice {
    pub message: Message,
    pub finish_reason: Option<String>,
}

/// What an answer cost, as it is sent.
#[derive(Debug)]
pub struct Usage {
    pub prompt_tokens: u64,
    pub completion_tokens: u64,
    pub total_tokens: u64,
    /// The cache breakdown, for a provider that sends one. Absent is the answer, not zero.
    pub prompt_tokens_details: Option<PromptTokensDetails>,
    /// The cached part a provider wrote.
    pub prompt_cache_write_tokens: Option<u64>,
    /// Every usage field nothing above reads.
    pub unread: Dict<Json>,
}

/// What a provider says about the cached part of a prompt.
#[derive(Debug, Clone, Copy, PartialEq, Eq)]
pub struct PromptTokensDetails {
    pub cached_tokens: Option<u64>,
}

/// The cached part of a prompt, where a provider says what it is.
pub open spec fn cached_part(u: Usage) -> Option<u64> {
    match u.prompt_tokens_details {
        Some(d) => d.cached_tokens,
        None => None,
    }
}

/// A usage as a run counts it.
pub open spec fn usage_of(u: Usage) -> LlmUsage {
    LlmUsage {
        prompt_tokens: u.prompt_tokens,
        completion_tokens: u.completion_tokens,
        total_tokens: u.total_tokens,
        cached_prompt_tokens: cached_part(u),
        written_prompt_tokens: u.prompt_cache_write_tokens,
    }
}

/// Whether a word is a reason to finish that is known: one of the canonical ones, or another
/// provider's name for a normal stop.
pub open spec fn is_known_reason(word: Seq<char>) -> bool {
    finish_of(word) is Some || word == "end_turn"@
}

/// The word a provider stated as its reason, where it is none that is known.
pub open spec fn unknown_word(word: Option<String>) -> Option<Seq<char>> {
    match word {
        Some(w) => if is_known_reason(w@) {
            None
        } else {
            Some(w@)
        },
        None => None,
    }
}

fn unknown_word_of(word: &Option<String>) -> (r: Option<String>)
    ensures
        opt_text(r) == unknown_word(*word),
{
    match word {
        Some(w) => if FinishReason::from_openai(w.as_str()).is_some() || text::same(
            w.as_str(),
            "end_turn",
        ) {
            None
        } else {
            Some(w.clone())
        },
        None => None,
    }
}

/// A choice as a run reads it. A reason that is not known is kept as such, rather than taken for
/// a normal stop.
pub open spec fn choice_of(c: ChatChoice) -> ChoiceView {
    ChoiceView {
        message: c.message@,
        finish_reason: match c.finish_reason {
            Some(word) => finish_of(word@),
            None => None,
        },
        unknown_reason: unknown_word(c.finish_reason),
    }
}

/// Turns a chat-completions answer into the one a run reads.
pub fn chat_response_to_llm(resp: ChatResponse, request_id: Option<String>) -> (r: LlmResponse)
    ensures
        r.choices@.len() == resp.choices@.len(),
        forall|i: int|
            0 <= i < resp.choices@.len() ==> (#[trigger] r.choices@[i])@ == choice_of(
                resp.choices@[i],
            ),
        r.usage == match resp.usage {
            Some(u) => Some(usage_of(u)),
            None => None,
        },
        r.request_id == request_id,
{
    let mut choices: Vec<LlmChoice> = Vec::new();
    for i in 0..resp.choices.len()
        invariant
            choices@.len() == i,
            forall|j: int|
                0 <= j < i ==> (#[trigger] choices@[j])@ == choice_of(resp.choices@[j]),
    {
        let c = &resp.choices[i];
        let finish_reason = match &c.finish_reason {
            Some(word) => FinishReason::from_openai(word.as_str()),
            None => None,
        };
        let unknown_reason = unknown_word_of(&c.finish_reason);
        choices.push(LlmChoice { message: c.message.clone(), finish_reason, unknown_reason });
    }
    let usage = match &resp.usage {
        Some(u) => Some(
            LlmUsage {
                prompt_tokens: u.prompt_tokens,
                completion_tokens: u.completion_tokens,
                total_tokens: u.total_tokens,
                cached_prompt_tokens: match u.prompt_tokens_details {
                    Some(d) => d.cached_tokens,
                    None => None,
                },
                written_prompt_tokens: u.prompt_cache_write_tokens,
            },
        ),
        None => None,
    };
    LlmResponse { choices, usage, request_id }
}

/// What to say of a provider that sent usage fields nothing here reads and no cached-prompt
/// figure under any name it does: the names, in order, and never the values. Nothing where it
/// sent a figure, or nothing that is not read.
pub fn report_unread_usage(usage: &Usage) -> (r: Option<String>)
    ensures
        match r {
            Some(text) => cached_part(*usage) is None && entry_keys(usage.unread.entries@).len() > 0
                && text@
                == "Provider reported usage but no cached-prompt figure under any name this adapter reads. Usage fields it sent that nothing here reads: "@
                + join(sort_texts(entry_keys(usage.unread.entries@)), ", "@)
                + ". If one of them is the cache figure, it belongs in `Usage`."@,
            None => cached_part(*usage) is Some || entry_keys(usage.unread.entries@).len() == 0,
        },
{
    if let Some(d) = usage.prompt_tokens_details {
        if d.cached_tokens.is_some() {
            return None;
        }
    }
    let names = usage.unread.keys();
    if names.len() == 0 {
        return None;
    }
    let mut out = "Provider reported usage but no cached-prompt figure under any name this adapter reads. Usage fields it sent that nothing here reads: ".to_owned();
    out.append(text::joined(&text::sorted(&names), ", ").as_str());
    out.append(". If one of them is the cache figure, it belongs in `Usage`.");
    Some(out)
}

/// A `data:` URI for an image block of a tool server, where it is one that has what it takes.
pub open spec fn image_uri(block: JsonView) -> Option<Seq<char>> {
    if block.field_text("type"@) != Some("image"@) {
        None
    } else {
        match (block.field_text("data"@), block.field_text("mimeType"@)) {
            (Some(data), Some(mime)) => Some("data:"@ + mime + ";base64,"@ + data),
            _ => None,
        }
    }
}

/// A `data:` URI for an image block of a tool server.
pub fn mcp_image_data_uri(block: &Json) -> (r: Option<String>)
    ensures
        opt_text(r) == image_uri(block@),
{
    match block.get_str("type") {
        Some(kind) => if !text::same(kind, "image") {
            return None;
        },
        None => return None,
    }
    match (block.get_str("data"), block.get_str("mimeType")) {
        (Some(data), Some(mime)) => {
            let mut out = "data:".to_owned();
            out.append(mime);
            out.append(";base64,");
            out.append(data);
            Some(out)
        },
        _ => None,
    }
}

/// An image part of a message, with its URI.
pub open spec fn image_part(url: Seq<char>) -> JsonView {
    JsonView::Object(
        map![
            "type"@ => JsonView::Text("image_url"@),
            "image_url"@ => JsonView::Object(map!["url"@ => JsonView::Text(url)]),
        ],
    )
}

fn make_image_part(url: &str) -> (r: Json)
    ensures
        r@ == image_part(url@),
{
    let mut inner: Dict<Json> = Dict::new();
    inner.put("url", Json::text(url));
    let mut out: Dict<Json> = Dict::new();
    out.put("type", Json::text("image_url"));
    out.put("image_url", Json::Object(inner));
    Json::Object(out)
}

/// A block of a tool server as a part of a message.
pub open spec fn openai_part(block: JsonView) -> JsonView {
    match image_uri(block) {
        Some(url) => image_part(url),
        None => block,
    }
}

/// A message with the blocks of its content as parts.
pub open spec fn with_openai_parts(message: JsonView) -> JsonView {
    match message.field_items("content"@) {
        Some(blocks) => JsonView::Object(
            message->Object_0.insert(
                "content"@,
                JsonView::Array(blocks.map_values(|b: JsonView| openai_part(b))),
            ),
        ),
        None => message,
    }
}

/// Rewrite the blocks of a message's content into parts. What is a part already is left alone.
pub fn mcp_blocks_to_openai(message: Json) -> (r: Json)
    ensures
        r@ == with_openai_parts(message@),
{
    let mut parts: Vec<Json> = Vec::new();
    match message.get_array("content") {
        Some(blocks) => {
            for i in 0..blocks.len()
                invariant
                    parts@.len() == i,
                    forall|j: int|
                        0 <= j < i ==> (#[trigger] parts@[j])@ == openai_part(blocks@[j]@),
            {
                match mcp_image_data_uri(&blocks[i]) {
                    Some(url) => parts.push(make_image_part(url.as_str())),
                    None => parts.push(blocks[i].clone()),
                }
            }
            assert(array_view(parts@) =~= array_view(blocks@).map_values(
                |b: JsonView| openai_part(b),
            ));
        },
        None => return message,
    }
    match message {
        Json::Object(fields) => {
            let mut fields = fields;
            fields.put("content", Json::Array(parts));
            Json::Object(fields)
        },
        other => other,
    }
}

/// Text of the assistant message bridging a tool result to its pictures.
pub const IMAGE_BRIDGE: &'static str = "Passing along the image from that tool result.";

/// The text of a tool result's text blocks, a line for each.
pub open spec fn block_text(blocks: Seq<JsonView>) -> Seq<char>
    decreases blocks.len(),
{
    if blocks.len() == 0 {
        Seq::empty()
    } else {
        let earlier = block_text(blocks.drop_last());
        let b = blocks.last();
        if b.field_text("type"@) == Some("text"@) && b.field_text("text"@) is Some {
            if earlier.len() > 0 {
                earlier + "\n"@ + b.field_text("text"@)->0
            } else {
                b.field_text("text"@)->0
            }
        } else {
            earlier
        }
    }
}

/// The pictures of a tool result, as parts of a message.
pub open spec fn block_images(blocks: Seq<JsonView>) -> Seq<JsonView>
    decreases blocks.len(),
{
    if blocks.len() == 0 {
        Seq::empty()
    } else {
        let earlier = block_images(blocks.drop_last());
        match image_uri(blocks.last()) {
            Some(url) => earlier.push(image_part(url)),
            None => earlier,
        }
    }
}

/// The line between a tool result and its pictures.
pub open spec fn bridge_message() -> JsonView {
    JsonView::Object(
        map![
            "role"@ => JsonView::Text("assistant"@),
            "content"@ => JsonView::Text(IMAGE_BRIDGE@),
        ],
    )
}

/// The message that carries a tool result's pictures.
pub open spec fn picture_message(images: Seq<JsonView>) -> JsonView {
    JsonView::Object(
        map!["role"@ => JsonView::Text("user"@), "content"@ => JsonView::Array(images)],
    )
}

/// A message in the dialect that has no pictures in tool results: such a result becomes three
/// messages, and everything else stays as it is.
pub open spec fn split_message(message: JsonView) -> Seq<JsonView> {
    match message.field_items("content"@) {
        Some(blocks) if message.field_text("role"@) == Some("tool"@) && block_images(blocks).len()
            > 0 => seq![
            JsonView::Object(
                message->Object_0.insert("content"@, JsonView::Text(block_text(blocks))),
            ),
            bridge_message(),
            picture_message(block_images(blocks)),
        ],
        _ => seq![message],
    }
}

/// Move a tool result's pictures into a following `user` message.
///
/// Chat completions have no way to return an image from a tool. The assistant line between is
/// for providers that reject a `user` straight after a `tool`. The session keeps the single
/// message it recorded.
pub fn split_images_out_of_tool_message(message: Json) -> (r: Vec<Json>)
    ensures
        array_view(r@) == split_message(message@),
{
    let mut out: Vec<Json> = Vec::new();
    let mut images: Vec<Json> = Vec::new();
    let mut gathered = String::new();
    let is_tool = match message.get_str("role") {
        Some(role) => text::same(role, "tool"),
        None => false,
    };
    let mut split = false;
    if is_tool {
        if let Some(blocks) = message.get_array("content") {
            let ghost all = array_view(blocks@);
            assert(array_view(images@) =~= block_images(all.take(0)));
            assert(gathered@ =~= block_text(all.take(0)));
            for i in 0..blocks.len()
                invariant
                    all == array_view(blocks@),
                    gathered@ == block_text(all.take(i as int)),
                    array_view(images@) == block_images(all.take(i as int)),
            {
                proof {
                    assert(all.take(i + 1).drop_last() =~= all.take(i as int));
                    assert(all.take(i + 1).last() == blocks@[i as int]@);
                    reveal_strlit("text");
                    reveal_strlit("image");
                    assert("text"@.len() == 4);
                    assert("image"@.len() == 5);
                }
                let block = &blocks[i];
                match mcp_image_data_uri(block) {
                    Some(url) => {
                        let part = make_image_part(url.as_str());
                        let ghost before = images@;
                        let ghost pv = part@;
                        images.push(part);
                        assert(array_view(images@) =~= array_view(before).push(pv));
                    },
                    None => {
                        let is_text = match block.get_str("type") {
                            Some(kind) => text::same(kind, "text"),
                            None => false,
                        };
                        if is_text {
                            if let Some(t) = block.get_str("text") {
                                if text::empty(gathered.as_str()) {
                                    gathered = t.to_owned();
                                } else {
                                    gathered.append("\n");
                                    gathered.append(t);
                                }
                            }
                        }
                    },
                }
            }
            assert(all.take(all.len() as int) =~= all);
            split = images.len() > 0;
        }
    }
    if !split {
        out.push(message);
        assert(array_view(out@) =~= split_message(message@));
        return out;
    }
    let ghost mv = message@;
    let ghost pictures = array_view(images@);
    match message {
        Json::Object(fields) => {
            let mut fields = fields;
            fields.put("content", Json::Text(gathered));
            out.push(Json::Object(fields));
        },
        other => {
            out.push(other);
        },
    }
    let mut bridge: Dict<Json> = Dict::new();
    bridge.put("role", Json::text("assistant"));
    bridge.put("content", Json::text(IMAGE_BRIDGE));
    out.push(Json::Object(bridge));
    let mut user: Dict<Json> = Dict::new();
    user.put("role", Json::text("user"));
    user.put("content", Json::Array(images));
    out.push(Json::Object(user));
    assert(array_view(out@) =~= split_message(mv));
    out
}

/// A conversation as chat completions have it.
pub open spec fn openai_messages(messages: Seq<MessageView>) -> Seq<JsonView>
    decreases messages.len(),
{
    if messages.len() == 0 {
        Seq::empty()
    } else {
        openai_messages(messages.drop_last()) + split_message(
            JsonView::Object(llm_fields(messages.last())),
        ).map_values(|m: JsonView| with_openai_parts(m))
    }
}

/// The body of a chat-completions request, before an agent's additions.
pub open spec fn chat_body(
    model: Seq<char>,
    messages: Seq<MessageView>,
    tools: Option<Seq<JsonView>>,
) -> Map<Seq<char>, JsonView> {
    let base = map![
        "model"@ => JsonView::Text(model),
        "messages"@ => JsonView::Array(openai_messages(messages)),
    ];
    match tools {
        Some(t) => base.insert("tools"@, JsonView::Array(t)).insert(
            "tool_choice"@,
            JsonView::Text("auto"@),
        ),
        None => base,
    }
}

fn messages_to_openai(messages: &Vec<Message>) -> (r: Vec<Json>)
    ensures
        array_view(r@) == openai_messages(messages_view(messages@)),
{
    let mut out: Vec<Json> = Vec::new();
    let ghost all = messages_view(messages@);
    assert(array_view(out@) =~= openai_messages(all.take(0)));
    for i in 0..messages.len()
        invariant
            all == messages_view(messages@),
            array_view(out@) == openai_messages(all.take(i as int)),
    {
        proof {
            assert(all.take(i + 1).drop_last() =~= all.take(i as int));
            assert(all.take(i + 1).last() == messages@[i as int]@);
        }
        let ghost before = array_view(out@);
        let pieces = split_images_out_of_tool_message(messages[i].to_llm_value());
        let ghost parts = array_view(pieces@);
        let ghost want = parts.map_values(|m: JsonView| with_openai_parts(m));
        assert(array_view(out@) =~= before + want.take(0));
        for j in 0..pieces.len()
            invariant
                parts == array_view(pieces@),
                want == parts.map_values(|m: JsonView| with_openai_parts(m)),
                array_view(out@) == before + want.take(j as int),
        {
            let ghost prior = out@;
            let m = mcp_blocks_to_openai(pieces[j].clone());
            let ghost mv = m@;
            out.push(m);
            assert(parts[j as int] == pieces@[j as int]@);
            assert(mv == want[j as int]);
            assert(array_view(out@) =~= array_view(prior).push(mv));
            assert(array_view(out@) =~= before + want.take(j + 1));
        }
        assert(want.take(want.len() as int) =~= want);
    }
    assert(all.take(all.len() as int) =~= all);
    out
}

/// The body of a chat-completions request.
pub fn openai_request_body(
    model: &str,
    messages: &Vec<Message>,
    tools: Option<&Vec<Json>>,
    extra_body: &Dict<Json>,
) -> (r: Result<Json, &'static str>)
    ensures
        match r {
            Ok(body) => is_mergeable(extra_body.fields()) && body@ == JsonView::Object(
                merged_body(
                    chat_body(
                        model@,
                        messages_view(messages@),
                        match tools {
                            Some(t) => Some(array_view(t@)),
                            None => None,
                        },
                    ),
                    extra_body.fields(),
                ),
            ),
            Err(e) => !is_mergeable(extra_body.fields()) && e@ == TOOLS_NOT_AN_ARRAY@,
        },
{
    let mut body: Dict<Json> = Dict::new();
    body.put("model", Json::text(model));
    body.put("messages", Json::Array(messages_to_openai(messages)));
    if let Some(t) = tools {
        body.put("tools", Json::Array(clone_array(t)));
        body.put("tool_choice", Json::text("auto"));
    }
    match merge_extra_body(&mut body, extra_body) {
        Ok(()) => Ok(Json::Object(body)),
        Err(e) => Err(e),
    }
}

/// Text without the slashes it ends with.
pub open spec fn without_slashes(s: Seq<char>) -> Seq<char>
    decreases s.len(),
{
    if s.len() > 0 && s.last() == '/' {
        without_slashes(s.drop_last())
    } else {
        s
    }
}

/// Where a request is sent: the endpoint, without the slashes it ends with, and a path.
pub fn request_url(base_url: &str, path: &str) -> (r: String)
    ensures
        r@ == without_slashes(base_url@) + path@,
{
    let chars = text::chars_of(base_url);
    let mut end: usize = chars.len();
    assert(chars@.subrange(0, chars@.len() as int) =~= base_url@);
    while end > 0 && chars[end - 1] == '/'
        invariant
            end <= chars@.len(),
            without_slashes(base_url@) == without_slashes(chars@.subrange(0, end as int)),
        decreases end,
    {
        assert(chars@.subrange(0, end as int).drop_last() =~= chars@.subrange(0, end - 1));
        end -= 1;
    }
    let mut out = text::slice(&chars, 0, end);
    out.append(path);
    out
}

// ── What is sent ──────────────────────────────────────────────────────────────

/// Whether a content carries a picture that this dialect can be sent.
pub open spec fn pictured(content: Option<JsonView>) -> bool {
    content is Some && content->0 is Array && exists|i: int|
        0 <= i < content->0->Array_0.len() && (#[trigger] content->0->Array_0[i]).field_text(
            "type"@,
        ) == Some("image"@) && content->0->Array_0[i].field_text("data"@) is Some
            && content->0->Array_0[i].field_text("mimeType"@) is Some
}

proof fn lemma_no_pictures(blocks: Seq<JsonView>)
    requires
        forall|i: int| 0 <= i < blocks.len() ==> image_uri(#[trigger] blocks[i]) is None,
    ensures
        block_images(blocks).len() == 0,
        blocks.map_values(|b: JsonView| openai_part(b)) == blocks,
    decreases blocks.len(),
{
    if blocks.len() > 0 {
        assert(image_uri(blocks[blocks.len() - 1]) is None);
        assert forall|i: int| 0 <= i < blocks.drop_last().len() implies image_uri(
            #[trigger] blocks.drop_last()[i],
        ) is None by {
            assert(blocks.drop_last()[i] == blocks[i]);
        }
        lemma_no_pictures(blocks.drop_last());
    }
    assert(blocks.map_values(|b: JsonView| openai_part(b)) =~= blocks);
}

proof fn lemma_unpictured_message(m: MessageView)
    requires
        !pictured(m.content),
    ensures
        split_message(JsonView::Object(llm_fields(m))).map_values(
            |x: JsonView| with_openai_parts(x),
        ) == seq![JsonView::Object(llm_fields(m))],
{
    law_a_message_is_sent_with_what_it_says(m);
    let sent = JsonView::Object(llm_fields(m));
    if let Some(JsonView::Array(blocks)) = m.content {
        assert forall|i: int| 0 <= i < blocks.len() implies image_uri(#[trigger] blocks[i]) is None by {
            assert(m.content->0->Array_0[i] == blocks[i]);
        }
        lemma_no_pictures(blocks);
        assert(sent.field_items("content"@) == Some(blocks));
        assert(llm_fields(m).insert("content"@, JsonView::Array(blocks)) =~= llm_fields(m));
    }
    assert(with_openai_parts(sent) == sent);
    assert(split_message(sent).map_values(|x: JsonView| with_openai_parts(x)) =~= seq![sent]);
}

/// A conversation without pictures is sent message for message: as many of them, each in its
/// place with who said it, what it says, the calls it asks for and the call it answers.
pub proof fn law_a_conversation_is_sent_message_for_message(messages: Seq<MessageView>, i: int)
    requires
        forall|j: int| 0 <= j < messages.len() ==> !pictured((#[trigger] messages[j]).content),
        0 <= i < messages.len(),
    ensures
        openai_messages(messages).len() == messages.len(),
        openai_messages(messages)[i].field_text("role"@) == Some(messages[i].role),
        openai_messages(messages)[i].field("content"@) == messages[i].content,
        messages[i].tool_call_id is Some ==> openai_messages(messages)[i].field_text(
            "tool_call_id"@,
        ) == messages[i].tool_call_id,
        messages[i].tool_calls is Some ==> {
            let calls = openai_messages(messages)[i].field_items("tool_calls"@);
            &&& calls is Some
            &&& calls->0.len() == messages[i].tool_calls->0.len()
            &&& forall|k: int|
                0 <= k < calls->0.len() ==> calls->0[k] == call_value(
                    #[trigger] messages[i].tool_calls->0[k],
                )
        },
        openai_messages(messages)[i] == JsonView::Object(llm_fields(messages[i])),
    decreases messages.len(),
{
    let most = messages.drop_last();
    assert(messages[messages.len() - 1] == messages.last());
    lemma_unpictured_message(messages.last());
    assert forall|j: int| 0 <= j < most.len() implies !pictured((#[trigger] most[j]).content) by {
        assert(most[j] == messages[j]);
    }
    if most.len() > 0 {
        law_a_conversation_is_sent_message_for_message(
            most,
            if i < most.len() {
                i
            } else {
                0
            },
        );
    } else {
        assert(openai_messages(most).len() == 0);
    }
    if i < most.len() {
        assert(openai_messages(messages)[i] == openai_messages(most)[i]);
    }
    law_a_message_is_sent_with_what_it_says(messages[i]);
}

/// No message is lost, whatever it carries: one more message of the conversation leaves what
/// was sent before it as it is and adds to it, first a message that has the same role and
/// answers the same call.
pub proof fn law_one_more_message_is_one_more_sent(messages: Seq<MessageView>, m: MessageView)
    ensures
        ({
            let before = openai_messages(messages);
            let after = openai_messages(messages.push(m));
            &&& after.len() > before.len()
            &&& after.take(before.len() as int) == before
            &&& after[before.len() as int].field_text("role"@) == Some(m.role)
            &&& m.tool_call_id is Some ==> after[before.len() as int].field_text("tool_call_id"@)
                == m.tool_call_id
            &&& m.tool_calls is Some ==> after[before.len() as int].field_items("tool_calls"@)
                is Some
            &&& m.content is Some && m.content->0 is Text ==> after.len() == before.len() + 1
                && after[before.len() as int].field("content"@) == m.content
            &&& m.role != "tool"@ ==> after.len() == before.len() + 1
        }),
{
    assert(messages.push(m).drop_last() =~= messages);
    let before = openai_messages(messages);
    let after = openai_messages(messages.push(m));
    assert(after.take(before.len() as int) =~= before);
    law_a_message_is_sent_with_what_it_says(m);
    reveal_strlit("role");
    reveal_strlit("content");
    reveal_strlit("tool_call_id");
    reveal_strlit("tool_calls");
    assert("role"@.len() == 4 && "content"@.len() == 7 && "tool_call_id"@.len() == 12
        && "tool_calls"@.len() == 10);
    let sent = JsonView::Object(llm_fields(m));
    let first = split_message(sent)[0];
    assert(first.field("role"@) == sent.field("role"@));
    assert(first.field("tool_call_id"@) == sent.field("tool_call_id"@));
    assert(first.field("tool_calls"@) == sent.field("tool_calls"@));
    assert(after[before.len() as int] == with_openai_parts(first));
}

/// A tool result with pictures is sent as its text, a line of the assistant's, and the pictures
/// in a message of the user's, each in its order: nothing of it is lost.
pub proof fn law_a_pictured_result_is_sent_in_three(m: MessageView)
    requires
        m.role == "tool"@,
        pictured(m.content),
    ensures
        ({
            let sent = split_message(JsonView::Object(llm_fields(m)));
            let blocks = m.content->0->Array_0;
            &&& sent.len() == 3
            &&& sent[0].field_text("role"@) == Some("tool"@)
            &&& sent[0].field_text("content"@) == Some(block_text(blocks))
            &&& sent[1].field_text("role"@) == Some("assistant"@)
            &&& sent[1].field_text("content"@) == Some(IMAGE_BRIDGE@)
            &&& sent[2].field_text("role"@) == Some("user"@)
            &&& sent[2].field_items("content"@) == Some(block_images(blocks))
        }),
{
    law_a_message_is_sent_with_what_it_says(m);
    reveal_strlit("role");
    reveal_strlit("content");
    assert("role"@.len() == 4 && "content"@.len() == 7);
    let blocks = m.content->0->Array_0;
    let i = choose|i: int|
        0 <= i < m.content->0->Array_0.len() && (#[trigger] m.content->0->Array_0[i]).field_text(
            "type"@,
        ) == Some("image"@) && m.content->0->Array_0[i].field_text("data"@) is Some
            && m.content->0->Array_0[i].field_text("mimeType"@) is Some;
    assert(image_uri(blocks[i]) is Some);
    lemma_some_picture(blocks, i);
}

proof fn lemma_some_picture(blocks: Seq<JsonView>, i: int)
    requires
        0 <= i < blocks.len(),
        image_uri(blocks[i]) is Some,
    ensures
        block_images(blocks).len() > 0,
    decreases blocks.len(),
{
    if i < blocks.len() - 1 {
        lemma_some_picture(blocks.drop_last(), i);
    }
}

/// Every text and every picture of a result is in what is sent of it, in order: one more block
/// adds a line to the text where it is text, a picture where it is one, and never takes
/// anything back.
pub proof fn law_every_block_of_a_result_is_sent(blocks: Seq<JsonView>, b: JsonView)
    ensures
        block_text(Seq::empty()).len() == 0,
        block_images(Seq::empty()).len() == 0,
        b.field_text("type"@) == Some("text"@) && b.field_text("text"@) is Some ==> {
            &&& block_images(blocks.push(b)) == block_images(blocks)
            &&& block_text(blocks).len() == 0 ==> block_text(blocks.push(b)) == b.field_text(
                "text"@,
            )->0
            &&& block_text(blocks).len() > 0 ==> block_text(blocks.push(b)) == block_text(
                blocks,
            ).push('\n') + b.field_text("text"@)->0
        },
        b.field_text("type"@) == Some("image"@) && b.field_text("data"@) is Some && b.field_text(
            "mimeType"@,
        ) is Some ==> {
            let images = block_images(blocks.push(b));
            &&& block_text(blocks.push(b)) == block_text(blocks)
            &&& images.len() == block_images(blocks).len() + 1
            &&& images.drop_last() == block_images(blocks)
            &&& images.last().field_text("type"@) == Some("image_url"@)
            &&& images.last().field("image_url"@) is Some
            &&& images.last().field("image_url"@)->0.field_text("url"@) == Some(
                "data:"@ + b.field_text("mimeType"@)->0 + ";base64,"@ + b.field_text("data"@)->0,
            )
        },
{
    assert(blocks.push(b).drop_last() =~= blocks);
    reveal_strlit("text");
    reveal_strlit("image");
    reveal_strlit("type");
    reveal_strlit("image_url");
    reveal_strlit("\n");
    assert("text"@.len() == 4 && "image"@.len() == 5 && "type"@.len() == 4 && "image_url"@.len()
        == 9);
    assert(block_text(blocks) + "\n"@ =~= block_text(blocks).push('\n'));
    assert(block_images(blocks.push(b)).len() > block_images(blocks).len() ==> block_images(
        blocks.push(b),
    ).drop_last() =~= block_images(blocks));
}

/// Blocks that are no pictures are sent as they are, and a picture is sent as one, in its
/// place, with what it shows.
pub proof fn law_only_pictures_are_rewritten(message: JsonView, blocks: Seq<JsonView>, i: int)
    requires
        message.field_items("content"@) == Some(blocks),
        0 <= i < blocks.len(),
    ensures
        ({
            let parts = with_openai_parts(message).field_items("content"@);
            let b = blocks[i];
            &&& parts is Some
            &&& parts->0.len() == blocks.len()
            &&& b.field_text("type"@) != Some("image"@) ==> parts->0[i] == b
            &&& b.field_text("type"@) == Some("image"@) && b.field_text("data"@) is Some
                && b.field_text("mimeType"@) is Some ==> {
                &&& parts->0[i].field_text("type"@) == Some("image_url"@)
                &&& parts->0[i].field("image_url"@) is Some
                &&& parts->0[i].field("image_url"@)->0.field_text("url"@) == Some(
                    "data:"@ + b.field_text("mimeType"@)->0 + ";base64,"@ + b.field_text(
                        "data"@,
                    )->0,
                )
            }
        }),
        forall|k: Seq<char>|
            k != "content"@ ==> with_openai_parts(message).field(k) == #[trigger] message.field(k),
{
    reveal_strlit("type");
    reveal_strlit("image_url");
    assert("type"@.len() == 4 && "image_url"@.len() == 9);
}

/// A request asks the model it was told to ask, with the whole conversation and every tool;
/// and of the agent's additions each that is not reserved is in it as it was given, its tools
/// behind those of the run.
pub proof fn law_a_chat_request_says_what_it_was_given(
    model: Seq<char>,
    messages: Seq<MessageView>,
    tools: Option<Seq<JsonView>>,
    extra: Map<Seq<char>, JsonView>,
    key: Seq<char>,
)
    requires
        is_mergeable(extra),
    ensures
        ({
            let body = JsonView::Object(merged_body(chat_body(model, messages, tools), extra));
            let own = match tools {
                Some(t) => t,
                None => Seq::empty(),
            };
            let added = if extra.contains_key("tools"@) {
                extra["tools"@]->Array_0
            } else {
                Seq::empty()
            };
            &&& body.field_text("model"@) == Some(model)
            &&& body.field_items("messages"@) == Some(openai_messages(messages))
            &&& tools is Some || extra.contains_key("tools"@) ==> body.field_items("tools"@)
                == Some(own + added)
            &&& tools is None && !extra.contains_key("tools"@) ==> body.field("tools"@) is None
            &&& tools is Some && !extra.contains_key("tool_choice"@) ==> body.field_text(
                "tool_choice"@,
            ) == Some("auto"@)
            &&& extra.contains_key(key) && key != "model"@ && key != "messages"@ && key
                != "input"@ && key != "system"@ && key != "store"@ && key != "tools"@
                ==> body.field(key) == Some(extra[key])
            &&& !extra.contains_key(key) && key != "model"@ && key != "messages"@ && key
                != "tools"@ && key != "tool_choice"@ ==> body.field(key) is None
        }),
{
    reveal_strlit("model");
    reveal_strlit("messages");
    reveal_strlit("tools");
    reveal_strlit("tool_choice");
    reveal_strlit("input");
    reveal_strlit("system");
    reveal_strlit("store");
    assert("model"@.len() == 5 && "messages"@.len() == 8 && "tools"@.len() == 5
        && "tool_choice"@.len() == 11 && "input"@.len() == 5 && "system"@.len() == 6
        && "store"@.len() == 5);
    assert("model"@[0] == 'm' && "tools"@[0] == 't' && "input"@[0] == 'i' && "store"@[0] == 's');
    let base = chat_body(model, messages, tools);
    let body = merged_body(base, extra);
    if let Some(t) = tools {
        assert(base["tools"@] == JsonView::Array(t));
        assert(t + Seq::<JsonView>::empty() =~= t);
    }
    if extra.contains_key("tools"@) {
        let more = extra["tools"@]->Array_0;
        assert(Seq::<JsonView>::empty() + more =~= more);
    }
}

/// What an attempt is tried again for: a failure on the way that may pass, a status that says
/// so, and nothing else, and only while attempts are left. Only an answer is accepted, and only
/// one in which the provider names no error.
pub proof fn law_what_is_tried_again(attempt: u8, label: Seq<char>, reply: Reply)
    ensures
        verdict_of(attempt, label, reply) is Retry <==> attempt < 3 && match reply {
            Reply::SendFailed { transient, .. } => transient,
            Reply::BodyFailed { transient, .. } => transient,
            Reply::Refused { status, .. } => status == 429 || (status >= 500 && status < 600),
            Reply::Body(_) => false,
        },
        verdict_of(attempt, label, reply) is Accept <==> reply is Body && match parsed_json(
            reply->Body_0@,
        ) {
            Ok(v) => v.field("error"@) is None || v.field("error"@) == Some(JsonView::Null),
            Err(_) => true,
        },
        match reply {
            Reply::Refused { status, shown, body } => {
                let said = label + " API error ("@ + shown@ + "): "@ + body@;
                verdict_of(attempt, label, reply) == VerdictView::Fail(said) || verdict_of(
                    attempt,
                    label,
                    reply,
                ) == VerdictView::Retry(said)
            },
            Reply::Body(text) => match parsed_json(text@) {
                Ok(v) => v.field("error"@) is Some && v.field("error"@)->0.field_text("message"@)
                    is Some ==> {
                    let why = verdict_of(attempt, label, reply)->Fail_0;
                    let said = v.field("error"@)->0.field_text("message"@)->0;
                    &&& verdict_of(attempt, label, reply) is Fail
                    &&& why.len() >= said.len()
                    &&& why.skip(why.len() - said.len()) == said
                },
                Err(_) => true,
            },
            _ => true,
        },
{
    if let Reply::Body(text) = reply {
        if let Ok(v) = parsed_json(text@) {
            if v.field("error"@) is Some && v.field("error"@)->0.field_text("message"@) is Some {
                let why = verdict_of(attempt, label, reply)->Fail_0;
                let said = v.field("error"@)->0.field_text("message"@)->0;
                assert(why.skip(why.len() - said.len()) =~= said);
            }
        }
    }
}

/// An answer of the wrong shape is tried again only where it was cut off, and only while
/// attempts are left.
pub proof fn law_only_a_cut_off_answer_is_asked_for_again(
    attempt: u8,
    label: Seq<char>,
    truncated: bool,
    problem: Seq<char>,
)
    ensures
        unreadable_verdict(attempt, label, truncated, problem) is Retry <==> truncated && attempt
            < 3,
        !(unreadable_verdict(attempt, label, truncated, problem) is Accept),
{
}

/// A choice is read as it was sent: what it says, what it calls, and why it finished. A reason
/// that is none of the known words is not taken for one.
pub proof fn law_a_choice_is_read_as_it_was_sent(c: ChatChoice)
    ensures
        choice_of(c).message == c.message@,
        c.finish_reason is None ==> choice_of(c).finish_reason is None && choice_of(
            c,
        ).unknown_reason is None,
        c.finish_reason is Some ==> {
            let word = c.finish_reason->0@;
            &&& word == "stop"@ ==> choice_of(c).finish_reason == Some(FinishReason::Stop)
            &&& word == "length"@ ==> choice_of(c).finish_reason == Some(FinishReason::Length)
            &&& word == "content_filter"@ ==> choice_of(c).finish_reason == Some(
                FinishReason::ContentFilter,
            )
            &&& word == "tool_calls"@ ==> choice_of(c).finish_reason == Some(
                FinishReason::ToolCalls,
            )
            &&& choice_of(c).unknown_reason is Some <==> word != "stop"@ && word != "length"@
                && word != "content_filter"@ && word != "tool_calls"@ && word != "end_turn"@
            &&& choice_of(c).unknown_reason is Some ==> choice_of(c).unknown_reason == Some(word)
        },
{
    reveal_strlit("stop");
    reveal_strlit("length");
    reveal_strlit("content_filter");
    reveal_strlit("tool_calls");
    assert("stop"@.len() == 4 && "length"@.len() == 6 && "content_filter"@.len() == 14
        && "tool_calls"@.len() == 10);
}

/// What an answer cost is counted as it was sent, and a count that was not sent is not counted
/// as none.
pub proof fn law_usage_is_counted_as_it_was_sent(u: Usage)
    ensures
        usage_of(u).prompt_tokens == u.prompt_tokens,
        usage_of(u).completion_tokens == u.completion_tokens,
        usage_of(u).total_tokens == u.total_tokens,
        usage_of(u).written_prompt_tokens == u.prompt_cache_write_tokens,
        u.prompt_tokens_details is None ==> usage_of(u).cached_prompt_tokens is None,
        u.prompt_tokens_details is Some ==> usage_of(u).cached_prompt_tokens
            == u.prompt_tokens_details->0.cached_tokens,
{
}

/// An endpoint loses the slashes it ends with and nothing else.
pub proof fn law_only_the_last_slashes_go(s: Seq<char>)
    ensures
        without_slashes(s).len() <= s.len(),
        without_slashes(s) == s.take(without_slashes(s).len() as int),
        without_slashes(s).len() > 0 ==> without_slashes(s).last() != '/',
        forall|i: int| without_slashes(s).len() <= i < s.len() ==> #[trigger] s[i] == '/',
    decreases s.len(),
{
    if s.len() > 0 && s.last() == '/' {
        let most = s.drop_last();
        law_only_the_last_slashes_go(most);
        assert(most.take(without_slashes(most).len() as int) =~= s.take(
            without_slashes(most).len() as int,
        ));
        assert forall|i: int| without_slashes(s).len() <= i < s.len() implies #[trigger] s[i] == '/' by {
            if i < most.len() {
                assert(most[i] == s[i]);
            }
        }
    } else {
        assert(s.take(s.len() as int) =~= s);
    }
}

/// A verdict is what was decided, for the reason that was decided, and a pause is as long as the
/// number of the attempt asks for.
pub proof fn law_a_verdict_is_what_was_decided(v: Verdict, want: VerdictView, attempt: u8)
    requires
        is_verdict(v, want, attempt),
    ensures
        v is Retry <==> want is Retry,
        v is Fail <==> want is Fail,
        v is Accept <==> want is Accept,
        v is Retry ==> v->reason@ == want->Retry_0 && v->after.total_nanos() == backoff_millis(
            attempt,
        ) * 1_000_000,
        v is Fail ==> v->Fail_0@ == want->Fail_0,
{
}

/// A number with a sign reads back as that number.
pub proof fn law_a_signed_number_reads_back(n: int)
    ensures
        n >= 0 ==> text::number_in(signed_decimal(n)) == n,
        n < 0 ==> signed_decimal(n)[0] == '-' && text::number_in(signed_decimal(n).skip(1)) == -n,
{
    if n >= 0 {
        text::law_a_number_reads_back(n as nat);
    } else {
        text::law_a_number_reads_back((-n) as nat);
        assert(signed_decimal(n).skip(1) =~= decimal((-n) as nat));
    }
}

/// An agent's additions can be merged exactly where its tools, if it has any, are a list.
pub proof fn law_only_a_list_of_tools_can_be_added(extra: Map<Seq<char>, JsonView>)
    ensures
        is_mergeable(extra) <==> !extra.contains_key("tools"@) || extra["tools"@] is Array,
{
}

} // verus!
