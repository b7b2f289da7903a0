//! What the orchestrator exchanges with providers and tools.
use crate::domain::agent::ParsedAgentDef;
use crate::domain::session::{Message, MessageView};
use crate::domain::skill::SkillMetadata;
use crate::json::Json;
use crate::text;
use vstd::prelude::*;

verus! {

// ── Providers ─────────────────────────────────────────────────────────────────

/// Response from a single completion request.
#[derive(Debug)]
pub struct LlmResponse {
    pub choices: Vec<LlmChoice>,
    pub usage: Option<LlmUsage>,
    /// The provider's own identifier for the request, where it returned one.
    pub request_id: Option<String>,
}

/// A single choice returned by a provider.
#[derive(Debug)]
pub struct LlmChoice {
    pub message: Message,
    pub finish_reason: Option<FinishReason>,
    /// The reason the provider stated, where it is none that is known.
    pub unknown_reason: Option<String>,
}

/// What a choice says.
pub struct ChoiceView {
    pub message: MessageView,
    pub finish_reason: Option<FinishReason>,
    pub unknown_reason: Option<Seq<char>>,
}

impl View for LlmChoice {
    type V = ChoiceView;

    open spec fn view(&self) -> ChoiceView {
        ChoiceView {
            message: self.message@,
            finish_reason: self.finish_reason,
            unknown_reason: text::opt_text(self.unknown_reason),
        }
    }
}

/// Token usage. A count that is `None` is one the provider did not report, which is not
/// zero and is never recorded as it.
#[derive(Debug, Clone, Copy, PartialEq, Eq)]
pub struct LlmUsage {
    pub prompt_tokens: u64,
    pub completion_tokens: u64,
    pub total_tokens: u64,
    /// How much of `prompt_tokens` the provider served from its cache.
    pub cached_prompt_tokens: Option<u64>,
    /// How much of `prompt_tokens` the provider wrote into its cache.
    pub written_prompt_tokens: Option<u64>,
}

impl Default for LlmUsage {
    fn default() -> (r: LlmUsage)
        ensures
            r == (LlmUsage {
                prompt_tokens: 0,
                completion_tokens: 0,
                total_tokens: 0,
                cached_prompt_tokens: None,
                written_prompt_tokens: None,
            }),
    {
        LlmUsage {
            prompt_tokens: 0,
            completion_tokens: 0,
            total_tokens: 0,
            cached_prompt_tokens: None,
            written_prompt_tokens: None,
        }
    }
}

/// A count that only some report, added up over those that did.
pub open spec fn reported_sum(total: Option<u64>, reported: Option<u64>) -> Option<int> {
    match (total, reported) {
        (Some(a), Some(b)) => Some(a + b),
        (Some(a), None) => Some(a as int),
        (None, Some(b)) => Some(b as int),
        (None, None) => None,
    }
}

/// Whether the sum of two usages can be counted in machine words.
pub open spec fn usage_fits(total: LlmUsage, u: LlmUsage) -> bool {
    &&& total.prompt_tokens + u.prompt_tokens <= u64::MAX
    &&& total.completion_tokens + u.completion_tokens <= u64::MAX
    &&& total.total_tokens + u.total_tokens <= u64::MAX
    &&& match reported_sum(total.cached_prompt_tokens, u.cached_prompt_tokens) {
        Some(n) => n <= u64::MAX,
        None => true,
    }
    &&& match reported_sum(total.written_prompt_tokens, u.written_prompt_tokens) {
        Some(n) => n <= u64::MAX,
        None => true,
    }
}

/// Whether a usage is the sum of two.
pub open spec fn is_usage_sum(sum: LlmUsage, total: LlmUsage, u: LlmUsage) -> bool {
    &&& sum.prompt_tokens == total.prompt_tokens + u.prompt_tokens
    &&& sum.completion_tokens == total.completion_tokens + u.completion_tokens
    &&& sum.total_tokens == total.total_tokens + u.total_tokens
    &&& match reported_sum(total.cached_prompt_tokens, u.cached_prompt_tokens) {
        Some(n) => sum.cached_prompt_tokens is Some && sum.cached_prompt_tokens->0 == n,
        None => sum.cached_prompt_tokens is None,
    }
    &&& match reported_sum(total.written_prompt_tokens, u.written_prompt_tokens) {
        Some(n) => sum.written_prompt_tokens is Some && sum.written_prompt_tokens->0 == n,
        None => sum.written_prompt_tokens is None,
    }
}

fn reported(total: Option<u64>, u: Option<u64>) -> (r: Option<u64>)
    requires
        match reported_sum(total, u) {
            Some(n) => n <= u64::MAX,
            None => true,
        },
    ensures
        match reported_sum(total, u) {
            Some(n) => r is Some && r->0 == n,
            None => r is None,
        },
{
    match (total, u) {
        (Some(a), Some(b)) => Some(a + b),
        (Some(a), None) => Some(a),
        (None, b) => b,
    }
}

impl LlmUsage {
    /// The sum of two usages. A count that neither reported stays unreported.
    pub fn plus(&self, u: &LlmUsage) -> (r: LlmUsage)
        requires
            usage_fits(*self, *u),
        ensures
            is_usage_sum(r, *self, *u),
    {
        LlmUsage {
            prompt_tokens: self.prompt_tokens + u.prompt_tokens,
            completion_tokens: self.completion_tokens + u.completion_tokens,
            total_tokens: self.total_tokens + u.total_tokens,
            cached_prompt_tokens: reported(self.cached_prompt_tokens, u.cached_prompt_tokens),
            written_prompt_tokens: reported(self.written_prompt_tokens, u.written_prompt_tokens),
        }
    }
}

/// Why a completion stopped.
#[derive(Debug, Clone, Copy, PartialEq, Eq, Structural)]
pub enum FinishReason {
    /// The model finished of its own accord.
    Stop,
    /// The output hit a token ceiling.
    Length,
    /// The provider refused to return what the model produced.
    ContentFilter,
    /// The model asked for tools.
    ToolCalls,
}

/// The canonical word for a finish reason.
pub open spec fn finish_word(reason: FinishReason) -> Seq<char> {
    match reason {
        FinishReason::Stop => "stop"@,
        FinishReason::Length => "length"@,
        FinishReason::ContentFilter => "content_filter"@,
        FinishReason::ToolCalls => "tool_calls"@,
    }
}

/// The finish reason a word is the canonical one for.
pub open spec fn finish_of(word: Seq<char>) -> Option<FinishReason> {
    if word == "stop"@ {
        Some(FinishReason::Stop)
    } else if word == "length"@ {
        Some(FinishReason::Length)
    } else if word == "content_filter"@ {
        Some(FinishReason::ContentFilter)
    } else if word == "tool_calls"@ {
        Some(FinishReason::ToolCalls)
    } else {
        None
    }
}

impl FinishReason {
    /// Read the canonical spelling. `None` for anything else, so a provider inventing a
    /// value is visible rather than silently becoming `Stop`.
    pub fn from_openai(raw: &str) -> (r: Option<FinishReason>)
        ensures
            r == finish_of(raw@),
    {
        if text::same(raw, "stop") {
            Some(FinishReason::Stop)
        } else if text::same(raw, "length") {
            Some(FinishReason::Length)
        } else if text::same(raw, "content_filter") {
            Some(FinishReason::ContentFilter)
        } else if text::same(raw, "tool_calls") {
            Some(FinishReason::ToolCalls)
        } else {
            None
        }
    }

    /// The name to put in a message a person reads.
    pub fn as_str(self) -> (r: &'static str)
        ensures
            r@ == finish_word(self),
    {
        match self {
            FinishReason::Stop => "stop",
            FinishReason::Length => "length",
            FinishReason::ContentFilter => "content_filter",
            FinishReason::ToolCalls => "tool_calls",
        }
    }
}

/// A finish reason's word reads back as that reason, and no other word reads as one.
pub proof fn law_finish_words_read_back(reason: FinishReason, word: Seq<char>)
    ensures
        finish_of(finish_word(reason)) == Some(reason),
        finish_of(word) is Some ==> finish_word(finish_of(word)->0) == word,
{
    reveal_strlit("stop");
    reveal_strlit("length");
    reveal_strlit("content_filter");
    reveal_strlit("tool_calls");
    assert("stop"@.len() == 4);
    assert("length"@.len() == 6);
    assert("content_filter"@.len() == 14);
    assert("tool_calls"@.len() == 10);
}

// ── Tools ─────────────────────────────────────────────────────────────────────

/// Result from a single tool call.
#[derive(Debug)]
pub struct ToolCallResult {
    pub content: String,
    /// Image blocks the tool returned, in the shape the tool server used. Kept beside
    /// `content` rather than folded into it, because everything but the message the model
    /// receives reads text.
    pub images: Vec<Json>,
    pub session_ends: bool,
}

impl Default for ToolCallResult {
    fn default() -> (r: ToolCallResult)
        ensures
            r.content@.len() == 0,
            r.images@.len() == 0,
            !r.session_ends,
    {
        ToolCallResult { content: String::new(), images: Vec::new(), session_ends: false }
    }
}

// ── Prompts ───────────────────────────────────────────────────────────────────

/// Everything the prompt is built from.
#[derive(Debug)]
pub struct PromptContext<'a> {
    pub agent: &'a ParsedAgentDef,
    pub tool_descriptions: &'a Vec<String>,
    /// Overrides the built-in template entirely when present.
    pub custom_template: Option<&'a str>,
    pub working_dir: &'a str,
    pub colleagues: &'a Vec<(String, String)>,
    pub skills: &'a Vec<SkillMetadata>,
}

/// Something that renders the system prompt.
pub trait TemplatePort {
    /// Whether this renders a context as a prompt.
    spec fn renders(&self, context: PromptContext<'_>, prompt: Seq<char>) -> bool;

    fn build_system_prompt(&self, context: &PromptContext<'_>) -> (r: String)
        ensures
            self.renders(*context, r@),
    ;
}

/// What was used adds up count for count; a count that only one side reports is that side's; and
/// one that neither reports stays unreported.
pub proof fn law_usage_adds_up(sum: LlmUsage, total: LlmUsage, u: LlmUsage)
    requires
        is_usage_sum(sum, total, u),
    ensures
        sum.prompt_tokens == total.prompt_tokens + u.prompt_tokens,
        sum.completion_tokens == total.completion_tokens + u.completion_tokens,
        sum.total_tokens == total.total_tokens + u.total_tokens,
        total.cached_prompt_tokens is None ==> sum.cached_prompt_tokens == u.cached_prompt_tokens,
        u.cached_prompt_tokens is None ==> sum.cached_prompt_tokens == total.cached_prompt_tokens,
        total.cached_prompt_tokens is Some && u.cached_prompt_tokens is Some
            ==> sum.cached_prompt_tokens is Some && sum.cached_prompt_tokens->0
            == total.cached_prompt_tokens->0 + u.cached_prompt_tokens->0,
        total.written_prompt_tokens is None ==> sum.written_prompt_tokens
            == u.written_prompt_tokens,
        u.written_prompt_tokens is None ==> sum.written_prompt_tokens
            == total.written_prompt_tokens,
        total.written_prompt_tokens is Some && u.written_prompt_tokens is Some
            ==> sum.written_prompt_tokens is Some && sum.written_prompt_tokens->0
            == total.written_prompt_tokens->0 + u.written_prompt_tokens->0,
{
}

} // verus!
