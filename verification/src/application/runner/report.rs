//! What a run says about itself, and the single place that shape is decided.
use crate::application::runner::execution::CompletionReason;
use crate::clock::{now_rfc3339, seconds_between, seconds_from_to, stamp};
use crate::dict::Dict;
use crate::domain::ports::LlmUsage;
use crate::json::{Json, JsonView, Num};
use crate::text::opt_text;
use vstd::prelude::*;

verus! {

/// How a run ended that reached an ending of its own. Presentation belongs to the caller.
#[derive(Debug)]
pub enum RunOutcome {
    Completed { text: String, reason: CompletionReason },
    SessionEnded,
}

/// Everything a run knows about itself, whichever way it ended.
#[derive(Debug)]
pub struct RunFacts {
    /// RFC 3339, UTC. When the run began.
    pub started: String,
    /// RFC 3339, UTC. Stamped by `conclude`, at whichever ending was reached.
    pub ended: String,
    /// How the run ended: `completed`, `iterations`, `runtime`, `stopped` or `failed`.
    pub ended_because: &'static str,
    /// Whole seconds from `started` to `ended`.
    pub seconds: u64,
    /// Round trips to the model this run made.
    pub iterations: usize,
    /// Tokens this run spent, summed over the answers that reported any.
    pub usage: LlmUsage,
    /// Where the session was written, if the caller asked for it to be.
    pub session_path: Option<String>,
}

impl Default for RunFacts {
    /// `failed` rather than an empty word: a run that fell over before it could name its own
    /// ending did not complete.
    fn default() -> (r: RunFacts)
        ensures
            r.started@.len() == 0,
            r.ended@.len() == 0,
            r.ended_because@ == "failed"@,
            r.seconds == 0,
            r.iterations == 0,
            r.usage == (LlmUsage {
                prompt_tokens: 0,
                completion_tokens: 0,
                total_tokens: 0,
                cached_prompt_tokens: None,
                written_prompt_tokens: None,
            }),
            r.session_path is None,
    {
        RunFacts {
            started: String::new(),
            ended: String::new(),
            ended_because: "failed",
            seconds: 0,
            iterations: 0,
            usage: LlmUsage::default(),
            session_path: None,
        }
    }
}

impl RunFacts {
    /// Start the clock.
    pub fn start(&mut self)
        ensures
            exists|secs: i64| final(self).started@ == #[trigger] stamp(secs as int),
            *final(self) == (RunFacts { started: final(self).started, ..*old(self) }),
    {
        self.started = now_rfc3339();
    }

    /// Stamp the ending: which word it was, and the wall clock it took.
    pub fn conclude(&mut self, because: &'static str)
        ensures
            exists|secs: i64| final(self).ended@ == #[trigger] stamp(secs as int),
            final(self).seconds == seconds_from_to(old(self).started@, final(self).ended@),
            final(self).ended_because == because,
            *final(self) == (RunFacts {
                ended: final(self).ended,
                seconds: final(self).seconds,
                ended_because: because,
                ..*old(self)
            }),
    {
        let now = now_rfc3339();
        self.conclude_at(because, now);
    }

    /// Stamp the ending, at a moment that is known.
    pub fn conclude_at(&mut self, because: &'static str, ended: String)
        ensures
            *final(self) == (RunFacts {
                ended: ended,
                seconds: seconds_from_to(old(self).started@, ended@) as u64,
                ended_because: because,
                ..*old(self)
            }),
            final(self).seconds == seconds_from_to(old(self).started@, ended@),
    {
        self.seconds = seconds_between(self.started.as_str(), ended.as_str());
        self.ended = ended;
        self.ended_because = because;
    }
}

/// The word for a completion reason.
pub open spec fn completion_word(reason: CompletionReason) -> Seq<char> {
    match reason {
        CompletionReason::Stop => "stop"@,
        CompletionReason::Length => "length"@,
    }
}

/// The wire word for a completion reason.
pub fn word_for(reason: CompletionReason) -> (r: &'static str)
    ensures
        r@ == completion_word(reason),
{
    match reason {
        CompletionReason::Stop => "stop",
        CompletionReason::Length => "length",
    }
}

/// A text, or `null`.
pub open spec fn text_or_null(s: Option<Seq<char>>) -> JsonView {
    match s {
        Some(x) => JsonView::Text(x),
        None => JsonView::Null,
    }
}

/// A count, or `null` where nobody reported one: zero is a claim about what was counted,
/// absence is a claim about the measurement.
pub open spec fn count_or_null(n: Option<u64>) -> JsonView {
    match n {
        Some(x) => JsonView::Number(Num::PosInt(x)),
        None => JsonView::Null,
    }
}

/// The fields of a usage.
pub open spec fn usage_fields(u: LlmUsage) -> Map<Seq<char>, JsonView> {
    map![
        "prompt_tokens"@ => JsonView::Number(Num::PosInt(u.prompt_tokens)),
        "completion_tokens"@ => JsonView::Number(Num::PosInt(u.completion_tokens)),
        "total_tokens"@ => JsonView::Number(Num::PosInt(u.total_tokens)),
        "cached_prompt_tokens"@ => count_or_null(u.cached_prompt_tokens),
        "written_prompt_tokens"@ => count_or_null(u.written_prompt_tokens),
    ]
}

/// The text a run ended with and why the model stopped, where the run completed.
pub open spec fn completion(outcome: Option<RunOutcome>) -> Option<(Seq<char>, CompletionReason)> {
    match outcome {
        Some(RunOutcome::Completed { text, reason }) => Some((text@, reason)),
        _ => None,
    }
}

/// The fields of a run's envelope.
pub open spec fn envelope_fields(
    facts: RunFacts,
    outcome: Option<RunOutcome>,
) -> Map<Seq<char>, JsonView> {
    let done = completion(outcome);
    map![
        "response"@ => text_or_null(match done {
            Some(c) => Some(c.0),
            None => None,
        }),
        "usage"@ => JsonView::Object(usage_fields(facts.usage)),
        "finish_reason"@ => text_or_null(match done {
            Some(c) => Some(completion_word(c.1)),
            None => None,
        }),
        "session_path"@ => text_or_null(opt_text(facts.session_path)),
        "ended_because"@ => JsonView::Text(facts.ended_because@),
        "seconds"@ => JsonView::Number(Num::PosInt(facts.seconds)),
        "iterations"@ => JsonView::Number(Num::PosInt(facts.iterations as u64)),
    ]
}

fn count(n: Option<u64>) -> (r: Json)
    ensures
        r@ == count_or_null(n),
{
    match n {
        Some(x) => Json::number(x),
        None => Json::Null,
    }
}

/// The fields of a usage.
pub fn usage_to_json(u: &LlmUsage) -> (r: Json)
    ensures
        r@ == JsonView::Object(usage_fields(*u)),
{
    let mut out: Dict<Json> = Dict::new();
    out.put("prompt_tokens", Json::number(u.prompt_tokens));
    out.put("completion_tokens", Json::number(u.completion_tokens));
    out.put("total_tokens", Json::number(u.total_tokens));
    out.put("cached_prompt_tokens", count(u.cached_prompt_tokens));
    out.put("written_prompt_tokens", count(u.written_prompt_tokens));
    Json::Object(out)
}

/// The envelope for a run, whichever way it ended.
///
/// `outcome` is `None` for the endings that have none: the deliberate stops and every
/// failure. Those still fill in every key.
pub fn envelope(facts: &RunFacts, outcome: Option<&RunOutcome>) -> (r: Json)
    ensures
        r@ == JsonView::Object(
            envelope_fields(
                *facts,
                match outcome {
                    Some(o) => Some(*o),
                    None => None,
                },
            ),
        ),
{
    let (response, finish_reason) = match outcome {
        Some(RunOutcome::Completed { text, reason }) => (
            Json::text(text.as_str()),
            Json::text(word_for(*reason)),
        ),
        _ => (Json::Null, Json::Null),
    };
    let mut out: Dict<Json> = Dict::new();
    out.put("response", response);
    out.put("usage", usage_to_json(&facts.usage));
    out.put("finish_reason", finish_reason);
    out.put(
        "session_path",
        match &facts.session_path {
            Some(p) => Json::text(p.as_str()),
            None => Json::Null,
        },
    );
    out.put("ended_because", Json::text(facts.ended_because));
    out.put("seconds", Json::number(facts.seconds));
    out.put("iterations", Json::number(facts.iterations as u64));
    Json::Object(out)
}

/// Every ending answers the same questions: the keys of the envelope, and of the usage in it,
/// do not depend on how the run went.
pub proof fn law_every_ending_answers_the_same_questions(
    facts: RunFacts,
    outcome: Option<RunOutcome>,
    other_facts: RunFacts,
    other_outcome: Option<RunOutcome>,
)
    ensures
        envelope_fields(facts, outcome).dom() == envelope_fields(other_facts, other_outcome).dom(),
        usage_fields(facts.usage).dom() == usage_fields(other_facts.usage).dom(),
{
    assert(envelope_fields(facts, outcome).dom() =~= envelope_fields(
        other_facts,
        other_outcome,
    ).dom());
    assert(usage_fields(facts.usage).dom() =~= usage_fields(other_facts.usage).dom());
}

/// An envelope says what the run came to: the text and the reason where it completed, and null
/// for both where it did not; why it ended, how long it took, how often the model was asked,
/// where the session is, and what it cost.
pub proof fn law_an_envelope_says_what_the_run_came_to(
    facts: RunFacts,
    outcome: Option<RunOutcome>,
)
    ensures
        ({
            let e = JsonView::Object(envelope_fields(facts, outcome));
            &&& match outcome {
                Some(RunOutcome::Completed { text, reason }) => e.field_text("response"@) == Some(
                    text@,
                ) && e.field_text("finish_reason"@) == Some(
                    match reason {
                        CompletionReason::Stop => "stop"@,
                        CompletionReason::Length => "length"@,
                    },
                ),
                _ => e.field("response"@) == Some(JsonView::Null) && e.field("finish_reason"@)
                    == Some(JsonView::Null),
            }
            &&& e.field_text("ended_because"@) == Some(facts.ended_because@)
            &&& e.field("seconds"@) == Some(JsonView::Number(Num::PosInt(facts.seconds)))
            &&& e.field("iterations"@) == Some(
                JsonView::Number(Num::PosInt(facts.iterations as u64)),
            )
            &&& facts.session_path is Some ==> e.field_text("session_path"@) == Some(
                facts.session_path->0@,
            )
            &&& facts.session_path is None ==> e.field("session_path"@) == Some(JsonView::Null)
            &&& e.field("usage"@) == Some(JsonView::Object(usage_fields(facts.usage)))
        }),
{
    reveal_strlit("response");
    reveal_strlit("usage");
    reveal_strlit("finish_reason");
    reveal_strlit("session_path");
    reveal_strlit("ended_because");
    reveal_strlit("seconds");
    reveal_strlit("iterations");
    assert("finish_reason"@[0] != "ended_because"@[0]);
    assert("response"@.len() == 8 && "usage"@.len() == 5 && "finish_reason"@.len() == 13
        && "session_path"@.len() == 12 && "ended_because"@.len() == 13 && "seconds"@.len() == 7
        && "iterations"@.len() == 10);
}

/// What a run cost is told count for count, and a count that nobody reported is null and not
/// none.
pub proof fn law_a_usage_is_told_count_for_count(u: LlmUsage)
    ensures
        ({
            let e = JsonView::Object(usage_fields(u));
            &&& e.field("prompt_tokens"@) == Some(JsonView::Number(Num::PosInt(u.prompt_tokens)))
            &&& e.field("completion_tokens"@) == Some(
                JsonView::Number(Num::PosInt(u.completion_tokens)),
            )
            &&& e.field("total_tokens"@) == Some(JsonView::Number(Num::PosInt(u.total_tokens)))
            &&& e.field("cached_prompt_tokens"@) == Some(
                match u.cached_prompt_tokens {
                    Some(n) => JsonView::Number(Num::PosInt(n)),
                    None => JsonView::Null,
                },
            )
            &&& e.field("written_prompt_tokens"@) == Some(
                match u.written_prompt_tokens {
                    Some(n) => JsonView::Number(Num::PosInt(n)),
                    None => JsonView::Null,
                },
            )
        }),
{
    reveal_strlit("prompt_tokens");
    reveal_strlit("completion_tokens");
    reveal_strlit("total_tokens");
    reveal_strlit("cached_prompt_tokens");
    reveal_strlit("written_prompt_tokens");
    assert("prompt_tokens"@.len() == 13 && "completion_tokens"@.len() == 17
        && "total_tokens"@.len() == 12 && "cached_prompt_tokens"@.len() == 20
        && "written_prompt_tokens"@.len() == 21);
}

} // verus!
