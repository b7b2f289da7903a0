//! The inference loop and the execution of tool calls, as decisions: what to ask for next,
//! given what came back.
//!
//! Asking a provider and calling a tool are left to the caller. Every exchange with them
//! goes through here, so the conversation is appended to, and the run is stopped, in one
//! place.
use crate::clock::Duration;
use crate::domain::ports::{
    is_usage_sum, usage_fits, ChoiceView, FinishReason, LlmChoice, LlmResponse, LlmUsage,
    ToolCallResult,
};
use crate::domain::session::{
    calls_view, clone_calls, law_a_text_block_holds_its_text, law_an_answered_turn_is_whole,
    law_whole_conversations_join, make_text_block, messages_view, plain_message, text_block,
    tool_message, whole, Message, MessageView, Session, ToolCall, ToolCallView,
};
use crate::domain::tool_loop::{
    failed_again, loop_verdict, no_failures, CallOutcome, LoopTracker, TrackerView,
};
use crate::infra::llm::shared::{choice_of, is_known_reason, ChatChoice};
use crate::json;
use crate::json::{array_view, json_text, parsed_json, Json, JsonView, ParseFailure};
use crate::text;
use crate::text::{decimal, decimal_of, opt_text};
use vstd::prelude::*;

verus! {

/// How many contentless completions in a row are asked for again before giving up.
///
/// A completion carrying neither text nor tool calls is a misfire of the provider, not a
/// decision the model made: there is nothing in it to append to the session, so sending the
/// same request again is a genuine retry. Bounded because a provider stuck in this state
/// would otherwise consume the whole budget.
pub const MAX_EMPTY_COMPLETION_RETRIES: u8 = 2;

// ── How a run ends ────────────────────────────────────────────────────────────

/// The run used up its turns.
#[derive(Debug)]
pub struct MaxIterationsReached(pub u32);

/// The run used up its time.
#[derive(Debug)]
pub struct RunTimeExceeded(pub Duration);

/// Something outside the run asked it to stop, by making this path exist.
#[derive(Debug)]
pub struct StopRequested(pub String);

impl MaxIterationsReached {
    /// What to tell a person.
    pub fn message(&self) -> (r: String)
        ensures
            r@ == "Inference loop exceeded maximum iterations ("@ + decimal(self.0 as nat) + ")"@,
    {
        let mut out = "Inference loop exceeded maximum iterations (".to_owned();
        out.append(decimal_of(self.0 as u64).as_str());
        out.append(")");
        out
    }
}

impl RunTimeExceeded {
    /// What to tell a person.
    pub fn message(&self) -> (r: String)
        ensures
            r@ == "Inference loop exceeded its time limit ("@ + decimal(self.0.secs as nat) + "s)"@,
    {
        let mut out = "Inference loop exceeded its time limit (".to_owned();
        out.append(decimal_of(self.0.as_secs()).as_str());
        out.append("s)");
        out
    }
}

impl StopRequested {
    /// What to tell a person.
    pub fn message(&self) -> (r: String)
        ensures
            r@ == "Stop requested via "@ + self.0@,
    {
        let mut out = "Stop requested via ".to_owned();
        out.append(self.0.as_str());
        out
    }
}

/// Why a run did not complete.
#[derive(Debug)]
pub enum RunError {
    Iterations(MaxIterationsReached),
    Runtime(RunTimeExceeded),
    Stopped(StopRequested),
    /// Everything else: the provider, a tool, a loop cut short for repeating itself.
    Failed(String),
}

/// What an error says.
pub open spec fn error_text(e: RunError) -> Seq<char> {
    match e {
        RunError::Iterations(m) => "Inference loop exceeded maximum iterations ("@ + decimal(
            m.0 as nat,
        ) + ")"@,
        RunError::Runtime(m) => "Inference loop exceeded its time limit ("@ + decimal(
            m.0.secs as nat,
        ) + "s)"@,
        RunError::Stopped(m) => "Stop requested via "@ + m.0@,
        RunError::Failed(m) => m@,
    }
}

impl RunError {
    /// What to tell a person.
    pub fn message(&self) -> (r: String)
        ensures
            r@ == error_text(*self),
    {
        match self {
            RunError::Iterations(m) => m.message(),
            RunError::Runtime(m) => m.message(),
            RunError::Stopped(m) => m.message(),
            RunError::Failed(m) => m.clone(),
        }
    }
}

/// Whether an error is a stop the caller asked for rather than something going wrong.
pub fn is_soft_stop(error: &RunError) -> (r: bool)
    ensures
        r == !(error is Failed),
{
    match error {
        RunError::Iterations(_) => true,
        RunError::Runtime(_) => true,
        RunError::Stopped(_) => true,
        RunError::Failed(_) => false,
    }
}

/// The word for an ending, from the error that produced it.
pub open spec fn ending_word(error: RunError) -> Seq<char> {
    match error {
        RunError::Iterations(_) => "iterations"@,
        RunError::Runtime(_) => "runtime"@,
        RunError::Stopped(_) => "stopped"@,
        RunError::Failed(_) => "failed"@,
    }
}

/// Which word describes an ending, from the error that produced it.
pub fn ending_of(error: &RunError) -> (r: &'static str)
    ensures
        r@ == ending_word(*error),
{
    match error {
        RunError::Iterations(_) => "iterations",
        RunError::Runtime(_) => "runtime",
        RunError::Stopped(_) => "stopped",
        RunError::Failed(_) => "failed",
    }
}

/// A stop that was asked for never reads as a failure, nor a failure as one.
pub proof fn law_only_a_failure_is_called_one(error: RunError)
    ensures
        ending_word(error) == "failed"@ <==> error is Failed,
{
    reveal_strlit("iterations");
    reveal_strlit("runtime");
    reveal_strlit("stopped");
    reveal_strlit("failed");
    assert("failed"@.len() == 6);
    assert("runtime"@.len() == 7);
    assert("stopped"@.len() == 7);
    assert("iterations"@.len() == 10);
}

/// Why a model stopped on a completion that ended the run.
#[derive(Debug, Clone, Copy, PartialEq, Eq, Structural)]
pub enum CompletionReason {
    Stop,
    Length,
}

/// Result of the inference loop.
#[derive(Debug)]
pub enum InferenceResult {
    /// Normal completion with final text response.
    Completed { text: String, usage: LlmUsage, reason: CompletionReason },
    /// A tool requested that the session end.
    SessionEnded,
}

// ── Pictures ──────────────────────────────────────────────────────────────────

/// Text put in place of a picture the running model cannot read.
pub const IMAGE_WITHHELD: &'static str = "[image withheld: this agent's model is not configured to read images. Set `vision: true` in its agent definition if the model supports them.]";

/// The blocks of a content that has blocks rather than plain text.
pub open spec fn blocks_of(m: MessageView) -> Option<Seq<JsonView>> {
    match m.content {
        Some(c) => c.as_items(),
        None => None,
    }
}

/// Whether a block is a picture, in either dialect's spelling.
pub open spec fn is_image(block: JsonView) -> bool {
    block.field_text("type"@) == Some("image_url"@) || block.field_text("type"@) == Some("image"@)
}

/// Whether a message carries a picture.
pub open spec fn has_image(m: MessageView) -> bool {
    match blocks_of(m) {
        Some(blocks) => exists|i: int| 0 <= i < blocks.len() && is_image(#[trigger] blocks[i]),
        None => false,
    }
}

/// A message with each picture replaced by the text that explains its absence.
pub open spec fn withheld(m: MessageView) -> MessageView {
    match blocks_of(m) {
        Some(blocks) => MessageView {
            content: Some(
                JsonView::Array(
                    blocks.map_values(
                        |b: JsonView|
                            if is_image(b) {
                                text_block(IMAGE_WITHHELD@)
                            } else {
                                b
                            },
                    ),
                ),
            ),
            ..m
        },
        None => m,
    }
}

/// The content blocks of a message, if it has blocks rather than plain text.
pub fn content_blocks(message: &Message) -> (r: Option<&Vec<Json>>)
    ensures
        match r {
            Some(blocks) => blocks_of(message@) == Some(array_view(blocks@)),
            None => blocks_of(message@) is None,
        },
{
    match &message.content {
        Some(c) => c.as_array(),
        None => None,
    }
}

/// Whether a block is a picture, in either dialect's spelling.
pub fn is_image_block(block: &Json) -> (r: bool)
    ensures
        r == is_image(block@),
{
    match block.get_str("type") {
        Some(kind) => text::same(kind, "image_url") || text::same(kind, "image"),
        None => false,
    }
}

/// Whether a message carries a picture.
pub fn carries_image(message: &Message) -> (r: bool)
    ensures
        r == has_image(message@),
{
    match content_blocks(message) {
        Some(blocks) => {
            for i in 0..blocks.len()
                invariant
                    blocks_of(message@) == Some(array_view(blocks@)),
                    forall|j: int| 0 <= j < i ==> !is_image(#[trigger] array_view(blocks@)[j]),
            {
                assert(array_view(blocks@)[i as int] == blocks@[i as int]@);
                if is_image_block(&blocks[i]) {
                    assert(is_image(array_view(blocks@)[i as int]));
                    let ghost seen = blocks_of(message@)->0;
                    assert(is_image(seen[i as int]));
                    return true;
                }
            }
            false
        },
        None => false,
    }
}

/// One message with each picture replaced by the text that explains its absence.
pub fn withhold_images(message: &Message) -> (r: Message)
    ensures
        r@ == withheld(message@),
{
    let mut out = message.clone();
    if let Some(blocks) = content_blocks(message) {
        let mut rewritten: Vec<Json> = Vec::new();
        for i in 0..blocks.len()
            invariant
                rewritten@.len() == i,
                forall|j: int|
                    0 <= j < i ==> (#[trigger] rewritten@[j])@ == if is_image(blocks@[j]@) {
                        text_block(IMAGE_WITHHELD@)
                    } else {
                        blocks@[j]@
                    },
        {
            if is_image_block(&blocks[i]) {
                rewritten.push(make_text_block(IMAGE_WITHHELD));
            } else {
                rewritten.push(blocks[i].clone());
            }
        }
        assert(array_view(rewritten@) =~= array_view(blocks@).map_values(
            |b: JsonView|
                if is_image(b) {
                    text_block(IMAGE_WITHHELD@)
                } else {
                    b
                },
        ));
        out.content = Some(Json::Array(rewritten));
    }
    out
}

/// Messages on their way to a provider: the session's own, or rewritten copies.
pub enum Outgoing<'a> {
    Borrowed(&'a Vec<Message>),
    Owned(Vec<Message>),
}

impl<'a> Outgoing<'a> {
    /// The messages that are sent.
    pub open spec fn sent(self) -> Seq<MessageView> {
        match self {
            Outgoing::Borrowed(m) => messages_view(m@),
            Outgoing::Owned(m) => messages_view(m@),
        }
    }

    /// The messages that are sent.
    pub fn as_vec(&self) -> (r: &Vec<Message>)
        ensures
            messages_view(r@) == self.sent(),
    {
        match self {
            Outgoing::Borrowed(m) => m,
            Outgoing::Owned(m) => m,
        }
    }
}

/// The messages to send, to a model that can read pictures or cannot.
pub open spec fn outgoing(messages: Seq<MessageView>, vision: bool) -> Seq<MessageView> {
    if vision {
        messages
    } else {
        messages.map_values(|m: MessageView| withheld(m))
    }
}

/// The messages to send, with pictures withheld from a model that cannot read them.
///
/// The only place this decision is made. The session is left alone: what is stored is the
/// record of what happened, and this is only what one provider is asked to read.
pub fn messages_for_provider<'a>(messages: &'a Vec<Message>, vision: bool) -> (r: Outgoing<'a>)
    ensures
        r.sent() == outgoing(messages_view(messages@), vision),
        r is Borrowed <==> vision || forall|i: int|
            0 <= i < messages@.len() ==> !has_image(#[trigger] messages_view(messages@)[i]),
{
    if vision {
        return Outgoing::Borrowed(messages);
    }
    let mut any = false;
    let mut at: usize = 0;
    for i in 0..messages.len()
        invariant
            any ==> at < messages@.len() && has_image(messages_view(messages@)[at as int]),
            !any ==> forall|j: int| 0 <= j < i ==> !has_image(#[trigger] messages_view(messages@)[j]),
    {
        assert(messages_view(messages@)[i as int] == messages@[i as int]@);
        if carries_image(&messages[i]) {
            any = true;
            at = i;
        }
    }
    if !any {
        proof {
            let all = messages_view(messages@);
            assert forall|i: int| 0 <= i < all.len() implies withheld(all[i]) == all[i] by {
                lemma_nothing_to_withhold(all[i]);
            }
            assert(all.map_values(|m: MessageView| withheld(m)) =~= all);
        }
        return Outgoing::Borrowed(messages);
    }
    let mut out: Vec<Message> = Vec::new();
    for i in 0..messages.len()
        invariant
            out@.len() == i,
            forall|j: int| 0 <= j < i ==> (#[trigger] out@[j])@ == withheld(messages@[j]@),
    {
        out.push(withhold_images(&messages[i]));
    }
    assert(messages_view(out@) =~= messages_view(messages@).map_values(
        |m: MessageView| withheld(m),
    ));
    Outgoing::Owned(out)
}

proof fn lemma_nothing_to_withhold(m: MessageView)
    requires
        !has_image(m),
    ensures
        withheld(m) == m,
{
    if let Some(blocks) = blocks_of(m) {
        let f = |b: JsonView|
            if is_image(b) {
                text_block(IMAGE_WITHHELD@)
            } else {
                b
            };
        assert(blocks.map_values(f) =~= blocks);
    }
}

/// No picture reaches a model that cannot read it.
pub proof fn law_a_withheld_message_carries_no_picture(m: MessageView)
    ensures
        !has_image(withheld(m)),
{
    if let Some(blocks) = blocks_of(m) {
        reveal_strlit("text");
        reveal_strlit("type");
        reveal_strlit("image");
        reveal_strlit("image_url");
        assert("text"@.len() == 4);
        assert("text"@ != "type"@) by {
            assert("text"@[1] != "type"@[1]);
        }
        assert("image"@.len() == 5);
        assert("image_url"@.len() == 9);
        let t = text_block(IMAGE_WITHHELD@);
        assert(t.field_text("type"@) == Some("text"@));
        assert(!is_image(t));
        let out = blocks_of(withheld(m))->0;
        assert forall|i: int| 0 <= i < out.len() implies !is_image(#[trigger] out[i]) by {
            assert(0 <= i < blocks.len());
        }
    }
}

// ── One turn's tool calls ─────────────────────────────────────────────────────

/// What a call gets that was not reached before the run was over.
pub const NOT_EXECUTED: &'static str = "Error: not executed. The run was aborted before this call was reached.";

/// What a tool handed back.
pub struct ResultView {
    pub content: Seq<char>,
    pub images: Seq<JsonView>,
    pub session_ends: bool,
}

impl View for ToolCallResult {
    type V = ResultView;

    open spec fn view(&self) -> ResultView {
        ResultView {
            content: self.content@,
            images: array_view(self.images@),
            session_ends: self.session_ends,
        }
    }
}

/// The message for a tool result: plain text, or blocks where there are pictures.
pub open spec fn result_message(id: Seq<char>, r: ResultView) -> MessageView {
    if r.images.len() == 0 {
        tool_message(id, JsonView::Text(r.content))
    } else {
        tool_message(id, JsonView::Array(seq![text_block(r.content)] + r.images))
    }
}

/// Build the session message for a tool result, as it arrived.
pub fn tool_result_message(tool_call_id: &str, result: &ToolCallResult) -> (r: Message)
    ensures
        r@ == result_message(tool_call_id@, result@),
{
    if result.images.len() == 0 {
        Message::tool(tool_call_id, result.content.as_str())
    } else {
        Message::tool_blocks(tool_call_id, result.content.as_str(), &result.images)
    }
}

/// The calls of one turn, and how far they have been seen to.
#[derive(Debug)]
pub struct ToolBatch {
    pub calls: Vec<ToolCall>,
    /// How many of them have been answered.
    pub next: usize,
    /// Whether a tool asked for the session to end.
    pub session_ends: bool,
    /// Why the run is over, once it is.
    pub abort: Option<String>,
    /// The call being made, as it is recognised if it is made again.
    pub pending: Option<String>,
}

/// A turn's calls, and the conversation and the tracker they are seen to with.
#[verifier::ext_equal]
pub struct BatchView {
    pub calls: Seq<ToolCallView>,
    pub next: int,
    pub session_ends: bool,
    pub abort: Option<Seq<char>>,
    pub msgs: Seq<MessageView>,
    pub tracker: TrackerView,
}

/// The assistant's turn that asked for calls.
pub open spec fn calling_message(calls: Seq<ToolCallView>) -> MessageView {
    MessageView { tool_calls: Some(calls), ..plain_message("assistant"@, None) }
}

/// How a call is recognised if it is made again: its name, and its arguments as they print.
pub open spec fn signature_of(name: Seq<char>, arguments: Seq<char>) -> Seq<char> {
    name + ":"@ + arguments
}

/// What a call whose arguments are not JSON gets.
pub open spec fn invalid_arguments(c: ToolCallView, problem: Seq<char>) -> Seq<char> {
    "Invalid JSON arguments for tool '"@ + c.name + "': "@ + problem + "\nRaw: "@ + c.arguments
}

/// The batch once its next call has been answered with a message.
pub open spec fn answer_next(b: BatchView, m: MessageView) -> BatchView {
    BatchView { next: b.next + 1, msgs: b.msgs.push(m), ..b }
}

/// The batch once the arguments of its next call turned out not to be JSON.
pub open spec fn misread(b: BatchView, problem: Seq<char>) -> BatchView {
    let c = b.calls[b.next];
    let t = failed_again(b.tracker, signature_of(c.name, c.arguments));
    BatchView {
        tracker: t,
        abort: loop_verdict(t),
        ..answer_next(b, tool_message(c.id, JsonView::Text(invalid_arguments(c, problem))))
    }
}

/// The batch with every call answered that can be without calling a tool: all that are left
/// once the run is over, and those whose arguments are not JSON.
pub open spec fn settled(b: BatchView) -> BatchView
    decreases b.calls.len() - b.next,
{
    if b.next < 0 || b.next >= b.calls.len() {
        b
    } else {
        let c = b.calls[b.next];
        if b.abort is Some {
            settled(answer_next(b, tool_message(c.id, JsonView::Text(NOT_EXECUTED@))))
        } else {
            match parsed_json(c.arguments) {
                Ok(_) => b,
                Err((problem, _)) => settled(misread(b, problem)),
            }
        }
    }
}

/// The batch once the tool its next call names has been called, and what came back.
/// `signature` is how the call is recognised if it is made again.
pub open spec fn after_call(
    b: BatchView,
    signature: Seq<char>,
    outcome: Result<ResultView, Seq<char>>,
) -> BatchView {
    let c = b.calls[b.next];
    match outcome {
        Ok(r) => BatchView {
            tracker: no_failures(),
            abort: None,
            session_ends: b.session_ends || r.session_ends,
            ..answer_next(b, result_message(c.id, r))
        },
        Err(e) => {
            let t = failed_again(b.tracker, signature);
            BatchView {
                tracker: t,
                abort: match loop_verdict(t) {
                    Some(reason) => Some(reason + " Last error: "@ + e),
                    None => None,
                },
                ..answer_next(b, tool_message(c.id, JsonView::Text("Error: "@ + e)))
            }
        },
    }
}

/// How a batch ended: whether the session is to end, or why the run is over. An explicit
/// request beats an inference: a tool that asked for the session to end said so on purpose.
pub open spec fn batch_verdict(b: BatchView) -> Result<bool, Seq<char>> {
    if b.session_ends {
        Ok(true)
    } else {
        match b.abort {
            Some(reason) => Err(reason),
            None => Ok(false),
        }
    }
}

/// What a batch needs next.
#[derive(Debug)]
pub enum BatchStep {
    /// The tool to call. What comes back goes to [`ToolBatch::answer`].
    Call { name: String, arguments: Json },
    /// Every call is answered: whether the session is to end, or why the run is over.
    Done(Result<bool, String>),
}

impl ToolBatch {
    /// The batch, with the conversation and the tracker it is seen to with.
    pub open spec fn state(
        &self,
        msgs: Seq<MessageView>,
        tracker: TrackerView,
    ) -> BatchView {
        BatchView {
            calls: calls_view(self.calls@),
            next: self.next as int,
            session_ends: self.session_ends,
            abort: opt_text(self.abort),
            msgs,
            tracker,
        }
    }

    /// Whether a call is being made: the next one, with how it is recognised.
    pub open spec fn is_calling(&self) -> bool {
        &&& self.next < self.calls@.len()
        &&& self.abort is None
        &&& self.pending is Some
    }

    /// Whether the batch has answered no more calls than it has.
    pub open spec fn wf(&self) -> bool {
        self.next <= self.calls@.len()
    }

    /// Puts the turn that asks for calls into the conversation.
    pub fn begin(calls: Vec<ToolCall>, session: &mut Session) -> (r: ToolBatch)
        ensures
            r.wf(),
            calls_view(r.calls@) == calls_view(calls@),
            r.next == 0,
            !r.session_ends,
            r.abort is None,
            r.pending is None,
            messages_view(final(session).messages@) == messages_view(old(session).messages@).push(
                calling_message(calls_view(calls@)),
            ),
            final(session).metadata == old(session).metadata,
            final(session).extra == old(session).extra,
    {
        let ghost before = messages_view(session.messages@);
        let m = Message::assistant(None, Some(clone_calls(&calls)));
        let ghost mv = m@;
        session.messages.push(m);
        assert(messages_view(session.messages@) =~= before.push(mv));
        ToolBatch { calls, next: 0, session_ends: false, abort: None, pending: None }
    }

    /// Takes what the arguments of the next call were read as: what to call where they are JSON.
    /// Where they are not, the call is answered so and nothing is called.
    pub fn on_arguments(
        &mut self,
        session: &mut Session,
        tracker: &mut LoopTracker,
        parsed: Result<Json, ParseFailure>,
    ) -> (r: Option<BatchStep>)
        requires
            old(self).next < old(self).calls@.len(),
            old(self).abort is None,
        ensures
            final(self).calls == old(self).calls,
            final(self).session_ends == old(self).session_ends,
            final(session).metadata == old(session).metadata,
            final(session).extra == old(session).extra,
            ({
                let at = old(self).state(messages_view(old(session).messages@), old(tracker)@);
                let now = final(self).state(messages_view(final(session).messages@), final(tracker)@);
                let c = at.calls[at.next];
                match parsed {
                    Ok(arguments) => {
                        &&& now == at
                        &&& final(self).pending is Some
                        &&& final(self).pending->0@ == signature_of(c.name, json_text(arguments@))
                        &&& r is Some
                        &&& r->0 is Call
                        &&& r->0->name@ == c.name
                        &&& r->0->arguments == arguments
                    },
                    Err(e) => r is None && now == misread(at, e.message@),
                }
            }),
    {
        let ghost at = self.state(messages_view(session.messages@), tracker@);
        let c = self.calls[self.next].clone();
        assert(c@ == at.calls[at.next]);
        match parsed {
            Ok(arguments) => {
                let printed = json::print(&arguments);
                let mut signature = c.function.name.clone();
                signature.append(":");
                signature.append(printed.as_str());
                self.pending = Some(signature);
                assert(self.state(messages_view(session.messages@), tracker@) == at);
                Some(BatchStep::Call { name: c.function.name.clone(), arguments })
            },
            Err(e) => {
                let mut msg = "Invalid JSON arguments for tool '".to_owned();
                msg.append(c.function.name.as_str());
                msg.append("': ");
                msg.append(e.message.as_str());
                msg.append("\nRaw: ");
                msg.append(c.function.arguments.as_str());
                let m = Message::tool(c.id.as_str(), msg.as_str());
                let ghost mv = m@;
                session.messages.push(m);
                let mut signature = c.function.name.clone();
                signature.append(":");
                signature.append(c.function.arguments.as_str());
                self.abort = tracker.record(signature.as_str(), CallOutcome::Failed);
                assert(self.next < self.calls.len());
                self.next = self.next + 1;
                assert(messages_view(session.messages@) =~= at.msgs.push(mv));
                None
            },
        }
    }

    /// Answers what can be answered without calling a tool, and says what is needed next.
    ///
    /// Once the run is over the calls that are left are answered and not made: taking
    /// further actions is doing work that has been decided against, and a turn with some of
    /// its results missing is one no provider accepts.
    pub fn advance(&mut self, session: &mut Session, tracker: &mut LoopTracker) -> (r: BatchStep)
        requires
            old(self).wf(),
        ensures
            final(self).wf(),
            final(self).state(messages_view(final(session).messages@), final(tracker)@) == settled(
                old(self).state(messages_view(old(session).messages@), old(tracker)@),
            ),
            final(session).metadata == old(session).metadata,
            final(session).extra == old(session).extra,
            match r {
                BatchStep::Call { name, arguments } => {
                    let c = final(self).calls@[final(self).next as int]@;
                    &&& final(self).is_calling()
                    &&& name@ == c.name
                    &&& parsed_json(c.arguments) == Ok::<JsonView, (Seq<char>, bool)>(arguments@)
                    &&& final(self).pending->0@ == signature_of(c.name, json_text(arguments@))
                },
                BatchStep::Done(v) => final(self).next == final(self).calls@.len() && match v {
                    Ok(ends) => Ok::<bool, Seq<char>>(ends) == batch_verdict(
                        final(self).state(
                            messages_view(final(session).messages@),
                            final(tracker)@,
                        ),
                    ),
                    Err(reason) => Err::<bool, Seq<char>>(reason@) == batch_verdict(
                        final(self).state(
                            messages_view(final(session).messages@),
                            final(tracker)@,
                        ),
                    ),
                },
            },
    {
        let ghost goal = settled(self.state(messages_view(session.messages@), tracker@));
        while self.next < self.calls.len()
            invariant
                self.wf(),
                goal == settled(
                    old(self).state(messages_view(old(session).messages@), old(tracker)@),
                ),
                goal == settled(self.state(messages_view(session.messages@), tracker@)),
                session.metadata == old(session).metadata,
                session.extra == old(session).extra,
            decreases self.calls@.len() - self.next,
        {
            let ghost at = self.state(messages_view(session.messages@), tracker@);
            let c = self.calls[self.next].clone();
            assert(c@ == at.calls[at.next]);
            if self.abort.is_some() {
                let m = Message::tool(c.id.as_str(), NOT_EXECUTED);
                let ghost mv = m@;
                session.messages.push(m);
                self.next = self.next + 1;
                assert(messages_view(session.messages@) =~= at.msgs.push(mv));
                assert(self.state(messages_view(session.messages@), tracker@) == answer_next(at, mv));
                continue ;
            }
            let parsed = json::parse(c.function.arguments.as_str());
            if let Some(call) = self.on_arguments(session, tracker, parsed) {
                assert(settled(at) == at);
                return call;
            }
        }
        if self.session_ends {
            return BatchStep::Done(Ok(true));
        }
        match &self.abort {
            Some(reason) => BatchStep::Done(Err(reason.clone())),
            None => BatchStep::Done(Ok(false)),
        }
    }

    /// Takes what came back from the tool that was called.
    pub fn answer(
        &mut self,
        session: &mut Session,
        tracker: &mut LoopTracker,
        outcome: Result<ToolCallResult, String>,
    )
        requires
            old(self).is_calling(),
        ensures
            final(self).wf(),
            final(self).state(messages_view(final(session).messages@), final(tracker)@)
                == after_call(
                old(self).state(messages_view(old(session).messages@), old(tracker)@),
                old(self).pending->0@,
                match outcome {
                    Ok(r) => Ok(r@),
                    Err(e) => Err(e@),
                },
            ),
            final(session).metadata == old(session).metadata,
            final(session).extra == old(session).extra,
    {
        let ghost at = self.state(messages_view(session.messages@), tracker@);
        let id = self.calls[self.next].id.clone();
        assert(id@ == at.calls[at.next].id);
        let signature = match &self.pending {
            Some(s) => s.clone(),
            None => String::new(),
        };
        match outcome {
            Ok(result) => {
                if text::empty(result.content.as_str()) && result.images.len() > 0 {
                    tracker.record_informative();
                } else {
                    tracker.record(signature.as_str(), CallOutcome::Answered);
                }
                self.abort = None;
                let m = tool_result_message(id.as_str(), &result);
                let ghost mv = m@;
                session.messages.push(m);
                assert(messages_view(session.messages@) =~= at.msgs.push(mv));
                if result.session_ends {
                    self.session_ends = true;
                }
            },
            Err(e) => {
                let mut msg = "Error: ".to_owned();
                msg.append(e.as_str());
                let m = Message::tool(id.as_str(), msg.as_str());
                let ghost mv = m@;
                session.messages.push(m);
                assert(messages_view(session.messages@) =~= at.msgs.push(mv));
                match tracker.record(signature.as_str(), CallOutcome::Failed) {
                    Some(reason) => {
                        let mut reason = reason;
                        reason.append(" Last error: ");
                        reason.append(e.as_str());
                        self.abort = Some(reason);
                    },
                    None => {
                        self.abort = None;
                    },
                }
            },
        }
        self.pending = None;
        let total: usize = self.calls.len();
        assert(self.next < total);
        self.next = self.next + 1;
    }
}

/// Whether a batch is in step with the conversation it was begun on: the turn that asked for
/// the calls follows it, and then one result for each call answered so far, in their order.
pub open spec fn in_step(b: BatchView, base: Seq<MessageView>) -> bool {
    &&& 0 <= b.next <= b.calls.len()
    &&& b.msgs.len() == base.len() + 1 + b.next
    &&& b.msgs.take(base.len() as int) == base
    &&& b.msgs[base.len() as int] == calling_message(b.calls)
    &&& forall|k: int|
        0 <= k < b.next ==> {
            let m = #[trigger] b.msgs[base.len() + 1 + k];
            m.role == "tool"@ && m.tool_call_id == Some(b.calls[k].id)
        }
}

proof fn lemma_answer_keeps_step(b: BatchView, base: Seq<MessageView>, m: MessageView)
    requires
        in_step(b, base),
        b.next < b.calls.len(),
        m.role == "tool"@,
        m.tool_call_id == Some(b.calls[b.next].id),
    ensures
        in_step(answer_next(b, m), base),
{
    let after = answer_next(b, m);
    assert(after.msgs.take(base.len() as int) =~= base);
    assert forall|k: int| 0 <= k < after.next implies ({
        let x = #[trigger] after.msgs[base.len() + 1 + k];
        x.role == "tool"@ && x.tool_call_id == Some(after.calls[k].id)
    }) by {
        if k < b.next {
            assert(after.msgs[base.len() + 1 + k] == b.msgs[base.len() + 1 + k]);
        }
    }
}

/// A batch begins in step: nothing is answered yet, and the turn that asks is the last message.
pub proof fn law_a_batch_begins_in_step(b: BatchView, base: Seq<MessageView>)
    requires
        b.next == 0,
        b.msgs == base.push(calling_message(b.calls)),
    ensures
        in_step(b, base),
{
    assert(b.msgs.take(base.len() as int) =~= base);
}

/// Answering calls without making them keeps a batch in step.
pub proof fn law_settling_keeps_step(b: BatchView, base: Seq<MessageView>)
    requires
        in_step(b, base),
    ensures
        in_step(settled(b), base),
        settled(b).calls == b.calls,
        settled(b).next >= b.next,
    decreases b.calls.len() - b.next,
{
    if b.next < b.calls.len() {
        let c = b.calls[b.next];
        if b.abort is Some {
            let m = tool_message(c.id, JsonView::Text(NOT_EXECUTED@));
            lemma_answer_keeps_step(b, base, m);
            law_settling_keeps_step(answer_next(b, m), base);
        } else if let Err((problem, _)) = parsed_json(c.arguments) {
            let m = tool_message(c.id, JsonView::Text(invalid_arguments(c, problem)));
            lemma_answer_keeps_step(b, base, m);
            law_settling_keeps_step(misread(b, problem), base);
        }
    }
}

/// Whatever a tool hands back, or does not, its call is answered and the batch stays in step.
pub proof fn law_a_call_keeps_step(
    b: BatchView,
    base: Seq<MessageView>,
    signature: Seq<char>,
    outcome: Result<ResultView, Seq<char>>,
)
    requires
        in_step(b, base),
        b.next < b.calls.len(),
    ensures
        in_step(after_call(b, signature, outcome), base),
        after_call(b, signature, outcome).calls == b.calls,
        after_call(b, signature, outcome).next == b.next + 1,
{
    let c = b.calls[b.next];
    match outcome {
        Ok(r) => {
            lemma_answer_keeps_step(b, base, result_message(c.id, r));
        },
        Err(e) => {
            lemma_answer_keeps_step(b, base, tool_message(c.id, JsonView::Text("Error: "@ + e)));
        },
    }
}

/// A batch that is over leaves the conversation whole, however it went: every call has its
/// result, so another run can resume from there.
pub proof fn law_a_finished_batch_leaves_the_conversation_whole(
    b: BatchView,
    base: Seq<MessageView>,
)
    requires
        in_step(b, base),
        b.next == b.calls.len(),
        whole(base, 0),
    ensures
        whole(b.msgs, 0),
{
    let turn = calling_message(b.calls);
    let results = b.msgs.skip(base.len() as int + 1);
    assert forall|k: int| 0 <= k < b.calls.len() implies (#[trigger] results[k]).role == "tool"@
        && results[k].tool_call_id == Some(b.calls[k].id) by {
        assert(results[k] == b.msgs[base.len() + 1 + k]);
    }
    law_an_answered_turn_is_whole(turn, b.calls, results);
    reveal_strlit("assistant");
    reveal_strlit("tool");
    assert("assistant"@.len() != "tool"@.len());
    law_whole_conversations_join(base, seq![turn] + results);
    assert(b.msgs =~= base + (seq![turn] + results));
}

/// Once the run is over no further tool is called: all calls that are left are answered.
pub proof fn law_nothing_is_called_once_the_run_is_over(b: BatchView)
    requires
        b.abort is Some,
        0 <= b.next <= b.calls.len(),
    ensures
        settled(b).next == b.calls.len(),
        settled(b).abort == b.abort,
        settled(b).tracker == b.tracker,
    decreases b.calls.len() - b.next,
{
    if b.next < b.calls.len() {
        let c = b.calls[b.next];
        law_nothing_is_called_once_the_run_is_over(
            answer_next(b, tool_message(c.id, JsonView::Text(NOT_EXECUTED@))),
        );
    }
}

// ── The inference loop ────────────────────────────────────────────────────────

/// What one run may use. `None` is unbounded.
#[derive(Debug)]
pub struct RunLimits {
    pub max_iterations: Option<u32>,
    pub max_runtime: Option<Duration>,
    /// A path whose existence means "stop at the next iteration".
    pub stop_file: Option<String>,
}

impl RunLimits {
    /// Whether the limits are ones a clock can be held against.
    pub open spec fn wf(&self) -> bool {
        self.max_runtime is Some ==> self.max_runtime->0.nanos < 1_000_000_000
    }
}

/// Why a run stops before its turn number `iteration`, where it does. The request to stop is
/// looked at first, then the turns, then the clock.
pub open spec fn stop_before(
    limits: RunLimits,
    iteration: int,
    stop_file_exists: bool,
    elapsed: Duration,
) -> Option<RunError> {
    if limits.stop_file is Some && stop_file_exists {
        Some(RunError::Stopped(StopRequested(limits.stop_file->0)))
    } else if limits.max_iterations is Some && iteration > limits.max_iterations->0 {
        Some(RunError::Iterations(MaxIterationsReached(limits.max_iterations->0)))
    } else if limits.max_runtime is Some && elapsed.total_nanos()
        >= limits.max_runtime->0.total_nanos() {
        Some(RunError::Runtime(RunTimeExceeded(limits.max_runtime->0)))
    } else {
        None
    }
}

/// A run has no ceiling unless the caller asked for one, and a ceiling is never a failure.
pub proof fn law_a_run_is_stopped_only_where_that_was_asked_for(
    limits: RunLimits,
    iteration: int,
    stop_file_exists: bool,
    elapsed: Duration,
)
    ensures
        limits.max_iterations is None && limits.max_runtime is None && limits.stop_file is None
            ==> stop_before(limits, iteration, stop_file_exists, elapsed) is None,
        limits.max_iterations is None && limits.max_runtime is None && !stop_file_exists
            ==> stop_before(limits, iteration, stop_file_exists, elapsed) is None,
        match stop_before(limits, iteration, stop_file_exists, elapsed) {
            Some(e) => !(e is Failed),
            None => true,
        },
{
}

/// Whether two errors are the same ending, saying the same thing.
pub open spec fn same_error(a: RunError, b: RunError) -> bool {
    match (a, b) {
        (RunError::Stopped(x), RunError::Stopped(y)) => x.0@ == y.0@,
        (RunError::Failed(x), RunError::Failed(y)) => x@ == y@,
        _ => a == b,
    }
}

/// What to say of an answer that finished for a reason nobody knows, before the reason.
pub const UNKNOWN_REASON: &'static str = "LLM returned unexpected finish_reason: ";

/// What a provider's answer calls for.
pub enum TurnView {
    /// Nothing came back: ask again.
    Again,
    /// The model asked for these calls.
    Tools(Seq<ToolCallView>),
    /// The run is complete.
    Completed(Seq<char>, CompletionReason),
    /// The run is over.
    Failed(Seq<char>),
}

/// The text of a content, or none.
pub open spec fn content_text(content: Option<JsonView>) -> Seq<char> {
    match content {
        Some(c) => match c.as_text() {
            Some(s) => s,
            None => Seq::empty(),
        },
        None => Seq::empty(),
    }
}

/// What the first choice of an answer calls for, after `empty` contentless ones in a row. An
/// answer that states no reason for having finished is taken as a normal finish, and one that
/// states a reason nobody knows is not.
pub open spec fn turn_of(choice: Option<ChoiceView>, empty: int) -> TurnView {
    match choice {
        None => TurnView::Failed("No choices returned from LLM"@),
        Some(c) => match c.message.tool_calls {
            Some(calls) => if calls.len() > 0 {
                TurnView::Tools(calls)
            } else if empty + 1 > MAX_EMPTY_COMPLETION_RETRIES {
                TurnView::Failed(
                    "LLM returned an empty tool_calls array "@ + decimal((empty + 1) as nat)
                        + " times in a row"@,
                )
            } else {
                TurnView::Again
            },
            None => match c.unknown_reason {
                Some(word) => TurnView::Failed(UNKNOWN_REASON@ + word),
                None => match c.finish_reason {
                    None | Some(FinishReason::Stop) => if content_text(c.message.content).len() > 0 {
                        TurnView::Completed(content_text(c.message.content), CompletionReason::Stop)
                    } else if empty + 1 > MAX_EMPTY_COMPLETION_RETRIES {
                        TurnView::Failed(
                            "LLM returned empty response (finish_reason: stop) "@ + decimal(
                                (empty + 1) as nat,
                            ) + " times in a row"@,
                        )
                    } else {
                        TurnView::Again
                    },
                    Some(FinishReason::Length) => TurnView::Completed(
                        content_text(c.message.content),
                        CompletionReason::Length,
                    ),
                    Some(FinishReason::ContentFilter) => TurnView::Failed(
                        "LLM response was blocked by content filter"@,
                    ),
                    Some(FinishReason::ToolCalls) => TurnView::Failed(
                        "LLM returned finish_reason 'tool_calls' but no tool_calls in message"@,
                    ),
                },
            },
        },
    }
}

/// The first choice of an answer.
pub open spec fn first_choice(choices: Seq<LlmChoice>) -> Option<ChoiceView> {
    if choices.len() > 0 {
        Some(choices[0]@)
    } else {
        None
    }
}

/// What a turn appends to the conversation before any tool is called.
pub open spec fn turn_messages(turn: TurnView) -> Seq<MessageView> {
    match turn {
        TurnView::Tools(calls) => seq![calling_message(calls)],
        TurnView::Completed(text, _) => seq![
            plain_message("assistant"@, Some(JsonView::Text(text))),
        ],
        _ => Seq::empty(),
    }
}

/// How many contentless answers in a row there are after a turn.
pub open spec fn empty_after(turn: TurnView, empty: int) -> int {
    match turn {
        TurnView::Tools(_) => 0,
        TurnView::Again => empty + 1,
        _ => empty,
    }
}

/// What to do next.
#[derive(Debug)]
pub enum Next {
    /// Ask the provider again.
    Again,
    /// See to these calls, then ask the provider again.
    Tools(ToolBatch),
    /// The run is over.
    Ended(InferenceResult),
    /// The run is over, without a result.
    Failed(RunError),
}

/// One run's inference loop: what it has used, and what it has seen.
#[derive(Debug)]
pub struct InferenceLoop {
    /// Summed over the answers that reported any.
    pub usage: LlmUsage,
    pub tracker: LoopTracker,
    /// How many contentless answers in a row there have been.
    pub consecutive_empty: u8,
    /// The turn being taken.
    pub iteration: u32,
    /// How many answers have come back. An answer that was contentless counts: it was waited
    /// on and it was billed.
    pub inferences: usize,
}

impl InferenceLoop {
    /// Whether the loop has given up on no more contentless answers than it may.
    pub open spec fn wf(&self) -> bool {
        self.consecutive_empty <= MAX_EMPTY_COMPLETION_RETRIES
    }

    /// The loop before its first turn.
    pub fn new() -> (r: InferenceLoop)
        ensures
            r.wf(),
            r.usage == (LlmUsage {
                prompt_tokens: 0,
                completion_tokens: 0,
                total_tokens: 0,
                cached_prompt_tokens: None,
                written_prompt_tokens: None,
            }),
            r.tracker@ == no_failures(),
            r.consecutive_empty == 0,
            r.iteration == 0,
            r.inferences == 0,
    {
        InferenceLoop {
            usage: LlmUsage::default(),
            tracker: LoopTracker::default(),
            consecutive_empty: 0,
            iteration: 0,
            inferences: 0,
        }
    }

    /// Begins a turn, or says why the run stops before it.
    ///
    /// All stops are looked at here, between exchanges, where the conversation is whole: that
    /// is what leaves a session another run can resume from.
    pub fn begin_iteration(
        &mut self,
        limits: &RunLimits,
        stop_file_exists: bool,
        elapsed: Duration,
    ) -> (r: Result<(), RunError>)
        requires
            limits.wf(),
            elapsed.nanos < 1_000_000_000,
            old(self).iteration < u32::MAX,
        ensures
            *final(self) == (InferenceLoop {
                iteration: (old(self).iteration + 1) as u32,
                ..*old(self)
            }),
            match r {
                Ok(()) => stop_before(*limits, old(self).iteration + 1, stop_file_exists, elapsed)
                    is None,
                Err(e) => {
                    let stop = stop_before(
                        *limits,
                        old(self).iteration + 1,
                        stop_file_exists,
                        elapsed,
                    );
                    stop is Some && same_error(e, stop->0)
                },
            },
    {
        self.iteration = self.iteration + 1;
        if let Some(path) = &limits.stop_file {
            if stop_file_exists {
                return Err(RunError::Stopped(StopRequested(path.clone())));
            }
        }
        if let Some(limit) = limits.max_iterations {
            if self.iteration > limit {
                return Err(RunError::Iterations(MaxIterationsReached(limit)));
            }
        }
        if let Some(limit) = limits.max_runtime {
            if elapsed.at_least(&limit) {
                return Err(RunError::Runtime(RunTimeExceeded(limit)));
            }
        }
        Ok(())
    }

    /// Takes a provider's answer, and says what to do next.
    pub fn on_response(&mut self, session: &mut Session, response: LlmResponse) -> (r: Next)
        requires
            old(self).wf(),
            old(self).inferences < usize::MAX,
            response.usage is Some ==> usage_fits(old(self).usage, response.usage->0),
        ensures
            final(self).wf(),
            final(self).inferences == old(self).inferences + 1,
            final(self).iteration == old(self).iteration,
            final(self).tracker == old(self).tracker,
            match response.usage {
                Some(u) => is_usage_sum(final(self).usage, old(self).usage, u),
                None => final(self).usage == old(self).usage,
            },
            ({
                let choice = first_choice(response.choices@);
                let turn = turn_of(choice, old(self).consecutive_empty as int);
                &&& final(self).consecutive_empty == empty_after(
                    turn,
                    old(self).consecutive_empty as int,
                )
                &&& messages_view(final(session).messages@) == messages_view(
                    old(session).messages@,
                ) + turn_messages(turn)
                &&& match (r, turn) {
                    (Next::Again, TurnView::Again) => true,
                    (Next::Tools(b), TurnView::Tools(calls)) => b.wf() && b.next == 0
                        && !b.session_ends && b.abort is None && b.pending is None && calls_view(
                        b.calls@,
                    ) == calls,
                    (
                        Next::Ended(InferenceResult::Completed { text, usage, reason }),
                        TurnView::Completed(t, why),
                    ) => text@ == t && reason == why && usage == final(self).usage,
                    (Next::Failed(RunError::Failed(why)), TurnView::Failed(t)) => why@ == t,
                    _ => false,
                }
            }),
            final(session).metadata == old(session).metadata,
            final(session).extra == old(session).extra,
    {
        let ghost before = messages_view(session.messages@);
        self.inferences = self.inferences + 1;
        if let Some(u) = &response.usage {
            self.usage = self.usage.plus(u);
        }
        assert(before + Seq::<MessageView>::empty() =~= before);
        if response.choices.len() == 0 {
            return Next::Failed(RunError::Failed("No choices returned from LLM".to_owned()));
        }
        let choice = &response.choices[0];
        let finish_reason = match choice.finish_reason {
            Some(f) => f,
            None => FinishReason::Stop,
        };
        if let Some(calls) = &choice.message.tool_calls {
            if calls.len() == 0 {
                if self.consecutive_empty + 1 > MAX_EMPTY_COMPLETION_RETRIES {
                    let mut why = "LLM returned an empty tool_calls array ".to_owned();
                    why.append(decimal_of(self.consecutive_empty as u64 + 1).as_str());
                    why.append(" times in a row");
                    return Next::Failed(RunError::Failed(why));
                }
                self.consecutive_empty = self.consecutive_empty + 1;
                return Next::Again;
            }
            self.consecutive_empty = 0;
            let batch = ToolBatch::begin(clone_calls(calls), session);
            assert(messages_view(session.messages@) =~= before + seq![
                calling_message(calls_view(calls@)),
            ]);
            return Next::Tools(batch);
        }
        if let Some(word) = &choice.unknown_reason {
            let mut why = UNKNOWN_REASON.to_owned();
            why.append(word.as_str());
            return Next::Failed(RunError::Failed(why));
        }
        let text: String = match &choice.message.content {
            Some(c) => match c.as_str() {
                Some(s) => s.to_owned(),
                None => String::new(),
            },
            None => String::new(),
        };
        assert(text@ =~= content_text(choice@.message.content));
        match finish_reason {
            FinishReason::Stop => {
                if text::empty(text.as_str()) {
                    if self.consecutive_empty + 1 > MAX_EMPTY_COMPLETION_RETRIES {
                        let mut why = "LLM returned empty response (finish_reason: stop) ".to_owned();
                        why.append(decimal_of(self.consecutive_empty as u64 + 1).as_str());
                        why.append(" times in a row");
                        return Next::Failed(RunError::Failed(why));
                    }
                    self.consecutive_empty = self.consecutive_empty + 1;
                    return Next::Again;
                }
                self.complete(session, text, CompletionReason::Stop)
            },
            FinishReason::Length => self.complete(session, text, CompletionReason::Length),
            FinishReason::ContentFilter => Next::Failed(
                RunError::Failed("LLM response was blocked by content filter".to_owned()),
            ),
            FinishReason::ToolCalls => Next::Failed(
                RunError::Failed(
                    "LLM returned finish_reason 'tool_calls' but no tool_calls in message".to_owned(),
                ),
            ),
        }
    }

    /// Puts the model's last words into the conversation and ends the run with them.
    fn complete(&self, session: &mut Session, text: String, reason: CompletionReason) -> (r: Next)
        ensures
            r matches Next::Ended(InferenceResult::Completed { text: t, usage, reason: why })
                && t@ == text@ && usage == self.usage && why == reason,
            messages_view(final(session).messages@) == messages_view(old(session).messages@)
                + seq![plain_message("assistant"@, Some(JsonView::Text(text@)))],
            final(session).metadata == old(session).metadata,
            final(session).extra == old(session).extra,
    {
        let ghost before = messages_view(session.messages@);
        let m = Message::assistant(Some(text.as_str()), None);
        let ghost mv = m@;
        session.messages.push(m);
        assert(mv == plain_message("assistant"@, Some(JsonView::Text(text@))));
        assert(messages_view(session.messages@) =~= before + seq![mv]);
        Next::Ended(InferenceResult::Completed { text, usage: self.usage, reason })
    }
}

/// Whether an answer carries neither text nor calls.
pub open spec fn is_contentless(c: ChoiceView) -> bool {
    match c.message.tool_calls {
        Some(calls) => calls.len() == 0,
        None => c.unknown_reason is None && (c.finish_reason is None || c.finish_reason == Some(
            FinishReason::Stop,
        )) && content_text(c.message.content).len() == 0,
    }
}

/// Two contentless answers in a row are asked for again, and a third ends the run: the count
/// starts over only at an answer that asks for calls.
pub proof fn law_contentless_answers_are_bounded(a: ChoiceView, b: ChoiceView, c: ChoiceView)
    requires
        is_contentless(a),
        is_contentless(b),
        is_contentless(c),
    ensures
        turn_of(Some(a), 0) is Again,
        turn_of(Some(b), empty_after(turn_of(Some(a), 0), 0)) is Again,
        turn_of(
            Some(c),
            empty_after(
                turn_of(Some(b), empty_after(turn_of(Some(a), 0), 0)),
                empty_after(turn_of(Some(a), 0), 0),
            ),
        ) is Failed,
{
}

/// A provider that states a reason which is none of the known words has not finished normally:
/// its answer never completes a run, and where it asks for no calls it ends the run as failed.
pub proof fn law_an_unknown_reason_never_completes(c: ChatChoice, empty: int)
    requires
        c.finish_reason is Some,
        !is_known_reason(c.finish_reason->0@),
    ensures
        !(turn_of(Some(choice_of(c)), empty) is Completed),
        c.message.tool_calls is None ==> turn_of(Some(choice_of(c)), empty) == TurnView::Failed(
            UNKNOWN_REASON@ + c.finish_reason->0@,
        ),
{
}

/// A turn that asks for no calls leaves a whole conversation whole. With
/// [`law_a_finished_batch_leaves_the_conversation_whole`], every stop between turns finds the
/// conversation whole.
pub proof fn law_a_turn_without_calls_leaves_the_conversation_whole(
    base: Seq<MessageView>,
    turn: TurnView,
)
    requires
        whole(base, 0),
        !(turn is Tools),
    ensures
        whole(base + turn_messages(turn), 0),
{
    let more = turn_messages(turn);
    reveal_strlit("assistant");
    reveal_strlit("tool");
    assert("assistant"@.len() != "tool"@.len());
    if more.len() > 0 {
        assert(whole(more, 1));
    }
    law_whole_conversations_join(base, more);
}

// ── What a run promises ───────────────────────────────────────────────────────

/// A turn is taken for as long as nobody asked to stop, a turn is left, and the time that has
/// passed is shorter than the limit; and what ends the run otherwise is the first of these
/// that does not hold, with the limit that was set.
pub proof fn law_a_turn_is_taken_until_a_limit_is_reached(
    limits: RunLimits,
    iteration: int,
    stop_file_exists: bool,
    elapsed: Duration,
)
    requires
        limits.wf(),
        elapsed.nanos < 1_000_000_000,
    ensures
        ({
            let stop = stop_before(limits, iteration, stop_file_exists, elapsed);
            let asked = stop_file_exists && limits.stop_file is Some;
            let turn_left = limits.max_iterations is None || iteration
                <= limits.max_iterations->0;
            let time_left = limits.max_runtime is None || elapsed.secs
                < limits.max_runtime->0.secs || (elapsed.secs == limits.max_runtime->0.secs
                && elapsed.nanos < limits.max_runtime->0.nanos);
            &&& stop is None <==> !asked && turn_left && time_left
            &&& asked ==> stop == Some(RunError::Stopped(StopRequested(limits.stop_file->0)))
            &&& !asked && !turn_left ==> stop == Some(
                RunError::Iterations(MaxIterationsReached(limits.max_iterations->0)),
            )
            &&& !asked && turn_left && !time_left ==> stop == Some(
                RunError::Runtime(RunTimeExceeded(limits.max_runtime->0)),
            )
        }),
{
}

/// Time only runs out: a run that is stopped for its time, or for its turns, is stopped at every
/// later turn and every later moment too.
pub proof fn law_a_limit_stays_reached(
    limits: RunLimits,
    iteration: int,
    later_iteration: int,
    stop_file_exists: bool,
    elapsed: Duration,
    later: Duration,
)
    requires
        limits.wf(),
        elapsed.nanos < 1_000_000_000,
        later.nanos < 1_000_000_000,
        iteration <= later_iteration,
        elapsed.secs < later.secs || (elapsed.secs == later.secs && elapsed.nanos <= later.nanos),
        stop_before(limits, iteration, stop_file_exists, elapsed) is Some,
    ensures
        stop_before(limits, later_iteration, stop_file_exists, later) is Some,
{
}

/// An answer that asks for calls gets exactly those calls seen to, whatever else it says and
/// whatever came before it, and the count of contentless answers starts over.
pub proof fn law_calls_are_seen_to(c: ChoiceView, calls: Seq<ToolCallView>, empty: int)
    requires
        c.message.tool_calls == Some(calls),
        calls.len() > 0,
    ensures
        turn_of(Some(c), empty) == TurnView::Tools(calls),
        empty_after(turn_of(Some(c), empty), empty) == 0,
        ({
            let said = turn_messages(turn_of(Some(c), empty));
            &&& said.len() == 1
            &&& said[0].role == "assistant"@
            &&& said[0].tool_calls == Some(calls)
            &&& said[0].content is None
        }),
{
}

/// A run ends with exactly the text that the model finished with, whole where it stopped and
/// cut where it ran into its length, and that text is the last thing in the conversation.
pub proof fn law_a_run_ends_with_what_the_model_said(c: ChoiceView, s: Seq<char>, empty: int)
    requires
        c.message.tool_calls is None,
        c.unknown_reason is None,
        c.message.content == Some(JsonView::Text(s)),
    ensures
        c.finish_reason is None && s.len() > 0 ==> turn_of(Some(c), empty)
            == TurnView::Completed(s, CompletionReason::Stop),
        c.finish_reason == Some(FinishReason::Stop) && s.len() > 0 ==> turn_of(Some(c), empty)
            == TurnView::Completed(s, CompletionReason::Stop),
        c.finish_reason == Some(FinishReason::Length) ==> turn_of(Some(c), empty)
            == TurnView::Completed(s, CompletionReason::Length),
        turn_of(Some(c), empty) is Completed ==> {
            let said = turn_messages(turn_of(Some(c), empty));
            &&& said.len() == 1
            &&& said[0].role == "assistant"@
            &&& said[0].content == Some(JsonView::Text(s))
            &&& said[0].tool_calls is None
        },
{
}

/// An answer without calls that was blocked, that promises calls it does not have, or that is
/// no answer at all, fails the run; and a run that goes on or fails has said nothing.
pub proof fn law_what_is_no_answer_fails_the_run(c: ChoiceView, empty: int)
    ensures
        turn_of(None, empty) is Failed,
        c.message.tool_calls is None && c.finish_reason == Some(FinishReason::ContentFilter)
            ==> turn_of(Some(c), empty) is Failed,
        c.message.tool_calls is None && c.finish_reason == Some(FinishReason::ToolCalls)
            ==> turn_of(Some(c), empty) is Failed,
        turn_of(Some(c), empty) is Again || turn_of(Some(c), empty) is Failed ==> turn_messages(
            turn_of(Some(c), empty),
        ).len() == 0,
        turn_of(Some(c), empty) is Again ==> is_contentless(c) && empty_after(
            turn_of(Some(c), empty),
            empty,
        ) == empty + 1,
        turn_of(Some(c), empty) is Completed ==> !is_contentless(c),
{
}

/// The answer that is read is the first.
pub proof fn law_the_first_choice_is_read(choices: Seq<LlmChoice>)
    ensures
        choices.len() == 0 <==> first_choice(choices) is None,
        choices.len() > 0 ==> first_choice(choices) == Some(choices.first()@),
{
}

/// What a tool handed back is kept as it arrived: its text, and behind it every picture in its
/// order, in a message that names the call.
pub proof fn law_a_result_is_kept_as_it_arrived(id: Seq<char>, r: ResultView)
    ensures
        ({
            let m = result_message(id, r);
            &&& m.role == "tool"@
            &&& m.tool_call_id == Some(id)
            &&& m.tool_calls is None
            &&& r.images.len() == 0 ==> m.content == Some(JsonView::Text(r.content))
            &&& r.images.len() > 0 ==> {
                let blocks = m.content->0.as_items()->0;
                &&& m.content is Some
                &&& m.content->0.as_items() is Some
                &&& blocks.len() == r.images.len() + 1
                &&& blocks[0].field_text("type"@) == Some("text"@)
                &&& blocks[0].field_text("text"@) == Some(r.content)
                &&& forall|i: int| 0 <= i < r.images.len() ==> blocks[i + 1] == #[trigger] r.images[i]
            }
        }),
{
    law_a_text_block_holds_its_text(r.content);
}

/// A call that was made adds one message, the answer to it and nothing else: what the tool
/// handed back, or the error it failed with. A call that got somewhere forgets the failures
/// before it, and a session that was asked to end stays so.
pub proof fn law_a_call_is_answered_with_what_came_back(
    b: BatchView,
    signature: Seq<char>,
    r: ResultView,
    e: Seq<char>,
)
    requires
        0 <= b.next < b.calls.len(),
    ensures
        ({
            let after = after_call(b, signature, Ok(r));
            &&& after.msgs.len() == b.msgs.len() + 1
            &&& after.msgs.drop_last() == b.msgs
            &&& after.msgs.last() == result_message(b.calls[b.next].id, r)
            &&& after.session_ends == (b.session_ends || r.session_ends)
            &&& after.abort is None
            &&& after.tracker.signature is None
        }),
        ({
            let after = after_call(b, signature, Err(e));
            &&& after.msgs.len() == b.msgs.len() + 1
            &&& after.msgs.drop_last() == b.msgs
            &&& after.msgs.last().role == "tool"@
            &&& after.msgs.last().tool_call_id == Some(b.calls[b.next].id)
            &&& after.msgs.last().content == Some(JsonView::Text("Error: "@ + e))
            &&& after.session_ends == b.session_ends
            &&& after.tracker.signature == Some(signature)
            &&& after.abort is Some <==> loop_verdict(after.tracker) is Some
        }),
{
    assert(after_call(b, signature, Ok(r)).msgs.drop_last() =~= b.msgs);
    assert(after_call(b, signature, Err(e)).msgs.drop_last() =~= b.msgs);
}

/// A call whose arguments can be read is the one to make next: nothing is answered for it. One
/// whose arguments cannot be read is answered with what is wrong and with what was sent.
pub proof fn law_a_readable_call_is_made(b: BatchView)
    requires
        0 <= b.next < b.calls.len(),
        b.abort is None,
    ensures
        parsed_json(b.calls[b.next].arguments) is Ok ==> settled(b) == b,
        match parsed_json(b.calls[b.next].arguments) {
            Ok(_) => true,
            Err((problem, _)) => {
                let said = settled(b).msgs[b.msgs.len() as int];
                &&& settled(b).next > b.next
                &&& said.role == "tool"@
                &&& said.tool_call_id == Some(b.calls[b.next].id)
                &&& said.content == Some(
                    JsonView::Text(
                        "Invalid JSON arguments for tool '"@ + b.calls[b.next].name + "': "@
                            + problem + "\nRaw: "@ + b.calls[b.next].arguments,
                    ),
                )
            },
        },
{
    if let Err((problem, _)) = parsed_json(b.calls[b.next].arguments) {
        let next = misread(b, problem);
        lemma_settling_only_appends(next);
        assert(settled(next).msgs.take(next.msgs.len() as int)[b.msgs.len() as int]
            == next.msgs.last());
    }
}

proof fn lemma_settling_only_appends(b: BatchView)
    requires
        0 <= b.next,
    ensures
        settled(b).msgs.len() >= b.msgs.len(),
        settled(b).msgs.take(b.msgs.len() as int) == b.msgs,
        settled(b).next >= b.next,
        settled(b).session_ends == b.session_ends,
        b.next <= b.calls.len() ==> settled(b).msgs.len() - b.msgs.len() == settled(b).next - b.next,
        settled(b).calls == b.calls,
    decreases b.calls.len() - b.next,
{
    if b.next < b.calls.len() {
        let c = b.calls[b.next];
        if b.abort is Some {
            let m = tool_message(c.id, JsonView::Text(NOT_EXECUTED@));
            let next = answer_next(b, m);
            lemma_settling_only_appends(next);
            assert(settled(b).msgs.take(b.msgs.len() as int) =~= next.msgs.take(
                b.msgs.len() as int,
            )) by {
                assert(settled(next).msgs.take(next.msgs.len() as int) == next.msgs);
                assert forall|k: int| 0 <= k < b.msgs.len() implies settled(b).msgs[k] == next.msgs[k] by {
                    assert(settled(next).msgs.take(next.msgs.len() as int)[k] == next.msgs[k]);
                }
            }
            assert(next.msgs.take(b.msgs.len() as int) =~= b.msgs);
        } else if let Err((problem, _)) = parsed_json(c.arguments) {
            let next = misread(b, problem);
            lemma_settling_only_appends(next);
            assert(settled(b).msgs.take(b.msgs.len() as int) =~= next.msgs.take(
                b.msgs.len() as int,
            )) by {
                assert forall|k: int| 0 <= k < b.msgs.len() implies settled(b).msgs[k] == next.msgs[k] by {
                    assert(settled(next).msgs.take(next.msgs.len() as int)[k] == next.msgs[k]);
                }
            }
            assert(next.msgs.take(b.msgs.len() as int) =~= b.msgs);
        } else {
            assert(b.msgs.take(b.msgs.len() as int) =~= b.msgs);
        }
    } else {
        assert(b.msgs.take(b.msgs.len() as int) =~= b.msgs);
    }
}

/// Settling a turn adds one message for each call it answers and takes nothing back, and no
/// session is asked to end by it.
pub proof fn law_settling_only_appends(b: BatchView)
    requires
        0 <= b.next <= b.calls.len(),
    ensures
        settled(b).msgs.take(b.msgs.len() as int) == b.msgs,
        settled(b).msgs.len() - b.msgs.len() == settled(b).next - b.next,
        settled(b).calls == b.calls,
        settled(b).session_ends == b.session_ends,
{
    lemma_settling_only_appends(b);
}

/// Once the run is over, the call that was reached is told so.
pub proof fn law_a_call_that_is_not_made_is_told_so(b: BatchView, k: int)
    requires
        b.abort is Some,
        0 <= b.next <= k < b.calls.len(),
    ensures
        ({
            let said = settled(b).msgs[b.msgs.len() + (k - b.next)];
            &&& said.role == "tool"@
            &&& said.tool_call_id == Some(b.calls[k].id)
            &&& said.content == Some(JsonView::Text(NOT_EXECUTED@))
        }),
    decreases b.calls.len() - b.next,
{
    let c = b.calls[b.next];
    let m = tool_message(c.id, JsonView::Text(NOT_EXECUTED@));
    let next = answer_next(b, m);
    lemma_settling_only_appends(next);
    if k == b.next {
        assert(settled(next).msgs.take(next.msgs.len() as int)[b.msgs.len() as int] == m);
    } else {
        law_a_call_that_is_not_made_is_told_so(next, k);
    }
}

/// A tool that asked for the session to end has its way, whatever else happened; a run that is
/// over for another reason says which; and a turn without either goes on.
pub proof fn law_a_tool_that_ends_the_session_ends_it(b: BatchView)
    ensures
        b.session_ends <==> batch_verdict(b) == Ok::<bool, Seq<char>>(true),
        !b.session_ends && b.abort is Some ==> batch_verdict(b) == Err::<bool, Seq<char>>(
            b.abort->0,
        ),
        !b.session_ends && b.abort is None ==> batch_verdict(b) == Ok::<bool, Seq<char>>(false),
{
}

/// Two calls of one tool are the same call exactly when their arguments are.
pub proof fn law_a_call_is_recognised_by_its_arguments(
    name: Seq<char>,
    arguments: Seq<char>,
    other: Seq<char>,
)
    ensures
        signature_of(name, arguments) == signature_of(name, other) <==> arguments == other,
        signature_of(name, arguments).len() > name.len(),
        signature_of(name, arguments).take(name.len() as int) == name,
{
    reveal_strlit(":");
    let a = signature_of(name, arguments);
    let b = signature_of(name, other);
    assert(a.skip(name.len() as int + 1) =~= arguments);
    assert(b.skip(name.len() as int + 1) =~= other);
    assert(a.take(name.len() as int) =~= name);
}

/// Withholding pictures changes nothing but the pictures: each is replaced in its place by a
/// text, every other block stays, and so does everything else a message says.
pub proof fn law_withholding_changes_only_pictures(m: MessageView)
    ensures
        ({
            let w = withheld(m);
            &&& w.role == m.role
            &&& w.tool_calls == m.tool_calls
            &&& w.tool_call_id == m.tool_call_id
            &&& w.name == m.name
            &&& w.provider_items == m.provider_items
            &&& match m.content {
                Some(JsonView::Array(blocks)) => {
                    let out = w.content->0->Array_0;
                    &&& w.content is Some && w.content->0 is Array
                    &&& out.len() == blocks.len()
                    &&& forall|i: int|
                        0 <= i < blocks.len() ==> {
                            let kind = (#[trigger] blocks[i]).field_text("type"@);
                            if kind == Some("image"@) || kind == Some("image_url"@) {
                                &&& out[i].field_text("type"@) == Some("text"@)
                                &&& out[i].field_text("text"@) == Some(IMAGE_WITHHELD@)
                            } else {
                                out[i] == blocks[i]
                            }
                        }
                },
                other => w.content == other,
            }
        }),
{
    law_a_text_block_holds_its_text(IMAGE_WITHHELD@);
}

/// Every message is sent, in its place. A model that can read pictures is sent them as they
/// are; one that cannot is sent none, and is sent everything that is no picture.
pub proof fn law_every_message_is_sent_and_pictures_only_to_who_can_read_them(
    messages: Seq<MessageView>,
    vision: bool,
    i: int,
)
    requires
        0 <= i < messages.len(),
    ensures
        outgoing(messages, vision).len() == messages.len(),
        vision ==> outgoing(messages, vision)[i] == messages[i],
        !vision ==> !has_image(outgoing(messages, vision)[i]),
        !has_image(messages[i]) ==> outgoing(messages, vision)[i] == messages[i],
        outgoing(messages, vision)[i].role == messages[i].role,
        outgoing(messages, vision)[i].tool_calls == messages[i].tool_calls,
        outgoing(messages, vision)[i].tool_call_id == messages[i].tool_call_id,
{
    law_a_withheld_message_carries_no_picture(messages[i]);
    law_withholding_changes_only_pictures(messages[i]);
    if !has_image(messages[i]) {
        lemma_nothing_to_withhold(messages[i]);
    }
}

/// An ending tells a person which limit was reached, where the request to stop came from, or
/// what went wrong, in its own words; and two endings that are the same say the same.
pub proof fn law_an_ending_says_what_it_was(e: RunError, other: RunError)
    ensures
        e is Iterations ==> text::contains(
            error_text(e),
            "maximum iterations ("@ + decimal(e->Iterations_0.0 as nat) + ")"@,
        ),
        e is Runtime ==> text::contains(
            error_text(e),
            "time limit ("@ + decimal(e->Runtime_0.0.secs as nat) + "s)"@,
        ),
        e is Stopped ==> error_text(e) == "Stop requested via "@ + e->Stopped_0.0@,
        e is Failed ==> error_text(e) == e->Failed_0@,
        same_error(e, other) ==> error_text(e) == error_text(other) && ending_word(e)
            == ending_word(other),
        same_error(e, e),
{
    let none = Seq::<char>::empty();
    if let RunError::Iterations(m) = e {
        reveal_strlit("Inference loop exceeded maximum iterations (");
        reveal_strlit("Inference loop exceeded ");
        reveal_strlit("maximum iterations (");
        let n = "maximum iterations ("@ + decimal(m.0 as nat) + ")"@;
        assert("Inference loop exceeded maximum iterations ("@ =~= "Inference loop exceeded "@
            + "maximum iterations ("@);
        assert(error_text(e) =~= "Inference loop exceeded "@ + n + none);
        text::law_what_occurs_is_a_part("Inference loop exceeded "@, n, none);
    }
    if let RunError::Runtime(m) = e {
        reveal_strlit("Inference loop exceeded its time limit (");
        reveal_strlit("Inference loop exceeded its ");
        reveal_strlit("time limit (");
        let n = "time limit ("@ + decimal(m.0.secs as nat) + "s)"@;
        assert("Inference loop exceeded its time limit ("@ =~= "Inference loop exceeded its "@
            + "time limit ("@);
        assert(error_text(e) =~= "Inference loop exceeded its "@ + n + none);
        text::law_what_occurs_is_a_part("Inference loop exceeded its "@, n, none);
    }
}

/// What is sent is what was chosen to be, whether it had to be rewritten or not.
pub proof fn law_what_is_sent_is_what_was_chosen(messages: Vec<Message>, i: int)
    requires
        0 <= i < messages@.len(),
    ensures
        Outgoing::Borrowed(&messages).sent().len() == messages@.len(),
        Outgoing::Borrowed(&messages).sent()[i] == messages@[i]@,
        Outgoing::Owned(messages).sent().len() == messages@.len(),
        Outgoing::Owned(messages).sent()[i] == messages@[i]@,
{
}

/// Only a turn that asks for calls and one that ends the run say anything, and each says one
/// thing.
pub proof fn law_a_turn_says_one_thing_or_nothing(
    calls: Seq<ToolCallView>,
    text: Seq<char>,
    reason: CompletionReason,
)
    ensures
        turn_messages(TurnView::Tools(calls)) == seq![calling_message(calls)],
        turn_messages(TurnView::Completed(text, reason)).len() == 1,
        turn_messages(TurnView::Completed(text, reason))[0].role == "assistant"@,
        turn_messages(TurnView::Completed(text, reason))[0].content == Some(JsonView::Text(text)),
        turn_messages(TurnView::Again).len() == 0,
        turn_messages(TurnView::Failed(text)).len() == 0,
        calling_message(calls).role == "assistant"@,
        calling_message(calls).tool_calls == Some(calls),
        calling_message(calls).content is None,
        calling_message(calls).tool_call_id is None,
{
}

} // verus!
