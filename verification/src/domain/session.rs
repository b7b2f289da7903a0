//! A conversation, and the rule that every tool call in it is answered.
use crate::dict::Dict;
use crate::json::{array_view, opt_json, Json, JsonView};
use crate::text;
use crate::text::opt_text;
use vstd::prelude::*;

verus! {

/// The function a tool call names, and its arguments as JSON text.
#[derive(Debug, PartialEq)]
pub struct ToolCallFunction {
    pub name: String,
    pub arguments: String,
}

/// One call a model asked for.
#[derive(Debug, PartialEq)]
pub struct ToolCall {
    pub id: String,
    pub type_: String,
    pub function: ToolCallFunction,
}

/// What a tool call says.
pub struct ToolCallView {
    pub id: Seq<char>,
    pub type_: Seq<char>,
    pub name: Seq<char>,
    pub arguments: Seq<char>,
}

impl View for ToolCall {
    type V = ToolCallView;

    open spec fn view(&self) -> ToolCallView {
        ToolCallView {
            id: self.id@,
            type_: self.type_@,
            name: self.function.name@,
            arguments: self.function.arguments@,
        }
    }
}

impl Clone for ToolCall {
    fn clone(&self) -> (r: ToolCall)
        ensures
            r@ == self@,
    {
        ToolCall {
            id: self.id.clone(),
            type_: self.type_.clone(),
            function: ToolCallFunction {
                name: self.function.name.clone(),
                arguments: self.function.arguments.clone(),
            },
        }
    }
}

/// What several tool calls say.
pub open spec fn calls_view(calls: Seq<ToolCall>) -> Seq<ToolCallView> {
    calls.map_values(|c: ToolCall| c@)
}

/// What an optional list of tool calls says.
pub open spec fn opt_calls(calls: Option<Vec<ToolCall>>) -> Option<Seq<ToolCallView>> {
    match calls {
        Some(c) => Some(calls_view(c@)),
        None => None,
    }
}

/// What an optional list of values stands for.
pub open spec fn opt_array(items: Option<Vec<Json>>) -> Option<Seq<JsonView>> {
    match items {
        Some(v) => Some(array_view(v@)),
        None => None,
    }
}

/// A single message in a conversation.
///
/// `atoma_metadata` is internal: it is kept with the session and never sent to a provider.
/// `provider_items` is the opposite: what a provider said that only it understands, kept to
/// hand back in the order it arrived.
#[derive(Debug, PartialEq)]
pub struct Message {
    pub role: String,
    pub content: Option<Json>,
    pub tool_calls: Option<Vec<ToolCall>>,
    pub tool_call_id: Option<String>,
    pub name: Option<String>,
    pub atoma_metadata: Option<Json>,
    pub provider_items: Option<Vec<Json>>,
}

/// What a message says.
#[verifier::ext_equal]
pub struct MessageView {
    pub role: Seq<char>,
    pub content: Option<JsonView>,
    pub tool_calls: Option<Seq<ToolCallView>>,
    pub tool_call_id: Option<Seq<char>>,
    pub name: Option<Seq<char>>,
    pub atoma_metadata: Option<JsonView>,
    pub provider_items: Option<Seq<JsonView>>,
}

impl View for Message {
    type V = MessageView;

    open spec fn view(&self) -> MessageView {
        MessageView {
            role: self.role@,
            content: opt_json(self.content),
            tool_calls: opt_calls(self.tool_calls),
            tool_call_id: opt_text(self.tool_call_id),
            name: opt_text(self.name),
            atoma_metadata: opt_json(self.atoma_metadata),
            provider_items: opt_array(self.provider_items),
        }
    }
}

/// A message that only says something: no calls, nothing kept for anybody.
pub open spec fn plain_message(role: Seq<char>, content: Option<JsonView>) -> MessageView {
    MessageView {
        role,
        content,
        tool_calls: None,
        tool_call_id: None,
        name: None,
        atoma_metadata: None,
        provider_items: None,
    }
}

/// A tool result: what the call `id` got.
pub open spec fn tool_message(id: Seq<char>, content: JsonView) -> MessageView {
    MessageView { tool_call_id: Some(id), ..plain_message("tool"@, Some(content)) }
}

/// A copy of an optional value.
pub fn clone_json(v: &Option<Json>) -> (r: Option<Json>)
    ensures
        opt_json(r) == opt_json(*v),
{
    match v {
        Some(x) => Some(x.clone()),
        None => None,
    }
}

/// A copy of a list of values.
pub fn clone_array(items: &Vec<Json>) -> (r: Vec<Json>)
    ensures
        array_view(r@) == array_view(items@),
{
    let mut out: Vec<Json> = Vec::new();
    for i in 0..items.len()
        invariant
            out@.len() == i,
            forall|j: int| 0 <= j < i ==> (#[trigger] out@[j])@ == items@[j]@,
    {
        out.push(items[i].clone());
    }
    assert(array_view(out@) =~= array_view(items@));
    out
}

/// A copy of a list of calls.
pub fn clone_calls(calls: &Vec<ToolCall>) -> (r: Vec<ToolCall>)
    ensures
        calls_view(r@) == calls_view(calls@),
{
    let mut out: Vec<ToolCall> = Vec::new();
    for i in 0..calls.len()
        invariant
            out@.len() == i,
            forall|j: int| 0 <= j < i ==> (#[trigger] out@[j])@ == calls@[j]@,
    {
        out.push(calls[i].clone());
    }
    assert(calls_view(out@) =~= calls_view(calls@));
    out
}

impl Clone for Message {
    fn clone(&self) -> (r: Message)
        ensures
            r@ == self@,
    {
        Message {
            role: self.role.clone(),
            content: clone_json(&self.content),
            tool_calls: match &self.tool_calls {
                Some(c) => Some(clone_calls(c)),
                None => None,
            },
            tool_call_id: text::clone_opt(&self.tool_call_id),
            name: text::clone_opt(&self.name),
            atoma_metadata: clone_json(&self.atoma_metadata),
            provider_items: match &self.provider_items {
                Some(v) => Some(clone_array(v)),
                None => None,
            },
        }
    }
}

/// What several messages say.
pub open spec fn messages_view(messages: Seq<Message>) -> Seq<MessageView> {
    messages.map_values(|m: Message| m@)
}

impl Message {
    /// Instructions to the model.
    pub fn system(content: &str) -> (r: Message)
        ensures
            r@ == plain_message("system"@, Some(JsonView::Text(content@))),
    {
        Message {
            role: "system".to_owned(),
            content: Some(Json::text(content)),
            tool_calls: None,
            tool_call_id: None,
            name: None,
            atoma_metadata: None,
            provider_items: None,
        }
    }

    /// What the user said.
    pub fn user(content: &str) -> (r: Message)
        ensures
            r@ == plain_message("user"@, Some(JsonView::Text(content@))),
    {
        Message {
            role: "user".to_owned(),
            content: Some(Json::text(content)),
            tool_calls: None,
            tool_call_id: None,
            name: None,
            atoma_metadata: None,
            provider_items: None,
        }
    }

    /// What the model said, and the calls it asked for.
    pub fn assistant(content: Option<&str>, tool_calls: Option<Vec<ToolCall>>) -> (r: Message)
        ensures
            r@ == (MessageView {
                tool_calls: opt_calls(tool_calls),
                ..plain_message(
                    "assistant"@,
                    match content {
                        Some(c) => Some(JsonView::Text(c@)),
                        None => None,
                    },
                )
            }),
    {
        Message {
            role: "assistant".to_owned(),
            content: match content {
                Some(c) => Some(Json::text(c)),
                None => None,
            },
            tool_calls,
            tool_call_id: None,
            name: None,
            atoma_metadata: None,
            provider_items: None,
        }
    }

    /// A tool result.
    pub fn tool(tool_call_id: &str, content: &str) -> (r: Message)
        ensures
            r@ == tool_message(tool_call_id@, JsonView::Text(content@)),
    {
        Message {
            role: "tool".to_owned(),
            content: Some(Json::text(content)),
            tool_calls: None,
            tool_call_id: Some(tool_call_id.to_owned()),
            name: None,
            atoma_metadata: None,
            provider_items: None,
        }
    }
}

/// A text block, in the shape tool servers use.
pub open spec fn text_block(s: Seq<char>) -> JsonView {
    JsonView::Object(map!["type"@ => JsonView::Text("text"@), "text"@ => JsonView::Text(s)])
}

/// A text block, in the shape tool servers use.
pub fn make_text_block(s: &str) -> (r: Json)
    ensures
        r@ == text_block(s@),
{
    let mut block: Dict<Json> = Dict::new();
    block.put("type", Json::text("text"));
    block.put("text", Json::text(s));
    Json::Object(block)
}

/// Why a tool result without a call cannot be sent.
pub const NO_CALL_TO_ANSWER: &'static str = "a tool result in this session names no tool call, so there is nothing for the provider to match it to. The session is not one this program wrote; start a fresh one rather than resuming it.";

/// A tool call as a provider reads it.
pub open spec fn call_value(c: ToolCallView) -> JsonView {
    JsonView::Object(
        map![
            "id"@ => JsonView::Text(c.id),
            "type"@ => JsonView::Text(c.type_),
            "function"@ => JsonView::Object(
                map![
                    "name"@ => JsonView::Text(c.name),
                    "arguments"@ => JsonView::Text(c.arguments),
                ],
            ),
        ],
    )
}

/// A field added to an object, where there is something to add.
pub open spec fn with_field(
    m: Map<Seq<char>, JsonView>,
    key: Seq<char>,
    v: Option<JsonView>,
) -> Map<Seq<char>, JsonView> {
    match v {
        Some(x) => m.insert(key, x),
        None => m,
    }
}

/// An optional text as an optional value.
pub open spec fn text_value(s: Option<Seq<char>>) -> Option<JsonView> {
    match s {
        Some(x) => Some(JsonView::Text(x)),
        None => None,
    }
}

/// The fields a provider is sent for a message: what the message has, and never the
/// internal metadata.
pub open spec fn llm_fields(m: MessageView) -> Map<Seq<char>, JsonView> {
    let base = map!["role"@ => JsonView::Text(m.role)];
    let base = with_field(base, "content"@, m.content);
    let base = with_field(
        base,
        "tool_calls"@,
        match m.tool_calls {
            Some(calls) => Some(JsonView::Array(calls.map_values(|c: ToolCallView| call_value(c)))),
            None => None,
        },
    );
    let base = with_field(base, "tool_call_id"@, text_value(m.tool_call_id));
    let base = with_field(base, "name"@, text_value(m.name));
    with_field(
        base,
        "provider_items"@,
        match m.provider_items {
            Some(items) => Some(JsonView::Array(items)),
            None => None,
        },
    )
}

fn call_to_json(c: &ToolCall) -> (r: Json)
    ensures
        r@ == call_value(c@),
{
    let mut function: Dict<Json> = Dict::new();
    function.put("name", Json::text(c.function.name.as_str()));
    function.put("arguments", Json::text(c.function.arguments.as_str()));
    let mut out: Dict<Json> = Dict::new();
    out.put("id", Json::text(c.id.as_str()));
    out.put("type", Json::text(c.type_.as_str()));
    out.put("function", Json::Object(function));
    Json::Object(out)
}

impl Message {
    /// A tool result that carries pictures as well as text.
    ///
    /// Stored in the shape tool servers use rather than any provider's, because the session
    /// outlives the choice of provider.
    pub fn tool_blocks(tool_call_id: &str, text: &str, images: &Vec<Json>) -> (r: Message)
        ensures
            r@ == tool_message(
                tool_call_id@,
                JsonView::Array(seq![text_block(text@)] + array_view(images@)),
            ),
    {
        let mut blocks: Vec<Json> = Vec::new();
        blocks.push(make_text_block(text));
        for i in 0..images.len()
            invariant
                blocks@.len() == i + 1,
                blocks@[0]@ == text_block(text@),
                forall|j: int| 0 <= j < i ==> (#[trigger] blocks@[j + 1])@ == images@[j]@,
        {
            blocks.push(images[i].clone());
        }
        proof {
            let want = seq![text_block(text@)] + array_view(images@);
            assert forall|j: int| 0 <= j < want.len() implies array_view(blocks@)[j] == want[j] by {
                if j > 0 {
                    assert(blocks@[(j - 1) + 1]@ == images@[j - 1]@);
                }
            }
            assert(array_view(blocks@) =~= want);
        }
        Message {
            role: "tool".to_owned(),
            content: Some(Json::Array(blocks)),
            tool_calls: None,
            tool_call_id: Some(tool_call_id.to_owned()),
            name: None,
            atoma_metadata: None,
            provider_items: None,
        }
    }

    /// The call this tool result answers.
    ///
    /// An error rather than a placeholder: a tool result without a call did not come from
    /// this program, and no provider ever issued a made-up id.
    pub fn tool_call_id_for_result(&self) -> (r: Result<&str, &'static str>)
        ensures
            match r {
                Ok(id) => self@.tool_call_id == Some(id@),
                Err(e) => self@.tool_call_id is None && e@ == NO_CALL_TO_ANSWER@,
            },
    {
        match &self.tool_call_id {
            Some(id) => Ok(id.as_str()),
            None => Err(NO_CALL_TO_ANSWER),
        }
    }

    /// The message as a provider reads it, without the internal metadata.
    pub fn to_llm_value(&self) -> (r: Json)
        ensures
            r@ == JsonView::Object(llm_fields(self@)),
    {
        let mut out: Dict<Json> = Dict::new();
        out.put("role", Json::text(self.role.as_str()));
        if let Some(c) = &self.content {
            out.put("content", c.clone());
        }
        if let Some(calls) = &self.tool_calls {
            let mut list: Vec<Json> = Vec::new();
            for i in 0..calls.len()
                invariant
                    list@.len() == i,
                    forall|j: int| 0 <= j < i ==> (#[trigger] list@[j])@ == call_value(calls@[j]@),
            {
                list.push(call_to_json(&calls[i]));
            }
            assert(array_view(list@) =~= calls_view(calls@).map_values(
                |c: ToolCallView| call_value(c),
            ));
            out.put("tool_calls", Json::Array(list));
        }
        if let Some(id) = &self.tool_call_id {
            out.put("tool_call_id", Json::text(id.as_str()));
        }
        if let Some(name) = &self.name {
            out.put("name", Json::text(name.as_str()));
        }
        if let Some(items) = &self.provider_items {
            out.put("provider_items", Json::Array(clone_array(items)));
        }
        Json::Object(out)
    }
}

/// Internal metadata never reaches a provider.
pub proof fn law_metadata_is_never_sent(m: MessageView)
    ensures
        !llm_fields(m).contains_key("atoma_metadata"@),
{
    reveal_strlit("atoma_metadata");
    reveal_strlit("role");
    reveal_strlit("content");
    reveal_strlit("tool_calls");
    reveal_strlit("tool_call_id");
    reveal_strlit("name");
    reveal_strlit("provider_items");
    assert("provider_items"@[0] == 'p');
    assert("atoma_metadata"@[0] == 'a');
}

// ── Unanswered calls ──────────────────────────────────────────────────────────

/// What a tool call gets when the run ended before it could be answered.
///
/// Not a guess at what the tool would have returned. It says the run ended, which is true
/// and is what a resumed agent needs to know: the call did not happen, so whatever it was
/// for is still undone.
pub const TOOL_CALL_UNANSWERED: &'static str = "Error: the run ended before this tool call completed.";

/// Where the run of tool results that starts at `i` ends.
pub open spec fn block_end(msgs: Seq<MessageView>, i: int) -> int
    decreases msgs.len() - i,
{
    if 0 <= i < msgs.len() && msgs[i].role == "tool"@ {
        block_end(msgs, i + 1)
    } else {
        i
    }
}

/// Whether a message from `from` up to `to` answers the call `id`.
pub open spec fn answered(msgs: Seq<MessageView>, from: int, to: int, id: Seq<char>) -> bool {
    exists|k: int| from <= k < to && (#[trigger] msgs[k]).tool_call_id == Some(id)
}

/// The results to add for those of `calls` that no message from `from` up to `to` answers.
pub open spec fn missing_results(
    calls: Seq<ToolCallView>,
    msgs: Seq<MessageView>,
    from: int,
    to: int,
    reason: Seq<char>,
) -> Seq<MessageView>
    decreases calls.len(),
{
    if calls.len() == 0 {
        Seq::empty()
    } else {
        let earlier = missing_results(calls.drop_last(), msgs, from, to, reason);
        if answered(msgs, from, to, calls.last().id) {
            earlier
        } else {
            earlier.push(tool_message(calls.last().id, JsonView::Text(reason)))
        }
    }
}

/// The conversation from `i` on, with a result added at the end of a turn's own block for
/// every call of the turn that the block does not answer.
pub open spec fn repaired(msgs: Seq<MessageView>, i: int, reason: Seq<char>) -> Seq<MessageView>
    decreases msgs.len() - i,
{
    if i < 0 || i >= msgs.len() {
        Seq::empty()
    } else {
        match msgs[i].tool_calls {
            None => seq![msgs[i]] + repaired(msgs, i + 1, reason),
            Some(calls) => {
                let end = block_end(msgs, i + 1);
                if i < end <= msgs.len() {
                    msgs.subrange(i, end) + missing_results(calls, msgs, i + 1, end, reason)
                        + repaired(msgs, end, reason)
                } else {
                    Seq::empty()
                }
            },
        }
    }
}

/// Whether every turn from `i` on has all its calls answered in its own block.
pub open spec fn whole(msgs: Seq<MessageView>, i: int) -> bool
    decreases msgs.len() - i,
{
    i < 0 || i >= msgs.len() || match msgs[i].tool_calls {
        None => whole(msgs, i + 1),
        Some(calls) => {
            let end = block_end(msgs, i + 1);
            &&& i < end <= msgs.len()
            &&& forall|k: int|
                0 <= k < calls.len() ==> answered(msgs, i + 1, end, (#[trigger] calls[k]).id)
            &&& whole(msgs, end)
        },
    }
}

/// A conversation, and what is kept beside it.
#[derive(Debug, PartialEq)]
pub struct Session {
    pub messages: Vec<Message>,
    pub metadata: Option<Json>,
    pub extra: Dict<Json>,
}

impl Default for Session {
    fn default() -> (r: Session)
        ensures
            r.messages@.len() == 0,
            r.metadata is None,
            r.extra.fields() == Map::<Seq<char>, JsonView>::empty(),
    {
        Session { messages: Vec::new(), metadata: None, extra: Dict::new() }
    }
}

pub proof fn lemma_block_end(msgs: Seq<MessageView>, i: int)
    requires
        0 <= i <= msgs.len(),
    ensures
        i <= block_end(msgs, i) <= msgs.len(),
        forall|k: int| i <= k < block_end(msgs, i) ==> (#[trigger] msgs[k]).role == "tool"@,
        block_end(msgs, i) < msgs.len() ==> msgs[block_end(msgs, i)].role != "tool"@,
    decreases msgs.len() - i,
{
    if i < msgs.len() && msgs[i].role == "tool"@ {
        lemma_block_end(msgs, i + 1);
    }
}

/// Whether a message from `from` up to `to` answers the call `id`.
fn is_answered(messages: &Vec<Message>, from: usize, to: usize, id: &str) -> (r: bool)
    requires
        from <= to <= messages@.len(),
    ensures
        r == answered(messages_view(messages@), from as int, to as int, id@),
{
    let ghost msgs = messages_view(messages@);
    for k in from..to
        invariant
            to <= messages@.len(),
            msgs == messages_view(messages@),
            forall|j: int| from <= j < k ==> (#[trigger] msgs[j]).tool_call_id != Some(id@),
    {
        assert(msgs[k as int] == messages@[k as int]@);
        if let Some(other) = &messages[k].tool_call_id {
            if text::same(other.as_str(), id) {
                return true;
            }
        }
    }
    false
}

/// Adds a result for each of `calls` that no message from `from` up to `to` answers.
fn add_missing(
    out: &mut Vec<Message>,
    messages: &Vec<Message>,
    calls: &Vec<ToolCall>,
    from: usize,
    to: usize,
    reason: &str,
)
    requires
        from <= to <= messages@.len(),
    ensures
        messages_view(final(out)@) == messages_view(old(out)@) + missing_results(
            calls_view(calls@),
            messages_view(messages@),
            from as int,
            to as int,
            reason@,
        ),
{
    let ghost msgs = messages_view(messages@);
    let ghost all = calls_view(calls@);
    let ghost before = messages_view(out@);
    assert(before + missing_results(all.take(0), msgs, from as int, to as int, reason@) =~= before);
    for c in 0..calls.len()
        invariant
            from <= to <= messages@.len(),
            msgs == messages_view(messages@),
            all == calls_view(calls@),
            messages_view(out@) == before + missing_results(
                all.take(c as int),
                msgs,
                from as int,
                to as int,
                reason@,
            ),
    {
        proof {
            assert(all.take(c + 1).drop_last() =~= all.take(c as int));
            assert(all.take(c + 1).last() == calls@[c as int]@);
        }
        if !is_answered(messages, from, to, calls[c].id.as_str()) {
            let ghost prior = messages_view(out@);
            let m = Message::tool(calls[c].id.as_str(), reason);
            let ghost mv = m@;
            out.push(m);
            assert(messages_view(out@) =~= prior.push(mv));
            assert(messages_view(out@) =~= before + missing_results(
                all.take(c + 1),
                msgs,
                from as int,
                to as int,
                reason@,
            ));
        }
    }
    assert(all.take(all.len() as int) =~= all);
}

/// Give every tool call still waiting for a result one that says why it never got one.
///
/// A `tool` message answers an assistant message's `tool_calls`, and every provider rejects
/// a conversation carrying one without the other. An added result lands at the end of its
/// own call's block, not at the end of the session: a result that follows the next turn
/// answers nothing.
pub fn answer_unanswered_tool_calls(session: &mut Session, reason: &str) -> (added: usize)
    ensures
        messages_view(final(session).messages@) == repaired(
            messages_view(old(session).messages@),
            0,
            reason@,
        ),
        added == final(session).messages@.len() - old(session).messages@.len(),
        added == 0 ==> final(session).messages == old(session).messages,
        final(session).metadata == old(session).metadata,
        final(session).extra == old(session).extra,
{
    let mut out: Vec<Message> = Vec::new();
    let mut i: usize = 0;
    let ghost msgs = messages_view(session.messages@);
    let ghost goal = repaired(msgs, 0, reason@);
    assert(messages_view(out@) + goal =~= goal);
    assert(messages_view(out@) =~= msgs.take(0));
    while i < session.messages.len()
        invariant
            *session == *old(session),
            msgs == messages_view(session.messages@),
            goal == repaired(msgs, 0, reason@),
            i <= session.messages@.len(),
            goal == messages_view(out@) + repaired(msgs, i as int, reason@),
            out@.len() >= i,
            out@.len() == i ==> messages_view(out@) == msgs.take(i as int),
        decreases session.messages@.len() - i,
    {
        let ghost start = i as int;
        let ghost before = messages_view(out@);
        let first: usize = i + 1;
        out.push(session.messages[i].clone());
        assert(messages_view(out@) =~= before.push(msgs[start]));
        i = first;
        match &session.messages[first - 1].tool_calls {
            None => {
                proof {
                    let rest = repaired(msgs, i as int, reason@);
                    assert(before + (seq![msgs[start]] + rest) =~= messages_view(out@) + rest);
                    if out@.len() == i {
                        assert(messages_view(out@) =~= msgs.take(i as int));
                    }
                }
            },
            Some(calls) => {
                proof {
                    lemma_block_end(msgs, start + 1);
                    assert(messages_view(out@) =~= before + msgs.subrange(start, i as int));
                }
                while i < session.messages.len() && text::same(
                    session.messages[i].role.as_str(),
                    "tool",
                )
                    invariant
                        *session == *old(session),
                        msgs == messages_view(session.messages@),
                        0 <= start,
                        first == start + 1,
                        first <= i <= session.messages@.len(),
                        block_end(msgs, start + 1) == block_end(msgs, i as int),
                        messages_view(out@) == before + msgs.subrange(start, i as int),
                    decreases session.messages@.len() - i,
                {
                    let ghost prior = messages_view(out@);
                    out.push(session.messages[i].clone());
                    assert(messages_view(out@) =~= prior.push(msgs[i as int]));
                    assert(msgs.subrange(start, i + 1) =~= msgs.subrange(start, i as int).push(
                        msgs[i as int],
                    ));
                    i += 1;
                }
                let ghost block = messages_view(out@);
                add_missing(&mut out, &session.messages, calls, first, i, reason);
                proof {
                    let miss = missing_results(
                        calls_view(calls@),
                        msgs,
                        start + 1,
                        i as int,
                        reason@,
                    );
                    let rest = repaired(msgs, i as int, reason@);
                    assert(before + (msgs.subrange(start, i as int) + miss + rest)
                        =~= messages_view(out@) + rest);
                    if out@.len() == i {
                        assert(messages_view(out@) =~= msgs.take(i as int));
                    }
                }
            },
        }
    }
    assert(goal =~= messages_view(out@));
    assert(msgs.take(msgs.len() as int) =~= msgs);
    let added: usize = out.len() - session.messages.len();
    if added > 0 {
        session.messages = out;
    }
    added
}

// ── What the repair promises ──────────────────────────────────────────────────

proof fn lemma_shift(a: Seq<MessageView>, b: Seq<MessageView>, k: int)
    requires
        0 <= k <= b.len(),
    ensures
        block_end(a + b, a.len() + k) == a.len() + block_end(b, k),
    decreases b.len() - k,
{
    if k < b.len() {
        assert((a + b)[a.len() + k] == b[k]);
        if b[k].role == "tool"@ {
            lemma_shift(a, b, k + 1);
        }
    }
}

proof fn lemma_shift_answered(
    a: Seq<MessageView>,
    b: Seq<MessageView>,
    from: int,
    to: int,
    id: Seq<char>,
)
    requires
        0 <= from <= to <= b.len(),
    ensures
        answered(a + b, a.len() + from, a.len() + to, id) == answered(b, from, to, id),
{
    if answered(b, from, to, id) {
        let k = choose|k: int| from <= k < to && (#[trigger] b[k]).tool_call_id == Some(id);
        assert((a + b)[a.len() + k] == b[k]);
    }
    if answered(a + b, a.len() + from, a.len() + to, id) {
        let k = choose|k: int|
            a.len() + from <= k < a.len() + to && (#[trigger] (a + b)[k]).tool_call_id == Some(id);
        assert(b[k - a.len()] == (a + b)[k]);
    }
}

proof fn lemma_shift_whole(a: Seq<MessageView>, b: Seq<MessageView>, k: int)
    requires
        0 <= k <= b.len(),
        whole(b, k),
    ensures
        whole(a + b, a.len() + k),
    decreases b.len() - k,
{
    if k < b.len() {
        assert((a + b)[a.len() + k] == b[k]);
        match b[k].tool_calls {
            None => lemma_shift_whole(a, b, k + 1),
            Some(calls) => {
                let end = block_end(b, k + 1);
                lemma_block_end(b, k + 1);
                lemma_shift(a, b, k + 1);
                lemma_shift_whole(a, b, end);
                assert forall|c: int| 0 <= c < calls.len() implies answered(
                    a + b,
                    a.len() + k + 1,
                    a.len() + end,
                    (#[trigger] calls[c]).id,
                ) by {
                    lemma_shift_answered(a, b, k + 1, end, calls[c].id);
                }
            },
        }
    }
}

/// Every call of `calls` is answered by the messages it was looked for in or by those added.
proof fn lemma_missing(
    calls: Seq<ToolCallView>,
    msgs: Seq<MessageView>,
    from: int,
    to: int,
    reason: Seq<char>,
)
    ensures
        ({
            let miss = missing_results(calls, msgs, from, to, reason);
            &&& forall|k: int| 0 <= k < miss.len() ==> (#[trigger] miss[k]).role == "tool"@
            &&& forall|c: int|
                0 <= c < calls.len() ==> answered(msgs, from, to, (#[trigger] calls[c]).id)
                    || answered(miss, 0, miss.len() as int, calls[c].id)
            &&& (forall|c: int|
                0 <= c < calls.len() ==> answered(msgs, from, to, (#[trigger] calls[c]).id))
                ==> miss.len() == 0
        }),
    decreases calls.len(),
{
    if calls.len() > 0 {
        let most = calls.drop_last();
        let id = calls.last().id;
        lemma_missing(most, msgs, from, to, reason);
        let earlier = missing_results(most, msgs, from, to, reason);
        let miss = missing_results(calls, msgs, from, to, reason);
        assert forall|c: int| 0 <= c < calls.len() implies answered(
            msgs,
            from,
            to,
            (#[trigger] calls[c]).id,
        ) || answered(miss, 0, miss.len() as int, calls[c].id) by {
            if c < most.len() {
                assert(most[c] == calls[c]);
                if answered(earlier, 0, earlier.len() as int, calls[c].id) {
                    let k = choose|k: int|
                        0 <= k < earlier.len() && (#[trigger] earlier[k]).tool_call_id == Some(
                            calls[c].id,
                        );
                    assert(miss[k] == earlier[k]);
                }
            } else if !answered(msgs, from, to, id) {
                assert(miss[miss.len() - 1].tool_call_id == Some(id));
            }
        }
        if forall|c: int|
            0 <= c < calls.len() ==> answered(msgs, from, to, (#[trigger] calls[c]).id) {
            assert forall|c: int| 0 <= c < most.len() implies answered(
                msgs,
                from,
                to,
                (#[trigger] most[c]).id,
            ) by {
                assert(most[c] == calls[c]);
            }
            assert(answered(msgs, from, to, calls[calls.len() - 1].id));
        }
    }
}

/// The run of tool messages at the front of `tools + rest` is `tools`.
proof fn lemma_block_end_of(tools: Seq<MessageView>, rest: Seq<MessageView>, k: int)
    requires
        0 <= k <= tools.len(),
        forall|j: int| k <= j < tools.len() ==> (#[trigger] tools[j]).role == "tool"@,
        rest.len() > 0 ==> rest[0].role != "tool"@,
    ensures
        block_end(tools + rest, k) == tools.len(),
    decreases tools.len() - k,
{
    let all = tools + rest;
    if k < tools.len() {
        assert(all[k] == tools[k]);
        lemma_block_end_of(tools, rest, k + 1);
    } else if rest.len() > 0 {
        assert(all[k] == rest[0]);
    }
}

proof fn lemma_repaired_whole(msgs: Seq<MessageView>, i: int, reason: Seq<char>)
    requires
        0 <= i <= msgs.len(),
    ensures
        whole(repaired(msgs, i, reason), 0),
        i < msgs.len() ==> repaired(msgs, i, reason).len() > 0 && repaired(msgs, i, reason)[0]
            == msgs[i],
        i == msgs.len() ==> repaired(msgs, i, reason).len() == 0,
    decreases msgs.len() - i,
{
    if i < msgs.len() {
        let out = repaired(msgs, i, reason);
        match msgs[i].tool_calls {
            None => {
                let rest = repaired(msgs, i + 1, reason);
                lemma_repaired_whole(msgs, i + 1, reason);
                lemma_shift_whole(seq![msgs[i]], rest, 0);
                assert(out[0] == msgs[i]);
                assert(whole(out, 1));
            },
            Some(calls) => {
                lemma_block_end(msgs, i + 1);
                let end = block_end(msgs, i + 1);
                let miss = missing_results(calls, msgs, i + 1, end, reason);
                let rest = repaired(msgs, end, reason);
                lemma_repaired_whole(msgs, end, reason);
                lemma_missing(calls, msgs, i + 1, end, reason);
                let block = msgs.subrange(i, end) + miss;
                assert(out =~= block + rest);
                assert(out[0] == msgs[i]);
                assert forall|j: int| 1 <= j < block.len() implies (#[trigger] block[j]).role
                    == "tool"@ by {
                    if j < end - i {
                        assert(block[j] == msgs[i + j]);
                    } else {
                        assert(block[j] == miss[j - (end - i)]);
                    }
                }
                lemma_block_end_of(block, rest, 1);
                assert(block_end(out, 1) == block.len());
                assert forall|c: int| 0 <= c < calls.len() implies answered(
                    out,
                    1,
                    block.len() as int,
                    (#[trigger] calls[c]).id,
                ) by {
                    let id = calls[c].id;
                    if answered(msgs, i + 1, end, id) {
                        let k = choose|k: int|
                            i + 1 <= k < end && (#[trigger] msgs[k]).tool_call_id == Some(id);
                        assert(out[k - i] == msgs[k]);
                    } else {
                        let k = choose|k: int|
                            0 <= k < miss.len() && (#[trigger] miss[k]).tool_call_id == Some(id);
                        assert(out[end - i + k] == miss[k]);
                    }
                }
                lemma_shift_whole(block, rest, 0);
                assert(whole(out, block.len() as int));
            },
        }
    }
}

proof fn lemma_whole_untouched(msgs: Seq<MessageView>, i: int, reason: Seq<char>)
    requires
        0 <= i <= msgs.len(),
        whole(msgs, i),
    ensures
        repaired(msgs, i, reason) == msgs.skip(i),
    decreases msgs.len() - i,
{
    if i < msgs.len() {
        match msgs[i].tool_calls {
            None => {
                lemma_whole_untouched(msgs, i + 1, reason);
                assert(seq![msgs[i]] + msgs.skip(i + 1) =~= msgs.skip(i));
            },
            Some(calls) => {
                let end = block_end(msgs, i + 1);
                lemma_block_end(msgs, i + 1);
                lemma_whole_untouched(msgs, end, reason);
                lemma_missing(calls, msgs, i + 1, end, reason);
                let miss = missing_results(calls, msgs, i + 1, end, reason);
                assert(miss =~= Seq::empty());
                assert(msgs.subrange(i, end) + miss + msgs.skip(end) =~= msgs.skip(i));
            },
        }
    }
}

/// A repaired conversation can be resumed: every turn in it has all its calls answered in
/// its own block, whatever the conversation was before.
pub proof fn law_repaired_conversation_is_whole(msgs: Seq<MessageView>, reason: Seq<char>)
    ensures
        whole(repaired(msgs, 0, reason), 0),
{
    lemma_repaired_whole(msgs, 0, reason);
}

/// A conversation that is whole is left exactly as it was.
pub proof fn law_whole_conversation_is_left_alone(msgs: Seq<MessageView>, reason: Seq<char>)
    requires
        whole(msgs, 0),
    ensures
        repaired(msgs, 0, reason) == msgs,
{
    lemma_whole_untouched(msgs, 0, reason);
    assert(msgs.skip(0) =~= msgs);
}

/// Repairing twice, for whatever two reasons, changes nothing the second time.
pub proof fn law_repair_is_idempotent(
    msgs: Seq<MessageView>,
    reason: Seq<char>,
    later_reason: Seq<char>,
)
    ensures
        repaired(repaired(msgs, 0, reason), 0, later_reason) == repaired(msgs, 0, reason),
{
    law_repaired_conversation_is_whole(msgs, reason);
    law_whole_conversation_is_left_alone(repaired(msgs, 0, reason), later_reason);
}

/// Whether `a` is `b` with some messages left out.
pub open spec fn is_within(a: Seq<MessageView>, b: Seq<MessageView>) -> bool
    decreases b.len(),
{
    ||| a.len() == 0
    ||| b.len() > 0 && a[0] == b[0] && is_within(a.drop_first(), b.drop_first())
    ||| b.len() > 0 && is_within(a, b.drop_first())
}

proof fn lemma_within_prefix(front: Seq<MessageView>, a: Seq<MessageView>, b: Seq<MessageView>)
    requires
        is_within(a, b),
    ensures
        is_within(front + a, front + b),
    decreases front.len(),
{
    if front.len() == 0 {
        assert(front + a =~= a);
        assert(front + b =~= b);
    } else {
        lemma_within_prefix(front.drop_first(), a, b);
        assert((front + a).drop_first() =~= front.drop_first() + a);
        assert((front + b).drop_first() =~= front.drop_first() + b);
    }
}

proof fn lemma_within_extra(extra: Seq<MessageView>, a: Seq<MessageView>, b: Seq<MessageView>)
    requires
        is_within(a, b),
    ensures
        is_within(a, extra + b),
    decreases extra.len(),
{
    if extra.len() == 0 {
        assert(extra + b =~= b);
    } else {
        lemma_within_extra(extra.drop_first(), a, b);
        assert((extra + b).drop_first() =~= extra.drop_first() + b);
    }
}

proof fn lemma_repair_keeps(msgs: Seq<MessageView>, i: int, reason: Seq<char>)
    requires
        0 <= i <= msgs.len(),
    ensures
        is_within(msgs.skip(i), repaired(msgs, i, reason)),
    decreases msgs.len() - i,
{
    if i < msgs.len() {
        match msgs[i].tool_calls {
            None => {
                lemma_repair_keeps(msgs, i + 1, reason);
                lemma_within_prefix(
                    seq![msgs[i]],
                    msgs.skip(i + 1),
                    repaired(msgs, i + 1, reason),
                );
                assert(seq![msgs[i]] + msgs.skip(i + 1) =~= msgs.skip(i));
            },
            Some(calls) => {
                let end = block_end(msgs, i + 1);
                lemma_block_end(msgs, i + 1);
                let miss = missing_results(calls, msgs, i + 1, end, reason);
                let rest = repaired(msgs, end, reason);
                lemma_repair_keeps(msgs, end, reason);
                lemma_within_extra(miss, msgs.skip(end), rest);
                lemma_within_prefix(msgs.subrange(i, end), msgs.skip(end), miss + rest);
                assert(msgs.subrange(i, end) + msgs.skip(end) =~= msgs.skip(i));
                assert(msgs.subrange(i, end) + (miss + rest) =~= msgs.subrange(i, end) + miss
                    + rest);
            },
        }
    }
}

/// Nothing that was said is lost, changed or moved: the conversation is the repaired one
/// with the added results left out.
pub proof fn law_repair_keeps_every_message_in_order(msgs: Seq<MessageView>, reason: Seq<char>)
    ensures
        is_within(msgs, repaired(msgs, 0, reason)),
{
    lemma_repair_keeps(msgs, 0, reason);
    assert(msgs.skip(0) =~= msgs);
}

/// Whether the call `id` made at `i` is answered before anything but tool results follows.
pub open spec fn answered_in_place(msgs: Seq<MessageView>, i: int, id: Seq<char>) -> bool {
    exists|j: int|
        i < j < msgs.len() && (#[trigger] msgs[j]).tool_call_id == Some(id) && forall|k: int|
            i < k <= j ==> (#[trigger] msgs[k]).role == "tool"@
}

proof fn lemma_whole_answers(msgs: Seq<MessageView>, from: int, i: int, c: int)
    requires
        0 <= from <= i < msgs.len(),
        whole(msgs, from),
        msgs[i].tool_calls is Some,
        0 <= c < msgs[i].tool_calls->0.len(),
        results_call_nothing(msgs),
    ensures
        answered_in_place(msgs, i, msgs[i].tool_calls->0[c].id),
    decreases msgs.len() - from,
{
    match msgs[from].tool_calls {
        None => lemma_whole_answers(msgs, from + 1, i, c),
        Some(calls) => {
            lemma_block_end(msgs, from + 1);
            let end = block_end(msgs, from + 1);
            if i == from {
                assert(answered(msgs, i + 1, end, calls[c].id));
                let j = choose|j: int|
                    i + 1 <= j < end && (#[trigger] msgs[j]).tool_call_id == Some(calls[c].id);
                assert(answered_in_place(msgs, i, calls[c].id));
            } else {
                assert(end <= i);
                lemma_whole_answers(msgs, end, i, c);
            }
        },
    }
}

/// In a whole conversation whose tool results make no calls of their own, every call is
/// answered before anything but tool results follows it.
pub proof fn law_every_call_is_answered_in_place(msgs: Seq<MessageView>, i: int, c: int)
    requires
        whole(msgs, 0),
        0 <= i < msgs.len(),
        msgs[i].tool_calls is Some,
        0 <= c < msgs[i].tool_calls->0.len(),
        results_call_nothing(msgs),
    ensures
        answered_in_place(msgs, i, msgs[i].tool_calls->0[c].id),
{
    lemma_whole_answers(msgs, 0, i, c);
}

proof fn lemma_block_end_prefix(a: Seq<MessageView>, b: Seq<MessageView>, k: int)
    requires
        0 <= k <= a.len(),
        b.len() > 0 ==> b[0].role != "tool"@,
    ensures
        block_end(a + b, k) == block_end(a, k),
    decreases a.len() - k,
{
    if k < a.len() {
        assert((a + b)[k] == a[k]);
        if a[k].role == "tool"@ {
            lemma_block_end_prefix(a, b, k + 1);
        }
    } else if b.len() > 0 {
        assert((a + b)[k] == b[0]);
    }
}

proof fn lemma_whole_join(a: Seq<MessageView>, b: Seq<MessageView>, i: int)
    requires
        0 <= i <= a.len(),
        whole(a, i),
        whole(b, 0),
        b.len() > 0 ==> b[0].role != "tool"@,
    ensures
        whole(a + b, i),
    decreases a.len() - i,
{
    let ab = a + b;
    if i == a.len() {
        lemma_shift_whole(a, b, 0);
    } else {
        assert(ab[i] == a[i]);
        match a[i].tool_calls {
            None => lemma_whole_join(a, b, i + 1),
            Some(calls) => {
                let end = block_end(a, i + 1);
                lemma_block_end(a, i + 1);
                lemma_block_end_prefix(a, b, i + 1);
                lemma_whole_join(a, b, end);
                assert forall|c: int| 0 <= c < calls.len() implies answered(
                    ab,
                    i + 1,
                    end,
                    (#[trigger] calls[c]).id,
                ) by {
                    assert(answered(a, i + 1, end, calls[c].id));
                    let k = choose|k: int|
                        i + 1 <= k < end && (#[trigger] a[k]).tool_call_id == Some(calls[c].id);
                    assert(ab[k] == a[k]);
                }
            },
        }
    }
}

/// A whole conversation continued by a whole one that does not open with a tool result is
/// whole.
pub proof fn law_whole_conversations_join(a: Seq<MessageView>, b: Seq<MessageView>)
    requires
        whole(a, 0),
        whole(b, 0),
        b.len() > 0 ==> b[0].role != "tool"@,
    ensures
        whole(a + b, 0),
{
    lemma_whole_join(a, b, 0);
}

/// A turn followed by one result for each of its calls is whole.
pub proof fn law_an_answered_turn_is_whole(
    turn: MessageView,
    calls: Seq<ToolCallView>,
    results: Seq<MessageView>,
)
    requires
        turn.tool_calls == Some(calls),
        results.len() == calls.len(),
        forall|k: int|
            0 <= k < calls.len() ==> (#[trigger] results[k]).role == "tool"@
                && results[k].tool_call_id == Some(calls[k].id),
    ensures
        whole(seq![turn] + results, 0),
{
    let all = seq![turn] + results;
    assert(all + Seq::<MessageView>::empty() =~= all);
    assert forall|j: int| 1 <= j < all.len() implies (#[trigger] all[j]).role == "tool"@ by {
        assert(all[j] == results[j - 1]);
    }
    lemma_block_end_of(all, Seq::empty(), 1);
    assert forall|c: int| 0 <= c < calls.len() implies answered(
        all,
        1,
        all.len() as int,
        (#[trigger] calls[c]).id,
    ) by {
        assert(all[c + 1] == results[c]);
    }
    assert(whole(all, all.len() as int));
}

/// Whether tool results make no calls of their own.
pub open spec fn results_call_nothing(msgs: Seq<MessageView>) -> bool {
    forall|k: int|
        0 <= k < msgs.len() && (#[trigger] msgs[k]).role == "tool"@ ==> msgs[k].tool_calls is None
}

/// A message that calls nothing may stand before a whole conversation.
pub proof fn lemma_whole_after(m: MessageView, rest: Seq<MessageView>)
    requires
        m.tool_calls is None,
        whole(rest, 0),
    ensures
        whole(seq![m] + rest, 0),
{
    lemma_shift_whole(seq![m], rest, 0);
    assert((seq![m] + rest)[0] == m);
}

proof fn lemma_whole_past_results(msgs: Seq<MessageView>, i: int)
    requires
        0 <= i <= msgs.len(),
        whole(msgs, i),
        results_call_nothing(msgs),
    ensures
        whole(msgs, block_end(msgs, i)),
    decreases msgs.len() - i,
{
    if i < msgs.len() && msgs[i].role == "tool"@ {
        lemma_whole_past_results(msgs, i + 1);
    }
}

proof fn lemma_block_end_at_least(msgs: Seq<MessageView>, i: int, k: int)
    requires
        0 <= i <= k <= msgs.len(),
        forall|j: int| i <= j < k ==> (#[trigger] msgs[j]).role == "tool"@,
    ensures
        block_end(msgs, i) == block_end(msgs, k),
        block_end(msgs, k) >= k,
    decreases k - i,
{
    lemma_block_end(msgs, k);
    if i < k {
        lemma_block_end_at_least(msgs, i + 1, k);
    }
}

/// An answered turn may stand before a whole conversation, even one that opens with results.
pub proof fn lemma_whole_after_turn(block: Seq<MessageView>, rest: Seq<MessageView>)
    requires
        block.len() > 0,
        block[0].tool_calls is Some,
        forall|j: int| 1 <= j < block.len() ==> (#[trigger] block[j]).role == "tool"@,
        forall|c: int|
            0 <= c < block[0].tool_calls->0.len() ==> answered(
                block,
                1,
                block.len() as int,
                (#[trigger] block[0].tool_calls->0[c]).id,
            ),
        whole(rest, 0),
        results_call_nothing(rest),
    ensures
        whole(block + rest, 0),
{
    let all = block + rest;
    let n = block.len() as int;
    let calls = block[0].tool_calls->0;
    assert(all[0] == block[0]);
    assert forall|j: int| 1 <= j < n implies (#[trigger] all[j]).role == "tool"@ by {
        assert(all[j] == block[j]);
    }
    lemma_block_end_at_least(all, 1, n);
    lemma_shift(block, rest, 0);
    lemma_whole_past_results(rest, 0);
    lemma_block_end(rest, 0);
    let k = block_end(rest, 0);
    lemma_shift_whole(block, rest, k);
    lemma_block_end(all, 1);
    assert(block_end(all, 1) == n + k);
    assert forall|c: int| 0 <= c < calls.len() implies answered(
        all,
        1,
        n + k,
        (#[trigger] calls[c]).id,
    ) by {
        assert(answered(block, 1, n, calls[c].id));
        let j = choose|j: int|
            1 <= j < n && (#[trigger] block[j]).tool_call_id == Some(calls[c].id);
        assert(all[j] == block[j]);
    }
}

// ── What a provider is sent ───────────────────────────────────────────────────

proof fn lemma_message_keys_differ()
    ensures
        "role"@ != "content"@ && "role"@ != "tool_calls"@ && "role"@ != "tool_call_id"@ && "role"@
            != "name"@ && "role"@ != "provider_items"@,
        "content"@ != "tool_calls"@ && "content"@ != "tool_call_id"@ && "content"@ != "name"@
            && "content"@ != "provider_items"@,
        "tool_calls"@ != "tool_call_id"@ && "tool_calls"@ != "name"@ && "tool_calls"@
            != "provider_items"@,
        "tool_call_id"@ != "name"@ && "tool_call_id"@ != "provider_items"@ && "name"@
            != "provider_items"@,
{
    reveal_strlit("role");
    reveal_strlit("content");
    reveal_strlit("tool_calls");
    reveal_strlit("tool_call_id");
    reveal_strlit("name");
    reveal_strlit("provider_items");
    assert("role"@[0] != "name"@[0]);
    assert("role"@.len() == 4 && "content"@.len() == 7 && "tool_calls"@.len() == 10
        && "tool_call_id"@.len() == 12 && "name"@.len() == 4 && "provider_items"@.len() == 14);
}

/// A provider is sent everything a message says, and says nothing that the message does not:
/// who says it, what it says, the calls it asks for and the one it answers.
pub proof fn law_a_message_is_sent_with_what_it_says(m: MessageView)
    ensures
        ({
            let sent = JsonView::Object(llm_fields(m));
            &&& sent.field_text("role"@) == Some(m.role)
            &&& sent.field("content"@) == m.content
            &&& m.tool_call_id is Some ==> sent.field_text("tool_call_id"@) == m.tool_call_id
            &&& m.tool_call_id is None ==> sent.field("tool_call_id"@) is None
            &&& m.name is Some ==> sent.field_text("name"@) == m.name
            &&& m.name is None ==> sent.field("name"@) is None
            &&& sent.field_items("provider_items"@) == m.provider_items
            &&& m.tool_calls is None ==> sent.field("tool_calls"@) is None
            &&& m.tool_calls is Some ==> sent.field_items("tool_calls"@) is Some
                && sent.field_items("tool_calls"@)->0.len() == m.tool_calls->0.len() && forall|
                i: int,
            |
                0 <= i < m.tool_calls->0.len() ==> sent.field_items("tool_calls"@)->0[i]
                    == call_value(#[trigger] m.tool_calls->0[i])
        }),
{
    lemma_message_keys_differ();
}

/// A call is sent with its id, its name and its arguments, each where a provider looks for it.
pub proof fn law_a_call_is_sent_with_what_it_says(c: ToolCallView)
    ensures
        ({
            let sent = call_value(c);
            let function = sent.field("function"@);
            &&& sent.field_text("id"@) == Some(c.id)
            &&& sent.field_text("type"@) == Some(c.type_)
            &&& function is Some
            &&& function->0.field_text("name"@) == Some(c.name)
            &&& function->0.field_text("arguments"@) == Some(c.arguments)
        }),
{
    reveal_strlit("id");
    reveal_strlit("type");
    reveal_strlit("function");
    reveal_strlit("name");
    reveal_strlit("arguments");
    assert("id"@.len() == 2 && "type"@.len() == 4 && "function"@.len() == 8 && "name"@.len() == 4
        && "arguments"@.len() == 9);
}

/// A text block says its text and that it is one.
pub proof fn law_a_text_block_holds_its_text(s: Seq<char>)
    ensures
        text_block(s).field_text("type"@) == Some("text"@),
        text_block(s).field_text("text"@) == Some(s),
{
    reveal_strlit("text");
    reveal_strlit("type");
    assert("text"@[1] != "type"@[1]);
}

/// Whether a message is the result that a call without one is given.
pub open spec fn is_added_result(m: MessageView, reason: Seq<char>) -> bool {
    m.role == "tool"@ && m.content == Some(JsonView::Text(reason)) && m.tool_call_id is Some
        && m.tool_calls is None
}

proof fn lemma_missing_are_added(
    calls: Seq<ToolCallView>,
    msgs: Seq<MessageView>,
    from: int,
    to: int,
    reason: Seq<char>,
)
    ensures
        forall|k: int|
            0 <= k < missing_results(calls, msgs, from, to, reason).len() ==> is_added_result(
                #[trigger] missing_results(calls, msgs, from, to, reason)[k],
                reason,
            ),
    decreases calls.len(),
{
    if calls.len() > 0 {
        lemma_missing_are_added(calls.drop_last(), msgs, from, to, reason);
        let before = missing_results(calls.drop_last(), msgs, from, to, reason);
        let all = missing_results(calls, msgs, from, to, reason);
        assert forall|k: int| 0 <= k < all.len() implies is_added_result(
            #[trigger] all[k],
            reason,
        ) by {
            if k < before.len() {
                assert(all[k] == before[k]);
            } else {
                assert(all[k] == tool_message(calls.last().id, JsonView::Text(reason)));
            }
        }
    }
}

proof fn lemma_only_results_are_added(msgs: Seq<MessageView>, i: int, reason: Seq<char>)
    requires
        0 <= i <= msgs.len(),
    ensures
        forall|k: int|
            0 <= k < repaired(msgs, i, reason).len() ==> msgs.contains(
                #[trigger] repaired(msgs, i, reason)[k],
            ) || is_added_result(repaired(msgs, i, reason)[k], reason),
    decreases msgs.len() - i,
{
    if i < msgs.len() {
        let all = repaired(msgs, i, reason);
        match msgs[i].tool_calls {
            None => {
                lemma_only_results_are_added(msgs, i + 1, reason);
                let rest = repaired(msgs, i + 1, reason);
                assert forall|k: int| 0 <= k < all.len() implies msgs.contains(#[trigger] all[k])
                    || is_added_result(all[k], reason) by {
                    if k == 0 {
                        assert(all[0] == msgs[i]);
                    } else {
                        assert(all[k] == rest[k - 1]);
                    }
                }
            },
            Some(calls) => {
                let end = block_end(msgs, i + 1);
                lemma_block_end(msgs, i + 1);
                lemma_only_results_are_added(msgs, end, reason);
                lemma_missing_are_added(calls, msgs, i + 1, end, reason);
                let own = msgs.subrange(i, end);
                let miss = missing_results(calls, msgs, i + 1, end, reason);
                let rest = repaired(msgs, end, reason);
                assert forall|k: int| 0 <= k < all.len() implies msgs.contains(#[trigger] all[k])
                    || is_added_result(all[k], reason) by {
                    if k < own.len() {
                        assert(all[k] == msgs[i + k]);
                    } else if k < own.len() + miss.len() {
                        assert(all[k] == miss[k - own.len()]);
                    } else {
                        assert(all[k] == rest[k - own.len() - miss.len()]);
                    }
                }
            },
        }
    }
}

/// Nothing is added to a conversation but results, and each says why there is no other.
pub proof fn law_only_results_that_say_why_are_added(
    msgs: Seq<MessageView>,
    reason: Seq<char>,
    k: int,
)
    requires
        0 <= k < repaired(msgs, 0, reason).len(),
    ensures
        msgs.contains(repaired(msgs, 0, reason)[k]) || is_added_result(
            repaired(msgs, 0, reason)[k],
            reason,
        ),
{
    lemma_only_results_are_added(msgs, 0, reason);
}

/// A message says what it was made with and nothing else.
pub proof fn law_a_message_says_what_it_was_made_with(
    role: Seq<char>,
    content: Option<JsonView>,
    id: Seq<char>,
    result: JsonView,
)
    ensures
        plain_message(role, content).role == role,
        plain_message(role, content).content == content,
        plain_message(role, content).tool_calls is None,
        plain_message(role, content).tool_call_id is None,
        plain_message(role, content).name is None,
        plain_message(role, content).atoma_metadata is None,
        plain_message(role, content).provider_items is None,
        tool_message(id, result).role == "tool"@,
        tool_message(id, result).content == Some(result),
        tool_message(id, result).tool_call_id == Some(id),
        tool_message(id, result).tool_calls is None,
{
}

} // verus!
