//! The Messages dialect: how a conversation is said in it, and how its answers are read.
use crate::dict::Dict;
use crate::domain::session::{
    calls_view, clone_array, make_text_block, messages_view, plain_message, text_block,
    Message, MessageView, ToolCall, ToolCallFunction, ToolCallView, NO_CALL_TO_ANSWER,
};
use crate::infra::llm::shared::{
    is_reserved, reserved, tool_function, ChatChoice, ChatResponse, PromptTokensDetails, Usage,
};
use crate::json;
use crate::json::{array_view, json_text, object_view, parsed_json, Json, JsonView, Num};
use crate::text;
use crate::text::{join, opt_text, texts};
use vstd::prelude::*;

verus! {

/// The version of the dialect.
pub const ANTHROPIC_API_VERSION: &'static str = "2023-06-01";

/// How much an answer may hold, where an agent does not say.
pub const ANTHROPIC_DEFAULT_MAX_TOKENS: u64 = 8192;

// ── Saying ────────────────────────────────────────────────────────────────────

/// A block of a tool server as this dialect has it: an image is moved into a source, where it
/// is of the shape that can be.
pub open spec fn anthropic_block(block: JsonView) -> JsonView {
    if block.field_text("type"@) != Some("image"@) {
        block
    } else {
        match (block.field_text("data"@), block.field_text("mimeType"@)) {
            (Some(data), Some(mime)) => JsonView::Object(
                map![
                    "type"@ => JsonView::Text("image"@),
                    "source"@ => JsonView::Object(
                        map![
                            "type"@ => JsonView::Text("base64"@),
                            "media_type"@ => JsonView::Text(mime),
                            "data"@ => JsonView::Text(data),
                        ],
                    ),
                ],
            ),
            _ => block,
        }
    }
}

/// A content as this dialect has it.
pub open spec fn anthropic_content(content: JsonView) -> JsonView {
    match content {
        JsonView::Array(blocks) => JsonView::Array(
            blocks.map_values(|b: JsonView| anthropic_block(b)),
        ),
        _ => content,
    }
}

fn block_to_anthropic(block: &Json) -> (r: Json)
    ensures
        r@ == anthropic_block(block@),
{
    let is_image = match block.get_str("type") {
        Some(kind) => text::same(kind, "image"),
        None => false,
    };
    if !is_image {
        return block.clone();
    }
    match (block.get_str("data"), block.get_str("mimeType")) {
        (Some(data), Some(mime)) => {
            let mut source: Dict<Json> = Dict::new();
            source.put("type", Json::text("base64"));
            source.put("media_type", Json::text(mime));
            source.put("data", Json::text(data));
            let mut out: Dict<Json> = Dict::new();
            out.put("type", Json::text("image"));
            out.put("source", Json::Object(source));
            Json::Object(out)
        },
        _ => block.clone(),
    }
}

/// Rewrite image blocks into this dialect's shape, leaving everything else be.
pub fn mcp_blocks_to_anthropic(content: Json) -> (r: Json)
    ensures
        r@ == anthropic_content(content@),
{
    match content {
        Json::Array(blocks) => {
            let mut out: Vec<Json> = Vec::new();
            for i in 0..blocks.len()
                invariant
                    out@.len() == i,
                    forall|j: int|
                        0 <= j < i ==> (#[trigger] out@[j])@ == anthropic_block(blocks@[j]@),
            {
                out.push(block_to_anthropic(&blocks[i]));
            }
            assert(array_view(out@) =~= array_view(blocks@).map_values(
                |b: JsonView| anthropic_block(b),
            ));
            Json::Array(out)
        },
        other => other,
    }
}

/// What a message says, or nothing where it says nothing.
pub open spec fn content_or_empty(m: MessageView) -> JsonView {
    match m.content {
        Some(c) => c,
        None => JsonView::Text(Seq::empty()),
    }
}

/// A call as this dialect has it. Arguments that are not JSON become none.
pub open spec fn tool_use_block(c: ToolCallView) -> JsonView {
    JsonView::Object(
        map![
            "type"@ => JsonView::Text("tool_use"@),
            "id"@ => JsonView::Text(c.id),
            "name"@ => JsonView::Text(c.name),
            "input"@ => match parsed_json(c.arguments) {
                Ok(v) => v,
                Err(_) => JsonView::Object(Map::empty()),
            },
        ],
    )
}

/// The blocks of an assistant's turn.
pub open spec fn assistant_blocks(m: MessageView) -> Seq<JsonView> {
    let said = match m.content {
        Some(JsonView::Text(s)) if s.len() > 0 => seq![text_block(s)],
        _ => Seq::empty(),
    };
    match m.tool_calls {
        Some(calls) => said + calls.map_values(|c: ToolCallView| tool_use_block(c)),
        None => said,
    }
}

/// A message of the conversation: who says it, and what.
pub open spec fn said_by(role: Seq<char>, content: JsonView) -> JsonView {
    JsonView::Object(map!["role"@ => JsonView::Text(role), "content"@ => content])
}

/// A tool result as this dialect has it.
pub open spec fn tool_result_block(id: Seq<char>, content: JsonView) -> JsonView {
    JsonView::Object(
        map![
            "type"@ => JsonView::Text("tool_result"@),
            "tool_use_id"@ => JsonView::Text(id),
            "content"@ => content,
        ],
    )
}

/// What a message becomes in this dialect: at most one.
pub open spec fn anthropic_message(m: MessageView) -> Seq<JsonView> {
    if m.role == "user"@ {
        seq![said_by("user"@, anthropic_content(content_or_empty(m)))]
    } else if m.role == "assistant"@ {
        if assistant_blocks(m).len() > 0 {
            seq![said_by("assistant"@, JsonView::Array(assistant_blocks(m)))]
        } else {
            Seq::empty()
        }
    } else if m.role == "tool"@ && m.tool_call_id is Some {
        seq![
            said_by(
                "user"@,
                JsonView::Array(
                    seq![tool_result_block(m.tool_call_id->0, anthropic_content(content_or_empty(m)))],
                ),
            ),
        ]
    } else {
        Seq::empty()
    }
}

/// A conversation as this dialect has it, without what the system says.
pub open spec fn anthropic_messages(messages: Seq<MessageView>) -> Seq<JsonView>
    decreases messages.len(),
{
    if messages.len() == 0 {
        Seq::empty()
    } else {
        anthropic_messages(messages.drop_last()) + anthropic_message(messages.last())
    }
}

/// What the system says: the last of its messages that is text.
pub open spec fn anthropic_system(messages: Seq<MessageView>) -> Option<Seq<char>>
    decreases messages.len(),
{
    if messages.len() == 0 {
        None
    } else if messages.last().role == "system"@ && messages.last().content is Some
        && messages.last().content->0 is Text {
        Some(messages.last().content->0->Text_0)
    } else {
        anthropic_system(messages.drop_last())
    }
}

/// Whether every tool result names the call it answers.
pub open spec fn names_its_calls(messages: Seq<MessageView>) -> bool {
    forall|i: int|
        0 <= i < messages.len() && (#[trigger] messages[i]).role == "tool"@
            ==> messages[i].tool_call_id is Some
}

fn said(role: &str, content: Json) -> (r: Json)
    ensures
        r@ == said_by(role@, content@),
{
    let mut out: Dict<Json> = Dict::new();
    out.put("role", Json::text(role));
    out.put("content", content);
    Json::Object(out)
}

fn blocks_of_assistant(m: &Message) -> (r: Vec<Json>)
    ensures
        array_view(r@) == assistant_blocks(m@),
{
    let mut blocks: Vec<Json> = Vec::new();
    if let Some(Json::Text(s)) = &m.content {
        if !text::empty(s.as_str()) {
            blocks.push(make_text_block(s.as_str()));
        }
    }
    let ghost before = array_view(blocks@);
    assert(before =~= match m@.content {
        Some(JsonView::Text(s)) if s.len() > 0 => seq![text_block(s)],
        _ => Seq::empty(),
    });
    if let Some(calls) = &m.tool_calls {
        let ghost want = calls_view(calls@).map_values(|c: ToolCallView| tool_use_block(c));
        assert(before + want.take(0) =~= before);
        for i in 0..calls.len()
            invariant
                want == calls_view(calls@).map_values(|c: ToolCallView| tool_use_block(c)),
                array_view(blocks@) == before + want.take(i as int),
        {
            let c = &calls[i];
            let input = match json::parse(c.function.arguments.as_str()) {
                Ok(v) => v,
                Err(_) => Json::Object(Dict::new()),
            };
            let mut block: Dict<Json> = Dict::new();
            block.put("type", Json::text("tool_use"));
            block.put("id", Json::text(c.id.as_str()));
            block.put("name", Json::text(c.function.name.as_str()));
            block.put("input", input);
            let ghost prior = blocks@;
            let v = Json::Object(block);
            let ghost vv = v@;
            blocks.push(v);
            assert(vv =~= tool_use_block(calls@[i as int]@));
            assert(vv == want[i as int]);
            assert(array_view(blocks@) =~= array_view(prior).push(vv));
            assert(array_view(blocks@) =~= before + want.take(i + 1));
        }
        assert(want.take(want.len() as int) =~= want);
    }
    blocks
}

fn content_of(m: &Message) -> (r: Json)
    ensures
        r@ == anthropic_content(content_or_empty(m@)),
{
    let content = match &m.content {
        Some(c) => c.clone(),
        None => {
            let empty = String::new();
            assert(empty@ =~= Seq::<char>::empty());
            Json::Text(empty)
        },
    };
    mcp_blocks_to_anthropic(content)
}

/// A conversation in this dialect: what the system says, and the rest.
pub fn messages_to_anthropic(messages: &Vec<Message>) -> (r: Result<
    (Option<String>, Vec<Json>),
    &'static str,
>)
    ensures
        match r {
            Ok((system, out)) => names_its_calls(messages_view(messages@)) && opt_text(system)
                == anthropic_system(messages_view(messages@)) && array_view(out@)
                == anthropic_messages(messages_view(messages@)),
            Err(e) => !names_its_calls(messages_view(messages@)) && e@ == NO_CALL_TO_ANSWER@,
        },
{
    let mut system: Option<String> = None;
    let mut out: Vec<Json> = Vec::new();
    let ghost all = messages_view(messages@);
    assert(array_view(out@) =~= anthropic_messages(all.take(0)));
    proof {
        reveal_strlit("system");
        reveal_strlit("user");
        reveal_strlit("assistant");
        reveal_strlit("tool");
        assert("system"@.len() == 6);
        assert("user"@.len() == 4);
        assert("assistant"@.len() == 9);
        assert("tool"@.len() == 4);
        assert("tool"@[0] == 't');
        assert("user"@[0] == 'u');
    }
    for i in 0..messages.len()
        invariant
            all == messages_view(messages@),
            "system"@.len() == 6,
            "user"@.len() == 4,
            "assistant"@.len() == 9,
            "tool"@.len() == 4,
            "tool"@ != "user"@,
            opt_text(system) == anthropic_system(all.take(i as int)),
            array_view(out@) == anthropic_messages(all.take(i as int)),
            forall|j: int|
                0 <= j < i && (#[trigger] all[j]).role == "tool"@ ==> all[j].tool_call_id is Some,
    {
        let m = &messages[i];
        let ghost mv = all[i as int];
        proof {
            assert(mv == m@);
            assert(all.take(i + 1).drop_last() =~= all.take(i as int));
            assert(all.take(i + 1).last() == mv);
        }
        let ghost before = array_view(out@);
        assert(before + Seq::<JsonView>::empty() =~= before);
        let role = m.role.as_str();
        if text::same(role, "system") {
            if let Some(Json::Text(s)) = &m.content {
                system = Some(s.clone());
            }
        } else if text::same(role, "user") {
            let ghost prior = out@;
            let v = said("user", content_of(m));
            let ghost vv = v@;
            out.push(v);
            assert(array_view(out@) =~= array_view(prior).push(vv));
            assert(array_view(out@) =~= before + seq![vv]);
        } else if text::same(role, "assistant") {
            let blocks = blocks_of_assistant(m);
            if blocks.len() > 0 {
                let ghost prior = out@;
                let v = said("assistant", Json::Array(blocks));
                let ghost vv = v@;
                out.push(v);
                assert(array_view(out@) =~= array_view(prior).push(vv));
                assert(array_view(out@) =~= before + seq![vv]);
            }
        } else if text::same(role, "tool") {
            let id = match m.tool_call_id_for_result() {
                Ok(id) => id,
                Err(e) => {
                    assert(all[i as int].tool_call_id is None);
                    return Err(e);
                },
            };
            let mut block: Dict<Json> = Dict::new();
            block.put("type", Json::text("tool_result"));
            block.put("tool_use_id", Json::text(id));
            block.put("content", content_of(m));
            let mut blocks: Vec<Json> = Vec::new();
            blocks.push(Json::Object(block));
            assert(array_view(blocks@) =~= seq![
                tool_result_block(
                    mv.tool_call_id->0,
                    anthropic_content(content_or_empty(mv)),
                ),
            ]);
            let ghost prior = out@;
            let v = said("user", Json::Array(blocks));
            let ghost vv = v@;
            out.push(v);
            assert(array_view(out@) =~= array_view(prior).push(vv));
            assert(array_view(out@) =~= before + seq![vv]);
        }
    }
    assert(all.take(all.len() as int) =~= all);
    Ok((system, out))
}

/// The mark that asks for the conversation up to here to be cached.
pub open spec fn cache_mark() -> JsonView {
    JsonView::Object(map!["type"@ => JsonView::Text("ephemeral"@)])
}

/// A text block that asks to be cached.
pub open spec fn cached_text(s: Seq<char>) -> JsonView {
    JsonView::Object(
        map![
            "type"@ => JsonView::Text("text"@),
            "text"@ => JsonView::Text(s),
            "cache_control"@ => cache_mark(),
        ],
    )
}

/// A content whose last block asks to be cached. Text becomes a block, which is what can ask.
pub open spec fn cached_content(content: JsonView) -> JsonView {
    match content {
        JsonView::Text(s) => JsonView::Array(seq![cached_text(s)]),
        JsonView::Array(blocks) => if blocks.len() > 0 && blocks.last() is Object {
            JsonView::Array(
                blocks.drop_last().push(
                    JsonView::Object(
                        blocks.last()->Object_0.insert("cache_control"@, cache_mark()),
                    ),
                ),
            )
        } else {
            content
        },
        _ => content,
    }
}

/// Messages whose last asks to be cached.
pub open spec fn cached_messages(messages: Seq<JsonView>) -> Seq<JsonView> {
    if messages.len() == 0 {
        messages
    } else {
        match messages.last().field("content"@) {
            Some(content) => messages.drop_last().push(
                JsonView::Object(
                    messages.last()->Object_0.insert("content"@, cached_content(content)),
                ),
            ),
            None => messages,
        }
    }
}

fn make_cache_mark() -> (r: Json)
    ensures
        r@ == cache_mark(),
{
    let mut out: Dict<Json> = Dict::new();
    out.put("type", Json::text("ephemeral"));
    Json::Object(out)
}

fn make_cached_text(s: &str) -> (r: Json)
    ensures
        r@ == cached_text(s@),
{
    let mut out: Dict<Json> = Dict::new();
    out.put("type", Json::text("text"));
    out.put("text", Json::text(s));
    out.put("cache_control", make_cache_mark());
    Json::Object(out)
}

fn make_cached_content(content: &Json) -> (r: Json)
    ensures
        r@ == cached_content(content@),
{
    match content {
        Json::Text(s) => {
            let mut blocks: Vec<Json> = Vec::new();
            blocks.push(make_cached_text(s.as_str()));
            assert(array_view(blocks@) =~= seq![cached_text(s@)]);
            Json::Array(blocks)
        },
        Json::Array(items) => {
            let mut blocks = clone_array(items);
            let ghost all = array_view(items@);
            let ghost copied = blocks@;
            assert(array_view(copied) == all);
            assert(copied.len() == all.len());
            match blocks.pop() {
                Some(last) => {
                    assert(last@ == all.last()) by {
                        assert(array_view(copied)[copied.len() - 1] == copied[copied.len() - 1]@);
                    }
                    assert(array_view(blocks@) =~= all.drop_last()) by {
                        assert forall|i: int| 0 <= i < blocks@.len() implies array_view(blocks@)[i]
                            == all.drop_last()[i] by {
                            assert(array_view(copied)[i] == copied[i]@);
                        }
                    }
                    let ghost prior = blocks@;
                    match last {
                        Json::Object(fields) => {
                            let mut fields = fields;
                            fields.put("cache_control", make_cache_mark());
                            let v = Json::Object(fields);
                            let ghost vv = v@;
                            blocks.push(v);
                            assert(array_view(blocks@) =~= array_view(prior).push(vv));
                        },
                        other => {
                            let ghost ov = other@;
                            blocks.push(other);
                            assert(array_view(blocks@) =~= array_view(prior).push(ov));
                            assert(array_view(blocks@) =~= all);
                        },
                    }
                    Json::Array(blocks)
                },
                None => Json::Array(blocks),
            }
        },
        other => other.clone(),
    }
}

/// Ask for the conversation so far to be cached, on the last block of the last message.
pub fn mark_last_message_cacheable(messages: &mut Vec<Json>)
    ensures
        array_view(final(messages)@) == cached_messages(array_view(old(messages)@)),
{
    let ghost all = array_view(messages@);
    let ghost before = messages@;
    match messages.pop() {
        Some(last) => {
            assert(last@ == all.last()) by {
                assert(all[before.len() - 1] == before[before.len() - 1]@);
            }
            assert(array_view(messages@) =~= all.drop_last()) by {
                assert forall|i: int| 0 <= i < messages@.len() implies array_view(messages@)[i]
                    == all.drop_last()[i] by {
                    assert(all[i] == before[i]@);
                }
            }
            let ghost prior = messages@;
            let content = match last.get("content") {
                Some(c) => Some(make_cached_content(c)),
                None => None,
            };
            match (last, content) {
                (Json::Object(fields), Some(c)) => {
                    let mut fields = fields;
                    fields.put("content", c);
                    let v = Json::Object(fields);
                    let ghost vv = v@;
                    messages.push(v);
                    assert(array_view(messages@) =~= array_view(prior).push(vv));
                },
                (other, _) => {
                    let ghost ov = other@;
                    messages.push(other);
                    assert(array_view(messages@) =~= array_view(prior).push(ov));
                    assert(array_view(messages@) =~= all);
                },
            }
        },
        None => {
            assert(array_view(messages@) =~= all);
        },
    }
}

/// A tool as this dialect has it.
pub open spec fn anthropic_tool(function: JsonView) -> JsonView {
    JsonView::Object(
        map![
            "name"@ => JsonView::Text(match function.field_text("name"@) {
                Some(s) => s,
                None => Seq::empty(),
            }),
            "description"@ => JsonView::Text(match function.field_text("description"@) {
                Some(s) => s,
                None => Seq::empty(),
            }),
            "input_schema"@ => match function.field("parameters"@) {
                Some(schema) => schema,
                None => JsonView::Object(
                    map![
                        "type"@ => JsonView::Text("object"@),
                        "properties"@ => JsonView::Object(Map::empty()),
                    ],
                ),
            },
        ],
    )
}

/// The first definition that has nothing to call.
pub open spec fn first_uncallable(tools: Seq<JsonView>) -> Option<JsonView>
    decreases tools.len(),
{
    if tools.len() == 0 {
        None
    } else if tools[0].field("function"@) is None {
        Some(tools[0])
    } else {
        first_uncallable(tools.drop_first())
    }
}

fn text_or_empty(v: Option<&str>) -> (r: Json)
    ensures
        r@ == JsonView::Text(match v {
            Some(s) => s@,
            None => Seq::empty(),
        }),
{
    match v {
        Some(s) => Json::text(s),
        None => {
            let empty = String::new();
            assert(empty@ =~= Seq::<char>::empty());
            Json::Text(empty)
        },
    }
}

fn tool_to_anthropic(function: &Json) -> (r: Json)
    ensures
        r@ == anthropic_tool(function@),
{
    let schema = match function.get("parameters") {
        Some(s) => s.clone(),
        None => {
            let mut empty: Dict<Json> = Dict::new();
            empty.put("type", Json::text("object"));
            empty.put("properties", Json::Object(Dict::new()));
            Json::Object(empty)
        },
    };
    let mut out: Dict<Json> = Dict::new();
    out.put("name", text_or_empty(function.get_str("name")));
    out.put("description", text_or_empty(function.get_str("description")));
    out.put("input_schema", schema);
    Json::Object(out)
}

/// The tools of a request, in this dialect.
pub fn tools_to_anthropic(tools: &Vec<Json>) -> (r: Result<Vec<Json>, String>)
    ensures
        match r {
            Ok(out) => first_uncallable(array_view(tools@)) is None && array_view(out@)
                == array_view(tools@).map_values(
                |t: JsonView| anthropic_tool(t.field("function"@)->0),
            ),
            Err(e) => first_uncallable(array_view(tools@)) is Some && e@
                == "a tool definition has no `function` object: "@ + json_text(
                first_uncallable(array_view(tools@))->0,
            ),
        },
{
    let mut out: Vec<Json> = Vec::new();
    let ghost all = array_view(tools@);
    assert(all.skip(0) =~= all);
    for i in 0..tools.len()
        invariant
            all == array_view(tools@),
            out@.len() == i,
            first_uncallable(all) == first_uncallable(all.skip(i as int)),
            forall|j: int|
                0 <= j < i ==> (#[trigger] out@[j])@ == anthropic_tool(
                    all[j].field("function"@)->0,
                ),
    {
        assert(all.skip(i as int)[0] == tools@[i as int]@);
        assert(all.skip(i as int).drop_first() =~= all.skip(i + 1));
        match tool_function(&tools[i]) {
            Ok(f) => {
                out.push(tool_to_anthropic(f));
            },
            Err(e) => return Err(e),
        }
    }
    assert(array_view(out@) =~= all.map_values(
        |t: JsonView| anthropic_tool(t.field("function"@)->0),
    ));
    Ok(out)
}

/// Whether a key of a request in this dialect is set by the orchestrator alone.
pub open spec fn is_anthropic_reserved(key: Seq<char>) -> bool {
    is_reserved(key) || key == "max_tokens"@ || key == "tools"@ || key == "tool_choice"@
}

/// A body with an agent's additions, other than to what is reserved.
pub open spec fn overlaid(
    body: Map<Seq<char>, JsonView>,
    extra: Map<Seq<char>, JsonView>,
) -> Map<Seq<char>, JsonView> {
    Map::new(
        |k: Seq<char>| body.contains_key(k) || (extra.contains_key(k) && !is_anthropic_reserved(k)),
        |k: Seq<char>|
            if extra.contains_key(k) && !is_anthropic_reserved(k) {
                extra[k]
            } else {
                body[k]
            },
    )
}

fn overlay(body: &mut Dict<Json>, extra: &Dict<Json>)
    ensures
        final(body).fields() == overlaid(old(body).fields(), extra.fields()),
{
    let ghost base = body.fields();
    let ghost all = extra.entries@;
    assert(body.fields() =~= overlaid(base, object_view(all.take(0))));
    for i in 0..extra.entries.len()
        invariant
            all == extra.entries@,
            body.fields() == overlaid(base, object_view(all.take(i as int))),
    {
        assert(all.take(i + 1).subrange(0, i as int) =~= all.take(i as int));
        let key = extra.entries[i].0.as_str();
        if !reserved(key) && !text::same(key, "max_tokens") && !text::same(key, "tools")
            && !text::same(key, "tool_choice") {
            body.put(key, extra.entries[i].1.clone());
        }
        assert(body.fields() =~= overlaid(base, object_view(all.take(i + 1))));
    }
    assert(all.take(all.len() as int) =~= all);
}

/// How much an answer may hold: what the agent says, where that is a count.
pub open spec fn max_tokens_of(extra: Map<Seq<char>, JsonView>) -> u64 {
    match JsonView::Object(extra).field("max_tokens"@) {
        Some(v) => match v.as_unsigned() {
            Some(n) => n,
            None => ANTHROPIC_DEFAULT_MAX_TOKENS,
        },
        None => ANTHROPIC_DEFAULT_MAX_TOKENS,
    }
}

/// The body of a request, before an agent's additions.
pub open spec fn request_fields(
    model: Seq<char>,
    messages: Seq<MessageView>,
    tools: Option<Seq<JsonView>>,
    max_tokens: u64,
) -> Map<Seq<char>, JsonView> {
    let base = map![
        "model"@ => JsonView::Text(model),
        "max_tokens"@ => JsonView::Number(Num::PosInt(max_tokens)),
        "messages"@ => JsonView::Array(cached_messages(anthropic_messages(messages))),
    ];
    let base = match anthropic_system(messages) {
        Some(s) => base.insert("system"@, JsonView::Array(seq![cached_text(s)])),
        None => base,
    };
    match tools {
        Some(t) => base.insert(
            "tools"@,
            JsonView::Array(t.map_values(|x: JsonView| anthropic_tool(x.field("function"@)->0))),
        ).insert(
            "tool_choice"@,
            JsonView::Object(map!["type"@ => JsonView::Text("auto"@)]),
        ),
        None => base,
    }
}

/// What tools a request offers.
pub open spec fn offered(tools: Option<&Vec<Json>>) -> Option<Seq<JsonView>> {
    match tools {
        Some(t) => Some(array_view(t@)),
        None => None,
    }
}

/// Why a request cannot be built, where it cannot: a result that names no call, or else a
/// tool with nothing to call.
pub open spec fn request_problem(
    messages: Seq<MessageView>,
    tools: Option<Seq<JsonView>>,
) -> Option<Seq<char>> {
    if !names_its_calls(messages) {
        Some(NO_CALL_TO_ANSWER@)
    } else {
        match tools {
            Some(t) => match first_uncallable(t) {
                Some(bad) => Some(
                    "a tool definition has no `function` object: "@ + json_text(bad),
                ),
                None => None,
            },
            None => None,
        }
    }
}

/// Builds the body of a request, with the marks that let the conversation be cached: one on
/// the system prompt, one on the last message.
pub fn build_request_body(
    model: &str,
    messages: &Vec<Message>,
    tools: Option<&Vec<Json>>,
    extra_body: &Dict<Json>,
) -> (r: Result<Json, String>)
    ensures
        match r {
            Ok(body) => request_problem(messages_view(messages@), offered(tools)) is None && body@
                == JsonView::Object(
                overlaid(
                    request_fields(
                        model@,
                        messages_view(messages@),
                        offered(tools),
                        max_tokens_of(extra_body.fields()),
                    ),
                    extra_body.fields(),
                ),
            ),
            Err(e) => Some(e@) == request_problem(messages_view(messages@), offered(tools)),
        },
{
    let (system, said) = match messages_to_anthropic(messages) {
        Ok(x) => x,
        Err(e) => return Err(e.to_owned()),
    };
    let mut said = said;
    mark_last_message_cacheable(&mut said);
    let max_tokens: u64 = match extra_body.field("max_tokens") {
        Some(v) => match v.as_u64() {
            Some(n) => n,
            None => ANTHROPIC_DEFAULT_MAX_TOKENS,
        },
        None => ANTHROPIC_DEFAULT_MAX_TOKENS,
    };
    let mut body: Dict<Json> = Dict::new();
    body.put("model", Json::text(model));
    body.put("max_tokens", Json::number(max_tokens));
    body.put("messages", Json::Array(said));
    if let Some(s) = &system {
        let mut blocks: Vec<Json> = Vec::new();
        blocks.push(make_cached_text(s.as_str()));
        assert(array_view(blocks@) =~= seq![cached_text(s@)]);
        body.put("system", Json::Array(blocks));
    }
    if let Some(t) = tools {
        let list = match tools_to_anthropic(t) {
            Ok(list) => list,
            Err(e) => return Err(e),
        };
        body.put("tools", Json::Array(list));
        let mut choice: Dict<Json> = Dict::new();
        choice.put("type", Json::text("auto"));
        body.put("tool_choice", Json::Object(choice));
    }
    overlay(&mut body, extra_body);
    Ok(Json::Object(body))
}

// ── Reading ───────────────────────────────────────────────────────────────────

/// An answer in this dialect, as it is sent.
#[derive(Debug)]
pub struct AnthropicResponse {
    pub content: Vec<AnthropicContentBlock>,
    pub stop_reason: Option<String>,
    pub usage: AnthropicUsage,
}

/// A block of an answer.
#[derive(Debug)]
pub enum AnthropicContentBlock {
    Text { text: String },
    ToolUse { id: String, name: String, input: Json },
}

/// What an answer cost. This dialect counts both cached parts beside `input_tokens`, where
/// every other counts them inside.
#[derive(Debug)]
pub struct AnthropicUsage {
    pub input_tokens: u64,
    pub output_tokens: u64,
    pub cache_read_input_tokens: Option<u64>,
    pub cache_creation_input_tokens: Option<u64>,
}

/// The texts of an answer's blocks.
pub open spec fn texts_of(blocks: Seq<AnthropicContentBlock>) -> Seq<Seq<char>>
    decreases blocks.len(),
{
    if blocks.len() == 0 {
        Seq::empty()
    } else {
        match blocks.last() {
            AnthropicContentBlock::Text { text } => texts_of(blocks.drop_last()).push(text@),
            AnthropicContentBlock::ToolUse { .. } => texts_of(blocks.drop_last()),
        }
    }
}

/// The calls of an answer's blocks.
pub open spec fn calls_of(blocks: Seq<AnthropicContentBlock>) -> Seq<ToolCallView>
    decreases blocks.len(),
{
    if blocks.len() == 0 {
        Seq::empty()
    } else {
        match blocks.last() {
            AnthropicContentBlock::ToolUse { id, name, input } => calls_of(blocks.drop_last()).push(
                ToolCallView {
                    id: id@,
                    type_: "function"@,
                    name: name@,
                    arguments: json_text(input@),
                },
            ),
            AnthropicContentBlock::Text { .. } => calls_of(blocks.drop_last()),
        }
    }
}

/// A stop reason in the canonical words. One that is not known is a normal finish.
pub open spec fn canonical_stop(reason: Option<Seq<char>>) -> Option<Seq<char>> {
    match reason {
        None => None,
        Some(word) => Some(
            if word == "tool_use"@ {
                "tool_calls"@
            } else if word == "max_tokens"@ {
                "length"@
            } else if word == "refusal"@ {
                "content_filter"@
            } else {
                "stop"@
            },
        ),
    }
}

/// A count that was sent, or nothing.
pub open spec fn count_or_zero(n: Option<u64>) -> int {
    match n {
        Some(x) => x as int,
        None => 0,
    }
}

/// What was processed as a prompt: what was fresh, what was read from the cache, and what was
/// written to it.
pub open spec fn prompt_of(u: AnthropicUsage) -> int {
    u.input_tokens + count_or_zero(u.cache_read_input_tokens) + count_or_zero(
        u.cache_creation_input_tokens,
    )
}

/// The message an answer makes.
pub open spec fn answer_message(blocks: Seq<AnthropicContentBlock>) -> MessageView {
    let said = texts_of(blocks);
    let calls = calls_of(blocks);
    MessageView {
        tool_calls: if calls.len() == 0 {
            None
        } else {
            Some(calls)
        },
        ..plain_message(
            "assistant"@,
            if said.len() == 0 {
                None
            } else {
                Some(JsonView::Text(join(said, ""@)))
            },
        )
    }
}

fn unwrapped(n: Option<u64>) -> (r: u64)
    ensures
        r == count_or_zero(n),
{
    match n {
        Some(x) => x,
        None => 0,
    }
}

fn stop_word(reason: &Option<String>) -> (r: Option<String>)
    ensures
        opt_text(r) == canonical_stop(opt_text(*reason)),
{
    match reason {
        None => None,
        Some(word) => {
            let w = word.as_str();
            let canonical = if text::same(w, "tool_use") {
                "tool_calls"
            } else if text::same(w, "max_tokens") {
                "length"
            } else if text::same(w, "refusal") {
                "content_filter"
            } else {
                "stop"
            };
            Some(canonical.to_owned())
        },
    }
}

/// Reads an answer as the chat-completions answer that says the same.
pub fn anthropic_to_chat_response(raw: AnthropicResponse) -> (r: ChatResponse)
    requires
        prompt_of(raw.usage) + raw.usage.output_tokens <= u64::MAX,
    ensures
        r.choices@.len() == 1,
        r.choices@[0].message@ == answer_message(raw.content@),
        opt_text(r.choices@[0].finish_reason) == canonical_stop(opt_text(raw.stop_reason)),
        r.usage is Some,
        r.usage->0.prompt_tokens == prompt_of(raw.usage),
        r.usage->0.completion_tokens == raw.usage.output_tokens,
        r.usage->0.total_tokens == prompt_of(raw.usage) + raw.usage.output_tokens,
        r.usage->0.prompt_tokens_details == match raw.usage.cache_read_input_tokens {
            Some(n) => Some(PromptTokensDetails { cached_tokens: Some(n) }),
            None => None,
        },
        r.usage->0.prompt_cache_write_tokens == raw.usage.cache_creation_input_tokens,
        r.usage->0.unread.fields() == Map::<Seq<char>, JsonView>::empty(),
{
    let mut parts: Vec<String> = Vec::new();
    let mut calls: Vec<ToolCall> = Vec::new();
    let ghost all = raw.content@;
    assert(texts(parts@) =~= texts_of(all.take(0)));
    assert(calls_view(calls@) =~= calls_of(all.take(0)));
    for i in 0..raw.content.len()
        invariant
            all == raw.content@,
            texts(parts@) == texts_of(all.take(i as int)),
            calls_view(calls@) == calls_of(all.take(i as int)),
    {
        assert(all.take(i + 1).drop_last() =~= all.take(i as int));
        assert(all.take(i + 1).last() == all[i as int]);
        match &raw.content[i] {
            AnthropicContentBlock::Text { text } => {
                let ghost before = texts(parts@);
                parts.push(text.clone());
                assert(texts(parts@) =~= before.push(text@));
            },
            AnthropicContentBlock::ToolUse { id, name, input } => {
                let ghost before = calls_view(calls@);
                let call = ToolCall {
                    id: id.clone(),
                    type_: "function".to_owned(),
                    function: ToolCallFunction { name: name.clone(), arguments: json::print(input) },
                };
                let ghost cv = call@;
                calls.push(call);
                assert(calls_view(calls@) =~= before.push(cv));
            },
        }
    }
    assert(all.take(all.len() as int) =~= all);
    let said: Option<String> = if parts.len() == 0 {
        None
    } else {
        Some(text::joined(&parts, ""))
    };
    let asked: Option<Vec<ToolCall>> = if calls.len() == 0 {
        None
    } else {
        Some(calls)
    };
    let message = match &said {
        Some(s) => Message::assistant(Some(s.as_str()), asked),
        None => Message::assistant(None, asked),
    };
    let prompt: u64 = raw.usage.input_tokens + unwrapped(raw.usage.cache_read_input_tokens)
        + unwrapped(raw.usage.cache_creation_input_tokens);
    let mut choices: Vec<ChatChoice> = Vec::new();
    choices.push(ChatChoice { message, finish_reason: stop_word(&raw.stop_reason) });
    ChatResponse {
        choices,
        usage: Some(
            Usage {
                prompt_tokens: prompt,
                completion_tokens: raw.usage.output_tokens,
                total_tokens: prompt + raw.usage.output_tokens,
                prompt_tokens_details: match raw.usage.cache_read_input_tokens {
                    Some(n) => Some(PromptTokensDetails { cached_tokens: Some(n) }),
                    None => None,
                },
                prompt_cache_write_tokens: raw.usage.cache_creation_input_tokens,
                unread: Dict::new(),
            },
        ),
    }
}

/// Both cached parts are parts of the prompt, and what is neither read from the cache nor
/// written to it is what was fresh.
pub proof fn law_the_cache_is_part_of_the_prompt(u: AnthropicUsage)
    ensures
        count_or_zero(u.cache_read_input_tokens) <= prompt_of(u),
        count_or_zero(u.cache_creation_input_tokens) <= prompt_of(u),
        prompt_of(u) - count_or_zero(u.cache_read_input_tokens) - count_or_zero(
            u.cache_creation_input_tokens,
        ) == u.input_tokens,
{
}

/// Whatever a conversation ends with, the last block of its last message asks to be cached,
/// and no other message is touched.
pub proof fn law_the_last_block_asks_to_be_cached(messages: Seq<JsonView>)
    requires
        messages.len() > 0,
        match messages.last().field("content"@) {
            Some(JsonView::Text(_)) => true,
            Some(JsonView::Array(blocks)) => blocks.len() > 0 && blocks.last() is Object,
            _ => false,
        },
    ensures
        cached_messages(messages).len() == messages.len(),
        cached_messages(messages).drop_last() == messages.drop_last(),
        ({
            let blocks = cached_messages(messages).last().field_items("content"@);
            &&& blocks is Some
            &&& blocks->0.len() > 0
            &&& blocks->0.last().field("cache_control"@) == Some(cache_mark())
        }),
{
    let content = messages.last().field("content"@)->0;
    assert(cached_messages(messages).last().field("content"@) == Some(cached_content(content)));
    assert(cached_messages(messages).drop_last() =~= messages.drop_last());
}

// ── What is said and what is read ─────────────────────────────────────────────

/// Whether a message has something to say to a provider: a user and a tool result always have,
/// an assistant where it has text or calls.
pub open spec fn speaks(m: MessageView) -> bool {
    ||| m.role == "user"@
    ||| m.role == "tool"@
    ||| m.role == "assistant"@ && m.content is Some && m.content->0 is Text
        && m.content->0->Text_0.len() > 0
    ||| m.role == "assistant"@ && m.tool_calls is Some && m.tool_calls->0.len() > 0
}

/// How many of the first messages have something to say.
pub open spec fn speaking(messages: Seq<MessageView>) -> nat
    decreases messages.len(),
{
    if messages.len() == 0 {
        0
    } else if speaks(messages.last()) {
        speaking(messages.drop_last()) + 1
    } else {
        speaking(messages.drop_last())
    }
}

proof fn lemma_roles_differ()
    ensures
        "user"@ != "assistant"@,
        "user"@ != "tool"@,
        "user"@ != "system"@,
        "assistant"@ != "tool"@,
        "assistant"@ != "system"@,
        "tool"@ != "system"@,
{
    reveal_strlit("system");
    reveal_strlit("user");
    reveal_strlit("assistant");
    reveal_strlit("tool");
    assert("tool"@[0] != "user"@[0]);
    assert("assistant"@.len() == 9 && "system"@.len() == 6 && "user"@.len() == 4 && "tool"@.len()
        == 4);
}

proof fn lemma_one_message(m: MessageView)
    requires
        m.role == "tool"@ ==> m.tool_call_id is Some,
    ensures
        anthropic_message(m).len() == if speaks(m) { 1int } else { 0 },
{
    lemma_roles_differ();
}

proof fn lemma_sent_in_place(messages: Seq<MessageView>, i: int)
    requires
        names_its_calls(messages),
        0 <= i < messages.len(),
    ensures
        anthropic_messages(messages).len() == speaking(messages),
        speaks(messages[i]) ==> speaking(messages.take(i)) < speaking(messages)
            && anthropic_messages(messages)[speaking(messages.take(i)) as int]
            == anthropic_message(messages[i])[0],
    decreases messages.len(),
{
    let most = messages.drop_last();
    let last = messages.last();
    assert(messages[messages.len() - 1] == last);
    lemma_one_message(last);
    assert(names_its_calls(most)) by {
        assert forall|j: int| 0 <= j < most.len() && (#[trigger] most[j]).role == "tool"@ implies most[j].tool_call_id is Some by {
            assert(most[j] == messages[j]);
        }
    }
    if most.len() > 0 {
        lemma_sent_in_place(most, if i < most.len() { i } else { 0 });
    } else {
        assert(anthropic_messages(most).len() == 0 && speaking(most) == 0);
    }
    if i < most.len() {
        assert(messages.take(i) =~= most.take(i));
    } else {
        assert(messages.take(i) =~= most);
    }
}

/// No message is lost: there is one message in the request for each of the conversation that
/// has something to say, in the same order, whatever stands between them.
pub proof fn law_every_message_is_sent_in_its_place(messages: Seq<MessageView>, i: int)
    requires
        names_its_calls(messages),
        0 <= i < messages.len(),
        speaks(messages[i]),
    ensures
        anthropic_messages(messages).len() == speaking(messages),
        ({
            let m = messages[i];
            let sent = anthropic_messages(messages)[speaking(messages.take(i)) as int];
            &&& speaking(messages.take(i)) < speaking(messages)
            &&& sent.field_text("role"@) == Some(
                if m.role == "assistant"@ {
                    "assistant"@
                } else {
                    "user"@
                },
            )
            &&& m.role == "user"@ ==> sent.field("content"@) == Some(
                anthropic_content(content_or_empty(m)),
            )
            &&& m.role == "assistant"@ ==> sent.field_items("content"@) == Some(
                assistant_blocks(m),
            )
            &&& m.role == "tool"@ ==> {
                let blocks = sent.field_items("content"@);
                &&& blocks is Some && blocks->0.len() == 1
                &&& blocks->0[0].field_text("type"@) == Some("tool_result"@)
                &&& blocks->0[0].field_text("tool_use_id"@) == m.tool_call_id
                &&& blocks->0[0].field("content"@) == Some(anthropic_content(content_or_empty(m)))
            }
        }),
{
    lemma_roles_differ();
    lemma_sent_in_place(messages, i);
    lemma_one_message(messages[i]);
    reveal_strlit("role");
    reveal_strlit("content");
    reveal_strlit("type");
    reveal_strlit("tool_use_id");
    assert("role"@[0] != "type"@[0]);
    assert("role"@.len() == 4 && "content"@.len() == 7 && "type"@.len() == 4 && "tool_use_id"@.len()
        == 11);
    let c = anthropic_content(content_or_empty(messages[i]));
    assert(messages[i].role == "tool"@ ==> tool_result_block(
        messages[i].tool_call_id->0,
        c,
    ).field("content"@) == Some(c));
}

/// What a user says and what a tool hands back is sent as it is, a picture apart: plain text
/// word for word, a missing content as no text, and blocks each in its place.
pub proof fn law_a_content_is_sent_as_it_is(m: MessageView)
    ensures
        ({
            let sent = anthropic_content(content_or_empty(m));
            match m.content {
                None => sent == JsonView::Text(Seq::empty()),
                Some(JsonView::Array(blocks)) => {
                    &&& sent.as_items() is Some
                    &&& sent.as_items()->0.len() == blocks.len()
                    &&& forall|i: int|
                        0 <= i < blocks.len() && (#[trigger] blocks[i]).field_text("type"@) != Some(
                            "image"@,
                        ) ==> sent.as_items()->0[i] == blocks[i]
                    &&& forall|i: int|
                        #![trigger blocks[i]]
                        0 <= i < blocks.len() && blocks[i].field_text("type"@) == Some("image"@)
                            && blocks[i].field_text("data"@) is Some && blocks[i].field_text(
                            "mimeType"@,
                        ) is Some ==> {
                            let picture = sent.as_items()->0[i];
                            let source = picture.field("source"@);
                            &&& picture.field_text("type"@) == Some("image"@)
                            &&& source is Some
                            &&& source->0.field_text("type"@) == Some("base64"@)
                            &&& source->0.field_text("data"@) == blocks[i].field_text("data"@)
                            &&& source->0.field_text("media_type"@) == blocks[i].field_text(
                                "mimeType"@,
                            )
                        }
                },
                Some(other) => sent == other,
            }
        }),
{
    reveal_strlit("type");
    reveal_strlit("data");
    reveal_strlit("media_type");
    reveal_strlit("source");
    assert("type"@[0] != "data"@[0]);
    assert("type"@.len() == 4 && "data"@.len() == 4 && "media_type"@.len() == 10
        && "source"@.len() == 6);
}

/// An assistant's turn is its text, where it has any, and then each of its calls in order with
/// what it was called with.
pub proof fn law_an_assistants_turn_is_its_text_and_its_calls(m: MessageView, k: int)
    ensures
        ({
            let blocks = assistant_blocks(m);
            let said = m.content is Some && m.content->0 is Text && m.content->0->Text_0.len() > 0;
            let offset: int = if said { 1 } else { 0 };
            let calls = match m.tool_calls {
                Some(calls) => calls,
                None => Seq::empty(),
            };
            &&& blocks.len() == offset + calls.len()
            &&& said ==> {
                &&& blocks[0].field_text("type"@) == Some("text"@)
                &&& blocks[0].field_text("text"@) == Some(m.content->0->Text_0)
            }
            &&& 0 <= k < calls.len() ==> {
                let b = blocks[offset + k];
                &&& b.field_text("type"@) == Some("tool_use"@)
                &&& b.field_text("id"@) == Some(calls[k].id)
                &&& b.field_text("name"@) == Some(calls[k].name)
                &&& b.field("input"@) == Some(
                    match parsed_json(calls[k].arguments) {
                        Ok(v) => v,
                        Err(_) => JsonView::Object(Map::empty()),
                    },
                )
            }
        }),
{
    reveal_strlit("type");
    reveal_strlit("text");
    reveal_strlit("id");
    reveal_strlit("name");
    reveal_strlit("input");
    assert("type"@[1] != "text"@[1]);
    assert("type"@[0] != "name"@[0]);
    assert("type"@.len() == 4 && "text"@.len() == 4 && "id"@.len() == 2 && "name"@.len() == 4
        && "input"@.len() == 5);
    if let Some(JsonView::Text(s)) = m.content {
        assert(text_block(s).field_text("text"@) == Some(s));
        assert(text_block(s).field_text("type"@) == Some("text"@));
    }
    if let Some(calls) = m.tool_calls {
        if 0 <= k < calls.len() {
            let b = tool_use_block(calls[k]);
            assert(b.field_text("id"@) == Some(calls[k].id));
            assert(b.field_text("name"@) == Some(calls[k].name));
        }
    }
}

/// What the system says is the last of its texts, and it is said in no message.
pub proof fn law_the_last_system_text_is_the_systems(messages: Seq<MessageView>, i: int)
    requires
        0 <= i < messages.len(),
        messages[i].role == "system"@,
        messages[i].content is Some && messages[i].content->0 is Text,
        forall|j: int|
            i < j < messages.len() && (#[trigger] messages[j]).role == "system"@ ==> !(
            messages[j].content is Some && messages[j].content->0 is Text),
    ensures
        anthropic_system(messages) == Some(messages[i].content->0->Text_0),
        !speaks(messages[i]),
    decreases messages.len(),
{
    lemma_roles_differ();
    if i < messages.len() - 1 {
        assert(messages[messages.len() - 1] == messages.last());
        assert forall|j: int|
            i < j < messages.drop_last().len() && (#[trigger] messages.drop_last()[j]).role == "system"@ implies !(
        messages.drop_last()[j].content is Some && messages.drop_last()[j].content->0 is Text) by {
            assert(messages.drop_last()[j] == messages[j]);
        }
        law_the_last_system_text_is_the_systems(messages.drop_last(), i);
    }
}

/// Where no message is the system's, the system says nothing.
pub proof fn law_nobody_else_speaks_for_the_system(messages: Seq<MessageView>)
    requires
        forall|i: int| 0 <= i < messages.len() ==> (#[trigger] messages[i]).role != "system"@,
    ensures
        anthropic_system(messages) is None,
    decreases messages.len(),
{
    if messages.len() > 0 {
        assert(messages[messages.len() - 1] == messages.last());
        assert forall|i: int| 0 <= i < messages.drop_last().len() implies (
        #[trigger] messages.drop_last()[i]).role != "system"@ by {
            assert(messages.drop_last()[i] == messages[i]);
        }
        law_nobody_else_speaks_for_the_system(messages.drop_last());
    }
}

/// Asking for a content to be cached changes nothing that it says: text stays the text of one
/// block, and of blocks all stay, with everything they hold.
pub proof fn law_caching_keeps_what_is_said(content: JsonView)
    ensures
        ({
            let out = cached_content(content);
            match content {
                JsonView::Text(s) => {
                    &&& out.as_items() is Some && out.as_items()->0.len() == 1
                    &&& out.as_items()->0[0].field_text("type"@) == Some("text"@)
                    &&& out.as_items()->0[0].field_text("text"@) == Some(s)
                    &&& out.as_items()->0[0].field("cache_control"@) is Some
                },
                JsonView::Array(blocks) => {
                    &&& out.as_items() is Some && out.as_items()->0.len() == blocks.len()
                    &&& forall|i: int|
                        0 <= i < blocks.len() - 1 ==> out.as_items()->0[i] == #[trigger] blocks[i]
                    &&& blocks.len() > 0 ==> forall|k: Seq<char>|
                        k != "cache_control"@ ==> out.as_items()->0.last().field(k)
                            == #[trigger] blocks.last().field(k)
                },
                _ => out == content,
            }
        }),
{
    reveal_strlit("type");
    reveal_strlit("text");
    reveal_strlit("cache_control");
    assert("type"@[1] != "text"@[1]);
    assert("type"@.len() == 4 && "text"@.len() == 4 && "cache_control"@.len() == 13);
    if let JsonView::Text(s) = content {
        assert(cached_text(s).field_text("text"@) == Some(s));
        assert(cached_text(s).field_text("type"@) == Some("text"@));
    }
    if let JsonView::Array(blocks) = content {
        if blocks.len() > 0 && blocks.last() is Object {
            let out = cached_content(content).as_items()->0;
            assert(out.last() == JsonView::Object(
                blocks.last()->Object_0.insert("cache_control"@, cache_mark()),
            ));
        }
    }
}

/// Marking a conversation takes nothing out of it: as many messages, each with its fields, and
/// all but the last as they were.
pub proof fn law_marking_keeps_every_message(messages: Seq<JsonView>, k: Seq<char>)
    requires
        k != "content"@,
    ensures
        cached_messages(messages).len() == messages.len(),
        forall|i: int|
            0 <= i < messages.len() - 1 ==> cached_messages(messages)[i] == #[trigger] messages[i],
        messages.len() > 0 ==> cached_messages(messages).last().field(k) == messages.last().field(k),
        messages.len() > 0 ==> cached_messages(messages).last().field("content"@)
            == match messages.last().field("content"@) {
            Some(content) => Some(cached_content(content)),
            None => None,
        },
{
}

/// Every tool is offered, in its place, with its name, what it says of itself, and what it
/// takes.
pub proof fn law_a_tool_is_offered_with_what_it_takes(function: JsonView)
    ensures
        ({
            let t = anthropic_tool(function);
            &&& function.field_text("name"@) is Some ==> t.field_text("name"@)
                == function.field_text("name"@)
            &&& function.field_text("description"@) is Some ==> t.field_text("description"@)
                == function.field_text("description"@)
            &&& function.field("parameters"@) is Some ==> t.field("input_schema"@)
                == function.field("parameters"@)
            &&& function.field("parameters"@) is None ==> t.field("input_schema"@) is Some
                && t.field("input_schema"@)->0.field_text("type"@) == Some("object"@)
        }),
{
    reveal_strlit("name");
    reveal_strlit("description");
    reveal_strlit("input_schema");
    reveal_strlit("type");
    reveal_strlit("properties");
    assert("name"@.len() == 4 && "description"@.len() == 11 && "input_schema"@.len() == 12
        && "type"@.len() == 4 && "properties"@.len() == 10);
}

/// Tools can be offered exactly when each has something to call, and what is complained of is
/// a definition that has not.
pub proof fn law_only_a_tool_without_a_function_is_refused(tools: Seq<JsonView>)
    ensures
        first_uncallable(tools) is None <==> forall|i: int|
            0 <= i < tools.len() ==> (#[trigger] tools[i]).field("function"@) is Some,
        first_uncallable(tools) is Some ==> tools.contains(first_uncallable(tools)->0)
            && first_uncallable(tools)->0.field("function"@) is None,
    decreases tools.len(),
{
    if tools.len() > 0 {
        let rest = tools.drop_first();
        law_only_a_tool_without_a_function_is_refused(rest);
        if tools[0].field("function"@) is Some {
            assert forall|i: int| first_uncallable(rest) is None && 0 <= i < tools.len() implies (
            #[trigger] tools[i]).field("function"@) is Some by {
                if i > 0 {
                    assert(rest[i - 1] == tools[i]);
                }
            }
            if first_uncallable(rest) is Some {
                let bad = first_uncallable(rest)->0;
                let k = choose|k: int| 0 <= k < rest.len() && rest[k] == bad;
                assert(tools[k + 1] == bad);
            }
        } else {
            assert(tools.contains(tools[0]));
        }
    }
}

/// A request asks the model it was told to ask, with the whole conversation, what the system
/// says, and every tool; how much may be answered is what the agent says; and of the agent's
/// additions each that is not reserved is in it as it was given.
pub proof fn law_a_request_says_what_it_was_given(
    model: Seq<char>,
    messages: Seq<MessageView>,
    tools: Option<Seq<JsonView>>,
    extra: Map<Seq<char>, JsonView>,
    key: Seq<char>,
)
    ensures
        ({
            let body = JsonView::Object(
                overlaid(request_fields(model, messages, tools, max_tokens_of(extra)), extra),
            );
            &&& body.field_text("model"@) == Some(model)
            &&& body.field_items("messages"@) == Some(cached_messages(anthropic_messages(messages)))
            &&& anthropic_system(messages) is Some ==> {
                let system = body.field_items("system"@);
                &&& system is Some && system->0.len() == 1
                &&& system->0[0].field_text("text"@) == anthropic_system(messages)
                &&& system->0[0].field("cache_control"@) is Some
            }
            &&& anthropic_system(messages) is None ==> body.field("system"@) is None
            &&& tools is Some ==> body.field_items("tools"@) is Some && body.field_items(
                "tools"@,
            )->0.len() == tools->0.len() && forall|i: int|
                0 <= i < tools->0.len() ==> body.field_items("tools"@)->0[i] == anthropic_tool(
                    (#[trigger] tools->0[i]).field("function"@)->0,
                )
            &&& tools is Some ==> body.field("tool_choice"@) is Some
            &&& tools is None ==> body.field("tools"@) is None && body.field("tool_choice"@)
                is None
            &&& extra.contains_key("max_tokens"@) && extra["max_tokens"@].as_unsigned() is Some
                ==> body.field("max_tokens"@) == Some(
                JsonView::Number(Num::PosInt(extra["max_tokens"@].as_unsigned()->0)),
            )
            &&& !extra.contains_key("max_tokens"@) ==> body.field("max_tokens"@) == Some(
                JsonView::Number(Num::PosInt(ANTHROPIC_DEFAULT_MAX_TOKENS)),
            )
            &&& extra.contains_key(key) && key != "model"@ && key != "messages"@ && key
                != "input"@ && key != "system"@ && key != "store"@ && key != "max_tokens"@ && key
                != "tools"@ && key != "tool_choice"@ ==> body.field(key) == Some(extra[key])
        }),
{
    lemma_request_keys_differ();
    if let Some(s) = anthropic_system(messages) {
        law_caching_keeps_what_is_said(JsonView::Text(s));
        assert(cached_content(JsonView::Text(s)).as_items()->0[0] == cached_text(s));
    }
}

proof fn lemma_request_keys_differ()
    ensures
        "model"@ != "max_tokens"@ && "model"@ != "messages"@ && "model"@ != "system"@ && "model"@
            != "tools"@ && "model"@ != "tool_choice"@,
        "max_tokens"@ != "messages"@ && "max_tokens"@ != "system"@ && "max_tokens"@ != "tools"@
            && "max_tokens"@ != "tool_choice"@,
        "messages"@ != "system"@ && "messages"@ != "tools"@ && "messages"@ != "tool_choice"@,
        "system"@ != "tools"@ && "system"@ != "tool_choice"@ && "tools"@ != "tool_choice"@,
{
    reveal_strlit("model");
    reveal_strlit("max_tokens");
    reveal_strlit("messages");
    reveal_strlit("system");
    reveal_strlit("tools");
    reveal_strlit("tool_choice");
    assert("model"@[0] != "tools"@[0]);
    assert("model"@.len() == 5 && "max_tokens"@.len() == 10 && "messages"@.len() == 8
        && "system"@.len() == 6 && "tools"@.len() == 5 && "tool_choice"@.len() == 11);
}

/// The text an answer makes, or none.
pub open spec fn answer_text(blocks: Seq<AnthropicContentBlock>) -> Seq<char> {
    match answer_message(blocks).content {
        Some(JsonView::Text(s)) => s,
        _ => Seq::empty(),
    }
}

/// The calls an answer makes, or none.
pub open spec fn answer_calls(blocks: Seq<AnthropicContentBlock>) -> Seq<ToolCallView> {
    match answer_message(blocks).tool_calls {
        Some(calls) => calls,
        None => Seq::empty(),
    }
}

/// Every block of an answer is read, in its order: one more text is added to the text before
/// it and one more call to the calls before it, and neither touches the other. An answer
/// without blocks says nothing and calls nothing.
pub proof fn law_every_block_of_an_answer_is_read(
    blocks: Seq<AnthropicContentBlock>,
    more: AnthropicContentBlock,
)
    ensures
        answer_message(Seq::empty()).content is None,
        answer_message(Seq::empty()).tool_calls is None,
        answer_message(blocks).role == "assistant"@,
        match more {
            AnthropicContentBlock::Text { text } => {
                &&& answer_message(blocks.push(more)).content == Some(
                    JsonView::Text(answer_text(blocks) + text@),
                )
                &&& answer_message(blocks.push(more)).tool_calls == answer_message(
                    blocks,
                ).tool_calls
            },
            AnthropicContentBlock::ToolUse { id, name, input } => {
                let calls = answer_calls(blocks.push(more));
                &&& answer_message(blocks.push(more)).content == answer_message(blocks).content
                &&& calls.len() == answer_calls(blocks).len() + 1
                &&& calls.drop_last() == answer_calls(blocks)
                &&& calls.last().id == id@
                &&& calls.last().name == name@
                &&& calls.last().arguments == json_text(input@)
                &&& calls.last().type_ == "function"@
            },
        },
{
    assert(blocks.push(more).drop_last() =~= blocks);
    let said = texts_of(blocks);
    reveal_strlit("");
    match more {
        AnthropicContentBlock::Text { text } => {
            assert(said.push(text@).drop_last() =~= said);
            if said.len() == 0 {
                assert(Seq::<char>::empty() + text@ =~= text@);
                assert(said.push(text@)[0] == text@);
            } else {
                assert(join(said, ""@) + ""@ + text@ =~= join(said, ""@) + text@);
            }
        },
        AnthropicContentBlock::ToolUse { .. } => {
            assert(answer_calls(blocks.push(more)).drop_last() =~= answer_calls(blocks)) by {
                assert(calls_of(blocks.push(more)).drop_last() =~= calls_of(blocks));
                if calls_of(blocks).len() == 0 {
                    assert(calls_of(blocks) =~= Seq::empty());
                }
            }
        },
    }
}

/// Whatever reason an answer gives, it is one that a run knows: the four that mean something of
/// their own keep their meaning, and every other is a normal finish. None given stays none.
pub proof fn law_every_stop_reason_is_known(word: Seq<char>)
    ensures
        canonical_stop(None) is None,
        canonical_stop(Some(word)) is Some,
        canonical_stop(Some(word)) == Some("tool_calls"@) <==> word == "tool_use"@,
        canonical_stop(Some(word)) == Some("length"@) <==> word == "max_tokens"@,
        canonical_stop(Some(word)) == Some("content_filter"@) <==> word == "refusal"@,
        canonical_stop(Some(word)) == Some("stop"@) <==> word != "tool_use"@ && word
            != "max_tokens"@ && word != "refusal"@,
{
    reveal_strlit("tool_calls");
    reveal_strlit("length");
    reveal_strlit("content_filter");
    reveal_strlit("stop");
    reveal_strlit("tool_use");
    reveal_strlit("max_tokens");
    reveal_strlit("refusal");
    assert("tool_calls"@.len() == 10 && "length"@.len() == 6 && "content_filter"@.len() == 14
        && "stop"@.len() == 4);
    assert("tool_use"@.len() == 8 && "max_tokens"@.len() == 10 && "refusal"@.len() == 7);
}

/// A request is built exactly where every tool result names its call and every tool has
/// something to call; a result without a call is complained of first.
pub proof fn law_a_request_is_built_exactly_where_it_can_be_sent(
    messages: Seq<MessageView>,
    tools: Option<Seq<JsonView>>,
)
    ensures
        request_problem(messages, tools) is None <==> (forall|i: int|
            0 <= i < messages.len() && (#[trigger] messages[i]).role == "tool"@
                ==> messages[i].tool_call_id is Some) && (tools is Some ==> forall|i: int|
            0 <= i < tools->0.len() ==> (#[trigger] tools->0[i]).field("function"@) is Some),
        !names_its_calls(messages) ==> request_problem(messages, tools) == Some(
            NO_CALL_TO_ANSWER@,
        ),
        names_its_calls(messages) && request_problem(messages, tools) is Some ==> tools is Some
            && exists|i: int|
            0 <= i < tools->0.len() && (#[trigger] tools->0[i]).field("function"@) is None
                && request_problem(messages, tools) == Some(
                "a tool definition has no `function` object: "@ + json_text(tools->0[i]),
            ),
        cache_mark().field_text("type"@) == Some("ephemeral"@),
{
    if let Some(t) = tools {
        law_only_a_tool_without_a_function_is_refused(t);
        if let Some(bad) = first_uncallable(t) {
            let i = choose|i: int| 0 <= i < t.len() && t[i] == bad;
            assert(t[i].field("function"@) is None);
        }
    }
}

} // verus!
