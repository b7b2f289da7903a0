//! One run of an agent, from its first message to what it leaves behind.

pub mod execution;
pub mod report;

use crate::application::runner::execution::{ending_of, ending_word, InferenceResult, RunError};
use crate::application::runner::report::{RunFacts, RunOutcome};
use crate::clock::{
    law_seconds_between_stamps, now_rfc3339, seconds_between, seconds_from_to, stamp, Duration,
};
use crate::dict::{entry_keys, Dict};
use crate::domain::agent::AgentDef;
use crate::domain::ports::LlmUsage;
use crate::domain::session::{
    answer_unanswered_tool_calls, answered, block_end, clone_array, law_whole_conversations_join,
    lemma_block_end, lemma_whole_after, lemma_whole_after_turn, messages_view, plain_message,
    repaired, results_call_nothing, whole, Message, MessageView, Session, TOOL_CALL_UNANSWERED,
};
use crate::domain::tool::{unknown_server, unknown_server_message, ToolDef};
use crate::json::{array_view, Json, JsonView, Num};
use crate::text;
use crate::text::{decimal, decimal_of, opt_text, texts};
use vstd::prelude::*;

verus! {

// ── Settings ──────────────────────────────────────────────────────────────────

/// User-supplied settings for a single run.
#[derive(Debug)]
pub struct RunSettings {
    pub agent_def_path: String,
    pub in_session: Option<String>,
    pub prompt_file: Option<String>,
    pub out_session: Option<String>,
    pub template_path: Option<String>,
    pub tools_file: Option<String>,
    pub skills_dir: Option<String>,
    /// A ceiling on turns. `None` is unbounded.
    pub max_iterations: Option<u32>,
    /// A ceiling on wall-clock time. `None` is unbounded.
    pub max_runtime: Option<Duration>,
    /// A path whose existence means "stop at the next iteration".
    pub stop_file: Option<String>,
}

/// Where a session is written: where asked, or back where it was read from.
pub open spec fn written_to(out_session: Option<Seq<char>>, in_session: Option<Seq<char>>) -> Option<
    Seq<char>,
> {
    match out_session {
        Some(p) => Some(p),
        None => in_session,
    }
}

impl RunSettings {
    /// Where the session is written: where asked, or back where it was read from.
    pub fn out_path(&self) -> (r: Option<String>)
        ensures
            opt_text(r) == written_to(opt_text(self.out_session), opt_text(self.in_session)),
    {
        match &self.out_session {
            Some(p) => Some(p.clone()),
            None => text::clone_opt(&self.in_session),
        }
    }
}

// ── Before the first turn ─────────────────────────────────────────────────────

/// Why an agent with tool servers cannot run without a tools file.
pub const TOOLS_FILE_MISSING: &'static str = "Agent has mcp_servers configured but --tools-file was not specified";

/// The tools file to load: none where the agent has no tool servers, and an error where it
/// has some and no file was given.
pub fn tools_file_for<'a>(agent: &AgentDef, tools_file: Option<&'a str>) -> (r: Result<
    Option<&'a str>,
    &'static str,
>)
    ensures
        match r {
            Ok(None) => agent.mcp_servers@.len() == 0,
            Ok(Some(p)) => agent.mcp_servers@.len() > 0 && tools_file == Some(p),
            Err(e) => agent.mcp_servers@.len() > 0 && tools_file is None && e@
                == TOOLS_FILE_MISSING@,
        },
{
    if agent.mcp_servers.len() == 0 {
        Ok(None)
    } else {
        match tools_file {
            Some(p) => Ok(Some(p)),
            None => Err(TOOLS_FILE_MISSING),
        }
    }
}

/// The first of `names` that `defs` does not have.
pub open spec fn first_unknown(names: Seq<Seq<char>>, known: Map<Seq<char>, ToolDef>) -> Option<
    Seq<char>,
>
    decreases names.len(),
{
    if names.len() == 0 {
        None
    } else if !known.contains_key(names[0]) {
        Some(names[0])
    } else {
        first_unknown(names.drop_first(), known)
    }
}

/// Whether a definition is the one for a name.
pub open spec fn is_definition(
    def: &ToolDef,
    defs: Map<Seq<char>, ToolDef>,
    name: Seq<char>,
) -> bool {
    defs.contains_key(name) && *def == defs[name]
}

/// The definitions of the servers an agent is given, in the order it names them, or what to
/// say of the first that the tools file has not got. `tools_path` is the file, as it is shown
/// to a person.
pub fn select_tool_defs<'a>(
    mcp_servers: &Vec<String>,
    defs: &'a Dict<ToolDef>,
    tools_path: &str,
) -> (r: Result<Vec<&'a ToolDef>, String>)
    ensures
        match r {
            Ok(list) => {
                &&& first_unknown(texts(mcp_servers@), defs@) is None
                &&& list@.len() == mcp_servers@.len()
                &&& forall|i: int|
                    0 <= i < list@.len() ==> is_definition(
                        #[trigger] list@[i],
                        defs@,
                        mcp_servers@[i]@,
                    )
            },
            Err(e) => {
                let unknown = first_unknown(texts(mcp_servers@), defs@);
                &&& unknown is Some
                &&& e@ == unknown_server(unknown->0, entry_keys(defs.entries@))
                    + " (tools file: "@ + tools_path@ + ")"@
            },
        },
{
    let mut out: Vec<&'a ToolDef> = Vec::new();
    let ghost names = texts(mcp_servers@);
    assert(names.skip(0) =~= names);
    for i in 0..mcp_servers.len()
        invariant
            names == texts(mcp_servers@),
            out@.len() == i,
            first_unknown(names, defs@) == first_unknown(names.skip(i as int), defs@),
            forall|j: int|
                0 <= j < i ==> is_definition(#[trigger] out@[j], defs@, mcp_servers@[j]@),
    {
        assert(names.skip(i as int)[0] == mcp_servers@[i as int]@);
        assert(names.skip(i as int).drop_first() =~= names.skip(i + 1));
        match defs.get(mcp_servers[i].as_str()) {
            Some(def) => {
                out.push(def);
            },
            None => {
                let known = defs.keys();
                let mut e = unknown_server_message(mcp_servers[i].as_str(), &known);
                e.append(" (tools file: ");
                e.append(tools_path);
                e.append(")");
                return Err(e);
            },
        }
    }
    Ok(out)
}

/// The name of an offered tool.
pub open spec fn offered_name(def: JsonView) -> Seq<char> {
    match def.field("function"@) {
        Some(f) => match f.field_text("name"@) {
            Some(n) => n,
            None => "unknown"@,
        },
        None => "unknown"@,
    }
}

/// The line the system prompt has for an offered tool.
pub open spec fn description_line(def: JsonView) -> Seq<char> {
    "- `"@ + offered_name(def) + "`"@
}

/// A line for each offered tool.
pub fn tool_descriptions(defs: &Vec<Json>) -> (r: Vec<String>)
    ensures
        texts(r@) == array_view(defs@).map_values(|d: JsonView| description_line(d)),
{
    let mut out: Vec<String> = Vec::new();
    for i in 0..defs.len()
        invariant
            out@.len() == i,
            forall|j: int| 0 <= j < i ==> (#[trigger] out@[j])@ == description_line(defs@[j]@),
    {
        let name = match defs[i].get("function") {
            Some(f) => match f.get_str("name") {
                Some(n) => n,
                None => "unknown",
            },
            None => "unknown",
        };
        let mut line = "- `".to_owned();
        line.append(name);
        line.append("`");
        out.push(line);
    }
    assert(texts(out@) =~= array_view(defs@).map_values(|d: JsonView| description_line(d)));
    out
}

/// What to say when an agent is told about another that has no definition. `path` is where
/// it was looked for, as it is shown to a person.
pub fn colleague_missing_message(name: &str, path: &str) -> (r: String)
    ensures
        r@ == "Agent '"@ + name@
            + "' listed in knows_about but its definition was not found at: "@ + path@,
{
    let mut out = "Agent '".to_owned();
    out.append(name);
    out.append("' listed in knows_about but its definition was not found at: ");
    out.append(path);
    out
}

/// The prompt a run adds to the conversation.
pub open spec fn prompt_to_add(file: Option<Seq<char>>, piped: Option<Seq<char>>) -> Option<
    Seq<char>,
> {
    match (file, piped) {
        (Some(t), _) => Some(t),
        (None, Some(t)) => if text::trim(t).len() == 0 {
            None
        } else {
            Some(t)
        },
        (None, None) => None,
    }
}

/// The prompt a run adds to the conversation: what the prompt file holds, or else what came
/// in on a pipe, unless that was blank.
pub fn resolve_prompt(file: Option<String>, piped: Option<String>) -> (r: Option<String>)
    ensures
        opt_text(r) == prompt_to_add(opt_text(file), opt_text(piped)),
{
    match file {
        Some(t) => Some(t),
        None => match piped {
            Some(t) => if text::blank(t.as_str()) {
                None
            } else {
                Some(t)
            },
            None => None,
        },
    }
}

/// A conversation without its system messages.
pub open spec fn without_system(msgs: Seq<MessageView>) -> Seq<MessageView>
    decreases msgs.len(),
{
    if msgs.len() == 0 {
        msgs
    } else {
        let earlier = without_system(msgs.drop_last());
        if msgs.last().role == "system"@ {
            earlier
        } else {
            earlier.push(msgs.last())
        }
    }
}

/// The conversation a run begins with: the system prompt, everything that is not one, and
/// what the user says now, where there is something.
pub open spec fn opened(
    msgs: Seq<MessageView>,
    system_prompt: Seq<char>,
    prompt: Option<Seq<char>>,
) -> Seq<MessageView> {
    let base = seq![plain_message("system"@, Some(JsonView::Text(system_prompt)))]
        + without_system(msgs);
    match prompt {
        Some(p) => base.push(plain_message("user"@, Some(JsonView::Text(p)))),
        None => base,
    }
}

/// Replaces the system messages of a session by one, first, and adds the user's prompt, last.
pub fn open_session(session: &mut Session, system_prompt: &str, prompt: Option<&str>)
    ensures
        messages_view(final(session).messages@) == opened(
            messages_view(old(session).messages@),
            system_prompt@,
            text::opt_str(prompt),
        ),
        final(session).metadata == old(session).metadata,
        final(session).extra == old(session).extra,
{
    let ghost all = messages_view(session.messages@);
    let first = Message::system(system_prompt);
    let ghost head = first@;
    let mut out: Vec<Message> = Vec::new();
    out.push(first);
    assert(messages_view(out@) =~= seq![head] + without_system(all.take(0)));
    for i in 0..session.messages.len()
        invariant
            *session == *old(session),
            all == messages_view(session.messages@),
            messages_view(out@) == seq![head] + without_system(all.take(i as int)),
    {
        assert(all.take(i + 1).drop_last() =~= all.take(i as int));
        assert(all.take(i + 1).last() == session.messages@[i as int]@);
        if !text::same(session.messages[i].role.as_str(), "system") {
            let ghost before = messages_view(out@);
            out.push(session.messages[i].clone());
            assert(messages_view(out@) =~= before.push(all[i as int]));
            assert(messages_view(out@) =~= seq![head] + without_system(all.take(i + 1)));
        }
    }
    assert(all.take(all.len() as int) =~= all);
    if let Some(p) = prompt {
        let ghost before = messages_view(out@);
        let m = Message::user(p);
        let ghost mv = m@;
        out.push(m);
        assert(messages_view(out@) =~= before.push(mv));
    }
    session.messages = out;
}

proof fn lemma_without_system_joins(a: Seq<MessageView>, b: Seq<MessageView>)
    ensures
        without_system(a + b) == without_system(a) + without_system(b),
    decreases b.len(),
{
    if b.len() == 0 {
        assert(a + b =~= a);
        assert(without_system(a) + without_system(b) =~= without_system(a));
    } else {
        lemma_without_system_joins(a, b.drop_last());
        assert((a + b).drop_last() =~= a + b.drop_last());
        assert((a + b).last() == b.last());
        assert(without_system(a + b) =~= without_system(a) + without_system(b));
    }
}

proof fn lemma_without_system_keeps(msgs: Seq<MessageView>)
    requires
        results_call_nothing(msgs),
    ensures
        results_call_nothing(without_system(msgs)),
    decreases msgs.len(),
{
    if msgs.len() > 0 {
        let t = msgs.drop_last();
        assert(results_call_nothing(t)) by {
            assert forall|k: int| 0 <= k < t.len() && (#[trigger] t[k]).role == "tool"@ implies
                t[k].tool_calls is None by {
                assert(msgs[k] == t[k]);
            }
        }
        lemma_without_system_keeps(t);
        assert(msgs[msgs.len() - 1] == msgs.last());
    }
}

proof fn lemma_no_system(msgs: Seq<MessageView>)
    requires
        forall|k: int| 0 <= k < msgs.len() ==> (#[trigger] msgs[k]).role != "system"@,
    ensures
        without_system(msgs) == msgs,
    decreases msgs.len(),
{
    if msgs.len() > 0 {
        let t = msgs.drop_last();
        assert forall|k: int| 0 <= k < t.len() implies (#[trigger] t[k]).role != "system"@ by {
            assert(msgs[k] == t[k]);
        }
        lemma_no_system(t);
        assert(msgs[msgs.len() - 1] == msgs.last());
        assert(t.push(msgs.last()) =~= msgs);
    }
}

proof fn lemma_whole_without_system(msgs: Seq<MessageView>, i: int)
    requires
        0 <= i <= msgs.len(),
        whole(msgs, i),
        results_call_nothing(msgs),
    ensures
        whole(without_system(msgs.skip(i)), 0),
        results_call_nothing(without_system(msgs.skip(i))),
    decreases msgs.len() - i,
{
    let all = msgs.skip(i);
    assert(results_call_nothing(all)) by {
        assert forall|k: int| 0 <= k < all.len() && (#[trigger] all[k]).role == "tool"@ implies
            all[k].tool_calls is None by {
            assert(msgs[i + k] == all[k]);
        }
    }
    lemma_without_system_keeps(all);
    if i < msgs.len() {
        let m = msgs[i];
        let end = match m.tool_calls {
            None => i + 1,
            Some(_) => block_end(msgs, i + 1),
        };
        lemma_block_end(msgs, i + 1);
        lemma_whole_without_system(msgs, end);
        let rest = without_system(msgs.skip(end));
        let tools = msgs.subrange(i + 1, end);
        assert(all =~= seq![m] + tools + msgs.skip(end));
        lemma_without_system_joins(seq![m] + tools, msgs.skip(end));
        lemma_without_system_joins(seq![m], tools);
        reveal_strlit("tool");
        reveal_strlit("system");
        assert("tool"@.len() != "system"@.len());
        assert forall|k: int| 0 <= k < tools.len() implies (#[trigger] tools[k]).role == "tool"@
            && tools[k].tool_calls is None by {
            assert(msgs[i + 1 + k] == tools[k]);
        }
        lemma_no_system(tools);
        assert(seq![m].drop_last() =~= Seq::<MessageView>::empty());
        assert(without_system(Seq::<MessageView>::empty()) =~= Seq::<MessageView>::empty());
        if m.role == "system"@ {
            assert(without_system(seq![m]) =~= Seq::<MessageView>::empty());
            lemma_whole_after_all(tools, rest);
            assert(without_system(all) =~= tools + rest);
        } else {
            assert(without_system(seq![m]) =~= seq![m]);
            let block = seq![m] + tools;
            assert(without_system(all) =~= block + rest);
            match m.tool_calls {
                None => {
                    assert(tools =~= Seq::<MessageView>::empty());
                    assert(block =~= seq![m]);
                    lemma_whole_after(m, rest);
                },
                Some(calls) => {
                    assert forall|c: int| 0 <= c < calls.len() implies answered(
                        block,
                        1,
                        block.len() as int,
                        (#[trigger] calls[c]).id,
                    ) by {
                        assert(answered(msgs, i + 1, end, calls[c].id));
                        let j = choose|j: int|
                            i + 1 <= j < end && (#[trigger] msgs[j]).tool_call_id == Some(
                                calls[c].id,
                            );
                        assert(block[j - i] == msgs[j]);
                    }
                    assert forall|j: int| 1 <= j < block.len() implies (#[trigger] block[j]).role
                        == "tool"@ by {
                        assert(block[j] == tools[j - 1]);
                    }
                    lemma_whole_after_turn(block, rest);
                },
            }
        }
    } else {
        assert(all.len() == 0);
    }
}

proof fn lemma_whole_after_all(front: Seq<MessageView>, rest: Seq<MessageView>)
    requires
        forall|k: int| 0 <= k < front.len() ==> (#[trigger] front[k]).tool_calls is None,
        whole(rest, 0),
    ensures
        whole(front + rest, 0),
    decreases front.len(),
{
    if front.len() == 0 {
        assert(front + rest =~= rest);
    } else {
        let t = front.drop_first();
        assert forall|k: int| 0 <= k < t.len() implies (#[trigger] t[k]).tool_calls is None by {
            assert(front[k + 1] == t[k]);
        }
        lemma_whole_after_all(t, rest);
        lemma_whole_after(front[0], t + rest);
        assert(front + rest =~= seq![front[0]] + (t + rest));
    }
}

/// A run that resumes a whole conversation begins with one: replacing the system prompt and
/// adding what the user says breaks no turn.
pub proof fn law_opening_keeps_the_conversation_whole(
    msgs: Seq<MessageView>,
    system_prompt: Seq<char>,
    prompt: Option<Seq<char>>,
)
    requires
        whole(msgs, 0),
        results_call_nothing(msgs),
    ensures
        whole(opened(msgs, system_prompt, prompt), 0),
{
    let system = plain_message("system"@, Some(JsonView::Text(system_prompt)));
    lemma_whole_without_system(msgs, 0);
    assert(msgs.skip(0) =~= msgs);
    lemma_whole_after(system, without_system(msgs));
    let base = seq![system] + without_system(msgs);
    if let Some(p) = prompt {
        let user = plain_message("user"@, Some(JsonView::Text(p)));
        let none = Seq::<MessageView>::empty();
        lemma_whole_after(user, none);
        assert(seq![user] + none =~= seq![user]);
        reveal_strlit("tool");
        reveal_strlit("user");
        assert("tool"@[0] != "user"@[0]);
        law_whole_conversations_join(base, seq![user]);
        assert(base.push(user) =~= base + seq![user]);
    }
}

/// However many system messages a session held, a run begins with one, and it comes first.
pub proof fn law_one_system_prompt_and_it_comes_first(
    msgs: Seq<MessageView>,
    system_prompt: Seq<char>,
    prompt: Option<Seq<char>>,
    i: int,
)
    requires
        0 <= i < opened(msgs, system_prompt, prompt).len(),
    ensures
        opened(msgs, system_prompt, prompt)[i].role == "system"@ <==> i == 0,
        opened(msgs, system_prompt, prompt)[0] == plain_message(
            "system"@,
            Some(JsonView::Text(system_prompt)),
        ),
{
    reveal_strlit("system");
    reveal_strlit("user");
    assert("system"@.len() != "user"@.len());
    lemma_without_system_has_none(msgs);
}

proof fn lemma_without_system_has_none(msgs: Seq<MessageView>)
    ensures
        forall|k: int|
            0 <= k < without_system(msgs).len() ==> (#[trigger] without_system(msgs)[k]).role
                != "system"@,
    decreases msgs.len(),
{
    if msgs.len() > 0 {
        lemma_without_system_has_none(msgs.drop_last());
    }
}

// ── After the last turn ───────────────────────────────────────────────────────

/// Where a session keeps the record of its runs.
pub const RUNS_KEY: &'static str = "atoma_runs";

/// What a run leaves behind about itself.
#[derive(Debug)]
pub struct RunRecord {
    /// RFC 3339, UTC. When the run began.
    pub started: String,
    pub ended: String,
    /// Whole seconds.
    pub seconds: u64,
    /// How the run ended, in the terms the runner decides them.
    pub ended_because: String,
    /// Messages in the session when it was saved.
    pub messages: usize,
    /// Round trips to the model this run made.
    pub iterations: usize,
}

/// The fields of a run's record.
pub open spec fn record_fields(
    started: Seq<char>,
    ended: Seq<char>,
    seconds: u64,
    ended_because: Seq<char>,
    messages: u64,
    iterations: u64,
) -> Map<Seq<char>, JsonView> {
    map![
        "started"@ => JsonView::Text(started),
        "ended"@ => JsonView::Text(ended),
        "seconds"@ => JsonView::Number(Num::PosInt(seconds)),
        "ended_because"@ => JsonView::Text(ended_because),
        "messages"@ => JsonView::Number(Num::PosInt(messages)),
        "iterations"@ => JsonView::Number(Num::PosInt(iterations)),
    ]
}

impl RunRecord {
    /// The record as it is kept.
    pub fn to_json(&self) -> (r: Json)
        ensures
            r@ == JsonView::Object(
                record_fields(
                    self.started@,
                    self.ended@,
                    self.seconds,
                    self.ended_because@,
                    self.messages as u64,
                    self.iterations as u64,
                ),
            ),
    {
        let mut out: Dict<Json> = Dict::new();
        out.put("started", Json::text(self.started.as_str()));
        out.put("ended", Json::text(self.ended.as_str()));
        out.put("seconds", Json::number(self.seconds));
        out.put("ended_because", Json::text(self.ended_because.as_str()));
        out.put("messages", Json::number(self.messages as u64));
        out.put("iterations", Json::number(self.iterations as u64));
        Json::Object(out)
    }
}

/// The runs a session already has a record of.
pub open spec fn recorded_runs(extra: Map<Seq<char>, JsonView>) -> Seq<JsonView> {
    if extra.contains_key(RUNS_KEY@) {
        match extra[RUNS_KEY@].as_items() {
            Some(runs) => runs,
            None => Seq::empty(),
        }
    } else {
        Seq::empty()
    }
}

/// What a session keeps beside its messages once a run has been recorded.
pub open spec fn with_run(
    extra: Map<Seq<char>, JsonView>,
    started: Seq<char>,
    ended: Seq<char>,
    ended_because: Seq<char>,
    messages: u64,
    iterations: u64,
) -> Map<Seq<char>, JsonView> {
    extra.insert(
        RUNS_KEY@,
        JsonView::Array(
            recorded_runs(extra).push(
                JsonView::Object(
                    record_fields(
                        started,
                        ended,
                        seconds_from_to(started, ended) as u64,
                        ended_because,
                        messages,
                        iterations,
                    ),
                ),
            ),
        ),
    )
}

/// A session carries the history of every run that touched it: a run adds one record behind
/// those there were, whatever became of the messages in between, and changes nothing else.
pub proof fn law_a_run_adds_one_record(
    extra: Map<Seq<char>, JsonView>,
    started: Seq<char>,
    ended: Seq<char>,
    ended_because: Seq<char>,
    messages: u64,
    iterations: u64,
)
    ensures
        ({
            let after = with_run(extra, started, ended, ended_because, messages, iterations);
            let record = recorded_runs(after).last();
            &&& recorded_runs(after).drop_last() == recorded_runs(extra)
            &&& record.field("iterations"@) == Some(JsonView::Number(Num::PosInt(iterations)))
            &&& record.field_text("ended_because"@) == Some(ended_because)
            &&& forall|k: Seq<char>|
                k != RUNS_KEY@ ==> (#[trigger] after.contains_key(k) <==> extra.contains_key(k)) && (
                extra.contains_key(k) ==> after[k] == extra[k])
        }),
{
    reveal_strlit("iterations");
    reveal_strlit("messages");
    reveal_strlit("ended_because");
    assert("iterations"@.len() == 10 && "messages"@.len() == 8 && "ended_because"@.len() == 13);
    let after = with_run(extra, started, ended, ended_because, messages, iterations);
    assert(recorded_runs(after).drop_last() =~= recorded_runs(extra));
}

/// Append this run to the session's own record of its runs, at a moment that is known.
pub fn record_run_at(
    session: &mut Session,
    started: &str,
    ended: &str,
    ended_because: &str,
    inferences: usize,
)
    ensures
        final(session).extra.fields() == with_run(
            old(session).extra.fields(),
            started@,
            ended@,
            ended_because@,
            old(session).messages@.len() as u64,
            inferences as u64,
        ),
        final(session).messages == old(session).messages,
        final(session).metadata == old(session).metadata,
{
    let mut runs: Vec<Json> = match session.extra.field(RUNS_KEY) {
        Some(v) => match v.as_array() {
            Some(list) => clone_array(list),
            None => Vec::new(),
        },
        None => Vec::new(),
    };
    let ghost before = recorded_runs(session.extra.fields());
    assert(array_view(runs@) =~= before);
    let record = RunRecord {
        seconds: seconds_between(started, ended),
        started: started.to_owned(),
        ended: ended.to_owned(),
        ended_because: ended_because.to_owned(),
        messages: session.messages.len(),
        iterations: inferences,
    };
    let value = record.to_json();
    let ghost vv = value@;
    runs.push(value);
    assert(array_view(runs@) =~= before.push(vv));
    session.extra.put(RUNS_KEY, Json::Array(runs));
}

/// Append this run to the session's own record of its runs, as ending now.
pub fn record_run(session: &mut Session, started: &str, ended_because: &str, inferences: usize)
    ensures
        exists|secs: i64|
            final(session).extra.fields() == with_run(
                old(session).extra.fields(),
                started@,
                #[trigger] stamp(secs as int),
                ended_because@,
                old(session).messages@.len() as u64,
                inferences as u64,
            ),
        final(session).messages == old(session).messages,
        final(session).metadata == old(session).metadata,
{
    let ended = now_rfc3339();
    record_run_at(session, started, ended.as_str(), ended_because, inferences);
}

/// Makes a session fit to be written out, whatever ended the run: the run is recorded, and
/// every call still waiting for a result is given one. Returns how many were, or `None` where
/// nobody asked for the session to be written.
pub fn save_whatever_was_reached(
    session: &mut Session,
    out_path: Option<&str>,
    started: &str,
    ended: &str,
    ended_because: &str,
    inferences: usize,
) -> (r: Option<usize>)
    ensures
        match r {
            None => out_path is None && *final(session) == *old(session),
            Some(n) => {
                &&& out_path is Some
                &&& messages_view(final(session).messages@) == repaired(
                    messages_view(old(session).messages@),
                    0,
                    TOOL_CALL_UNANSWERED@,
                )
                &&& n == final(session).messages@.len() - old(session).messages@.len()
                &&& final(session).extra.fields() == with_run(
                    old(session).extra.fields(),
                    started@,
                    ended@,
                    ended_because@,
                    old(session).messages@.len() as u64,
                    inferences as u64,
                )
                &&& final(session).metadata == old(session).metadata
            },
        },
{
    if out_path.is_none() {
        return None;
    }
    record_run_at(session, started, ended, ended_because, inferences);
    Some(answer_unanswered_tool_calls(session, TOOL_CALL_UNANSWERED))
}

/// The word for how a run ended.
pub open spec fn ended_word(result: Result<InferenceResult, RunError>) -> Seq<char> {
    match result {
        Ok(_) => "completed"@,
        Err(e) => ending_word(e),
    }
}

/// Whether a run's outcome is what the loop returned.
pub open spec fn is_outcome(
    r: Result<RunOutcome, RunError>,
    result: Result<InferenceResult, RunError>,
) -> bool {
    match (r, result) {
        (
            Ok(RunOutcome::Completed { text, reason }),
            Ok(InferenceResult::Completed { text: t, usage, reason: why }),
        ) => text == t && reason == why,
        (Ok(RunOutcome::SessionEnded), Ok(InferenceResult::SessionEnded)) => true,
        (Err(a), Err(b)) => a == b,
        _ => false,
    }
}

/// Ends a run: the facts are concluded, the session is made fit to be written where that was
/// asked for, and what the loop returned becomes the run's outcome. One door for every
/// ending, so that the word in the facts is the word in the session's record.
pub fn finish_run(
    facts: &mut RunFacts,
    session: &mut Session,
    result: Result<InferenceResult, RunError>,
    ended: String,
) -> (r: Result<RunOutcome, RunError>)
    ensures
        *final(facts) == (RunFacts {
            ended: ended,
            seconds: seconds_from_to(old(facts).started@, ended@) as u64,
            ended_because: final(facts).ended_because,
            ..*old(facts)
        }),
        final(facts).ended_because@ == ended_word(result),
        is_outcome(r, result),
        old(facts).session_path is None ==> *final(session) == *old(session),
        old(facts).session_path is Some ==> {
            &&& messages_view(final(session).messages@) == repaired(
                messages_view(old(session).messages@),
                0,
                TOOL_CALL_UNANSWERED@,
            )
            &&& final(session).extra.fields() == with_run(
                old(session).extra.fields(),
                old(facts).started@,
                ended@,
                ended_word(result),
                old(session).messages@.len() as u64,
                old(facts).iterations as u64,
            )
            &&& final(session).metadata == old(session).metadata
        },
{
    let because: &'static str = match &result {
        Ok(_) => "completed",
        Err(e) => ending_of(e),
    };
    let out_path = match &facts.session_path {
        Some(p) => Some(p.as_str()),
        None => None,
    };
    save_whatever_was_reached(
        session,
        out_path,
        facts.started.as_str(),
        ended.as_str(),
        because,
        facts.iterations,
    );
    facts.conclude_at(because, ended);
    match result {
        Ok(InferenceResult::Completed { text, usage: _, reason }) => Ok(
            RunOutcome::Completed { text, reason },
        ),
        Ok(InferenceResult::SessionEnded) => Ok(RunOutcome::SessionEnded),
        Err(e) => Err(e),
    }
}

// ── Log lines ─────────────────────────────────────────────────────────────────

/// A count, or `unknown` where nobody reported one.
pub open spec fn count_or_unknown(n: Option<u64>) -> Seq<char> {
    match n {
        Some(x) => decimal(x as nat),
        None => "unknown"@,
    }
}

fn count_text(n: Option<u64>) -> (r: String)
    ensures
        r@ == count_or_unknown(n),
{
    match n {
        Some(x) => decimal_of(x),
        None => "unknown".to_owned(),
    }
}

/// The line logged once per run.
pub fn token_usage_line(u: &LlmUsage) -> (r: String)
    ensures
        r@ == "ATOMA_TOKEN_USAGE: prompt="@ + decimal(u.prompt_tokens as nat) + " completion="@
            + decimal(u.completion_tokens as nat) + " total="@ + decimal(u.total_tokens as nat)
            + " cached="@ + count_or_unknown(u.cached_prompt_tokens) + " written="@
            + count_or_unknown(u.written_prompt_tokens),
{
    let mut out = "ATOMA_TOKEN_USAGE: prompt=".to_owned();
    out.append(decimal_of(u.prompt_tokens).as_str());
    out.append(" completion=");
    out.append(decimal_of(u.completion_tokens).as_str());
    out.append(" total=");
    out.append(decimal_of(u.total_tokens).as_str());
    out.append(" cached=");
    out.append(count_text(u.cached_prompt_tokens).as_str());
    out.append(" written=");
    out.append(count_text(u.written_prompt_tokens).as_str());
    out
}

/// The line logged once per answer that reported a usage.
pub fn inference_usage_line(iteration: u32, u: &LlmUsage, request_id: Option<&str>) -> (r: String)
    ensures
        r@ == "ATOMA_INFERENCE_USAGE: iteration="@ + decimal(iteration as nat) + " prompt="@
            + decimal(u.prompt_tokens as nat) + " completion="@ + decimal(
            u.completion_tokens as nat,
        ) + " cached="@ + count_or_unknown(u.cached_prompt_tokens) + " written="@
            + count_or_unknown(u.written_prompt_tokens) + " request="@ + match request_id {
            Some(id) => id@,
            None => "unknown"@,
        },
{
    let mut out = "ATOMA_INFERENCE_USAGE: iteration=".to_owned();
    out.append(decimal_of(iteration as u64).as_str());
    out.append(" prompt=");
    out.append(decimal_of(u.prompt_tokens).as_str());
    out.append(" completion=");
    out.append(decimal_of(u.completion_tokens).as_str());
    out.append(" cached=");
    out.append(count_text(u.cached_prompt_tokens).as_str());
    out.append(" written=");
    out.append(count_text(u.written_prompt_tokens).as_str());
    out.append(" request=");
    out.append(
        match request_id {
            Some(id) => id,
            None => "unknown",
        },
    );
    out
}

// ── What a run promises ───────────────────────────────────────────────────────

/// A session is written where that was asked for, else back where it was read from, and not at
/// all where neither was said.
pub proof fn law_a_session_goes_where_it_was_asked_to(
    out_session: Option<Seq<char>>,
    in_session: Option<Seq<char>>,
)
    ensures
        out_session is Some ==> written_to(out_session, in_session) == out_session,
        out_session is None ==> written_to(out_session, in_session) == in_session,
{
}

/// A prompt file comes before a pipe, and is taken as it is; a pipe is read where there is no
/// file, unless it carries nothing.
pub proof fn law_the_prompt_file_comes_first(file: Option<Seq<char>>, piped: Option<Seq<char>>)
    ensures
        file is Some ==> prompt_to_add(file, piped) == file,
        file is None && piped is Some && text::trim(piped->0).len() > 0 ==> prompt_to_add(
            file,
            piped,
        ) == piped,
        file is None && (piped is None || text::trim(piped->0).len() == 0) ==> prompt_to_add(
            file,
            piped,
        ) is None,
{
}

/// A run that goes on with a conversation keeps all of it but the system prompt, in order: one
/// more message is kept where it is, unless it is a system prompt; and what the user says now
/// comes last.
pub proof fn law_opening_keeps_every_other_message(
    msgs: Seq<MessageView>,
    m: MessageView,
    system_prompt: Seq<char>,
    p: Seq<char>,
)
    ensures
        opened(Seq::empty(), system_prompt, None).len() == 1,
        m.role != "system"@ ==> opened(msgs.push(m), system_prompt, None) == opened(
            msgs,
            system_prompt,
            None,
        ).push(m),
        m.role == "system"@ ==> opened(msgs.push(m), system_prompt, None) == opened(
            msgs,
            system_prompt,
            None,
        ),
        ({
            let spoken = opened(msgs, system_prompt, Some(p));
            &&& spoken.drop_last() == opened(msgs, system_prompt, None)
            &&& spoken.last().role == "user"@
            &&& spoken.last().content == Some(JsonView::Text(p))
            &&& spoken.last().tool_calls is None
        }),
{
    assert(msgs.push(m).drop_last() =~= msgs);
    let system = plain_message("system"@, Some(JsonView::Text(system_prompt)));
    if m.role != "system"@ {
        assert(seq![system] + without_system(msgs).push(m) =~= (seq![system] + without_system(
            msgs,
        )).push(m));
    }
    assert(opened(msgs, system_prompt, Some(p)).drop_last() =~= opened(
        msgs,
        system_prompt,
        None,
    ));
}

/// Every server an agent names has to be one the tools file has, and the one that is complained
/// of is one it has not.
pub proof fn law_only_a_server_that_is_not_there_is_refused(
    names: Seq<Seq<char>>,
    known: Map<Seq<char>, ToolDef>,
)
    ensures
        first_unknown(names, known) is None <==> forall|i: int|
            0 <= i < names.len() ==> known.contains_key(#[trigger] names[i]),
        first_unknown(names, known) is Some ==> names.contains(first_unknown(names, known)->0)
            && !known.contains_key(first_unknown(names, known)->0),
    decreases names.len(),
{
    if names.len() > 0 {
        let rest = names.drop_first();
        law_only_a_server_that_is_not_there_is_refused(rest, known);
        if known.contains_key(names[0]) {
            assert forall|i: int| first_unknown(rest, known) is None && 0 <= i < names.len() implies known.contains_key(
                #[trigger] names[i],
            ) by {
                if i > 0 {
                    assert(rest[i - 1] == names[i]);
                }
            }
            if first_unknown(rest, known) is Some {
                let bad = first_unknown(rest, known)->0;
                let k = choose|k: int| 0 <= k < rest.len() && rest[k] == bad;
                assert(names[k + 1] == bad);
            }
        } else {
            assert(names.contains(names[0]));
        }
    }
}

/// The agent is told of every tool by the name it calls it by.
pub proof fn law_a_tool_is_described_by_its_name(def: JsonView, name: Seq<char>)
    requires
        def.field("function"@) is Some,
        def.field("function"@)->0.field_text("name"@) == Some(name),
    ensures
        offered_name(def) == name,
        text::contains(description_line(def), name),
        description_line(def).len() == name.len() + 4,
{
    reveal_strlit("- `");
    reveal_strlit("`");
    text::law_what_occurs_is_a_part("- `"@, name, "`"@);
}

/// What a session keeps of a run is when it began and ended, how long it took, why it ended,
/// how long the conversation was, and how often the model was asked.
pub proof fn law_a_record_says_how_the_run_went(
    started: Seq<char>,
    ended: Seq<char>,
    seconds: u64,
    ended_because: Seq<char>,
    messages: u64,
    iterations: u64,
)
    ensures
        ({
            let r = JsonView::Object(
                record_fields(started, ended, seconds, ended_because, messages, iterations),
            );
            &&& r.field_text("started"@) == Some(started)
            &&& r.field_text("ended"@) == Some(ended)
            &&& r.field("seconds"@) == Some(JsonView::Number(Num::PosInt(seconds)))
            &&& r.field_text("ended_because"@) == Some(ended_because)
            &&& r.field("messages"@) == Some(JsonView::Number(Num::PosInt(messages)))
            &&& r.field("iterations"@) == Some(JsonView::Number(Num::PosInt(iterations)))
        }),
{
    reveal_strlit("started");
    reveal_strlit("ended");
    reveal_strlit("seconds");
    reveal_strlit("ended_because");
    reveal_strlit("messages");
    reveal_strlit("iterations");
    assert("started"@[1] != "seconds"@[1]);
    assert("started"@.len() == 7 && "ended"@.len() == 5 && "seconds"@.len() == 7
        && "ended_because"@.len() == 13 && "messages"@.len() == 8 && "iterations"@.len() == 10);
}

/// The record of a run is of that run: the moments, the word and the counts it was given, and
/// the seconds between the moments.
pub proof fn law_the_last_record_is_of_this_run(
    extra: Map<Seq<char>, JsonView>,
    began: int,
    over: int,
    ended_because: Seq<char>,
    messages: u64,
    iterations: u64,
)
    requires
        0 <= began <= over < 253_402_300_800,
    ensures
        ({
            let r = recorded_runs(
                with_run(extra, stamp(began), stamp(over), ended_because, messages, iterations),
            ).last();
            &&& r.field_text("started"@) == Some(stamp(began))
            &&& r.field_text("ended"@) == Some(stamp(over))
            &&& r.field("seconds"@) == Some(JsonView::Number(Num::PosInt((over - began) as u64)))
            &&& r.field_text("ended_because"@) == Some(ended_because)
            &&& r.field("messages"@) == Some(JsonView::Number(Num::PosInt(messages)))
            &&& r.field("iterations"@) == Some(JsonView::Number(Num::PosInt(iterations)))
        }),
{
    law_seconds_between_stamps(began, over);
    law_a_record_says_how_the_run_went(
        stamp(began),
        stamp(over),
        (over - began) as u64,
        ended_because,
        messages,
        iterations,
    );
}

/// A run ends as its loop did: with the same text and the same reason, because a tool ended the
/// session, or with the same error; and the word for it says completed exactly where it did.
pub proof fn law_a_run_ends_as_its_loop_did(
    r: Result<RunOutcome, RunError>,
    result: Result<InferenceResult, RunError>,
)
    requires
        is_outcome(r, result),
    ensures
        r is Ok <==> result is Ok,
        r is Err ==> r->Err_0 == result->Err_0,
        r is Ok ==> (r->Ok_0 is SessionEnded <==> result->Ok_0 is SessionEnded),
        match (r, result) {
            (
                Ok(RunOutcome::Completed { text, reason }),
                Ok(InferenceResult::Completed { text: t, usage: _, reason: why }),
            ) => text@ == t@ && reason == why,
            _ => true,
        },
        ended_word(result) == "completed"@ <==> result is Ok,
        result is Err && result->Err_0 is Failed ==> ended_word(result) == "failed"@,
        result is Err && result->Err_0 is Iterations ==> ended_word(result) == "iterations"@,
        result is Err && result->Err_0 is Runtime ==> ended_word(result) == "runtime"@,
        result is Err && result->Err_0 is Stopped ==> ended_word(result) == "stopped"@,
{
    reveal_strlit("completed");
    reveal_strlit("iterations");
    reveal_strlit("runtime");
    reveal_strlit("stopped");
    reveal_strlit("failed");
    assert("completed"@.len() == 9 && "iterations"@.len() == 10 && "runtime"@.len() == 7
        && "stopped"@.len() == 7 && "failed"@.len() == 6);
}

/// A count is written in decimal, and one that nobody reported is not written as a number.
pub proof fn law_a_count_is_written_or_unknown(n: Option<u64>)
    ensures
        n is Some ==> text::number_in(count_or_unknown(n)) == n->0,
        n is None ==> count_or_unknown(n) == "unknown"@,
{
    if let Some(x) = n {
        text::law_a_number_reads_back(x as nat);
    }
}

} // verus!
