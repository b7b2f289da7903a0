//! The system prompt, built by substituting placeholders in a template.
use crate::domain::agent::ParsedAgentDef;
use crate::domain::ports::{PromptContext, TemplatePort};
use crate::domain::skill::{SkillMetadata, LOAD_SKILL_TOOL};
use crate::text;
use crate::text::{
    find_from, join, law_every_occurrence_is_replaced_and_nothing_else,
    law_joined_parts_stand_in_their_order, law_lines_are_replaced_apart, lemma_find_from,
    lemma_find_in_rest,
    occurs_at, replace, texts, total_len,
};
use vstd::prelude::*;

verus! {

/// The system prompt a run gets when the caller passes no template. It says what the
/// orchestrator provides, and nothing else.
pub const DEFAULT_TEMPLATE: &'static str = r#"# Identity & Purpose
You are "{{AGENT_NAME}}".

{{AGENT_ROLE_PROMPT}}

# Available Colleagues
Other agents work in this environment. Below is who they are and what each one does.

{{COLLEAGUES_LIST}}

# Environment & Tools
Working directory: `{{WORKING_DIRECTORY}}`

You interact with the environment through the Model Context Protocol (MCP). Do not guess code or environment state; always execute tools to verify facts.

Each tool runs as its own process and receives only the credentials its own configuration declares. A credential you cannot see from one tool is confined, not missing: a shell that reports nothing for an API token is behaving as intended, and the tool that needs that token has it. Do not hardcode a value, hunt for it in other places, or conclude the setup is broken because a token is absent from where you looked. If a tool genuinely fails to authenticate, report which tool and what it said.

{{AVAILABLE_TOOLS}}

# Available Skills
A skill is a set of instructions this project has written for a particular kind of work. When the work in front of you is of a kind a skill below covers, call `{{LOAD_SKILL_TOOL}}` and follow it in place of your own approach -- it is what this project has decided, not advice to weigh.

The list carries names and descriptions only. A description is not the instructions, so load the skill rather than reconstructing it from the line or reading the file yourself; loading counts toward no limit. Check the list again whenever the work changes shape, because a skill that was irrelevant when the run started becomes relevant the moment the work reaches it.

{{AVAILABLE_SKILLS}}

# Thought Process & Execution
Before taking action or generating final output, always use the `<thought>` tag to develop a rigorous thought process following the steps below:

<thought>
1. [Analyze]: Analyze the current context, requirements, and environment state.
2. [Plan]: Plan the next steps to execute based on your role and available tools.
3. [Act & Verify]: Execute tools and verify results. If errors or unexpected results occur, analyze the cause and re-execute. Do not proceed based on assumptions.
4. [Communicate]: Determine task completion, blockage status, and what text to output.
</thought>

# Strict Rules
- [Tone] Eliminate all greetings, unnecessary apologies, and verbose explanations. Communicate in a technical and concise manner.
- [Tool Trustworthiness] Do not fabricate (hallucinate) file contents or execution results.
- [Autonomy & Coordination] Do not repeatedly call yourself or other agents without purpose (no infinite loops).
"#;

/// Everything a template may say.
#[derive(Debug, Clone, Copy, PartialEq, Eq, Structural)]
pub enum Placeholder {
    AgentName,
    AgentRolePrompt,
    ColleaguesList,
    AvailableTools,
    AvailableSkills,
    LoadSkillTool,
    WorkingDirectory,
}

/// What a placeholder looks like in a template.
pub open spec fn token_of(p: Placeholder) -> Seq<char> {
    match p {
        Placeholder::AgentName => "{{AGENT_NAME}}"@,
        Placeholder::AgentRolePrompt => "{{AGENT_ROLE_PROMPT}}"@,
        Placeholder::ColleaguesList => "{{COLLEAGUES_LIST}}"@,
        Placeholder::AvailableTools => "{{AVAILABLE_TOOLS}}"@,
        Placeholder::AvailableSkills => "{{AVAILABLE_SKILLS}}"@,
        Placeholder::LoadSkillTool => "{{LOAD_SKILL_TOOL}}"@,
        Placeholder::WorkingDirectory => "{{WORKING_DIRECTORY}}"@,
    }
}

impl Placeholder {
    /// Every one of them, in the order they are substituted.
    pub const ALL: [Placeholder; 7] = [
        Placeholder::AgentName,
        Placeholder::AgentRolePrompt,
        Placeholder::ColleaguesList,
        Placeholder::AvailableTools,
        Placeholder::AvailableSkills,
        Placeholder::LoadSkillTool,
        Placeholder::WorkingDirectory,
    ];

    /// What it looks like in a template.
    pub fn token(self) -> (r: &'static str)
        ensures
            r@ == token_of(self),
            r@.len() > 0,
    {
        proof {
            reveal_strlit("{{AGENT_NAME}}");
            reveal_strlit("{{AGENT_ROLE_PROMPT}}");
            reveal_strlit("{{COLLEAGUES_LIST}}");
            reveal_strlit("{{AVAILABLE_TOOLS}}");
            reveal_strlit("{{AVAILABLE_SKILLS}}");
            reveal_strlit("{{LOAD_SKILL_TOOL}}");
            reveal_strlit("{{WORKING_DIRECTORY}}");
        }
        match self {
            Placeholder::AgentName => "{{AGENT_NAME}}",
            Placeholder::AgentRolePrompt => "{{AGENT_ROLE_PROMPT}}",
            Placeholder::ColleaguesList => "{{COLLEAGUES_LIST}}",
            Placeholder::AvailableTools => "{{AVAILABLE_TOOLS}}",
            Placeholder::AvailableSkills => "{{AVAILABLE_SKILLS}}",
            Placeholder::LoadSkillTool => "{{LOAD_SKILL_TOOL}}",
            Placeholder::WorkingDirectory => "{{WORKING_DIRECTORY}}",
        }
    }
}

// ── Checking a template ───────────────────────────────────────────────────────

/// Whether a text is the token of some placeholder.
pub open spec fn is_known_token(token: Seq<char>) -> bool {
    exists|p: Placeholder| #[trigger] token_of(p) == token
}

/// Whether a character may stand in a placeholder's name.
pub open spec fn is_name_char(c: char) -> bool {
    'A' <= c <= 'Z' || '0' <= c <= '9' || c == '_'
}

/// Whether what stands between braces is shaped like a placeholder's name.
pub open spec fn is_name(name: Seq<char>) -> bool {
    name.len() > 0 && forall|i: int| 0 <= i < name.len() ==> is_name_char(#[trigger] name[i])
}

/// A name between braces.
pub open spec fn braced(name: Seq<char>) -> Seq<char> {
    "{{"@ + name + "}}"@
}

/// The tokens found so far, with one more where it is one that nothing substitutes and that
/// is not there yet.
pub open spec fn noted(found: Seq<Seq<char>>, name: Seq<char>) -> Seq<Seq<char>> {
    if is_name(name) && !is_known_token(braced(name)) && !found.contains(braced(name)) {
        found.push(braced(name))
    } else {
        found
    }
}

/// The tokens that nothing substitutes in a template from `from` on, after those found before.
pub open spec fn unknown_from(t: Seq<char>, from: int, found: Seq<Seq<char>>) -> Seq<Seq<char>>
    decreases t.len() - from,
{
    match find_from(t, "{{"@, from) {
        Some(s) if from <= s && s + 2 <= t.len() => match find_from(t, "}}"@, s + 2) {
            Some(e) if s + 2 <= e && e + 2 <= t.len() => unknown_from(
                t,
                e + 2,
                noted(found, t.subrange(s + 2, e)),
            ),
            _ => found,
        },
        _ => found,
    }
}

/// Whether a text is the token of some placeholder.
fn known_token(token: &str) -> (r: bool)
    ensures
        r == is_known_token(token@),
{
    let all = Placeholder::ALL;
    let mut i: usize = 0;
    while i < 7
        invariant
            i <= 7,
            all == Placeholder::ALL,
            forall|j: int| 0 <= j < i ==> token_of(#[trigger] all@[j]) != token@,
        decreases 7 - i,
    {
        if text::same(all[i].token(), token) {
            assert(token_of(all@[i as int]) == token@);
            return true;
        }
        i += 1;
    }
    assert(!is_known_token(token@)) by {
        assert forall|p: Placeholder| #[trigger] token_of(p) != token@ by {
            let k: int = match p {
                Placeholder::AgentName => 0,
                Placeholder::AgentRolePrompt => 1,
                Placeholder::ColleaguesList => 2,
                Placeholder::AvailableTools => 3,
                Placeholder::AvailableSkills => 4,
                Placeholder::LoadSkillTool => 5,
                Placeholder::WorkingDirectory => 6,
            };
            assert(all@[k] == p);
        }
    }
    false
}

fn named(name: &str) -> (r: bool)
    ensures
        r == is_name(name@),
{
    let chars = text::chars_of(name);
    if chars.len() == 0 {
        return false;
    }
    for i in 0..chars.len()
        invariant
            chars@ == name@,
            forall|j: int| 0 <= j < i ==> is_name_char(#[trigger] chars@[j]),
    {
        let c: char = chars[i];
        if !(('A' <= c && c <= 'Z') || ('0' <= c && c <= '9') || c == '_') {
            assert(!is_name_char(name@[i as int]));
            return false;
        }
    }
    true
}

/// The placeholders of a template that nothing will substitute, each once, in the order they
/// appear. Only what is shaped like one counts: braces around a sentence are a sentence.
pub fn unknown_placeholders(template: &str) -> (r: Vec<String>)
    ensures
        texts(r@) == unknown_from(template@, 0, Seq::empty()),
{
    let t = text::chars_of(template);
    let open = text::chars_of("{{");
    let close = text::chars_of("}}");
    proof {
        reveal_strlit("{{");
        reveal_strlit("}}");
    }
    let end: usize = t.len();
    let mut found: Vec<String> = Vec::new();
    let mut from: usize = 0;
    assert(texts(found@) =~= Seq::<Seq<char>>::empty());
    loop
        invariant
            from <= t@.len() == end,
            t@ == template@,
            open@ == "{{"@,
            close@ == "}}"@,
            open@.len() == 2,
            close@.len() == 2,
            unknown_from(template@, 0, Seq::empty()) == unknown_from(
                t@,
                from as int,
                texts(found@),
            ),
        decreases t@.len() - from,
    {
        let start = match text::find(&t, &open, from) {
            Some(s) => s,
            None => return found,
        };
        let stop = match text::find(&t, &close, start + 2) {
            Some(e) => e,
            None => return found,
        };
        let name = text::slice(&t, start + 2, stop);
        let ghost before = texts(found@);
        if named(name.as_str()) {
            let mut token = "{{".to_owned();
            token.append(name.as_str());
            token.append("}}");
            if !known_token(token.as_str()) && !text::one_of(&found, token.as_str()) {
                let ghost tv = token@;
                found.push(token);
                assert(texts(found@) =~= before.push(tv));
            }
        }
        assert(texts(found@) == noted(before, name@));
        from = stop + 2;
    }
}

proof fn lemma_unknown_from(t: Seq<char>, from: int, found: Seq<Seq<char>>)
    requires
        found.no_duplicates(),
        forall|i: int| 0 <= i < found.len() ==> !is_known_token(#[trigger] found[i]),
    ensures
        unknown_from(t, from, found).no_duplicates(),
        forall|i: int|
            0 <= i < unknown_from(t, from, found).len() ==> !is_known_token(
                #[trigger] unknown_from(t, from, found)[i],
            ),
    decreases t.len() - from,
{
    if let Some(s) = find_from(t, "{{"@, from) {
        if from <= s && s + 2 <= t.len() {
            if let Some(e) = find_from(t, "}}"@, s + 2) {
                if s + 2 <= e && e + 2 <= t.len() {
                    lemma_unknown_from(t, e + 2, noted(found, t.subrange(s + 2, e)));
                }
            }
        }
    }
}

/// What is reported of a template is reported once, and is never something that would have
/// been substituted.
pub proof fn law_only_unknown_placeholders_are_reported_and_once(template: Seq<char>)
    ensures
        unknown_from(template, 0, Seq::empty()).no_duplicates(),
        forall|p: Placeholder|
            !unknown_from(template, 0, Seq::empty()).contains(#[trigger] token_of(p)),
{
    let found = unknown_from(template, 0, Seq::empty());
    lemma_unknown_from(template, 0, Seq::empty());
    assert forall|p: Placeholder| !found.contains(#[trigger] token_of(p)) by {
        if found.contains(token_of(p)) {
            let i = choose|i: int| 0 <= i < found.len() && found[i] == token_of(p);
            assert(is_known_token(found[i]));
        }
    }
}

// ── Building the prompt ───────────────────────────────────────────────────────

/// A line for each of several things with a description, or a sentence where there are none.
pub open spec fn described(lines: Seq<Seq<char>>, none: Seq<char>) -> Seq<char> {
    if lines.len() == 0 {
        none
    } else {
        join(lines, "\n"@)
    }
}

/// The line for something with a description.
pub open spec fn described_line(name: Seq<char>, description: Seq<char>) -> Seq<char> {
    "- `"@ + name + "`: "@ + description
}

/// What a placeholder stands for.
pub open spec fn value_of(
    p: Placeholder,
    agent: ParsedAgentDef,
    tools: Seq<Seq<char>>,
    working_dir: Seq<char>,
    colleagues: Seq<(String, String)>,
    skills: Seq<SkillMetadata>,
) -> Seq<char> {
    match p {
        Placeholder::AgentName => agent.frontmatter.name@,
        Placeholder::AgentRolePrompt => match agent.body {
            Some(b) => b@,
            None => agent.frontmatter.description@,
        },
        Placeholder::ColleaguesList => described(
            colleagues.map_values(|c: (String, String)| described_line(c.0@, c.1@)),
            "No agents currently available for collaboration."@,
        ),
        Placeholder::AvailableTools => described(tools, "No tools currently available."@),
        Placeholder::AvailableSkills => described(
            skills.map_values(|s: SkillMetadata| described_line(s.name@, s.description@)),
            "No skills currently available."@,
        ),
        Placeholder::LoadSkillTool => LOAD_SKILL_TOOL@,
        Placeholder::WorkingDirectory => working_dir,
    }
}

/// A template with the first `count` placeholders substituted.
pub open spec fn substituted(
    template: Seq<char>,
    count: nat,
    values: spec_fn(Placeholder) -> Seq<char>,
) -> Seq<char>
    decreases count,
{
    if count == 0 || count > 7 {
        template
    } else {
        let p = Placeholder::ALL@[count - 1];
        replace(substituted(template, (count - 1) as nat, values), token_of(p), values(p))
    }
}

/// The system prompt: the template that overrides the built-in one, or that one, with
/// everything in it that stands for something substituted.
pub open spec fn prompt_text(
    custom_template: Option<Seq<char>>,
    agent: ParsedAgentDef,
    tools: Seq<Seq<char>>,
    working_dir: Seq<char>,
    colleagues: Seq<(String, String)>,
    skills: Seq<SkillMetadata>,
) -> Seq<char> {
    substituted(
        match custom_template {
            Some(t) => t,
            None => DEFAULT_TEMPLATE@,
        },
        7,
        |p: Placeholder| value_of(p, agent, tools, working_dir, colleagues, skills),
    )
}

fn line_for(name: &str, description: &str) -> (r: String)
    ensures
        r@ == described_line(name@, description@),
{
    let mut line = "- `".to_owned();
    line.append(name);
    line.append("`: ");
    line.append(description);
    line
}

fn colleagues_list(colleagues: &Vec<(String, String)>) -> (r: String)
    ensures
        r@ == described(
            colleagues@.map_values(|c: (String, String)| described_line(c.0@, c.1@)),
            "No agents currently available for collaboration."@,
        ),
{
    let ghost want = colleagues@.map_values(|c: (String, String)| described_line(c.0@, c.1@));
    let mut lines: Vec<String> = Vec::new();
    for i in 0..colleagues.len()
        invariant
            want == colleagues@.map_values(|c: (String, String)| described_line(c.0@, c.1@)),
            lines@.len() == i,
            forall|j: int| 0 <= j < i ==> (#[trigger] lines@[j])@ == want[j],
    {
        lines.push(line_for(colleagues[i].0.as_str(), colleagues[i].1.as_str()));
    }
    assert(texts(lines@) =~= want);
    if lines.len() == 0 {
        "No agents currently available for collaboration.".to_owned()
    } else {
        text::joined(&lines, "\n")
    }
}

fn skills_list(skills: &Vec<SkillMetadata>) -> (r: String)
    ensures
        r@ == described(
            skills@.map_values(|s: SkillMetadata| described_line(s.name@, s.description@)),
            "No skills currently available."@,
        ),
{
    let ghost want = skills@.map_values(
        |s: SkillMetadata| described_line(s.name@, s.description@),
    );
    let mut lines: Vec<String> = Vec::new();
    for i in 0..skills.len()
        invariant
            want == skills@.map_values(
                |s: SkillMetadata| described_line(s.name@, s.description@),
            ),
            lines@.len() == i,
            forall|j: int| 0 <= j < i ==> (#[trigger] lines@[j])@ == want[j],
    {
        lines.push(line_for(skills[i].name.as_str(), skills[i].description.as_str()));
    }
    assert(texts(lines@) =~= want);
    if lines.len() == 0 {
        "No skills currently available.".to_owned()
    } else {
        text::joined(&lines, "\n")
    }
}

/// Build the system prompt by substituting placeholders, in the built-in template or in one
/// that overrides it entirely.
pub fn build_system_prompt(
    agent: &ParsedAgentDef,
    tool_descriptions: &Vec<String>,
    custom_template: Option<&str>,
    working_dir: &str,
    colleagues: &Vec<(String, String)>,
    skills: &Vec<SkillMetadata>,
) -> (r: String)
    ensures
        r@ == prompt_text(
            text::opt_str(custom_template),
            *agent,
            texts(tool_descriptions@),
            working_dir@,
            colleagues@,
            skills@,
        ),
{
    let template: &str = match custom_template {
        Some(t) => t,
        None => DEFAULT_TEMPLATE,
    };
    let ghost values = |p: Placeholder|
        value_of(p, *agent, texts(tool_descriptions@), working_dir@, colleagues@, skills@);
    let mut prompt = template.to_owned();
    let all = Placeholder::ALL;
    let mut i: usize = 0;
    while i < 7
        invariant
            i <= 7,
            all == Placeholder::ALL,
            values == (|p: Placeholder|
                value_of(p, *agent, texts(tool_descriptions@), working_dir@, colleagues@, skills@)),
            prompt@ == substituted(template@, i as nat, values),
        decreases 7 - i,
    {
        let placeholder = all[i];
        let value: String = match placeholder {
            Placeholder::AgentName => agent.frontmatter.name.clone(),
            Placeholder::AgentRolePrompt => match &agent.body {
                Some(b) => b.clone(),
                None => agent.frontmatter.description.clone(),
            },
            Placeholder::ColleaguesList => colleagues_list(colleagues),
            Placeholder::AvailableTools => if tool_descriptions.len() == 0 {
                "No tools currently available.".to_owned()
            } else {
                text::joined(tool_descriptions, "\n")
            },
            Placeholder::AvailableSkills => skills_list(skills),
            Placeholder::LoadSkillTool => LOAD_SKILL_TOOL.to_owned(),
            Placeholder::WorkingDirectory => working_dir.to_owned(),
        };
        assert(value@ == values(placeholder));
        assert(Placeholder::ALL@[i as int] == placeholder);
        prompt = text::replaced(prompt.as_str(), placeholder.token(), value.as_str());
        i += 1;
    }
    prompt
}

/// The built-in template, as a port implementation.
#[derive(Debug)]
pub struct FileTemplateAdapter;

impl TemplatePort for FileTemplateAdapter {
    open spec fn renders(&self, context: PromptContext<'_>, prompt: Seq<char>) -> bool {
        prompt == prompt_text(
            text::opt_str(context.custom_template),
            *context.agent,
            texts(context.tool_descriptions@),
            context.working_dir@,
            context.colleagues@,
            context.skills@,
        )
    }

    fn build_system_prompt(&self, context: &PromptContext<'_>) -> (r: String) {
        build_system_prompt(
            context.agent,
            context.tool_descriptions,
            context.custom_template,
            context.working_dir,
            context.colleagues,
            context.skills,
        )
    }
}

// ── What a prompt says ────────────────────────────────────────────────────────

/// Whether a text opens no brace.
pub open spec fn opens_nothing(s: Seq<char>) -> bool {
    forall|i: int| 0 <= i < s.len() ==> #[trigger] s[i] != '{'
}

proof fn lemma_token(p: Placeholder)
    ensures
        token_of(p).len() > 2,
        token_of(p)[0] == '{',
        token_of(p)[1] == '{',
        opens_nothing(token_of(p).skip(2)),
        forall|i: int| 0 <= i < token_of(p).len() ==> #[trigger] token_of(p)[i] != '\n',
{
    reveal_strlit("{{AGENT_NAME}}");
    reveal_strlit("{{AGENT_ROLE_PROMPT}}");
    reveal_strlit("{{COLLEAGUES_LIST}}");
    reveal_strlit("{{AVAILABLE_TOOLS}}");
    reveal_strlit("{{AVAILABLE_SKILLS}}");
    reveal_strlit("{{LOAD_SKILL_TOOL}}");
    reveal_strlit("{{WORKING_DIRECTORY}}");
}

/// Where two tokens are told apart.
spec fn told_apart(p: Placeholder, q: Placeholder, k: int) -> bool {
    0 <= k < token_of(p).len() && k < token_of(q).len() && token_of(p)[k] != token_of(q)[k]
}

proof fn lemma_tokens_differ(p: Placeholder, q: Placeholder)
    requires
        p != q,
    ensures
        exists|k: int| told_apart(p, q, k),
{
    reveal_strlit("{{AGENT_NAME}}");
    reveal_strlit("{{AGENT_ROLE_PROMPT}}");
    reveal_strlit("{{COLLEAGUES_LIST}}");
    reveal_strlit("{{AVAILABLE_TOOLS}}");
    reveal_strlit("{{AVAILABLE_SKILLS}}");
    reveal_strlit("{{LOAD_SKILL_TOOL}}");
    reveal_strlit("{{WORKING_DIRECTORY}}");
    assert(told_apart(p, q, 2) || told_apart(p, q, 3) || told_apart(p, q, 8) || told_apart(
        p,
        q,
        12,
    ));
}

proof fn lemma_nothing_to_substitute(s: Seq<char>, p: Placeholder)
    requires
        opens_nothing(s),
    ensures
        forall|j: int| !occurs_at(s, token_of(p), j),
{
    lemma_token(p);
    assert forall|j: int| !occurs_at(s, token_of(p), j) by {
        if occurs_at(s, token_of(p), j) {
            assert(s.subrange(j, j + token_of(p).len())[0] == s[j]);
        }
    }
}

proof fn lemma_where_a_token_stands(
    before: Seq<char>,
    p: Placeholder,
    after: Seq<char>,
    q: Placeholder,
    j: int,
)
    requires
        opens_nothing(before),
        opens_nothing(after),
        occurs_at(before + token_of(p) + after, token_of(q), j),
    ensures
        q == p,
        j == before.len(),
{
    let hay = before + token_of(p) + after;
    let n = token_of(q).len() as int;
    lemma_token(p);
    lemma_token(q);
    let found = hay.subrange(j, j + n);
    assert(found[0] == hay[j] && found[1] == hay[j + 1]);
    let k = j - before.len();
    if k < 0 {
        assert(hay[j] == before[j]);
    } else if k >= token_of(p).len() {
        assert(hay[j] == after[k - token_of(p).len()]);
    } else if k >= 2 {
        assert(hay[j] == token_of(p).skip(2)[k - 2]);
    } else if k == 1 {
        assert(hay[j + 1] == token_of(p).skip(2)[0]);
    } else if q != p {
        lemma_tokens_differ(p, q);
        let d = choose|d: int| told_apart(p, q, d);
        assert(found[d] == hay[j + d]);
        assert(hay[j + d] == token_of(p)[d]);
    }
}

/// Text without placeholders is the prompt as it stands.
pub proof fn law_plain_text_is_left_alone(
    template: Seq<char>,
    count: nat,
    values: spec_fn(Placeholder) -> Seq<char>,
)
    requires
        opens_nothing(template),
    ensures
        substituted(template, count, values) == template,
    decreases count,
{
    if 0 < count <= 7 {
        law_plain_text_is_left_alone(template, (count - 1) as nat, values);
        let p = Placeholder::ALL@[count - 1];
        lemma_nothing_to_substitute(template, p);
        lemma_token(p);
        law_every_occurrence_is_replaced_and_nothing_else(template, token_of(p), values(p), 0);
    }
}

/// Where each placeholder stands in the order of substitution.
spec fn turn_of(p: Placeholder) -> int {
    match p {
        Placeholder::AgentName => 0,
        Placeholder::AgentRolePrompt => 1,
        Placeholder::ColleaguesList => 2,
        Placeholder::AvailableTools => 3,
        Placeholder::AvailableSkills => 4,
        Placeholder::LoadSkillTool => 5,
        Placeholder::WorkingDirectory => 6,
    }
}

proof fn lemma_substituted_in_turn(
    before: Seq<char>,
    p: Placeholder,
    after: Seq<char>,
    count: nat,
    values: spec_fn(Placeholder) -> Seq<char>,
)
    requires
        opens_nothing(before),
        opens_nothing(after),
        opens_nothing(values(p)),
        count <= 7,
    ensures
        substituted(before + token_of(p) + after, count, values) == if count <= turn_of(p) {
            before + token_of(p) + after
        } else {
            before + values(p) + after
        },
    decreases count,
{
    if count > 0 {
        lemma_substituted_in_turn(before, p, after, (count - 1) as nat, values);
        let q = Placeholder::ALL@[count - 1];
        let hay = before + token_of(p) + after;
        let done = before + values(p) + after;
        lemma_token(q);
        assert(turn_of(q) == count - 1);
        if count - 1 < turn_of(p) {
            assert forall|j: int| !occurs_at(hay, token_of(q), j) by {
                if occurs_at(hay, token_of(q), j) {
                    lemma_where_a_token_stands(before, p, after, q, j);
                }
            }
            law_every_occurrence_is_replaced_and_nothing_else(hay, token_of(q), values(q), 0);
        } else if count - 1 == turn_of(p) {
            assert(q == p);
            let at = before.len() as int;
            assert(hay.subrange(at, at + token_of(p).len()) =~= token_of(p));
            assert forall|j: int| 0 <= j < at implies !occurs_at(hay, token_of(p), j) by {
                if occurs_at(hay, token_of(p), j) {
                    lemma_where_a_token_stands(before, p, after, p, j);
                }
            }
            law_every_occurrence_is_replaced_and_nothing_else(hay, token_of(p), values(p), at);
            assert(hay.take(at) =~= before);
            assert(hay.skip(at + token_of(p).len()) =~= after);
            lemma_nothing_to_substitute(after, p);
            law_every_occurrence_is_replaced_and_nothing_else(after, token_of(p), values(p), 0);
        } else {
            assert(opens_nothing(done)) by {
                assert forall|i: int| 0 <= i < done.len() implies #[trigger] done[i] != '{' by {
                    if i < before.len() {
                        assert(done[i] == before[i]);
                    } else if i < before.len() + values(p).len() {
                        assert(done[i] == values(p)[i - before.len()]);
                    } else {
                        assert(done[i] == after[i - before.len() - values(p).len()]);
                    }
                }
            }
            lemma_nothing_to_substitute(done, q);
            law_every_occurrence_is_replaced_and_nothing_else(done, token_of(q), values(q), 0);
        }
    }
}

/// A placeholder's place is taken by the whole of what it stands for, and what stands around it
/// stays.
pub proof fn law_a_placeholder_gives_way_to_its_value(
    before: Seq<char>,
    p: Placeholder,
    after: Seq<char>,
    values: spec_fn(Placeholder) -> Seq<char>,
)
    requires
        opens_nothing(before),
        opens_nothing(after),
        opens_nothing(values(p)),
    ensures
        substituted(before + token_of(p) + after, 7, values) == before + values(p) + after,
{
    lemma_substituted_in_turn(before, p, after, 7, values);
}

/// A prompt is built line by line: what one line of the template becomes does not depend on the
/// others.
pub proof fn law_a_prompt_is_built_line_by_line(
    first: Seq<char>,
    rest: Seq<char>,
    count: nat,
    values: spec_fn(Placeholder) -> Seq<char>,
)
    ensures
        substituted(first + seq!['\n'] + rest, count, values) == substituted(first, count, values)
            + seq!['\n'] + substituted(rest, count, values),
    decreases count,
{
    if 0 < count <= 7 {
        law_a_prompt_is_built_line_by_line(first, rest, (count - 1) as nat, values);
        let p = Placeholder::ALL@[count - 1];
        lemma_token(p);
        law_lines_are_replaced_apart(
            substituted(first, (count - 1) as nat, values),
            substituted(rest, (count - 1) as nat, values),
            token_of(p),
            values(p),
        );
    }
}

/// The template that was given is the one that is used, and the agent is told in it who it is,
/// what it is for, and where it works.
pub proof fn law_an_agent_is_told_who_it_is(
    template: Seq<char>,
    agent: ParsedAgentDef,
    tools: Seq<Seq<char>>,
    working_dir: Seq<char>,
    colleagues: Seq<(String, String)>,
    skills: Seq<SkillMetadata>,
)
    requires
        opens_nothing(template),
    ensures
        prompt_text(Some(template), agent, tools, working_dir, colleagues, skills) == template,
        opens_nothing(agent.frontmatter.name@) ==> prompt_text(
            Some(template + "{{AGENT_NAME}}"@),
            agent,
            tools,
            working_dir,
            colleagues,
            skills,
        ) == template + agent.frontmatter.name@,
        agent.body is Some && opens_nothing(agent.body->0@) ==> prompt_text(
            Some(template + "{{AGENT_ROLE_PROMPT}}"@),
            agent,
            tools,
            working_dir,
            colleagues,
            skills,
        ) == template + agent.body->0@,
        agent.body is None && opens_nothing(agent.frontmatter.description@) ==> prompt_text(
            Some(template + "{{AGENT_ROLE_PROMPT}}"@),
            agent,
            tools,
            working_dir,
            colleagues,
            skills,
        ) == template + agent.frontmatter.description@,
        opens_nothing(working_dir) ==> prompt_text(
            Some(template + "{{WORKING_DIRECTORY}}"@),
            agent,
            tools,
            working_dir,
            colleagues,
            skills,
        ) == template + working_dir,
        prompt_text(
            Some(template + "{{LOAD_SKILL_TOOL}}"@),
            agent,
            tools,
            working_dir,
            colleagues,
            skills,
        ) == template + LOAD_SKILL_TOOL@,
{
    let values = |p: Placeholder| value_of(p, agent, tools, working_dir, colleagues, skills);
    let none = Seq::<char>::empty();
    law_plain_text_is_left_alone(template, 7, values);
    assert forall|p: Placeholder| #[trigger] opens_nothing(values(p)) implies substituted(
        template + token_of(p),
        7,
        values,
    ) == template + values(p) by {
        law_a_placeholder_gives_way_to_its_value(template, p, none, values);
        assert(template + token_of(p) + none =~= template + token_of(p));
        assert(template + values(p) + none =~= template + values(p));
    }
    reveal_strlit("atoma_builtin__load_skill");
    assert(opens_nothing(LOAD_SKILL_TOOL@));
    assert(opens_nothing(values(Placeholder::LoadSkillTool)));
    assert(values(Placeholder::AgentName) == agent.frontmatter.name@);
    assert(opens_nothing(values(Placeholder::WorkingDirectory)) == opens_nothing(working_dir));
    assert(agent.body is Some ==> values(Placeholder::AgentRolePrompt) == agent.body->0@);
    assert(agent.body is None ==> values(Placeholder::AgentRolePrompt)
        == agent.frontmatter.description@);
    assert(opens_nothing(agent.frontmatter.name@) ==> opens_nothing(values(Placeholder::AgentName)));
    assert(agent.body is Some && opens_nothing(agent.body->0@) ==> opens_nothing(
        values(Placeholder::AgentRolePrompt),
    ));
    assert(agent.body is None && opens_nothing(agent.frontmatter.description@) ==> opens_nothing(
        values(Placeholder::AgentRolePrompt),
    ));
}

/// Every tool there is, every colleague and every skill is named to the agent, each on a line
/// of its own and in the order of its list; nothing else is; and where there are none, that is
/// what it is told.
pub proof fn law_everything_there_is_is_named(
    agent: ParsedAgentDef,
    tools: Seq<Seq<char>>,
    working_dir: Seq<char>,
    colleagues: Seq<(String, String)>,
    skills: Seq<SkillMetadata>,
    i: int,
)
    ensures
        ({
            let said = value_of(
                Placeholder::AvailableTools,
                agent,
                tools,
                working_dir,
                colleagues,
                skills,
            );
            &&& tools.len() == 0 ==> said == "No tools currently available."@
            &&& 0 <= i < tools.len() ==> {
                let at = total_len(tools.take(i)) + i;
                &&& said.len() == total_len(tools) + tools.len() - 1
                &&& said.subrange(at, at + tools[i].len()) == tools[i]
                &&& i > 0 ==> said[at - 1] == '\n'
            }
        }),
        ({
            let said = value_of(
                Placeholder::ColleaguesList,
                agent,
                tools,
                working_dir,
                colleagues,
                skills,
            );
            let lines = Seq::new(
                colleagues.len(),
                |k: int| "- `"@ + colleagues[k].0@ + "`: "@ + colleagues[k].1@,
            );
            &&& colleagues.len() == 0 ==> said
                == "No agents currently available for collaboration."@
            &&& 0 <= i < colleagues.len() ==> {
                let at = total_len(lines.take(i)) + i;
                &&& said.len() == total_len(lines) + lines.len() - 1
                &&& said.subrange(at, at + lines[i].len()) == lines[i]
                &&& i > 0 ==> said[at - 1] == '\n'
            }
        }),
        ({
            let said = value_of(
                Placeholder::AvailableSkills,
                agent,
                tools,
                working_dir,
                colleagues,
                skills,
            );
            let lines = Seq::new(
                skills.len(),
                |k: int| "- `"@ + skills[k].name@ + "`: "@ + skills[k].description@,
            );
            &&& skills.len() == 0 ==> said == "No skills currently available."@
            &&& 0 <= i < skills.len() ==> {
                let at = total_len(lines.take(i)) + i;
                &&& said.len() == total_len(lines) + lines.len() - 1
                &&& said.subrange(at, at + lines[i].len()) == lines[i]
                &&& i > 0 ==> said[at - 1] == '\n'
            }
        }),
{
    reveal_strlit("\n");
    if 0 <= i < tools.len() {
        lemma_a_line_each(tools, i);
    }
    if 0 <= i < colleagues.len() {
        let lines = Seq::new(
            colleagues.len(),
            |k: int| "- `"@ + colleagues[k].0@ + "`: "@ + colleagues[k].1@,
        );
        assert(colleagues.map_values(|c: (String, String)| described_line(c.0@, c.1@)) =~= lines);
        lemma_a_line_each(lines, i);
    }
    if 0 <= i < skills.len() {
        let lines = Seq::new(
            skills.len(),
            |k: int| "- `"@ + skills[k].name@ + "`: "@ + skills[k].description@,
        );
        assert(skills.map_values(|s: SkillMetadata| described_line(s.name@, s.description@))
            =~= lines);
        lemma_a_line_each(lines, i);
    }
}

proof fn lemma_a_line_each(lines: Seq<Seq<char>>, i: int)
    requires
        0 <= i < lines.len(),
    ensures
        ({
            let said = join(lines, "\n"@);
            let at = total_len(lines.take(i)) + i;
            &&& said.len() == total_len(lines) + lines.len() - 1
            &&& said.subrange(at, at + lines[i].len()) == lines[i]
            &&& i > 0 ==> said[at - 1] == '\n'
        }),
{
    reveal_strlit("\n");
    law_joined_parts_stand_in_their_order(lines, "\n"@, i);
    let at = total_len(lines.take(i)) + i;
    assert(i * "\n"@.len() == i) by (nonlinear_arith)
        requires
            "\n"@.len() == 1,
    ;
    assert((lines.len() - 1) * "\n"@.len() == lines.len() - 1) by (nonlinear_arith)
        requires
            "\n"@.len() == 1,
    ;
    if i > 0 {
        assert(join(lines, "\n"@).subrange(at - 1, at)[0] == '\n');
    }
}

/// A prompt holds the lists of tools, colleagues and skills where its template asks for them,
/// and keeps what stands around them.
pub proof fn law_a_prompt_holds_the_lists_it_asks_for(
    before: Seq<char>,
    after: Seq<char>,
    agent: ParsedAgentDef,
    tools: Seq<Seq<char>>,
    working_dir: Seq<char>,
    colleagues: Seq<(String, String)>,
    skills: Seq<SkillMetadata>,
    p: Placeholder,
)
    requires
        opens_nothing(before),
        opens_nothing(after),
        opens_nothing(value_of(p, agent, tools, working_dir, colleagues, skills)),
    ensures
        ({
            let token = match p {
                Placeholder::AgentName => "{{AGENT_NAME}}"@,
                Placeholder::AgentRolePrompt => "{{AGENT_ROLE_PROMPT}}"@,
                Placeholder::ColleaguesList => "{{COLLEAGUES_LIST}}"@,
                Placeholder::AvailableTools => "{{AVAILABLE_TOOLS}}"@,
                Placeholder::AvailableSkills => "{{AVAILABLE_SKILLS}}"@,
                Placeholder::LoadSkillTool => "{{LOAD_SKILL_TOOL}}"@,
                Placeholder::WorkingDirectory => "{{WORKING_DIRECTORY}}"@,
            };
            prompt_text(
                Some(before + token + after),
                agent,
                tools,
                working_dir,
                colleagues,
                skills,
            ) == before + value_of(p, agent, tools, working_dir, colleagues, skills) + after
        }),
{
    law_a_placeholder_gives_way_to_its_value(
        before,
        p,
        after,
        |q: Placeholder| value_of(q, agent, tools, working_dir, colleagues, skills),
    );
}

/// What is shaped like a placeholder and stands for nothing is reported, whatever stands around
/// it that opens no brace, and nothing is reported of a text that opens none.
pub proof fn law_an_unknown_placeholder_is_reported(
    before: Seq<char>,
    name: Seq<char>,
    after: Seq<char>,
)
    requires
        opens_nothing(before),
        opens_nothing(after),
        is_name(name),
    ensures
        unknown_from(before, 0, Seq::empty()).len() == 0,
        is_known_token("{{"@ + name + "}}"@) ==> unknown_from(
            before + ("{{"@ + name + "}}"@) + after,
            0,
            Seq::empty(),
        ).len() == 0,
        !is_known_token("{{"@ + name + "}}"@) ==> unknown_from(
            before + ("{{"@ + name + "}}"@) + after,
            0,
            Seq::empty(),
        ) == seq!["{{"@ + name + "}}"@],
{
    let none = Seq::<Seq<char>>::empty();
    lemma_no_opening(before, 0, none);
    lemma_one_token_is_noted(before, name, after);
    let token = "{{"@ + name + "}}"@;
    assert(none.push(token) =~= seq![token]);
}

proof fn lemma_one_token_is_noted(before: Seq<char>, name: Seq<char>, after: Seq<char>)
    requires
        opens_nothing(before),
        opens_nothing(after),
        is_name(name),
    ensures
        unknown_from(before + ("{{"@ + name + "}}"@) + after, 0, Seq::empty()) == noted(
            Seq::empty(),
            name,
        ),
{
    let t = before + ("{{"@ + name + "}}"@) + after;
    let s = before.len() as int;
    let e = s + 2 + name.len();
    lemma_token_is_found(before, name, after);
    assert("{{"@.len() == 2 && "}}"@.len() == 2) by {
        reveal_strlit("{{");
        reveal_strlit("}}");
    }
    assert(t.subrange(s + 2, e) =~= name);
    assert(t.skip(e + 2) =~= after);
    let found = noted(Seq::empty(), name);
    lemma_no_opening_from(t, after, e + 2, found);
    assert(unknown_from(t, 0, Seq::empty()) == unknown_from(t, e + 2, found));
}

proof fn lemma_token_is_found(before: Seq<char>, name: Seq<char>, after: Seq<char>)
    requires
        opens_nothing(before),
        is_name(name),
    ensures
        ({
            let t = before + ("{{"@ + name + "}}"@) + after;
            &&& find_from(t, "{{"@, 0) == Some(before.len() as int)
            &&& find_from(t, "}}"@, before.len() as int + 2) == Some(before.len() as int + 2 + name.len())
        }),
{
    reveal_strlit("{{");
    reveal_strlit("}}");
    let open = "{{"@;
    let close = "}}"@;
    let t = before + (open + name + close) + after;
    let s = before.len() as int;
    let e = s + 2 + name.len();
    assert(t.subrange(s, s + 2) =~= open);
    assert(occurs_at(t, open, s));
    lemma_find_from(t, open, 0);
    assert forall|j: int| 0 <= j < s implies !occurs_at(t, open, j) by {
        if occurs_at(t, open, j) {
            assert(t.subrange(j, j + 2)[0] == before[j]);
        }
    }
    assert(t.subrange(e, e + 2) =~= close);
    assert(occurs_at(t, close, e));
    lemma_find_from(t, close, s + 2);
    assert forall|j: int| s + 2 <= j < e implies !occurs_at(t, close, j) by {
        if occurs_at(t, close, j) {
            assert(t.subrange(j, j + 2)[0] == name[j - s - 2]);
            assert(is_name_char(name[j - s - 2]));
        }
    }
}

proof fn lemma_no_opening(s: Seq<char>, from: int, found: Seq<Seq<char>>)
    requires
        opens_nothing(s),
        0 <= from,
    ensures
        unknown_from(s, from, found) == found,
{
    reveal_strlit("{{");
    lemma_find_from(s, "{{"@, from);
    if let Some(i) = find_from(s, "{{"@, from) {
        assert(s.subrange(i, i + 2)[0] == s[i]);
    }
}

proof fn lemma_no_opening_from(t: Seq<char>, after: Seq<char>, from: int, found: Seq<Seq<char>>)
    requires
        opens_nothing(after),
        0 <= from <= t.len(),
        t.skip(from) == after,
    ensures
        unknown_from(t, from, found) == found,
{
    reveal_strlit("{{");
    lemma_find_from(t, "{{"@, from);
    if let Some(i) = find_from(t, "{{"@, from) {
        assert(t.subrange(i, i + 2)[0] == t[i]);
        assert(t[i] == after[i - from]);
    }
}

proof fn lemma_unknown_rest(t: Seq<char>, base: int, from: int, found: Seq<Seq<char>>)
    requires
        0 <= base <= from <= t.len(),
    ensures
        unknown_from(t, from, found) == unknown_from(t.skip(base), from - base, found),
    decreases t.len() - from,
{
    assert("{{"@.len() == 2 && "}}"@.len() == 2) by {
        reveal_strlit("{{");
        reveal_strlit("}}");
    }
    let rest = t.skip(base);
    lemma_find_in_rest(t, "{{"@, base, from);
    lemma_find_from(t, "{{"@, from);
    if let Some(s) = find_from(t, "{{"@, from) {
        lemma_find_in_rest(t, "}}"@, base, s + 2);
        lemma_find_from(t, "}}"@, s + 2);
        if let Some(e) = find_from(t, "}}"@, s + 2) {
            assert(rest.subrange(s + 2 - base, e - base) =~= t.subrange(s + 2, e));
            lemma_unknown_rest(t, base, e + 2, noted(found, t.subrange(s + 2, e)));
        }
    }
}

/// A template is looked through to its end: what stands behind a placeholder is looked through
/// for others, and each that stands for nothing is noted behind those before it, once.
pub proof fn law_every_unknown_placeholder_is_noted(
    before: Seq<char>,
    name: Seq<char>,
    after: Seq<char>,
    found: Seq<Seq<char>>,
)
    requires
        opens_nothing(before),
        is_name(name),
    ensures
        ({
            let token = "{{"@ + name + "}}"@;
            let all = unknown_from(before + token + after, 0, found);
            &&& !is_known_token(token) && !found.contains(token) ==> all == unknown_from(
                after,
                0,
                found.push(token),
            )
            &&& is_known_token(token) || found.contains(token) ==> all == unknown_from(
                after,
                0,
                found,
            )
        }),
{
    let t = before + ("{{"@ + name + "}}"@) + after;
    let s = before.len() as int;
    let e = s + 2 + name.len();
    lemma_token_is_found(before, name, after);
    assert("{{"@.len() == 2 && "}}"@.len() == 2) by {
        reveal_strlit("{{");
        reveal_strlit("}}");
    }
    assert(t.subrange(s + 2, e) =~= name);
    assert(t.skip(e + 2) =~= after);
    assert(unknown_from(t, 0, found) == unknown_from(t, e + 2, noted(found, name)));
    lemma_unknown_rest(t, e + 2, e + 2, noted(found, name));
}

} // verus!
