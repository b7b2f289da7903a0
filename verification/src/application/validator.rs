//! Whether an agent definition can do what it says.
//!
//! An error is a definition that cannot. A warning is a configuration that is defined and
//! merely unusual, or a check that could not be made; `strict` makes every warning an error.
use crate::application::runner::is_definition;
use crate::dict::{entry_keys, Dict};
use crate::domain::agent::{AgentDef, ParsedAgentDef};
use crate::domain::tool::{unknown_server, unknown_server_message, ToolDef};
use crate::infra::hooks::{both_lists_warning, sets_both, sets_both_lists, warn_of_both_lists};
use crate::infra::llm::shared::{reserved_keys, RESERVED_KEYS};
use crate::infra::llm::{
    accepted_credentials, check_credentials, check_provider_name, first_set, is_selected,
    provider_named, reserved_header_names, reserved_headers, selection_message, stands_in_the_way,
    Provider, SelectionProblem, KNOWN_PROVIDERS,
};
use crate::infra::mcp::findings::Finding;
use crate::infra::template::{unknown_from, unknown_placeholders};
use crate::json::{Json, JsonView};
use crate::text;
use crate::text::{decimal, decimal_of, join, lower, sort_texts, texts, trim};
use vstd::prelude::*;

verus! {

/// What was found where an agent's colleague should be defined.
#[derive(Debug)]
pub enum ColleagueFile {
    Missing,
    Unreadable(String),
    Readable,
}

/// Where an agent's colleague should be defined, as it is shown to a person, and what was
/// found there.
#[derive(Debug)]
pub struct ColleagueProbe {
    pub path: String,
    pub file: ColleagueFile,
}

/// A file that was read, as its path is shown to a person, and what it held or why it could
/// not be read.
#[derive(Debug)]
pub struct Loaded<T> {
    pub path: String,
    pub content: Result<T, String>,
}

/// What is wrong with a definition, what is unusual about it, and what was found to be right.
#[derive(Debug)]
pub struct ValidationReport {
    pub notes: Vec<String>,
    pub errors: Vec<String>,
    pub warnings: Vec<String>,
}

// ── Colleagues ────────────────────────────────────────────────────────────────

/// What is wrong with the colleague an agent names.
pub open spec fn colleague_errors(
    name: Seq<char>,
    probes: Map<Seq<char>, ColleagueProbe>,
) -> Seq<Seq<char>> {
    let path = if probes.contains_key(name) {
        probes[name].path@
    } else {
        Seq::empty()
    };
    let file = if probes.contains_key(name) {
        probes[name].file
    } else {
        ColleagueFile::Missing
    };
    match file {
        ColleagueFile::Readable => Seq::empty(),
        ColleagueFile::Unreadable(e) => seq![
            "knows_about '"@ + name + "': failed to parse target definition: "@ + e@,
        ],
        ColleagueFile::Missing => seq![
            "knows_about '"@ + name + "': definition file not found at "@ + path,
        ],
    }
}

/// What is right about the colleague an agent names.
pub open spec fn colleague_notes(
    name: Seq<char>,
    probes: Map<Seq<char>, ColleagueProbe>,
) -> Seq<Seq<char>> {
    if probes.contains_key(name) && !(probes[name].file is Missing) {
        seq!["  ✓ knows_about '"@ + name + "' → "@ + probes[name].path@]
    } else {
        Seq::empty()
    }
}

/// Several lists, one after the other.
pub open spec fn flat(lists: Seq<Seq<Seq<char>>>) -> Seq<Seq<char>>
    decreases lists.len(),
{
    if lists.len() == 0 {
        Seq::empty()
    } else {
        flat(lists.drop_last()) + lists.last()
    }
}

proof fn lemma_flat_push(lists: Seq<Seq<Seq<char>>>, more: Seq<Seq<char>>)
    ensures
        flat(lists.push(more)) == flat(lists) + more,
{
    assert(lists.push(more).drop_last() =~= lists);
}

fn say(list: &mut Vec<String>, line: String)
    ensures
        texts(final(list)@) == texts(old(list)@).push(line@),
{
    let ghost before = texts(list@);
    list.push(line);
    assert(texts(list@) =~= before.push(line@));
}

fn check_colleagues(
    report: &mut ValidationReport,
    knows_about: &Vec<String>,
    probes: &Dict<ColleagueProbe>,
)
    ensures
        texts(final(report).errors@) == texts(old(report).errors@) + flat(
            texts(knows_about@).map_values(|n: Seq<char>| colleague_errors(n, probes@)),
        ),
        texts(final(report).notes@) == texts(old(report).notes@) + flat(
            texts(knows_about@).map_values(|n: Seq<char>| colleague_notes(n, probes@)),
        ),
        final(report).warnings == old(report).warnings,
{
    let ghost errors = texts(report.errors@);
    let ghost notes = texts(report.notes@);
    let ghost es = texts(knows_about@).map_values(|n: Seq<char>| colleague_errors(n, probes@));
    let ghost ns = texts(knows_about@).map_values(|n: Seq<char>| colleague_notes(n, probes@));
    assert(errors + flat(es.take(0)) =~= errors);
    assert(notes + flat(ns.take(0)) =~= notes);
    for i in 0..knows_about.len()
        invariant
            es == texts(knows_about@).map_values(|n: Seq<char>| colleague_errors(n, probes@)),
            ns == texts(knows_about@).map_values(|n: Seq<char>| colleague_notes(n, probes@)),
            texts(report.errors@) == errors + flat(es.take(i as int)),
            texts(report.notes@) == notes + flat(ns.take(i as int)),
            report.warnings == old(report).warnings,
    {
        let name = knows_about[i].as_str();
        proof {
            assert(es.take(i + 1) =~= es.take(i as int).push(es[i as int]));
            assert(ns.take(i + 1) =~= ns.take(i as int).push(ns[i as int]));
            lemma_flat_push(es.take(i as int), es[i as int]);
            lemma_flat_push(ns.take(i as int), ns[i as int]);
            assert(es[i as int] == colleague_errors(name@, probes@));
            assert(ns[i as int] == colleague_notes(name@, probes@));
        }
        let ghost e0 = texts(report.errors@);
        let ghost n0 = texts(report.notes@);
        match probes.get(name) {
            Some(probe) => {
                match &probe.file {
                    ColleagueFile::Missing => {
                        let mut e = "knows_about '".to_owned();
                        e.append(name);
                        e.append("': definition file not found at ");
                        e.append(probe.path.as_str());
                        say(&mut report.errors, e);
                    },
                    ColleagueFile::Unreadable(problem) => {
                        let mut n = "  ✓ knows_about '".to_owned();
                        n.append(name);
                        n.append("' → ");
                        n.append(probe.path.as_str());
                        say(&mut report.notes, n);
                        let mut e = "knows_about '".to_owned();
                        e.append(name);
                        e.append("': failed to parse target definition: ");
                        e.append(problem.as_str());
                        say(&mut report.errors, e);
                    },
                    ColleagueFile::Readable => {
                        let mut n = "  ✓ knows_about '".to_owned();
                        n.append(name);
                        n.append("' → ");
                        n.append(probe.path.as_str());
                        say(&mut report.notes, n);
                    },
                }
            },
            None => {
                let mut e = "knows_about '".to_owned();
                e.append(name);
                e.append("': definition file not found at ");
                assert(e@ =~= e@ + Seq::<char>::empty());
                say(&mut report.errors, e);
            },
        }
        assert(texts(report.errors@) =~= e0 + es[i as int]);
        assert(texts(report.notes@) =~= n0 + ns[i as int]);
        assert(texts(report.errors@) =~= errors + (flat(es.take(i as int)) + es[i as int]));
        assert(texts(report.notes@) =~= notes + (flat(ns.take(i as int)) + ns[i as int]));
    }
    assert(es.take(es.len() as int) =~= es);
    assert(ns.take(ns.len() as int) =~= ns);
}

// ── What an agent adds to requests ────────────────────────────────────────────

/// What is wrong with a reserved key in an agent's additions to the body.
pub open spec fn reserved_key_errors(key: Seq<char>, extra: Map<Seq<char>, JsonView>) -> Seq<
    Seq<char>,
> {
    if extra.contains_key(key) {
        seq![
            "extra_body contains reserved key '"@ + key + "' which would be silently ignored"@,
        ]
    } else {
        Seq::empty()
    }
}

/// What is wrong with an agent's additions to the body.
pub open spec fn body_errors(extra: Map<Seq<char>, JsonView>) -> Seq<Seq<char>> {
    flat(reserved_keys().map_values(|k: Seq<char>| reserved_key_errors(k, extra)))
}

fn check_body(report: &mut ValidationReport, extra: &Dict<Json>)
    ensures
        texts(final(report).errors@) == texts(old(report).errors@) + body_errors(extra.fields()),
        final(report).notes == old(report).notes,
        final(report).warnings == old(report).warnings,
{
    let ghost errors = texts(report.errors@);
    let ghost es = reserved_keys().map_values(
        |k: Seq<char>| reserved_key_errors(k, extra.fields()),
    );
    assert(errors + flat(es.take(0)) =~= errors);
    let keys = RESERVED_KEYS;
    let mut i: usize = 0;
    while i < 5
        invariant
            i <= 5,
            keys == RESERVED_KEYS,
            es == reserved_keys().map_values(
                |k: Seq<char>| reserved_key_errors(k, extra.fields()),
            ),
            texts(report.errors@) == errors + flat(es.take(i as int)),
            report.notes == old(report).notes,
            report.warnings == old(report).warnings,
        decreases 5 - i,
    {
        let key: &str = keys[i];
        proof {
            assert(es.take(i + 1) =~= es.take(i as int).push(es[i as int]));
            lemma_flat_push(es.take(i as int), es[i as int]);
            assert(reserved_keys()[i as int] == key@);
            assert(es[i as int] == reserved_key_errors(key@, extra.fields()));
        }
        let ghost e0 = texts(report.errors@);
        if extra.field(key).is_some() {
            let mut e = "extra_body contains reserved key '".to_owned();
            e.append(key);
            e.append("' which would be silently ignored");
            say(&mut report.errors, e);
        }
        assert(texts(report.errors@) =~= e0 + es[i as int]);
        assert(texts(report.errors@) =~= errors + (flat(es.take(i as int)) + es[i as int]));
        i += 1;
    }
    assert(es.take(5) =~= es);
}

/// A character of a header's name, as it is compared: case is not part of a header's
/// identity. Of the characters outside ASCII one has a lower case inside it.
pub open spec fn folded_char(c: char) -> char {
    if c == '\u{212a}' {
        'k'
    } else {
        lower(c)
    }
}

/// A header's name, as it is compared.
pub open spec fn folded(name: Seq<char>) -> Seq<char> {
    name.map_values(|c: char| folded_char(c))
}

fn fold(name: &str) -> (r: String)
    ensures
        r@ == folded(name@),
{
    let chars = text::chars_of(name);
    let mut out = String::new();
    assert(out@ =~= folded(name@).take(0));
    for i in 0..chars.len()
        invariant
            chars@ == name@,
            out@ == folded(name@).take(i as int),
    {
        let c: char = chars[i];
        if c == '\u{212a}' {
            out.push('k');
        } else if 'A' <= c && c <= 'Z' {
            out.push((c as u8 + 32) as char);
        } else {
            out.push(c);
        }
        assert(out@ =~= folded(name@).take(i + 1));
    }
    assert(folded(name@).take(name@.len() as int) =~= folded(name@));
    out
}

/// What is wrong with a header an agent adds.
pub open spec fn header_errors(name: Seq<char>) -> Seq<Seq<char>> {
    if reserved_headers().contains(folded(name)) {
        seq!["extra_headers contains '"@ + name + "', which Atoma sets itself"@]
    } else {
        Seq::empty()
    }
}

fn check_headers(report: &mut ValidationReport, extra: &Dict<String>)
    ensures
        texts(final(report).errors@) == texts(old(report).errors@) + flat(
            entry_keys(extra.entries@).map_values(|n: Seq<char>| header_errors(n)),
        ),
        final(report).notes == old(report).notes,
        final(report).warnings == old(report).warnings,
{
    let ghost errors = texts(report.errors@);
    let names = extra.keys();
    let own = reserved_header_names();
    let ghost es = texts(names@).map_values(|n: Seq<char>| header_errors(n));
    assert(errors + flat(es.take(0)) =~= errors);
    for i in 0..names.len()
        invariant
            texts(own@) == reserved_headers(),
            es == texts(names@).map_values(|n: Seq<char>| header_errors(n)),
            texts(report.errors@) == errors + flat(es.take(i as int)),
            report.notes == old(report).notes,
            report.warnings == old(report).warnings,
    {
        let name = names[i].as_str();
        proof {
            assert(es.take(i + 1) =~= es.take(i as int).push(es[i as int]));
            lemma_flat_push(es.take(i as int), es[i as int]);
            assert(es[i as int] == header_errors(name@));
        }
        let ghost e0 = texts(report.errors@);
        if text::one_of(&own, fold(name).as_str()) {
            let mut e = "extra_headers contains '".to_owned();
            e.append(name);
            e.append("', which Atoma sets itself");
            say(&mut report.errors, e);
        }
        assert(texts(report.errors@) =~= e0 + es[i as int]);
        assert(texts(report.errors@) =~= errors + (flat(es.take(i as int)) + es[i as int]));
    }
    assert(es.take(es.len() as int) =~= es);
}

/// What is wrong with the provider an agent names. A credential that is not set is not: a
/// validation has none.
pub open spec fn provider_errors(provider: Option<Seq<char>>) -> Seq<Seq<char>> {
    match provider {
        None => Seq::empty(),
        Some(p) => if trim(p).len() == 0 {
            seq!["provider is present but empty; remove it or name one"@]
        } else if provider_named(trim(p)) is None {
            seq!["Unknown provider '"@ + trim(p) + KNOWN_PROVIDERS@]
        } else {
            Seq::empty()
        },
    }
}

/// What is right about the provider an agent names.
pub open spec fn provider_notes(provider: Option<Seq<char>>) -> Seq<Seq<char>> {
    match provider {
        Some(p) if provider_named(trim(p)) is Some && trim(p).len() > 0 => seq![
            "  ✓ provider '"@ + trim(p) + "' is known"@,
        ],
        _ => Seq::empty(),
    }
}

fn check_provider(report: &mut ValidationReport, provider: &Option<String>)
    ensures
        texts(final(report).errors@) == texts(old(report).errors@) + provider_errors(
            text::opt_text(*provider),
        ),
        texts(final(report).notes@) == texts(old(report).notes@) + provider_notes(
            text::opt_text(*provider),
        ),
        final(report).warnings == old(report).warnings,
{
    let ghost errors = texts(report.errors@);
    let ghost notes = texts(report.notes@);
    if let Some(p) = provider {
        let name = text::trimmed(p.as_str());
        if text::empty(name.as_str()) {
            say(
                &mut report.errors,
                "provider is present but empty; remove it or name one".to_owned(),
            );
        } else {
            match check_provider_name(name.as_str()) {
                Ok(()) => {
                    let mut n = "  ✓ provider '".to_owned();
                    n.append(name.as_str());
                    n.append("' is known");
                    say(&mut report.notes, n);
                },
                Err(e) => say(&mut report.errors, e),
            }
        }
    }
    assert(texts(report.errors@) =~= errors + provider_errors(text::opt_text(*provider)));
    assert(texts(report.notes@) =~= notes + provider_notes(text::opt_text(*provider)));
}

/// What an agent whose `tools` are not a list is refused with.
pub const TOOLS_MUST_BE_A_LIST: &'static str = "extra_body.tools must be an array of tool definitions; it cannot be added to this run's tools as written";

/// What is wrong with the tools an agent adds.
pub open spec fn added_tools_errors(extra: Map<Seq<char>, JsonView>) -> Seq<Seq<char>> {
    if extra.contains_key("tools"@) && !(extra["tools"@] is Array) {
        seq![TOOLS_MUST_BE_A_LIST@]
    } else {
        Seq::empty()
    }
}

fn check_added_tools(report: &mut ValidationReport, extra: &Dict<Json>)
    ensures
        texts(final(report).errors@) == texts(old(report).errors@) + added_tools_errors(
            extra.fields(),
        ),
        final(report).notes == old(report).notes,
        final(report).warnings == old(report).warnings,
{
    let ghost errors = texts(report.errors@);
    if let Some(tools) = extra.field("tools") {
        if tools.as_array().is_none() {
            say(&mut report.errors, TOOLS_MUST_BE_A_LIST.to_owned());
        }
    }
    assert(texts(report.errors@) =~= errors + added_tools_errors(extra.fields()));
}

// ── The tools file ────────────────────────────────────────────────────────────

/// Those of several servers that set both of their lists.
pub open spec fn both_lists(names: Seq<Seq<char>>, defs: Map<Seq<char>, ToolDef>) -> Seq<Seq<char>>
    decreases names.len(),
{
    if names.len() == 0 {
        Seq::empty()
    } else if sets_both(defs[names.last()].hooks) {
        both_lists(names.drop_last(), defs).push(names.last())
    } else {
        both_lists(names.drop_last(), defs)
    }
}

/// What is unusual about a tools file, in the order of its servers' names.
pub open spec fn file_warnings(defs: Dict<ToolDef>) -> Seq<Seq<char>> {
    sort_texts(both_lists(entry_keys(defs.entries@), defs@)).map_values(
        |s: Seq<char>| both_lists_warning(s),
    )
}

/// What is wrong with a server an agent names.
pub open spec fn server_errors(server: Seq<char>, defs: Dict<ToolDef>, path: Seq<char>) -> Seq<
    Seq<char>,
> {
    if defs@.contains_key(server) {
        Seq::empty()
    } else {
        seq![
            unknown_server(server, entry_keys(defs.entries@)) + " (tools file: "@ + path + ")"@,
        ]
    }
}

/// What is right about a server an agent names.
pub open spec fn server_notes(server: Seq<char>, defs: Dict<ToolDef>) -> Seq<Seq<char>> {
    if defs@.contains_key(server) {
        seq!["  ✓ mcp_servers '"@ + server + "' found in tools file"@]
    } else {
        Seq::empty()
    }
}

fn find_both_lists(defs: &Dict<ToolDef>) -> (r: Vec<String>)
    ensures
        texts(r@) == both_lists(entry_keys(defs.entries@), defs@),
{
    let names = defs.keys();
    let ghost all = texts(names@);
    let mut out: Vec<String> = Vec::new();
    assert(texts(out@) =~= both_lists(all.take(0), defs@));
    proof {
        crate::dict::lemma_entry_keys(defs.entries@);
    }
    for i in 0..names.len()
        invariant
            all == texts(names@),
            all == entry_keys(defs.entries@),
            forall|k: Seq<char>| all.contains(k) <==> #[trigger] defs@.contains_key(k),
            texts(out@) == both_lists(all.take(i as int), defs@),
    {
        let ghost key = all[i as int];
        proof {
            assert(all.take(i + 1).drop_last() =~= all.take(i as int));
            assert(all.take(i + 1).last() == key);
            assert(all.contains(key));
            assert(defs@.contains_key(key));
        }
        if let Some(def) = defs.get(names[i].as_str()) {
            if sets_both_lists(&def.hooks) {
                let ghost before = texts(out@);
                out.push(names[i].clone());
                assert(texts(out@) =~= before.push(key));
            }
        }
    }
    assert(all.take(all.len() as int) =~= all);
    out
}

fn check_servers(
    report: &mut ValidationReport,
    mcp_servers: &Vec<String>,
    defs: &Dict<ToolDef>,
    path: &str,
)
    ensures
        texts(final(report).errors@) == texts(old(report).errors@) + flat(
            texts(mcp_servers@).map_values(|s: Seq<char>| server_errors(s, *defs, path@)),
        ),
        texts(final(report).notes@) == texts(old(report).notes@) + flat(
            texts(mcp_servers@).map_values(|s: Seq<char>| server_notes(s, *defs)),
        ),
        final(report).warnings == old(report).warnings,
{
    let ghost errors = texts(report.errors@);
    let ghost notes = texts(report.notes@);
    let ghost es = texts(mcp_servers@).map_values(
        |s: Seq<char>| server_errors(s, *defs, path@),
    );
    let ghost ns = texts(mcp_servers@).map_values(|s: Seq<char>| server_notes(s, *defs));
    assert(errors + flat(es.take(0)) =~= errors);
    assert(notes + flat(ns.take(0)) =~= notes);
    let known = defs.keys();
    for i in 0..mcp_servers.len()
        invariant
            texts(known@) == entry_keys(defs.entries@),
            es == texts(mcp_servers@).map_values(
                |s: Seq<char>| server_errors(s, *defs, path@),
            ),
            ns == texts(mcp_servers@).map_values(|s: Seq<char>| server_notes(s, *defs)),
            texts(report.errors@) == errors + flat(es.take(i as int)),
            texts(report.notes@) == notes + flat(ns.take(i as int)),
            report.warnings == old(report).warnings,
    {
        let server = mcp_servers[i].as_str();
        proof {
            assert(es.take(i + 1) =~= es.take(i as int).push(es[i as int]));
            assert(ns.take(i + 1) =~= ns.take(i as int).push(ns[i as int]));
            lemma_flat_push(es.take(i as int), es[i as int]);
            lemma_flat_push(ns.take(i as int), ns[i as int]);
            assert(es[i as int] == server_errors(server@, *defs, path@));
            assert(ns[i as int] == server_notes(server@, *defs));
        }
        let ghost e0 = texts(report.errors@);
        let ghost n0 = texts(report.notes@);
        if defs.contains_key(server) {
            let mut n = "  ✓ mcp_servers '".to_owned();
            n.append(server);
            n.append("' found in tools file");
            say(&mut report.notes, n);
        } else {
            let mut e = unknown_server_message(server, &known);
            e.append(" (tools file: ");
            e.append(path);
            e.append(")");
            say(&mut report.errors, e);
        }
        assert(texts(report.errors@) =~= e0 + es[i as int]);
        assert(texts(report.notes@) =~= n0 + ns[i as int]);
        assert(texts(report.errors@) =~= errors + (flat(es.take(i as int)) + es[i as int]));
        assert(texts(report.notes@) =~= notes + (flat(ns.take(i as int)) + ns[i as int]));
    }
    assert(es.take(es.len() as int) =~= es);
    assert(ns.take(ns.len() as int) =~= ns);
}

/// What is said of an agent whose servers could not be checked.
pub const SERVERS_NOT_CHECKED: &'static str = "mcp_servers is non-empty but --tools-file was not provided; the servers it names were not checked";

/// What is wrong with an agent's servers.
pub open spec fn tools_errors(
    mcp_servers: Seq<Seq<char>>,
    tools: Option<Loaded<Dict<ToolDef>>>,
) -> Seq<Seq<char>> {
    match tools {
        None => Seq::empty(),
        Some(file) => match file.content {
            Ok(defs) => flat(
                mcp_servers.map_values(|s: Seq<char>| server_errors(s, defs, file.path@)),
            ),
            Err(e) => seq!["Tools file parse error: "@ + e@],
        },
    }
}

/// What is unusual about an agent's servers.
pub open spec fn tools_warnings(
    mcp_servers: Seq<Seq<char>>,
    tools: Option<Loaded<Dict<ToolDef>>>,
) -> Seq<Seq<char>> {
    match tools {
        None => if mcp_servers.len() > 0 {
            seq![SERVERS_NOT_CHECKED@]
        } else {
            Seq::empty()
        },
        Some(file) => match file.content {
            Ok(defs) => file_warnings(defs),
            Err(_) => Seq::empty(),
        },
    }
}

/// What is right about an agent's servers.
pub open spec fn tools_notes(
    mcp_servers: Seq<Seq<char>>,
    tools: Option<Loaded<Dict<ToolDef>>>,
) -> Seq<Seq<char>> {
    match tools {
        None => Seq::empty(),
        Some(file) => match file.content {
            Ok(defs) => seq![
                "✓ Tools file parsed: "@ + decimal(entry_keys(defs.entries@).len())
                    + " server(s) defined"@,
            ] + flat(mcp_servers.map_values(|s: Seq<char>| server_notes(s, defs))),
            Err(_) => Seq::empty(),
        },
    }
}

fn check_tools(
    report: &mut ValidationReport,
    mcp_servers: &Vec<String>,
    tools: &Option<Loaded<Dict<ToolDef>>>,
)
    ensures
        texts(final(report).errors@) == texts(old(report).errors@) + tools_errors(
            texts(mcp_servers@),
            *tools,
        ),
        texts(final(report).warnings@) == texts(old(report).warnings@) + tools_warnings(
            texts(mcp_servers@),
            *tools,
        ),
        texts(final(report).notes@) == texts(old(report).notes@) + tools_notes(
            texts(mcp_servers@),
            *tools,
        ),
{
    let ghost errors = texts(report.errors@);
    let ghost warnings = texts(report.warnings@);
    let ghost notes = texts(report.notes@);
    match tools {
        None => {
            if mcp_servers.len() > 0 {
                say(&mut report.warnings, SERVERS_NOT_CHECKED.to_owned());
            }
        },
        Some(file) => {
            match &file.content {
                Err(problem) => {
                    let mut e = "Tools file parse error: ".to_owned();
                    e.append(problem.as_str());
                    say(&mut report.errors, e);
                },
                Ok(defs) => {
                    let mut n = "✓ Tools file parsed: ".to_owned();
                    n.append(decimal_of(defs.keys().len() as u64).as_str());
                    n.append(" server(s) defined");
                    let ghost first = n@;
                    say(&mut report.notes, n);
                    let both = text::sorted(&find_both_lists(defs));
                    let ghost ws = file_warnings(*defs);
                    assert(warnings + ws.take(0) =~= warnings);
                    for i in 0..both.len()
                        invariant
                            texts(both@) == sort_texts(
                                both_lists(entry_keys(defs.entries@), defs@),
                            ),
                            ws == file_warnings(*defs),
                            texts(report.warnings@) == warnings + ws.take(i as int),
                            report.errors == old(report).errors,
                            texts(report.notes@) == notes.push(first),
                    {
                        let w = warn_of_both_lists(both[i].as_str());
                        assert(texts(both@)[i as int] == both@[i as int]@);
                        assert(w@ == ws[i as int]);
                        say(&mut report.warnings, w);
                        assert(texts(report.warnings@) =~= warnings + ws.take(i + 1));
                    }
                    assert(ws.take(ws.len() as int) =~= ws);
                    check_servers(report, mcp_servers, defs, file.path.as_str());
                    assert(texts(report.notes@) =~= notes + tools_notes(
                        texts(mcp_servers@),
                        *tools,
                    ));
                },
            }
        },
    }
    assert(texts(report.errors@) =~= errors + tools_errors(texts(mcp_servers@), *tools));
    assert(texts(report.warnings@) =~= warnings + tools_warnings(texts(mcp_servers@), *tools));
    assert(texts(report.notes@) =~= notes + tools_notes(texts(mcp_servers@), *tools));
}

// ── The template ──────────────────────────────────────────────────────────────

/// What is wrong with a template.
pub open spec fn template_errors(template: Option<Loaded<String>>) -> Seq<Seq<char>> {
    match template {
        None => Seq::empty(),
        Some(file) => match file.content {
            Ok(t) => {
                let unknown = unknown_from(t@, 0, Seq::empty());
                if unknown.len() == 0 {
                    Seq::empty()
                } else {
                    seq![
                        "template "@ + file.path@ + " uses "@ + decimal(unknown.len())
                            + " placeholder(s) nothing substitutes: "@ + join(unknown, ", "@),
                    ]
                }
            },
            Err(e) => seq!["Failed to read template "@ + file.path@ + ": "@ + e@],
        },
    }
}

/// What is right about a template.
pub open spec fn template_notes(template: Option<Loaded<String>>) -> Seq<Seq<char>> {
    match template {
        Some(file) => match file.content {
            Ok(t) => if unknown_from(t@, 0, Seq::empty()).len() == 0 {
                seq!["✓ Template checked: every placeholder is one atoma substitutes"@]
            } else {
                Seq::empty()
            },
            Err(_) => Seq::empty(),
        },
        None => Seq::empty(),
    }
}

fn check_template(report: &mut ValidationReport, template: &Option<Loaded<String>>)
    ensures
        texts(final(report).errors@) == texts(old(report).errors@) + template_errors(*template),
        texts(final(report).notes@) == texts(old(report).notes@) + template_notes(*template),
        final(report).warnings == old(report).warnings,
{
    let ghost errors = texts(report.errors@);
    let ghost notes = texts(report.notes@);
    if let Some(file) = template {
        match &file.content {
            Ok(t) => {
                let unknown = unknown_placeholders(t.as_str());
                assert(texts(unknown@).len() == unknown@.len());
                if unknown.len() == 0 {
                    say(
                        &mut report.notes,
                        "✓ Template checked: every placeholder is one atoma substitutes".to_owned(),
                    );
                } else {
                    let mut e = "template ".to_owned();
                    e.append(file.path.as_str());
                    e.append(" uses ");
                    e.append(decimal_of(unknown.len() as u64).as_str());
                    e.append(" placeholder(s) nothing substitutes: ");
                    e.append(text::joined(&unknown, ", ").as_str());
                    say(&mut report.errors, e);
                }
            },
            Err(problem) => {
                let mut e = "Failed to read template ".to_owned();
                e.append(file.path.as_str());
                e.append(": ");
                e.append(problem.as_str());
                say(&mut report.errors, e);
            },
        }
    }
    assert(texts(report.errors@) =~= errors + template_errors(*template));
    assert(texts(report.notes@) =~= notes + template_notes(*template));
}

// ── All of it ─────────────────────────────────────────────────────────────────

/// What is wrong with an agent's definition.
pub open spec fn agent_errors(
    agent: AgentDef,
    probes: Map<Seq<char>, ColleagueProbe>,
    tools: Option<Loaded<Dict<ToolDef>>>,
) -> Seq<Seq<char>> {
    flat(texts(agent.knows_about@).map_values(|n: Seq<char>| colleague_errors(n, probes)))
        + body_errors(agent.extra_body.fields()) + flat(
        entry_keys(agent.extra_headers.entries@).map_values(|n: Seq<char>| header_errors(n)),
    ) + provider_errors(text::opt_text(agent.provider)) + added_tools_errors(
        agent.extra_body.fields(),
    ) + tools_errors(texts(agent.mcp_servers@), tools)
}

/// What is right about an agent's definition.
pub open spec fn agent_notes(
    agent: AgentDef,
    probes: Map<Seq<char>, ColleagueProbe>,
    tools: Option<Loaded<Dict<ToolDef>>>,
) -> Seq<Seq<char>> {
    flat(texts(agent.knows_about@).map_values(|n: Seq<char>| colleague_notes(n, probes)))
        + provider_notes(text::opt_text(agent.provider)) + tools_notes(
        texts(agent.mcp_servers@),
        tools,
    )
}

/// What is wrong, whatever the caller's policy about warnings.
pub open spec fn found_errors(
    agent: Result<ParsedAgentDef, String>,
    probes: Map<Seq<char>, ColleagueProbe>,
    tools: Option<Loaded<Dict<ToolDef>>>,
    template: Option<Loaded<String>>,
) -> Seq<Seq<char>> {
    (match agent {
        Ok(a) => agent_errors(a.frontmatter, probes, tools),
        Err(e) => seq!["Agent definition parse error: "@ + e@],
    }) + template_errors(template)
}

/// What is unusual, whatever the caller's policy about warnings.
pub open spec fn found_warnings(
    agent: Result<ParsedAgentDef, String>,
    tools: Option<Loaded<Dict<ToolDef>>>,
) -> Seq<Seq<char>> {
    match agent {
        Ok(a) => tools_warnings(texts(a.frontmatter.mcp_servers@), tools),
        Err(_) => Seq::empty(),
    }
}

/// What is right.
pub open spec fn found_notes(
    agent: Result<ParsedAgentDef, String>,
    probes: Map<Seq<char>, ColleagueProbe>,
    tools: Option<Loaded<Dict<ToolDef>>>,
    template: Option<Loaded<String>>,
) -> Seq<Seq<char>> {
    (match agent {
        Ok(a) => seq!["✓ Agent definition parsed: "@ + a.frontmatter.name@] + agent_notes(
            a.frontmatter,
            probes,
            tools,
        ),
        Err(_) => Seq::empty(),
    }) + template_notes(template)
}

/// What is reported as an error, under the caller's policy about warnings.
pub open spec fn reported_errors(
    errors: Seq<Seq<char>>,
    warnings: Seq<Seq<char>>,
    strict: bool,
) -> Seq<Seq<char>> {
    if strict {
        errors + warnings
    } else {
        errors
    }
}

/// What is reported as a warning, under the caller's policy about warnings.
pub open spec fn reported_warnings(warnings: Seq<Seq<char>>, strict: bool) -> Seq<Seq<char>> {
    if strict {
        Seq::empty()
    } else {
        warnings
    }
}

impl ValidationReport {
    /// Whether the definition passes.
    pub fn passed(&self) -> (r: bool)
        ensures
            r == (self.errors@.len() == 0),
    {
        self.errors.len() == 0
    }
}

/// Validate an agent definition, and the tools file and the template given with it.
///
/// `strict` is the caller's policy about warnings and not a second opinion about the
/// configuration: what each check found is unchanged.
pub fn validate(
    agent: &Result<ParsedAgentDef, String>,
    probes: &Dict<ColleagueProbe>,
    tools: &Option<Loaded<Dict<ToolDef>>>,
    template: &Option<Loaded<String>>,
    strict: bool,
) -> (r: ValidationReport)
    ensures
        texts(r.errors@) == reported_errors(
            found_errors(*agent, probes@, *tools, *template),
            found_warnings(*agent, *tools),
            strict,
        ),
        texts(r.warnings@) == reported_warnings(found_warnings(*agent, *tools), strict),
        texts(r.notes@) == found_notes(*agent, probes@, *tools, *template),
{
    let mut report = ValidationReport {
        notes: Vec::new(),
        errors: Vec::new(),
        warnings: Vec::new(),
    };
    assert(texts(report.notes@) =~= Seq::<Seq<char>>::empty());
    assert(texts(report.errors@) =~= Seq::<Seq<char>>::empty());
    assert(texts(report.warnings@) =~= Seq::<Seq<char>>::empty());
    match agent {
        Ok(parsed) => {
            let a = &parsed.frontmatter;
            let mut n = "✓ Agent definition parsed: ".to_owned();
            n.append(a.name.as_str());
            let ghost first = n@;
            say(&mut report.notes, n);
            check_colleagues(&mut report, &a.knows_about, probes);
            check_body(&mut report, &a.extra_body);
            check_headers(&mut report, &a.extra_headers);
            check_provider(&mut report, &a.provider);
            check_added_tools(&mut report, &a.extra_body);
            check_tools(&mut report, &a.mcp_servers, tools);
            assert(texts(report.errors@) =~= agent_errors(*a, probes@, *tools));
            assert(texts(report.notes@) =~= seq![first] + agent_notes(*a, probes@, *tools));
            assert(texts(report.warnings@) =~= found_warnings(*agent, *tools));
        },
        Err(problem) => {
            let mut e = "Agent definition parse error: ".to_owned();
            e.append(problem.as_str());
            let ghost ev = e@;
            say(&mut report.errors, e);
            assert(texts(report.errors@) =~= seq![ev]);
        },
    }
    check_template(&mut report, template);
    assert(texts(report.notes@) =~= found_notes(*agent, probes@, *tools, *template));
    if strict {
        let ghost es = report.errors@;
        let ghost ws = report.warnings@;
        report.errors.append(&mut report.warnings);
        assert(texts(report.errors@) =~= texts(es) + texts(ws));
        assert(texts(report.warnings@) =~= Seq::<Seq<char>>::empty());
    }
    report
}

/// Strictness changes what passes and never what is found: a definition passes strictly
/// exactly when it passes and nothing about it is unusual.
pub proof fn law_strictness_only_moves_warnings(
    agent: Result<ParsedAgentDef, String>,
    probes: Map<Seq<char>, ColleagueProbe>,
    tools: Option<Loaded<Dict<ToolDef>>>,
    template: Option<Loaded<String>>,
)
    ensures
        (found_errors(agent, probes, tools, template) + found_warnings(agent, tools)).len() == 0
            <==> found_errors(agent, probes, tools, template).len() == 0 && found_warnings(
            agent,
            tools,
        ).len() == 0,
{
}

// ── Credentials ───────────────────────────────────────────────────────────────

/// The names of a comma-separated list from `from` on, without whitespace and without the
/// empty ones.
pub open spec fn listed_from(raw: Seq<char>, from: int) -> Seq<Seq<char>>
    decreases raw.len() - from,
{
    match text::find_from(raw, seq![','], from) {
        Some(i) if from <= i < raw.len() => {
            let name = trim(raw.subrange(from, i));
            (if name.len() > 0 {
                seq![name]
            } else {
                Seq::empty()
            }) + listed_from(raw, i + 1)
        },
        _ => {
            let name = trim(raw.skip(from));
            if name.len() > 0 {
                seq![name]
            } else {
                Seq::empty()
            }
        },
    }
}

/// The credential names a caller says are set, from one comma-separated argument. An empty
/// argument is no names, rather than one without a name.
pub fn credentials_from_arg(raw: &str) -> (r: Vec<String>)
    ensures
        texts(r@) == listed_from(raw@, 0),
{
    let chars = text::chars_of(raw);
    let end: usize = chars.len();
    let mut comma: Vec<char> = Vec::new();
    comma.push(',');
    assert(comma@ =~= seq![',']);
    let mut out: Vec<String> = Vec::new();
    let mut from: usize = 0;
    assert(texts(out@) + listed_from(raw@, 0) =~= listed_from(raw@, 0));
    loop
        invariant
            chars@ == raw@,
            from <= end == chars@.len(),
            comma@ == seq![','],
            listed_from(raw@, 0) == texts(out@) + listed_from(raw@, from as int),
        decreases end - from,
    {
        let found = text::find(&chars, &comma, from);
        let stop: usize = match found {
            Some(i) => i,
            None => end,
        };
        let name = text::trimmed(text::slice(&chars, from, stop).as_str());
        let ghost before = texts(out@);
        let ghost nv = name@;
        if !text::empty(name.as_str()) {
            out.push(name);
            assert(texts(out@) =~= before.push(nv));
        }
        match found {
            Some(i) => {
                proof {
                    let rest = listed_from(raw@, i + 1);
                    if nv.len() > 0 {
                        assert(before + (seq![nv] + rest) =~= texts(out@) + rest);
                    } else {
                        assert(before + (Seq::<Seq<char>>::empty() + rest) =~= texts(out@) + rest);
                    }
                }
                from = i + 1;
            },
            None => {
                proof {
                    assert(raw@.skip(from as int) =~= chars@.subrange(from as int, end as int));
                    if nv.len() > 0 {
                        assert(before + seq![nv] =~= texts(out@));
                    } else {
                        assert(before + Seq::<Seq<char>>::empty() =~= texts(out@));
                    }
                }
                return out;
            },
        }
    }
}

/// Whether the environment about to run a definition holds the credential it needs: the
/// provider it would ask and the variable that holds its credential, or what is in the way.
///
/// This is another question than whether the definition is right, and is asked only where
/// there are credentials.
pub fn validate_credentials(
    agent: &Result<ParsedAgentDef, String>,
    variable: Option<&str>,
    present: &Vec<String>,
) -> (r: Result<(Provider, String), String>)
    ensures
        match *agent {
            Err(e) => r is Err && r->Err_0@ == e@,
            Ok(a) => match r {
                Ok((p, credential)) => is_selected(
                    p,
                    text::opt_text(a.frontmatter.provider),
                    text::opt_str(variable),
                    texts(present@),
                ) && first_set(accepted_credentials(p), texts(present@)) == Some(credential@),
                Err(e) => exists|problem: SelectionProblem| #[trigger]
                    stands_in_the_way(
                        problem,
                        text::opt_text(a.frontmatter.provider),
                        text::opt_str(variable),
                        texts(present@),
                    ) && e@ == selection_message(problem),
            },
        },
{
    match agent {
        Err(e) => Err(e.clone()),
        Ok(a) => {
            let hint: Option<&str> = match &a.frontmatter.provider {
                Some(p) => Some(p.as_str()),
                None => None,
            };
            match check_credentials(hint, variable, present) {
                Ok(found) => Ok(found),
                Err(problem) => {
                    assert(stands_in_the_way(
                        problem,
                        text::opt_text(a.frontmatter.provider),
                        text::opt_str(variable),
                        texts(present@),
                    ));
                    Err(problem.message())
                },
            }
        },
    }
}

// ── What the servers themselves say ───────────────────────────────────────────

/// Those of several servers that a tools file has, in the order they are named.
pub open spec fn known_servers(names: Seq<Seq<char>>, defs: Map<Seq<char>, ToolDef>) -> Seq<
    Seq<char>,
>
    decreases names.len(),
{
    if names.len() == 0 {
        Seq::empty()
    } else if defs.contains_key(names.last()) {
        known_servers(names.drop_last(), defs).push(names.last())
    } else {
        known_servers(names.drop_last(), defs)
    }
}

/// The servers to start in order to ask them what they have: those the agent names. One that
/// the file has not got is an error of the definition and is left to that check.
pub fn servers_to_start<'a>(mcp_servers: &Vec<String>, defs: &'a Dict<ToolDef>) -> (r: Vec<
    &'a ToolDef,
>)
    ensures
        r@.len() == known_servers(texts(mcp_servers@), defs@).len(),
        forall|i: int|
            0 <= i < r@.len() ==> is_definition(
                #[trigger] r@[i],
                defs@,
                known_servers(texts(mcp_servers@), defs@)[i],
            ),
{
    let ghost all = texts(mcp_servers@);
    let mut out: Vec<&'a ToolDef> = Vec::new();
    for k in 0..mcp_servers.len()
        invariant
            all == texts(mcp_servers@),
            out@.len() == known_servers(all.take(k as int), defs@).len(),
            forall|i: int|
                0 <= i < out@.len() ==> is_definition(
                    #[trigger] out@[i],
                    defs@,
                    known_servers(all.take(k as int), defs@)[i],
                ),
    {
        assert(all.take(k + 1).drop_last() =~= all.take(k as int));
        assert(all.take(k + 1).last() == mcp_servers@[k as int]@);
        if let Some(def) = defs.get(mcp_servers[k].as_str()) {
            out.push(def);
        }
    }
    assert(all.take(all.len() as int) =~= all);
    out
}

/// What to say once `started` servers were asked what they have: that nothing is wrong, or how
/// much is. Everything found counts, fatal to a run or not.
pub fn live_tools_verdict(started: usize, found: &Vec<Finding>) -> (r: Result<String, String>)
    ensures
        match r {
            Ok(line) => found@.len() == 0 && line@ == "  ✓ "@ + decimal(started as nat)
                + " server(s) started and answered; nothing wrong with their tools"@,
            Err(e) => found@.len() > 0 && e@ == decimal(found@.len())
                + " problem(s) found by starting the tool servers"@,
        },
{
    if found.len() == 0 {
        let mut line = "  ✓ ".to_owned();
        line.append(decimal_of(started as u64).as_str());
        line.append(" server(s) started and answered; nothing wrong with their tools");
        Ok(line)
    } else {
        let mut e = decimal_of(found.len() as u64);
        e.append(" problem(s) found by starting the tool servers");
        Err(e)
    }
}

// ── What a validation promises ────────────────────────────────────────────────

/// A warning is an error exactly where the caller asks for that, and nothing that was found is
/// left out.
pub proof fn law_a_warning_is_an_error_only_under_strictness(
    errors: Seq<Seq<char>>,
    warnings: Seq<Seq<char>>,
)
    ensures
        reported_errors(errors, warnings, false) == errors,
        reported_warnings(warnings, false) == warnings,
        reported_errors(errors, warnings, true).take(errors.len() as int) == errors,
        reported_errors(errors, warnings, true).skip(errors.len() as int) == warnings,
        reported_warnings(warnings, true).len() == 0,
{
    assert(reported_errors(errors, warnings, true).take(errors.len() as int) =~= errors);
    assert(reported_errors(errors, warnings, true).skip(errors.len() as int) =~= warnings);
}

proof fn lemma_flat_is_empty(lists: Seq<Seq<Seq<char>>>)
    ensures
        flat(lists).len() == 0 <==> forall|i: int|
            0 <= i < lists.len() ==> (#[trigger] lists[i]).len() == 0,
    decreases lists.len(),
{
    if lists.len() > 0 {
        let most = lists.drop_last();
        lemma_flat_is_empty(most);
        assert(lists[lists.len() - 1] == lists.last());
        if flat(lists).len() == 0 {
            assert forall|i: int| 0 <= i < lists.len() implies (#[trigger] lists[i]).len() == 0 by {
                if i < most.len() {
                    assert(most[i] == lists[i]);
                }
            }
        } else if forall|i: int| 0 <= i < lists.len() ==> (#[trigger] lists[i]).len() == 0 {
            assert forall|i: int| 0 <= i < most.len() implies (#[trigger] most[i]).len() == 0 by {
                assert(most[i] == lists[i]);
            }
        }
    }
}

/// Whether nothing is wrong with the colleagues an agent names.
pub open spec fn colleagues_are_there(
    names: Seq<Seq<char>>,
    probes: Map<Seq<char>, ColleagueProbe>,
) -> bool {
    forall|i: int|
        0 <= i < names.len() ==> probes.contains_key(#[trigger] names[i]) && probes[names[i]].file
            is Readable
}

proof fn lemma_colleagues(names: Seq<Seq<char>>, probes: Map<Seq<char>, ColleagueProbe>)
    ensures
        flat(names.map_values(|n: Seq<char>| colleague_errors(n, probes))).len() == 0
            <==> colleagues_are_there(names, probes),
{
    let lists = names.map_values(|n: Seq<char>| colleague_errors(n, probes));
    lemma_flat_is_empty(lists);
    assert forall|i: int| 0 <= i < names.len() implies (#[trigger] lists[i]).len() == 0 <==> (
    probes.contains_key(names[i]) && probes[names[i]].file is Readable) by {}
    if colleagues_are_there(names, probes) {
        assert forall|i: int| 0 <= i < lists.len() implies (#[trigger] lists[i]).len() == 0 by {
            assert(probes.contains_key(names[i]));
        }
    } else {
        let i = choose|i: int|
            0 <= i < names.len() && !(probes.contains_key(#[trigger] names[i])
                && probes[names[i]].file is Readable);
        assert(lists[i].len() != 0);
    }
}

/// Whether every server an agent names is in the tools file.
pub open spec fn servers_are_there(names: Seq<Seq<char>>, defs: Map<Seq<char>, ToolDef>) -> bool {
    forall|i: int| 0 <= i < names.len() ==> defs.contains_key(#[trigger] names[i])
}

proof fn lemma_servers(names: Seq<Seq<char>>, defs: Dict<ToolDef>, path: Seq<char>)
    ensures
        flat(names.map_values(|s: Seq<char>| server_errors(s, defs, path))).len() == 0
            <==> servers_are_there(names, defs@),
{
    let lists = names.map_values(|s: Seq<char>| server_errors(s, defs, path));
    lemma_flat_is_empty(lists);
    if servers_are_there(names, defs@) {
        assert forall|i: int| 0 <= i < lists.len() implies (#[trigger] lists[i]).len() == 0 by {
            assert(defs@.contains_key(names[i]));
        }
    } else {
        let i = choose|i: int| 0 <= i < names.len() && !defs@.contains_key(#[trigger] names[i]);
        assert(lists[i].len() != 0);
    }
}

/// Whether none of an agent's headers is one that is set for it.
pub open spec fn headers_are_its_own(names: Seq<Seq<char>>) -> bool {
    forall|i: int|
        0 <= i < names.len() ==> !reserved_headers().contains(folded(#[trigger] names[i]))
}

proof fn lemma_headers(names: Seq<Seq<char>>)
    ensures
        flat(names.map_values(|n: Seq<char>| header_errors(n))).len() == 0 <==> headers_are_its_own(
            names,
        ),
{
    let lists = names.map_values(|n: Seq<char>| header_errors(n));
    lemma_flat_is_empty(lists);
    if headers_are_its_own(names) {
        assert forall|i: int| 0 <= i < lists.len() implies (#[trigger] lists[i]).len() == 0 by {
            assert(!reserved_headers().contains(folded(names[i])));
        }
    } else {
        let i = choose|i: int|
            0 <= i < names.len() && reserved_headers().contains(folded(#[trigger] names[i]));
        assert(lists[i].len() != 0);
    }
}

proof fn lemma_body(extra: Map<Seq<char>, JsonView>)
    ensures
        body_errors(extra).len() == 0 <==> !extra.contains_key("model"@) && !extra.contains_key(
            "messages"@,
        ) && !extra.contains_key("input"@) && !extra.contains_key("system"@)
            && !extra.contains_key("store"@),
{
    let keys = reserved_keys();
    let lists = keys.map_values(|k: Seq<char>| reserved_key_errors(k, extra));
    lemma_flat_is_empty(lists);
    assert(keys[0] == "model"@ && keys[1] == "messages"@ && keys[2] == "input"@ && keys[3]
        == "system"@ && keys[4] == "store"@);
    assert(lists[0] == reserved_key_errors(keys[0], extra));
    assert(lists[1] == reserved_key_errors(keys[1], extra));
    assert(lists[2] == reserved_key_errors(keys[2], extra));
    assert(lists[3] == reserved_key_errors(keys[3], extra));
    assert(lists[4] == reserved_key_errors(keys[4], extra));
}

/// A definition passes exactly where it can do what it says: it can be read, every colleague it
/// names is there and can be read, it adds nothing to its requests that is set for it, the
/// provider it names is known, its tools are a list, every server it names is in a tools file
/// that can be read, and its template asks for nothing that is not there.
pub proof fn law_a_definition_passes_exactly_where_nothing_is_wrong(
    agent: Result<ParsedAgentDef, String>,
    probes: Map<Seq<char>, ColleagueProbe>,
    tools: Option<Loaded<Dict<ToolDef>>>,
    template: Option<Loaded<String>>,
)
    ensures
        found_errors(agent, probes, tools, template).len() == 0 <==> {
            let a = agent->Ok_0.frontmatter;
            let extra = a.extra_body.fields();
            &&& agent is Ok
            &&& colleagues_are_there(texts(a.knows_about@), probes)
            &&& !extra.contains_key("model"@) && !extra.contains_key("messages"@)
                && !extra.contains_key("input"@) && !extra.contains_key("system"@)
                && !extra.contains_key("store"@)
            &&& headers_are_its_own(entry_keys(a.extra_headers.entries@))
            &&& a.provider is Some ==> trim(a.provider->0@).len() > 0 && provider_named(
                trim(a.provider->0@),
            ) is Some
            &&& extra.contains_key("tools"@) ==> extra["tools"@] is Array
            &&& tools is Some ==> tools->0.content is Ok && servers_are_there(
                texts(a.mcp_servers@),
                tools->0.content->Ok_0@,
            )
            &&& template is Some ==> template->0.content is Ok && unknown_from(
                template->0.content->Ok_0@,
                0,
                Seq::empty(),
            ).len() == 0
        },
{
    if let Ok(parsed) = agent {
        let a = parsed.frontmatter;
        lemma_colleagues(texts(a.knows_about@), probes);
        lemma_body(a.extra_body.fields());
        lemma_headers(entry_keys(a.extra_headers.entries@));
        if let Some(file) = tools {
            if let Ok(defs) = file.content {
                lemma_servers(texts(a.mcp_servers@), defs, file.path@);
            }
        }
    }
}

/// A header is one that is set for the agent whatever case its name is written in.
pub proof fn law_case_is_no_part_of_a_header(name: Seq<char>, i: int)
    requires
        0 <= i < name.len(),
    ensures
        folded(name).len() == name.len(),
        'A' <= name[i] <= 'Z' ==> folded(name)[i] as u32 == name[i] as u32 + 32,
        'a' <= name[i] <= 'z' || name[i] == '-' ==> folded(name)[i] == name[i],
{
}

proof fn lemma_both_lists(names: Seq<Seq<char>>, defs: Map<Seq<char>, ToolDef>, s: Seq<char>)
    ensures
        both_lists(names, defs).contains(s) <==> names.contains(s) && sets_both(defs[s].hooks),
    decreases names.len(),
{
    if names.len() > 0 {
        let most = names.drop_last();
        let last = names.last();
        lemma_both_lists(most, defs, s);
        assert(names.contains(s) <==> most.contains(s) || s == last) by {
            if names.contains(s) {
                let i = choose|i: int| 0 <= i < names.len() && names[i] == s;
                if i < most.len() {
                    assert(most[i] == s);
                }
            }
            if most.contains(s) {
                let i = choose|i: int| 0 <= i < most.len() && most[i] == s;
                assert(names[i] == s);
            }
            assert(names[most.len() as int] == last);
        }
        let before = both_lists(most, defs);
        let after = both_lists(names, defs);
        if sets_both(defs[last].hooks) {
            assert(after.contains(s) <==> before.contains(s) || s == last) by {
                if after.contains(s) {
                    let i = choose|i: int| 0 <= i < after.len() && after[i] == s;
                    if i < before.len() {
                        assert(before[i] == s);
                    }
                }
                if before.contains(s) {
                    let i = choose|i: int| 0 <= i < before.len() && before[i] == s;
                    assert(after[i] == s);
                }
                assert(after[before.len() as int] == last);
            }
        }
    }
}

/// A tools file is warned of for exactly those of its servers that set both of their lists; and
/// an agent that names servers is warned of where there is no file to look them up in.
pub proof fn law_every_server_with_both_lists_is_warned_of(
    defs: Dict<ToolDef>,
    server: Seq<char>,
    mcp_servers: Seq<Seq<char>>,
)
    ensures
        defs@.contains_key(server) && sets_both(defs@[server].hooks) ==> file_warnings(
            defs,
        ).contains(both_lists_warning(server)),
        (forall|s: Seq<char>| #[trigger] defs@.contains_key(s) ==> !sets_both(defs@[s].hooks))
            ==> file_warnings(defs).len() == 0,
        tools_warnings(mcp_servers, None).len() == 0 <==> mcp_servers.len() == 0,
{
    let names = entry_keys(defs.entries@);
    crate::dict::lemma_entry_keys(defs.entries@);
    let both = both_lists(names, defs@);
    text::lemma_sort_texts(both);
    lemma_both_lists(names, defs@, server);
    if defs@.contains_key(server) && sets_both(defs@[server].hooks) {
        assert(names.contains(server));
        assert(sort_texts(both).contains(server));
        let i = choose|i: int| 0 <= i < sort_texts(both).len() && sort_texts(both)[i] == server;
        assert(file_warnings(defs)[i] == both_lists_warning(server));
    }
    if forall|s: Seq<char>| #[trigger] defs@.contains_key(s) ==> !sets_both(defs@[s].hooks) {
        if both.len() > 0 {
            let s = both[0];
            assert(both.contains(s));
            lemma_both_lists(names, defs@, s);
            assert(names.contains(s));
            assert(defs@.contains_key(s));
        }
    }
}

proof fn lemma_listed_rest(raw: Seq<char>, base: int, from: int)
    requires
        0 <= base <= from <= raw.len(),
    ensures
        listed_from(raw, from) == listed_from(raw.skip(base), from - base),
    decreases raw.len() - from,
{
    let rest = raw.skip(base);
    text::lemma_find_in_rest(raw, seq![','], base, from);
    text::lemma_find_from(raw, seq![','], from);
    match text::find_from(raw, seq![','], from) {
        Some(i) => {
            lemma_listed_rest(raw, base, i + 1);
            assert(rest.subrange(from - base, i - base) =~= raw.subrange(from, i));
        },
        None => {
            assert(rest.skip(from - base) =~= raw.skip(from));
        },
    }
}

/// A list of names is every name between its commas, in order and without padding; what is
/// nothing but padding is no name.
pub proof fn law_every_name_between_commas_is_listed(first: Seq<char>, rest: Seq<char>)
    requires
        forall|i: int| 0 <= i < first.len() ==> #[trigger] first[i] != ',',
    ensures
        trim(first).len() > 0 ==> listed_from(first, 0) == seq![trim(first)],
        trim(first).len() == 0 ==> listed_from(first, 0).len() == 0,
        listed_from(first + seq![','] + rest, 0) == listed_from(first, 0) + listed_from(rest, 0),
{
    let comma = seq![','];
    let all = first + comma + rest;
    let at = first.len() as int;
    text::lemma_find_from(first, comma, 0);
    text::lemma_find_from(all, comma, 0);
    if let Some(i) = text::find_from(first, comma, 0) {
        assert(first.subrange(i, i + 1)[0] == first[i]);
    }
    assert(all.subrange(at, at + 1) =~= comma);
    assert(text::occurs_at(all, comma, at));
    assert forall|j: int| 0 <= j < at implies !text::occurs_at(all, comma, j) by {
        if text::occurs_at(all, comma, j) {
            assert(all.subrange(j, j + 1)[0] == first[j]);
        }
    }
    assert(text::find_from(all, comma, 0) == Some(at));
    lemma_listed_rest(all, at + 1, at + 1);
    assert(all.skip(at + 1) =~= rest);
    assert(all.subrange(0, at) =~= first);
    assert(first.skip(0) =~= first);
    assert(seq![trim(first)] + listed_from(rest, 0) =~= seq![trim(first)] + listed_from(rest, 0));
}

/// Of the servers an agent names those are started that the tools file has, all of them and in
/// the order they are named.
pub proof fn law_every_known_server_is_started(
    names: Seq<Seq<char>>,
    name: Seq<char>,
    defs: Map<Seq<char>, ToolDef>,
)
    ensures
        known_servers(Seq::empty(), defs).len() == 0,
        defs.contains_key(name) ==> known_servers(names.push(name), defs) == known_servers(
            names,
            defs,
        ).push(name),
        !defs.contains_key(name) ==> known_servers(names.push(name), defs) == known_servers(
            names,
            defs,
        ),
{
    assert(names.push(name).drop_last() =~= names);
}

/// A definition that can be read is warned of for its servers and for nothing else, as its tools
/// file stands; what is found to be right of one begins with its name.
pub proof fn law_a_definition_is_warned_of_for_its_servers(
    agent: Result<ParsedAgentDef, String>,
    probes: Map<Seq<char>, ColleagueProbe>,
    tools: Option<Loaded<Dict<ToolDef>>>,
    template: Option<Loaded<String>>,
    mcp_servers: Seq<Seq<char>>,
)
    ensures
        agent is Ok ==> found_warnings(agent, tools) == tools_warnings(
            texts(agent->Ok_0.frontmatter.mcp_servers@),
            tools,
        ),
        agent is Err ==> found_warnings(agent, tools).len() == 0,
        tools is Some && tools->0.content is Ok ==> tools_warnings(mcp_servers, tools)
            == file_warnings(tools->0.content->Ok_0),
        tools is Some && tools->0.content is Err ==> tools_warnings(mcp_servers, tools).len() == 0,
        tools is None && mcp_servers.len() > 0 ==> tools_warnings(mcp_servers, tools) == seq![
            SERVERS_NOT_CHECKED@,
        ],
        agent is Ok ==> found_notes(agent, probes, tools, template).len() > 0 && found_notes(
            agent,
            probes,
            tools,
            template,
        )[0] == "✓ Agent definition parsed: "@ + agent->Ok_0.frontmatter.name@,
{
}

/// Every error names what it is about: the colleague that is not there, the key or the header
/// that is set already, the provider that is not known, and the server that is not in the file.
pub proof fn law_an_error_names_what_it_is_about(
    name: Seq<char>,
    probes: Map<Seq<char>, ColleagueProbe>,
    extra: Map<Seq<char>, JsonView>,
    defs: Dict<ToolDef>,
    path: Seq<char>,
)
    ensures
        colleague_errors(name, probes).len() > 0 ==> text::contains(
            colleague_errors(name, probes)[0],
            name,
        ),
        reserved_key_errors(name, extra).len() > 0 ==> text::contains(
            reserved_key_errors(name, extra)[0],
            name,
        ),
        header_errors(name).len() > 0 ==> text::contains(header_errors(name)[0], name),
        trim(name).len() > 0 && provider_errors(Some(name)).len() > 0 ==> text::contains(
            provider_errors(Some(name))[0],
            trim(name),
        ),
        server_errors(name, defs, path).len() > 0 ==> text::contains(
            server_errors(name, defs, path)[0],
            name,
        ),
{
    let a = "knows_about '"@;
    if colleague_errors(name, probes).len() > 0 {
        let whole = colleague_errors(name, probes)[0];
        let rest = whole.skip(a.len() as int + name.len());
        assert(whole =~= a + name + rest);
        text::law_what_occurs_is_a_part(a, name, rest);
    }
    text::law_what_occurs_is_a_part(
        "extra_body contains reserved key '"@,
        name,
        "' which would be silently ignored"@,
    );
    text::law_what_occurs_is_a_part(
        "extra_headers contains '"@,
        name,
        "', which Atoma sets itself"@,
    );
    text::law_what_occurs_is_a_part("Unknown provider '"@, trim(name), KNOWN_PROVIDERS@);
    let b = "mcp_servers '"@;
    let said = unknown_server(name, entry_keys(defs.entries@)) + " (tools file: "@ + path + ")"@;
    let rest = said.skip(b.len() as int + name.len());
    assert(said =~= b + name + rest);
    text::law_what_occurs_is_a_part(b, name, rest);
}

} // verus!
