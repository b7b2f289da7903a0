//! The tools file: one reserved key, and a server under every other.
use crate::dict::{entry_keys, lemma_entry_keys, Dict};
use crate::domain::tool::{Hooks, ToolDef};
use crate::infra::credentials::{expand_from_environment, expanded, Credentials};
use crate::text;
use crate::text::{opt_text, starts_with, texts, trim};
use vstd::prelude::*;

verus! {

/// A server, as the file writes it.
#[derive(Debug)]
pub struct ToolConfig {
    pub command: String,
    pub args: Vec<String>,
    pub env: Dict<String>,
    /// Where the server is, for one that is reached over HTTP.
    pub url: Option<String>,
    /// Headers for every request to `url`.
    pub headers: Dict<String>,
    pub hooks: HooksConfig,
    /// Name this server's tools as they are, with no `server__` prefix.
    pub unprefixed: bool,
    /// Seconds one request to this server may take.
    pub request_timeout_secs: Option<u64>,
    /// Characters of one tool result that reach the model.
    pub max_output_chars: Option<usize>,
    /// Let a severity be guessed from the words in this server's output.
    pub guess_severity_from_output: bool,
}

impl Default for ToolConfig {
    fn default() -> (r: ToolConfig)
        ensures
            r.command@.len() == 0,
            r.args@.len() == 0,
            r.env@ == Map::<Seq<char>, String>::empty(),
            r.url is None,
            r.headers@ == Map::<Seq<char>, String>::empty(),
            r.hooks.tool_allowlist@.len() == 0,
            r.hooks.tool_denylist@.len() == 0,
            r.hooks.before_tool is None,
            r.hooks.after_tool is None,
            !r.unprefixed,
            r.request_timeout_secs is None,
            r.max_output_chars is None,
            !r.guess_severity_from_output,
    {
        ToolConfig {
            command: String::new(),
            args: Vec::new(),
            env: Dict::new(),
            url: None,
            headers: Dict::new(),
            hooks: HooksConfig::default(),
            unprefixed: false,
            request_timeout_secs: None,
            max_output_chars: None,
            guess_severity_from_output: false,
        }
    }
}

/// The whole file. `hooks` applies to every server.
#[derive(Debug)]
pub struct ToolsFile {
    pub hooks: HooksConfig,
    pub servers: Dict<ToolConfig>,
}

/// One hook script, or several.
#[derive(Debug)]
pub enum HookScripts {
    One(String),
    Many(Vec<String>),
}

impl HookScripts {
    /// The scripts, in the order they are written.
    pub open spec fn scripts(self) -> Seq<Seq<char>> {
        match self {
            HookScripts::One(script) => seq![script@],
            HookScripts::Many(scripts) => texts(scripts@),
        }
    }

    /// The scripts, in the order they are written.
    pub fn into_vec(self) -> (r: Vec<String>)
        ensures
            texts(r@) == self.scripts(),
    {
        match self {
            HookScripts::One(script) => {
                let mut out: Vec<String> = Vec::new();
                out.push(script);
                assert(texts(out@) =~= seq![script@]);
                out
            },
            HookScripts::Many(scripts) => scripts,
        }
    }

    /// A copy of the scripts, in the order they are written.
    pub fn to_vec(&self) -> (r: Vec<String>)
        ensures
            texts(r@) == self.scripts(),
    {
        match self {
            HookScripts::One(script) => {
                let mut out: Vec<String> = Vec::new();
                out.push(script.clone());
                assert(texts(out@) =~= seq![script@]);
                out
            },
            HookScripts::Many(scripts) => text::clone_all(scripts),
        }
    }
}

/// The hooks of a server or of the whole file.
#[derive(Debug)]
pub struct HooksConfig {
    pub tool_allowlist: Vec<String>,
    pub tool_denylist: Vec<String>,
    pub before_tool: Option<HookScripts>,
    pub after_tool: Option<HookScripts>,
}

impl Default for HooksConfig {
    fn default() -> (r: HooksConfig)
        ensures
            r.tool_allowlist@.len() == 0,
            r.tool_denylist@.len() == 0,
            r.before_tool is None,
            r.after_tool is None,
    {
        HooksConfig {
            tool_allowlist: Vec::new(),
            tool_denylist: Vec::new(),
            before_tool: None,
            after_tool: None,
        }
    }
}

// ── How a server is reached ───────────────────────────────────────────────────

/// What is written of a server's address, without the whitespace around it.
pub open spec fn address(cfg: ToolConfig) -> Seq<char> {
    match cfg.url {
        Some(u) => trim(u@),
        None => Seq::empty(),
    }
}

/// Why a server cannot be one, where it cannot: it is nowhere, its address is not one that can
/// be asked, or a credential is routed to where it reaches nothing.
pub open spec fn transport_problem(name: Seq<char>, cfg: ToolConfig) -> Option<Seq<char>> {
    let has_command = trim(cfg.command@).len() > 0;
    let url = address(cfg);
    let has_url = url.len() > 0;
    if !has_command && !has_url {
        Some(
            "Tool server '"@ + name
                + "' names neither 'command' nor 'url', so there is nothing to connect to. Give it a 'command' to start a server over stdio, a 'url' to reach one that is already running, or both to start one and reach it over HTTP."@,
        )
    } else if has_url && !starts_with(url, "http://"@) && !starts_with(url, "https://"@) {
        Some(
            "Tool server '"@ + name + "' has url '"@ + url
                + "', which is not an http:// or https:// address. Streamable HTTP is the only transport a url names."@,
        )
    } else if has_url && !has_command && cfg.env@ != Map::<Seq<char>, String>::empty() {
        Some(
            "Tool server '"@ + name
                + "' declares 'env' but no 'command', so nothing is started and those values reach nothing. A server at a url is authenticated with 'headers'."@,
        )
    } else if !has_url && cfg.headers@ != Map::<Seq<char>, String>::empty() {
        Some(
            "Tool server '"@ + name
                + "' declares 'headers' but no 'url'. A server spoken to over stdio has no requests to put them on; a credential reaches it through 'env'."@,
        )
    } else {
        None
    }
}

/// Whether a server's `command` and `url` are a way to reach it, or what is wrong with them.
pub fn transport_of(name: &str, cfg: &ToolConfig) -> (r: Result<(), String>)
    ensures
        match r {
            Ok(()) => transport_problem(name@, *cfg) is None,
            Err(e) => transport_problem(name@, *cfg) == Some(e@),
        },
{
    let has_command = !text::blank(cfg.command.as_str());
    let url: String = match &cfg.url {
        Some(u) => text::trimmed(u.as_str()),
        None => {
            let none = String::new();
            assert(none@ =~= address(*cfg));
            none
        },
    };
    let has_url = !text::empty(url.as_str());
    let mut e = "Tool server '".to_owned();
    e.append(name);
    if !has_command && !has_url {
        e.append(
            "' names neither 'command' nor 'url', so there is nothing to connect to. Give it a 'command' to start a server over stdio, a 'url' to reach one that is already running, or both to start one and reach it over HTTP.",
        );
        return Err(e);
    }
    if has_url && !text::begins(url.as_str(), "http://") && !text::begins(
        url.as_str(),
        "https://",
    ) {
        e.append("' has url '");
        e.append(url.as_str());
        e.append(
            "', which is not an http:// or https:// address. Streamable HTTP is the only transport a url names.",
        );
        return Err(e);
    }
    if has_url && !has_command && !cfg.env.is_empty() {
        e.append(
            "' declares 'env' but no 'command', so nothing is started and those values reach nothing. A server at a url is authenticated with 'headers'.",
        );
        return Err(e);
    }
    if !has_url && !cfg.headers.is_empty() {
        e.append(
            "' declares 'headers' but no 'url'. A server spoken to over stdio has no requests to put them on; a credential reaches it through 'env'.",
        );
        return Err(e);
    }
    Ok(())
}

/// A credential is never routed to where it reaches nothing: a server that is accepted has a
/// process for its environment and an address for its headers.
pub proof fn law_an_accepted_server_receives_what_is_routed_to_it(name: Seq<char>, cfg: ToolConfig)
    requires
        transport_problem(name, cfg) is None,
    ensures
        cfg.env@ != Map::<Seq<char>, String>::empty() ==> trim(cfg.command@).len() > 0,
        cfg.headers@ != Map::<Seq<char>, String>::empty() ==> address(cfg).len() > 0,
        trim(cfg.command@).len() > 0 || address(cfg).len() > 0,
{
}

// ── Hook scripts ──────────────────────────────────────────────────────────────

/// Where a script is, relative to the tools file, and whether there is one.
#[derive(Debug)]
pub struct ScriptPath {
    pub resolved: String,
    pub exists: bool,
}

/// Where a script is. One that was not looked for is where it says, and is not there.
pub open spec fn script_path(script: Seq<char>, paths: Map<Seq<char>, ScriptPath>) -> Seq<char> {
    if paths.contains_key(script) {
        paths[script].resolved@
    } else {
        script
    }
}

/// Whether there is such a script.
pub open spec fn script_exists(script: Seq<char>, paths: Map<Seq<char>, ScriptPath>) -> bool {
    paths.contains_key(script) && paths[script].exists
}

/// The scripts of an entry.
pub open spec fn scripts_of(s: Option<HookScripts>) -> Seq<Seq<char>> {
    match s {
        Some(h) => h.scripts(),
        None => Seq::empty(),
    }
}

/// The first script that does not exist.
pub open spec fn first_missing(
    scripts: Seq<Seq<char>>,
    paths: Map<Seq<char>, ScriptPath>,
) -> Option<Seq<char>>
    decreases scripts.len(),
{
    if scripts.len() == 0 {
        None
    } else if !script_exists(scripts[0], paths) {
        Some(scripts[0])
    } else {
        first_missing(scripts.drop_first(), paths)
    }
}

/// What is said of a script that does not exist.
pub open spec fn missing_script(script: Seq<char>, paths: Map<Seq<char>, ScriptPath>) -> Seq<char> {
    "Hook script not found: '"@ + script_path(script, paths) + "' (resolved from '"@ + script
        + "')"@
}

/// Why the scripts of an entry cannot be run, where they cannot.
pub open spec fn scripts_problem(
    s: Option<HookScripts>,
    paths: Map<Seq<char>, ScriptPath>,
) -> Option<Seq<char>> {
    match first_missing(scripts_of(s), paths) {
        Some(script) => Some(missing_script(script, paths)),
        None => None,
    }
}

/// Where the scripts of an entry are, in the order it names them.
pub open spec fn resolved_scripts(
    s: Option<HookScripts>,
    paths: Map<Seq<char>, ScriptPath>,
) -> Seq<Seq<char>> {
    scripts_of(s).map_values(|script: Seq<char>| script_path(script, paths))
}

fn resolve(s: &Option<HookScripts>, paths: &Dict<ScriptPath>) -> (r: Result<Vec<String>, String>)
    ensures
        match r {
            Ok(list) => scripts_problem(*s, paths@) is None && texts(list@) == resolved_scripts(
                *s,
                paths@,
            ),
            Err(e) => scripts_problem(*s, paths@) == Some(e@),
        },
{
    let scripts: Vec<String> = match s {
        Some(h) => h.to_vec(),
        None => {
            let none: Vec<String> = Vec::new();
            assert(texts(none@) =~= scripts_of(*s));
            none
        },
    };
    let ghost all = texts(scripts@);
    assert(all.skip(0) =~= all);
    let mut out: Vec<String> = Vec::new();
    for i in 0..scripts.len()
        invariant
            all == texts(scripts@),
            all == scripts_of(*s),
            out@.len() == i,
            first_missing(all, paths@) == first_missing(all.skip(i as int), paths@),
            forall|j: int| 0 <= j < i ==> (#[trigger] out@[j])@ == script_path(all[j], paths@),
    {
        assert(all.skip(i as int)[0] == scripts@[i as int]@);
        assert(all.skip(i as int).drop_first() =~= all.skip(i + 1));
        let (at, there) = match paths.get(scripts[i].as_str()) {
            Some(p) => (p.resolved.clone(), p.exists),
            None => (scripts[i].clone(), false),
        };
        if !there {
            let mut e = "Hook script not found: '".to_owned();
            e.append(at.as_str());
            e.append("' (resolved from '");
            e.append(scripts[i].as_str());
            e.append("')");
            return Err(e);
        }
        out.push(at);
    }
    assert(texts(out@) =~= resolved_scripts(*s, paths@));
    Ok(out)
}

// ── Definitions ───────────────────────────────────────────────────────────────

/// Why a server of the file cannot be one, where it cannot.
pub open spec fn server_problem(
    name: Seq<char>,
    cfg: ToolConfig,
    paths: Map<Seq<char>, ScriptPath>,
) -> Option<Seq<char>> {
    match transport_problem(name, cfg) {
        Some(e) => Some(e),
        None => match scripts_problem(cfg.hooks.before_tool, paths) {
            Some(e) => Some(e),
            None => scripts_problem(cfg.hooks.after_tool, paths),
        },
    }
}

/// A limit, where zero means none was set.
pub open spec fn unless_zero(n: Option<u64>) -> Option<u64> {
    match n {
        Some(0) => None,
        other => other,
    }
}

/// Where a server is reached: what its address expands to, unless that is nothing.
pub open spec fn expanded_url(cfg: ToolConfig, environment: Map<Seq<char>, Seq<char>>) -> Option<
    Seq<char>,
> {
    match cfg.url {
        Some(u) => if expanded(trim(u@), environment).len() > 0 {
            Some(expanded(trim(u@), environment))
        } else {
            None
        },
        None => None,
    }
}

/// Whether a definition is what an entry of the file defines. Arguments and the address are
/// expanded from the environment, values and headers from the credentials; the scripts of the
/// whole file come before the server's own.
pub open spec fn is_definition_of(
    def: ToolDef,
    name: Seq<char>,
    cfg: ToolConfig,
    file: HooksConfig,
    paths: Map<Seq<char>, ScriptPath>,
    credentials: Map<Seq<char>, Seq<char>>,
    environment: Map<Seq<char>, Seq<char>>,
) -> bool {
    &&& def.name@ == name
    &&& def.command@ == cfg.command@
    &&& texts(def.args@) == texts(cfg.args@).map_values(|a: Seq<char>| expanded(a, environment))
    &&& def.env.texts() == cfg.env.texts().map_values(|v: Seq<char>| expanded(v, credentials))
    &&& opt_text(def.url) == expanded_url(cfg, environment)
    &&& def.headers.texts() == cfg.headers.texts().map_values(
        |v: Seq<char>| expanded(v, credentials),
    )
    &&& texts(def.hooks.tool_allowlist@) == texts(cfg.hooks.tool_allowlist@)
    &&& texts(def.hooks.tool_denylist@) == texts(cfg.hooks.tool_denylist@)
    &&& texts(def.hooks.before_tool@) == resolved_scripts(file.before_tool, paths)
        + resolved_scripts(cfg.hooks.before_tool, paths)
    &&& texts(def.hooks.after_tool@) == resolved_scripts(file.after_tool, paths) + resolved_scripts(
        cfg.hooks.after_tool,
        paths,
    )
    &&& def.unprefixed == cfg.unprefixed
    &&& def.request_timeout_secs == unless_zero(cfg.request_timeout_secs)
    &&& match cfg.max_output_chars {
        Some(n) if n > 0 => def.max_output_chars == Some(n),
        _ => def.max_output_chars is None,
    }
    &&& def.guess_severity_from_output == cfg.guess_severity_from_output
}

fn expand_values(values: &Dict<String>, credentials: &Credentials, environment: &Dict<String>) -> (r:
    Dict<String>)
    ensures
        r.texts() == values.texts().map_values(
            |v: Seq<char>| expanded(v, credentials.source(*environment)),
        ),
{
    let mut out: Dict<String> = Dict::new();
    let ghost all = values.entries@;
    let ghost source = credentials.source(*environment);
    let ghost f = |v: String| expanded(v@, source);
    assert(out.texts() =~= crate::dict::entries_map(all.take(0)).map_values(f));
    for i in 0..values.entries.len()
        invariant
            all == values.entries@,
            source == credentials.source(*environment),
            f == (|v: String| expanded(v@, source)),
            out.texts() == crate::dict::entries_map(all.take(i as int)).map_values(f),
    {
        assert(all.take(i + 1).drop_last() =~= all.take(i as int));
        let ghost before = out.texts();
        let value = credentials.expand(values.entries[i].1.as_str(), environment);
        let ghost vv = value@;
        out.insert(values.entries[i].0.clone(), value);
        assert(out.texts() =~= before.insert(all[i as int].0@, vv));
        assert(out.texts() =~= crate::dict::entries_map(all.take(i + 1)).map_values(f));
    }
    assert(all.take(all.len() as int) =~= all);
    assert(out.texts() =~= values.texts().map_values(|v: Seq<char>| expanded(v, source)));
    out
}

fn expand_args(args: &Vec<String>, environment: &Dict<String>) -> (r: Vec<String>)
    ensures
        texts(r@) == texts(args@).map_values(
            |a: Seq<char>| expanded(a, environment.texts()),
        ),
{
    let mut out: Vec<String> = Vec::new();
    for i in 0..args.len()
        invariant
            out@.len() == i,
            forall|j: int|
                0 <= j < i ==> (#[trigger] out@[j])@ == expanded(args@[j]@, environment.texts()),
    {
        out.push(expand_from_environment(args[i].as_str(), environment));
    }
    assert(texts(out@) =~= texts(args@).map_values(
        |a: Seq<char>| expanded(a, environment.texts()),
    ));
    out
}

fn chained(first: &Vec<String>, second: &Vec<String>) -> (r: Vec<String>)
    ensures
        texts(r@) == texts(first@) + texts(second@),
{
    let mut out = text::clone_all(first);
    let ghost head = texts(out@);
    assert(head + texts(second@).take(0) =~= head);
    for i in 0..second.len()
        invariant
            texts(out@) == head + texts(second@).take(i as int),
    {
        let ghost before = texts(out@);
        out.push(second[i].clone());
        assert(texts(out@) =~= before.push(second@[i as int]@));
        assert(texts(out@) =~= head + texts(second@).take(i + 1));
    }
    assert(texts(second@).take(second@.len() as int) =~= texts(second@));
    out
}

fn define(
    name: &str,
    cfg: &ToolConfig,
    file: &HooksConfig,
    wide_before: &Vec<String>,
    wide_after: &Vec<String>,
    paths: &Dict<ScriptPath>,
    credentials: &Credentials,
    environment: &Dict<String>,
) -> (r: Result<ToolDef, String>)
    requires
        texts(wide_before@) == resolved_scripts(file.before_tool, paths@),
        texts(wide_after@) == resolved_scripts(file.after_tool, paths@),
    ensures
        match r {
            Ok(def) => server_problem(name@, *cfg, paths@) is None && is_definition_of(
                def,
                name@,
                *cfg,
                *file,
                paths@,
                credentials.source(*environment),
                environment.texts(),
            ),
            Err(e) => server_problem(name@, *cfg, paths@) == Some(e@),
        },
{
    match transport_of(name, cfg) {
        Ok(()) => {},
        Err(e) => return Err(e),
    }
    let before = match resolve(&cfg.hooks.before_tool, paths) {
        Ok(list) => list,
        Err(e) => return Err(e),
    };
    let after = match resolve(&cfg.hooks.after_tool, paths) {
        Ok(list) => list,
        Err(e) => return Err(e),
    };
    let url: Option<String> = match &cfg.url {
        Some(u) => {
            let at = expand_from_environment(text::trimmed(u.as_str()).as_str(), environment);
            if text::empty(at.as_str()) {
                None
            } else {
                Some(at)
            }
        },
        None => None,
    };
    Ok(
        ToolDef {
            name: name.to_owned(),
            command: cfg.command.clone(),
            args: expand_args(&cfg.args, environment),
            env: expand_values(&cfg.env, credentials, environment),
            url,
            headers: expand_values(&cfg.headers, credentials, environment),
            hooks: Hooks {
                tool_allowlist: text::clone_all(&cfg.hooks.tool_allowlist),
                tool_denylist: text::clone_all(&cfg.hooks.tool_denylist),
                before_tool: chained(wide_before, &before),
                after_tool: chained(wide_after, &after),
            },
            unprefixed: cfg.unprefixed,
            max_output_chars: match cfg.max_output_chars {
                Some(n) => if n > 0 {
                    Some(n)
                } else {
                    None
                },
                None => None,
            },
            request_timeout_secs: match cfg.request_timeout_secs {
                Some(n) => if n > 0 {
                    Some(n)
                } else {
                    None
                },
                None => None,
            },
            guess_severity_from_output: cfg.guess_severity_from_output,
        },
    )
}

/// The first problem of the servers, in the order they are listed.
pub open spec fn first_server_problem(
    names: Seq<Seq<char>>,
    servers: Map<Seq<char>, ToolConfig>,
    paths: Map<Seq<char>, ScriptPath>,
) -> Option<Seq<char>>
    decreases names.len(),
{
    if names.len() == 0 {
        None
    } else {
        match server_problem(names[0], servers[names[0]], paths) {
            Some(e) => Some(e),
            None => first_server_problem(names.drop_first(), servers, paths),
        }
    }
}

/// Why a file cannot be used, where it cannot: a script of the whole file, or else a server.
pub open spec fn file_problem(file: ToolsFile, paths: Map<Seq<char>, ScriptPath>) -> Option<
    Seq<char>,
> {
    match scripts_problem(file.hooks.before_tool, paths) {
        Some(e) => Some(e),
        None => match scripts_problem(file.hooks.after_tool, paths) {
            Some(e) => Some(e),
            None => first_server_problem(
                entry_keys(file.servers.entries@),
                file.servers@,
                paths,
            ),
        },
    }
}

/// Whether definitions are those of a file: one for each of its servers, and no others.
pub open spec fn are_definitions_of(
    defs: Map<Seq<char>, ToolDef>,
    file: ToolsFile,
    paths: Map<Seq<char>, ScriptPath>,
    credentials: Map<Seq<char>, Seq<char>>,
    environment: Map<Seq<char>, Seq<char>>,
) -> bool {
    &&& defs.dom() == file.servers@.dom()
    &&& forall|name: Seq<char>| #[trigger]
        defs.contains_key(name) ==> is_definition_of(
            defs[name],
            name,
            file.servers@[name],
            file.hooks,
            paths,
            credentials,
            environment,
        )
}

/// The servers a tools file defines, or what is wrong with the file. `paths` says where the
/// scripts it names are.
pub fn load(
    file: &ToolsFile,
    paths: &Dict<ScriptPath>,
    credentials: &Credentials,
    environment: &Dict<String>,
) -> (r: Result<Dict<ToolDef>, String>)
    ensures
        match r {
            Ok(defs) => file_problem(*file, paths@) is None && are_definitions_of(
                defs@,
                *file,
                paths@,
                credentials.source(*environment),
                environment.texts(),
            ),
            Err(e) => file_problem(*file, paths@) == Some(e@),
        },
{
    let wide_before = match resolve(&file.hooks.before_tool, paths) {
        Ok(list) => list,
        Err(e) => return Err(e),
    };
    let wide_after = match resolve(&file.hooks.after_tool, paths) {
        Ok(list) => list,
        Err(e) => return Err(e),
    };
    let names = file.servers.keys();
    let ghost all = texts(names@);
    let ghost source = credentials.source(*environment);
    proof {
        lemma_entry_keys(file.servers.entries@);
        assert(all.skip(0) =~= all);
    }
    let mut out: Dict<ToolDef> = Dict::new();
    for i in 0..names.len()
        invariant
            all == texts(names@),
            all == entry_keys(file.servers.entries@),
            forall|k: Seq<char>| all.contains(k) <==> #[trigger] file.servers@.contains_key(k),
            source == credentials.source(*environment),
            texts(wide_before@) == resolved_scripts(file.hooks.before_tool, paths@),
            texts(wide_after@) == resolved_scripts(file.hooks.after_tool, paths@),
            scripts_problem(file.hooks.before_tool, paths@) is None,
            scripts_problem(file.hooks.after_tool, paths@) is None,
            first_server_problem(all, file.servers@, paths@) == first_server_problem(
                all.skip(i as int),
                file.servers@,
                paths@,
            ),
            forall|k: Seq<char>| #[trigger]
                out@.contains_key(k) <==> all.take(i as int).contains(k),
            forall|k: Seq<char>| #[trigger]
                out@.contains_key(k) ==> is_definition_of(
                    out@[k],
                    k,
                    file.servers@[k],
                    file.hooks,
                    paths@,
                    source,
                    environment.texts(),
                ),
    {
        let ghost name = all[i as int];
        proof {
            assert(all.skip(i as int)[0] == name);
            assert(all.skip(i as int).drop_first() =~= all.skip(i + 1));
            assert(all.contains(name));
            assert(file.servers@.contains_key(name));
        }
        if let Some(cfg) = file.servers.get(names[i].as_str()) {
            match define(
                names[i].as_str(),
                cfg,
                &file.hooks,
                &wide_before,
                &wide_after,
                paths,
                credentials,
                environment,
            ) {
                Ok(def) => {
                    let ghost before = out@;
                    out.insert(names[i].clone(), def);
                    proof {
                        let a = all.take(i as int);
                        let b = all.take(i + 1);
                        assert(b =~= a.push(name));
                        assert forall|k: Seq<char>| #[trigger]
                            out@.contains_key(k) <==> b.contains(k) by {
                            assert(before.contains_key(k) <==> a.contains(k));
                            if b.contains(k) {
                                let m = choose|m: int| 0 <= m < b.len() && b[m] == k;
                                if m < a.len() {
                                    assert(a[m] == k);
                                }
                            }
                            if a.contains(k) {
                                let m = choose|m: int| 0 <= m < a.len() && a[m] == k;
                                assert(b[m] == k);
                            }
                            assert(b[i as int] == name);
                        }
                    }
                },
                Err(e) => return Err(e),
            }
        }
    }
    proof {
        assert(all.take(all.len() as int) =~= all);
        assert(out@.dom() =~= file.servers@.dom()) by {
            assert forall|k: Seq<char>| out@.dom().contains(k) <==> file.servers@.dom().contains(
                k,
            ) by {
                assert(out@.contains_key(k) <==> all.contains(k));
                assert(file.servers@.contains_key(k) <==> all.contains(k));
            }
        }
    }
    Ok(out)
}

/// A rule of the whole file cannot be skipped by a server's own: its scripts come first.
pub proof fn law_file_wide_hooks_come_first(
    def: ToolDef,
    name: Seq<char>,
    cfg: ToolConfig,
    file: HooksConfig,
    paths: Map<Seq<char>, ScriptPath>,
    credentials: Map<Seq<char>, Seq<char>>,
    environment: Map<Seq<char>, Seq<char>>,
)
    requires
        is_definition_of(def, name, cfg, file, paths, credentials, environment),
    ensures
        texts(def.hooks.before_tool@).take(scripts_of(file.before_tool).len() as int)
            == resolved_scripts(file.before_tool, paths),
        texts(def.hooks.after_tool@).take(scripts_of(file.after_tool).len() as int)
            == resolved_scripts(file.after_tool, paths),
{
    let before = resolved_scripts(file.before_tool, paths);
    let after = resolved_scripts(file.after_tool, paths);
    assert(texts(def.hooks.before_tool@).take(before.len() as int) =~= before);
    assert(texts(def.hooks.after_tool@).take(after.len() as int) =~= after);
}

// ── Adapter ───────────────────────────────────────────────────────────────────

/// What reads tools files: it holds a run's credentials, so that nothing else has to pass them
/// on.
#[derive(Debug)]
pub struct FileToolDefAdapter {
    pub credentials: Credentials,
}

impl FileToolDefAdapter {
    /// An adapter with a run's credentials.
    pub fn new(credentials: Credentials) -> (r: FileToolDefAdapter)
        ensures
            r.credentials == credentials,
    {
        FileToolDefAdapter { credentials }
    }

    /// The servers a tools file defines.
    pub fn load(
        &self,
        file: &ToolsFile,
        paths: &Dict<ScriptPath>,
        environment: &Dict<String>,
    ) -> (r: Result<Dict<ToolDef>, String>)
        ensures
            match r {
                Ok(defs) => file_problem(*file, paths@) is None && are_definitions_of(
                    defs@,
                    *file,
                    paths@,
                    self.credentials.source(*environment),
                    environment.texts(),
                ),
                Err(e) => file_problem(*file, paths@) == Some(e@),
            },
    {
        load(file, paths, &self.credentials, environment)
    }
}

impl Default for FileToolDefAdapter {
    fn default() -> (r: FileToolDefAdapter)
        ensures
            r.credentials.values is None,
    {
        FileToolDefAdapter::new(Credentials::from_environment())
    }
}

// ── What a tools file promises ────────────────────────────────────────────────

/// A server is accepted exactly where it can be reached and what is routed to it reaches it: it
/// names a command or an address, the address is one that can be asked, an environment has a
/// process, and headers have an address.
pub proof fn law_a_server_is_accepted_exactly_where_it_can_be_reached(
    name: Seq<char>,
    cfg: ToolConfig,
)
    ensures
        transport_problem(name, cfg) is None <==> {
            let command = trim(cfg.command@).len() > 0;
            let url = match cfg.url {
                Some(u) => trim(u@),
                None => Seq::empty(),
            };
            &&& command || url.len() > 0
            &&& url.len() > 0 ==> starts_with(url, "http://"@) || starts_with(url, "https://"@)
            &&& cfg.env@ != Map::<Seq<char>, String>::empty() ==> command
            &&& cfg.headers@ != Map::<Seq<char>, String>::empty() ==> url.len() > 0
        },
{
}

/// A server is defined as its entry writes it: under its name, with its command and its lists
/// as they are, its arguments and address expanded from the environment, and its values and
/// headers from the credentials, each under its own name.
pub proof fn law_a_server_is_defined_as_it_is_written(
    def: ToolDef,
    name: Seq<char>,
    cfg: ToolConfig,
    file: HooksConfig,
    paths: Map<Seq<char>, ScriptPath>,
    credentials: Map<Seq<char>, Seq<char>>,
    environment: Map<Seq<char>, Seq<char>>,
    k: Seq<char>,
    i: int,
)
    requires
        is_definition_of(def, name, cfg, file, paths, credentials, environment),
    ensures
        def.name@ == name,
        def.command@ == cfg.command@,
        def.args@.len() == cfg.args@.len(),
        0 <= i < cfg.args@.len() ==> def.args@[i]@ == expanded(cfg.args@[i]@, environment),
        def.env.texts().contains_key(k) <==> cfg.env.texts().contains_key(k),
        cfg.env.texts().contains_key(k) ==> def.env.texts()[k] == expanded(
            cfg.env.texts()[k],
            credentials,
        ),
        def.headers.texts().contains_key(k) <==> cfg.headers.texts().contains_key(k),
        cfg.headers.texts().contains_key(k) ==> def.headers.texts()[k] == expanded(
            cfg.headers.texts()[k],
            credentials,
        ),
        cfg.url is None ==> def.url is None,
        cfg.url is Some && expanded(trim(cfg.url->0@), environment).len() > 0 ==> def.url is Some
            && def.url->0@ == expanded(trim(cfg.url->0@), environment),
        def.hooks.tool_allowlist@.len() == cfg.hooks.tool_allowlist@.len(),
        0 <= i < cfg.hooks.tool_allowlist@.len() ==> def.hooks.tool_allowlist@[i]@
            == cfg.hooks.tool_allowlist@[i]@,
        def.hooks.tool_denylist@.len() == cfg.hooks.tool_denylist@.len(),
        0 <= i < cfg.hooks.tool_denylist@.len() ==> def.hooks.tool_denylist@[i]@
            == cfg.hooks.tool_denylist@[i]@,
        def.unprefixed == cfg.unprefixed,
        def.guess_severity_from_output == cfg.guess_severity_from_output,
        cfg.request_timeout_secs is Some && cfg.request_timeout_secs->0 > 0
            ==> def.request_timeout_secs == cfg.request_timeout_secs,
        cfg.request_timeout_secs is None || cfg.request_timeout_secs == Some(0u64)
            ==> def.request_timeout_secs is None,
        cfg.max_output_chars is Some && cfg.max_output_chars->0 > 0 ==> def.max_output_chars
            == cfg.max_output_chars,
        cfg.max_output_chars is None || cfg.max_output_chars == Some(0usize)
            ==> def.max_output_chars is None,
{
    let args = texts(cfg.args@).map_values(|a: Seq<char>| expanded(a, environment));
    assert(texts(def.args@).len() == args.len());
    if 0 <= i < cfg.args@.len() {
        assert(texts(def.args@)[i] == args[i]);
        assert(texts(def.args@)[i] == def.args@[i]@);
        assert(texts(cfg.args@)[i] == cfg.args@[i]@);
    }
    assert(texts(def.hooks.tool_allowlist@).len() == texts(cfg.hooks.tool_allowlist@).len());
    assert(texts(def.hooks.tool_denylist@).len() == texts(cfg.hooks.tool_denylist@).len());
    if 0 <= i < cfg.hooks.tool_allowlist@.len() {
        assert(texts(def.hooks.tool_allowlist@)[i] == texts(cfg.hooks.tool_allowlist@)[i]);
    }
    if 0 <= i < cfg.hooks.tool_denylist@.len() {
        assert(texts(def.hooks.tool_denylist@)[i] == texts(cfg.hooks.tool_denylist@)[i]);
    }
}

/// A call runs every script that the file and the server name, the file's first, each list in
/// its own order and where it was found.
pub proof fn law_every_script_is_run_where_it_was_found(
    def: ToolDef,
    name: Seq<char>,
    cfg: ToolConfig,
    file: HooksConfig,
    paths: Map<Seq<char>, ScriptPath>,
    credentials: Map<Seq<char>, Seq<char>>,
    environment: Map<Seq<char>, Seq<char>>,
    i: int,
)
    requires
        is_definition_of(def, name, cfg, file, paths, credentials, environment),
    ensures
        ({
            let wide = scripts_of(file.before_tool);
            let own = scripts_of(cfg.hooks.before_tool);
            &&& def.hooks.before_tool@.len() == wide.len() + own.len()
            &&& 0 <= i < wide.len() && paths.contains_key(wide[i]) ==> def.hooks.before_tool@[i]@
                == paths[wide[i]].resolved@
            &&& 0 <= i < own.len() && paths.contains_key(own[i]) ==> def.hooks.before_tool@[
                wide.len() + i]@ == paths[own[i]].resolved@
        }),
        ({
            let wide = scripts_of(file.after_tool);
            let own = scripts_of(cfg.hooks.after_tool);
            &&& def.hooks.after_tool@.len() == wide.len() + own.len()
            &&& 0 <= i < wide.len() && paths.contains_key(wide[i]) ==> def.hooks.after_tool@[i]@
                == paths[wide[i]].resolved@
            &&& 0 <= i < own.len() && paths.contains_key(own[i]) ==> def.hooks.after_tool@[
                wide.len() + i]@ == paths[own[i]].resolved@
        }),
{
    lemma_scripts(def.hooks.before_tool@, file.before_tool, cfg.hooks.before_tool, paths, i);
    lemma_scripts(def.hooks.after_tool@, file.after_tool, cfg.hooks.after_tool, paths, i);
}

proof fn lemma_scripts(
    list: Seq<String>,
    wide: Option<HookScripts>,
    own: Option<HookScripts>,
    paths: Map<Seq<char>, ScriptPath>,
    i: int,
)
    requires
        texts(list) == resolved_scripts(wide, paths) + resolved_scripts(own, paths),
    ensures
        list.len() == scripts_of(wide).len() + scripts_of(own).len(),
        0 <= i < scripts_of(wide).len() && paths.contains_key(scripts_of(wide)[i]) ==> list[i]@
            == paths[scripts_of(wide)[i]].resolved@,
        0 <= i < scripts_of(own).len() && paths.contains_key(scripts_of(own)[i]) ==> list[
            scripts_of(wide).len() + i]@ == paths[scripts_of(own)[i]].resolved@,
{
    let a = resolved_scripts(wide, paths);
    let b = resolved_scripts(own, paths);
    assert(texts(list).len() == list.len());
    if 0 <= i < a.len() {
        assert(texts(list)[i] == a[i]);
        assert(texts(list)[i] == list[i]@);
    }
    if 0 <= i < b.len() {
        assert(texts(list)[a.len() + i] == b[i]);
        assert(texts(list)[a.len() + i] == list[a.len() + i]@);
    }
}

/// A script may be written alone or in a list, and is the same script.
pub proof fn law_one_script_is_a_list_of_one(script: String, scripts: Vec<String>)
    ensures
        HookScripts::One(script).scripts() == seq![script@],
        HookScripts::Many(scripts).scripts() == texts(scripts@),
        scripts@ == seq![script] ==> HookScripts::One(script).scripts() == HookScripts::Many(
            scripts,
        ).scripts(),
{
    if scripts@ == seq![script] {
        assert(texts(scripts@) =~= seq![script@]);
    }
}

/// Scripts can be run exactly where each of them is there, and what is said otherwise names one
/// that is not.
pub proof fn law_only_a_script_that_is_not_there_is_refused(
    scripts: Seq<Seq<char>>,
    paths: Map<Seq<char>, ScriptPath>,
)
    ensures
        first_missing(scripts, paths) is None <==> forall|i: int|
            0 <= i < scripts.len() ==> paths.contains_key(#[trigger] scripts[i])
                && paths[scripts[i]].exists,
        first_missing(scripts, paths) is Some ==> scripts.contains(first_missing(scripts, paths)->0),
    decreases scripts.len(),
{
    if scripts.len() > 0 {
        let rest = scripts.drop_first();
        law_only_a_script_that_is_not_there_is_refused(rest, paths);
        if script_exists(scripts[0], paths) {
            assert forall|i: int|
                first_missing(rest, paths) is None && 0 <= i < scripts.len() implies paths.contains_key(
                #[trigger] scripts[i],
            ) && paths[scripts[i]].exists by {
                if i > 0 {
                    assert(rest[i - 1] == scripts[i]);
                }
            }
            assert forall|i: int| 0 <= i < rest.len() implies #[trigger] rest[i] == scripts[i + 1] by {}
            if first_missing(rest, paths) is Some {
                let bad = first_missing(rest, paths)->0;
                let j = choose|j: int| 0 <= j < rest.len() && rest[j] == bad;
                assert(scripts[j + 1] == bad);
            }
        } else {
            assert(scripts.contains(scripts[0]));
        }
    }
}

/// A file is used exactly where its own scripts are there and each of its servers can be one.
pub proof fn law_a_file_is_used_exactly_where_every_server_can_be_one(
    file: ToolsFile,
    paths: Map<Seq<char>, ScriptPath>,
)
    ensures
        file_problem(file, paths) is None <==> {
            &&& scripts_problem(file.hooks.before_tool, paths) is None
            &&& scripts_problem(file.hooks.after_tool, paths) is None
            &&& forall|name: Seq<char>|
                #![trigger file.servers@.contains_key(name)]
                file.servers@.contains_key(name) ==> {
                    &&& transport_problem(name, file.servers@[name]) is None
                    &&& scripts_problem(file.servers@[name].hooks.before_tool, paths) is None
                    &&& scripts_problem(file.servers@[name].hooks.after_tool, paths) is None
                }
        },
{
    let names = entry_keys(file.servers.entries@);
    lemma_entry_keys(file.servers.entries@);
    lemma_first_server_problem(names, file.servers@, paths);
    if first_server_problem(names, file.servers@, paths) is None {
        assert forall|name: Seq<char>| #[trigger] file.servers@.contains_key(name) implies server_problem(
            name,
            file.servers@[name],
            paths,
        ) is None by {
            assert(names.contains(name));
            let i = choose|i: int| 0 <= i < names.len() && names[i] == name;
            assert(server_problem(names[i], file.servers@[names[i]], paths) is None);
        }
    } else {
        let i = choose|i: int|
            0 <= i < names.len() && server_problem(
                #[trigger] names[i],
                file.servers@[names[i]],
                paths,
            ) is Some;
        assert(names.contains(names[i]));
        assert(file.servers@.contains_key(names[i]));
    }
}

proof fn lemma_first_server_problem(
    names: Seq<Seq<char>>,
    servers: Map<Seq<char>, ToolConfig>,
    paths: Map<Seq<char>, ScriptPath>,
)
    ensures
        first_server_problem(names, servers, paths) is None ==> forall|i: int|
            0 <= i < names.len() ==> server_problem(
                #[trigger] names[i],
                servers[names[i]],
                paths,
            ) is None,
        first_server_problem(names, servers, paths) is Some ==> exists|i: int|
            0 <= i < names.len() && server_problem(
                #[trigger] names[i],
                servers[names[i]],
                paths,
            ) is Some,
    decreases names.len(),
{
    if names.len() > 0 {
        let rest = names.drop_first();
        lemma_first_server_problem(rest, servers, paths);
        if server_problem(names[0], servers[names[0]], paths) is None {
            if first_server_problem(rest, servers, paths) is None {
                assert forall|i: int| 0 <= i < names.len() implies server_problem(
                    #[trigger] names[i],
                    servers[names[i]],
                    paths,
                ) is None by {
                    if i > 0 {
                        assert(rest[i - 1] == names[i]);
                    }
                }
            } else {
                let i = choose|i: int|
                    0 <= i < rest.len() && server_problem(
                        #[trigger] rest[i],
                        servers[rest[i]],
                        paths,
                    ) is Some;
                assert(server_problem(names[i + 1], servers[names[i + 1]], paths) is Some);
            }
        } else {
            assert(server_problem(names[0], servers[names[0]], paths) is Some);
        }
    }
}

/// There is a definition for every server of a file and for no other name.
pub proof fn law_every_server_of_a_file_is_defined(
    defs: Map<Seq<char>, ToolDef>,
    file: ToolsFile,
    paths: Map<Seq<char>, ScriptPath>,
    credentials: Map<Seq<char>, Seq<char>>,
    environment: Map<Seq<char>, Seq<char>>,
    name: Seq<char>,
)
    requires
        are_definitions_of(defs, file, paths, credentials, environment),
    ensures
        defs.contains_key(name) <==> file.servers@.contains_key(name),
        defs.contains_key(name) ==> defs[name].name@ == name && defs[name].command@
            == file.servers@[name].command@,
{
    assert(defs.dom().contains(name) <==> file.servers@.dom().contains(name));
}

/// The scripts of an entry are those it writes, in order; they can be run exactly where each of
/// them is there; and what is said otherwise names the script as it is written and where it was
/// looked for.
pub proof fn law_the_scripts_of_an_entry_are_those_it_writes(
    s: Option<HookScripts>,
    paths: Map<Seq<char>, ScriptPath>,
    script: Seq<char>,
)
    ensures
        s is Some ==> scripts_of(s) == s->0.scripts(),
        s is None ==> scripts_of(s).len() == 0,
        scripts_problem(s, paths) is None <==> forall|i: int|
            0 <= i < scripts_of(s).len() ==> paths.contains_key(#[trigger] scripts_of(s)[i])
                && paths[scripts_of(s)[i]].exists,
        text::contains(missing_script(script, paths), script),
        paths.contains_key(script) ==> text::contains(
            missing_script(script, paths),
            paths[script].resolved@,
        ),
{
    law_only_a_script_that_is_not_there_is_refused(scripts_of(s), paths);
    let at = script_path(script, paths);
    let a = "Hook script not found: '"@;
    let b = "' (resolved from '"@;
    let c = "')"@;
    assert(missing_script(script, paths) =~= (a + at + b) + script + c);
    text::law_what_occurs_is_a_part(a + at + b, script, c);
    assert(missing_script(script, paths) =~= a + at + (b + script + c));
    text::law_what_occurs_is_a_part(a, at, b + script + c);
}

} // verus!
