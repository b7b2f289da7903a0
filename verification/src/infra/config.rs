//! What a run is configured with, from the command line and `atoma.toml`.
//!
//! Run settings come from, highest first: the command line, the selected profile, the
//! defaults, and a hard-coded default. Environment values come from the process environment,
//! then the profile, then the top level.
use crate::clock::Duration;
use crate::dict::Dict;
use crate::text;
use crate::text::{opt_text, texts};
use vstd::prelude::*;

verus! {

/// The configuration file.
#[derive(Debug)]
pub struct AtomaConfig {
    /// Environment variable names no tool server may inherit, on top of the provider keys.
    /// A property of the project and not of the run: no profile can narrow it.
    pub protect_env: Vec<String>,
    pub defaults: DefaultsConfig,
    pub profiles: Dict<ProfileConfig>,
    pub env: Dict<String>,
}

/// Default argument values.
#[derive(Debug)]
pub struct DefaultsConfig {
    pub agent_def: Option<String>,
    pub tools_file: Option<String>,
    pub skills_dir: Option<String>,
    pub template: Option<String>,
    pub max_iterations: Option<u32>,
    pub max_runtime_secs: Option<u64>,
    pub output: OutputFormat,
}

impl Default for DefaultsConfig {
    fn default() -> (r: DefaultsConfig)
        ensures
            r.agent_def is None,
            r.tools_file is None,
            r.skills_dir is None,
            r.template is None,
            r.max_iterations is None,
            r.max_runtime_secs is None,
            r.output == OutputFormat::Text,
    {
        DefaultsConfig {
            agent_def: None,
            tools_file: None,
            skills_dir: None,
            template: None,
            max_iterations: None,
            max_runtime_secs: None,
            output: OutputFormat::Text,
        }
    }
}

/// How a run prints what it ended with.
#[derive(Debug, Clone, Copy, PartialEq, Eq, Structural)]
pub enum OutputFormat {
    Text,
    Json,
}

impl OutputFormat {
    /// Read the `--output` flag's value.
    pub fn from_arg(raw: &str) -> (r: Result<OutputFormat, String>)
        ensures
            match r {
                Ok(OutputFormat::Text) => raw@ == "text"@,
                Ok(OutputFormat::Json) => raw@ == "json"@,
                Err(e) => raw@ != "text"@ && raw@ != "json"@ && e@ == "Unsupported output format: "@
                    + raw@ + ". Valid values: text, json"@,
            },
    {
        if text::same(raw, "text") {
            return Ok(OutputFormat::Text);
        }
        if text::same(raw, "json") {
            return Ok(OutputFormat::Json);
        }
        let mut e = "Unsupported output format: ".to_owned();
        e.append(raw);
        e.append(". Valid values: text, json");
        Err(e)
    }
}

/// Named profile overrides.
#[derive(Debug)]
pub struct ProfileConfig {
    pub agent_def: Option<String>,
    pub tools_file: Option<String>,
    pub skills_dir: Option<String>,
    pub template: Option<String>,
    pub max_iterations: Option<u32>,
    pub max_runtime_secs: Option<u64>,
    pub output: Option<OutputFormat>,
    pub env: Dict<String>,
}

impl Default for ProfileConfig {
    fn default() -> (r: ProfileConfig)
        ensures
            r.agent_def is None,
            r.tools_file is None,
            r.skills_dir is None,
            r.template is None,
            r.max_iterations is None,
            r.max_runtime_secs is None,
            r.output is None,
            r.env@ == Map::<Seq<char>, String>::empty(),
    {
        ProfileConfig {
            agent_def: None,
            tools_file: None,
            skills_dir: None,
            template: None,
            max_iterations: None,
            max_runtime_secs: None,
            output: None,
            env: Dict::new(),
        }
    }
}

/// Configuration resolved for a single run. A ceiling that is `None` is none.
#[derive(Debug)]
pub struct ResolvedConfig {
    pub agent_def: String,
    pub tools_file: Option<String>,
    pub skills_dir: Option<String>,
    pub template: Option<String>,
    pub max_iterations: Option<u32>,
    pub max_runtime: Option<Duration>,
    pub output: OutputFormat,
    pub env: Dict<String>,
}

/// What the command line says.
#[derive(Debug)]
pub struct CliOverrides {
    pub agent_def: Option<String>,
    pub tools_file: Option<String>,
    pub skills_dir: Option<String>,
    pub template: Option<String>,
    pub max_iterations: Option<u32>,
    pub max_runtime_secs: Option<u64>,
    pub output: Option<OutputFormat>,
}

// ── Precedence ────────────────────────────────────────────────────────────────

/// The highest of three sources that says anything.
pub open spec fn pick<T>(cli: Option<T>, profile: Option<T>, defaults: Option<T>) -> Option<T> {
    match (cli, profile) {
        (Some(x), _) => Some(x),
        (None, Some(x)) => Some(x),
        (None, None) => defaults,
    }
}

/// What an optional source says.
pub open spec fn from_source<S, T>(source: Option<S>, read: spec_fn(S) -> Option<T>) -> Option<T> {
    match source {
        Some(s) => read(s),
        None => None,
    }
}

/// The profile a run selects, or why there is none.
pub open spec fn selected_profile(
    profile_name: Option<Seq<char>>,
    config: Option<AtomaConfig>,
) -> Result<Option<ProfileConfig>, Seq<char>> {
    match (config, profile_name) {
        (_, None) => Ok(None),
        (None, Some(_)) => Err("--profile requires an atoma.toml configuration file"@),
        (Some(cfg), Some(name)) => if cfg.profiles@.contains_key(name) {
            Ok(Some(cfg.profiles@[name]))
        } else {
            Err("Profile '"@ + name + "' not found in atoma.toml"@)
        },
    }
}

/// A time limit: none is none, and so is zero.
pub open spec fn runtime_limit(secs: Option<u64>) -> Option<Duration> {
    match secs {
        Some(n) if n > 0 => Some(Duration { secs: n, nanos: 0 }),
        _ => None,
    }
}

/// Whether a configuration is what the command line, the selected profile and the
/// configuration file resolve to.
pub open spec fn is_resolved(
    r: ResolvedConfig,
    cli: CliOverrides,
    profile: Option<ProfileConfig>,
    config: Option<AtomaConfig>,
) -> bool {
    &&& Some(r.agent_def@) == pick(
        pick(
            opt_text(cli.agent_def),
            from_source(profile, |p: ProfileConfig| opt_text(p.agent_def)),
            from_source(config, |c: AtomaConfig| opt_text(c.defaults.agent_def)),
        ),
        None,
        Some("agent.md"@),
    )
    &&& opt_text(r.tools_file) == pick(
        opt_text(cli.tools_file),
        from_source(profile, |p: ProfileConfig| opt_text(p.tools_file)),
        from_source(config, |c: AtomaConfig| opt_text(c.defaults.tools_file)),
    )
    &&& opt_text(r.skills_dir) == pick(
        opt_text(cli.skills_dir),
        from_source(profile, |p: ProfileConfig| opt_text(p.skills_dir)),
        from_source(config, |c: AtomaConfig| opt_text(c.defaults.skills_dir)),
    )
    &&& opt_text(r.template) == pick(
        opt_text(cli.template),
        from_source(profile, |p: ProfileConfig| opt_text(p.template)),
        from_source(config, |c: AtomaConfig| opt_text(c.defaults.template)),
    )
    &&& r.max_iterations == pick(
        cli.max_iterations,
        from_source(profile, |p: ProfileConfig| p.max_iterations),
        from_source(config, |c: AtomaConfig| c.defaults.max_iterations),
    )
    &&& r.max_runtime == runtime_limit(
        pick(
            cli.max_runtime_secs,
            from_source(profile, |p: ProfileConfig| p.max_runtime_secs),
            from_source(config, |c: AtomaConfig| c.defaults.max_runtime_secs),
        ),
    )
    &&& Some(r.output) == pick(
        pick(
            cli.output,
            from_source(profile, |p: ProfileConfig| p.output),
            from_source(config, |c: AtomaConfig| Some(c.defaults.output)),
        ),
        None,
        Some(OutputFormat::Text),
    )
    &&& r.env@ == config_env(config).union_prefer_right(profile_env(profile))
}

/// The environment a configuration file sets at its top level.
pub open spec fn config_env(config: Option<AtomaConfig>) -> Map<Seq<char>, String> {
    match config {
        Some(c) => c.env@,
        None => Map::empty(),
    }
}

/// The environment a profile sets.
pub open spec fn profile_env(profile: Option<ProfileConfig>) -> Map<Seq<char>, String> {
    match profile {
        Some(p) => p.env@,
        None => Map::empty(),
    }
}

fn pick_text(cli: Option<String>, profile: Option<&String>, defaults: Option<&String>) -> (r: Option<
    String,
>)
    ensures
        opt_text(r) == pick(
            opt_text(cli),
            match profile {
                Some(p) => Some(p@),
                None => None,
            },
            match defaults {
                Some(d) => Some(d@),
                None => None,
            },
        ),
{
    match (cli, profile) {
        (Some(x), _) => Some(x),
        (None, Some(x)) => Some(x.clone()),
        (None, None) => match defaults {
            Some(x) => Some(x.clone()),
            None => None,
        },
    }
}

fn pick_copy<T: Copy>(cli: Option<T>, profile: Option<T>, defaults: Option<T>) -> (r: Option<T>)
    ensures
        r == pick(cli, profile, defaults),
{
    match (cli, profile) {
        (Some(x), _) => Some(x),
        (None, Some(x)) => Some(x),
        (None, None) => defaults,
    }
}

/// Resolve the command line against the configuration file.
pub fn resolve_run_config(
    overrides: CliOverrides,
    profile_name: Option<&str>,
    config: Option<&AtomaConfig>,
) -> (r: Result<ResolvedConfig, String>)
    ensures
        ({
            let cfg = match config {
                Some(c) => Some(*c),
                None => None,
            };
            let profile = selected_profile(text::opt_str(profile_name), cfg);
            match r {
                Ok(resolved) => profile is Ok && is_resolved(
                    resolved,
                    overrides,
                    profile->Ok_0,
                    cfg,
                ),
                Err(e) => profile is Err && e@ == profile->Err_0,
            }
        }),
{
    let profile: Option<&ProfileConfig> = match (config, profile_name) {
        (_, None) => None,
        (None, Some(_)) => return Err(
            "--profile requires an atoma.toml configuration file".to_owned(),
        ),
        (Some(cfg), Some(name)) => match cfg.profiles.get(name) {
            Some(p) => Some(p),
            None => {
                let mut e = "Profile '".to_owned();
                e.append(name);
                e.append("' not found in atoma.toml");
                return Err(e);
            },
        },
    };
    let agent_def = pick_text(
        overrides.agent_def,
        match profile {
            Some(p) => p.agent_def.as_ref(),
            None => None,
        },
        match config {
            Some(c) => c.defaults.agent_def.as_ref(),
            None => None,
        },
    );
    let tools_file = pick_text(
        overrides.tools_file,
        match profile {
            Some(p) => p.tools_file.as_ref(),
            None => None,
        },
        match config {
            Some(c) => c.defaults.tools_file.as_ref(),
            None => None,
        },
    );
    let skills_dir = pick_text(
        overrides.skills_dir,
        match profile {
            Some(p) => p.skills_dir.as_ref(),
            None => None,
        },
        match config {
            Some(c) => c.defaults.skills_dir.as_ref(),
            None => None,
        },
    );
    let template = pick_text(
        overrides.template,
        match profile {
            Some(p) => p.template.as_ref(),
            None => None,
        },
        match config {
            Some(c) => c.defaults.template.as_ref(),
            None => None,
        },
    );
    let max_iterations = pick_copy(
        overrides.max_iterations,
        match profile {
            Some(p) => p.max_iterations,
            None => None,
        },
        match config {
            Some(c) => c.defaults.max_iterations,
            None => None,
        },
    );
    let max_runtime_secs = pick_copy(
        overrides.max_runtime_secs,
        match profile {
            Some(p) => p.max_runtime_secs,
            None => None,
        },
        match config {
            Some(c) => c.defaults.max_runtime_secs,
            None => None,
        },
    );
    let output = pick_copy(
        overrides.output,
        match profile {
            Some(p) => p.output,
            None => None,
        },
        match config {
            Some(c) => Some(c.defaults.output),
            None => None,
        },
    );
    let mut env: Dict<String> = match config {
        Some(c) => c.env.copy(),
        None => Dict::new(),
    };
    match profile {
        Some(p) => env.extend(&p.env),
        None => {
            assert(env@.union_prefer_right(Map::<Seq<char>, String>::empty()) =~= env@);
        },
    }
    Ok(
        ResolvedConfig {
            agent_def: match agent_def {
                Some(a) => a,
                None => "agent.md".to_owned(),
            },
            tools_file,
            skills_dir,
            template,
            max_iterations,
            max_runtime: match max_runtime_secs {
                Some(n) => if n > 0 {
                    Some(Duration::from_secs(n))
                } else {
                    None
                },
                None => None,
            },
            output: match output {
                Some(o) => o,
                None => OutputFormat::Text,
            },
            env,
        },
    )
}

/// What the command line says stands, whatever the profile and the defaults say; what the
/// profile says stands where the command line says nothing.
pub proof fn law_the_command_line_beats_the_profile_beats_the_defaults(
    r: ResolvedConfig,
    cli: CliOverrides,
    profile: Option<ProfileConfig>,
    config: Option<AtomaConfig>,
)
    requires
        is_resolved(r, cli, profile, config),
    ensures
        cli.agent_def is Some ==> r.agent_def@ == cli.agent_def->0@,
        cli.agent_def is None && profile is Some && profile->0.agent_def is Some ==> r.agent_def@
            == profile->0.agent_def->0@,
        cli.agent_def is None && (profile is None || profile->0.agent_def is None) && config is Some
            && config->0.defaults.agent_def is Some ==> r.agent_def@
            == config->0.defaults.agent_def->0@,
        cli.agent_def is None && profile is None && config is None ==> r.agent_def@ == "agent.md"@,
        cli.tools_file is Some ==> opt_text(r.tools_file) == opt_text(cli.tools_file),
        cli.tools_file is None && profile is Some && profile->0.tools_file is Some ==> opt_text(
            r.tools_file,
        ) == opt_text(profile->0.tools_file),
        cli.tools_file is None && (profile is None || profile->0.tools_file is None) && config is Some
            ==> opt_text(r.tools_file) == opt_text(config->0.defaults.tools_file),
        cli.skills_dir is Some ==> opt_text(r.skills_dir) == opt_text(cli.skills_dir),
        cli.skills_dir is None && profile is Some && profile->0.skills_dir is Some ==> opt_text(
            r.skills_dir,
        ) == opt_text(profile->0.skills_dir),
        cli.skills_dir is None && (profile is None || profile->0.skills_dir is None) && config is Some
            ==> opt_text(r.skills_dir) == opt_text(config->0.defaults.skills_dir),
        cli.template is Some ==> opt_text(r.template) == opt_text(cli.template),
        cli.template is None && profile is Some && profile->0.template is Some ==> opt_text(
            r.template,
        ) == opt_text(profile->0.template),
        cli.template is None && (profile is None || profile->0.template is None) && config is Some
            ==> opt_text(r.template) == opt_text(config->0.defaults.template),
        cli.max_iterations is Some ==> r.max_iterations == cli.max_iterations,
        cli.max_iterations is None && profile is Some && profile->0.max_iterations is Some
            ==> r.max_iterations == profile->0.max_iterations,
        cli.max_iterations is None && (profile is None || profile->0.max_iterations is None)
            && config is Some ==> r.max_iterations == config->0.defaults.max_iterations,
        cli.max_runtime_secs is Some ==> r.max_runtime == runtime_limit(cli.max_runtime_secs),
        cli.max_runtime_secs is None && profile is Some && profile->0.max_runtime_secs is Some
            ==> r.max_runtime == runtime_limit(profile->0.max_runtime_secs),
        cli.max_runtime_secs is None && (profile is None || profile->0.max_runtime_secs is None)
            && config is Some ==> r.max_runtime == runtime_limit(
            config->0.defaults.max_runtime_secs,
        ),
        cli.output is Some ==> r.output == cli.output->0,
        cli.output is None && profile is Some && profile->0.output is Some ==> r.output
            == profile->0.output->0,
        cli.output is None && (profile is None || profile->0.output is None) && config is Some
            ==> r.output == config->0.defaults.output,
        forall|k: Seq<char>|
            profile is Some && #[trigger] profile->0.env@.contains_key(k) ==> r.env@.contains_key(k)
                && r.env@[k] == profile->0.env@[k],
        forall|k: Seq<char>|
            config is Some && #[trigger] config->0.env@.contains_key(k) && !profile_env(
                profile,
            ).contains_key(k) ==> r.env@.contains_key(k) && r.env@[k] == config->0.env@[k],
{
}

/// The environment values to set in the process.
pub open spec fn injected(
    resolved: Map<Seq<char>, String>,
    process: Map<Seq<char>, String>,
) -> Map<Seq<char>, String> {
    resolved.remove_keys(process.dom())
}

/// The environment values to set in the process: those the configuration sets that the
/// process has not.
pub fn env_to_inject(resolved: &Dict<String>, process: &Dict<String>) -> (r: Dict<String>)
    ensures
        r@ == injected(resolved@, process@),
{
    let mut out: Dict<String> = resolved.copy();
    let ghost all = process.entries@;
    assert(resolved@.remove_keys(crate::dict::entries_map(all.take(0)).dom()) =~= resolved@);
    for i in 0..process.entries.len()
        invariant
            all == process.entries@,
            out@ == resolved@.remove_keys(crate::dict::entries_map(all.take(i as int)).dom()),
    {
        assert(all.take(i + 1).drop_last() =~= all.take(i as int));
        out.remove(process.entries[i].0.as_str());
        assert(out@ =~= resolved@.remove_keys(crate::dict::entries_map(all.take(i + 1)).dom()));
    }
    assert(all.take(all.len() as int) =~= all);
    out
}

/// The names `atoma.toml` asked to keep out of every tool server.
pub fn protected_env_names(config: Option<&AtomaConfig>) -> (r: Vec<String>)
    ensures
        texts(r@) == match config {
            Some(c) => texts(c.protect_env@),
            None => Seq::empty(),
        },
{
    match config {
        Some(c) => text::clone_all(&c.protect_env),
        None => {
            let none: Vec<String> = Vec::new();
            assert(texts(none@) =~= Seq::empty());
            none
        },
    }
}

/// A configuration file to start from.
pub const DEFAULT_CONFIG: &'static str = r#"# Atoma configuration
# See https://github.com/yuma-seno/atoma for documentation.

# Environment variable names no tool server may inherit, on top of the provider
# keys atoma already strips. Name your own secrets here -- CI tokens, chat tokens,
# anything a `shell` server has no business reading out of its own environment.
#
# A server that legitimately needs one names it in its own `env` in the tools
# file, which is applied after the removal and so puts it back -- for that one
# server and no other.
#
# This key is top-level on purpose. Uncommented below a [table] header it would
# belong to that table and do nothing.
# protect_env = ["CI_JOB_TOKEN", "SLACK_BOT_TOKEN"]

[defaults]
# agent_def = "agents/default.md"
# tools_file = "tools.yaml"
# skills_dir = "skills"
# template = "templates/custom.md"
# output = "text"   # "text" or "json"

# Neither ceiling below is set by default, and a run with neither is unbounded: it
# stops when the agent says it is finished, or when a broken loop is detected.
#
# max_runtime_secs is the one to reach for. A caller running under something that
# will kill it -- a CI job with a timeout -- should set this below that timeout, so
# the run ends on its own terms and saves its session instead of being killed with
# the session unwritten.
# max_runtime_secs = 3000
#
# max_iterations counts turns, which is a proxy for "this run is getting nowhere"
# and a poor one in both directions. Set it only if you want a hard call ceiling.
# max_iterations = 200

# Profile: overrides defaults when --profile is used
# [profile.review]
# agent_def = "agents/review.md"
# output = "json"

# Environment variables to set when running under this config
# [env]
# OPENROUTER_BASE_URL = "https://openrouter.ai/api/v1"
"#;

/// Generate a default atoma.toml file.
pub fn generate_default_config() -> (r: String)
    ensures
        r@ == DEFAULT_CONFIG@,
{
    DEFAULT_CONFIG.to_owned()
}

/// What the process has set already stays as it is; what the configuration sets and the process
/// has not is set, as the configuration has it; and nothing else is.
pub proof fn law_the_process_environment_comes_first(
    resolved: Map<Seq<char>, String>,
    process: Map<Seq<char>, String>,
    name: Seq<char>,
)
    ensures
        injected(resolved, process).contains_key(name) <==> resolved.contains_key(name)
            && !process.contains_key(name),
        injected(resolved, process).contains_key(name) ==> injected(resolved, process)[name]
            == resolved[name],
{
}

/// A profile is used exactly where one is named; it has to be one that the file has; and the one
/// that is used is the one that was named.
pub proof fn law_a_named_profile_has_to_be_there(
    profile_name: Option<Seq<char>>,
    config: Option<AtomaConfig>,
)
    ensures
        profile_name is None ==> selected_profile(profile_name, config) == Ok::<
            Option<ProfileConfig>,
            Seq<char>,
        >(None),
        profile_name is Some ==> (selected_profile(profile_name, config) is Ok <==> config is Some
            && config->0.profiles@.contains_key(profile_name->0)),
        profile_name is Some && selected_profile(profile_name, config) is Ok ==> selected_profile(
            profile_name,
            config,
        )->Ok_0 == Some(config->0.profiles@[profile_name->0]),
{
}

/// A run has no ceiling that nobody set, a time limit of nothing is none, and where nothing is
/// said the agent is the one beside the program and it answers in text.
pub proof fn law_what_nobody_says_is_the_default(
    r: ResolvedConfig,
    cli: CliOverrides,
    profile: Option<ProfileConfig>,
    config: Option<AtomaConfig>,
    name: Seq<char>,
)
    requires
        is_resolved(r, cli, profile, config),
    ensures
        cli.max_iterations is None && (profile is None || profile->0.max_iterations is None) && (
        config is None || config->0.defaults.max_iterations is None) ==> r.max_iterations is None,
        cli.max_runtime_secs is None && (profile is None || profile->0.max_runtime_secs is None)
            && (config is None || config->0.defaults.max_runtime_secs is None) ==> r.max_runtime
            is None,
        cli.agent_def is None && (profile is None || profile->0.agent_def is None) && (config is None
            || config->0.defaults.agent_def is None) ==> r.agent_def@ == "agent.md"@,
        cli.tools_file is None && (profile is None || profile->0.tools_file is None) && (
        config is None || config->0.defaults.tools_file is None) ==> r.tools_file is None,
        cli.skills_dir is None && (profile is None || profile->0.skills_dir is None) && (
        config is None || config->0.defaults.skills_dir is None) ==> r.skills_dir is None,
        cli.template is None && (profile is None || profile->0.template is None) && (config is None
            || config->0.defaults.template is None) ==> r.template is None,
        cli.output is None && (profile is None || profile->0.output is None) && config is None
            ==> r.output == OutputFormat::Text,
        r.env@.contains_key(name) ==> (config is Some && config->0.env@.contains_key(name)) || (
        profile is Some && profile->0.env@.contains_key(name)),
        cli.max_runtime_secs is Some && cli.max_runtime_secs->0 > 0 ==> r.max_runtime is Some
            && r.max_runtime->0.secs == cli.max_runtime_secs->0 && r.max_runtime->0.nanos == 0,
        cli.max_runtime_secs == Some(0u64) ==> r.max_runtime is None,
{
}

} // verus!
