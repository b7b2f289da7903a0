use atoma::application::validator::{
    credentials_from_arg, live_tools_verdict, servers_to_start, validate, validate_credentials,
    ColleagueFile, ColleagueProbe, Loaded, ValidationReport,
};
use atoma::clock::Duration;
use atoma::dict::Dict;
use atoma::domain::agent::{AgentDef, ParsedAgentDef};
use atoma::domain::skill::SkillMetadata;
use atoma::domain::tool::{Hooks, ToolDef};
use atoma::infra::config::{
    env_to_inject, generate_default_config, protected_env_names, resolve_run_config, AtomaConfig,
    CliOverrides, DefaultsConfig, OutputFormat, ProfileConfig,
};
use atoma::infra::credentials::{
    credential_env_names, declare_protected_env_names, environment_for, expand_from_environment,
    protected_union, sanitised, Credentials, DeclaredNames,
};
use atoma::infra::hooks::{
    access_denial_reason, after_hook_notice, before_hook_refusal, describe_hooks,
    matches_pattern, unmatched_patterns,
};
use atoma::infra::llm::{
    attribution, check_credentials, check_provider_name, reserved_header_names, select_provider,
    Provider, SelectionProblem,
};
use atoma::infra::mcp::findings::{Finding, FindingKind};
use atoma::infra::persistence::frontmatter::{
    body_of_agent, no_head_message, skill_of, split,
};
use atoma::infra::persistence::tool_def::{
    FileToolDefAdapter, HookScripts, HooksConfig, ScriptPath, ToolConfig, ToolsFile,
};
use atoma::infra::template::{
    build_system_prompt, unknown_placeholders, Placeholder, DEFAULT_TEMPLATE,
};
use atoma::infra::timeouts::from_setting;
use atoma::json::{parse, Json};

fn texts(list: &[&str]) -> Vec<String> {
    list.iter().map(|s| s.to_string()).collect()
}

fn dict(pairs: &[(&str, &str)]) -> Dict<String> {
    Dict {
        entries: pairs
            .iter()
            .map(|(k, v)| (k.to_string(), v.to_string()))
            .collect(),
    }
}

// ── atoma.toml ────────────────────────────────────────────────────────────────

fn toml_text(table: &toml::Table, key: &str) -> Option<String> {
    table.get(key)?.as_str().map(str::to_string)
}

fn toml_texts(table: &toml::Table, key: &str) -> Dict<String> {
    let entries = match table.get(key).and_then(|v| v.as_table()) {
        Some(t) => t
            .iter()
            .map(|(k, v)| (k.clone(), v.as_str().unwrap().to_string()))
            .collect(),
        None => vec![],
    };
    Dict { entries }
}

fn toml_profile(table: &toml::Table) -> ProfileConfig {
    ProfileConfig {
        agent_def: toml_text(table, "agent_def"),
        tools_file: toml_text(table, "tools_file"),
        skills_dir: toml_text(table, "skills_dir"),
        template: toml_text(table, "template"),
        max_iterations: table
            .get("max_iterations")
            .and_then(|v| v.as_integer())
            .map(|n| n as u32),
        max_runtime_secs: table
            .get("max_runtime_secs")
            .and_then(|v| v.as_integer())
            .map(|n| n as u64),
        output: toml_text(table, "output").map(|o| OutputFormat::from_arg(&o).unwrap()),
        env: toml_texts(table, "env"),
    }
}

fn config(raw: &str) -> AtomaConfig {
    let table: toml::Table = toml::from_str(raw).unwrap();
    let empty = toml::Table::new();
    let defaults = toml_profile(
        table
            .get("defaults")
            .and_then(|v| v.as_table())
            .unwrap_or(&empty),
    );
    let profiles = match table.get("profile").and_then(|v| v.as_table()) {
        Some(t) => t
            .iter()
            .map(|(k, v)| (k.clone(), toml_profile(v.as_table().unwrap())))
            .collect(),
        None => vec![],
    };
    AtomaConfig {
        protect_env: match table.get("protect_env").and_then(|v| v.as_array()) {
            Some(names) => names
                .iter()
                .map(|n| n.as_str().unwrap().to_string())
                .collect(),
            None => vec![],
        },
        defaults: DefaultsConfig {
            agent_def: defaults.agent_def,
            tools_file: defaults.tools_file,
            skills_dir: defaults.skills_dir,
            template: defaults.template,
            max_iterations: defaults.max_iterations,
            max_runtime_secs: defaults.max_runtime_secs,
            output: defaults.output.unwrap_or(OutputFormat::Text),
        },
        profiles: Dict { entries: profiles },
        env: toml_texts(&table, "env"),
    }
}

fn no_overrides() -> CliOverrides {
    CliOverrides {
        agent_def: None,
        tools_file: None,
        skills_dir: None,
        template: None,
        max_iterations: None,
        max_runtime_secs: None,
        output: None,
    }
}

#[test]
fn resolves_run_settings_using_cli_profile_defaults_priority() {
    let config = config(
        r#"
[defaults]
template = "default.md"
skills_dir = "default-skills"

[profile.review]
template = "review.md"
skills_dir = "review-skills"
output = "json"
"#,
    );

    let from_profile = resolve_run_config(no_overrides(), Some("review"), Some(&config)).unwrap();
    assert_eq!(from_profile.template, Some("review.md".to_string()));
    assert_eq!(from_profile.skills_dir, Some("review-skills".to_string()));
    assert_eq!(from_profile.output, OutputFormat::Json);

    let from_cli = resolve_run_config(
        CliOverrides {
            skills_dir: Some("cli-skills".to_string()),
            template: Some("cli.md".to_string()),
            ..no_overrides()
        },
        Some("review"),
        Some(&config),
    )
    .unwrap();
    assert_eq!(from_cli.template, Some("cli.md".to_string()));
    assert_eq!(from_cli.skills_dir, Some("cli-skills".to_string()));
}

#[test]
fn profile_environment_overrides_global_environment() {
    let config = config(
        r#"
[env]
SHARED = "global"
GLOBAL_ONLY = "yes"

[profile.review.env]
SHARED = "profile"
PROFILE_ONLY = "yes"
"#,
    );

    let resolved = resolve_run_config(no_overrides(), Some("review"), Some(&config)).unwrap();

    assert_eq!(resolved.env.get_text("SHARED"), Some("profile"));
    assert_eq!(resolved.env.get_text("GLOBAL_ONLY"), Some("yes"));
    assert_eq!(resolved.env.get_text("PROFILE_ONLY"), Some("yes"));
}

/// A protected name is a property of the project rather than of the run.
#[test]
fn protected_names_are_read_from_the_top_level_key() {
    let config = config(r#"protect_env = ["CI_JOB_TOKEN"]"#);
    assert_eq!(protected_env_names(Some(&config)), vec!["CI_JOB_TOKEN"]);
}

/// An absent list has to mean "nothing extra".
#[test]
fn a_config_without_the_key_protects_nothing_extra() {
    let config = config("[defaults]");
    assert!(protected_env_names(Some(&config)).is_empty());
    assert!(protected_env_names(None).is_empty());
}

#[test]
fn rejects_unknown_profile() {
    let config = config("[profile.review]\nmax_iterations = 10");
    let result = resolve_run_config(no_overrides(), Some("typo"), Some(&config));

    assert!(result.unwrap_err().contains("Profile 'typo' not found"));
}

#[test]
fn a_profile_needs_a_configuration_file() {
    assert_eq!(
        resolve_run_config(no_overrides(), Some("review"), None).unwrap_err(),
        "--profile requires an atoma.toml configuration file"
    );
}

#[test]
fn nothing_said_is_the_hard_defaults() {
    let resolved = resolve_run_config(no_overrides(), None, None).unwrap();
    assert_eq!(resolved.agent_def, "agent.md");
    assert_eq!(resolved.output, OutputFormat::Text);
    assert_eq!(resolved.max_iterations, None);
    assert_eq!(resolved.max_runtime, None);
    assert_eq!(resolved.tools_file, None);
}

#[test]
fn a_limit_of_zero_seconds_is_none() {
    let with = |secs| {
        resolve_run_config(
            CliOverrides {
                max_runtime_secs: Some(secs),
                ..no_overrides()
            },
            None,
            None,
        )
        .unwrap()
        .max_runtime
    };
    assert_eq!(with(0), None);
    assert_eq!(with(60), Some(Duration::from_secs(60)));
}

#[test]
fn ceilings_follow_the_same_order() {
    let config = config(
        "[defaults]\nmax_iterations = 1\nmax_runtime_secs = 10\n[profile.p]\nmax_iterations = 2\n",
    );
    let from_profile = resolve_run_config(no_overrides(), Some("p"), Some(&config)).unwrap();
    assert_eq!(from_profile.max_iterations, Some(2));
    assert_eq!(from_profile.max_runtime, Some(Duration::from_secs(10)));
    let from_defaults = resolve_run_config(no_overrides(), None, Some(&config)).unwrap();
    assert_eq!(from_defaults.max_iterations, Some(1));
}

#[test]
fn an_output_format_is_text_or_json() {
    assert_eq!(OutputFormat::from_arg("text"), Ok(OutputFormat::Text));
    assert_eq!(OutputFormat::from_arg("json"), Ok(OutputFormat::Json));
    assert_eq!(
        OutputFormat::from_arg("yaml"),
        Err("Unsupported output format: yaml. Valid values: text, json".to_string())
    );
}

#[test]
fn what_the_process_has_already_is_not_set_again() {
    let injected = env_to_inject(
        &dict(&[("A", "config"), ("B", "config")]),
        &dict(&[("A", "process")]),
    );
    assert_eq!(injected.get_text("A"), None);
    assert_eq!(injected.get_text("B"), Some("config"));
}

#[test]
fn the_default_configuration_is_read_as_one() {
    let config = config(&generate_default_config());
    assert_eq!(config.defaults.agent_def, None);
    assert_eq!(config.defaults.max_iterations, None);
    assert!(config.protect_env.is_empty());
    assert!(config.profiles.is_empty());
}

// ── Credentials ───────────────────────────────────────────────────────────────

#[test]
fn the_github_tokens_are_protected_without_a_list_of_their_own() {
    let names = protected_union(&vec![]);
    for name in ["GH_TOKEN", "GITHUB_TOKEN"] {
        assert!(
            names.iter().any(|n| n == name),
            "{name} is missing from {names:?}"
        );
    }
}

/// A union, never a replacement.
#[test]
fn a_declared_name_joins_the_provider_names_rather_than_replacing_them() {
    let names = protected_union(&vec!["CI_JOB_TOKEN".to_string()]);
    let has = |name: &str| names.iter().any(|n| n == name);
    assert!(has("CI_JOB_TOKEN"), "{names:?}");
    assert!(has("ANTHROPIC_API_KEY"), "{names:?}");
}

#[test]
fn a_name_declared_twice_over_appears_once() {
    let declared = vec!["GH_TOKEN".to_string(), "GH_TOKEN".to_string()];
    let names = protected_union(&declared);
    let count = names.iter().filter(|n| *n == "GH_TOKEN").count();
    assert_eq!(count, 1, "{names:?}");
}

#[test]
fn a_padded_or_empty_declaration_is_dropped_rather_than_registered() {
    let given = vec![
        " CI_JOB_TOKEN ".to_string(),
        "".to_string(),
        "   ".to_string(),
    ];
    assert_eq!(sanitised(given), vec!["CI_JOB_TOKEN".to_string()]);
}

#[test]
fn the_first_declaration_counts() {
    let mut registry = DeclaredNames::default();
    assert!(!credential_env_names(&registry).contains(&"A".to_string()));
    assert!(declare_protected_env_names(&mut registry, texts(&[" A "])));
    assert!(!declare_protected_env_names(&mut registry, texts(&["B"])));
    let names = credential_env_names(&registry);
    assert!(names.contains(&"A".to_string()), "{names:?}");
    assert!(!names.contains(&"B".to_string()), "{names:?}");
}

fn from_pairs(pairs: &[(&str, &str)]) -> Credentials {
    Credentials {
        values: Some(dict(pairs)),
    }
}

fn nothing_set() -> Dict<String> {
    Dict::new()
}

#[test]
fn a_file_of_credentials_is_read() {
    let credentials = Credentials::from_text(
        r#"{"OPENAI_API_KEY":"sk-test","SLACK_TOKEN":"xoxb-test"}"#,
        "\"creds.json\"",
    )
    .unwrap();

    assert_eq!(
        credentials.get("OPENAI_API_KEY", &nothing_set()),
        Some("sk-test".to_string())
    );
}

#[test]
fn the_later_of_two_values_for_a_name_counts() {
    let credentials =
        Credentials::from_text(r#"{"A":"first","B":"b","A":"second"}"#, "\"creds.json\"").unwrap();

    assert_eq!(
        credentials.get("A", &nothing_set()),
        Some("second".to_string())
    );
    assert_eq!(credentials.get("B", &nothing_set()), Some("b".to_string()));
    assert_eq!(credentials.get("C", &nothing_set()), None);
}

#[test]
fn pairs_that_could_not_be_read_are_refused() {
    let read = Credentials::from_pairs(Some(dict(&[("A", "x")])), "\"creds.json\"").unwrap();
    assert_eq!(read.get("A", &nothing_set()), Some("x".to_string()));
    assert_eq!(
        Credentials::from_pairs(None, "\"creds.json\"").unwrap_err(),
        "Credentials file is not a JSON object of name/value pairs: \"creds.json\""
    );
}

#[test]
fn a_malformed_file_fails_rather_than_yielding_nothing() {
    for content in [
        "not json",
        "[]",
        "{\"A\": 1}",
        "\"x\"",
        "{\"A\": 1, \"A\": \"x\"}",
        "{\"A\": null}",
        "{\"A\": \"x\"} more",
    ] {
        assert_eq!(
            Credentials::from_text(content, "\"creds.json\"").unwrap_err(),
            "Credentials file is not a JSON object of name/value pairs: \"creds.json\"",
            "{content}"
        );
    }
}

/// File mode means the file is the ONLY source.
#[test]
fn file_mode_does_not_fall_back_to_the_environment() {
    let environment = dict(&[("ATOMA_TEST_ONLY_IN_ENV", "from-env")]);
    let credentials = from_pairs(&[("OTHER", "x")]);
    assert_eq!(
        credentials.get("ATOMA_TEST_ONLY_IN_ENV", &environment),
        None
    );
}

#[test]
fn environment_mode_reads_the_environment() {
    let environment = dict(&[("ATOMA_TEST_ENV_MODE", "yes")]);
    let credentials = Credentials::from_environment();
    assert_eq!(
        credentials.get("ATOMA_TEST_ENV_MODE", &environment),
        Some("yes".to_string())
    );
}

/// An exported-but-unset secret arrives as an empty string.
#[test]
fn an_empty_value_counts_as_absent() {
    let credentials = from_pairs(&[("OPENAI_API_KEY", "")]);
    assert!(!credentials.has("OPENAI_API_KEY", &nothing_set()));
    assert!(from_pairs(&[("OPENAI_API_KEY", "sk-x")]).has("OPENAI_API_KEY", &nothing_set()));
    assert_eq!(
        from_pairs(&[("A", ""), ("B", "b"), ("C", "c")])
            .present(&texts(&["C", "A", "B", "D"]), &nothing_set()),
        vec!["C", "B"]
    );
}

#[test]
fn expand_substitutes_a_reference() {
    let credentials = from_pairs(&[("SLACK_TOKEN", "xoxb-1")]);
    assert_eq!(
        credentials.expand("${SLACK_TOKEN}", &nothing_set()),
        "xoxb-1"
    );
    assert_eq!(
        credentials.expand("Bearer ${SLACK_TOKEN} end", &nothing_set()),
        "Bearer xoxb-1 end"
    );
}

#[test]
fn expand_leaves_text_without_a_reference_alone() {
    let credentials = from_pairs(&[("A", "1")]);
    assert_eq!(
        credentials.expand("plain value", &nothing_set()),
        "plain value"
    );
    assert_eq!(credentials.expand("", &nothing_set()), "");
    // Unterminated: literal, not a reference.
    assert_eq!(
        credentials.expand("${UNCLOSED", &nothing_set()),
        "${UNCLOSED"
    );
}

#[test]
fn expand_yields_empty_for_a_name_it_does_not_have() {
    let credentials = from_pairs(&[("A", "1")]);
    assert_eq!(credentials.expand("x${MISSING}y", &nothing_set()), "xy");
}

#[test]
fn a_default_covers_an_absent_name() {
    let credentials = from_pairs(&[("A", "1")]);
    assert_eq!(
        credentials.expand("${MISSING:-fallback}", &nothing_set()),
        "fallback"
    );
    assert_eq!(credentials.expand("${A:-fallback}", &nothing_set()), "1");
    assert_eq!(credentials.expand("${MISSING:-}/x", &nothing_set()), "/x");
}

/// The split that keeps a program path from becoming a way to read a secret.
#[test]
fn args_expansion_reads_the_environment_and_not_the_credentials() {
    let environment = dict(&[("ATOMA_TEST_ARG_ROOT", "machinery")]);
    assert_eq!(
        expand_from_environment("${ATOMA_TEST_ARG_ROOT}/x.ts", &environment),
        "machinery/x.ts"
    );
    assert_eq!(
        expand_from_environment("${ATOMA_TEST_ARG_ROOT_UNSET:-.}/x.ts", &environment),
        "./x.ts"
    );
}

#[test]
fn expand_handles_several_references() {
    let credentials = from_pairs(&[("A", "1"), ("B", "2")]);
    assert_eq!(
        credentials.expand("${A}-${B}-${A}", &nothing_set()),
        "1-2-1"
    );
}

#[test]
fn a_credential_reaches_only_the_server_that_names_it() {
    let inherited = dict(&[("PATH", "/bin"), ("GH_TOKEN", "t"), ("OPENAI_API_KEY", "k")]);
    let protected = protected_union(&vec![]);
    let shell = environment_for(&inherited, &protected, &Dict::new());
    assert_eq!(shell.get_text("PATH"), Some("/bin"));
    assert_eq!(shell.get_text("GH_TOKEN"), None);
    assert_eq!(shell.get_text("OPENAI_API_KEY"), None);
    let github = environment_for(&inherited, &protected, &dict(&[("GH_TOKEN", "t")]));
    assert_eq!(github.get_text("GH_TOKEN"), Some("t"));
    assert_eq!(github.get_text("OPENAI_API_KEY"), None);
}

// ── Timeouts ──────────────────────────────────────────────────────────────────

#[test]
fn anything_but_a_count_means_the_default_timeout() {
    for raw in [None, Some(""), Some("  "), Some("0"), Some("x"), Some("-5")] {
        assert_eq!(from_setting(raw, 60), Duration::from_secs(60), "{raw:?}");
    }
    assert_eq!(from_setting(Some(" 90 "), 60), Duration::from_secs(90));
    assert_eq!(
        from_setting(Some("18446744073709551616"), 60),
        Duration::from_secs(60)
    );
}

// ── Hooks ─────────────────────────────────────────────────────────────────────

fn guarded(allow: &[&str], deny: &[&str]) -> Hooks {
    Hooks {
        tool_allowlist: texts(allow),
        tool_denylist: texts(deny),
        ..Default::default()
    }
}

#[test]
fn a_pattern_is_exact_or_ends_in_a_star() {
    assert!(matches_pattern("fs__read", "fs__read"));
    assert!(!matches_pattern("fs__read", "fs__read_all"));
    assert!(matches_pattern("fs__*", "fs__read"));
    assert!(matches_pattern("*", "anything"));
    assert!(!matches_pattern("f*s", "fs"));
}

#[test]
fn a_tool_on_both_lists_is_blocked() {
    let hooks = guarded(&["fs__*"], &["fs__write"]);
    assert_eq!(access_denial_reason(&hooks, "fs__read"), None);
    assert_eq!(
        access_denial_reason(&hooks, "fs__write").unwrap(),
        "Tool 'fs__write' is blocked by tool_denylist"
    );
    assert_eq!(
        access_denial_reason(&hooks, "web__get").unwrap(),
        "Tool 'web__get' is not in tool_allowlist"
    );
    assert_eq!(access_denial_reason(&guarded(&[], &[]), "x"), None);
}

#[test]
fn both_lists_on_one_server_are_worth_saying() {
    assert_eq!(
        describe_hooks("fs", &guarded(&["fs__*"], &["fs__write"])).unwrap(),
        "Server 'fs' sets both tool_allowlist and tool_denylist. The denylist is checked first, so a tool matching both is blocked."
    );
    assert_eq!(describe_hooks("fs", &guarded(&["fs__*"], &[])), None);
    assert_eq!(describe_hooks("fs", &guarded(&[], &["fs__write"])), None);
}

#[test]
fn a_pattern_that_matches_nothing_is_found() {
    let hooks = guarded(&["fs__*", "read"], &["gone"]);
    assert_eq!(
        unmatched_patterns(&hooks, &texts(&["read", "write"])),
        vec!["fs__*", "gone"]
    );
}

#[test]
fn a_script_before_a_call_has_to_allow_it() {
    assert_eq!(before_hook_refusal(true, "{\"allow\": true}"), None);
    assert_eq!(
        before_hook_refusal(true, "{\"allow\": false, \"reason\": \"no\"}").unwrap(),
        "no"
    );
    for (succeeded, printed) in [
        (false, "{\"allow\": true}"),
        (true, "{}"),
        (true, "yes"),
        (true, ""),
        (true, "{\"allow\": false}"),
    ] {
        assert!(
            before_hook_refusal(succeeded, printed).is_some(),
            "{printed}"
        );
    }
}

#[test]
fn a_script_after_a_call_may_add_a_notice() {
    assert_eq!(
        after_hook_notice(true, "{\"notice\": \"n\"}"),
        Some("n".to_string())
    );
    assert_eq!(after_hook_notice(false, "{\"notice\": \"n\"}"), None);
    assert_eq!(after_hook_notice(true, "n"), None);
}

// ── The tools file ────────────────────────────────────────────────────────────

fn yaml_text(value: &serde_yaml::Value, key: &str) -> Option<String> {
    value.get(key)?.as_str().map(str::to_string)
}

fn yaml_list(value: &serde_yaml::Value, key: &str) -> Vec<String> {
    match value.get(key).and_then(|v| v.as_sequence()) {
        Some(items) => items
            .iter()
            .map(|v| v.as_str().unwrap().to_string())
            .collect(),
        None => vec![],
    }
}

fn yaml_map(value: &serde_yaml::Value, key: &str) -> Dict<String> {
    let entries = match value.get(key).and_then(|v| v.as_mapping()) {
        Some(m) => m
            .iter()
            .map(|(k, v)| {
                (
                    k.as_str().unwrap().to_string(),
                    v.as_str().unwrap().to_string(),
                )
            })
            .collect(),
        None => vec![],
    };
    Dict { entries }
}

fn yaml_scripts(value: &serde_yaml::Value, key: &str) -> Option<HookScripts> {
    let v = value.get(key)?;
    match v.as_str() {
        Some(one) => Some(HookScripts::One(one.to_string())),
        None => Some(HookScripts::Many(yaml_list(value, key))),
    }
}

fn yaml_hooks(value: Option<&serde_yaml::Value>) -> HooksConfig {
    match value {
        Some(v) => HooksConfig {
            tool_allowlist: yaml_list(v, "tool_allowlist"),
            tool_denylist: yaml_list(v, "tool_denylist"),
            before_tool: yaml_scripts(v, "before_tool"),
            after_tool: yaml_scripts(v, "after_tool"),
        },
        None => HooksConfig::default(),
    }
}

fn tools_file(body: &str) -> ToolsFile {
    let value: serde_yaml::Value = serde_yaml::from_str(body).unwrap();
    let mut servers: Dict<ToolConfig> = Dict::new();
    for (name, cfg) in value.as_mapping().unwrap() {
        let name = name.as_str().unwrap();
        if name != "hooks" {
            let count = |key: &str| cfg.get(key).and_then(|v| v.as_u64());
            let flag = |key: &str| cfg.get(key).and_then(|v| v.as_bool()).unwrap_or(false);
            servers.insert(
                name.to_string(),
                ToolConfig {
                    command: yaml_text(cfg, "command").unwrap_or_default(),
                    args: yaml_list(cfg, "args"),
                    env: yaml_map(cfg, "env"),
                    url: yaml_text(cfg, "url"),
                    headers: yaml_map(cfg, "headers"),
                    hooks: yaml_hooks(cfg.get("hooks")),
                    unprefixed: flag("unprefixed"),
                    request_timeout_secs: count("request_timeout_secs"),
                    max_output_chars: count("max_output_chars").map(|n| n as usize),
                    guess_severity_from_output: flag("guess_severity_from_output"),
                },
            );
        }
    }
    ToolsFile {
        hooks: yaml_hooks(value.get("hooks")),
        servers,
    }
}

/// The scripts that exist, next to the tools file.
fn scripts(names: &[&str]) -> Dict<ScriptPath> {
    Dict {
        entries: names
            .iter()
            .map(|n| {
                (
                    n.to_string(),
                    ScriptPath {
                        resolved: format!("/project/{n}"),
                        exists: true,
                    },
                )
            })
            .collect(),
    }
}

fn loaded_with(
    body: &str,
    paths: &Dict<ScriptPath>,
    credentials: Credentials,
    environment: &Dict<String>,
) -> Result<Dict<ToolDef>, String> {
    FileToolDefAdapter::new(credentials).load(&tools_file(body), paths, environment)
}

fn load_yaml(body: &str) -> Dict<ToolDef> {
    loaded_with(
        body,
        &scripts(&["first.ts", "second.ts", "only.ts", "wide.ts", "mine.ts"]),
        Credentials::from_environment(),
        &nothing_set(),
    )
    .expect("load")
}

fn load_err(body: &str) -> String {
    FileToolDefAdapter::default()
        .load(&tools_file(body), &scripts(&[]), &nothing_set())
        .expect_err("expected this tools file to be refused")
}

#[test]
fn a_list_of_hooks_is_kept_in_the_order_it_was_written() {
    let tools = load_yaml(
        "hooks:\n  after_tool:\n    - 'first.ts'\n    - 'second.ts'\nshell:\n  command: bun\n  args: []\n",
    );
    assert_eq!(
        tools.get("shell").unwrap().hooks.after_tool,
        vec!["/project/first.ts", "/project/second.ts"]
    );
}

#[test]
fn a_single_hook_is_still_a_bare_string() {
    let tools =
        load_yaml("hooks:\n  after_tool: 'only.ts'\nshell:\n  command: bun\n  args: []\n");
    assert_eq!(
        tools.get("shell").unwrap().hooks.after_tool,
        vec!["/project/only.ts"]
    );
}

#[test]
fn file_wide_hooks_run_before_the_servers_own() {
    let tools = load_yaml(
        "hooks:\n  before_tool: 'wide.ts'\nshell:\n  command: bun\n  args: []\n  hooks:\n    before_tool:\n      - 'mine.ts'\n",
    );
    assert_eq!(
        tools.get("shell").unwrap().hooks.before_tool,
        vec!["/project/wide.ts", "/project/mine.ts"]
    );
}

#[test]
fn one_script_or_several_is_a_list() {
    assert_eq!(HookScripts::One("a".to_string()).into_vec(), vec!["a"]);
    let several = HookScripts::Many(texts(&["b", "a"]));
    assert_eq!(several.to_vec(), vec!["b", "a"]);
    assert_eq!(several.into_vec(), vec!["b", "a"]);
}

#[test]
fn a_hook_script_has_to_exist() {
    let message = load_err("hooks:\n  after_tool: 'gone.ts'\nshell:\n  command: bun\n");
    assert_eq!(
        message,
        "Hook script not found: 'gone.ts' (resolved from 'gone.ts')"
    );
}

#[test]
fn a_server_that_says_nothing_gets_the_client_default() {
    let tools = load_yaml("github:\n  command: bun\n  args: [\"run\", \"github.ts\"]\n");
    let github = tools.get("github").unwrap();
    assert_eq!(github.request_timeout_secs, None);
    assert_eq!(github.name, "github");
    assert_eq!(github.args, vec!["run", "github.ts"]);
}

#[test]
fn a_declared_timeout_is_carried_through() {
    let tools = load_yaml("shell:\n  command: bun\n  args: []\n  request_timeout_secs: 3600\n");
    assert_eq!(tools.get("shell").unwrap().request_timeout_secs, Some(3600));
}

#[test]
fn zero_means_the_default_the_same_as_absent() {
    let tools = load_yaml("web:\n  command: bun\n  args: []\n  request_timeout_secs: 0\n");
    assert_eq!(tools.get("web").unwrap().request_timeout_secs, None);
}

#[test]
fn a_server_that_says_nothing_gets_no_severity_guess() {
    let tools = load_yaml("shell:\n  command: bun\n  args: []\n");
    assert!(!tools.get("shell").unwrap().guess_severity_from_output);
}

#[test]
fn a_server_can_ask_for_the_severity_guess() {
    let tools = load_yaml("shell:\n  command: bun\n  guess_severity_from_output: true\n");
    assert!(tools.get("shell").unwrap().guess_severity_from_output);
}

#[test]
fn a_command_alone_is_stdio() {
    let tools = load_yaml("shell:\n  command: bun\n  args: []\n");
    assert_eq!(tools.get("shell").unwrap().url, None);
    assert!(tools.get("shell").unwrap().headers.is_empty());
}

#[test]
fn a_url_alone_needs_no_command() {
    let tools = load_yaml("warehouse:\n  url: https://mcp.example.com/mcp\n");
    let warehouse = tools.get("warehouse").unwrap();
    assert_eq!(
        warehouse.url.as_deref(),
        Some("https://mcp.example.com/mcp"),
    );
    assert_eq!(warehouse.command, "");
}

#[test]
fn a_command_and_a_url_together_are_allowed() {
    let tools = load_yaml(
        r#"local:
  command: bun
  args: ["run", "s.ts"]
  url: http://127.0.0.1:9000/mcp
"#,
    );
    assert_eq!(tools.get("local").unwrap().command, "bun");
    assert!(tools.get("local").unwrap().url.is_some());
}

#[test]
fn neither_a_command_nor_a_url_is_refused_at_load() {
    let message = load_err("nowhere:\n  args: []\n");
    assert!(message.contains("neither"), "{message}");
    assert!(message.contains("nowhere"), "{message}");
}

#[test]
fn a_url_that_is_not_http_is_refused() {
    let message = load_err("odd:\n  url: ws://example.com/mcp\n");
    assert!(message.contains("Streamable HTTP"), "{message}");
}

#[test]
fn env_on_a_server_with_no_process_is_refused() {
    let message = load_err(
        r#"remote:
  url: https://x.example/mcp
  env:
    GH_TOKEN: "${GH_TOKEN}"
"#,
    );
    assert!(message.contains("reach nothing"), "{message}");
    assert!(message.contains("headers"), "{message}");
}

#[test]
fn headers_on_a_stdio_server_are_refused() {
    let message = load_err(
        r#"piped:
  command: bun
  headers:
    Authorization: "Bearer x"
"#,
    );
    assert!(message.contains("no 'url'"), "{message}");
    assert!(message.contains("env"), "{message}");
}

#[test]
fn env_is_allowed_when_a_command_starts_the_server() {
    let tools = load_yaml(
        r#"local:
  command: bun
  url: http://127.0.0.1:9000/mcp
  env:
    GH_TOKEN: "${GH_TOKEN}"
"#,
    );
    assert!(tools.get("local").unwrap().env.contains_key("GH_TOKEN"));
}

#[test]
fn credentials_go_into_values_and_the_environment_into_arguments() {
    let tools = loaded_with(
        "s:\n  command: bun\n  args: [\"${ROOT:-.}/x.ts\", \"${SECRET}\"]\n  env:\n    TOKEN: \"${SECRET}\"\n",
        &scripts(&[]),
        from_pairs(&[("SECRET", "hidden")]),
        &dict(&[("ROOT", "/m")]),
    )
    .unwrap();
    let s = tools.get("s").unwrap();
    assert_eq!(s.env.get_text("TOKEN"), Some("hidden"));
    assert_eq!(s.args, vec!["/m/x.ts", ""]);
}

// ── Definitions ───────────────────────────────────────────────────────────────

#[test]
fn a_definition_is_a_head_and_a_body() {
    let (head, body) = split("---\nname: a\nmodel: m\n---\n\nDo it.\n\nWell.\n").unwrap();
    assert_eq!(head, "name: a\nmodel: m");
    assert_eq!(body, "Do it.\n\nWell.");
    assert_eq!(
        split("---\r\nname: a\r\n---\r\n"),
        Some(("name: a".to_string(), "".to_string()))
    );
}

#[test]
fn a_definition_without_a_closed_head_is_none() {
    for content in ["", "name: a\n", "---\nname: a\n", "\n---\nname: a\n---\n"] {
        assert_eq!(split(content), None, "{content}");
    }
    assert_eq!(
        no_head_message("\"a.md\""),
        "Missing YAML frontmatter in \"a.md\""
    );
}

#[test]
fn an_agent_without_instructions_has_no_body() {
    assert_eq!(body_of_agent("".to_string()), None);
    assert_eq!(body_of_agent("x".to_string()), Some("x".to_string()));
}

#[test]
fn a_skill_has_a_name_a_description_and_instructions() {
    let made = |name: &str, description: &str, body: &str| {
        skill_of(
            name.to_string(),
            description.to_string(),
            body.to_string(),
            "\"s.md\"",
        )
    };
    let skill = made(" a/b ", " about ", "do").unwrap();
    assert_eq!(skill.metadata.name, "a/b");
    assert_eq!(skill.metadata.description, "about");
    assert_eq!(skill.instructions, "do");
    assert_eq!(
        made(" ", "about", "do").unwrap_err(),
        "Skill name must not be empty: \"s.md\""
    );
    assert_eq!(
        made("a", "", "do").unwrap_err(),
        "Skill description must not be empty: \"s.md\""
    );
    assert_eq!(
        made("a", "about", "\n").unwrap_err(),
        "Skill instructions must not be empty: \"s.md\""
    );
}

// ── Templates ─────────────────────────────────────────────────────────────────

/// The template uses all of the vocabulary and nothing else.
#[test]
fn the_built_in_template_uses_the_whole_vocabulary_and_nothing_else() {
    for placeholder in Placeholder::ALL {
        assert!(
            DEFAULT_TEMPLATE.contains(placeholder.token()),
            "the built-in template never uses {}",
            placeholder.token(),
        );
    }
    assert_eq!(unknown_placeholders(DEFAULT_TEMPLATE), Vec::<String>::new());
}

#[test]
fn a_placeholder_nothing_substitutes_is_reported() {
    let unknown = unknown_placeholders("Hello {{AGENT_NAME}}, use {{AVAILABLE_TOOL}}.");
    assert_eq!(unknown, vec!["{{AVAILABLE_TOOL}}".to_string()]);
}

#[test]
fn each_unknown_is_reported_once_in_the_order_it_appears() {
    let unknown = unknown_placeholders("{{B_ONE}} {{A_TWO}} {{B_ONE}}");
    assert_eq!(
        unknown,
        vec!["{{B_ONE}}".to_string(), "{{A_TWO}}".to_string()],
    );
}

/// A template is prose.
#[test]
fn something_that_is_not_shaped_like_a_placeholder_is_left_alone() {
    for text in [
        "see {{ the docs }} for more",
        "a JSON example: {{\"a\": 1}}",
        "{{lowercase}} is prose",
        "an unclosed {{THING",
    ] {
        assert_eq!(unknown_placeholders(text), Vec::<String>::new(), "{text}");
    }
}

#[test]
fn a_template_with_no_placeholders_at_all_is_fine() {
    assert_eq!(unknown_placeholders("just words"), Vec::<String>::new());
}

fn make_test_agent(body: Option<String>) -> ParsedAgentDef {
    ParsedAgentDef {
        frontmatter: AgentDef {
            name: "TestAgent".to_string(),
            description: "A test agent for unit testing".to_string(),
            model: "openrouter/anthropic/sonnet".to_string(),
            provider: None,
            vision: false,
            knows_about: vec!["ReviewAgent".to_string()],
            mcp_servers: vec![],
            extra_body: Dict::new(),
            extra_headers: Dict::new(),
        },
        body,
    }
}

fn default_colleagues() -> Vec<(String, String)> {
    vec![(
        "ReviewAgent".to_string(),
        "Agent responsible for reviews".to_string(),
    )]
}

#[test]
fn test_custom_body_injected_into_template() {
    let agent = make_test_agent(Some("Custom role description".to_string()));
    let result = build_system_prompt(
        &agent,
        &vec![],
        None,
        "/repo",
        &default_colleagues(),
        &vec![],
    );
    assert!(result.contains("TestAgent"));
    assert!(result.contains("Custom role description"));
    assert!(result.contains("Strict Rules"));
}

#[test]
fn test_description_fallback_when_no_body() {
    let agent = make_test_agent(None);
    let result = build_system_prompt(
        &agent,
        &vec![],
        None,
        "/repo",
        &default_colleagues(),
        &vec![],
    );
    assert!(result.contains("A test agent for unit testing"));
}

#[test]
fn test_template_substitution() {
    let agent = make_test_agent(None);
    let result = build_system_prompt(
        &agent,
        &vec!["- `read_file`".to_string()],
        None,
        "/repo",
        &default_colleagues(),
        &vec![],
    );
    assert!(result.contains("TestAgent"));
    assert!(result.contains("A test agent for unit testing"));
    assert!(result.contains("ReviewAgent"));
    assert!(result.contains("read_file"));
    assert!(result.contains("/repo"));
}

#[test]
fn test_custom_template() {
    let agent = make_test_agent(None);
    let custom = "Hello {{AGENT_NAME}}! Role: {{AGENT_ROLE_PROMPT}}";
    let result = build_system_prompt(&agent, &vec![], Some(custom), "/repo", &vec![], &vec![]);
    assert_eq!(
        result,
        "Hello TestAgent! Role: A test agent for unit testing"
    );
}

#[test]
fn test_working_dir_substitution() {
    let agent = make_test_agent(None);
    let result = build_system_prompt(
        &agent,
        &vec![],
        None,
        "/home/runner/work/myrepo",
        &default_colleagues(),
        &vec![],
    );
    assert!(result.contains("/home/runner/work/myrepo"));
}

#[test]
fn test_colleague_with_description() {
    let agent = make_test_agent(None);
    let colleagues = vec![
        (
            "engineer".to_string(),
            "Agent responsible for implementation".to_string(),
        ),
        (
            "review".to_string(),
            "Agent responsible for reviews".to_string(),
        ),
    ];
    let result = build_system_prompt(&agent, &vec![], None, "/repo", &colleagues, &vec![]);
    assert!(result.contains("`engineer`: Agent responsible for implementation"));
    assert!(result.contains("`review`: Agent responsible for reviews"));
}

#[test]
fn test_skill_catalog_exposes_metadata_without_instructions() {
    let agent = make_test_agent(None);
    let skills = vec![SkillMetadata {
        name: "engineering/tdd".to_string(),
        description: "Test first.".to_string(),
    }];
    let result = build_system_prompt(&agent, &vec![], None, "/repo", &vec![], &skills);
    assert!(result.contains("`engineering/tdd`: Test first."));
    assert!(!result.contains("red-green-refactor"));
}

// ── Providers ─────────────────────────────────────────────────────────────────

#[test]
fn every_provider_is_found_by_its_name() {
    for p in [
        Provider::OpenAi,
        Provider::OpenAiResponses,
        Provider::OpenRouter,
        Provider::OpenRouterResponses,
        Provider::OrcaRouter,
        Provider::OrcaRouterResponses,
        Provider::Anthropic,
        Provider::GitHubCopilot,
    ] {
        assert_eq!(Provider::from_name(p.name()), Some(p));
        assert!(check_provider_name(p.name()).is_ok());
    }
    assert_eq!(
        check_provider_name("openai-responsez").unwrap_err(),
        "Unknown provider 'openai-responsez'. Known providers: openai, openai-responses, openrouter, openrouter-responses, orcarouter, orcarouter-responses, anthropic, github-copilot."
    );
}

#[test]
fn a_row_names_its_credential_its_endpoint_and_what_moves_it() {
    assert_eq!(Provider::OpenAiResponses.credential(), "OPENAI_API_KEY");
    assert_eq!(
        Provider::OpenRouter.endpoint(),
        "https://openrouter.ai/api/v1"
    );
    assert_eq!(
        Provider::OrcaRouterResponses.base_url_variable(),
        "ORCAROUTER_BASE_URL"
    );
    assert_eq!(Provider::Anthropic.endpoint(), "https://api.anthropic.com");
    assert_eq!(
        Provider::GitHubCopilot.credential(),
        "ATOMA_COPILOT_TOKEN"
    );
}

#[test]
fn an_endpoint_is_moved_by_a_value_and_not_by_whitespace() {
    let moved = |m| Provider::OpenAi.base_url(m);
    assert_eq!(moved(Some(" http://localhost:8080/v1 ")), "http://localhost:8080/v1");
    assert_eq!(moved(Some(" \t")), "https://api.openai.com/v1");
    assert_eq!(moved(Some("")), "https://api.openai.com/v1");
    assert_eq!(moved(None), "https://api.openai.com/v1");
}

#[test]
fn only_a_provider_that_reads_who_asks_is_told() {
    let pair = |name: &str, value: &str| (name.to_string(), value.to_string());
    for provider in [Provider::OpenRouter, Provider::OpenRouterResponses] {
        assert_eq!(
            attribution(provider),
            vec![
                pair("X-Title", "Atoma"),
                pair("HTTP-Referer", "https://github.com/yuma-seno/atoma"),
            ]
        );
    }
    assert_eq!(
        attribution(Provider::GitHubCopilot),
        vec![pair("Copilot-Integration-Id", "atoma")]
    );
    for provider in [
        Provider::OpenAi,
        Provider::OpenAiResponses,
        Provider::OrcaRouter,
        Provider::OrcaRouterResponses,
        Provider::Anthropic,
    ] {
        assert!(attribution(provider).is_empty());
    }
}

/// What tells a provider who asks cannot be set by a definition.
#[test]
fn who_asks_is_told_by_reserved_headers() {
    let reserved = reserved_header_names();
    for provider in [Provider::OpenRouter, Provider::GitHubCopilot] {
        for (name, _) in attribution(provider) {
            assert!(reserved.contains(&name.to_lowercase()), "{name}");
        }
    }
}

#[test]
fn a_definition_comes_before_the_environment_and_that_before_the_credentials() {
    let present = texts(&["ANTHROPIC_API_KEY"]);
    assert_eq!(
        select_provider(Some(" openai "), Some("openrouter"), &present),
        Ok(Provider::OpenAi)
    );
    assert_eq!(
        select_provider(Some(" "), Some("openrouter"), &present),
        Ok(Provider::OpenRouter)
    );
    assert_eq!(
        select_provider(None, Some(""), &present),
        Ok(Provider::Anthropic)
    );
}

#[test]
fn one_credential_selects_and_two_do_not_decide() {
    assert_eq!(
        select_provider(None, None, &texts(&["OPENROUTER_API_KEY"])),
        Ok(Provider::OpenRouter)
    );
    assert_eq!(
        select_provider(None, None, &texts(&["GITHUB_TOKEN"])),
        Err(SelectionProblem::NoCredential)
    );
    let problem = select_provider(
        None,
        None,
        &texts(&["ANTHROPIC_API_KEY", "GH_TOKEN", "OPENAI_API_KEY"]),
    )
    .unwrap_err();
    assert_eq!(
        problem,
        SelectionProblem::Ambiguous(vec![Provider::OpenAi, Provider::Anthropic])
    );
    assert_eq!(
        problem.message(),
        "Credentials for more than one provider are set: openai, anthropic. Name one with ATOMA_PROVIDER or the agent's provider, or remove the credential this run should not use."
    );
}

#[test]
fn a_run_is_equipped_where_its_provider_has_a_credential() {
    assert_eq!(
        check_credentials(Some("github-copilot"), None, &texts(&["GH_TOKEN"])),
        Ok((Provider::GitHubCopilot, "GH_TOKEN".to_string()))
    );
    let problem =
        check_credentials(Some("github-copilot"), None, &texts(&["OPENAI_API_KEY"])).unwrap_err();
    assert_eq!(
        problem.message(),
        "Provider 'github-copilot' needs ATOMA_COPILOT_TOKEN or GITHUB_TOKEN or GH_TOKEN, which is not set."
    );
    let problem = check_credentials(None, None, &vec![]).unwrap_err();
    assert!(problem
        .message()
        .starts_with("No provider credential is set."));
    let problem = check_credentials(None, Some("nope"), &vec![]).unwrap_err();
    assert!(problem.message().starts_with("Unknown provider 'nope'."));
}

// ── Validation ────────────────────────────────────────────────────────────────

/// What a caller means by an empty list.
#[test]
fn an_empty_argument_is_no_credentials_rather_than_one_without_a_name() {
    assert!(credentials_from_arg("").is_empty());
    assert!(credentials_from_arg("  ").is_empty());
    assert!(credentials_from_arg(",,").is_empty());
}

/// Whitespace is the shell's, not the caller's intent.
#[test]
fn credential_names_survive_the_spacing_a_shell_leaves() {
    assert_eq!(
        credentials_from_arg(" OPENAI_API_KEY , ANTHROPIC_API_KEY "),
        vec![
            "OPENAI_API_KEY".to_string(),
            "ANTHROPIC_API_KEY".to_string()
        ]
    );
}

fn yaml_to_json(value: &serde_yaml::Value) -> Json {
    parse(&serde_json::to_string(value).unwrap()).unwrap()
}

/// An agent definition with more in its head.
fn agent_file(name: &str, extra: &str) -> Result<ParsedAgentDef, String> {
    let content = format!("---\nname: {name}\ndescription: test\nmodel: test-model\n{extra}\n---\n");
    let (head, body) = split(&content).expect("a head");
    let value: serde_yaml::Value = serde_yaml::from_str(&head).map_err(|e| e.to_string())?;
    let extra_body = match value.get("extra_body").map(yaml_to_json) {
        Some(Json::Object(fields)) => fields,
        _ => Dict::new(),
    };
    Ok(ParsedAgentDef {
        frontmatter: AgentDef {
            name: yaml_text(&value, "name").ok_or("missing field `name`")?,
            description: yaml_text(&value, "description").unwrap_or_default(),
            model: yaml_text(&value, "model").unwrap_or_default(),
            provider: yaml_text(&value, "provider"),
            vision: false,
            knows_about: yaml_list(&value, "knows_about"),
            mcp_servers: yaml_list(&value, "mcp_servers"),
            extra_body,
            extra_headers: yaml_map(&value, "extra_headers"),
        },
        body: body_of_agent(body),
    })
}

fn with_tools(body: &str) -> Option<Loaded<Dict<ToolDef>>> {
    Some(Loaded {
        path: "\"tools.yaml\"".to_string(),
        content: loaded_with(
            body,
            &scripts(&[]),
            Credentials::from_environment(),
            &nothing_set(),
        ),
    })
}

fn with_template(text: &str) -> Option<Loaded<String>> {
    Some(Loaded {
        path: "\"prompt.md\"".to_string(),
        content: Ok(text.to_string()),
    })
}

fn check(extra: &str) -> ValidationReport {
    validate(
        &agent_file("solo", extra),
        &Dict::new(),
        &None,
        &None,
        false,
    )
}

const BOTH_LISTS: &str = "fs:\n  command: \"/bin/true\"\n  hooks:\n    tool_allowlist: [\"fs__read\"]\n    tool_denylist: [\"fs__write\"]\n";

/// Both lists on one server: unusual, defined, and not this command's call.
#[test]
fn a_server_setting_both_lists_is_a_warning_rather_than_an_error() {
    let report = validate(
        &agent_file("solo", "mcp_servers: [fs]\n"),
        &Dict::new(),
        &with_tools(BOTH_LISTS),
        &None,
        false,
    );
    assert!(report.passed(), "{:?}", report.errors);
    assert_eq!(
        report.warnings,
        vec!["Server 'fs' sets both tool_allowlist and tool_denylist. The denylist is checked first, so a tool matching both is blocked."]
    );
    assert_eq!(
        report.notes,
        vec![
            "✓ Agent definition parsed: solo",
            "✓ Tools file parsed: 1 server(s) defined",
            "  ✓ mcp_servers 'fs' found in tools file",
        ]
    );
}

#[test]
fn a_server_setting_both_lists_is_fatal_under_strict() {
    let report = validate(
        &agent_file("solo", "mcp_servers: [fs]\n"),
        &Dict::new(),
        &with_tools(BOTH_LISTS),
        &None,
        true,
    );
    assert!(!report.passed());
    assert_eq!(report.errors.len(), 1);
    assert!(report.warnings.is_empty());
}

#[test]
fn mcp_servers_without_a_tools_file_is_a_warning_that_strict_makes_fatal() {
    let agent = agent_file("solo", "mcp_servers: [fs]\n");
    assert!(validate(&agent, &Dict::new(), &None, &None, false).passed());
    assert!(!validate(&agent, &Dict::new(), &None, &None, true).passed());
}

#[test]
fn a_server_setting_one_list_passes() {
    let report = validate(
        &agent_file("solo", "mcp_servers: [fs]\n"),
        &Dict::new(),
        &with_tools(
            "fs:\n  command: \"/bin/true\"\n  hooks:\n    tool_allowlist: [\"fs__read\"]\n",
        ),
        &None,
        false,
    );
    assert!(report.passed(), "{:?}", report.errors);
    assert!(report.warnings.is_empty());
}

#[test]
fn warnings_come_in_the_order_of_the_servers_names() {
    let both = |name: &str| BOTH_LISTS.replace("fs:\n", &format!("{name}:\n"));
    let report = validate(
        &agent_file("solo", ""),
        &Dict::new(),
        &with_tools(&format!("{}{}", both("b"), both("a"))),
        &None,
        false,
    );
    assert!(report.warnings[0].starts_with("Server 'a' "));
    assert!(report.warnings[1].starts_with("Server 'b' "));
}

#[test]
fn an_unknown_server_names_the_file() {
    let report = validate(
        &agent_file("solo", "mcp_servers: [nope]\n"),
        &Dict::new(),
        &with_tools("fs:\n  command: x\n"),
        &None,
        false,
    );
    assert_eq!(report.errors.len(), 1);
    assert!(report.errors[0].contains("nope"), "{:?}", report.errors);
    assert!(
        report.errors[0].ends_with(" (tools file: \"tools.yaml\")"),
        "{:?}",
        report.errors
    );
}

#[test]
fn a_tools_file_that_cannot_be_read_is_an_error() {
    let report = validate(
        &agent_file("solo", ""),
        &Dict::new(),
        &with_tools("nowhere:\n  args: []\n"),
        &None,
        false,
    );
    assert_eq!(report.errors.len(), 1);
    assert!(
        report.errors[0].starts_with("Tools file parse error: "),
        "{:?}",
        report.errors
    );
}

#[test]
fn an_unknown_provider_is_a_validation_error_that_names_the_alternatives() {
    let report = check("provider: openai-responsez\n");
    assert!(!report.passed());
    assert!(
        report.errors[0].contains("openai-responses,"),
        "{:?}",
        report.errors
    );
}

/// Only the name is a property of the definition.
#[test]
fn a_known_provider_passes_without_its_credential() {
    let report = check("provider: openai\n");
    assert!(report.passed(), "{:?}", report.errors);
    assert_eq!(report.notes[1], "  ✓ provider 'openai' is known");
}

#[test]
fn a_blank_provider_is_an_error() {
    assert_eq!(
        check("provider: \" \"\n").errors,
        vec!["provider is present but empty; remove it or name one"]
    );
}

#[test]
fn a_definition_that_names_no_provider_is_not_checked_for_one() {
    assert!(check("").passed());
}

#[test]
fn a_template_placeholder_nothing_substitutes_fails_validation() {
    let report = validate(
        &agent_file("solo", ""),
        &Dict::new(),
        &None,
        &with_template("You are {{AGENT_NAME}}. Use {{AVAILABLE_TOOL}}."),
        false,
    );
    assert_eq!(
        report.errors,
        vec!["template \"prompt.md\" uses 1 placeholder(s) nothing substitutes: {{AVAILABLE_TOOL}}"]
    );
}

#[test]
fn a_template_that_only_uses_known_placeholders_passes() {
    let report = validate(
        &agent_file("solo", ""),
        &Dict::new(),
        &None,
        &with_template("You are {{AGENT_NAME}} in {{WORKING_DIRECTORY}}."),
        false,
    );
    assert!(report.passed(), "{:?}", report.errors);
}

#[test]
fn a_template_is_checked_even_where_the_definition_cannot_be_read() {
    let report = validate(
        &Err("bad yaml".to_string()),
        &Dict::new(),
        &None,
        &Some(Loaded {
            path: "\"prompt.md\"".to_string(),
            content: Err("not found".to_string()),
        }),
        false,
    );
    assert_eq!(
        report.errors,
        vec![
            "Agent definition parse error: bad yaml",
            "Failed to read template \"prompt.md\": not found",
        ]
    );
    assert!(report.notes.is_empty());
}

/// A leftover key is ignored.
#[test]
fn a_leftover_callable_by_is_ignored_rather_than_refused() {
    let report = check("callable_by:\n  - human\n");
    assert!(report.passed(), "{:?}", report.errors);
}

#[test]
fn a_non_array_tools_fails_validation() {
    assert!(
        !check("extra_body:\n  tools: web_search\n").passed(),
        "a string is not a list of tool definitions"
    );
}

#[test]
fn a_reserved_key_fails_validation_including_the_ones_only_one_dialect_owns() {
    for key in ["model", "messages", "input", "system", "store"] {
        let report = check(&format!("extra_body:\n  {key}: something\n"));
        assert_eq!(
            report.errors,
            vec![format!(
                "extra_body contains reserved key '{key}' which would be silently ignored"
            )],
            "{key} should be refused"
        );
    }
}

#[test]
fn a_header_atoma_sets_itself_cannot_be_set_by_an_agent() {
    for name in reserved_header_names() {
        let report = check(&format!("extra_headers:\n  {name}: something\n"));
        assert!(!report.passed(), "{name} should be refused");
    }
}

/// Case is not part of a header's identity.
#[test]
fn a_reserved_header_is_refused_whatever_case_it_is_written_in() {
    let report = check("extra_headers:\n  AUTHORIZATION: bearer x\n");
    assert_eq!(
        report.errors,
        vec!["extra_headers contains 'AUTHORIZATION', which Atoma sets itself"]
    );
}

#[test]
fn a_header_atoma_does_not_set_is_accepted() {
    assert!(check("extra_headers:\n  X-OrcaRouter-Session-Id: atomaton-solo\n").passed());
}

#[test]
fn extra_body_tools_as_an_array_is_accepted() {
    assert!(check("extra_body:\n  tools:\n    - type: openrouter:web_search\n").passed());
}

fn probe(file: ColleagueFile) -> Dict<ColleagueProbe> {
    let mut probes: Dict<ColleagueProbe> = Dict::new();
    probes.insert(
        "helper".to_string(),
        ColleagueProbe {
            path: "\"agents/helper.md\"".to_string(),
            file,
        },
    );
    probes
}

/// Naming a target is the whole declaration.
#[test]
fn knows_about_passes_when_the_target_exists_and_parses() {
    assert!(agent_file("helper", "").is_ok());
    let report = validate(
        &agent_file("caller", "knows_about:\n  - helper\n"),
        &probe(ColleagueFile::Readable),
        &None,
        &None,
        false,
    );
    assert!(report.passed(), "{:?}", report.errors);
    assert_eq!(
        report.notes[1],
        "  ✓ knows_about 'helper' → \"agents/helper.md\""
    );
}

/// A name with no file behind it is a delegation that cannot happen.
#[test]
fn knows_about_fails_when_the_target_is_missing() {
    let report = validate(
        &agent_file("caller", "knows_about:\n  - helper\n"),
        &probe(ColleagueFile::Missing),
        &None,
        &None,
        false,
    );
    assert_eq!(
        report.errors,
        vec!["knows_about 'helper': definition file not found at \"agents/helper.md\""]
    );
}

#[test]
fn knows_about_fails_when_the_target_cannot_be_read() {
    let report = validate(
        &agent_file("caller", "knows_about:\n  - helper\n"),
        &probe(ColleagueFile::Unreadable("bad yaml".to_string())),
        &None,
        &None,
        false,
    );
    assert_eq!(
        report.errors,
        vec!["knows_about 'helper': failed to parse target definition: bad yaml"]
    );
}

#[test]
fn a_runner_is_asked_for_the_credential_the_definition_needs() {
    let agent = agent_file("solo", "provider: anthropic\n");
    assert_eq!(
        validate_credentials(&agent, None, &texts(&["ANTHROPIC_API_KEY"])),
        Ok((Provider::Anthropic, "ANTHROPIC_API_KEY".to_string()))
    );
    assert_eq!(
        validate_credentials(&agent, None, &texts(&["OPENAI_API_KEY"])).unwrap_err(),
        "Provider 'anthropic' needs ANTHROPIC_API_KEY, which is not set."
    );
    assert_eq!(
        validate_credentials(&Err("bad".to_string()), None, &vec![]).unwrap_err(),
        "bad"
    );
}

#[test]
fn only_the_servers_the_agent_names_are_started() {
    let defs = load_yaml("a:\n  command: x\nb:\n  command: y\nc:\n  command: z\n");
    let started = servers_to_start(&texts(&["c", "nope", "a"]), &defs);
    let names: Vec<&str> = started.iter().map(|d| d.name.as_str()).collect();
    assert_eq!(names, vec!["c", "a"]);
}

#[test]
fn everything_the_servers_say_counts() {
    assert_eq!(
        live_tools_verdict(2, &vec![]).unwrap(),
        "  ✓ 2 server(s) started and answered; nothing wrong with their tools"
    );
    let finding = Finding {
        fatal: false,
        message: "m".to_string(),
        kind: FindingKind::DeadGuard {
            server: "s".to_string(),
            pattern: "p".to_string(),
            tools: vec![],
        },
    };
    assert_eq!(
        live_tools_verdict(2, &vec![finding]).unwrap_err(),
        "1 problem(s) found by starting the tool servers"
    );
}
