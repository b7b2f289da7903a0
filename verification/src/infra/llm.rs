//! Providers: which there are, and which one a run asks.
pub mod anthropic;
pub mod shared;

use crate::text;
use crate::text::{lowercase, pairs, texts};
use vstd::prelude::*;

verus! {

/// A provider: one credential, one endpoint, one dialect.
#[derive(Debug, Clone, Copy, PartialEq, Eq, Structural)]
pub enum Provider {
    OpenAi,
    OpenAiResponses,
    OpenRouter,
    OpenRouterResponses,
    OrcaRouter,
    OrcaRouterResponses,
    Anthropic,
    GitHubCopilot,
}

/// A provider's name.
pub open spec fn provider_name(p: Provider) -> Seq<char> {
    match p {
        Provider::OpenAi => "openai"@,
        Provider::OpenAiResponses => "openai-responses"@,
        Provider::OpenRouter => "openrouter"@,
        Provider::OpenRouterResponses => "openrouter-responses"@,
        Provider::OrcaRouter => "orcarouter"@,
        Provider::OrcaRouterResponses => "orcarouter-responses"@,
        Provider::Anthropic => "anthropic"@,
        Provider::GitHubCopilot => "github-copilot"@,
    }
}

/// The provider with a name.
pub open spec fn provider_named(name: Seq<char>) -> Option<Provider> {
    if name == "openai"@ {
        Some(Provider::OpenAi)
    } else if name == "openai-responses"@ {
        Some(Provider::OpenAiResponses)
    } else if name == "openrouter"@ {
        Some(Provider::OpenRouter)
    } else if name == "openrouter-responses"@ {
        Some(Provider::OpenRouterResponses)
    } else if name == "orcarouter"@ {
        Some(Provider::OrcaRouter)
    } else if name == "orcarouter-responses"@ {
        Some(Provider::OrcaRouterResponses)
    } else if name == "anthropic"@ {
        Some(Provider::Anthropic)
    } else if name == "github-copilot"@ {
        Some(Provider::GitHubCopilot)
    } else {
        None
    }
}

/// The environment variable that holds a provider's credential.
pub open spec fn provider_credential(p: Provider) -> Seq<char> {
    match p {
        Provider::OpenAi | Provider::OpenAiResponses => "OPENAI_API_KEY"@,
        Provider::OpenRouter | Provider::OpenRouterResponses => "OPENROUTER_API_KEY"@,
        Provider::OrcaRouter | Provider::OrcaRouterResponses => "ORCAROUTER_API_KEY"@,
        Provider::Anthropic => "ANTHROPIC_API_KEY"@,
        Provider::GitHubCopilot => "ATOMA_COPILOT_TOKEN"@,
    }
}

/// Where a provider is reached.
pub open spec fn provider_endpoint(p: Provider) -> Seq<char> {
    match p {
        Provider::OpenAi | Provider::OpenAiResponses => "https://api.openai.com/v1"@,
        Provider::OpenRouter | Provider::OpenRouterResponses => "https://openrouter.ai/api/v1"@,
        Provider::OrcaRouter | Provider::OrcaRouterResponses => "https://api.orcarouter.ai/v1"@,
        Provider::Anthropic => "https://api.anthropic.com"@,
        Provider::GitHubCopilot => "https://api.githubcopilot.com"@,
    }
}

/// The environment variable that moves a provider's endpoint.
pub open spec fn provider_override(p: Provider) -> Seq<char> {
    match p {
        Provider::OpenAi | Provider::OpenAiResponses => "OPENAI_BASE_URL"@,
        Provider::OpenRouter | Provider::OpenRouterResponses => "OPENROUTER_BASE_URL"@,
        Provider::OrcaRouter | Provider::OrcaRouterResponses => "ORCAROUTER_BASE_URL"@,
        Provider::Anthropic => "ANTHROPIC_BASE_URL"@,
        Provider::GitHubCopilot => "COPILOT_BASE_URL"@,
    }
}

impl Provider {
    /// The provider's name.
    pub fn name(self) -> (r: &'static str)
        ensures
            r@ == provider_name(self),
    {
        match self {
            Provider::OpenAi => "openai",
            Provider::OpenAiResponses => "openai-responses",
            Provider::OpenRouter => "openrouter",
            Provider::OpenRouterResponses => "openrouter-responses",
            Provider::OrcaRouter => "orcarouter",
            Provider::OrcaRouterResponses => "orcarouter-responses",
            Provider::Anthropic => "anthropic",
            Provider::GitHubCopilot => "github-copilot",
        }
    }

    /// The provider with a name.
    pub fn from_name(name: &str) -> (r: Option<Provider>)
        ensures
            r == provider_named(name@),
    {
        if text::same(name, "openai") {
            Some(Provider::OpenAi)
        } else if text::same(name, "openai-responses") {
            Some(Provider::OpenAiResponses)
        } else if text::same(name, "openrouter") {
            Some(Provider::OpenRouter)
        } else if text::same(name, "openrouter-responses") {
            Some(Provider::OpenRouterResponses)
        } else if text::same(name, "orcarouter") {
            Some(Provider::OrcaRouter)
        } else if text::same(name, "orcarouter-responses") {
            Some(Provider::OrcaRouterResponses)
        } else if text::same(name, "anthropic") {
            Some(Provider::Anthropic)
        } else if text::same(name, "github-copilot") {
            Some(Provider::GitHubCopilot)
        } else {
            None
        }
    }

    /// The environment variable that holds the provider's credential.
    pub fn credential(self) -> (r: &'static str)
        ensures
            r@ == provider_credential(self),
    {
        match self {
            Provider::OpenAi => "OPENAI_API_KEY",
            Provider::OpenAiResponses => "OPENAI_API_KEY",
            Provider::OpenRouter => "OPENROUTER_API_KEY",
            Provider::OpenRouterResponses => "OPENROUTER_API_KEY",
            Provider::OrcaRouter => "ORCAROUTER_API_KEY",
            Provider::OrcaRouterResponses => "ORCAROUTER_API_KEY",
            Provider::Anthropic => "ANTHROPIC_API_KEY",
            Provider::GitHubCopilot => "ATOMA_COPILOT_TOKEN",
        }
    }

    /// Where the provider is reached.
    pub fn endpoint(self) -> (r: &'static str)
        ensures
            r@ == provider_endpoint(self),
    {
        match self {
            Provider::OpenAi => "https://api.openai.com/v1",
            Provider::OpenAiResponses => "https://api.openai.com/v1",
            Provider::OpenRouter => "https://openrouter.ai/api/v1",
            Provider::OpenRouterResponses => "https://openrouter.ai/api/v1",
            Provider::OrcaRouter => "https://api.orcarouter.ai/v1",
            Provider::OrcaRouterResponses => "https://api.orcarouter.ai/v1",
            Provider::Anthropic => "https://api.anthropic.com",
            Provider::GitHubCopilot => "https://api.githubcopilot.com",
        }
    }

    /// The environment variable that moves the provider's endpoint.
    pub fn base_url_variable(self) -> (r: &'static str)
        ensures
            r@ == provider_override(self),
    {
        match self {
            Provider::OpenAi => "OPENAI_BASE_URL",
            Provider::OpenAiResponses => "OPENAI_BASE_URL",
            Provider::OpenRouter => "OPENROUTER_BASE_URL",
            Provider::OpenRouterResponses => "OPENROUTER_BASE_URL",
            Provider::OrcaRouter => "ORCAROUTER_BASE_URL",
            Provider::OrcaRouterResponses => "ORCAROUTER_BASE_URL",
            Provider::Anthropic => "ANTHROPIC_BASE_URL",
            Provider::GitHubCopilot => "COPILOT_BASE_URL",
        }
    }
}

/// Where requests to a provider go: to where its endpoint was moved, where it was moved
/// anywhere.
pub open spec fn provider_base_url(p: Provider, moved: Option<Seq<char>>) -> Seq<char> {
    if moved is Some && text::trim(moved->0).len() > 0 {
        text::trim(moved->0)
    } else {
        provider_endpoint(p)
    }
}

/// What a provider is told of who asks, where it reads it.
pub open spec fn provider_attribution(p: Provider) -> Seq<(Seq<char>, Seq<char>)> {
    match p {
        Provider::OpenRouter | Provider::OpenRouterResponses => seq![
            ("X-Title"@, "Atoma"@),
            ("HTTP-Referer"@, "https://github.com/yuma-seno/atoma"@),
        ],
        Provider::GitHubCopilot => seq![("Copilot-Integration-Id"@, "atoma"@)],
        _ => Seq::empty(),
    }
}

impl Provider {
    /// Where requests to the provider go. `moved` is what the variable that moves its endpoint
    /// holds.
    pub fn base_url(self, moved: Option<&str>) -> (r: String)
        ensures
            r@ == provider_base_url(self, text::opt_str(moved)),
    {
        if let Some(m) = moved {
            let t = text::trimmed(m);
            if !text::empty(t.as_str()) {
                return t;
            }
        }
        self.endpoint().to_owned()
    }
}

/// The headers that tell a provider who asks. They are fixed, and only a provider that reads
/// them is sent them.
pub fn attribution(provider: Provider) -> (r: Vec<(String, String)>)
    ensures
        pairs(r@) == provider_attribution(provider),
{
    let mut out: Vec<(String, String)> = Vec::new();
    match provider {
        Provider::OpenRouter | Provider::OpenRouterResponses => {
            out.push(("X-Title".to_owned(), "Atoma".to_owned()));
            out.push(("HTTP-Referer".to_owned(), "https://github.com/yuma-seno/atoma".to_owned()));
        },
        Provider::GitHubCopilot => {
            out.push(("Copilot-Integration-Id".to_owned(), "atoma".to_owned()));
        },
        _ => {},
    }
    assert(pairs(out@) =~= provider_attribution(provider));
    out
}

/// What to say of a provider there is none of, after its name.
pub const KNOWN_PROVIDERS: &'static str = "'. Known providers: openai, openai-responses, openrouter, openrouter-responses, orcarouter, orcarouter-responses, anthropic, github-copilot.";

/// Whether there is a provider of that name.
pub fn check_provider_name(name: &str) -> (r: Result<(), String>)
    ensures
        match r {
            Ok(()) => provider_named(name@) is Some,
            Err(e) => provider_named(name@) is None && e@ == "Unknown provider '"@ + name@
                + KNOWN_PROVIDERS@,
        },
{
    if Provider::from_name(name).is_some() {
        Ok(())
    } else {
        let mut e = "Unknown provider '".to_owned();
        e.append(name);
        e.append(KNOWN_PROVIDERS);
        Err(e)
    }
}

/// Every environment variable that may hold a provider's credential.
pub open spec fn provider_credential_list() -> Seq<Seq<char>> {
    seq![
        "OPENAI_API_KEY"@,
        "OPENROUTER_API_KEY"@,
        "ORCAROUTER_API_KEY"@,
        "ANTHROPIC_API_KEY"@,
        "ATOMA_COPILOT_TOKEN"@,
        "GITHUB_TOKEN"@,
        "GH_TOKEN"@,
    ]
}

/// Every environment variable that may hold a provider's credential, whichever provider a run
/// asks.
pub fn provider_credential_names() -> (r: Vec<String>)
    ensures
        texts(r@) == provider_credential_list(),
{
    let mut out: Vec<String> = Vec::new();
    out.push("OPENAI_API_KEY".to_owned());
    out.push("OPENROUTER_API_KEY".to_owned());
    out.push("ORCAROUTER_API_KEY".to_owned());
    out.push("ANTHROPIC_API_KEY".to_owned());
    out.push("ATOMA_COPILOT_TOKEN".to_owned());
    out.push("GITHUB_TOKEN".to_owned());
    out.push("GH_TOKEN".to_owned());
    assert(texts(out@) =~= provider_credential_list());
    out
}

/// The headers set on requests by the orchestrator itself, in lower case.
pub open spec fn reserved_headers() -> Seq<Seq<char>> {
    seq![
        "authorization"@,
        "content-type"@,
        "x-api-key"@,
        "anthropic-version"@,
        "x-title"@,
        "http-referer"@,
        "copilot-integration-id"@,
    ]
}

/// The headers set on requests by the orchestrator itself, in lower case.
pub fn reserved_header_names() -> (r: Vec<String>)
    ensures
        texts(r@) == reserved_headers(),
{
    let mut out: Vec<String> = Vec::new();
    out.push("authorization".to_owned());
    out.push("content-type".to_owned());
    out.push("x-api-key".to_owned());
    out.push("anthropic-version".to_owned());
    out.push("x-title".to_owned());
    out.push("http-referer".to_owned());
    out.push("copilot-integration-id".to_owned());
    assert(texts(out@) =~= reserved_headers());
    out
}

/// Whatever tells a provider who asks is a header that a definition cannot set.
pub proof fn law_attribution_is_reserved(p: Provider, i: int)
    requires
        0 <= i < provider_attribution(p).len(),
    ensures
        reserved_headers().contains(lowercase(provider_attribution(p)[i].0)),
{
    reveal_strlit("X-Title");
    reveal_strlit("x-title");
    reveal_strlit("HTTP-Referer");
    reveal_strlit("http-referer");
    reveal_strlit("Copilot-Integration-Id");
    reveal_strlit("copilot-integration-id");
    assert(lowercase("X-Title"@) =~= "x-title"@);
    assert(lowercase("HTTP-Referer"@) =~= "http-referer"@);
    assert(lowercase("Copilot-Integration-Id"@) =~= "copilot-integration-id"@);
    let own = reserved_headers();
    assert(own[4] == "x-title"@ && own[5] == "http-referer"@ && own[6]
        == "copilot-integration-id"@);
}

// ── Which provider a run asks ─────────────────────────────────────────────────

/// The environment variables that may hold a provider's credential, the first that is set
/// counting. A token for GitHub serves Copilot, and does not select it.
pub open spec fn accepted_credentials(p: Provider) -> Seq<Seq<char>> {
    match p {
        Provider::GitHubCopilot => seq!["ATOMA_COPILOT_TOKEN"@, "GITHUB_TOKEN"@, "GH_TOKEN"@],
        _ => seq![provider_credential(p)],
    }
}

/// The first of several names that is among those set.
pub open spec fn first_set(names: Seq<Seq<char>>, present: Seq<Seq<char>>) -> Option<Seq<char>>
    decreases names.len(),
{
    if names.len() == 0 {
        None
    } else if present.contains(names[0]) {
        Some(names[0])
    } else {
        first_set(names.drop_first(), present)
    }
}

/// The providers a credential may select: one for each credential, and where a credential
/// serves two dialects the one that is asked by chat completions.
pub open spec fn detectable() -> Seq<Provider> {
    seq![
        Provider::OpenAi,
        Provider::OpenRouter,
        Provider::OrcaRouter,
        Provider::Anthropic,
        Provider::GitHubCopilot,
    ]
}

/// Those of several providers whose own credential is among those set.
pub open spec fn detected_of(providers: Seq<Provider>, present: Seq<Seq<char>>) -> Seq<Provider>
    decreases providers.len(),
{
    if providers.len() == 0 {
        Seq::empty()
    } else {
        let earlier = detected_of(providers.drop_last(), present);
        if present.contains(provider_credential(providers.last())) {
            earlier.push(providers.last())
        } else {
            earlier
        }
    }
}

/// The providers whose own credential is among those set.
pub open spec fn detected(present: Seq<Seq<char>>) -> Seq<Provider> {
    detected_of(detectable(), present)
}

/// The provider that was named, if one was: by the definition, and else by the environment.
/// A name of nothing but whitespace is no name.
pub open spec fn named_choice(hint: Option<Seq<char>>, variable: Option<Seq<char>>) -> Option<
    Seq<char>,
> {
    if hint is Some && text::trim(hint->0).len() > 0 {
        Some(text::trim(hint->0))
    } else if variable is Some && text::trim(variable->0).len() > 0 {
        Some(text::trim(variable->0))
    } else {
        None
    }
}

/// Why no provider is asked.
#[derive(Debug, PartialEq, Eq)]
pub enum SelectionProblem {
    /// There is no provider of the name that was given.
    Unknown(String),
    /// No provider was named, and no credential selects one.
    NoCredential,
    /// No provider was named, and the credentials select several.
    Ambiguous(Vec<Provider>),
    /// The provider's credential is not set.
    Unequipped(Provider),
}

/// Whether a run asks `p`, when these credentials are set.
pub open spec fn is_selected(
    p: Provider,
    hint: Option<Seq<char>>,
    variable: Option<Seq<char>>,
    present: Seq<Seq<char>>,
) -> bool {
    match named_choice(hint, variable) {
        Some(name) => provider_named(name) == Some(p),
        None => detected(present) == seq![p],
    }
}

fn first_present(names: &Vec<String>, present: &Vec<String>) -> (r: Option<String>)
    ensures
        text::opt_text(r) == first_set(texts(names@), texts(present@)),
{
    let ghost all = texts(names@);
    assert(all.skip(0) =~= all);
    for i in 0..names.len()
        invariant
            all == texts(names@),
            first_set(all, texts(present@)) == first_set(all.skip(i as int), texts(present@)),
    {
        assert(all.skip(i as int)[0] == names@[i as int]@);
        assert(all.skip(i as int).drop_first() =~= all.skip(i + 1));
        if text::one_of(present, names[i].as_str()) {
            return Some(names[i].clone());
        }
    }
    None
}

fn detect(present: &Vec<String>) -> (r: Vec<Provider>)
    ensures
        r@ == detected(texts(present@)),
{
    let mut all: Vec<Provider> = Vec::new();
    all.push(Provider::OpenAi);
    all.push(Provider::OpenRouter);
    all.push(Provider::OrcaRouter);
    all.push(Provider::Anthropic);
    all.push(Provider::GitHubCopilot);
    assert(all@ =~= detectable());
    let mut out: Vec<Provider> = Vec::new();
    for i in 0..all.len()
        invariant
            all@ == detectable(),
            out@ == detected_of(all@.take(i as int), texts(present@)),
    {
        assert(all@.take(i + 1).drop_last() =~= all@.take(i as int));
        if text::one_of(present, all[i].credential()) {
            out.push(all[i]);
        }
    }
    assert(all@.take(all@.len() as int) =~= all@);
    out
}

impl Provider {
    /// The environment variable that holds the provider's credential, among those set.
    pub fn credential_in(self, present: &Vec<String>) -> (r: Option<String>)
        ensures
            text::opt_text(r) == first_set(accepted_credentials(self), texts(present@)),
    {
        let mut names: Vec<String> = Vec::new();
        names.push(self.credential().to_owned());
        if let Provider::GitHubCopilot = self {
            names.push("GITHUB_TOKEN".to_owned());
            names.push("GH_TOKEN".to_owned());
        }
        assert(texts(names@) =~= accepted_credentials(self));
        first_present(&names, present)
    }
}

/// The provider a run asks: the one its definition names, else the one the environment names,
/// else the one whose credential is set. Two credentials do not decide between themselves.
pub fn select_provider(
    hint: Option<&str>,
    variable: Option<&str>,
    present: &Vec<String>,
) -> (r: Result<Provider, SelectionProblem>)
    ensures
        match r {
            Ok(p) => is_selected(p, text::opt_str(hint), text::opt_str(variable), texts(present@)),
            Err(problem) => !(problem is Unequipped) && stands_in_the_way(
                problem,
                text::opt_str(hint),
                text::opt_str(variable),
                texts(present@),
            ),
        },
{
    let mut name: Option<String> = None;
    if let Some(h) = hint {
        let t = text::trimmed(h);
        if !text::empty(t.as_str()) {
            name = Some(t);
        }
    }
    if name.is_none() {
        if let Some(v) = variable {
            let t = text::trimmed(v);
            if !text::empty(t.as_str()) {
                name = Some(t);
            }
        }
    }
    match name {
        Some(n) => match Provider::from_name(n.as_str()) {
            Some(p) => Ok(p),
            None => Err(SelectionProblem::Unknown(n)),
        },
        None => {
            let found = detect(present);
            if found.len() == 0 {
                Err(SelectionProblem::NoCredential)
            } else if found.len() == 1 {
                let p: Provider = found[0];
                assert(found@ =~= seq![p]);
                Ok(p)
            } else {
                Err(SelectionProblem::Ambiguous(found))
            }
        },
    }
}

/// Whether a problem is what keeps a run from asking a provider, when these credentials are
/// set.
pub open spec fn stands_in_the_way(
    problem: SelectionProblem,
    hint: Option<Seq<char>>,
    variable: Option<Seq<char>>,
    present: Seq<Seq<char>>,
) -> bool {
    let named = named_choice(hint, variable);
    match problem {
        SelectionProblem::Unknown(name) => named == Some(name@) && provider_named(name@) is None,
        SelectionProblem::NoCredential => named is None && detected(present).len() == 0,
        SelectionProblem::Ambiguous(several) => named is None && several@ == detected(present)
            && several@.len() > 1,
        SelectionProblem::Unequipped(p) => is_selected(p, hint, variable, present) && first_set(
            accepted_credentials(p),
            present,
        ) is None,
    }
}

/// Whether a run is equipped to ask the provider it would ask: that provider, and the variable
/// that holds its credential.
pub fn check_credentials(
    hint: Option<&str>,
    variable: Option<&str>,
    present: &Vec<String>,
) -> (r: Result<(Provider, String), SelectionProblem>)
    ensures
        match r {
            Ok((p, credential)) => is_selected(
                p,
                text::opt_str(hint),
                text::opt_str(variable),
                texts(present@),
            ) && first_set(accepted_credentials(p), texts(present@)) == Some(credential@),
            Err(problem) => stands_in_the_way(
                problem,
                text::opt_str(hint),
                text::opt_str(variable),
                texts(present@),
            ),
        },
{
    match select_provider(hint, variable, present) {
        Ok(p) => match p.credential_in(present) {
            Some(credential) => Ok((p, credential)),
            None => Err(SelectionProblem::Unequipped(p)),
        },
        Err(problem) => Err(problem),
    }
}

/// The names of several providers.
pub open spec fn provider_names(providers: Seq<Provider>) -> Seq<Seq<char>> {
    providers.map_values(|p: Provider| provider_name(p))
}

/// What is said of a problem.
pub open spec fn selection_message(problem: SelectionProblem) -> Seq<char> {
    match problem {
        SelectionProblem::Unknown(name) => "Unknown provider '"@ + name@ + KNOWN_PROVIDERS@,
        SelectionProblem::NoCredential => NO_CREDENTIAL@,
        SelectionProblem::Ambiguous(several) => "Credentials for more than one provider are set: "@
            + text::join(provider_names(several@), ", "@) + NAME_ONE@,
        SelectionProblem::Unequipped(p) => "Provider '"@ + provider_name(p) + "' needs "@
            + text::join(accepted_credentials(p), " or "@) + ", which is not set."@,
    }
}

/// What is said where nothing selects a provider.
pub const NO_CREDENTIAL: &'static str = "No provider credential is set. Set one of OPENAI_API_KEY, OPENROUTER_API_KEY, ORCAROUTER_API_KEY, ANTHROPIC_API_KEY or ATOMA_COPILOT_TOKEN.";

/// What to do where the credentials select several providers.
pub const NAME_ONE: &'static str = ". Name one with ATOMA_PROVIDER or the agent's provider, or remove the credential this run should not use.";

impl SelectionProblem {
    /// What is said of the problem.
    pub fn message(&self) -> (r: String)
        ensures
            r@ == selection_message(*self),
    {
        match self {
            SelectionProblem::Unknown(name) => {
                let mut e = "Unknown provider '".to_owned();
                e.append(name.as_str());
                e.append(KNOWN_PROVIDERS);
                e
            },
            SelectionProblem::NoCredential => NO_CREDENTIAL.to_owned(),
            SelectionProblem::Ambiguous(several) => {
                let mut names: Vec<String> = Vec::new();
                for i in 0..several.len()
                    invariant
                        texts(names@) == provider_names(several@.take(i as int)),
                {
                    let ghost before = texts(names@);
                    let name = several[i].name().to_owned();
                    let ghost nv = name@;
                    names.push(name);
                    assert(texts(names@) =~= before.push(nv));
                    assert(texts(names@) =~= provider_names(several@.take(i + 1)));
                }
                assert(several@.take(several@.len() as int) =~= several@);
                let mut e = "Credentials for more than one provider are set: ".to_owned();
                e.append(text::joined(&names, ", ").as_str());
                e.append(NAME_ONE);
                e
            },
            SelectionProblem::Unequipped(p) => {
                let mut names: Vec<String> = Vec::new();
                names.push(p.credential().to_owned());
                if let Provider::GitHubCopilot = p {
                    names.push("GITHUB_TOKEN".to_owned());
                    names.push("GH_TOKEN".to_owned());
                }
                assert(texts(names@) =~= accepted_credentials(*p));
                let mut e = "Provider '".to_owned();
                e.append(p.name());
                e.append("' needs ");
                e.append(text::joined(&names, " or ").as_str());
                e.append(", which is not set.");
                e
            },
        }
    }
}

/// A token for GitHub takes no part in choosing a provider: a run that talks to GitHub holds
/// one anyway.
pub proof fn law_a_github_token_selects_nothing(present: Seq<Seq<char>>, token: Seq<char>)
    requires
        token == "GITHUB_TOKEN"@ || token == "GH_TOKEN"@,
    ensures
        detected(present.push(token)) == detected(present),
{
    reveal_strlit("GITHUB_TOKEN");
    reveal_strlit("GH_TOKEN");
    reveal_strlit("OPENAI_API_KEY");
    reveal_strlit("OPENROUTER_API_KEY");
    reveal_strlit("ORCAROUTER_API_KEY");
    reveal_strlit("ANTHROPIC_API_KEY");
    reveal_strlit("ATOMA_COPILOT_TOKEN");
    assert forall|p: Provider| #[trigger] provider_credential(p) != token by {
        assert(token.len() == 12 || token.len() == 8);
        assert(provider_credential(p).len() >= 14);
    }
    lemma_detection_ignores(detectable(), present, token);
}

proof fn lemma_detection_ignores(
    providers: Seq<Provider>,
    present: Seq<Seq<char>>,
    token: Seq<char>,
)
    requires
        forall|p: Provider| #[trigger] provider_credential(p) != token,
    ensures
        detected_of(providers, present.push(token)) == detected_of(providers, present),
    decreases providers.len(),
{
    if providers.len() > 0 {
        lemma_detection_ignores(providers.drop_last(), present, token);
        let c = provider_credential(providers.last());
        let more = present.push(token);
        if present.contains(c) {
            let i = choose|i: int| 0 <= i < present.len() && present[i] == c;
            assert(more[i] == c);
        }
        if more.contains(c) {
            let i = choose|i: int| 0 <= i < more.len() && more[i] == c;
            assert(present[i] == c);
        }
    }
}

/// Every provider is found by its name, and by no other's.
pub proof fn law_names_tell_providers_apart(p: Provider)
    ensures
        provider_named(provider_name(p)) == Some(p),
{
    reveal_strlit("openai");
    reveal_strlit("openai-responses");
    reveal_strlit("openrouter");
    reveal_strlit("openrouter-responses");
    reveal_strlit("orcarouter");
    reveal_strlit("orcarouter-responses");
    reveal_strlit("anthropic");
    reveal_strlit("github-copilot");
    assert("openai"@.len() == 6);
    assert("openai-responses"@.len() == 16);
    assert("openrouter"@.len() == 10);
    assert("openrouter-responses"@.len() == 20);
    assert("orcarouter"@.len() == 10);
    assert("orcarouter-responses"@.len() == 20);
    assert("anthropic"@.len() == 9);
    assert("github-copilot"@.len() == 14);
    assert("orcarouter"@[1] != "openrouter"@[1]);
    assert("orcarouter-responses"@[1] != "openrouter-responses"@[1]);
}

/// Every provider has its own credential, its own endpoint and its own variable to move it, and
/// the two dialects of one vendor share all three.
pub proof fn law_every_provider_has_its_row(p: Provider)
    ensures
        match p {
            Provider::OpenAi | Provider::OpenAiResponses => provider_credential(p)
                == "OPENAI_API_KEY"@ && provider_endpoint(p) == "https://api.openai.com/v1"@
                && provider_override(p) == "OPENAI_BASE_URL"@,
            Provider::OpenRouter | Provider::OpenRouterResponses => provider_credential(p)
                == "OPENROUTER_API_KEY"@ && provider_endpoint(p)
                == "https://openrouter.ai/api/v1"@ && provider_override(p)
                == "OPENROUTER_BASE_URL"@,
            Provider::OrcaRouter | Provider::OrcaRouterResponses => provider_credential(p)
                == "ORCAROUTER_API_KEY"@ && provider_endpoint(p)
                == "https://api.orcarouter.ai/v1"@ && provider_override(p)
                == "ORCAROUTER_BASE_URL"@,
            Provider::Anthropic => provider_credential(p) == "ANTHROPIC_API_KEY"@
                && provider_endpoint(p) == "https://api.anthropic.com"@ && provider_override(p)
                == "ANTHROPIC_BASE_URL"@,
            Provider::GitHubCopilot => provider_credential(p) == "ATOMA_COPILOT_TOKEN"@
                && provider_endpoint(p) == "https://api.githubcopilot.com"@ && provider_override(p)
                == "COPILOT_BASE_URL"@,
        },
        accepted_credentials(p)[0] == provider_credential(p),
        p != Provider::GitHubCopilot ==> accepted_credentials(p).len() == 1,
        p == Provider::GitHubCopilot ==> accepted_credentials(p).contains("GITHUB_TOKEN"@)
            && accepted_credentials(p).contains("GH_TOKEN"@),
        provider_credential_list().contains(provider_credential(p)),
{
    let own = provider_credential_list();
    assert(own[0] == "OPENAI_API_KEY"@ && own[1] == "OPENROUTER_API_KEY"@ && own[2]
        == "ORCAROUTER_API_KEY"@ && own[3] == "ANTHROPIC_API_KEY"@ && own[4]
        == "ATOMA_COPILOT_TOKEN"@);
    if p == Provider::GitHubCopilot {
        assert(accepted_credentials(p)[1] == "GITHUB_TOKEN"@);
        assert(accepted_credentials(p)[2] == "GH_TOKEN"@);
    }
}

/// Every variable that may hold a credential of some provider is a protected one.
pub proof fn law_every_accepted_credential_is_protected(p: Provider, i: int)
    requires
        0 <= i < accepted_credentials(p).len(),
    ensures
        provider_credential_list().contains(accepted_credentials(p)[i]),
{
    let own = provider_credential_list();
    assert(own[0] == "OPENAI_API_KEY"@ && own[1] == "OPENROUTER_API_KEY"@ && own[2]
        == "ORCAROUTER_API_KEY"@ && own[3] == "ANTHROPIC_API_KEY"@ && own[4]
        == "ATOMA_COPILOT_TOKEN"@ && own[5] == "GITHUB_TOKEN"@ && own[6] == "GH_TOKEN"@);
}

/// The credential that is used is the first of those accepted that is set, and there is none
/// exactly where none of them is.
pub proof fn law_the_first_credential_that_is_set_is_used(
    names: Seq<Seq<char>>,
    present: Seq<Seq<char>>,
    i: int,
)
    ensures
        first_set(names, present) is None <==> forall|j: int|
            0 <= j < names.len() ==> !present.contains(#[trigger] names[j]),
        0 <= i < names.len() && present.contains(names[i]) && (forall|j: int|
            0 <= j < i ==> !present.contains(#[trigger] names[j])) ==> first_set(names, present)
            == Some(names[i]),
    decreases names.len(),
{
    if names.len() > 0 {
        let rest = names.drop_first();
        law_the_first_credential_that_is_set_is_used(rest, present, i - 1);
        assert forall|j: int| 0 <= j < rest.len() implies #[trigger] rest[j] == names[j + 1] by {}
        if !present.contains(names[0]) {
            if first_set(rest, present) is None {
                assert forall|j: int| 0 <= j < names.len() implies !present.contains(
                    #[trigger] names[j],
                ) by {
                    if j > 0 {
                        assert(rest[j - 1] == names[j]);
                    }
                }
            } else {
                let j = choose|j: int| 0 <= j < rest.len() && present.contains(#[trigger] rest[j]);
                assert(present.contains(names[j + 1]));
            }
        }
    }
}

proof fn lemma_detected_of(providers: Seq<Provider>, present: Seq<Seq<char>>, p: Provider)
    ensures
        detected_of(providers, present).contains(p) <==> providers.contains(p) && present.contains(
            provider_credential(p),
        ),
    decreases providers.len(),
{
    if providers.len() > 0 {
        let most = providers.drop_last();
        let last = providers.last();
        lemma_detected_of(most, present, p);
        assert(providers.contains(p) <==> most.contains(p) || p == last) by {
            if providers.contains(p) {
                let i = choose|i: int| 0 <= i < providers.len() && providers[i] == p;
                if i < most.len() {
                    assert(most[i] == p);
                }
            }
            if most.contains(p) {
                let i = choose|i: int| 0 <= i < most.len() && most[i] == p;
                assert(providers[i] == p);
            }
            assert(providers[most.len() as int] == last);
        }
        let before = detected_of(most, present);
        let after = detected_of(providers, present);
        if present.contains(provider_credential(last)) {
            assert(after.contains(p) <==> before.contains(p) || p == last) by {
                if after.contains(p) {
                    let i = choose|i: int| 0 <= i < after.len() && after[i] == p;
                    if i < before.len() {
                        assert(before[i] == p);
                    }
                }
                if before.contains(p) {
                    let i = choose|i: int| 0 <= i < before.len() && before[i] == p;
                    assert(after[i] == p);
                }
                assert(after[before.len() as int] == last);
            }
        }
    }
}

/// A provider is detected exactly where its own credential is set, and never one that has to be
/// asked for by name.
pub proof fn law_a_provider_is_detected_by_its_credential(present: Seq<Seq<char>>, p: Provider)
    ensures
        detected(present).contains(p) <==> present.contains(provider_credential(p)) && (p
            == Provider::OpenAi || p == Provider::OpenRouter || p == Provider::OrcaRouter || p
            == Provider::Anthropic || p == Provider::GitHubCopilot),
{
    lemma_detected_of(detectable(), present, p);
    let all = detectable();
    assert(all[0] == Provider::OpenAi && all[1] == Provider::OpenRouter && all[2]
        == Provider::OrcaRouter && all[3] == Provider::Anthropic && all[4]
        == Provider::GitHubCopilot);
}

/// A provider that the definition names is the one that is asked, whatever the environment says
/// and holds; else the one the environment names; and only where neither names one does a
/// credential decide.
pub proof fn law_a_named_provider_is_the_one_that_is_asked(
    p: Provider,
    name: Seq<char>,
    variable: Option<Seq<char>>,
    present: Seq<Seq<char>>,
)
    requires
        text::trim(name).len() > 0,
    ensures
        is_selected(p, Some(name), variable, present) <==> provider_named(text::trim(name)) == Some(
            p,
        ),
        is_selected(p, None, Some(name), present) <==> provider_named(text::trim(name)) == Some(p),
        is_selected(p, None, None, present) <==> detected(present) == seq![p],
{
}

/// Requests go to where the endpoint was moved, and to the endpoint where it was not.
pub proof fn law_an_endpoint_stays_unless_it_is_moved(p: Provider, moved: Seq<char>)
    ensures
        provider_base_url(p, None) == provider_endpoint(p),
        text::trim(moved).len() == 0 ==> provider_base_url(p, Some(moved)) == provider_endpoint(p),
        text::trim(moved).len() > 0 ==> provider_base_url(p, Some(moved)) == text::trim(moved),
{
}

/// A provider is asked for by its vendor's name, and by the name of its dialect behind that
/// where it is not the one that is detected.
pub proof fn law_a_provider_is_asked_for_by_its_name(p: Provider)
    ensures
        provider_name(p) == match p {
            Provider::OpenAi => "openai"@,
            Provider::OpenAiResponses => "openai-responses"@,
            Provider::OpenRouter => "openrouter"@,
            Provider::OpenRouterResponses => "openrouter-responses"@,
            Provider::OrcaRouter => "orcarouter"@,
            Provider::OrcaRouterResponses => "orcarouter-responses"@,
            Provider::Anthropic => "anthropic"@,
            Provider::GitHubCopilot => "github-copilot"@,
        },
{
}

/// What keeps a run from asking is so: a name that is no provider's, no credential that selects
/// one, credentials that select several, or a provider none of whose credentials is set.
pub proof fn law_what_stands_in_the_way_is_so(
    problem: SelectionProblem,
    hint: Option<Seq<char>>,
    variable: Option<Seq<char>>,
    present: Seq<Seq<char>>,
    p: Provider,
)
    requires
        stands_in_the_way(problem, hint, variable, present),
    ensures
        problem is Unknown ==> provider_named(problem->Unknown_0@) is None && !is_selected(
            p,
            hint,
            variable,
            present,
        ),
        problem is NoCredential ==> named_choice(hint, variable) is None && !detected(
            present,
        ).contains(p) && !is_selected(p, hint, variable, present),
        problem is Ambiguous ==> named_choice(hint, variable) is None
            && problem->Ambiguous_0@.len() > 1 && (problem->Ambiguous_0@.contains(p) <==> detected(
            present,
        ).contains(p)) && !is_selected(p, hint, variable, present),
        problem is Unequipped ==> is_selected(problem->Unequipped_0, hint, variable, present)
            && forall|i: int|
            0 <= i < accepted_credentials(problem->Unequipped_0).len() ==> !present.contains(
                #[trigger] accepted_credentials(problem->Unequipped_0)[i],
            ),
{
    if let SelectionProblem::Unequipped(q) = problem {
        law_the_first_credential_that_is_set_is_used(accepted_credentials(q), present, 0);
    }
    if problem is Ambiguous {
        assert(seq![p].len() == 1);
    }
    if problem is NoCredential {
        assert(seq![p].len() == 1);
    }
}

/// What is said of a problem names what it is about: the name that is no provider's, every
/// provider that is selected, or every credential that would do.
pub proof fn law_a_selection_problem_names_what_it_is_about(problem: SelectionProblem, i: int)
    ensures
        problem is Unknown ==> text::contains(selection_message(problem), problem->Unknown_0@),
        problem is Ambiguous && 0 <= i < problem->Ambiguous_0@.len() ==> text::contains(
            selection_message(problem),
            provider_name(problem->Ambiguous_0@[i]),
        ),
        problem is Unequipped && 0 <= i < accepted_credentials(problem->Unequipped_0).len()
            ==> text::contains(
            selection_message(problem),
            accepted_credentials(problem->Unequipped_0)[i],
        ),
{
    match problem {
        SelectionProblem::Unknown(name) => {
            text::law_what_occurs_is_a_part("Unknown provider '"@, name@, KNOWN_PROVIDERS@);
        },
        SelectionProblem::Ambiguous(several) => {
            if 0 <= i < several@.len() {
                let names = provider_names(several@);
                assert(names[i] == provider_name(several@[i]));
                text::lemma_a_joined_part_occurs(
                    "Credentials for more than one provider are set: "@,
                    names,
                    ", "@,
                    i,
                    NAME_ONE@,
                );
            }
        },
        SelectionProblem::Unequipped(p) => {
            if 0 <= i < accepted_credentials(p).len() {
                text::lemma_a_joined_part_occurs(
                    "Provider '"@ + provider_name(p) + "' needs "@,
                    accepted_credentials(p),
                    " or "@,
                    i,
                    ", which is not set."@,
                );
            }
        },
        SelectionProblem::NoCredential => {},
    }
}

} // verus!
