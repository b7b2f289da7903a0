//! Several servers as one set of tools: which name goes where, and what stands before a call.
use crate::dict::Dict;
use crate::domain::skill::{is_skill_path, skill_called_as_tool_message, skill_hint};
use crate::domain::tool::{Hooks, ToolDef};
use crate::infra::hooks::{access_denial_reason, denial};
use crate::infra::mcp::findings::{
    all_findings, answered_servers, audit, audit_server, audit_tool, audit_tools, dead_patterns_of,
    findings, first_fatal, lines_view, prefixed_names, report_lines, report_on, report_refusal,
    report_warnings, with_fatality, Audit,
    FindingReport, RegisteredTool,
};
use crate::json::{Json, JsonView};
use crate::text;
use crate::text::{opt_text, texts};
use vstd::prelude::*;

verus! {

/// Where a tool name goes.
#[derive(Debug)]
pub struct Route {
    pub server: String,
    pub tool: String,
}

/// Where a tool name goes.
pub struct RouteView {
    pub server: Seq<char>,
    pub tool: Seq<char>,
}

impl View for Route {
    type V = RouteView;

    open spec fn view(&self) -> RouteView {
        RouteView { server: self.server@, tool: self.tool@ }
    }
}

/// The first server name that one before it has already.
pub open spec fn first_repeated(names: Seq<Seq<char>>) -> Option<Seq<char>>
    decreases names.len(),
{
    if names.len() == 0 {
        None
    } else {
        match first_repeated(names.drop_last()) {
            Some(n) => Some(n),
            None => if names.drop_last().contains(names.last()) {
                Some(names.last())
            } else {
                None
            },
        }
    }
}

/// The names of servers.
pub open spec fn server_names(configs: Seq<ToolDef>) -> Seq<Seq<char>> {
    configs.map_values(|c: ToolDef| c.name@)
}

/// Refuses servers that share a name, before any of them is started.
pub fn check_server_names(configs: &Vec<ToolDef>) -> (r: Result<(), String>)
    ensures
        match r {
            Ok(()) => first_repeated(server_names(configs@)) is None,
            Err(e) => first_repeated(server_names(configs@)) is Some && e@
                == "Duplicate MCP server name: '"@ + first_repeated(server_names(configs@))->0
                + "'. Each server must have a unique name."@,
        },
{
    let ghost all = server_names(configs@);
    let mut seen: Vec<String> = Vec::new();
    assert(texts(seen@) =~= all.take(0));
    for i in 0..configs.len()
        invariant
            all == server_names(configs@),
            texts(seen@) == all.take(i as int),
            first_repeated(all.take(i as int)) is None,
    {
        assert(all.take(i + 1).drop_last() =~= all.take(i as int));
        assert(all.take(i + 1).last() == configs@[i as int].name@);
        if text::one_of(&seen, configs[i].name.as_str()) {
            proof {
                lemma_repeat_stays(all, i + 1);
            }
            let mut e = "Duplicate MCP server name: '".to_owned();
            e.append(configs[i].name.as_str());
            e.append("'. Each server must have a unique name.");
            return Err(e);
        }
        let ghost before = texts(seen@);
        seen.push(configs[i].name.clone());
        assert(texts(seen@) =~= before.push(configs@[i as int].name@));
        assert(texts(seen@) =~= all.take(i + 1));
    }
    assert(all.take(all.len() as int) =~= all);
    Ok(())
}

proof fn lemma_repeat_stays(names: Seq<Seq<char>>, k: int)
    requires
        0 <= k <= names.len(),
        first_repeated(names.take(k)) is Some,
    ensures
        first_repeated(names) == first_repeated(names.take(k)),
    decreases names.len() - k,
{
    if k < names.len() {
        assert(names.take(k + 1).drop_last() =~= names.take(k));
        lemma_repeat_stays(names, k + 1);
    } else {
        assert(names.take(k) =~= names);
    }
}

/// A tool that is offered to the model: the server it is on, and its two names and schema.
pub struct OfferView {
    pub server: Seq<char>,
    pub prefixed_name: Seq<char>,
    pub tool_name: Seq<char>,
    pub schema: JsonView,
}

/// A server's tools without those it denies.
pub open spec fn offers_of(config: ToolDef, tools: Seq<RegisteredTool>) -> Seq<OfferView>
    decreases tools.len(),
{
    if tools.len() == 0 {
        Seq::empty()
    } else {
        let earlier = offers_of(config, tools.drop_last());
        let t = tools.last();
        if denial(config.hooks, t.prefixed_name@) is Some {
            earlier
        } else {
            earlier.push(
                OfferView {
                    server: config.name@,
                    prefixed_name: t.prefixed_name@,
                    tool_name: t.tool_name@,
                    schema: t.schema@,
                },
            )
        }
    }
}

/// The tools the first `n` servers offer, without those they deny.
pub open spec fn offers(
    configs: Seq<ToolDef>,
    offered: Seq<(String, Vec<RegisteredTool>)>,
    n: nat,
) -> Seq<OfferView>
    decreases n,
{
    if n == 0 || n > configs.len() || n > offered.len() {
        Seq::empty()
    } else {
        offers(configs, offered, (n - 1) as nat) + offers_of(configs[n - 1], offered[n - 1].1@)
    }
}

/// Where each name goes, of several offers: where it was offered last.
pub open spec fn routes_of(offers: Seq<OfferView>) -> Map<Seq<char>, RouteView>
    decreases offers.len(),
{
    if offers.len() == 0 {
        Map::empty()
    } else {
        routes_of(offers.drop_last()).insert(
            offers.last().prefixed_name,
            RouteView { server: offers.last().server, tool: offers.last().tool_name },
        )
    }
}

/// A tool as the model is told of it.
pub open spec fn definition(o: OfferView) -> JsonView {
    let base = map![
        "name"@ => JsonView::Text(o.prefixed_name),
        "description"@ => JsonView::Text(match o.schema.field_text("description"@) {
            Some(d) => d,
            None => ""@,
        }),
    ];
    JsonView::Object(
        map![
            "type"@ => JsonView::Text("function"@),
            "function"@ => JsonView::Object(match o.schema.field("inputSchema"@) {
                Some(schema) => base.insert("parameters"@, schema),
                None => base,
            }),
        ],
    )
}

/// Several servers as one set of tools.
#[derive(Debug)]
pub struct McpRegistry {
    /// Tool name to where it goes.
    pub routes: Dict<Route>,
    pub tools: Vec<RegisteredTool>,
    pub hooks: Dict<Hooks>,
}

/// Whether a registered tool is an offer's.
pub open spec fn is_offer(t: RegisteredTool, o: OfferView) -> bool {
    t.prefixed_name@ == o.prefixed_name && t.tool_name@ == o.tool_name && t.schema@ == o.schema
}

/// Where each name goes.
pub open spec fn routes_view(routes: Map<Seq<char>, Route>) -> Map<Seq<char>, RouteView> {
    routes.map_values(|r: Route| r@)
}

/// Whether two sets of hooks say the same.
pub open spec fn same_hooks(a: Hooks, b: Hooks) -> bool {
    &&& texts(a.tool_allowlist@) == texts(b.tool_allowlist@)
    &&& texts(a.tool_denylist@) == texts(b.tool_denylist@)
    &&& texts(a.before_tool@) == texts(b.before_tool@)
    &&& texts(a.after_tool@) == texts(b.after_tool@)
}

/// The position of the last server of a name among the first `n`.
pub open spec fn last_named(configs: Seq<ToolDef>, name: Seq<char>, n: nat) -> Option<int>
    decreases n,
{
    if n == 0 || n > configs.len() {
        None
    } else if configs[n - 1].name@ == name {
        Some(n - 1)
    } else {
        last_named(configs, name, (n - 1) as nat)
    }
}

/// Whether a registry's hooks are those of the first `n` servers, by their names.
pub open spec fn are_hooks_of(hooks: Map<Seq<char>, Hooks>, configs: Seq<ToolDef>, n: nat) -> bool {
    forall|name: Seq<char>|
        match last_named(configs, name, n) {
            Some(i) => #[trigger] hooks.contains_key(name) && same_hooks(
                hooks[name],
                configs[i].hooks,
            ),
            None => !hooks.contains_key(name),
        }
}

impl McpRegistry {
    /// Whether a registry is the one of several servers and what they offer.
    pub open spec fn is_of(
        &self,
        configs: Seq<ToolDef>,
        offered: Seq<(String, Vec<RegisteredTool>)>,
    ) -> bool {
        let all = offers(configs, offered, answered_servers(configs, offered));
        &&& routes_view(self.routes@) == routes_of(all)
        &&& self.tools@.len() == all.len()
        &&& forall|i: int| 0 <= i < all.len() ==> is_offer(#[trigger] self.tools@[i], all[i])
        &&& are_hooks_of(self.hooks@, configs, configs.len())
    }
}

fn copy_hooks(h: &Hooks) -> (r: Hooks)
    ensures
        same_hooks(r, *h),
{
    Hooks {
        tool_allowlist: text::clone_all(&h.tool_allowlist),
        tool_denylist: text::clone_all(&h.tool_denylist),
        before_tool: text::clone_all(&h.before_tool),
        after_tool: text::clone_all(&h.after_tool),
    }
}

fn hooks_by_name(configs: &Vec<ToolDef>) -> (r: Dict<Hooks>)
    ensures
        are_hooks_of(r@, configs@, configs@.len()),
{
    let mut out: Dict<Hooks> = Dict::new();
    for i in 0..configs.len()
        invariant
            are_hooks_of(out@, configs@, i as nat),
    {
        let ghost before = out@;
        out.insert(configs[i].name.clone(), copy_hooks(&configs[i].hooks));
        proof {
            let key = configs@[i as int].name@;
            assert forall|name: Seq<char>|
                match last_named(configs@, name, (i + 1) as nat) {
                    Some(k) => #[trigger] out@.contains_key(name) && same_hooks(
                        out@[name],
                        configs@[k].hooks,
                    ),
                    None => !out@.contains_key(name),
                } by {
                if name != key {
                    assert(before.contains_key(name) == out@.contains_key(name));
                }
            }
        }
    }
    out
}

/// Adds what one server offers, without what it denies.
fn add_offers(
    routes: &mut Dict<Route>,
    tools: &mut Vec<RegisteredTool>,
    config: &ToolDef,
    listed: &Vec<RegisteredTool>,
    before: Ghost<Seq<OfferView>>,
)
    requires
        routes_view(old(routes)@) == routes_of(before@),
        old(tools)@.len() == before@.len(),
        forall|i: int|
            0 <= i < before@.len() ==> is_offer(#[trigger] old(tools)@[i], before@[i]),
    ensures
        routes_view(final(routes)@) == routes_of(before@ + offers_of(*config, listed@)),
        final(tools)@.len() == before@.len() + offers_of(*config, listed@).len(),
        forall|i: int|
            0 <= i < final(tools)@.len() ==> is_offer(
                #[trigger] final(tools)@[i],
                (before@ + offers_of(*config, listed@))[i],
            ),
{
    let ghost all = listed@;
    assert(before@ + offers_of(*config, all.take(0)) =~= before@);
    for k in 0..listed.len()
        invariant
            all == listed@,
            routes_view(routes@) == routes_of(before@ + offers_of(*config, all.take(k as int))),
            tools@.len() == before@.len() + offers_of(*config, all.take(k as int)).len(),
            forall|i: int|
                0 <= i < tools@.len() ==> is_offer(
                    #[trigger] tools@[i],
                    (before@ + offers_of(*config, all.take(k as int)))[i],
                ),
    {
        let ghost sofar = before@ + offers_of(*config, all.take(k as int));
        assert(all.take(k + 1).drop_last() =~= all.take(k as int));
        assert(all.take(k + 1).last() == all[k as int]);
        let t = &listed[k];
        if access_denial_reason(&config.hooks, t.prefixed_name.as_str()).is_none() {
            let ghost o = OfferView {
                server: config.name@,
                prefixed_name: t.prefixed_name@,
                tool_name: t.tool_name@,
                schema: t.schema@,
            };
            let ghost next = before@ + offers_of(*config, all.take(k + 1));
            assert(next =~= sofar.push(o));
            assert(next.drop_last() =~= sofar);
            let ghost prior = routes_view(routes@);
            let ghost old_tools = tools@;
            let route = Route { server: config.name.clone(), tool: t.tool_name.clone() };
            let ghost rv = route@;
            routes.insert(t.prefixed_name.clone(), route);
            assert(routes_view(routes@) =~= prior.insert(t.prefixed_name@, rv));
            tools.push(
                RegisteredTool {
                    prefixed_name: t.prefixed_name.clone(),
                    tool_name: t.tool_name.clone(),
                    schema: t.schema.clone(),
                },
            );
            assert forall|i: int| 0 <= i < tools@.len() implies is_offer(
                #[trigger] tools@[i],
                next[i],
            ) by {
                if i < old_tools.len() {
                    assert(tools@[i] == old_tools[i]);
                    assert(next[i] == sofar[i]);
                }
            }
        }
    }
    assert(all.take(all.len() as int) =~= all);
}

impl McpRegistry {
    /// Builds a registry of servers that have said what they offer, or says why it cannot be
    /// one. Every finding's line is in the report, whatever becomes of the run.
    pub fn from_configs(
        configs: &Vec<ToolDef>,
        offered: &Vec<(String, Vec<RegisteredTool>)>,
        fail_on_findings: bool,
    ) -> (r: (FindingReport, Option<McpRegistry>))
        ensures
            lines_view(r.0.lines@) == report_lines(all_findings(configs@, offered@)),
            texts(r.0.warnings@) == report_warnings(all_findings(configs@, offered@)),
            opt_text(r.0.refusal) == report_refusal(
                all_findings(configs@, offered@),
                fail_on_findings,
            ),
            r.1 is Some <==> r.0.refusal is None,
            r.1 is Some ==> r.1->0.is_of(configs@, offered@),
    {
        let found = findings(configs, offered);
        let report = report_on(&found, fail_on_findings);
        if report.refusal.is_some() {
            return (report, None);
        }
        let n: usize = if configs.len() <= offered.len() {
            configs.len()
        } else {
            offered.len()
        };
        let mut routes: Dict<Route> = Dict::new();
        let mut tools: Vec<RegisteredTool> = Vec::new();
        assert(routes_view(routes@) =~= routes_of(offers(configs@, offered@, 0)));
        for i in 0..n
            invariant
                n <= configs@.len(),
                n <= offered@.len(),
                routes_view(routes@) == routes_of(offers(configs@, offered@, i as nat)),
                tools@.len() == offers(configs@, offered@, i as nat).len(),
                forall|k: int|
                    0 <= k < tools@.len() ==> is_offer(
                        #[trigger] tools@[k],
                        offers(configs@, offered@, i as nat)[k],
                    ),
        {
            let ghost before = offers(configs@, offered@, i as nat);
            add_offers(&mut routes, &mut tools, &configs[i], &offered[i].1, Ghost(before));
        }
        let registry = McpRegistry { routes, tools, hooks: hooks_by_name(configs) };
        (report, Some(registry))
    }

    /// The registered tools, as the model is told of them.
    pub fn tool_definitions(&self) -> (r: Vec<Json>)
        ensures
            r@.len() == self.tools@.len(),
            forall|i: int, server: Seq<char>|
                0 <= i < r@.len() ==> (#[trigger] r@[i])@ == #[trigger] definition(
                    offer_on(server, self.tools@[i]),
                ),
    {
        let mut out: Vec<Json> = Vec::new();
        for i in 0..self.tools.len()
            invariant
                out@.len() == i,
                forall|j: int, server: Seq<char>|
                    0 <= j < i ==> (#[trigger] out@[j])@ == #[trigger] definition(
                        offer_on(server, self.tools@[j]),
                    ),
        {
            let t = &self.tools[i];
            let mut function: Dict<Json> = Dict::new();
            function.put("name", Json::text(t.prefixed_name.as_str()));
            function.put(
                "description",
                Json::text(
                    match t.schema.get_str("description") {
                        Some(d) => d,
                        None => "",
                    },
                ),
            );
            if let Some(schema) = t.schema.get("inputSchema") {
                function.put("parameters", schema.clone());
            }
            let mut def: Dict<Json> = Dict::new();
            def.put("type", Json::text("function"));
            def.put("function", Json::Object(function));
            out.push(Json::Object(def));
        }
        out
    }
}

/// A registered tool as an offer of a server.
pub open spec fn offer_on(server: Seq<char>, t: RegisteredTool) -> OfferView {
    OfferView {
        server,
        prefixed_name: t.prefixed_name@,
        tool_name: t.tool_name@,
        schema: t.schema@,
    }
}

// ── Calls ─────────────────────────────────────────────────────────────────────

/// What a call takes: the scripts that run before it, where it goes, and the scripts that run
/// after it.
#[derive(Debug)]
pub struct CallPlan {
    pub server: String,
    pub tool: String,
    pub before: Vec<String>,
    pub after: Vec<String>,
}

/// Why a call cannot be made, where it cannot: access is refused, or there is no such tool. A
/// name shaped like a skill is told how skills are loaded.
pub open spec fn call_problem(registry: McpRegistry, name: Seq<char>) -> Option<Seq<char>> {
    if registry.routes@.contains_key(name) {
        let server = registry.routes@[name].server@;
        if registry.hooks@.contains_key(server) {
            denial(registry.hooks@[server], name)
        } else {
            None
        }
    } else if is_skill_path(name) {
        Some(skill_hint(name))
    } else {
        Some(
            "Unknown tool '"@ + name
                + "'. A tool is named as its server advertises it, with `server__` in front unless that server sets `unprefixed: true`."@,
        )
    }
}

/// The scripts of a server, none where it has no hooks.
pub open spec fn scripts_before(registry: McpRegistry, server: Seq<char>) -> Seq<Seq<char>> {
    if registry.hooks@.contains_key(server) {
        texts(registry.hooks@[server].before_tool@)
    } else {
        Seq::empty()
    }
}

/// The scripts of a server, none where it has no hooks.
pub open spec fn scripts_after(registry: McpRegistry, server: Seq<char>) -> Seq<Seq<char>> {
    if registry.hooks@.contains_key(server) {
        texts(registry.hooks@[server].after_tool@)
    } else {
        Seq::empty()
    }
}

impl McpRegistry {
    /// What a call takes, or why it cannot be made. The route decides whose hooks apply, and
    /// not the name: an unprefixed tool's name does not say which server it is on.
    pub fn plan_call(&self, name: &str) -> (r: Result<CallPlan, String>)
        ensures
            match r {
                Ok(plan) => {
                    &&& call_problem(*self, name@) is None
                    &&& plan.server@ == self.routes@[name@].server@
                    &&& plan.tool@ == self.routes@[name@].tool@
                    &&& texts(plan.before@) == scripts_before(*self, plan.server@)
                    &&& texts(plan.after@) == scripts_after(*self, plan.server@)
                },
                Err(e) => call_problem(*self, name@) == Some(e@),
            },
    {
        let route = match self.routes.get(name) {
            Some(r) => r,
            None => {
                if let Some(hint) = skill_called_as_tool_message(name) {
                    return Err(hint);
                }
                let mut e = "Unknown tool '".to_owned();
                e.append(name);
                e.append(
                    "'. A tool is named as its server advertises it, with `server__` in front unless that server sets `unprefixed: true`.",
                );
                return Err(e);
            },
        };
        match self.hooks.get(route.server.as_str()) {
            Some(h) => {
                if let Some(reason) = access_denial_reason(h, name) {
                    return Err(reason);
                }
                Ok(
                    CallPlan {
                        server: route.server.clone(),
                        tool: route.tool.clone(),
                        before: text::clone_all(&h.before_tool),
                        after: text::clone_all(&h.after_tool),
                    },
                )
            },
            None => {
                let none: Vec<String> = Vec::new();
                let nothing: Vec<String> = Vec::new();
                assert(texts(none@) =~= Seq::<Seq<char>>::empty());
                assert(texts(nothing@) =~= Seq::<Seq<char>>::empty());
                Ok(
                    CallPlan {
                        server: route.server.clone(),
                        tool: route.tool.clone(),
                        before: none,
                        after: nothing,
                    },
                )
            },
        }
    }
}

/// What a script that runs before a call is told.
pub open spec fn before_payload(agent: Seq<char>, tool: Seq<char>, arguments: JsonView) -> Map<
    Seq<char>,
    JsonView,
> {
    map![
        "agent"@ => JsonView::Text(agent),
        "tool"@ => JsonView::Text(tool),
        "arguments"@ => arguments,
    ]
}

/// What a script is told of a call.
pub open spec fn payload(
    agent: Seq<char>,
    tool: Seq<char>,
    arguments: JsonView,
    result: Option<Seq<char>>,
) -> JsonView {
    JsonView::Object(
        match result {
            Some(s) => before_payload(agent, tool, arguments).insert("result"@, JsonView::Text(s)),
            None => before_payload(agent, tool, arguments),
        },
    )
}

/// What a script is told of a call: who calls what with which arguments, and, once it has
/// been made, what came of it.
pub fn hook_payload(agent: &str, tool: &str, arguments: &Json, result: Option<&str>) -> (r: Json)
    ensures
        r@ == payload(agent@, tool@, arguments@, text::opt_str(result)),
{
    let mut out: Dict<Json> = Dict::new();
    out.put("agent", Json::text(agent));
    out.put("tool", Json::text(tool));
    out.put("arguments", arguments.clone());
    if let Some(s) = result {
        out.put("result", Json::text(s));
    }
    Json::Object(out)
}

/// A result with a script's notice appended: the result is the answer the agent asked for, and
/// the notice is a second thing to know.
pub fn with_notice(content: String, notice: &str) -> (r: String)
    ensures
        r@ == content@ + "\n\n"@ + notice@,
{
    let mut out = content;
    out.append("\n\n");
    out.append(notice);
    out
}

/// What builds registries, with the caller's policy about findings that only warn.
#[derive(Debug)]
pub struct McpRegistryFactory {
    pub fail_on_findings: bool,
}

impl McpRegistryFactory {
    /// A factory with a policy.
    pub fn new(fail_on_findings: bool) -> (r: McpRegistryFactory)
        ensures
            r.fail_on_findings == fail_on_findings,
    {
        McpRegistryFactory { fail_on_findings }
    }

    /// Builds a registry of servers that have said what they offer.
    pub fn build(
        &self,
        configs: &Vec<ToolDef>,
        offered: &Vec<(String, Vec<RegisteredTool>)>,
    ) -> (r: (FindingReport, Option<McpRegistry>))
        ensures
            lines_view(r.0.lines@) == report_lines(all_findings(configs@, offered@)),
            texts(r.0.warnings@) == report_warnings(all_findings(configs@, offered@)),
            opt_text(r.0.refusal) == report_refusal(
                all_findings(configs@, offered@),
                self.fail_on_findings,
            ),
            r.1 is Some <==> r.0.refusal is None,
            r.1 is Some ==> r.1->0.is_of(configs@, offered@),
    {
        McpRegistry::from_configs(configs, offered, self.fail_on_findings)
    }
}

// ── What routing promises ─────────────────────────────────────────────────────

/// The names of offers.
pub open spec fn offer_names(offers: Seq<OfferView>) -> Seq<Seq<char>> {
    offers.map_values(|o: OfferView| o.prefixed_name)
}

/// Whether none of several findings is fatal.
pub open spec fn none_fatal(a: Audit) -> bool {
    forall|i: int| 0 <= i < a.found.len() ==> !(#[trigger] a.found[i]).fatal
}

proof fn lemma_audit_tools(
    a: Audit,
    config: ToolDef,
    tools: Seq<RegisteredTool>,
    before: Seq<OfferView>,
)
    requires
        none_fatal(audit_tools(a, config, prefixed_names(tools))),
        offer_names(before).no_duplicates(),
        forall|n: Seq<char>| #[trigger]
            a.claimed.contains_key(n) <==> offer_names(before).contains(n),
    ensures
        none_fatal(a),
        ({
            let after = before + offers_of(config, tools);
            let b = audit_tools(a, config, prefixed_names(tools));
            &&& offer_names(after).no_duplicates()
            &&& forall|n: Seq<char>| #[trigger]
                b.claimed.contains_key(n) <==> offer_names(after).contains(n)
        }),
    decreases tools.len(),
{
    if tools.len() == 0 {
        assert(before + offers_of(config, tools) =~= before);
        assert(prefixed_names(tools).len() == 0);
    } else {
        let most = tools.drop_last();
        let t = tools.last();
        let names = prefixed_names(tools);
        assert(names.drop_last() =~= prefixed_names(most));
        assert(names.last() == t.prefixed_name@);
        let m = audit_tools(a, config, prefixed_names(most));
        let b = audit_tools(a, config, names);
        assert(b == audit_tool(m, config, t.prefixed_name@));
        assert(none_fatal(m)) by {
            assert forall|i: int| 0 <= i < m.found.len() implies !(#[trigger] m.found[i]).fatal by {
                assert(b.found[i] == m.found[i]);
            }
        }
        lemma_audit_tools(a, config, most, before);
        let mid = before + offers_of(config, most);
        let after = before + offers_of(config, tools);
        if denial(config.hooks, t.prefixed_name@) is Some {
            assert(after =~= mid);
        } else {
            if m.claimed.contains_key(t.prefixed_name@) {
                assert(b.found[m.found.len() as int].fatal);
            }
            let o = offers_of(config, tools).last();
            assert(after =~= mid.push(o));
            assert(offer_names(after) =~= offer_names(mid).push(t.prefixed_name@));
            assert(!offer_names(mid).contains(t.prefixed_name@));
            lemma_push_distinct(offer_names(mid), t.prefixed_name@);
        }
    }
}

proof fn lemma_push_distinct(s: Seq<Seq<char>>, x: Seq<char>)
    requires
        s.no_duplicates(),
        !s.contains(x),
    ensures
        s.push(x).no_duplicates(),
        forall|n: Seq<char>| #[trigger] s.push(x).contains(n) <==> s.contains(n) || n == x,
{
    let p = s.push(x);
    assert forall|n: Seq<char>| #[trigger] p.contains(n) <==> s.contains(n) || n == x by {
        if p.contains(n) {
            let i = choose|i: int| 0 <= i < p.len() && p[i] == n;
            if i < s.len() {
                assert(s[i] == n);
            }
        }
        if s.contains(n) {
            let i = choose|i: int| 0 <= i < s.len() && s[i] == n;
            assert(p[i] == n);
        }
        assert(p[s.len() as int] == x);
    }
    assert forall|i: int, j: int| 0 <= i < p.len() && 0 <= j < p.len() && i != j implies p[i]
        != p[j] by {
        if i < s.len() && j < s.len() {
            assert(s[i] != s[j]);
        } else if i < s.len() {
            assert(s.contains(s[i]));
        } else {
            assert(s.contains(s[j]));
        }
    }
}

proof fn lemma_audit_distinct(
    configs: Seq<ToolDef>,
    offered: Seq<(String, Vec<RegisteredTool>)>,
    n: nat,
)
    requires
        n <= configs.len(),
        n <= offered.len(),
        none_fatal(audit(configs, offered, n)),
    ensures
        offer_names(offers(configs, offered, n)).no_duplicates(),
        forall|name: Seq<char>| #[trigger]
            audit(configs, offered, n).claimed.contains_key(name) <==> offer_names(
                offers(configs, offered, n),
            ).contains(name),
    decreases n,
{
    if n > 0 {
        let a = audit(configs, offered, (n - 1) as nat);
        let config = configs[n - 1];
        let tools = offered[n - 1].1@;
        let names = prefixed_names(tools);
        let before = offers(configs, offered, (n - 1) as nat);
        let mid = Audit {
            found: a.found + dead_patterns_of(config, names),
            ..a
        };
        assert(audit_server(a, config, names) == audit_tools(mid, config, names));
        lemma_audit_found_grows(mid, config, names);
        assert(none_fatal(a)) by {
            assert forall|i: int| 0 <= i < a.found.len() implies !(#[trigger] a.found[i]).fatal by {
                let b = audit(configs, offered, n);
                assert(mid.found[i] == a.found[i]);
                assert(b.found[i] == mid.found[i]);
            }
        }
        lemma_audit_distinct(configs, offered, (n - 1) as nat);
        lemma_audit_tools(mid, config, tools, before);
    }
}

proof fn lemma_audit_found_grows(a: Audit, config: ToolDef, names: Seq<Seq<char>>)
    ensures
        audit_tools(a, config, names).found.len() >= a.found.len(),
        forall|i: int|
            0 <= i < a.found.len() ==> #[trigger] audit_tools(a, config, names).found[i]
                == a.found[i],
    decreases names.len(),
{
    if names.len() > 0 {
        lemma_audit_found_grows(a, config, names.drop_last());
    }
}

proof fn lemma_routes(offers: Seq<OfferView>, i: int)
    requires
        offer_names(offers).no_duplicates(),
        0 <= i < offers.len(),
    ensures
        routes_of(offers).contains_key(offers[i].prefixed_name),
        routes_of(offers)[offers[i].prefixed_name] == (RouteView {
            server: offers[i].server,
            tool: offers[i].tool_name,
        }),
    decreases offers.len(),
{
    if i < offers.len() - 1 {
        let most = offers.drop_last();
        assert(offer_names(most).no_duplicates()) by {
            assert forall|a: int, b: int|
                0 <= a < most.len() && 0 <= b < most.len() && a != b implies offer_names(most)[a]
                != offer_names(most)[b] by {
                assert(offer_names(offers)[a] != offer_names(offers)[b]);
            }
        }
        lemma_routes(most, i);
        assert(offer_names(offers)[i] != offer_names(offers)[offers.len() - 1]);
    }
}

proof fn lemma_no_fatal(found: Seq<crate::infra::mcp::findings::FindingView>)
    requires
        with_fatality(found, true).len() == 0,
    ensures
        forall|i: int| 0 <= i < found.len() ==> !(#[trigger] found[i]).fatal,
    decreases found.len(),
{
    if found.len() > 0 {
        assert(!found.last().fatal) by {
            if found.last().fatal {
                assert(with_fatality(found, true).len() > 0);
            }
        }
        lemma_no_fatal(found.drop_last());
        assert forall|i: int| 0 <= i < found.len() implies !(#[trigger] found[i]).fatal by {
            if i < found.len() - 1 {
                assert(found.drop_last()[i] == found[i]);
            }
        }
    }
}

proof fn lemma_first_fatal_absent(found: Seq<crate::infra::mcp::findings::FindingView>)
    requires
        first_fatal(found) is None,
    ensures
        forall|i: int| 0 <= i < found.len() ==> !(#[trigger] found[i]).fatal,
    decreases found.len(),
{
    if found.len() > 0 {
        lemma_first_fatal_absent(found.drop_first());
        assert forall|i: int| 0 <= i < found.len() implies !(#[trigger] found[i]).fatal by {
            if i > 0 {
                assert(found.drop_first()[i - 1] == found[i]);
            }
        }
    }
}

/// In a run that is not refused every tool offered to the model goes to the server that
/// offers it, and nowhere else: no name is claimed twice.
pub proof fn law_every_offered_tool_is_routed_to_its_server(
    configs: Seq<ToolDef>,
    offered: Seq<(String, Vec<RegisteredTool>)>,
    fail_on_findings: bool,
    i: int,
)
    requires
        report_refusal(all_findings(configs, offered), fail_on_findings) is None,
        0 <= i < offers(configs, offered, answered_servers(configs, offered)).len(),
    ensures
        ({
            let all = offers(configs, offered, answered_servers(configs, offered));
            &&& offer_names(all).no_duplicates()
            &&& routes_of(all).contains_key(all[i].prefixed_name)
            &&& routes_of(all)[all[i].prefixed_name] == (RouteView {
                server: all[i].server,
                tool: all[i].tool_name,
            })
        }),
{
    let n = answered_servers(configs, offered);
    let a = audit(configs, offered, n);
    let found = all_findings(configs, offered);
    lemma_first_fatal_absent(found);
    let fatal = with_fatality(a.found, true);
    if fatal.len() > 0 {
        crate::infra::mcp::findings::lemma_with_fatality(a.found, true);
        assert(found[0] == fatal[0]);
    }
    lemma_no_fatal(a.found);
    lemma_audit_distinct(configs, offered, n);
    lemma_routes(offers(configs, offered, n), i);
}

/// No tool a server denies is offered to the model.
pub proof fn law_a_denied_tool_is_not_offered(config: ToolDef, tools: Seq<RegisteredTool>, i: int)
    requires
        0 <= i < offers_of(config, tools).len(),
    ensures
        denial(config.hooks, offers_of(config, tools)[i].prefixed_name) is None,
    decreases tools.len(),
{
    let earlier = offers_of(config, tools.drop_last());
    if i < earlier.len() {
        law_a_denied_tool_is_not_offered(config, tools.drop_last(), i);
        assert(offers_of(config, tools)[i] == earlier[i]);
    }
}

/// Every tool that a server lists and does not deny is offered to the model, with the server it
/// is on, both of its names, and what it takes.
pub proof fn law_every_allowed_tool_is_offered(
    configs: Seq<ToolDef>,
    offered: Seq<(String, Vec<RegisteredTool>)>,
    n: nat,
    s: int,
    t: int,
)
    requires
        n <= configs.len(),
        n <= offered.len(),
        0 <= s < n,
        0 <= t < offered[s].1@.len(),
        denial(configs[s].hooks, offered[s].1@[t].prefixed_name@) is None,
    ensures
        ({
            let tool = offered[s].1@[t];
            exists|i: int|
                0 <= i < offers(configs, offered, n).len() && {
                    let o = #[trigger] offers(configs, offered, n)[i];
                    &&& o.server == configs[s].name@
                    &&& o.prefixed_name == tool.prefixed_name@
                    &&& o.tool_name == tool.tool_name@
                    &&& o.schema == tool.schema@
                }
        }),
    decreases n,
{
    let all = offers(configs, offered, n);
    let before = offers(configs, offered, (n - 1) as nat);
    if s < n - 1 {
        law_every_allowed_tool_is_offered(configs, offered, (n - 1) as nat, s, t);
        let tool = offered[s].1@[t];
        let i = choose|i: int|
            0 <= i < before.len() && {
                let o = #[trigger] before[i];
                &&& o.server == configs[s].name@
                &&& o.prefixed_name == tool.prefixed_name@
                &&& o.tool_name == tool.tool_name@
                &&& o.schema == tool.schema@
            };
        assert(all[i] == before[i]);
    } else {
        lemma_allowed_is_offered(configs[s], offered[s].1@, t);
        let own = offers_of(configs[s], offered[s].1@);
        let i = choose|i: int|
            0 <= i < own.len() && #[trigger] own[i] == offer_on(
                configs[s].name@,
                offered[s].1@[t],
            );
        assert(all[before.len() + i] == own[i]);
    }
}

proof fn lemma_allowed_is_offered(config: ToolDef, tools: Seq<RegisteredTool>, t: int)
    requires
        0 <= t < tools.len(),
        denial(config.hooks, tools[t].prefixed_name@) is None,
    ensures
        exists|i: int|
            0 <= i < offers_of(config, tools).len() && #[trigger] offers_of(config, tools)[i]
                == offer_on(config.name@, tools[t]),
    decreases tools.len(),
{
    let all = offers_of(config, tools);
    let before = offers_of(config, tools.drop_last());
    if t < tools.len() - 1 {
        lemma_allowed_is_offered(config, tools.drop_last(), t);
        let i = choose|i: int|
            0 <= i < before.len() && #[trigger] before[i] == offer_on(config.name@, tools[t]);
        assert(all[i] == before[i]);
    } else {
        assert(all[before.len() as int] == offer_on(config.name@, tools[t]));
    }
}

/// Nothing is offered that no server lists.
pub proof fn law_only_what_a_server_lists_is_offered(
    config: ToolDef,
    tools: Seq<RegisteredTool>,
    i: int,
)
    requires
        0 <= i < offers_of(config, tools).len(),
    ensures
        offers_of(config, tools)[i].server == config.name@,
        exists|t: int|
            0 <= t < tools.len() && offers_of(config, tools)[i] == offer_on(
                config.name@,
                #[trigger] tools[t],
            ),
    decreases tools.len(),
{
    let before = offers_of(config, tools.drop_last());
    if i < before.len() {
        law_only_what_a_server_lists_is_offered(config, tools.drop_last(), i);
        let t = choose|t: int|
            0 <= t < tools.drop_last().len() && before[i] == offer_on(
                config.name@,
                #[trigger] tools.drop_last()[t],
            );
        assert(offers_of(config, tools)[i] == offer_on(config.name@, tools[t]));
    } else {
        assert(offers_of(config, tools)[i] == offer_on(config.name@, tools[tools.len() - 1]));
    }
}

/// Servers are refused exactly where two share a name, and then with a name that two share.
pub proof fn law_only_servers_that_share_a_name_are_refused(names: Seq<Seq<char>>)
    ensures
        first_repeated(names) is None <==> names.no_duplicates(),
        first_repeated(names) is Some ==> exists|i: int, j: int|
            0 <= i < j < names.len() && #[trigger] names[i] == first_repeated(names)->0
                && #[trigger] names[j] == first_repeated(names)->0,
    decreases names.len(),
{
    if names.len() > 0 {
        let most = names.drop_last();
        let last = names.last();
        law_only_servers_that_share_a_name_are_refused(most);
        assert(names =~= most.push(last));
        if first_repeated(most) is Some {
            let (i, j) = choose|i: int, j: int|
                0 <= i < j < most.len() && #[trigger] most[i] == first_repeated(most)->0
                    && #[trigger] most[j] == first_repeated(most)->0;
            assert(names[i] == names[j]);
        } else if most.contains(last) {
            let i = choose|i: int| 0 <= i < most.len() && most[i] == last;
            assert(names[i] == names[most.len() as int]);
        } else {
            lemma_push_distinct(most, last);
        }
    }
}

/// The model is told of a tool by the name it calls it by, with what the server says of it and
/// what it takes.
pub proof fn law_a_tool_is_defined_as_its_server_lists_it(o: OfferView)
    ensures
        ({
            let f = definition(o).field("function"@);
            &&& definition(o).field_text("type"@) == Some("function"@)
            &&& f is Some
            &&& f->0.field_text("name"@) == Some(o.prefixed_name)
            &&& o.schema.field_text("description"@) is Some ==> f->0.field_text("description"@)
                == o.schema.field_text("description"@)
            &&& f->0.field("parameters"@) == o.schema.field("inputSchema"@)
        }),
{
    reveal_strlit("type");
    reveal_strlit("function");
    reveal_strlit("name");
    reveal_strlit("description");
    reveal_strlit("parameters");
    assert("type"@.len() == 4 && "function"@.len() == 8 && "name"@.len() == 4
        && "description"@.len() == 11 && "parameters"@.len() == 10);
}

/// A call that has a route is refused exactly where its server's lists refuse it, and one that
/// has none is always refused, a skill's name with how skills are loaded.
pub proof fn law_a_call_goes_where_it_is_routed(registry: McpRegistry, name: Seq<char>)
    ensures
        !registry.routes@.contains_key(name) ==> call_problem(registry, name) is Some,
        !registry.routes@.contains_key(name) && is_skill_path(name) ==> call_problem(registry, name)
            == Some(skill_hint(name)),
        registry.routes@.contains_key(name) ==> {
            let server = registry.routes@[name].server@;
            &&& registry.hooks@.contains_key(server) ==> (call_problem(registry, name) is Some
                <==> denial(registry.hooks@[server], name) is Some)
            &&& !registry.hooks@.contains_key(server) ==> call_problem(registry, name) is None
        },
{
}

/// The scripts of a call are those of its server, in their order: those for before it before,
/// and those for after it after.
pub proof fn law_a_call_runs_its_servers_scripts(
    registry: McpRegistry,
    server: Seq<char>,
    i: int,
)
    requires
        registry.hooks@.contains_key(server),
    ensures
        scripts_before(registry, server).len() == registry.hooks@[server].before_tool@.len(),
        scripts_after(registry, server).len() == registry.hooks@[server].after_tool@.len(),
        0 <= i < registry.hooks@[server].before_tool@.len() ==> scripts_before(registry, server)[i]
            == registry.hooks@[server].before_tool@[i]@,
        0 <= i < registry.hooks@[server].after_tool@.len() ==> scripts_after(registry, server)[i]
            == registry.hooks@[server].after_tool@[i]@,
{
}

proof fn lemma_last_named(configs: Seq<ToolDef>, n: nat, i: int)
    requires
        server_names(configs).no_duplicates(),
        n <= configs.len(),
        0 <= i < n,
    ensures
        last_named(configs, configs[i].name@, n) == Some(i),
    decreases n,
{
    if i < n - 1 {
        assert(server_names(configs)[i] != server_names(configs)[n - 1]);
        lemma_last_named(configs, (n - 1) as nat, i);
    }
}

/// Where no two servers share a name, each has its own hooks and no others.
pub proof fn law_each_server_has_its_own_hooks(
    hooks: Map<Seq<char>, Hooks>,
    configs: Seq<ToolDef>,
    i: int,
)
    requires
        server_names(configs).no_duplicates(),
        are_hooks_of(hooks, configs, configs.len()),
        0 <= i < configs.len(),
    ensures
        hooks.contains_key(configs[i].name@),
        texts(hooks[configs[i].name@].tool_allowlist@) == texts(configs[i].hooks.tool_allowlist@),
        texts(hooks[configs[i].name@].tool_denylist@) == texts(configs[i].hooks.tool_denylist@),
        texts(hooks[configs[i].name@].before_tool@) == texts(configs[i].hooks.before_tool@),
        texts(hooks[configs[i].name@].after_tool@) == texts(configs[i].hooks.after_tool@),
{
    lemma_last_named(configs, configs.len(), i);
    assert(hooks.contains_key(configs[i].name@));
}

/// A script is told who calls what with which arguments, and what came of it exactly where
/// something has.
pub proof fn law_a_script_is_told_of_the_call(
    agent: Seq<char>,
    tool: Seq<char>,
    arguments: JsonView,
    result: Option<Seq<char>>,
)
    ensures
        payload(agent, tool, arguments, result).field_text("agent"@) == Some(agent),
        payload(agent, tool, arguments, result).field_text("tool"@) == Some(tool),
        payload(agent, tool, arguments, result).field("arguments"@) == Some(arguments),
        payload(agent, tool, arguments, result).field_text("result"@) == result,
{
    reveal_strlit("agent");
    reveal_strlit("tool");
    reveal_strlit("arguments");
    reveal_strlit("result");
    assert("agent"@.len() == 5 && "tool"@.len() == 4 && "arguments"@.len() == 9 && "result"@.len()
        == 6);
}

/// A registry is of its servers: it holds every tool that is offered, in order, with both of its
/// names and what it takes, and a call of any of them goes to the server that offers it and by
/// the name that server knows.
pub proof fn law_a_registry_routes_every_tool_it_offers(
    registry: McpRegistry,
    configs: Seq<ToolDef>,
    offered: Seq<(String, Vec<RegisteredTool>)>,
    fail_on_findings: bool,
    i: int,
)
    requires
        registry.is_of(configs, offered),
        report_refusal(all_findings(configs, offered), fail_on_findings) is None,
        0 <= i < registry.tools@.len(),
    ensures
        ({
            let all = offers(configs, offered, answered_servers(configs, offered));
            let name = registry.tools@[i].prefixed_name@;
            &&& registry.tools@.len() == all.len()
            &&& name == all[i].prefixed_name
            &&& registry.tools@[i].tool_name@ == all[i].tool_name
            &&& registry.tools@[i].schema@ == all[i].schema
            &&& registry.routes@.contains_key(name)
            &&& registry.routes@[name].server@ == all[i].server
            &&& registry.routes@[name].tool@ == all[i].tool_name
        }),
{
    let all = offers(configs, offered, answered_servers(configs, offered));
    law_every_offered_tool_is_routed_to_its_server(configs, offered, fail_on_findings, i);
    assert(is_offer(registry.tools@[i], all[i]));
    let name = all[i].prefixed_name;
    assert(routes_view(registry.routes@).contains_key(name));
    assert(routes_view(registry.routes@)[name] == registry.routes@[name]@);
}

} // verus!
