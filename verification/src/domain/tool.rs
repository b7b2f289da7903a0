//! Tool servers, as a run knows them.
use crate::dict::Dict;
use crate::text;
use crate::text::{join, sort_texts, texts};
use vstd::prelude::*;

verus! {

/// Access control and lifecycle scripts for the calls to one server.
#[derive(Debug)]
pub struct Hooks {
    /// Patterns for allowed tools. Empty means all tools are allowed.
    pub tool_allowlist: Vec<String>,
    /// Patterns for blocked tools. Looked at before the allowlist.
    pub tool_denylist: Vec<String>,
    /// Scripts run before each call, in order. The first refusal wins.
    pub before_tool: Vec<String>,
    /// Scripts run after each successful call, in order.
    pub after_tool: Vec<String>,
}

impl Default for Hooks {
    fn default() -> (r: Hooks)
        ensures
            r.tool_allowlist@.len() == 0,
            r.tool_denylist@.len() == 0,
            r.before_tool@.len() == 0,
            r.after_tool@.len() == 0,
    {
        Hooks {
            tool_allowlist: Vec::new(),
            tool_denylist: Vec::new(),
            before_tool: Vec::new(),
            after_tool: Vec::new(),
        }
    }
}

/// A fully resolved tool server definition.
///
/// A `command` without a `url` is a child process spoken to over its pipes; a `url` without a
/// `command` is something already running, spoken to over HTTP; both is a process that is
/// started and then spoken to over HTTP.
#[derive(Debug)]
pub struct ToolDef {
    pub name: String,
    /// The program to start. Empty when the server is already running.
    pub command: String,
    pub args: Vec<String>,
    /// The environment the child is started with.
    pub env: Dict<String>,
    /// Where to reach the server over HTTP. `None` means pipes.
    pub url: Option<String>,
    /// Headers sent with every request to `url`.
    pub headers: Dict<String>,
    pub hooks: Hooks,
    /// Whether this server's tools keep their own names, with no `server__` prefix.
    pub unprefixed: bool,
    /// How much of one tool result reaches the model, in characters. `None` means the
    /// default.
    pub max_output_chars: Option<usize>,
    /// How long one request to this server may take, in seconds. `None` means the default.
    pub request_timeout_secs: Option<u64>,
    /// Whether a line this server writes to its log channel may be given a severity guessed
    /// from the words in it.
    pub guess_severity_from_output: bool,
}

/// What to say when `asked` names a server the tools file has not got.
pub open spec fn unknown_server(asked: Seq<char>, available: Seq<Seq<char>>) -> Seq<char> {
    if available.len() == 0 {
        "mcp_servers '"@ + asked + "': the tools file declares no servers at all."@
    } else {
        "mcp_servers '"@ + asked + "': no server by that name. The tools file declares: "@ + join(
            sort_texts(available),
            ", "@,
        ) + "."@
    }
}

/// What to say when `mcp_servers` names a server the tools file has not got.
///
/// Lists the ones it has, sorted, so that the same mistake always reads the same.
pub fn unknown_server_message(asked: &str, available: &Vec<String>) -> (r: String)
    ensures
        r@ == unknown_server(asked@, texts(available@)),
{
    let mut out = "mcp_servers '".to_owned();
    out.append(asked);
    if available.len() == 0 {
        out.append("': the tools file declares no servers at all.");
        return out;
    }
    let names = text::sorted(available);
    out.append("': no server by that name. The tools file declares: ");
    out.append(text::joined(&names, ", ").as_str());
    out.append(".");
    out
}

/// The message does not depend on the order in which the servers are listed.
pub proof fn law_the_message_does_not_depend_on_the_order(
    asked: Seq<char>,
    one: Seq<Seq<char>>,
    other: Seq<Seq<char>>,
)
    requires
        one.to_multiset() == other.to_multiset(),
    ensures
        unknown_server(asked, one) == unknown_server(asked, other),
{
    text::lemma_sort_order_independent(one, other);
    text::lemma_sort_texts(one);
    text::lemma_sort_texts(other);
}

/// What is said of a server that is not there names it and every one that is.
pub proof fn law_every_server_there_is_is_named(
    asked: Seq<char>,
    available: Seq<Seq<char>>,
    name: Seq<char>,
)
    ensures
        text::contains(unknown_server(asked, available), asked),
        available.contains(name) ==> text::contains(unknown_server(asked, available), name),
{
    let first = "mcp_servers '"@;
    if available.len() == 0 {
        text::law_what_occurs_is_a_part(
            first,
            asked,
            "': the tools file declares no servers at all."@,
        );
    } else {
        let sorted = sort_texts(available);
        let middle = "': no server by that name. The tools file declares: "@;
        let rest = middle + join(sorted, ", "@) + "."@;
        assert(unknown_server(asked, available) =~= first + asked + rest);
        text::law_what_occurs_is_a_part(first, asked, rest);
        text::lemma_sort_texts(available);
        if available.contains(name) {
            assert(sorted.contains(name));
            let i = choose|i: int| 0 <= i < sorted.len() && sorted[i] == name;
            text::lemma_a_joined_part_occurs(first + asked + middle, sorted, ", "@, i, "."@);
            assert(unknown_server(asked, available) =~= first + asked + middle + join(
                sorted,
                ", "@,
            ) + "."@);
        }
    }
}

} // verus!
