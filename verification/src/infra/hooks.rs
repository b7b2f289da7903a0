//! Access control for tool calls, and what hook scripts have to say about them.
use crate::domain::tool::Hooks;
use crate::json;
use crate::json::{parsed_json, Json, JsonView};
use crate::text;
use crate::text::{starts_with, texts};
use vstd::prelude::*;

verus! {

/// Whether both lists are set.
pub open spec fn sets_both(hooks: Hooks) -> bool {
    hooks.tool_allowlist@.len() > 0 && hooks.tool_denylist@.len() > 0
}

/// What is said of a server that sets both of its lists.
pub open spec fn both_lists_warning(server: Seq<char>) -> Seq<char> {
    "Server '"@ + server
        + "' sets both tool_allowlist and tool_denylist. The denylist is checked first, so a tool matching both is blocked."@
}

/// Whether both lists are set.
pub fn sets_both_lists(hooks: &Hooks) -> (r: bool)
    ensures
        r == sets_both(*hooks),
{
    hooks.tool_allowlist.len() > 0 && hooks.tool_denylist.len() > 0
}

/// What is said of a server that sets both of its lists.
pub fn warn_of_both_lists(server: &str) -> (r: String)
    ensures
        r@ == both_lists_warning(server@),
{
    let mut out = "Server '".to_owned();
    out.append(server);
    out.append(
        "' sets both tool_allowlist and tool_denylist. The denylist is checked first, so a tool matching both is blocked.",
    );
    out
}

/// What to say of a server's hooks when it is registered. Both lists together is unusual rather
/// than wrong, and worth saying.
pub fn describe_hooks(server: &str, hooks: &Hooks) -> (r: Option<String>)
    ensures
        text::opt_text(r) == if sets_both(*hooks) {
            Some(both_lists_warning(server@))
        } else {
            None
        },
{
    if sets_both_lists(hooks) {
        Some(warn_of_both_lists(server))
    } else {
        None
    }
}

/// Whether a pattern matches a tool's name: exactly, or by what stands before its trailing
/// star.
pub open spec fn pattern_matches(pattern: Seq<char>, name: Seq<char>) -> bool {
    if pattern.len() > 0 && pattern.last() == '*' {
        starts_with(name, pattern.drop_last())
    } else {
        pattern == name
    }
}

/// Whether one of several patterns matches a tool's name.
pub open spec fn any_matches(patterns: Seq<Seq<char>>, name: Seq<char>) -> bool {
    exists|i: int| 0 <= i < patterns.len() && pattern_matches(#[trigger] patterns[i], name)
}

/// Whether a pattern matches a tool's name.
pub fn matches_pattern(pattern: &str, name: &str) -> (r: bool)
    ensures
        r == pattern_matches(pattern@, name@),
{
    let p = text::chars_of(pattern);
    if p.len() > 0 && p[p.len() - 1] == '*' {
        let prefix = text::slice(&p, 0, p.len() - 1);
        assert(prefix@ =~= pattern@.drop_last());
        text::begins(name, prefix.as_str())
    } else {
        text::same(pattern, name)
    }
}

fn one_matches(patterns: &Vec<String>, name: &str) -> (r: bool)
    ensures
        r == any_matches(texts(patterns@), name@),
{
    let ghost all = texts(patterns@);
    for i in 0..patterns.len()
        invariant
            all == texts(patterns@),
            forall|j: int| 0 <= j < i ==> !pattern_matches(#[trigger] all[j], name@),
    {
        if matches_pattern(patterns[i].as_str(), name) {
            assert(pattern_matches(all[i as int], name@));
            return true;
        }
    }
    false
}

/// Why a call is refused, where it is: the denylist is looked at first, and an allowlist with
/// nothing in it allows everything.
pub open spec fn denial(hooks: Hooks, name: Seq<char>) -> Option<Seq<char>> {
    if any_matches(texts(hooks.tool_denylist@), name) {
        Some("Tool '"@ + name + "' is blocked by tool_denylist"@)
    } else if hooks.tool_allowlist@.len() > 0 && !any_matches(texts(hooks.tool_allowlist@), name) {
        Some("Tool '"@ + name + "' is not in tool_allowlist"@)
    } else {
        None
    }
}

/// Why a call is refused, where it is.
pub fn access_denial_reason(hooks: &Hooks, name: &str) -> (r: Option<String>)
    ensures
        text::opt_text(r) == denial(*hooks, name@),
{
    if one_matches(&hooks.tool_denylist, name) {
        let mut out = "Tool '".to_owned();
        out.append(name);
        out.append("' is blocked by tool_denylist");
        return Some(out);
    }
    if hooks.tool_allowlist.len() > 0 && !one_matches(&hooks.tool_allowlist, name) {
        let mut out = "Tool '".to_owned();
        out.append(name);
        out.append("' is not in tool_allowlist");
        return Some(out);
    }
    None
}

/// A tool the denylist names is refused whatever the allowlist says.
pub proof fn law_the_denylist_comes_first(hooks: Hooks, name: Seq<char>)
    requires
        any_matches(texts(hooks.tool_denylist@), name),
    ensures
        denial(hooks, name) is Some,
{
}

/// Whether a pattern matches none of several names.
pub open spec fn matches_nothing(pattern: Seq<char>, names: Seq<Seq<char>>) -> bool {
    forall|i: int| 0 <= i < names.len() ==> !pattern_matches(pattern, #[trigger] names[i])
}

/// Those of several patterns that match none of several names.
pub open spec fn unmatched(patterns: Seq<Seq<char>>, names: Seq<Seq<char>>) -> Seq<Seq<char>>
    decreases patterns.len(),
{
    if patterns.len() == 0 {
        Seq::empty()
    } else if matches_nothing(patterns.last(), names) {
        unmatched(patterns.drop_last(), names).push(patterns.last())
    } else {
        unmatched(patterns.drop_last(), names)
    }
}

/// The patterns of a server's lists that match none of its tools: the allowlist's, then the
/// denylist's.
pub open spec fn dead_patterns(hooks: Hooks, names: Seq<Seq<char>>) -> Seq<Seq<char>> {
    unmatched(texts(hooks.tool_allowlist@), names) + unmatched(texts(hooks.tool_denylist@), names)
}

fn add_unmatched(out: &mut Vec<String>, patterns: &Vec<String>, names: &Vec<String>)
    ensures
        texts(final(out)@) == texts(old(out)@) + unmatched(texts(patterns@), texts(names@)),
{
    let ghost before = texts(out@);
    let ghost all = texts(patterns@);
    assert(before + unmatched(all.take(0), texts(names@)) =~= before);
    for i in 0..patterns.len()
        invariant
            all == texts(patterns@),
            texts(out@) == before + unmatched(all.take(i as int), texts(names@)),
    {
        assert(all.take(i + 1).drop_last() =~= all.take(i as int));
        assert(all.take(i + 1).last() == patterns@[i as int]@);
        let mut dead = true;
        for j in 0..names.len()
            invariant
                i < patterns@.len(),
                dead == (forall|k: int|
                    0 <= k < j ==> !pattern_matches(
                        patterns@[i as int]@,
                        #[trigger] texts(names@)[k],
                    )),
        {
            assert(texts(names@)[j as int] == names@[j as int]@);
            if matches_pattern(patterns[i].as_str(), names[j].as_str()) {
                dead = false;
            }
        }
        if dead {
            let ghost prior = texts(out@);
            out.push(patterns[i].clone());
            assert(texts(out@) =~= prior.push(patterns@[i as int]@));
            assert(texts(out@) =~= before + unmatched(all.take(i + 1), texts(names@)));
        }
    }
    assert(all.take(all.len() as int) =~= all);
}

/// The patterns of a server's lists that match none of its tools. Each reads as a guard and
/// guards nothing.
pub fn unmatched_patterns(hooks: &Hooks, names: &Vec<String>) -> (r: Vec<String>)
    ensures
        texts(r@) == dead_patterns(*hooks, texts(names@)),
{
    let mut out: Vec<String> = Vec::new();
    add_unmatched(&mut out, &hooks.tool_allowlist, names);
    assert(texts(out@) =~= unmatched(texts(hooks.tool_allowlist@), texts(names@)));
    add_unmatched(&mut out, &hooks.tool_denylist, names);
    out
}

/// What a script that runs before a call says: the call may go on, or why not. Anything but a
/// clear permission refuses it.
pub open spec fn before_verdict(succeeded: bool, output: JsonView) -> Option<Seq<char>> {
    if !succeeded {
        Some("before_tool hook failed"@)
    } else {
        match output.field_bool("allow"@) {
            Some(true) => None,
            Some(false) => Some(match output.field_text("reason"@) {
                Some(reason) => reason,
                None => "refused by before_tool hook"@,
            }),
            None => Some("before_tool hook did not answer with an allow"@),
        }
    }
}

/// A call is made only where the script that runs before it succeeded and said that it may be:
/// anything else blocks it.
pub proof fn law_only_an_allow_allows(succeeded: bool, output: JsonView)
    ensures
        before_verdict(succeeded, output) is None <==> succeeded && output.field_bool("allow"@)
            == Some(true),
{
}

/// What a script that runs before a call says, from the value it printed, where it printed
/// one.
pub fn before_hook_verdict(succeeded: bool, output: Option<&Json>) -> (r: Option<String>)
    ensures
        text::opt_text(r) == match output {
            Some(v) => before_verdict(succeeded, v@),
            None => before_verdict(succeeded, JsonView::Null),
        },
{
    if !succeeded {
        return Some("before_tool hook failed".to_owned());
    }
    let v = match output {
        Some(v) => v,
        None => return Some("before_tool hook did not answer with an allow".to_owned()),
    };
    match v.get_bool("allow") {
        Some(true) => None,
        Some(false) => match v.get_str("reason") {
            Some(reason) => Some(reason.to_owned()),
            None => Some("refused by before_tool hook".to_owned()),
        },
        None => Some("before_tool hook did not answer with an allow".to_owned()),
    }
}

/// What a script that runs before a call says, from what it printed was read as.
pub open spec fn printed_refusal(
    succeeded: bool,
    parsed: Result<JsonView, (Seq<char>, bool)>,
) -> Option<Seq<char>> {
    match parsed {
        Ok(v) => before_verdict(succeeded, v),
        Err(_) => before_verdict(succeeded, JsonView::Null),
    }
}

/// What a script that runs after a call adds, from what it printed was read as.
pub open spec fn printed_notice(
    succeeded: bool,
    parsed: Result<JsonView, (Seq<char>, bool)>,
) -> Option<Seq<char>> {
    match parsed {
        Ok(v) => if succeeded {
            v.field_text("notice"@)
        } else {
            None
        },
        Err(_) => None,
    }
}

/// What a script that runs before a call says, from what it printed. One that printed no JSON
/// has not allowed the call.
pub fn before_hook_refusal(succeeded: bool, printed: &str) -> (r: Option<String>)
    ensures
        text::opt_text(r) == printed_refusal(succeeded, parsed_json(printed@)),
{
    match json::parse(printed) {
        Ok(v) => before_hook_verdict(succeeded, Some(&v)),
        Err(_) => before_hook_verdict(succeeded, None),
    }
}

/// What a script that runs after a call adds to its result, from the value it printed.
/// Anything but a notice adds nothing.
pub fn after_hook_addition(succeeded: bool, output: &Json) -> (r: Option<String>)
    ensures
        text::opt_text(r) == if succeeded {
            output@.field_text("notice"@)
        } else {
            None
        },
{
    if !succeeded {
        return None;
    }
    match output.get_str("notice") {
        Some(notice) => Some(notice.to_owned()),
        None => None,
    }
}

/// What a script that runs after a call adds to its result, from what it printed.
pub fn after_hook_notice(succeeded: bool, printed: &str) -> (r: Option<String>)
    ensures
        text::opt_text(r) == printed_notice(succeeded, parsed_json(printed@)),
{
    match json::parse(printed) {
        Ok(v) => after_hook_addition(succeeded, &v),
        Err(_) => None,
    }
}

// ── What access control promises ──────────────────────────────────────────────

/// A pattern matches the name that it is, and one that ends in a star every name that begins
/// with what stands before the star; and it matches nothing else.
pub proof fn law_a_pattern_is_a_name_or_a_beginning(pattern: Seq<char>, name: Seq<char>)
    ensures
        pattern.len() == 0 || pattern.last() != '*' ==> (pattern_matches(pattern, name) <==> name
            == pattern),
        pattern_matches(pattern.push('*'), name) <==> name.len() >= pattern.len() && name.take(
            pattern.len() as int,
        ) == pattern,
{
    assert(pattern.push('*').drop_last() =~= pattern);
    text::law_a_beginning_is_the_first_characters(name, pattern);
}

/// A call is allowed exactly where no pattern of the denylist matches it and, where there is an
/// allowlist, one of its patterns does.
pub proof fn law_a_call_is_allowed_exactly_where_the_lists_say_so(hooks: Hooks, name: Seq<char>)
    ensures
        denial(hooks, name) is None <==> {
            &&& forall|i: int|
                0 <= i < hooks.tool_denylist@.len() ==> !pattern_matches(
                    (#[trigger] hooks.tool_denylist@[i])@,
                    name,
                )
            &&& hooks.tool_allowlist@.len() == 0 || exists|i: int|
                0 <= i < hooks.tool_allowlist@.len() && pattern_matches(
                    (#[trigger] hooks.tool_allowlist@[i])@,
                    name,
                )
        },
{
    let deny = texts(hooks.tool_denylist@);
    let allow = texts(hooks.tool_allowlist@);
    if any_matches(deny, name) {
        let i = choose|i: int| 0 <= i < deny.len() && pattern_matches(#[trigger] deny[i], name);
        assert(pattern_matches(hooks.tool_denylist@[i]@, name));
    } else {
        assert forall|i: int| 0 <= i < hooks.tool_denylist@.len() implies !pattern_matches(
            (#[trigger] hooks.tool_denylist@[i])@,
            name,
        ) by {
            assert(deny[i] == hooks.tool_denylist@[i]@);
        }
    }
    if any_matches(allow, name) {
        let i = choose|i: int| 0 <= i < allow.len() && pattern_matches(#[trigger] allow[i], name);
        assert(pattern_matches(hooks.tool_allowlist@[i]@, name));
    } else {
        assert forall|i: int| 0 <= i < hooks.tool_allowlist@.len() implies !pattern_matches(
            (#[trigger] hooks.tool_allowlist@[i])@,
            name,
        ) by {
            assert(allow[i] == hooks.tool_allowlist@[i]@);
        }
    }
}

proof fn lemma_unmatched(patterns: Seq<Seq<char>>, names: Seq<Seq<char>>, p: Seq<char>)
    ensures
        unmatched(patterns, names).contains(p) <==> patterns.contains(p) && matches_nothing(
            p,
            names,
        ),
        unmatched(patterns, names).len() <= patterns.len(),
    decreases patterns.len(),
{
    if patterns.len() > 0 {
        let most = patterns.drop_last();
        let last = patterns.last();
        let before = unmatched(most, names);
        lemma_unmatched(most, names, p);
        assert(patterns.contains(p) <==> most.contains(p) || p == last) by {
            if patterns.contains(p) {
                let i = choose|i: int| 0 <= i < patterns.len() && patterns[i] == p;
                if i < most.len() {
                    assert(most[i] == p);
                }
            }
            if most.contains(p) {
                let i = choose|i: int| 0 <= i < most.len() && most[i] == p;
                assert(patterns[i] == p);
            }
            assert(patterns[most.len() as int] == last);
        }
        let after = unmatched(patterns, names);
        if matches_nothing(last, names) {
            assert(after.contains(p) <==> before.contains(p) || p == last) by {
                if after.contains(p) {
                    let i = choose|i: int| 0 <= i < after.len() && after[i] == p;
                    if i < before.len() {
                        assert(before[i] == p);
                    }
                }
                if before.contains(p) {
                    let i = choose|i: int| 0 <= i < before.len() && before[i] == p;
                    assert(after[i] == p);
                }
                assert(after[before.len() as int] == last);
            }
        }
    }
}

/// A pattern guards nothing exactly where one of the lists has it and it matches none of the
/// server's tools.
pub proof fn law_a_dead_pattern_matches_no_tool(
    hooks: Hooks,
    names: Seq<Seq<char>>,
    p: Seq<char>,
)
    ensures
        dead_patterns(hooks, names).contains(p) <==> (texts(hooks.tool_allowlist@).contains(p)
            || texts(hooks.tool_denylist@).contains(p)) && forall|i: int|
            0 <= i < names.len() ==> !pattern_matches(p, #[trigger] names[i]),
{
    let a = unmatched(texts(hooks.tool_allowlist@), names);
    let b = unmatched(texts(hooks.tool_denylist@), names);
    lemma_unmatched(texts(hooks.tool_allowlist@), names, p);
    lemma_unmatched(texts(hooks.tool_denylist@), names, p);
    let all = dead_patterns(hooks, names);
    if all.contains(p) {
        let i = choose|i: int| 0 <= i < all.len() && all[i] == p;
        if i < a.len() {
            assert(a[i] == p);
        } else {
            assert(b[i - a.len()] == p);
        }
    }
    if a.contains(p) {
        let i = choose|i: int| 0 <= i < a.len() && a[i] == p;
        assert(all[i] == p);
    }
    if b.contains(p) {
        let i = choose|i: int| 0 <= i < b.len() && b[i] == p;
        assert(all[a.len() + i] == p);
    }
}

/// A script blocks a call by failing, by printing what is no JSON, and by anything but a clear
/// permission; where it refuses and says why, that is what is said. After a call it adds its
/// notice, and only where it succeeded.
pub proof fn law_a_script_is_taken_at_its_word(
    succeeded: bool,
    parsed: Result<JsonView, (Seq<char>, bool)>,
)
    ensures
        printed_refusal(succeeded, parsed) is None <==> succeeded && parsed is Ok
            && parsed->Ok_0.field("allow"@) == Some(JsonView::Bool(true)),
        succeeded && parsed is Ok && parsed->Ok_0.field("allow"@) == Some(JsonView::Bool(false))
            && parsed->Ok_0.field_text("reason"@) is Some ==> printed_refusal(succeeded, parsed)
            == parsed->Ok_0.field_text("reason"@),
        succeeded && parsed is Ok ==> printed_notice(succeeded, parsed) == parsed->Ok_0.field_text(
            "notice"@,
        ),
        !succeeded || parsed is Err ==> printed_notice(succeeded, parsed) is None,
{
}

/// A server is warned of exactly where it sets both lists.
pub proof fn law_both_lists_are_two_that_are_set(hooks: Hooks)
    ensures
        sets_both(hooks) <==> hooks.tool_allowlist@.len() > 0 && hooks.tool_denylist@.len() > 0,
{
}

/// What is said of a server with both lists names the server and which of the lists comes first.
pub proof fn law_the_warning_names_the_server(server: Seq<char>)
    ensures
        text::contains(both_lists_warning(server), server),
        text::contains(both_lists_warning(server), "The denylist is checked first"@),
{
    let a = "Server '"@;
    let b = "' sets both tool_allowlist and tool_denylist. The denylist is checked first, so a tool matching both is blocked."@;
    let c = "' sets both tool_allowlist and tool_denylist. "@;
    let d = "The denylist is checked first"@;
    let e = ", so a tool matching both is blocked."@;
    text::law_what_occurs_is_a_part(a, server, b);
    reveal_strlit(
        "' sets both tool_allowlist and tool_denylist. The denylist is checked first, so a tool matching both is blocked.",
    );
    reveal_strlit("' sets both tool_allowlist and tool_denylist. ");
    reveal_strlit("The denylist is checked first");
    reveal_strlit(", so a tool matching both is blocked.");
    assert(b =~= c + d + e);
    assert(both_lists_warning(server) =~= (a + server + c) + d + e);
    text::law_what_occurs_is_a_part(a + server + c, d, e);
}

} // verus!
