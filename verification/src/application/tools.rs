//! The tools a run offers: its servers' and the one that is built in.
use crate::application::runner::offered_name;
use crate::dict::Dict;
use crate::domain::ports::ToolCallResult;
use crate::domain::skill::{
    skill_name, skill_names, Skill, SkillCatalog, LOAD_SKILL_ARGUMENT, LOAD_SKILL_TOOL,
};
use crate::json::{array_view, Json, JsonView};
use crate::text;
use crate::text::{join, starts_with, texts};
use vstd::prelude::*;

verus! {

/// What the name of a built-in tool begins with, and that of no other.
pub const RESERVED_PREFIX: &'static str = "atoma_builtin__";

/// What the built-in tool is said to do.
pub const LOAD_SKILL_DESCRIPTION: &'static str = "Load the full instructions of one of the available skills.";

/// The definition of the built-in tool, as it is offered.
pub open spec fn load_skill_definition() -> JsonView {
    JsonView::Object(
        map![
            "type"@ => JsonView::Text("function"@),
            "function"@ => JsonView::Object(
                map![
                    "name"@ => JsonView::Text(LOAD_SKILL_TOOL@),
                    "description"@ => JsonView::Text(LOAD_SKILL_DESCRIPTION@),
                    "parameters"@ => JsonView::Object(
                        map![
                            "type"@ => JsonView::Text("object"@),
                            "properties"@ => JsonView::Object(
                                map![
                                    LOAD_SKILL_ARGUMENT@ => JsonView::Object(
                                        map!["type"@ => JsonView::Text("string"@)],
                                    ),
                                ],
                            ),
                            "required"@ => JsonView::Array(
                                seq![JsonView::Text(LOAD_SKILL_ARGUMENT@)],
                            ),
                        ],
                    ),
                ],
            ),
        ],
    )
}

fn load_skill_tool() -> (r: Json)
    ensures
        r@ == load_skill_definition(),
{
    let mut argument: Dict<Json> = Dict::new();
    argument.put("type", Json::text("string"));
    let mut properties: Dict<Json> = Dict::new();
    properties.put(LOAD_SKILL_ARGUMENT, Json::Object(argument));
    let mut required: Vec<Json> = Vec::new();
    required.push(Json::text(LOAD_SKILL_ARGUMENT));
    assert(array_view(required@) =~= seq![JsonView::Text(LOAD_SKILL_ARGUMENT@)]);
    let mut parameters: Dict<Json> = Dict::new();
    parameters.put("type", Json::text("object"));
    parameters.put("properties", Json::Object(properties));
    parameters.put("required", Json::Array(required));
    let mut function: Dict<Json> = Dict::new();
    function.put("name", Json::text(LOAD_SKILL_TOOL));
    function.put("description", Json::text(LOAD_SKILL_DESCRIPTION));
    function.put("parameters", Json::Object(parameters));
    let mut out: Dict<Json> = Dict::new();
    out.put("type", Json::text("function"));
    out.put("function", Json::Object(function));
    Json::Object(out)
}

/// The name of the first offered tool that takes a name kept for the built-in ones.
pub open spec fn first_reserved(defs: Seq<JsonView>) -> Option<Seq<char>>
    decreases defs.len(),
{
    if defs.len() == 0 {
        None
    } else if starts_with(offered_name(defs[0]), RESERVED_PREFIX@) {
        Some(offered_name(defs[0]))
    } else {
        first_reserved(defs.drop_first())
    }
}

/// The tools a run offers.
pub open spec fn offered_tools(external: Seq<JsonView>) -> Seq<JsonView> {
    seq![load_skill_definition()] + external
}

/// The tools a run offers: the built-in one, and after it those of its servers, or what to say
/// of a server's tool that takes a name kept for the built-in ones.
pub fn runtime_tools(external: Vec<Json>) -> (r: Result<Vec<Json>, String>)
    ensures
        match r {
            Ok(list) => first_reserved(array_view(external@)) is None && array_view(list@)
                == offered_tools(array_view(external@)),
            Err(e) => first_reserved(array_view(external@)) is Some && e@ == "Tool '"@
                + first_reserved(array_view(external@))->0 + "' uses the reserved prefix '"@
                + RESERVED_PREFIX@ + "'"@,
        },
{
    let ghost all = array_view(external@);
    assert(all.skip(0) =~= all);
    for i in 0..external.len()
        invariant
            all == array_view(external@),
            first_reserved(all) == first_reserved(all.skip(i as int)),
    {
        assert(all.skip(i as int)[0] == external@[i as int]@);
        assert(all.skip(i as int).drop_first() =~= all.skip(i + 1));
        let name = match external[i].get("function") {
            Some(f) => match f.get_str("name") {
                Some(n) => n,
                None => "unknown",
            },
            None => "unknown",
        };
        if text::begins(name, RESERVED_PREFIX) {
            let mut e = "Tool '".to_owned();
            e.append(name);
            e.append("' uses the reserved prefix '");
            e.append(RESERVED_PREFIX);
            e.append("'");
            return Err(e);
        }
    }
    let mut out: Vec<Json> = Vec::new();
    out.push(load_skill_tool());
    let mut rest = external;
    out.append(&mut rest);
    assert(array_view(out@) =~= seq![load_skill_definition()] + all);
    Ok(out)
}

/// Whether a call is for the built-in tool.
pub fn is_builtin(name: &str) -> (r: bool)
    ensures
        r == (name@ == LOAD_SKILL_TOOL@),
{
    text::same(name, LOAD_SKILL_TOOL)
}

/// What to say of a skill there is none of.
pub open spec fn unknown_skill(asked: Seq<char>, names: Seq<Seq<char>>) -> Seq<char> {
    if names.len() == 0 {
        "Unknown skill '"@ + asked + "'. No skills are available."@
    } else {
        "Unknown skill '"@ + asked + "'. Available skills: "@ + join(names, ", "@) + "."@
    }
}

/// What to say of a skill there is none of: which there are.
pub fn unknown_skill_message(asked: &str, catalog: &SkillCatalog) -> (r: String)
    ensures
        r@ == unknown_skill(asked@, skill_names(catalog.skills@)),
{
    let mut names: Vec<String> = Vec::new();
    for i in 0..catalog.skills.len()
        invariant
            texts(names@) == skill_names(catalog.skills@.take(i as int)),
    {
        let ghost before = texts(names@);
        names.push(catalog.skills[i].metadata.name.clone());
        assert(texts(names@) =~= before.push(skill_name(catalog.skills@[i as int])));
        assert(texts(names@) =~= skill_names(catalog.skills@.take(i + 1)));
    }
    assert(catalog.skills@.take(catalog.skills@.len() as int) =~= catalog.skills@);
    assert(texts(names@).len() == names@.len());
    let mut e = "Unknown skill '".to_owned();
    e.append(asked);
    if names.len() == 0 {
        e.append("'. No skills are available.");
    } else {
        e.append("'. Available skills: ");
        e.append(text::joined(&names, ", ").as_str());
        e.append(".");
    }
    e
}

/// What to say of a call that names no skill.
pub const SKILL_NAME_MISSING: &'static str = "atoma_builtin__load_skill needs a string 'skill_name'";

/// Answers a call of the built-in tool: the whole of a skill's instructions, as any other
/// tool's answer.
pub fn load_skill(catalog: &SkillCatalog, arguments: &Json) -> (r: Result<ToolCallResult, String>)
    ensures
        match arguments@.field_text(LOAD_SKILL_ARGUMENT@) {
            None => r is Err && r->Err_0@ == SKILL_NAME_MISSING@,
            Some(asked) => match r {
                Ok(result) => !result.session_ends && result.images@.len() == 0 && exists|s: Skill|
                    #[trigger] catalog.skills@.contains(s) && skill_name(s) == asked
                        && result.content@ == s.instructions@,
                Err(e) => !skill_names(catalog.skills@).contains(asked) && e@ == unknown_skill(
                    asked,
                    skill_names(catalog.skills@),
                ),
            },
        },
{
    match arguments.get_str(LOAD_SKILL_ARGUMENT) {
        None => Err(SKILL_NAME_MISSING.to_owned()),
        Some(asked) => match catalog.get(asked) {
            Some(skill) => {
                assert(catalog.skills@.contains(*skill));
                Ok(
                    ToolCallResult {
                        content: skill.instructions.clone(),
                        images: Vec::new(),
                        session_ends: false,
                    },
                )
            },
            None => Err(unknown_skill_message(asked, catalog)),
        },
    }
}

/// A tool of a server is never mistaken for the built-in one: where the tools are accepted,
/// the built-in tool's name is offered once, first.
pub proof fn law_the_built_in_tool_is_offered_once(external: Seq<JsonView>, i: int)
    requires
        first_reserved(external) is None,
        0 <= i < external.len(),
    ensures
        offered_name(load_skill_definition()) == LOAD_SKILL_TOOL@,
        offered_name(external[i]) != LOAD_SKILL_TOOL@,
    decreases external.len(),
{
    reveal_strlit("atoma_builtin__");
    reveal_strlit("atoma_builtin__load_skill");
    assert(starts_with(LOAD_SKILL_TOOL@, RESERVED_PREFIX@)) by {
        assert(LOAD_SKILL_TOOL@.subrange(0, 15) =~= RESERVED_PREFIX@);
    }
    reveal_strlit("name");
    reveal_strlit("description");
    reveal_strlit("parameters");
    assert("name"@.len() == 4 && "description"@.len() == 11 && "parameters"@.len() == 10);
    if i > 0 {
        assert(external.drop_first()[i - 1] == external[i]);
        law_the_built_in_tool_is_offered_once(external.drop_first(), i - 1);
    }
}

/// Every tool of a run's servers is offered, as it is and in order, behind the built-in one.
pub proof fn law_every_tool_is_offered_behind_the_built_in(external: Seq<JsonView>, i: int)
    requires
        0 <= i < external.len(),
    ensures
        offered_tools(external).len() == external.len() + 1,
        offered_name(offered_tools(external)[0]) == LOAD_SKILL_TOOL@,
        offered_tools(external)[i + 1] == external[i],
{
    reveal_strlit("name");
    reveal_strlit("description");
    reveal_strlit("parameters");
    assert("name"@.len() == 4 && "description"@.len() == 11 && "parameters"@.len() == 10);
}

/// A run's tools are refused exactly where one of them takes a name that is kept for the
/// built-in ones, and then by such a name.
pub proof fn law_only_a_reserved_name_is_refused(defs: Seq<JsonView>)
    ensures
        first_reserved(defs) is None <==> forall|i: int|
            0 <= i < defs.len() ==> !starts_with(
                offered_name(#[trigger] defs[i]),
                "atoma_builtin__"@,
            ),
        first_reserved(defs) is Some ==> starts_with(first_reserved(defs)->0, "atoma_builtin__"@),
    decreases defs.len(),
{
    if defs.len() > 0 {
        let rest = defs.drop_first();
        law_only_a_reserved_name_is_refused(rest);
        assert forall|i: int|
            !starts_with(offered_name(defs[0]), "atoma_builtin__"@) && first_reserved(rest) is None
                && 0 <= i < defs.len() implies !starts_with(
            offered_name(#[trigger] defs[i]),
            "atoma_builtin__"@,
        ) by {
            if i > 0 {
                assert(rest[i - 1] == defs[i]);
            }
        }
        assert forall|i: int| 0 <= i < rest.len() implies #[trigger] rest[i] == defs[i + 1] by {}
    }
}

/// A skill that is not there is answered with those that are, every one of them.
pub proof fn law_every_skill_there_is_is_named(asked: Seq<char>, names: Seq<Seq<char>>, i: int)
    requires
        0 <= i < names.len(),
    ensures
        text::contains(unknown_skill(asked, names), asked),
        text::contains(unknown_skill(asked, names), names[i]),
{
    let head = "Unknown skill '"@ + asked + "'. Available skills: "@;
    let rest = "'. Available skills: "@ + join(names, ", "@) + "."@;
    assert(unknown_skill(asked, names) =~= "Unknown skill '"@ + asked + rest);
    text::law_what_occurs_is_a_part("Unknown skill '"@, asked, rest);
    text::lemma_a_joined_part_occurs(head, names, ", "@, i, "."@);
    assert(unknown_skill(asked, names) =~= head + join(names, ", "@) + "."@);
}

} // verus!
