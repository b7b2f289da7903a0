//! Definitions written as Markdown with a YAML head: agents and skills.
use crate::domain::skill::{Skill, SkillMetadata};
use crate::text;
use crate::text::{join, lines_from, texts, trim, trim_end};
use vstd::prelude::*;

verus! {

/// The line that opens and closes a head.
pub const FENCE: &'static str = "---";

/// The first line from `from` on that is a fence.
pub open spec fn next_fence(lines: Seq<Seq<char>>, from: int) -> Option<int>
    decreases lines.len() - from,
{
    if from >= lines.len() {
        None
    } else if trim_end(lines[from]) == FENCE@ {
        Some(from)
    } else {
        next_fence(lines, from + 1)
    }
}

/// The head and the body of a definition, where its first line opens a head that is closed.
pub open spec fn head_and_body(content: Seq<char>) -> Option<(Seq<char>, Seq<char>)> {
    let lines = lines_from(content, 0);
    if lines.len() == 0 || trim_end(lines[0]) != FENCE@ {
        None
    } else {
        match next_fence(lines, 1) {
            Some(k) => Some(
                (
                    join(lines.subrange(1, k), "\n"@),
                    trim(join(lines.subrange(k + 1, lines.len() as int), "\n"@)),
                ),
            ),
            None => None,
        }
    }
}

fn part(lines: &Vec<String>, from: usize, to: usize) -> (r: String)
    requires
        from <= to <= lines@.len(),
    ensures
        r@ == join(texts(lines@).subrange(from as int, to as int), "\n"@),
{
    let ghost all = texts(lines@);
    let mut out: Vec<String> = Vec::new();
    assert(texts(out@) =~= all.subrange(from as int, from as int));
    let mut i: usize = from;
    while i < to
        invariant
            from <= i <= to <= lines@.len(),
            all == texts(lines@),
            texts(out@) == all.subrange(from as int, i as int),
        decreases to - i,
    {
        let ghost before = texts(out@);
        out.push(lines[i].clone());
        assert(texts(out@) =~= before.push(all[i as int]));
        assert(texts(out@) =~= all.subrange(from as int, i + 1));
        i += 1;
    }
    text::joined(&out, "\n")
}

/// Splits a definition into its head and its body, without the whitespace around the body.
pub fn split(content: &str) -> (r: Option<(String, String)>)
    ensures
        match r {
            Some((head, body)) => head_and_body(content@) == Some((head@, body@)),
            None => head_and_body(content@) is None,
        },
{
    let lines = text::lines(content);
    let ghost all = texts(lines@);
    assert(all.len() == lines@.len());
    if lines.len() == 0 {
        return None;
    }
    assert(all[0] == lines@[0]@);
    if !text::same(text::trimmed_end(lines[0].as_str()).as_str(), FENCE) {
        return None;
    }
    let mut k: usize = 1;
    while k < lines.len()
        invariant
            1 <= k <= lines@.len(),
            all == texts(lines@),
            all == lines_from(content@, 0),
            trim_end(all[0]) == FENCE@,
            next_fence(all, 1) == next_fence(all, k as int),
        decreases lines@.len() - k,
    {
        assert(all[k as int] == lines@[k as int]@);
        if text::same(text::trimmed_end(lines[k].as_str()).as_str(), FENCE) {
            let head = part(&lines, 1, k);
            let body = part(&lines, k + 1, lines.len());
            return Some((head, text::trimmed(body.as_str())));
        }
        k += 1;
    }
    None
}

/// What to say of a definition without a head. `path` is its file, as it is shown to a person.
pub fn no_head_message(path: &str) -> (r: String)
    ensures
        r@ == "Missing YAML frontmatter in "@ + path@,
{
    let mut e = "Missing YAML frontmatter in ".to_owned();
    e.append(path);
    e
}

/// The body of an agent definition, where there is one.
pub fn body_of_agent(body: String) -> (r: Option<String>)
    ensures
        text::opt_text(r) == if body@.len() == 0 {
            None
        } else {
            Some(body@)
        },
{
    if text::empty(body.as_str()) {
        None
    } else {
        Some(body)
    }
}

/// What is wrong with a skill, where something is: it says nothing of itself or has nothing to
/// say.
pub open spec fn skill_problem(
    name: Seq<char>,
    description: Seq<char>,
    body: Seq<char>,
) -> Option<Seq<char>> {
    if trim(name).len() == 0 {
        Some("Skill name must not be empty: "@)
    } else if trim(description).len() == 0 {
        Some("Skill description must not be empty: "@)
    } else if trim(body).len() == 0 {
        Some("Skill instructions must not be empty: "@)
    } else {
        None
    }
}

/// The skill a definition makes, or what is wrong with it. `path` is its file, as it is shown
/// to a person.
pub fn skill_of(name: String, description: String, body: String, path: &str) -> (r: Result<
    Skill,
    String,
>)
    ensures
        match r {
            Ok(s) => skill_problem(name@, description@, body@) is None && s.metadata.name@ == trim(
                name@,
            ) && s.metadata.description@ == trim(description@) && s.instructions@ == body@,
            Err(e) => skill_problem(name@, description@, body@) is Some && e@ == skill_problem(
                name@,
                description@,
                body@,
            )->0 + path@,
        },
{
    let problem = if text::blank(name.as_str()) {
        Some("Skill name must not be empty: ")
    } else if text::blank(description.as_str()) {
        Some("Skill description must not be empty: ")
    } else if text::blank(body.as_str()) {
        Some("Skill instructions must not be empty: ")
    } else {
        None
    };
    match problem {
        Some(p) => {
            let mut e = p.to_owned();
            e.append(path);
            Err(e)
        },
        None => Ok(
            Skill {
                metadata: SkillMetadata {
                    name: text::trimmed(name.as_str()),
                    description: text::trimmed(description.as_str()),
                },
                instructions: body,
            },
        ),
    }
}

// ── What splitting promises ───────────────────────────────────────────────────

proof fn lemma_next_fence(lines: Seq<Seq<char>>, from: int)
    requires
        0 <= from,
    ensures
        match next_fence(lines, from) {
            Some(k) => from <= k < lines.len() && trim_end(lines[k]) == FENCE@ && forall|j: int|
                from <= j < k ==> trim_end(#[trigger] lines[j]) != FENCE@,
            None => forall|j: int|
                from <= j < lines.len() ==> trim_end(#[trigger] lines[j]) != FENCE@,
        },
    decreases lines.len() - from,
{
    if from < lines.len() && trim_end(lines[from]) != FENCE@ {
        lemma_next_fence(lines, from + 1);
    }
}

/// A definition has a head exactly where its first line opens one and a later line closes it.
/// The head is every line between the first two fences, and the body every line behind them.
pub proof fn law_a_head_stands_between_two_fences(content: Seq<char>, k: int)
    ensures
        ({
            let lines = lines_from(content, 0);
            &&& head_and_body(content) is Some <==> lines.len() > 0 && trim_end(lines[0])
                == "---"@ && exists|j: int|
                1 <= j < lines.len() && trim_end(#[trigger] lines[j]) == "---"@
            &&& lines.len() > 0 && trim_end(lines[0]) == "---"@ && 1 <= k < lines.len()
                && trim_end(lines[k]) == "---"@ && (forall|j: int|
                1 <= j < k ==> trim_end(#[trigger] lines[j]) != "---"@) ==> head_and_body(content) == Some(
                (join(lines.take(k).skip(1), "\n"@), trim(join(lines.skip(k + 1), "\n"@))),
            )
        }),
{
    let lines = lines_from(content, 0);
    lemma_next_fence(lines, 1);
    if 1 <= k < lines.len() {
        assert(lines.take(k).skip(1) =~= lines.subrange(1, k));
        assert(lines.skip(k + 1) =~= lines.subrange(k + 1, lines.len() as int));
    }
}

/// A skill is one exactly where it has a name, a description and instructions.
pub proof fn law_a_skill_says_something_of_everything(
    name: Seq<char>,
    description: Seq<char>,
    body: Seq<char>,
)
    ensures
        skill_problem(name, description, body) is None <==> trim(name).len() > 0 && trim(
            description,
        ).len() > 0 && trim(body).len() > 0,
{
}

} // verus!
