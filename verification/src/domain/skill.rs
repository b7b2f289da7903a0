//! Skills: instructions a project has written for a kind of work, loaded when it comes up.
use crate::text;
use crate::text::{lex_le, lemma_lex_total, lemma_lex_trans};
use vstd::prelude::*;

verus! {

/// The name of the built-in tool that loads a skill.
pub const LOAD_SKILL_TOOL: &'static str = "atoma_builtin__load_skill";

/// The name of that tool's one argument.
pub const LOAD_SKILL_ARGUMENT: &'static str = "skill_name";

/// Whether a name is shaped like a skill's path: two parts with one slash between.
pub open spec fn is_skill_path(name: Seq<char>) -> bool {
    exists|i: int|
        0 < i < name.len() - 1 && #[trigger] name[i] == '/' && forall|j: int|
            0 <= j < name.len() && j != i ==> #[trigger] name[j] != '/'
}

/// What to say when a tool call names a skill: which call works, and that nothing has run.
pub open spec fn skill_hint(name: Seq<char>) -> Seq<char> {
    "'"@ + name + "' is a skill, not a tool. A skill is loaded, not called: use "@
        + LOAD_SKILL_TOOL@ + " with {\""@ + LOAD_SKILL_ARGUMENT@ + "\": \""@ + name
        + "\"}, then follow what it returns. Nothing has run yet."@
}

/// What to say when a tool call names a skill instead of a tool.
///
/// Only for a name shaped like a skill path: anything else is a tool name that is simply
/// wrong.
pub fn skill_called_as_tool_message(name: &str) -> (r: Option<String>)
    ensures
        match r {
            Some(text) => is_skill_path(name@) && text@ == skill_hint(name@),
            None => !is_skill_path(name@),
        },
{
    let chars = text::chars_of(name);
    let mut slash: Option<usize> = None;
    for i in 0..chars.len()
        invariant
            chars@ == name@,
            match slash {
                Some(s) => s < i && chars@[s as int] == '/' && forall|j: int|
                    0 <= j < i && j != s ==> #[trigger] chars@[j] != '/',
                None => forall|j: int| 0 <= j < i ==> #[trigger] chars@[j] != '/',
            },
    {
        if chars[i] == '/' {
            if slash.is_some() {
                assert(!is_skill_path(name@)) by {
                    let s = slash->0 as int;
                    assert(name@[s] == '/' && name@[i as int] == '/' && s != i);
                }
                return None;
            }
            slash = Some(i);
        }
    }
    match slash {
        None => None,
        Some(s) => {
            if s == 0 || s == chars.len() - 1 {
                return None;
            }
            assert(name@[s as int] == '/');
            let mut out = "'".to_owned();
            out.append(name);
            out.append("' is a skill, not a tool. A skill is loaded, not called: use ");
            out.append(LOAD_SKILL_TOOL);
            out.append(" with {\"");
            out.append(LOAD_SKILL_ARGUMENT);
            out.append("\": \"");
            out.append(name);
            out.append("\"}, then follow what it returns. Nothing has run yet.");
            Some(out)
        },
    }
}

/// Metadata exposed in the system prompt before a skill is loaded.
#[derive(Debug, PartialEq, Eq)]
pub struct SkillMetadata {
    pub name: String,
    pub description: String,
}

/// What a skill's metadata says.
pub struct MetadataView {
    pub name: Seq<char>,
    pub description: Seq<char>,
}

impl View for SkillMetadata {
    type V = MetadataView;

    open spec fn view(&self) -> MetadataView {
        MetadataView { name: self.name@, description: self.description@ }
    }
}

impl Clone for SkillMetadata {
    fn clone(&self) -> (r: SkillMetadata)
        ensures
            r == *self,
    {
        SkillMetadata { name: self.name.clone(), description: self.description.clone() }
    }
}

/// A validated skill available to a run.
#[derive(Debug, PartialEq, Eq)]
pub struct Skill {
    pub metadata: SkillMetadata,
    pub instructions: String,
}

/// The name of a skill.
pub open spec fn skill_name(s: Skill) -> Seq<char> {
    s.metadata.name@
}

/// The names of skills, in order.
pub open spec fn skill_names(skills: Seq<Skill>) -> Seq<Seq<char>> {
    skills.map_values(|s: Skill| skill_name(s))
}

/// Whether skills are in the order of their names, each name once.
pub open spec fn is_catalog(skills: Seq<Skill>) -> bool {
    forall|i: int, j: int|
        0 <= i < j < skills.len() ==> lex_le(
            skill_name(#[trigger] skills[i]),
            skill_name(#[trigger] skills[j]),
        ) && skill_name(skills[i]) != skill_name(skills[j])
}

/// The first name that some skill before it has already.
pub open spec fn first_duplicate(names: Seq<Seq<char>>) -> Option<Seq<char>>
    decreases names.len(),
{
    if names.len() == 0 {
        None
    } else {
        match first_duplicate(names.drop_last()) {
            Some(name) => Some(name),
            None => if names.drop_last().contains(names.last()) {
                Some(names.last())
            } else {
                None
            },
        }
    }
}

/// Immutable, name-indexed set of skills validated at the start of a run.
#[derive(Debug)]
pub struct SkillCatalog {
    pub skills: Vec<Skill>,
}

impl Default for SkillCatalog {
    fn default() -> (r: SkillCatalog)
        ensures
            r.wf(),
            r.skills@.len() == 0,
    {
        SkillCatalog { skills: Vec::new() }
    }
}

impl SkillCatalog {
    /// Whether the skills are in the order of their names, each name once.
    pub open spec fn wf(&self) -> bool {
        is_catalog(self.skills@)
    }

    /// The catalog of these skills, or which name two of them claim.
    pub fn new(skills: Vec<Skill>) -> (r: Result<SkillCatalog, String>)
        ensures
            match r {
                Ok(c) => c.wf() && first_duplicate(skill_names(skills@)) is None
                    && c.skills@.to_multiset() == skills@.to_multiset(),
                Err(e) => first_duplicate(skill_names(skills@)) is Some && e@
                    == "Duplicate skill name '"@ + first_duplicate(skill_names(skills@))->0 + "'"@,
            },
    {
        let ghost all = skills@;
        let ghost names = skill_names(all);
        let mut out: Vec<Skill> = Vec::new();
        proof {
            broadcast use vstd::seq_lib::group_to_multiset_ensures;

            assert(out@ =~= all.take(0));
        }
        for skill in it: skills.into_iter()
            invariant
                it.seq() == all,
                names == skill_names(all),
                is_catalog(out@),
                out@.to_multiset() == all.take(it.index() as int).to_multiset(),
                first_duplicate(names.take(it.index() as int)) is None,
        {
            let ghost k = it.index() as int;
            let ghost before = out@;
            proof {
                assert(names.take(k + 1).drop_last() =~= names.take(k));
                assert(names.take(k + 1).last() == skill_name(all[k]));
                lemma_same_names(out@, all.take(k));
                assert(skill_names(all.take(k)) =~= names.take(k));
            }
            let mut i: usize = out.len();
            while i > 0 && !text::ordered(
                out[i - 1].metadata.name.as_str(),
                skill.metadata.name.as_str(),
            )
                invariant
                    i <= out@.len(),
                    out@ == before,
                    forall|j: int|
                        i <= j < out@.len() ==> !lex_le(
                            skill_name(#[trigger] out@[j]),
                            skill_name(skill),
                        ),
                decreases i,
            {
                i -= 1;
            }
            if i > 0 && text::same(
                out[i - 1].metadata.name.as_str(),
                skill.metadata.name.as_str(),
            ) {
                proof {
                    assert(skill_names(before)[i - 1] == skill_name(skill));
                    assert(skill_names(before).contains(skill_name(skill)));
                    lemma_first_duplicate_stays(names, k + 1);
                }
                let mut e = "Duplicate skill name '".to_owned();
                e.append(skill.metadata.name.as_str());
                e.append("'");
                return Err(e);
            }
            proof {
                lemma_name_is_new(before, skill, i as int);
                lemma_insert_keeps_catalog(before, skill, i as int);
                assert(all.take(k + 1) =~= all.take(k).push(all[k]));
                broadcast use vstd::seq_lib::group_to_multiset_ensures;

                assert(before.insert(i as int, skill).to_multiset() =~= before.to_multiset().insert(skill));
            }
            out.insert(i, skill);
        }
        proof {
            assert(all.take(all.len() as int) =~= all);
            assert(names.take(names.len() as int) =~= names);
        }
        Ok(SkillCatalog { skills: out })
    }

    /// What the catalog exposes of its skills, in the order of their names.
    pub fn metadata(&self) -> (r: Vec<SkillMetadata>)
        ensures
            r@ == self.skills@.map_values(|s: Skill| s.metadata),
    {
        let mut out: Vec<SkillMetadata> = Vec::new();
        for i in 0..self.skills.len()
            invariant
                out@.len() == i,
                forall|j: int| 0 <= j < i ==> #[trigger] out@[j] == self.skills@[j].metadata,
        {
            out.push(self.skills[i].metadata.clone());
        }
        assert(out@ =~= self.skills@.map_values(|s: Skill| s.metadata));
        out
    }

    /// The skill of that name.
    pub fn get(&self, name: &str) -> (r: Option<&Skill>)
        ensures
            match r {
                Some(s) => self.skills@.contains(*s) && skill_name(*s) == name@,
                None => !skill_names(self.skills@).contains(name@),
            },
    {
        for i in 0..self.skills.len()
            invariant
                forall|j: int| 0 <= j < i ==> skill_name(#[trigger] self.skills@[j]) != name@,
        {
            if text::same(self.skills[i].metadata.name.as_str(), name) {
                return Some(&self.skills[i]);
            }
        }
        None
    }
}

proof fn lemma_same_names(a: Seq<Skill>, b: Seq<Skill>)
    requires
        a.to_multiset() == b.to_multiset(),
    ensures
        forall|n: Seq<char>| #[trigger] skill_names(a).contains(n) <==> skill_names(b).contains(n),
{
    broadcast use vstd::seq_lib::group_to_multiset_ensures;

    assert forall|n: Seq<char>| #[trigger]
        skill_names(a).contains(n) <==> skill_names(b).contains(n) by {
        if skill_names(a).contains(n) {
            let k = choose|k: int| 0 <= k < a.len() && skill_names(a)[k] == n;
            assert(a.to_multiset().count(a[k]) > 0);
            assert(b.contains(a[k]));
            let m = choose|m: int| 0 <= m < b.len() && b[m] == a[k];
            assert(skill_names(b)[m] == n);
        }
        if skill_names(b).contains(n) {
            let k = choose|k: int| 0 <= k < b.len() && skill_names(b)[k] == n;
            assert(b.to_multiset().count(b[k]) > 0);
            assert(a.contains(b[k]));
            let m = choose|m: int| 0 <= m < a.len() && a[m] == b[k];
            assert(skill_names(a)[m] == n);
        }
    }
}

proof fn lemma_first_duplicate_stays(names: Seq<Seq<char>>, k: int)
    requires
        0 <= k <= names.len(),
        first_duplicate(names.take(k)) is Some,
    ensures
        first_duplicate(names) == first_duplicate(names.take(k)),
    decreases names.len() - k,
{
    if k < names.len() {
        assert(names.take(k + 1).drop_last() =~= names.take(k));
        lemma_first_duplicate_stays(names, k + 1);
    } else {
        assert(names.take(k) =~= names);
    }
}

proof fn lemma_name_is_new(s: Seq<Skill>, x: Skill, i: int)
    requires
        is_catalog(s),
        0 <= i <= s.len(),
        i > 0 ==> lex_le(skill_name(s[i - 1]), skill_name(x)) && skill_name(s[i - 1]) != skill_name(
            x,
        ),
        forall|j: int| i <= j < s.len() ==> !lex_le(skill_name(#[trigger] s[j]), skill_name(x)),
    ensures
        !skill_names(s).contains(skill_name(x)),
{
    if skill_names(s).contains(skill_name(x)) {
        let k = choose|k: int| 0 <= k < s.len() && skill_names(s)[k] == skill_name(x);
        assert(skill_name(s[k]) == skill_name(x));
        lemma_lex_total(skill_name(x), skill_name(x));
        if k < i - 1 {
            assert(lex_le(skill_name(s[k]), skill_name(s[i - 1])));
            lemma_lex_total(skill_name(s[i - 1]), skill_name(x));
        }
    }
}

proof fn lemma_insert_keeps_catalog(s: Seq<Skill>, x: Skill, i: int)
    requires
        is_catalog(s),
        0 <= i <= s.len(),
        i > 0 ==> lex_le(skill_name(s[i - 1]), skill_name(x)) && skill_name(s[i - 1]) != skill_name(
            x,
        ),
        forall|j: int| i <= j < s.len() ==> !lex_le(skill_name(#[trigger] s[j]), skill_name(x)),
    ensures
        is_catalog(s.insert(i, x)),
{
    let r = s.insert(i, x);
    assert forall|a: int, b: int| 0 <= a < b < r.len() implies lex_le(
        skill_name(#[trigger] r[a]),
        skill_name(#[trigger] r[b]),
    ) && skill_name(r[a]) != skill_name(r[b]) by {
        let xa = if a < i {
            s[a]
        } else if a == i {
            x
        } else {
            s[a - 1]
        };
        let xb = if b < i {
            s[b]
        } else if b == i {
            x
        } else {
            s[b - 1]
        };
        assert(r[a] == xa && r[b] == xb);
        if b == i {
            if a < i - 1 {
                lemma_lex_trans(skill_name(s[a]), skill_name(s[i - 1]), skill_name(x));
                if skill_name(s[a]) == skill_name(x) {
                    lemma_lex_total(skill_name(s[i - 1]), skill_name(x));
                }
            }
        } else if a == i {
            lemma_lex_total(skill_name(x), skill_name(s[b - 1]));
            lemma_lex_total(skill_name(x), skill_name(x));
        } else if a < i && b > i {
            assert(a < b - 1);
        }
    }
}

proof fn lemma_no_duplicates(names: Seq<Seq<char>>)
    ensures
        first_duplicate(names) is None <==> names.no_duplicates(),
    decreases names.len(),
{
    if names.len() > 0 {
        let t = names.drop_last();
        lemma_no_duplicates(t);
        if names.no_duplicates() {
            assert(t.no_duplicates()) by {
                assert forall|i: int, j: int| 0 <= i < t.len() && 0 <= j < t.len() && i != j implies t[i] != t[j] by {
                    assert(names[i] != names[j]);
                }
            }
            if t.contains(names.last()) {
                let k = choose|k: int| 0 <= k < t.len() && t[k] == names.last();
                assert(names[k] == names[names.len() - 1]);
            }
        }
        if first_duplicate(names) is None {
            assert forall|i: int, j: int|
                0 <= i < names.len() && 0 <= j < names.len() && i != j implies names[i]
                != names[j] by {
                if i < t.len() && j < t.len() {
                    assert(t[i] != t[j]);
                } else if i < t.len() {
                    assert(t.contains(t[i]));
                } else {
                    assert(t.contains(t[j]));
                }
            }
        }
    }
}

/// A catalog can be made of skills exactly when no two of them claim a name.
pub proof fn law_a_catalog_exists_exactly_when_names_are_distinct(skills: Seq<Skill>)
    ensures
        first_duplicate(skill_names(skills)) is None <==> skill_names(skills).no_duplicates(),
{
    lemma_no_duplicates(skill_names(skills));
}

/// Asking a catalog for a skill it was made of finds that skill and no other.
pub proof fn law_a_catalog_finds_what_it_holds(catalog: Seq<Skill>, one: Skill, other: Skill)
    requires
        is_catalog(catalog),
        catalog.contains(one),
        catalog.contains(other),
        skill_name(one) == skill_name(other),
    ensures
        one == other,
{
    let i = choose|i: int| 0 <= i < catalog.len() && catalog[i] == one;
    let j = choose|j: int| 0 <= j < catalog.len() && catalog[j] == other;
    if i < j {
        assert(skill_name(catalog[i]) != skill_name(catalog[j]));
    } else if j < i {
        assert(skill_name(catalog[j]) != skill_name(catalog[i]));
    }
}

/// A name is shaped like a skill's exactly where one slash parts it into two names.
pub proof fn law_a_skill_path_is_two_names_and_a_slash(first: Seq<char>, second: Seq<char>)
    requires
        forall|i: int| 0 <= i < first.len() ==> #[trigger] first[i] != '/',
        forall|i: int| 0 <= i < second.len() ==> #[trigger] second[i] != '/',
    ensures
        !is_skill_path(first),
        is_skill_path(first + seq!['/'] + second) <==> first.len() > 0 && second.len() > 0,
        text::contains(skill_hint(first), first),
        text::contains(skill_hint(first), LOAD_SKILL_TOOL@),
{
    let all = first + seq!['/'] + second;
    let at = first.len() as int;
    assert(all[at] == '/');
    assert forall|j: int| 0 <= j < all.len() && j != at implies #[trigger] all[j] != '/' by {
        if j < at {
            assert(all[j] == first[j]);
        } else {
            assert(all[j] == second[j - at - 1]);
        }
    }
    if first.len() > 0 && second.len() > 0 {
        assert(0 < at < all.len() - 1 && all[at] == '/');
    }
    let a = "'"@;
    let b = "' is a skill, not a tool. A skill is loaded, not called: use "@;
    let c = " with {\""@ + LOAD_SKILL_ARGUMENT@ + "\": \""@ + first
        + "\"}, then follow what it returns. Nothing has run yet."@;
    assert(skill_hint(first) =~= a + first + (b + LOAD_SKILL_TOOL@ + c));
    text::law_what_occurs_is_a_part(a, first, b + LOAD_SKILL_TOOL@ + c);
    assert(skill_hint(first) =~= (a + first + b) + LOAD_SKILL_TOOL@ + c);
    text::law_what_occurs_is_a_part(a + first + b, LOAD_SKILL_TOOL@, c);
}

} // verus!
