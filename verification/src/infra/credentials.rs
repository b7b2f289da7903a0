//! Where credential values come from, and the one place that decides.
//!
//! A file or the environment, never both: where a file was given it is the only source.
//! Values reach a tool server only by being named in that server's own environment.
use crate::dict::Dict;
use crate::infra::llm::{provider_credential_list, provider_credential_names};
use crate::json;
use crate::json::{parsed_json, parsed_texts, text_object, JsonView};
use crate::text;
use crate::text::{find_from, is_sorted, lex_le, sort_texts, texts, trim};
use vstd::prelude::*;

verus! {

// ── Protected names ───────────────────────────────────────────────────────────

/// Names without the whitespace around them, those that are nothing else left out.
pub open spec fn sanitised_names(names: Seq<Seq<char>>) -> Seq<Seq<char>>
    decreases names.len(),
{
    if names.len() == 0 {
        names
    } else {
        let earlier = sanitised_names(names.drop_last());
        if trim(names.last()).len() == 0 {
            earlier
        } else {
            earlier.push(trim(names.last()))
        }
    }
}

/// Drop what an environment variable name cannot be. A padded entry would protect nothing
/// while the list reads as though it covered the name.
pub fn sanitised(names: Vec<String>) -> (r: Vec<String>)
    ensures
        texts(r@) == sanitised_names(texts(names@)),
{
    let mut out: Vec<String> = Vec::new();
    assert(texts(out@) =~= sanitised_names(texts(names@).take(0)));
    for i in 0..names.len()
        invariant
            texts(out@) == sanitised_names(texts(names@).take(i as int)),
    {
        let ghost all = texts(names@);
        assert(all.take(i + 1).drop_last() =~= all.take(i as int));
        assert(all.take(i + 1).last() == names@[i as int]@);
        let name = text::trimmed(names[i].as_str());
        if !text::empty(name.as_str()) {
            let ghost before = texts(out@);
            let ghost n = name@;
            out.push(name);
            assert(texts(out@) =~= before.push(n));
        }
    }
    assert(texts(names@).take(names@.len() as int) =~= texts(names@));
    out
}

/// A list without the texts that repeat the one before them.
pub open spec fn dedup(s: Seq<Seq<char>>) -> Seq<Seq<char>>
    decreases s.len(),
{
    if s.len() <= 1 {
        s
    } else {
        let earlier = dedup(s.drop_last());
        if s.last() == s[s.len() - 2] {
            earlier
        } else {
            earlier.push(s.last())
        }
    }
}

/// The provider credentials and the declared names, in order, each once.
pub open spec fn union_of(declared: Seq<Seq<char>>) -> Seq<Seq<char>> {
    dedup(sort_texts(provider_credential_list() + declared))
}

fn deduped(list: &Vec<String>) -> (r: Vec<String>)
    ensures
        texts(r@) == dedup(texts(list@)),
{
    let mut out: Vec<String> = Vec::new();
    let ghost all = texts(list@);
    assert(texts(out@) =~= dedup(all.take(0)));
    for i in 0..list.len()
        invariant
            all == texts(list@),
            texts(out@) == dedup(all.take(i as int)),
    {
        assert(all.take(i + 1).drop_last() =~= all.take(i as int));
        assert(all.take(i + 1).last() == list@[i as int]@);
        let repeated = i > 0 && text::same(list[i].as_str(), list[i - 1].as_str());
        if !repeated {
            let ghost before = texts(out@);
            out.push(list[i].clone());
            assert(texts(out@) =~= before.push(list@[i as int]@));
            assert(i == 0 ==> texts(out@) =~= all.take(1));
        }
    }
    assert(all.take(all.len() as int) =~= all);
    out
}

/// The union itself, over a declared list given rather than one registered.
pub fn protected_union(declared: &Vec<String>) -> (r: Vec<String>)
    ensures
        texts(r@) == union_of(texts(declared@)),
{
    let mut names = provider_credential_names();
    let ghost own = texts(names@);
    for i in 0..declared.len()
        invariant
            texts(names@) == own + texts(declared@).take(i as int),
    {
        let ghost before = texts(names@);
        names.push(declared[i].clone());
        assert(texts(names@) =~= before.push(declared@[i as int]@));
        assert(texts(names@) =~= own + texts(declared@).take(i + 1));
    }
    assert(texts(declared@).take(declared@.len() as int) =~= texts(declared@));
    deduped(&text::sorted(&names))
}

proof fn lemma_dedup(s: Seq<Seq<char>>)
    requires
        is_sorted(s),
    ensures
        is_sorted(dedup(s)),
        dedup(s).no_duplicates(),
        s.len() > 0 ==> dedup(s).len() > 0 && dedup(s).last() == s.last(),
        forall|x: Seq<char>| #[trigger] dedup(s).contains(x) <==> s.contains(x),
    decreases s.len(),
{
    if s.len() >= 2 {
        let t = s.drop_last();
        let d = dedup(t);
        assert(forall|i: int, j: int|
            0 <= i < j < t.len() ==> lex_le(#[trigger] t[i], #[trigger] t[j])) by {
            assert forall|i: int, j: int| 0 <= i < j < t.len() implies lex_le(
                #[trigger] t[i],
                #[trigger] t[j],
            ) by {
                assert(lex_le(s[i], s[j]));
            }
        }
        lemma_dedup(t);
        let last = s.last();
        assert forall|x: Seq<char>| #[trigger] dedup(s).contains(x) <==> s.contains(x) by {
            assert(d.contains(x) <==> t.contains(x));
            if s.contains(x) {
                let k = choose|k: int| 0 <= k < s.len() && s[k] == x;
                if k < t.len() {
                    assert(t[k] == x);
                } else {
                    assert(t[t.len() - 1] == s[s.len() - 2]);
                }
                if d.contains(x) {
                    let m = choose|m: int| 0 <= m < d.len() && d[m] == x;
                    assert(dedup(s)[m] == x);
                } else {
                    assert(x == last);
                    assert(last != s[s.len() - 2]) by {
                        if last == s[s.len() - 2] {
                            assert(t[t.len() - 1] == last);
                            assert(t.contains(last));
                        }
                    }
                    assert(dedup(s)[d.len() as int] == x);
                }
            }
            if dedup(s).contains(x) {
                let m = choose|m: int| 0 <= m < dedup(s).len() && dedup(s)[m] == x;
                if m < d.len() {
                    assert(d[m] == x);
                    assert(t.contains(x));
                    let k = choose|k: int| 0 <= k < t.len() && t[k] == x;
                    assert(s[k] == x);
                } else {
                    assert(s[s.len() - 1] == x);
                }
            }
        }
        if last != s[s.len() - 2] {
            let all = d.push(last);
            assert forall|i: int| 0 <= i < d.len() implies lex_le(#[trigger] d[i], last) && d[i]
                != last by {
                assert(d.contains(d[i]));
                assert(t.contains(d[i]));
                let k = choose|k: int| 0 <= k < t.len() && t[k] == d[i];
                assert(s[k] == d[i]);
                assert(lex_le(s[k], s[s.len() - 1]));
                if d[i] == last {
                    let p = s[s.len() - 2];
                    if k < s.len() - 2 {
                        assert(lex_le(s[k], p));
                    } else {
                        text::lemma_lex_total(p, p);
                    }
                    assert(lex_le(p, last));
                    text::lemma_lex_total(p, last);
                }
            }
            assert(is_sorted(all));
            assert(all.no_duplicates());
        }
    }
}

/// The protected names are the provider credentials and the declared names, all of them and
/// nothing else, each once and in order: declaring a name never takes another away.
pub proof fn law_the_union_protects_every_name_once(declared: Seq<Seq<char>>)
    ensures
        is_sorted(union_of(declared)),
        union_of(declared).no_duplicates(),
        forall|x: Seq<char>| #[trigger]
            union_of(declared).contains(x) <==> provider_credential_list().contains(x)
                || declared.contains(x),
{
    let both = provider_credential_list() + declared;
    text::lemma_sort_texts(both);
    lemma_dedup(sort_texts(both));
    assert forall|x: Seq<char>| #[trigger]
        union_of(declared).contains(x) <==> provider_credential_list().contains(x)
            || declared.contains(x) by {
        assert(sort_texts(both).contains(x) <==> both.contains(x));
        if both.contains(x) {
            let k = choose|k: int| 0 <= k < both.len() && both[k] == x;
            if k < provider_credential_list().len() {
                assert(provider_credential_list()[k] == x);
            } else {
                assert(declared[k - provider_credential_list().len()] == x);
            }
        }
        if provider_credential_list().contains(x) {
            let k = choose|k: int|
                0 <= k < provider_credential_list().len() && provider_credential_list()[k] == x;
            assert(both[k] == x);
        }
        if declared.contains(x) {
            let k = choose|k: int| 0 <= k < declared.len() && declared[k] == x;
            assert(both[provider_credential_list().len() + k] == x);
        }
    }
}

/// The names the caller declared, where it has declared any.
#[derive(Debug)]
pub struct DeclaredNames {
    pub names: Option<Vec<String>>,
}

impl DeclaredNames {
    /// The names, none where none were declared.
    pub open spec fn declared(&self) -> Seq<Seq<char>> {
        match self.names {
            Some(n) => texts(n@),
            None => Seq::empty(),
        }
    }
}

impl Default for DeclaredNames {
    fn default() -> (r: DeclaredNames)
        ensures
            r.names is None,
    {
        DeclaredNames { names: None }
    }
}

/// Record the names the caller asked to keep out of every tool server, and say whether they
/// were. A second declaration is ignored: the first is the one any server already started was
/// built against.
pub fn declare_protected_env_names(registry: &mut DeclaredNames, names: Vec<String>) -> (r: bool)
    ensures
        r == old(registry).names is None,
        r ==> final(registry).names is Some && final(registry).declared() == sanitised_names(
            texts(names@),
        ),
        !r ==> *final(registry) == *old(registry),
{
    if registry.names.is_some() {
        return false;
    }
    registry.names = Some(sanitised(names));
    true
}

/// The environment variables treated as credentials: the provider keys, and whatever the
/// caller declared.
pub fn credential_env_names(registry: &DeclaredNames) -> (r: Vec<String>)
    ensures
        texts(r@) == union_of(registry.declared()),
{
    match &registry.names {
        Some(declared) => protected_union(declared),
        None => {
            let none: Vec<String> = Vec::new();
            assert(texts(none@) =~= Seq::empty());
            protected_union(&none)
        },
    }
}

// ── Substitution ──────────────────────────────────────────────────────────────

/// What a reference, the text between its braces, stands for: the value of its name, or else
/// its default, or else nothing.
pub open spec fn referenced(inner: Seq<char>, source: Map<Seq<char>, Seq<char>>) -> Seq<char> {
    match find_from(inner, ":-"@, 0) {
        Some(k) if 0 <= k && k + 2 <= inner.len() => {
            let name = inner.subrange(0, k);
            if source.contains_key(name) {
                source[name]
            } else {
                inner.skip(k + 2)
            }
        },
        _ => if source.contains_key(inner) {
            source[inner]
        } else {
            Seq::empty()
        },
    }
}

/// The text from `from` on, with each `${...}` replaced by what it stands for. One that is not
/// closed is literal.
pub open spec fn expanded_from(
    t: Seq<char>,
    source: Map<Seq<char>, Seq<char>>,
    from: int,
) -> Seq<char>
    decreases t.len() - from,
{
    match find_from(t, "${"@, from) {
        Some(s) if from <= s && s + 2 <= t.len() => match find_from(t, "}"@, s + 2) {
            Some(e) if s + 2 <= e && e + 1 <= t.len() => t.subrange(from, s) + referenced(
                t.subrange(s + 2, e),
                source,
            ) + expanded_from(t, source, e + 1),
            _ => t.skip(from),
        },
        _ => t.skip(from),
    }
}

/// Text with each `${NAME}` and `${NAME:-default}` replaced by what it stands for.
pub open spec fn expanded(t: Seq<char>, source: Map<Seq<char>, Seq<char>>) -> Seq<char> {
    expanded_from(t, source, 0)
}

fn reference_value(inner: &str, source: &Dict<String>) -> (r: String)
    ensures
        r@ == referenced(inner@, source.texts()),
{
    let chars = text::chars_of(inner);
    let end: usize = chars.len();
    let sep = text::chars_of(":-");
    proof {
        reveal_strlit(":-");
    }
    match text::find(&chars, &sep, 0) {
        Some(k) => {
            let name = text::slice(&chars, 0, k);
            match source.get_text(name.as_str()) {
                Some(v) => v.to_owned(),
                None => {
                    assert(chars@.subrange(k + 2, chars@.len() as int) =~= inner@.skip(k + 2));
                    text::slice(&chars, k + 2, end)
                },
            }
        },
        None => match source.get_text(inner) {
            Some(v) => v.to_owned(),
            None => String::new(),
        },
    }
}

/// Substitute `${NAME}` and `${NAME:-default}` from a source.
///
/// An unknown name becomes its default, or nothing. Failing instead would turn a project that
/// declares a credential it has not added yet into one whose agents cannot start.
pub fn expand_with(template: &str, source: &Dict<String>) -> (r: String)
    ensures
        r@ == expanded(template@, source.texts()),
{
    let t = text::chars_of(template);
    let open = text::chars_of("${");
    let close = text::chars_of("}");
    proof {
        reveal_strlit("${");
        reveal_strlit("}");
    }
    let end: usize = t.len();
    let mut out = String::new();
    let mut from: usize = 0;
    assert(out@ + expanded_from(t@, source.texts(), 0) =~= expanded(template@, source.texts()));
    loop
        invariant
            from <= t@.len() == end,
            t@ == template@,
            open@ == "${"@,
            close@ == "}"@,
            open@.len() == 2,
            close@.len() == 1,
            expanded(template@, source.texts()) == out@ + expanded_from(
                t@,
                source.texts(),
                from as int,
            ),
        decreases t@.len() - from,
    {
        let start = match text::find(&t, &open, from) {
            Some(s) => s,
            None => {
                let tail = text::slice(&t, from, end);
                out.append(tail.as_str());
                assert(t@.skip(from as int) =~= tail@);
                return out;
            },
        };
        let stop = match text::find(&t, &close, start + 2) {
            Some(e) => e,
            None => {
                let tail = text::slice(&t, from, end);
                out.append(tail.as_str());
                assert(t@.skip(from as int) =~= tail@);
                return out;
            },
        };
        let ghost before = out@;
        let literal = text::slice(&t, from, start);
        let inner = text::slice(&t, start + 2, stop);
        let value = reference_value(inner.as_str(), source);
        out.append(literal.as_str());
        out.append(value.as_str());
        proof {
            let rest = expanded_from(t@, source.texts(), stop + 1);
            assert(before + (literal@ + value@ + rest) =~= out@ + rest);
        }
        from = stop + 1;
    }
}

/// Substitute in a tools file's arguments, from the process environment and never from the
/// credentials: a program path is no secret, and must not become a way to read one.
pub fn expand_from_environment(template: &str, environment: &Dict<String>) -> (r: String)
    ensures
        r@ == expanded(template@, environment.texts()),
{
    expand_with(template, environment)
}

/// Text that refers to nothing is left alone.
pub proof fn law_text_without_a_reference_is_left_alone(
    t: Seq<char>,
    source: Map<Seq<char>, Seq<char>>,
)
    requires
        !text::contains(t, "${"@),
    ensures
        expanded(t, source) == t,
{
    assert(t.skip(0) =~= t);
}

// ── Credentials ───────────────────────────────────────────────────────────────

/// The credential values available to a run.
#[derive(Debug)]
pub struct Credentials {
    /// `Some` where a file was given, and then the only source. `None` means the environment.
    pub values: Option<Dict<String>>,
}

/// What a malformed credentials file is refused with, before the path as it is shown.
pub const NOT_CREDENTIALS: &'static str = "Credentials file is not a JSON object of name/value pairs: ";

impl Credentials {
    /// The credentials a file's text holds: a JSON object of names and values, and nothing in
    /// it that is not text. `path` is the file, as it is shown to a person.
    pub fn from_text(content: &str, path: &str) -> (r: Result<Credentials, String>)
        ensures
            match r {
                Ok(c) => c.values is Some && parsed_texts(content@) == Some(c.values->0.texts())
                    && parsed_json(content@) == Ok::<JsonView, (Seq<char>, bool)>(
                    text_object(c.values->0.texts()),
                ),
                Err(e) => parsed_texts(content@) is None && e@ == NOT_CREDENTIALS@ + path@,
            },
    {
        Credentials::from_pairs(json::parse_texts(content), path)
    }

    /// The credentials that a file's names and values are, where the file holds such pairs.
    pub fn from_pairs(pairs: Option<Dict<String>>, path: &str) -> (r: Result<Credentials, String>)
        ensures
            match r {
                Ok(c) => pairs is Some && c.values == pairs,
                Err(e) => pairs is None && e@ == NOT_CREDENTIALS@ + path@,
            },
    {
        match pairs {
            Some(values) => Ok(Credentials { values: Some(values) }),
            None => {
                let mut e = NOT_CREDENTIALS.to_owned();
                e.append(path);
                Err(e)
            },
        }
    }

    /// Credentials that come from the environment.
    pub fn from_environment() -> (r: Credentials)
        ensures
            r.values is None,
    {
        Credentials { values: None }
    }

    /// The values there are: the file's, or the environment's where there was no file.
    pub open spec fn source(&self, environment: Dict<String>) -> Map<Seq<char>, Seq<char>> {
        match self.values {
            Some(v) => v.texts(),
            None => environment.texts(),
        }
    }

    /// The value for `name`, from whichever source this was built with.
    pub fn get(&self, name: &str, environment: &Dict<String>) -> (r: Option<String>)
        ensures
            match r {
                Some(v) => self.source(*environment).contains_key(name@) && v@ == self.source(
                    *environment,
                )[name@],
                None => !self.source(*environment).contains_key(name@),
            },
    {
        let found = match &self.values {
            Some(values) => values.get_text(name),
            None => environment.get_text(name),
        };
        match found {
            Some(v) => Some(v.to_owned()),
            None => None,
        }
    }

    /// Whether `name` has a non-empty value. A secret that is exported but not set arrives as
    /// an empty string, and has to count as absent.
    pub fn has(&self, name: &str, environment: &Dict<String>) -> (r: bool)
        ensures
            r == (self.source(*environment).contains_key(name@) && self.source(
                *environment,
            )[name@].len() > 0),
    {
        match self.get(name, environment) {
            Some(v) => !text::empty(v.as_str()),
            None => false,
        }
    }

    /// Those of several names that have a non-empty value.
    pub fn present(&self, names: &Vec<String>, environment: &Dict<String>) -> (r: Vec<String>)
        ensures
            texts(r@) == present_of(texts(names@), self.source(*environment)),
    {
        let ghost all = texts(names@);
        let mut out: Vec<String> = Vec::new();
        assert(texts(out@) =~= present_of(all.take(0), self.source(*environment)));
        for i in 0..names.len()
            invariant
                all == texts(names@),
                texts(out@) == present_of(all.take(i as int), self.source(*environment)),
        {
            assert(all.take(i + 1).drop_last() =~= all.take(i as int));
            assert(all.take(i + 1).last() == names@[i as int]@);
            if self.has(names[i].as_str(), environment) {
                let ghost before = texts(out@);
                out.push(names[i].clone());
                assert(texts(out@) =~= before.push(names@[i as int]@));
            }
        }
        assert(all.take(all.len() as int) =~= all);
        out
    }

    /// Replace `${NAME}` in `template` with the credential of that name.
    pub fn expand(&self, template: &str, environment: &Dict<String>) -> (r: String)
        ensures
            r@ == expanded(template@, self.source(*environment)),
    {
        match &self.values {
            Some(values) => expand_with(template, values),
            None => expand_with(template, environment),
        }
    }
}

/// Those of several names that have a non-empty value.
pub open spec fn present_of(names: Seq<Seq<char>>, source: Map<Seq<char>, Seq<char>>) -> Seq<
    Seq<char>,
>
    decreases names.len(),
{
    if names.len() == 0 {
        Seq::empty()
    } else {
        let earlier = present_of(names.drop_last(), source);
        if source.contains_key(names.last()) && source[names.last()].len() > 0 {
            earlier.push(names.last())
        } else {
            earlier
        }
    }
}

// ── What a tool server is given ───────────────────────────────────────────────

/// The environment of a tool server: the inherited one without the protected names, and then
/// what the server's own configuration sets.
pub open spec fn server_environment(
    inherited: Map<Seq<char>, String>,
    protected: Seq<Seq<char>>,
    routed: Map<Seq<char>, String>,
) -> Map<Seq<char>, String> {
    inherited.remove_keys(protected.to_set()).union_prefer_right(routed)
}

/// The environment to start a tool server with. A server gets the credentials its own
/// configuration names, and no others.
pub fn environment_for(
    inherited: &Dict<String>,
    protected: &Vec<String>,
    routed: &Dict<String>,
) -> (r: Dict<String>)
    ensures
        r@ == server_environment(inherited@, texts(protected@), routed@),
{
    let ghost all = texts(protected@);
    let mut out = inherited.copy();
    assert(inherited@.remove_keys(all.take(0).to_set()) =~= inherited@);
    for i in 0..protected.len()
        invariant
            all == texts(protected@),
            out@ == inherited@.remove_keys(all.take(i as int).to_set()),
    {
        out.remove(protected[i].as_str());
        proof {
            let now = all.take(i + 1);
            let before = all.take(i as int);
            assert(now =~= before.push(all[i as int]));
            assert forall|k: Seq<char>| now.contains(k) <==> (before.contains(k) || k
                == all[i as int]) by {
                if before.contains(k) {
                    let j = choose|j: int| 0 <= j < before.len() && before[j] == k;
                    assert(now[j] == k);
                }
                assert(now[i as int] == all[i as int]);
            }
            assert(out@ =~= inherited@.remove_keys(now.to_set()));
        }
    }
    assert(all.take(all.len() as int) =~= all);
    out.extend(routed);
    out
}

/// A protected name reaches a server only by being named in that server's own configuration,
/// and with the value it has there. Every other name arrives as it was inherited, unless the
/// configuration sets it.
pub proof fn law_a_credential_reaches_only_the_server_that_names_it(
    inherited: Map<Seq<char>, String>,
    protected: Seq<Seq<char>>,
    routed: Map<Seq<char>, String>,
    name: Seq<char>,
)
    ensures
        ({
            let given = server_environment(inherited, protected, routed);
            &&& protected.contains(name) ==> (given.contains_key(name) <==> routed.contains_key(
                name,
            ))
            &&& routed.contains_key(name) ==> given.contains_key(name) && given[name]
                == routed[name]
            &&& !protected.contains(name) && !routed.contains_key(name) ==> (given.contains_key(
                name,
            ) <==> inherited.contains_key(name)) && (inherited.contains_key(name) ==> given[name]
                == inherited[name])
        }),
{
}

/// Where a file was given the environment is not consulted at all.
pub proof fn law_a_file_is_the_only_source(
    c: Credentials,
    environment: Dict<String>,
    other: Dict<String>,
)
    requires
        c.values is Some,
    ensures
        c.source(environment) == c.source(other),
{
}

// ── What substitution promises ────────────────────────────────────────────────

proof fn lemma_expanded_rest(
    t: Seq<char>,
    source: Map<Seq<char>, Seq<char>>,
    base: int,
    from: int,
)
    requires
        0 <= base <= from <= t.len(),
    ensures
        expanded_from(t, source, from) == expanded_from(t.skip(base), source, from - base),
    decreases t.len() - from,
{
    reveal_strlit("${");
    reveal_strlit("}");
    let rest = t.skip(base);
    text::lemma_find_in_rest(t, "${"@, base, from);
    text::lemma_find_from(t, "${"@, from);
    match find_from(t, "${"@, from) {
        Some(s) => {
            text::lemma_find_in_rest(t, "}"@, base, s + 2);
            text::lemma_find_from(t, "}"@, s + 2);
            match find_from(t, "}"@, s + 2) {
                Some(e) => {
                    lemma_expanded_rest(t, source, base, e + 1);
                    assert(rest.subrange(from - base, s - base) =~= t.subrange(from, s));
                    assert(rest.subrange(s + 2 - base, e - base) =~= t.subrange(s + 2, e));
                },
                None => {
                    assert(rest.skip(from - base) =~= t.skip(from));
                },
            }
        },
        None => {
            assert(rest.skip(from - base) =~= t.skip(from));
        },
    }
}

/// What a reference stands for: the value of its name where it has one, and else its default or
/// nothing.
pub proof fn law_a_reference_stands_for_its_value(
    name: Seq<char>,
    fallback: Seq<char>,
    source: Map<Seq<char>, Seq<char>>,
)
    requires
        forall|i: int| 0 <= i < name.len() ==> #[trigger] name[i] != ':',
    ensures
        source.contains_key(name) ==> referenced(name, source) == source[name],
        !source.contains_key(name) ==> referenced(name, source).len() == 0,
        source.contains_key(name) ==> referenced(name + ":-"@ + fallback, source) == source[name],
        !source.contains_key(name) ==> referenced(name + ":-"@ + fallback, source) == fallback,
{
    reveal_strlit(":-");
    let sep = ":-"@;
    text::lemma_find_from(name, sep, 0);
    if let Some(k) = find_from(name, sep, 0) {
        assert(name.subrange(k, k + 2)[0] == name[k]);
    }
    let all = name + sep + fallback;
    let k = name.len() as int;
    text::lemma_find_from(all, sep, 0);
    assert(all.subrange(k, k + 2) =~= sep);
    assert(text::occurs_at(all, sep, k));
    assert forall|j: int| 0 <= j < k implies !text::occurs_at(all, sep, j) by {
        if text::occurs_at(all, sep, j) {
            assert(all.subrange(j, j + 2)[0] == name[j]);
        }
    }
    assert(find_from(all, sep, 0) == Some(k));
    assert(all.subrange(0, k) =~= name);
    assert(all.skip(k + 2) =~= fallback);
}

/// Every reference of a text is replaced by what it stands for and everything else is kept:
/// what stands before the first stays, and what stands behind it is a text of its own. One that
/// is not closed is left as it is.
pub proof fn law_every_reference_is_replaced(
    before: Seq<char>,
    inner: Seq<char>,
    after: Seq<char>,
    source: Map<Seq<char>, Seq<char>>,
)
    requires
        forall|i: int| 0 <= i < before.len() ==> #[trigger] before[i] != '$',
        forall|i: int| 0 <= i < inner.len() ==> #[trigger] inner[i] != '}',
    ensures
        expanded(before + "${"@ + inner + "}"@ + after, source) == before + referenced(
            inner,
            source,
        ) + expanded(after, source),
        expanded(before + "${"@ + inner, source) == before + "${"@ + inner,
{
    reveal_strlit("${");
    reveal_strlit("}");
    let open = "${"@;
    let close = "}"@;
    let t = before + open + inner + close + after;
    let s = before.len() as int;
    let e = s + 2 + inner.len();
    lemma_opening_is_found(before, inner + close + after);
    assert(t =~= before + open + (inner + close + after));
    text::lemma_find_from(t, close, s + 2);
    assert(t.subrange(e, e + 1) =~= close);
    assert(text::occurs_at(t, close, e));
    assert forall|j: int| s + 2 <= j < e implies !text::occurs_at(t, close, j) by {
        if text::occurs_at(t, close, j) {
            assert(t.subrange(j, j + 1)[0] == inner[j - s - 2]);
        }
    }
    assert(find_from(t, close, s + 2) == Some(e));
    lemma_expanded_rest(t, source, e + 1, e + 1);
    assert(t.skip(e + 1) =~= after);
    assert(t.subrange(0, s) =~= before);
    assert(t.subrange(s + 2, e) =~= inner);
    let u = before + open + inner;
    lemma_opening_is_found(before, inner);
    text::lemma_find_from(u, close, s + 2);
    if let Some(k) = find_from(u, close, s + 2) {
        assert(u.subrange(k, k + 1)[0] == inner[k - s - 2]);
    }
    assert(u.skip(0) =~= u);
}

proof fn lemma_opening_is_found(before: Seq<char>, after: Seq<char>)
    requires
        forall|i: int| 0 <= i < before.len() ==> #[trigger] before[i] != '$',
    ensures
        find_from(before + "${"@ + after, "${"@, 0) == Some(before.len() as int),
{
    reveal_strlit("${");
    let open = "${"@;
    let t = before + open + after;
    let s = before.len() as int;
    text::lemma_find_from(t, open, 0);
    assert(t.subrange(s, s + 2) =~= open);
    assert(text::occurs_at(t, open, s));
    assert forall|j: int| 0 <= j < s implies !text::occurs_at(t, open, j) by {
        if text::occurs_at(t, open, j) {
            assert(t.subrange(j, j + 2)[0] == before[j]);
        }
    }
}

/// Of names, those that are nothing but whitespace are left out, and every other is kept in its
/// place without the whitespace around it.
pub proof fn law_every_name_is_kept_without_its_padding(names: Seq<Seq<char>>, name: Seq<char>)
    ensures
        sanitised_names(Seq::empty()).len() == 0,
        trim(name).len() > 0 ==> sanitised_names(names.push(name)) == sanitised_names(names).push(
            trim(name),
        ),
        trim(name).len() == 0 ==> sanitised_names(names.push(name)) == sanitised_names(names),
{
    assert(names.push(name).drop_last() =~= names);
}

/// A credential is there exactly where its source has a value for it that is not empty.
pub proof fn law_an_empty_credential_is_none(
    names: Seq<Seq<char>>,
    name: Seq<char>,
    source: Map<Seq<char>, Seq<char>>,
)
    ensures
        present_of(Seq::empty(), source).len() == 0,
        source.contains_key(name) && source[name].len() > 0 ==> present_of(names.push(name), source)
            == present_of(names, source).push(name),
        !source.contains_key(name) || source[name].len() == 0 ==> present_of(
            names.push(name),
            source,
        ) == present_of(names, source),
{
    assert(names.push(name).drop_last() =~= names);
}

/// Where no file was given the environment is the source, and where one was its values are.
pub proof fn law_values_come_from_their_source(c: Credentials, environment: Dict<String>)
    ensures
        c.values is None ==> c.source(environment) == environment.texts(),
        c.values is Some ==> c.source(environment) == c.values->0.texts(),
{
}

/// What was declared is what is declared, and nothing is where nothing was.
pub proof fn law_only_what_was_declared_is(d: DeclaredNames)
    ensures
        d.names is Some ==> d.declared() == texts(d.names->0@),
        d.names is None ==> d.declared().len() == 0,
{
}

} // verus!
