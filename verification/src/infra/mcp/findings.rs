//! What is wrong with a set of servers, found by asking them.
use crate::dict::Dict;
use crate::domain::tool::ToolDef;
use crate::infra::hooks::{
    access_denial_reason, dead_patterns, denial, law_a_dead_pattern_matches_no_tool,
    pattern_matches, unmatched_patterns,
};
use crate::json::Json;
use crate::text;
use crate::text::{decimal, decimal_of, is_white, join, opt_text, texts};
use vstd::prelude::*;
use vstd::utf8::{decode_utf8, encode_utf8};

verus! {

/// A tool a server offers.
#[derive(Debug)]
pub struct RegisteredTool {
    /// The name the model calls it by: `server__tool`, or `tool` when the server sets
    /// `unprefixed`.
    pub prefixed_name: String,
    /// The name the server itself knows it by.
    pub tool_name: String,
    pub schema: Json,
}

/// The names the model calls several tools by.
pub open spec fn prefixed_names(tools: Seq<RegisteredTool>) -> Seq<Seq<char>> {
    tools.map_values(|t: RegisteredTool| t.prefixed_name@)
}

/// Something wrong with a set of servers. `fatal` is whether a run may proceed past it;
/// `message` is for a person and `kind` is the same fact for a program.
#[derive(Debug)]
pub struct Finding {
    pub fatal: bool,
    pub message: String,
    pub kind: FindingKind,
}

/// What is wrong, and what it is wrong about.
#[derive(Debug)]
pub enum FindingKind {
    /// A pattern in a server's lists that matches none of its tools.
    DeadGuard {
        server: String,
        pattern: String,
        /// Every tool the server advertises: what the pattern failed to match.
        tools: Vec<String>,
    },
    /// One tool name claimed by more than one server, which routing cannot resolve.
    DuplicateTool {
        tool: String,
        /// The servers claiming it, in the order they are declared.
        servers: Vec<String>,
    },
}

/// What is wrong, and what it is wrong about.
#[verifier::ext_equal]
pub enum KindView {
    DeadGuard(Seq<char>, Seq<char>, Seq<Seq<char>>),
    DuplicateTool(Seq<char>, Seq<Seq<char>>),
}

/// What a finding says.
#[verifier::ext_equal]
pub struct FindingView {
    pub fatal: bool,
    pub message: Seq<char>,
    pub kind: KindView,
}

impl View for FindingKind {
    type V = KindView;

    open spec fn view(&self) -> KindView {
        match self {
            FindingKind::DeadGuard { server, pattern, tools } => KindView::DeadGuard(
                server@,
                pattern@,
                texts(tools@),
            ),
            FindingKind::DuplicateTool { tool, servers } => KindView::DuplicateTool(
                tool@,
                texts(servers@),
            ),
        }
    }
}

impl View for Finding {
    type V = FindingView;

    open spec fn view(&self) -> FindingView {
        FindingView { fatal: self.fatal, message: self.message@, kind: self.kind@ }
    }
}

/// What several findings say.
pub open spec fn findings_view(found: Seq<Finding>) -> Seq<FindingView> {
    found.map_values(|f: Finding| f@)
}

// ── The machine-readable line ─────────────────────────────────────────────────

/// What every machine-readable configuration line starts with.
pub const CONFIG_FINDING_LINE: &'static str = "ATOMA_CONFIG_FINDING:";

/// A hexadecimal digit, in capitals.
pub open spec fn hex_digit(d: int) -> char {
    if d < 10 {
        (48 + d) as u8 as char
    } else {
        (55 + d) as u8 as char
    }
}

/// A byte as a percent sign and two hexadecimal digits.
pub open spec fn percent(b: u8) -> Seq<char> {
    seq!['%', hex_digit(b as int / 16), hex_digit(b as int % 16)]
}

/// Bytes, each as a percent sign and two digits.
pub open spec fn percents(b: Seq<u8>) -> Seq<char>
    decreases b.len(),
{
    if b.len() == 0 {
        Seq::empty()
    } else {
        percents(b.drop_last()) + percent(b.last())
    }
}

/// Whether a character would break the grammar of the line.
pub open spec fn is_special(c: char) -> bool {
    c == '%' || c == ',' || is_white(c)
}

/// A character of a value: itself, or its bytes escaped where it would break the grammar.
pub open spec fn field_char(c: char) -> Seq<char> {
    if is_special(c) {
        percents(encode_utf8(seq![c]))
    } else {
        seq![c]
    }
}

/// A value of the line.
pub open spec fn field_text(value: Seq<char>) -> Seq<char>
    decreases value.len(),
{
    if value.len() == 0 {
        Seq::empty()
    } else {
        field_text(value.drop_last()) + field_char(value.last())
    }
}

fn hex(d: u8) -> (r: char)
    requires
        d < 16,
    ensures
        r == hex_digit(d as int),
{
    if d < 10 {
        (48 + d) as char
    } else {
        (55 + d) as char
    }
}

/// One value, with the characters that would break the line's own grammar escaped: whitespace
/// would split one field into two, a comma one entry of a list, and the percent sign has to be
/// escaped for either to be reversible.
pub fn field(value: &str) -> (r: String)
    ensures
        r@ == field_text(value@),
{
    let chars = text::chars_of(value);
    let mut out = String::new();
    assert(out@ =~= field_text(value@.take(0)));
    for i in 0..chars.len()
        invariant
            chars@ == value@,
            out@ == field_text(value@.take(i as int)),
    {
        let c: char = chars[i];
        assert(value@.take(i + 1).drop_last() =~= value@.take(i as int));
        if c == '%' || c == ',' || text::white(c) {
            let mut one = String::new();
            one.push(c);
            assert(one@ =~= seq![c]);
            let bytes = one.as_str().as_bytes();
            let ghost before = out@;
            assert(before + percents(bytes@.take(0)) =~= before);
            for j in 0..bytes.len()
                invariant
                    out@ == before + percents(bytes@.take(j as int)),
            {
                let b: u8 = bytes[j];
                assert(bytes@.take(j + 1).drop_last() =~= bytes@.take(j as int));
                out.push('%');
                out.push(hex(b / 16));
                out.push(hex(b % 16));
                assert(out@ =~= before + (percents(bytes@.take(j as int)) + percent(b)));
            }
            assert(bytes@.take(bytes@.len() as int) =~= bytes@);
        } else {
            let ghost before = out@;
            out.push(c);
            assert(out@ =~= before + seq![c]);
        }
    }
    assert(value@.take(value@.len() as int) =~= value@);
    out
}

/// Several values as one field.
pub open spec fn field_list_text(values: Seq<Seq<char>>) -> Seq<char> {
    join(values.map_values(|v: Seq<char>| field_text(v)), ","@)
}

/// Several values as one comma-separated field. Empty is written as nothing.
pub fn field_list(values: &Vec<String>) -> (r: String)
    ensures
        r@ == field_list_text(texts(values@)),
{
    let mut fields: Vec<String> = Vec::new();
    for i in 0..values.len()
        invariant
            fields@.len() == i,
            forall|j: int| 0 <= j < i ==> (#[trigger] fields@[j])@ == field_text(values@[j]@),
    {
        fields.push(field(values[i].as_str()));
    }
    assert(texts(fields@) =~= texts(values@).map_values(|v: Seq<char>| field_text(v)));
    text::joined(&fields, ",")
}

/// A finding as one line of fields. `severity` is the verdict about the configuration, and not
/// the caller's policy about it.
pub open spec fn finding_line(f: FindingView) -> Seq<char> {
    let severity = if f.fatal { "error"@ } else { "warn"@ };
    match f.kind {
        KindView::DeadGuard(server, pattern, tools) => CONFIG_FINDING_LINE@
            + " kind=dead_guard severity="@ + severity + " server="@ + field_text(server)
            + " pattern="@ + field_text(pattern) + " tools="@ + field_list_text(tools),
        KindView::DuplicateTool(tool, servers) => CONFIG_FINDING_LINE@
            + " kind=duplicate_tool severity="@ + severity + " tool="@ + field_text(tool)
            + " servers="@ + field_list_text(servers),
    }
}

impl Finding {
    /// This finding as one line of fields, addressed to a program rather than to a person.
    pub fn machine_line(&self) -> (r: String)
        ensures
            r@ == finding_line(self@),
    {
        let severity = if self.fatal {
            "error"
        } else {
            "warn"
        };
        let mut out = CONFIG_FINDING_LINE.to_owned();
        match &self.kind {
            FindingKind::DeadGuard { server, pattern, tools } => {
                out.append(" kind=dead_guard severity=");
                out.append(severity);
                out.append(" server=");
                out.append(field(server.as_str()).as_str());
                out.append(" pattern=");
                out.append(field(pattern.as_str()).as_str());
                out.append(" tools=");
                out.append(field_list(tools).as_str());
            },
            FindingKind::DuplicateTool { tool, servers } => {
                out.append(" kind=duplicate_tool severity=");
                out.append(severity);
                out.append(" tool=");
                out.append(field(tool.as_str()).as_str());
                out.append(" servers=");
                out.append(field_list(servers).as_str());
            },
        }
        out
    }
}

/// The number a hexadecimal digit writes.
pub open spec fn hex_value(c: char) -> int {
    if '0' <= c <= '9' {
        c as u32 - 48
    } else {
        c as u32 - 55
    }
}

/// The bytes a value of the line was written from: an escape is its byte, and any other
/// character is its own bytes.
pub open spec fn unescaped(s: Seq<char>) -> Seq<u8>
    decreases s.len(),
{
    if s.len() == 0 {
        Seq::empty()
    } else if s[0] == '%' && s.len() >= 3 {
        seq![(hex_value(s[1]) * 16 + hex_value(s[2])) as u8] + unescaped(s.skip(3))
    } else {
        encode_utf8(seq![s[0]]) + unescaped(s.drop_first())
    }
}

proof fn lemma_hex(d: int)
    requires
        0 <= d < 16,
    ensures
        hex_value(hex_digit(d)) == d,
        !is_white(hex_digit(d)),
        hex_digit(d) != ',',
        hex_digit(d) != '%',
{
}

proof fn lemma_percent(b: u8, rest: Seq<char>)
    ensures
        unescaped(percent(b) + rest) == seq![b] + unescaped(rest),
{
    lemma_hex(b as int / 16);
    lemma_hex(b as int % 16);
    let s = percent(b) + rest;
    assert(s.skip(3) =~= rest);
}

proof fn lemma_percents(b: Seq<u8>, rest: Seq<char>)
    ensures
        unescaped(percents(b) + rest) == b + unescaped(rest),
    decreases b.len(),
{
    if b.len() == 0 {
        assert(percents(b) + rest =~= rest);
        assert(b + unescaped(rest) =~= unescaped(rest));
    } else {
        let most = b.drop_last();
        let last = b.last();
        assert(percents(b) + rest =~= percents(most) + (percent(last) + rest));
        lemma_percents(most, percent(last) + rest);
        lemma_percent(last, rest);
        assert(most + (seq![last] + unescaped(rest)) =~= b + unescaped(rest));
    }
}

proof fn lemma_encode_push(s: Seq<char>, c: char)
    ensures
        encode_utf8(s.push(c)) == encode_utf8(s) + encode_utf8(seq![c]),
    decreases s.len(),
{
    if s.len() == 0 {
        assert(s.push(c) =~= seq![c]);
        assert(encode_utf8(s) + encode_utf8(seq![c]) =~= encode_utf8(seq![c]));
    } else {
        lemma_encode_push(s.drop_first(), c);
        assert(s.push(c).drop_first() =~= s.drop_first().push(c));
        assert(s.push(c)[0] == s[0]);
        let head = vstd::utf8::encode_scalar(s[0] as u32);
        assert(head + (encode_utf8(s.drop_first()) + encode_utf8(seq![c])) =~= (head + encode_utf8(
            s.drop_first(),
        )) + encode_utf8(seq![c]));
    }
}

proof fn lemma_unescaped(value: Seq<char>, rest: Seq<char>)
    ensures
        unescaped(field_text(value) + rest) == encode_utf8(value) + unescaped(rest),
    decreases value.len(),
{
    if value.len() == 0 {
        assert(field_text(value) + rest =~= rest);
        assert(encode_utf8(value) + unescaped(rest) =~= unescaped(rest));
    } else {
        let most = value.drop_last();
        let c = value.last();
        let tail = field_char(c) + rest;
        assert(field_text(value) + rest =~= field_text(most) + tail);
        lemma_unescaped(most, tail);
        if is_special(c) {
            lemma_percents(encode_utf8(seq![c]), rest);
        } else {
            assert(tail.drop_first() =~= rest);
            assert(tail[0] == c);
        }
        lemma_encode_push(most, c);
        assert(value =~= most.push(c));
        assert(encode_utf8(most) + (encode_utf8(seq![c]) + unescaped(rest)) =~= encode_utf8(value)
            + unescaped(rest));
    }
}

/// A value can be read back from the line, so two values are never written the same.
pub proof fn law_a_field_reads_back(value: Seq<char>, other: Seq<char>)
    ensures
        unescaped(field_text(value)) == encode_utf8(value),
        field_text(value) == field_text(other) ==> value == other,
{
    lemma_unescaped(value, Seq::empty());
    lemma_unescaped(other, Seq::empty());
    assert(field_text(value) + Seq::<char>::empty() =~= field_text(value));
    assert(field_text(other) + Seq::<char>::empty() =~= field_text(other));
    assert(encode_utf8(value) + unescaped(Seq::empty()) =~= encode_utf8(value));
    assert(encode_utf8(other) + unescaped(Seq::empty()) =~= encode_utf8(other));
    vstd::utf8::encode_utf8_decode_utf8(value);
    vstd::utf8::encode_utf8_decode_utf8(other);
}

proof fn lemma_percents_plain(b: Seq<u8>)
    ensures
        forall|i: int|
            0 <= i < percents(b).len() ==> !is_white(#[trigger] percents(b)[i]) && percents(b)[i]
                != ',',
    decreases b.len(),
{
    if b.len() > 0 {
        lemma_percents_plain(b.drop_last());
        lemma_hex(b.last() as int / 16);
        lemma_hex(b.last() as int % 16);
        let most = percents(b.drop_last());
        let end = percent(b.last());
        assert forall|i: int| 0 <= i < percents(b).len() implies !is_white(
            #[trigger] percents(b)[i],
        ) && percents(b)[i] != ',' by {
            if i >= most.len() {
                assert(percents(b)[i] == end[i - most.len()]);
            } else {
                assert(percents(b)[i] == most[i]);
            }
        }
    }
}

/// A value is one field of the line and one entry of a list: it has no whitespace and no comma
/// in it.
pub proof fn law_a_field_is_one_field(value: Seq<char>)
    ensures
        forall|i: int|
            0 <= i < field_text(value).len() ==> !is_white(#[trigger] field_text(value)[i])
                && field_text(value)[i] != ',',
    decreases value.len(),
{
    if value.len() > 0 {
        law_a_field_is_one_field(value.drop_last());
        lemma_percents_plain(encode_utf8(seq![value.last()]));
        let most = field_text(value.drop_last());
        let end = field_char(value.last());
        assert forall|i: int| 0 <= i < field_text(value).len() implies !is_white(
            #[trigger] field_text(value)[i],
        ) && field_text(value)[i] != ',' by {
            if i >= most.len() {
                assert(field_text(value)[i] == end[i - most.len()]);
            } else {
                assert(field_text(value)[i] == most[i]);
            }
        }
    }
}

/// An ordinary name is written as it is.
pub proof fn law_an_ordinary_value_is_written_as_it_is(value: Seq<char>)
    requires
        forall|i: int| 0 <= i < value.len() ==> !is_special(#[trigger] value[i]),
    ensures
        field_text(value) == value,
    decreases value.len(),
{
    if value.len() > 0 {
        assert(!is_special(value[value.len() - 1]));
        law_an_ordinary_value_is_written_as_it_is(value.drop_last());
        assert(value.drop_last() + seq![value.last()] =~= value);
    } else {
        assert(field_text(value) =~= value);
    }
}

/// A text cut at every character that `cuts` accepts.
pub open spec fn pieces(s: Seq<char>, cuts: spec_fn(char) -> bool) -> Seq<Seq<char>>
    decreases s.len(),
{
    if s.len() == 0 {
        seq![Seq::empty()]
    } else {
        let earlier = pieces(s.drop_last(), cuts);
        if cuts(s.last()) {
            earlier.push(Seq::empty())
        } else {
            earlier.drop_last().push(earlier.last().push(s.last()))
        }
    }
}

/// Whether a text has no character that `cuts` accepts.
pub open spec fn is_whole(s: Seq<char>, cuts: spec_fn(char) -> bool) -> bool {
    forall|i: int| 0 <= i < s.len() ==> !cuts(#[trigger] s[i])
}

proof fn lemma_pieces_whole(s: Seq<char>, t: Seq<char>, cuts: spec_fn(char) -> bool)
    requires
        is_whole(t, cuts),
    ensures
        pieces(s, cuts).len() > 0,
        pieces(s + t, cuts) == pieces(s, cuts).drop_last().push(pieces(s, cuts).last() + t),
    decreases s.len() + t.len(),
{
    if t.len() == 0 {
        if s.len() > 0 {
            lemma_pieces_whole(s.drop_last(), t, cuts);
        }
        assert(s + t =~= s);
        assert(pieces(s, cuts).last() + t =~= pieces(s, cuts).last());
        assert(pieces(s, cuts).drop_last().push(pieces(s, cuts).last()) =~= pieces(s, cuts));
    } else {
        let most = t.drop_last();
        assert(!cuts(t[t.len() - 1]));
        assert(is_whole(most, cuts)) by {
            assert forall|i: int| 0 <= i < most.len() implies !cuts(#[trigger] most[i]) by {
                assert(most[i] == t[i]);
            }
        }
        lemma_pieces_whole(s, most, cuts);
        assert((s + t).drop_last() =~= s + most);
        assert((pieces(s, cuts).last() + most).push(t.last()) =~= pieces(s, cuts).last() + t);
        assert(pieces(s + t, cuts) =~= pieces(s, cuts).drop_last().push(
            pieces(s, cuts).last() + t,
        ));
    }
}

/// Texts that a separator was put between come apart again where it is cut.
proof fn lemma_pieces_of_join(parts: Seq<Seq<char>>, sep: char, cuts: spec_fn(char) -> bool)
    requires
        parts.len() > 0,
        cuts(sep),
        forall|i: int| 0 <= i < parts.len() ==> is_whole(#[trigger] parts[i], cuts),
    ensures
        pieces(join(parts, seq![sep]), cuts) == parts,
    decreases parts.len(),
{
    let last = parts.last();
    assert(is_whole(parts[parts.len() - 1], cuts));
    if parts.len() == 1 {
        lemma_pieces_whole(Seq::empty(), last, cuts);
        assert(Seq::<char>::empty() + last =~= last);
        assert(pieces(last, cuts) =~= parts);
    } else {
        let most = parts.drop_last();
        assert forall|i: int| 0 <= i < most.len() implies is_whole(#[trigger] most[i], cuts) by {
            assert(most[i] == parts[i]);
        }
        lemma_pieces_of_join(most, sep, cuts);
        let head = join(most, seq![sep]) + seq![sep];
        assert(head.drop_last() =~= join(most, seq![sep]));
        assert(pieces(head, cuts) =~= most.push(Seq::empty()));
        lemma_pieces_whole(head, last, cuts);
        assert(Seq::<char>::empty() + last =~= last);
        assert(most.push(last) =~= parts);
        assert(most.push(Seq::empty()).drop_last() =~= most);
    }
}

/// What follows the first equals sign of a field.
pub open spec fn after_equals(s: Seq<char>) -> Seq<char>
    decreases s.len(),
{
    if s.len() == 0 {
        s
    } else if s[0] == '=' {
        s.drop_first()
    } else {
        after_equals(s.drop_first())
    }
}

/// The fields of a line: what stands between its whitespace.
pub open spec fn line_fields(line: Seq<char>) -> Seq<Seq<char>> {
    pieces(line, |c: char| is_white(c))
}

/// The value of a field.
pub open spec fn read_value(field: Seq<char>) -> Seq<char> {
    decode_utf8(unescaped(after_equals(field)))
}

/// The values of a list.
pub open spec fn read_list(list: Seq<char>) -> Seq<Seq<char>> {
    if list.len() == 0 {
        Seq::empty()
    } else {
        pieces(list, |c: char| c == ',').map_values(|v: Seq<char>| decode_utf8(unescaped(v)))
    }
}

/// Whether a line says that what it reports is fatal.
pub open spec fn read_fatal(line: Seq<char>) -> bool {
    after_equals(line_fields(line)[2]) == "error"@
}

/// What a line reports.
pub open spec fn read_kind(line: Seq<char>) -> KindView {
    let fields = line_fields(line);
    if after_equals(fields[1]) == "dead_guard"@ {
        KindView::DeadGuard(read_value(fields[3]), read_value(fields[4]), read_list(after_equals(fields[5])))
    } else {
        KindView::DuplicateTool(read_value(fields[3]), read_list(after_equals(fields[4])))
    }
}

/// The list a finding is about.
pub open spec fn listed(kind: KindView) -> Seq<Seq<char>> {
    match kind {
        KindView::DeadGuard(_, _, tools) => tools,
        KindView::DuplicateTool(_, servers) => servers,
    }
}

proof fn lemma_after_equals(name: Seq<char>, value: Seq<char>)
    requires
        is_whole(name, |c: char| c == '='),
    ensures
        after_equals(name + seq!['='] + value) == value,
    decreases name.len(),
{
    let s = name + seq!['='] + value;
    if name.len() == 0 {
        assert(s.drop_first() =~= value);
    } else {
        assert(name[0] != '=');
        let rest = name.drop_first();
        assert forall|i: int| 0 <= i < rest.len() implies #[trigger] rest[i] != '=' by {
            assert(rest[i] == name[i + 1]);
        }
        lemma_after_equals(rest, value);
        assert(s.drop_first() =~= rest + seq!['='] + value);
    }
}

proof fn lemma_value_decodes(value: Seq<char>)
    ensures
        decode_utf8(unescaped(field_text(value))) == value,
        is_whole(field_text(value), |c: char| is_white(c)),
        is_whole(field_text(value), |c: char| c == ','),
        field_text(value).len() == 0 ==> value.len() == 0,
{
    law_a_field_reads_back(value, Seq::empty());
    law_a_field_is_one_field(value);
    vstd::utf8::encode_utf8_decode_utf8(value);
    if field_text(value).len() == 0 {
        assert(field_text(value) =~= field_text(Seq::empty()));
    }
}

proof fn lemma_list_decodes(values: Seq<Seq<char>>)
    ensures
        ({
            let list = field_list_text(values);
            &&& is_whole(list, |c: char| is_white(c))
            &&& values != seq![Seq::<char>::empty()] ==> read_list(list) == values
        }),
{
    reveal_strlit(",");
    assert(","@ =~= seq![',']);
    let comma = |c: char| c == ',';
    let white = |c: char| is_white(c);
    let parts = values.map_values(|v: Seq<char>| field_text(v));
    let list = field_list_text(values);
    assert forall|i: int| 0 <= i < parts.len() implies is_whole(#[trigger] parts[i], comma)
        && is_whole(parts[i], white) && decode_utf8(unescaped(parts[i])) == values[i] by {
        lemma_value_decodes(values[i]);
    }
    lemma_join_whole(parts, ',', white);
    if values.len() > 0 {
        lemma_pieces_of_join(parts, ',', comma);
        if list.len() == 0 {
            assert(pieces(list, comma) =~= seq![Seq::<char>::empty()]);
            assert(parts.len() == 1 && values.len() == 1);
            lemma_value_decodes(values[0]);
            assert(parts[0].len() == 0);
            assert(values[0] =~= Seq::<char>::empty());
            assert(values =~= seq![Seq::<char>::empty()]);
        }
        assert(parts.map_values(|v: Seq<char>| decode_utf8(unescaped(v))) =~= values);
    } else {
        assert(list.len() == 0);
        assert(values =~= Seq::empty());
    }
}

proof fn lemma_join_whole(parts: Seq<Seq<char>>, sep: char, cuts: spec_fn(char) -> bool)
    requires
        !cuts(sep),
        forall|i: int| 0 <= i < parts.len() ==> is_whole(#[trigger] parts[i], cuts),
    ensures
        is_whole(join(parts, seq![sep]), cuts),
    decreases parts.len(),
{
    if parts.len() > 0 {
        assert(is_whole(parts[parts.len() - 1], cuts));
    }
    if parts.len() > 1 {
        let most = parts.drop_last();
        assert forall|i: int| 0 <= i < most.len() implies is_whole(#[trigger] most[i], cuts) by {
            assert(most[i] == parts[i]);
        }
        lemma_join_whole(most, sep, cuts);
        let head = join(most, seq![sep]);
        let all = join(parts, seq![sep]);
        assert forall|i: int| 0 <= i < all.len() implies !cuts(#[trigger] all[i]) by {
            if i < head.len() {
                assert(all[i] == head[i]);
            } else if i > head.len() {
                assert(all[i] == parts.last()[i - head.len() - 1]);
            }
        }
    }
}

/// A named field of the line.
spec fn named(name: Seq<char>, value: Seq<char>) -> Seq<char> {
    name + seq!['='] + value
}

proof fn lemma_named(name: Seq<char>, value: Seq<char>)
    requires
        is_whole(name, |c: char| is_white(c) || c == '='),
        is_whole(value, |c: char| is_white(c)),
    ensures
        is_whole(named(name, value), |c: char| is_white(c)),
        after_equals(named(name, value)) == value,
{
    assert(is_whole(name, |c: char| c == '=')) by {
        assert forall|i: int| 0 <= i < name.len() implies #[trigger] name[i] != '=' by {
            assert(!(is_white(name[i]) || name[i] == '='));
        }
    }
    lemma_after_equals(name, value);
    let s = named(name, value);
    assert forall|i: int| 0 <= i < s.len() implies !is_white(#[trigger] s[i]) by {
        if i < name.len() {
            assert(s[i] == name[i]);
            assert(!(is_white(name[i]) || name[i] == '='));
        } else if i > name.len() {
            assert(s[i] == value[i - name.len() - 1]);
            assert(!is_white(value[i - name.len() - 1]));
        }
    }
}

proof fn lemma_join_fields(
    a: Seq<char>,
    b: Seq<char>,
    c: Seq<char>,
    d: Seq<char>,
    e: Seq<char>,
    f: Seq<char>,
    sep: Seq<char>,
)
    ensures
        join(seq![a, b, c, d, e], sep) == a + sep + b + sep + c + sep + d + sep + e,
        join(seq![a, b, c, d, e, f], sep) == a + sep + b + sep + c + sep + d + sep + e + sep + f,
{
    assert(join(seq![a], sep) == a);
    assert(seq![a, b].drop_last() =~= seq![a]);
    assert(join(seq![a, b], sep) == join(seq![a], sep) + sep + b);
    assert(seq![a, b, c].drop_last() =~= seq![a, b]);
    assert(join(seq![a, b, c], sep) == join(seq![a, b], sep) + sep + c);
    assert(seq![a, b, c, d].drop_last() =~= seq![a, b, c]);
    assert(join(seq![a, b, c, d], sep) == join(seq![a, b, c], sep) + sep + d);
    assert(seq![a, b, c, d, e].drop_last() =~= seq![a, b, c, d]);
    assert(join(seq![a, b, c, d, e], sep) == join(seq![a, b, c, d], sep) + sep + e);
    assert(seq![a, b, c, d, e, f].drop_last() =~= seq![a, b, c, d, e]);
}

/// The fields that a finding is written as.
spec fn written_fields(f: FindingView) -> Seq<Seq<char>> {
    let severity = named("severity"@, if f.fatal { "error"@ } else { "warn"@ });
    match f.kind {
        KindView::DeadGuard(server, pattern, tools) => seq![
            CONFIG_FINDING_LINE@,
            named("kind"@, "dead_guard"@),
            severity,
            named("server"@, field_text(server)),
            named("pattern"@, field_text(pattern)),
            named("tools"@, field_list_text(tools)),
        ],
        KindView::DuplicateTool(tool, servers) => seq![
            CONFIG_FINDING_LINE@,
            named("kind"@, "duplicate_tool"@),
            severity,
            named("tool"@, field_text(tool)),
            named("servers"@, field_list_text(servers)),
        ],
    }
}

proof fn lemma_line_is_its_fields(f: FindingView)
    ensures
        finding_line(f) == join(written_fields(f), seq![' ']),
{
    reveal_strlit("kind");
    reveal_strlit("severity");
    reveal_strlit("server");
    reveal_strlit("pattern");
    reveal_strlit("tools");
    reveal_strlit("tool");
    reveal_strlit("servers");
    reveal_strlit("dead_guard");
    reveal_strlit("duplicate_tool");
    reveal_strlit(" kind=dead_guard severity=");
    reveal_strlit(" kind=duplicate_tool severity=");
    reveal_strlit(" server=");
    reveal_strlit(" pattern=");
    reveal_strlit(" tools=");
    reveal_strlit(" tool=");
    reveal_strlit(" servers=");
    let w = written_fields(f);
    let sp = seq![' '];
    let eq = seq!['='];
    match f.kind {
        KindView::DeadGuard(server, pattern, tools) => {
            lemma_join_fields(w[0], w[1], w[2], w[3], w[4], w[5], sp);
            assert(w =~= seq![w[0], w[1], w[2], w[3], w[4], w[5]]);
            assert(" kind=dead_guard severity="@ =~= sp + named("kind"@, "dead_guard"@) + sp
                + "severity"@ + eq);
            assert(" server="@ =~= sp + "server"@ + eq);
            assert(" pattern="@ =~= sp + "pattern"@ + eq);
            assert(" tools="@ =~= sp + "tools"@ + eq);
            assert(finding_line(f) =~= join(w, sp));
        },
        KindView::DuplicateTool(tool, servers) => {
            lemma_join_fields(w[0], w[1], w[2], w[3], w[4], w[4], sp);
            assert(w =~= seq![w[0], w[1], w[2], w[3], w[4]]);
            assert(" kind=duplicate_tool severity="@ =~= sp + named("kind"@, "duplicate_tool"@) + sp
                + "severity"@ + eq);
            assert(" tool="@ =~= sp + "tool"@ + eq);
            assert(" servers="@ =~= sp + "servers"@ + eq);
            assert(finding_line(f) =~= join(w, sp));
        },
    }
}

proof fn lemma_written_fields(f: FindingView)
    ensures
        ({
            let w = written_fields(f);
            &&& forall|i: int|
                0 <= i < w.len() ==> is_whole(#[trigger] w[i], |c: char| is_white(c)) && w[i].len()
                    > 0
            &&& (after_equals(w[2]) == "error"@ <==> f.fatal)
            &&& listed(f.kind) != seq![Seq::<char>::empty()] ==> match f.kind {
                KindView::DeadGuard(server, pattern, tools) => after_equals(w[1]) == "dead_guard"@
                    && read_value(w[3]) == server && read_value(w[4]) == pattern && read_list(
                    after_equals(w[5]),
                ) == tools,
                KindView::DuplicateTool(tool, servers) => after_equals(w[1]) != "dead_guard"@
                    && read_value(w[3]) == tool && read_list(after_equals(w[4])) == servers,
            }
        }),
{
    reveal_strlit("ATOMA_CONFIG_FINDING:");
    reveal_strlit("kind");
    reveal_strlit("severity");
    reveal_strlit("server");
    reveal_strlit("pattern");
    reveal_strlit("tools");
    reveal_strlit("tool");
    reveal_strlit("servers");
    reveal_strlit("dead_guard");
    reveal_strlit("duplicate_tool");
    reveal_strlit("error");
    reveal_strlit("warn");
    let severity = if f.fatal { "error"@ } else { "warn"@ };
    lemma_named("severity"@, severity);
    lemma_list_decodes(listed(f.kind));
    match f.kind {
        KindView::DeadGuard(server, pattern, tools) => {
            lemma_value_decodes(server);
            lemma_value_decodes(pattern);
            lemma_named("kind"@, "dead_guard"@);
            lemma_named("server"@, field_text(server));
            lemma_named("pattern"@, field_text(pattern));
            lemma_named("tools"@, field_list_text(tools));
        },
        KindView::DuplicateTool(tool, servers) => {
            lemma_value_decodes(tool);
            lemma_named("kind"@, "duplicate_tool"@);
            lemma_named("tool"@, field_text(tool));
            lemma_named("servers"@, field_list_text(servers));
            assert("duplicate_tool"@.len() != "dead_guard"@.len());
        },
    }
}

/// A finding is one line, whatever characters its names hold: the only whitespace in it is the
/// spaces between its fields, of which a dead guard has six and a duplicate tool five, none of
/// them empty. Its verdict is read off it, and it does not depend on what is said to a person.
pub proof fn law_a_finding_is_one_line_of_fields(f: FindingView, message: Seq<char>)
    ensures
        forall|i: int|
            0 <= i < finding_line(f).len() && is_white(#[trigger] finding_line(f)[i])
                ==> finding_line(f)[i] == ' ',
        line_fields(finding_line(f)).len() == if f.kind is DeadGuard { 6int } else { 5 },
        forall|i: int|
            0 <= i < line_fields(finding_line(f)).len() ==> (#[trigger] line_fields(
                finding_line(f),
            )[i]).len() > 0,
        line_fields(finding_line(f))[0] == CONFIG_FINDING_LINE@,
        read_fatal(finding_line(f)) == f.fatal,
        finding_line(FindingView { message, ..f }) == finding_line(f),
{
    lemma_written_fields(f);
    lemma_line_is_its_fields(f);
    let w = written_fields(f);
    let white = |c: char| is_white(c);
    lemma_pieces_of_join(w, ' ', white);
    let other = |c: char| is_white(c) && c != ' ';
    assert forall|i: int| 0 <= i < w.len() implies is_whole(#[trigger] w[i], other) by {
        assert(is_whole(w[i], white));
        assert forall|j: int| 0 <= j < w[i].len() implies !other(#[trigger] w[i][j]) by {
            assert(!white(w[i][j]));
        }
    }
    lemma_join_whole(w, ' ', other);
    assert forall|i: int|
        0 <= i < finding_line(f).len() && is_white(
            #[trigger] finding_line(f)[i],
        ) implies finding_line(f)[i] == ' ' by {
        assert(!other(finding_line(f)[i]));
    }
}

/// What a finding is and every name in it can be read back from its line. The one list that a
/// line cannot tell from an empty one is that of a single empty name.
pub proof fn law_a_finding_reads_back(f: FindingView)
    requires
        listed(f.kind) != seq![Seq::<char>::empty()],
    ensures
        read_kind(finding_line(f)) == f.kind,
{
    lemma_written_fields(f);
    lemma_line_is_its_fields(f);
    lemma_pieces_of_join(written_fields(f), ' ', |c: char| is_white(c));
}

// ── Finding them ──────────────────────────────────────────────────────────────

/// What is said of a pattern that matches nothing.
pub open spec fn dead_guard(server: Seq<char>, pattern: Seq<char>, tools: Seq<Seq<char>>) -> FindingView {
    FindingView {
        fatal: false,
        message: "["@ + server + "] allow/deny pattern '"@ + pattern
            + "' matches none of this server's tools ("@ + join(tools, ", "@)
            + "). It is guarding nothing."@,
        kind: KindView::DeadGuard(server, pattern, tools),
    }
}

/// What is said of a name two servers claim.
pub open spec fn duplicate_tool(tool: Seq<char>, first: Seq<char>, second: Seq<char>) -> FindingView {
    FindingView {
        fatal: true,
        message: "Two servers offer a tool named '"@ + tool + "': '"@ + first + "' and '"@ + second
            + "'. A server with `unprefixed: true` gives its tools their own names, so two of them cannot offer the same one. Take the flag off one, or deny the tool on one."@,
        kind: KindView::DuplicateTool(tool, seq![first, second]),
    }
}

/// What has been found, and which server claims which name.
#[verifier::ext_equal]
pub struct Audit {
    pub found: Seq<FindingView>,
    pub claimed: Map<Seq<char>, Seq<char>>,
}

/// The audit after one more tool of a server: a tool the server denies is not a name it
/// claims, and a name claimed before is a clash.
pub open spec fn audit_tool(a: Audit, config: ToolDef, tool: Seq<char>) -> Audit {
    if denial(config.hooks, tool) is Some {
        a
    } else if a.claimed.contains_key(tool) {
        Audit {
            found: a.found.push(duplicate_tool(tool, a.claimed[tool], config.name@)),
            ..a
        }
    } else {
        Audit { claimed: a.claimed.insert(tool, config.name@), ..a }
    }
}

/// The audit after several tools of a server.
pub open spec fn audit_tools(a: Audit, config: ToolDef, tools: Seq<Seq<char>>) -> Audit
    decreases tools.len(),
{
    if tools.len() == 0 {
        a
    } else {
        audit_tool(audit_tools(a, config, tools.drop_last()), config, tools.last())
    }
}

/// What is said of a server's dead patterns.
pub open spec fn dead_patterns_of(config: ToolDef, tools: Seq<Seq<char>>) -> Seq<FindingView> {
    dead_patterns(config.hooks, tools).map_values(
        |p: Seq<char>| dead_guard(config.name@, p, tools),
    )
}

/// The audit after one more server: its dead patterns, then its tools.
pub open spec fn audit_server(a: Audit, config: ToolDef, tools: Seq<Seq<char>>) -> Audit {
    audit_tools(
        Audit { found: a.found + dead_patterns_of(config, tools), ..a },
        config,
        tools,
    )
}

/// The audit of the first `n` servers.
pub open spec fn audit(
    configs: Seq<ToolDef>,
    offered: Seq<(String, Vec<RegisteredTool>)>,
    n: nat,
) -> Audit
    decreases n,
{
    if n == 0 || n > configs.len() || n > offered.len() {
        Audit { found: Seq::empty(), claimed: Map::empty() }
    } else {
        audit_server(
            audit(configs, offered, (n - 1) as nat),
            configs[n - 1],
            prefixed_names(offered[n - 1].1@),
        )
    }
}

/// Those of several findings that are fatal, or that are not.
pub open spec fn with_fatality(found: Seq<FindingView>, fatal: bool) -> Seq<FindingView>
    decreases found.len(),
{
    if found.len() == 0 {
        Seq::empty()
    } else if found.last().fatal == fatal {
        with_fatality(found.drop_last(), fatal).push(found.last())
    } else {
        with_fatality(found.drop_last(), fatal)
    }
}

/// Findings with the fatal ones first, each in the order it was found.
pub open spec fn fatal_first(found: Seq<FindingView>) -> Seq<FindingView> {
    with_fatality(found, true) + with_fatality(found, false)
}

/// How many servers have both a definition and an answer.
pub open spec fn answered_servers(
    configs: Seq<ToolDef>,
    offered: Seq<(String, Vec<RegisteredTool>)>,
) -> nat {
    if configs.len() <= offered.len() {
        configs.len()
    } else {
        offered.len()
    }
}

/// What is wrong with servers that have said what they offer.
pub open spec fn all_findings(
    configs: Seq<ToolDef>,
    offered: Seq<(String, Vec<RegisteredTool>)>,
) -> Seq<FindingView> {
    fatal_first(audit(configs, offered, answered_servers(configs, offered)).found)
}

fn names_of(tools: &Vec<RegisteredTool>) -> (r: Vec<String>)
    ensures
        texts(r@) == prefixed_names(tools@),
{
    let mut out: Vec<String> = Vec::new();
    for i in 0..tools.len()
        invariant
            out@.len() == i,
            forall|j: int| 0 <= j < i ==> (#[trigger] out@[j])@ == tools@[j].prefixed_name@,
    {
        out.push(tools[i].prefixed_name.clone());
    }
    assert(texts(out@) =~= prefixed_names(tools@));
    out
}

fn make_dead_guard(server: &str, pattern: &str, tools: &Vec<String>) -> (r: Finding)
    ensures
        r@ == dead_guard(server@, pattern@, texts(tools@)),
{
    let mut message = "[".to_owned();
    message.append(server);
    message.append("] allow/deny pattern '");
    message.append(pattern);
    message.append("' matches none of this server's tools (");
    message.append(text::joined(tools, ", ").as_str());
    message.append("). It is guarding nothing.");
    Finding {
        fatal: false,
        message,
        kind: FindingKind::DeadGuard {
            server: server.to_owned(),
            pattern: pattern.to_owned(),
            tools: text::clone_all(tools),
        },
    }
}

fn make_duplicate_tool(tool: &str, first: &str, second: &str) -> (r: Finding)
    ensures
        r@ == duplicate_tool(tool@, first@, second@),
{
    let mut message = "Two servers offer a tool named '".to_owned();
    message.append(tool);
    message.append("': '");
    message.append(first);
    message.append("' and '");
    message.append(second);
    message.append(
        "'. A server with `unprefixed: true` gives its tools their own names, so two of them cannot offer the same one. Take the flag off one, or deny the tool on one.",
    );
    let mut servers: Vec<String> = Vec::new();
    servers.push(first.to_owned());
    servers.push(second.to_owned());
    assert(texts(servers@) =~= seq![first@, second@]);
    Finding {
        fatal: true,
        message,
        kind: FindingKind::DuplicateTool { tool: tool.to_owned(), servers },
    }
}

fn check_server(
    found: &mut Vec<Finding>,
    claimed: &mut Dict<String>,
    config: &ToolDef,
    tools: &Vec<RegisteredTool>,
)
    ensures
        (Audit { found: findings_view(final(found)@), claimed: final(claimed).texts() })
            == audit_server(
            Audit { found: findings_view(old(found)@), claimed: old(claimed).texts() },
            *config,
            prefixed_names(tools@),
        ),
{
    let names = names_of(tools);
    let ghost nv = texts(names@);
    let ghost start = Audit { found: findings_view(found@), claimed: claimed.texts() };
    let dead = unmatched_patterns(&config.hooks, &names);
    let ghost want = dead_patterns_of(*config, nv);
    assert(start.found + want.take(0) =~= start.found);
    for i in 0..dead.len()
        invariant
            nv == texts(names@),
            texts(dead@) == dead_patterns(config.hooks, nv),
            want == dead_patterns_of(*config, nv),
            findings_view(found@) == start.found + want.take(i as int),
            claimed.texts() == start.claimed,
    {
        let f = make_dead_guard(config.name.as_str(), dead[i].as_str(), &names);
        let ghost fv = f@;
        let ghost before = findings_view(found@);
        found.push(f);
        assert(texts(dead@)[i as int] == dead@[i as int]@);
        assert(fv == want[i as int]);
        assert(findings_view(found@) =~= before.push(fv));
        assert(findings_view(found@) =~= start.found + want.take(i + 1));
    }
    assert(want.take(want.len() as int) =~= want);
    let ghost mid = Audit { found: start.found + want, claimed: start.claimed };
    assert(audit_tools(mid, *config, nv.take(0)) =~= mid);
    for i in 0..names.len()
        invariant
            nv == texts(names@),
            (Audit { found: findings_view(found@), claimed: claimed.texts() }) == audit_tools(
                mid,
                *config,
                nv.take(i as int),
            ),
    {
        let ghost at = Audit { found: findings_view(found@), claimed: claimed.texts() };
        assert(nv.take(i + 1).drop_last() =~= nv.take(i as int));
        assert(nv.take(i + 1).last() == names@[i as int]@);
        let name = names[i].as_str();
        if access_denial_reason(&config.hooks, name).is_none() {
            let clash: Option<Finding> = match claimed.get_text(name) {
                Some(first) => Some(make_duplicate_tool(name, first, config.name.as_str())),
                None => None,
            };
            match clash {
                Some(f) => {
                    let ghost fv = f@;
                    found.push(f);
                    assert(findings_view(found@) =~= at.found.push(fv));
                },
                None => {
                    claimed.insert(names[i].clone(), config.name.clone());
                    assert(claimed.texts() =~= at.claimed.insert(names@[i as int]@, config.name@));
                },
            }
        }
        assert((Audit { found: findings_view(found@), claimed: claimed.texts() }) == audit_tool(
            at,
            *config,
            names@[i as int]@,
        ));
    }
    assert(nv.take(nv.len() as int) =~= nv);
}

fn sort_fatal_first(found: Vec<Finding>) -> (r: Vec<Finding>)
    ensures
        findings_view(r@) == fatal_first(findings_view(found@)),
{
    let ghost all = findings_view(found@);
    let mut fatal: Vec<Finding> = Vec::new();
    let mut rest: Vec<Finding> = Vec::new();
    let ghost items = found@;
    assert(findings_view(fatal@) =~= with_fatality(all.take(0), true));
    assert(findings_view(rest@) =~= with_fatality(all.take(0), false));
    for f in it: found.into_iter()
        invariant
            it.seq() == items,
            all == findings_view(items),
            findings_view(fatal@) == with_fatality(all.take(it.index() as int), true),
            findings_view(rest@) == with_fatality(all.take(it.index() as int), false),
    {
        let ghost i = it.index() as int;
        let ghost fv = f@;
        proof {
            assert(all.take(i + 1).drop_last() =~= all.take(i));
            assert(all.take(i + 1).last() == fv);
        }
        if f.fatal {
            let ghost before = findings_view(fatal@);
            fatal.push(f);
            assert(findings_view(fatal@) =~= before.push(fv));
        } else {
            let ghost before = findings_view(rest@);
            rest.push(f);
            assert(findings_view(rest@) =~= before.push(fv));
        }
    }
    assert(all.take(all.len() as int) =~= all);
    let mut out = fatal;
    let ghost head = findings_view(out@);
    let ghost tail = findings_view(rest@);
    out.append(&mut rest);
    assert(findings_view(out@) =~= head + tail);
    out
}

/// What these servers, having said what they have, are wrong about, the fatal first.
///
/// A pattern is dead because it matches nothing the server has, so it is held against every
/// tool; a tool a server denies is not a name it claims, so it is left out of the clashes.
pub fn findings(configs: &Vec<ToolDef>, offered: &Vec<(String, Vec<RegisteredTool>)>) -> (r: Vec<
    Finding,
>)
    ensures
        findings_view(r@) == all_findings(configs@, offered@),
{
    let n: usize = if configs.len() <= offered.len() {
        configs.len()
    } else {
        offered.len()
    };
    let mut found: Vec<Finding> = Vec::new();
    let mut claimed: Dict<String> = Dict::new();
    assert((Audit { found: findings_view(found@), claimed: claimed.texts() }) =~= audit(
        configs@,
        offered@,
        0,
    ));
    for i in 0..n
        invariant
            n <= configs@.len(),
            n <= offered@.len(),
            (Audit { found: findings_view(found@), claimed: claimed.texts() }) == audit(
                configs@,
                offered@,
                i as nat,
            ),
    {
        check_server(&mut found, &mut claimed, &configs[i], &offered[i].1);
    }
    sort_fatal_first(found)
}

// ── What a run does about them ────────────────────────────────────────────────

/// What a set of findings makes a run say, and then do: every line, then the prose, then the
/// refusal.
#[derive(Debug)]
pub struct FindingReport {
    /// One machine-readable line per finding, with whether the finding is fatal.
    pub lines: Vec<(bool, String)>,
    /// The prose a person reads, which stops at the first fatal finding.
    pub warnings: Vec<String>,
    /// What to fail with, or `None` to go on.
    pub refusal: Option<String>,
}

/// A line for a log, and whether it is an error rather than a warning.
#[derive(Debug, PartialEq)]
pub struct LogLine {
    pub error: bool,
    pub text: String,
}

/// What a line for a log says.
pub struct LogLineView {
    pub error: bool,
    pub text: Seq<char>,
}

impl View for LogLine {
    type V = LogLineView;

    open spec fn view(&self) -> LogLineView {
        LogLineView { error: self.error, text: self.text@ }
    }
}

/// What several lines for a log say.
pub open spec fn log_view(lines: Seq<LogLine>) -> Seq<LogLineView> {
    lines.map_values(|l: LogLine| l@)
}

/// What each line of a report says.
pub open spec fn lines_view(lines: Seq<(bool, String)>) -> Seq<(bool, Seq<char>)> {
    lines.map_values(|l: (bool, String)| (l.0, l.1@))
}

/// The line of each finding, with whether the finding is fatal.
pub open spec fn report_lines(found: Seq<FindingView>) -> Seq<(bool, Seq<char>)> {
    found.map_values(|f: FindingView| (f.fatal, finding_line(f)))
}

/// The prose of the findings before the first fatal one.
pub open spec fn report_warnings(found: Seq<FindingView>) -> Seq<Seq<char>>
    decreases found.len(),
{
    if found.len() == 0 || found[0].fatal {
        Seq::empty()
    } else {
        seq![found[0].message] + report_warnings(found.drop_first())
    }
}

/// The prose of the first fatal finding.
pub open spec fn first_fatal(found: Seq<FindingView>) -> Option<Seq<char>>
    decreases found.len(),
{
    if found.len() == 0 {
        None
    } else if found[0].fatal {
        Some(found[0].message)
    } else {
        first_fatal(found.drop_first())
    }
}

/// What a run fails with: the first fatal finding, or any finding at all where the caller asks
/// for that.
pub open spec fn report_refusal(found: Seq<FindingView>, fail_on_findings: bool) -> Option<
    Seq<char>,
> {
    match first_fatal(found) {
        Some(message) => Some(message),
        None => if fail_on_findings && found.len() > 0 {
            Some(
                decimal(found.len())
                    + " tool configuration finding(s), and --fail-on-tool-findings asks for a run to stop on them: "@
                    + join(report_warnings(found), " "@),
            )
        } else {
            None
        },
    }
}

/// Decide what a run says of its findings and what it does about them.
pub fn report_on(found: &Vec<Finding>, fail_on_findings: bool) -> (r: FindingReport)
    ensures
        lines_view(r.lines@) == report_lines(findings_view(found@)),
        texts(r.warnings@) == report_warnings(findings_view(found@)),
        opt_text(r.refusal) == report_refusal(findings_view(found@), fail_on_findings),
{
    let ghost all = findings_view(found@);
    let mut lines: Vec<(bool, String)> = Vec::new();
    for i in 0..found.len()
        invariant
            all == findings_view(found@),
            lines@.len() == i,
            forall|j: int|
                0 <= j < i ==> (#[trigger] lines@[j]).0 == all[j].fatal && lines@[j].1@
                    == finding_line(all[j]),
    {
        lines.push((found[i].fatal, found[i].machine_line()));
    }
    assert(lines_view(lines@) =~= report_lines(all));
    let mut warnings: Vec<String> = Vec::new();
    assert(all.skip(0) =~= all);
    assert(texts(warnings@) + report_warnings(all) =~= report_warnings(all));
    for i in 0..found.len()
        invariant
            all == findings_view(found@),
            lines_view(lines@) == report_lines(all),
            report_warnings(all) == texts(warnings@) + report_warnings(all.skip(i as int)),
            first_fatal(all) == first_fatal(all.skip(i as int)),
    {
        assert(all.skip(i as int)[0] == found@[i as int]@);
        assert(all.skip(i as int).drop_first() =~= all.skip(i + 1));
        if found[i].fatal {
            assert(texts(warnings@) + Seq::<Seq<char>>::empty() =~= texts(warnings@));
            return FindingReport { lines, warnings, refusal: Some(found[i].message.clone()) };
        }
        let ghost before = texts(warnings@);
        warnings.push(found[i].message.clone());
        assert(texts(warnings@) =~= before.push(found@[i as int].message@));
        assert(report_warnings(all) =~= texts(warnings@) + report_warnings(all.skip(i + 1)));
    }
    assert(texts(warnings@) + report_warnings(all.skip(all.len() as int)) =~= texts(warnings@));
    let mut refusal: Option<String> = None;
    if fail_on_findings && found.len() > 0 {
        let mut e = decimal_of(found.len() as u64);
        e.append(
            " tool configuration finding(s), and --fail-on-tool-findings asks for a run to stop on them: ",
        );
        e.append(text::joined(&warnings, " ").as_str());
        refusal = Some(e);
    }
    FindingReport { lines, warnings, refusal }
}

impl FindingReport {
    /// What the report puts into a log, in order: every line, at the level of its finding, and
    /// then the prose.
    pub open spec fn log(self) -> Seq<LogLineView> {
        self.lines@.map_values(|l: (bool, String)| LogLineView { error: l.0, text: l.1@ })
            + self.warnings@.map_values(|w: String| LogLineView { error: false, text: w@ })
    }

    /// All of it, in the order that matters: what to log, and then what to fail with.
    pub fn emit(self) -> (r: (Vec<LogLine>, Option<String>))
        ensures
            log_view(r.0@) == self.log(),
            r.1 == self.refusal,
    {
        let mut out: Vec<LogLine> = Vec::new();
        for i in 0..self.lines.len()
            invariant
                out@.len() == i,
                forall|j: int|
                    0 <= j < i ==> (#[trigger] out@[j])@ == (LogLineView {
                        error: self.lines@[j].0,
                        text: self.lines@[j].1@,
                    }),
        {
            out.push(LogLine { error: self.lines[i].0, text: self.lines[i].1.clone() });
        }
        let ghost head = self.lines@.map_values(
            |l: (bool, String)| LogLineView { error: l.0, text: l.1@ },
        );
        let ghost tail = self.warnings@.map_values(
            |w: String| LogLineView { error: false, text: w@ },
        );
        assert(log_view(out@) =~= head + tail.take(0));
        for i in 0..self.warnings.len()
            invariant
                tail == self.warnings@.map_values(
                    |w: String| LogLineView { error: false, text: w@ },
                ),
                log_view(out@) == head + tail.take(i as int),
        {
            let ghost before = log_view(out@);
            let line = LogLine { error: false, text: self.warnings[i].clone() };
            let ghost lv = line@;
            out.push(line);
            assert(log_view(out@) =~= before.push(lv));
            assert(log_view(out@) =~= head + tail.take(i + 1));
        }
        assert(tail.take(tail.len() as int) =~= tail);
        (out, self.refusal)
    }
}

/// The caller's policy changes what a run does about its findings and never what it says: and
/// a run with nothing wrong is refused by nobody.
pub proof fn law_the_flag_only_decides_the_refusal(found: Seq<FindingView>)
    ensures
        report_refusal(found, false) is Some ==> report_refusal(found, true) == report_refusal(
            found,
            false,
        ),
        report_refusal(found, false) is Some <==> first_fatal(found) is Some,
        report_refusal(found, true) is Some <==> found.len() > 0,
{
    if first_fatal(found) is Some {
        lemma_fatal_is_found(found);
    }
}

proof fn lemma_fatal_is_found(found: Seq<FindingView>)
    requires
        first_fatal(found) is Some,
    ensures
        found.len() > 0,
{
}

/// Every finding has its line, whatever the run then does, and the line states the verdict
/// about the configuration.
pub proof fn law_every_finding_has_its_line(found: Seq<FindingView>, i: int)
    requires
        0 <= i < found.len(),
    ensures
        report_lines(found).len() == found.len(),
        report_lines(found)[i] == (found[i].fatal, finding_line(found[i])),
{
}

pub proof fn lemma_with_fatality(found: Seq<FindingView>, fatal: bool)
    ensures
        forall|i: int|
            0 <= i < with_fatality(found, fatal).len() ==> (#[trigger] with_fatality(
                found,
                fatal,
            )[i]).fatal == fatal,
        with_fatality(found, true).len() + with_fatality(found, false).len() == found.len(),
    decreases found.len(),
{
    if found.len() > 0 {
        lemma_with_fatality(found.drop_last(), fatal);
    }
}

/// No finding is lost by the ordering, and none that is not fatal comes before one that is: a
/// caller that stops at the first stops at the worst.
pub proof fn law_fatal_findings_come_first(found: Seq<FindingView>, i: int, j: int)
    requires
        0 <= i < j < fatal_first(found).len(),
        fatal_first(found)[j].fatal,
    ensures
        fatal_first(found)[i].fatal,
        fatal_first(found).len() == found.len(),
{
    lemma_with_fatality(found, true);
    lemma_with_fatality(found, false);
    let n = with_fatality(found, true).len() as int;
    if j >= n {
        assert(!with_fatality(found, false)[j - n].fatal);
    }
    assert(with_fatality(found, true)[i].fatal);
}

// ── What an audit promises ────────────────────────────────────────────────────

/// A dead pattern is no reason to stop and says which pattern of which server it is and what it
/// was held against; a clash is one, and says which tool and which two servers, the first
/// first.
pub proof fn law_a_finding_says_what_it_is_about(
    server: Seq<char>,
    pattern: Seq<char>,
    tools: Seq<Seq<char>>,
    tool: Seq<char>,
    other: Seq<char>,
)
    ensures
        !dead_guard(server, pattern, tools).fatal,
        dead_guard(server, pattern, tools).kind == KindView::DeadGuard(server, pattern, tools),
        text::contains(dead_guard(server, pattern, tools).message, pattern),
        duplicate_tool(tool, server, other).fatal,
        duplicate_tool(tool, server, other).kind == KindView::DuplicateTool(
            tool,
            seq![server, other],
        ),
        text::contains(duplicate_tool(tool, server, other).message, tool),
{
    let a = "["@ + server + "] allow/deny pattern '"@;
    let b = "' matches none of this server's tools ("@ + join(tools, ", "@)
        + "). It is guarding nothing."@;
    assert(dead_guard(server, pattern, tools).message =~= a + pattern + b);
    text::law_what_occurs_is_a_part(a, pattern, b);
    let c = "Two servers offer a tool named '"@;
    let d = "': '"@ + server + "' and '"@ + other
        + "'. A server with `unprefixed: true` gives its tools their own names, so two of them cannot offer the same one. Take the flag off one, or deny the tool on one."@;
    assert(duplicate_tool(tool, server, other).message =~= c + tool + d);
    text::law_what_occurs_is_a_part(c, tool, d);
}

proof fn lemma_found_grows(a: Audit, config: ToolDef, tools: Seq<Seq<char>>, f: FindingView)
    requires
        a.found.contains(f),
    ensures
        audit_tools(a, config, tools).found.contains(f),
    decreases tools.len(),
{
    if tools.len() > 0 {
        lemma_found_grows(a, config, tools.drop_last(), f);
        let before = audit_tools(a, config, tools.drop_last()).found;
        let after = audit_tools(a, config, tools).found;
        let i = choose|i: int| 0 <= i < before.len() && before[i] == f;
        assert(after[i] == f);
    }
}

proof fn lemma_audit_finds_dead(
    configs: Seq<ToolDef>,
    offered: Seq<(String, Vec<RegisteredTool>)>,
    n: nat,
    s: int,
    p: Seq<char>,
)
    requires
        n <= configs.len(),
        n <= offered.len(),
        0 <= s < n,
        dead_patterns(configs[s].hooks, prefixed_names(offered[s].1@)).contains(p),
    ensures
        audit(configs, offered, n).found.contains(
            dead_guard(configs[s].name@, p, prefixed_names(offered[s].1@)),
        ),
    decreases n,
{
    let a = audit(configs, offered, (n - 1) as nat);
    let config = configs[n - 1];
    let names = prefixed_names(offered[n - 1].1@);
    let own = dead_patterns_of(config, names);
    let mid = Audit { found: a.found + own, ..a };
    let f = dead_guard(configs[s].name@, p, prefixed_names(offered[s].1@));
    if s < n - 1 {
        lemma_audit_finds_dead(configs, offered, (n - 1) as nat, s, p);
        let i = choose|i: int| 0 <= i < a.found.len() && a.found[i] == f;
        assert(mid.found[i] == f);
    } else {
        let dead = dead_patterns(config.hooks, names);
        let i = choose|i: int| 0 <= i < dead.len() && dead[i] == p;
        assert(own[i] == f);
        assert(mid.found[a.found.len() + i] == f);
    }
    lemma_found_grows(mid, config, names, f);
}

proof fn lemma_ordering_keeps(found: Seq<FindingView>, f: FindingView)
    ensures
        with_fatality(found, f.fatal).contains(f) <==> found.contains(f),
        !with_fatality(found, !f.fatal).contains(f),
    decreases found.len(),
{
    if found.len() > 0 {
        let most = found.drop_last();
        let last = found.last();
        lemma_ordering_keeps(most, f);
        assert(found.contains(f) <==> most.contains(f) || last == f) by {
            if found.contains(f) {
                let i = choose|i: int| 0 <= i < found.len() && found[i] == f;
                if i < most.len() {
                    assert(most[i] == f);
                }
            }
            if most.contains(f) {
                let i = choose|i: int| 0 <= i < most.len() && most[i] == f;
                assert(found[i] == f);
            }
            assert(found[most.len() as int] == last);
        }
        let before = with_fatality(most, last.fatal);
        let after = with_fatality(found, last.fatal);
        assert(after =~= before.push(last));
        assert(after.contains(f) <==> before.contains(f) || last == f) by {
            if after.contains(f) {
                let i = choose|i: int| 0 <= i < after.len() && after[i] == f;
                if i < before.len() {
                    assert(before[i] == f);
                }
            }
            if before.contains(f) {
                let i = choose|i: int| 0 <= i < before.len() && before[i] == f;
                assert(after[i] == f);
            }
            assert(after[before.len() as int] == last);
        }
    }
}

proof fn lemma_all_findings_keep(found: Seq<FindingView>, f: FindingView)
    ensures
        fatal_first(found).contains(f) <==> found.contains(f),
{
    lemma_ordering_keeps(found, f);
    let a = with_fatality(found, true);
    let b = with_fatality(found, false);
    let all = fatal_first(found);
    if all.contains(f) {
        let i = choose|i: int| 0 <= i < all.len() && all[i] == f;
        if i < a.len() {
            assert(a[i] == f);
        } else {
            assert(b[i - a.len()] == f);
        }
    }
    if a.contains(f) {
        let i = choose|i: int| 0 <= i < a.len() && a[i] == f;
        assert(all[i] == f);
    }
    if b.contains(f) {
        let i = choose|i: int| 0 <= i < b.len() && b[i] == f;
        assert(all[a.len() + i] == f);
    }
}

/// Putting the fatal findings first keeps every finding and adds none.
pub proof fn law_ordering_keeps_every_finding(found: Seq<FindingView>, f: FindingView)
    ensures
        fatal_first(found).contains(f) <==> found.contains(f),
        fatal_first(found).len() == found.len(),
{
    lemma_all_findings_keep(found, f);
    lemma_with_fatality(found, true);
}

/// Every pattern of a server's lists that matches none of its tools is found, and says so.
pub proof fn law_every_dead_pattern_is_found(
    configs: Seq<ToolDef>,
    offered: Seq<(String, Vec<RegisteredTool>)>,
    s: int,
    p: Seq<char>,
)
    requires
        0 <= s < answered_servers(configs, offered),
        texts(configs[s].hooks.tool_allowlist@).contains(p) || texts(
            configs[s].hooks.tool_denylist@,
        ).contains(p),
        forall|t: int|
            0 <= t < offered[s].1@.len() ==> !pattern_matches(
                p,
                (#[trigger] offered[s].1@[t]).prefixed_name@,
            ),
    ensures
        exists|i: int|
            0 <= i < all_findings(configs, offered).len() && (#[trigger] all_findings(
                configs,
                offered,
            )[i]).kind == KindView::DeadGuard(
                configs[s].name@,
                p,
                prefixed_names(offered[s].1@),
            ),
{
    let names = prefixed_names(offered[s].1@);
    assert forall|i: int| 0 <= i < names.len() implies !pattern_matches(p, #[trigger] names[i]) by {
        assert(names[i] == offered[s].1@[i].prefixed_name@);
    }
    law_a_dead_pattern_matches_no_tool(configs[s].hooks, names, p);
    let n = answered_servers(configs, offered);
    let f = dead_guard(configs[s].name@, p, names);
    lemma_audit_finds_dead(configs, offered, n, s, p);
    lemma_all_findings_keep(audit(configs, offered, n).found, f);
    let all = all_findings(configs, offered);
    let i = choose|i: int| 0 <= i < all.len() && all[i] == f;
    assert(all[i].kind == KindView::DeadGuard(configs[s].name@, p, names));
}

/// Whether a finding is true of these servers: a dead guard names a server, one of its patterns
/// and its tools, and the pattern matches none of them; a clash names a tool that a server
/// lists and does not deny.
pub open spec fn is_true_of(
    f: FindingView,
    configs: Seq<ToolDef>,
    offered: Seq<(String, Vec<RegisteredTool>)>,
    n: nat,
) -> bool {
    match f.kind {
        KindView::DeadGuard(server, pattern, tools) => !f.fatal && exists|s: int|
            0 <= s < n && (#[trigger] configs[s]).name@ == server && prefixed_names(
                offered[s].1@,
            ) == tools && dead_patterns(configs[s].hooks, tools).contains(pattern),
        KindView::DuplicateTool(tool, servers) => f.fatal && servers.len() == 2 && exists|s: int|
            0 <= s < n && (#[trigger] configs[s]).name@ == servers[1] && prefixed_names(
                offered[s].1@,
            ).contains(tool) && denial(configs[s].hooks, tool) is None,
    }
}

proof fn lemma_true_of_more(
    f: FindingView,
    configs: Seq<ToolDef>,
    offered: Seq<(String, Vec<RegisteredTool>)>,
    n: nat,
    m: nat,
)
    requires
        is_true_of(f, configs, offered, n),
        n <= m,
    ensures
        is_true_of(f, configs, offered, m),
{
    match f.kind {
        KindView::DeadGuard(server, pattern, tools) => {
            let s = choose|s: int|
                0 <= s < n && (#[trigger] configs[s]).name@ == server && prefixed_names(
                    offered[s].1@,
                ) == tools && dead_patterns(configs[s].hooks, tools).contains(pattern);
            assert(configs[s].name@ == server);
        },
        KindView::DuplicateTool(tool, servers) => {
            let s = choose|s: int|
                0 <= s < n && (#[trigger] configs[s]).name@ == servers[1] && prefixed_names(
                    offered[s].1@,
                ).contains(tool) && denial(configs[s].hooks, tool) is None;
            assert(configs[s].name@ == servers[1]);
        },
    }
}

proof fn lemma_tools_findings_are_true(
    a: Audit,
    configs: Seq<ToolDef>,
    offered: Seq<(String, Vec<RegisteredTool>)>,
    n: nat,
    k: int,
)
    requires
        0 < n <= configs.len(),
        n <= offered.len(),
        0 <= k <= offered[n - 1].1@.len(),
        forall|i: int|
            0 <= i < a.found.len() ==> is_true_of(#[trigger] a.found[i], configs, offered, n),
    ensures
        ({
            let b = audit_tools(
                a,
                configs[n - 1],
                prefixed_names(offered[n - 1].1@).take(k),
            );
            forall|i: int|
                0 <= i < b.found.len() ==> is_true_of(#[trigger] b.found[i], configs, offered, n)
        }),
    decreases k,
{
    let names = prefixed_names(offered[n - 1].1@);
    if k > 0 {
        lemma_tools_findings_are_true(a, configs, offered, n, k - 1);
        assert(names.take(k).drop_last() =~= names.take(k - 1));
        let m = audit_tools(a, configs[n - 1], names.take(k - 1));
        let b = audit_tools(a, configs[n - 1], names.take(k));
        let t = names[k - 1];
        assert(names.take(k).last() == t);
        assert forall|i: int| 0 <= i < b.found.len() implies is_true_of(
            #[trigger] b.found[i],
            configs,
            offered,
            n,
        ) by {
            if i < m.found.len() {
                assert(b.found[i] == m.found[i]);
            } else {
                let f = duplicate_tool(t, m.claimed[t], configs[n - 1].name@);
                assert(b.found[i] == f);
                let servers = seq![m.claimed[t], configs[n - 1].name@];
                assert(f.kind == KindView::DuplicateTool(t, servers));
                assert(configs[n - 1].name@ == servers[1]);
                assert(names.contains(t));
            }
        }
    } else {
        assert(audit_tools(a, configs[n - 1], names.take(0)) == a);
    }
}

proof fn lemma_findings_are_true(
    configs: Seq<ToolDef>,
    offered: Seq<(String, Vec<RegisteredTool>)>,
    n: nat,
)
    requires
        n <= configs.len(),
        n <= offered.len(),
    ensures
        forall|i: int|
            0 <= i < audit(configs, offered, n).found.len() ==> is_true_of(
                #[trigger] audit(configs, offered, n).found[i],
                configs,
                offered,
                n,
            ),
    decreases n,
{
    if n > 0 {
        lemma_findings_are_true(configs, offered, (n - 1) as nat);
        let a = audit(configs, offered, (n - 1) as nat);
        let config = configs[n - 1];
        let names = prefixed_names(offered[n - 1].1@);
        let own = dead_patterns_of(config, names);
        let mid = Audit { found: a.found + own, ..a };
        assert forall|i: int| 0 <= i < mid.found.len() implies is_true_of(
            #[trigger] mid.found[i],
            configs,
            offered,
            n,
        ) by {
            if i < a.found.len() {
                assert(mid.found[i] == a.found[i]);
                lemma_true_of_more(a.found[i], configs, offered, (n - 1) as nat, n);
            } else {
                let p = dead_patterns(config.hooks, names)[i - a.found.len()];
                let f = mid.found[i];
                assert(f == own[i - a.found.len()]);
                assert(f == dead_guard(config.name@, p, names));
                assert(dead_patterns(config.hooks, names).contains(p));
                assert(configs[n - 1].name@ == config.name@);
            }
        }
        lemma_tools_findings_are_true(mid, configs, offered, n, names.len() as int);
        assert(names.take(names.len() as int) =~= names);
    }
}

/// Nothing is found that is not so.
pub proof fn law_only_what_is_wrong_is_found(
    configs: Seq<ToolDef>,
    offered: Seq<(String, Vec<RegisteredTool>)>,
    i: int,
)
    requires
        0 <= i < all_findings(configs, offered).len(),
    ensures
        is_true_of(
            all_findings(configs, offered)[i],
            configs,
            offered,
            answered_servers(configs, offered),
        ),
{
    let n = answered_servers(configs, offered);
    let found = audit(configs, offered, n).found;
    lemma_findings_are_true(configs, offered, n);
    let f = all_findings(configs, offered)[i];
    assert(fatal_first(found).contains(f));
    lemma_all_findings_keep(found, f);
    let k = choose|k: int| 0 <= k < found.len() && found[k] == f;
    assert(is_true_of(found[k], configs, offered, n));
}

/// A run is told of every finding up to the first fatal one, in order, and is refused with that
/// one's own words.
pub proof fn law_a_run_is_refused_with_the_first_fatal_finding(found: Seq<FindingView>, k: int)
    requires
        0 <= k <= found.len(),
        forall|i: int| 0 <= i < k ==> !(#[trigger] found[i]).fatal,
        k < found.len() ==> found[k].fatal,
    ensures
        report_warnings(found).len() == k,
        forall|i: int| 0 <= i < k ==> #[trigger] report_warnings(found)[i] == found[i].message,
        k < found.len() ==> report_refusal(found, false) == Some(found[k].message)
            && report_refusal(found, true) == Some(found[k].message),
        k == found.len() ==> report_refusal(found, false) is None,
    decreases found.len(),
{
    if found.len() > 0 && k > 0 {
        let rest = found.drop_first();
        assert(!found[0].fatal);
        assert forall|i: int| 0 <= i < k - 1 implies !(#[trigger] rest[i]).fatal by {
            assert(rest[i] == found[i + 1]);
        }
        law_a_run_is_refused_with_the_first_fatal_finding(rest, k - 1);
        assert forall|i: int| 0 <= i < k implies #[trigger] report_warnings(found)[i]
            == found[i].message by {
            if i > 0 {
                assert(report_warnings(found)[i] == report_warnings(rest)[i - 1]);
                assert(rest[i - 1] == found[i]);
            }
        }
    }
}

/// A log has every line of a report, each as bad as its finding, and then all of the prose.
pub proof fn law_everything_is_logged(report: FindingReport, i: int)
    ensures
        report.log().len() == report.lines@.len() + report.warnings@.len(),
        0 <= i < report.lines@.len() ==> report.log()[i].error == report.lines@[i].0
            && report.log()[i].text == report.lines@[i].1@,
        0 <= i < report.warnings@.len() ==> !report.log()[report.lines@.len() + i].error
            && report.log()[report.lines@.len() + i].text == report.warnings@[i]@,
{
}

} // verus!
