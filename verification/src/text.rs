//! Text as sequences of characters: the operations the rest of the library is written in.
//!
//! Every function here has a specification over `Seq<char>`. Scanning is done on a
//! `Vec<char>`, where a position costs nothing to reach.
use vstd::prelude::*;

verus! {

/// `String::push`: the character is appended, and nothing else changes.
pub assume_specification[ String::push ](s: &mut String, c: char)
    ensures
        final(s)@ == old(s)@.push(c),
;

/// What each of several strings holds.
pub open spec fn texts(list: Seq<String>) -> Seq<Seq<char>> {
    list.map_values(|s: String| s@)
}

/// What an optional string holds.
pub open spec fn opt_text(s: Option<String>) -> Option<Seq<char>> {
    match s {
        Some(x) => Some(x@),
        None => None,
    }
}

/// What an optional borrowed string holds.
pub open spec fn opt_str(s: Option<&str>) -> Option<Seq<char>> {
    match s {
        Some(x) => Some(x@),
        None => None,
    }
}

/// A copy of an optional string.
pub fn clone_opt(s: &Option<String>) -> (r: Option<String>)
    ensures
        opt_text(r) == opt_text(*s),
{
    match s {
        Some(x) => Some(x.clone()),
        None => None,
    }
}

/// A copy of a list of strings.
pub fn clone_all(list: &Vec<String>) -> (r: Vec<String>)
    ensures
        texts(r@) == texts(list@),
{
    let mut out: Vec<String> = Vec::new();
    for i in 0..list.len()
        invariant
            texts(out@) == texts(list@).take(i as int),
    {
        let ghost before = out@;
        out.push(list[i].clone());
        assert(texts(out@) =~= texts(before).push(list@[i as int]@));
        assert(texts(list@).take(i as int + 1) =~= texts(list@).take(i as int).push(
            list@[i as int]@,
        ));
    }
    assert(texts(list@).take(list@.len() as int) =~= texts(list@));
    out
}

/// The characters of a string, in order.
pub fn chars_of(s: &str) -> (r: Vec<char>)
    ensures
        r@ == s@,
{
    let mut out: Vec<char> = Vec::new();
    for c in it: s.chars()
        invariant
            out@ == s@.take(it.index() as int),
            it.seq() == s@,
    {
        out.push(c);
    }
    assert(s@.take(s@.len() as int) == s@);
    out
}

/// The characters from `from` up to `to`, as a string.
pub fn slice(chars: &Vec<char>, from: usize, to: usize) -> (r: String)
    requires
        from <= to <= chars@.len(),
    ensures
        r@ == chars@.subrange(from as int, to as int),
{
    let mut out = String::new();
    let mut i: usize = from;
    while i < to
        invariant
            from <= i <= to <= chars@.len(),
            out@ == chars@.subrange(from as int, i as int),
        decreases to - i,
    {
        out.push(chars[i]);
        i += 1;
    }
    out
}

/// Whether two strings hold the same characters.
pub fn same(a: &str, b: &str) -> (r: bool)
    ensures
        r == (a@ == b@),
{
    let x = chars_of(a);
    let y = chars_of(b);
    if x.len() != y.len() {
        return false;
    }
    let mut i: usize = 0;
    while i < x.len()
        invariant
            i <= x@.len() == y@.len(),
            x@ == a@,
            y@ == b@,
            forall|j: int| 0 <= j < i ==> x@[j] == y@[j],
        decreases x@.len() - i,
    {
        if x[i] != y[i] {
            return false;
        }
        i += 1;
    }
    assert(a@ =~= b@);
    true
}

/// Whether a string holds nothing.
pub fn empty(s: &str) -> (r: bool)
    ensures
        r == (s@.len() == 0),
{
    chars_of(s).len() == 0
}

/// Whether a string is one of several.
pub fn one_of(list: &Vec<String>, s: &str) -> (r: bool)
    ensures
        r == texts(list@).contains(s@),
{
    for i in 0..list.len()
        invariant
            forall|j: int| 0 <= j < i ==> texts(list@)[j] != s@,
    {
        if same(list[i].as_str(), s) {
            assert(texts(list@)[i as int] == s@);
            return true;
        }
    }
    false
}

// ── Numbers as text ───────────────────────────────────────────────────────────

/// The digit for a number below ten.
pub open spec fn digit(d: nat) -> char {
    (48 + d) as u8 as char
}

/// A number in decimal, without leading zeros.
pub open spec fn decimal(n: nat) -> Seq<char>
    decreases n,
{
    if n < 10 {
        seq![digit(n)]
    } else {
        decimal(n / 10).push(digit(n % 10))
    }
}

/// A number in decimal.
pub fn decimal_of(n: u64) -> (r: String)
    ensures
        r@ == decimal(n as nat),
    decreases n,
{
    let d: u8 = (48 + n % 10) as u8;
    if n < 10 {
        let mut s = String::new();
        s.push(d as char);
        assert(s@ =~= decimal(n as nat));
        s
    } else {
        let mut s = decimal_of(n / 10);
        s.push(d as char);
        s
    }
}

// ── Whitespace ────────────────────────────────────────────────────────────────

/// Whether a character has the Unicode property `White_Space`.
pub open spec fn is_white(c: char) -> bool {
    ||| '\u{9}' <= c <= '\u{d}'
    ||| c == ' '
    ||| c == '\u{85}'
    ||| c == '\u{a0}'
    ||| c == '\u{1680}'
    ||| '\u{2000}' <= c <= '\u{200a}'
    ||| c == '\u{2028}'
    ||| c == '\u{2029}'
    ||| c == '\u{202f}'
    ||| c == '\u{205f}'
    ||| c == '\u{3000}'
}

/// Whether a character has the Unicode property `White_Space`.
pub fn white(c: char) -> (r: bool)
    ensures
        r == is_white(c),
{
    ('\u{9}' <= c && c <= '\u{d}') || c == ' ' || c == '\u{85}' || c == '\u{a0}' || c == '\u{1680}'
        || ('\u{2000}' <= c && c <= '\u{200a}') || c == '\u{2028}' || c == '\u{2029}'
        || c == '\u{202f}' || c == '\u{205f}' || c == '\u{3000}'
}

/// Text without its leading whitespace.
pub open spec fn trim_start(s: Seq<char>) -> Seq<char>
    decreases s.len(),
{
    if s.len() > 0 && is_white(s[0]) {
        trim_start(s.drop_first())
    } else {
        s
    }
}

/// Text without its trailing whitespace.
pub open spec fn trim_end(s: Seq<char>) -> Seq<char>
    decreases s.len(),
{
    if s.len() > 0 && is_white(s.last()) {
        trim_end(s.drop_last())
    } else {
        s
    }
}

/// Text without the whitespace around it.
pub open spec fn trim(s: Seq<char>) -> Seq<char> {
    trim_end(trim_start(s))
}

/// Text without the whitespace around it.
pub fn trimmed(s: &str) -> (r: String)
    ensures
        r@ == trim(s@),
{
    let chars = chars_of(s);
    let mut i: usize = 0;
    assert(chars@.skip(0) =~= s@);
    while i < chars.len() && white(chars[i])
        invariant
            i <= chars@.len(),
            chars@ == s@,
            trim_start(s@) == trim_start(chars@.skip(i as int)),
        decreases chars@.len() - i,
    {
        assert(chars@.skip(i as int).drop_first() =~= chars@.skip(i as int + 1));
        i += 1;
    }
    let mut j: usize = chars.len();
    while j > i && white(chars[j - 1])
        invariant
            i <= j <= chars@.len(),
            trim_end(chars@.skip(i as int)) == trim_end(chars@.subrange(i as int, j as int)),
        decreases j,
    {
        assert(chars@.subrange(i as int, j as int).drop_last() =~= chars@.subrange(
            i as int,
            j - 1,
        ));
        j -= 1;
    }
    assert(chars@.skip(i as int) =~= chars@.subrange(i as int, chars@.len() as int));
    slice(&chars, i, j)
}

/// Text without its trailing whitespace.
pub fn trimmed_end(s: &str) -> (r: String)
    ensures
        r@ == trim_end(s@),
{
    let chars = chars_of(s);
    let mut j: usize = chars.len();
    assert(chars@.subrange(0, chars@.len() as int) =~= s@);
    while j > 0 && white(chars[j - 1])
        invariant
            j <= chars@.len(),
            trim_end(s@) == trim_end(chars@.subrange(0, j as int)),
        decreases j,
    {
        assert(chars@.subrange(0, j as int).drop_last() =~= chars@.subrange(0, j - 1));
        j -= 1;
    }
    slice(&chars, 0, j)
}

/// Whether text is nothing but whitespace.
pub fn blank(s: &str) -> (r: bool)
    ensures
        r == (trim(s@).len() == 0),
{
    let t = trimmed(s);
    empty(t.as_str())
}

// ── Case ──────────────────────────────────────────────────────────────────────

/// A character in lower case, where it is an ASCII capital.
pub open spec fn lower(c: char) -> char {
    if 'A' <= c <= 'Z' {
        ((c as u8) + 32) as u8 as char
    } else {
        c
    }
}

/// Text with its ASCII capitals in lower case.
pub open spec fn lowercase(s: Seq<char>) -> Seq<char> {
    s.map_values(|c: char| lower(c))
}

/// Text with its ASCII capitals in lower case.
pub fn lowered(s: &str) -> (r: String)
    ensures
        r@ == lowercase(s@),
{
    let chars = chars_of(s);
    let mut out = String::new();
    assert(out@ =~= lowercase(s@).take(0));
    for i in 0..chars.len()
        invariant
            chars@ == s@,
            out@ == lowercase(s@).take(i as int),
    {
        let c: char = chars[i];
        let d: char = if 'A' <= c && c <= 'Z' {
            (c as u8 + 32) as char
        } else {
            c
        };
        out.push(d);
        assert(out@ =~= lowercase(s@).take(i + 1));
    }
    assert(lowercase(s@).take(s@.len() as int) =~= lowercase(s@));
    out
}

/// Whether a character is an ASCII letter or digit.
pub open spec fn is_alphanumeric(c: char) -> bool {
    'a' <= c <= 'z' || 'A' <= c <= 'Z' || '0' <= c <= '9'
}

/// Whether a character is an ASCII letter or digit.
pub fn alphanumeric(c: char) -> (r: bool)
    ensures
        r == is_alphanumeric(c),
{
    ('a' <= c && c <= 'z') || ('A' <= c && c <= 'Z') || ('0' <= c && c <= '9')
}

// ── Finding and replacing ─────────────────────────────────────────────────────

/// Whether `needle` stands at position `i`.
pub open spec fn occurs_at(hay: Seq<char>, needle: Seq<char>, i: int) -> bool {
    0 <= i && i + needle.len() <= hay.len() && hay.subrange(i, i + needle.len()) == needle
}

/// The first position from `from` on at which `needle` stands.
pub open spec fn find_from(hay: Seq<char>, needle: Seq<char>, from: int) -> Option<int>
    decreases hay.len() + 1 - from,
{
    if from + needle.len() > hay.len() {
        None
    } else if occurs_at(hay, needle, from) {
        Some(from)
    } else {
        find_from(hay, needle, from + 1)
    }
}

/// What a search reports is the first occurrence, and it reports one wherever there is one.
pub proof fn lemma_find_from(hay: Seq<char>, needle: Seq<char>, from: int)
    requires
        0 <= from,
    ensures
        match find_from(hay, needle, from) {
            Some(i) => from <= i && occurs_at(hay, needle, i) && forall|j: int|
                from <= j < i ==> !occurs_at(hay, needle, j),
            None => forall|j: int| from <= j ==> !occurs_at(hay, needle, j),
        },
    decreases hay.len() + 1 - from,
{
    if from + needle.len() <= hay.len() && !occurs_at(hay, needle, from) {
        lemma_find_from(hay, needle, from + 1);
    }
}

/// Whether `needle` stands at position `i`.
pub fn stands_at(hay: &Vec<char>, needle: &Vec<char>, i: usize) -> (r: bool)
    ensures
        r == occurs_at(hay@, needle@, i as int),
{
    if needle.len() > hay.len() || i > hay.len() - needle.len() {
        return false;
    }
    let end: usize = hay.len();
    for j in 0..needle.len()
        invariant
            i + needle@.len() <= hay@.len() == end,
            forall|k: int| 0 <= k < j ==> hay@[i + k] == needle@[k],
    {
        if hay[i + j] != needle[j] {
            assert(hay@.subrange(i as int, i + needle@.len())[j as int] != needle@[j as int]);
            return false;
        }
    }
    assert(hay@.subrange(i as int, i + needle@.len()) =~= needle@);
    true
}

/// The first position from `from` on at which `needle` stands.
pub fn find(hay: &Vec<char>, needle: &Vec<char>, from: usize) -> (r: Option<usize>)
    requires
        from <= hay@.len(),
    ensures
        match r {
            Some(i) => find_from(hay@, needle@, from as int) == Some(i as int) && from <= i && i
                + needle@.len() <= hay@.len(),
            None => find_from(hay@, needle@, from as int) is None,
        },
{
    let mut i: usize = from;
    while needle.len() <= hay.len() && i <= hay.len() - needle.len()
        invariant
            from <= i <= hay@.len() + 1,
            find_from(hay@, needle@, from as int) == find_from(hay@, needle@, i as int),
        decreases hay@.len() + 1 - i,
    {
        if stands_at(hay, needle, i) {
            return Some(i);
        }
        if i == hay.len() {
            assert(find_from(hay@, needle@, i + 1) is None);
            return None;
        }
        i += 1;
    }
    None
}

/// Whether `needle` occurs in `hay`.
pub open spec fn contains(hay: Seq<char>, needle: Seq<char>) -> bool {
    find_from(hay, needle, 0) is Some
}

/// Whether `needle` occurs in `hay`.
pub fn has(hay: &str, needle: &str) -> (r: bool)
    ensures
        r == contains(hay@, needle@),
{
    let h = chars_of(hay);
    let n = chars_of(needle);
    find(&h, &n, 0).is_some()
}

/// Whether `s` begins with `prefix`.
pub open spec fn starts_with(s: Seq<char>, prefix: Seq<char>) -> bool {
    occurs_at(s, prefix, 0)
}

/// Whether `s` begins with `prefix`.
pub fn begins(s: &str, prefix: &str) -> (r: bool)
    ensures
        r == starts_with(s@, prefix@),
{
    let h = chars_of(s);
    let n = chars_of(prefix);
    stands_at(&h, &n, 0)
}

/// What is left of `s` after `prefix`, where it begins so.
pub fn after_prefix(s: &str, prefix: &str) -> (r: Option<String>)
    ensures
        match r {
            Some(rest) => starts_with(s@, prefix@) && rest@ == s@.skip(prefix@.len() as int),
            None => !starts_with(s@, prefix@),
        },
{
    let h = chars_of(s);
    let n = chars_of(prefix);
    if stands_at(&h, &n, 0) {
        assert(h@.subrange(n@.len() as int, h@.len() as int) =~= s@.skip(prefix@.len() as int));
        Some(slice(&h, n.len(), h.len()))
    } else {
        None
    }
}

/// The text from `from` on with every occurrence of `needle` replaced, left to right and
/// without overlaps.
pub open spec fn replace_from(
    hay: Seq<char>,
    needle: Seq<char>,
    with: Seq<char>,
    from: int,
) -> Seq<char>
    decreases hay.len() - from,
{
    match find_from(hay, needle, from) {
        Some(i) if from <= i && needle.len() > 0 && i + needle.len() <= hay.len() => hay.subrange(from, i) + with
            + replace_from(hay, needle, with, i + needle.len()),
        _ => hay.skip(from),
    }
}

/// Text with every occurrence of `needle` replaced.
pub open spec fn replace(hay: Seq<char>, needle: Seq<char>, with: Seq<char>) -> Seq<char> {
    replace_from(hay, needle, with, 0)
}

/// Text with every occurrence of `needle` replaced.
pub fn replaced(hay: &str, needle: &str, with: &str) -> (r: String)
    requires
        needle@.len() > 0,
    ensures
        r@ == replace(hay@, needle@, with@),
{
    let h = chars_of(hay);
    let n = chars_of(needle);
    let mut out = String::new();
    let mut from: usize = 0;
    let end: usize = h.len();
    loop
        invariant
            from <= h@.len() == end,
            h@ == hay@,
            n@ == needle@,
            n@.len() > 0,
            replace(hay@, needle@, with@) == out@ + replace_from(h@, n@, with@, from as int),
        decreases h@.len() - from,
    {
        match find(&h, &n, from) {
            Some(i) => {
                let ghost before = out@;
                let piece = slice(&h, from, i);
                out.append(piece.as_str());
                out.append(with);
                proof {
                    let rest = replace_from(h@, n@, with@, i + n@.len());
                    assert(before + (h@.subrange(from as int, i as int) + with@ + rest) =~= out@
                        + rest);
                }
                from = i + n.len();
            },
            None => {
                let piece = slice(&h, from, h.len());
                out.append(piece.as_str());
                assert(h@.skip(from as int) =~= piece@);
                return out;
            },
        }
    }
}

// ── Lines ─────────────────────────────────────────────────────────────────────

/// A line without the carriage return that is part of its ending.
pub open spec fn without_return(line: Seq<char>) -> Seq<char> {
    if line.len() > 0 && line.last() == '\r' {
        line.drop_last()
    } else {
        line
    }
}

/// The lines of a text from `from` on, without their endings. The last needs none.
pub open spec fn lines_from(s: Seq<char>, from: int) -> Seq<Seq<char>>
    decreases s.len() - from,
{
    if from < 0 || from >= s.len() {
        Seq::empty()
    } else {
        match find_from(s, seq!['\n'], from) {
            Some(i) if from <= i < s.len() => seq![without_return(s.subrange(from, i))]
                + lines_from(s, i + 1),
            _ => seq![s.skip(from)],
        }
    }
}

/// The lines of a text, without their endings.
pub fn lines(s: &str) -> (r: Vec<String>)
    ensures
        texts(r@) == lines_from(s@, 0),
{
    let chars = chars_of(s);
    let end: usize = chars.len();
    let mut newline: Vec<char> = Vec::new();
    newline.push('\n');
    assert(newline@ =~= seq!['\n']);
    let mut out: Vec<String> = Vec::new();
    let mut from: usize = 0;
    assert(texts(out@) + lines_from(s@, 0) =~= lines_from(s@, 0));
    while from < end
        invariant
            chars@ == s@,
            from <= end == chars@.len(),
            newline@ == seq!['\n'],
            lines_from(s@, 0) == texts(out@) + lines_from(s@, from as int),
        decreases end - from,
    {
        let ghost before = texts(out@);
        match find(&chars, &newline, from) {
            Some(i) => {
                let stop: usize = if i > from && chars[i - 1] == '\r' {
                    i - 1
                } else {
                    i
                };
                let line = slice(&chars, from, stop);
                let ghost lv = line@;
                proof {
                    let whole = chars@.subrange(from as int, i as int);
                    assert(lv =~= without_return(whole));
                }
                out.push(line);
                assert(texts(out@) =~= before.push(lv));
                assert(before + (seq![lv] + lines_from(s@, i + 1)) =~= texts(out@) + lines_from(
                    s@,
                    i + 1,
                ));
                from = i + 1;
            },
            None => {
                let line = slice(&chars, from, end);
                let ghost lv = line@;
                assert(lv =~= s@.skip(from as int));
                out.push(line);
                assert(texts(out@) =~= before.push(lv));
                assert(before + seq![lv] =~= texts(out@));
                return out;
            },
        }
    }
    assert(texts(out@) + Seq::<Seq<char>>::empty() =~= texts(out@));
    out
}

// ── Lists of text ─────────────────────────────────────────────────────────────

/// What a list of named texts holds.
pub open spec fn pairs(list: Seq<(String, String)>) -> Seq<(Seq<char>, Seq<char>)> {
    list.map_values(|p: (String, String)| (p.0@, p.1@))
}

/// Several texts with `sep` between them.
pub open spec fn join(parts: Seq<Seq<char>>, sep: Seq<char>) -> Seq<char>
    decreases parts.len(),
{
    if parts.len() == 0 {
        Seq::empty()
    } else if parts.len() == 1 {
        parts[0]
    } else {
        join(parts.drop_last(), sep) + sep + parts.last()
    }
}

/// Several texts with `sep` between them.
pub fn joined(parts: &Vec<String>, sep: &str) -> (r: String)
    ensures
        r@ == join(texts(parts@), sep@),
{
    let mut out = String::new();
    for i in 0..parts.len()
        invariant
            out@ == join(texts(parts@).take(i as int), sep@),
    {
        proof {
            let all = texts(parts@);
            assert(all.take(i as int + 1).drop_last() =~= all.take(i as int));
            assert(all.take(i as int + 1).last() == parts@[i as int]@);
        }
        if i > 0 {
            out.append(sep);
        }
        let ghost before = out@;
        out.append(parts[i].as_str());
        assert(i == 0 ==> out@ =~= parts@[0]@);
    }
    assert(texts(parts@).take(parts@.len() as int) =~= texts(parts@));
    out
}

/// Whether `a` comes no later than `b` in the order of their characters.
pub open spec fn lex_le(a: Seq<char>, b: Seq<char>) -> bool
    decreases a.len(),
{
    ||| a.len() == 0
    ||| b.len() > 0 && a[0] < b[0]
    ||| b.len() > 0 && a[0] == b[0] && lex_le(a.drop_first(), b.drop_first())
}

/// The order of texts is total.
pub proof fn lemma_lex_total(a: Seq<char>, b: Seq<char>)
    ensures
        lex_le(a, b) || lex_le(b, a),
        lex_le(a, b) && lex_le(b, a) ==> a == b,
        lex_le(a, a),
    decreases a.len(),
{
    if a.len() > 0 {
        lemma_lex_total(a.drop_first(), a.drop_first());
    }
    if a.len() > 0 && b.len() > 0 && a[0] == b[0] {
        lemma_lex_total(a.drop_first(), b.drop_first());
        if lex_le(a, b) && lex_le(b, a) {
            assert(a =~= seq![a[0]] + a.drop_first());
            assert(b =~= seq![b[0]] + b.drop_first());
        }
    } else if a.len() == 0 && b.len() == 0 {
        assert(a =~= b);
    }
}

/// The order of texts is transitive.
pub proof fn lemma_lex_trans(a: Seq<char>, b: Seq<char>, c: Seq<char>)
    requires
        lex_le(a, b),
        lex_le(b, c),
    ensures
        lex_le(a, c),
    decreases a.len(),
{
    if a.len() > 0 && a[0] == b[0] && b[0] == c[0] {
        lemma_lex_trans(a.drop_first(), b.drop_first(), c.drop_first());
    }
}

/// Whether `a` comes no later than `b`.
pub fn ordered(a: &str, b: &str) -> (r: bool)
    ensures
        r == lex_le(a@, b@),
{
    let x = chars_of(a);
    let y = chars_of(b);
    let mut i: usize = 0;
    assert(x@.skip(0) =~= a@);
    assert(y@.skip(0) =~= b@);
    while i < x.len()
        invariant
            i <= x@.len(),
            i <= y@.len(),
            x@ == a@,
            y@ == b@,
            lex_le(a@, b@) == lex_le(x@.skip(i as int), y@.skip(i as int)),
        decreases x@.len() - i,
    {
        if i >= y.len() {
            return false;
        }
        if x[i] < y[i] {
            return true;
        }
        if x[i] != y[i] {
            return false;
        }
        assert(x@.skip(i as int).drop_first() =~= x@.skip(i as int + 1));
        assert(y@.skip(i as int).drop_first() =~= y@.skip(i as int + 1));
        i += 1;
    }
    true
}

/// A text put into a sorted list, after those that come no later.
pub open spec fn insert_text(s: Seq<Seq<char>>, x: Seq<char>) -> Seq<Seq<char>>
    decreases s.len(),
{
    if s.len() == 0 || lex_le(s.last(), x) {
        s.push(x)
    } else {
        insert_text(s.drop_last(), x).push(s.last())
    }
}

/// A list of texts in order.
pub open spec fn sort_texts(s: Seq<Seq<char>>) -> Seq<Seq<char>>
    decreases s.len(),
{
    if s.len() == 0 {
        s
    } else {
        insert_text(sort_texts(s.drop_last()), s.last())
    }
}

/// Whether a list of texts is in order.
pub open spec fn is_sorted(s: Seq<Seq<char>>) -> bool {
    forall|i: int, j: int| 0 <= i < j < s.len() ==> lex_le(#[trigger] s[i], #[trigger] s[j])
}

proof fn lemma_insert_text(s: Seq<Seq<char>>, x: Seq<char>)
    requires
        is_sorted(s),
    ensures
        is_sorted(insert_text(s, x)),
        insert_text(s, x).to_multiset() == s.to_multiset().insert(x),
        insert_text(s, x).len() == s.len() + 1,
        forall|y: Seq<char>| #[trigger]
            insert_text(s, x).contains(y) <==> s.contains(y) || y == x,
    decreases s.len(),
{
    broadcast use vstd::seq_lib::group_to_multiset_ensures;

    let r = insert_text(s, x);
    if s.len() == 0 || lex_le(s.last(), x) {
        assert forall|i: int, j: int| 0 <= i < j < r.len() implies lex_le(
            #[trigger] r[i],
            #[trigger] r[j],
        ) by {
            if j == s.len() {
                if i < s.len() - 1 {
                    lemma_lex_trans(s[i], s.last(), x);
                }
            }
        }
        assert forall|y: Seq<char>| #[trigger] r.contains(y) <==> s.contains(y) || y == x by {
            if s.contains(y) {
                let k = choose|k: int| 0 <= k < s.len() && s[k] == y;
                assert(r[k] == y);
            }
            assert(r[s.len() as int] == x);
        }
    } else {
        let t = s.drop_last();
        let q = insert_text(t, x);
        lemma_insert_text(t, x);
        lemma_lex_total(s.last(), x);
        assert(s =~= t.push(s.last()));
        assert forall|i: int, j: int| 0 <= i < j < r.len() implies lex_le(
            #[trigger] r[i],
            #[trigger] r[j],
        ) by {
            if j == q.len() {
                assert(q.contains(q[i]));
                if t.contains(q[i]) {
                    let k = choose|k: int| 0 <= k < t.len() && t[k] == q[i];
                    assert(s[k] == q[i]);
                }
            }
        }
        assert(r.to_multiset() =~= s.to_multiset().insert(x));
        assert forall|y: Seq<char>| #[trigger] r.contains(y) <==> s.contains(y) || y == x by {
            if r.contains(y) {
                let k = choose|k: int| 0 <= k < r.len() && r[k] == y;
                if k < q.len() {
                    assert(q.contains(y));
                    if t.contains(y) {
                        let m = choose|m: int| 0 <= m < t.len() && t[m] == y;
                        assert(s[m] == y);
                    }
                } else {
                    assert(s[s.len() - 1] == y);
                }
            }
            if s.contains(y) || y == x {
                if s.contains(y) {
                    let k = choose|k: int| 0 <= k < s.len() && s[k] == y;
                    if k < t.len() {
                        assert(t[k] == y);
                    } else {
                        assert(r[q.len() as int] == y);
                    }
                }
                if y == x || t.contains(y) {
                    assert(q.contains(y));
                    let k = choose|k: int| 0 <= k < q.len() && q[k] == y;
                    assert(r[k] == y);
                }
            }
        }
    }
}

/// Sorting puts the same texts in order.
pub proof fn lemma_sort_texts(s: Seq<Seq<char>>)
    ensures
        is_sorted(sort_texts(s)),
        sort_texts(s).to_multiset() == s.to_multiset(),
        sort_texts(s).len() == s.len(),
        forall|y: Seq<char>| #[trigger] sort_texts(s).contains(y) <==> s.contains(y),
    decreases s.len(),
{
    broadcast use vstd::seq_lib::group_to_multiset_ensures;

    if s.len() > 0 {
        let t = s.drop_last();
        lemma_sort_texts(t);
        lemma_insert_text(sort_texts(t), s.last());
        assert(s =~= t.push(s.last()));
        assert forall|y: Seq<char>| #[trigger] sort_texts(s).contains(y) <==> s.contains(y) by {
            if s.contains(y) {
                let k = choose|k: int| 0 <= k < s.len() && s[k] == y;
                if k < t.len() {
                    assert(t[k] == y);
                }
            }
            if t.contains(y) {
                let k = choose|k: int| 0 <= k < t.len() && t[k] == y;
                assert(s[k] == y);
            }
            assert(s[s.len() - 1] == s.last());
        }
    }
}

/// Two lists of the same texts are the same once sorted, whatever order they came in.
pub proof fn lemma_sort_order_independent(a: Seq<Seq<char>>, b: Seq<Seq<char>>)
    requires
        a.to_multiset() == b.to_multiset(),
    ensures
        sort_texts(a) == sort_texts(b),
{
    let leq = |x: Seq<char>, y: Seq<char>| lex_le(x, y);
    lemma_sort_texts(a);
    lemma_sort_texts(b);
    assert(vstd::relations::total_ordering(leq)) by {
        assert forall|x: Seq<char>| #[trigger] leq(x, x) by {
            lemma_lex_total(x, x);
        }
        assert forall|x: Seq<char>, y: Seq<char>| #[trigger] leq(x, y) && #[trigger] leq(y, x) implies x == y by {
            lemma_lex_total(x, y);
        }
        assert forall|x: Seq<char>, y: Seq<char>, z: Seq<char>| #[trigger]
            leq(x, y) && #[trigger] leq(y, z) implies leq(x, z) by {
            lemma_lex_trans(x, y, z);
        }
        assert forall|x: Seq<char>, y: Seq<char>| #[trigger] leq(x, y) || #[trigger] leq(y, x) by {
            lemma_lex_total(x, y);
        }
    }
    vstd::seq_lib::lemma_sorted_unique(sort_texts(a), sort_texts(b), leq);
}

/// Where a text goes in a list: after what comes no later, before the rest.
proof fn lemma_insert_at(s: Seq<Seq<char>>, x: Seq<char>, i: int)
    requires
        0 <= i <= s.len(),
        i > 0 ==> lex_le(s[i - 1], x),
        forall|j: int| i <= j < s.len() ==> !lex_le(#[trigger] s[j], x),
    ensures
        insert_text(s, x) == s.insert(i, x),
    decreases s.len(),
{
    if i < s.len() {
        assert(!lex_le(s[s.len() - 1], x));
        lemma_insert_at(s.drop_last(), x, i);
        assert(s.drop_last().insert(i, x).push(s.last()) =~= s.insert(i, x));
    } else {
        assert(s.push(x) =~= s.insert(i, x));
    }
}

/// A list of strings in order.
pub fn sorted(list: &Vec<String>) -> (r: Vec<String>)
    ensures
        texts(r@) == sort_texts(texts(list@)),
{
    let mut out: Vec<String> = Vec::new();
    for k in 0..list.len()
        invariant
            texts(out@) == sort_texts(texts(list@).take(k as int)),
    {
        let mut i: usize = out.len();
        while i > 0 && !ordered(out[i - 1].as_str(), list[k].as_str())
            invariant
                i <= out@.len(),
                k < list@.len(),
                forall|j: int| i <= j < out@.len() ==> !lex_le(#[trigger] texts(out@)[j], list@[k as int]@),
            decreases i,
        {
            i -= 1;
        }
        proof {
            let all = texts(list@);
            assert(all.take(k as int + 1).drop_last() =~= all.take(k as int));
            assert(all.take(k as int + 1).last() == list@[k as int]@);
            if i > 0 {
                assert(texts(out@)[i - 1] == out@[i - 1]@);
            }
            lemma_insert_at(texts(out@), list@[k as int]@, i as int);
        }
        let ghost before = out@;
        out.insert(i, list[k].clone());
        assert(texts(out@) =~= texts(before).insert(i as int, list@[k as int]@));
    }
    assert(texts(list@).take(list@.len() as int) =~= texts(list@));
    out
}

// ── What these promise ────────────────────────────────────────────────────────

/// How long several texts are together.
pub open spec fn total_len(parts: Seq<Seq<char>>) -> nat
    decreases parts.len(),
{
    if parts.len() == 0 {
        0
    } else {
        total_len(parts.drop_last()) + parts.last().len()
    }
}

proof fn lemma_total_len_step(parts: Seq<Seq<char>>, i: int)
    requires
        0 <= i < parts.len(),
    ensures
        total_len(parts.take(i + 1)) == total_len(parts.take(i)) + parts[i].len(),
{
    assert(parts.take(i + 1).drop_last() =~= parts.take(i));
}

/// Joined texts are all there, in their order and apart: each stands whole behind those before
/// it, with the separator in front of all but the first, and there is nothing else.
pub proof fn law_joined_parts_stand_in_their_order(parts: Seq<Seq<char>>, sep: Seq<char>, i: int)
    requires
        0 <= i < parts.len(),
    ensures
        join(parts, sep).len() == total_len(parts) + (parts.len() - 1) * sep.len(),
        ({
            let at = total_len(parts.take(i)) + i * sep.len();
            &&& 0 <= at
            &&& at + parts[i].len() <= join(parts, sep).len()
            &&& join(parts, sep).subrange(at, at + parts[i].len()) == parts[i]
            &&& i > 0 ==> at >= sep.len() && join(parts, sep).subrange(at - sep.len(), at) == sep
        }),
    decreases parts.len(),
{
    let most = parts.drop_last();
    let all = join(parts, sep);
    let n = parts.len() as int;
    if n == 1 {
        assert(parts.take(0).len() == 0);
        assert(total_len(most) == 0) by {
            assert(most.len() == 0);
        }
        assert(all.subrange(0, parts[0].len() as int) =~= parts[0]);
    } else {
        law_joined_parts_stand_in_their_order(
            most,
            sep,
            if i < n - 1 {
                i
            } else {
                0
            },
        );
        assert((n - 1) * sep.len() == (n - 2) * sep.len() + sep.len()) by (nonlinear_arith);
        assert(parts.take(n - 1) =~= most);
        let head = join(most, sep);
        if i < n - 1 {
            assert(parts.take(i) =~= most.take(i));
            let at = total_len(parts.take(i)) + i * sep.len();
            assert(all.subrange(at, at + parts[i].len()) =~= head.subrange(
                at,
                at + parts[i].len(),
            ));
            if i > 0 {
                assert(all.subrange(at - sep.len(), at) =~= head.subrange(at - sep.len(), at));
            }
        } else {
            let at = total_len(parts.take(i)) + i * sep.len();
            assert(at == head.len() + sep.len());
            assert(all.subrange(at, at + parts[i].len()) =~= parts[i]);
            assert(all.subrange(at - sep.len(), at) =~= sep);
        }
    }
}

/// What a number in decimal stands for.
pub open spec fn number_in(s: Seq<char>) -> int
    decreases s.len(),
{
    if s.len() == 0 {
        0
    } else {
        number_in(s.drop_last()) * 10 + (s.last() as u32 - 48)
    }
}

/// A number in decimal reads back as that number, in digits alone, of which the first is no
/// zero unless it is the only one.
pub proof fn law_a_number_reads_back(n: nat)
    ensures
        number_in(decimal(n)) == n,
        decimal(n).len() > 0,
        n >= 10 ==> decimal(n).len() > 1,
        decimal(n).len() > 1 ==> decimal(n)[0] != '0',
        forall|i: int| 0 <= i < decimal(n).len() ==> '0' <= #[trigger] decimal(n)[i] <= '9',
    decreases n,
{
    if n < 10 {
        let s = decimal(n);
        assert(s.drop_last() =~= Seq::<char>::empty());
        assert(number_in(s.drop_last()) == 0);
        assert(s.last() as u32 == 48 + n);
    } else {
        let s = decimal(n);
        law_a_number_reads_back(n / 10);
        assert(s.drop_last() =~= decimal(n / 10));
        assert(s.last() as u32 == 48 + n % 10);
        assert(s[0] == decimal(n / 10)[0]);
        if n / 10 < 10 {
            assert(decimal(n / 10)[0] as u32 == 48 + n / 10);
            assert('0' as u32 == 48);
        }
        assert forall|i: int| 0 <= i < s.len() implies '0' <= #[trigger] s[i] <= '9' by {
            if i < s.len() - 1 {
                assert(s[i] == decimal(n / 10)[i]);
            }
        }
    }
}

/// Whether every character is whitespace.
pub open spec fn all_white(s: Seq<char>) -> bool {
    forall|i: int| 0 <= i < s.len() ==> is_white(#[trigger] s[i])
}

proof fn lemma_trim_end(s: Seq<char>)
    ensures
        trim_end(s).len() <= s.len(),
        trim_end(s) == s.take(trim_end(s).len() as int),
        all_white(s.skip(trim_end(s).len() as int)),
        trim_end(s).len() > 0 ==> !is_white(trim_end(s).last()),
    decreases s.len(),
{
    if s.len() > 0 && is_white(s.last()) {
        let most = s.drop_last();
        lemma_trim_end(most);
        let k = trim_end(most).len() as int;
        assert(most.take(k) =~= s.take(k));
        assert forall|i: int| 0 <= i < s.skip(k).len() implies is_white(#[trigger] s.skip(k)[i]) by {
            if i < s.skip(k).len() - 1 {
                assert(most.skip(k)[i] == s.skip(k)[i]);
            }
        }
    } else {
        assert(s.take(s.len() as int) =~= s);
    }
}

proof fn lemma_trim_start(s: Seq<char>)
    ensures
        trim_start(s).len() <= s.len(),
        trim_start(s) == s.skip(s.len() - trim_start(s).len()),
        all_white(s.take(s.len() - trim_start(s).len())),
        trim_start(s).len() > 0 ==> !is_white(trim_start(s)[0]),
    decreases s.len(),
{
    if s.len() > 0 && is_white(s[0]) {
        let rest = s.drop_first();
        lemma_trim_start(rest);
        let k = s.len() - trim_start(s).len();
        assert(rest.skip(k - 1) =~= s.skip(k));
        assert forall|i: int| 0 <= i < s.take(k).len() implies is_white(#[trigger] s.take(k)[i]) by {
            if i > 0 {
                assert(rest.take(k - 1)[i - 1] == s.take(k)[i]);
            }
        }
    } else {
        assert(s.skip(0) =~= s);
    }
}

/// Trimming takes whitespace off both ends, all of it, and nothing else.
pub proof fn law_trimming_takes_only_whitespace(s: Seq<char>)
    ensures
        exists|a: int, b: int|
            0 <= a <= b <= s.len() && trim(s) == #[trigger] s.subrange(a, b) && all_white(s.take(a))
                && all_white(s.skip(b)),
        trim(s).len() > 0 ==> !is_white(trim(s)[0]) && !is_white(trim(s).last()),
        trim_end(s) == s.take(trim_end(s).len() as int),
        all_white(s.skip(trim_end(s).len() as int)),
        trim_end(s).len() > 0 ==> !is_white(trim_end(s).last()),
{
    lemma_trim_end(s);
    lemma_trim_start(s);
    let t = trim_start(s);
    lemma_trim_end(t);
    let a = s.len() - t.len();
    let b = a + trim(s).len();
    assert(trim(s) =~= s.subrange(a, b));
    assert(s.skip(b) =~= t.skip(trim(s).len() as int));
}

/// A text begins with another where its first characters are that text.
pub proof fn law_a_beginning_is_the_first_characters(s: Seq<char>, prefix: Seq<char>)
    ensures
        starts_with(s, prefix) <==> prefix.len() <= s.len() && s.take(prefix.len() as int)
            == prefix,
        starts_with(prefix + s, prefix),
{
    if prefix.len() <= s.len() {
        assert(s.subrange(0, prefix.len() as int) =~= s.take(prefix.len() as int));
    }
    assert((prefix + s).subrange(0, prefix.len() as int) =~= prefix);
}

/// A text occurs in another exactly where the other is something, the text, and something.
pub proof fn law_what_occurs_is_a_part(before: Seq<char>, needle: Seq<char>, after: Seq<char>)
    ensures
        contains(before + needle + after, needle),
        contains(before, needle) <==> exists|i: int| occurs_at(before, needle, i),
{
    let hay = before + needle + after;
    assert(hay.subrange(before.len() as int, before.len() as int + needle.len()) =~= needle);
    assert(occurs_at(hay, needle, before.len() as int));
    lemma_find_from(hay, needle, 0);
    lemma_find_from(before, needle, 0);
}

proof fn lemma_occurs_in_rest(hay: Seq<char>, needle: Seq<char>, from: int, i: int)
    requires
        0 <= from <= hay.len(),
        from <= i,
    ensures
        occurs_at(hay, needle, i) == occurs_at(hay.skip(from), needle, i - from),
{
    if i + needle.len() <= hay.len() {
        assert(hay.subrange(i, i + needle.len()) =~= hay.skip(from).subrange(
            i - from,
            i - from + needle.len(),
        ));
    }
}

/// Searching from a position on finds what searching the rest of the text finds.
pub proof fn lemma_find_in_rest(hay: Seq<char>, needle: Seq<char>, from: int, at: int)
    requires
        0 <= from <= at,
        from <= hay.len(),
    ensures
        find_from(hay, needle, at) == match find_from(hay.skip(from), needle, at - from) {
            Some(i) => Some(i + from),
            None => None,
        },
    decreases hay.len() + 1 - at,
{
    lemma_occurs_in_rest(hay, needle, from, at);
    if at + needle.len() <= hay.len() && !occurs_at(hay, needle, at) {
        lemma_find_in_rest(hay, needle, from, at + 1);
    }
}

proof fn lemma_replace_rest(hay: Seq<char>, needle: Seq<char>, with: Seq<char>, base: int, from: int)
    requires
        0 <= base <= from <= hay.len(),
        needle.len() > 0,
    ensures
        replace_from(hay, needle, with, from) == replace_from(
            hay.skip(base),
            needle,
            with,
            from - base,
        ),
    decreases hay.len() - from,
{
    lemma_find_in_rest(hay, needle, base, from);
    lemma_find_from(hay, needle, from);
    match find_from(hay, needle, from) {
        Some(i) => {
            lemma_replace_rest(hay, needle, with, base, i + needle.len());
            assert(hay.skip(base).subrange(from - base, i - base) =~= hay.subrange(from, i));
        },
        None => {
            assert(hay.skip(base).skip(from - base) =~= hay.skip(from));
        },
    }
}

/// Replacing leaves a text alone in which there is nothing to replace, and else puts the new
/// text in place of the first occurrence, keeps what stands before it, and goes on behind it.
pub proof fn law_every_occurrence_is_replaced_and_nothing_else(
    hay: Seq<char>,
    needle: Seq<char>,
    with: Seq<char>,
    i: int,
)
    requires
        needle.len() > 0,
    ensures
        (forall|j: int| !occurs_at(hay, needle, j)) ==> replace(hay, needle, with) == hay,
        occurs_at(hay, needle, i) && (forall|j: int| 0 <= j < i ==> !occurs_at(hay, needle, j))
            ==> replace(hay, needle, with) == hay.take(i) + with + replace(
            hay.skip(i + needle.len()),
            needle,
            with,
        ),
{
    lemma_find_from(hay, needle, 0);
    assert(hay.skip(0) =~= hay);
    if occurs_at(hay, needle, i) && (forall|j: int| 0 <= j < i ==> !occurs_at(hay, needle, j)) {
        assert(find_from(hay, needle, 0) == Some(i));
        lemma_replace_rest(hay, needle, with, i + needle.len(), i + needle.len());
        assert(hay.subrange(0, i) =~= hay.take(i));
    }
}

/// A text that cannot cross the end of a line is replaced line by line: what one line becomes
/// does not depend on the others.
pub proof fn law_lines_are_replaced_apart(
    first: Seq<char>,
    rest: Seq<char>,
    needle: Seq<char>,
    with: Seq<char>,
)
    requires
        needle.len() > 0,
        forall|i: int| 0 <= i < needle.len() ==> #[trigger] needle[i] != '\n',
    ensures
        replace(first + seq!['\n'] + rest, needle, with) == replace(first, needle, with) + seq![
            '\n',
        ] + replace(rest, needle, with),
    decreases first.len(),
{
    let hay = first + seq!['\n'] + rest;
    let n = needle.len() as int;
    lemma_find_from(first, needle, 0);
    lemma_find_from(rest, needle, 0);
    lemma_find_from(hay, needle, 0);
    // An occurrence lies on one side of the line's end.
    assert forall|i: int| 0 <= i <= first.len() implies occurs_at(hay, needle, i) == occurs_at(
        first,
        needle,
        i,
    ) by {
        if i + n <= first.len() {
            assert(hay.subrange(i, i + n) =~= first.subrange(i, i + n));
        } else if occurs_at(hay, needle, i) {
            let k = first.len() - i;
            assert(hay.subrange(i, i + n)[k] == hay[first.len() as int]);
            assert(needle[k] == '\n');
        }
    }
    match find_from(first, needle, 0) {
        Some(i) => {
            assert forall|j: int| 0 <= j < i implies !occurs_at(hay, needle, j) by {}
            law_every_occurrence_is_replaced_and_nothing_else(hay, needle, with, i);
            law_every_occurrence_is_replaced_and_nothing_else(first, needle, with, i);
            let left = first.skip(i + n);
            assert(hay.skip(i + n) =~= left + seq!['\n'] + rest);
            law_lines_are_replaced_apart(left, rest, needle, with);
            assert(hay.take(i) =~= first.take(i));
            assert(hay.take(i) + with + (replace(left, needle, with) + seq!['\n'] + replace(
                rest,
                needle,
                with,
            )) =~= (first.take(i) + with + replace(left, needle, with)) + seq!['\n'] + replace(
                rest,
                needle,
                with,
            ));
        },
        None => {
            assert(forall|j: int| !occurs_at(first, needle, j));
            law_every_occurrence_is_replaced_and_nothing_else(first, needle, with, 0);
            let at = first.len() + 1;
            assert(hay.skip(at as int) =~= rest);
            assert forall|j: int| 0 <= j < at implies !occurs_at(hay, needle, j) by {}
            match find_from(rest, needle, 0) {
                Some(k) => {
                    let i = at + k;
                    lemma_occurs_in_rest(hay, needle, at as int, i);
                    assert forall|j: int| 0 <= j < i implies !occurs_at(hay, needle, j) by {
                        if j >= at {
                            lemma_occurs_in_rest(hay, needle, at as int, j);
                        }
                    }
                    law_every_occurrence_is_replaced_and_nothing_else(hay, needle, with, i);
                    law_every_occurrence_is_replaced_and_nothing_else(rest, needle, with, k);
                    assert(hay.skip(i + n) =~= rest.skip(k + n));
                    assert(hay.take(i) =~= first + seq!['\n'] + rest.take(k));
                    let tail = replace(rest.skip(k + n), needle, with);
                    assert((first + seq!['\n'] + rest.take(k)) + with + tail =~= first + seq!['\n'] + (
                    rest.take(k) + with + tail));
                },
                None => {
                    assert forall|j: int| !occurs_at(hay, needle, j) by {
                        if j >= at {
                            lemma_occurs_in_rest(hay, needle, at as int, j);
                        }
                    }
                    law_every_occurrence_is_replaced_and_nothing_else(hay, needle, with, 0);
                    law_every_occurrence_is_replaced_and_nothing_else(rest, needle, with, 0);
                },
            }
        },
    }
}

proof fn lemma_lines_of_rest(s: Seq<char>, base: int, from: int)
    requires
        0 <= base <= from <= s.len(),
    ensures
        lines_from(s, from) == lines_from(s.skip(base), from - base),
    decreases s.len() - from,
{
    if from < s.len() {
        lemma_find_in_rest(s, seq!['\n'], base, from);
        lemma_find_from(s, seq!['\n'], from);
        match find_from(s, seq!['\n'], from) {
            Some(i) => {
                lemma_lines_of_rest(s, base, i + 1);
                assert(s.skip(base).subrange(from - base, i - base) =~= s.subrange(from, i));
            },
            None => {
                assert(s.skip(base).skip(from - base) =~= s.skip(from));
            },
        }
    }
}

/// A text falls into lines where its lines end: what stands before the first end is the first
/// line, whole but for a carriage return, and what stands behind it falls into the others. A
/// text without an end is one line, and no text is none.
pub proof fn law_a_text_falls_into_its_lines(line: Seq<char>, rest: Seq<char>)
    requires
        forall|i: int| 0 <= i < line.len() ==> #[trigger] line[i] != '\n',
    ensures
        lines_from(Seq::empty(), 0).len() == 0,
        line.len() > 0 ==> lines_from(line, 0) == seq![line],
        lines_from(line + seq!['\n'] + rest, 0).len() == lines_from(rest, 0).len() + 1,
        lines_from(line + seq!['\n'] + rest, 0).skip(1) == lines_from(rest, 0),
        line.len() == 0 || line.last() != '\r' ==> lines_from(line + seq!['\n'] + rest, 0)[0]
            == line,
        line.len() > 0 && line.last() == '\r' ==> lines_from(line + seq!['\n'] + rest, 0)[0]
            == line.drop_last(),
{
    let nl = seq!['\n'];
    let s = line + nl + rest;
    let at = line.len() as int;
    lemma_find_from(line, nl, 0);
    lemma_find_from(s, nl, 0);
    assert forall|j: int| 0 <= j < line.len() implies !occurs_at(line, nl, j) && !occurs_at(s, nl, j) by {
        if occurs_at(line, nl, j) {
            assert(line.subrange(j, j + 1)[0] == line[j]);
        }
        if occurs_at(s, nl, j) {
            assert(s.subrange(j, j + 1)[0] == line[j]);
        }
    }
    assert forall|j: int| line.len() <= j implies !occurs_at(line, nl, j) by {}
    assert(find_from(line, nl, 0) is None) by {
        if let Some(i) = find_from(line, nl, 0) {
            assert(occurs_at(line, nl, i));
        }
    }
    assert(line.skip(0) =~= line);
    assert(s.subrange(at, at + 1) =~= nl);
    assert(occurs_at(s, nl, at));
    assert(find_from(s, nl, 0) == Some(at));
    lemma_lines_of_rest(s, at + 1, at + 1);
    assert(s.skip(at + 1) =~= rest);
    assert(s.subrange(0, at) =~= line);
    assert(lines_from(s, 0).skip(1) =~= lines_from(rest, 0));
}

/// Lower case changes the capitals of ASCII and no other character.
pub proof fn law_only_capitals_are_lowered(s: Seq<char>, i: int)
    requires
        0 <= i < s.len(),
    ensures
        lowercase(s).len() == s.len(),
        'A' <= s[i] <= 'Z' ==> lowercase(s)[i] as u32 == s[i] as u32 + 32,
        !('A' <= s[i] <= 'Z') ==> lowercase(s)[i] == s[i],
{
}

/// Whatever stands around joined texts, each of them occurs in the whole.
pub proof fn lemma_a_joined_part_occurs(
    before: Seq<char>,
    parts: Seq<Seq<char>>,
    sep: Seq<char>,
    i: int,
    after: Seq<char>,
)
    requires
        0 <= i < parts.len(),
    ensures
        contains(before + join(parts, sep) + after, parts[i]),
{
    law_joined_parts_stand_in_their_order(parts, sep, i);
    let all = join(parts, sep);
    let at = total_len(parts.take(i)) + i * sep.len();
    let head = before + all.take(at);
    let tail = all.skip(at + parts[i].len()) + after;
    assert(before + all + after =~= head + parts[i] + tail) by {
        assert(all =~= all.take(at) + all.subrange(at, at + parts[i].len()) + all.skip(
            at + parts[i].len(),
        ));
    }
    law_what_occurs_is_a_part(head, parts[i], tail);
}

} // verus!
