//! What a tool server said about its own trouble, and how the agent hears it.
//!
//! A tool's answer includes how well it could answer: a warning is attached to that server's
//! next tool result, where it is used, and nothing is attached on a healthy run.
use crate::text;
use crate::text::{
    decimal, decimal_of, find_from, is_alphanumeric, join, law_joined_parts_stand_in_their_order,
    lowercase, occurs_at, texts, total_len, trim,
};
use vstd::prelude::*;

verus! {

/// How bad a server said something was.
#[derive(Debug, Clone, Copy, PartialEq, Eq, PartialOrd, Ord, Structural)]
pub enum Severity {
    /// Ordinary operation.
    Routine,
    /// It answered, and worse than it should have.
    Warning,
    /// It could not do what was asked.
    Error,
}

/// The severity of a level, in lower case and without whitespace around it. One that is not
/// known is routine: guessing that it is urgent would put noise into every result.
pub open spec fn level_severity(level: Seq<char>) -> Severity {
    if level == "warning"@ {
        Severity::Warning
    } else if level == "error"@ || level == "critical"@ || level == "alert"@ || level
        == "emergency"@ {
        Severity::Error
    } else {
        Severity::Routine
    }
}

/// The severity of a log level a server stated.
pub fn severity_of_level(level: &str) -> (r: Severity)
    ensures
        r == level_severity(lowercase(trim(level@))),
{
    let level = text::lowered(text::trimmed(level).as_str());
    let l = level.as_str();
    if text::same(l, "warning") {
        Severity::Warning
    } else if text::same(l, "error") || text::same(l, "critical") || text::same(l, "alert")
        || text::same(l, "emergency") {
        Severity::Error
    } else {
        Severity::Routine
    }
}

/// Whether `needle` stands at `i` with no letter or digit on either side.
pub open spec fn word_at(hay: Seq<char>, needle: Seq<char>, i: int) -> bool {
    &&& occurs_at(hay, needle, i)
    &&& i == 0 || !is_alphanumeric(hay[i - 1])
    &&& i + needle.len() == hay.len() || !is_alphanumeric(hay[i + needle.len()])
}

/// Whether one of the occurrences of `needle` from `from` on, taken left to right and without
/// overlaps, is a word.
pub open spec fn word_from(hay: Seq<char>, needle: Seq<char>, from: int) -> bool
    decreases hay.len() - from,
{
    match find_from(hay, needle, from) {
        Some(i) if from <= i && needle.len() > 0 && i + needle.len() <= hay.len() => word_at(
            hay,
            needle,
            i,
        ) || word_from(hay, needle, i + needle.len()),
        _ => false,
    }
}

/// Whether `needle` appears in `haystack` bounded by something other than letters and digits.
pub fn contains_word(haystack: &str, needle: &str) -> (r: bool)
    requires
        needle@.len() > 0,
    ensures
        r == word_from(haystack@, needle@, 0),
{
    let h = text::chars_of(haystack);
    let n = text::chars_of(needle);
    let end: usize = h.len();
    let mut from: usize = 0;
    loop
        invariant
            from <= h@.len() == end,
            h@ == haystack@,
            n@ == needle@,
            n@.len() > 0,
            word_from(haystack@, needle@, 0) == word_from(h@, n@, from as int),
        decreases h@.len() - from,
    {
        match text::find(&h, &n, from) {
            Some(i) => {
                proof {
                    text::lemma_find_from(h@, n@, from as int);
                }
                let stop: usize = i + n.len();
                let before_ok = i == 0 || !text::alphanumeric(h[i - 1]);
                let after_ok = stop == end || !text::alphanumeric(h[stop]);
                if before_ok && after_ok {
                    return true;
                }
                from = stop;
            },
            None => return false,
        }
    }
}

proof fn lemma_word_from(hay: Seq<char>, needle: Seq<char>, from: int, i: int)
    requires
        0 <= from <= i,
        needle.len() > 0,
        forall|k: int| 0 <= k < needle.len() ==> is_alphanumeric(#[trigger] needle[k]),
        word_at(hay, needle, i),
    ensures
        word_from(hay, needle, from),
    decreases hay.len() - from,
{
    text::lemma_find_from(hay, needle, from);
    let first = find_from(hay, needle, from)->0;
    assert(find_from(hay, needle, from) is Some);
    if first != i {
        assert(first < i);
        if i < first + needle.len() {
            let k = i - 1 - first;
            assert(hay.subrange(first, first + needle.len())[k] == needle[k]);
            assert(hay[i - 1] == needle[k]);
        }
        lemma_word_from(hay, needle, first + needle.len(), i);
    }
}

proof fn lemma_word_from_is_a_word(hay: Seq<char>, needle: Seq<char>, from: int)
    requires
        0 <= from,
        word_from(hay, needle, from),
    ensures
        exists|i: int| word_at(hay, needle, i),
    decreases hay.len() - from,
{
    let i = find_from(hay, needle, from)->0;
    if !word_at(hay, needle, i) {
        lemma_word_from_is_a_word(hay, needle, i + needle.len());
    }
}

/// A word of letters and digits is found exactly where it stands by itself somewhere: never
/// inside another word, and never missed.
pub proof fn law_a_word_is_found_wherever_it_stands_alone(hay: Seq<char>, needle: Seq<char>)
    requires
        needle.len() > 0,
        forall|k: int| 0 <= k < needle.len() ==> is_alphanumeric(#[trigger] needle[k]),
    ensures
        word_from(hay, needle, 0) <==> exists|i: int| word_at(hay, needle, i),
{
    if exists|i: int| word_at(hay, needle, i) {
        let i = choose|i: int| word_at(hay, needle, i);
        lemma_word_from(hay, needle, 0, i);
    }
    if word_from(hay, needle, 0) {
        lemma_word_from_is_a_word(hay, needle, 0);
    }
}

/// Whether a line, in lower case, has a word that reports an error.
pub open spec fn reports_error(line: Seq<char>) -> bool {
    word_from(line, "error"@, 0) || word_from(line, "errors"@, 0) || word_from(line, "fatal"@, 0)
        || word_from(line, "panic"@, 0)
}

/// Whether a line, in lower case, has a word that warns.
pub open spec fn reports_warning(line: Seq<char>) -> bool {
    word_from(line, "warn"@, 0) || word_from(line, "warning"@, 0) || word_from(
        line,
        "warnings"@,
        0,
    )
}

/// The severity that the words of a line suggest.
pub open spec fn words_severity(line: Seq<char>) -> Severity {
    if reports_error(lowercase(line)) {
        Severity::Error
    } else if reports_warning(lowercase(line)) {
        Severity::Warning
    } else {
        Severity::Routine
    }
}

/// The severity of a line a server wrote to stderr, read from its words.
pub fn severity_of_stderr(line: &str) -> (r: Severity)
    ensures
        r == words_severity(line@),
{
    let lower = text::lowered(line);
    let l = lower.as_str();
    proof {
        reveal_strlit("error");
        reveal_strlit("errors");
        reveal_strlit("fatal");
        reveal_strlit("panic");
        reveal_strlit("warn");
        reveal_strlit("warning");
        reveal_strlit("warnings");
    }
    if contains_word(l, "error") || contains_word(l, "errors") || contains_word(l, "fatal")
        || contains_word(l, "panic") {
        return Severity::Error;
    }
    if contains_word(l, "warn") || contains_word(l, "warning") || contains_word(l, "warnings") {
        return Severity::Warning;
    }
    Severity::Routine
}

/// The severity to record for a line a server wrote to a log channel. Where nobody asked for
/// the guess, there is none.
pub fn severity_of_output(line: &str, guess_from_words: bool) -> (r: Severity)
    ensures
        r == if guess_from_words {
            words_severity(line@)
        } else {
            Severity::Routine
        },
{
    if !guess_from_words {
        return Severity::Routine;
    }
    severity_of_stderr(line)
}

/// What a server reported, waiting to be attached to its next result.
#[derive(Debug, PartialEq, Eq)]
pub struct HealthNote {
    pub severity: Severity,
    pub message: String,
}

/// What a note says.
#[verifier::ext_equal]
pub struct NoteView {
    pub severity: Severity,
    pub message: Seq<char>,
}

impl View for HealthNote {
    type V = NoteView;

    open spec fn view(&self) -> NoteView {
        NoteView { severity: self.severity, message: self.message@ }
    }
}

impl Clone for HealthNote {
    fn clone(&self) -> (r: HealthNote)
        ensures
            r == *self,
    {
        HealthNote { severity: self.severity, message: self.message.clone() }
    }
}

/// What several notes say.
pub open spec fn notes_view(notes: Seq<HealthNote>) -> Seq<NoteView> {
    notes.map_values(|n: HealthNote| n@)
}

/// How many distinct reports one result will carry.
pub const MAX_NOTES: usize = 20;

/// Everything one server has reported this run, in order and without repeats: what waits for
/// its next result, and what any result has carried.
#[derive(Debug)]
pub struct HealthLog {
    /// What waits for the next result.
    pub notes: Vec<HealthNote>,
    /// How many reports did not fit beside those.
    pub dropped: usize,
    /// What was said by every note that was ever kept, waiting or carried.
    pub reported: Vec<String>,
}

/// What a log remembers.
#[verifier::ext_equal]
pub struct HealthView {
    pub held: Seq<NoteView>,
    pub dropped: int,
    pub reported: Seq<Seq<char>>,
}

/// A log in which nothing was reported.
pub open spec fn nothing_reported() -> HealthView {
    HealthView { held: Seq::empty(), dropped: 0, reported: Seq::empty() }
}

/// Whether a report is one to keep: worth the agent's attention, saying something, and not
/// reported already in this run.
pub open spec fn is_news(
    reported: Seq<Seq<char>>,
    severity: Severity,
    message: Seq<char>,
) -> bool {
    severity != Severity::Routine && trim(message).len() > 0 && !reported.contains(trim(message))
}

/// A log once a report has been made. What does not fit any more is counted.
pub open spec fn recorded(v: HealthView, severity: Severity, message: Seq<char>) -> HealthView {
    if !is_news(v.reported, severity, message) {
        v
    } else if v.held.len() >= MAX_NOTES {
        HealthView { dropped: v.dropped + 1, ..v }
    } else {
        HealthView {
            held: v.held.push(NoteView { severity, message: trim(message) }),
            reported: v.reported.push(trim(message)),
            ..v
        }
    }
}

/// What a log hands out: what it holds, and a count of what it turned away.
pub open spec fn handed_out(v: HealthView) -> Seq<NoteView> {
    if v.dropped > 0 {
        v.held.push(
            NoteView {
                severity: Severity::Warning,
                message: decimal(v.dropped as nat)
                    + " further reports from this server were not shown"@,
            },
        )
    } else {
        v.held
    }
}

/// A log once what it held was taken. What was reported stays known.
pub open spec fn drained(v: HealthView) -> HealthView {
    HealthView { held: Seq::empty(), dropped: 0, ..v }
}

/// Whether a log is one: no more notes than it may have, none of them routine or empty, no two
/// that say the same, and all of them known to have been reported.
pub open spec fn is_log(v: HealthView) -> bool {
    &&& v.held.len() <= MAX_NOTES
    &&& v.dropped >= 0
    &&& forall|i: int|
        0 <= i < v.held.len() ==> (#[trigger] v.held[i]).severity != Severity::Routine
            && v.held[i].message.len() > 0 && v.reported.contains(v.held[i].message)
    &&& forall|i: int, j: int|
        0 <= i < j < v.held.len() ==> (#[trigger] v.held[i]).message != (
        #[trigger] v.held[j]).message
}

proof fn lemma_recorded_is_log(v: HealthView, severity: Severity, message: Seq<char>)
    requires
        is_log(v),
    ensures
        is_log(recorded(v, severity, message)),
        forall|m: Seq<char>| #[trigger]
            v.reported.contains(m) ==> recorded(v, severity, message).reported.contains(m),
{
    let after = recorded(v, severity, message);
    assert forall|m: Seq<char>| #[trigger] v.reported.contains(m) implies after.reported.contains(
        m,
    ) by {
        let k = choose|k: int| 0 <= k < v.reported.len() && v.reported[k] == m;
        assert(after.reported[k] == m);
    }
    if is_news(v.reported, severity, message) && v.held.len() < MAX_NOTES {
        assert(after.reported[v.reported.len() as int] == trim(message));
        assert forall|i: int| 0 <= i < after.held.len() implies (
        #[trigger] after.held[i]).severity != Severity::Routine && after.held[i].message.len() > 0
            && after.reported.contains(after.held[i].message) by {
            if i < v.held.len() {
                assert(after.held[i] == v.held[i]);
            }
        }
        assert forall|i: int, j: int| 0 <= i < j < after.held.len() implies (
        #[trigger] after.held[i]).message != (#[trigger] after.held[j]).message by {
            assert(after.held[i] == v.held[i]);
            if j < v.held.len() {
                assert(after.held[j] == v.held[j]);
            }
        }
    }
}

impl View for HealthLog {
    type V = HealthView;

    open spec fn view(&self) -> HealthView {
        HealthView {
            held: notes_view(self.notes@),
            dropped: self.dropped as int,
            reported: texts(self.reported@),
        }
    }
}

impl Default for HealthLog {
    fn default() -> (r: HealthLog)
        ensures
            r.wf(),
            r@ == nothing_reported(),
    {
        let r = HealthLog { notes: Vec::new(), dropped: 0, reported: Vec::new() };
        assert(r@ =~= nothing_reported());
        r
    }
}

impl HealthLog {
    /// Whether the log is one.
    pub open spec fn wf(&self) -> bool {
        is_log(self@)
    }

    /// Record a note if it is worth the agent's attention and was not reported already in this
    /// run. Returns whether it was kept. What does not fit any more is counted.
    pub fn record(&mut self, severity: Severity, message: &str) -> (kept: bool)
        requires
            old(self).wf(),
            old(self).dropped < usize::MAX,
        ensures
            final(self).wf(),
            final(self)@ == recorded(old(self)@, severity, message@),
            kept == (is_news(old(self)@.reported, severity, message@) && old(self)@.held.len()
                < MAX_NOTES),
    {
        proof {
            lemma_recorded_is_log(self@, severity, message@);
        }
        if severity == Severity::Routine {
            return false;
        }
        let said = text::trimmed(message);
        if text::empty(said.as_str()) {
            return false;
        }
        if text::one_of(&self.reported, said.as_str()) {
            return false;
        }
        let ghost before = self@;
        if self.notes.len() >= MAX_NOTES {
            self.dropped = self.dropped + 1;
            assert(self@ =~= recorded(before, severity, message@));
            return false;
        }
        self.reported.push(said.clone());
        self.notes.push(HealthNote { severity, message: said });
        assert(self@.held =~= before.held.push(NoteView { severity, message: trim(message@) }));
        assert(self@.reported =~= before.reported.push(trim(message@)));
        true
    }

    /// Take everything held, leaving it empty. One note reaches one result, and what it says
    /// stays known. What the cap turned away becomes a last note saying how much.
    pub fn drain(&mut self) -> (r: Vec<HealthNote>)
        ensures
            final(self).wf(),
            final(self)@ == drained(old(self)@),
            notes_view(r@) == handed_out(old(self)@),
    {
        let mut notes: Vec<HealthNote> = Vec::new();
        core::mem::swap(&mut notes, &mut self.notes);
        let dropped: usize = self.dropped;
        self.dropped = 0;
        assert(self@ =~= drained(old(self)@));
        if dropped > 0 {
            let ghost before = notes_view(notes@);
            let mut message = decimal_of(dropped as u64);
            message.append(" further reports from this server were not shown");
            let ghost m = message@;
            notes.push(HealthNote { severity: Severity::Warning, message });
            assert(notes_view(notes@) =~= before.push(
                NoteView { severity: Severity::Warning, message: m },
            ));
        }
        notes
    }
}

/// The word for a severity.
pub open spec fn severity_label(severity: Severity) -> Seq<char> {
    match severity {
        Severity::Error => "error"@,
        Severity::Warning => "warning"@,
        Severity::Routine => "note"@,
    }
}

/// The line that says whose reports follow, and that they are not part of the answer.
pub open spec fn annotation_head(server: Seq<char>, count: nat) -> Seq<char> {
    "--- "@ + decimal(count) + (if count == 1 {
        " problem"@
    } else {
        " problems"@
    }) + " reported by the '"@ + server + "' server, not part of the answer above ---"@
}

/// The lines appended to a tool result.
pub open spec fn annotation_text(server: Seq<char>, notes: Seq<NoteView>) -> Seq<char> {
    join(
        seq![annotation_head(server, notes.len())] + notes.map_values(
            |n: NoteView| severity_label(n.severity) + ": "@ + n.message,
        ),
        "\n"@,
    )
}

/// The lines appended to a tool result, or `None` when there is nothing to say.
pub fn annotation(server: &str, notes: &[HealthNote]) -> (r: Option<String>)
    ensures
        match r {
            Some(text) => notes@.len() > 0 && text@ == annotation_text(
                server@,
                notes_view(notes@),
            ),
            None => notes@.len() == 0,
        },
{
    if notes.len() == 0 {
        return None;
    }
    let mut head = "--- ".to_owned();
    head.append(decimal_of(notes.len() as u64).as_str());
    head.append(
        if notes.len() == 1 {
            " problem"
        } else {
            " problems"
        },
    );
    head.append(" reported by the '");
    head.append(server);
    head.append("' server, not part of the answer above ---");
    let ghost want = seq![annotation_head(server@, notes@.len())] + notes_view(notes@).map_values(
        |n: NoteView| severity_label(n.severity) + ": "@ + n.message,
    );
    let mut lines: Vec<String> = Vec::new();
    lines.push(head);
    assert(texts(lines@) =~= want.take(1));
    for i in 0..notes.len()
        invariant
            want == seq![annotation_head(server@, notes@.len())] + notes_view(
                notes@,
            ).map_values(|n: NoteView| severity_label(n.severity) + ": "@ + n.message),
            texts(lines@) == want.take(i + 1),
    {
        let label = match notes[i].severity {
            Severity::Error => "error",
            Severity::Warning => "warning",
            Severity::Routine => "note",
        };
        let mut line = label.to_owned();
        line.append(": ");
        line.append(notes[i].message.as_str());
        let ghost before = texts(lines@);
        let ghost l = line@;
        lines.push(line);
        assert(l == want[i + 1]);
        assert(texts(lines@) =~= before.push(l));
        assert(texts(lines@) =~= want.take(i + 2));
    }
    assert(want.take(want.len() as int) =~= want);
    Some(text::joined(&lines, "\n"))
}

/// A tool's answer with what the server reported appended. An answer of nothing is replaced
/// rather than padded.
pub fn with_annotation(content: String, annotation: Option<String>) -> (r: String)
    ensures
        r@ == match annotation {
            None => content@,
            Some(note) => if trim(content@).len() == 0 {
                note@
            } else {
                content@ + "\n\n"@ + note@
            },
        },
{
    match annotation {
        None => content,
        Some(note) => {
            if text::blank(content.as_str()) {
                note
            } else {
                let mut out = content;
                out.append("\n\n");
                out.append(note.as_str());
                out
            }
        },
    }
}

/// A report that was kept is not news a second time, whatever whitespace or severity it comes
/// with, and whether or not a result has carried it in between.
pub proof fn law_a_report_is_kept_once(
    v: HealthView,
    severity: Severity,
    message: Seq<char>,
    again: Severity,
    repeated: Seq<char>,
)
    requires
        is_news(v.reported, severity, message),
        v.held.len() < MAX_NOTES,
        trim(repeated) == trim(message),
    ensures
        ({
            let after = recorded(v, severity, message);
            &&& recorded(after, again, repeated) == after
            &&& recorded(drained(after), again, repeated) == drained(after)
        }),
{
    let after = recorded(v, severity, message);
    assert(after.reported[v.reported.len() as int] == trim(repeated));
}

/// A log once several reports have been made, one after the other.
pub open spec fn all_recorded(v: HealthView, reports: Seq<NoteView>) -> HealthView
    decreases reports.len(),
{
    if reports.len() == 0 {
        v
    } else {
        recorded(
            all_recorded(v, reports.drop_last()),
            reports.last().severity,
            reports.last().message,
        )
    }
}

proof fn lemma_held_is_new(v: HealthView, reports: Seq<NoteView>)
    requires
        is_log(v),
        v.held.len() == 0,
    ensures
        is_log(all_recorded(v, reports)),
        forall|m: Seq<char>| #[trigger]
            v.reported.contains(m) ==> all_recorded(v, reports).reported.contains(m),
        forall|i: int|
            0 <= i < all_recorded(v, reports).held.len() ==> !v.reported.contains(
                (#[trigger] all_recorded(v, reports).held[i]).message,
            ),
    decreases reports.len(),
{
    if reports.len() > 0 {
        let t = reports.drop_last();
        let n = reports.last();
        let w = all_recorded(v, t);
        lemma_held_is_new(v, t);
        lemma_recorded_is_log(w, n.severity, n.message);
        let after = all_recorded(v, reports);
        assert forall|i: int| 0 <= i < after.held.len() implies !v.reported.contains(
            (#[trigger] after.held[i]).message,
        ) by {
            if i < w.held.len() {
                assert(after.held[i] == w.held[i]);
            }
        }
    }
}

/// Saying again what was reported already changes nothing.
pub proof fn law_repeats_are_not_news(v: HealthView, reports: Seq<NoteView>)
    requires
        forall|k: int|
            0 <= k < reports.len() ==> v.reported.contains(
                trim((#[trigger] reports[k]).message),
            ),
    ensures
        all_recorded(v, reports) == v,
    decreases reports.len(),
{
    if reports.len() > 0 {
        let t = reports.drop_last();
        assert forall|k: int| 0 <= k < t.len() implies v.reported.contains(
            trim((#[trigger] t[k]).message),
        ) by {
            assert(reports[k] == t[k]);
        }
        law_repeats_are_not_news(v, t);
        assert(reports[reports.len() - 1] == reports.last());
    }
}

/// The same report goes out once in a run: what a result carried is not carried by a later
/// one, however often the server says it in between.
pub proof fn law_a_report_goes_out_once(
    v: HealthView,
    reports: Seq<NoteView>,
    i: int,
    j: int,
)
    requires
        is_log(v),
        0 <= i < v.held.len(),
        0 <= j < all_recorded(drained(v), reports).held.len(),
    ensures
        handed_out(v)[i] == v.held[i],
        handed_out(all_recorded(drained(v), reports))[j] == all_recorded(drained(v), reports).held[
            j],
        handed_out(v)[i].message != handed_out(all_recorded(drained(v), reports))[j].message,
{
    lemma_held_is_new(drained(v), reports);
    assert(v.reported.contains(v.held[i].message));
}

/// A report that is news is kept, with how bad it is and what it says, behind those before it;
/// past the cap it is counted; and what is no news changes nothing.
pub proof fn law_news_is_kept_or_counted(v: HealthView, severity: Severity, message: Seq<char>)
    ensures
        ({
            let after = recorded(v, severity, message);
            let news = severity != Severity::Routine && trim(message).len() > 0
                && !v.reported.contains(trim(message));
            &&& news && v.held.len() < 20 ==> {
                &&& after.held.len() == v.held.len() + 1
                &&& after.held.drop_last() == v.held
                &&& after.held.last().severity == severity
                &&& after.held.last().message == trim(message)
                &&& after.dropped == v.dropped
                &&& after.reported.contains(trim(message))
            }
            &&& news && v.held.len() >= 20 ==> after.held == v.held && after.dropped == v.dropped
                + 1
            &&& !news ==> after == v
        }),
{
    let after = recorded(v, severity, message);
    if is_news(v.reported, severity, message) && v.held.len() < 20 {
        assert(after.held.drop_last() =~= v.held);
        assert(after.reported[v.reported.len() as int] == trim(message));
    }
}

/// Everything that was kept goes out, in its order, and behind it how much was not where
/// anything was not; and then nothing is left.
pub proof fn law_all_that_was_kept_goes_out(v: HealthView)
    requires
        v.dropped >= 0,
    ensures
        handed_out(v).take(v.held.len() as int) == v.held,
        v.dropped == 0 ==> handed_out(v).len() == v.held.len(),
        v.dropped > 0 ==> {
            let said = handed_out(v).last().message;
            let count = decimal(v.dropped as nat);
            &&& handed_out(v).len() == v.held.len() + 1
            &&& handed_out(v).last().severity == Severity::Warning
            &&& said.len() > count.len() && said.take(count.len() as int) == count
        },
        drained(v).held.len() == 0,
        drained(v).dropped == 0,
        drained(v).reported == v.reported,
{
    assert(handed_out(v).take(v.held.len() as int) =~= v.held);
    if v.dropped > 0 {
        let count = decimal(v.dropped as nat);
        reveal_strlit(" further reports from this server were not shown");
        assert(handed_out(v).last().message.take(count.len() as int) =~= count);
    }
}

/// What is appended to a result names every report on a line of its own, in order, with how bad
/// it is and the whole of what it says, behind a line that says whose they are.
pub proof fn law_every_report_is_named(server: Seq<char>, notes: Seq<NoteView>, i: int)
    requires
        0 <= i < notes.len(),
    ensures
        ({
            let said = annotation_text(server, notes);
            let head = annotation_head(server, notes.len());
            let lines = Seq::new(
                notes.len(),
                |k: int|
                    (match notes[k].severity {
                        Severity::Error => "error"@,
                        Severity::Warning => "warning"@,
                        Severity::Routine => "note"@,
                    }) + ": "@ + notes[k].message,
            );
            let at = head.len() + 1 + total_len(lines.take(i)) + i;
            &&& said.len() == head.len() + total_len(lines) + lines.len()
            &&& said.take(head.len() as int) == head
            &&& said.subrange(at, at + lines[i].len()) == lines[i]
            &&& said[at - 1] == '\n'
        }),
{
    let head = annotation_head(server, notes.len());
    let lines = Seq::new(
        notes.len(),
        |k: int|
            (match notes[k].severity {
                Severity::Error => "error"@,
                Severity::Warning => "warning"@,
                Severity::Routine => "note"@,
            }) + ": "@ + notes[k].message,
    );
    let parts = seq![head] + notes.map_values(
        |n: NoteView| severity_label(n.severity) + ": "@ + n.message,
    );
    assert(parts =~= seq![head] + lines);
    reveal_strlit("\n");
    law_joined_parts_stand_in_their_order(parts, "\n"@, i + 1);
    law_joined_parts_stand_in_their_order(parts, "\n"@, 0);
    let said = annotation_text(server, notes);
    assert((i + 1) * "\n"@.len() == i + 1) by (nonlinear_arith)
        requires
            "\n"@.len() == 1,
    ;
    assert((parts.len() - 1) * "\n"@.len() == parts.len() - 1) by (nonlinear_arith)
        requires
            "\n"@.len() == 1,
    ;
    lemma_total_len_after_head(head, lines, i);
    lemma_total_len_after_head(head, lines, lines.len() as int);
    assert(parts.take(i + 1) =~= seq![head] + lines.take(i));
    assert(parts =~= seq![head] + lines.take(lines.len() as int));
    assert(lines.take(lines.len() as int) =~= lines);
    let at = head.len() + 1 + total_len(lines.take(i)) + i;
    assert(said.subrange(at - 1, at)[0] == '\n');
    assert(parts.take(0).len() == 0);
    assert(0 * "\n"@.len() == 0);
    assert(said.subrange(0, head.len() as int) =~= said.take(head.len() as int));
}

proof fn lemma_total_len_after_head(head: Seq<char>, lines: Seq<Seq<char>>, i: int)
    requires
        0 <= i <= lines.len(),
    ensures
        total_len(seq![head] + lines.take(i)) == head.len() + total_len(lines.take(i)),
    decreases i,
{
    let all = seq![head] + lines.take(i);
    if i == 0 {
        assert(all.drop_last() =~= Seq::empty());
        assert(total_len(all.drop_last()) == 0);
        assert(total_len(lines.take(0)) == 0);
    } else {
        lemma_total_len_after_head(head, lines, i - 1);
        assert(all.drop_last() =~= seq![head] + lines.take(i - 1));
        assert(lines.take(i).drop_last() =~= lines.take(i - 1));
    }
}

/// A level is an error or a warning exactly where it is one of the words for it, and any other
/// is routine.
pub proof fn law_levels_mean_what_they_say(level: Seq<char>)
    ensures
        level_severity(level) == Severity::Warning <==> level == "warning"@,
        level_severity(level) == Severity::Error <==> level == "error"@ || level == "critical"@
            || level == "alert"@ || level == "emergency"@,
{
    reveal_strlit("warning");
    reveal_strlit("error");
    reveal_strlit("critical");
    reveal_strlit("alert");
    reveal_strlit("emergency");
    assert("warning"@.len() == 7 && "error"@.len() == 5 && "critical"@.len() == 8
        && "alert"@.len() == 5 && "emergency"@.len() == 9);
}

/// Whether a word stands by itself somewhere in a text.
pub open spec fn says_word(s: Seq<char>, word: Seq<char>) -> bool {
    exists|i: int| word_at(s, word, i)
}

/// A line is taken for an error where one of the words for one stands in it by itself, in any
/// case; else for a warning where one of the words for that does; and else for nothing.
pub proof fn law_words_are_read_in_any_case_and_whole(line: Seq<char>)
    ensures
        ({
            let l = lowercase(line);
            let error = says_word(l, "error"@) || says_word(l, "errors"@) || says_word(
                l,
                "fatal"@,
            ) || says_word(l, "panic"@);
            let warning = says_word(l, "warn"@) || says_word(l, "warning"@) || says_word(
                l,
                "warnings"@,
            );
            &&& words_severity(line) == Severity::Error <==> error
            &&& words_severity(line) == Severity::Warning <==> warning && !error
        }),
{
    let l = lowercase(line);
    reveal_strlit("error");
    reveal_strlit("errors");
    reveal_strlit("fatal");
    reveal_strlit("panic");
    reveal_strlit("warn");
    reveal_strlit("warning");
    reveal_strlit("warnings");
    law_a_word_is_found_wherever_it_stands_alone(l, "error"@);
    law_a_word_is_found_wherever_it_stands_alone(l, "errors"@);
    law_a_word_is_found_wherever_it_stands_alone(l, "fatal"@);
    law_a_word_is_found_wherever_it_stands_alone(l, "panic"@);
    law_a_word_is_found_wherever_it_stands_alone(l, "warn"@);
    law_a_word_is_found_wherever_it_stands_alone(l, "warning"@);
    law_a_word_is_found_wherever_it_stands_alone(l, "warnings"@);
}

} // verus!
