//! What a tool is allowed to return.
//!
//! Head and tail rather than head: a command's exit status, a stack trace's origin and a test
//! summary are all at the end. Characters rather than bytes: a limit whose real size depends on
//! the language of the content is one nobody can reason about.
use crate::text;
use crate::text::{decimal, decimal_of};
use vstd::prelude::*;

verus! {

/// How much of one tool result reaches the model, for a server that does not say otherwise.
pub const DEFAULT_MAX_OUTPUT_CHARS: usize = 50_000;

/// A capped result, and how much of it was dropped.
#[derive(Debug, PartialEq, Eq)]
pub struct Capped {
    pub text: String,
    /// Characters removed. Zero when nothing was.
    pub dropped: usize,
}

/// What stands in place of what was dropped: how much went, from where, and who dropped it.
pub open spec fn cap_marker(dropped: nat, limit: nat) -> Seq<char> {
    "\n\n[atoma: "@ + decimal(dropped) + " characters dropped from the middle; "@ + decimal(limit)
        + " shown]\n\n"@
}

/// A text kept to a limit: a quarter of it from the front, the rest from the back.
pub open spec fn capped_text(text: Seq<char>, limit: nat) -> Seq<char> {
    if text.len() <= limit {
        text
    } else {
        let head = (limit / 4) as int;
        let tail = limit - head;
        text.take(head) + cap_marker((text.len() - limit) as nat, limit) + text.skip(
            text.len() - tail,
        )
    }
}

/// Keep the head and the tail of `text`, up to `limit` characters.
pub fn cap(text: &str, limit: usize) -> (r: Capped)
    ensures
        r.text@ == capped_text(text@, limit as nat),
        r.dropped == if text@.len() <= limit {
            0
        } else {
            text@.len() - limit
        },
{
    let chars = text::chars_of(text);
    let total: usize = chars.len();
    if total <= limit {
        return Capped { text: text.to_owned(), dropped: 0 };
    }
    let dropped: usize = total - limit;
    let head_len: usize = limit / 4;
    let tail_len: usize = limit - head_len;
    let mut out = text::slice(&chars, 0, head_len);
    let ghost head = out@;
    let mut marker = "\n\n[atoma: ".to_owned();
    marker.append(decimal_of(dropped as u64).as_str());
    marker.append(" characters dropped from the middle; ");
    marker.append(decimal_of(limit as u64).as_str());
    marker.append(" shown]\n\n");
    out.append(marker.as_str());
    let tail = text::slice(&chars, total - tail_len, total);
    out.append(tail.as_str());
    assert(head =~= text@.take(head_len as int));
    assert(tail@ =~= text@.skip(text@.len() - tail_len));
    Capped { text: out, dropped }
}

/// The limit for a server, from its configuration or the default. Zero means the default.
pub fn resolve_limit(configured: Option<usize>) -> (r: usize)
    ensures
        r == match configured {
            Some(n) if n > 0 => n,
            _ => DEFAULT_MAX_OUTPUT_CHARS,
        },
        r > 0,
{
    match configured {
        Some(n) => if n > 0 {
            n
        } else {
            DEFAULT_MAX_OUTPUT_CHARS
        },
        None => DEFAULT_MAX_OUTPUT_CHARS,
    }
}

/// Both ends of a text survive the cap, as many characters of it as the limit allows; and what
/// is within the limit is untouched.
pub proof fn law_both_ends_survive(text: Seq<char>, limit: nat)
    ensures
        text.len() <= limit ==> capped_text(text, limit) == text,
        text.len() > limit ==> {
            let out = capped_text(text, limit);
            let head = (limit / 4) as int;
            let tail = limit - head;
            &&& out.len() == limit + cap_marker((text.len() - limit) as nat, limit).len()
            &&& out.take(head) == text.take(head)
            &&& out.skip(out.len() - tail) == text.skip(text.len() - tail)
            &&& tail >= head
        },
{
    if text.len() > limit {
        let out = capped_text(text, limit);
        let head = (limit / 4) as int;
        let tail = limit - head;
        assert(out.take(head) =~= text.take(head));
        assert(out.skip(out.len() - tail) =~= text.skip(text.len() - tail));
    }
}

/// What stands in place of what was dropped says how much that was and how much is shown.
pub proof fn law_what_was_dropped_is_counted(dropped: nat, limit: nat)
    ensures
        text::contains(
            cap_marker(dropped, limit),
            decimal(dropped) + " characters dropped from the middle; "@ + decimal(limit)
                + " shown"@,
        ),
{
    let a = "\n\n[atoma: "@;
    let n = decimal(dropped) + " characters dropped from the middle; "@ + decimal(limit)
        + " shown"@;
    reveal_strlit(" shown]\n\n");
    reveal_strlit(" shown");
    reveal_strlit("]\n\n");
    assert(" shown]\n\n"@ =~= " shown"@ + "]\n\n"@);
    assert(cap_marker(dropped, limit) =~= a + n + "]\n\n"@);
    text::law_what_occurs_is_a_part(a, n, "]\n\n"@);
}

} // verus!
