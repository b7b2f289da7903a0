//! Timeouts, as settings write them.
use crate::clock::Duration;
use crate::text;
use crate::text::trim;
use vstd::prelude::*;

verus! {

/// Whether text is decimal digits, at least one.
pub open spec fn all_decimal(s: Seq<char>) -> bool {
    s.len() > 0 && forall|i: int| 0 <= i < s.len() ==> '0' <= #[trigger] s[i] <= '9'
}

/// The number that digits write.
pub open spec fn count_value(s: Seq<char>) -> int
    decreases s.len(),
{
    if s.len() == 0 {
        0
    } else {
        count_value(s.drop_last()) * 10 + (s.last() as u32 - 48)
    }
}

/// The number a setting writes, where it writes one that fits a machine word.
pub open spec fn setting_value(s: Seq<char>) -> Option<u64> {
    let digits = if s.len() > 1 && s[0] == '+' { s.skip(1) } else { s };
    if all_decimal(digits) && count_value(digits) <= u64::MAX {
        Some(count_value(digits) as u64)
    } else {
        None
    }
}

/// The seconds of a setting. Absent, blank, unreadable and zero all mean the default.
pub open spec fn setting_secs(raw: Option<Seq<char>>, default_secs: u64) -> u64 {
    match raw {
        Some(s) => match setting_value(trim(s)) {
            Some(n) if n > 0 => n,
            _ => default_secs,
        },
        None => default_secs,
    }
}

proof fn lemma_count_grows(s: Seq<char>, i: int)
    requires
        0 <= i <= s.len(),
        all_decimal(s),
    ensures
        0 <= count_value(s.take(i)) <= count_value(s),
    decreases s.len() - i, i,
{
    if i < s.len() {
        assert('0' <= s[i] <= '9');
        assert(s.take(i + 1).drop_last() =~= s.take(i));
        lemma_count_nonnegative(s.take(i));
        lemma_count_grows(s, i + 1);
    } else {
        assert(s.take(i) =~= s);
        lemma_count_nonnegative(s);
    }
}

proof fn lemma_count_nonnegative(s: Seq<char>)
    requires
        forall|i: int| 0 <= i < s.len() ==> '0' <= #[trigger] s[i] <= '9',
    ensures
        count_value(s) >= 0,
    decreases s.len(),
{
    if s.len() > 0 {
        assert('0' <= s[s.len() - 1] <= '9');
        lemma_count_nonnegative(s.drop_last());
    }
}

fn read_count(raw: &str) -> (r: Option<u64>)
    ensures
        r == setting_value(raw@),
{
    let chars = text::chars_of(raw);
    let start: usize = if chars.len() > 1 && chars[0] == '+' {
        1
    } else {
        0
    };
    let ghost digits = if raw@.len() > 1 && raw@[0] == '+' { raw@.skip(1) } else { raw@ };
    assert(digits =~= chars@.subrange(start as int, chars@.len() as int));
    if start >= chars.len() {
        return None;
    }
    for i in start..chars.len()
        invariant
            digits == chars@.subrange(start as int, chars@.len() as int),
            digits == (if raw@.len() > 1 && raw@[0] == '+' { raw@.skip(1) } else { raw@ }),
            start <= i,
            forall|j: int| 0 <= j < i - start ==> '0' <= #[trigger] digits[j] <= '9',
    {
        assert(digits[i - start] == chars@[i as int]);
        if !('0' <= chars[i] && chars[i] <= '9') {
            assert(!all_decimal(digits));
            return None;
        }
    }
    assert(all_decimal(digits));
    let mut n: u64 = 0;
    assert(digits.take(0) =~= Seq::<char>::empty());
    for i in start..chars.len()
        invariant
            digits == chars@.subrange(start as int, chars@.len() as int),
            digits == (if raw@.len() > 1 && raw@[0] == '+' { raw@.skip(1) } else { raw@ }),
            all_decimal(digits),
            start <= i,
            n == count_value(digits.take(i - start)),
    {
        assert(digits[i - start] == chars@[i as int]);
        assert(digits.take(i + 1 - start).drop_last() =~= digits.take(i - start));
        let d: u64 = chars[i] as u64 - 48;
        proof {
            lemma_count_grows(digits, i + 1 - start);
            assert(count_value(digits.take(i + 1 - start)) == n * 10 + d);
        }
        if n > (u64::MAX - d) / 10 {
            assert(n * 10 + d > u64::MAX);
            return None;
        }
        n = n * 10 + d;
    }
    assert(digits.take(chars@.len() - start) =~= digits);
    Some(n)
}

/// The timeout a setting asks for, or the default.
pub fn from_setting(raw: Option<&str>, default_secs: u64) -> (r: Duration)
    ensures
        r == (Duration { secs: setting_secs(text::opt_str(raw), default_secs), nanos: 0 }),
{
    let secs: u64 = match raw {
        Some(s) => match read_count(text::trimmed(s).as_str()) {
            Some(n) => if n > 0 {
                n
            } else {
                default_secs
            },
            None => default_secs,
        },
        None => default_secs,
    };
    Duration::from_secs(secs)
}

/// Zero, blank and absent all mean the default: a stall detector is never an immediate
/// failure.
pub proof fn law_a_timeout_is_never_zero(raw: Option<Seq<char>>, default_secs: u64)
    requires
        default_secs > 0,
    ensures
        setting_secs(raw, default_secs) > 0,
        setting_secs(None, default_secs) == default_secs,
{
}

proof fn lemma_values_agree(s: Seq<char>)
    ensures
        count_value(s) == text::number_in(s),
    decreases s.len(),
{
    if s.len() > 0 {
        lemma_values_agree(s.drop_last());
    }
}

/// A setting that writes a number of seconds sets so many, whatever whitespace is around it;
/// and one that writes anything else sets nothing.
pub proof fn law_a_setting_means_the_seconds_it_writes(
    n: nat,
    raw: Seq<char>,
    default_secs: u64,
    i: int,
)
    ensures
        0 < n <= u64::MAX && trim(raw) == text::decimal(n) ==> setting_secs(Some(raw), default_secs)
            == n,
        n > u64::MAX && trim(raw) == text::decimal(n) ==> setting_secs(Some(raw), default_secs)
            == default_secs,
        trim(raw).len() == 0 ==> setting_secs(Some(raw), default_secs) == default_secs,
        0 <= i < trim(raw).len() && !('0' <= trim(raw)[i] <= '9') && !(i == 0 && trim(raw)[i]
            == '+') ==> setting_secs(Some(raw), default_secs) == default_secs,
{
    let s = text::decimal(n);
    text::law_a_number_reads_back(n);
    lemma_values_agree(s);
    if trim(raw) == s {
        assert('0' <= s[0] <= '9');
        assert(all_decimal(s));
    }
    let t = trim(raw);
    if 0 <= i < t.len() && !('0' <= t[i] <= '9') && !(i == 0 && t[i] == '+') {
        if t.len() > 1 && t[0] == '+' {
            assert(t.skip(1)[i - 1] == t[i]);
        }
    }
}

} // verus!
