//! Time: spans of it, and stamps as RFC 3339 in UTC.
use crate::text::{decimal, decimal_of, digit, lex_le};
use vstd::prelude::*;
use vstd::utf8::encode_utf8;

verus! {

// ── Spans ─────────────────────────────────────────────────────────────────────

/// A span of time: whole seconds, and the nanoseconds over.
#[derive(Debug, Clone, Copy, PartialEq, Eq, PartialOrd, Ord, Structural)]
pub struct Duration {
    pub secs: u64,
    pub nanos: u32,
}

impl Duration {
    /// The span in nanoseconds.
    pub open spec fn total_nanos(self) -> int {
        self.secs * 1_000_000_000 + self.nanos
    }

    /// Whole seconds.
    pub fn from_secs(secs: u64) -> (r: Duration)
        ensures
            r == (Duration { secs, nanos: 0 }),
            r.total_nanos() == secs * 1_000_000_000,
    {
        Duration { secs, nanos: 0 }
    }

    /// Whole milliseconds.
    pub fn from_millis(millis: u64) -> (r: Duration)
        ensures
            r.nanos < 1_000_000_000,
            r.total_nanos() == millis * 1_000_000,
    {
        Duration { secs: millis / 1_000, nanos: ((millis % 1_000) * 1_000_000) as u32 }
    }

    /// The whole seconds of the span.
    pub fn as_secs(&self) -> (r: u64)
        ensures
            r == self.secs,
    {
        self.secs
    }

    /// Whether this span is at least as long as another.
    pub fn at_least(&self, other: &Duration) -> (r: bool)
        requires
            self.nanos < 1_000_000_000,
            other.nanos < 1_000_000_000,
        ensures
            r == (self.total_nanos() >= other.total_nanos()),
    {
        self.secs > other.secs || (self.secs == other.secs && self.nanos >= other.nanos)
    }
}

// ── The calendar ──────────────────────────────────────────────────────────────

/// Whether a year of the Gregorian calendar is a leap year.
pub open spec fn is_leap(y: int) -> bool {
    y % 4 == 0 && (y % 100 != 0 || y % 400 == 0)
}

/// How many days a month has.
pub open spec fn month_len(y: int, m: int) -> int {
    if m == 2 {
        if is_leap(y) { 29 } else { 28 }
    } else if m == 4 || m == 6 || m == 9 || m == 11 {
        30
    } else {
        31
    }
}

/// Whether a year, a month and a day name a date.
pub open spec fn is_date(y: int, m: int, d: int) -> bool {
    1 <= m <= 12 && 1 <= d <= month_len(y, m)
}

/// The days from the first of March of a year that opens a 400-year era up to the first of
/// March `yoe` years later.
pub open spec fn era_day(yoe: int) -> int {
    365 * yoe + yoe / 4 - yoe / 100
}

/// The days from the first of March of the year 0 up to the first of March of a year.
#[verifier::opaque]
pub open spec fn march_day(y: int) -> int {
    (y / 400) * 146_097 + era_day(y - (y / 400) * 400)
}

/// The days from the first of March up to the month that is `mp` months later.
pub open spec fn month_day(mp: int) -> int {
    (153 * mp + 2) / 5
}

/// The number of a date, in days from the first of January 1970.
pub open spec fn day_number(y: int, m: int, d: int) -> int {
    let y2 = if m <= 2 { y - 1 } else { y };
    let mp = if m > 2 { m - 3 } else { m + 9 };
    march_day(y2) + month_day(mp) + d - 1 - 719_468
}

/// The year within its era, of a day within its era.
pub open spec fn year_of_era(doe: int) -> int {
    (doe - doe / 1_460 + doe / 36_524 - doe / 146_096) / 365
}

/// The date with a given number.
#[verifier::opaque]
pub open spec fn date_of(days: int) -> (int, int, int) {
    let z = days + 719_468;
    let era = z / 146_097;
    let doe = z % 146_097;
    let yoe = year_of_era(doe);
    let doy = doe - era_day(yoe);
    let mp = (5 * doy + 2) / 153;
    let d = doy - (153 * mp + 2) / 5 + 1;
    let m = if mp < 10 { mp + 3 } else { mp - 9 };
    let y = yoe + era * 400;
    (if m <= 2 { y + 1 } else { y }, m, d)
}

proof fn lemma_year_of_era_bits(doe: u32, yoe: u32, next: u32)
    by (bit_vector)
    requires
        doe <= 146_096,
        next == yoe + 1,
        yoe == (doe - doe / 1_460 + doe / 36_524 - doe / 146_096) / 365,
    ensures
        yoe <= 399,
        365 * yoe + yoe / 4 - yoe / 100 <= doe,
        doe <= 365 * yoe + yoe / 4 - yoe / 100 + 365,
        yoe < 399 ==> doe < 365 * next + next / 4 - next / 100,
{
}

proof fn lemma_year_of_era(doe: int)
    requires
        0 <= doe <= 146_096,
    ensures
        0 <= year_of_era(doe) <= 399,
        0 <= doe - era_day(year_of_era(doe)) <= 365,
        doe < era_day(year_of_era(doe) + 1) || year_of_era(doe) == 399,
{
    let d = doe as u32;
    let y = year_of_era(doe) as u32;
    assert(0 <= year_of_era(doe) <= 400);
    lemma_year_of_era_bits(d, y, (y + 1) as u32);
}

/// The month and the day that a day within its year, counted from March, falls on.
proof fn lemma_month_of_year(doy: int)
    requires
        0 <= doy <= 365,
    ensures
        ({
            let mp = (5 * doy + 2) / 153;
            let d = doy - (153 * mp + 2) / 5 + 1;
            &&& 0 <= mp <= 11
            &&& 1 <= d <= 31
            &&& (mp == 1 || mp == 3 || mp == 6 || mp == 8) ==> d <= 30
            &&& mp == 11 ==> d <= 29 && (d == 29 <==> doy == 365)
        }),
{
    let mp = (5 * doy + 2) / 153;
    assert(0 <= mp <= 11);
    assert(153 * mp <= 5 * doy + 2 < 153 * mp + 153);
    if mp == 0 {
    } else if mp == 1 {
    } else if mp == 2 {
    } else if mp == 3 {
    } else if mp == 4 {
    } else if mp == 5 {
    } else if mp == 6 {
    } else if mp == 7 {
    } else if mp == 8 {
    } else if mp == 9 {
    } else if mp == 10 {
    }
}

proof fn lemma_leap_february(yoe: int, era: int)
    requires
        0 <= yoe <= 399,
        era_day(yoe) + 365 < era_day(yoe + 1) || yoe == 399,
    ensures
        is_leap(yoe + era * 400 + 1),
{
    let y = yoe + era * 400 + 1;
    assert(y % 4 == (yoe + 1) % 4);
    assert(y % 100 == (yoe + 1) % 100);
    assert(y % 400 == (yoe + 1) % 400);
}

/// The date with a given number is a date, and has that number.
#[verifier::spinoff_prover]
pub proof fn law_date_of_inverts_day_number(days: int)
    ensures
        ({
            let (y, m, d) = date_of(days);
            &&& is_date(y, m, d)
            &&& day_number(y, m, d) == days
        }),
{
    reveal(date_of);
    let z = days + 719_468;
    let era = z / 146_097;
    let doe = z % 146_097;
    lemma_year_of_era(doe);
    let yoe = year_of_era(doe);
    let doy = doe - era_day(yoe);
    let mp = (5 * doy + 2) / 153;
    lemma_month_of_year(doy);
    let y = yoe + era * 400;
    assert(y / 400 == era);
    let (year, m, d) = date_of(days);
    assert(day_number(year, m, d) == days) by {
        let y2 = if m <= 2 { year - 1 } else { year };
        assert(y2 == y);
        reveal(march_day);
        assert(y2 - (y2 / 400) * 400 == yoe);
        assert((if m > 2 { m - 3 } else { m + 9 }) == mp);
    }
    assert(is_date(year, m, d)) by {
        if mp == 11 && doy == 365 {
            lemma_leap_february(yoe, era);
        }
    }
}

/// From one first of March to the next there is a day more where a leap day lies between.
#[verifier::spinoff_prover]
proof fn lemma_march_to_march(y: int)
    ensures
        march_day(y) - march_day(y - 1) == if is_leap(y) { 366int } else { 365 },
{
    reveal(march_day);
    let e = y / 400;
    let r = y % 400;
    assert(y == e * 400 + r);
    assert(y % 4 == r % 4 && y % 100 == r % 100);
    if r == 0 {
        assert((y - 1) / 400 == e - 1);
    } else {
        assert((y - 1) / 400 == e);
        assert(r / 4 - (r - 1) / 4 == if r % 4 == 0 { 1int } else { 0 });
        assert(r / 100 - (r - 1) / 100 == if r % 100 == 0 { 1int } else { 0 });
    }
}

/// The day after a date has the next number, through the ends of months, of years and of
/// leap Februaries; and the first of January 1970 is day zero. So the numbering is the
/// calendar's.
pub proof fn law_day_numbers_follow_the_calendar(y: int, m: int, d: int)
    requires
        is_date(y, m, d),
    ensures
        day_number(1970, 1, 1) == 0,
        d < month_len(y, m) ==> day_number(y, m, d + 1) == day_number(y, m, d) + 1,
        d == month_len(y, m) && m < 12 ==> day_number(y, m + 1, 1) == day_number(y, m, d) + 1,
        d == month_len(y, m) && m == 12 ==> day_number(y + 1, 1, 1) == day_number(y, m, d) + 1,
{
    assert(march_day(1969) == 719_162) by {
        reveal(march_day);
    }
    lemma_march_to_march(y);
}

// ── Stamps ────────────────────────────────────────────────────────────────────

/// Text brought to a width with zeros before it.
pub open spec fn zero_pad(s: Seq<char>, width: nat) -> Seq<char> {
    if s.len() >= width {
        s
    } else {
        Seq::new((width - s.len()) as nat, |i: int| '0') + s
    }
}

/// A number in decimal, brought to a width with zeros, its sign counted in the width.
pub open spec fn padded(n: int, width: nat) -> Seq<char> {
    if n < 0 {
        seq!['-'] + zero_pad(decimal((-n) as nat), (width - 1) as nat)
    } else {
        zero_pad(decimal(n as nat), width)
    }
}

/// A date and a time of day, as RFC 3339 in UTC.
pub open spec fn stamp_of(y: int, m: int, d: int, hh: int, mm: int, ss: int) -> Seq<char> {
    padded(y, 4) + "-"@ + padded(m, 2) + "-"@ + padded(d, 2) + "T"@ + padded(hh, 2) + ":"@ + padded(
        mm,
        2,
    ) + ":"@ + padded(ss, 2) + "Z"@
}

/// The moment `secs` seconds after the start of 1970, as RFC 3339 in UTC.
pub open spec fn stamp(secs: int) -> Seq<char> {
    let (y, m, d) = date_of(secs / 86_400);
    let t = secs % 86_400;
    stamp_of(y, m, d, t / 3_600, (t % 3_600) / 60, t % 60)
}

/// Division towards minus infinity.
fn div_floor(a: i64, b: i64) -> (r: i64)
    requires
        b > 0,
    ensures
        r == a as int / b as int,
{
    if a >= 0 {
        (a as u64 / b as u64) as i64
    } else {
        let up: u64 = (-(a + 1)) as u64;
        let q: i64 = (up / b as u64) as i64;
        proof {
            let x = -(a + 1);
            assert(a as int == -x - 1);
            assert((-x - 1) / (b as int) == -(x / (b as int)) - 1) by (nonlinear_arith)
                requires
                    x >= 0,
                    b > 0,
            ;
        }
        -q - 1
    }
}

/// What division towards minus infinity leaves.
fn rem_floor(a: i64, b: i64) -> (r: i64)
    requires
        b > 0,
    ensures
        r == a as int % b as int,
{
    if a >= 0 {
        (a as u64 % b as u64) as i64
    } else {
        let up: u64 = (-(a + 1)) as u64;
        let m: i64 = (up % b as u64) as i64;
        proof {
            let x = -(a + 1);
            assert(a as int == -x - 1);
            let q = x / (b as int);
            let r = x % (b as int);
            vstd::arithmetic::div_mod::lemma_fundamental_div_mod(x as int, b as int);
            assert(-x - 1 == (-q - 1) * (b as int) + (b - 1 - r)) by (nonlinear_arith)
                requires
                    x == (b as int) * q + r,
            ;
            vstd::arithmetic::div_mod::lemma_fundamental_div_mod_converse(
                -x - 1,
                b as int,
                -q - 1,
                b - 1 - r,
            );
        }
        b - 1 - m
    }
}

fn zero_padded(s: String, width: usize) -> (r: String)
    ensures
        r@ == zero_pad(s@, width as nat),
{
    let n: usize = crate::text::chars_of(s.as_str()).len();
    if n >= width {
        return s;
    }
    let mut out = String::new();
    let mut i: usize = n;
    while i < width
        invariant
            n <= i <= width,
            out@ == Seq::new((i - n) as nat, |k: int| '0'),
        decreases width - i,
    {
        out.push('0');
        i += 1;
        assert(out@ =~= Seq::new((i - n) as nat, |k: int| '0'));
    }
    out.append(s.as_str());
    out
}

fn padded_of(n: i64, width: usize) -> (r: String)
    requires
        n > i64::MIN,
        width >= 1,
    ensures
        r@ == padded(n as int, width as nat),
{
    if n < 0 {
        let mut out = String::new();
        out.push('-');
        let digits = zero_padded(decimal_of((-n) as u64), width - 1);
        out.append(digits.as_str());
        assert(out@ =~= padded(n as int, width as nat));
        out
    } else {
        zero_padded(decimal_of(n as u64), width)
    }
}

/// The date with a given number, for a number that is one of seconds over a day's.
fn civil_from_days(days: i64) -> (r: (i64, i64, i64))
    requires
        -110_000_000_000_000 <= days <= 110_000_000_000_000,
    ensures
        (r.0 as int, r.1 as int, r.2 as int) == date_of(days as int),
        -400_000_000_000 <= r.0 <= 400_000_000_000,
{
    let z: i64 = days + 719_468;
    let era: i64 = div_floor(z, 146_097);
    let doe: i64 = z - era * 146_097;
    proof {
        reveal(date_of);
        assert(doe == z as int % 146_097);
        lemma_year_of_era(doe as int);
    }
    let doe: u64 = doe as u64;
    let yoe: u64 = (doe - doe / 1_460 + doe / 36_524 - doe / 146_096) / 365;
    let y: i64 = yoe as i64 + era * 400;
    let doy: u64 = doe - (365 * yoe + yoe / 4 - yoe / 100);
    let mp: u64 = (5 * doy + 2) / 153;
    let d: u64 = doy - (153 * mp + 2) / 5 + 1;
    let m: u64 = if mp < 10 {
        mp + 3
    } else {
        mp - 9
    };
    (if m <= 2 {
        y + 1
    } else {
        y
    }, m as i64, d as i64)
}

/// The moment `secs` seconds after the start of 1970, as RFC 3339 in UTC.
pub fn rfc3339(secs: i64) -> (r: String)
    ensures
        r@ == stamp(secs as int),
{
    let days: i64 = div_floor(secs, 86_400);
    let time: u64 = rem_floor(secs, 86_400) as u64;
    let (y, m, d) = civil_from_days(days);
    proof {
        law_date_of_inverts_day_number(days as int);
    }
    let mut out = padded_of(y, 4);
    out.append("-");
    out.append(padded_of(m, 2).as_str());
    out.append("-");
    out.append(padded_of(d, 2).as_str());
    out.append("T");
    out.append(padded_of((time / 3_600) as i64, 2).as_str());
    out.append(":");
    out.append(padded_of(((time % 3_600) / 60) as i64, 2).as_str());
    out.append(":");
    out.append(padded_of((time % 60) as i64, 2).as_str());
    out.append("Z");
    out
}

/// `SystemTime::elapsed` of the start of 1970, in whole seconds; none where the clock
/// stands before it. Nothing is claimed of what a clock shows.
#[verifier::external_body]
fn unix_seconds() -> (r: u64) {
    std::time::UNIX_EPOCH.elapsed().map(|d| d.as_secs()).unwrap_or(0)
}

/// Now, as RFC 3339 in UTC.
pub fn now_rfc3339() -> (r: String)
    ensures
        exists|secs: i64| r@ == #[trigger] stamp(secs as int),
{
    #[verifier::truncate]
    let secs: i64 = unix_seconds() as i64;
    rfc3339(secs)
}

/// Whether a byte is a decimal digit.
pub open spec fn is_digit(b: u8) -> bool {
    48 <= b <= 57
}

/// The number that digits write.
pub open spec fn digits_value(s: Seq<u8>) -> int
    decreases s.len(),
{
    if s.len() == 0 {
        0
    } else {
        digits_value(s.drop_last()) * 10 + (s.last() - 48)
    }
}

/// Whether bytes are digits, and there is at least one.
pub open spec fn all_digits(s: Seq<u8>) -> bool {
    s.len() > 0 && forall|i: int| 0 <= i < s.len() ==> is_digit(#[trigger] s[i])
}

/// The number that bytes write, with or without a sign, where they write one.
pub open spec fn signed_value(s: Seq<u8>) -> Option<int> {
    if s.len() > 1 && s[0] == 45 && all_digits(s.skip(1)) {
        Some(-digits_value(s.skip(1)))
    } else if s.len() > 1 && s[0] == 43 && all_digits(s.skip(1)) {
        Some(digits_value(s.skip(1)))
    } else if all_digits(s) {
        Some(digits_value(s))
    } else {
        None
    }
}

/// The seconds from the start of 1970 that a stamp names, its fields read by position.
pub open spec fn epoch(s: Seq<u8>) -> Option<int> {
    if s.len() < 20 {
        None
    } else {
        match (
            signed_value(s.subrange(0, 4)),
            signed_value(s.subrange(5, 7)),
            signed_value(s.subrange(8, 10)),
            signed_value(s.subrange(11, 13)),
            signed_value(s.subrange(14, 16)),
            signed_value(s.subrange(17, 19)),
        ) {
            (Some(y), Some(m), Some(d), Some(hh), Some(mm), Some(ss)) => Some(
                day_number(y, m, d) * 86_400 + hh * 3_600 + mm * 60 + ss,
            ),
            _ => None,
        }
    }
}

/// The whole seconds from one stamp to another, or none where either cannot be read or the
/// second is the earlier.
pub open spec fn seconds_from_to(started: Seq<char>, ended: Seq<char>) -> int {
    match (epoch(encode_utf8(started)), epoch(encode_utf8(ended))) {
        (Some(a), Some(b)) if b >= a => b - a,
        _ => 0,
    }
}

proof fn lemma_digits_bound(s: Seq<u8>)
    requires
        forall|i: int| 0 <= i < s.len() ==> is_digit(#[trigger] s[i]),
    ensures
        digits_value(s) >= 0,
        s.len() <= 1 ==> digits_value(s) <= 9,
        s.len() <= 2 ==> digits_value(s) <= 99,
        s.len() <= 3 ==> digits_value(s) <= 999,
        s.len() <= 4 ==> digits_value(s) <= 9_999,
    decreases s.len(),
{
    if s.len() > 0 {
        assert(is_digit(s[s.len() - 1]));
        lemma_digits_bound(s.drop_last());
    }
}

/// The number at `from` up to `to`, at most four bytes.
fn number_at(b: &[u8], from: usize, to: usize) -> (r: Option<i64>)
    requires
        from < to <= b@.len(),
        to - from <= 4,
    ensures
        match r {
            Some(n) => signed_value(b@.subrange(from as int, to as int)) == Some(n as int) && -999
                <= n <= 9_999 && (to - from <= 2 ==> -9 <= n <= 99),
            None => signed_value(b@.subrange(from as int, to as int)) is None,
        },
{
    let ghost s = b@.subrange(from as int, to as int);
    let signed: bool = to - from > 1 && (b[from] == 43 || b[from] == 45);
    let start: usize = if signed {
        from + 1
    } else {
        from
    };
    let ghost digits = if signed { s.skip(1) } else { s };
    assert(digits =~= b@.subrange(start as int, to as int));
    let mut n: i64 = 0;
    let mut i: usize = start;
    assert(digits.take(0) =~= Seq::<u8>::empty());
    while i < to
        invariant
            from <= start <= i <= to <= b@.len(),
            to - from <= 4,
            start < to,
            s == b@.subrange(from as int, to as int),
            signed == (s.len() > 1 && (s[0] == 43 || s[0] == 45)),
            start == if signed { from + 1 } else { from as int },
            digits == if signed { s.skip(1) } else { s },
            digits == b@.subrange(start as int, to as int),
            forall|k: int| 0 <= k < i - start ==> is_digit(#[trigger] digits[k]),
            n == digits_value(digits.take(i - start)),
        decreases to - i,
    {
        proof {
            lemma_digits_bound(digits.take(i - start));
        }
        let c: u8 = b[i];
        assert(digits[i - start] == c);
        if c < 48 || c > 57 {
            assert(!is_digit(digits[i - start]));
            assert(signed ==> !is_digit(s[0]));
            return None;
        }
        n = n * 10 + (c as i64 - 48);
        proof {
            assert(digits.take(i + 1 - start).drop_last() =~= digits.take(i - start));
        }
        i += 1;
    }
    proof {
        assert(digits.take(to - start) =~= digits);
        lemma_digits_bound(digits);
    }
    if signed && b[from] == 45 {
        Some(-n)
    } else {
        Some(n)
    }
}

fn epoch_of(b: &[u8]) -> (r: Option<i64>)
    ensures
        match r {
            Some(n) => epoch(b@) == Some(n as int) && -1_000_000_000_000 <= n <= 1_000_000_000_000,
            None => epoch(b@) is None,
        },
{
    if b.len() < 20 {
        return None;
    }
    let (y, m, d, hh, mm, ss) = match (
        number_at(b, 0, 4),
        number_at(b, 5, 7),
        number_at(b, 8, 10),
        number_at(b, 11, 13),
        number_at(b, 14, 16),
        number_at(b, 17, 19),
    ) {
        (Some(y), Some(m), Some(d), Some(hh), Some(mm), Some(ss)) => (y, m, d, hh, mm, ss),
        _ => return None,
    };
    let y2: i64 = if m <= 2 {
        y - 1
    } else {
        y
    };
    let era: i64 = div_floor(y2, 400);
    let yoe: i64 = y2 - era * 400;
    let mp: i64 = if m > 2 {
        m - 3
    } else {
        m + 9
    };
    let doy: i64 = ((153 * mp as u64 + 2) / 5) as i64 + d - 1;
    let yoe: u64 = yoe as u64;
    let doe: i64 = (yoe * 365 + yoe / 4 - yoe / 100) as i64 + doy;
    proof {
        reveal(march_day);
    }
    Some((era * 146_097 + doe - 719_468) * 86_400 + hh * 3_600 + mm * 60 + ss)
}

/// Whole seconds between two stamps, or 0.
///
/// Meant for stamps made here, so it reads by position. Zero rather than an error for
/// anything unexpected: a duration nobody can compute is not a reason to lose a session.
pub fn seconds_between(started: &str, ended: &str) -> (r: u64)
    ensures
        r == seconds_from_to(started@, ended@),
{
    match (epoch_of(started.as_bytes()), epoch_of(ended.as_bytes())) {
        (Some(a), Some(b)) => if b >= a {
            (b - a) as u64
        } else {
            0
        },
        _ => 0,
    }
}

/// Whether two characters are the digits of a number below a hundred.
#[verifier::opaque]
spec fn two_digits(hi: char, lo: char, n: int) -> bool {
    &&& 0 <= n < 100
    &&& hi == digit((n / 10) as nat)
    &&& lo == digit((n % 10) as nat)
}

/// Whether four characters are the digits of a number below ten thousand.
#[verifier::opaque]
spec fn four_digits(a: char, b: char, c: char, d: char, n: int) -> bool {
    &&& 0 <= n < 10_000
    &&& a == digit((n / 1_000) as nat)
    &&& b == digit((n / 100 % 10) as nat)
    &&& c == digit((n / 10 % 10) as nat)
    &&& d == digit((n % 10) as nat)
}

proof fn lemma_padded_two(n: int)
    requires
        0 <= n < 100,
    ensures
        padded(n, 2).len() == 2,
        two_digits(padded(n, 2)[0], padded(n, 2)[1], n),
{
    reveal(two_digits);
    reveal_with_fuel(decimal, 2);
    assert(padded(n, 2) =~= seq![digit((n / 10) as nat), digit((n % 10) as nat)]);
}

proof fn lemma_padded_four(n: int)
    requires
        0 <= n < 10_000,
    ensures
        padded(n, 4).len() == 4,
        four_digits(padded(n, 4)[0], padded(n, 4)[1], padded(n, 4)[2], padded(n, 4)[3], n),
{
    reveal(four_digits);
    reveal_with_fuel(decimal, 4);
    assert(n / 10 / 10 == n / 100);
    assert(n / 100 / 10 == n / 1_000);
    assert(padded(n, 4) =~= seq![
        digit((n / 1_000) as nat),
        digit((n / 100 % 10) as nat),
        digit((n / 10 % 10) as nat),
        digit((n % 10) as nat),
    ]);
}

/// The byte of a digit.
proof fn lemma_digit_byte(d: int)
    requires
        0 <= d <= 9,
    ensures
        digit(d as nat) as u8 == 48 + d,
        digit(d as nat) as u32 == 48 + d,
        '\0' <= digit(d as nat) <= '\u{7f}',
        is_digit((48 + d) as u8),
{
}

/// Two digits, as bytes, write their number.
proof fn lemma_read_two(hi: char, lo: char, n: int, b: Seq<u8>)
    requires
        two_digits(hi, lo, n),
        b == seq![hi as u8, lo as u8],
    ensures
        signed_value(b) == Some(n),
        '\0' <= hi <= '\u{7f}',
        '\0' <= lo <= '\u{7f}',
{
    reveal(two_digits);
    lemma_digit_byte(n / 10);
    lemma_digit_byte(n % 10);
    reveal_with_fuel(digits_value, 3);
    assert(b.drop_last() =~= seq![hi as u8]);
    assert(b.drop_last().drop_last() =~= Seq::<u8>::empty());
    assert(all_digits(b));
}

/// Four digits, as bytes, write their number.
proof fn lemma_read_four(a: char, b: char, c: char, d: char, n: int, s: Seq<u8>)
    requires
        four_digits(a, b, c, d, n),
        s == seq![a as u8, b as u8, c as u8, d as u8],
    ensures
        signed_value(s) == Some(n),
        '\0' <= a <= '\u{7f}',
        '\0' <= b <= '\u{7f}',
        '\0' <= c <= '\u{7f}',
        '\0' <= d <= '\u{7f}',
{
    reveal(four_digits);
    lemma_digit_byte(n / 1_000);
    lemma_digit_byte(n / 100 % 10);
    lemma_digit_byte(n / 10 % 10);
    lemma_digit_byte(n % 10);
    reveal_with_fuel(digits_value, 5);
    let s3 = s.drop_last();
    let s2 = s3.drop_last();
    let s1 = s2.drop_last();
    assert(s1.drop_last() =~= Seq::<u8>::empty());
    assert(digits_value(s1) == n / 1_000);
    assert(digits_value(s2) == n / 1_000 * 10 + n / 100 % 10);
    assert(n / 1_000 * 10 + n / 100 % 10 == n / 100);
    assert(digits_value(s3) == n / 100 * 10 + n / 10 % 10);
    assert(n / 100 * 10 + n / 10 % 10 == n / 10);
    assert(all_digits(s));
}

/// Twenty characters with digits where a stamp has them read as a stamp.
proof fn lemma_fields_read(cs: Seq<char>, y: int, m: int, d: int, hh: int, mm: int, ss: int)
    requires
        cs.len() == 20,
        four_digits(cs[0], cs[1], cs[2], cs[3], y),
        two_digits(cs[5], cs[6], m),
        two_digits(cs[8], cs[9], d),
        two_digits(cs[11], cs[12], hh),
        two_digits(cs[14], cs[15], mm),
        two_digits(cs[17], cs[18], ss),
        cs[4] == '-' && cs[7] == '-' && cs[10] == 'T' && cs[13] == ':' && cs[16] == ':' && cs[19]
            == 'Z',
    ensures
        epoch(encode_utf8(cs)) == Some(
            day_number(y, m, d) * 86_400 + hh * 3_600 + mm * 60 + ss,
        ),
{
    let q = |i: int, j: int| seq![cs[i] as u8, cs[j] as u8];
    lemma_read_four(
        cs[0],
        cs[1],
        cs[2],
        cs[3],
        y,
        seq![cs[0] as u8, cs[1] as u8, cs[2] as u8, cs[3] as u8],
    );
    lemma_read_two(cs[5], cs[6], m, q(5, 6));
    lemma_read_two(cs[8], cs[9], d, q(8, 9));
    lemma_read_two(cs[11], cs[12], hh, q(11, 12));
    lemma_read_two(cs[14], cs[15], mm, q(14, 15));
    lemma_read_two(cs[17], cs[18], ss, q(17, 18));
    assert(vstd::utf8::is_ascii_chars(cs));
    vstd::utf8::is_ascii_chars_encode_utf8(cs);
    let b = encode_utf8(cs);
    assert(b.subrange(0, 4) =~= seq![cs[0] as u8, cs[1] as u8, cs[2] as u8, cs[3] as u8]);
    assert(b.subrange(5, 7) =~= q(5, 6));
    assert(b.subrange(8, 10) =~= q(8, 9));
    assert(b.subrange(11, 13) =~= q(11, 12));
    assert(b.subrange(14, 16) =~= q(14, 15));
    assert(b.subrange(17, 19) =~= q(17, 18));
}

/// The year of a day up to the end of the year 9999 has four digits.
proof fn lemma_four_digit_year(days: int)
    requires
        0 <= days <= 2_932_896,
    ensures
        1_600 <= date_of(days).0 <= 9_999,
{
    reveal(date_of);
    let z = days + 719_468;
    let era = z / 146_097;
    let doe = z % 146_097;
    lemma_year_of_era(doe);
    let yoe = year_of_era(doe);
    let doy = doe - era_day(yoe);
    lemma_month_of_year(doy);
    assert(4 <= era <= 24);
    if era == 24 && yoe == 399 {
        assert(doe <= 146_036);
        assert(era_day(399) == 145_731);
        assert(doy <= 305);
        assert((5 * doy + 2) / 153 <= 9);
    }
}

/// Where the fields of a stamp stand.
proof fn lemma_layout(
    y: Seq<char>,
    m: Seq<char>,
    d: Seq<char>,
    hh: Seq<char>,
    mm: Seq<char>,
    ss: Seq<char>,
)
    requires
        y.len() == 4,
        m.len() == 2,
        d.len() == 2,
        hh.len() == 2,
        mm.len() == 2,
        ss.len() == 2,
    ensures
        y + "-"@ + m + "-"@ + d + "T"@ + hh + ":"@ + mm + ":"@ + ss + "Z"@ == seq![
            y[0],
            y[1],
            y[2],
            y[3],
            '-',
            m[0],
            m[1],
            '-',
            d[0],
            d[1],
            'T',
            hh[0],
            hh[1],
            ':',
            mm[0],
            mm[1],
            ':',
            ss[0],
            ss[1],
            'Z',
        ],
{
    reveal_strlit("-");
    reveal_strlit("T");
    reveal_strlit(":");
    reveal_strlit("Z");
}

/// The fields of a stamp read back.
proof fn lemma_stamp_of_reads_back(y: int, m: int, d: int, hh: int, mm: int, ss: int)
    requires
        0 <= y <= 9_999,
        0 <= m <= 99,
        0 <= d <= 99,
        0 <= hh <= 99,
        0 <= mm <= 99,
        0 <= ss <= 99,
    ensures
        epoch(encode_utf8(stamp_of(y, m, d, hh, mm, ss))) == Some(
            day_number(y, m, d) * 86_400 + hh * 3_600 + mm * 60 + ss,
        ),
{
    lemma_padded_four(y);
    lemma_padded_two(m);
    lemma_padded_two(d);
    lemma_padded_two(hh);
    lemma_padded_two(mm);
    lemma_padded_two(ss);
    lemma_layout(
        padded(y, 4),
        padded(m, 2),
        padded(d, 2),
        padded(hh, 2),
        padded(mm, 2),
        padded(ss, 2),
    );
    lemma_fields_read(stamp_of(y, m, d, hh, mm, ss), y, m, d, hh, mm, ss);
}

/// A stamp names the moment it was made for, up to the end of the year 9999.
pub proof fn law_a_stamp_reads_back(secs: int)
    requires
        0 <= secs < 253_402_300_800,
    ensures
        epoch(encode_utf8(stamp(secs))) == Some(secs),
{
    let days = secs / 86_400;
    let t = secs % 86_400;
    let (y, m, d) = date_of(days);
    law_date_of_inverts_day_number(days);
    lemma_four_digit_year(days);
    lemma_stamp_of_reads_back(y, m, d, t / 3_600, (t % 3_600) / 60, t % 60);
    assert(t / 3_600 * 3_600 + (t % 3_600) / 60 * 60 + t % 60 == t);
}

/// The seconds between two stamps are the seconds between the moments they were made for.
pub proof fn law_seconds_between_stamps(started: int, ended: int)
    requires
        0 <= started <= ended < 253_402_300_800,
    ensures
        seconds_from_to(stamp(started), stamp(ended)) == ended - started,
{
    law_a_stamp_reads_back(started);
    law_a_stamp_reads_back(ended);
}

// ── The order of stamps ───────────────────────────────────────────────────────

/// An earlier month of a year holds only earlier days.
proof fn lemma_earlier_month(y: int, m: int, d: int, m2: int, d2: int)
    requires
        is_date(y, m, d),
        is_date(y, m2, d2),
        m < m2,
    ensures
        day_number(y, m, d) < day_number(y, m2, d2),
    decreases m2 - m,
{
    law_day_numbers_follow_the_calendar(y, m, month_len(y, m));
    if m + 1 < m2 {
        lemma_earlier_month(y, m + 1, 1, m2, d2);
    }
}

/// An earlier year holds only earlier days.
proof fn lemma_earlier_year(y: int, m: int, d: int, y2: int, m2: int, d2: int)
    requires
        is_date(y, m, d),
        is_date(y2, m2, d2),
        y < y2,
    ensures
        day_number(y, m, d) < day_number(y2, m2, d2),
    decreases y2 - y,
{
    law_day_numbers_follow_the_calendar(y, 12, 31);
    if m < 12 {
        lemma_earlier_month(y, m, d, 12, 31);
    }
    if y + 1 < y2 {
        lemma_earlier_year(y + 1, 1, 1, y2, m2, d2);
    } else if m2 > 1 {
        lemma_earlier_month(y2, 1, 1, m2, d2);
    }
}

/// The fields of a moment's stamp.
spec fn fields_of(secs: int) -> Seq<int> {
    let (y, m, d) = date_of(secs / 86_400);
    let t = secs % 86_400;
    seq![y, m, d, t / 3_600, (t % 3_600) / 60, t % 60]
}

proof fn lemma_fields_before(a: int, b: int) -> (k: int)
    requires
        a < b,
    ensures
        0 <= k < 6,
        fields_of(a)[k] < fields_of(b)[k],
        forall|i: int| 0 <= i < k ==> #[trigger] fields_of(a)[i] == fields_of(b)[i],
{
    let (y, m, d) = date_of(a / 86_400);
    let (y2, m2, d2) = date_of(b / 86_400);
    law_date_of_inverts_day_number(a / 86_400);
    law_date_of_inverts_day_number(b / 86_400);
    let t = a % 86_400;
    let t2 = b % 86_400;
    if y2 < y {
        lemma_earlier_year(y2, m2, d2, y, m, d);
    }
    if y2 == y && m2 < m {
        lemma_earlier_month(y, m2, d2, m, d);
    }
    if y < y2 {
        0
    } else if m < m2 {
        1
    } else if d < d2 {
        2
    } else if t / 3_600 < t2 / 3_600 {
        3
    } else if (t % 3_600) / 60 < (t2 % 3_600) / 60 {
        4
    } else {
        5
    }
}

/// Texts of one length that first differ where the one has the smaller character.
proof fn lemma_lex_at(a: Seq<char>, b: Seq<char>, k: int)
    requires
        0 <= k < a.len(),
        a.len() == b.len(),
        a[k] < b[k],
        forall|i: int| 0 <= i < k ==> #[trigger] a[i] == b[i],
    ensures
        lex_le(a, b),
        a != b,
    decreases k,
{
    if k > 0 {
        assert(a[0] == b[0]);
        let (s, t) = (a.drop_first(), b.drop_first());
        assert forall|i: int| 0 <= i < k - 1 implies #[trigger] s[i] == t[i] by {
            assert(a[i + 1] == b[i + 1]);
        }
        lemma_lex_at(s, t, k - 1);
    }
}

proof fn lemma_two_in_order(a: char, b: char, n: int, a2: char, b2: char, n2: int)
    requires
        two_digits(a, b, n),
        two_digits(a2, b2, n2),
    ensures
        n == n2 ==> a == a2 && b == b2,
        n < n2 ==> a < a2 || (a == a2 && b < b2),
{
    reveal(two_digits);
    lemma_digit_byte(n / 10);
    lemma_digit_byte(n % 10);
    lemma_digit_byte(n2 / 10);
    lemma_digit_byte(n2 % 10);
}

proof fn lemma_four_parts(n: int)
    requires
        0 <= n < 10_000,
    ensures
        n == 1_000 * (n / 1_000) + 100 * (n / 100 % 10) + 10 * (n / 10 % 10) + n % 10,
{
    assert(n / 1_000 * 10 + n / 100 % 10 == n / 100);
    assert(n / 100 * 10 + n / 10 % 10 == n / 10);
}

/// Four digits, and the number they write.
proof fn lemma_four_values(a: char, b: char, c: char, d: char, n: int) -> (r: (int, int, int, int))
    requires
        four_digits(a, b, c, d, n),
    ensures
        0 <= r.0 <= 9 && 0 <= r.1 <= 9 && 0 <= r.2 <= 9 && 0 <= r.3 <= 9,
        a == digit(r.0 as nat),
        b == digit(r.1 as nat),
        c == digit(r.2 as nat),
        d == digit(r.3 as nat),
        n == 1_000 * r.0 + 100 * r.1 + 10 * r.2 + r.3,
{
    assert(0 <= n < 10_000 && a == digit((n / 1_000) as nat) && b == digit((n / 100 % 10) as nat)
        && c == digit((n / 10 % 10) as nat) && d == digit((n % 10) as nat)) by {
        reveal(four_digits);
    }
    lemma_four_parts(n);
    (n / 1_000, n / 100 % 10, n / 10 % 10, n % 10)
}

/// Digits are in the order of what they write.
proof fn lemma_digits_in_order(d: int, e: int)
    requires
        0 <= d <= 9,
        0 <= e <= 9,
    ensures
        d < e ==> digit(d as nat) < digit(e as nat),
{
    lemma_digit_byte(d);
    lemma_digit_byte(e);
}

proof fn lemma_four_in_order(a: Seq<char>, n: int, b: Seq<char>, n2: int)
    requires
        four_digits(a[0], a[1], a[2], a[3], n),
        four_digits(b[0], b[1], b[2], b[3], n2),
    ensures
        n == n2 ==> a[0] == b[0] && a[1] == b[1] && a[2] == b[2] && a[3] == b[3],
        n < n2 ==> {
            ||| a[0] < b[0]
            ||| a[0] == b[0] && a[1] < b[1]
            ||| a[0] == b[0] && a[1] == b[1] && a[2] < b[2]
            ||| a[0] == b[0] && a[1] == b[1] && a[2] == b[2] && a[3] < b[3]
        },
{
    let p = lemma_four_values(a[0], a[1], a[2], a[3], n);
    let q = lemma_four_values(b[0], b[1], b[2], b[3], n2);
    lemma_digits_in_order(p.0, q.0);
    lemma_digits_in_order(p.1, q.1);
    lemma_digits_in_order(p.2, q.2);
    lemma_digits_in_order(p.3, q.3);
}

/// Whether a text is a stamp with these fields.
spec fn has_fields(cs: Seq<char>, f: Seq<int>) -> bool {
    &&& cs.len() == 20
    &&& four_digits(cs[0], cs[1], cs[2], cs[3], f[0])
    &&& two_digits(cs[5], cs[6], f[1])
    &&& two_digits(cs[8], cs[9], f[2])
    &&& two_digits(cs[11], cs[12], f[3])
    &&& two_digits(cs[14], cs[15], f[4])
    &&& two_digits(cs[17], cs[18], f[5])
    &&& cs[4] == '-' && cs[7] == '-' && cs[10] == 'T' && cs[13] == ':' && cs[16] == ':' && cs[19]
        == 'Z'
}

proof fn lemma_stamp_has_fields(secs: int)
    requires
        0 <= secs < 253_402_300_800,
    ensures
        has_fields(stamp(secs), fields_of(secs)),
{
    let f = fields_of(secs);
    law_date_of_inverts_day_number(secs / 86_400);
    lemma_four_digit_year(secs / 86_400);
    lemma_padded_four(f[0]);
    lemma_padded_two(f[1]);
    lemma_padded_two(f[2]);
    lemma_padded_two(f[3]);
    lemma_padded_two(f[4]);
    lemma_padded_two(f[5]);
    lemma_layout(
        padded(f[0], 4),
        padded(f[1], 2),
        padded(f[2], 2),
        padded(f[3], 2),
        padded(f[4], 2),
        padded(f[5], 2),
    );
}

proof fn lemma_first_difference(a: Seq<char>, f: Seq<int>, b: Seq<char>, g: Seq<int>, k: int)
    requires
        has_fields(a, f),
        has_fields(b, g),
        0 <= k < 6,
        f[k] < g[k],
        forall|i: int| 0 <= i < k ==> #[trigger] f[i] == g[i],
    ensures
        lex_le(a, b),
        a != b,
{
    lemma_four_in_order(a, f[0], b, g[0]);
    lemma_two_in_order(a[5], a[6], f[1], b[5], b[6], g[1]);
    lemma_two_in_order(a[8], a[9], f[2], b[8], b[9], g[2]);
    lemma_two_in_order(a[11], a[12], f[3], b[11], b[12], g[3]);
    lemma_two_in_order(a[14], a[15], f[4], b[14], b[15], g[4]);
    lemma_two_in_order(a[17], a[18], f[5], b[17], b[18], g[5]);
    if k == 0 {
        let p = if a[0] < b[0] {
            0int
        } else if a[1] < b[1] {
            1
        } else if a[2] < b[2] {
            2
        } else {
            3
        };
        lemma_lex_at(a, b, p);
    } else {
        assert(f[0] == g[0]);
        assert(k > 1 ==> f[1] == g[1]);
        assert(k > 2 ==> f[2] == g[2]);
        assert(k > 3 ==> f[3] == g[3]);
        assert(k > 4 ==> f[4] == g[4]);
        let p = if a[3 * k + 2] < b[3 * k + 2] {
            3 * k + 2
        } else {
            3 * k + 3
        };
        lemma_lex_at(a, b, p);
    }
}

/// Stamps sort as text in the order of their moments, up to the end of the year 9999.
pub proof fn law_stamps_sort_by_time(earlier: int, later: int)
    requires
        0 <= earlier < later < 253_402_300_800,
    ensures
        lex_le(stamp(earlier), stamp(later)),
        stamp(earlier) != stamp(later),
{
    let k = lemma_fields_before(earlier, later);
    lemma_stamp_has_fields(earlier);
    lemma_stamp_has_fields(later);
    lemma_first_difference(
        stamp(earlier),
        fields_of(earlier),
        stamp(later),
        fields_of(later),
        k,
    );
}

} // verus!
