//! Instants, RFC 3339 text, calendar dates and time-zone offsets.
//!
//! An instant is held as nanoseconds since the Unix epoch (`i128`).
use vstd::prelude::*;
use crate::text::chars_of;

verus! {

pub const NANOS_PER_SECOND: i128 = 1_000_000_000;

pub const SECONDS_PER_DAY: i64 = 86_400;

/// Julian day number of 1970-01-01.
pub const UNIX_EPOCH_JULIAN_DAY: i64 = 2_440_588;

/// No instant that the RFC 3339 parser yields lies farther from the epoch than this:
/// 10^14 seconds, beyond the calendar's year range of ±999 999 years.
pub const INSTANT_BOUND: i128 = 100_000_000_000_000_000_000_000;

pub const TZ_OFFSET_MINUTES_MIN: i32 = -840;

pub const TZ_OFFSET_MINUTES_MAX: i32 = 840;

/// Largest whole-second UTC offset that is representable (25:59:59).
pub const UTC_OFFSET_SECONDS_MAX: i32 = 93_599;

pub open spec fn instant_in_range(t: i128) -> bool {
    -INSTANT_BOUND <= t <= INSTANT_BOUND
}

/// Whether an instant lies in the range that the parser yields.
pub fn instant_ok(t: i128) -> (r: bool)
    ensures
        r == instant_in_range(t),
{
    -INSTANT_BOUND <= t && t <= INSTANT_BOUND
}

/// The instant that an RFC 3339 text denotes, if the parser accepts it.
pub uninterp spec fn rfc3339_instant(s: Seq<char>) -> Option<i128>;

/// The RFC 3339 text of an instant, or the empty text where it cannot be formatted.
pub uninterp spec fn rfc3339_text(t: i128) -> Seq<char>;

/// Largest year magnitude of the calendar.
pub const CALENDAR_YEAR_MAX: i32 = 9999;

pub open spec fn is_leap_year(y: int) -> bool {
    y % 4 == 0 && (y % 100 != 0 || y % 400 == 0)
}

pub open spec fn days_in_month(y: int, m: int) -> int {
    if m == 2 {
        if is_leap_year(y) { 29 } else { 28 }
    } else if m == 4 || m == 6 || m == 9 || m == 11 {
        30
    } else {
        31
    }
}

/// The Julian day number of a calendar date, if the date exists (proleptic Gregorian
/// calendar, years -9999 to 9999).
pub open spec fn julian_day(year: i32, month: u8, day: u8) -> Option<i32> {
    let (y, m, d) = (year as int, month as int, day as int);
    if -CALENDAR_YEAR_MAX <= y <= CALENDAR_YEAR_MAX && 1 <= m <= 12 && 1 <= d <= days_in_month(y, m) {
        let a = (14 - m) / 12;
        let yy = y + 4800 - a;
        let mm = m + 12 * a - 3;
        Some((d + (153 * mm + 2) / 5 + 365 * yy + yy / 4 - yy / 100 + yy / 400 - 32045) as i32)
    } else {
        None
    }
}

/// Relies on `time::OffsetDateTime::parse` with the `Rfc3339` description, and on
/// `unix_timestamp_nanos`: every date-time of the crate lies within years ±999 999.
#[verifier::external_body]
pub(crate) fn parse_rfc3339(s: &str) -> (r: Option<i128>)
    ensures
        r == rfc3339_instant(s@),
        r matches Some(t) ==> instant_in_range(t),
{
    time::OffsetDateTime::parse(s, &time::format_description::well_known::Rfc3339)
        .ok()
        .map(|t| t.unix_timestamp_nanos())
}

/// Relies on `time::OffsetDateTime::from_unix_timestamp_nanos` and `format` with the
/// `Rfc3339` description; an instant that either refuses gives the empty text.
#[verifier::external_body]
pub(crate) fn format_rfc3339(t: i128) -> (r: String)
    ensures
        r@ == rfc3339_text(t),
{
    time::OffsetDateTime::from_unix_timestamp_nanos(t)
        .ok()
        .and_then(|v| v.format(&time::format_description::well_known::Rfc3339).ok())
        .unwrap_or_default()
}

/// Relies on `time::Month::try_from`, `time::Date::from_calendar_date` (years ±9999,
/// leap years of the Gregorian calendar) and `Date::to_julian_day`: `None` for a date
/// that does not exist, else its Julian day number.
#[verifier::external_body]
fn calendar_julian_day(year: i32, month: u8, day: u8) -> (r: Option<i32>)
    ensures
        r == julian_day(year, month, day),
{
    let m = time::Month::try_from(month).ok()?;
    time::Date::from_calendar_date(year, m, day).ok().map(|d| d.to_julian_day())
}

pub open spec fn clamp_int(v: int, lo: int, hi: int) -> int {
    if v < lo {
        lo
    } else if v > hi {
        hi
    } else {
        v
    }
}

/// The requested offset in minutes, zero when absent, clamped to [-840, 840].
pub fn normalize_tz_offset_minutes(v: Option<i32>) -> (r: i32)
    ensures
        r == clamp_int(
            match v {
                Some(m) => m as int,
                None => 0,
            },
            TZ_OFFSET_MINUTES_MIN as int,
            TZ_OFFSET_MINUTES_MAX as int,
        ),
        TZ_OFFSET_MINUTES_MIN <= r <= TZ_OFFSET_MINUTES_MAX,
{
    let m: i32 = match v {
        Some(m) => m,
        None => 0,
    };
    if m < TZ_OFFSET_MINUTES_MIN {
        TZ_OFFSET_MINUTES_MIN
    } else if m > TZ_OFFSET_MINUTES_MAX {
        TZ_OFFSET_MINUTES_MAX
    } else {
        m
    }
}

/// The UTC offset, in seconds, of an offset given in minutes; an offset that no UTC
/// offset can represent falls back to UTC itself.
pub fn tz_offset_from_minutes(minutes: i32) -> (r: i32)
    ensures
        (-UTC_OFFSET_SECONDS_MAX <= minutes * 60 <= UTC_OFFSET_SECONDS_MAX) ==> r == minutes * 60,
        !(-UTC_OFFSET_SECONDS_MAX <= minutes * 60 <= UTC_OFFSET_SECONDS_MAX) ==> r == 0,
{
    if minutes < -1559 || minutes > 1559 {
        0
    } else {
        minutes * 60
    }
}

pub open spec fn is_digit(c: char) -> bool {
    '0' <= c <= '9'
}

pub open spec fn digit_value(c: char) -> int {
    c as int - '0' as int
}

/// The value of a non-empty run of decimal digits.
pub open spec fn digits_value(s: Seq<char>) -> int
    decreases s.len(),
{
    if s.len() == 0 {
        0
    } else {
        10 * digits_value(s.drop_last()) + digit_value(s.last())
    }
}

pub open spec fn all_digits(s: Seq<char>) -> bool {
    forall|i: int| 0 <= i < s.len() ==> is_digit(s[i])
}

/// The integer that `str::parse` reads from `s`: an optional `+` (or `-` where `signed`)
/// followed by one or more decimal digits, before any range check.
pub open spec fn integer_text_value(s: Seq<char>, signed: bool) -> Option<int> {
    if s.len() > 0 && (s[0] == '+' || (signed && s[0] == '-')) {
        let rest = s.drop_first();
        if rest.len() > 0 && all_digits(rest) {
            if s[0] == '-' {
                Some(-digits_value(rest))
            } else {
                Some(digits_value(rest))
            }
        } else {
            None
        }
    } else if s.len() > 0 && all_digits(s) {
        Some(digits_value(s))
    } else {
        None
    }
}

/// What `str::parse` gives for an integer type whose range is `[lo, hi]`.
pub open spec fn parsed_integer(s: Seq<char>, signed: bool, lo: int, hi: int) -> Option<int> {
    match integer_text_value(s, signed) {
        Some(v) => if lo <= v <= hi {
            Some(v)
        } else {
            None
        },
        None => None,
    }
}

proof fn lemma_digits_value_nonneg(s: Seq<char>)
    requires
        all_digits(s),
    ensures
        digits_value(s) >= 0,
    decreases s.len(),
{
    if s.len() > 0 {
        lemma_digits_value_nonneg(s.drop_last());
    }
}

proof fn lemma_digits_value_grows(s: Seq<char>, k: int)
    requires
        all_digits(s),
        0 <= k <= s.len(),
    ensures
        digits_value(s.subrange(0, k)) <= digits_value(s),
    decreases s.len() - k,
{
    if k < s.len() {
        lemma_digits_value_grows(s, k + 1);
        assert(s.subrange(0, k + 1).drop_last() =~= s.subrange(0, k));
        lemma_digits_value_nonneg(s.subrange(0, k));
    } else {
        assert(s.subrange(0, k) =~= s);
    }
}

/// Reads the digits of `s[from..]`; `None` where one is not a digit, where there is none,
/// or where the value exceeds `limit`.
fn read_digits(s: &[char], from: usize, limit: i64) -> (r: Option<i64>)
    requires
        from <= s@.len(),
        0 <= limit <= 1_000_000_000_000,
    ensures
        ({
            let rest = s@.subrange(from as int, s@.len() as int);
            match r {
                Some(v) => rest.len() > 0 && all_digits(rest) && v == digits_value(rest) && 0 <= v
                    <= limit,
                None => !(rest.len() > 0 && all_digits(rest) && digits_value(rest) <= limit),
            }
        }),
{
    let ghost rest = s@.subrange(from as int, s@.len() as int);
    if from == s.len() {
        return None;
    }
    let mut acc: i64 = 0;
    let mut i: usize = from;
    while i < s.len()
        invariant
            from <= i <= s@.len(),
            rest == s@.subrange(from as int, s@.len() as int),
            0 <= limit <= 1_000_000_000_000,
            all_digits(s@.subrange(from as int, i as int)),
            acc == digits_value(s@.subrange(from as int, i as int)),
            0 <= acc <= limit,
        decreases s@.len() - i,
    {
        let c = s[i];
        if !('0' <= c && c <= '9') {
            assert(!is_digit(rest[i - from]));
            return None;
        }
        let d: i64 = (c as u32 - '0' as u32) as i64;
        proof {
            assert(s@.subrange(from as int, i + 1).drop_last() =~= s@.subrange(from as int, i as int));
        }
        let next = acc * 10 + d;
        if next > limit {
            proof {
                assert(all_digits(s@.subrange(from as int, i + 1)));
                if all_digits(rest) {
                    assert(rest.subrange(0, i + 1 - from) =~= s@.subrange(from as int, i + 1));
                    lemma_digits_value_grows(rest, i + 1 - from);
                }
            }
            return None;
        }
        acc = next;
        i = i + 1;
    }
    Some(acc)
}

/// Parses an integer the way `str::parse` does for a type whose range is `[lo, hi]`.
pub fn parse_integer(s: &[char], signed: bool, lo: i64, hi: i64) -> (r: Option<i64>)
    requires
        -1_000_000_000_000 <= lo <= 0 <= hi <= 1_000_000_000_000,
    ensures
        match r {
            Some(v) => parsed_integer(s@, signed, lo as int, hi as int) == Some(v as int),
            None => parsed_integer(s@, signed, lo as int, hi as int) is None,
        },
{
    if s.len() > 0 && (s[0] == '+' || (signed && s[0] == '-')) {
        let neg = s[0] == '-';
        let limit = if neg { -lo } else { hi };
        let v = read_digits(s, 1, limit);
        assert(s@.subrange(1, s@.len() as int) =~= s@.drop_first());
        match v {
            Some(x) => if neg {
                Some(-x)
            } else {
                Some(x)
            },
            None => None,
        }
    } else {
        let v = read_digits(s, 0, hi);
        assert(s@.subrange(0, s@.len() as int) =~= s@);
        v
    }
}

/// The pieces of `s` between occurrences of `sep`, as `str::split` with a character gives them.
pub open spec fn split_seq(s: Seq<char>, sep: char) -> Seq<Seq<char>>
    decreases s.len(),
{
    if s.len() == 0 {
        seq![Seq::<char>::empty()]
    } else {
        let before = split_seq(s.drop_last(), sep);
        if s.last() == sep {
            before.push(Seq::<char>::empty())
        } else {
            before.update(before.len() - 1, before.last().push(s.last()))
        }
    }
}

proof fn lemma_split_seq_nonempty(s: Seq<char>, sep: char)
    ensures
        split_seq(s, sep).len() >= 1,
    decreases s.len(),
{
    if s.len() > 0 {
        lemma_split_seq_nonempty(s.drop_last(), sep);
    }
}

/// Splits `s` at every `sep`.
pub fn split_chars(s: &[char], sep: char) -> (r: Vec<Vec<char>>)
    ensures
        r@.len() == split_seq(s@, sep).len(),
        forall|i: int| 0 <= i < r@.len() ==> r@[i]@ == split_seq(s@, sep)[i],
{
    let mut parts: Vec<Vec<char>> = Vec::new();
    let mut cur: Vec<char> = Vec::new();
    let mut i: usize = 0;
    while i < s.len()
        invariant
            i <= s@.len(),
            parts@.len() + 1 == split_seq(s@.subrange(0, i as int), sep).len(),
            forall|k: int| 0 <= k < parts@.len() ==> parts@[k]@ == split_seq(s@.subrange(0, i as int), sep)[k],
            cur@ == split_seq(s@.subrange(0, i as int), sep).last(),
        decreases s@.len() - i,
    {
        proof {
            assert(s@.subrange(0, i + 1).drop_last() =~= s@.subrange(0, i as int));
            lemma_split_seq_nonempty(s@.subrange(0, i as int), sep);
        }
        if s[i] == sep {
            parts.push(cur);
            cur = Vec::new();
        } else {
            cur.push(s[i]);
        }
        i = i + 1;
    }
    assert(s@.subrange(0, s@.len() as int) =~= s@);
    parts.push(cur);
    parts
}

/// The start of the local day `date` (`YYYY-MM-DD`) at a UTC offset of `offset_seconds`,
/// in nanoseconds since the epoch; `None` where the text is not such a date.
pub open spec fn day_start_spec(date: Seq<char>, offset_seconds: int) -> Option<int> {
    let parts = split_seq(date, '-');
    if parts.len() != 3 {
        None
    } else {
        match (
            parsed_integer(parts[0], true, i32::MIN as int, i32::MAX as int),
            parsed_integer(parts[1], false, 0, 255),
            parsed_integer(parts[2], false, 0, 255),
        ) {
            (Some(y), Some(m), Some(d)) => match julian_day(y as i32, m as u8, d as u8) {
                Some(jd) => Some(
                    ((jd - UNIX_EPOCH_JULIAN_DAY) * SECONDS_PER_DAY - offset_seconds)
                        * NANOS_PER_SECOND,
                ),
                None => None,
            },
            _ => None,
        }
    }
}

/// The UTC instant at which the local day `date` starts, for a UTC offset given in seconds.
pub fn parse_day_start_utc_for_offset(date: &str, tz_offset_seconds: i32) -> (r: Result<i128, ()>)
    ensures
        match r {
            Ok(t) => day_start_spec(date@, tz_offset_seconds as int) == Some(t as int),
            Err(_) => day_start_spec(date@, tz_offset_seconds as int) is None,
        },
{
    let cs = chars_of(date);
    let parts = split_chars(cs.as_slice(), '-');
    if parts.len() != 3 {
        return Err(());
    }
    let y = match parse_integer(parts[0].as_slice(), true, i32::MIN as i64, i32::MAX as i64) {
        Some(v) => v,
        None => return Err(()),
    };
    let m = match parse_integer(parts[1].as_slice(), false, 0, 255) {
        Some(v) => v,
        None => return Err(()),
    };
    let d = match parse_integer(parts[2].as_slice(), false, 0, 255) {
        Some(v) => v,
        None => return Err(()),
    };
    let jd = match calendar_julian_day(y as i32, m as u8, d as u8) {
        Some(v) => v,
        None => return Err(()),
    };
    let secs: i128 = (jd as i128 - UNIX_EPOCH_JULIAN_DAY as i128) * SECONDS_PER_DAY as i128
        - tz_offset_seconds as i128;
    Ok(secs * NANOS_PER_SECOND)
}

/// The half-open UTC window `[start, end)` of the local day `date` at the given offset.
pub fn day_window_utc(date: &str, tz_offset_seconds: i32) -> (r: Result<(i128, i128), ()>)
    ensures
        match r {
            Ok((s, e)) => day_start_spec(date@, tz_offset_seconds as int) == Some(s as int) && e
                == s + SECONDS_PER_DAY * NANOS_PER_SECOND,
            Err(_) => day_start_spec(date@, tz_offset_seconds as int) is None,
        },
{
    match parse_day_start_utc_for_offset(date, tz_offset_seconds) {
        Ok(s) => Ok((s, s + SECONDS_PER_DAY as i128 * NANOS_PER_SECOND)),
        Err(e) => Err(e),
    }
}

/// A day window is exactly one day long, and its start, moved to local time, falls on a
/// local midnight: the start plus the offset is a whole number of days after the epoch.
pub proof fn lemma_day_window_is_one_local_day(date: Seq<char>, offset_seconds: int)
    requires
        day_start_spec(date, offset_seconds) is Some,
    ensures
        ({
            let s = day_start_spec(date, offset_seconds)->0;
            &&& (s + offset_seconds * NANOS_PER_SECOND) % (SECONDS_PER_DAY * NANOS_PER_SECOND) == 0
            &&& (s + SECONDS_PER_DAY * NANOS_PER_SECOND) - s == SECONDS_PER_DAY * NANOS_PER_SECOND
        }),
{
    let parts = split_seq(date, '-');
    let y = parsed_integer(parts[0], true, i32::MIN as int, i32::MAX as int)->0;
    let m = parsed_integer(parts[1], false, 0, 255)->0;
    let d = parsed_integer(parts[2], false, 0, 255)->0;
    let jd = julian_day(y as i32, m as u8, d as u8)->0;
    let days = jd - UNIX_EPOCH_JULIAN_DAY;
    let s = day_start_spec(date, offset_seconds)->0;
    assert(s + offset_seconds * NANOS_PER_SECOND == days * (SECONDS_PER_DAY * NANOS_PER_SECOND))
        by (nonlinear_arith)
        requires
            s == (days * SECONDS_PER_DAY - offset_seconds) * NANOS_PER_SECOND,
    ;
    vstd::arithmetic::div_mod::lemma_mod_multiples_basic(days, SECONDS_PER_DAY * NANOS_PER_SECOND);
}

} // verus!
