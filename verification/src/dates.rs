//! Dates and timestamps: the creation-date cutoff arithmetic, parsing of
//! `YYYY-MM-DD` strings into an end-of-day timestamp, and the rendering of
//! a timestamp as human-readable UTC text.

use vstd::arithmetic::div_mod::{lemma_basic_div, lemma_div_non_zero, lemma_div_pos_is_pos};
use crate::text::{first_in, lemma_first_in_found};
use vstd::prelude::*;

use chrono::TimeZone;

verus! {

/// A date string that could not be turned into a timestamp.
#[derive(Clone, Debug, PartialEq, Eq)]
pub enum DateError {
    /// The text is not three groups of digits separated by `-`, or a group
    /// does not fit in 32 bits.
    Format,
    /// The shape is right but the numbers name no calendar day.
    InvalidDate,
}

/// Proleptic Gregorian leap years.
pub open spec fn is_leap_year(y: int) -> bool {
    (y % 4 == 0 && y % 100 != 0) || y % 400 == 0
}

/// Days of a month in the proleptic Gregorian calendar.
pub open spec fn days_in_month(y: int, m: int) -> int {
    if m == 2 {
        if is_leap_year(y) {
            29
        } else {
            28
        }
    } else if m == 4 || m == 6 || m == 9 || m == 11 {
        30
    } else {
        31
    }
}

/// The year/month/day triples that name a calendar day the date library
/// accepts: Gregorian-valid, with the year within chrono's range.
pub open spec fn valid_ymd(y: int, m: int, d: int) -> bool {
    &&& 0 <= y <= 262142
    &&& 1 <= m <= 12
    &&& 1 <= d <= days_in_month(y, m)
}

/// The Unix timestamp of 23:59:59 UTC on the given calendar day.
/// The calendar arithmetic behind it is not spelled out here: the value is
/// whatever the date library computes, fixed by the arguments alone.
pub uninterp spec fn end_of_day_epoch(y: int, m: int, d: int) -> int;

/// Relies on chrono's `Utc.with_ymd_and_hms(y, m, d, 23, 59, 59)` and
/// `DateTime::timestamp`: the result exists exactly for valid dates
/// (chrono accepts years up to 262142), and is a function of the
/// arguments alone.
#[verifier::external_body]
fn end_of_day_utc(y: u32, m: u32, d: u32) -> (r: Option<i64>)
    ensures
        r is Some <==> valid_ymd(y as int, m as int, d as int),
        r matches Some(t) ==> t == end_of_day_epoch(y as int, m as int, d as int),
{
    i32::try_from(y)
        .ok()
        .and_then(|yy| chrono::Utc.with_ymd_and_hms(yy, m, d, 23, 59, 59).single())
        .map(|dt| dt.timestamp())
}

/// Timestamps that the text rendering accepts: 0000-01-01T00:00:00 UTC
/// through 9999-12-31T23:59:59 UTC, comfortably inside chrono's range.
pub open spec fn displayable_timestamp(t: int) -> bool {
    -62167219200 <= t <= 253402300799
}

/// The human-readable UTC rendering of a timestamp, e.g.
/// `2015-05-15 00:00:00 UTC`. A fixed function of the timestamp alone,
/// named rather than spelled out.
pub uninterp spec fn utc_display_of(t: int) -> Seq<char>;

/// Relies on chrono's `Utc.timestamp_opt` and the `Display` of
/// `DateTime<Utc>`: within the accepted range the conversion succeeds, and
/// the text depends on the timestamp alone.
#[verifier::external_body]
pub fn format_timestamp(secs: i64) -> (r: String)
    requires
        displayable_timestamp(secs as int),
    ensures
        r@ == utc_display_of(secs as int),
{
    format!("{}", chrono::Utc.timestamp_opt(secs, 0).unwrap())
}

/// The difference `secs`, truncated to whole days (rounding towards zero,
/// as a duration library reports whole days).
pub open spec fn whole_days(secs: int) -> int {
    if secs >= 0 {
        secs / 86400
    } else {
        -((-secs) / 86400)
    }
}

/// The creation-date cutoff keeps a record exactly when its timestamp is
/// at most one day minus a second before the cutoff: the whole-day count
/// of the difference is non-negative.
pub proof fn lemma_whole_days_nonneg(secs: int)
    ensures
        whole_days(secs) >= 0 <==> secs >= -86399,
{
    if secs >= 0 {
        lemma_div_pos_is_pos(secs, 86400);
    } else {
        lemma_div_pos_is_pos(-secs, 86400);
        if -secs < 86400 {
            lemma_basic_div(-secs, 86400);
        } else {
            lemma_div_non_zero(-secs, 86400);
        }
    }
}

/// Decimal digits.
pub open spec fn is_digit(c: char) -> bool {
    48 <= c as u32 <= 57
}

/// A non-empty run of decimal digits.
pub open spec fn all_digits(s: Seq<char>) -> bool {
    s.len() > 0 && forall|i: int| 0 <= i < s.len() ==> is_digit(#[trigger] s[i])
}

/// The number a run of decimal digits denotes.
pub open spec fn digits_val(s: Seq<char>) -> int
    decreases s.len(),
{
    if s.len() == 0 {
        0
    } else {
        10 * digits_val(s.drop_last()) + (s.last() as u32 - 48)
    }
}

proof fn lemma_digits_val_nonneg(s: Seq<char>)
    requires
        forall|i: int| 0 <= i < s.len() ==> is_digit(#[trigger] s[i]),
    ensures
        digits_val(s) >= 0,
    decreases s.len(),
{
    if s.len() > 0 {
        lemma_digits_val_nonneg(s.drop_last());
    }
}

/// Reading more digits can only grow the number.
proof fn lemma_digits_val_prefix(s: Seq<char>, k: int)
    requires
        0 <= k <= s.len(),
        forall|i: int| 0 <= i < s.len() ==> is_digit(#[trigger] s[i]),
    ensures
        digits_val(s.subrange(0, k)) <= digits_val(s),
    decreases s.len(),
{
    if k == s.len() {
        assert(s.subrange(0, k) =~= s);
    } else {
        let t = s.drop_last();
        lemma_digits_val_nonneg(t);
        lemma_digits_val_prefix(t, k);
        assert(s.subrange(0, k) =~= t.subrange(0, k));
    }
}

/// The year, month and day named by a `YYYY-MM-DD` string: three non-empty
/// groups of digits separated by `-`, each fitting in 32 bits. `None` when
/// the text has any other shape.
pub open spec fn date_ymd(s: Seq<char>) -> Option<(int, int, int)> {
    let p1 = first_in(s, '-');
    if p1 == s.len() {
        None
    } else {
        let rest = s.skip(p1 + 1);
        let p2 = first_in(rest, '-');
        if p2 == rest.len() {
            None
        } else {
            let y = s.subrange(0, p1);
            let m = rest.subrange(0, p2);
            let d = rest.skip(p2 + 1);
            if all_digits(y) && all_digits(m) && all_digits(d) && digits_val(y) <= u32::MAX
                && digits_val(m) <= u32::MAX && digits_val(d) <= u32::MAX {
                Some((digits_val(y), digits_val(m), digits_val(d)))
            } else {
                None
            }
        }
    }
}

/// Reads `s[start..end]` as a decimal number. `None` when the range is
/// empty, holds a non-digit, or does not fit in 32 bits.
fn parse_num(s: &str, start: usize, end: usize) -> (r: Option<u32>)
    requires
        start <= end <= s@.len(),
    ensures
        ({
            let seg = s@.subrange(start as int, end as int);
            match r {
                Some(v) => all_digits(seg) && v == digits_val(seg),
                None => !(all_digits(seg) && digits_val(seg) <= u32::MAX),
            }
        }),
{
    let ghost seg = s@.subrange(start as int, end as int);
    if start == end {
        return None;
    }
    let mut acc: u32 = 0;
    let mut i: usize = start;
    while i < end
        invariant
            start <= i <= end <= s@.len(),
            seg == s@.subrange(start as int, end as int),
            start < end,
            forall|j: int| 0 <= j < i - start ==> is_digit(#[trigger] seg[j]),
            acc == digits_val(seg.subrange(0, i - start)),
        decreases end - i,
    {
        let c = s.get_char(i);
        let code = c as u32;
        proof {
            assert(seg[i - start] == s@[i as int]);
        }
        if code < 48 || code > 57 {
            return None;
        }
        let dgt: u32 = code - 48;
        if acc > (u32::MAX - dgt) / 10 {
            proof {
                let k = i - start + 1;
                assert(seg.subrange(0, k).drop_last() =~= seg.subrange(0, i - start));
                assert(digits_val(seg.subrange(0, k)) == 10 * acc + dgt);
                assert(10 * acc + dgt > u32::MAX) by {
                    vstd::arithmetic::div_mod::lemma_fundamental_div_mod(
                        u32::MAX - dgt,
                        10,
                    );
                }
                if all_digits(seg) {
                    lemma_digits_val_prefix(seg, k);
                }
            }
            return None;
        }
        proof {
            let k = i - start + 1;
            assert(seg.subrange(0, k).drop_last() =~= seg.subrange(0, i - start));
            assert((u32::MAX - dgt) / 10 * 10 + dgt <= u32::MAX) by {
                vstd::arithmetic::div_mod::lemma_fundamental_div_mod(u32::MAX - dgt, 10);
            }
        }
        acc = acc * 10 + dgt;
        i = i + 1;
    }
    proof {
        assert(seg.subrange(0, (end - start) as int) =~= seg);
    }
    Some(acc)
}

/// Parses a `YYYY-MM-DD` date string into the Unix timestamp of the end of
/// that day, 23:59:59 UTC. Strings of the wrong shape are a `Format`
/// error; well-shaped strings naming no calendar day are `InvalidDate`.
pub fn parse_date(src: &str) -> (r: Result<i64, DateError>)
    ensures
        match r {
            Ok(t) => date_ymd(src@) matches Some((y, m, d)) && valid_ymd(y, m, d) && t
                == end_of_day_epoch(y, m, d),
            Err(DateError::Format) => date_ymd(src@) is None,
            Err(DateError::InvalidDate) => date_ymd(src@) matches Some((y, m, d)) && !valid_ymd(
                y,
                m,
                d,
            ),
        },
{
    let n = src.unicode_len();
    let mut p1: usize = 0;
    while p1 < n && src.get_char(p1) != '-'
        invariant
            n == src@.len(),
            0 <= p1 <= n,
            forall|j: int| 0 <= j < p1 ==> src@[j] != '-',
        decreases n - p1,
    {
        p1 = p1 + 1;
    }
    proof {
        lemma_first_in_found(src@, '-', p1 as int);
    }
    if p1 == n {
        return Err(DateError::Format);
    }
    let ghost rest = src@.skip(p1 + 1);
    let mut p2: usize = p1 + 1;
    while p2 < n && src.get_char(p2) != '-'
        invariant
            n == src@.len(),
            p1 + 1 <= p2 <= n,
            forall|j: int| p1 + 1 <= j < p2 ==> src@[j] != '-',
        decreases n - p2,
    {
        p2 = p2 + 1;
    }
    proof {
        assert(forall|j: int| 0 <= j < p2 - p1 - 1 ==> rest[j] == src@[j + p1 + 1]);
        lemma_first_in_found(rest, '-', p2 - p1 - 1);
    }
    if p2 == n {
        return Err(DateError::Format);
    }
    proof {
        assert(rest.subrange(0, p2 - p1 - 1) =~= src@.subrange(p1 + 1, p2 as int));
        assert(rest.skip(p2 - p1 - 1 + 1) =~= src@.subrange(p2 + 1, n as int));
    }
    let y = parse_num(src, 0, p1);
    let m = parse_num(src, p1 + 1, p2);
    let d = parse_num(src, p2 + 1, n);
    proof {
        assert(src@.subrange(0, p1 as int) == src@.subrange(0, first_in(src@, '-')));
    }
    match (y, m, d) {
        (Some(yv), Some(mv), Some(dv)) => match end_of_day_utc(yv, mv, dv) {
            Some(t) => Ok(t),
            None => Err(DateError::InvalidDate),
        },
        _ => Err(DateError::Format),
    }
}

} // verus!
