//! Calendar dates for `date:` queries, as plain year/month/day values. The
//! two parses that only a calendar library can perform — ISO `YYYY-MM-DD`
//! scalars in query text, and RFC 2822 timestamps on feed items — are
//! trusted wrappers around chrono; everything that compares, merges or
//! filters dates is verified on the plain values.

use std::str::FromStr;

use chrono::Datelike;
use vstd::prelude::*;

verus! {

/// A calendar date. Values produced by the parsers always satisfy
/// [`date_bounded`].
#[derive(Debug, Clone, Copy, PartialEq, Eq, Hash)]
pub struct Date {
    pub year: i32,
    pub month: u32,
    pub day: u32,
}

impl View for Date {
    type V = Date;

    open spec fn view(&self) -> Date {
        *self
    }
}

/// The ranges chrono documents for its dates: years within about
/// ±262,000, calendar months and days.
pub open spec fn date_bounded(d: Date) -> bool {
    -262143 <= d.year <= 262142 && 1 <= d.month <= 12 && 1 <= d.day <= 31
}

/// Chronological order: lexicographic on (year, month, day).
pub open spec fn date_le_spec(x: Date, y: Date) -> bool {
    x.year < y.year || (x.year == y.year && (x.month < y.month || (x.month == y.month
        && x.day <= y.day)))
}

/// Strict chronological order.
pub open spec fn date_lt_spec(x: Date, y: Date) -> bool {
    date_le_spec(x, y) && x != y
}

/// Compare two dates chronologically.
pub fn date_le(x: &Date, y: &Date) -> (r: bool)
    ensures
        r == date_le_spec(*x, *y),
{
    x.year < y.year || (x.year == y.year && (x.month < y.month || (x.month == y.month
        && x.day <= y.day)))
}

/// Field-wise date equality.
pub fn date_eq(x: &Date, y: &Date) -> (r: bool)
    ensures
        r == (*x == *y),
{
    x.year == y.year && x.month == y.month && x.day == y.day
}

/// An order-preserving, injective key for bounded dates, so that date
/// ranges can be merged by the numeric range merge.
pub open spec fn date_key_spec(d: Date) -> int {
    (d.year + 262144) * 1024 + d.month * 32 + d.day
}

/// The date a key encodes.
pub open spec fn date_of_key(k: int) -> Date {
    Date { year: (k / 1024 - 262144) as i32, month: ((k / 32) % 32) as u32, day: (k % 32) as u32 }
}

/// Largest key of a bounded date.
pub open spec fn max_date_key() -> int {
    (262142int + 262144) * 1024 + 12 * 32 + 31
}

/// Encoding and decoding are inverse on bounded dates.
pub proof fn lemma_date_key_inverse(d: Date)
    requires
        date_bounded(d),
    ensures
        date_of_key(date_key_spec(d)) == d,
        0 < date_key_spec(d) <= max_date_key(),
{
    let y = d.year as int;
    let m = d.month as int;
    let dy = d.day as int;
    let k = (y + 262144) * 1024 + m * 32 + dy;
    assert(k % 32 == dy && (k / 32) % 32 == m && k / 1024 == y + 262144) by (nonlinear_arith)
        requires
            k == (y + 262144) * 1024 + m * 32 + dy,
            1 <= y + 262144 <= 524286,
            1 <= m <= 12,
            1 <= dy <= 31;
    assert(0 < k <= max_date_key()) by (nonlinear_arith)
        requires
            k == (y + 262144) * 1024 + m * 32 + dy,
            1 <= y + 262144 <= 524286,
            1 <= m <= 12,
            1 <= dy <= 31;
}

/// The key order is exactly the chronological order, and the key is
/// injective, on bounded dates.
pub proof fn lemma_date_key_order(x: Date, y: Date)
    requires
        date_bounded(x),
        date_bounded(y),
    ensures
        (date_key_spec(x) <= date_key_spec(y)) == date_le_spec(x, y),
        (date_key_spec(x) == date_key_spec(y)) == (x == y),
{
    lemma_date_key_inverse(x);
    lemma_date_key_inverse(y);
    if x == y {
    } else {
        assert((date_key_spec(x) <= date_key_spec(y)) == date_le_spec(x, y))
            by (nonlinear_arith)
            requires
                date_key_spec(x) == (x.year + 262144) * 1024 + x.month * 32 + x.day,
                date_key_spec(y) == (y.year + 262144) * 1024 + y.month * 32 + y.day,
                date_bounded(x),
                date_bounded(y),
                date_le_spec(x, y) == (x.year < y.year || (x.year == y.year && (x.month
                    < y.month || (x.month == y.month && x.day <= y.day))));
        if date_key_spec(x) == date_key_spec(y) {
            assert(date_of_key(date_key_spec(x)) == date_of_key(date_key_spec(y)));
            assert(false);
        }
    }
}

/// Compute the key of a bounded date.
pub fn date_key(d: &Date) -> (k: u64)
    requires
        date_bounded(*d),
    ensures
        k == date_key_spec(*d),
{
    let ybase: u64 = (d.year + 262144) as u64;
    ybase * 1024 + (d.month as u64) * 32 + (d.day as u64)
}

/// Recover the date a key encodes.
pub fn date_from_key(k: u64) -> (d: Date)
    requires
        exists|d0: Date| date_bounded(d0) && date_key_spec(d0) == k,
    ensures
        d == date_of_key(k as int),
        date_bounded(d),
        date_key_spec(d) == k,
{
    proof {
        let d0 = choose|d0: Date| date_bounded(d0) && date_key_spec(d0) == k;
        lemma_date_key_inverse(d0);
    }
    let day = (k % 32) as u32;
    let month = ((k / 32) % 32) as u32;
    let year = ((k / 1024) as i64 - 262144) as i32;
    proof {
        let d0 = choose|d0: Date| date_bounded(d0) && date_key_spec(d0) == k;
        lemma_date_key_inverse(d0);
        assert(date_of_key(k as int) == d0);
        assert(k / 1024 == (d0.year + 262144) as u64);
    }
    Date { year, month, day }
}

/// The date a piece of ISO `YYYY-MM-DD` text denotes, if any, as chrono's
/// `NaiveDate` string parse reads it.
pub uninterp spec fn iso_date_of(s: Seq<char>) -> Option<Date>;

/// The calendar date of an RFC 2822 timestamp, if the text is one, as
/// chrono's RFC 2822 parse reads it (the date in the stamp's own offset).
pub uninterp spec fn rfc2822_date_of(s: Seq<char>) -> Option<Date>;

/// Relies on chrono's `NaiveDate` `FromStr` parse and its `Datelike`
/// accessors: the result depends on the characters alone, and year, month
/// and day lie in chrono's documented ranges.
#[verifier::external_body]
pub fn parse_iso_date(s: &str) -> (r: Option<Date>)
    ensures
        r == iso_date_of(s@),
        r matches Some(d) ==> date_bounded(d),
{
    match chrono::NaiveDate::from_str(s) {
        Ok(d) => Some(Date { year: d.year(), month: d.month(), day: d.day() }),
        Err(_) => None,
    }
}

/// Relies on chrono's `DateTime::parse_from_rfc2822` and its `Datelike`
/// accessors: the result depends on the characters alone, and year, month
/// and day lie in chrono's documented ranges.
#[verifier::external_body]
pub fn parse_rfc2822_date(s: &str) -> (r: Option<Date>)
    ensures
        r == rfc2822_date_of(s@),
        r matches Some(d) ==> date_bounded(d),
{
    match chrono::DateTime::parse_from_rfc2822(s) {
        Ok(dt) => {
            let d = dt.date_naive();
            Some(Date { year: d.year(), month: d.month(), day: d.day() })
        },
        Err(_) => None,
    }
}

} // verus!
