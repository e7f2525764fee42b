//! Calendar days.

use chrono::Datelike;
use vstd::prelude::*;

use crate::text::{decimal, decimal_of, padded, zero_padded};

verus! {

/// A day of the proleptic Gregorian calendar.
#[derive(Clone, Copy, Debug, PartialEq, Eq, Structural)]
pub struct Date {
    pub year: i32,
    pub month: u32,
    pub day: u32,
}

pub open spec fn is_leap(year: int) -> bool {
    year % 4 == 0 && (year % 100 != 0 || year % 400 == 0)
}

pub open spec fn days_in_month(year: int, month: int) -> int {
    if month == 2 {
        if is_leap(year) {
            29
        } else {
            28
        }
    } else if month == 4 || month == 6 || month == 9 || month == 11 {
        30
    } else {
        31
    }
}

/// The days before the first of `month` in its year.
pub open spec fn days_before_month(year: int, month: int) -> int
    decreases month,
{
    if month <= 1 {
        0
    } else {
        days_before_month(year, month - 1) + days_in_month(year, month - 1)
    }
}

/// The days before 1 January of `year`, counted from the year 1.
pub open spec fn days_before_year(year: int) -> int {
    365 * (year - 1) + (year - 1) / 4 - (year - 1) / 100 + (year - 1) / 400
}

/// Days counted so that 1 January of the year 1 is day 1.
pub open spec fn day_number(d: Date) -> int {
    days_before_year(d.year as int) + days_before_month(d.year as int, d.month as int) + d.day
}

pub const MIN_YEAR: i32 = -262143;

pub const MAX_YEAR: i32 = 262142;

/// A day that exists, within the years that can be computed with.
pub open spec fn valid(d: Date) -> bool {
    &&& MIN_YEAR <= d.year <= MAX_YEAR
    &&& 1 <= d.month <= 12
    &&& 1 <= d.day <= days_in_month(d.year as int, d.month as int)
}

pub open spec fn first_day() -> Date {
    Date { year: MIN_YEAR, month: 1, day: 1 }
}

pub open spec fn last_day() -> Date {
    Date { year: MAX_YEAR, month: 12, day: 31 }
}

/// Four digits; with a sign outside the years 0 to 9999.
pub open spec fn year_text(year: int) -> Seq<char> {
    if 0 <= year <= 9999 {
        zero_padded(decimal(year as nat), 4)
    } else if year < 0 {
        seq!['-'] + zero_padded(decimal((-year) as nat), 4)
    } else {
        seq!['+'] + zero_padded(decimal(year as nat), 4)
    }
}

pub open spec fn two_digits(n: u32) -> Seq<char> {
    zero_padded(decimal(n as nat), 2)
}

/// `YYYY-MM-DD`.
pub open spec fn iso(d: Date) -> Seq<char> {
    year_text(d.year as int) + seq!['-'] + two_digits(d.month) + seq!['-'] + two_digits(d.day)
}

/// `YYYYMMDD`.
pub open spec fn compact(d: Date) -> Seq<char> {
    year_text(d.year as int) + two_digits(d.month) + two_digits(d.day)
}

pub open spec fn opt_iso(d: Option<Date>) -> Seq<char> {
    match d {
        Some(d) => iso(d),
        None => Seq::empty(),
    }
}

fn push_year(s: &mut String, year: i32)
    ensures
        final(s)@ == old(s)@ + year_text(year as int),
{
    let wide: i64 = year as i64;
    let ghost before = s@;
    if wide < 0 {
        s.push('-');
        s.append(padded(decimal_of((-wide) as u64).as_str(), 4).as_str());
    } else {
        if wide > 9999 {
            s.push('+');
        }
        s.append(padded(decimal_of(wide as u64).as_str(), 4).as_str());
    }
    assert(s@ =~= before + year_text(year as int));
}

fn push_two(s: &mut String, n: u32)
    ensures
        final(s)@ == old(s)@ + two_digits(n),
{
    s.append(padded(decimal_of(n as u64).as_str(), 2).as_str());
}

impl Date {
    /// `YYYY-MM-DD`.
    pub fn to_iso(&self) -> (r: String)
        ensures
            r@ == iso(*self),
    {
        let mut s = String::new();
        push_year(&mut s, self.year);
        s.push('-');
        push_two(&mut s, self.month);
        s.push('-');
        push_two(&mut s, self.day);
        assert(s@ =~= iso(*self));
        s
    }

    /// `YYYYMMDD`.
    pub fn to_compact(&self) -> (r: String)
        ensures
            r@ == compact(*self),
    {
        let mut s = String::new();
        push_year(&mut s, self.year);
        push_two(&mut s, self.month);
        push_two(&mut s, self.day);
        assert(s@ =~= compact(*self));
        s
    }
}

/// The day in a text of the given format, as `chrono::NaiveDate::parse_from_str`
/// reads it.
pub uninterp spec fn day_in_text(s: Seq<char>, format: Seq<char>) -> Option<Date>;

/// `chrono::NaiveDate::parse_from_str`: claims that the outcome is a function
/// of both texts, that a day it returns exists, and that a day written as
/// `YYYY-MM-DD` is read back under `%Y-%m-%d`.
#[verifier::external_body]
pub(crate) fn parse_day(s: &str, format: &str) -> (r: Option<Date>)
    ensures
        r == day_in_text(s@, format@),
        r is Some ==> valid(r->0),
        forall|d: Date|
            valid(d) && 0 <= d.year <= 9999 && s@ == #[trigger] iso(d) && format@ == "%Y-%m-%d"@
                ==> r == Some(d),
{
    let parsed = chrono::NaiveDate::parse_from_str(s, format);
    parsed.ok().map(|d| Date { year: d.year(), month: d.month(), day: d.day() })
}

/// `chrono::NaiveDate::checked_sub_signed` of a number of days: claims that
/// the result is the existing day that many days earlier, and that there is
/// none only before the first day that chrono can represent.
#[verifier::external_body]
fn days_before(d: Date, n: u32) -> (r: Option<Date>)
    requires
        valid(d),
    ensures
        match r {
            Some(e) => valid(e) && day_number(e) == day_number(d) - n,
            None => day_number(d) - n < day_number(first_day()),
        },
{
    let day = chrono::NaiveDate::from_ymd_opt(d.year, d.month, d.day)?;
    let back = day.checked_sub_signed(chrono::Duration::days(n as i64))?;
    Some(Date { year: back.year(), month: back.month(), day: back.day() })
}

/// The number of the day on which a Unix timestamp falls, in UTC.
pub open spec fn utc_day_number(ts: int) -> int {
    719163 + ts / 86400
}

/// `chrono::DateTime::from_timestamp`: claims that the result is the existing
/// day in UTC on which the timestamp falls, and that there is none only
/// outside the days that chrono can represent.
#[verifier::external_body]
fn utc_day(ts: i64) -> (r: Option<Date>)
    ensures
        match r {
            Some(d) => valid(d) && day_number(d) == utc_day_number(ts as int),
            None => utc_day_number(ts as int) < day_number(first_day()) || utc_day_number(ts as int)
                > day_number(last_day()),
        },
{
    let t = chrono::DateTime::from_timestamp(ts, 0)?;
    Some(Date { year: t.year(), month: t.month(), day: t.day() })
}

proof fn lemma_year_length(year: int)
    ensures
        days_before_year(year + 1) == days_before_year(year) + 365 + (if is_leap(year) {
            1int
        } else {
            0int
        }),
{
    assert(year / 4 == (year - 1) / 4 + (if year % 4 == 0 {
        1int
    } else {
        0int
    }));
    lemma_century_length(year);
    assert(year % 100 == 0 ==> year % 4 == 0);
    assert(year % 400 == 0 ==> year % 100 == 0);
}

proof fn lemma_century_length(year: int)
    ensures
        year / 100 == (year - 1) / 100 + (if year % 100 == 0 {
            1int
        } else {
            0int
        }),
        year / 400 == (year - 1) / 400 + (if year % 400 == 0 {
            1int
        } else {
            0int
        }),
{
}

proof fn lemma_years_ordered(a: int, b: int)
    requires
        a < b,
    ensures
        days_before_year(a) + 365 + (if is_leap(a) {
            1int
        } else {
            0int
        }) <= days_before_year(b),
    decreases b - a,
{
    lemma_year_length(a);
    if a + 1 < b {
        lemma_years_ordered(a + 1, b);
    }
}

proof fn lemma_months_ordered(year: int, a: int, b: int)
    requires
        1 <= a < b <= 13,
    ensures
        days_before_month(year, a) + days_in_month(year, a) <= days_before_month(year, b),
        0 <= days_before_month(year, a),
    decreases b,
{
    reveal_with_fuel(days_before_month, 14);
}

proof fn lemma_year_days(year: int)
    ensures
        days_before_month(year, 13) == 365 + (if is_leap(year) {
            1int
        } else {
            0int
        }),
{
    reveal_with_fuel(days_before_month, 14);
}

/// Two days with the same number are the same day.
pub proof fn lemma_day_number_unique(a: Date, b: Date)
    requires
        valid(a),
        valid(b),
        day_number(a) == day_number(b),
    ensures
        a == b,
{
    lemma_months_ordered(a.year as int, a.month as int, 13);
    lemma_months_ordered(b.year as int, b.month as int, 13);
    lemma_year_days(a.year as int);
    lemma_year_days(b.year as int);
    if a.year < b.year {
        lemma_years_ordered(a.year as int, b.year as int);
    } else if b.year < a.year {
        lemma_years_ordered(b.year as int, a.year as int);
    } else if a.month < b.month {
        lemma_months_ordered(a.year as int, a.month as int, b.month as int);
    } else if b.month < a.month {
        lemma_months_ordered(a.year as int, b.month as int, a.month as int);
    }
}

/// The day with a number, where there is one.
pub open spec fn day_with_number(n: int) -> Option<Date> {
    if exists|d: Date| valid(d) && #[trigger] day_number(d) == n {
        Some(choose|d: Date| valid(d) && #[trigger] day_number(d) == n)
    } else {
        None
    }
}

/// A day is the day with its number.
pub proof fn lemma_day_with_number(d: Date)
    requires
        valid(d),
    ensures
        day_with_number(day_number(d)) == Some(d),
{
    let e = choose|e: Date| valid(e) && #[trigger] day_number(e) == day_number(d);
    lemma_day_number_unique(d, e);
}

proof fn lemma_day_number_bounds(d: Date)
    requires
        valid(d),
    ensures
        day_number(first_day()) <= day_number(d) <= day_number(last_day()),
{
    lemma_months_ordered(d.year as int, d.month as int, 13);
    lemma_year_days(d.year as int);
    reveal_with_fuel(days_before_month, 14);
    if MIN_YEAR < d.year {
        lemma_years_ordered(MIN_YEAR as int, d.year as int);
    }
    if d.year < MAX_YEAR {
        lemma_years_ordered(d.year as int, MAX_YEAR as int);
    }
}

/// The day in UTC on which a Unix timestamp falls.
pub fn day_of_timestamp(ts: i64) -> (r: Option<Date>)
    ensures
        r == day_with_number(utc_day_number(ts as int)),
        r is Some ==> valid(r->0),
{
    let r = utc_day(ts);
    proof {
        match r {
            Some(d) => lemma_day_with_number(d),
            None => {
                assert forall|d: Date| valid(d) implies #[trigger] day_number(d) != utc_day_number(
                    ts as int,
                ) by {
                    lemma_day_number_bounds(d);
                }
            },
        }
    }
    r
}

/// The day `n` days before `d`.
pub fn earlier(d: Date, n: u32) -> (r: Option<Date>)
    requires
        valid(d),
    ensures
        r == day_with_number(day_number(d) - n),
        r is Some ==> valid(r->0),
{
    let r = days_before(d, n);
    proof {
        match r {
            Some(e) => lemma_day_with_number(e),
            None => {
                assert forall|e: Date| valid(e) implies #[trigger] day_number(e) != day_number(d)
                    - n by {
                    lemma_day_number_bounds(e);
                }
            },
        }
    }
    r
}

} // verus!
