//! Calendar dates as day numbers: day 1 is January 1 of year 1 in the
//! proleptic Gregorian calendar. Which day numbers are dates, and how
//! `dd/mm/yyyy` text reads, is chrono's.
use vstd::prelude::*;
use chrono::Datelike;

verus! {

/// Whether chrono can represent the day with this number.
pub uninterp spec fn date_ok(d: int) -> bool;

/// The day number that chrono reads from `dd/mm/yyyy` text, if it reads one.
pub uninterp spec fn dmy_days(s: Seq<char>) -> Option<int>;

/// Relies on `NaiveDate::from_num_days_from_ce_opt`: `Some` exactly for the
/// day numbers that chrono represents.
#[verifier::external_body]
pub(crate) fn day_is_date(d: i32) -> (r: bool)
    ensures
        r == date_ok(d as int),
{
    chrono::NaiveDate::from_num_days_from_ce_opt(d).is_some()
}

/// Relies on `NaiveDate::parse_from_str` with the format `%d/%m/%Y`; a date
/// that it reads is one that chrono represents.
#[verifier::external_body]
pub(crate) fn parse_dmy(s: &str) -> (r: Option<i32>)
    ensures
        r matches Some(d) ==> dmy_days(s@) == Some(d as int) && date_ok(d as int),
        r is None ==> dmy_days(s@) is None,
{
    match chrono::NaiveDate::parse_from_str(s, "%d/%m/%Y") {
        Ok(date) => Some(date.num_days_from_ce()),
        Err(_) => None,
    }
}

/// A calendar date, held as its day number.
#[derive(Debug, Clone, Copy, PartialEq, Eq, Structural)]
pub struct Date(pub i32);

/// The date whose number is `v`, when `v` is a representable day.
pub open spec fn spec_to_date(v: int) -> Option<Date> {
    if i32::MIN <= v <= i32::MAX && date_ok(v) {
        Some(Date(v as i32))
    } else {
        None
    }
}

/// The date with number `v`, or `None` when no date has that number.
pub fn to_date(v: i64) -> (r: Option<Date>)
    ensures
        r == spec_to_date(v as int),
{
    if v < i32::MIN as i64 || v > i32::MAX as i64 {
        return None;
    }
    let d = v as i32;
    if day_is_date(d) {
        Some(Date(d))
    } else {
        None
    }
}

impl Date {
    /// The date `val` days later.
    pub fn add(self, val: i32) -> (r: Option<Date>)
        ensures
            r == spec_to_date(self.0 + val),
    {
        to_date(self.0 as i64 + val as i64)
    }

    /// The date `val` days earlier.
    pub fn sub(self, val: i32) -> (r: Option<Date>)
        ensures
            r == spec_to_date(self.0 - val),
    {
        to_date(self.0 as i64 - val as i64)
    }

    /// The date whose number is this one's times `val`.
    pub fn mul(self, val: i32) -> (r: Option<Date>)
        ensures
            r == spec_to_date(self.0 * val),
    {
        proof {
            assert(-0x8000_0000 * 0x8000_0000 <= self.0 * val <= 0x8000_0000 * 0x8000_0000) by (nonlinear_arith)
                requires
                    -0x8000_0000 <= self.0 <= 0x7fff_ffff,
                    -0x8000_0000 <= val <= 0x7fff_ffff,
            ;
        }
        to_date(self.0 as i64 * val as i64)
    }

    /// The date whose number is this one's divided by `val`, rounded toward zero.
    pub fn div(self, val: i32) -> (r: Option<Date>)
        requires
            val != 0,
        ensures
            r == spec_to_date(trunc_div(self.0 as int, val as int)),
    {
        let a: i64 = if self.0 >= 0 { self.0 as i64 } else { -(self.0 as i64) };
        let b: i64 = if val >= 0 { val as i64 } else { -(val as i64) };
        let q: i64 = a / b;
        if (self.0 >= 0) == (val > 0) {
            to_date(q)
        } else {
            to_date(-q)
        }
    }
}

/// Division rounded toward zero, as Rust's integer `/` does.
pub open spec fn trunc_div(a: int, b: int) -> int {
    let q = (if a >= 0 { a } else { -a }) / (if b >= 0 { b } else { -b });
    if (a >= 0) == (b > 0) { q } else { -q }
}

} // verus!
