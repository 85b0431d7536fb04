//! The calendar date in a folder's date prefix, read with chrono.
use vstd::prelude::*;
use chrono::Datelike;
use crate::naming::is_digit;

verus! {

/// The value of an ASCII digit.
pub open spec fn digit_value(c: char) -> int {
    (c as u32) - ('0' as u32)
}

pub open spec fn is_leap_year(y: int) -> bool {
    y % 4 == 0 && (y % 100 != 0 || y % 400 == 0)
}

/// Days in month `m` of year `y` in the proleptic Gregorian calendar.
pub open spec fn days_in_month(y: int, m: int) -> int {
    if m == 2 {
        if is_leap_year(y) { 29 } else { 28 }
    } else if m == 4 || m == 6 || m == 9 || m == 11 {
        30
    } else {
        31
    }
}

/// The date that eight digits `YYYYMMDD` spell, if it exists in the proleptic Gregorian calendar.
pub open spec fn ymd_date(s: Seq<char>) -> Option<(i32, u32, u32)> {
    let y = 1000 * digit_value(s[0]) + 100 * digit_value(s[1]) + 10 * digit_value(s[2]) + digit_value(s[3]);
    let m = 10 * digit_value(s[4]) + digit_value(s[5]);
    let d = 10 * digit_value(s[6]) + digit_value(s[7]);
    if 1 <= m <= 12 && 1 <= d <= days_in_month(y, m) {
        Some((y as i32, m as u32, d as u32))
    } else {
        None
    }
}

pub open spec fn eight_digits(s: Seq<char>) -> bool {
    s.len() == 8 && forall|i: int| 0 <= i < 8 ==> is_digit(#[trigger] s[i])
}

/// chrono's `NaiveDate::parse_from_str(s, "%Y%m%d")`, year, month and day read back with
/// `Datelike`. Trusted: on eight ASCII digits, chrono reads four digits of year, two of month and
/// two of day, and gives a date exactly when the calendar has that day.
#[verifier::external_body]
fn parse_ymd(s: &str) -> (r: Option<(i32, u32, u32)>)
    requires
        eight_digits(s@),
    ensures
        r == ymd_date(s@),
{
    match chrono::NaiveDate::parse_from_str(s, "%Y%m%d") {
        Ok(d) => Some((d.year(), d.month(), d.day())),
        Err(_) => None,
    }
}

/// The calendar date of a folder's date prefix (`YYYYMMDD`), if the calendar has that day.
pub fn prefix_date(prefix: &str) -> (r: Option<(i32, u32, u32)>)
    requires
        eight_digits(prefix@),
    ensures
        r == ymd_date(prefix@),
        r matches Some((y, m, d)) ==> 0 <= y <= 9999 && 1 <= m <= 12 && 1 <= d <= 31,
{
    parse_ymd(prefix)
}

} // verus!
