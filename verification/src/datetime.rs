//! Calendar dates and date-times as plain values, their chronological
//! order, and the reading of date-times from text with `chrono`.

use vstd::prelude::*;
use chrono::{Datelike, Timelike};

verus! {

/// A calendar date.
#[derive(Debug, Clone, Copy, PartialEq, Eq, Structural)]
pub struct Date {
    pub year: i32,
    pub month: u32,
    pub day: u32,
}

/// A date and a time of day, to the nanosecond, without a time zone.
#[derive(Debug, Clone, Copy, PartialEq, Eq, Structural)]
pub struct DateTime {
    pub year: i32,
    pub month: u32,
    pub day: u32,
    pub hour: u32,
    pub minute: u32,
    pub second: u32,
    pub nanosecond: u32,
}

/// `a` comes before `b`: dates are ordered by year, then month, then day.
pub open spec fn date_lt(a: Date, b: Date) -> bool {
    a.year < b.year || (a.year == b.year && (a.month < b.month || (a.month == b.month && a.day
        < b.day)))
}

/// `a` comes before `b`: date-times are ordered by their date, then hour,
/// minute, second and nanosecond.
pub open spec fn datetime_lt(a: DateTime, b: DateTime) -> bool {
    date_lt(date_of(a), date_of(b)) || (date_of(a) == date_of(b) && (a.hour < b.hour || (a.hour
        == b.hour && (a.minute < b.minute || (a.minute == b.minute && (a.second < b.second || (
    a.second == b.second && a.nanosecond < b.nanosecond)))))))
}

pub open spec fn datetime_le(a: DateTime, b: DateTime) -> bool {
    datetime_lt(a, b) || a == b
}

pub open spec fn date_of(t: DateTime) -> Date {
    Date { year: t.year, month: t.month, day: t.day }
}

/// The first moment of a date.
pub open spec fn midnight(d: Date) -> DateTime {
    DateTime {
        year: d.year,
        month: d.month,
        day: d.day,
        hour: 0,
        minute: 0,
        second: 0,
        nanosecond: 0,
    }
}

impl Date {
    /// Whether `self` comes before `other`.
    pub fn before(&self, other: &Date) -> (r: bool)
        ensures
            r == date_lt(*self, *other),
    {
        self.year < other.year || (self.year == other.year && (self.month < other.month || (
        self.month == other.month && self.day < other.day)))
    }

    /// The first moment of the date.
    pub fn at_midnight(&self) -> (r: DateTime)
        ensures
            r == midnight(*self),
    {
        DateTime {
            year: self.year,
            month: self.month,
            day: self.day,
            hour: 0,
            minute: 0,
            second: 0,
            nanosecond: 0,
        }
    }
}

impl DateTime {
    /// Whether `self` comes before `other`.
    pub fn before(&self, other: &DateTime) -> (r: bool)
        ensures
            r == datetime_lt(*self, *other),
    {
        let da = Date { year: self.year, month: self.month, day: self.day };
        let db = Date { year: other.year, month: other.month, day: other.day };
        if da.before(&db) {
            return true;
        }
        if da != db {
            return false;
        }
        self.hour < other.hour || (self.hour == other.hour && (self.minute < other.minute || (
        self.minute == other.minute && (self.second < other.second || (self.second
            == other.second && self.nanosecond < other.nanosecond)))))
    }

    /// Whether `self` comes before `other` or is the same moment.
    pub fn not_after(&self, other: &DateTime) -> (r: bool)
        ensures
            r == datetime_le(*self, *other),
    {
        self.before(other) || *self == *other
    }
}

/// What `chrono::NaiveDateTime::parse_from_str(s, fmt)` reads from `s`
/// with the format `fmt`, where it succeeds.
pub uninterp spec fn chrono_datetime_with_format(s: Seq<char>, fmt: Seq<char>) -> Option<DateTime>;

/// What `chrono::NaiveDate::parse_from_str(s, fmt)` reads from `s` with the
/// format `fmt`, where it succeeds.
pub uninterp spec fn chrono_date_with_format(s: Seq<char>, fmt: Seq<char>) -> Option<Date>;

/// What `chrono::NaiveDateTime`'s `FromStr` reads from `s`
/// (`2015-09-18T23:56:04`, with an optional fraction of a second), where it
/// succeeds.
pub uninterp spec fn chrono_datetime_from_str(s: Seq<char>) -> Option<DateTime>;

/// `chrono::NaiveDateTime::parse_from_str`. The result is named: it is a
/// function of the text and the format alone.
#[verifier::external_body]
pub(crate) fn parse_datetime_with_format(s: &str, fmt: &str) -> (res: Option<DateTime>)
    ensures
        res == chrono_datetime_with_format(s@, fmt@),
{
    match chrono::NaiveDateTime::parse_from_str(s, fmt) {
        Ok(t) => Some(DateTime { year: t.year(), month: t.month(), day: t.day(), hour: t.hour(),
            minute: t.minute(), second: t.second(), nanosecond: t.nanosecond() }),
        Err(_) => None,
    }
}

/// `chrono::NaiveDate::parse_from_str`. The result is named: it is a
/// function of the text and the format alone.
#[verifier::external_body]
pub(crate) fn parse_date_with_format(s: &str, fmt: &str) -> (res: Option<Date>)
    ensures
        res == chrono_date_with_format(s@, fmt@),
{
    match chrono::NaiveDate::parse_from_str(s, fmt) {
        Ok(d) => Some(Date { year: d.year(), month: d.month(), day: d.day() }),
        Err(_) => None,
    }
}

/// `<chrono::NaiveDateTime as FromStr>::from_str`. The result is named: it
/// is a function of the text alone.
#[verifier::external_body]
pub(crate) fn parse_datetime(s: &str) -> (res: Option<DateTime>)
    ensures
        res == chrono_datetime_from_str(s@),
{
    match s.parse::<chrono::NaiveDateTime>() {
        Ok(t) => Some(DateTime { year: t.year(), month: t.month(), day: t.day(), hour: t.hour(),
            minute: t.minute(), second: t.second(), nanosecond: t.nanosecond() }),
        Err(_) => None,
    }
}

} // verus!

verus! {

/// Chronological order is a strict total order: no moment comes before
/// itself, it is transitive, and of two different moments one comes before
/// the other.
pub proof fn law_datetime_order(a: DateTime, b: DateTime, c: DateTime)
    ensures
        !datetime_lt(a, a),
        datetime_lt(a, b) && datetime_lt(b, c) ==> datetime_lt(a, c),
        a != b ==> (datetime_lt(a, b) || datetime_lt(b, a)),
        !(datetime_lt(a, b) && datetime_lt(b, a)),
{
}

/// The same holds of dates.
pub proof fn law_date_order(a: Date, b: Date, c: Date)
    ensures
        !date_lt(a, a),
        date_lt(a, b) && date_lt(b, c) ==> date_lt(a, c),
        a != b ==> (date_lt(a, b) || date_lt(b, a)),
        !(date_lt(a, b) && date_lt(b, a)),
{
}

} // verus!
