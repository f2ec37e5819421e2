//! Calendar dates, and the `YYYY-MM-DD..YYYY-MM-DD` ranges that select commits.
use std::fmt::Write;
use vstd::prelude::*;

use crate::git::GitError;
use crate::text::chars_of;

verus! {

/// A day of the proleptic Gregorian calendar.
#[derive(Clone, Copy, Debug, PartialEq, Eq, Structural)]
pub struct CalendarDate {
    pub year: i32,
    pub month: u32,
    pub day: u32,
}

impl CalendarDate {
    /// The date as a (year, month, day) triple.
    pub open spec fn ymd(self) -> (int, int, int) {
        (self.year as int, self.month as int, self.day as int)
    }

    /// Whether this date comes strictly before `other`.
    pub fn is_before(&self, other: &CalendarDate) -> (r: bool)
        ensures
            r == ymd_before(self.ymd(), other.ymd()),
    {
        self.year < other.year || (self.year == other.year && (self.month < other.month || (self.month
            == other.month && self.day < other.day)))
    }
}

/// Calendar order on (year, month, day) triples.
pub open spec fn ymd_before(a: (int, int, int), b: (int, int, int)) -> bool {
    a.0 < b.0 || (a.0 == b.0 && (a.1 < b.1 || (a.1 == b.1 && a.2 < b.2)))
}

/// The date that `chrono` reads from the text `s` under the format `fmt`;
/// none when the text does not spell a valid date in that format.
pub uninterp spec fn parsed_date_of(s: Seq<char>, fmt: Seq<char>) -> Option<(int, int, int)>;

/// The UTC calendar date of a Unix timestamp in seconds, as `chrono` computes
/// it; none outside the range of dates it represents.
pub uninterp spec fn utc_date_of(secs: int) -> Option<(int, int, int)>;

/// The text `chrono` gives the UTC time of a Unix timestamp under the format
/// `fmt`; none when the timestamp is out of range or the format is invalid.
pub uninterp spec fn utc_text_of(secs: int, fmt: Seq<char>) -> Option<Seq<char>>;

/// The format of a calendar date in a date range.
pub open spec fn iso_format() -> Seq<char> {
    "%Y-%m-%d"@
}

/// The text of an optional string.
pub open spec fn opt_str(o: Option<String>) -> Option<Seq<char>> {
    match o {
        Some(t) => Some(t@),
        None => None,
    }
}

/// The triple of an optional date.
pub open spec fn opt_ymd(d: Option<CalendarDate>) -> Option<(int, int, int)> {
    match d {
        Some(d) => Some(d.ymd()),
        None => None,
    }
}

/// Relies on `chrono::NaiveDate::parse_from_str`: the date the text spells
/// under the format, none when it spells no valid date.
#[verifier::external_body]
fn parse_date(s: &str, fmt: &str) -> (r: Option<CalendarDate>)
    ensures
        opt_ymd(r) == parsed_date_of(s@, fmt@),
{
    match chrono::NaiveDate::parse_from_str(s, fmt) {
        Ok(d) => Some(
            CalendarDate {
                year: chrono::Datelike::year(&d),
                month: chrono::Datelike::month(&d),
                day: chrono::Datelike::day(&d),
            },
        ),
        Err(_) => None,
    }
}

/// Relies on `chrono::DateTime::<Utc>::from_timestamp` (with no nanoseconds):
/// the UTC date of the timestamp, none when it is out of range.
#[verifier::external_body]
fn timestamp_date(secs: i64) -> (r: Option<CalendarDate>)
    ensures
        opt_ymd(r) == utc_date_of(secs as int),
{
    match chrono::DateTime::<chrono::Utc>::from_timestamp(secs, 0) {
        Some(t) => {
            let d = t.date_naive();
            Some(
                CalendarDate {
                    year: chrono::Datelike::year(&d),
                    month: chrono::Datelike::month(&d),
                    day: chrono::Datelike::day(&d),
                },
            )
        },
        None => None,
    }
}

/// Relies on `chrono::DateTime::<Utc>::from_timestamp` and
/// `chrono::DateTime::format`: the UTC time of the timestamp written under the
/// format; none when `from_timestamp` gives no date or the format reports an
/// error.
#[verifier::external_body]
pub(crate) fn format_utc(secs: i64, fmt: &str) -> (r: Option<String>)
    ensures
        opt_str(r) == utc_text_of(secs as int, fmt@),
        utc_date_of(secs as int) is None ==> r is None,
{
    match chrono::DateTime::<chrono::Utc>::from_timestamp(secs, 0) {
        Some(t) => {
            let mut out = String::new();
            match write!(out, "{}", t.format(fmt)) {
                Ok(()) => Some(out),
                Err(_) => None,
            }
        },
        None => None,
    }
}

/// The UTC date of a commit made at `secs`; a time out of range counts as the
/// first day of 1970.
pub open spec fn commit_ymd(secs: int) -> (int, int, int) {
    match utc_date_of(secs) {
        Some(d) => d,
        None => (1970, 1, 1),
    }
}

/// The UTC date of a commit made at `secs` seconds after the Unix epoch.
pub fn commit_date(secs: i64) -> (r: CalendarDate)
    ensures
        r.ymd() == commit_ymd(secs as int),
{
    match timestamp_date(secs) {
        Some(d) => d,
        None => CalendarDate { year: 1970, month: 1, day: 1 },
    }
}

/// An inclusive range of calendar dates.
#[derive(Clone, Copy, Debug, PartialEq, Eq, Structural)]
pub struct DateRange {
    pub start: CalendarDate,
    pub end: CalendarDate,
}

/// Whether `..` starts at index `i` of `s`.
pub open spec fn dots_at(s: Seq<char>, i: int) -> bool {
    0 <= i && i + 1 < s.len() && s[i] == '.' && s[i + 1] == '.'
}

/// The first index at or after `from` where `..` starts.
pub open spec fn first_dots(s: Seq<char>, from: int) -> Option<int>
    decreases s.len() - from,
{
    if from < 0 || from + 1 >= s.len() {
        None
    } else if dots_at(s, from) {
        Some(from)
    } else {
        first_dots(s, from + 1)
    }
}

/// The two parts of a text that `..` splits into exactly two pieces.
pub open spec fn split_range(s: Seq<char>) -> Option<(Seq<char>, Seq<char>)> {
    match first_dots(s, 0) {
        None => None,
        Some(i) => {
            let rest = s.subrange(i + 2, s.len() as int);
            if first_dots(rest, 0) is Some {
                None
            } else {
                Some((s.take(i), rest))
            }
        },
    }
}

/// What reading `s` as a date range gives: the split into two parts, then each
/// part read as a date, the first failure named.
pub open spec fn range_outcome(s: Seq<char>, r: Result<DateRange, GitError>) -> bool {
    match split_range(s) {
        None => r matches Err(GitError::MalformedDateRange(t)) && t@ == s,
        Some((a, b)) => match (parsed_date_of(a, iso_format()), parsed_date_of(b, iso_format())) {
            (None, _) => r matches Err(GitError::UnparseableStartDate(t)) && t@ == a,
            (Some(_), None) => r matches Err(GitError::UnparseableEndDate(t)) && t@ == b,
            (Some(x), Some(y)) => r matches Ok(d) && d.start.ymd() == x && d.end.ymd() == y,
        },
    }
}

/// The first index at or after `from` where `..` starts.
fn find_dots(cs: &Vec<char>, from: usize) -> (r: Option<usize>)
    ensures
        opt_int(r) == first_dots(cs@, from as int),
        r matches Some(i) ==> dots_at(cs@, i as int),
{
    if from >= cs.len() {
        return None;
    }
    let mut i: usize = from;
    while i + 1 < cs.len()
        invariant
            from <= i < cs@.len(),
            first_dots(cs@, from as int) == first_dots(cs@, i as int),
        decreases cs.len() - i,
    {
        if cs[i] == '.' && cs[i + 1] == '.' {
            return Some(i);
        }
        i += 1;
    }
    None
}

/// An optional index as an optional integer.
pub open spec fn opt_int(o: Option<usize>) -> Option<int> {
    match o {
        Some(i) => Some(i as int),
        None => None,
    }
}

/// Reads `start..end`, each side a `YYYY-MM-DD` date.
pub fn parse_date_range(s: &str) -> (r: Result<DateRange, GitError>)
    ensures
        range_outcome(s@, r),
{
    let cs = chars_of(s);
    let first = find_dots(&cs, 0);
    let i = match first {
        None => {
            return Err(GitError::MalformedDateRange(s.to_owned()));
        },
        Some(i) => i,
    };
    let rest = s.substring_char(i + 2, cs.len());
    let rest_cs = chars_of(rest);
    if find_dots(&rest_cs, 0).is_some() {
        return Err(GitError::MalformedDateRange(s.to_owned()));
    }
    let head = s.substring_char(0, i);
    assert(head@ =~= s@.take(i as int));
    let start = match parse_date(head, "%Y-%m-%d") {
        None => {
            return Err(GitError::UnparseableStartDate(head.to_owned()));
        },
        Some(d) => d,
    };
    let end = match parse_date(rest, "%Y-%m-%d") {
        None => {
            return Err(GitError::UnparseableEndDate(rest.to_owned()));
        },
        Some(d) => d,
    };
    Ok(DateRange { start, end })
}

} // verus!
