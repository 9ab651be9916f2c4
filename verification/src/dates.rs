//! Day numbers of `year-month-day` dates, as the fact archive files them.
use vstd::prelude::*;
use crate::text::{chars_of, split_chars, split_char};
use crate::number::{parse_unsigned, parse_unsigned_range};

verus! {

/// A leap year of the proleptic Gregorian calendar.
pub open spec fn is_leap_year(year: int) -> bool {
    year % 4 == 0 && (year % 100 != 0 || year % 400 == 0)
}

/// The number of days of a month (1 to 12) of a year.
pub open spec fn month_length(year: int, month: int) -> int {
    if month == 2 {
        if is_leap_year(year) {
            29
        } else {
            28
        }
    } else if month == 4 || month == 6 || month == 9 || month == 11 {
        30
    } else {
        31
    }
}

/// The days of a year before the first of `month`.
pub open spec fn days_before_month(year: int, month: int) -> int
    decreases month,
{
    if month <= 1 {
        0
    } else {
        days_before_month(year, month - 1) + month_length(year, month - 1)
    }
}

/// The days of the years before `year`, counted from 1 January of year 1
/// (negative for a year before year 1).
pub open spec fn days_before_year(year: int) -> int {
    let p = year - 1;
    365 * p + p / 4 - p / 100 + p / 400
}

/// The smallest and the largest year `chrono` has dates of.
pub open spec fn first_chrono_year() -> int {
    -262143
}

pub open spec fn last_chrono_year() -> int {
    262142
}

/// The day number that `chrono` gives a calendar date in the proleptic
/// Gregorian calendar, 1 January of year 1 being day 1; `None` where
/// `chrono` has no such date: a year out of its range, a month that is not
/// 1 to 12, or a day that the month does not have.
pub open spec fn ce_day_number(year: i32, month: u32, day: u32) -> Option<i32> {
    if first_chrono_year() <= year <= last_chrono_year() && 1 <= month <= 12 && 1 <= day
        <= month_length(year as int, month as int) {
        Some((days_before_year(year as int) + days_before_month(year as int, month as int)
            + day) as i32)
    } else {
        None
    }
}

/// `chrono::NaiveDate::from_ymd_opt` followed by `num_days_from_ce` on the
/// date it gives: `None` for a date that does not exist or whose year is out
/// of `chrono`'s range (`MIN_YEAR` to `MAX_YEAR`), else the day count of the
/// proleptic Gregorian calendar with 1 January of year 1 as day 1.
#[verifier::external_body]
fn days_from_ce(year: i32, month: u32, day: u32) -> (r: Option<i32>)
    ensures
        r == ce_day_number(year, month, day),
{
    match chrono::NaiveDate::from_ymd_opt(year, month, day) {
        Some(date) => Some(chrono::Datelike::num_days_from_ce(&date)),
        None => None,
    }
}

/// The day number of 1 January 1970 in `chrono`'s count, less one: the
/// offset between that count and days since the Unix epoch.
pub open spec fn unix_epoch_offset() -> int {
    719163
}

/// The `u32` parts of a `-`-separated text, or `None` where a part is none.
pub open spec fn date_parts(s: Seq<char>) -> Option<Seq<u32>> {
    let p = split_char(s, '-');
    if forall|i: int| 0 <= i < p.len() ==> #[trigger] parse_unsigned(p[i], 10, u32::MAX as nat) is Some {
        Some(Seq::new(p.len(), |i: int| parse_unsigned(p[i], 10, u32::MAX as nat)->0 as u32))
    } else {
        None
    }
}

/// The Unix day number that a `year-month-day` text names: every
/// `-`-separated part must be a `u32`, the first three are the year (taken
/// as an `i32` by wrapping), the month and the day; the day number of that
/// date, less the epoch offset, is taken as a `u32` by wrapping. `None` where
/// the text names no date.
pub open spec fn unix_day_of(s: Seq<char>) -> Option<u32> {
    match date_parts(s) {
        None => None,
        Some(p) => if p.len() < 3 {
            None
        } else {
            match ce_day_number(p[0] as i32, p[1], p[2]) {
                None => None,
                Some(n) => if n - unix_epoch_offset() < i32::MIN {
                    None
                } else {
                    Some((n - unix_epoch_offset()) as i32 as u32)
                },
            }
        },
    }
}

fn day_of_text(s: &str) -> (r: Option<u32>)
    ensures
        r == unix_day_of(s@),
{
    let v = chars_of(s);
    let pieces = split_chars(&v, '-');
    let ghost p = split_char(s@, '-');
    let n = pieces.len();
    let mut parts: Vec<u32> = Vec::new();
    for i in 0..n
        invariant
            n == pieces.len(),
            n == p.len(),
            p == split_char(s@, '-'),
            forall|k: int| 0 <= k < n ==> #[trigger] pieces[k]@ == p[k],
            parts.len() == i,
            forall|k: int| 0 <= k < i ==> #[trigger] parse_unsigned(p[k], 10, u32::MAX as nat) == Some(
                parts[k] as nat,
            ),
    {
        assert(pieces[i as int]@.subrange(0, pieces[i as int]@.len() as int) =~= p[i as int]);
        match parse_unsigned_range(&pieces[i], 0, pieces[i].len(), 10, 0xffff_ffff) {
            Some(x) => {
                parts.push(x as u32);
            },
            None => {
                assert(parse_unsigned(p[i as int], 10, u32::MAX as nat) is None);
                return None;
            },
        }
    }
    proof {
        let d = Seq::new(p.len(), |i: int| parse_unsigned(p[i], 10, u32::MAX as nat)->0 as u32);
        assert(date_parts(s@) == Some(d));
        assert(d =~= parts@);
    }
    if parts.len() < 3 {
        return None;
    }
    let year = (#[verifier::truncate] (parts[0] as i32));
    match days_from_ce(year, parts[1], parts[2]) {
        None => None,
        Some(days) => {
            if days < i32::MIN + 719163 {
                return None;
            }
            let shifted: i32 = days - 719163;
            let r = (#[verifier::truncate] (shifted as u32));
            Some(r)
        },
    }
}

/// The Unix day number of a `year-month-day` text, which must name a date
/// (see `unix_day_of`).
pub fn process_date(s: &str) -> (r: u32)
    requires
        unix_day_of(s@) is Some,
    ensures
        Some(r) == unix_day_of(s@),
{
    match day_of_text(s) {
        Some(d) => d,
        None => 0,
    }
}

/// The Unix day number of a `year-month-day` text (see `unix_day_of`), or
/// `None` where it names no date.
pub fn try_process_date(s: &str) -> (r: Option<u32>)
    ensures
        r == unix_day_of(s@),
{
    match day_of_text(s) {
        Some(_) => Some(process_date(s)),
        None => None,
    }
}

} // verus!
