//! The calendar, as `chrono` keeps it.
//!
//! A date is given by year, month and day. Which week a date lies in,
//! which date lies so many days after another and which text denotes a
//! date is asked of `chrono`; the answers are functions of the arguments
//! alone and are named here. Which triples are dates and how a date is
//! written is stated and proved here: the dates are those of `chrono`,
//! which has every date that `is_date` admits and no other.

use crate::note::Timestamp;
use crate::task::opt_text;
use crate::text::{chars_of, decimal, push_decimal, push_two_digits, string_of, two_digits};
use vstd::prelude::*;

verus! {

/// Whether a year has a 29th of February: every fourth year, but of the
/// hundreds only every fourth. This holds of the years before the year 1
/// as well.
pub open spec fn is_leap(year: i32) -> bool {
    year % 4 == 0 && (year % 100 != 0 || year % 400 == 0)
}

/// The number of days of a month.
pub open spec fn days_in_month(year: i32, month: u32) -> u32 {
    if month == 2 {
        if is_leap(year) {
            29
        } else {
            28
        }
    } else if month == 4 || month == 6 || month == 9 || month == 11 {
        30
    } else {
        31
    }
}

/// Whether year, month and day make a date of the calendar, which
/// reaches from the year -262143 to the year 262142.
pub open spec fn is_date(year: i32, month: u32, day: u32) -> bool {
    &&& -262143 <= year <= 262142
    &&& 1 <= month <= 12
    &&& 1 <= day <= days_in_month(year, month)
}

/// The date that a text of the form `YYYY-MM-DD` denotes.
pub uninterp spec fn date_of_text(s: Seq<char>) -> Option<(i32, u32, u32)>;

/// The numeral of `n` in at least four digits.
pub open spec fn four_digits(n: nat) -> Seq<char> {
    if n < 10 {
        seq!['0', '0', '0'] + decimal(n)
    } else if n < 100 {
        seq!['0', '0'] + decimal(n)
    } else if n < 1000 {
        seq!['0'] + decimal(n)
    } else {
        decimal(n)
    }
}

/// A year as dates are written: in four digits from 0 to 9999; before
/// that with `-` and at least four digits, after that with `+`.
pub open spec fn year_text(year: i32) -> Seq<char> {
    if year < 0 {
        seq!['-'] + four_digits((-year) as nat)
    } else if year > 9999 {
        seq!['+'] + decimal(year as nat)
    } else {
        four_digits(year as nat)
    }
}

/// A date written as `YYYY-MM-DD`: the year, the month and the day in two
/// digits each, with `-` between them.
pub open spec fn date_text(year: i32, month: u32, day: u32) -> Seq<char> {
    year_text(year) + seq!['-'] + two_digits(month as nat) + seq!['-'] + two_digits(day as nat)
}

/// The instant of midnight UTC on a date.
pub uninterp spec fn midnight_of(year: i32, month: u32, day: u32) -> Timestamp;

/// The date so many days after a date (before it, for a negative number),
/// where the calendar reaches that far.
pub uninterp spec fn date_shifted(year: i32, month: u32, day: u32, days: i64) -> Option<
    (i32, u32, u32),
>;

/// The ISO week of a date: the year of the week, and its number.
pub uninterp spec fn iso_week_of(year: i32, month: u32, day: u32) -> (i32, u32);

/// The date of a day of an ISO week (0 for Monday to 6 for Sunday), where
/// that week exists, for a year that `has_weeks`.
pub uninterp spec fn week_day_of(year: i32, week: u32, weekday: u8) -> Option<(i32, u32, u32)>;

/// Whether a day of a week of the year can be a date: the calendar
/// reaches from the year -262143 to the year 262142, and a week of the
/// year before or after may hold days of those.
pub open spec fn has_weeks(year: i32) -> bool {
    -262144 <= year <= 262143
}

/// The date of a day of an ISO week (0 for Monday to 6 for Sunday), where
/// that week exists; none in a year out of the reach of the calendar.
pub open spec fn week_day_at(year: i32, week: u32, weekday: u8) -> Option<(i32, u32, u32)> {
    if has_weeks(year) {
        week_day_of(year, week, weekday)
    } else {
        None
    }
}

/// The ISO week so many days after the Monday of a week, where that week
/// exists and the calendar reaches that far.
pub open spec fn week_shifted(year: i32, week: u32, days: i64) -> Option<(i32, u32)> {
    match week_day_at(year, week, 0) {
        Some(monday) => match date_shifted(monday.0, monday.1, monday.2, days) {
            Some(day) => Some(iso_week_of(day.0, day.1, day.2)),
            None => None,
        },
        None => None,
    }
}

/// The name of a month in three letters.
pub open spec fn month_name(month: u32) -> Seq<char> {
    if month == 1 {
        "Jan"@
    } else if month == 2 {
        "Feb"@
    } else if month == 3 {
        "Mar"@
    } else if month == 4 {
        "Apr"@
    } else if month == 5 {
        "May"@
    } else if month == 6 {
        "Jun"@
    } else if month == 7 {
        "Jul"@
    } else if month == 8 {
        "Aug"@
    } else if month == 9 {
        "Sep"@
    } else if month == 10 {
        "Oct"@
    } else if month == 11 {
        "Nov"@
    } else {
        "Dec"@
    }
}

/// A day written as month and day: `Jan 12`.
pub open spec fn month_day_text(month: u32, day: u32) -> Seq<char> {
    month_name(month) + seq![' '] + two_digits(day as nat)
}

/// A day of an ISO week (0 for Monday to 6 for Sunday), written as month
/// and day (`Jan 12`), where that week exists.
pub open spec fn week_day_label(year: i32, week: u32, weekday: u8) -> Option<Seq<char>> {
    match week_day_at(year, week, weekday) {
        Some(day) => Some(month_day_text(day.1, day.2)),
        None => None,
    }
}

/// Whether a year has a 29th of February.
fn leap(year: i32) -> (r: bool)
    requires
        -262143 <= year <= 262142,
    ensures
        r == is_leap(year),
{
    let shifted: i32 = year + 262400;
    assert(shifted % 4 == year % 4 && shifted % 100 == year % 100 && shifted % 400 == year % 400);
    shifted % 4 == 0 && (shifted % 100 != 0 || shifted % 400 == 0)
}

/// Whether the numbers make a date.
pub fn check_date(year: i32, month: u32, day: u32) -> (r: bool)
    ensures
        r == is_date(year, month, day),
        r ==> 1 <= month <= 12 && 1 <= day <= 31,
{
    if year < -262143 || year > 262142 || month < 1 || month > 12 || day < 1 {
        return false;
    }
    let length: u32 = if month == 2 {
        if leap(year) {
            29
        } else {
            28
        }
    } else if month == 4 || month == 6 || month == 9 || month == 11 {
        30
    } else {
        31
    };
    day <= length
}

/// Reads a date with `NaiveDate::parse_from_str` and the format
/// `%Y-%m-%d`. The result is named `date_of_text`; what is read is a date.
#[verifier::external_body]
pub(crate) fn parse_ymd(s: &str) -> (r: Option<(i32, u32, u32)>)
    ensures
        r == date_of_text(s@),
        match r {
            Some(d) => is_date(d.0, d.1, d.2),
            None => true,
        },
{
    chrono::NaiveDate::parse_from_str(s, "%Y-%m-%d").ok().map(
        |d| (chrono::Datelike::year(&d), chrono::Datelike::month(&d), chrono::Datelike::day(&d)),
    )
}

/// Writes a date as `YYYY-MM-DD`.
pub fn format_date(year: i32, month: u32, day: u32) -> (r: String)
    ensures
        r@ == date_text(year, month, day),
{
    let mut out: Vec<char> = Vec::new();
    let wide: i64 = year as i64;
    if wide < 0 {
        out.push('-');
        push_four_digits(&mut out, (-wide) as usize);
    } else if wide > 9999 {
        out.push('+');
        push_decimal(&mut out, wide as usize);
    } else {
        push_four_digits(&mut out, wide as usize);
    }
    assert(out@ =~= year_text(year));
    out.push('-');
    push_two_digits(&mut out, month);
    out.push('-');
    push_two_digits(&mut out, day);
    assert(out@ =~= date_text(year, month, day));
    string_of(&out)
}

/// Appends the numeral of `n` in at least four digits.
fn push_four_digits(out: &mut Vec<char>, n: usize)
    ensures
        final(out)@ == old(out)@ + four_digits(n as nat),
{
    if n < 10 {
        out.push('0');
        out.push('0');
        out.push('0');
    } else if n < 100 {
        out.push('0');
        out.push('0');
    } else if n < 1000 {
        out.push('0');
    }
    push_decimal(out, n);
    assert(out@ =~= old(out)@ + four_digits(n as nat));
}

/// Midnight UTC on a date, by `NaiveDate::and_hms_opt(0, 0, 0)` and
/// `NaiveDateTime::and_utc`, as seconds and nanoseconds. The result is
/// named `midnight_of`. The date is made by `NaiveDate::from_ymd_opt`,
/// which has every date that `is_date` admits.
#[verifier::external_body]
pub(crate) fn midnight_utc(year: i32, month: u32, day: u32) -> (r: Timestamp)
    requires
        is_date(year, month, day),
    ensures
        r == midnight_of(year, month, day),
{
    let t = chrono::NaiveDate::from_ymd_opt(year, month, day).unwrap().and_hms_opt(
        0,
        0,
        0,
    ).unwrap().and_utc();
    Timestamp { seconds: t.timestamp(), nanos: t.timestamp_subsec_nanos() }
}

/// Moves a date by days with `NaiveDate::checked_add_signed`. The result is
/// named `date_shifted`; what comes out is a date. The date to move is
/// made by `NaiveDate::from_ymd_opt`, which has every date that `is_date`
/// admits.
#[verifier::external_body]
pub(crate) fn shift_date(year: i32, month: u32, day: u32, days: i64) -> (r: Option<
    (i32, u32, u32),
>)
    requires
        is_date(year, month, day),
    ensures
        r == date_shifted(year, month, day, days),
        match r {
            Some(d) => is_date(d.0, d.1, d.2),
            None => true,
        },
{
    chrono::TimeDelta::try_days(days).and_then(
        |delta| chrono::NaiveDate::from_ymd_opt(year, month, day).unwrap().checked_add_signed(delta),
    ).map(|d| (chrono::Datelike::year(&d), chrono::Datelike::month(&d), chrono::Datelike::day(&d)))
}

/// The ISO week of a date, by `NaiveDate::iso_week`. The result is named
/// `iso_week_of`. The date is made by `NaiveDate::from_ymd_opt`, which has
/// every date that `is_date` admits.
#[verifier::external_body]
pub(crate) fn iso_week(year: i32, month: u32, day: u32) -> (r: (i32, u32))
    requires
        is_date(year, month, day),
    ensures
        r == iso_week_of(year, month, day),
{
    let week = chrono::Datelike::iso_week(&chrono::NaiveDate::from_ymd_opt(year, month, day).unwrap());
    (week.year(), week.week())
}

/// The date of a day of an ISO week, by `Weekday::try_from` and
/// `NaiveDate::from_isoywd_opt`. The result is named `week_day_of`; what
/// comes out is a date. The year is kept within reach, because
/// `from_isoywd_opt` looks at the year before and the year after.
#[verifier::external_body]
pub(crate) fn week_day(year: i32, week: u32, weekday: u8) -> (r: Option<(i32, u32, u32)>)
    requires
        has_weeks(year),
    ensures
        r == week_day_of(year, week, weekday),
        match r {
            Some(d) => is_date(d.0, d.1, d.2) && 1 <= d.1 <= 12 && 1 <= d.2 <= 31,
            None => true,
        },
{
    chrono::Weekday::try_from(weekday).ok().and_then(
        |day| chrono::NaiveDate::from_isoywd_opt(year, week, day),
    ).map(|d| (chrono::Datelike::year(&d), chrono::Datelike::month(&d), chrono::Datelike::day(&d)))
}

/// The date of a day of an ISO week (0 for Monday to 6 for Sunday);
/// `None` where the calendar has no such day.
pub fn day_of_week(year: i32, week: u32, weekday: u8) -> (r: Option<(i32, u32, u32)>)
    ensures
        r == week_day_at(year, week, weekday),
        match r {
            Some(d) => is_date(d.0, d.1, d.2) && 1 <= d.1 <= 12 && 1 <= d.2 <= 31,
            None => true,
        },
{
    if year < -262144 || year > 262143 {
        None
    } else {
        week_day(year, week, weekday)
    }
}

/// The ISO week that lies so many days after the Monday of a week.
pub fn shift_week(year: i32, week: u32, days: i64) -> (r: Option<(i32, u32)>)
    ensures
        r == week_shifted(year, week, days),
{
    match day_of_week(year, week, 0) {
        Some((y, m, d)) => match shift_date(y, m, d, days) {
            Some((y, m, d)) => Some(iso_week(y, m, d)),
            None => None,
        },
        None => None,
    }
}

/// The name of a month in three letters.
fn short_month(month: u32) -> (r: &'static str)
    ensures
        r@ == month_name(month),
{
    if month == 1 {
        "Jan"
    } else if month == 2 {
        "Feb"
    } else if month == 3 {
        "Mar"
    } else if month == 4 {
        "Apr"
    } else if month == 5 {
        "May"
    } else if month == 6 {
        "Jun"
    } else if month == 7 {
        "Jul"
    } else if month == 8 {
        "Aug"
    } else if month == 9 {
        "Sep"
    } else if month == 10 {
        "Oct"
    } else if month == 11 {
        "Nov"
    } else {
        "Dec"
    }
}

/// A day of an ISO week, written as month and day.
pub fn label_week_day(year: i32, week: u32, weekday: u8) -> (r: Option<String>)
    ensures
        opt_text(r) == week_day_label(year, week, weekday),
{
    match day_of_week(year, week, weekday) {
        Some((_, month, day)) => {
            let mut out = chars_of(short_month(month));
            out.push(' ');
            push_two_digits(&mut out, day);
            assert(out@ =~= month_day_text(month, day));
            Some(string_of(&out))
        },
        None => None,
    }
}

/// Today's date in the local time zone, by `chrono::Local::now`. It depends
/// on when and where it is asked: all that is claimed is that it is a date.
#[verifier::external_body]
pub(crate) fn today_local() -> (r: (i32, u32, u32))
    ensures
        is_date(r.0, r.1, r.2),
{
    let d = chrono::Local::now().date_naive();
    (chrono::Datelike::year(&d), chrono::Datelike::month(&d), chrono::Datelike::day(&d))
}

} // verus!
