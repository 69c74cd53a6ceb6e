//! Periodic notes: one note for each day, week or quarter.
//!
//! A period has an identifier (`2026-01-16`, `2026-W03`, `2026-Q1`), which
//! is also the name of its note. Dates and weeks are those of `chrono`.

use crate::calendar::{
    check_date, date_of_text, date_shifted, date_text, format_date, is_date, iso_week,
    iso_week_of, label_week_day, parse_ymd, shift_date, shift_week, today_local, week_day_label,
    week_shifted,
};
use crate::error::Error;
use crate::text::{
    chars_of, copy_range, decimal, find_from, first_occurrence, i32_of_text,
    lemma_first_occurrence, lowercase, parse_i32, parse_u32, push_decimal, push_signed,
    push_two_digits, signed_decimal, string_of, to_lower, trim, trimmed, two_digits, u32_of_text,
};
use vstd::prelude::*;

verus! {

/// A kind of periodic note.
pub trait PeriodType: Sized {
    /// The identifier of the period.
    spec fn id(&self) -> Seq<char>;

    /// The period before this one, where the calendar has one.
    spec fn before(&self) -> Option<Self>;

    /// The period after this one, where the calendar has one.
    spec fn after(&self) -> Option<Self>;

    /// The name of this kind of period.
    spec fn kind() -> Seq<char>;

    /// Whether a text names a period of this kind.
    spec fn parses(text: Seq<char>) -> bool;

    /// Whether a text names this period.
    spec fn names(text: Seq<char>, period: Self) -> bool;

    /// Whether the period can be shown with the dates that it spans: the
    /// calendar has it.
    spec fn is_shown(&self) -> bool;

    /// The identifier of the period: `2026-01-16`, `2026-W03`, `2026-Q1`.
    fn identifier(&self) -> (r: String)
        ensures
            r@ == self.id(),
    ;

    /// The period as a list shows it.
    spec fn shown(&self) -> Seq<char>;

    /// The period as a list shows it: weeks and quarters with the dates
    /// that they span.
    fn display_string(&self) -> (r: String)
        requires
            self.is_shown(),
        ensures
            r@ == self.shown(),
    ;

    /// The period that a text names: its identifier, or a date in it.
    /// Any other text is reported as `InvalidPeriod`.
    fn from_date_str(date_str: &str) -> (r: Result<Self, Error>)
        ensures
            r is Ok <==> Self::parses(date_str@),
            match r {
                Ok(period) => Self::names(date_str@, period) && period.is_shown(),
                Err(Error::InvalidPeriod(text)) => text@ == date_str@,
                Err(_) => false,
            },
    ;

    /// The period of today, as the clock of the machine has it.
    fn current() -> (r: Self);

    /// The period before this one.
    fn prev(&self) -> (r: Self)
        requires
            self.before() is Some,
        ensures
            self.before() == Some(r),
    ;

    /// The period after this one.
    fn next(&self) -> (r: Self)
        requires
            self.after() is Some,
        ensures
            self.after() == Some(r),
    ;

    /// The period before this one, where the calendar has one.
    fn checked_prev(&self) -> (r: Option<Self>)
        ensures
            r == self.before(),
    ;

    /// The period after this one, where the calendar has one.
    fn checked_next(&self) -> (r: Option<Self>)
        ensures
            r == self.after(),
    ;

    /// The name of the note of the period: its identifier and `.md`.
    fn filename(&self) -> (r: String)
        ensures
            r@ == self.id() + ".md"@,
    ;

    /// The name of this kind of period, which is also the name of its
    /// template: `daily`, `weekly`, `quarterly`.
    fn template_name() -> (r: &'static str)
        ensures
            r@ == Self::kind(),
    ;
}

fn with_md(id: String) -> (r: String)
    ensures
        r@ == id@ + ".md"@,
{
    let mut name = id;
    name.push_str(".md");
    name
}

// ---------------------------------------------------------------------------
// Days
// ---------------------------------------------------------------------------

/// A day.
#[derive(Debug, Clone, Copy, PartialEq, Eq)]
pub struct Daily {
    year: i32,
    month: u32,
    day: u32,
}

impl Daily {
    /// Year, month and day are a date of the calendar.
    #[verifier::type_invariant]
    closed spec fn wf(&self) -> bool {
        is_date(self.year, self.month, self.day)
    }

    /// Year, month and day.
    pub closed spec fn ymd(&self) -> (i32, u32, u32) {
        (self.year, self.month, self.day)
    }

    /// The day of a date; `None` where the numbers make no date.
    pub fn from_date(year: i32, month: u32, day: u32) -> (r: Option<Daily>)
        ensures
            r is Some <==> is_date(year, month, day),
            r is Some ==> r->0.ymd() == (year, month, day),
    {
        if check_date(year, month, day) {
            Some(Daily { year, month, day })
        } else {
            None
        }
    }

    fn shifted(&self, days: i64) -> (r: Option<Daily>)
        ensures
            r == day_shifted(*self, days),
    {
        proof {
            use_type_invariant(self);
        }
        match shift_date(self.year, self.month, self.day, days) {
            Some((year, month, day)) => Some(Daily { year, month, day }),
            None => None,
        }
    }
}

/// The day of year, month and day.
pub closed spec fn day_of(ymd: (i32, u32, u32)) -> Daily {
    Daily { year: ymd.0, month: ymd.1, day: ymd.2 }
}

/// A day is the day of its year, month and day, and of nothing else.
pub proof fn lemma_day_of(day: Daily, ymd: (i32, u32, u32))
    ensures
        day_of(ymd).ymd() == ymd,
        day_of(day.ymd()) == day,
{
}

/// The day so many days after a day.
pub open spec fn day_shifted(day: Daily, days: i64) -> Option<Daily> {
    match date_shifted(day.ymd().0, day.ymd().1, day.ymd().2, days) {
        Some(d) => Some(day_of(d)),
        None => None,
    }
}

impl PeriodType for Daily {
    open spec fn id(&self) -> Seq<char> {
        date_text(self.ymd().0, self.ymd().1, self.ymd().2)
    }

    open spec fn before(&self) -> Option<Daily> {
        day_shifted(*self, -1i64)
    }

    open spec fn after(&self) -> Option<Daily> {
        day_shifted(*self, 1)
    }

    open spec fn kind() -> Seq<char> {
        "daily"@
    }

    open spec fn parses(text: Seq<char>) -> bool {
        date_of_text(text) is Some
    }

    open spec fn names(text: Seq<char>, period: Daily) -> bool {
        date_of_text(text) == Some(period.ymd())
    }

    open spec fn is_shown(&self) -> bool {
        true
    }

    fn identifier(&self) -> (r: String) {
        proof {
            use_type_invariant(self);
        }
        format_date(self.year, self.month, self.day)
    }

    open spec fn shown(&self) -> Seq<char> {
        self.id()
    }

    /// The identifier.
    fn display_string(&self) -> (r: String) {
        self.identifier()
    }

    /// The day that a text of the form `YYYY-MM-DD` names.
    fn from_date_str(date_str: &str) -> (r: Result<Daily, Error>) {
        match parse_ymd(date_str) {
            Some((year, month, day)) => Ok(Daily { year, month, day }),
            None => Err(Error::InvalidPeriod(date_str.to_owned())),
        }
    }

    /// Today: a date of the calendar, whatever the clock says.
    fn current() -> (r: Daily)
        ensures
            is_date(r.ymd().0, r.ymd().1, r.ymd().2),
    {
        let (year, month, day) = today_local();
        Daily { year, month, day }
    }

    fn prev(&self) -> (r: Daily) {
        match self.shifted(-1) {
            Some(day) => day,
            None => *self,
        }
    }

    fn next(&self) -> (r: Daily) {
        match self.shifted(1) {
            Some(day) => day,
            None => *self,
        }
    }

    fn checked_prev(&self) -> (r: Option<Daily>) {
        self.shifted(-1)
    }

    fn checked_next(&self) -> (r: Option<Daily>) {
        self.shifted(1)
    }

    fn filename(&self) -> (r: String) {
        with_md(self.identifier())
    }

    fn template_name() -> (r: &'static str) {
        "daily"
    }
}

// ---------------------------------------------------------------------------
// Weeks
// ---------------------------------------------------------------------------

/// An ISO week.
#[derive(Debug, Clone, Copy, PartialEq, Eq)]
pub struct Weekly {
    year: i32,
    week: u32,
}

/// Whether the calendar has the week: its Monday and its Sunday exist.
pub open spec fn is_week(year: i32, week: u32) -> bool {
    week_day_label(year, week, 0) is Some && week_day_label(year, week, 6) is Some
}

/// What splits an identifier of a week or a quarter in two: the year
/// before the mark, the number after it. `None` where the mark does not
/// stand in the text exactly once.
pub open spec fn split_once(s: Seq<char>, mark: Seq<char>) -> Option<(Seq<char>, Seq<char>)> {
    match first_occurrence(s, mark, 0) {
        Some(at) => if first_occurrence(s, mark, at + mark.len()) is None {
            Some((s.take(at), s.skip(at + mark.len())))
        } else {
            None
        },
        None => None,
    }
}

/// Splits a text at the one place where `mark` stands in it.
fn split_at_mark(s: &Vec<char>, mark: &Vec<char>) -> (r: Option<(Vec<char>, Vec<char>)>)
    ensures
        match r {
            Some(parts) => split_once(s@, mark@) == Some((parts.0@, parts.1@)),
            None => split_once(s@, mark@) is None,
        },
{
    match find_from(s, mark, 0) {
        Some(at) => {
            proof {
                lemma_first_occurrence(s@, mark@, 0);
            }
            assert(at + mark.len() <= s.len());
            if find_from(s, mark, at + mark.len()).is_some() {
                None
            } else {
                let head = copy_range(s, 0, at);
                let tail = copy_range(s, at + mark.len(), s.len());
                assert(head@ =~= s@.take(at as int));
                assert(tail@ =~= s@.skip(at + mark.len()));
                Some((head, tail))
            }
        },
        None => None,
    }
}

/// The identifier of a week: the year, `-W`, and the number of the week
/// in two digits.
pub open spec fn week_id(year: i32, week: u32) -> Seq<char> {
    signed_decimal(year as int) + seq!['-', 'W'] + two_digits(week as nat)
}

/// The week that an identifier `<year>-W<week>` names.
pub open spec fn week_named(s: Seq<char>) -> Option<(i32, u32)> {
    match split_once(s, seq!['-', 'W']) {
        Some(parts) => match (i32_of_text(parts.0), u32_of_text(parts.1)) {
            (Some(year), Some(week)) => Some((year, week)),
            _ => None,
        },
        None => None,
    }
}

/// The week that a text names: by its identifier, or else as the week of
/// a date `YYYY-MM-DD`.
pub open spec fn week_of_text(s: Seq<char>) -> Option<(i32, u32)> {
    match week_named(s) {
        Some(week) => Some(week),
        None => match date_of_text(s) {
            Some(d) => Some(iso_week_of(d.0, d.1, d.2)),
            None => None,
        },
    }
}

/// Whether a year and a number are the ISO week of some date.
pub open spec fn is_week_of_a_date(week: (i32, u32)) -> bool {
    exists|y: i32, m: u32, d: u32| is_date(y, m, d) && #[trigger] iso_week_of(y, m, d) == week
}

impl Weekly {
    /// Whether the calendar has the week. Every week that is made from a
    /// date or a text is one that the calendar has.
    pub closed spec fn is_valid(&self) -> bool {
        is_week(self.year, self.week)
    }

    /// The year of the week, and its number.
    pub closed spec fn year_week(&self) -> (i32, u32) {
        (self.year, self.week)
    }

    /// Whether two weeks are the same.
    pub fn same_week(&self, other: &Weekly) -> (r: bool)
        ensures
            r == (*self == *other),
    {
        self.year == other.year && self.week == other.week
    }

    /// The week of the given year and number; `None` where the calendar
    /// has no such week.
    pub fn new(year: i32, week: u32) -> (r: Option<Weekly>)
        ensures
            r is Some <==> is_week(year, week),
            r is Some ==> r->0.year_week() == (year, week) && r->0.is_valid(),
    {
        if label_week_day(year, week, 0).is_some() && label_week_day(year, week, 6).is_some() {
            Some(Weekly { year, week })
        } else {
            None
        }
    }

    /// The week of a date; `None` where the numbers make no date.
    pub fn from_date(year: i32, month: u32, day: u32) -> (r: Option<Weekly>)
        ensures
            r is Some ==> is_date(year, month, day) && r->0.is_valid() && r->0.year_week()
                == iso_week_of(year, month, day),
            is_date(year, month, day) && is_week(
                iso_week_of(year, month, day).0,
                iso_week_of(year, month, day).1,
            ) ==> r is Some,
    {
        if check_date(year, month, day) {
            let (y, w) = iso_week(year, month, day);
            Weekly::new(y, w)
        } else {
            None
        }
    }

    fn shifted(&self, days: i64) -> (r: Option<Weekly>)
        ensures
            r == week_moved(*self, days),
            r is Some ==> r->0.is_valid(),
    {
        match shift_week(self.year, self.week, days) {
            Some((year, week)) => Weekly::new(year, week),
            None => None,
        }
    }
}

/// The week of a year and a number.
pub closed spec fn week_of(year_week: (i32, u32)) -> Weekly {
    Weekly { year: year_week.0, week: year_week.1 }
}

/// A week is the week of its year and number, and of nothing else.
pub proof fn lemma_week_of(week: Weekly, year_week: (i32, u32))
    ensures
        week_of(year_week).year_week() == year_week,
        week_of(week.year_week()) == week,
{
}

/// The week so many days after the start of a week.
pub open spec fn week_moved(week: Weekly, days: i64) -> Option<Weekly> {
    match week_shifted(week.year_week().0, week.year_week().1, days) {
        Some(w) => if is_week(w.0, w.1) {
            Some(week_of(w))
        } else {
            None
        },
        None => None,
    }
}

impl PeriodType for Weekly {
    open spec fn id(&self) -> Seq<char> {
        week_id(self.year_week().0, self.year_week().1)
    }

    open spec fn before(&self) -> Option<Weekly> {
        week_moved(*self, -7i64)
    }

    open spec fn after(&self) -> Option<Weekly> {
        week_moved(*self, 7)
    }

    open spec fn kind() -> Seq<char> {
        "weekly"@
    }

    open spec fn parses(text: Seq<char>) -> bool {
        match week_of_text(text) {
            Some(w) => is_week(w.0, w.1),
            None => false,
        }
    }

    open spec fn names(text: Seq<char>, period: Weekly) -> bool {
        week_of_text(text) == Some(period.year_week())
    }

    open spec fn is_shown(&self) -> bool {
        self.is_valid()
    }

    fn identifier(&self) -> (r: String) {
        let mut out: Vec<char> = Vec::new();
        push_signed(&mut out, self.year);
        out.push('-');
        out.push('W');
        push_two_digits(&mut out, self.week);
        assert(out@ =~= week_id(self.year, self.week));
        string_of(&out)
    }

    open spec fn shown(&self) -> Seq<char> {
        self.id() + "    "@ + week_day_label(self.year_week().0, self.year_week().1, 0)->0
            + " - "@ + week_day_label(self.year_week().0, self.year_week().1, 6)->0
    }

    /// The identifier, four spaces, and the Monday and the Sunday of the
    /// week: `2026-W03    Jan 12 - Jan 18`.
    fn display_string(&self) -> (r: String) {
        let mut out = self.identifier();
        out.push_str("    ");
        match label_week_day(self.year, self.week, 0) {
            Some(monday) => out.push_str(monday.as_str()),
            None => {},
        }
        out.push_str(" - ");
        match label_week_day(self.year, self.week, 6) {
            Some(sunday) => out.push_str(sunday.as_str()),
            None => {},
        }
        out
    }

    /// The week that a text names: by its identifier (`2026-W03`), or
    /// else as the week of a date (`2026-01-16`).
    fn from_date_str(date_str: &str) -> (r: Result<Weekly, Error>) {
        let chars = chars_of(date_str);
        let mark: Vec<char> = vec!['-', 'W'];
        assert(mark@ =~= seq!['-', 'W']);
        let named = match split_at_mark(&chars, &mark) {
            Some((year, week)) => {
                match (parse_i32(string_of(&year).as_str()), parse_u32(string_of(&week).as_str())) {
                    (Some(year), Some(week)) => Some((year, week)),
                    _ => None,
                }
            },
            None => None,
        };
        let found = match named {
            Some((year, week)) => Weekly::new(year, week),
            None => match parse_ymd(date_str) {
                Some((year, month, day)) => {
                    let (y, w) = iso_week(year, month, day);
                    Weekly::new(y, w)
                },
                None => None,
            },
        };
        match found {
            Some(week) => Ok(week),
            None => Err(Error::InvalidPeriod(date_str.to_owned())),
        }
    }

    /// The ISO week of today: that of some date, whatever the clock
    /// says.
    fn current() -> (r: Weekly)
        ensures
            is_week_of_a_date(r.year_week()),
    {
        let (y, m, d) = today_local();
        let (year, week) = iso_week(y, m, d);
        assert(is_date(y, m, d) && iso_week_of(y, m, d) == (year, week));
        Weekly { year, week }
    }

    fn prev(&self) -> (r: Weekly) {
        match self.shifted(-7) {
            Some(week) => week,
            None => *self,
        }
    }

    fn next(&self) -> (r: Weekly) {
        match self.shifted(7) {
            Some(week) => week,
            None => *self,
        }
    }

    fn checked_prev(&self) -> (r: Option<Weekly>) {
        self.shifted(-7)
    }

    fn checked_next(&self) -> (r: Option<Weekly>) {
        self.shifted(7)
    }

    fn filename(&self) -> (r: String) {
        with_md(self.identifier())
    }

    fn template_name() -> (r: &'static str) {
        "weekly"
    }
}

// ---------------------------------------------------------------------------
// Quarters
// ---------------------------------------------------------------------------

/// A quarter of a year.
#[derive(Debug, Clone, Copy, PartialEq, Eq)]
pub struct Quarterly {
    year: i32,
    quarter: u32,
}

/// The identifier of a quarter: the year, `-Q`, and the number of the
/// quarter.
pub open spec fn quarter_id(year: i32, quarter: u32) -> Seq<char> {
    signed_decimal(year as int) + seq!['-', 'Q'] + decimal(quarter as nat)
}

/// The months of a quarter.
pub open spec fn quarter_months(quarter: u32) -> Seq<char> {
    if quarter == 1 {
        "Jan - Mar"@
    } else if quarter == 2 {
        "Apr - Jun"@
    } else if quarter == 3 {
        "Jul - Sep"@
    } else {
        "Oct - Dec"@
    }
}

/// The quarter in which a month lies.
pub open spec fn quarter_of_month(month: u32) -> u32 {
    ((month - 1) / 3 + 1) as u32
}

/// The quarter that an identifier `<year>-Q<quarter>` names.
pub open spec fn quarter_named(s: Seq<char>) -> Option<(i32, u32)> {
    match split_once(s, seq!['-', 'Q']) {
        Some(parts) => match (i32_of_text(parts.0), u32_of_text(parts.1)) {
            (Some(year), Some(quarter)) => if 1 <= quarter <= 4 {
                Some((year, quarter))
            } else {
                None
            },
            _ => None,
        },
        None => None,
    }
}

/// Whether a text is a quarter of the current year in short: `q1` to
/// `q4`, in either case.
pub open spec fn is_short_quarter(s: Seq<char>) -> bool {
    lowercase(s).len() > 0 && lowercase(s)[0] == 'q'
}

/// The quarter that the short form names.
pub open spec fn short_quarter(s: Seq<char>) -> Option<u32> {
    match u32_of_text(lowercase(s).skip(1)) {
        Some(quarter) => if 1 <= quarter <= 4 {
            Some(quarter)
        } else {
            None
        },
        None => None,
    }
}

/// The quarter of the date that a text of the form `YYYY-MM-DD` denotes.
pub open spec fn quarter_of_date(s: Seq<char>) -> Option<(i32, u32)> {
    match date_of_text(s) {
        Some(d) => Some((d.0, quarter_of_month(d.1))),
        None => None,
    }
}

/// Whether a year and a number are the quarter of some date.
pub open spec fn is_quarter_of_a_date(quarter: (i32, u32)) -> bool {
    exists|y: i32, m: u32, d: u32| #[trigger]
        is_date(y, m, d) && quarter == (y, quarter_of_month(m))
}

impl Quarterly {
    /// The quarter is one of the four.
    #[verifier::type_invariant]
    closed spec fn wf(&self) -> bool {
        1 <= self.quarter <= 4
    }

    /// The year of the quarter, and its number.
    pub closed spec fn year_quarter(&self) -> (i32, u32) {
        (self.year, self.quarter)
    }

    /// The quarter of the given year and number; `None` where the number
    /// is none of 1 to 4.
    pub fn new(year: i32, quarter: u32) -> (r: Option<Quarterly>)
        ensures
            r is Some <==> 1 <= quarter <= 4,
            r is Some ==> r->0.year_quarter() == (year, quarter),
    {
        if 1 <= quarter && quarter <= 4 {
            Some(Quarterly { year, quarter })
        } else {
            None
        }
    }

    /// The quarter of a date; `None` where the numbers make no date.
    pub fn from_date(year: i32, month: u32, day: u32) -> (r: Option<Quarterly>)
        ensures
            r is Some <==> is_date(year, month, day),
            r is Some ==> r->0.year_quarter() == (year, quarter_of_month(month)),
    {
        if check_date(year, month, day) {
            Some(Quarterly { year, quarter: (month - 1) / 3 + 1 })
        } else {
            None
        }
    }

    /// The quarter, from 1 to 4.
    pub fn quarter(&self) -> (r: u32)
        ensures
            r == self.year_quarter().1,
            1 <= r <= 4,
    {
        proof {
            use_type_invariant(self);
        }
        self.quarter
    }

    /// The year.
    pub fn year(&self) -> (r: i32)
        ensures
            r == self.year_quarter().0,
    {
        self.year
    }
}

/// The quarter before a quarter, where the years reach that far.
pub open spec fn quarter_before(year: i32, quarter: u32) -> Option<(i32, u32)> {
    if quarter == 1 {
        if year > i32::MIN {
            Some(((year - 1) as i32, 4u32))
        } else {
            None
        }
    } else {
        Some((year, (quarter - 1) as u32))
    }
}

/// The quarter after a quarter, where the years reach that far.
pub open spec fn quarter_after(year: i32, quarter: u32) -> Option<(i32, u32)> {
    if quarter == 4 {
        if year < i32::MAX {
            Some(((year + 1) as i32, 1u32))
        } else {
            None
        }
    } else {
        Some((year, (quarter + 1) as u32))
    }
}

/// The quarter of a year and a number.
pub closed spec fn quarter_of(year_quarter: (i32, u32)) -> Quarterly {
    Quarterly { year: year_quarter.0, quarter: year_quarter.1 }
}

/// A quarter is the quarter of its year and number, and of nothing else.
pub proof fn lemma_quarter_of(quarter: Quarterly, year_quarter: (i32, u32))
    ensures
        quarter_of(year_quarter).year_quarter() == year_quarter,
        quarter_of(quarter.year_quarter()) == quarter,
{
}

impl PeriodType for Quarterly {
    open spec fn id(&self) -> Seq<char> {
        quarter_id(self.year_quarter().0, self.year_quarter().1)
    }

    open spec fn before(&self) -> Option<Quarterly> {
        match quarter_before(self.year_quarter().0, self.year_quarter().1) {
            Some(q) => Some(quarter_of(q)),
            None => None,
        }
    }

    open spec fn after(&self) -> Option<Quarterly> {
        match quarter_after(self.year_quarter().0, self.year_quarter().1) {
            Some(q) => Some(quarter_of(q)),
            None => None,
        }
    }

    open spec fn kind() -> Seq<char> {
        "quarterly"@
    }

    open spec fn parses(text: Seq<char>) -> bool {
        let t = trim(text);
        quarter_named(t) is Some || if is_short_quarter(t) {
            short_quarter(t) is Some
        } else {
            quarter_of_date(t) is Some
        }
    }

    open spec fn names(text: Seq<char>, period: Quarterly) -> bool {
        let t = trim(text);
        match quarter_named(t) {
            Some(named) => period.year_quarter() == named,
            None => if is_short_quarter(t) {
                short_quarter(t) == Some(period.year_quarter().1)
            } else {
                quarter_of_date(t) == Some(period.year_quarter())
            },
        }
    }

    open spec fn is_shown(&self) -> bool {
        true
    }

    fn identifier(&self) -> (r: String) {
        let mut out: Vec<char> = Vec::new();
        push_signed(&mut out, self.year);
        out.push('-');
        out.push('Q');
        push_decimal(&mut out, self.quarter as usize);
        assert(out@ =~= quarter_id(self.year, self.quarter));
        string_of(&out)
    }

    open spec fn shown(&self) -> Seq<char> {
        self.id() + "     "@ + quarter_months(self.year_quarter().1)
    }

    /// The identifier, five spaces, and the months of the quarter:
    /// `2026-Q1     Jan - Mar`.
    fn display_string(&self) -> (r: String) {
        let mut out = self.identifier();
        out.push_str("     ");
        if self.quarter == 1 {
            out.push_str("Jan - Mar");
        } else if self.quarter == 2 {
            out.push_str("Apr - Jun");
        } else if self.quarter == 3 {
            out.push_str("Jul - Sep");
        } else {
            out.push_str("Oct - Dec");
        }
        out
    }

    /// The quarter that a text names, whitespace around it aside: by its
    /// identifier (`2026-Q1`), in short for the current year (`q1`,
    /// `Q4`), or as the quarter of a date (`2026-01-16`).
    fn from_date_str(date_str: &str) -> (r: Result<Quarterly, Error>) {
        let chars = trimmed(&chars_of(date_str));
        let text = string_of(&chars);
        let mark: Vec<char> = vec!['-', 'Q'];
        assert(mark@ =~= seq!['-', 'Q']);
        match split_at_mark(&chars, &mark) {
            Some((year, quarter)) => {
                match (
                    parse_i32(string_of(&year).as_str()),
                    parse_u32(string_of(&quarter).as_str()),
                ) {
                    (Some(year), Some(quarter)) => {
                        if 1 <= quarter && quarter <= 4 {
                            return Ok(Quarterly { year, quarter });
                        }
                    },
                    _ => {},
                }
            },
            None => {},
        }
        let lower = to_lower(&chars);
        if lower.len() > 0 && lower[0] == 'q' {
            let number = copy_range(&lower, 1, lower.len());
            assert(number@ =~= lower@.skip(1));
            return match parse_u32(string_of(&number).as_str()) {
                Some(quarter) => {
                    if 1 <= quarter && quarter <= 4 {
                        let (year, _, _) = today_local();
                        Ok(Quarterly { year, quarter })
                    } else {
                        Err(Error::InvalidPeriod(date_str.to_owned()))
                    }
                },
                None => Err(Error::InvalidPeriod(date_str.to_owned())),
            };
        }
        match parse_ymd(text.as_str()) {
            Some((year, month, day)) => {
                if check_date(year, month, day) {
                    Ok(Quarterly { year, quarter: (month - 1) / 3 + 1 })
                } else {
                    Err(Error::InvalidPeriod(date_str.to_owned()))
                }
            },
            None => Err(Error::InvalidPeriod(date_str.to_owned())),
        }
    }

    /// The quarter of today: that of some date, whatever the clock says.
    fn current() -> (r: Quarterly)
        ensures
            is_quarter_of_a_date(r.year_quarter()),
    {
        let (year, month, day) = today_local();
        if check_date(year, month, day) {
            assert(is_date(year, month, day));
            Quarterly { year, quarter: (month - 1) / 3 + 1 }
        } else {
            Quarterly { year, quarter: 1 }
        }
    }

    fn prev(&self) -> (r: Quarterly) {
        match self.checked_prev() {
            Some(q) => q,
            None => *self,
        }
    }

    fn next(&self) -> (r: Quarterly) {
        match self.checked_next() {
            Some(q) => q,
            None => *self,
        }
    }

    fn checked_prev(&self) -> (r: Option<Quarterly>) {
        proof {
            use_type_invariant(self);
        }
        if self.quarter == 1 {
            if self.year > i32::MIN {
                Some(Quarterly { year: self.year - 1, quarter: 4 })
            } else {
                None
            }
        } else {
            Some(Quarterly { year: self.year, quarter: self.quarter - 1 })
        }
    }

    fn checked_next(&self) -> (r: Option<Quarterly>) {
        proof {
            use_type_invariant(self);
        }
        if self.quarter == 4 {
            if self.year < i32::MAX {
                Some(Quarterly { year: self.year + 1, quarter: 1 })
            } else {
                None
            }
        } else {
            Some(Quarterly { year: self.year, quarter: self.quarter + 1 })
        }
    }

    fn filename(&self) -> (r: String) {
        with_md(self.identifier())
    }

    fn template_name() -> (r: &'static str) {
        "quarterly"
    }
}

} // verus!
