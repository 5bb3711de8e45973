//! Calendar dates as day numbers, with the civil calendar supplied by `chrono`.

use vstd::prelude::*;
use crate::error::Error;

verus! {

/// Day number of 0001-01-01, the first day of the calendar.
pub const FIRST_DAY: i32 = 1;

/// Day number of 9999-12-31, the last day of the calendar.
pub const LAST_DAY: i32 = 3_652_059;

/// Whether `n` is the number of a day of the calendar.
pub open spec fn in_calendar(n: int) -> bool {
    FIRST_DAY <= n <= LAST_DAY
}

/// The number of the day that `chrono` assigns to the civil date
/// `year`-`month`-`day`, counting 0001-01-01 as day 1; `None` where the
/// proleptic Gregorian calendar has no such date.
pub uninterp spec fn civil_day_number(year: int, month: int, day: int) -> Option<int>;

/// Year, month and day of the civil date whose day number is `n`.
pub uninterp spec fn civil_fields(n: int) -> (int, int, int);

/// The weekday of day `n`, counted from Monday = 0 to Sunday = 6.
pub uninterp spec fn weekday_number(n: int) -> int;

/// The day number of the date that `chrono` reads from `text` in the form
/// `%Y-%m-%d`; `None` where it reads no date.
pub uninterp spec fn parsed_day_number(text: Seq<char>) -> Option<int>;

/// Day `n` as `chrono` writes it in the form `%Y-%m-%d`.
pub uninterp spec fn date_text(n: int) -> Seq<char>;

/// A day of the week.
#[derive(Clone, Copy, Debug, PartialEq, Eq, Structural, Hash)]
pub enum Weekday {
    Mon,
    Tue,
    Wed,
    Thu,
    Fri,
    Sat,
    Sun,
}

impl Weekday {
    /// Position in the week, Monday = 0.
    pub open spec fn number(self) -> int {
        match self {
            Weekday::Mon => 0,
            Weekday::Tue => 1,
            Weekday::Wed => 2,
            Weekday::Thu => 3,
            Weekday::Fri => 4,
            Weekday::Sat => 5,
            Weekday::Sun => 6,
        }
    }

    /// The weekday at position `n` of the week, Monday = 0; none for a
    /// position beyond Sunday.
    pub fn from_number(n: usize) -> (r: Option<Weekday>)
        ensures
            r.is_some() == (n < 7),
            r.is_some() ==> r.unwrap().number() == n,
    {
        chrono_weekday_from_number(n)
    }

    /// Position in the week, Monday = 0.
    pub fn num_days_from_monday(self) -> (r: u32)
        ensures
            r == self.number(),
            r < 7,
    {
        match self {
            Weekday::Mon => 0,
            Weekday::Tue => 1,
            Weekday::Wed => 2,
            Weekday::Thu => 3,
            Weekday::Fri => 4,
            Weekday::Sat => 5,
            Weekday::Sun => 6,
        }
    }
}

/// `chrono::NaiveDate::from_ymd_opt` followed by `Datelike::num_days_from_ce`:
/// the day number of a civil date, or `None` where `chrono` has no such date.
#[verifier::external_body]
fn chrono_day_number(year: i32, month: u32, day: u32) -> (r: Option<i32>)
    ensures
        r.is_some() == civil_day_number(year as int, month as int, day as int).is_some(),
        r.is_some() ==> r.unwrap() as int == civil_day_number(
            year as int,
            month as int,
            day as int,
        ).unwrap(),
{
    match chrono::NaiveDate::from_ymd_opt(year, month, day) {
        Some(date) => Some(chrono::Datelike::num_days_from_ce(&date)),
        None => None,
    }
}

/// `chrono::NaiveDate::from_num_days_from_ce_opt` followed by
/// `Datelike::weekday`: the weekday of a day of the calendar.
#[verifier::external_body]
fn chrono_weekday(n: i32) -> (r: Weekday)
    requires
        in_calendar(n as int),
    ensures
        r.number() == weekday_number(n as int),
{
    let date = chrono::NaiveDate::from_num_days_from_ce_opt(n).unwrap();
    match chrono::Datelike::weekday(&date) {
        chrono::Weekday::Mon => Weekday::Mon,
        chrono::Weekday::Tue => Weekday::Tue,
        chrono::Weekday::Wed => Weekday::Wed,
        chrono::Weekday::Thu => Weekday::Thu,
        chrono::Weekday::Fri => Weekday::Fri,
        chrono::Weekday::Sat => Weekday::Sat,
        chrono::Weekday::Sun => Weekday::Sun,
    }
}

/// `chrono::NaiveDate::from_num_days_from_ce_opt` followed by
/// `Datelike::year`, `month` and `day`: the civil date of a day of the calendar.
#[verifier::external_body]
fn chrono_civil_fields(n: i32) -> (r: (i32, u32, u32))
    requires
        in_calendar(n as int),
    ensures
        (r.0 as int, r.1 as int, r.2 as int) == civil_fields(n as int),
{
    let date = chrono::NaiveDate::from_num_days_from_ce_opt(n).unwrap();
    (chrono::Datelike::year(&date), chrono::Datelike::month(&date), chrono::Datelike::day(&date))
}

/// `chrono::NaiveDate::parse_from_str` with the format `%Y-%m-%d`, followed
/// by `Datelike::num_days_from_ce`: the day number of the date that a text
/// holds, or `None` where `chrono` reports an error.
#[verifier::external_body]
fn chrono_parse_day_number(text: &str) -> (r: Option<i32>)
    ensures
        r.is_some() == parsed_day_number(text@).is_some(),
        r.is_some() ==> r.unwrap() as int == parsed_day_number(text@).unwrap(),
{
    match chrono::NaiveDate::parse_from_str(text, "%Y-%m-%d") {
        Ok(date) => Some(chrono::Datelike::num_days_from_ce(&date)),
        Err(_) => None,
    }
}

/// `chrono::NaiveDate::from_num_days_from_ce_opt` followed by
/// `NaiveDate::format` with `%Y-%m-%d`: a day of the calendar as text.
#[verifier::external_body]
fn chrono_date_text(n: i32) -> (r: String)
    requires
        in_calendar(n as int),
    ensures
        r@ == date_text(n as int),
{
    let date = chrono::NaiveDate::from_num_days_from_ce_opt(n).unwrap();
    date.format("%Y-%m-%d").to_string()
}

/// `num_traits::FromPrimitive::from_usize` as `chrono` implements it for its
/// `Weekday`: the weekday with number `n` counted from Monday = 0, and none
/// for a number above 6.
#[verifier::external_body]
fn chrono_weekday_from_number(n: usize) -> (r: Option<Weekday>)
    ensures
        r.is_some() == (n < 7),
        r.is_some() ==> r.unwrap().number() == n,
{
    let found: Option<chrono::Weekday> = num_traits::FromPrimitive::from_usize(n);
    match found {
        Some(chrono::Weekday::Mon) => Some(Weekday::Mon),
        Some(chrono::Weekday::Tue) => Some(Weekday::Tue),
        Some(chrono::Weekday::Wed) => Some(Weekday::Wed),
        Some(chrono::Weekday::Thu) => Some(Weekday::Thu),
        Some(chrono::Weekday::Fri) => Some(Weekday::Fri),
        Some(chrono::Weekday::Sat) => Some(Weekday::Sat),
        Some(chrono::Weekday::Sun) => Some(Weekday::Sun),
        None => None,
    }
}

/// A day of the calendar, from 0001-01-01 to 9999-12-31.
#[derive(Clone, Copy, Debug, PartialEq, Eq, Structural, PartialOrd, Ord, Hash)]
pub struct Date {
    day: i32,
}

impl View for Date {
    type V = int;

    closed spec fn view(&self) -> int {
        self.day as int
    }
}

impl Date {
    #[verifier::type_invariant]
    spec fn wf(self) -> bool {
        in_calendar(self.day as int)
    }

    /// The date with day number `n`, if the calendar has that day.
    pub fn from_day_number(n: i32) -> (r: Option<Date>)
        ensures
            r.is_some() == in_calendar(n as int),
            r.is_some() ==> r.unwrap()@ == n,
    {
        if FIRST_DAY <= n && n <= LAST_DAY {
            Some(Date { day: n })
        } else {
            None
        }
    }

    /// The day number, with 0001-01-01 as day 1.
    pub fn day_number(&self) -> (r: i32)
        ensures
            r == self@,
            in_calendar(r as int),
    {
        proof {
            use_type_invariant(self);
        }
        self.day
    }

    /// The date `year`-`month`-`day`, if it is a day of the calendar.
    pub fn from_ymd(year: i32, month: u32, day: u32) -> (r: Option<Date>)
        ensures
            match civil_day_number(year as int, month as int, day as int) {
                Some(n) => r.is_some() == in_calendar(n) && (r.is_some() ==> r.unwrap()@ == n),
                None => r.is_none(),
            },
    {
        match chrono_day_number(year, month, day) {
            Some(n) => Date::from_day_number(n),
            None => None,
        }
    }

    /// The date `year`-`month`-`day`, or the error for a date that the
    /// calendar does not have.
    pub fn try_from_ymd(year: i32, month: u32, day: u32) -> (r: Result<Date, Error>)
        ensures
            match civil_day_number(year as int, month as int, day as int) {
                Some(n) => if in_calendar(n) {
                    r.is_ok() && r.unwrap()@ == n
                } else {
                    r == Err::<Date, Error>(Error::InvalidRange)
                },
                None => r == Err::<Date, Error>(Error::InvalidRange),
            },
    {
        match Date::from_ymd(year, month, day) {
            Some(date) => Ok(date),
            None => Err(Error::InvalidRange),
        }
    }

    /// The date that `text` holds in the form `2021-01-04`, if it holds one
    /// and the calendar has it.
    pub fn parse(text: &str) -> (r: Option<Date>)
        ensures
            match parsed_day_number(text@) {
                Some(n) => r.is_some() == in_calendar(n) && (r.is_some() ==> r.unwrap()@ == n),
                None => r.is_none(),
            },
    {
        match chrono_parse_day_number(text) {
            Some(n) => Date::from_day_number(n),
            None => None,
        }
    }

    /// The date as text in the form `2021-01-04`.
    pub fn to_text(&self) -> (r: String)
        ensures
            r@ == date_text(self@),
    {
        chrono_date_text(self.day_number())
    }

    /// Year, month and day of this date.
    pub fn ymd(&self) -> (r: (i32, u32, u32))
        ensures
            (r.0 as int, r.1 as int, r.2 as int) == civil_fields(self@),
    {
        chrono_civil_fields(self.day_number())
    }

    /// The day of the week.
    pub fn weekday(&self) -> (r: Weekday)
        ensures
            r.number() == weekday_number(self@),
    {
        chrono_weekday(self.day_number())
    }
}

} // verus!
