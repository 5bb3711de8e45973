//! Times of day, datetimes and signed durations, all at second resolution.

use vstd::prelude::*;
use crate::civil::{in_calendar, Date, FIRST_DAY, LAST_DAY};
use crate::error::Error;

verus! {

/// Seconds in a day.
pub const SECONDS_PER_DAY: u32 = 86_400;

/// Day number of 1970-01-01.
pub const UNIX_EPOCH_DAY: i32 = 719_163;

/// Whether `s` counts the seconds from midnight to a time of day.
pub open spec fn in_day(s: int) -> bool {
    0 <= s < SECONDS_PER_DAY
}

/// A time of day, from 00:00:00 to 23:59:59.
#[derive(Clone, Copy, Debug, PartialEq, Eq, Structural, PartialOrd, Ord, Hash)]
pub struct TimeOfDay {
    secs: u32,
}

impl View for TimeOfDay {
    type V = int;

    /// Seconds since midnight.
    closed spec fn view(&self) -> int {
        self.secs as int
    }
}

impl TimeOfDay {
    #[verifier::type_invariant]
    spec fn wf(self) -> bool {
        in_day(self.secs as int)
    }

    /// The time `n` seconds after midnight, if that is within the day.
    pub fn from_seconds(n: u32) -> (r: Option<TimeOfDay>)
        ensures
            r.is_some() == in_day(n as int),
            r.is_some() ==> r.unwrap()@ == n,
    {
        if n < SECONDS_PER_DAY {
            Some(TimeOfDay { secs: n })
        } else {
            None
        }
    }

    /// The time `hour`:`minute`:`second`, if each field is in its range.
    pub fn from_hms(hour: u32, minute: u32, second: u32) -> (r: Option<TimeOfDay>)
        ensures
            r.is_some() == (hour < 24 && minute < 60 && second < 60),
            r.is_some() ==> r.unwrap()@ == hour * 3600 + minute * 60 + second,
    {
        if hour < 24 && minute < 60 && second < 60 {
            Some(TimeOfDay { secs: hour * 3600 + minute * 60 + second })
        } else {
            None
        }
    }

    /// Seconds since midnight.
    pub fn seconds_from_midnight(&self) -> (r: u32)
        ensures
            r == self@,
            in_day(r as int),
    {
        proof {
            use_type_invariant(self);
        }
        self.secs
    }

    /// The hour, 0 to 23.
    pub fn hour(&self) -> (r: u32)
        ensures
            r == self@ / 3600,
            r < 24,
    {
        self.seconds_from_midnight() / 3600
    }

    /// The minute within the hour, 0 to 59.
    pub fn minute(&self) -> (r: u32)
        ensures
            r == (self@ / 60) % 60,
            r < 60,
    {
        (self.seconds_from_midnight() / 60) % 60
    }

    /// The second within the minute, 0 to 59.
    pub fn second(&self) -> (r: u32)
        ensures
            r == self@ % 60,
            r < 60,
    {
        self.seconds_from_midnight() % 60
    }
}

/// The instant, in seconds since the midnight that begins day 0, at which
/// second `s` of day `d` begins.
pub open spec fn instant_of(d: int, s: int) -> int {
    d * SECONDS_PER_DAY + s
}

/// The day on which the instant `x` falls.
pub open spec fn day_of(x: int) -> int {
    x / (SECONDS_PER_DAY as int)
}

/// The second of its day at which the instant `x` falls.
pub open spec fn second_of(x: int) -> int {
    x % (SECONDS_PER_DAY as int)
}

/// Splitting an instant into day and second undoes `instant_of`.
pub proof fn lemma_instant_parts(d: int, s: int)
    requires
        in_day(s),
    ensures
        day_of(instant_of(d, s)) == d,
        second_of(instant_of(d, s)) == s,
{
    assert((d * 86400 + s) / 86400 == d && (d * 86400 + s) % 86400 == s) by (nonlinear_arith)
        requires
            0 <= s < 86400,
    ;
}

/// An instant is made of its day and its second.
pub proof fn lemma_instant_whole(x: int)
    ensures
        instant_of(day_of(x), second_of(x)) == x,
        in_day(second_of(x)),
{
}

/// Day number and second of the day of the datetime that `chrono` reads
/// from `text` in the form `%Y-%m-%d %H:%M:%S`; `None` where it reads none.
pub uninterp spec fn parsed_day_and_second(text: Seq<char>) -> Option<(int, int)>;

/// Second `s` of day `n` as `chrono` writes it in the form
/// `%Y-%m-%d %H:%M:%S`.
pub uninterp spec fn datetime_text(n: int, s: int) -> Seq<char>;

/// `chrono::NaiveDateTime::parse_from_str` with the format
/// `%Y-%m-%d %H:%M:%S`, followed by `Datelike::num_days_from_ce` and
/// `Timelike::num_seconds_from_midnight`: day number and second of the
/// datetime that a text holds, or `None` where `chrono` reports an error.
#[verifier::external_body]
fn chrono_parse_day_and_second(text: &str) -> (r: Option<(i32, u32)>)
    ensures
        r.is_some() == parsed_day_and_second(text@).is_some(),
        r.is_some() ==> (r.unwrap().0 as int, r.unwrap().1 as int) == parsed_day_and_second(
            text@,
        ).unwrap(),
{
    match chrono::NaiveDateTime::parse_from_str(text, "%Y-%m-%d %H:%M:%S") {
        Ok(t) => Some(
            (chrono::Datelike::num_days_from_ce(&t), chrono::Timelike::num_seconds_from_midnight(&t)),
        ),
        Err(_) => None,
    }
}

/// `chrono::NaiveDate::from_num_days_from_ce_opt`,
/// `NaiveTime::from_num_seconds_from_midnight_opt` and
/// `NaiveDateTime::format` with `%Y-%m-%d %H:%M:%S`: a second of a day of the
/// calendar as text.
#[verifier::external_body]
fn chrono_datetime_text(n: i32, s: u32) -> (r: String)
    requires
        in_calendar(n as int),
        in_day(s as int),
    ensures
        r@ == datetime_text(n as int, s as int),
{
    let date = chrono::NaiveDate::from_num_days_from_ce_opt(n).unwrap();
    let time = chrono::NaiveTime::from_num_seconds_from_midnight_opt(s, 0).unwrap();
    date.and_time(time).format("%Y-%m-%d %H:%M:%S").to_string()
}

/// A date with a time of day, without a time zone.
#[derive(Clone, Copy, Debug, PartialEq, Eq, Structural, PartialOrd, Ord, Hash)]
pub struct DateTime {
    pub date: Date,
    pub time: TimeOfDay,
}

impl DateTime {
    /// The instant at which this second begins.
    pub open spec fn instant(self) -> int {
        instant_of(self.date@, self.time@)
    }

    /// The given time on the given date.
    pub fn new(date: Date, time: TimeOfDay) -> (r: DateTime)
        ensures
            r.date == date,
            r.time == time,
    {
        DateTime { date, time }
    }

    /// Second `second` of the day with number `day`, if the calendar has
    /// that day and the day that second.
    pub fn from_day_and_second(day: i32, second: u32) -> (r: Option<DateTime>)
        ensures
            r.is_some() == (in_calendar(day as int) && in_day(second as int)),
            r.is_some() ==> r.unwrap().date@ == day && r.unwrap().time@ == second
                && r.unwrap().instant() == instant_of(day as int, second as int),
    {
        match (Date::from_day_number(day), TimeOfDay::from_seconds(second)) {
            (Some(date), Some(time)) => Some(DateTime { date, time }),
            _ => None,
        }
    }

    /// The datetime that `text` holds in the form `2021-01-04 10:00:00`, if
    /// it holds one and the calendar has its day.
    pub fn parse(text: &str) -> (r: Option<DateTime>)
        ensures
            match parsed_day_and_second(text@) {
                Some((n, s)) => r.is_some() == (in_calendar(n) && in_day(s)) && (r.is_some()
                    ==> r.unwrap().date@ == n && r.unwrap().time@ == s),
                None => r.is_none(),
            },
    {
        match chrono_parse_day_and_second(text) {
            Some((n, s)) => DateTime::from_day_and_second(n, s),
            None => None,
        }
    }

    /// The datetime as text in the form `2021-01-04 10:00:00`.
    pub fn to_text(&self) -> (r: String)
        ensures
            r@ == datetime_text(self.date@, self.time@),
    {
        chrono_datetime_text(self.date.day_number(), self.time.seconds_from_midnight())
    }

    /// The datetime `secs` seconds after 1970-01-01 00:00:00, if its date is a
    /// day of the calendar.
    pub fn from_timestamp(secs: i64) -> (r: Option<DateTime>)
        ensures
            r.is_some() == in_calendar(UNIX_EPOCH_DAY + day_of(secs as int)),
            r.is_some() ==> r.unwrap().instant() == UNIX_EPOCH_DAY * SECONDS_PER_DAY + secs,
    {
        let per_day: i64 = 86_400;
        let (q, s): (i64, i64) = if secs >= 0 {
            (secs / per_day, secs % per_day)
        } else {
            let below: i64 = -(secs + 1);
            (-(below / per_day) - 1, per_day - 1 - below % per_day)
        };
        assert(q == day_of(secs as int) && s == second_of(secs as int)) by (nonlinear_arith)
            requires
                0 <= s < 86400,
                q * 86400 + s == secs,
        ;
        if q < FIRST_DAY as i64 - UNIX_EPOCH_DAY as i64 || q > LAST_DAY as i64
            - UNIX_EPOCH_DAY as i64 {
            return None;
        }
        let date = Date::from_day_number((q + UNIX_EPOCH_DAY as i64) as i32);
        let time = TimeOfDay::from_seconds(s as u32);
        Some(DateTime { date: date.unwrap(), time: time.unwrap() })
    }

    /// Seconds from 1970-01-01 00:00:00 to this datetime.
    pub fn timestamp(&self) -> (r: i64)
        ensures
            r == self.instant() - UNIX_EPOCH_DAY * SECONDS_PER_DAY,
    {
        let d: i64 = self.date.day_number() as i64 - UNIX_EPOCH_DAY as i64;
        d * 86_400 + self.time.seconds_from_midnight() as i64
    }

    /// Whether this datetime is earlier than `other`.
    pub fn is_before(&self, other: &DateTime) -> (r: bool)
        ensures
            r == (self.instant() < other.instant()),
    {
        let a = self.date.day_number();
        let b = other.date.day_number();
        let s = self.time.seconds_from_midnight();
        let t = other.time.seconds_from_midnight();
        a < b || (a == b && s < t)
    }
}

/// A signed length of time in whole seconds.
#[derive(Clone, Copy, Debug, PartialEq, Eq, Structural, PartialOrd, Ord, Hash)]
pub struct Duration {
    secs: i64,
}

impl View for Duration {
    type V = int;

    /// The length in seconds.
    closed spec fn view(&self) -> int {
        self.secs as int
    }
}

impl Duration {
    /// A duration of `n` seconds.
    pub fn seconds(n: i64) -> (r: Duration)
        ensures
            r@ == n,
    {
        Duration { secs: n }
    }

    /// A duration of `days` days and `seconds` seconds, if it fits.
    pub fn new(days: i64, seconds: i64) -> (r: Option<Duration>)
        ensures
            r.is_some() == (i64::MIN <= days * SECONDS_PER_DAY + seconds <= i64::MAX),
            r.is_some() ==> r.unwrap()@ == days * SECONDS_PER_DAY + seconds,
    {
        let total: i128 = days as i128 * 86_400 + seconds as i128;
        if total < i64::MIN as i128 || total > i64::MAX as i128 {
            None
        } else {
            Some(Duration { secs: total as i64 })
        }
    }

    /// The length in seconds.
    pub fn num_seconds(&self) -> (r: i64)
        ensures
            r == self@,
    {
        self.secs
    }

    /// The whole days of the duration, rounded toward zero.
    pub fn num_days(&self) -> (r: i64)
        ensures
            r == if self@ >= 0 {
                self@ / 86_400
            } else {
                -((-self@) / 86_400)
            },
    {
        if self.secs >= 0 {
            self.secs / 86_400
        } else if self.secs == i64::MIN {
            -106_751_991_167_300
        } else {
            -((-self.secs) / 86_400)
        }
    }

    /// The duration as whole days, rounded toward zero, and the seconds
    /// beyond them.
    pub fn days_and_seconds(&self) -> (r: (i64, i64))
        ensures
            r.0 * SECONDS_PER_DAY + r.1 == self@,
            -86_400 < r.1 < 86_400,
            self@ >= 0 ==> r.1 >= 0,
            self@ <= 0 ==> r.1 <= 0,
    {
        let days = self.num_days();
        (days, self.secs - days * 86_400)
    }

    /// Whether the duration is below zero.
    pub fn is_negative(&self) -> (r: bool)
        ensures
            r == (self@ < 0),
    {
        self.secs < 0
    }
}

/// One session of a day: business runs from `start` up to, not including, `end`.
#[derive(Clone, Copy, Debug, PartialEq, Eq, Structural, Hash)]
pub struct TimeBorder {
    pub start: TimeOfDay,
    pub end: TimeOfDay,
}

/// The time that `entries` gives under `key`: that of the first entry with
/// that key.
pub open spec fn entry_under(entries: Seq<(String, TimeOfDay)>, key: Seq<char>) -> Option<
    TimeOfDay,
>
    decreases entries.len(),
{
    if entries.len() == 0 {
        None
    } else if entries[0].0@ == key {
        Some(entries[0].1)
    } else {
        entry_under(entries.drop_first(), key)
    }
}

/// The time that `entries` gives under `key`.
fn find_entry(entries: &Vec<(String, TimeOfDay)>, key: &str) -> (r: Option<TimeOfDay>)
    ensures
        r == entry_under(entries@, key@),
{
    let wanted = key.to_owned();
    let mut i: usize = 0;
    assert(entries@.skip(0) =~= entries@);
    while i < entries.len()
        invariant
            0 <= i <= entries@.len(),
            wanted@ == key@,
            entry_under(entries@, key@) == entry_under(entries@.skip(i as int), key@),
        decreases entries@.len() - i,
    {
        assert(entries@.skip(i as int).drop_first() =~= entries@.skip(i + 1));
        assert(entries@.skip(i as int)[0] == entries@[i as int]);
        if entries[i].0 == wanted {
            return Some(entries[i].1);
        }
        i += 1;
    }
    None
}

impl TimeBorder {
    /// The session that a keyed argument describes: from the time under
    /// `start` to the time under `end`. An argument without one of the two
    /// keys is refused, with `start` named first.
    pub fn from_entries(entries: &Vec<(String, TimeOfDay)>) -> (r: Result<TimeBorder, Error>)
        ensures
            match (entry_under(entries@, "start"@), entry_under(entries@, "end"@)) {
                (Some(start), Some(end)) => r == Ok::<TimeBorder, Error>(
                    (TimeBorder { start, end }),
                ),
                (None, _) => r matches Err(Error::ArgKeyError { arg_name, key_name })
                    && arg_name@ == "intraday_borders"@ && key_name@ == "start"@,
                (Some(_), None) => r matches Err(Error::ArgKeyError { arg_name, key_name })
                    && arg_name@ == "intraday_borders"@ && key_name@ == "end"@,
            },
    {
        let start = match find_entry(entries, "start") {
            Some(time) => time,
            None => {
                return Err(Error::missing_key("intraday_borders", "start"));
            },
        };
        let end = match find_entry(entries, "end") {
            Some(time) => time,
            None => {
                return Err(Error::missing_key("intraday_borders", "end"));
            },
        };
        Ok(TimeBorder { start, end })
    }
}

} // verus!
