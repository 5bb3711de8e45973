//! Marking, in a list of timestamps, those that fall on working days or
//! within business time.

use vstd::prelude::*;
use crate::calendar::{CalendarModel, CalendarState};
use crate::civil::in_calendar;
use crate::clock::{day_of, lemma_instant_parts, DateTime, SECONDS_PER_DAY, UNIX_EPOCH_DAY};
use crate::error::Error;
use crate::intraday::in_business;
use crate::workday::is_workday;

verus! {

/// The instant that lies `ts` seconds after 1970-01-01 00:00:00.
pub open spec fn timestamp_instant(ts: int) -> int {
    UNIX_EPOCH_DAY * SECONDS_PER_DAY + ts
}

/// Whether the timestamp `ts` falls on a day of the calendar.
pub open spec fn timestamp_in_calendar(ts: int) -> bool {
    in_calendar(UNIX_EPOCH_DAY + day_of(ts))
}

/// Whether every one of `timestamps` falls on a day of the calendar.
pub open spec fn timestamps_in_calendar(timestamps: Seq<i64>) -> bool {
    forall|i: int| 0 <= i < timestamps.len() ==> timestamp_in_calendar(#[trigger] timestamps[i] as int)
}

/// What a mark says of the timestamp `ts`: that it falls on a working day
/// (`by_day`), that it lies in business time (`by_time`), both, or nothing.
pub open spec fn mark_of(m: CalendarModel, ts: int, by_day: bool, by_time: bool) -> bool {
    &&& by_day ==> is_workday(m, day_of(timestamp_instant(ts)))
    &&& by_time ==> in_business(m, timestamp_instant(ts))
}

/// The marks of `timestamps`, one for each in its place.
pub open spec fn marks_of(m: CalendarModel, timestamps: Seq<i64>, by_day: bool, by_time: bool) -> Seq<
    bool,
> {
    Seq::new(timestamps.len(), |i: int| mark_of(m, timestamps[i] as int, by_day, by_time))
}

impl CalendarState {
    /// Marks each of `timestamps`, or refuses the list where one of them
    /// falls outside the calendar.
    fn extract(&self, timestamps: &Vec<i64>, by_day: bool, by_time: bool) -> (r: Result<
        Vec<bool>,
        Error,
    >)
        ensures
            match r {
                Ok(v) => timestamps_in_calendar(timestamps@) && v@ == marks_of(
                    self@,
                    timestamps@,
                    by_day,
                    by_time,
                ),
                Err(x) => x == Error::InvalidRange && !timestamps_in_calendar(timestamps@),
            },
    {
        let mut out: Vec<bool> = Vec::new();
        let mut i: usize = 0;
        while i < timestamps.len()
            invariant
                0 <= i <= timestamps@.len(),
                out@.len() == i,
                forall|j: int|
                    0 <= j < i ==> timestamp_in_calendar(#[trigger] timestamps@[j] as int),
                forall|j: int|
                    0 <= j < i ==> #[trigger] out@[j] == mark_of(
                        self@,
                        timestamps@[j] as int,
                        by_day,
                        by_time,
                    ),
            decreases timestamps@.len() - i,
        {
            match DateTime::from_timestamp(timestamps[i]) {
                Some(t) => {
                    let second = t.time.seconds_from_midnight();
                    proof {
                        lemma_instant_parts(t.date@, second as int);
                    }
                    let day_ok = !by_day || self.check_workday(t.date);
                    let time_ok = !by_time || self.check_workday_intraday(t);
                    out.push(day_ok && time_ok);
                },
                None => {
                    return Err(Error::InvalidRange);
                },
            }
            i += 1;
        }
        assert(out@ =~= marks_of(self@, timestamps@, by_day, by_time));
        Ok(out)
    }

    /// For each of `timestamps`, whether it falls on a working day. A list
    /// with a timestamp outside the calendar is refused.
    pub fn extract_workdays_bool(&self, timestamps: &Vec<i64>) -> (r: Result<Vec<bool>, Error>)
        ensures
            match r {
                Ok(v) => timestamps_in_calendar(timestamps@) && v@ == marks_of(
                    self@,
                    timestamps@,
                    true,
                    false,
                ),
                Err(x) => x == Error::InvalidRange && !timestamps_in_calendar(timestamps@),
            },
    {
        self.extract(timestamps, true, false)
    }

    /// For each of `timestamps`, whether it lies within a session of a
    /// working day. A list with a timestamp outside the calendar is refused.
    pub fn extract_intraday_bool(&self, timestamps: &Vec<i64>) -> (r: Result<Vec<bool>, Error>)
        ensures
            match r {
                Ok(v) => timestamps_in_calendar(timestamps@) && v@ == marks_of(
                    self@,
                    timestamps@,
                    false,
                    true,
                ),
                Err(x) => x == Error::InvalidRange && !timestamps_in_calendar(timestamps@),
            },
    {
        self.extract(timestamps, false, true)
    }

    /// For each of `timestamps`, whether it falls on a working day and lies
    /// within a session. A list with a timestamp outside the calendar is
    /// refused.
    pub fn extract_workdays_intraday_bool(&self, timestamps: &Vec<i64>) -> (r: Result<
        Vec<bool>,
        Error,
    >)
        ensures
            match r {
                Ok(v) => timestamps_in_calendar(timestamps@) && v@ == marks_of(
                    self@,
                    timestamps@,
                    true,
                    true,
                ),
                Err(x) => x == Error::InvalidRange && !timestamps_in_calendar(timestamps@),
            },
    {
        self.extract(timestamps, true, true)
    }
}

} // verus!
