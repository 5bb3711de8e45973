//! Arithmetic in business time: moving a datetime by a length of business
//! time, and measuring the business time between two datetimes.

use vstd::prelude::*;
use crate::calendar::{CalendarModel, CalendarState};
use crate::civil::{Date, FIRST_DAY, LAST_DAY};
use crate::clock::{in_day, instant_of, lemma_instant_parts, DateTime, Duration};
use crate::error::Error;
use crate::intraday::{
    added_is, business_seconds, calendar_end, calendar_start, in_business, lemma_business_bound,
    lemma_business_day, lemma_business_positive, lemma_business_split, signed_business_seconds,
    subtracted_is,
};
use crate::session::{lemma_session_bound, session_seconds};
use crate::workday::is_workday;

verus! {

/// The business time from an instant to itself is zero.
pub proof fn lemma_no_time_to_itself(m: CalendarModel, t: int)
    ensures
        signed_business_seconds(m, t, t) == 0,
{
}

/// The business time from `b` to `a` is the negative of that from `a` to `b`.
pub proof fn lemma_reversed_is_negated(m: CalendarModel, a: int, b: int)
    ensures
        signed_business_seconds(m, a, b) == -signed_business_seconds(m, b, a),
{
}

/// No second of a day without work is business time.
pub proof fn lemma_no_business_off_work(m: CalendarModel, d: int, s: int)
    requires
        in_day(s),
        !is_workday(m, d),
    ensures
        !in_business(m, instant_of(d, s)),
{
    lemma_instant_parts(d, s);
}

/// At most one instant is `t` moved forward by `delta`.
pub proof fn lemma_added_unique(m: CalendarModel, t: int, delta: int, x: int, y: int)
    requires
        added_is(m, t, delta, x),
        added_is(m, t, delta, y),
    ensures
        x == y,
{
    if x < y {
        lemma_business_split(m, t, x, y);
        lemma_business_positive(m, x, y, x);
    } else if y < x {
        lemma_business_split(m, t, y, x);
        lemma_business_positive(m, y, x, y);
    }
}

/// At most one instant is `t` moved backward by `delta`.
pub proof fn lemma_subtracted_unique(m: CalendarModel, t: int, delta: int, x: int, y: int)
    requires
        subtracted_is(m, t, delta, x),
        subtracted_is(m, t, delta, y),
    ensures
        x == y,
{
    if x < y {
        lemma_business_split(m, x, y, t);
        lemma_business_positive(m, x, y, y - 1);
    } else if y < x {
        lemma_business_split(m, y, x, t);
        lemma_business_positive(m, y, x, x - 1);
    }
}

/// A datetime within a session of a working day, moved forward by no time,
/// stays where it is.
pub proof fn lemma_add_nothing_stays(m: CalendarModel, t: int)
    requires
        t < calendar_end(),
        in_business(m, t),
    ensures
        added_is(m, t, 0, t),
        business_seconds(m, t, calendar_end()) > 0,
        forall|e: int| added_is(m, t, 0, e) ==> e == t,
{
    lemma_business_positive(m, t, calendar_end(), t);
    assert forall|e: int| added_is(m, t, 0, e) implies e == t by {
        lemma_added_unique(m, t, 0, e, t);
    }
}

impl CalendarState {
    /// The business time from `a` to `b`, where `a` is not after `b`.
    fn business_between(&self, a: DateTime, b: DateTime) -> (r: i64)
        requires
            a.instant() <= b.instant(),
        ensures
            r == business_seconds(self@, a.instant(), b.instant()),
            0 <= r <= b.instant() - a.instant(),
    {
        let first = a.date.day_number();
        let last = b.date.day_number();
        let from = a.time.seconds_from_midnight();
        let to = b.time.seconds_from_midnight();
        let ghost start = a.instant();
        proof {
            lemma_business_bound(self@, a.instant(), b.instant());
        }
        if first == last {
            proof {
                lemma_business_day(self@, first as int, from as int, to as int);
            }
            return if self.check_workday(a.date) {
                self.session_seconds_between(from, to) as i64
            } else {
                0
            };
        }
        let mut total: i64 = if self.check_workday(a.date) {
            self.session_seconds_between(from, 86_400) as i64
        } else {
            0
        };
        let whole: i64 = self.session_seconds_between(0, 86_400) as i64;
        proof {
            lemma_business_day(self@, first as int, from as int, 86_400);
            lemma_session_bound(self@.sessions, from as int, 86_400);
            lemma_session_bound(self@.sessions, 0, 86_400);
        }
        let mut cur: i32 = first + 1;
        while cur < last
            invariant
                FIRST_DAY <= first < cur <= last <= LAST_DAY,
                start == instant_of(first as int, from as int),
                in_day(from as int),
                whole == session_seconds(self@.sessions, 0, 86_400),
                0 <= whole <= 86_400,
                total == business_seconds(self@, start, instant_of(cur as int, 0)),
                0 <= total <= (cur - first) * 86_400,
            decreases last - cur,
        {
            let date = Date::from_day_number(cur).unwrap();
            proof {
                lemma_business_day(self@, cur as int, 0, 86_400);
                lemma_business_split(
                    self@,
                    start,
                    instant_of(cur as int, 0),
                    instant_of(cur + 1, 0),
                );
            }
            if self.check_workday(date) {
                total += whole;
            }
            cur += 1;
        }
        proof {
            lemma_business_day(self@, last as int, 0, to as int);
            lemma_business_split(self@, start, instant_of(last as int, 0), b.instant());
            lemma_session_bound(self@.sessions, 0, to as int);
        }
        if self.check_workday(b.date) {
            total += self.session_seconds_between(0, to) as i64;
        }
        total
    }

    /// The business time from `start` to `end`: the seconds between them
    /// that lie in a session of a working day, counted as negative where
    /// `end` is before `start`.
    pub fn get_timedelta_workdays_intraday(&self, start: DateTime, end: DateTime) -> (r: Duration)
        ensures
            r@ == signed_business_seconds(self@, start.instant(), end.instant()),
    {
        if end.is_before(&start) {
            Duration::seconds(-self.business_between(end, start))
        } else {
            Duration::seconds(self.business_between(start, end))
        }
    }

    /// `t` moved forward by `delta` of business time: the datetime within a
    /// session of a working day that has exactly `delta` of business time
    /// between `t` and itself. A negative `delta` is refused.
    pub fn add_workday_intraday_datetime(&self, t: DateTime, delta: Duration) -> (r: Result<
        DateTime,
        Error,
    >)
        ensures
            delta@ < 0 ==> r == Err::<DateTime, Error>(Error::InvalidRange),
            delta@ >= 0 ==> match r {
                Ok(e) => added_is(self@, t.instant(), delta@, e.instant()),
                Err(x) => x == Error::NoWorkdayFound && business_seconds(
                    self@,
                    t.instant(),
                    calendar_end(),
                ) <= delta@,
            },
    {
        if delta.is_negative() {
            return Err(Error::InvalidRange);
        }
        let day = t.date.day_number();
        let sec = t.time.seconds_from_midnight();
        let ghost now = t.instant();
        let mut need: i64 = delta.num_seconds();
        let mut cur: i32 = day;
        let mut from: u32 = sec;
        while cur <= LAST_DAY
            invariant
                FIRST_DAY <= day <= cur <= LAST_DAY + 1,
                now == t.instant() == instant_of(day as int, sec as int),
                in_day(sec as int),
                in_day(from as int),
                cur == day ==> from == sec,
                cur > day ==> from == 0,
                0 <= need,
                business_seconds(self@, now, instant_of(cur as int, from as int)) + need
                    == delta@,
            decreases LAST_DAY + 1 - cur,
        {
            let date = Date::from_day_number(cur).unwrap();
            let ghost here = instant_of(cur as int, from as int);
            if self.check_workday(date) {
                let (found, used) = self.advance_within_day(from, need);
                match found {
                    Some(p) => {
                        let e = DateTime::from_day_and_second(cur, p).unwrap();
                        proof {
                            lemma_business_day(self@, cur as int, from as int, p as int);
                            lemma_business_split(self@, now, here, e.instant());
                            lemma_instant_parts(cur as int, p as int);
                        }
                        return Ok(e);
                    },
                    None => {
                        need -= used;
                    },
                }
            }
            proof {
                lemma_business_day(self@, cur as int, from as int, 86_400);
                lemma_business_split(self@, now, here, instant_of(cur + 1, 0));
            }
            cur += 1;
            from = 0;
        }
        Err(Error::NoWorkdayFound)
    }

    /// `t` moved backward by `delta` of business time: the datetime that
    /// ends a second within a session of a working day and has exactly
    /// `delta` of business time between itself and `t`. A negative `delta`
    /// is refused.
    pub fn sub_workday_intraday_datetime(&self, t: DateTime, delta: Duration) -> (r: Result<
        DateTime,
        Error,
    >)
        ensures
            delta@ < 0 ==> r == Err::<DateTime, Error>(Error::InvalidRange),
            delta@ >= 0 ==> match r {
                Ok(e) => subtracted_is(self@, t.instant(), delta@, e.instant()),
                Err(x) => x == Error::NoWorkdayFound && business_seconds(
                    self@,
                    calendar_start(),
                    t.instant(),
                ) <= delta@,
            },
    {
        if delta.is_negative() {
            return Err(Error::InvalidRange);
        }
        let day = t.date.day_number();
        let sec = t.time.seconds_from_midnight();
        let ghost now = t.instant();
        let mut need: i64 = delta.num_seconds();
        let mut cur: i32 = day;
        let mut from: u32 = sec;
        while cur >= FIRST_DAY
            invariant
                FIRST_DAY - 1 <= cur <= day <= LAST_DAY,
                now == t.instant() == instant_of(day as int, sec as int),
                in_day(sec as int),
                0 <= from <= 86_400,
                cur == day ==> from == sec,
                cur < day ==> from == 86_400,
                0 <= need,
                business_seconds(self@, instant_of(cur as int, from as int), now) + need
                    == delta@,
            decreases cur,
        {
            let date = Date::from_day_number(cur).unwrap();
            let ghost here = instant_of(cur as int, from as int);
            if self.check_workday(date) {
                let (found, used) = self.retreat_within_day(from, need);
                match found {
                    Some(p) => {
                        let e = DateTime::from_day_and_second(cur, p).unwrap();
                        proof {
                            lemma_business_day(self@, cur as int, p as int, from as int);
                            lemma_business_split(self@, e.instant(), here, now);
                            lemma_instant_parts(cur as int, p - 1);
                        }
                        return Ok(e);
                    },
                    None => {
                        need -= used;
                    },
                }
            }
            proof {
                lemma_business_day(self@, cur as int, 0, from as int);
                lemma_business_split(self@, instant_of(cur as int, 0), here, now);
            }
            cur -= 1;
            from = 86_400;
        }
        Err(Error::NoWorkdayFound)
    }
}

} // verus!
