//! Business time: datetimes against the sessions of working days, the borders
//! of sessions, and arithmetic that counts only time within sessions.

use vstd::prelude::*;
use crate::calendar::{CalendarModel, CalendarState};
use crate::civil::{Date, FIRST_DAY, LAST_DAY};
use crate::clock::{
    day_of, instant_of, lemma_instant_parts, lemma_instant_whole, second_of, DateTime,
};
use crate::error::Error;
use crate::session::{in_session, is_border_time, is_stop, marks, session_seconds};
use crate::workday::is_workday;

verus! {

/// Whether the second that begins at instant `x` is business time: a second
/// of a session on a working day.
pub open spec fn in_business(m: CalendarModel, x: int) -> bool {
    is_workday(m, day_of(x)) && in_session(m.sessions, second_of(x))
}

/// Whether a session of a working day ends at instant `x`, or, unless
/// `ends_only`, starts or ends there.
pub open spec fn is_border(m: CalendarModel, x: int, ends_only: bool) -> bool {
    is_workday(m, day_of(x)) && is_stop(m.sessions, second_of(x), ends_only)
}

/// The number of seconds of business time from instant `a` up to, not
/// including, instant `b`.
pub open spec fn business_seconds(m: CalendarModel, a: int, b: int) -> nat
    decreases b - a,
{
    if b <= a {
        0
    } else {
        business_seconds(m, a, b - 1) + if in_business(m, b - 1) {
            1nat
        } else {
            0nat
        }
    }
}

/// The business time from `a` to `b`, negative where `b` is before `a`.
pub open spec fn signed_business_seconds(m: CalendarModel, a: int, b: int) -> int {
    if a <= b {
        business_seconds(m, a, b) as int
    } else {
        -(business_seconds(m, b, a) as int)
    }
}

/// The instant at which the calendar begins.
pub open spec fn calendar_start() -> int {
    instant_of(FIRST_DAY as int, 0)
}

/// The instant at which the calendar ends.
pub open spec fn calendar_end() -> int {
    instant_of(LAST_DAY + 1, 0)
}

/// Where a datetime stands against the sessions of its day.
#[derive(Clone, Copy, Debug, PartialEq, Eq, Structural, Hash)]
pub enum IntradayState {
    /// On a working day, before the first session.
    BeforeOpen,
    /// Within a session of a working day.
    InSession,
    /// On a working day, between two sessions.
    InBreak,
    /// On a working day, after the last session.
    AfterClose,
    /// On a day without work.
    NonWorkingDay,
}

/// The state of the second that begins at instant `x`.
pub open spec fn classification(m: CalendarModel, x: int) -> IntradayState {
    let s = second_of(x);
    if !is_workday(m, day_of(x)) {
        IntradayState::NonWorkingDay
    } else if in_session(m.sessions, s) {
        IntradayState::InSession
    } else if m.sessions.len() > 0 && s < m.sessions[0].0 {
        IntradayState::BeforeOpen
    } else if m.sessions.len() == 0 || s >= m.sessions.last().1 {
        IntradayState::AfterClose
    } else {
        IntradayState::InBreak
    }
}

/// What a border is to the sessions: a start, an end, or, for a datetime
/// that is no border, a point within a session.
#[derive(Clone, Copy, Debug, PartialEq, Eq, Structural, Hash)]
pub enum BorderSymbol {
    /// A session starts.
    Start,
    /// A session ends.
    End,
    /// Within a session.
    Intra,
}

/// `e` is the first border after `t`, and `k` says whether a session ends
/// there.
pub open spec fn next_border_is(m: CalendarModel, t: int, e: int, k: BorderSymbol) -> bool {
    &&& t < e
    &&& is_border(m, e, false)
    &&& forall|x: int| t < x < e ==> !is_border(m, x, false)
    &&& k == if marks(m.sessions, second_of(e), true) {
        BorderSymbol::End
    } else {
        BorderSymbol::Start
    }
}

/// No border lies between `t` and the end of the calendar.
pub open spec fn next_border_missing(m: CalendarModel, t: int) -> bool {
    forall|x: int| t < x < calendar_end() ==> !is_border(m, x, false)
}

/// `e` is the last border before `t`, or with `ends_only` the last end of a
/// session before `t`, and `k` says whether a session starts there.
pub open spec fn previous_border_is(
    m: CalendarModel,
    t: int,
    ends_only: bool,
    e: int,
    k: BorderSymbol,
) -> bool {
    &&& e < t
    &&& is_border(m, e, ends_only)
    &&& forall|x: int| e < x < t ==> !is_border(m, x, ends_only)
    &&& k == if !ends_only && marks(m.sessions, second_of(e), false) {
        BorderSymbol::Start
    } else {
        BorderSymbol::End
    }
}

/// No border, or with `ends_only` no end of a session, lies between the start
/// of the calendar and `t`.
pub open spec fn previous_border_missing(m: CalendarModel, t: int, ends_only: bool) -> bool {
    forall|x: int| calendar_start() <= x < t ==> !is_border(m, x, ends_only)
}

/// `e` is `t` moved forward by `delta` seconds of business time: the second
/// of business time that has `delta` seconds of business time between `t`
/// and itself.
pub open spec fn added_is(m: CalendarModel, t: int, delta: int, e: int) -> bool {
    t <= e && in_business(m, e) && business_seconds(m, t, e) == delta
}

/// `e` is `t` moved backward by `delta` seconds of business time: the instant
/// that ends a second of business time and has `delta` seconds of business
/// time between itself and `t`.
pub open spec fn subtracted_is(m: CalendarModel, t: int, delta: int, e: int) -> bool {
    e <= t && in_business(m, e - 1) && business_seconds(m, e, t) == delta
}

/// Business time over two adjoining stretches adds up.
pub proof fn lemma_business_split(m: CalendarModel, a: int, b: int, c: int)
    requires
        a <= b <= c,
    ensures
        business_seconds(m, a, c) == business_seconds(m, a, b) + business_seconds(m, b, c),
    decreases c - b,
{
    if b < c {
        lemma_business_split(m, a, b, c - 1);
    }
}

/// A stretch holds no more business time than its length.
pub proof fn lemma_business_bound(m: CalendarModel, a: int, b: int)
    requires
        a <= b,
    ensures
        business_seconds(m, a, b) <= b - a,
    decreases b - a,
{
    if a < b {
        lemma_business_bound(m, a, b - 1);
    }
}

/// A stretch that holds a second of business time counts at least one.
pub proof fn lemma_business_positive(m: CalendarModel, a: int, b: int, x: int)
    requires
        a <= x < b,
        in_business(m, x),
    ensures
        business_seconds(m, a, b) >= 1,
{
    lemma_business_split(m, a, x, b);
    lemma_business_split(m, x, x + 1, b);
    assert(business_seconds(m, x, x + 1) == 1) by {
        assert(business_seconds(m, x, x) == 0);
    }
}

/// Within one day, business time is the session time of a working day, and
/// none on another day.
pub proof fn lemma_business_day(m: CalendarModel, d: int, lo: int, hi: int)
    requires
        0 <= lo <= hi <= 86_400,
    ensures
        business_seconds(m, instant_of(d, lo), instant_of(d, hi)) == if is_workday(m, d) {
            session_seconds(m.sessions, lo, hi)
        } else {
            0
        },
    decreases hi - lo,
{
    if lo < hi {
        lemma_business_day(m, d, lo, hi - 1);
        lemma_instant_parts(d, hi - 1);
        assert(instant_of(d, hi) - 1 == instant_of(d, hi - 1));
    }
}

impl BorderSymbol {
    /// The name of the symbol.
    pub fn name(&self) -> (r: &'static str)
        ensures
            r@ == match *self {
                BorderSymbol::Start => "border_start"@,
                BorderSymbol::End => "border_end"@,
                BorderSymbol::Intra => "border_intra"@,
            },
    {
        match self {
            BorderSymbol::Start => "border_start",
            BorderSymbol::End => "border_end",
            BorderSymbol::Intra => "border_intra",
        }
    }
}

impl CalendarState {
    /// Whether `t` lies in a session of a working day.
    pub fn check_workday_intraday(&self, t: DateTime) -> (r: bool)
        ensures
            r == in_business(self@, t.instant()),
            !is_workday(self@, t.date@) ==> !r,
    {
        let sec = t.time.seconds_from_midnight();
        proof {
            lemma_instant_parts(t.date@, sec as int);
        }
        self.check_workday(t.date) && self.in_session_at(sec)
    }

    /// Where `t` stands against the sessions of its day.
    pub fn classify_intraday(&self, t: DateTime) -> (r: IntradayState)
        ensures
            r == classification(self@, t.instant()),
    {
        let sec = t.time.seconds_from_midnight();
        proof {
            lemma_instant_parts(t.date@, sec as int);
        }
        let n = self.session_count();
        if !self.check_workday(t.date) {
            IntradayState::NonWorkingDay
        } else if self.in_session_at(sec) {
            IntradayState::InSession
        } else if n > 0 && sec < self.session(0).start.seconds_from_midnight() {
            IntradayState::BeforeOpen
        } else if n == 0 || sec >= self.session(n - 1).end.seconds_from_midnight() {
            IntradayState::AfterClose
        } else {
            IntradayState::InBreak
        }
    }

    /// The first start or end of a session after `t`, with its symbol.
    pub fn get_next_border_workday_intraday(&self, t: DateTime) -> (r: Result<
        (DateTime, BorderSymbol),
        Error,
    >)
        ensures
            match r {
                Ok((e, k)) => next_border_is(self@, t.instant(), e.instant(), k),
                Err(x) => x == Error::NoWorkdayFound && next_border_missing(self@, t.instant()),
            },
    {
        let day = t.date.day_number();
        let sec = t.time.seconds_from_midnight();
        let ghost now = t.instant();
        if self.session_count() == 0 {
            return Err(Error::NoWorkdayFound);
        }
        let mut today: Option<(u32, bool)> = None;
        if self.check_workday(t.date) {
            today = self.border_after(sec as i32);
        }
        match today {
            Some((b, is_end)) => {
                let e = DateTime::from_day_and_second(day, b).unwrap();
                proof {
                    lemma_instant_parts(day as int, b as int);
                    assert forall|x: int| now < x < e.instant() implies !is_border(
                        self@,
                        x,
                        false,
                    ) by {
                        lemma_instant_whole(x);
                        assert(day_of(x) == day);
                        assert(!is_border_time(self@.sessions, second_of(x)));
                    }
                }
                return Ok(
                    (
                        e,
                        if is_end {
                            BorderSymbol::End
                        } else {
                            BorderSymbol::Start
                        },
                    ),
                );
            },
            None => {},
        }
        proof {
            assert forall|x: int| now < x < instant_of(day + 1, 0) implies !is_border(
                self@,
                x,
                false,
            ) by {
                lemma_instant_whole(x);
                assert(day_of(x) == day);
                if is_workday(self@, day as int) {
                    assert(!is_border_time(self@.sessions, second_of(x)));
                }
            }
        }
        let mut cur: i32 = day + 1;
        while cur <= LAST_DAY
            invariant
                FIRST_DAY <= day < cur <= LAST_DAY + 1,
                now == t.instant(),
                now < instant_of(cur as int, 0),
                forall|x: int| now < x < instant_of(cur as int, 0) ==> !is_border(self@, x, false),
            decreases LAST_DAY + 1 - cur,
        {
            let date = Date::from_day_number(cur).unwrap();
            let mut first: Option<(u32, bool)> = None;
            if self.check_workday(date) {
                first = self.border_after(-1);
            }
            match first {
                Some((b, is_end)) => {
                    let e = DateTime::from_day_and_second(cur, b).unwrap();
                    proof {
                        lemma_instant_parts(cur as int, b as int);
                        assert forall|x: int| now < x < e.instant() implies !is_border(
                            self@,
                            x,
                            false,
                        ) by {
                            if x >= instant_of(cur as int, 0) {
                                lemma_instant_whole(x);
                                assert(day_of(x) == cur);
                                assert(!is_border_time(self@.sessions, second_of(x)));
                            }
                        }
                    }
                    return Ok(
                        (
                            e,
                            if is_end {
                                BorderSymbol::End
                            } else {
                                BorderSymbol::Start
                            },
                        ),
                    );
                },
                None => {},
            }
            proof {
                assert forall|x: int| now < x < instant_of(cur + 1, 0) implies !is_border(
                    self@,
                    x,
                    false,
                ) by {
                    if x >= instant_of(cur as int, 0) {
                        lemma_instant_whole(x);
                        assert(day_of(x) == cur);
                        if is_workday(self@, cur as int) {
                            assert(!is_border_time(self@.sessions, second_of(x)));
                        }
                    }
                }
            }
            cur += 1;
        }
        Err(Error::NoWorkdayFound)
    }

    /// The last start or end of a session before `t`, with its symbol; with
    /// `force_is_end`, the last end of a session before `t`.
    pub fn get_previous_border_workday_intraday(&self, t: DateTime, force_is_end: bool) -> (r:
        Result<(DateTime, BorderSymbol), Error>)
        ensures
            match r {
                Ok((e, k)) => previous_border_is(
                    self@,
                    t.instant(),
                    force_is_end,
                    e.instant(),
                    k,
                ),
                Err(x) => x == Error::NoWorkdayFound && previous_border_missing(
                    self@,
                    t.instant(),
                    force_is_end,
                ),
            },
    {
        let day = t.date.day_number();
        let sec = t.time.seconds_from_midnight();
        let ghost now = t.instant();
        if self.session_count() == 0 {
            return Err(Error::NoWorkdayFound);
        }
        let mut today: Option<(u32, bool)> = None;
        if self.check_workday(t.date) {
            today = self.border_before(sec as i32, force_is_end);
        }
        match today {
            Some((b, is_start)) => {
                let e = DateTime::from_day_and_second(day, b).unwrap();
                proof {
                    lemma_instant_parts(day as int, b as int);
                    assert forall|x: int| e.instant() < x < now implies !is_border(
                        self@,
                        x,
                        force_is_end,
                    ) by {
                        lemma_instant_whole(x);
                        assert(day_of(x) == day);
                        assert(!is_stop(self@.sessions, second_of(x), force_is_end));
                    }
                }
                return Ok(
                    (
                        e,
                        if is_start {
                            BorderSymbol::Start
                        } else {
                            BorderSymbol::End
                        },
                    ),
                );
            },
            None => {},
        }
        proof {
            assert forall|x: int| instant_of(day as int, 0) <= x < now implies !is_border(
                self@,
                x,
                force_is_end,
            ) by {
                lemma_instant_whole(x);
                assert(day_of(x) == day);
                if is_workday(self@, day as int) {
                    assert(!is_stop(self@.sessions, second_of(x), force_is_end));
                }
            }
        }
        let mut cur: i32 = day - 1;
        while cur >= FIRST_DAY
            invariant
                FIRST_DAY - 1 <= cur < day <= LAST_DAY,
                now == t.instant(),
                instant_of(cur + 1, 0) <= now,
                forall|x: int|
                    instant_of(cur + 1, 0) <= x < now ==> !is_border(self@, x, force_is_end),
            decreases cur,
        {
            let date = Date::from_day_number(cur).unwrap();
            let mut last: Option<(u32, bool)> = None;
            if self.check_workday(date) {
                last = self.border_before(86_400, force_is_end);
            }
            match last {
                Some((b, is_start)) => {
                    let e = DateTime::from_day_and_second(cur, b).unwrap();
                    proof {
                        lemma_instant_parts(cur as int, b as int);
                        assert forall|x: int| e.instant() < x < now implies !is_border(
                            self@,
                            x,
                            force_is_end,
                        ) by {
                            if x < instant_of(cur + 1, 0) {
                                lemma_instant_whole(x);
                                assert(day_of(x) == cur);
                                assert(!is_stop(self@.sessions, second_of(x), force_is_end));
                            }
                        }
                    }
                    return Ok(
                        (
                            e,
                            if is_start {
                                BorderSymbol::Start
                            } else {
                                BorderSymbol::End
                            },
                        ),
                    );
                },
                None => {},
            }
            proof {
                assert forall|x: int| instant_of(cur as int, 0) <= x < now implies !is_border(
                    self@,
                    x,
                    force_is_end,
                ) by {
                    if x < instant_of(cur + 1, 0) {
                        lemma_instant_whole(x);
                        assert(day_of(x) == cur);
                        if is_workday(self@, cur as int) {
                            assert(!is_stop(self@.sessions, second_of(x), force_is_end));
                        }
                    }
                }
            }
            cur -= 1;
        }
        Err(Error::NoWorkdayFound)
    }

    /// `t` itself, with the symbol for a point within a session, where `t`
    /// lies in a session of a working day; else the first border after `t`
    /// (`is_after`) or the last border before it.
    pub fn get_near_workday_intraday(&self, t: DateTime, is_after: bool) -> (r: Result<
        (DateTime, BorderSymbol),
        Error,
    >)
        ensures
            in_business(self@, t.instant()) ==> r == Ok::<(DateTime, BorderSymbol), Error>(
                (t, BorderSymbol::Intra),
            ),
            !in_business(self@, t.instant()) ==> match r {
                Ok((e, k)) => if is_after {
                    next_border_is(self@, t.instant(), e.instant(), k)
                } else {
                    previous_border_is(self@, t.instant(), false, e.instant(), k)
                },
                Err(x) => x == Error::NoWorkdayFound && if is_after {
                    next_border_missing(self@, t.instant())
                } else {
                    previous_border_missing(self@, t.instant(), false)
                },
            },
    {
        if self.check_workday_intraday(t) {
            Ok((t, BorderSymbol::Intra))
        } else if is_after {
            self.get_next_border_workday_intraday(t)
        } else {
            self.get_previous_border_workday_intraday(t, false)
        }
    }
}

} // verus!
