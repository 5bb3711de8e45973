//! Working days: which dates are working days, and walks from one working
//! day to another.

use vstd::prelude::*;
use crate::calendar::{CalendarModel, CalendarState};
use crate::civil::{in_calendar, weekday_number, Date, Weekday, FIRST_DAY, LAST_DAY};
use crate::error::Error;

verus! {

/// A working day is a day that is no holiday and falls on no rest day.
pub open spec fn is_workday(m: CalendarModel, d: int) -> bool {
    !m.holidays.contains(d) && !m.rest_days.contains(weekday_number(d))
}

/// The number of working days from `lo` up to, not including, `hi`.
pub open spec fn workday_count(m: CalendarModel, lo: int, hi: int) -> nat
    decreases hi - lo,
{
    if hi <= lo {
        0
    } else {
        workday_count(m, lo, hi - 1) + if is_workday(m, hi - 1) {
            1nat
        } else {
            0nat
        }
    }
}

/// The working days from `lo` up to, not including, `hi`, in ascending order.
pub open spec fn workdays_in(m: CalendarModel, lo: int, hi: int) -> Seq<int>
    decreases hi - lo,
{
    if hi <= lo {
        Seq::empty()
    } else if is_workday(m, hi - 1) {
        workdays_in(m, lo, hi - 1).push(hi - 1)
    } else {
        workdays_in(m, lo, hi - 1)
    }
}

/// The day numbers of `dates`.
pub open spec fn day_numbers(dates: Seq<Date>) -> Seq<int> {
    dates.map_values(|d: Date| d@)
}

/// Which ends of a range of dates are left out of it.
#[derive(Clone, Copy, Debug, PartialEq, Eq, Structural, Hash)]
pub enum Closed {
    /// The end is left out.
    Left,
    /// The start is left out.
    Right,
    /// The start and the end are left out.
    Both,
    /// Neither is left out.
    Not,
}

impl Closed {
    /// What a token means: `right`, `both` and `not` name their modes, and
    /// every other token means `Left`.
    pub open spec fn of_token(token: Seq<char>) -> Closed {
        if token == "right"@ {
            Closed::Right
        } else if token == "both"@ {
            Closed::Both
        } else if token == "not"@ {
            Closed::Not
        } else {
            Closed::Left
        }
    }

    /// The mode that `token` names; `Left` for a token that names none.
    pub fn from_token(token: &str) -> (r: Closed)
        ensures
            r == Closed::of_token(token@),
    {
        let given = token.to_owned();
        if given == "right".to_owned() {
            Closed::Right
        } else if given == "both".to_owned() {
            Closed::Both
        } else if given == "not".to_owned() {
            Closed::Not
        } else {
            Closed::Left
        }
    }

    /// The first day of the range that starts at `start`.
    pub open spec fn lower(self, start: int) -> int {
        match self {
            Closed::Left | Closed::Not => start,
            Closed::Right | Closed::Both => start + 1,
        }
    }

    /// The day after the last day of the range that ends at `end`.
    pub open spec fn upper(self, end: int) -> int {
        match self {
            Closed::Left | Closed::Both => end,
            Closed::Right | Closed::Not => end + 1,
        }
    }
}

/// `e` is the working day that `days` steps forward from `d` lead to: for
/// `days == 0` the first working day on or after `d`, else the `days`-th
/// working day after `d`.
pub open spec fn next_workday_is(m: CalendarModel, d: int, days: nat, e: int) -> bool {
    if days == 0 {
        d <= e && is_workday(m, e) && workday_count(m, d, e) == 0
    } else {
        d < e && is_workday(m, e) && workday_count(m, d + 1, e + 1) == days
    }
}

/// The calendar ends before `days` steps forward from `d` are made.
pub open spec fn next_workday_missing(m: CalendarModel, d: int, days: nat) -> bool {
    if days == 0 {
        workday_count(m, d, LAST_DAY + 1) == 0
    } else {
        workday_count(m, d + 1, LAST_DAY + 1) < days
    }
}

/// `e` is the working day that `days` steps backward from `d` lead to: for
/// `days == 0` the last working day on or before `d`, else the `days`-th
/// working day before `d`.
pub open spec fn previous_workday_is(m: CalendarModel, d: int, days: nat, e: int) -> bool {
    if days == 0 {
        e <= d && is_workday(m, e) && workday_count(m, e + 1, d + 1) == 0
    } else {
        e < d && is_workday(m, e) && workday_count(m, e, d) == days
    }
}

/// The calendar begins after `days` steps backward from `d` are made.
pub open spec fn previous_workday_missing(m: CalendarModel, d: int, days: nat) -> bool {
    if days == 0 {
        workday_count(m, FIRST_DAY as int, d + 1) == 0
    } else {
        workday_count(m, FIRST_DAY as int, d) < days
    }
}

/// Counting over two adjoining ranges adds up.
pub proof fn lemma_count_split(m: CalendarModel, a: int, b: int, c: int)
    requires
        a <= b <= c,
    ensures
        workday_count(m, a, c) == workday_count(m, a, b) + workday_count(m, b, c),
    decreases c - b,
{
    if b < c {
        lemma_count_split(m, a, b, c - 1);
    }
}

/// A range that holds a working day counts at least one.
pub proof fn lemma_count_positive(m: CalendarModel, lo: int, hi: int, d: int)
    requires
        lo <= d < hi,
        is_workday(m, d),
    ensures
        workday_count(m, lo, hi) >= 1,
{
    lemma_count_split(m, lo, d, hi);
    lemma_count_split(m, d, d + 1, hi);
    assert(workday_count(m, d, d + 1) == 1) by {
        assert(workday_count(m, d, d) == 0);
    }
}

/// Counting may start with the first day of the range.
pub proof fn lemma_count_first(m: CalendarModel, lo: int, hi: int)
    requires
        lo < hi,
    ensures
        workday_count(m, lo, hi) == workday_count(m, lo + 1, hi) + if is_workday(m, lo) {
            1nat
        } else {
            0nat
        },
{
    lemma_count_split(m, lo, lo + 1, hi);
    assert(workday_count(m, lo, lo) == 0);
}

/// The list of working days of a range is strictly ascending, as long as the
/// count says, and holds exactly the working days of the range.
pub proof fn lemma_workdays_listed(m: CalendarModel, lo: int, hi: int)
    ensures
        workdays_in(m, lo, hi).len() == workday_count(m, lo, hi),
        forall|i: int, j: int|
            0 <= i < j < workdays_in(m, lo, hi).len() ==> workdays_in(m, lo, hi)[i] < workdays_in(
                m,
                lo,
                hi,
            )[j],
        forall|d: int|
            #![trigger workdays_in(m, lo, hi).contains(d)]
            workdays_in(m, lo, hi).contains(d) <==> lo <= d < hi && is_workday(m, d),
    decreases hi - lo,
{
    let s = workdays_in(m, lo, hi);
    if hi > lo {
        let t = workdays_in(m, lo, hi - 1);
        lemma_workdays_listed(m, lo, hi - 1);
        let grown = is_workday(m, hi - 1);
        assert(s == if grown {
            t.push(hi - 1)
        } else {
            t
        });
        assert forall|i: int, j: int| 0 <= i < j < s.len() implies s[i] < s[j] by {
            assert(s[i] == t[i]);
            if j == t.len() {
                assert(grown);
                assert(s[j] == hi - 1);
                assert(t.contains(t[i]));
                assert(t[i] < hi - 1);
            } else {
                assert(s[j] == t[j]);
                assert(t[i] < t[j]);
            }
        }
        assert forall|d: int| #![trigger s.contains(d)]
            s.contains(d) <==> lo <= d < hi && is_workday(m, d) by {
            if s.contains(d) {
                let i = choose|i: int| 0 <= i < s.len() && s[i] == d;
                if i < t.len() {
                    assert(s[i] == t[i]);
                    assert(t.contains(t[i]));
                }
            }
            if lo <= d < hi && is_workday(m, d) {
                if d == hi - 1 {
                    assert(s[s.len() - 1] == d);
                } else {
                    assert(t.contains(d));
                    let i = choose|i: int| 0 <= i < t.len() && t[i] == d;
                    assert(s[i] == d);
                }
            }
        }
    }
}

/// Leaving out the end of a range drops the end from the list where the end
/// is a working day of the range, and changes nothing where it is not.
pub proof fn lemma_left_drops_end(m: CalendarModel, start: int, end: int)
    ensures
        start <= end && is_workday(m, end) ==> workdays_in(
            m,
            Closed::Not.lower(start),
            Closed::Not.upper(end),
        ) == workdays_in(m, Closed::Left.lower(start), Closed::Left.upper(end)).push(end),
        !(start <= end && is_workday(m, end)) ==> workdays_in(
            m,
            Closed::Not.lower(start),
            Closed::Not.upper(end),
        ) == workdays_in(m, Closed::Left.lower(start), Closed::Left.upper(end)),
{
    if start > end {
        assert(workdays_in(m, start, end + 1) == workdays_in(m, start, end));
    }
}

/// From a working day, zero steps forward lead to the day itself, and so
/// does the search for the nearest working day on or after it.
pub proof fn lemma_next_zero_stays(m: CalendarModel, d: int)
    requires
        in_calendar(d),
        is_workday(m, d),
    ensures
        next_workday_is(m, d, 0, d),
        !next_workday_missing(m, d, 0),
        forall|e: int| next_workday_is(m, d, 0, e) ==> e == d,
{
    lemma_count_positive(m, d, LAST_DAY + 1, d);
    assert forall|e: int| next_workday_is(m, d, 0, e) implies e == d by {
        if d < e {
            lemma_count_positive(m, d, e, d);
        }
    }
}

/// At most one day is `days` steps backward from `d`.
pub proof fn lemma_previous_unique(m: CalendarModel, d: int, days: nat, x: int, y: int)
    requires
        previous_workday_is(m, d, days, x),
        previous_workday_is(m, d, days, y),
    ensures
        x == y,
{
    if x < y {
        if days == 0 {
            lemma_count_positive(m, x + 1, d + 1, y);
        } else {
            lemma_count_split(m, x, y, d);
            lemma_count_positive(m, x, y, x);
        }
    } else if y < x {
        if days == 0 {
            lemma_count_positive(m, y + 1, d + 1, x);
        } else {
            lemma_count_split(m, y, x, d);
            lemma_count_positive(m, y, x, y);
        }
    }
}

/// At most one day is `days` steps forward from `d`.
pub proof fn lemma_next_unique(m: CalendarModel, d: int, days: nat, x: int, y: int)
    requires
        next_workday_is(m, d, days, x),
        next_workday_is(m, d, days, y),
    ensures
        x == y,
{
    if x < y {
        if days == 0 {
            lemma_count_positive(m, d, y, x);
        } else {
            lemma_count_split(m, d + 1, x + 1, y + 1);
            lemma_count_positive(m, x + 1, y + 1, y);
        }
    } else if y < x {
        if days == 0 {
            lemma_count_positive(m, d, x, y);
        } else {
            lemma_count_split(m, d + 1, y + 1, x + 1);
            lemma_count_positive(m, y + 1, x + 1, x);
        }
    }
}

/// From a working day `d`, `days` steps forward and then `days` steps
/// backward lead back to `d`.
pub proof fn lemma_forward_then_back(m: CalendarModel, d: int, days: nat, e: int)
    requires
        in_calendar(d),
        is_workday(m, d),
        next_workday_is(m, d, days, e),
    ensures
        previous_workday_is(m, e, days, d),
        !previous_workday_missing(m, e, days),
        forall|x: int| previous_workday_is(m, e, days, x) ==> x == d,
{
    if days == 0 {
        lemma_next_zero_stays(m, d);
        assert(e == d);
        lemma_count_positive(m, FIRST_DAY as int, d + 1, d);
    } else {
        lemma_count_first(m, d, e);
        assert(workday_count(m, d + 1, e + 1) == workday_count(m, d + 1, e) + 1);
        lemma_count_split(m, FIRST_DAY as int, d, e);
    }
    assert forall|x: int| previous_workday_is(m, e, days, x) implies x == d by {
        lemma_previous_unique(m, e, days, x, d);
    }
}

impl CalendarState {
    /// Whether `date`, which falls on `weekday`, is a working day: no
    /// holiday, and `weekday` no rest day.
    pub fn works_on(&self, date: Date, weekday: Weekday) -> (r: bool)
        ensures
            r == (!self@.holidays.contains(date@) && !self@.rest_days.contains(weekday.number())),
    {
        !self.is_holiday(date) && !self.is_rest_day(weekday)
    }

    /// Whether `date` is a working day.
    pub fn check_workday(&self, date: Date) -> (r: bool)
        ensures
            r == is_workday(self@, date@),
    {
        self.works_on(date, date.weekday())
    }

    /// The working days from `start` to `end` in ascending order, without the
    /// ends that `closed` leaves out.
    pub fn get_workdays(&self, start: Date, end: Date, closed: Closed) -> (r: Vec<Date>)
        ensures
            day_numbers(r@) == workdays_in(self@, closed.lower(start@), closed.upper(end@)),
            forall|i: int, j: int| 0 <= i < j < r@.len() ==> r@[i]@ < r@[j]@,
            forall|d: int|
                #![trigger day_numbers(r@).contains(d)]
                day_numbers(r@).contains(d) <==> closed.lower(start@) <= d < closed.upper(end@)
                    && is_workday(self@, d),
    {
        let lo: i32 = match closed {
            Closed::Left | Closed::Not => start.day_number(),
            Closed::Right | Closed::Both => start.day_number() + 1,
        };
        let hi: i32 = match closed {
            Closed::Left | Closed::Both => end.day_number(),
            Closed::Right | Closed::Not => end.day_number() + 1,
        };
        let mut out: Vec<Date> = Vec::new();
        let mut cur: i32 = lo;
        assert(day_numbers(out@) =~= workdays_in(self@, lo as int, cur as int));
        while cur < hi
            invariant
                FIRST_DAY <= lo <= cur,
                hi <= LAST_DAY + 1,
                cur <= hi || cur == lo,
                day_numbers(out@) == workdays_in(self@, lo as int, cur as int),
            decreases hi - cur,
        {
            let date = Date::from_day_number(cur).unwrap();
            let ghost before = out@;
            if self.check_workday(date) {
                out.push(date);
                assert(day_numbers(out@) =~= day_numbers(before).push(cur as int));
            }
            cur += 1;
        }
        proof {
            lemma_workdays_listed(self@, lo as int, hi as int);
            assert(workdays_in(self@, lo as int, cur as int) == workdays_in(
                self@,
                lo as int,
                hi as int,
            ));
            assert forall|i: int, j: int| 0 <= i < j < out@.len() implies out@[i]@ < out@[j]@ by {
                assert(day_numbers(out@)[i] == out@[i]@);
                assert(day_numbers(out@)[j] == out@[j]@);
            }
        }
        out
    }

    /// The working day that `days` steps forward from `date` lead to; with
    /// `days == 0`, the first working day on or after `date`.
    pub fn get_next_workday(&self, date: Date, days: u32) -> (r: Result<Date, Error>)
        ensures
            match r {
                Ok(e) => next_workday_is(self@, date@, days as nat, e@),
                Err(x) => x == Error::NoWorkdayFound && next_workday_missing(
                    self@,
                    date@,
                    days as nat,
                ),
            },
    {
        let lo: i32 = if days == 0 {
            date.day_number()
        } else {
            date.day_number() + 1
        };
        let want: u32 = if days == 0 {
            1
        } else {
            days
        };
        let mut cur: i32 = lo;
        let mut found: u32 = 0;
        while cur <= LAST_DAY
            invariant
                FIRST_DAY <= lo <= cur <= LAST_DAY + 1,
                lo == if days == 0 {
                    date@
                } else {
                    date@ + 1
                },
                want == if days == 0 {
                    1
                } else {
                    days
                },
                found == workday_count(self@, lo as int, cur as int),
                found < want,
            decreases LAST_DAY + 1 - cur,
        {
            let here = Date::from_day_number(cur).unwrap();
            if self.check_workday(here) {
                found += 1;
                if found == want {
                    return Ok(here);
                }
            }
            cur += 1;
        }
        Err(Error::NoWorkdayFound)
    }

    /// The working day that `days` steps backward from `date` lead to; with
    /// `days == 0`, the last working day on or before `date`.
    pub fn get_previous_workday(&self, date: Date, days: u32) -> (r: Result<Date, Error>)
        ensures
            match r {
                Ok(e) => previous_workday_is(self@, date@, days as nat, e@),
                Err(x) => x == Error::NoWorkdayFound && previous_workday_missing(
                    self@,
                    date@,
                    days as nat,
                ),
            },
    {
        let hi: i32 = if days == 0 {
            date.day_number()
        } else {
            date.day_number() - 1
        };
        let want: u32 = if days == 0 {
            1
        } else {
            days
        };
        let mut cur: i32 = hi;
        let mut found: u32 = 0;
        while cur >= FIRST_DAY
            invariant
                FIRST_DAY - 1 <= cur <= hi <= LAST_DAY,
                hi == if days == 0 {
                    date@
                } else {
                    date@ - 1
                },
                want == if days == 0 {
                    1
                } else {
                    days
                },
                found == workday_count(self@, cur + 1, hi + 1),
                found < want,
            decreases cur,
        {
            let here = Date::from_day_number(cur).unwrap();
            proof {
                lemma_count_first(self@, cur as int, hi + 1);
            }
            if self.check_workday(here) {
                found += 1;
                if found == want {
                    return Ok(here);
                }
            }
            cur -= 1;
        }
        Err(Error::NoWorkdayFound)
    }

    /// `days` steps from `date`: forward where `days` is positive or zero,
    /// backward by as many steps where it is negative.
    pub fn move_workday(&self, date: Date, days: i32) -> (r: Result<Date, Error>)
        ensures
            match r {
                Ok(e) => if days >= 0 {
                    next_workday_is(self@, date@, days as nat, e@)
                } else {
                    previous_workday_is(self@, date@, (-days) as nat, e@)
                },
                Err(x) => x == Error::NoWorkdayFound && if days >= 0 {
                    next_workday_missing(self@, date@, days as nat)
                } else {
                    previous_workday_missing(self@, date@, (-days) as nat)
                },
            },
    {
        if days >= 0 {
            self.get_next_workday(date, days as u32)
        } else {
            self.get_previous_workday(date, (-(days as i64)) as u32)
        }
    }

    /// `date` if it is a working day, else the nearest working day after it
    /// (`is_after`) or before it.
    pub fn get_near_workday(&self, date: Date, is_after: bool) -> (r: Result<Date, Error>)
        ensures
            match r {
                Ok(e) => if is_after {
                    next_workday_is(self@, date@, 0, e@)
                } else {
                    previous_workday_is(self@, date@, 0, e@)
                },
                Err(x) => x == Error::NoWorkdayFound && if is_after {
                    next_workday_missing(self@, date@, 0)
                } else {
                    previous_workday_missing(self@, date@, 0)
                },
            },
    {
        if is_after {
            self.get_next_workday(date, 0)
        } else {
            self.get_previous_workday(date, 0)
        }
    }

    /// The first `days` working days on or after `start`, in ascending order;
    /// none where `days` is not positive.
    pub fn get_workdays_number(&self, start: Date, days: i32) -> (r: Result<Vec<Date>, Error>)
        ensures
            match r {
                Ok(v) => if days <= 0 {
                    v@.len() == 0
                } else {
                    &&& v@.len() == days
                    &&& is_workday(self@, v@.last()@)
                    &&& day_numbers(v@) == workdays_in(self@, start@, v@.last()@ + 1)
                },
                Err(x) => x == Error::NoWorkdayFound && days > 0 && workday_count(
                    self@,
                    start@,
                    LAST_DAY + 1,
                ) < days,
            },
    {
        let mut out: Vec<Date> = Vec::new();
        if days <= 0 {
            return Ok(out);
        }
        let lo: i32 = start.day_number();
        let mut cur: i32 = lo;
        assert(day_numbers(out@) =~= workdays_in(self@, lo as int, cur as int));
        while cur <= LAST_DAY
            invariant
                FIRST_DAY <= lo <= cur <= LAST_DAY + 1,
                days > 0,
                lo == start@,
                day_numbers(out@) == workdays_in(self@, lo as int, cur as int),
                out@.len() < days,
            decreases LAST_DAY + 1 - cur,
        {
            let here = Date::from_day_number(cur).unwrap();
            let ghost before = out@;
            if self.check_workday(here) {
                out.push(here);
                assert(day_numbers(out@) =~= day_numbers(before).push(cur as int));
                if out.len() == days as usize {
                    return Ok(out);
                }
            }
            cur += 1;
        }
        proof {
            lemma_workdays_listed(self@, lo as int, LAST_DAY + 1);
        }
        Err(Error::NoWorkdayFound)
    }
}

} // verus!
