//! The configuration of a business calendar: holidays, the weekdays on which
//! nobody works, and the sessions of a working day.

use vstd::prelude::*;
use crate::civil::{civil_fields, Date, Weekday};
use crate::clock::{in_day, TimeBorder, TimeOfDay};
use crate::day_set::DaySet;
use crate::error::Error;

verus! {

/// What a calendar is made of, as mathematical values.
pub struct CalendarModel {
    /// Day numbers of the holidays.
    pub holidays: Set<int>,
    /// Numbers of the weekdays without work, Monday = 0.
    pub rest_days: Set<int>,
    /// Start and end of each session, in seconds since midnight.
    pub sessions: Seq<(int, int)>,
}

impl CalendarModel {
    /// Rest days lie in the week, and every session within one day, ending
    /// after it starts.
    pub open spec fn wf(self) -> bool {
        &&& forall|w: int| self.rest_days.contains(w) ==> 0 <= w < 7
        &&& forall|i: int|
            0 <= i < self.sessions.len() ==> {
                &&& in_day((#[trigger] self.sessions[i]).0)
                &&& in_day(self.sessions[i].1)
                &&& self.sessions[i].0 < self.sessions[i].1
            }
    }
}

/// The civil year of day `d`.
pub open spec fn year_of(d: int) -> int {
    civil_fields(d).0
}

/// The days of `dates` whose year lies from `start_year` to `end_year`.
pub open spec fn holidays_in_years(dates: Seq<Date>, start_year: int, end_year: int) -> Set<int> {
    Set::new(
        |d: int|
            (exists|i: int| 0 <= i < dates.len() && (#[trigger] dates[i])@ == d) && start_year
                <= year_of(d) <= end_year,
    )
}

/// The numbers of the weekdays in `days`.
pub open spec fn weekday_numbers(days: Seq<Weekday>) -> Set<int> {
    Set::new(|w: int| exists|i: int| 0 <= i < days.len() && (#[trigger] days[i]).number() == w)
}

/// Start and end of each of `borders`, in seconds since midnight.
pub open spec fn session_bounds(borders: Seq<TimeBorder>) -> Seq<(int, int)> {
    borders.map_values(|b: TimeBorder| (b.start@, b.end@))
}

/// Whether each of `borders` ends after it starts.
pub open spec fn sessions_valid(borders: Seq<TimeBorder>) -> bool {
    forall|i: int| 0 <= i < borders.len() ==> (#[trigger] borders[i]).start@ < borders[i].end@
}

/// Whether each of `borders` starts and ends within the day.
pub open spec fn sessions_in_day(borders: Seq<TimeBorder>) -> bool {
    forall|i: int|
        0 <= i < borders.len() ==> in_day((#[trigger] borders[i]).start@) && in_day(
            borders[i].end@,
        )
}

/// The sessions of a calendar that was given none: 09:00 to 11:30 and 12:30
/// to 15:00.
pub open spec fn default_sessions() -> Seq<(int, int)> {
    seq![(32_400int, 41_400int), (45_000int, 54_000int)]
}

/// A business calendar.
pub struct CalendarState {
    holidays: DaySet,
    rest: Vec<bool>,
    sessions: Vec<TimeBorder>,
}

impl View for CalendarState {
    type V = CalendarModel;

    closed spec fn view(&self) -> CalendarModel {
        CalendarModel {
            holidays: self.holidays@,
            rest_days: Set::new(|w: int| 0 <= w < self.rest@.len() && self.rest@[w]),
            sessions: session_bounds(self.sessions@),
        }
    }
}

impl CalendarState {
    #[verifier::type_invariant]
    spec fn wf(self) -> bool {
        &&& self.rest@.len() == 7
        &&& sessions_valid(self.sessions@)
        &&& sessions_in_day(self.sessions@)
    }

    /// A calendar without holidays, with Saturday and Sunday off and the
    /// default sessions.
    pub fn new() -> (r: CalendarState)
        ensures
            r@.holidays == Set::<int>::empty(),
            r@.rest_days == set![5int, 6int],
            r@.sessions == default_sessions(),
    {
        let mut rest: Vec<bool> = Vec::new();
        rest.push(false);
        rest.push(false);
        rest.push(false);
        rest.push(false);
        rest.push(false);
        rest.push(true);
        rest.push(true);
        let morning = TimeBorder {
            start: TimeOfDay::from_hms(9, 0, 0).unwrap(),
            end: TimeOfDay::from_hms(11, 30, 0).unwrap(),
        };
        let afternoon = TimeBorder {
            start: TimeOfDay::from_hms(12, 30, 0).unwrap(),
            end: TimeOfDay::from_hms(15, 0, 0).unwrap(),
        };
        let mut sessions: Vec<TimeBorder> = Vec::new();
        sessions.push(morning);
        sessions.push(afternoon);
        let r = CalendarState { holidays: DaySet::new(), rest, sessions };
        assert(r@.rest_days =~= set![5int, 6int]);
        assert(r@.sessions =~= default_sessions());
        r
    }

    /// Whether `date` is a holiday.
    pub fn is_holiday(&self, date: Date) -> (r: bool)
        ensures
            r == self@.holidays.contains(date@),
    {
        self.holidays.contains(date)
    }

    /// Whether nobody works on `weekday`.
    pub fn is_rest_day(&self, weekday: Weekday) -> (r: bool)
        ensures
            r == self@.rest_days.contains(weekday.number()),
    {
        proof {
            use_type_invariant(self);
        }
        self.rest[weekday.num_days_from_monday() as usize]
    }

    /// The number of sessions in a day.
    pub fn session_count(&self) -> (r: usize)
        ensures
            r == self@.sessions.len(),
            self@.wf(),
    {
        proof {
            use_type_invariant(self);
        }
        self.sessions.len()
    }

    /// The `i`-th session of the day.
    pub fn session(&self, i: usize) -> (r: TimeBorder)
        requires
            i < self@.sessions.len(),
        ensures
            (r.start@, r.end@) == self@.sessions[i as int],
    {
        self.sessions[i]
    }

    /// A copy of the calendar as it is now.
    pub fn snapshot(&self) -> (r: CalendarState)
        ensures
            r@ == self@,
    {
        proof {
            use_type_invariant(self);
        }
        let mut rest: Vec<bool> = Vec::new();
        let mut i: usize = 0;
        while i < self.rest.len()
            invariant
                0 <= i <= self.rest@.len(),
                rest@ == self.rest@.take(i as int),
            decreases self.rest@.len() - i,
        {
            rest.push(self.rest[i]);
            assert(rest@ =~= self.rest@.take(i + 1));
            i += 1;
        }
        assert(rest@ =~= self.rest@);
        let sessions = self.get_intraday_borders();
        let r = CalendarState { holidays: self.holidays.duplicate(), rest, sessions };
        assert(r@.rest_days =~= self@.rest_days);
        r
    }

    /// The sessions of a day, in the order in which they were given.
    pub fn get_intraday_borders(&self) -> (r: Vec<TimeBorder>)
        ensures
            session_bounds(r@) == self@.sessions,
            sessions_valid(r@),
            sessions_in_day(r@),
            r@ == self.borders(),
    {
        proof {
            use_type_invariant(self);
        }
        let mut out: Vec<TimeBorder> = Vec::new();
        let mut i: usize = 0;
        while i < self.sessions.len()
            invariant
                0 <= i <= self.sessions@.len(),
                out@ == self.sessions@.take(i as int),
            decreases self.sessions@.len() - i,
        {
            out.push(self.sessions[i]);
            assert(out@ =~= self.sessions@.take(i + 1));
            i += 1;
        }
        assert(out@ =~= self.sessions@);
        out
    }

    /// The sessions of a day as they were given.
    pub closed spec fn borders(&self) -> Seq<TimeBorder> {
        self.sessions@
    }

    /// The holidays in ascending order.
    pub fn get_range_holidays(&self) -> (r: Vec<Date>)
        ensures
            forall|i: int, j: int| 0 <= i < j < r@.len() ==> r@[i]@ < r@[j]@,
            forall|d: int|
                #![trigger self@.holidays.contains(d)]
                self@.holidays.contains(d) <==> exists|i: int|
                    0 <= i < r@.len() && (#[trigger] r@[i])@ == d,
    {
        let n = self.holidays.len();
        let mut out: Vec<Date> = Vec::new();
        let mut i: usize = 0;
        while i < n
            invariant
                0 <= i <= n == self.holidays.ordered().len(),
                out@.len() == i,
                forall|j: int| 0 <= j < i ==> (#[trigger] out@[j])@ == self.holidays.ordered()[j],
            decreases n - i,
        {
            out.push(self.holidays.get(i));
            i += 1;
        }
        proof {
            let listed = self.holidays.ordered();
            assert forall|d: int|
                #![trigger self@.holidays.contains(d)]
                self@.holidays.contains(d) <==> exists|i: int|
                    0 <= i < out@.len() && (#[trigger] out@[i])@ == d by {
                if self@.holidays.contains(d) {
                    assert(listed.contains(d));
                    let i = choose|i: int| 0 <= i < listed.len() && listed[i] == d;
                    assert(out@[i]@ == d);
                }
                if exists|i: int| 0 <= i < out@.len() && (#[trigger] out@[i])@ == d {
                    let i = choose|i: int| 0 <= i < out@.len() && (#[trigger] out@[i])@ == d;
                    assert(listed[i] == d);
                    assert(listed.contains(d));
                }
            }
        }
        out
    }

    /// The weekdays without work, in the order of the week.
    pub fn get_holiday_weekdays(&self) -> (r: Vec<Weekday>)
        ensures
            weekday_numbers(r@) == self@.rest_days,
            forall|i: int, j: int| 0 <= i < j < r@.len() ==> r@[i].number() < r@[j].number(),
    {
        proof {
            use_type_invariant(self);
        }
        let mut out: Vec<Weekday> = Vec::new();
        let mut n: usize = 0;
        while n < 7
            invariant
                0 <= n <= 7 == self.rest@.len(),
                forall|i: int| 0 <= i < out@.len() ==> (#[trigger] out@[i]).number() < n,
                forall|i: int, j: int|
                    0 <= i < j < out@.len() ==> out@[i].number() < out@[j].number(),
                forall|w: int|
                    0 <= w < n ==> (self.rest@[w] <==> exists|i: int|
                        0 <= i < out@.len() && (#[trigger] out@[i]).number() == w),
            decreases 7 - n,
        {
            let ghost before = out@;
            if self.rest[n] {
                let day = Weekday::from_number(n).unwrap();
                out.push(day);
                assert(out@[before.len() as int].number() == n);
            }
            proof {
                assert forall|w: int| 0 <= w < n + 1 implies (self.rest@[w] <==> exists|i: int|
                    0 <= i < out@.len() && (#[trigger] out@[i]).number() == w) by {
                    if w < n {
                        if self.rest@[w] {
                            let i = choose|i: int|
                                0 <= i < before.len() && (#[trigger] before[i]).number() == w;
                            assert(out@[i].number() == w);
                        }
                        if exists|i: int|
                            0 <= i < out@.len() && (#[trigger] out@[i]).number() == w {
                            let i = choose|i: int|
                                0 <= i < out@.len() && (#[trigger] out@[i]).number() == w;
                            assert(before[i].number() == w);
                        }
                    }
                }
            }
            n += 1;
        }
        assert(weekday_numbers(out@) =~= self@.rest_days);
        out
    }

    /// Replaces the holidays by those of `holidays` whose year lies from
    /// `start_year` to `end_year`.
    pub fn set_range_holidays(&mut self, holidays: &Vec<Date>, start_year: i32, end_year: i32)
        ensures
            final(self)@.holidays == holidays_in_years(
                holidays@,
                start_year as int,
                end_year as int,
            ),
            final(self)@.rest_days == old(self)@.rest_days,
            final(self)@.sessions == old(self)@.sessions,
    {
        proof {
            use_type_invariant(&*self);
        }
        let set = gather_holidays(DaySet::new(), holidays, start_year, end_year);
        self.holidays = set;
        assert(self@.holidays =~= holidays_in_years(
            holidays@,
            start_year as int,
            end_year as int,
        ));
    }

    /// Adds to the holidays those of `holidays` whose year lies from
    /// `start_year` to `end_year`.
    pub fn add_range_holidays(&mut self, holidays: &Vec<Date>, start_year: i32, end_year: i32)
        ensures
            final(self)@.holidays == old(self)@.holidays.union(
                holidays_in_years(holidays@, start_year as int, end_year as int),
            ),
            final(self)@.rest_days == old(self)@.rest_days,
            final(self)@.sessions == old(self)@.sessions,
    {
        proof {
            use_type_invariant(&*self);
        }
        let mut kept = DaySet::new();
        core::mem::swap(&mut kept, &mut self.holidays);
        let set = gather_holidays(kept, holidays, start_year, end_year);
        self.holidays = set;
    }

    /// Replaces the weekdays without work by `weekdays`.
    pub fn set_holiday_weekdays(&mut self, weekdays: &Vec<Weekday>)
        ensures
            final(self)@.rest_days == weekday_numbers(weekdays@),
            final(self)@.holidays == old(self)@.holidays,
            final(self)@.sessions == old(self)@.sessions,
    {
        proof {
            use_type_invariant(&*self);
        }
        let mut rest: Vec<bool> = Vec::new();
        let mut n: usize = 0;
        while n < 7
            invariant
                0 <= n <= 7,
                rest@.len() == n,
                forall|w: int| 0 <= w < n ==> !rest@[w],
            decreases 7 - n,
        {
            rest.push(false);
            n += 1;
        }
        let mut i: usize = 0;
        while i < weekdays.len()
            invariant
                0 <= i <= weekdays@.len(),
                rest@.len() == 7,
                forall|w: int|
                    0 <= w < 7 ==> (rest@[w] <==> exists|j: int|
                        0 <= j < i && (#[trigger] weekdays@[j]).number() == w),
            decreases weekdays@.len() - i,
        {
            let ghost before = rest@;
            let day = weekdays[i];
            rest.set(day.num_days_from_monday() as usize, true);
            proof {
                assert forall|w: int| 0 <= w < 7 implies (rest@[w] <==> exists|j: int|
                    0 <= j < i + 1 && (#[trigger] weekdays@[j]).number() == w) by {
                    if w == day.number() {
                        assert(weekdays@[i as int].number() == w);
                    } else {
                        if before[w] {
                            let j = choose|j: int|
                                0 <= j < i && (#[trigger] weekdays@[j]).number() == w;
                            assert(weekdays@[j].number() == w);
                        }
                    }
                }
            }
            i += 1;
        }
        self.rest = rest;
        assert(self@.rest_days =~= weekday_numbers(weekdays@)) by {
            assert forall|w: int| weekday_numbers(weekdays@).contains(w) implies 0 <= w < 7 by {
                let j = choose|j: int|
                    0 <= j < weekdays@.len() && (#[trigger] weekdays@[j]).number() == w;
            }
        }
    }

    /// Replaces the weekdays without work by those with the numbers
    /// `numbers`, Monday = 0. A number above 6 is refused, and the calendar
    /// then stays as it is.
    pub fn set_holiday_weekday_numbers(&mut self, numbers: &Vec<usize>) -> (r: Result<(), Error>)
        ensures
            match r {
                Ok(_) => {
                    &&& forall|i: int| 0 <= i < numbers@.len() ==> numbers@[i] < 7
                    &&& final(self)@.rest_days == Set::new(|w: int| numbers@.contains(w as usize) && 0 <= w < 7)
                    &&& final(self)@.holidays == old(self)@.holidays
                    &&& final(self)@.sessions == old(self)@.sessions
                },
                Err(x) => {
                    &&& x == Error::ConfigurationError
                    &&& exists|i: int| 0 <= i < numbers@.len() && numbers@[i] >= 7
                    &&& *final(self) == *old(self)
                },
            },
    {
        let mut weekdays: Vec<Weekday> = Vec::new();
        let mut i: usize = 0;
        while i < numbers.len()
            invariant
                0 <= i <= numbers@.len(),
                weekdays@.len() == i,
                forall|j: int| 0 <= j < i ==> #[trigger] numbers@[j] < 7,
                forall|j: int|
                    0 <= j < i ==> (#[trigger] weekdays@[j]).number() == numbers@[j],
            decreases numbers@.len() - i,
        {
            let ghost before = weekdays@;
            match Weekday::from_number(numbers[i]) {
                Some(day) => {
                    weekdays.push(day);
                    assert forall|j: int| 0 <= j < i + 1 implies (#[trigger] weekdays@[j]).number()
                        == numbers@[j] by {
                        if j < i {
                            assert(weekdays@[j] == before[j]);
                        }
                    }
                },
                None => {
                    return Err(Error::ConfigurationError);
                },
            }
            i += 1;
        }
        self.set_holiday_weekdays(&weekdays);
        proof {
            let wanted = Set::new(|w: int| numbers@.contains(w as usize) && 0 <= w < 7);
            assert forall|w: int| weekday_numbers(weekdays@).contains(w) <==> wanted.contains(
                w,
            ) by {
                if weekday_numbers(weekdays@).contains(w) {
                    let j = choose|j: int|
                        0 <= j < weekdays@.len() && (#[trigger] weekdays@[j]).number() == w;
                    assert(numbers@[j] == w as usize);
                }
                if wanted.contains(w) {
                    let j = choose|j: int| 0 <= j < numbers@.len() && numbers@[j] == w as usize;
                    assert(weekdays@[j].number() == w);
                }
            }
            assert(weekday_numbers(weekdays@) =~= wanted);
        }
        Ok(())
    }

    /// Replaces the sessions by `borders`, in the order given. A session
    /// that does not end after it starts is refused, and the calendar then
    /// stays as it is. Whether the sessions overlap is not looked at.
    pub fn set_intraday_borders(&mut self, borders: &Vec<TimeBorder>) -> (r: Result<(), Error>)
        ensures
            match r {
                Ok(_) => {
                    &&& sessions_valid(borders@)
                    &&& final(self)@.sessions == session_bounds(borders@)
                    &&& final(self)@.holidays == old(self)@.holidays
                    &&& final(self)@.rest_days == old(self)@.rest_days
                },
                Err(x) => {
                    &&& x == Error::ConfigurationError
                    &&& !sessions_valid(borders@)
                    &&& *final(self) == *old(self)
                },
            },
    {
        proof {
            use_type_invariant(&*self);
        }
        let mut sessions: Vec<TimeBorder> = Vec::new();
        let mut i: usize = 0;
        while i < borders.len()
            invariant
                0 <= i <= borders@.len(),
                sessions@ == borders@.take(i as int),
                sessions_valid(sessions@),
                sessions_in_day(sessions@),
            decreases borders@.len() - i,
        {
            let border = borders[i];
            let start = border.start.seconds_from_midnight();
            let end = border.end.seconds_from_midnight();
            if start >= end {
                return Err(Error::ConfigurationError);
            }
            sessions.push(border);
            assert(sessions@ =~= borders@.take(i + 1));
            i += 1;
        }
        assert(sessions@ =~= borders@);
        self.sessions = sessions;
        Ok(())
    }
}

impl Default for CalendarState {
    /// The calendar that `new` makes.
    fn default() -> (r: CalendarState)
        ensures
            r@.holidays == Set::<int>::empty(),
            r@.rest_days == set![5int, 6int],
            r@.sessions == default_sessions(),
    {
        CalendarState::new()
    }
}

/// Whether `year` lies from `start_year` to `end_year`, both included.
pub fn year_in_window(year: i32, start_year: i32, end_year: i32) -> (r: bool)
    ensures
        r == (start_year <= year <= end_year),
{
    start_year <= year && year <= end_year
}

/// `base` with those of `holidays` added whose year lies from `start_year`
/// to `end_year`.
fn gather_holidays(base: DaySet, holidays: &Vec<Date>, start_year: i32, end_year: i32) -> (r:
    DaySet)
    ensures
        r@ == base@.union(holidays_in_years(holidays@, start_year as int, end_year as int)),
{
    let mut set = base;
    let mut i: usize = 0;
    assert(set@ =~= base@.union(
        holidays_in_years(holidays@.take(0), start_year as int, end_year as int),
    ));
    while i < holidays.len()
        invariant
            0 <= i <= holidays@.len(),
            set@ == base@.union(
                holidays_in_years(holidays@.take(i as int), start_year as int, end_year as int),
            ),
        decreases holidays@.len() - i,
    {
        let date = holidays[i];
        let (year, _, _) = date.ymd();
        let ghost seen = holidays@.take(i as int);
        let ghost more = holidays@.take(i + 1);
        let ghost old_set = set@;
        if year_in_window(year, start_year, end_year) {
            set.insert(date);
        }
        proof {
            let sy = start_year as int;
            let ey = end_year as int;
            assert(more =~= seen.push(date));
            assert forall|d: int| set@.contains(d) <==> base@.union(
                holidays_in_years(more, sy, ey),
            ).contains(d) by {
                if holidays_in_years(more, sy, ey).contains(d) {
                    let j = choose|j: int| 0 <= j < more.len() && (#[trigger] more[j])@ == d;
                    if j < i {
                        assert(seen[j]@ == d);
                    }
                }
                if holidays_in_years(seen, sy, ey).contains(d) {
                    let j = choose|j: int| 0 <= j < seen.len() && (#[trigger] seen[j])@ == d;
                    assert(more[j]@ == d);
                }
                if d == date@ {
                    assert(more[i as int]@ == d);
                }
            }
            assert(set@ =~= base@.union(holidays_in_years(more, sy, ey)));
        }
        i += 1;
    }
    assert(holidays@.take(holidays@.len() as int) =~= holidays@);
    set
}

} // verus!
