//! A finite set of calendar days, kept as an ascending list.

use vstd::prelude::*;
use crate::civil::{in_calendar, Date};

verus! {

/// Whether `s` ascends strictly.
pub open spec fn ascending(s: Seq<i32>) -> bool {
    forall|i: int, j: int| 0 <= i < j < s.len() ==> s[i] < s[j]
}

/// The numbers that occur in `s`.
pub open spec fn members(s: Seq<i32>) -> Set<int> {
    Set::new(|d: int| exists|i: int| 0 <= i < s.len() && s[i] == d)
}

/// A set of days of the calendar.
pub struct DaySet {
    days: Vec<i32>,
}

impl View for DaySet {
    type V = Set<int>;

    /// The day numbers in the set.
    closed spec fn view(&self) -> Set<int> {
        members(self.days@)
    }
}

impl DaySet {
    #[verifier::type_invariant]
    spec fn wf(self) -> bool {
        &&& ascending(self.days@)
        &&& forall|i: int| 0 <= i < self.days@.len() ==> in_calendar(#[trigger] self.days@[i] as int)
    }

    /// The empty set: it has no member, and its list of members is empty.
    pub fn new() -> (r: DaySet)
        ensures
            r@ == Set::<int>::empty(),
            r.ordered() == Seq::<int>::empty(),
    {
        let r = DaySet { days: Vec::new() };
        assert(r@ =~= Set::<int>::empty());
        assert(r.ordered() =~= Seq::<int>::empty());
        r
    }

    /// Whether `date` is in the set.
    pub fn contains(&self, date: Date) -> (r: bool)
        ensures
            r == self@.contains(date@),
    {
        proof {
            use_type_invariant(self);
        }
        let d = date.day_number();
        let mut lo: usize = 0;
        let mut hi: usize = self.days.len();
        while lo < hi
            invariant
                0 <= lo <= hi <= self.days@.len(),
                ascending(self.days@),
                d == date@,
                forall|i: int| 0 <= i < lo ==> self.days@[i] < d,
                forall|i: int| hi <= i < self.days@.len() ==> self.days@[i] > d,
            decreases hi - lo,
        {
            let mid = lo + (hi - lo) / 2;
            let x = self.days[mid];
            if x == d {
                assert(self.days@[mid as int] == d);
                return true;
            } else if x < d {
                lo = mid + 1;
            } else {
                hi = mid;
            }
        }
        false
    }

    /// Adds `date` to the set.
    pub fn insert(&mut self, date: Date)
        ensures
            final(self)@ == old(self)@.insert(date@),
    {
        proof {
            use_type_invariant(&*self);
        }
        let d = date.day_number();
        let mut pos: usize = 0;
        while pos < self.days.len() && self.days[pos] < d
            invariant
                0 <= pos <= self.days@.len(),
                forall|i: int| 0 <= i < pos ==> self.days@[i] < d,
                *self == *old(self),
            decreases self.days@.len() - pos,
        {
            pos += 1;
        }
        let ghost before = self.days@;
        if pos < self.days.len() && self.days[pos] == d {
            assert(members(before) =~= members(before).insert(d as int));
        } else {
            let mut days: Vec<i32> = Vec::new();
            core::mem::swap(&mut days, &mut self.days);
            days.insert(pos, d);
            self.days = days;
            let ghost after = self.days@;
            assert forall|x: int| members(after).contains(x) == members(before).insert(
                d as int,
            ).contains(x) by {
                if members(after).contains(x) {
                    let i = choose|i: int| 0 <= i < after.len() && after[i] == x;
                    if i < pos {
                        assert(before[i] == x);
                    } else if i > pos {
                        assert(before[i - 1] == x);
                    }
                }
                if members(before).contains(x) {
                    let i = choose|i: int| 0 <= i < before.len() && before[i] == x;
                    if i < pos {
                        assert(after[i] == x);
                    } else {
                        assert(after[i + 1] == x);
                    }
                }
                if x == d {
                    assert(after[pos as int] == x);
                }
            }
            assert(members(after) =~= members(before).insert(d as int));
        }
    }

    /// A copy of the set.
    pub fn duplicate(&self) -> (r: DaySet)
        ensures
            r@ == self@,
    {
        proof {
            use_type_invariant(self);
        }
        let mut days: Vec<i32> = Vec::new();
        let mut i: usize = 0;
        while i < self.days.len()
            invariant
                0 <= i <= self.days@.len(),
                days@ == self.days@.take(i as int),
            decreases self.days@.len() - i,
        {
            days.push(self.days[i]);
            assert(days@ =~= self.days@.take(i + 1));
            i += 1;
        }
        assert(days@ =~= self.days@);
        DaySet { days }
    }

    /// The number of days in the set. The members, listed in ascending
    /// order, are that many, each a day of the calendar and none twice.
    pub fn len(&self) -> (r: usize)
        ensures
            r == self.ordered().len(),
            forall|d: int| self@.contains(d) ==> in_calendar(d),
            forall|i: int, j: int|
                0 <= i < j < self.ordered().len() ==> self.ordered()[i] < self.ordered()[j],
            forall|d: int| self@.contains(d) <==> self.ordered().contains(d),
    {
        proof {
            use_type_invariant(self);
            assert forall|d: int| self@.contains(d) <==> self.ordered().contains(d) by {
                if self@.contains(d) {
                    let i = choose|i: int| 0 <= i < self.days@.len() && self.days@[i] == d;
                    assert(self.ordered()[i] == d);
                }
                if self.ordered().contains(d) {
                    let i = choose|i: int| 0 <= i < self.ordered().len() && self.ordered()[i] == d;
                    assert(self.days@[i] == d);
                }
            }
        }
        self.days.len()
    }

    /// The members in ascending order.
    pub closed spec fn ordered(&self) -> Seq<int> {
        self.days@.map_values(|d: i32| d as int)
    }

    /// The `i`-th member in ascending order.
    pub fn get(&self, i: usize) -> (r: Date)
        requires
            i < self.ordered().len(),
        ensures
            r@ == self.ordered()[i as int],
    {
        proof {
            use_type_invariant(self);
        }
        Date::from_day_number(self.days[i]).unwrap()
    }
}

} // verus!
