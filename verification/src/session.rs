//! The sessions of one day: which seconds lie in a session, where sessions
//! start and end, and how much session time a stretch of the day holds.

use vstd::prelude::*;
use crate::calendar::CalendarState;
use crate::clock::in_day;

verus! {

/// Whether second `s` of a day lies in one of `sessions`. A session holds its
/// start and not its end.
pub open spec fn in_session(sessions: Seq<(int, int)>, s: int) -> bool {
    exists|i: int| 0 <= i < sessions.len() && (#[trigger] sessions[i]).0 <= s < sessions[i].1
}

/// The end of `session` if `ends`, else its start.
pub open spec fn bound(session: (int, int), ends: bool) -> int {
    if ends {
        session.1
    } else {
        session.0
    }
}

/// Whether one of `sessions` ends at `s` (`ends`), or starts at `s`.
pub open spec fn marks(sessions: Seq<(int, int)>, s: int, ends: bool) -> bool {
    exists|i: int| 0 <= i < sessions.len() && bound(#[trigger] sessions[i], ends) == s
}

/// Whether one of `sessions` starts or ends at `s`.
pub open spec fn is_border_time(sessions: Seq<(int, int)>, s: int) -> bool {
    marks(sessions, s, false) || marks(sessions, s, true)
}

/// Whether `s` is a time that a search for borders stops at: an end, or,
/// unless `ends_only`, a start.
pub open spec fn is_stop(sessions: Seq<(int, int)>, s: int, ends_only: bool) -> bool {
    marks(sessions, s, true) || (!ends_only && marks(sessions, s, false))
}

/// The number of seconds from `lo` up to, not including, `hi` that lie in a
/// session.
pub open spec fn session_seconds(sessions: Seq<(int, int)>, lo: int, hi: int) -> nat
    decreases hi - lo,
{
    if hi <= lo {
        0
    } else {
        session_seconds(sessions, lo, hi - 1) + if in_session(sessions, hi - 1) {
            1nat
        } else {
            0nat
        }
    }
}

/// Session time over two adjoining stretches adds up.
pub proof fn lemma_session_split(sessions: Seq<(int, int)>, a: int, b: int, c: int)
    requires
        a <= b <= c,
    ensures
        session_seconds(sessions, a, c) == session_seconds(sessions, a, b) + session_seconds(
            sessions,
            b,
            c,
        ),
    decreases c - b,
{
    if b < c {
        lemma_session_split(sessions, a, b, c - 1);
    }
}

/// A stretch holds no more session time than its length.
pub proof fn lemma_session_bound(sessions: Seq<(int, int)>, lo: int, hi: int)
    requires
        lo <= hi,
    ensures
        session_seconds(sessions, lo, hi) <= hi - lo,
    decreases hi - lo,
{
    if lo < hi {
        lemma_session_bound(sessions, lo, hi - 1);
    }
}

/// Where a second lies in a session and the second before it does not, or
/// the other way round, a session starts or ends.
pub proof fn lemma_session_change(sessions: Seq<(int, int)>, s: int)
    requires
        in_session(sessions, s) != in_session(sessions, s - 1),
    ensures
        is_border_time(sessions, s),
{
    if in_session(sessions, s) {
        let i = choose|i: int| 0 <= i < sessions.len() && (#[trigger] sessions[i]).0 <= s
            < sessions[i].1;
        assert(bound(sessions[i], false) == s);
    } else {
        let i = choose|i: int| 0 <= i < sessions.len() && (#[trigger] sessions[i]).0 <= s - 1
            < sessions[i].1;
        assert(bound(sessions[i], true) == s);
    }
}

/// A stretch with no start or end of a session inside it lies in a session
/// as a whole or not at all.
pub proof fn lemma_stretch(sessions: Seq<(int, int)>, a: int, b: int)
    requires
        a <= b,
        forall|x: int| a < x < b ==> !is_border_time(sessions, x),
    ensures
        forall|x: int| a <= x < b ==> in_session(sessions, x) == in_session(sessions, a),
        session_seconds(sessions, a, b) == if in_session(sessions, a) {
            b - a
        } else {
            0
        },
    decreases b - a,
{
    if a < b {
        lemma_stretch(sessions, a, b - 1);
        if a < b - 1 {
            if in_session(sessions, b - 1) != in_session(sessions, b - 2) {
                lemma_session_change(sessions, b - 1);
            }
            assert(in_session(sessions, b - 2) == in_session(sessions, a));
        }
    }
}

/// A second that lies in a session is neither the last second of the day nor
/// beyond the day.
pub proof fn lemma_session_ends_in_day(sessions: Seq<(int, int)>, s: int)
    requires
        forall|i: int|
            0 <= i < sessions.len() ==> in_day((#[trigger] sessions[i]).0) && in_day(
                sessions[i].1,
            ),
        in_session(sessions, s),
    ensures
        0 <= s < 86_399,
{
}

impl CalendarState {
    /// Whether second `s` of a day lies in a session.
    pub fn in_session_at(&self, s: u32) -> (r: bool)
        ensures
            r == in_session(self@.sessions, s as int),
    {
        let n = self.session_count();
        let mut i: usize = 0;
        while i < n
            invariant
                0 <= i <= n == self@.sessions.len(),
                forall|j: int|
                    0 <= j < i ==> !((#[trigger] self@.sessions[j]).0 <= s < self@.sessions[j].1),
            decreases n - i,
        {
            let b = self.session(i);
            if b.start.seconds_from_midnight() <= s && s < b.end.seconds_from_midnight() {
                return true;
            }
            i += 1;
        }
        false
    }

    /// The first start of a session after second `after`, or the first end
    /// if `ends`.
    pub fn least_after(&self, after: i32, ends: bool) -> (r: Option<u32>)
        ensures
            match r {
                Some(b) => {
                    &&& after < b
                    &&& in_day(b as int)
                    &&& marks(self@.sessions, b as int, ends)
                    &&& forall|x: int| after < x < b ==> !marks(self@.sessions, x, ends)
                },
                None => forall|x: int| after < x ==> !marks(self@.sessions, x, ends),
            },
    {
        let n = self.session_count();
        let mut best: Option<u32> = None;
        let mut i: usize = 0;
        while i < n
            invariant
                0 <= i <= n == self@.sessions.len(),
                self@.wf(),
                match best {
                    Some(b) => {
                        &&& after < b
                        &&& in_day(b as int)
                        &&& exists|j: int| 0 <= j < i && bound(#[trigger] self@.sessions[j], ends) == b
                        &&& forall|j: int|
                            0 <= j < i && after < bound(#[trigger] self@.sessions[j], ends)
                                ==> b <= bound(self@.sessions[j], ends)
                    },
                    None => forall|j: int|
                        0 <= j < i ==> bound(#[trigger] self@.sessions[j], ends) <= after,
                },
            decreases n - i,
        {
            let session = self.session(i);
            let t: u32 = if ends {
                session.end.seconds_from_midnight()
            } else {
                session.start.seconds_from_midnight()
            };
            assert(t == bound(self@.sessions[i as int], ends));
            if t as i64 > after as i64 {
                let closer = match best {
                    Some(b) => t < b,
                    None => true,
                };
                if closer {
                    best = Some(t);
                }
            }
            i += 1;
        }
        best
    }

    /// The last start of a session before second `before`, or the last end
    /// if `ends`.
    pub fn greatest_before(&self, before: i32, ends: bool) -> (r: Option<u32>)
        ensures
            match r {
                Some(b) => {
                    &&& b < before
                    &&& in_day(b as int)
                    &&& marks(self@.sessions, b as int, ends)
                    &&& forall|x: int| b < x < before ==> !marks(self@.sessions, x, ends)
                },
                None => forall|x: int| x < before ==> !marks(self@.sessions, x, ends),
            },
    {
        let n = self.session_count();
        let mut best: Option<u32> = None;
        let mut i: usize = 0;
        while i < n
            invariant
                0 <= i <= n == self@.sessions.len(),
                self@.wf(),
                match best {
                    Some(b) => {
                        &&& b < before
                        &&& in_day(b as int)
                        &&& exists|j: int| 0 <= j < i && bound(#[trigger] self@.sessions[j], ends) == b
                        &&& forall|j: int|
                            0 <= j < i && bound(#[trigger] self@.sessions[j], ends) < before
                                ==> bound(self@.sessions[j], ends) <= b
                    },
                    None => forall|j: int|
                        0 <= j < i ==> before <= bound(#[trigger] self@.sessions[j], ends),
                },
            decreases n - i,
        {
            let session = self.session(i);
            let t: u32 = if ends {
                session.end.seconds_from_midnight()
            } else {
                session.start.seconds_from_midnight()
            };
            assert(t == bound(self@.sessions[i as int], ends));
            if (t as i64) < before as i64 {
                let closer = match best {
                    Some(b) => t > b,
                    None => true,
                };
                if closer {
                    best = Some(t);
                }
            }
            i += 1;
        }
        best
    }

    /// The first start or end of a session after second `after`, and whether
    /// a session ends there.
    pub fn border_after(&self, after: i32) -> (r: Option<(u32, bool)>)
        ensures
            match r {
                Some((b, is_end)) => {
                    &&& after < b
                    &&& in_day(b as int)
                    &&& is_border_time(self@.sessions, b as int)
                    &&& is_end == marks(self@.sessions, b as int, true)
                    &&& forall|x: int| after < x < b ==> !is_border_time(self@.sessions, x)
                },
                None => forall|x: int| after < x ==> !is_border_time(self@.sessions, x),
            },
    {
        let start = self.least_after(after, false);
        let end = self.least_after(after, true);
        match (start, end) {
            (None, None) => None,
            (Some(a), None) => Some((a, false)),
            (None, Some(e)) => Some((e, true)),
            (Some(a), Some(e)) => if e <= a {
                Some((e, true))
            } else {
                Some((a, false))
            },
        }
    }

    /// The last end of a session before second `before`, or, unless
    /// `ends_only`, the last start or end; and whether a session starts there.
    pub fn border_before(&self, before: i32, ends_only: bool) -> (r: Option<(u32, bool)>)
        ensures
            match r {
                Some((b, is_start)) => {
                    &&& b < before
                    &&& in_day(b as int)
                    &&& is_stop(self@.sessions, b as int, ends_only)
                    &&& is_start == (!ends_only && marks(self@.sessions, b as int, false))
                    &&& forall|x: int| b < x < before ==> !is_stop(self@.sessions, x, ends_only)
                },
                None => forall|x: int| x < before ==> !is_stop(self@.sessions, x, ends_only),
            },
    {
        let end = self.greatest_before(before, true);
        if ends_only {
            return match end {
                Some(e) => Some((e, false)),
                None => None,
            };
        }
        let start = self.greatest_before(before, false);
        match (start, end) {
            (None, None) => None,
            (Some(a), None) => Some((a, true)),
            (None, Some(e)) => Some((e, false)),
            (Some(a), Some(e)) => if a >= e {
                Some((a, true))
            } else {
                Some((e, false))
            },
        }
    }

    /// The session time from second `lo` up to, not including, second `hi`.
    pub fn session_seconds_between(&self, lo: u32, hi: u32) -> (r: u32)
        requires
            lo <= hi <= 86_400,
        ensures
            r == session_seconds(self@.sessions, lo as int, hi as int),
    {
        let mut pos: u32 = lo;
        let mut total: u32 = 0;
        while pos < hi
            invariant
                lo <= pos <= hi <= 86_400,
                total == session_seconds(self@.sessions, lo as int, pos as int),
                total <= pos - lo,
            decreases hi - pos,
        {
            let inside = self.in_session_at(pos);
            let stop: u32 = match self.border_after(pos as i32) {
                Some((b, _)) => if b < hi {
                    b
                } else {
                    hi
                },
                None => hi,
            };
            proof {
                lemma_stretch(self@.sessions, pos as int, stop as int);
                lemma_session_split(self@.sessions, lo as int, pos as int, stop as int);
            }
            if inside {
                total += stop - pos;
            }
            pos = stop;
        }
        total
    }

    /// The second of the day, on or after `from`, that lies in a session and
    /// has `need` seconds of session time between `from` and itself, and
    /// beside it the session time passed on the way: `need` where that second
    /// is found, else the session time from `from` to the end of the day,
    /// which is then at most `need`.
    pub fn advance_within_day(&self, from: u32, need: i64) -> (r: (Option<u32>, i64))
        requires
            from <= 86_400,
            0 <= need,
        ensures
            match r.0 {
                Some(p) => {
                    &&& from <= p
                    &&& in_day(p as int)
                    &&& in_session(self@.sessions, p as int)
                    &&& session_seconds(self@.sessions, from as int, p as int) == need
                    &&& r.1 == need
                },
                None => {
                    &&& r.1 == session_seconds(self@.sessions, from as int, 86_400)
                    &&& r.1 <= need
                },
            },
    {
        let mut pos: u32 = from;
        let mut used: i64 = 0;
        while pos < 86_400
            invariant
                from <= pos <= 86_400,
                0 <= used <= need,
                used == session_seconds(self@.sessions, from as int, pos as int),
                used <= pos - from,
            decreases 86_400 - pos,
        {
            let inside = self.in_session_at(pos);
            let stop: u32 = match self.border_after(pos as i32) {
                Some((b, _)) => b,
                None => 86_400,
            };
            proof {
                lemma_stretch(self@.sessions, pos as int, stop as int);
                lemma_session_split(self@.sessions, from as int, pos as int, stop as int);
            }
            if inside {
                let length: i64 = (stop - pos) as i64;
                let rest: i64 = need - used;
                if rest < length {
                    let found: u32 = pos + rest as u32;
                    proof {
                        lemma_stretch(self@.sessions, pos as int, found as int);
                        lemma_session_split(self@.sessions, from as int, pos as int, found as int);
                    }
                    return (Some(found), need);
                }
                used += length;
            }
            pos = stop;
        }
        (None, used)
    }

    /// The second of the day, on or before `from`, whose preceding second
    /// lies in a session and which has `need` seconds of session time between
    /// itself and `from`, and beside it the session time passed on the way:
    /// `need` where that second is found, else the session time from the
    /// start of the day to `from`, which is then at most `need`.
    pub fn retreat_within_day(&self, from: u32, need: i64) -> (r: (Option<u32>, i64))
        requires
            from <= 86_400,
            0 <= need,
        ensures
            match r.0 {
                Some(p) => {
                    &&& 0 < p <= from
                    &&& in_day(p as int)
                    &&& in_session(self@.sessions, p - 1)
                    &&& session_seconds(self@.sessions, p as int, from as int) == need
                    &&& r.1 == need
                },
                None => {
                    &&& r.1 == session_seconds(self@.sessions, 0, from as int)
                    &&& r.1 <= need
                },
            },
    {
        // Learn from the count that every session ends within the day.
        let _ = self.session_count();
        let mut pos: u32 = from;
        let mut used: i64 = 0;
        while pos > 0
            invariant
                0 <= pos <= from <= 86_400,
                0 <= used <= need,
                used == session_seconds(self@.sessions, pos as int, from as int),
                used <= from - pos,
                self@.wf(),
            decreases pos,
        {
            let inside = self.in_session_at(pos - 1);
            let stop: u32 = match self.border_before(pos as i32, false) {
                Some((b, _)) => b,
                None => 0,
            };
            proof {
                assert forall|x: int| stop < x < pos implies !is_border_time(
                    self@.sessions,
                    x,
                ) by {
                    assert(!is_stop(self@.sessions, x, false));
                }
                lemma_stretch(self@.sessions, stop as int, pos as int);
                lemma_session_split(self@.sessions, stop as int, pos as int, from as int);
            }
            if inside {
                let length: i64 = (pos - stop) as i64;
                let rest: i64 = need - used;
                if rest < length {
                    let found: u32 = pos - rest as u32;
                    proof {
                        lemma_session_split(self@.sessions, stop as int, found as int, pos as int);
                        lemma_stretch(self@.sessions, stop as int, found as int);
                        lemma_session_split(self@.sessions, found as int, pos as int, from as int);
                        assert(in_session(self@.sessions, found - 1) == in_session(
                            self@.sessions,
                            stop as int,
                        ));
                        assert(in_session(self@.sessions, pos - 1) == in_session(
                            self@.sessions,
                            stop as int,
                        ));
                        lemma_session_ends_in_day(self@.sessions, found - 1);
                    }
                    return (Some(found), need);
                }
                used += length;
            }
            pos = stop;
        }
        (None, used)
    }
}

} // verus!
