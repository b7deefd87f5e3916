//! Instants on the time line, each carrying the UTC offset it is displayed in.
use vstd::prelude::*;
use crate::calendar::Date;

verus! {

/// Instants are kept within this many seconds of 1970-01-01T00:00Z.
pub const MAX_SECS: i64 = 100_000_000_000_000;

pub const SECS_PER_DAY: i64 = 86_400;

/// A point in time: whole seconds since 1970-01-01T00:00Z, the nanoseconds past that second,
/// and the offset east of UTC, in seconds, of the wall clock it is read on.
#[derive(Clone, Copy, Debug, PartialEq, Eq, Structural)]
pub struct Instant {
    pub secs: i64,
    pub nanos: u32,
    pub offset: i32,
}

/// A half-open interval `[start, end)` of instants.
#[derive(Clone, Copy, Debug, PartialEq, Eq, Structural)]
pub struct TimeInterval {
    pub start: Instant,
    pub end: Instant,
}

impl Instant {
    pub open spec fn wf(self) -> bool {
        &&& -MAX_SECS <= self.secs <= MAX_SECS
        &&& self.nanos < 1_000_000_000
        &&& -SECS_PER_DAY < self.offset < SECS_PER_DAY
    }

    /// Seconds since 1970-01-01T00:00 on this instant's wall clock.
    pub open spec fn local_seconds(self) -> int {
        self.secs + self.offset
    }

    /// The wall-clock date, as a day number.
    pub open spec fn local_day(self) -> int {
        self.local_seconds() / (SECS_PER_DAY as int)
    }

    /// Seconds since the wall clock's midnight.
    pub open spec fn local_second_of_day(self) -> int {
        self.local_seconds() % (SECS_PER_DAY as int)
    }

    /// Whether `self` comes strictly before `other` on the time line; offsets play no part.
    pub open spec fn before(self, other: Instant) -> bool {
        self.secs < other.secs || (self.secs == other.secs && self.nanos < other.nanos)
    }

    /// An instant from its parts, if they are in range.
    pub fn new(secs: i64, nanos: u32, offset: i32) -> (r: Option<Instant>)
        ensures
            r matches Some(i) ==> i == (Instant { secs, nanos, offset }),
            r is Some <==> (Instant { secs, nanos, offset }).wf(),
    {
        if -MAX_SECS <= secs && secs <= MAX_SECS && nanos < 1_000_000_000 && -SECS_PER_DAY
            < offset as i64 && (offset as i64) < SECS_PER_DAY {
            Some(Instant { secs, nanos, offset })
        } else {
            None
        }
    }

    /// Whole seconds since 1970-01-01T00:00Z.
    pub fn timestamp(&self) -> (r: i64)
        ensures
            r == self.secs,
    {
        self.secs
    }

    /// The offset east of UTC, in seconds.
    pub fn offset_seconds(&self) -> (r: i32)
        ensures
            r == self.offset,
    {
        self.offset
    }

    /// The day number and the second of that day on the wall clock.
    fn local_parts(&self) -> (r: (i64, i64))
        requires
            self.wf(),
        ensures
            r.0 == self.local_day(),
            r.1 == self.local_second_of_day(),
    {
        // Shift by a whole number of days so that the division is of a non-negative number.
        let shift_days: i64 = 2_000_000_000;
        let shifted: i64 = self.secs + self.offset as i64 + shift_days * SECS_PER_DAY;
        let q: i64 = shifted / SECS_PER_DAY;
        let m: i64 = shifted % SECS_PER_DAY;
        let ghost local: int = self.local_seconds();
        assert(q - shift_days == local / 86400 && m == local % 86400) by (nonlinear_arith)
            requires
                shifted == local + shift_days * 86400,
                shifted >= 0,
                q == shifted / 86400,
                m == shifted % 86400,
        ;
        (q - shift_days, m)
    }

    /// The date on this instant's wall clock.
    pub fn local_date(&self) -> (r: Date)
        requires
            self.wf(),
        ensures
            r.days == self.local_day(),
    {
        let (day, _) = self.local_parts();
        assert(-1_200_000_000 < day < 1_200_000_000) by (nonlinear_arith)
            requires
                day == self.local_day(),
                -MAX_SECS - SECS_PER_DAY < self.local_seconds() < MAX_SECS + SECS_PER_DAY,
        ;
        Date { days: day as i32 }
    }

    /// Seconds since midnight on this instant's wall clock.
    pub fn second_of_day(&self) -> (r: u32)
        requires
            self.wf(),
        ensures
            r == self.local_second_of_day(),
    {
        let (_, sod) = self.local_parts();
        sod as u32
    }

    /// The hour (0 to 23) on this instant's wall clock.
    pub fn hour(&self) -> (r: u32)
        requires
            self.wf(),
        ensures
            r == self.local_second_of_day() / 3600,
            r < 24,
    {
        self.second_of_day() / 3600
    }

    /// The minute (0 to 59) on this instant's wall clock.
    pub fn minute(&self) -> (r: u32)
        requires
            self.wf(),
        ensures
            r == self.local_second_of_day() % 3600 / 60,
    {
        self.second_of_day() % 3600 / 60
    }

    /// Whether `self` comes strictly before `other`.
    pub fn is_before(&self, other: &Instant) -> (r: bool)
        ensures
            r == self.before(*other),
    {
        self.secs < other.secs || (self.secs == other.secs && self.nanos < other.nanos)
    }
}

impl TimeInterval {
    pub open spec fn holds(self, t: Instant) -> bool {
        !t.before(self.start) && t.before(self.end)
    }

    /// Whether `t` lies in `[start, end)`.
    pub fn contains(&self, t: &Instant) -> (r: bool)
        ensures
            r == self.holds(*t),
    {
        !t.is_before(&self.start) && t.is_before(&self.end)
    }
}

} // verus!
