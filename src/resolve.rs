//! Resolving date specifiers to calendar dates and to intervals of time in a zone.
use vstd::prelude::*;
use chrono_tz::Tz;
use crate::calendar::{weekday_index_of, Date, Weekday, DAY_LIMIT};
use crate::instant::{Instant, TimeInterval};
use crate::request::RequestedDate;
use crate::zone::{midnight_in, offset_at, zone_midnight, zone_offset};

verus! {

/// After this second of the day (22:55:00) the provider has no hour of today left to show.
pub const CUTOFF_SECOND: u32 = 82_500;

/// The day that a specifier denotes, given the reference day and the day from which a weekday
/// is searched.
pub open spec fn resolved_day(dt: RequestedDate, relative_to: int, weekday_start_at: int) -> int {
    match dt {
        RequestedDate::Today => relative_to,
        RequestedDate::Tomorrow => relative_to + 1,
        RequestedDate::RelativeDays(n) => relative_to + n,
        RequestedDate::Weekday(w) => weekday_start_at + (w.index() - weekday_index_of(
            weekday_start_at,
        )) % 7,
        RequestedDate::Absolute(d) => d.days as int,
    }
}

/// Whether a wall-clock time of day lies strictly after the cutoff.
pub open spec fn past_cutoff(second_of_day: int, nanos: int) -> bool {
    second_of_day > CUTOFF_SECOND || (second_of_day == CUTOFF_SECOND && nanos > 0)
}

/// `Today` read as `Tomorrow` once the cutoff has passed.
pub open spec fn after_cutoff(dt: RequestedDate, late: bool) -> RequestedDate {
    if late && dt == RequestedDate::Today {
        RequestedDate::Tomorrow
    } else {
        dt
    }
}

/// The first and last day of a range: the start is resolved against today, and the end's
/// weekday is searched from the start's day.
pub open spec fn range_days(range: (RequestedDate, RequestedDate), today: int, late: bool) -> (
    int,
    int,
) {
    let start = resolved_day(after_cutoff(range.0, late), today, today);
    let end = resolved_day(after_cutoff(range.1, late), today, start);
    (start, end)
}

/// The later of two instants, `now` on a tie.
pub open spec fn not_before(midnight: Instant, now: Instant) -> Instant {
    if now.before(midnight) {
        midnight
    } else {
        now
    }
}

/// The interval that a range denotes in a zone at instant `now`: from the start day's midnight
/// (as `zone_midnight` reads it), or `now` if later, up to the midnight that ends the last day.
pub open spec fn time_range_meaning(range: (RequestedDate, RequestedDate), tz: Tz, now: Instant) -> Option<
    TimeInterval,
> {
    match zone_offset(tz, now.secs as int) {
        None => None,
        Some(off) => {
            let here = Instant { secs: now.secs, nanos: now.nanos, offset: off };
            let today = here.local_day();
            if !(-DAY_LIMIT < today < DAY_LIMIT) {
                None
            } else {
                let days = range_days(
                    range,
                    today,
                    past_cutoff(here.local_second_of_day(), here.nanos as int),
                );
                match (zone_midnight(tz, days.0), zone_midnight(tz, days.1 + 1)) {
                    (Some(s), Some(e)) => Some(
                        TimeInterval {
                            start: not_before(Instant { secs: s.0, nanos: 0, offset: s.1 }, here),
                            end: Instant { secs: e.0, nanos: 0, offset: e.1 },
                        },
                    ),
                    _ => None,
                }
            }
        },
    }
}

/// Today on the zone's wall clock at `now`, with the first and last day of the range then.
pub open spec fn zone_days(range: (RequestedDate, RequestedDate), tz: Tz, now: Instant) -> Option<
    (int, int, int),
> {
    match zone_offset(tz, now.secs as int) {
        None => None,
        Some(off) => {
            let here = Instant { secs: now.secs, nanos: now.nanos, offset: off };
            let today = here.local_day();
            let days = range_days(
                range,
                today,
                past_cutoff(here.local_second_of_day(), here.nanos as int),
            );
            Some((today, days.0, days.1))
        },
    }
}

/// The calendar date that a specifier denotes. `Today`, `Tomorrow` and `+N` count from
/// `relative_to`; a weekday is the first date on or after `weekday_start_at` that falls on
/// it; an absolute date is itself.
pub fn resolve_date(dt: RequestedDate, relative_to: Date, weekday_start_at: Date) -> (r: Date)
    requires
        dt.in_range(),
        -DAY_LIMIT < relative_to.days < DAY_LIMIT,
        -DAY_LIMIT < weekday_start_at.days < DAY_LIMIT + 1000,
    ensures
        r.days == resolved_day(dt, relative_to.days as int, weekday_start_at.days as int),
{
    match dt {
        RequestedDate::Today => relative_to,
        RequestedDate::Tomorrow => Date { days: relative_to.days + 1 },
        RequestedDate::RelativeDays(n) => Date { days: relative_to.days + n as i32 },
        RequestedDate::Weekday(wanted) => {
            let ghost start = weekday_start_at.days as int;
            let ghost target = start + (wanted.index() - weekday_index_of(start)) % 7;
            let mut date = weekday_start_at;
            while date.weekday() != wanted
                invariant
                    start <= date.days <= target,
                    target == start + (wanted.index() - weekday_index_of(start)) % 7,
                    -DAY_LIMIT < start < DAY_LIMIT + 1000,
                decreases target - date.days,
            {
                proof {
                    lemma_weekday_step(start, date.days as int, wanted.index());
                }
                date = Date { days: date.days + 1 };
            }
            proof {
                lemma_weekday_step(start, date.days as int, wanted.index());
            }
            date
        },
        RequestedDate::Absolute(d) => d,
    }
}

/// Walking forward from `start`, a day whose weekday is not `w` comes before the first one that
/// is, and a day that is comes no earlier.
proof fn lemma_weekday_step(start: int, d: int, w: int)
    requires
        0 <= w < 7,
        start <= d,
        d <= start + (w - weekday_index_of(start)) % 7,
    ensures
        weekday_index_of(d) != w ==> d < start + (w - weekday_index_of(start)) % 7,
        weekday_index_of(d) == w ==> d == start + (w - weekday_index_of(start)) % 7,
{
    let k = (w - weekday_index_of(start)) % 7;
    assert(0 <= k < 7);
    assert(weekday_index_of(start + k) == w) by {
        assert((start + k + 3) % 7 == ((start + 3) % 7 + k) % 7) by (nonlinear_arith)
            requires 0 <= k < 7;
        assert(((start + 3) % 7 + (w - (start + 3) % 7) % 7) % 7 == w) by (nonlinear_arith)
            requires 0 <= w < 7;
    }
    if d < start + k {
        let j = d - start;
        assert(weekday_index_of(d) != w) by {
            assert((start + j + 3) % 7 == ((start + 3) % 7 + j) % 7) by (nonlinear_arith)
                requires 0 <= j < 7;
            assert(((start + 3) % 7 + j) % 7 != w) by (nonlinear_arith)
                requires 0 <= j < k, k == (w - (start + 3) % 7) % 7, 0 <= w < 7;
        }
    }
}

/// The first and last calendar day of a range, `late` meaning that the cutoff has passed: then
/// `Today`, on either side, counts as `Tomorrow`. The end's weekday is searched from the
/// resolved start.
pub fn resolve_range_dates(range: (RequestedDate, RequestedDate), today: Date, late: bool) -> (r: (
    Date,
    Date,
))
    requires
        range.0.in_range(),
        range.1.in_range(),
        -DAY_LIMIT < today.days < DAY_LIMIT,
    ensures
        (r.0.days as int, r.1.days as int) == range_days(range, today.days as int, late),
{
    let (mut start, mut end) = range;
    if late {
        if start == RequestedDate::Today {
            start = RequestedDate::Tomorrow;
        }
        if end == RequestedDate::Today {
            end = RequestedDate::Tomorrow;
        }
    }
    let first = resolve_date(start, today, today);
    let last = resolve_date(end, today, first);
    (first, last)
}

/// The start of an interval: the first day's midnight, or `now` where that is later (also on a
/// tie, so that the start reads on `now`'s wall clock).
pub fn start_not_before(midnight: Instant, now: Instant) -> (r: Instant)
    ensures
        r == not_before(midnight, now),
{
    if now.is_before(&midnight) {
        midnight
    } else {
        now
    }
}

/// An instant read within day `first` comes before one read at or after the midnight that ends
/// day `last`, two or more days later, whatever the two offsets.
proof fn lemma_three_days_apart(start: Instant, end: Instant, first: int, last: int)
    requires
        end.secs + end.offset >= (last + 1) * 86_400,
        start.secs + start.offset < (first + 1) * 86_400,
        -86_400 < end.offset < 86_400,
        -86_400 < start.offset < 86_400,
        first + 2 <= last,
    ensures
        start.before(end),
{
}

/// Converts an inclusive range of dates to the half-open interval of time it covers in zone
/// `tz`, as seen at instant `now`. Today is `now`'s date on the zone's wall clock; after 22:55
/// there, `Today` on either side counts as `Tomorrow`. The interval starts at the first day's
/// midnight in the zone, or at `now` if that is later, and ends at the midnight after the last
/// day. Where the wall clock reads a midnight twice, the earlier instant is taken; where it
/// skips a midnight, the first instant after the gap. `None` only where `now` or a day lies
/// outside chrono's range of dates, or chrono-tz knows no end of a gap.
pub fn resolve_time_range(range: (RequestedDate, RequestedDate), tz: Tz, now: Instant) -> (r: Option<
    TimeInterval,
>)
    requires
        range.0.in_range(),
        range.1.in_range(),
        now.wf(),
    ensures
        r == time_range_meaning(range, tz, now),
        r matches Some(iv) ==> {
            &&& !iv.start.before(now)
            &&& iv.end.nanos == 0
            &&& iv.start.wf()
            &&& iv.end.wf()
            &&& zone_days(range, tz, now) is Some
            &&& iv.end.local_seconds() >= (zone_days(range, tz, now)->Some_0.2 + 1) * 86_400
        },
        // A range of three days or more that starts no earlier than today, at a time that the
        // zone's wall clock reads within its first day, is never empty, whatever offsets the
        // zone applies.
        r matches Some(iv) ==> ({
            let d = zone_days(range, tz, now)->Some_0;
            d.0 <= d.1 && d.1 + 2 <= d.2 && iv.start.local_seconds() < (d.1 + 1) * 86_400
                ==> iv.start.before(iv.end)
        }),
{
    let off = match offset_at(&tz, now.secs) {
        Some(off) => off,
        None => return None,
    };
    let here = Instant { secs: now.secs, nanos: now.nanos, offset: off };
    let today = here.local_date();
    if !(-DAY_LIMIT < today.days && today.days < DAY_LIMIT) {
        return None;
    }
    let sod = here.second_of_day();
    let late = sod > CUTOFF_SECOND || (sod == CUTOFF_SECOND && here.nanos > 0);
    let (first, last) = resolve_range_dates(range, today, late);
    let start_midnight = match midnight_in(&tz, first.days) {
        Some(m) => m,
        None => return None,
    };
    let end_midnight = match midnight_in(&tz, last.days + 1) {
        Some(m) => m,
        None => return None,
    };
    let start = start_not_before(start_midnight, here);
    proof {
        if today.days <= first.days && first.days + 2 <= last.days && start.local_seconds() < (
        first.days + 1) * 86_400 {
            lemma_three_days_apart(start, end_midnight, first.days as int, last.days as int);
        }
    }
    Some(TimeInterval { start, end: end_midnight })
}

/// A range that ends on a weekday never ends before it starts: the end's weekday is searched
/// from the start's day, so the last day comes on or after the first and within a week of it.
pub proof fn lemma_weekday_end_not_before_start(
    range: (RequestedDate, RequestedDate),
    today: int,
    late: bool,
)
    requires
        range.1 is Weekday,
    ensures
        range_days(range, today, late).0 <= range_days(range, today, late).1 < range_days(
            range,
            today,
            late,
        ).0 + 7,
{
    let w = range.1->Weekday_0;
    let s = range_days(range, today, late).0;
    assert(0 <= (w.index() - weekday_index_of(s)) % 7 < 7);
}

/// `fri..sun` resolves, for every reference day and time of day, to a Friday and the Sunday
/// two days after it, the Friday being no earlier than the reference day.
pub proof fn lemma_friday_to_sunday(today: int, late: bool)
    ensures
        ({
            let days = range_days(
                (RequestedDate::Weekday(Weekday::Fri), RequestedDate::Weekday(Weekday::Sun)),
                today,
                late,
            );
            &&& today <= days.0
            &&& weekday_index_of(days.0) == 4
            &&& days.1 == days.0 + 2
        }),
{
    let k = (4 - weekday_index_of(today)) % 7;
    assert(0 <= k < 7);
    lemma_weekday_step(today, today + k, 4);
    let s = today + k;
    assert((6 - weekday_index_of(s)) % 7 == 2);
}

/// The cutoff: up to 22:55:00 on the zone's wall clock `today..today` is the reference day;
/// from the first instant after it, the next day.
pub proof fn lemma_cutoff_boundary(today: int, second_of_day: int, nanos: int)
    requires
        0 <= second_of_day < 86_400,
        0 <= nanos < 1_000_000_000,
    ensures
        range_days(
            (RequestedDate::Today, RequestedDate::Today),
            today,
            past_cutoff(second_of_day, nanos),
        ) == if second_of_day < 82_500 || (second_of_day == 82_500 && nanos == 0) {
            (today, today)
        } else {
            (today + 1, today + 1)
        },
        !past_cutoff(82_500, 0),
        past_cutoff(82_501, 0),
{
}

} // verus!
