//! Time zones, whose rules come from the tz database that chrono-tz compiles in.
use vstd::prelude::*;
use chrono::{Offset, TimeZone};
use chrono_tz::Tz;
use crate::instant::{Instant, MAX_SECS};

verus! {

#[verifier::external_type_specification]
#[verifier::external_body]
pub struct ExTz(chrono_tz::Tz);

/// The offset east of UTC, in seconds, that a zone applies at a UTC second.
pub uninterp spec fn zone_offset(tz: Tz, secs: int) -> Option<i32>;

/// The UTC second and the offset of the earliest instant at which a zone's wall clock reads
/// the midnight that starts a day (a day number counted from 1970-01-01).
pub uninterp spec fn zone_earliest_midnight(tz: Tz, day: int) -> Option<(i64, i32)>;

/// The UTC second and the offset of the first instant after the stretch of wall-clock time that
/// a zone skips, where that stretch holds the midnight that starts a day.
pub uninterp spec fn zone_gap_end(tz: Tz, day: int) -> Option<(i64, i32)>;

/// Where a day starts in a zone: at the earliest instant that the wall clock reads its
/// midnight, or, where the zone skips that midnight, at the first instant after the gap.
pub open spec fn zone_midnight(tz: Tz, day: int) -> Option<(i64, i32)> {
    match zone_earliest_midnight(tz, day) {
        Some(p) => Some(p),
        None => zone_gap_end(tz, day),
    }
}

/// Seconds within which `DateTime::from_timestamp` always succeeds: chrono's dates reach
/// beyond year 255000 on either side of 1970.
pub const CHRONO_SAFE_SECS: i64 = 8_000_000_000_000;

/// Relies on chrono's `DateTime::from_timestamp` and on `TimeZone::offset_from_utc_datetime`
/// of chrono-tz's `Tz`: the zone's offset at that second, `None` only where the second lies
/// outside chrono's range, which `CHRONO_SAFE_SECS` stays within. A `FixedOffset` is less than a
/// day.
#[verifier::external_body]
pub(crate) fn offset_at(tz: &Tz, secs: i64) -> (r: Option<i32>)
    ensures
        r == zone_offset(*tz, secs as int),
        r matches Some(o) ==> -86_400 < o < 86_400,
        -CHRONO_SAFE_SECS <= secs <= CHRONO_SAFE_SECS ==> r is Some,
{
    match chrono::DateTime::from_timestamp(secs, 0) {
        Some(utc) => Some(tz.offset_from_utc_datetime(&utc.naive_utc()).fix().local_minus_utc()),
        None => None,
    }
}

/// Relies on chrono's `NaiveDate::from_epoch_days` and on `TimeZone::from_local_datetime` of
/// chrono-tz's `Tz` with `MappedLocalTime::earliest`: the earlier instant where the wall clock
/// reads the day's midnight twice, read in the zone's offset; `None` where the zone skips that
/// midnight or the day lies outside chrono's range. Like every chrono instant it lies within
/// chrono's years -262143 to 262142, well inside `MAX_SECS` of 1970.
#[verifier::external_body]
fn earliest_midnight(tz: &Tz, day: i32) -> (r: Option<Instant>)
    ensures
        r matches Some(i) ==> zone_earliest_midnight(*tz, day as int) == Some((i.secs, i.offset))
            && i.nanos == 0 && i.secs + i.offset == day * 86_400 && -86_400 < i.offset < 86_400
            && -MAX_SECS <= i.secs <= MAX_SECS,
        r is None <==> zone_earliest_midnight(*tz, day as int) is None,
{
    let local = match chrono::NaiveDate::from_epoch_days(day) {
        Some(date) => date.and_time(chrono::NaiveTime::MIN),
        None => return None,
    };
    match tz.from_local_datetime(&local).earliest() {
        Some(t) => Some(Instant { secs: t.timestamp(), nanos: 0, offset: t.offset().fix().local_minus_utc() }),
        None => None,
    }
}

/// Relies on chrono's `NaiveDate::from_epoch_days` and on chrono-tz's `GapInfo::new`, whose
/// `end` is the first instant after the gap in wall-clock time that holds the day's midnight,
/// read in the zone's offset; its wall-clock time lies after that midnight. `None` where the
/// zone does not skip that midnight, chrono-tz knows no end of the gap, or the day lies outside
/// chrono's range. Like every chrono instant it lies well inside `MAX_SECS` of 1970.
#[verifier::external_body]
fn gap_end(tz: &Tz, day: i32) -> (r: Option<Instant>)
    ensures
        r matches Some(i) ==> zone_gap_end(*tz, day as int) == Some((i.secs, i.offset)) && i.nanos
            == 0 && i.secs + i.offset > day * 86_400 && -86_400 < i.offset < 86_400 && -MAX_SECS
            <= i.secs <= MAX_SECS,
        r is None <==> zone_gap_end(*tz, day as int) is None,
{
    let local = match chrono::NaiveDate::from_epoch_days(day) {
        Some(date) => date.and_time(chrono::NaiveTime::MIN),
        None => return None,
    };
    match chrono_tz::GapInfo::new(&local, tz) {
        Some(gap) => match gap.end {
            Some(t) => Some(Instant { secs: t.timestamp(), nanos: 0, offset: t.offset().fix().local_minus_utc() }),
            None => None,
        },
        None => None,
    }
}

/// Where day `day` starts in zone `tz`: its midnight, the earlier one where the wall clock
/// repeats it, or the first instant after the gap where the zone skips it. The instant's
/// wall-clock time is that midnight or later.
pub fn midnight_in(tz: &Tz, day: i32) -> (r: Option<Instant>)
    ensures
        r matches Some(i) ==> zone_midnight(*tz, day as int) == Some((i.secs, i.offset)) && i.nanos
            == 0 && i.secs + i.offset >= day * 86_400 && -86_400 < i.offset < 86_400 && -MAX_SECS
            <= i.secs <= MAX_SECS,
        r is None <==> zone_midnight(*tz, day as int) is None,
{
    match earliest_midnight(tz, day) {
        Some(i) => Some(i),
        None => gap_end(tz, day),
    }
}

} // verus!
