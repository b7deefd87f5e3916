//! Compaction of an hourly series: hourly for today, one point per three-hour slot on other days.
use vstd::prelude::*;
use crate::calendar::Date;
use crate::instant::Instant;
use crate::weather::{severity_of, WmoCode};

verus! {

/// The samples `[start, end)` of a series that make one point of the compacted series.
#[derive(Clone, Copy, Debug, PartialEq, Eq, Structural)]
pub struct Bucket {
    pub start: usize,
    pub end: usize,
}

/// The wall-clock date and three-hour slot (0 for 00:00-02:59, up to 7) of an instant.
pub open spec fn slot_of(t: Instant) -> (int, int) {
    (t.local_day(), t.local_second_of_day() / 3600 / 3)
}

/// Where the run of samples that share the slot of sample `i` ends, searching from `j`.
pub open spec fn run_end(times: Seq<Instant>, i: int, j: int) -> int
    decreases times.len() - j,
{
    if j >= times.len() || slot_of(times[j]) != slot_of(times[i]) {
        j
    } else {
        run_end(times, i, j + 1)
    }
}

/// The buckets of a series from sample `i` on: a sample dated `today` is a bucket of its own;
/// any other starts a bucket that takes the following samples of the same date and slot.
pub open spec fn buckets_from(times: Seq<Instant>, today: int, i: int) -> Seq<Bucket>
    decreases times.len() - i,
{
    if i < 0 || i >= times.len() {
        Seq::empty()
    } else if times[i].local_day() == today {
        seq![Bucket { start: i as usize, end: (i + 1) as usize }] + buckets_from(times, today, i + 1)
    } else {
        let j = run_end(times, i, i + 1);
        if j <= i || j > times.len() {
            Seq::empty()
        } else {
            seq![Bucket { start: i as usize, end: j as usize }] + buckets_from(times, today, j)
        }
    }
}

proof fn lemma_run_end_bounds(times: Seq<Instant>, i: int, j: int)
    requires
        j <= times.len(),
    ensures
        j <= run_end(times, i, j) <= times.len(),
    decreases times.len() - j,
{
    if j < times.len() && slot_of(times[j]) == slot_of(times[i]) {
        lemma_run_end_bounds(times, i, j + 1);
    }
}

/// The most severe code present in a sequence, the earliest one among equally severe codes;
/// `None` where no code is present.
pub open spec fn most_severe(codes: Seq<Option<WmoCode>>) -> Option<WmoCode>
    decreases codes.len(),
{
    if codes.len() == 0 {
        None
    } else {
        let before = most_severe(codes.drop_last());
        match codes.last() {
            None => before,
            Some(c) => match before {
                None => Some(c),
                Some(b) => if severity_of(c.0) > severity_of(b.0) {
                    Some(c)
                } else {
                    Some(b)
                },
            },
        }
    }
}

/// The values present in a sequence of optional values, in order.
pub open spec fn present<T>(values: Seq<Option<T>>) -> Seq<T>
    decreases values.len(),
{
    if values.len() == 0 {
        Seq::empty()
    } else {
        match values.last() {
            Some(v) => present(values.drop_last()).push(v),
            None => present(values.drop_last()),
        }
    }
}

/// Splits a time axis into the buckets of its compacted form: each sample whose wall-clock date
/// is `today` alone, and on other dates each run of consecutive samples that share their date and
/// three-hour slot (hours 0-2, 3-5, ..., 21-23).
pub fn compaction_buckets(times: &Vec<Instant>, today: Date) -> (r: Vec<Bucket>)
    requires
        forall|k: int| 0 <= k < times@.len() ==> (#[trigger] times@[k]).wf(),
    ensures
        r@ == buckets_from(times@, today.days as int, 0),
{
    let n = times.len();
    let mut r: Vec<Bucket> = Vec::new();
    let mut i: usize = 0;
    while i < n
        invariant
            n == times@.len(),
            i <= n,
            forall|k: int| 0 <= k < times@.len() ==> (#[trigger] times@[k]).wf(),
            r@ + buckets_from(times@, today.days as int, i as int) == buckets_from(
                times@,
                today.days as int,
                0,
            ),
        decreases n - i,
    {
        let t = times[i];
        let date = t.local_date();
        if date.days == today.days {
            proof {
                assert(buckets_from(times@, today.days as int, i as int) == seq![
                    Bucket { start: i, end: (i + 1) as usize },
                ] + buckets_from(times@, today.days as int, i + 1));
            }
            r.push(Bucket { start: i, end: i + 1 });
            proof {
                assert(r@ + buckets_from(times@, today.days as int, i + 1) =~= r@.drop_last() + (
                seq![Bucket { start: i, end: (i + 1) as usize }] + buckets_from(
                    times@,
                    today.days as int,
                    i + 1,
                )));
            }
            i = i + 1;
        } else {
            let slot = t.hour() / 3;
            let mut j: usize = i + 1;
            while j < n
                invariant
                    n == times@.len(),
                    i < j <= n,
                    forall|k: int| 0 <= k < times@.len() ==> (#[trigger] times@[k]).wf(),
                    slot == slot_of(times@[i as int]).1,
                    date.days == slot_of(times@[i as int]).0,
                    run_end(times@, i as int, i + 1) == run_end(times@, i as int, j as int),
                ensures
                    i < j <= n,
                    run_end(times@, i as int, i + 1) == run_end(times@, i as int, j as int),
                    j == n || slot_of(times@[j as int]) != slot_of(times@[i as int]),
                decreases n - j,
            {
                let next = times[j];
                if next.local_date().days != date.days || next.hour() / 3 != slot {
                    break;
                }
                j = j + 1;
            }
            proof {
                lemma_run_end_bounds(times@, i as int, j as int);
                assert(run_end(times@, i as int, j as int) == j);
                assert(buckets_from(times@, today.days as int, i as int) == seq![
                    Bucket { start: i, end: j },
                ] + buckets_from(times@, today.days as int, j as int));
            }
            r.push(Bucket { start: i, end: j });
            proof {
                assert(r@ + buckets_from(times@, today.days as int, j as int) =~= r@.drop_last() + (
                seq![Bucket { start: i, end: j }] + buckets_from(times@, today.days as int, j as int)));
            }
            i = j;
        }
    }
    proof {
        assert(r@ + buckets_from(times@, today.days as int, i as int) =~= r@);
    }
    r
}

/// Buckets `bs` cover the samples `[from, to)` in order, each at least one sample.
pub open spec fn tiles(bs: Seq<Bucket>, from: int, to: int) -> bool {
    &&& bs.len() == 0 ==> from == to
    &&& bs.len() > 0 ==> bs[0].start == from && bs.last().end == to
    &&& forall|k: int| 0 <= k < bs.len() - 1 ==> #[trigger] bs[k].end == bs[k + 1].start
    &&& forall|k: int| 0 <= k < bs.len() ==> #[trigger] bs[k].start < bs[k].end
}

/// The buckets cover the whole series, in order and without overlap, each taking at least one
/// sample; so the compacted series keeps every sample's contribution exactly once.
pub proof fn lemma_buckets_tile(times: Seq<Instant>, today: int, i: int)
    requires
        0 <= i <= times.len(),
        times.len() <= usize::MAX,
    ensures
        tiles(buckets_from(times, today, i), i, times.len() as int),
    decreases times.len() - i,
{
    if i < times.len() {
        let rest_from = if times[i].local_day() == today {
            i + 1
        } else {
            lemma_run_end_bounds(times, i, i + 1);
            run_end(times, i, i + 1)
        };
        lemma_buckets_tile(times, today, rest_from);
        let rest = buckets_from(times, today, rest_from);
        let bs = buckets_from(times, today, i);
        assert(bs == seq![Bucket { start: i as usize, end: rest_from as usize }] + rest);
        assert forall|k: int| 0 <= k < bs.len() - 1 implies #[trigger] bs[k].end == bs[k + 1].start by {
            if k > 0 {
                assert(bs[k] == rest[k - 1]);
                assert(bs[k + 1] == rest[k]);
            }
        }
        assert forall|k: int| 0 <= k < bs.len() implies #[trigger] bs[k].start < bs[k].end by {
            if k > 0 {
                assert(bs[k] == rest[k - 1]);
            }
        }
    }
}

/// The most severe code among samples `[start, end)`, the earliest among equally severe ones;
/// `None` where none of them has a code.
pub fn most_severe_code(codes: &Vec<Option<WmoCode>>, bucket: Bucket) -> (r: Option<WmoCode>)
    requires
        bucket.start <= bucket.end <= codes@.len(),
    ensures
        r == most_severe(codes@.subrange(bucket.start as int, bucket.end as int)),
{
    let mut best: Option<WmoCode> = None;
    let mut i: usize = bucket.start;
    while i < bucket.end
        invariant
            bucket.start <= i <= bucket.end <= codes@.len(),
            best == most_severe(codes@.subrange(bucket.start as int, i as int)),
        decreases bucket.end - i,
    {
        proof {
            assert(codes@.subrange(bucket.start as int, i + 1).drop_last() =~= codes@.subrange(
                bucket.start as int,
                i as int,
            ));
        }
        match codes[i] {
            None => {},
            Some(c) => {
                best = match best {
                    None => Some(c),
                    Some(b) => if c.severity() > b.severity() {
                        Some(c)
                    } else {
                        Some(b)
                    },
                };
            },
        }
        i = i + 1;
    }
    best
}

/// The values present among samples `[start, end)`, in order: the mean or the sum of a bucket
/// is taken over these, and is absent when there are none.
pub fn present_in<T: Copy>(values: &Vec<Option<T>>, bucket: Bucket) -> (r: Vec<T>)
    requires
        bucket.start <= bucket.end <= values@.len(),
    ensures
        r@ == present(values@.subrange(bucket.start as int, bucket.end as int)),
{
    let mut r: Vec<T> = Vec::new();
    let mut i: usize = bucket.start;
    while i < bucket.end
        invariant
            bucket.start <= i <= bucket.end <= values@.len(),
            r@ == present(values@.subrange(bucket.start as int, i as int)),
        decreases bucket.end - i,
    {
        proof {
            assert(values@.subrange(bucket.start as int, i + 1).drop_last() =~= values@.subrange(
                bucket.start as int,
                i as int,
            ));
        }
        match values[i] {
            None => {},
            Some(v) => {
                r.push(v);
            },
        }
        i = i + 1;
    }
    r
}

/// One code per bucket: the most severe code of its samples.
pub fn compact_codes(codes: &Vec<Option<WmoCode>>, buckets: &Vec<Bucket>) -> (r: Vec<Option<WmoCode>>)
    requires
        forall|k: int|
            0 <= k < buckets@.len() ==> #[trigger] buckets@[k].start <= buckets@[k].end
                <= codes@.len(),
    ensures
        r@.len() == buckets@.len(),
        forall|k: int|
            0 <= k < buckets@.len() ==> #[trigger] r@[k] == most_severe(
                codes@.subrange(buckets@[k].start as int, buckets@[k].end as int),
            ),
{
    let mut r: Vec<Option<WmoCode>> = Vec::new();
    let mut k: usize = 0;
    while k < buckets.len()
        invariant
            k <= buckets@.len(),
            r@.len() == k,
            forall|m: int|
                0 <= m < buckets@.len() ==> #[trigger] buckets@[m].start <= buckets@[m].end
                    <= codes@.len(),
            forall|m: int|
                0 <= m < k ==> #[trigger] r@[m] == most_severe(
                    codes@.subrange(buckets@[m].start as int, buckets@[m].end as int),
                ),
        decreases buckets@.len() - k,
    {
        r.push(most_severe_code(codes, buckets[k]));
        k = k + 1;
    }
    r
}

/// The time axis of the compacted series: each bucket is shown at its first sample's time.
pub fn compact_times(times: &Vec<Instant>, buckets: &Vec<Bucket>) -> (r: Vec<Instant>)
    requires
        forall|k: int|
            0 <= k < buckets@.len() ==> #[trigger] buckets@[k].start < times@.len(),
    ensures
        r@.len() == buckets@.len(),
        forall|k: int| 0 <= k < buckets@.len() ==> #[trigger] r@[k] == times@[buckets@[k].start as int],
{
    let mut r: Vec<Instant> = Vec::new();
    let mut k: usize = 0;
    while k < buckets.len()
        invariant
            k <= buckets@.len(),
            r@.len() == k,
            forall|m: int| 0 <= m < buckets@.len() ==> #[trigger] buckets@[m].start < times@.len(),
            forall|m: int| 0 <= m < k ==> #[trigger] r@[m] == times@[buckets@[m].start as int],
        decreases buckets@.len() - k,
    {
        r.push(times[buckets[k].start]);
        k = k + 1;
    }
    r
}

/// The aggregated code is absent exactly when every sample's code is; otherwise it is one of
/// the samples' codes, none is more severe, and every sample before its first occurrence has
/// a less severe code or none.
pub proof fn lemma_most_severe(codes: Seq<Option<WmoCode>>)
    ensures
        most_severe(codes) is None <==> forall|k: int| 0 <= k < codes.len() ==> #[trigger] codes[k] is None,
        most_severe(codes) matches Some(c) ==> exists|k: int|
            {
                &&& 0 <= k < codes.len()
                &&& #[trigger] codes[k] == Some(c)
                &&& forall|j: int| 0 <= j < k ==> (#[trigger] codes[j] matches Some(d) ==> severity_of(d.0) < severity_of(c.0))
            },
        most_severe(codes) matches Some(c) ==> forall|j: int|
            0 <= j < codes.len() ==> (#[trigger] codes[j] matches Some(d) ==> severity_of(d.0) <= severity_of(c.0)),
    decreases codes.len(),
{
    if codes.len() > 0 {
        let init = codes.drop_last();
        let n = codes.len() - 1;
        lemma_most_severe(init);
        assert forall|j: int| 0 <= j < n implies codes[j] == #[trigger] init[j] by {}
        match most_severe(init) {
            None => {
                if let Some(c) = codes.last() {
                    assert(codes[n] == Some(c));
                    assert forall|j: int| 0 <= j < n implies #[trigger] codes[j] is None by {
                        assert(init[j] is None);
                    }
                } else {
                    assert forall|j: int| 0 <= j < codes.len() implies #[trigger] codes[j] is None by {
                        if j < n {
                            assert(init[j] is None);
                        }
                    }
                }
            },
            Some(b) => {
                let k0 = choose|k: int|
                    {
                        &&& 0 <= k < init.len()
                        &&& #[trigger] init[k] == Some(b)
                        &&& forall|j: int| 0 <= j < k ==> (#[trigger] init[j] matches Some(d) ==> severity_of(d.0) < severity_of(b.0))
                    };
                assert(codes[k0] == Some(b));
                assert forall|j: int| 0 <= j < n implies (#[trigger] codes[j] matches Some(d) ==> severity_of(d.0) <= severity_of(b.0)) by {
                    assert(init[j] == codes[j]);
                }
                assert forall|j: int| 0 <= j < k0 implies (#[trigger] codes[j] matches Some(d) ==> severity_of(d.0) < severity_of(b.0)) by {
                    assert(init[j] == codes[j]);
                }
                if let Some(c) = codes.last() {
                    if severity_of(c.0) > severity_of(b.0) {
                        assert(codes[n] == Some(c));
                        assert forall|j: int| 0 <= j < n implies (#[trigger] codes[j] matches Some(d) ==> severity_of(d.0) < severity_of(c.0)) by {
                            assert(init[j] == codes[j]);
                        }
                    }
                }
            },
        }
    }
}

/// The values of a bucket are absent exactly when every sample's value is absent.
pub proof fn lemma_present_empty<T>(values: Seq<Option<T>>)
    ensures
        present(values).len() == 0 <==> forall|k: int| 0 <= k < values.len() ==> #[trigger] values[k] is None,
    decreases values.len(),
{
    if values.len() > 0 {
        let init = values.drop_last();
        lemma_present_empty(init);
        assert forall|j: int| 0 <= j < values.len() - 1 implies values[j] == #[trigger] init[j] by {}
        if values.last() is None {
            if present(values).len() == 0 {
                assert forall|k: int| 0 <= k < values.len() implies #[trigger] values[k] is None by {
                    if k < values.len() - 1 {
                        assert(init[k] is None);
                    }
                }
            }
        } else {
            assert(values[values.len() - 1] is Some);
        }
    }
}

/// The run that starts at sample `i` takes the following samples of `i`'s slot, and stops at
/// the first sample of another slot.
proof fn lemma_run_end_slots(times: Seq<Instant>, i: int, j: int)
    requires
        0 <= i < j <= times.len(),
        forall|m: int| i < m < j ==> #[trigger] slot_of(times[m]) == slot_of(times[i]),
    ensures
        j <= run_end(times, i, j) <= times.len(),
        forall|m: int|
            i <= m < run_end(times, i, j) ==> #[trigger] slot_of(times[m]) == slot_of(times[i]),
        run_end(times, i, j) < times.len() ==> slot_of(times[run_end(times, i, j)]) != slot_of(
            times[i],
        ),
    decreases times.len() - j,
{
    if j < times.len() && slot_of(times[j]) == slot_of(times[i]) {
        lemma_run_end_slots(times, i, j + 1);
    }
}

/// The rule that each bucket from sample `i` on follows.
proof fn lemma_bucket_rule_from(times: Seq<Instant>, today: int, i: int, k: int)
    requires
        0 <= i <= times.len() <= usize::MAX,
        0 <= k < buckets_from(times, today, i).len(),
    ensures
        ({
            let b = buckets_from(times, today, i)[k];
            &&& times[b.start as int].local_day() == today ==> b.end == b.start + 1
            &&& times[b.start as int].local_day() != today ==> {
                &&& forall|m: int|
                    b.start <= m < b.end ==> #[trigger] slot_of(times[m]) == slot_of(
                        times[b.start as int],
                    )
                &&& b.end < times.len() ==> slot_of(times[b.end as int]) != slot_of(
                    times[b.start as int],
                )
            }
        }),
    decreases times.len() - i,
{
    let next = if times[i].local_day() == today {
        i + 1
    } else {
        lemma_run_end_slots(times, i, i + 1);
        run_end(times, i, i + 1)
    };
    if k > 0 {
        lemma_bucket_rule_from(times, today, next, k - 1);
    }
}

/// Each bucket follows the compaction rule: a sample dated `today` stands alone; any other
/// starts a bucket of the consecutive samples of its date and three-hour slot, and the sample
/// after the bucket, if any, lies in another date or slot.
pub proof fn lemma_bucket_rule(times: Seq<Instant>, today: int, k: int)
    requires
        times.len() <= usize::MAX,
        0 <= k < buckets_from(times, today, 0).len(),
    ensures
        ({
            let b = buckets_from(times, today, 0)[k];
            &&& times[b.start as int].local_day() == today ==> b.end == b.start + 1
            &&& times[b.start as int].local_day() != today ==> {
                &&& forall|m: int|
                    b.start <= m < b.end ==> #[trigger] slot_of(times[m]) == slot_of(
                        times[b.start as int],
                    )
                &&& b.end < times.len() ==> slot_of(times[b.end as int]) != slot_of(
                    times[b.start as int],
                )
            }
        }),
{
    lemma_bucket_rule_from(times, today, 0, k);
}

/// The time axis of a compacted series: each bucket's first sample.
pub open spec fn representatives(times: Seq<Instant>, bs: Seq<Bucket>) -> Seq<Instant> {
    Seq::new(bs.len(), |k: int| times[bs[k].start as int])
}

/// `n - k` buckets of one sample each, from sample `k` on.
pub open spec fn singletons_from(k: int, n: int) -> Seq<Bucket> {
    Seq::new((n - k) as nat, |j: int| Bucket { start: (k + j) as usize, end: (k + j + 1) as usize })
}

proof fn lemma_settles_from(times: Seq<Instant>, today: int, k: int)
    requires
        times.len() <= usize::MAX,
        0 <= k <= buckets_from(times, today, 0).len(),
    ensures
        buckets_from(
            representatives(times, buckets_from(times, today, 0)),
            today,
            k,
        ) =~= singletons_from(k, buckets_from(times, today, 0).len() as int),
    decreases buckets_from(times, today, 0).len() - k,
{
    let bs = buckets_from(times, today, 0);
    let reps = representatives(times, bs);
    let m = bs.len() as int;
    lemma_buckets_tile(times, today, 0);
    if k < m {
        lemma_settles_from(times, today, k + 1);
        lemma_bucket_rule(times, today, k);
        if reps[k].local_day() != today {
            if k + 1 < m {
                assert(bs[k].end == bs[k + 1].start);
                assert(reps[k + 1] == times[bs[k].end as int]);
                assert(bs[k].end < times.len()) by {
                    assert(bs[k + 1].start < bs[k + 1].end);
                    assert(bs[k + 1].end <= times.len()) by {
                        lemma_tile_ends_within(bs, 0, times.len() as int, k + 1);
                    }
                }
                assert(slot_of(reps[k + 1]) != slot_of(reps[k]));
            }
            assert(run_end(reps, k, k + 1) == k + 1);
        }
        assert(m <= usize::MAX) by {
            lemma_tile_count(bs, 0, times.len() as int);
        }
        assert(buckets_from(reps, today, k) =~= seq![Bucket { start: k as usize, end: (k + 1) as usize }]
            + buckets_from(reps, today, k + 1));
    }
}

/// Tiling buckets end within the samples they tile.
proof fn lemma_tile_ends_within(bs: Seq<Bucket>, from: int, to: int, k: int)
    requires
        tiles(bs, from, to),
        0 <= k < bs.len(),
    ensures
        bs[k].end <= to,
    decreases bs.len() - k,
{
    if k < bs.len() - 1 {
        lemma_tile_ends_within(bs, from, to, k + 1);
        assert(bs[k].end == bs[k + 1].start);
    }
}

/// There are no more tiling buckets than samples.
proof fn lemma_tile_count(bs: Seq<Bucket>, from: int, to: int)
    requires
        tiles(bs, from, to),
    ensures
        bs.len() <= to - from,
{
    if bs.len() > 0 {
        assert forall|k: int| 0 <= k < bs.len() implies bs[k].start >= from + k by {
            lemma_tile_start_grows(bs, from, to, k);
        }
        lemma_tile_ends_within(bs, from, to, bs.len() - 1);
        assert(bs[bs.len() - 1].start >= from + bs.len() - 1);
    }
}

proof fn lemma_tile_start_grows(bs: Seq<Bucket>, from: int, to: int, k: int)
    requires
        tiles(bs, from, to),
        0 <= k < bs.len(),
    ensures
        bs[k].start >= from + k,
    decreases k,
{
    if k > 0 {
        lemma_tile_start_grows(bs, from, to, k - 1);
        assert(bs[k - 1].end == bs[k].start);
    }
}

/// Compacting twice with the same `today` changes nothing more: on the time axis of a
/// compacted series every bucket is a single point.
pub proof fn lemma_compaction_settles(times: Seq<Instant>, today: int)
    requires
        times.len() <= usize::MAX,
    ensures
        buckets_from(representatives(times, buckets_from(times, today, 0)), today, 0)
            == singletons_from(0, buckets_from(times, today, 0).len() as int),
{
    lemma_settles_from(times, today, 0);
}

} // verus!
