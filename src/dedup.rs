//! Blanking repeated values in a column.
use vstd::prelude::*;
use itertools::Itertools;

verus! {

/// The texts of a sequence of strings.
pub open spec fn texts(v: Seq<String>) -> Seq<Seq<char>> {
    v.map_values(|s: String| s@)
}

/// The texts of a sequence of runs of strings.
pub open spec fn run_texts(r: Seq<Vec<String>>) -> Seq<Seq<Seq<char>>> {
    r.map_values(|g: Vec<String>| texts(g@))
}

/// Runs laid end to end.
pub open spec fn joined(runs: Seq<Seq<Seq<char>>>) -> Seq<Seq<char>>
    decreases runs.len(),
{
    if runs.len() == 0 {
        Seq::empty()
    } else {
        joined(runs.drop_last()) + runs.last()
    }
}

/// `runs` are the maximal runs of equal consecutive items of `items`.
pub open spec fn are_runs_of(runs: Seq<Seq<Seq<char>>>, items: Seq<Seq<char>>) -> bool {
    &&& joined(runs) == items
    &&& forall|k: int| 0 <= k < runs.len() ==> #[trigger] runs[k].len() > 0
    &&& forall|k: int, i: int|
        0 <= k < runs.len() && 0 <= i < runs[k].len() ==> #[trigger] runs[k][i] == runs[k][0]
    &&& forall|k: int| 0 <= k < runs.len() - 1 ==> #[trigger] runs[k][0] != runs[k + 1][0]
}

/// Each item, or the empty string where it repeats the item just before it.
pub open spec fn blank_repeats(items: Seq<Seq<char>>) -> Seq<Seq<char>>
    decreases items.len(),
{
    if items.len() == 0 {
        Seq::empty()
    } else {
        let n = items.len() - 1;
        blank_repeats(items.drop_last()).push(
            if n > 0 && items[n] == items[n - 1] {
                Seq::empty()
            } else {
                items[n]
            },
        )
    }
}

/// Relies on itertools' `Itertools::chunk_by`, keyed by the items themselves: consecutive equal
/// items share a group, so the groups are the maximal runs of equal items, in order.
#[verifier::external_body]
fn runs_of(items: Vec<String>) -> (r: Vec<Vec<String>>)
    ensures
        are_runs_of(run_texts(r@), texts(items@)),
{
    let chunks = items.into_iter().chunk_by(|item| item.clone());
    let runs = (&chunks).into_iter().map(|(_, run)| run.collect()).collect();
    runs
}

/// Replaces each value that repeats the one just before it with an empty string, e.g.
/// `["foo", "foo", "foo", "bar", "bar", "baz"]` becomes `["foo", "", "", "bar", "", "baz"]`.
pub fn dedup(items: Vec<String>) -> (r: Vec<String>)
    ensures
        texts(r@) == blank_repeats(texts(items@)),
{
    let ghost all = texts(items@);
    let runs = runs_of(items);
    let ghost rs = run_texts(runs@);
    let mut out: Vec<String> = Vec::new();
    let mut k: usize = 0;
    while k < runs.len()
        invariant
            k <= runs@.len(),
            rs == run_texts(runs@),
            are_runs_of(rs, all),
            texts(out@) == blank_repeats(joined(rs.subrange(0, k as int))),
        decreases runs@.len() - k,
    {
        let run = &runs[k];
        let ghost prefix = joined(rs.subrange(0, k as int));
        assert(rs[k as int] == texts(run@));
        let mut i: usize = 0;
        while i < run.len()
            invariant
                k < runs@.len(),
                rs == run_texts(runs@),
                are_runs_of(rs, all),
                *run == runs@[k as int],
                rs[k as int] == texts(run@),
                prefix == joined(rs.subrange(0, k as int)),
                i <= run@.len(),
                texts(out@) == blank_repeats(prefix + rs[k as int].subrange(0, i as int)),
            decreases run@.len() - i,
        {
            let ghost before = prefix + rs[k as int].subrange(0, i as int);
            let ghost after = prefix + rs[k as int].subrange(0, i + 1);
            proof {
                assert(after.drop_last() =~= before);
                assert(after.last() == rs[k as int][i as int]);
                if i > 0 {
                    assert(after[after.len() - 2] == rs[k as int][i - 1]);
                    assert(rs[k as int][i as int] == rs[k as int][0]);
                    assert(rs[k as int][i - 1] == rs[k as int][0]);
                } else if k > 0 {
                    lemma_joined_last(rs.subrange(0, k as int));
                    assert(rs.subrange(0, k as int).last() == rs[k - 1]);
                    assert(rs[k - 1][rs[k - 1].len() - 1] == rs[k - 1][0]);
                    assert(rs[k - 1][0] != rs[k as int][0]);
                } else {
                    assert(rs.subrange(0, 0) =~= Seq::<Seq<Seq<char>>>::empty());
                }
            }
            if i == 0 {
                out.push(run[0].clone());
            } else {
                out.push(String::new());
            }
            proof {
                assert(texts(out@) =~= texts(out@.drop_last()).push(out@.last()@));
                assert(texts(out@) =~= blank_repeats(after));
            }
            i = i + 1;
        }
        proof {
            assert(rs[k as int].subrange(0, i as int) =~= rs[k as int]);
            assert(rs.subrange(0, k + 1).drop_last() =~= rs.subrange(0, k as int));
        }
        k = k + 1;
    }
    proof {
        assert(rs.subrange(0, k as int) =~= rs);
    }
    out
}

/// The last item of runs laid end to end is the last item of the last non-empty run.
proof fn lemma_joined_last(runs: Seq<Seq<Seq<char>>>)
    requires
        runs.len() > 0,
        runs.last().len() > 0,
    ensures
        joined(runs).len() > 0,
        joined(runs).last() == runs.last().last(),
{
}

} // verus!
