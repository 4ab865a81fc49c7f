//! Counting the observations that have a given property.

use vstd::prelude::*;
use crate::report::Observation;

verus! {

/// The number of observations of one run that satisfy `pred`.
pub open spec fn run_tally(run: Seq<Observation>, pred: spec_fn(Observation) -> bool) -> nat
    decreases run.len(),
{
    if run.len() == 0 {
        0
    } else {
        run_tally(run.drop_last(), pred) + if pred(run.last()) {
            1nat
        } else {
            0nat
        }
    }
}

/// The number of observations of all runs that satisfy `pred`.
pub open spec fn tally(runs: Seq<Seq<Observation>>, pred: spec_fn(Observation) -> bool) -> nat
    decreases runs.len(),
{
    if runs.len() == 0 {
        0
    } else {
        tally(runs.drop_last(), pred) + run_tally(runs.last(), pred)
    }
}

/// Counting one more observation of a run.
pub proof fn lemma_run_tally_step(
    run: Seq<Observation>,
    j: int,
    pred: spec_fn(Observation) -> bool,
)
    requires
        0 <= j < run.len(),
    ensures
        run_tally(run.take(j + 1), pred) == run_tally(run.take(j), pred) + if pred(run[j]) {
            1nat
        } else {
            0nat
        },
{
    assert(run.take(j + 1).drop_last() =~= run.take(j));
}

/// Counting one more run.
pub proof fn lemma_tally_step(
    runs: Seq<Seq<Observation>>,
    i: int,
    pred: spec_fn(Observation) -> bool,
)
    requires
        0 <= i < runs.len(),
    ensures
        tally(runs.take(i + 1), pred) == tally(runs.take(i), pred) + run_tally(runs[i], pred),
{
    assert(runs.take(i + 1).drop_last() =~= runs.take(i));
}

/// A part of a run holds no more hits than the run.
pub proof fn lemma_run_tally_prefix(
    run: Seq<Observation>,
    j: int,
    pred: spec_fn(Observation) -> bool,
)
    requires
        0 <= j <= run.len(),
    ensures
        run_tally(run.take(j), pred) <= run_tally(run, pred),
    decreases run.len() - j,
{
    if j < run.len() {
        lemma_run_tally_step(run, j, pred);
        lemma_run_tally_prefix(run, j + 1, pred);
    } else {
        assert(run.take(j) =~= run);
    }
}

/// Some of the runs hold no more hits than all of them.
pub proof fn lemma_tally_prefix(
    runs: Seq<Seq<Observation>>,
    i: int,
    pred: spec_fn(Observation) -> bool,
)
    requires
        0 <= i <= runs.len(),
    ensures
        tally(runs.take(i), pred) <= tally(runs, pred),
        i < runs.len() ==> tally(runs.take(i), pred) + run_tally(runs[i], pred) <= tally(
            runs,
            pred,
        ),
    decreases runs.len() - i,
{
    if i < runs.len() {
        lemma_tally_step(runs, i, pred);
        lemma_tally_prefix(runs, i + 1, pred);
    } else {
        assert(runs.take(i) =~= runs);
    }
}

/// Where one property implies another on the observations of a run, the
/// first is counted no more often than the second.
pub proof fn lemma_run_tally_le(
    run: Seq<Observation>,
    p: spec_fn(Observation) -> bool,
    q: spec_fn(Observation) -> bool,
)
    requires
        forall|i: int| 0 <= i < run.len() && p(#[trigger] run[i]) ==> q(run[i]),
    ensures
        run_tally(run, p) <= run_tally(run, q),
    decreases run.len(),
{
    if run.len() > 0 {
        lemma_run_tally_le(run.drop_last(), p, q);
    }
}

/// Where one property implies another on the observations of the runs, the
/// first is counted no more often than the second.
pub proof fn lemma_tally_le(
    runs: Seq<Seq<Observation>>,
    p: spec_fn(Observation) -> bool,
    q: spec_fn(Observation) -> bool,
)
    requires
        forall|r: int, i: int|
            0 <= r < runs.len() && 0 <= i < runs[r].len() && p(#[trigger] runs[r][i]) ==> q(
                runs[r][i],
            ),
    ensures
        tally(runs, p) <= tally(runs, q),
    decreases runs.len(),
{
    if runs.len() > 0 {
        lemma_tally_le(runs.drop_last(), p, q);
        lemma_run_tally_le(runs.last(), p, q);
    }
}

/// Properties that agree on the observations of the runs are counted
/// equally often.
pub proof fn lemma_tally_agree(
    runs: Seq<Seq<Observation>>,
    p: spec_fn(Observation) -> bool,
    q: spec_fn(Observation) -> bool,
)
    requires
        forall|r: int, i: int|
            0 <= r < runs.len() && 0 <= i < runs[r].len() ==> p(#[trigger] runs[r][i]) == q(
                runs[r][i],
            ),
    ensures
        tally(runs, p) == tally(runs, q),
{
    lemma_tally_le(runs, p, q);
    lemma_tally_le(runs, q, p);
}

/// The count of a property that is one of two others, which exclude each
/// other, is the sum of their counts, in one run.
pub proof fn lemma_run_tally_split(
    run: Seq<Observation>,
    p: spec_fn(Observation) -> bool,
    q: spec_fn(Observation) -> bool,
    either: spec_fn(Observation) -> bool,
)
    requires
        forall|o: Observation| #[trigger] either(o) == (p(o) || q(o)),
        forall|o: Observation| !(#[trigger] p(o) && q(o)),
    ensures
        run_tally(run, either) == run_tally(run, p) + run_tally(run, q),
    decreases run.len(),
{
    if run.len() > 0 {
        lemma_run_tally_split(run.drop_last(), p, q, either);
    }
}

/// The count of a property that is one of two others, which exclude each
/// other, is the sum of their counts.
pub proof fn lemma_tally_split(
    runs: Seq<Seq<Observation>>,
    p: spec_fn(Observation) -> bool,
    q: spec_fn(Observation) -> bool,
    either: spec_fn(Observation) -> bool,
)
    requires
        forall|o: Observation| #[trigger] either(o) == (p(o) || q(o)),
        forall|o: Observation| !(#[trigger] p(o) && q(o)),
    ensures
        tally(runs, either) == tally(runs, p) + tally(runs, q),
    decreases runs.len(),
{
    if runs.len() > 0 {
        lemma_tally_split(runs.drop_last(), p, q, either);
        lemma_run_tally_split(runs.last(), p, q, either);
    }
}

/// A property that no observation of the runs has is counted zero times.
pub proof fn lemma_tally_none(runs: Seq<Seq<Observation>>, p: spec_fn(Observation) -> bool)
    requires
        forall|r: int, i: int|
            0 <= r < runs.len() && 0 <= i < runs[r].len() ==> !p(#[trigger] runs[r][i]),
    ensures
        tally(runs, p) == 0,
    decreases runs.len(),
{
    if runs.len() > 0 {
        lemma_tally_none(runs.drop_last(), p);
        lemma_run_tally_none(runs.last(), p);
    }
}

/// A property that no observation of the run has is counted zero times.
pub proof fn lemma_run_tally_none(run: Seq<Observation>, p: spec_fn(Observation) -> bool)
    requires
        forall|i: int| 0 <= i < run.len() ==> !p(#[trigger] run[i]),
    ensures
        run_tally(run, p) == 0,
    decreases run.len(),
{
    if run.len() > 0 {
        lemma_run_tally_none(run.drop_last(), p);
    }
}

/// A property that some observation of the run has is counted.
pub proof fn lemma_run_tally_positive(
    run: Seq<Observation>,
    p: spec_fn(Observation) -> bool,
    i: int,
)
    requires
        0 <= i < run.len(),
        p(run[i]),
    ensures
        run_tally(run, p) > 0,
    decreases run.len(),
{
    if i < run.len() - 1 {
        lemma_run_tally_positive(run.drop_last(), p, i);
    }
}

/// A property that some observation of the runs has is counted.
pub proof fn lemma_tally_positive(
    runs: Seq<Seq<Observation>>,
    p: spec_fn(Observation) -> bool,
    r: int,
    i: int,
)
    requires
        0 <= r < runs.len(),
        0 <= i < runs[r].len(),
        p(runs[r][i]),
    ensures
        tally(runs, p) > 0,
    decreases runs.len(),
{
    if r < runs.len() - 1 {
        lemma_tally_positive(runs.drop_last(), p, r, i);
    } else {
        lemma_run_tally_positive(runs.last(), p, i);
    }
}

/// A property that is counted holds of some observation of the run.
pub proof fn lemma_run_tally_witness(
    run: Seq<Observation>,
    p: spec_fn(Observation) -> bool,
) -> (i: int)
    requires
        run_tally(run, p) > 0,
    ensures
        0 <= i < run.len(),
        p(run[i]),
    decreases run.len(),
{
    if p(run.last()) {
        run.len() - 1
    } else {
        lemma_run_tally_witness(run.drop_last(), p)
    }
}

/// A property that is counted holds of some observation of the runs.
pub proof fn lemma_tally_witness(
    runs: Seq<Seq<Observation>>,
    p: spec_fn(Observation) -> bool,
) -> (w: (int, int))
    requires
        tally(runs, p) > 0,
    ensures
        0 <= w.0 < runs.len(),
        0 <= w.1 < runs[w.0].len(),
        p(runs[w.0][w.1]),
    decreases runs.len(),
{
    if run_tally(runs.last(), p) > 0 {
        (runs.len() - 1, lemma_run_tally_witness(runs.last(), p))
    } else {
        lemma_tally_witness(runs.drop_last(), p)
    }
}

/// Taking one run out takes its hits out of the count.
pub proof fn lemma_tally_remove(
    runs: Seq<Seq<Observation>>,
    k: int,
    pred: spec_fn(Observation) -> bool,
)
    requires
        0 <= k < runs.len(),
    ensures
        tally(runs, pred) == tally(runs.remove(k), pred) + run_tally(runs[k], pred),
    decreases runs.len(),
{
    if k < runs.len() - 1 {
        lemma_tally_remove(runs.drop_last(), k, pred);
        assert(runs.remove(k).drop_last() =~= runs.drop_last().remove(k));
    }
}

/// A run of a collection is a run of the same collection in another order.
pub proof fn lemma_run_of_both(
    a: Seq<Seq<Observation>>,
    b: Seq<Seq<Observation>>,
    run: Seq<Observation>,
)
    requires
        a.to_multiset() == b.to_multiset(),
        a.contains(run),
    ensures
        b.contains(run),
{
    a.to_multiset_ensures();
    b.to_multiset_ensures();
    assert(a.to_multiset().count(run) > 0);
}

/// The same runs in another order hold the same number of hits.
pub proof fn lemma_tally_ignores_order(
    a: Seq<Seq<Observation>>,
    b: Seq<Seq<Observation>>,
    pred: spec_fn(Observation) -> bool,
)
    requires
        a.to_multiset() == b.to_multiset(),
    ensures
        tally(a, pred) == tally(b, pred),
    decreases a.len(),
{
    a.to_multiset_ensures();
    b.to_multiset_ensures();
    if a.len() > 0 {
        let rest = a.drop_last();
        let last = a.last();
        lemma_run_of_both(a, b, last);
        let k = choose|k: int| 0 <= k < b.len() && b[k] == last;
        rest.to_multiset_ensures();
        assert(rest.push(last) =~= a);
        assert(rest.to_multiset() =~= a.to_multiset().remove(last));
        lemma_tally_ignores_order(rest, b.remove(k), pred);
        lemma_tally_remove(b, k, pred);
    }
}

} // verus!
