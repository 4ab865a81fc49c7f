//! What follows from the definitions of the model and is used by the proofs
//! of the executable code.

use vstd::prelude::*;
use crate::model::{
    column_sum,
    count_at,
    entries_nonempty,
    first_occurrences,
    histogram,
    hit,
    hit_any,
    hit_listed,
    hit_status,
    is_plain,
    observation_count,
    occurrences,
    plain,
    plain_order,
    plainly_observed,
    run_sightings,
    sightings,
    status_total,
    Histogram,
};
use crate::report::Observation;
use crate::status::TestStatus;
use crate::tally::{
    lemma_tally_agree,
    lemma_tally_le,
    lemma_tally_none,
    lemma_tally_positive,
    lemma_tally_split,
    run_tally,
    tally,
};

verus! {

/// A table that holds the right count for every test and status, and no
/// empty or zero entry, is the histogram.
pub proof fn lemma_histogram_from_counts(h: Histogram, runs: Seq<Seq<Observation>>, gated: bool)
    requires
        forall|n: Seq<char>, s: TestStatus| #[trigger]
            count_at(h, n, s) == occurrences(runs, gated, n, s),
        entries_nonempty(h),
        forall|n: Seq<char>, s: TestStatus|
            h.contains_key(n) && h[n].contains_key(s) ==> 0 < #[trigger] h[n][s],
    ensures
        h == histogram(runs, gated),
{
    let g = histogram(runs, gated);
    assert forall|n: Seq<char>| h.contains_key(n) <==> g.contains_key(n) by {
        if h.contains_key(n) {
            if forall|s: TestStatus| !h[n].contains_key(s) {
                assert(h[n] =~= Map::<TestStatus, nat>::empty());
            }
            let s = choose|s: TestStatus| h[n].contains_key(s);
            assert(count_at(h, n, s) == occurrences(runs, gated, n, s));
        }
        if g.contains_key(n) {
            let s = choose|s: TestStatus| occurrences(runs, gated, n, s) > 0;
            assert(count_at(h, n, s) == occurrences(runs, gated, n, s));
        }
    }
    assert forall|n: Seq<char>| h.contains_key(n) implies h[n] == g[n] by {
        assert forall|s: TestStatus| h[n].contains_key(s) <==> g[n].contains_key(s) by {
            assert(count_at(h, n, s) == occurrences(runs, gated, n, s));
        }
        assert forall|s: TestStatus| h[n].contains_key(s) implies h[n][s] == g[n][s] by {
            assert(count_at(h, n, s) == occurrences(runs, gated, n, s));
        }
    }
}

/// The histogram holds the number of occurrences for every test and status,
/// and none of its tests has an empty count table.
pub proof fn lemma_histogram_counts(runs: Seq<Seq<Observation>>, gated: bool)
    ensures
        forall|n: Seq<char>, s: TestStatus| #[trigger]
            count_at(histogram(runs, gated), n, s) == occurrences(runs, gated, n, s),
        entries_nonempty(histogram(runs, gated)),
{
    let g = histogram(runs, gated);
    assert forall|n: Seq<char>| g.contains_key(n) implies #[trigger] g[n] != Map::<
        TestStatus,
        nat,
    >::empty() by {
        let s = choose|s: TestStatus| occurrences(runs, gated, n, s) > 0;
        assert(g[n].contains_key(s));
    }
}

/// Summing one more test of a column.
pub proof fn lemma_column_sum_step(h: Histogram, names: Seq<Seq<char>>, k: int, status: TestStatus)
    requires
        0 <= k < names.len(),
    ensures
        column_sum(h, names.take(k + 1), status) == column_sum(h, names.take(k), status)
            + count_at(h, names[k], status),
{
    assert(names.take(k + 1).drop_last() =~= names.take(k));
}

/// A part of a column sums to no more than the column.
pub proof fn lemma_column_sum_prefix(
    h: Histogram,
    names: Seq<Seq<char>>,
    k: int,
    status: TestStatus,
)
    requires
        0 <= k <= names.len(),
    ensures
        column_sum(h, names.take(k), status) <= column_sum(h, names, status),
    decreases names.len() - k,
{
    if k < names.len() {
        lemma_column_sum_step(h, names, k, status);
        lemma_column_sum_prefix(h, names, k + 1, status);
    } else {
        assert(names.take(k) =~= names);
    }
}

/// Summing a column of the histogram over a list of distinct tests counts
/// the observations of the listed tests.
pub proof fn lemma_column_sum_is_tally(
    runs: Seq<Seq<Observation>>,
    gated: bool,
    names: Seq<Seq<char>>,
    status: TestStatus,
)
    requires
        names.no_duplicates(),
    ensures
        column_sum(histogram(runs, gated), names, status) == tally(
            runs,
            hit_listed(gated, names, status),
        ),
    decreases names.len(),
{
    let listed = hit_listed(gated, names, status);
    if names.len() == 0 {
        assert forall|r: int, i: int|
            0 <= r < runs.len() && 0 <= i < runs[r].len() implies !listed(
            #[trigger] runs[r][i],
        ) by {}
        lemma_tally_none(runs, listed);
    } else {
        let rest = names.drop_last();
        let n = names.last();
        lemma_column_sum_is_tally(runs, gated, rest, status);
        lemma_histogram_counts(runs, gated);
        let earlier = hit_listed(gated, rest, status);
        let new = hit(gated, n, status);
        assert forall|x: Seq<char>| names.contains(x) <==> rest.contains(x) || x == n by {
            if names.contains(x) {
                let i = choose|i: int| 0 <= i < names.len() && names[i] == x;
                if i < rest.len() {
                    assert(rest[i] == x);
                }
            }
        }
        assert forall|o: Observation| !(#[trigger] earlier(o) && new(o)) by {}
        lemma_tally_split(runs, earlier, new, listed);
    }
}

/// Collapsing the histogram over its tests gives the totals per status:
/// summing a column over any list that holds every test of the histogram
/// once counts the observations with that status.
pub proof fn lemma_column_sum_is_status_total(
    runs: Seq<Seq<Observation>>,
    gated: bool,
    names: Seq<Seq<char>>,
    status: TestStatus,
)
    requires
        names.no_duplicates(),
        forall|n: Seq<char>| histogram(runs, gated).contains_key(n) ==> names.contains(n),
    ensures
        column_sum(histogram(runs, gated), names, status) == status_total(runs, gated, status),
{
    lemma_column_sum_is_tally(runs, gated, names, status);
    let listed = hit_listed(gated, names, status);
    let all = hit_status(gated, status);
    assert forall|r: int, i: int| 0 <= r < runs.len() && 0 <= i < runs[r].len() implies listed(
        #[trigger] runs[r][i],
    ) == all(runs[r][i]) by {
        let o = runs[r][i];
        if all(o) {
            let p = hit(gated, o.name, status);
            lemma_tally_positive(runs, p, r, i);
            assert(occurrences(runs, gated, o.name, status) > 0);
        }
    }
    lemma_tally_agree(runs, listed, all);
}

/// No test is counted more often with a status than the status is counted,
/// and no status more often than there are observations.
pub proof fn lemma_counts_bounded(runs: Seq<Seq<Observation>>, gated: bool)
    ensures
        forall|n: Seq<char>, s: TestStatus| #[trigger]
            occurrences(runs, gated, n, s) <= status_total(runs, gated, s),
        forall|s: TestStatus| #[trigger]
            status_total(runs, gated, s) <= observation_count(runs),
{
    assert forall|n: Seq<char>, s: TestStatus| #[trigger]
        occurrences(runs, gated, n, s) <= status_total(runs, gated, s) by {
        lemma_tally_le(runs, hit(gated, n, s), hit_status(gated, s));
    }
    assert forall|s: TestStatus| #[trigger]
        status_total(runs, gated, s) <= observation_count(runs) by {
        lemma_tally_le(runs, hit_status(gated, s), hit_any());
    }
}

/// Every observation of a run is counted by `hit_any`.
pub proof fn lemma_run_tally_any(run: Seq<Observation>)
    ensures
        run_tally(run, hit_any()) == run.len(),
    decreases run.len(),
{
    if run.len() > 0 {
        lemma_run_tally_any(run.drop_last());
    }
}

/// The sightings of a run with one more observation.
pub proof fn lemma_run_sightings_step(
    run: Seq<Observation>,
    j: int,
    pred: spec_fn(Observation) -> bool,
)
    requires
        0 <= j < run.len(),
    ensures
        run_sightings(run.take(j + 1), pred) == if pred(run[j]) {
            run_sightings(run.take(j), pred).push(run[j].name)
        } else {
            run_sightings(run.take(j), pred)
        },
{
    assert(run.take(j + 1).drop_last() =~= run.take(j));
}

/// The sightings of the runs with one more run.
pub proof fn lemma_sightings_step(
    runs: Seq<Seq<Observation>>,
    i: int,
    pred: spec_fn(Observation) -> bool,
)
    requires
        0 <= i < runs.len(),
    ensures
        sightings(runs.take(i + 1), pred) == sightings(runs.take(i), pred) + run_sightings(
            runs[i],
            pred,
        ),
{
    assert(runs.take(i + 1).drop_last() =~= runs.take(i));
}

/// The first occurrences of a list with one more name: the name is added
/// where it is new.
pub proof fn lemma_first_occurrences_push(names: Seq<Seq<char>>, name: Seq<char>)
    ensures
        first_occurrences(names.push(name)) == if first_occurrences(names).contains(name) {
            first_occurrences(names)
        } else {
            first_occurrences(names).push(name)
        },
{
    assert(names.push(name).drop_last() =~= names);
}

/// The first occurrences of a list hold the names of the list, each once.
pub proof fn lemma_first_occurrences(names: Seq<Seq<char>>)
    ensures
        first_occurrences(names).no_duplicates(),
        forall|n: Seq<char>| first_occurrences(names).contains(n) <==> names.contains(n),
    decreases names.len(),
{
    if names.len() > 0 {
        let rest = names.drop_last();
        let last = names.last();
        let earlier = first_occurrences(rest);
        lemma_first_occurrences(rest);
        assert(rest.push(last) =~= names);
        assert forall|n: Seq<char>| first_occurrences(names).contains(n) <==> names.contains(
            n,
        ) by {
            lemma_contains_push(rest, last, n);
            lemma_contains_push(earlier, last, n);
        }
    }
}

/// A list with one more name holds what the list holds, and that name.
pub proof fn lemma_contains_push(names: Seq<Seq<char>>, last: Seq<char>, n: Seq<char>)
    ensures
        names.push(last).contains(n) <==> names.contains(n) || n == last,
{
    let longer = names.push(last);
    if names.contains(n) {
        let i = choose|i: int| 0 <= i < names.len() && names[i] == n;
        assert(longer[i] == n);
    }
    if n == last {
        assert(longer[names.len() as int] == n);
    }
}

/// A list made of two holds what either of them holds.
pub proof fn lemma_contains_add(a: Seq<Seq<char>>, b: Seq<Seq<char>>, n: Seq<char>)
    ensures
        (a + b).contains(n) <==> a.contains(n) || b.contains(n),
{
    let both = a + b;
    if a.contains(n) {
        let i = choose|i: int| 0 <= i < a.len() && a[i] == n;
        assert(both[i] == n);
    }
    if b.contains(n) {
        let i = choose|i: int| 0 <= i < b.len() && b[i] == n;
        assert(both[a.len() + i] == n);
    }
}

/// The sightings of a run hold the names of the observations that satisfy
/// the property.
pub proof fn lemma_run_sightings_contains(
    run: Seq<Observation>,
    pred: spec_fn(Observation) -> bool,
    n: Seq<char>,
)
    ensures
        run_sightings(run, pred).contains(n) <==> exists|i: int|
            0 <= i < run.len() && pred(#[trigger] run[i]) && run[i].name == n,
    decreases run.len(),
{
    if run.len() > 0 {
        let rest = run.drop_last();
        let last = run.last();
        lemma_run_sightings_contains(rest, pred, n);
        lemma_contains_push(run_sightings(rest, pred), last.name, n);
        if exists|i: int| 0 <= i < rest.len() && pred(#[trigger] rest[i]) && rest[i].name == n {
            let i = choose|i: int| 0 <= i < rest.len() && pred(#[trigger] rest[i]) && rest[i].name
                == n;
            assert(pred(run[i]) && run[i].name == n);
        }
        if pred(last) && last.name == n {
            assert(pred(run[run.len() - 1]) && run[run.len() - 1].name == n);
        }
        if exists|i: int| 0 <= i < run.len() && pred(#[trigger] run[i]) && run[i].name == n {
            let i = choose|i: int| 0 <= i < run.len() && pred(#[trigger] run[i]) && run[i].name
                == n;
            if i < rest.len() {
                assert(pred(rest[i]) && rest[i].name == n);
            }
        }
    }
}

/// The sightings of the runs hold the names of the observations that satisfy
/// the property.
pub proof fn lemma_sightings_contains(
    runs: Seq<Seq<Observation>>,
    pred: spec_fn(Observation) -> bool,
    n: Seq<char>,
)
    ensures
        sightings(runs, pred).contains(n) <==> exists|r: int, i: int|
            0 <= r < runs.len() && 0 <= i < runs[r].len() && pred(#[trigger] runs[r][i])
                && runs[r][i].name == n,
    decreases runs.len(),
{
    if runs.len() > 0 {
        let rest = runs.drop_last();
        let last = runs.last();
        let top = runs.len() - 1;
        lemma_sightings_contains(rest, pred, n);
        lemma_run_sightings_contains(last, pred, n);
        lemma_contains_add(sightings(rest, pred), run_sightings(last, pred), n);
        if sightings(rest, pred).contains(n) {
            let (r, i) = choose|r: int, i: int|
                0 <= r < rest.len() && 0 <= i < rest[r].len() && pred(#[trigger] rest[r][i])
                    && rest[r][i].name == n;
            assert(pred(runs[r][i]) && runs[r][i].name == n);
        }
        if run_sightings(last, pred).contains(n) {
            let i = choose|i: int| 0 <= i < last.len() && pred(#[trigger] last[i]) && last[i].name
                == n;
            assert(pred(runs[top][i]) && runs[top][i].name == n);
        }
        if exists|r: int, i: int|
            0 <= r < runs.len() && 0 <= i < runs[r].len() && pred(#[trigger] runs[r][i])
                && runs[r][i].name == n {
            let (r, i) = choose|r: int, i: int|
                0 <= r < runs.len() && 0 <= i < runs[r].len() && pred(#[trigger] runs[r][i])
                    && runs[r][i].name == n;
            if r < top {
                assert(pred(rest[r][i]) && rest[r][i].name == n);
            } else {
                assert(pred(last[i]) && last[i].name == n);
            }
        }
    }
}

/// The order of the plainly observed tests lists each of them once.
pub proof fn lemma_plain_order(runs: Seq<Seq<Observation>>, status: TestStatus)
    ensures
        plain_order(runs, status).no_duplicates(),
        plain_order(runs, status).to_set() == plainly_observed(runs, status),
{
    let seen = sightings(runs, plain(status));
    lemma_first_occurrences(seen);
    assert forall|n: Seq<char>|
        plain_order(runs, status).contains(n) <==> plainly_observed(runs, status).contains(
            n,
        ) by {
        lemma_sightings_contains(runs, plain(status), n);
        if seen.contains(n) {
            let (r, i) = choose|r: int, i: int|
                0 <= r < runs.len() && 0 <= i < runs[r].len() && plain(status)(
                    #[trigger] runs[r][i],
                ) && runs[r][i].name == n;
            assert(is_plain(runs[r][i], n, status));
        }
        if plainly_observed(runs, status).contains(n) {
            let (r, i) = choose|r: int, i: int|
                0 <= r < runs.len() && 0 <= i < runs[r].len() && is_plain(
                    #[trigger] runs[r][i],
                    n,
                    status,
                );
            assert(plain(status)(runs[r][i]) && runs[r][i].name == n);
        }
    }
    assert(plain_order(runs, status).to_set() =~= plainly_observed(runs, status));
}

} // verus!
