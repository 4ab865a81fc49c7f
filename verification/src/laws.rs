//! Laws of the analysis. Each is stated over the model that the contracts
//! of the executable functions speak of, and holds of every collection of
//! runs that meets its `requires`.

use vstd::prelude::*;
use crate::counts::{count_sum, lemma_status_keys};
use crate::histogram::StatusHistogram;
use crate::lemmas::{lemma_first_occurrences, lemma_sightings_contains};
use crate::model::{
    entries_nonempty,
    histogram,
    histogram_order,
    hit,
    hit_name,
    hit_status,
    intermittent_entries,
    intermittent_names,
    is_plain,
    lists,
    names_unique,
    occurrences,
    plainly_observed,
    runs_listing,
    sightings,
    stable_with_status,
    status_counts,
    status_total,
    status_totals,
    table_at,
    takes_part,
    total_histogram,
    Histogram,
};
use crate::report::Observation;
use crate::status::TestStatus;
use crate::validate::consistent;
use crate::tally::{
    lemma_tally_agree,
    lemma_run_of_both,
    lemma_tally_ignores_order,
    lemma_tally_none,
    lemma_tally_positive,
    lemma_tally_split,
    lemma_tally_witness,
    run_tally,
    tally,
};

verus! {

/// No histogram holds a test with an empty count table: each test of it was
/// observed with some status.
pub proof fn lemma_histogram_entries_nonempty(runs: Seq<Seq<Observation>>, gated: bool)
    ensures
        entries_nonempty(histogram(runs, gated)),
        forall|n: Seq<char>| #[trigger]
            histogram(runs, gated).contains_key(n) ==> exists|s: TestStatus|
                histogram(runs, gated)[n].contains_key(s),
{
    assert forall|n: Seq<char>| #[trigger]
        histogram(runs, gated).contains_key(n) implies exists|s: TestStatus|
        histogram(runs, gated)[n].contains_key(s) by {
        let s = choose|s: TestStatus| occurrences(runs, gated, n, s) > 0;
        assert(histogram(runs, gated)[n].contains_key(s));
    }
}

/// Observations of `name` with one of the first `k` statuses.
spec fn hit_name_below(name: Seq<char>, k: int) -> spec_fn(Observation) -> bool {
    |o: Observation| o.name == name && o.status.ordinal() < k
}

proof fn lemma_name_tally_step(runs: Seq<Seq<Observation>>, name: Seq<char>, s: TestStatus)
    ensures
        tally(runs, hit_name_below(name, s.ordinal() + 1)) == tally(
            runs,
            hit_name_below(name, s.ordinal()),
        ) + occurrences(runs, false, name, s),
{
    let k = s.ordinal();
    let below = hit_name_below(name, k);
    let new = hit(false, name, s);
    let either = hit_name_below(name, k + 1);
    assert forall|o: Observation| !(#[trigger] below(o) && new(o)) by {}
    lemma_tally_split(runs, below, new, either);
}

/// In the total histogram the counts of a test add up to the number of
/// times the test was observed.
pub proof fn lemma_count_sum_is_observations(runs: Seq<Seq<Observation>>, name: Seq<char>)
    ensures
        count_sum(table_at(total_histogram(runs), name)) == tally(runs, hit_name(name)),
{
    lemma_name_tally_step(runs, name, TestStatus::Pass);
    lemma_name_tally_step(runs, name, TestStatus::Fail);
    lemma_name_tally_step(runs, name, TestStatus::Skip);
    lemma_name_tally_step(runs, name, TestStatus::Error);
    lemma_name_tally_step(runs, name, TestStatus::Okay);
    lemma_name_tally_step(runs, name, TestStatus::Timeout);
    lemma_name_tally_step(runs, name, TestStatus::Crash);
    lemma_name_tally_step(runs, name, TestStatus::NotRun);
    lemma_name_tally_step(runs, name, TestStatus::PreconditionFailed);
    let none = hit_name_below(name, 0);
    lemma_tally_none(runs, none);
    let all = hit_name_below(name, 9);
    let named = hit_name(name);
    lemma_tally_agree(runs, all, named);
}

proof fn lemma_run_lists_once(run: Seq<Observation>, name: Seq<char>)
    requires
        names_unique(run),
    ensures
        run_tally(run, hit_name(name)) == if lists(run, name) {
            1nat
        } else {
            0nat
        },
    decreases run.len(),
{
    if run.len() > 0 {
        let rest = run.drop_last();
        let last = run.len() - 1;
        lemma_run_lists_once(rest, name);
        if run[last].name != name && lists(run, name) {
            let i = choose|i: int| 0 <= i < run.len() && (#[trigger] run[i]).name == name;
            assert(rest[i].name == name);
        }
    }
}

proof fn lemma_observations_are_runs_listing(runs: Seq<Seq<Observation>>, name: Seq<char>)
    requires
        forall|r: int| 0 <= r < runs.len() ==> names_unique(#[trigger] runs[r]),
    ensures
        tally(runs, hit_name(name)) == runs_listing(runs, name),
    decreases runs.len(),
{
    if runs.len() > 0 {
        let rest = runs.drop_last();
        lemma_observations_are_runs_listing(rest, name);
        lemma_run_lists_once(runs.last(), name);
    }
}

/// Where no run lists a test name twice, the counts of a test in the total
/// histogram add up to the number of runs that list the test: each run
/// contributes one observation per test that it lists.
pub proof fn lemma_count_sum_is_runs_listing(runs: Seq<Seq<Observation>>, name: Seq<char>)
    requires
        forall|r: int| 0 <= r < runs.len() ==> names_unique(#[trigger] runs[r]),
    ensures
        count_sum(table_at(total_histogram(runs), name)) == runs_listing(runs, name),
{
    lemma_count_sum_is_observations(runs, name);
    lemma_observations_are_runs_listing(runs, name);
}

/// Building a histogram twice from the same reports gives equal histograms:
/// what a build returns is fixed by the observations, so two results hold
/// the same tests, in the same order, each with the same count table.
pub proof fn lemma_build_is_repeatable(
    first: StatusHistogram,
    second: StatusHistogram,
    runs: Seq<Seq<Observation>>,
    gated: bool,
)
    requires
        first@ == histogram(runs, gated) && first.listed() == histogram_order(runs, gated),
        second@ == histogram(runs, gated) && second.listed() == histogram_order(runs, gated),
    ensures
        first@ == second@,
        first.listed() == second.listed(),
        forall|n: Seq<char>| first@.contains_key(n) <==> second@.contains_key(n),
        forall|n: Seq<char>| first@.contains_key(n) ==> #[trigger] first@[n] == second@[n],
{
}

/// The order of a histogram lists each of its tests once.
pub proof fn lemma_histogram_order(runs: Seq<Seq<Observation>>, gated: bool)
    ensures
        histogram_order(runs, gated).no_duplicates(),
        histogram_order(runs, gated).to_set() == histogram(runs, gated).dom(),
{
    let part = takes_part(gated);
    let seen = sightings(runs, part);
    lemma_first_occurrences(seen);
    assert forall|n: Seq<char>|
        histogram_order(runs, gated).contains(n) <==> histogram(runs, gated).contains_key(
            n,
        ) by {
        lemma_sightings_contains(runs, part, n);
        if seen.contains(n) {
            let (r, i) = choose|r: int, i: int|
                0 <= r < runs.len() && 0 <= i < runs[r].len() && part(#[trigger] runs[r][i])
                    && runs[r][i].name == n;
            let p = hit(gated, n, runs[r][i].status);
            assert(p(runs[r][i]));
            lemma_tally_positive(runs, p, r, i);
            assert(occurrences(runs, gated, n, runs[r][i].status) > 0);
        }
        if histogram(runs, gated).contains_key(n) {
            let s = choose|s: TestStatus| occurrences(runs, gated, n, s) > 0;
            let w = lemma_tally_witness(runs, hit(gated, n, s));
            assert(part(runs[w.0][w.1]) && runs[w.0][w.1].name == n);
        }
    }
    assert(histogram_order(runs, gated).to_set() =~= histogram(runs, gated).dom());
}

/// A test is among the intermittent entries of a histogram exactly when its
/// count table holds two statuses that differ.
pub proof fn lemma_intermittent_iff_two_statuses(h: Histogram, name: Seq<char>)
    ensures
        intermittent_entries(h).contains_key(name) <==> h.contains_key(name) && exists|
            a: TestStatus,
            b: TestStatus,
        |
            a != b && h[name].contains_key(a) && h[name].contains_key(b),
        intermittent_entries(h).contains_key(name) ==> intermittent_entries(h)[name] == h[name],
{
    if h.contains_key(name) {
        lemma_status_keys(h[name]);
    }
}

/// A test that was never observed with another status than `status` is not
/// intermittent, however often it was observed.
pub proof fn lemma_single_status_is_stable(
    runs: Seq<Seq<Observation>>,
    name: Seq<char>,
    status: TestStatus,
)
    requires
        forall|r: int, i: int|
            0 <= r < runs.len() && 0 <= i < runs[r].len() && (#[trigger] runs[r][i]).name == name
                ==> runs[r][i].status == status,
    ensures
        !intermittent_names(runs).contains(name),
{
    let h = total_histogram(runs);
    if h.contains_key(name) {
        assert forall|s: TestStatus| s != status implies !h[name].contains_key(s) by {
            let p = hit(false, name, s);
            assert forall|r: int, i: int|
                0 <= r < runs.len() && 0 <= i < runs[r].len() implies !p(
                #[trigger] runs[r][i],
            ) by {}
            lemma_tally_none(runs, p);
        }
        lemma_status_keys(h[name]);
    }
}

/// A test that was observed with two statuses that differ is intermittent.
pub proof fn lemma_varying_status_is_intermittent(
    runs: Seq<Seq<Observation>>,
    name: Seq<char>,
    r1: int,
    i1: int,
    r2: int,
    i2: int,
)
    requires
        0 <= r1 < runs.len() && 0 <= i1 < runs[r1].len(),
        0 <= r2 < runs.len() && 0 <= i2 < runs[r2].len(),
        runs[r1][i1].name == name,
        runs[r2][i2].name == name,
        runs[r1][i1].status != runs[r2][i2].status,
    ensures
        intermittent_names(runs).contains(name),
{
    let h = total_histogram(runs);
    let a = runs[r1][i1].status;
    let b = runs[r2][i2].status;
    let pa = hit(false, name, a);
    let pb = hit(false, name, b);
    lemma_tally_positive(runs, pa, r1, i1);
    lemma_tally_positive(runs, pb, r2, i2);
    assert(occurrences(runs, false, name, a) > 0);
    assert(h[name].contains_key(a) && h[name].contains_key(b));
    lemma_status_keys(h[name]);
}

/// An intermittent test is never among the tests that reliably show a
/// status, also where it was plainly observed with that status.
pub proof fn lemma_intermittent_tests_are_left_out(
    runs: Seq<Seq<Observation>>,
    status: TestStatus,
    name: Seq<char>,
)
    requires
        intermittent_names(runs).contains(name),
    ensures
        !stable_with_status(runs, status).contains(name),
{
}

/// A test that reliably shows `status` was plainly observed with it, and
/// never observed with any other status.
pub proof fn lemma_stable_tests_show_one_status(
    runs: Seq<Seq<Observation>>,
    status: TestStatus,
    name: Seq<char>,
)
    requires
        stable_with_status(runs, status).contains(name),
    ensures
        plainly_observed(runs, status).contains(name),
        forall|r: int, i: int|
            0 <= r < runs.len() && 0 <= i < runs[r].len() && (#[trigger] runs[r][i]).name == name
                ==> runs[r][i].status == status,
{
    let (a, b) = choose|a: int, b: int|
        0 <= a < runs.len() && 0 <= b < runs[a].len() && is_plain(
            #[trigger] runs[a][b],
            name,
            status,
        );
    assert forall|r: int, i: int|
        0 <= r < runs.len() && 0 <= i < runs[r].len() && (#[trigger] runs[r][i]).name
            == name implies runs[r][i].status == status by {
        if runs[r][i].status != status {
            lemma_varying_status_is_intermittent(runs, name, a, b, r, i);
        }
    }
}

/// Without any run there is nothing to report: the runs are consistent, the
/// histograms and the totals are empty, and no test is intermittent or shows
/// a status reliably.
pub proof fn lemma_no_runs_no_results(runs: Seq<Seq<Observation>>, gated: bool, status: TestStatus)
    requires
        runs.len() == 0,
    ensures
        consistent(runs),
        histogram(runs, gated) == Map::<Seq<char>, Map<TestStatus, nat>>::empty(),
        intermittent_entries(total_histogram(runs)) == Map::<
            Seq<char>,
            Map<TestStatus, nat>,
        >::empty(),
        status_totals(runs, gated) == Map::<TestStatus, nat>::empty(),
        stable_with_status(runs, status) == Set::<Seq<char>>::empty(),
{
}

/// The answers do not depend on the order in which the reports were loaded:
/// the same runs in another order have the same histograms and totals, the
/// same intermittent tests and the same tests that reliably show a status,
/// and are consistent or not alike.
pub proof fn lemma_order_of_runs_is_irrelevant(
    a: Seq<Seq<Observation>>,
    b: Seq<Seq<Observation>>,
    gated: bool,
    status: TestStatus,
)
    requires
        a.to_multiset() == b.to_multiset(),
    ensures
        histogram(a, gated) == histogram(b, gated),
        status_totals(a, gated) == status_totals(b, gated),
        intermittent_names(a) == intermittent_names(b),
        stable_with_status(a, status) == stable_with_status(b, status),
        consistent(a) <==> consistent(b),
{
    a.to_multiset_ensures();
    b.to_multiset_ensures();
    assert forall|g: bool, n: Seq<char>, s: TestStatus|
        occurrences(a, g, n, s) == occurrences(b, g, n, s) by {
        lemma_tally_ignores_order(a, b, hit(g, n, s));
    }
    assert forall|g: bool, n: Seq<char>|
        status_counts(a, g, n) == status_counts(b, g, n) by {}
    assert forall|s: TestStatus|
        status_total(a, gated, s) == status_total(b, gated, s) by {
        lemma_tally_ignores_order(a, b, hit_status(gated, s));
    }
    lemma_same_runs_same_plain_tests(a, b, status);
    lemma_same_runs_same_plain_tests(b, a, status);
    lemma_same_runs_same_lengths(a, b);
    lemma_same_runs_same_lengths(b, a);
}

proof fn lemma_same_runs_same_plain_tests(
    a: Seq<Seq<Observation>>,
    b: Seq<Seq<Observation>>,
    status: TestStatus,
)
    requires
        a.to_multiset() == b.to_multiset(),
    ensures
        forall|n: Seq<char>|
            plainly_observed(a, status).contains(n) ==> plainly_observed(b, status).contains(n),
{
    a.to_multiset_ensures();
    b.to_multiset_ensures();
    assert forall|n: Seq<char>| plainly_observed(a, status).contains(n) implies plainly_observed(
        b,
        status,
    ).contains(n) by {
        let (r, i) = choose|r: int, i: int|
            0 <= r < a.len() && 0 <= i < a[r].len() && is_plain(#[trigger] a[r][i], n, status);
        lemma_run_of_both(a, b, a[r]);
    }
}

proof fn lemma_same_runs_same_lengths(a: Seq<Seq<Observation>>, b: Seq<Seq<Observation>>)
    requires
        a.to_multiset() == b.to_multiset(),
    ensures
        consistent(a) ==> consistent(b),
{
    a.to_multiset_ensures();
    b.to_multiset_ensures();
    if consistent(a) {
        assert forall|i: int| 0 <= i < b.len() implies (#[trigger] b[i]).len() == b[0].len() by {
            lemma_run_of_both(b, a, b[i]);
            lemma_run_of_both(b, a, b[0]);
        }
    }
}

} // verus!
