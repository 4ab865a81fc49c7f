//! The mathematical model of the analysis: the histograms, totals and name
//! sets that the counts of observations define.

use vstd::prelude::*;
use crate::counts::count_in;
use crate::report::Observation;
use crate::status::TestStatus;
use crate::tally::tally;

verus! {

/// A histogram: for each test that was counted at least once, its table of
/// status counts.
pub type Histogram = Map<Seq<char>, Map<TestStatus, nat>>;

/// Whether an observation takes part in a histogram. The gated histogram
/// takes only those for which an expected status was recorded; which status
/// that is plays no role.
pub open spec fn counted(o: Observation, gated: bool) -> bool {
    gated ==> o.expected is Some
}

/// Observations that take part in the histogram.
pub open spec fn takes_part(gated: bool) -> spec_fn(Observation) -> bool {
    |o: Observation| counted(o, gated)
}

/// Observations of `name` with the observed status `status` that take part.
pub open spec fn hit(gated: bool, name: Seq<char>, status: TestStatus) -> spec_fn(
    Observation,
) -> bool {
    |o: Observation| counted(o, gated) && o.name == name && o.status == status
}

/// Observations with the observed status `status` that take part.
pub open spec fn hit_status(gated: bool, status: TestStatus) -> spec_fn(Observation) -> bool {
    |o: Observation| counted(o, gated) && o.status == status
}

/// Observations of `name`.
pub open spec fn hit_name(name: Seq<char>) -> spec_fn(Observation) -> bool {
    |o: Observation| o.name == name
}

/// Observations that take part, with the observed status `status` and a
/// name of the list.
pub open spec fn hit_listed(gated: bool, names: Seq<Seq<char>>, status: TestStatus) -> spec_fn(
    Observation,
) -> bool {
    |o: Observation| counted(o, gated) && o.status == status && names.contains(o.name)
}

/// Any observation.
pub open spec fn hit_any() -> spec_fn(Observation) -> bool {
    |o: Observation| true
}

/// Observations with `status` and without an expected status.
pub open spec fn plain(status: TestStatus) -> spec_fn(Observation) -> bool {
    |o: Observation| o.status == status && o.expected is None
}

/// An observation of `name` with `status` and without an expected status.
pub open spec fn is_plain(o: Observation, name: Seq<char>, status: TestStatus) -> bool {
    o.name == name && o.status == status && o.expected is None
}

/// How often `name` was observed with `status`.
pub open spec fn occurrences(
    runs: Seq<Seq<Observation>>,
    gated: bool,
    name: Seq<char>,
    status: TestStatus,
) -> nat {
    tally(runs, hit(gated, name, status))
}

/// How often `status` was observed, whatever the test.
pub open spec fn status_total(runs: Seq<Seq<Observation>>, gated: bool, status: TestStatus) -> nat {
    tally(runs, hit_status(gated, status))
}

/// The number of observations of all runs.
pub open spec fn observation_count(runs: Seq<Seq<Observation>>) -> nat {
    tally(runs, hit_any())
}

/// No count of the histogram of these runs exceeds what a counter holds.
pub open spec fn counts_fit(runs: Seq<Seq<Observation>>, gated: bool) -> bool {
    forall|n: Seq<char>, s: TestStatus| #[trigger] occurrences(runs, gated, n, s) <= u32::MAX
}

/// No total per status of these runs exceeds what a counter holds.
pub open spec fn totals_fit(runs: Seq<Seq<Observation>>, gated: bool) -> bool {
    forall|s: TestStatus| #[trigger] status_total(runs, gated, s) <= u32::MAX
}

/// The count table of one test: the statuses it was observed with, each with
/// the number of times.
pub open spec fn status_counts(runs: Seq<Seq<Observation>>, gated: bool, name: Seq<char>) -> Map<
    TestStatus,
    nat,
> {
    Map::new(
        |s: TestStatus| occurrences(runs, gated, name, s) > 0,
        |s: TestStatus| occurrences(runs, gated, name, s),
    )
}

/// The histogram of a collection of runs. A test is a key exactly when it
/// was counted at least once.
pub open spec fn histogram(runs: Seq<Seq<Observation>>, gated: bool) -> Histogram {
    Map::new(
        |n: Seq<char>| exists|s: TestStatus| occurrences(runs, gated, n, s) > 0,
        |n: Seq<char>| status_counts(runs, gated, n),
    )
}

/// Every observation counts.
pub open spec fn total_histogram(runs: Seq<Seq<Observation>>) -> Histogram {
    histogram(runs, false)
}

/// Only observations with a recorded expected status count.
pub open spec fn unexpected_histogram(runs: Seq<Seq<Observation>>) -> Histogram {
    histogram(runs, true)
}

/// The count of `status` for `name` in a histogram; zero where either is
/// absent.
pub open spec fn count_at(h: Histogram, name: Seq<char>, status: TestStatus) -> nat {
    if h.contains_key(name) {
        count_in(h[name], status)
    } else {
        0
    }
}

/// The count table of `name` in a histogram; the empty table where the name
/// is no key.
pub open spec fn table_at(h: Histogram, name: Seq<char>) -> Map<TestStatus, nat> {
    if h.contains_key(name) {
        h[name]
    } else {
        Map::empty()
    }
}

/// No test of the histogram has an empty count table.
pub open spec fn entries_nonempty(h: Histogram) -> bool {
    forall|n: Seq<char>| h.contains_key(n) ==> #[trigger] h[n] != Map::<TestStatus, nat>::empty()
}

/// `name` is the first of the listed tests whose count table in the
/// histogram is empty.
pub open spec fn first_empty(h: Histogram, names: Seq<Seq<char>>, name: Seq<char>) -> bool {
    exists|k: int|
        0 <= k < names.len() && #[trigger] names[k] == name && h[name] == Map::<
            TestStatus,
            nat,
        >::empty() && forall|j: int|
            0 <= j < k ==> h[#[trigger] names[j]] != Map::<TestStatus, nat>::empty()
}

/// A test is intermittent when it was observed with more than one status.
pub open spec fn is_intermittent(table: Map<TestStatus, nat>) -> bool {
    table.dom().len() > 1
}

/// The part of a histogram that holds the intermittent tests.
pub open spec fn intermittent_entries(h: Histogram) -> Histogram {
    Map::new(|n: Seq<char>| h.contains_key(n) && is_intermittent(h[n]), |n: Seq<char>| h[n])
}

/// The names that are intermittent tests of a histogram.
pub open spec fn intermittent_in(h: Histogram) -> spec_fn(Seq<char>) -> bool {
    |n: Seq<char>| h.contains_key(n) && is_intermittent(h[n])
}

/// The names of the tests whose status varies over the runs.
pub open spec fn intermittent_names(runs: Seq<Seq<Observation>>) -> Set<Seq<char>> {
    intermittent_entries(total_histogram(runs)).dom()
}

/// The tests that some run observed with `status` while no expected status
/// was recorded for that observation.
pub open spec fn plainly_observed(runs: Seq<Seq<Observation>>, status: TestStatus) -> Set<
    Seq<char>,
> {
    Set::new(
        |n: Seq<char>|
            exists|r: int, i: int|
                0 <= r < runs.len() && 0 <= i < runs[r].len() && is_plain(
                    #[trigger] runs[r][i],
                    n,
                    status,
                ),
    )
}

/// The names that are no test of a histogram.
pub open spec fn not_test_of(h: Histogram) -> spec_fn(Seq<char>) -> bool {
    |n: Seq<char>| !h.contains_key(n)
}

/// The tests that reliably show `status`: observed with it, plainly, and not
/// intermittent.
pub open spec fn stable_with_status(runs: Seq<Seq<Observation>>, status: TestStatus) -> Set<
    Seq<char>,
> {
    plainly_observed(runs, status).difference(intermittent_names(runs))
}

/// The totals per status of a collection of runs: each status that was
/// counted at all, with the number of times.
pub open spec fn status_totals(runs: Seq<Seq<Observation>>, gated: bool) -> Map<TestStatus, nat> {
    Map::new(
        |s: TestStatus| status_total(runs, gated, s) > 0,
        |s: TestStatus| status_total(runs, gated, s),
    )
}

/// The sum, over the listed tests, of the count of `status` in a histogram.
pub open spec fn column_sum(h: Histogram, names: Seq<Seq<char>>, status: TestStatus) -> nat
    decreases names.len(),
{
    if names.len() == 0 {
        0
    } else {
        column_sum(h, names.drop_last(), status) + count_at(h, names.last(), status)
    }
}

/// The totals per status of a histogram over the listed tests: each status
/// with a positive column sum, and that sum.
pub open spec fn column_totals(h: Histogram, names: Seq<Seq<char>>) -> Map<TestStatus, nat> {
    Map::new(
        |s: TestStatus| column_sum(h, names, s) > 0,
        |s: TestStatus| column_sum(h, names, s),
    )
}

/// The names of the observations of a run that satisfy `pred`, in the order
/// of the run.
pub open spec fn run_sightings(run: Seq<Observation>, pred: spec_fn(Observation) -> bool) -> Seq<
    Seq<char>,
>
    decreases run.len(),
{
    if run.len() == 0 {
        Seq::empty()
    } else {
        let earlier = run_sightings(run.drop_last(), pred);
        if pred(run.last()) {
            earlier.push(run.last().name)
        } else {
            earlier
        }
    }
}

/// The names of the observations that satisfy `pred`, run after run.
pub open spec fn sightings(runs: Seq<Seq<Observation>>, pred: spec_fn(Observation) -> bool) -> Seq<
    Seq<char>,
>
    decreases runs.len(),
{
    if runs.len() == 0 {
        Seq::empty()
    } else {
        sightings(runs.drop_last(), pred) + run_sightings(runs.last(), pred)
    }
}

/// Each name of the list once, at the place where it first occurs.
pub open spec fn first_occurrences(names: Seq<Seq<char>>) -> Seq<Seq<char>>
    decreases names.len(),
{
    if names.len() == 0 {
        Seq::empty()
    } else {
        let earlier = first_occurrences(names.drop_last());
        if earlier.contains(names.last()) {
            earlier
        } else {
            earlier.push(names.last())
        }
    }
}

/// The tests of the histogram of these runs in the order in which they are
/// first counted.
pub open spec fn histogram_order(runs: Seq<Seq<Observation>>, gated: bool) -> Seq<Seq<char>> {
    first_occurrences(sightings(runs, takes_part(gated)))
}

/// The tests that were plainly observed with `status`, in the order in which
/// they are first so observed.
pub open spec fn plain_order(runs: Seq<Seq<Observation>>, status: TestStatus) -> Seq<Seq<char>> {
    first_occurrences(sightings(runs, plain(status)))
}

/// The intermittent tests in the order of the total histogram.
pub open spec fn intermittent_order(runs: Seq<Seq<Observation>>) -> Seq<Seq<char>> {
    histogram_order(runs, false).filter(intermittent_in(total_histogram(runs)))
}

/// The tests that reliably show `status`, in the order in which they are
/// first plainly observed with it.
pub open spec fn stable_order(runs: Seq<Seq<Observation>>, status: TestStatus) -> Seq<Seq<char>> {
    plain_order(runs, status).filter(not_test_of(intermittent_entries(total_histogram(runs))))
}

/// The run lists a test of this name.
pub open spec fn lists(run: Seq<Observation>, name: Seq<char>) -> bool {
    exists|i: int| 0 <= i < run.len() && (#[trigger] run[i]).name == name
}

/// The number of runs that list a test of this name.
pub open spec fn runs_listing(runs: Seq<Seq<Observation>>, name: Seq<char>) -> nat
    decreases runs.len(),
{
    if runs.len() == 0 {
        0
    } else {
        runs_listing(runs.drop_last(), name) + if lists(runs.last(), name) {
            1nat
        } else {
            0nat
        }
    }
}

/// The run lists no test name twice.
pub open spec fn names_unique(run: Seq<Observation>) -> bool {
    forall|i: int, j: int|
        0 <= i < j < run.len() ==> (#[trigger] run[i]).name != (#[trigger] run[j]).name
}

} // verus!
