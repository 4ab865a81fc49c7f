//! Folding reports into histograms.

use vstd::prelude::*;
use crate::histogram::StatusHistogram;
use crate::lemmas::{
    lemma_first_occurrences_push,
    lemma_histogram_from_counts,
    lemma_run_sightings_step,
    lemma_sightings_step,
};
use crate::model::{
    count_at,
    counts_fit,
    entries_nonempty,
    first_occurrences,
    histogram,
    histogram_order,
    hit,
    occurrences,
    run_sightings,
    sightings,
    takes_part,
    total_histogram,
    unexpected_histogram,
};
use crate::tally::{
    lemma_run_tally_prefix,
    lemma_run_tally_step,
    lemma_tally_prefix,
    lemma_tally_step,
    run_tally,
};
use crate::report::{runs_of, WptLog};
use crate::status::TestStatus;

verus! {

/// Builds the histogram of the reports. With `gated`, only the results for
/// which an expected status was recorded are counted; the status counted is
/// the observed one either way.
pub fn build_histogram(reports: &Vec<WptLog>, gated: bool) -> (h: StatusHistogram)
    requires
        counts_fit(runs_of(reports@), gated),
    ensures
        h.wf(),
        h@ == histogram(runs_of(reports@), gated),
        h.listed() == histogram_order(runs_of(reports@), gated),
        entries_nonempty(h@),
{
    let ghost runs = runs_of(reports@);
    let ghost part = takes_part(gated);
    let mut h = StatusHistogram::new();
    let mut i: usize = 0;
    while i < reports.len()
        invariant
            i <= reports.len(),
            runs == runs_of(reports@),
            part == takes_part(gated),
            counts_fit(runs, gated),
            h.wf(),
            entries_nonempty(h@),
            forall|n: Seq<char>, s: TestStatus| #[trigger]
                count_at(h@, n, s) == occurrences(runs.take(i as int), gated, n, s),
            h.listed() == first_occurrences(sightings(runs.take(i as int), part)),
        decreases reports.len() - i,
    {
        let report = &reports[i];
        let ghost run = runs[i as int];
        let ghost seen = sightings(runs.take(i as int), part);
        let mut j: usize = 0;
        while j < report.results.len()
            invariant
                i < reports.len(),
                j <= report.results.len(),
                runs == runs_of(reports@),
                *report == reports@[i as int],
                run == report@,
                run == runs[i as int],
                counts_fit(runs, gated),
                part == takes_part(gated),
                seen == sightings(runs.take(i as int), part),
                h.wf(),
                entries_nonempty(h@),
                forall|n: Seq<char>, s: TestStatus| #[trigger]
                    count_at(h@, n, s) == occurrences(runs.take(i as int), gated, n, s)
                        + run_tally(run.take(j as int), hit(gated, n, s)),
                h.listed() == first_occurrences(seen + run_sightings(run.take(j as int), part)),
            decreases report.results.len() - j,
        {
            let test = &report.results[j];
            let ghost o = run[j as int];
            let ghost before = h@;
            proof {
                let so_far = seen + run_sightings(run.take(j as int), part);
                lemma_run_sightings_step(run, j as int, part);
                h.lemma_wf();
                if part(o) {
                    lemma_first_occurrences_push(so_far, o.name);
                }
            }
            if !gated || test.expected.is_some() {
                proof {
                    let p = hit(gated, o.name, o.status);
                    lemma_run_tally_step(run, j as int, p);
                    lemma_run_tally_prefix(run, j + 1, p);
                    lemma_tally_prefix(runs, i as int, p);
                    assert(occurrences(runs, gated, o.name, o.status) <= u32::MAX);
                }
                h.record(test.test_name.as_str(), test.status);
            }
            proof {
                assert forall|n: Seq<char>, s: TestStatus| #[trigger]
                    count_at(h@, n, s) == occurrences(runs.take(i as int), gated, n, s)
                        + run_tally(run.take(j + 1), hit(gated, n, s)) by {
                    lemma_run_tally_step(run, j as int, hit(gated, n, s));
                    assert(count_at(before, n, s) == occurrences(
                        runs.take(i as int),
                        gated,
                        n,
                        s,
                    ) + run_tally(run.take(j as int), hit(gated, n, s)));
                }
            }
            j = j + 1;
        }
        proof {
            assert(run.take(j as int) =~= run);
            assert forall|n: Seq<char>, s: TestStatus| #[trigger]
                count_at(h@, n, s) == occurrences(runs.take(i + 1), gated, n, s) by {
                lemma_tally_step(runs, i as int, hit(gated, n, s));
            }
            lemma_sightings_step(runs, i as int, part);
        }
        i = i + 1;
    }
    proof {
        assert(runs.take(i as int) =~= runs);
        h.lemma_wf();
        lemma_histogram_from_counts(h@, runs, gated);
    }
    h
}

/// The total-status histogram: every result of every report is counted
/// under its test name and observed status.
pub fn status_per_tests(reports: &Vec<WptLog>) -> (h: StatusHistogram)
    requires
        counts_fit(runs_of(reports@), false),
    ensures
        h.wf(),
        h@ == total_histogram(runs_of(reports@)),
        h.listed() == histogram_order(runs_of(reports@), false),
        entries_nonempty(h@),
{
    build_histogram(reports, false)
}

/// The unexpected-status histogram: as the total one, but a result is
/// counted only where an expected status was recorded with it.
pub fn unexpected_status_per_tests(reports: &Vec<WptLog>) -> (h: StatusHistogram)
    requires
        counts_fit(runs_of(reports@), true),
    ensures
        h.wf(),
        h@ == unexpected_histogram(runs_of(reports@)),
        h.listed() == histogram_order(runs_of(reports@), true),
        entries_nonempty(h@),
{
    build_histogram(reports, true)
}

} // verus!
