//! The questions that can be asked of a collection of reports.

use vstd::prelude::*;
use crate::aggregate::{status_per_tests, unexpected_status_per_tests};
use crate::counts::TestStatusCounts;
use crate::error::AnalysisError;
use crate::histogram::StatusHistogram;
use crate::lemmas::{
    lemma_column_sum_is_status_total,
    lemma_counts_bounded,
    lemma_first_occurrences_push,
    lemma_plain_order,
    lemma_run_sightings_step,
    lemma_run_tally_any,
    lemma_sightings_step,
};
use crate::model::{
    column_sum,
    counts_fit,
    first_occurrences,
    hit_any,
    intermittent_entries,
    intermittent_order,
    observation_count,
    plain,
    plain_order,
    plainly_observed,
    run_sightings,
    sightings,
    stable_order,
    stable_with_status,
    status_total,
    status_totals,
    total_histogram,
    totals_fit,
};
use crate::tally::{lemma_tally_prefix, lemma_tally_step, tally};
use crate::names::TestNameSet;
use crate::report::{runs_of, Observation, WptLog};
use crate::status::TestStatus;
use crate::validate::{check_test_numbers, consistent, names_mismatch};

verus! {

/// True when the reports hold no more results than a counter can count. No
/// count of a histogram or of the totals can then exceed a counter.
pub fn observations_fit(reports: &Vec<WptLog>) -> (b: bool)
    ensures
        b == (observation_count(runs_of(reports@)) <= u32::MAX),
        b ==> counts_fit(runs_of(reports@), false) && counts_fit(runs_of(reports@), true)
            && totals_fit(runs_of(reports@), false) && totals_fit(runs_of(reports@), true),
{
    let ghost runs = runs_of(reports@);
    let mut total: u32 = 0;
    let mut i: usize = 0;
    while i < reports.len()
        invariant
            i <= reports.len(),
            runs == runs_of(reports@),
            total == tally(runs.take(i as int), hit_any()),
        decreases reports.len() - i,
    {
        let n: usize = reports[i].results.len();
        proof {
            lemma_tally_step(runs, i as int, hit_any());
            lemma_run_tally_any(runs[i as int]);
            lemma_tally_prefix(runs, i + 1, hit_any());
        }
        if n > (u32::MAX - total) as usize {
            return false;
        }
        total = total + n as u32;
        i = i + 1;
    }
    proof {
        assert(runs.take(i as int) =~= runs);
        lemma_counts_bounded(runs, false);
        lemma_counts_bounded(runs, true);
    }
    true
}

/// The intermittent tests of the reports, each with its full count table:
/// the tests whose observed status varies over the runs.
pub fn get_intermittents(reports: &Vec<WptLog>) -> (r: Result<StatusHistogram, AnalysisError>)
    requires
        counts_fit(runs_of(reports@), false),
    ensures
        r matches Ok(h) && h.wf() && h@ == intermittent_entries(
            total_histogram(runs_of(reports@)),
        ) && h.listed() == intermittent_order(runs_of(reports@)),
{
    let hm = status_per_tests(reports);
    hm.intermittents()
}

/// How often each status was observed where an expected status was recorded
/// with the result, over all tests and runs. Intermittent tests count like
/// any other.
pub fn count_unexpected_test_statuses(reports: &Vec<WptLog>) -> (r: Result<
    TestStatusCounts,
    AnalysisError,
>)
    requires
        totals_fit(runs_of(reports@), true),
    ensures
        r matches Ok(totals) && totals@ == status_totals(runs_of(reports@), true),
{
    let ghost runs = runs_of(reports@);
    proof {
        lemma_counts_bounded(runs, true);
    }
    let hm = unexpected_status_per_tests(reports);
    proof {
        hm.lemma_wf();
        assert forall|s: TestStatus| #[trigger]
            column_sum(hm@, hm.listed(), s) == status_total(runs, true, s) by {
            lemma_column_sum_is_status_total(runs, true, hm.listed(), s);
        }
    }
    hm.status_totals()
}

/// The tests that some report lists with `status` and without an expected
/// status, in the order in which the reports first list them so.
pub fn plain_tests_with_status(reports: &Vec<WptLog>, status: TestStatus) -> (r: TestNameSet)
    ensures
        r.wf(),
        r@ == plainly_observed(runs_of(reports@), status),
        r.listed() == plain_order(runs_of(reports@), status),
{
    let ghost runs = runs_of(reports@);
    let ghost pred = plain(status);
    let mut out = TestNameSet::new();
    let mut i: usize = 0;
    while i < reports.len()
        invariant
            i <= reports.len(),
            runs == runs_of(reports@),
            pred == plain(status),
            out.wf(),
            out.listed() == first_occurrences(sightings(runs.take(i as int), pred)),
        decreases reports.len() - i,
    {
        let report = &reports[i];
        let ghost run = runs[i as int];
        let ghost seen = sightings(runs.take(i as int), pred);
        let mut j: usize = 0;
        proof {
            assert(seen + run_sightings(run.take(0), pred) =~= seen);
        }
        while j < report.results.len()
            invariant
                i < reports.len(),
                j <= report.results.len(),
                runs == runs_of(reports@),
                *report == reports@[i as int],
                run == report@,
                run == runs[i as int],
                out.wf(),
                pred == plain(status),
                seen == sightings(runs.take(i as int), pred),
                out.listed() == first_occurrences(seen + run_sightings(run.take(j as int), pred)),
            decreases report.results.len() - j,
        {
            let test = &report.results[j];
            proof {
                let so_far = seen + run_sightings(run.take(j as int), pred);
                lemma_run_sightings_step(run, j as int, pred);
                out.lemma_wf();
                if pred(run[j as int]) {
                    assert(seen + run_sightings(run.take(j + 1), pred) =~= so_far.push(
                        run[j as int].name,
                    ));
                    lemma_first_occurrences_push(so_far, run[j as int].name);
                }
            }
            if test.expected.is_none() && test.status == status {
                out.insert(test.test_name.clone());
            }
            j = j + 1;
        }
        proof {
            assert(run.take(j as int) =~= run);
            lemma_sightings_step(runs, i as int, pred);
        }
        i = i + 1;
    }
    proof {
        assert(runs.take(i as int) =~= runs);
        out.lemma_wf();
        lemma_plain_order(runs, status);
    }
    out
}

/// The tests that always show `status`: those that some report lists with
/// `status` and without an expected status, but for the intermittent ones. A
/// test whose status varies is left out even where one of its statuses is
/// `status`.
pub fn get_log_output(reports: &Vec<WptLog>, status: TestStatus) -> (r: Result<
    TestNameSet,
    AnalysisError,
>)
    requires
        counts_fit(runs_of(reports@), false),
    ensures
        r matches Ok(tests) && tests.wf() && tests@ == stable_with_status(
            runs_of(reports@),
            status,
        ) && tests.listed() == stable_order(runs_of(reports@), status),
{
    let wpt_tests = plain_tests_with_status(reports, status);
    match get_intermittents(reports) {
        Ok(intermittents) => Ok(wpt_tests.without_tests_of(&intermittents)),
        Err(e) => Err(e),
    }
}

/// The questions that can be asked of the reports.
#[derive(Debug, Clone, Copy)]
pub enum SubCommands {
    /// How often was each status observed against a recorded expectation?
    CountUnexpectedTestsStatus,
    /// Which tests are intermittent?
    GetIntermittents,
    /// Which tests always show the given status?
    GetLogOutput { status: TestStatus },
}

/// What a question is answered with.
pub enum Answer {
    /// The totals per status of the results with a recorded expectation.
    UnexpectedTotals(TestStatusCounts),
    /// The intermittent tests, each with its count table.
    Intermittents(StatusHistogram),
    /// The tests that always show the status that was asked for.
    TestsWithStatus(TestNameSet),
}

/// The counters suffice for the histogram or the totals that the command
/// builds.
pub open spec fn command_fits(runs: Seq<Seq<Observation>>, command: SubCommands) -> bool {
    match command {
        SubCommands::CountUnexpectedTestsStatus => totals_fit(runs, true),
        SubCommands::GetIntermittents => counts_fit(runs, false),
        SubCommands::GetLogOutput { status } => counts_fit(runs, false),
    }
}

/// The answer is the one that the command asks for.
pub open spec fn answers(
    runs: Seq<Seq<Observation>>,
    command: SubCommands,
    answer: Answer,
) -> bool {
    match command {
        SubCommands::CountUnexpectedTestsStatus => answer matches Answer::UnexpectedTotals(totals)
            && totals@ == status_totals(runs, true),
        SubCommands::GetIntermittents => answer matches Answer::Intermittents(h) && h.wf() && h@
            == intermittent_entries(total_histogram(runs)) && h.listed() == intermittent_order(
            runs,
        ),
        SubCommands::GetLogOutput { status } => answer matches Answer::TestsWithStatus(tests)
            && tests.wf() && tests@ == stable_with_status(runs, status) && tests.listed()
            == stable_order(runs, status),
    }
}

/// Answers a command on the loaded reports. The reports are first checked
/// for consistency; on reports that disagree nothing is aggregated and the
/// mismatch is the result.
pub fn analyse(reports: &Vec<WptLog>, command: SubCommands) -> (r: Result<Answer, AnalysisError>)
    requires
        command_fits(runs_of(reports@), command),
    ensures
        r is Ok <==> consistent(runs_of(reports@)),
        r matches Ok(answer) ==> answers(runs_of(reports@), command, answer),
        r matches Err(e) ==> names_mismatch(runs_of(reports@), e),
{
    match check_test_numbers(reports) {
        Ok(()) => {},
        Err(e) => {
            return Err(e);
        },
    }
    match command {
        SubCommands::CountUnexpectedTestsStatus => {
            match count_unexpected_test_statuses(reports) {
                Ok(totals) => Ok(Answer::UnexpectedTotals(totals)),
                Err(e) => Err(e),
            }
        },
        SubCommands::GetIntermittents => {
            match get_intermittents(reports) {
                Ok(h) => Ok(Answer::Intermittents(h)),
                Err(e) => Err(e),
            }
        },
        SubCommands::GetLogOutput { status } => {
            match get_log_output(reports, status) {
                Ok(tests) => Ok(Answer::TestsWithStatus(tests)),
                Err(e) => Err(e),
            }
        },
    }
}

} // verus!
