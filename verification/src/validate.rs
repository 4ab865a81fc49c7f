//! The consistency check that runs before any aggregation.

use vstd::prelude::*;
use crate::error::AnalysisError;
use crate::report::{runs_of, Observation, WptLog};

verus! {

/// Every run lists as many results as the first one. No runs at all are
/// consistent.
pub open spec fn consistent(runs: Seq<Seq<Observation>>) -> bool {
    forall|i: int| 0 <= i < runs.len() ==> (#[trigger] runs[i]).len() == runs[0].len()
}

/// Run `k` is the first that lists another number of results than the
/// first run.
pub open spec fn first_mismatch(runs: Seq<Seq<Observation>>, k: int) -> bool {
    &&& 0 < k < runs.len()
    &&& runs[k].len() != runs[0].len()
    &&& forall|j: int| 0 <= j < k ==> (#[trigger] runs[j]).len() == runs[0].len()
}

/// The error that names the mismatch of the runs: the count of the first run
/// as the expected one, and the count of the first run that differs.
pub open spec fn names_mismatch(runs: Seq<Seq<Observation>>, e: AnalysisError) -> bool {
    e matches AnalysisError::CountMismatch { expected, actual } && expected == runs[0].len()
        && exists|k: int| first_mismatch(runs, k) && actual == runs[k].len()
}

/// Ensures that all runs hold the same number of test results. The count of
/// the first report is the expected one; the first report that differs is
/// named in the error with its count.
pub fn check_test_numbers(reports: &Vec<WptLog>) -> (r: Result<(), AnalysisError>)
    ensures
        r is Ok <==> consistent(runs_of(reports@)),
        r matches Err(e) ==> names_mismatch(runs_of(reports@), e),
{
    let ghost runs = runs_of(reports@);
    let mut tests_per_run: Option<usize> = None;
    let mut i: usize = 0;
    while i < reports.len()
        invariant
            i <= reports.len(),
            runs == runs_of(reports@),
            forall|j: int| 0 <= j < i ==> (#[trigger] runs[j]).len() == runs[0].len(),
            i == 0 ==> tests_per_run is None,
            i > 0 ==> (tests_per_run matches Some(n) && n == runs[0].len()),
        decreases reports.len() - i,
    {
        let this_tests_runs: usize = reports[i].results.len();
        match tests_per_run {
            None => {
                tests_per_run = Some(this_tests_runs);
            },
            Some(n) => {
                if this_tests_runs != n {
                    proof {
                        assert(first_mismatch(runs, i as int));
                    }
                    return Err(
                        AnalysisError::CountMismatch { expected: n, actual: this_tests_runs },
                    );
                }
            },
        }
        i = i + 1;
    }
    Ok(())
}

} // verus!
