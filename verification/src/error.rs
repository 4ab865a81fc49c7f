//! Failures the analysis can report. Every one of them aborts the run.

use vstd::prelude::*;

verus! {

/// Why an analysis step refused its input.
#[derive(Debug, PartialEq, Eq)]
pub enum AnalysisError {
    /// Two reports list a different number of test results. `expected` is
    /// the count of the first report, `actual` the first count that differs.
    CountMismatch { expected: usize, actual: usize },
    /// A histogram holds a test without a single recorded status.
    EmptyEntry { test_name: String },
    /// A status name that cannot be selected for a query.
    InvalidStatus { given: String },
}

} // verus!
