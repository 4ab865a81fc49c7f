//! One run of the suite as the harness reports it, and what the analysis
//! sees of it.

use vstd::prelude::*;
use crate::status::TestStatus;

verus! {

/// `serde_json::Value`, the untyped JSON value. Reports carry such values in
/// the fields that the analysis never reads. Nothing is stated of what one
/// holds.
#[verifier::external_type_specification]
#[verifier::external_body]
pub struct ExValue(serde_json::Value);

/// Result of one subtest. The analysis carries subtests along and does not
/// count them.
#[derive(Debug)]
pub struct SubTest {
    /// Statuses that the harness knows the subtest to alternate between.
    pub known_intermittent: Vec<serde_json::Value>,
    /// Name of the subtest within its test.
    pub test_name: String,
    /// Diagnostic output.
    pub message: serde_json::Value,
    /// The status that was observed.
    pub status: TestStatus,
    /// Present only where the observed status deviates from the expected
    /// one.
    pub expected: Option<TestStatus>,
}

/// Result of one test in one run.
#[derive(Debug)]
pub struct Test {
    /// The status that was observed.
    pub status: TestStatus,
    /// Statuses that the harness knows the test to alternate between.
    pub known_intermittent: Option<Vec<serde_json::Value>>,
    /// Fully qualified name, the key of the test within a run.
    pub test_name: String,
    /// The results of the subtests, in the order of the report.
    pub subtests: Vec<SubTest>,
    /// How long the test ran; the unit is the harness's.
    pub duration: usize,
    /// Diagnostic output.
    pub message: serde_json::Value,
    /// Screenshots of a reference test, where the harness took any.
    pub screenshots: Option<serde_json::Value>,
    /// Present only where the harness recorded that the observed status
    /// deviates from the default expectation.
    pub expected: Option<TestStatus>,
}

/// One run of the whole suite.
#[derive(Debug)]
pub struct WptLog {
    /// What the harness recorded of the machine and the browser.
    pub run_info: serde_json::Value,
    /// When the run started.
    pub time_start: usize,
    /// When the run ended.
    pub time_end: usize,
    /// The results of the tests, in the order of the report.
    pub results: Vec<Test>,
}

/// What the analysis reads of one test result.
pub struct Observation {
    /// The name of the test.
    pub name: Seq<char>,
    /// The status that was observed.
    pub status: TestStatus,
    /// The expected status, where one was recorded.
    pub expected: Option<TestStatus>,
}

impl View for Test {
    type V = Observation;

    open spec fn view(&self) -> Observation {
        Observation { name: self.test_name@, status: self.status, expected: self.expected }
    }
}

impl View for WptLog {
    type V = Seq<Observation>;

    open spec fn view(&self) -> Seq<Observation> {
        self.results@.map_values(|t: Test| t@)
    }
}

/// The observations of a collection of reports, run by run.
pub open spec fn runs_of(reports: Seq<WptLog>) -> Seq<Seq<Observation>> {
    reports.map_values(|r: WptLog| r@)
}

} // verus!
