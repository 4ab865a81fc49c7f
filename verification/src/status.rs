//! The closed set of statuses a test or subtest can report.

use vstd::prelude::*;
use crate::error::AnalysisError;

verus! {

/// Outcome of one test or subtest in one run.
#[derive(Debug, Clone, Copy, PartialEq, Eq, Hash, Structural)]
pub enum TestStatus {
    Pass,
    Fail,
    Skip,
    Error,
    /// The harness status `OK`: the test file ran to completion.
    Okay,
    Timeout,
    Crash,
    /// Only seen in subtests.
    NotRun,
    /// Only seen in subtests.
    PreconditionFailed,
}

impl TestStatus {
    /// The name under which the status is written and selected.
    pub open spec fn name_spec(self) -> Seq<char> {
        match self {
            TestStatus::Pass => "Pass"@,
            TestStatus::Fail => "Fail"@,
            TestStatus::Skip => "Skip"@,
            TestStatus::Error => "Error"@,
            TestStatus::Okay => "Ok"@,
            TestStatus::Timeout => "Timeout"@,
            TestStatus::Crash => "Crash"@,
            TestStatus::NotRun => "NotRun"@,
            TestStatus::PreconditionFailed => "PreconditionFailed"@,
        }
    }

    /// Statuses that whole tests report, and that a query can therefore ask
    /// for. The two remaining ones occur on subtests only.
    pub open spec fn is_selectable(self) -> bool {
        !(self is NotRun) && !(self is PreconditionFailed)
    }

    /// Position of the status in the order of declaration.
    pub open spec fn ordinal(self) -> int {
        match self {
            TestStatus::Pass => 0,
            TestStatus::Fail => 1,
            TestStatus::Skip => 2,
            TestStatus::Error => 3,
            TestStatus::Okay => 4,
            TestStatus::Timeout => 5,
            TestStatus::Crash => 6,
            TestStatus::NotRun => 7,
            TestStatus::PreconditionFailed => 8,
        }
    }

    /// The name of the status, as `name_spec` gives it.
    pub fn name(self) -> (r: &'static str)
        ensures
            r@ == self.name_spec(),
    {
        match self {
            TestStatus::Pass => "Pass",
            TestStatus::Fail => "Fail",
            TestStatus::Skip => "Skip",
            TestStatus::Error => "Error",
            TestStatus::Okay => "Ok",
            TestStatus::Timeout => "Timeout",
            TestStatus::Crash => "Crash",
            TestStatus::NotRun => "NotRun",
            TestStatus::PreconditionFailed => "PreconditionFailed",
        }
    }
}

/// Every status, in the order of declaration.
pub open spec fn all_statuses() -> Seq<TestStatus> {
    seq![
        TestStatus::Pass,
        TestStatus::Fail,
        TestStatus::Skip,
        TestStatus::Error,
        TestStatus::Okay,
        TestStatus::Timeout,
        TestStatus::Crash,
        TestStatus::NotRun,
        TestStatus::PreconditionFailed,
    ]
}

/// The status a name selects, if any. Names are matched exactly.
pub open spec fn parse_status(text: Seq<char>) -> Option<TestStatus> {
    if text == "Pass"@ {
        Some(TestStatus::Pass)
    } else if text == "Fail"@ {
        Some(TestStatus::Fail)
    } else if text == "Skip"@ {
        Some(TestStatus::Skip)
    } else if text == "Error"@ {
        Some(TestStatus::Error)
    } else if text == "Ok"@ {
        Some(TestStatus::Okay)
    } else if text == "Timeout"@ {
        Some(TestStatus::Timeout)
    } else if text == "Crash"@ {
        Some(TestStatus::Crash)
    } else {
        None
    }
}

/// True when the two slices hold the same characters.
fn same_text(a: &str, b: &str) -> (r: bool)
    ensures
        r == (a@ == b@),
{
    let x = a.to_owned();
    let y = b.to_owned();
    x == y
}

/// Resolves a status name given for a query. Only the statuses of whole
/// tests can be selected; any other text is refused and handed back in the
/// error.
pub fn status_from_str(status: &str) -> (r: Result<TestStatus, AnalysisError>)
    ensures
        match parse_status(status@) {
            Some(s) => r == Ok::<TestStatus, AnalysisError>(s),
            None => r matches Err(AnalysisError::InvalidStatus { given }) && given@ == status@,
        },
{
    if same_text(status, "Pass") {
        Ok(TestStatus::Pass)
    } else if same_text(status, "Fail") {
        Ok(TestStatus::Fail)
    } else if same_text(status, "Skip") {
        Ok(TestStatus::Skip)
    } else if same_text(status, "Error") {
        Ok(TestStatus::Error)
    } else if same_text(status, "Ok") {
        Ok(TestStatus::Okay)
    } else if same_text(status, "Timeout") {
        Ok(TestStatus::Timeout)
    } else if same_text(status, "Crash") {
        Ok(TestStatus::Crash)
    } else {
        Err(AnalysisError::InvalidStatus { given: status.to_owned() })
    }
}

/// The statuses that `status_from_str` can return, in the order in which an
/// error message lists them.
pub fn selectable_statuses() -> (r: Vec<TestStatus>)
    ensures
        r@ == all_statuses().subrange(0, 7),
        forall|s: TestStatus| r@.contains(s) <==> s.is_selectable(),
{
    vec![
        TestStatus::Pass,
        TestStatus::Fail,
        TestStatus::Skip,
        TestStatus::Error,
        TestStatus::Okay,
        TestStatus::Timeout,
        TestStatus::Crash,
    ]
}

/// A selectable status is found again from its name, and nothing else is
/// found at all: `parse_status` inverts `name_spec` on the selectable
/// statuses.
pub proof fn lemma_parse_inverts_name(text: Seq<char>, s: TestStatus)
    ensures
        parse_status(text) == Some(s) <==> s.is_selectable() && s.name_spec() == text,
{
    reveal_strlit("Pass");
    reveal_strlit("Fail");
    reveal_strlit("Skip");
    reveal_strlit("Error");
    reveal_strlit("Ok");
    reveal_strlit("Timeout");
    reveal_strlit("Crash");
    reveal_strlit("NotRun");
    reveal_strlit("PreconditionFailed");
    if s.is_selectable() && s.name_spec() == text {
        assert(text[0] == s.name_spec()[0]);
    }
}

} // verus!
