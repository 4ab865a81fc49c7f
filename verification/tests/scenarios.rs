use analyse_wpt_results::counts::TestStatusCounts;
use analyse_wpt_results::error::AnalysisError;
use analyse_wpt_results::query::{
    analyse, count_unexpected_test_statuses, get_intermittents, get_log_output, Answer,
    SubCommands,
};
use analyse_wpt_results::report::{Test, WptLog};
use analyse_wpt_results::status::TestStatus;
use analyse_wpt_results::validate::check_test_numbers;

fn test(name: &str, status: TestStatus, expected: Option<TestStatus>) -> Test {
    Test {
        status,
        known_intermittent: None,
        test_name: name.to_string(),
        subtests: Vec::new(),
        duration: 12,
        message: serde_json::Value::Null,
        screenshots: None,
        expected,
    }
}

fn report(results: Vec<Test>) -> WptLog {
    WptLog {
        run_info: serde_json::Value::Null,
        time_start: 1000,
        time_end: 2000,
        results,
    }
}

fn table(statuses: &[TestStatus]) -> TestStatusCounts {
    let mut counts = TestStatusCounts::new();
    for status in statuses {
        counts.increment(*status);
    }
    counts
}

fn sorted(names: &Vec<String>) -> Vec<String> {
    let mut names = names.clone();
    names.sort();
    names
}

#[test]
fn a_test_that_always_passes_is_stable() {
    let reports = vec![
        report(vec![test("t1", TestStatus::Pass, None)]),
        report(vec![test("t1", TestStatus::Pass, None)]),
    ];
    let intermittents = get_intermittents(&reports).unwrap();
    assert!(intermittents.is_empty());
    assert_eq!(intermittents.len(), 0);
    let passing = get_log_output(&reports, TestStatus::Pass).unwrap();
    assert_eq!(passing.names(), &vec!["t1".to_string()]);
    assert_eq!(passing.len(), 1);
    assert!(passing.contains("t1"));
}

#[test]
fn a_test_that_fails_once_and_passes_once_is_intermittent() {
    let reports = vec![
        report(vec![test("t2", TestStatus::Fail, None)]),
        report(vec![test("t2", TestStatus::Pass, None)]),
    ];
    let intermittents = get_intermittents(&reports).unwrap();
    assert_eq!(intermittents.len(), 1);
    assert_eq!(intermittents.get("t2"), Some(&table(&[TestStatus::Fail, TestStatus::Pass])));
    assert_eq!(intermittents.get("t2").unwrap().count(TestStatus::Fail), 1);
    assert_eq!(intermittents.get("t2").unwrap().count(TestStatus::Pass), 1);
    assert_eq!(intermittents.get("t2").unwrap().len(), 2);
    let failing = get_log_output(&reports, TestStatus::Fail).unwrap();
    assert!(!failing.contains("t2"));
    assert!(failing.is_empty());
    let passing = get_log_output(&reports, TestStatus::Pass).unwrap();
    assert!(!passing.contains("t2"));
    assert!(passing.is_empty());
}

#[test]
fn an_expected_crash_is_counted_but_not_logged() {
    let reports = vec![report(vec![test("t3", TestStatus::Crash, Some(TestStatus::Okay))])];
    let totals = count_unexpected_test_statuses(&reports).unwrap();
    assert_eq!(totals, table(&[TestStatus::Crash]));
    assert_eq!(totals.entries(), vec![(TestStatus::Crash, 1)]);
    let crashing = get_log_output(&reports, TestStatus::Crash).unwrap();
    assert!(!crashing.contains("t3"));
    assert!(crashing.is_empty());
}

#[test]
fn no_reports_give_empty_answers() {
    let reports: Vec<WptLog> = Vec::new();
    assert_eq!(check_test_numbers(&reports), Ok(()));
    assert!(count_unexpected_test_statuses(&reports).unwrap().is_empty());
    assert!(get_intermittents(&reports).unwrap().is_empty());
    for status in [TestStatus::Pass, TestStatus::Fail, TestStatus::Crash] {
        assert!(get_log_output(&reports, status).unwrap().is_empty());
    }
}

#[test]
fn reports_without_results_give_empty_answers() {
    let reports = vec![report(Vec::new()), report(Vec::new())];
    assert_eq!(check_test_numbers(&reports), Ok(()));
    assert!(count_unexpected_test_statuses(&reports).unwrap().is_empty());
    assert!(get_intermittents(&reports).unwrap().is_empty());
    assert!(get_log_output(&reports, TestStatus::Pass).unwrap().is_empty());
}

#[test]
fn unexpected_totals_count_the_observed_status() {
    let reports = vec![
        report(vec![
            test("a", TestStatus::Fail, Some(TestStatus::Pass)),
            test("b", TestStatus::Pass, None),
            test("c", TestStatus::Timeout, Some(TestStatus::Okay)),
        ]),
        report(vec![
            test("a", TestStatus::Fail, Some(TestStatus::Pass)),
            test("b", TestStatus::Fail, Some(TestStatus::Pass)),
            test("c", TestStatus::Okay, None),
        ]),
        report(vec![
            test("a", TestStatus::Pass, None),
            test("b", TestStatus::Pass, Some(TestStatus::Fail)),
            test("c", TestStatus::Timeout, Some(TestStatus::Timeout)),
        ]),
    ];
    let totals = count_unexpected_test_statuses(&reports).unwrap();
    assert_eq!(
        totals.entries(),
        vec![(TestStatus::Pass, 1), (TestStatus::Fail, 3), (TestStatus::Timeout, 2)]
    );
}

#[test]
fn results_without_expectation_are_not_in_the_unexpected_totals() {
    let reports = vec![
        report(vec![test("a", TestStatus::Fail, None), test("b", TestStatus::Crash, None)]),
        report(vec![test("a", TestStatus::Fail, None), test("b", TestStatus::Pass, None)]),
    ];
    assert!(count_unexpected_test_statuses(&reports).unwrap().is_empty());
}

#[test]
fn intermittent_tests_count_in_the_unexpected_totals() {
    let reports = vec![
        report(vec![test("a", TestStatus::Fail, Some(TestStatus::Pass))]),
        report(vec![test("a", TestStatus::Crash, Some(TestStatus::Pass))]),
    ];
    let totals = count_unexpected_test_statuses(&reports).unwrap();
    assert_eq!(totals.entries(), vec![(TestStatus::Fail, 1), (TestStatus::Crash, 1)]);
}

#[test]
fn log_output_lists_the_stable_tests_with_the_status() {
    let reports = vec![
        report(vec![
            test("always-fails", TestStatus::Fail, None),
            test("flaky", TestStatus::Fail, None),
            test("always-passes", TestStatus::Pass, None),
            test("annotated", TestStatus::Fail, Some(TestStatus::Pass)),
            test("half-annotated", TestStatus::Fail, Some(TestStatus::Pass)),
        ]),
        report(vec![
            test("always-fails", TestStatus::Fail, None),
            test("flaky", TestStatus::Pass, None),
            test("always-passes", TestStatus::Pass, None),
            test("annotated", TestStatus::Fail, Some(TestStatus::Pass)),
            test("half-annotated", TestStatus::Fail, None),
        ]),
    ];
    let failing = get_log_output(&reports, TestStatus::Fail).unwrap();
    assert_eq!(
        sorted(failing.names()),
        vec!["always-fails".to_string(), "half-annotated".to_string()]
    );
    assert_eq!(failing.len(), 2);
    let passing = get_log_output(&reports, TestStatus::Pass).unwrap();
    assert_eq!(sorted(passing.names()), vec!["always-passes".to_string()]);
    let crashing = get_log_output(&reports, TestStatus::Crash).unwrap();
    assert!(crashing.is_empty());
}

#[test]
fn a_test_seen_once_is_stable() {
    let reports = vec![
        report(vec![test("only-here", TestStatus::Skip, None)]),
        report(vec![test("elsewhere", TestStatus::Pass, None)]),
    ];
    let skipped = get_log_output(&reports, TestStatus::Skip).unwrap();
    assert_eq!(skipped.names(), &vec!["only-here".to_string()]);
    assert!(get_intermittents(&reports).unwrap().is_empty());
}

#[test]
fn an_intermittent_test_is_left_out_though_it_was_plainly_observed() {
    let reports = vec![
        report(vec![test("t", TestStatus::Timeout, None), test("u", TestStatus::Timeout, None)]),
        report(vec![test("t", TestStatus::Timeout, None), test("u", TestStatus::Timeout, None)]),
        report(vec![test("t", TestStatus::Pass, None), test("u", TestStatus::Timeout, None)]),
    ];
    let intermittents = get_intermittents(&reports).unwrap();
    assert!(intermittents.contains("t"));
    assert_eq!(
        intermittents.get("t"),
        Some(&table(&[TestStatus::Timeout, TestStatus::Timeout, TestStatus::Pass]))
    );
    let timing_out = get_log_output(&reports, TestStatus::Timeout).unwrap();
    assert!(!timing_out.contains("t"));
    assert_eq!(timing_out.names(), &vec!["u".to_string()]);
}

#[test]
fn an_expected_status_makes_a_test_intermittent_all_the_same() {
    let reports = vec![
        report(vec![test("t", TestStatus::Fail, Some(TestStatus::Pass))]),
        report(vec![test("t", TestStatus::Pass, None)]),
    ];
    let intermittents = get_intermittents(&reports).unwrap();
    assert_eq!(intermittents.get("t"), Some(&table(&[TestStatus::Fail, TestStatus::Pass])));
    assert!(get_log_output(&reports, TestStatus::Pass).unwrap().is_empty());
}

#[test]
fn analyse_answers_each_command() {
    let reports = vec![
        report(vec![
            test("a", TestStatus::Pass, None),
            test("b", TestStatus::Fail, Some(TestStatus::Pass)),
        ]),
        report(vec![
            test("a", TestStatus::Pass, None),
            test("b", TestStatus::Pass, None),
        ]),
    ];
    match analyse(&reports, SubCommands::CountUnexpectedTestsStatus) {
        Ok(Answer::UnexpectedTotals(totals)) => {
            assert_eq!(totals.entries(), vec![(TestStatus::Fail, 1)])
        }
        _ => panic!("no totals"),
    }
    match analyse(&reports, SubCommands::GetIntermittents) {
        Ok(Answer::Intermittents(found)) => {
            assert_eq!(found.len(), 1);
            assert_eq!(found.get("b"), Some(&table(&[TestStatus::Fail, TestStatus::Pass])));
        }
        _ => panic!("no intermittents"),
    }
    match analyse(&reports, SubCommands::GetLogOutput { status: TestStatus::Pass }) {
        Ok(Answer::TestsWithStatus(tests)) => {
            assert_eq!(tests.names(), &vec!["a".to_string()])
        }
        _ => panic!("no tests"),
    }
}

#[test]
fn analyse_refuses_reports_that_disagree() {
    let reports = vec![
        report(vec![test("a", TestStatus::Pass, None), test("b", TestStatus::Pass, None)]),
        report(vec![test("a", TestStatus::Pass, None)]),
    ];
    for command in [
        SubCommands::CountUnexpectedTestsStatus,
        SubCommands::GetIntermittents,
        SubCommands::GetLogOutput { status: TestStatus::Pass },
    ] {
        match analyse(&reports, command) {
            Err(e) => assert_eq!(e, AnalysisError::CountMismatch { expected: 2, actual: 1 }),
            Ok(_) => panic!("reports that disagree were analysed"),
        }
    }
}
