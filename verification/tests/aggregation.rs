use analyse_wpt_results::aggregate::{
    build_histogram, status_per_tests, unexpected_status_per_tests,
};
use analyse_wpt_results::counts::TestStatusCounts;
use analyse_wpt_results::names::TestNameSet;
use analyse_wpt_results::query::{
    get_intermittents, get_log_output, observations_fit, plain_tests_with_status,
};
use analyse_wpt_results::report::{SubTest, Test, WptLog};
use analyse_wpt_results::status::TestStatus;

fn test(name: &str, status: TestStatus, expected: Option<TestStatus>) -> Test {
    Test {
        status,
        known_intermittent: Some(vec![serde_json::Value::Bool(true)]),
        test_name: name.to_string(),
        subtests: vec![SubTest {
            known_intermittent: Vec::new(),
            test_name: "first".to_string(),
            message: serde_json::Value::Null,
            status: TestStatus::NotRun,
            expected: Some(TestStatus::PreconditionFailed),
        }],
        duration: 3,
        message: serde_json::Value::String("note".to_string()),
        screenshots: None,
        expected,
    }
}

fn report(results: Vec<Test>) -> WptLog {
    WptLog {
        run_info: serde_json::Value::Null,
        time_start: 0,
        time_end: 0,
        results,
    }
}

fn table(statuses: &[TestStatus]) -> TestStatusCounts {
    let mut counts = TestStatusCounts::new();
    for status in statuses {
        counts.increment(*status);
    }
    counts
}

fn three_runs() -> Vec<WptLog> {
    vec![
        report(vec![
            test("a", TestStatus::Pass, None),
            test("b", TestStatus::Fail, Some(TestStatus::Pass)),
            test("c", TestStatus::Okay, None),
        ]),
        report(vec![
            test("a", TestStatus::Pass, None),
            test("b", TestStatus::Fail, None),
            test("c", TestStatus::Timeout, Some(TestStatus::Okay)),
        ]),
        report(vec![
            test("a", TestStatus::Pass, Some(TestStatus::Fail)),
            test("b", TestStatus::Fail, None),
            test("c", TestStatus::Crash, Some(TestStatus::Okay)),
        ]),
    ]
}

#[test]
fn the_total_histogram_counts_every_result() {
    let hist = status_per_tests(&three_runs());
    assert_eq!(hist.len(), 3);
    assert_eq!(hist.get("a"), Some(&table(&[TestStatus::Pass; 3])));
    assert_eq!(hist.get("b"), Some(&table(&[TestStatus::Fail; 3])));
    assert_eq!(
        hist.get("c"),
        Some(&table(&[TestStatus::Okay, TestStatus::Timeout, TestStatus::Crash]))
    );
}

#[test]
fn the_unexpected_histogram_counts_only_annotated_results() {
    let hist = unexpected_status_per_tests(&three_runs());
    assert_eq!(hist.len(), 3);
    assert_eq!(hist.get("a"), Some(&table(&[TestStatus::Pass])));
    assert_eq!(hist.get("b"), Some(&table(&[TestStatus::Fail])));
    assert_eq!(hist.get("c"), Some(&table(&[TestStatus::Timeout, TestStatus::Crash])));
}

#[test]
fn the_unexpected_histogram_counts_the_observed_status_not_the_expected_one() {
    let reports = vec![report(vec![test("t", TestStatus::Crash, Some(TestStatus::Okay))])];
    let hist = unexpected_status_per_tests(&reports);
    assert_eq!(hist.get("t").unwrap().count(TestStatus::Crash), 1);
    assert_eq!(hist.get("t").unwrap().count(TestStatus::Okay), 0);
}

#[test]
fn a_test_without_annotated_result_is_absent_from_the_unexpected_histogram() {
    let reports = vec![
        report(vec![
            test("plain", TestStatus::Fail, None),
            test("noted", TestStatus::Fail, Some(TestStatus::Pass)),
        ]),
    ];
    let hist = unexpected_status_per_tests(&reports);
    assert!(!hist.contains("plain"));
    assert_eq!(hist.get("plain"), None);
    assert!(hist.contains("noted"));
    assert_eq!(hist.len(), 1);
}

#[test]
fn build_histogram_is_the_one_fold_behind_both_histograms() {
    let reports = three_runs();
    assert_eq!(build_histogram(&reports, false).entries(), status_per_tests(&reports).entries());
    assert_eq!(
        build_histogram(&reports, true).entries(),
        unexpected_status_per_tests(&reports).entries()
    );
}

#[test]
fn no_histogram_holds_an_empty_table() {
    let reports = three_runs();
    for gated in [false, true] {
        let hist = build_histogram(&reports, gated);
        for entry in hist.entries() {
            assert!(!entry.counts.is_empty());
            assert!(entry.counts.len() >= 1);
        }
    }
    assert!(build_histogram(&Vec::new(), false).is_empty());
    assert!(build_histogram(&vec![report(Vec::new())], true).is_empty());
}

#[test]
fn the_counts_of_a_test_add_up_to_the_runs_that_list_it() {
    let reports = vec![
        report(vec![test("a", TestStatus::Pass, None), test("b", TestStatus::Fail, None)]),
        report(vec![test("a", TestStatus::Fail, None)]),
        report(vec![test("a", TestStatus::Pass, None), test("b", TestStatus::Fail, None)]),
        report(vec![test("c", TestStatus::Skip, None)]),
    ];
    let hist = status_per_tests(&reports);
    for (name, listed_in) in [("a", 3u32), ("b", 2), ("c", 1)] {
        let sum: u32 = hist.get(name).unwrap().entries().iter().map(|e| e.1).sum();
        assert_eq!(sum, listed_in);
    }
}

#[test]
fn building_twice_gives_equal_histograms() {
    let reports = three_runs();
    let first = status_per_tests(&reports);
    let second = status_per_tests(&reports);
    assert_eq!(first.entries(), second.entries());
    assert_eq!(first.len(), second.len());
    for entry in first.entries() {
        assert_eq!(second.get(&entry.name), Some(&entry.counts));
    }
}

#[test]
fn a_test_is_intermittent_exactly_with_two_statuses() {
    let reports = three_runs();
    let hist = status_per_tests(&reports);
    let intermittents = get_intermittents(&reports).unwrap();
    for entry in hist.entries() {
        assert_eq!(intermittents.contains(&entry.name), entry.counts.len() >= 2);
    }
    assert_eq!(intermittents.len(), 1);
    assert!(intermittents.contains("c"));
}

#[test]
fn the_order_of_the_reports_does_not_change_the_counts() {
    let mut reversed = three_runs();
    reversed.reverse();
    let forward = status_per_tests(&three_runs());
    let backward = status_per_tests(&reversed);
    assert_eq!(forward.len(), backward.len());
    for entry in forward.entries() {
        assert_eq!(backward.get(&entry.name), Some(&entry.counts));
    }
}

#[test]
fn plain_tests_are_those_seen_with_the_status_and_without_expectation() {
    let reports = three_runs();
    let failing = plain_tests_with_status(&reports, TestStatus::Fail);
    assert_eq!(failing.names(), &vec!["b".to_string()]);
    let passing = plain_tests_with_status(&reports, TestStatus::Pass);
    assert_eq!(passing.names(), &vec!["a".to_string()]);
    let ok = plain_tests_with_status(&reports, TestStatus::Okay);
    assert_eq!(ok.names(), &vec!["c".to_string()]);
    assert!(plain_tests_with_status(&reports, TestStatus::Crash).is_empty());
    assert!(plain_tests_with_status(&reports, TestStatus::Timeout).is_empty());
}

#[test]
fn the_log_output_is_the_plain_tests_without_the_intermittent_ones() {
    let reports = three_runs();
    let intermittents = get_intermittents(&reports).unwrap();
    for status in [TestStatus::Pass, TestStatus::Fail, TestStatus::Okay, TestStatus::Crash] {
        let plain = plain_tests_with_status(&reports, status);
        let stable = get_log_output(&reports, status).unwrap();
        for name in plain.names() {
            assert_eq!(stable.contains(name), !intermittents.contains(name));
        }
        for name in stable.names() {
            assert!(plain.contains(name));
        }
    }
    assert!(get_log_output(&reports, TestStatus::Okay).unwrap().is_empty());
}

#[test]
fn a_name_set_holds_each_name_once() {
    let mut set = TestNameSet::new();
    assert!(set.is_empty());
    assert!(set.insert("b".to_string()));
    assert!(set.insert("a".to_string()));
    assert!(!set.insert("b".to_string()));
    assert_eq!(set.len(), 2);
    assert_eq!(set.names(), &vec!["b".to_string(), "a".to_string()]);
    assert!(set.contains("a"));
    assert!(!set.contains("c"));
}

#[test]
fn a_name_set_without_the_tests_of_a_histogram() {
    let mut set = TestNameSet::new();
    set.insert("a".to_string());
    set.insert("b".to_string());
    set.insert("c".to_string());
    let reports = vec![report(vec![
        test("b", TestStatus::Pass, None),
        test("x", TestStatus::Pass, None),
    ])];
    let hist = status_per_tests(&reports);
    let rest = set.without_tests_of(&hist);
    assert_eq!(rest.names(), &vec!["a".to_string(), "c".to_string()]);
    assert_eq!(set.len(), 3);
}

#[test]
fn small_collections_fit_the_counters() {
    assert!(observations_fit(&Vec::new()));
    assert!(observations_fit(&three_runs()));
}

#[test]
fn a_histogram_lists_its_tests_in_the_order_of_first_counting() {
    let reports = vec![
        report(vec![
            test("m", TestStatus::Pass, None),
            test("a", TestStatus::Pass, Some(TestStatus::Fail)),
        ]),
        report(vec![
            test("z", TestStatus::Pass, Some(TestStatus::Fail)),
            test("m", TestStatus::Fail, Some(TestStatus::Pass)),
            test("a", TestStatus::Pass, None),
        ]),
    ];
    let total = status_per_tests(&reports);
    let names: Vec<&str> = total.entries().iter().map(|e| e.name.as_str()).collect();
    assert_eq!(names, vec!["m", "a", "z"]);
    let unexpected = unexpected_status_per_tests(&reports);
    let names: Vec<&str> = unexpected.entries().iter().map(|e| e.name.as_str()).collect();
    assert_eq!(names, vec!["a", "z", "m"]);
}

#[test]
fn the_log_output_lists_its_tests_in_the_order_of_first_plain_observation() {
    let reports = vec![
        report(vec![
            test("c", TestStatus::Fail, Some(TestStatus::Pass)),
            test("b", TestStatus::Fail, None),
            test("flaky", TestStatus::Fail, None),
        ]),
        report(vec![
            test("a", TestStatus::Fail, None),
            test("c", TestStatus::Fail, None),
            test("b", TestStatus::Fail, None),
            test("flaky", TestStatus::Pass, None),
        ]),
    ];
    let plain = plain_tests_with_status(&reports, TestStatus::Fail);
    assert_eq!(
        plain.names(),
        &vec!["b".to_string(), "flaky".to_string(), "a".to_string(), "c".to_string()]
    );
    let stable = get_log_output(&reports, TestStatus::Fail).unwrap();
    assert_eq!(stable.names(), &vec!["b".to_string(), "a".to_string(), "c".to_string()]);
}
