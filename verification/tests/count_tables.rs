use analyse_wpt_results::counts::{status_order, TestStatusCounts};
use analyse_wpt_results::status::TestStatus;

#[test]
fn a_new_table_is_empty() {
    let counts = TestStatusCounts::new();
    assert!(counts.is_empty());
    assert_eq!(counts.len(), 0);
    assert!(counts.entries().is_empty());
    for status in status_order() {
        assert_eq!(counts.count(status), 0);
    }
}

#[test]
fn increment_counts_one_occurrence() {
    let mut counts = TestStatusCounts::new();
    counts.increment(TestStatus::Timeout);
    assert_eq!(counts.count(TestStatus::Timeout), 1);
    assert_eq!(counts.count(TestStatus::Pass), 0);
    assert_eq!(counts.len(), 1);
    assert!(!counts.is_empty());
    counts.increment(TestStatus::Timeout);
    counts.increment(TestStatus::Timeout);
    assert_eq!(counts.count(TestStatus::Timeout), 3);
    assert_eq!(counts.len(), 1);
}

#[test]
fn len_is_the_number_of_distinct_statuses() {
    let mut counts = TestStatusCounts::new();
    for (seen, status) in status_order().into_iter().enumerate() {
        counts.increment(status);
        counts.increment(status);
        assert_eq!(counts.len(), seen + 1);
    }
    assert_eq!(counts.len(), 9);
}

#[test]
fn every_status_has_a_counter_of_its_own() {
    for status in status_order() {
        let mut counts = TestStatusCounts::new();
        counts.increment(status);
        for other in status_order() {
            assert_eq!(counts.count(other), if other == status { 1 } else { 0 });
        }
        assert_eq!(counts.entries(), vec![(status, 1)]);
    }
}

#[test]
fn merge_adds_status_by_status() {
    let mut left = TestStatusCounts::new();
    left.increment(TestStatus::Pass);
    left.increment(TestStatus::Pass);
    left.increment(TestStatus::Crash);
    let mut right = TestStatusCounts::new();
    right.increment(TestStatus::Pass);
    right.increment(TestStatus::NotRun);
    left.merge(&right);
    assert_eq!(left.count(TestStatus::Pass), 3);
    assert_eq!(left.count(TestStatus::Crash), 1);
    assert_eq!(left.count(TestStatus::NotRun), 1);
    assert_eq!(left.count(TestStatus::Fail), 0);
    assert_eq!(left.len(), 3);
    assert_eq!(right.count(TestStatus::Pass), 1);
}

#[test]
fn merge_with_an_empty_table_changes_nothing() {
    let mut counts = TestStatusCounts::new();
    counts.increment(TestStatus::Fail);
    let before = counts;
    counts.merge(&TestStatusCounts::new());
    assert_eq!(counts, before);
}

#[test]
fn entries_come_in_declaration_order() {
    let mut counts = TestStatusCounts::new();
    counts.increment(TestStatus::PreconditionFailed);
    counts.increment(TestStatus::Crash);
    counts.increment(TestStatus::Pass);
    counts.increment(TestStatus::Crash);
    assert_eq!(
        counts.entries(),
        vec![
            (TestStatus::Pass, 1),
            (TestStatus::Crash, 2),
            (TestStatus::PreconditionFailed, 1),
        ]
    );
}

#[test]
fn status_order_is_the_declaration_order() {
    assert_eq!(
        status_order(),
        [
            TestStatus::Pass,
            TestStatus::Fail,
            TestStatus::Skip,
            TestStatus::Error,
            TestStatus::Okay,
            TestStatus::Timeout,
            TestStatus::Crash,
            TestStatus::NotRun,
            TestStatus::PreconditionFailed,
        ]
    );
}

#[test]
fn a_counter_reaches_its_maximum() {
    let mut half = TestStatusCounts::new();
    half.increment(TestStatus::Skip);
    for _ in 0..31 {
        let other = half;
        half.merge(&other);
    }
    assert_eq!(half.count(TestStatus::Skip), 2147483648);
    let mut rest = TestStatusCounts::new();
    rest.increment(TestStatus::Skip);
    for _ in 0..30 {
        let other = rest;
        rest.merge(&other);
        rest.increment(TestStatus::Skip);
    }
    assert_eq!(rest.count(TestStatus::Skip), 2147483647);
    half.merge(&rest);
    assert_eq!(half.count(TestStatus::Skip), u32::MAX);
}
