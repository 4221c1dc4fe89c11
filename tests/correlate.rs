use testament::correlate::{apply_results, reset_unmatched_running_tests};
use testament::model::{Test, TestClass, TestOutcome, TestResult, TestStatus};
use testament::report::parse_trx;

fn class(name: &str, ns: &str, tests: &[(&str, &str)]) -> TestClass {
    let mut c = TestClass::new(name.to_string(), ns.to_string());
    for (n, f) in tests {
        let mut t = Test::new(n.to_string(), f.to_string());
        t.status = TestStatus::Running;
        c.tests.push(t);
    }
    c
}

fn record(name: &str, outcome: TestOutcome, ms: u64) -> TestResult {
    TestResult { test_name: name.to_string(), outcome, duration_ms: ms, error_message: None }
}

#[test]
fn exact_record_passes_exactly_one_test() {
    let mut classes = vec![class("A", "NS", &[("T1", "NS.A.T1"), ("T2", "NS.A.T2")])];
    let results = vec![record("NS.A.T1", TestOutcome::Passed, 12)];
    apply_results(&mut classes, &results);
    assert_eq!(classes[0].tests[0].status, TestStatus::Passed);
    assert_eq!(classes[0].tests[0].duration_ms, Some(12));
    assert_eq!(classes[0].tests[1].status, TestStatus::Running);
    let passed = classes.iter().flat_map(|c| c.tests.iter()).filter(|t| t.status == TestStatus::Passed).count();
    assert_eq!(passed, 1);
}

#[test]
fn one_record_is_never_taken_twice() {
    let mut classes = vec![
        class("A", "NS", &[("T1", "NS.A.T1")]),
        class("B", "NS", &[("T1", "NS.A.T1")]),
    ];
    let results = vec![record("NS.A.T1", TestOutcome::Failed, 1)];
    apply_results(&mut classes, &results);
    assert_eq!(classes[0].tests[0].status, TestStatus::Failed);
    assert_eq!(classes[1].tests[0].status, TestStatus::Running);
    apply_results(&mut classes, &results);
    let failed = classes.iter().flat_map(|c| c.tests.iter()).filter(|t| t.status == TestStatus::Failed).count();
    assert_eq!(failed, 1);
    assert_eq!(classes[1].tests[0].status, TestStatus::Running);
}

#[test]
fn failed_record_from_report_then_siblings_reset() {
    let xml = r#"<TestRun><Results>
        <UnitTestResult testName="NS.A.T1" outcome="Failed" duration="00:00:00.5000000" />
    </Results></TestRun>"#;
    let results = parse_trx(xml).unwrap();
    let mut classes = vec![class("A", "NS", &[("T1", "NS.A.T1"), ("T2", "NS.A.T2")])];
    apply_results(&mut classes, &results);
    reset_unmatched_running_tests(&mut classes);
    assert_eq!(classes[0].tests[0].status, TestStatus::Failed);
    assert_eq!(classes[0].tests[0].duration_ms, Some(500));
    assert_eq!(classes[0].tests[1].status, TestStatus::NotRun);
}

#[test]
fn deeper_qualified_record_matches_by_dotted_suffix() {
    let mut classes = vec![class("A", "", &[("A.T1", "A.T1")])];
    let results = vec![record("Root.NS.A.T1", TestOutcome::Passed, 5)];
    apply_results(&mut classes, &results);
    assert_eq!(classes[0].tests[0].status, TestStatus::Passed);
}

#[test]
fn bare_record_matches_by_display_or_method_name() {
    let mut classes = vec![class("A", "NS", &[("A.T1", "NS.A.T1"), ("T2", "NS.A.T2")])];
    let results = vec![record("T1", TestOutcome::Skipped, 0), record("T2", TestOutcome::Passed, 7)];
    apply_results(&mut classes, &results);
    assert_eq!(classes[0].tests[0].status, TestStatus::Skipped);
    assert_eq!(classes[0].tests[1].status, TestStatus::Passed);
    assert_eq!(classes[0].tests[1].duration_ms, Some(7));
}

#[test]
fn failure_text_is_copied_to_the_test() {
    let mut classes = vec![class("A", "NS", &[("T1", "NS.A.T1")])];
    let mut r = record("NS.A.T1", TestOutcome::Failed, 2);
    r.error_message = Some("boom".to_string());
    apply_results(&mut classes, &vec![r]);
    assert_eq!(classes[0].tests[0].error_message, Some("boom".to_string()));
}

#[test]
fn reset_leaves_finished_tests_alone() {
    let mut classes = vec![class("A", "NS", &[("T1", "NS.A.T1")])];
    classes[0].tests.push(Test::new("T2".to_string(), "NS.A.T2".to_string()));
    classes[0].tests[1].status = TestStatus::Passed;
    reset_unmatched_running_tests(&mut classes);
    assert_eq!(classes[0].tests[0].status, TestStatus::NotRun);
    assert_eq!(classes[0].tests[1].status, TestStatus::Passed);
}
