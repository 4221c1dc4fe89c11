use testament::model::{Test, TestClass, TestOutcome, TestResult, TestStatus};
use testament::pr::ChangedTest;
use testament::session::{
    build_synthetic_classes, filter_classes_to_tests, get_filtered_tests, is_progress_marker,
    mark_all_tests_running, mark_tests_running, outcome_counts,
};

fn tree() -> Vec<TestClass> {
    let mut a = TestClass::new("A".to_string(), "NS".to_string());
    a.tests.push(Test::new("AddWorks".to_string(), "NS.A.AddWorks".to_string()));
    a.tests.push(Test::new("SubWorks".to_string(), "NS.A.SubWorks".to_string()));
    let mut b = TestClass::new("B".to_string(), "NS".to_string());
    b.tests.push(Test::new("Open".to_string(), "NS.B.Open".to_string()));
    vec![a, b]
}

fn changed(class: &str, method: &str) -> ChangedTest {
    ChangedTest {
        file_path: format!("{}.cs", class),
        class_name: class.to_string(),
        method_name: method.to_string(),
        full_name: format!("{}.{}", class, method),
    }
}

#[test]
fn marking_running() {
    let mut classes = tree();
    mark_tests_running(&mut classes, &vec!["NS.A.SubWorks".to_string()], false);
    assert_eq!(classes[0].tests[0].status, TestStatus::NotRun);
    assert_eq!(classes[0].tests[1].status, TestStatus::Running);
    let mut classes = tree();
    mark_tests_running(&mut classes, &vec!["X.Open".to_string()], true);
    assert_eq!(classes[1].tests[0].status, TestStatus::NotRun);
    let mut classes = tree();
    mark_all_tests_running(&mut classes);
    assert!(classes.iter().all(|c| c.tests.iter().all(|t| t.status == TestStatus::Running)));
}

#[test]
fn filtered_tests_by_lowercase_name() {
    let classes = tree();
    assert_eq!(get_filtered_tests(&classes, "WORKS"), vec!["NS.A.AddWorks".to_string(), "NS.A.SubWorks".to_string()]);
    assert_eq!(get_filtered_tests(&classes, "").len(), 3);
    assert!(get_filtered_tests(&classes, "zzz").is_empty());
}

#[test]
fn classes_narrowed_to_changed_tests() {
    let classes = tree();
    let narrowed = filter_classes_to_tests(&classes, &vec![changed("A", "Add")]);
    assert_eq!(narrowed.len(), 1);
    assert_eq!(narrowed[0].name, "A");
    assert_eq!(narrowed[0].tests.len(), 1);
    assert_eq!(narrowed[0].tests[0].full_name, "NS.A.AddWorks");
}

#[test]
fn synthetic_classes_group_by_class_name() {
    let cs = vec![changed("A", "T1"), changed("B", "T2"), changed("A", "T3")];
    let classes = build_synthetic_classes(&cs);
    assert_eq!(classes.len(), 2);
    assert_eq!(classes[0].name, "A");
    assert_eq!(classes[0].namespace, "");
    assert_eq!(classes[0].tests.len(), 2);
    assert_eq!(classes[0].tests[1].name, "A.T3");
    assert_eq!(classes[0].tests[1].full_name, "A.T3");
    assert_eq!(classes[1].tests[0].name, "B.T2");
}

#[test]
fn progress_markers_and_counts() {
    assert!(is_progress_marker("  Passed NS.A.T1"));
    assert!(is_progress_marker("Failed NS.A.T2"));
    assert!(!is_progress_marker("Skipped NS.A.T3"));
    let rs = vec![
        TestResult { test_name: "a".to_string(), outcome: TestOutcome::Passed, duration_ms: 1, error_message: None },
        TestResult { test_name: "b".to_string(), outcome: TestOutcome::Failed, duration_ms: 1, error_message: None },
        TestResult { test_name: "c".to_string(), outcome: TestOutcome::Passed, duration_ms: 1, error_message: None },
    ];
    assert_eq!(outcome_counts(&rs), (2, 1, 0));
}
