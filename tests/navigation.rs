use testament::banner::{phrase_index, random_ready_phrase, random_startup_phrase, ready_phrase, startup_art, startup_phrase};
use testament::items::TestListItem;
use testament::model::{Test, TestClass, TestStatus};
use testament::navigation::{
    class_status, class_test_names, find_test, next_group, prev_group, status_symbol, status_text,
    toggle_expand_collapse_all, toggle_key,
};

fn class_with(statuses: &[(&str, TestStatus)]) -> TestClass {
    let mut c = TestClass::new("C".to_string(), "NS".to_string());
    for (n, s) in statuses {
        let mut t = Test::new(n.to_string(), format!("NS.C.{}", n));
        t.status = *s;
        c.tests.push(t);
    }
    c
}

#[test]
fn aggregate_class_status() {
    assert_eq!(class_status(&class_with(&[("a", TestStatus::Passed), ("b", TestStatus::Failed)]), ""), TestStatus::Failed);
    assert_eq!(class_status(&class_with(&[("a", TestStatus::Passed), ("b", TestStatus::Running)]), ""), TestStatus::Running);
    assert_eq!(class_status(&class_with(&[("a", TestStatus::NotRun)]), ""), TestStatus::NotRun);
    assert_eq!(class_status(&class_with(&[("a", TestStatus::Skipped), ("b", TestStatus::Passed)]), ""), TestStatus::Passed);
    assert_eq!(class_status(&class_with(&[("a", TestStatus::Skipped), ("b", TestStatus::NotRun)]), ""), TestStatus::Skipped);
    assert_eq!(class_status(&class_with(&[("keep", TestStatus::Passed), ("drop", TestStatus::Failed)]), "KEEP"), TestStatus::Passed);
    assert_eq!(class_status(&class_with(&[]), ""), TestStatus::NotRun);
}

#[test]
fn status_words_and_symbols() {
    assert_eq!(status_symbol(TestStatus::NotRun), " ");
    assert_eq!(status_symbol(TestStatus::Failed), "x");
    assert_eq!(status_text(TestStatus::NotRun), "NOT RUN");
    assert_eq!(status_text(TestStatus::Skipped), "SKIPPED");
}

#[test]
fn group_jumps_wrap_around() {
    let items = vec![
        TestListItem::Class("A".to_string()),
        TestListItem::Test("A.1".to_string()),
        TestListItem::Class("B".to_string()),
        TestListItem::Test("B.1".to_string()),
    ];
    assert_eq!(next_group(&items, 0), Some(2));
    assert_eq!(next_group(&items, 2), Some(0));
    assert_eq!(prev_group(&items, 3), Some(2));
    assert_eq!(prev_group(&items, 2), Some(0));
    assert_eq!(prev_group(&items, 0), Some(2));
    assert_eq!(next_group(&vec![TestListItem::Test("x".to_string())], 0), None);
}

#[test]
fn toggling_keys() {
    let mut set: Vec<String> = Vec::new();
    toggle_key(&mut set, "P::NS.A".to_string());
    assert_eq!(set, vec!["P::NS.A".to_string()]);
    toggle_key(&mut set, "P::NS.B".to_string());
    toggle_key(&mut set, "P::NS.A".to_string());
    assert_eq!(set, vec!["P::NS.B".to_string()]);
}

#[test]
fn expand_and_collapse_all() {
    let classes = vec![TestClass::new("A".to_string(), "NS".to_string()), TestClass::new("B".to_string(), "NS".to_string())];
    let mut collapsed = vec!["Other::NS.A".to_string()];
    toggle_expand_collapse_all(&mut collapsed, "P", &classes);
    assert_eq!(collapsed, vec!["Other::NS.A".to_string(), "P::NS.A".to_string(), "P::NS.B".to_string()]);
    toggle_expand_collapse_all(&mut collapsed, "P", &classes);
    assert_eq!(collapsed, vec!["Other::NS.A".to_string()]);
}

#[test]
fn finding_tests_and_class_members() {
    let mut a = TestClass::new("A".to_string(), "NS".to_string());
    a.tests.push(Test::new("T1".to_string(), "NS.A.T1".to_string()));
    let empty = TestClass::new("E".to_string(), "NS".to_string());
    let classes = vec![empty, a];
    assert_eq!(find_test(&classes, "NS.A.T1"), Some((1, 0)));
    assert_eq!(find_test(&classes, "NS.A.T2"), None);
    assert_eq!(class_test_names(&classes, "NS.A"), Some(vec!["NS.A.T1".to_string()]));
    assert_eq!(class_test_names(&classes, "NS.E"), None);
}

#[test]
fn phrases_and_banner() {
    assert_eq!(phrase_index(0, 8), 0);
    assert_eq!(phrase_index(3, 8), 3);
    assert_eq!(phrase_index(1 << 17, 5), ((1u128 << 17) ^ 1) as usize % 5);
    assert_eq!(startup_phrase(0), "Gathering the witnesses...");
    assert_eq!(ready_phrase(10), "Prepared to testify.");
    assert!(random_startup_phrase().ends_with("..."));
    assert!(random_ready_phrase().ends_with('.'));
    assert!(startup_art().contains('▒'));
}
