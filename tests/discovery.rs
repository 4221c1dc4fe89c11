use testament::csharp::parse_test_content;
use testament::resolve::are_fqn_names;
use testament::resolve::build_test_name_map;
use testament::resolve::parse_fqn;
use testament::enumerate::is_test_project_name;
use testament::model::TestMethodInfo;
use testament::resolve::{group_tests_by_class, NameMap};


// is_test_project_name tests
#[test]
fn test_is_test_project_name_with_tests_suffix() {
    assert!(is_test_project_name("MyProjectTests"));
    assert!(is_test_project_name("UnitTests"));
    assert!(is_test_project_name("IntegrationTests"));
}

#[test]
fn test_is_test_project_name_with_test_suffix() {
    assert!(is_test_project_name("MyProjectTest"));
    assert!(is_test_project_name("UnitTest"));
    assert!(is_test_project_name("IntegrationTest"));
}

#[test]
fn test_is_test_project_name_with_dot_tests_suffix() {
    assert!(is_test_project_name("MyProject.Tests"));
    assert!(is_test_project_name("Company.Product.Tests"));
}

#[test]
fn test_is_test_project_name_with_dot_test_suffix() {
    assert!(is_test_project_name("MyProject.Test"));
    assert!(is_test_project_name("Company.Product.Test"));
}

#[test]
fn test_is_test_project_name_non_test_projects() {
    assert!(!is_test_project_name("MyProject"));
    assert!(!is_test_project_name("TestUtilities"));
    assert!(!is_test_project_name("Testing"));
    assert!(!is_test_project_name("TestsData"));
    assert!(!is_test_project_name("TestHelper"));
}

#[test]
fn test_is_test_project_name_empty() {
    assert!(!is_test_project_name(""));
}

#[test]
fn test_is_test_project_name_case_sensitive() {
    assert!(!is_test_project_name("MyProjecttests"));
    assert!(!is_test_project_name("MyProjectTESTS"));
    assert!(!is_test_project_name("MyProjecttest"));
}

// group_tests_by_class tests

fn make_test_info(method: &str, class: &str, namespace: &str) -> TestMethodInfo {
    TestMethodInfo {
        method_name: method.to_string(),
        class_name: class.to_string(),
        namespace: namespace.to_string(),
    }
}

#[test]
fn test_group_tests_empty_list() {
    let map = NameMap::new();
    let result = group_tests_by_class(vec![], &map);
    assert!(result.is_empty());
}

#[test]
fn test_group_tests_single_test_with_map() {
    let mut map = NameMap::new();
    map.insert("TestMethod".to_string(), make_test_info("TestMethod", "MyClass", "MyNamespace"));

    let tests = vec!["TestMethod".to_string()];
    let result = group_tests_by_class(tests, &map);

    assert_eq!(result.len(), 1);
    let class = &result[0];
    assert_eq!(class.name, "MyClass");
    assert_eq!(class.namespace, "MyNamespace");
    assert_eq!(class.tests.len(), 1);
    assert_eq!(class.tests[0].name, "TestMethod");
    assert_eq!(class.tests[0].full_name, "MyNamespace.MyClass.TestMethod");
}

#[test]
fn test_group_tests_multiple_tests_same_class_with_map() {
    let mut map = NameMap::new();
    map.insert("Test1".to_string(), make_test_info("Test1", "MyClass", "NS"));
    map.insert("Test2".to_string(), make_test_info("Test2", "MyClass", "NS"));
    map.insert("Test3".to_string(), make_test_info("Test3", "MyClass", "NS"));

    let tests = vec!["Test1".to_string(), "Test2".to_string(), "Test3".to_string()];
    let result = group_tests_by_class(tests, &map);

    assert_eq!(result.len(), 1);
    let class = &result[0];
    assert_eq!(class.name, "MyClass");
    assert_eq!(class.namespace, "NS");
    assert_eq!(class.tests.len(), 3);
}

#[test]
fn test_group_tests_multiple_classes_with_map() {
    let mut map = NameMap::new();
    map.insert("Test1".to_string(), make_test_info("Test1", "ClassA", "NS"));
    map.insert("Test2".to_string(), make_test_info("Test2", "ClassB", "NS"));
    map.insert("Test3".to_string(), make_test_info("Test3", "ClassA", "NS"));

    let tests = vec!["Test1".to_string(), "Test2".to_string(), "Test3".to_string()];
    let result = group_tests_by_class(tests, &map);

    assert_eq!(result.len(), 2);

    let class_a = result.iter().find(|c| c.name == "ClassA").unwrap();
    assert_eq!(class_a.tests.len(), 2);

    let class_b = result.iter().find(|c| c.name == "ClassB").unwrap();
    assert_eq!(class_b.tests.len(), 1);
}

#[test]
fn test_group_tests_fallback_when_not_in_map() {
    let map = NameMap::new();

    let tests = vec!["TestMethod".to_string()];
    let result = group_tests_by_class(tests, &map);

    assert_eq!(result.len(), 1);
    let class = &result[0];
    // Fallback: no class info, method goes into unnamed class
    assert_eq!(class.name, "");
    assert_eq!(class.namespace, "");
    assert_eq!(class.tests.len(), 1);
    assert_eq!(class.tests[0].name, "TestMethod");
}

#[test]
fn test_group_tests_mixed_found_and_not_found() {
    let mut map = NameMap::new();
    map.insert("Test1".to_string(), make_test_info("Test1", "MyClass", "NS"));

    let tests = vec!["Test1".to_string(), "UnknownTest".to_string()];
    let result = group_tests_by_class(tests, &map);

    // Test1 goes to NS.MyClass, UnknownTest goes to unnamed class
    assert_eq!(result.len(), 2);

    let known_class = result.iter().find(|c| c.name == "MyClass").unwrap();
    assert_eq!(known_class.tests.len(), 1);
    assert_eq!(known_class.tests[0].name, "Test1");

    let unknown_class = result.iter().find(|c| c.name.is_empty()).unwrap();
    assert_eq!(unknown_class.tests.len(), 1);
    assert_eq!(unknown_class.tests[0].name, "UnknownTest");
}

#[test]
fn test_group_tests_same_method_name_different_classes() {
    // Simulates the bug: two classes with identically-named methods
    let mut map = NameMap::new();
    map.insert("ShouldInit".to_string(), make_test_info("ShouldInit", "ClassA", "NS"));
    map.insert("ShouldInit".to_string(), make_test_info("ShouldInit", "ClassB", "NS"));
    map.insert("ShouldSave".to_string(), make_test_info("ShouldSave", "ClassA", "NS"));
    map.insert("ShouldSave".to_string(), make_test_info("ShouldSave", "ClassB", "NS"));

    // dotnet test --list-tests returns each method name twice (once per class)
    let tests = vec![
        "ShouldInit".to_string(),
        "ShouldInit".to_string(),
        "ShouldSave".to_string(),
        "ShouldSave".to_string(),
    ];
    let result = group_tests_by_class(tests, &map);

    assert_eq!(result.len(), 2);

    let class_a = result.iter().find(|c| c.name == "ClassA").unwrap();
    assert_eq!(class_a.tests.len(), 2);

    let class_b = result.iter().find(|c| c.name == "ClassB").unwrap();
    assert_eq!(class_b.tests.len(), 2);
}

#[test]
fn test_group_tests_fqn_input_matches_full_name_key() {
    // dotnet test --list-tests outputs fully qualified names like "NS.MyClass.TestMethod"
    // The name map has both full_name and bare method_name keys
    let mut map = NameMap::new();
    let info = make_test_info("TestMethod", "MyClass", "MyNamespace");
    map.insert("MyNamespace.MyClass.TestMethod".to_string(), info.clone());
    map.insert("TestMethod".to_string(), info);

    let tests = vec!["MyNamespace.MyClass.TestMethod".to_string()];
    let result = group_tests_by_class(tests, &map);

    assert_eq!(result.len(), 1);
    let class = &result[0];
    assert_eq!(class.name, "MyClass");
    assert_eq!(class.namespace, "MyNamespace");
    assert_eq!(class.tests.len(), 1);
}

#[test]
fn test_group_tests_parameterized_test_names() {
    // dotnet test --list-tests outputs parameterized tests with arguments:
    // "NS.MyClass.TestMethod(x: 1, expected: true)"
    let mut map = NameMap::new();
    let info = make_test_info("TestMethod", "MyClass", "NS");
    map.insert("NS.MyClass.TestMethod".to_string(), info.clone());
    map.insert("TestMethod".to_string(), info);

    let tests = vec![
        "NS.MyClass.TestMethod(x: 1, expected: true)".to_string(),
        "NS.MyClass.TestMethod(x: 2, expected: false)".to_string(),
    ];
    let result = group_tests_by_class(tests, &map);

    assert_eq!(result.len(), 1);
    let class = &result[0];
    assert_eq!(class.name, "MyClass");
    assert_eq!(class.namespace, "NS");
    assert_eq!(class.tests.len(), 2);
    // No Uncategorized class should exist
    assert!(result.iter().all(|c| !c.name.is_empty()));
}

#[test]
fn test_group_tests_bare_method_name_fallback() {
    // Bare method name (no dots) matched via name_map when FQN isn't available
    let mut map = NameMap::new();
    let info = make_test_info("TestMethod", "MyClass", "MyNamespace");
    map.insert("TestMethod".to_string(), info);

    let tests = vec!["TestMethod".to_string()];
    let result = group_tests_by_class(tests, &map);

    assert_eq!(result.len(), 1);
    let class = &result[0];
    assert_eq!(class.name, "MyClass");
    assert_eq!(class.namespace, "MyNamespace");
}

#[test]
fn test_group_tests_parameterized_bare_name_fallback() {
    // Parameterized bare name stripped and matched via name_map
    let mut map = NameMap::new();
    let info = make_test_info("Calculate", "CalcTests", "App");
    map.insert("Calculate".to_string(), info);

    let tests = vec![
        "Calculate(a: 1, b: 2)".to_string(),
    ];
    let result = group_tests_by_class(tests, &map);

    assert_eq!(result.len(), 1);
    let class = &result[0];
    assert_eq!(class.name, "CalcTests");
    assert_eq!(class.namespace, "App");
}

#[test]
fn test_group_tests_fqn_direct_parsing() {
    // FQN names (from vstest) are parsed directly without name_map
    let map = NameMap::new();

    let tests = vec![
        "MyNamespace.MyClass.TestAdd".to_string(),
        "MyNamespace.MyClass.TestDelete".to_string(),
        "MyNamespace.OtherClass.TestSave".to_string(),
    ];
    let result = group_tests_by_class(tests, &map);

    assert_eq!(result.len(), 2);
    let my_class = result.iter().find(|c| c.name == "MyClass").unwrap();
    assert_eq!(my_class.namespace, "MyNamespace");
    assert_eq!(my_class.tests.len(), 2);
    // Test names should be Class.Method, not full FQN
    assert_eq!(my_class.tests[0].name, "MyClass.TestAdd");
    assert_eq!(my_class.tests[0].full_name, "MyNamespace.MyClass.TestAdd");

    let other_class = result.iter().find(|c| c.name == "OtherClass").unwrap();
    assert_eq!(other_class.namespace, "MyNamespace");
    assert_eq!(other_class.tests.len(), 1);
    assert_eq!(other_class.tests[0].name, "OtherClass.TestSave");
}

#[test]
fn test_group_tests_fqn_with_deep_namespace() {
    // FQN with deep namespace like Enterprise.Module.Business.Test.ClassName.Method
    let map = NameMap::new();

    let tests = vec![
        "Enterprise.Module.Business.Test.MyTest.TestAdd".to_string(),
        "Enterprise.Module.Business.Test.MyTest.TestDelete".to_string(),
    ];
    let result = group_tests_by_class(tests, &map);

    assert_eq!(result.len(), 1);
    let class = &result[0];
    assert_eq!(class.name, "MyTest");
    assert_eq!(class.namespace, "Enterprise.Module.Business.Test");
    assert_eq!(class.tests.len(), 2);
    // Display name is Class.Method, not full namespace path
    assert_eq!(class.tests[0].name, "MyTest.TestAdd");
}


#[test]
fn duplicate_method_in_two_source_files_resolves_to_both_classes() {
    let a = "namespace NS { public class A { [Fact] public void T1() {} } }";
    let b = "namespace NS { public class B { [Fact] public void T1() {} } }";
    let mut methods = parse_test_content(a).unwrap();
    methods.extend(parse_test_content(b).unwrap());
    let map = build_test_name_map(methods);
    let result = group_tests_by_class(vec!["T1".to_string(), "T1".to_string()], &map);
    assert_eq!(result.len(), 2);
    assert_eq!(result[0].name, "A");
    assert_eq!(result[0].namespace, "NS");
    assert_eq!(result[0].tests.len(), 1);
    assert_eq!(result[0].tests[0].full_name, "NS.A.T1");
    assert_eq!(result[1].name, "B");
    assert_eq!(result[1].tests.len(), 1);
    assert_eq!(result[1].tests[0].full_name, "NS.B.T1");
}

#[test]
fn duplicates_spread_round_robin_over_three_owners() {
    let mut map = NameMap::new();
    map.insert("Run".to_string(), make_test_info("Run", "C1", "NS"));
    map.insert("Run".to_string(), make_test_info("Run", "C2", "NS"));
    map.insert("Run".to_string(), make_test_info("Run", "C3", "NS"));
    let tests = vec!["Run".to_string(), "Run".to_string(), "Run".to_string()];
    let result = group_tests_by_class(tests, &map);
    assert_eq!(result.len(), 3);
    for (i, class) in result.iter().enumerate() {
        assert_eq!(class.name, format!("C{}", i + 1));
        assert_eq!(class.tests.len(), 1);
        assert_eq!(class.tests[0].full_name, format!("NS.C{}.Run", i + 1));
    }
}

#[test]
fn bare_and_qualified_batches_group_alike() {
    let mut map = NameMap::new();
    map.insert("Add".to_string(), make_test_info("Add", "Calc", "App.Tests"));
    map.insert("Sub".to_string(), make_test_info("Sub", "Calc", "App.Tests"));
    map.insert("Open".to_string(), make_test_info("Open", "Files", "App.Tests"));
    let bare = group_tests_by_class(vec!["Open".to_string(), "Add".to_string(), "Sub".to_string()], &map);
    let fqn = group_tests_by_class(
        vec!["App.Tests.Files.Open".to_string(), "App.Tests.Calc.Add".to_string(), "App.Tests.Calc.Sub".to_string()],
        &NameMap::new(),
    );
    assert_eq!(bare.len(), fqn.len());
    for (b, f) in bare.iter().zip(fqn.iter()) {
        assert_eq!(b.name, f.name);
        assert_eq!(b.namespace, f.namespace);
        let bn: Vec<&String> = b.tests.iter().map(|t| &t.full_name).collect();
        let fnames: Vec<&String> = f.tests.iter().map(|t| &t.full_name).collect();
        assert_eq!(bn, fnames);
    }
}

#[test]
fn classes_and_tests_are_sorted_case_insensitively() {
    let tests = vec![
        "NS.beta.Zed".to_string(),
        "NS.Alpha.b".to_string(),
        "NS.Alpha.A".to_string(),
    ];
    let result = group_tests_by_class(tests, &NameMap::new());
    assert_eq!(result[0].name, "Alpha");
    assert_eq!(result[1].name, "beta");
    assert_eq!(result[0].tests[0].name, "Alpha.A");
    assert_eq!(result[0].tests[1].name, "Alpha.b");
}

#[test]
fn majority_decides_whether_a_batch_is_qualified() {
    assert!(!are_fqn_names(&vec![]));
    assert!(are_fqn_names(&vec!["A.B.C".to_string()]));
    assert!(!are_fqn_names(&vec!["A.B.C".to_string(), "D".to_string()]));
    assert!(are_fqn_names(&vec!["A.B.C".to_string(), "D".to_string(), "E.F.G(x: 1.5)".to_string()]));
    assert!(!are_fqn_names(&vec!["A.B(x: 1.5)".to_string()]));
}

#[test]
fn fully_qualified_names_split_at_last_two_dots() {
    assert_eq!(parse_fqn("A.B.C.D"), ("D".to_string(), "C".to_string(), "A.B".to_string()));
    assert_eq!(parse_fqn("C.M(x: 1.5)"), ("M".to_string(), "C".to_string(), String::new()));
    assert_eq!(parse_fqn("M"), ("M".to_string(), String::new(), String::new()));
}
