use testament::pr::{extract_changed_tests, extract_namespace_class_from_path, is_test_file, parse_pr_url};

#[test]
fn test_parse_pr_url_valid() {
    let info = parse_pr_url("https://github.com/owner/repo/pull/123").unwrap();
    assert_eq!(info.owner, "owner");
    assert_eq!(info.repo, "repo");
    assert_eq!(info.number, 123);
}

#[test]
fn test_parse_pr_url_with_https() {
    let info = parse_pr_url("https://github.com/microsoft/vscode/pull/9999").unwrap();
    assert_eq!(info.owner, "microsoft");
    assert_eq!(info.repo, "vscode");
    assert_eq!(info.number, 9999);
}

#[test]
fn test_parse_pr_url_invalid() {
    assert!(parse_pr_url("https://gitlab.com/owner/repo/pull/123").is_err());
    assert!(parse_pr_url("not a url").is_err());
    assert!(parse_pr_url("https://github.com/owner/repo/issues/123").is_err());
}

#[test]
fn test_is_test_file() {
    assert!(is_test_file("MyClassTests.cs"));
    assert!(is_test_file("src/Tests/MyTest.cs"));
    assert!(is_test_file("Api.Tests/UserSpec.cs"));
    assert!(!is_test_file("MyClass.cs"));
    assert!(!is_test_file("Program.cs"));
}

#[test]
fn test_extract_changed_tests_simple_diff() {
    let diff = r#"diff --git a/Tests/MyTests.cs b/Tests/MyTests.cs
--- a/Tests/MyTests.cs
+++ b/Tests/MyTests.cs
@@ -10,6 +10,12 @@ public class MyTests
+    [Fact]
+    public void NewTest()
+    {
+        Assert.True(true);
+    }
"#;
    let tests = extract_changed_tests(diff);
    assert_eq!(tests.len(), 1);
    assert_eq!(tests[0].method_name, "NewTest");
}

#[test]
fn test_extract_namespace_class_from_path() {
    let (ns, class) = extract_namespace_class_from_path("src/Tests/Api/UserTests.cs");
    assert_eq!(class, "UserTests");
    assert!(ns.contains("Tests"));
}

#[test]
fn namespace_and_class_from_paths() {
    assert_eq!(
        extract_namespace_class_from_path("src/Tests/Api/UserTests.cs"),
        ("src.Tests.Api".to_string(), "UserTests".to_string())
    );
    assert_eq!(extract_namespace_class_from_path("Api.Tests/UserSpec.cs"), (String::new(), "UserSpec".to_string()));
    assert_eq!(
        extract_namespace_class_from_path("a\\b.c\\d\\File.cs"),
        ("a.d".to_string(), "a\\b.c\\d\\File".to_string())
    );
}

#[test]
fn changed_tests_carry_full_names_and_skip_non_test_files() {
    let diff = "+++ b/src/Tests/CalcTests.cs\n@@ -1 +1 @@\n+    public void ShouldAdd()\n+    public void Helper()\n+++ b/src/Program.cs\n@@ -1 +1 @@\n+    public void TestMain()\n";
    let tests = extract_changed_tests(diff);
    assert_eq!(tests.len(), 1);
    assert_eq!(tests[0].method_name, "ShouldAdd");
    assert_eq!(tests[0].class_name, "CalcTests");
    assert_eq!(tests[0].full_name, "src.Tests.CalcTests.ShouldAdd");
    assert_eq!(tests[0].file_path, "src/Tests/CalcTests.cs");
}

#[test]
fn pr_number_out_of_range_is_rejected() {
    assert!(parse_pr_url("https://github.com/o/r/pull/99999999999999999999999").is_err());
}
