use testament::csharp::parse_test_content;


#[test]
fn test_parse_xunit_test() {
    let content = r#"
namespace MyTests
{
public class CalculatorTests
{
    [Fact]
    public void Add_ReturnsSum()
    {
    }

    [Theory]
    public void Add_WithData_ReturnsSum(int a, int b)
    {
    }
}
}
"#;
    let methods = parse_test_content(content).unwrap();
    assert_eq!(methods.len(), 2);
    assert_eq!(methods[0].method_name, "Add_ReturnsSum");
    assert_eq!(methods[0].class_name, "CalculatorTests");
    assert_eq!(methods[0].namespace, "MyTests");
    assert_eq!(methods[0].full_name(), "MyTests.CalculatorTests.Add_ReturnsSum");
}

#[test]
fn test_parse_nunit_test() {
    let content = r#"
namespace MyTests
{
public class StringTests
{
    [Test]
    public void TestLength()
    {
    }

    [TestCase("hello")]
    public void TestWithCase(string input)
    {
    }
}
}
"#;
    let methods = parse_test_content(content).unwrap();
    assert_eq!(methods.len(), 2);
}

#[test]
fn test_parse_mstest() {
    let content = r#"
namespace MyTests
{
public class DataTests
{
    [TestMethod]
    public void TestSomething()
    {
    }
}
}
"#;
    let methods = parse_test_content(content).unwrap();
    assert_eq!(methods.len(), 1);
    assert_eq!(methods[0].method_name, "TestSomething");
}

#[test]
fn test_nested_namespace() {
    let content = r#"
namespace Company.Product.Tests
{
public class MyTests
{
    [Fact]
    public void TestMethod()
    {
    }
}
}
"#;
    let methods = parse_test_content(content).unwrap();
    assert_eq!(methods.len(), 1);
    assert_eq!(methods[0].namespace, "Company.Product.Tests");
    assert_eq!(methods[0].full_name(), "Company.Product.Tests.MyTests.TestMethod");
}

#[test]
fn test_file_scoped_namespace() {
    let content = r#"
namespace MyTests;

public class MyTestClass
{
[Fact]
public void TestMethod()
{
}
}
"#;
    let methods = parse_test_content(content).unwrap();
    assert_eq!(methods.len(), 1);
    assert_eq!(methods[0].namespace, "MyTests");
}

#[test]
fn test_all_methods_collected() {
    // We collect ALL methods - dotnet test --list-tests tells us which are tests
    let content = r#"
namespace MyTests
{
public class MyTests
{
    [Fact]
    public void TestMethod()
    {
    }

    public void HelperMethod()
    {
    }

    private void SetUp()
    {
    }
}
}
"#;
    let methods = parse_test_content(content).unwrap();
    // All 3 methods are collected
    assert_eq!(methods.len(), 3);
    let names: Vec<_> = methods.iter().map(|m| m.method_name.as_str()).collect();
    assert!(names.contains(&"TestMethod"));
    assert!(names.contains(&"HelperMethod"));
    assert!(names.contains(&"SetUp"));
}
