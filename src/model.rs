//! The discovered test tree: projects, classes and tests, and the records
//! that a result report holds.

use vstd::prelude::*;
use crate::text::{dot_join, dotted};

verus! {

#[verifier::external_type_specification]
#[verifier::external_body]
pub struct ExPathBuf(std::path::PathBuf);

/// Relies on `PathBuf::clone`: the copy is the same path.
pub assume_specification[ <std::path::PathBuf as Clone>::clone ](p: &std::path::PathBuf) -> (r: std::path::PathBuf)
    ensures
        r == *p,
;

/// Where a test stands in the current session.
#[derive(Debug, Clone, Copy, PartialEq, Eq, Structural)]
pub enum TestStatus {
    NotRun,
    Running,
    Passed,
    Failed,
    Skipped,
}

/// One test of the tree.
#[derive(Debug)]
pub struct Test {
    /// Short, class-qualified display name.
    pub name: String,
    /// Fully qualified name: the key that correlation joins on.
    pub full_name: String,
    pub status: TestStatus,
    pub duration_ms: Option<u64>,
    pub error_message: Option<String>,
}

/// Whether `t` is a freshly discovered test with these names.
pub open spec fn is_fresh_test(t: Test, name: Seq<char>, full_name: Seq<char>) -> bool {
    &&& t.name@ == name
    &&& t.full_name@ == full_name
    &&& t.status == TestStatus::NotRun
    &&& t.duration_ms is None
    &&& t.error_message is None
}

impl Clone for Test {
    fn clone(&self) -> (r: Self)
        ensures
            r == *self,
    {
        Test {
            name: self.name.clone(),
            full_name: self.full_name.clone(),
            status: self.status,
            duration_ms: self.duration_ms,
            error_message: match &self.error_message {
                Some(m) => Some(m.clone()),
                None => None,
            },
        }
    }
}

impl Test {
    pub fn new(name: String, full_name: String) -> (r: Self)
        ensures
            is_fresh_test(r, name@, full_name@),
    {
        Test { name, full_name, status: TestStatus::NotRun, duration_ms: None, error_message: None }
    }
}

/// Full name of a class: `namespace.name`, or the bare name when the namespace is empty.
pub open spec fn class_full_name(namespace: Seq<char>, name: Seq<char>) -> Seq<char> {
    if namespace.len() == 0 {
        name
    } else {
        dot_join(namespace, name)
    }
}

/// A class of tests.
#[derive(Debug, Clone)]
pub struct TestClass {
    pub name: String,
    pub namespace: String,
    pub tests: Vec<Test>,
}

impl TestClass {
    pub open spec fn full_name_spec(&self) -> Seq<char> {
        class_full_name(self.namespace@, self.name@)
    }

    pub fn new(name: String, namespace: String) -> (r: Self)
        ensures
            r.name@ == name@,
            r.namespace@ == namespace@,
            r.tests@.len() == 0,
    {
        TestClass { name, namespace, tests: Vec::new() }
    }

    pub fn full_name(&self) -> (r: String)
        ensures
            r@ == self.full_name_spec(),
    {
        if self.namespace.as_str().is_empty() {
            self.name.clone()
        } else {
            dotted(self.namespace.as_str(), self.name.as_str())
        }
    }
}

/// Number of tests over a list of classes.
pub open spec fn total_tests(classes: Seq<TestClass>) -> nat
    decreases classes.len(),
{
    if classes.len() == 0 {
        0
    } else {
        total_tests(classes.drop_last()) + classes.last().tests@.len()
    }
}

/// A test project and the classes discovered in it.
#[derive(Debug, Clone)]
pub struct TestProject {
    pub name: String,
    pub path: std::path::PathBuf,
    pub classes: Vec<TestClass>,
}

impl TestProject {
    pub fn new(name: String, path: std::path::PathBuf) -> (r: Self)
        ensures
            r.name@ == name@,
            r.path == path,
            r.classes@.len() == 0,
    {
        TestProject { name, path, classes: Vec::new() }
    }

    pub fn test_count(&self) -> (r: usize)
        requires
            total_tests(self.classes@) <= usize::MAX,
        ensures
            r == total_tests(self.classes@),
    {
        let mut n: usize = 0;
        let mut i: usize = 0;
        while i < self.classes.len()
            invariant
                i <= self.classes@.len(),
                total_tests(self.classes@) <= usize::MAX,
                n == total_tests(self.classes@.subrange(0, i as int)),
            decreases self.classes@.len() - i,
        {
            assert(self.classes@.subrange(0, i + 1).drop_last() =~= self.classes@.subrange(0, i as int));
            proof {
                lemma_total_tests_prefix(self.classes@, i + 1);
            }
            n = n + self.classes[i].tests.len();
            i = i + 1;
        }
        assert(self.classes@.subrange(0, i as int) =~= self.classes@);
        n
    }
}

pub proof fn lemma_total_tests_prefix(cs: Seq<TestClass>, k: int)
    requires
        0 <= k <= cs.len(),
    ensures
        total_tests(cs.subrange(0, k)) <= total_tests(cs),
    decreases cs.len(),
{
    if k < cs.len() {
        assert(cs.drop_last().subrange(0, k) =~= cs.subrange(0, k));
        lemma_total_tests_prefix(cs.drop_last(), k);
    } else {
        assert(cs.subrange(0, k) =~= cs);
    }
}

/// Outcome of one record of a result report.
#[derive(Debug, Clone, Copy, PartialEq, Eq, Structural)]
pub enum TestOutcome {
    Passed,
    Failed,
    Skipped,
}

/// One record of a result report.
#[derive(Debug, Clone)]
pub struct TestResult {
    /// The test's name exactly as the report gives it.
    pub test_name: String,
    pub outcome: TestOutcome,
    pub duration_ms: u64,
    /// Failure message and stack trace, when the report gives any.
    pub error_message: Option<String>,
}

/// The status that a test takes on from an outcome.
pub open spec fn status_of(o: TestOutcome) -> TestStatus {
    match o {
        TestOutcome::Passed => TestStatus::Passed,
        TestOutcome::Failed => TestStatus::Failed,
        TestOutcome::Skipped => TestStatus::Skipped,
    }
}

/// One method declaration found in source: method, declaring class and namespace.
#[derive(Debug)]
pub struct TestMethodInfo {
    pub method_name: String,
    pub class_name: String,
    pub namespace: String,
}

impl Clone for TestMethodInfo {
    fn clone(&self) -> (r: Self)
        ensures
            r == *self,
    {
        TestMethodInfo {
            method_name: self.method_name.clone(),
            class_name: self.class_name.clone(),
            namespace: self.namespace.clone(),
        }
    }
}

impl TestMethodInfo {
    pub open spec fn class_key(&self) -> Seq<char> {
        class_full_name(self.namespace@, self.class_name@)
    }

    pub open spec fn full_name_spec(&self) -> Seq<char> {
        dot_join(self.class_key(), self.method_name@)
    }

    pub fn full_name(&self) -> (r: String)
        ensures
            r@ == self.full_name_spec(),
    {
        if self.namespace.as_str().is_empty() {
            dotted(self.class_name.as_str(), self.method_name.as_str())
        } else {
            let c = dotted(self.namespace.as_str(), self.class_name.as_str());
            dotted(c.as_str(), self.method_name.as_str())
        }
    }
}

} // verus!
