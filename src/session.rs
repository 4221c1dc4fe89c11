//! Events between the engine and its front end, and the tree updates that a
//! run or a pull-request selection makes.

use vstd::prelude::*;
use crate::items::passes_filter;
use crate::model::{Test, TestClass, TestOutcome, TestResult, TestStatus, is_fresh_test};
use crate::pr::ChangedTest;
use crate::resolve::{entry_view, group_all, group_entries, group_view};
use crate::text::{
    after_last, chars_of, contains, dot_join, has_infix, has_prefix_str, lower_of, lowercase,
    rfind_char, same, slice, starts_with, string_of, trim, trimmed, lemma_last_index_of_bounds,
};

verus! {

/// Events of a discovery round.
pub enum DiscoveryEvent {
    /// Tests discovered for the project at this index.
    ProjectDiscovered(usize, Vec<TestClass>),
    /// Discovery failed for the project at this index, with a message.
    ProjectError(usize, String),
    /// Every project has been handled; always the last event.
    Complete,
}

/// Events of a run or build.
pub enum ExecutorEvent {
    OutputLine(String),
    BuildCompleted(bool),
    Completed(Vec<TestResult>),
    Error(String),
}

/// Runs and builds one project.
pub struct TestExecutor {
    pub project_path: std::path::PathBuf,
}

impl TestExecutor {
    pub fn new(project_path: std::path::PathBuf) -> (r: Self)
        ensures
            r.project_path == project_path,
    {
        TestExecutor { project_path }
    }
}

/// Whether a progress line of a run marks one finished test.
pub open spec fn is_progress_marker_spec(line: Seq<char>) -> bool {
    starts_with(trim(line), "Passed"@) || starts_with(trim(line), "Failed"@)
}

pub fn is_progress_marker(line: &str) -> (r: bool)
    ensures
        r == is_progress_marker_spec(line@),
{
    let l = chars_of(line);
    let t = trimmed(l.as_slice());
    has_prefix_str(t.as_slice(), "Passed") || has_prefix_str(t.as_slice(), "Failed")
}

/// Number of records with the given outcome.
pub open spec fn count_outcome(rs: Seq<TestResult>, o: TestOutcome) -> nat
    decreases rs.len(),
{
    if rs.len() == 0 {
        0
    } else {
        count_outcome(rs.drop_last(), o) + if rs.last().outcome == o {
            1nat
        } else {
            0nat
        }
    }
}

proof fn lemma_count_outcome_bound(rs: Seq<TestResult>, o: TestOutcome)
    ensures
        count_outcome(rs, o) <= rs.len(),
    decreases rs.len(),
{
    if rs.len() > 0 {
        lemma_count_outcome_bound(rs.drop_last(), o);
    }
}

/// (passed, failed, skipped) counts of a run's records.
pub fn outcome_counts(results: &Vec<TestResult>) -> (r: (usize, usize, usize))
    ensures
        r.0 == count_outcome(results@, TestOutcome::Passed),
        r.1 == count_outcome(results@, TestOutcome::Failed),
        r.2 == count_outcome(results@, TestOutcome::Skipped),
{
    let mut p: usize = 0;
    let mut f: usize = 0;
    let mut s: usize = 0;
    let mut i: usize = 0;
    while i < results.len()
        invariant
            i <= results@.len(),
            p == count_outcome(results@.subrange(0, i as int), TestOutcome::Passed),
            f == count_outcome(results@.subrange(0, i as int), TestOutcome::Failed),
            s == count_outcome(results@.subrange(0, i as int), TestOutcome::Skipped),
        decreases results@.len() - i,
    {
        let ghost pre = results@.subrange(0, i + 1);
        assert(pre.drop_last() =~= results@.subrange(0, i as int));
        proof {
            lemma_count_outcome_bound(results@.subrange(0, i as int), TestOutcome::Passed);
            lemma_count_outcome_bound(results@.subrange(0, i as int), TestOutcome::Failed);
            lemma_count_outcome_bound(results@.subrange(0, i as int), TestOutcome::Skipped);
        }
        match results[i].outcome {
            TestOutcome::Passed => p = p + 1,
            TestOutcome::Failed => f = f + 1,
            TestOutcome::Skipped => s = s + 1,
        }
        i = i + 1;
    }
    assert(results@.subrange(0, i as int) =~= results@);
    (p, f, s)
}

/// Whether a test is one of the listed ones: its full name is listed, or,
/// when `by_last_segment`, is the last dotted segment of a listed name.
pub open spec fn is_listed(full: Seq<char>, names: Seq<Seq<char>>, by_last_segment: bool) -> bool {
    names.contains(full) || (by_last_segment && exists|k: int|
        0 <= k < names.len() && #[trigger] names[k].contains('.') && after_last(names[k], '.') == full)
}

fn listed_name(full: &[char], names: &Vec<String>, by_last_segment: bool) -> (r: bool)
    ensures
        r == is_listed(full@, names@.map_values(|s: String| s@), by_last_segment),
{
    let ghost nv = names@.map_values(|s: String| s@);
    let mut found = false;
    let mut seg = false;
    let mut i: usize = 0;
    while i < names.len()
        invariant
            i <= names@.len(),
            nv == names@.map_values(|s: String| s@),
            found == nv.subrange(0, i as int).contains(full@),
            seg == exists|k: int| 0 <= k < i && #[trigger] nv[k].contains('.') && after_last(nv[k], '.') == full@,
        decreases names@.len() - i,
    {
        let n = chars_of(names[i].as_str());
        assert(nv[i as int] == n@);
        if same(n.as_slice(), full) {
            found = true;
        }
        let len = n.len();
        proof {
            lemma_last_index_of_bounds(n@, '.');
            if n@.contains('.') {
                let w = choose|w: int| 0 <= w < n@.len() && n@[w] == '.';
                assert(crate::text::last_index_of(n@, '.') >= w);
            }
        }
        match rfind_char(n.as_slice(), '.') {
            Some(d) => {
                let last = slice(n.as_slice(), d + 1, len);
                if same(last.as_slice(), full) {
                    seg = true;
                }
            },
            None => {},
        }
        let ghost a = nv.subrange(0, i as int);
        let ghost b = nv.subrange(0, i + 1);
        assert(b =~= a.push(nv[i as int]));
        assert(b.contains(full@) == (a.contains(full@) || nv[i as int] == full@)) by {
            if b.contains(full@) {
                let k = choose|k: int| 0 <= k < b.len() && b[k] == full@;
                if k < i {
                    assert(a[k] == full@);
                }
            }
            if a.contains(full@) {
                let k = choose|k: int| 0 <= k < a.len() && a[k] == full@;
                assert(b[k] == full@);
            }
            if nv[i as int] == full@ {
                assert(b[i as int] == full@);
            }
        }
        i = i + 1;
    }
    assert(nv.subrange(0, i as int) =~= nv);
    found || (by_last_segment && seg)
}

/// Marks running every test that `is_listed`; the other tests are unchanged.
pub fn mark_tests_running(classes: &mut Vec<TestClass>, names: &Vec<String>, by_last_segment: bool)
    ensures
        final(classes)@.len() == old(classes)@.len(),
        forall|i: int| 0 <= i < old(classes)@.len() ==> crate::correlate::same_shape(#[trigger] final(classes)@[i], old(classes)@[i]),
        forall|i: int, j: int|
            0 <= i < old(classes)@.len() && 0 <= j < old(classes)@[i].tests@.len() ==> {
                let o = old(classes)@[i].tests@[j];
                #[trigger] final(classes)@[i].tests@[j] == if is_listed(o.full_name@, names@.map_values(|s: String| s@), by_last_segment) {
                    Test { status: TestStatus::Running, ..o }
                } else {
                    o
                }
            },
{
    let ghost nv = names@.map_values(|s: String| s@);
    let ghost old_cs = classes@;
    let mut out: Vec<TestClass> = Vec::new();
    let mut i: usize = 0;
    while i < classes.len()
        invariant
            i <= classes@.len(),
            classes@ == old_cs,
            nv == names@.map_values(|s: String| s@),
            out@.len() == i,
            forall|x: int| 0 <= x < i ==> crate::correlate::same_shape(#[trigger] out@[x], old_cs[x]),
            forall|x: int, j: int|
                0 <= x < i && 0 <= j < old_cs[x].tests@.len() ==> #[trigger] out@[x].tests@[j] == if is_listed(old_cs[x].tests@[j].full_name@, nv, by_last_segment) {
                    Test { status: TestStatus::Running, ..old_cs[x].tests@[j] }
                } else {
                    old_cs[x].tests@[j]
                },
        decreases classes@.len() - i,
    {
        let c = &classes[i];
        let mut tests: Vec<Test> = Vec::new();
        let mut j: usize = 0;
        while j < c.tests.len()
            invariant
                j <= c.tests@.len(),
                nv == names@.map_values(|s: String| s@),
                tests@.len() == j,
                forall|y: int| 0 <= y < j ==> #[trigger] tests@[y] == if is_listed(c.tests@[y].full_name@, nv, by_last_segment) {
                    Test { status: TestStatus::Running, ..c.tests@[y] }
                } else {
                    c.tests@[y]
                },
            decreases c.tests@.len() - j,
        {
            let mut t = c.tests[j].clone();
            let fc = chars_of(t.full_name.as_str());
            if listed_name(fc.as_slice(), names, by_last_segment) {
                t.status = TestStatus::Running;
            }
            tests.push(t);
            j = j + 1;
        }
        let ghost tv = tests@;
        let ghost prev = out@;
        out.push(TestClass { name: c.name.clone(), namespace: c.namespace.clone(), tests });
        assert(out@[i as int].tests@ == tv);
        assert forall|x: int, j: int|
            0 <= x < i + 1 && 0 <= j < old_cs[x].tests@.len() implies #[trigger] out@[x].tests@[j] == if is_listed(old_cs[x].tests@[j].full_name@, nv, by_last_segment) {
                Test { status: TestStatus::Running, ..old_cs[x].tests@[j] }
            } else {
                old_cs[x].tests@[j]
            } by {
            if x < i {
                assert(out@[x] == prev[x]);
                assert(prev[x].tests@[j] == out@[x].tests@[j]);
            } else {
                assert(out@[x].tests@[j] == tv[j]);
            }
        }
        i = i + 1;
    }
    *classes = out;
}

/// Marks every test of the tree running.
pub fn mark_all_tests_running(classes: &mut Vec<TestClass>)
    ensures
        final(classes)@.len() == old(classes)@.len(),
        forall|i: int| 0 <= i < old(classes)@.len() ==> crate::correlate::same_shape(#[trigger] final(classes)@[i], old(classes)@[i]),
        forall|i: int, j: int|
            0 <= i < old(classes)@.len() && 0 <= j < old(classes)@[i].tests@.len() ==> #[trigger] final(classes)@[i].tests@[j]
                == (Test { status: TestStatus::Running, ..old(classes)@[i].tests@[j] }),
{
    let ghost old_cs = classes@;
    let mut out: Vec<TestClass> = Vec::new();
    let mut i: usize = 0;
    while i < classes.len()
        invariant
            i <= classes@.len(),
            classes@ == old_cs,
            out@.len() == i,
            forall|x: int| 0 <= x < i ==> crate::correlate::same_shape(#[trigger] out@[x], old_cs[x]),
            forall|x: int, j: int|
                0 <= x < i && 0 <= j < old_cs[x].tests@.len() ==> #[trigger] out@[x].tests@[j]
                    == (Test { status: TestStatus::Running, ..old_cs[x].tests@[j] }),
        decreases classes@.len() - i,
    {
        let c = &classes[i];
        let mut tests: Vec<Test> = Vec::new();
        let mut j: usize = 0;
        while j < c.tests.len()
            invariant
                j <= c.tests@.len(),
                tests@.len() == j,
                forall|y: int| 0 <= y < j ==> #[trigger] tests@[y] == (Test { status: TestStatus::Running, ..c.tests@[y] }),
            decreases c.tests@.len() - j,
        {
            let mut t = c.tests[j].clone();
            t.status = TestStatus::Running;
            tests.push(t);
            j = j + 1;
        }
        let ghost tv = tests@;
        let ghost prev = out@;
        out.push(TestClass { name: c.name.clone(), namespace: c.namespace.clone(), tests });
        assert(out@[i as int].tests@ == tv);
        assert forall|x: int, j: int|
            0 <= x < i + 1 && 0 <= j < old_cs[x].tests@.len() implies #[trigger] out@[x].tests@[j]
                == (Test { status: TestStatus::Running, ..old_cs[x].tests@[j] }) by {
            if x < i {
                assert(out@[x] == prev[x]);
                assert(prev[x].tests@[j] == out@[x].tests@[j]);
            } else {
                assert(out@[x].tests@[j] == tv[j]);
            }
        }
        i = i + 1;
    }
    *classes = out;
}

/// Full names of the tests whose names pass the filter, each once, in tree order.
pub open spec fn filtered_names(keys: Seq<crate::correlate::TestKey>, filter: Seq<char>) -> Seq<Seq<char>>
    decreases keys.len(),
{
    if keys.len() == 0 {
        Seq::empty()
    } else if passes_filter(keys.last().1, filter) {
        crate::pr::add_unique(filtered_names(keys.drop_last(), filter), keys.last().0)
    } else {
        filtered_names(keys.drop_last(), filter)
    }
}

fn add_unique_string(v: &mut Vec<String>, s: String)
    ensures
        final(v)@.map_values(|x: String| x@) == crate::pr::add_unique(old(v)@.map_values(|x: String| x@), s@),
{
    let ghost before = v@.map_values(|x: String| x@);
    let sc = chars_of(s.as_str());
    let mut i: usize = 0;
    while i < v.len()
        invariant
            i <= v@.len(),
            before == v@.map_values(|x: String| x@),
            sc@ == s@,
            forall|j: int| 0 <= j < i ==> before[j] != s@,
        decreases v@.len() - i,
    {
        let c = chars_of(v[i].as_str());
        if same(c.as_slice(), sc.as_slice()) {
            assert(before[i as int] == s@);
            return;
        }
        i = i + 1;
    }
    let ghost sv = s@;
    v.push(s);
    assert(v@.map_values(|x: String| x@) =~= before.push(sv));
}

/// Full names of the tests whose names pass the filter (see `passes_filter`).
pub fn get_filtered_tests(classes: &Vec<TestClass>, filter: &str) -> (r: Vec<String>)
    ensures
        r@.map_values(|x: String| x@) == filtered_names(crate::correlate::tree_keys(classes@), filter@),
{
    let keys = crate::correlate::collect_keys(classes);
    let ghost kv = crate::correlate::keys_view(keys@);
    let lowered = chars_of(lowercase(filter).as_str());
    let mut out: Vec<String> = Vec::new();
    let mut i: usize = 0;
    assert(kv.subrange(0, 0) =~= Seq::<crate::correlate::TestKey>::empty());
    assert(out@.map_values(|x: String| x@) =~= Seq::<Seq<char>>::empty());
    while i < keys.len()
        invariant
            i <= keys@.len(),
            kv == crate::correlate::keys_view(keys@),
            lowered@ == lower_of(filter@),
            out@.map_values(|x: String| x@) == filtered_names(kv.subrange(0, i as int), filter@),
        decreases keys@.len() - i,
    {
        let ghost pre = kv.subrange(0, i + 1);
        assert(pre.drop_last() =~= kv.subrange(0, i as int));
        assert(pre.last() == kv[i as int]);
        let name = string_of(keys[i].1.as_slice());
        let pass = if filter.is_empty() {
            true
        } else {
            let l = chars_of(lowercase(name.as_str()).as_str());
            has_infix(l.as_slice(), lowered.as_slice())
        };
        if pass {
            add_unique_string(&mut out, string_of(keys[i].0.as_slice()));
        }
        i = i + 1;
    }
    assert(kv.subrange(0, i as int) =~= kv);
    out
}

/// Whether a test name goes with one of the changed methods: either name
/// contains the other.
pub open spec fn goes_with_changed(name: Seq<char>, methods: Seq<Seq<char>>) -> bool {
    exists|k: int| 0 <= k < methods.len() && (contains(name, #[trigger] methods[k]) || contains(methods[k], name))
}

pub open spec fn changed_tests_in(ts: Seq<Test>, methods: Seq<Seq<char>>) -> Seq<Test>
    decreases ts.len(),
{
    if ts.len() == 0 {
        Seq::empty()
    } else if goes_with_changed(ts.last().name@, methods) {
        changed_tests_in(ts.drop_last(), methods).push(ts.last())
    } else {
        changed_tests_in(ts.drop_last(), methods)
    }
}

/// Classes narrowed to the tests that go with changed methods; classes left
/// with no test are dropped.
pub open spec fn narrowed(cs: Seq<TestClass>, methods: Seq<Seq<char>>) -> Seq<(Seq<char>, Seq<char>, Seq<Test>)>
    decreases cs.len(),
{
    if cs.len() == 0 {
        Seq::empty()
    } else {
        let kept = changed_tests_in(cs.last().tests@, methods);
        if kept.len() > 0 {
            narrowed(cs.drop_last(), methods).push((cs.last().name@, cs.last().namespace@, kept))
        } else {
            narrowed(cs.drop_last(), methods)
        }
    }
}

pub open spec fn class_triple(c: TestClass) -> (Seq<char>, Seq<char>, Seq<Test>) {
    (c.name@, c.namespace@, c.tests@)
}

fn goes_with(name: &[char], methods: &Vec<Vec<char>>) -> (r: bool)
    ensures
        r == goes_with_changed(name@, methods@.map_values(|m: Vec<char>| m@)),
{
    let ghost mv = methods@.map_values(|m: Vec<char>| m@);
    let mut i: usize = 0;
    while i < methods.len()
        invariant
            i <= methods@.len(),
            mv == methods@.map_values(|m: Vec<char>| m@),
            forall|k: int| 0 <= k < i ==> !(contains(name@, #[trigger] mv[k]) || contains(mv[k], name@)),
        decreases methods@.len() - i,
    {
        assert(mv[i as int] == methods@[i as int]@);
        if has_infix(name, methods[i].as_slice()) || has_infix(methods[i].as_slice(), name) {
            return true;
        }
        i = i + 1;
    }
    false
}

/// The classes narrowed to the tests that go with the changed tests' methods.
pub fn filter_classes_to_tests(classes: &Vec<TestClass>, changed_tests: &Vec<ChangedTest>) -> (r: Vec<TestClass>)
    ensures
        r@.map_values(|c: TestClass| class_triple(c)) == narrowed(
            classes@,
            changed_tests@.map_values(|c: ChangedTest| c.method_name@),
        ),
{
    let ghost mv = changed_tests@.map_values(|c: ChangedTest| c.method_name@);
    let mut methods: Vec<Vec<char>> = Vec::new();
    let mut i: usize = 0;
    while i < changed_tests.len()
        invariant
            i <= changed_tests@.len(),
            mv == changed_tests@.map_values(|c: ChangedTest| c.method_name@),
            methods@.map_values(|m: Vec<char>| m@) == mv.subrange(0, i as int),
        decreases changed_tests@.len() - i,
    {
        let ghost prev = methods@.map_values(|m: Vec<char>| m@);
        methods.push(chars_of(changed_tests[i].method_name.as_str()));
        assert(methods@.map_values(|m: Vec<char>| m@) =~= prev.push(mv[i as int]));
        assert(mv.subrange(0, i + 1) =~= mv.subrange(0, i as int).push(mv[i as int]));
        i = i + 1;
    }
    assert(mv.subrange(0, i as int) =~= mv);
    let mut out: Vec<TestClass> = Vec::new();
    let mut i: usize = 0;
    assert(classes@.subrange(0, 0) =~= Seq::<TestClass>::empty());
    assert(out@.map_values(|c: TestClass| class_triple(c)) =~= Seq::<(Seq<char>, Seq<char>, Seq<Test>)>::empty());
    while i < classes.len()
        invariant
            i <= classes@.len(),
            methods@.map_values(|m: Vec<char>| m@) == mv,
            out@.map_values(|c: TestClass| class_triple(c)) == narrowed(classes@.subrange(0, i as int), mv),
        decreases classes@.len() - i,
    {
        let c = &classes[i];
        let ghost pre = classes@.subrange(0, i + 1);
        assert(pre.drop_last() =~= classes@.subrange(0, i as int));
        let mut kept: Vec<Test> = Vec::new();
        let mut j: usize = 0;
        assert(c.tests@.subrange(0, 0) =~= Seq::<Test>::empty());
        while j < c.tests.len()
            invariant
                j <= c.tests@.len(),
                methods@.map_values(|m: Vec<char>| m@) == mv,
                kept@ == changed_tests_in(c.tests@.subrange(0, j as int), mv),
            decreases c.tests@.len() - j,
        {
            assert(c.tests@.subrange(0, j + 1).drop_last() =~= c.tests@.subrange(0, j as int));
            let n = chars_of(c.tests[j].name.as_str());
            if goes_with(n.as_slice(), &methods) {
                kept.push(c.tests[j].clone());
            }
            j = j + 1;
        }
        assert(c.tests@.subrange(0, j as int) =~= c.tests@);
        if kept.len() > 0 {
            let ghost prev = out@.map_values(|c: TestClass| class_triple(c));
            let nc = TestClass { name: c.name.clone(), namespace: c.namespace.clone(), tests: kept };
            let ghost t = class_triple(nc);
            out.push(nc);
            assert(out@.map_values(|c: TestClass| class_triple(c)) =~= prev.push(t));
        }
        i = i + 1;
    }
    assert(classes@.subrange(0, i as int) =~= classes@);
    out
}

/// The entries of changed tests: class name, and `class.method` as both
/// display and full name.
pub open spec fn synthetic_entries(cs: Seq<ChangedTest>) -> Seq<crate::resolve::Entry> {
    Seq::new(cs.len(), |i: int| {
        let d = dot_join(cs[i].class_name@, cs[i].method_name@);
        (cs[i].class_name@, d, d)
    })
}

/// Classes made up from changed tests alone, one per class name in order of
/// first appearance, each test named `class.method`.
pub fn build_synthetic_classes(changed_tests: &Vec<ChangedTest>) -> (r: Vec<TestClass>)
    ensures
        r@.len() == group_entries(synthetic_entries(changed_tests@)).len(),
        forall|i: int| 0 <= i < r@.len() ==> {
            let g = #[trigger] group_entries(synthetic_entries(changed_tests@))[i];
            &&& r@[i].name@ == g.0
            &&& r@[i].namespace@.len() == 0
            &&& r@[i].tests@.len() == g.1.len()
            &&& forall|k: int| 0 <= k < g.1.len() ==> is_fresh_test(#[trigger] r@[i].tests@[k], g.1[k].0, g.1[k].1)
        },
{
    let ghost es = synthetic_entries(changed_tests@);
    let mut entries: Vec<(Vec<char>, String, String)> = Vec::new();
    let mut i: usize = 0;
    while i < changed_tests.len()
        invariant
            i <= changed_tests@.len(),
            es == synthetic_entries(changed_tests@),
            entry_view(entries@) == es.subrange(0, i as int),
        decreases changed_tests@.len() - i,
    {
        let ct = &changed_tests[i];
        let d = crate::text::dotted(ct.class_name.as_str(), ct.method_name.as_str());
        let ghost prev = entry_view(entries@);
        entries.push((chars_of(ct.class_name.as_str()), d.clone(), d));
        assert(entry_view(entries@) =~= prev.push(es[i as int]));
        assert(es.subrange(0, i + 1) =~= es.subrange(0, i as int).push(es[i as int]));
        i = i + 1;
    }
    assert(es.subrange(0, i as int) =~= es);
    let gs = group_all(entries);
    let ghost gv = group_view(gs@);
    let mut out: Vec<TestClass> = Vec::new();
    let mut g: usize = 0;
    while g < gs.len()
        invariant
            g <= gs@.len(),
            gv == group_view(gs@),
            gv == group_entries(es),
            out@.len() == g,
            forall|x: int| 0 <= x < g ==> {
                &&& (#[trigger] out@[x]).name@ == gv[x].0
                &&& out@[x].namespace@.len() == 0
                &&& out@[x].tests@.len() == gv[x].1.len()
                &&& forall|k: int| 0 <= k < gv[x].1.len() ==> is_fresh_test(#[trigger] out@[x].tests@[k], gv[x].1[k].0, gv[x].1[k].1)
            },
        decreases gs@.len() - g,
    {
        let grp = &gs[g];
        let mut tests: Vec<Test> = Vec::new();
        let mut k: usize = 0;
        while k < grp.1.len()
            invariant
                k <= grp.1@.len(),
                tests@.len() == k,
                forall|y: int| 0 <= y < k ==> is_fresh_test(#[trigger] tests@[y], grp.1@[y].0@, grp.1@[y].1@),
            decreases grp.1@.len() - k,
        {
            tests.push(Test::new(grp.1[k].0.clone(), grp.1[k].1.clone()));
            k = k + 1;
        }
        let ghost tv = tests@;
        let ghost prev = out@;
        out.push(TestClass { name: string_of(grp.0.as_slice()), namespace: string_of(&[]), tests });
        assert forall|x: int| 0 <= x < g + 1 implies {
            &&& (#[trigger] out@[x]).name@ == gv[x].0
            &&& out@[x].namespace@.len() == 0
            &&& out@[x].tests@.len() == gv[x].1.len()
            &&& forall|k: int| 0 <= k < gv[x].1.len() ==> is_fresh_test(#[trigger] out@[x].tests@[k], gv[x].1[k].0, gv[x].1[k].1)
        } by {
            if x < g {
                assert(out@[x] == prev[x]);
            } else {
                assert(out@[x].tests@ == tv);
                assert forall|k: int| 0 <= k < gv[x].1.len() implies is_fresh_test(#[trigger] out@[x].tests@[k], gv[x].1[k].0, gv[x].1[k].1) by {
                    assert(gv[x].1[k] == (grp.1@[k].0@, grp.1@[k].1@));
                }
            }
        }
        g = g + 1;
    }
    out
}

} // verus!
