//! Result correlation: matching report records back onto the discovered tree.

use vstd::prelude::*;
use crate::model::{Test, TestClass, TestStatus, TestResult, status_of, total_tests, lemma_total_tests_prefix};
use crate::text::{after_last, chars_of, ends_with, has_suffix, lemma_last_index_of_bounds, rfind_char, same, slice};

verus! {

/// What correlation reads of one test: full name, display name, status.
pub type TestKey = (Seq<char>, Seq<char>, TestStatus);

/// Whether record name `r` and full name `f` name the same test up to
/// qualification depth: equal, or one is the other preceded by a dot.
pub open spec fn dotted_suffix(r: Seq<char>, f: Seq<char>) -> bool {
    ends_with(r, seq!['.'] + f) || ends_with(f, seq!['.'] + r)
}

/// The criterion of a matching pass for test `t` and record name `r`.
pub open spec fn criterion(pass: int, t: TestKey, r: Seq<char>) -> bool {
    if pass == 0 {
        r == t.0
    } else if pass == 1 {
        dotted_suffix(r, t.0)
    } else if pass == 2 {
        ends_with(r, seq!['.'] + t.0) || r == t.0
    } else if pass == 3 {
        r == t.1
    } else {
        r == after_last(t.1, '.')
    }
}

/// First unconsumed record meeting the criterion, at or after `from`.
pub open spec fn first_free(pass: int, t: TestKey, recs: Seq<Seq<char>>, used: Seq<bool>, from: int) -> Option<int>
    decreases recs.len() - from,
{
    if from < 0 || from >= recs.len() {
        None
    } else if !used[from] && criterion(pass, t, recs[from]) {
        Some(from)
    } else {
        first_free(pass, t, recs, used, from + 1)
    }
}

/// The record a test takes in a stage: exact name then dotted suffix (stage
/// 0); suffix of the record (stage 1); display name then bare method name
/// (stage 2).
pub open spec fn pick(stage: int, t: TestKey, recs: Seq<Seq<char>>, used: Seq<bool>) -> Option<int> {
    let a = first_free(if stage == 0 { 0 } else if stage == 1 { 2 } else { 3 }, t, recs, used, 0);
    if a is Some || stage == 1 {
        a
    } else {
        first_free(if stage == 0 { 1 } else { 4 }, t, recs, used, 0)
    }
}

/// Assignment of records to tests, and which records are consumed.
pub type MatchState = (Seq<Option<usize>>, Seq<bool>);

/// One test considered in a stage. Stage 0 considers every test; the later
/// stages only tests still running and unmatched.
pub open spec fn stage_step(stage: int, keys: Seq<TestKey>, recs: Seq<Seq<char>>, st: MatchState, k: int) -> MatchState {
    let eligible = stage == 0 || (st.0[k] is None && keys[k].2 == TestStatus::Running);
    if !eligible {
        st
    } else {
        match pick(stage, keys[k], recs, st.1) {
            Some(r) => (st.0.update(k, Some(r as usize)), st.1.update(r, true)),
            None => st,
        }
    }
}

pub open spec fn run_stage(stage: int, keys: Seq<TestKey>, recs: Seq<Seq<char>>, st: MatchState, k: int) -> MatchState
    decreases keys.len() - k,
{
    if k < 0 || k >= keys.len() {
        st
    } else {
        run_stage(stage, keys, recs, stage_step(stage, keys, recs, st, k), k + 1)
    }
}

/// The record each test takes, over all stages, in tree order.
pub open spec fn assignment(keys: Seq<TestKey>, recs: Seq<Seq<char>>) -> Seq<Option<usize>> {
    let st0: MatchState = (Seq::new(keys.len(), |i: int| None), Seq::new(recs.len(), |i: int| false));
    let st1 = run_stage(0, keys, recs, st0, 0);
    let st2 = run_stage(1, keys, recs, st1, 0);
    run_stage(2, keys, recs, st2, 0).0
}

/// Flat position of test `j` of class `i`.
pub open spec fn flat_index(classes: Seq<TestClass>, i: int, j: int) -> int {
    total_tests(classes.subrange(0, i)) + j
}

/// Test keys of the whole tree, class by class.
pub open spec fn tree_keys(classes: Seq<TestClass>) -> Seq<TestKey>
    decreases classes.len(),
{
    if classes.len() == 0 {
        Seq::empty()
    } else {
        tree_keys(classes.drop_last()) + classes.last().tests@.map_values(
            |t: crate::model::Test| (t.full_name@, t.name@, t.status),
        )
    }
}

pub open spec fn record_names(results: Seq<TestResult>) -> Seq<Seq<char>> {
    results.map_values(|r: TestResult| r.test_name@)
}

/// Test `n` is test `o` updated from record `r`.
pub open spec fn updated_from(n: crate::model::Test, o: crate::model::Test, r: TestResult) -> bool {
    &&& n.name == o.name
    &&& n.full_name == o.full_name
    &&& n.status == status_of(r.outcome)
    &&& n.duration_ms == Some(r.duration_ms)
    &&& match r.error_message {
        Some(m) => n.error_message is Some && n.error_message->0@ == m@,
        None => n.error_message is None,
    }
}

proof fn lemma_first_free_skip(pass: int, t: TestKey, recs: Seq<Seq<char>>, used: Seq<bool>, a: int, b: int)
    requires
        0 <= a <= b <= recs.len(),
        forall|r: int| a <= r < b ==> !(!used[r] && criterion(pass, t, recs[r])),
    ensures
        first_free(pass, t, recs, used, a) == first_free(pass, t, recs, used, b),
    decreases b - a,
{
    if a < b {
        lemma_first_free_skip(pass, t, recs, used, a + 1, b);
    }
}

proof fn lemma_first_free_range(pass: int, t: TestKey, recs: Seq<Seq<char>>, used: Seq<bool>, a: int)
    ensures
        first_free(pass, t, recs, used, a) is Some ==> {
            let r = first_free(pass, t, recs, used, a)->0;
            0 <= r < recs.len() && !used[r]
        },
    decreases recs.len() - a,
{
    if 0 <= a < recs.len() && !(!used[a] && criterion(pass, t, recs[a])) {
        lemma_first_free_range(pass, t, recs, used, a + 1);
    }
}

/// `.` followed by `f`.
fn dot_prefixed(f: &[char]) -> (r: Vec<char>)
    ensures
        r@ == seq!['.'] + f@,
{
    let mut v: Vec<char> = Vec::new();
    v.push('.');
    crate::text::push_all(&mut v, f);
    v
}

/// Whether record name `r` meets the criterion of `pass` for the test.
fn meets(pass: u8, full: &[char], name: &[char], status: TestStatus, r: &[char]) -> (b: bool)
    ensures
        b == criterion(pass as int, (full@, name@, status), r@),
{
    if pass == 0 {
        same(r, full)
    } else if pass == 1 {
        let df = dot_prefixed(full);
        let dr = dot_prefixed(r);
        has_suffix(r, df.as_slice()) || has_suffix(full, dr.as_slice())
    } else if pass == 2 {
        let df = dot_prefixed(full);
        has_suffix(r, df.as_slice()) || same(r, full)
    } else if pass == 3 {
        same(r, name)
    } else {
        let n = name.len();
        proof {
            lemma_last_index_of_bounds(name@, '.');
        }
        let bare = match rfind_char(name, '.') {
            Some(d) => slice(name, d + 1, n),
            None => slice(name, 0, n),
        };
        assert(name@.subrange(0, n as int) =~= name@);
        same(r, bare.as_slice())
    }
}

pub open spec fn chars_view(v: Seq<Vec<char>>) -> Seq<Seq<char>> {
    v.map_values(|c: Vec<char>| c@)
}

/// First unconsumed record meeting the criterion.
fn find_free(pass: u8, full: &[char], name: &[char], status: TestStatus, recs: &Vec<Vec<char>>, used: &Vec<bool>) -> (r: Option<usize>)
    requires
        used@.len() == recs@.len(),
    ensures
        match first_free(pass as int, (full@, name@, status), chars_view(recs@), used@, 0) {
            Some(i) => r == Some(i as usize),
            None => r is None,
        },
{
    let ghost t = (full@, name@, status);
    let ghost rv = chars_view(recs@);
    let mut i: usize = 0;
    while i < recs.len()
        invariant
            i <= recs@.len(),
            used@.len() == recs@.len(),
            rv == chars_view(recs@),
            t == (full@, name@, status),
            forall|r: int| 0 <= r < i ==> !(!used@[r] && criterion(pass as int, t, rv[r])),
        decreases recs@.len() - i,
    {
        assert(rv[i as int] == recs@[i as int]@);
        if !used[i] && meets(pass, full, name, status, recs[i].as_slice()) {
            proof {
                lemma_first_free_skip(pass as int, t, rv, used@, 0, i as int);
            }
            return Some(i);
        }
        i = i + 1;
    }
    proof {
        lemma_first_free_skip(pass as int, t, rv, used@, 0, i as int);
    }
    None
}

/// The record a test takes in `stage`.
fn pick_record(stage: u8, full: &[char], name: &[char], status: TestStatus, recs: &Vec<Vec<char>>, used: &Vec<bool>) -> (r: Option<usize>)
    requires
        used@.len() == recs@.len(),
        stage <= 2,
    ensures
        match pick(stage as int, (full@, name@, status), chars_view(recs@), used@) {
            Some(i) => r == Some(i as usize) && 0 <= i < recs@.len() && !used@[i],
            None => r is None,
        },
{
    let ghost t = (full@, name@, status);
    let ghost rv = chars_view(recs@);
    proof {
        lemma_first_free_range(0, t, rv, used@, 0);
        lemma_first_free_range(1, t, rv, used@, 0);
        lemma_first_free_range(2, t, rv, used@, 0);
        lemma_first_free_range(3, t, rv, used@, 0);
        lemma_first_free_range(4, t, rv, used@, 0);
    }
    let first: u8 = if stage == 0 {
        0
    } else if stage == 1 {
        2
    } else {
        3
    };
    let a = find_free(first, full, name, status, recs, used);
    if a.is_some() || stage == 1 {
        return a;
    }
    let second: u8 = if stage == 0 {
        1
    } else {
        4
    };
    find_free(second, full, name, status, recs, used)
}

pub open spec fn keys_view(v: Seq<(Vec<char>, Vec<char>, TestStatus)>) -> Seq<TestKey> {
    v.map_values(|k: (Vec<char>, Vec<char>, TestStatus)| (k.0@, k.1@, k.2))
}

/// Runs one stage over every test, in tree order.
fn run_stage_exec(
    stage: u8,
    keys: &Vec<(Vec<char>, Vec<char>, TestStatus)>,
    recs: &Vec<Vec<char>>,
    asg: &mut Vec<Option<usize>>,
    used: &mut Vec<bool>,
)
    requires
        stage <= 2,
        old(asg)@.len() == keys@.len(),
        old(used)@.len() == recs@.len(),
    ensures
        (final(asg)@, final(used)@) == run_stage(stage as int, keys_view(keys@), chars_view(recs@), (old(asg)@, old(used)@), 0),
        final(asg)@.len() == keys@.len(),
        final(used)@.len() == recs@.len(),
        (forall|k: int| 0 <= k < keys@.len() && (#[trigger] old(asg)@[k]) is Some ==> old(asg)@[k]->0 < recs@.len())
            ==> (forall|k: int| 0 <= k < keys@.len() && (#[trigger] final(asg)@[k]) is Some ==> final(asg)@[k]->0 < recs@.len()),
{
    let ghost bounded0 = forall|k: int| 0 <= k < keys@.len() && (#[trigger] asg@[k]) is Some ==> asg@[k]->0 < recs@.len();
    let ghost kv = keys_view(keys@);
    let ghost rv = chars_view(recs@);
    let ghost goal = run_stage(stage as int, kv, rv, (asg@, used@), 0);
    let nrecs = recs.len();
    let mut k: usize = 0;
    while k < keys.len()
        invariant
            k <= keys@.len(),
            kv == keys_view(keys@),
            rv == chars_view(recs@),
            asg@.len() == keys@.len(),
            used@.len() == recs@.len(),
            nrecs == recs@.len(),
            bounded0 ==> (forall|j: int| 0 <= j < keys@.len() && (#[trigger] asg@[j]) is Some ==> asg@[j]->0 < recs@.len()),
            stage <= 2,
            run_stage(stage as int, kv, rv, (asg@, used@), k as int) == goal,
        decreases keys@.len() - k,
    {
        let ghost st = (asg@, used@);
        assert(kv[k as int] == (keys@[k as int].0@, keys@[k as int].1@, keys@[k as int].2));
        let eligible = stage == 0 || (asg[k].is_none() && keys[k].2 == TestStatus::Running);
        if eligible {
            match pick_record(stage, keys[k].0.as_slice(), keys[k].1.as_slice(), keys[k].2, recs, used) {
                Some(r) => {
                    let ghost tk = (keys@[k as int].0@, keys@[k as int].1@, keys@[k as int].2);
                    let ghost pk = pick(stage as int, tk, chars_view(recs@), used@);
                    assert(pk == Some(r as int));
                    assert(tk == kv[k as int]);
                    asg.set(k, Some(r));
                    used.set(r, true);
                    assert(asg@ == st.0.update(k as int, Some(r)));
                    assert(used@ == st.1.update(r as int, true));
                },
                None => {},
            }
        }
        assert((asg@, used@) == stage_step(stage as int, kv, rv, st, k as int));
        k = k + 1;
    }
}

/// Keys of every test of the tree, class by class.
pub fn collect_keys(classes: &Vec<TestClass>) -> (r: Vec<(Vec<char>, Vec<char>, TestStatus)>)
    ensures
        keys_view(r@) == tree_keys(classes@),
{
    let mut keys: Vec<(Vec<char>, Vec<char>, TestStatus)> = Vec::new();
    let mut i: usize = 0;
    assert(keys_view(keys@) =~= tree_keys(classes@.subrange(0, 0)));
    while i < classes.len()
        invariant
            i <= classes@.len(),
            keys_view(keys@) == tree_keys(classes@.subrange(0, i as int)),
        decreases classes@.len() - i,
    {
        let tests = &classes[i].tests;
        let ghost base = keys_view(keys@);
        let mut j: usize = 0;
        while j < tests.len()
            invariant
                j <= tests@.len(),
                keys_view(keys@) == base + tests@.subrange(0, j as int).map_values(
                    |t: crate::model::Test| (t.full_name@, t.name@, t.status),
                ),
            decreases tests@.len() - j,
        {
            let t = &tests[j];
            let ghost prev = keys_view(keys@);
            keys.push((chars_of(t.full_name.as_str()), chars_of(t.name.as_str()), t.status));
            assert(keys_view(keys@) =~= prev.push((t.full_name@, t.name@, t.status)));
            assert(tests@.subrange(0, j + 1) =~= tests@.subrange(0, j as int).push(*t));
            j = j + 1;
            assert(keys_view(keys@) =~= base + tests@.subrange(0, j as int).map_values(
                |t: crate::model::Test| (t.full_name@, t.name@, t.status),
            ));
        }
        assert(tests@.subrange(0, j as int) =~= tests@);
        assert(classes@.subrange(0, i + 1).drop_last() =~= classes@.subrange(0, i as int));
        i = i + 1;
    }
    assert(classes@.subrange(0, i as int) =~= classes@);
    keys
}

pub proof fn lemma_tree_keys_len(cs: Seq<TestClass>)
    ensures
        tree_keys(cs).len() == total_tests(cs),
    decreases cs.len(),
{
    if cs.len() > 0 {
        lemma_tree_keys_len(cs.drop_last());
    }
}

/// Test `t` after taking on record `r`.
fn updated(t: &Test, r: &TestResult) -> (n: Test)
    ensures
        updated_from(n, *t, *r),
{
    Test {
        name: t.name.clone(),
        full_name: t.full_name.clone(),
        status: match r.outcome {
            crate::model::TestOutcome::Passed => TestStatus::Passed,
            crate::model::TestOutcome::Failed => TestStatus::Failed,
            crate::model::TestOutcome::Skipped => TestStatus::Skipped,
        },
        duration_ms: Some(r.duration_ms),
        error_message: match &r.error_message {
            Some(m) => Some(m.clone()),
            None => None,
        },
    }
}

/// Classes `n` and `o` have the same names and the same number of tests.
pub open spec fn same_shape(n: TestClass, o: TestClass) -> bool {
    &&& n.name == o.name
    &&& n.namespace == o.namespace
    &&& n.tests@.len() == o.tests@.len()
}

/// Test `n` is test `o` after the assignment `a` of one of `results`.
pub open spec fn applied(n: Test, o: Test, a: Option<usize>, results: Seq<TestResult>) -> bool {
    match a {
        Some(r) => r < results.len() && updated_from(n, o, results[r as int]),
        None => n == o,
    }
}

/// Applies report records to the tree. Tests are matched in three stages,
/// each over the whole tree in order: exact full name or dotted suffix (every
/// test); record name ending in `.` and the full name (tests still running);
/// display name or bare method name (tests still running). A record is taken
/// by at most one test. A matched test takes the record's status, duration
/// and failure text; other tests are left as they are.
pub fn apply_results(classes: &mut Vec<TestClass>, results: &Vec<TestResult>)
    requires
        total_tests(old(classes)@) <= usize::MAX,
    ensures
        final(classes)@.len() == old(classes)@.len(),
        forall|i: int| 0 <= i < old(classes)@.len() ==> same_shape(#[trigger] final(classes)@[i], old(classes)@[i]),
        forall|i: int, j: int|
            0 <= i < old(classes)@.len() && 0 <= j < old(classes)@[i].tests@.len() ==> applied(
                #[trigger] final(classes)@[i].tests@[j],
                old(classes)@[i].tests@[j],
                assignment(tree_keys(old(classes)@), record_names(results@))[flat_index(old(classes)@, i, j)],
                results@,
            ),
{
    let keys = collect_keys(classes);
    let mut recs: Vec<Vec<char>> = Vec::new();
    let mut i: usize = 0;
    while i < results.len()
        invariant
            i <= results@.len(),
            chars_view(recs@) == record_names(results@).subrange(0, i as int),
        decreases results@.len() - i,
    {
        let ghost prev = chars_view(recs@);
        recs.push(chars_of(results[i].test_name.as_str()));
        assert(chars_view(recs@) =~= prev.push(results@[i as int].test_name@));
        assert(record_names(results@).subrange(0, i + 1) =~= record_names(results@).subrange(0, i as int).push(results@[i as int].test_name@));
        i = i + 1;
    }
    assert(record_names(results@).subrange(0, i as int) =~= record_names(results@));
    let mut asg: Vec<Option<usize>> = Vec::new();
    let mut k: usize = 0;
    while k < keys.len()
        invariant
            k <= keys@.len(),
            asg@ == Seq::new(k as nat, |x: int| None::<usize>),
        decreases keys@.len() - k,
    {
        asg.push(None);
        k = k + 1;
        assert(asg@ =~= Seq::new(k as nat, |x: int| None::<usize>));
    }
    let mut used: Vec<bool> = Vec::new();
    let mut k: usize = 0;
    while k < recs.len()
        invariant
            k <= recs@.len(),
            used@ == Seq::new(k as nat, |x: int| false),
        decreases recs@.len() - k,
    {
        used.push(false);
        k = k + 1;
        assert(used@ =~= Seq::new(k as nat, |x: int| false));
    }
    run_stage_exec(0, &keys, &recs, &mut asg, &mut used);
    run_stage_exec(1, &keys, &recs, &mut asg, &mut used);
    run_stage_exec(2, &keys, &recs, &mut asg, &mut used);
    let ghost old_cs = classes@;
    proof {
        lemma_tree_keys_len(old_cs);
    }
    assert(asg@ == assignment(tree_keys(old_cs), record_names(results@)));
    let mut out: Vec<TestClass> = Vec::new();
    let mut p: usize = 0;
    let mut i: usize = 0;
    while i < classes.len()
        invariant
            i <= classes@.len(),
            classes@ == old_cs,
            total_tests(old_cs) <= usize::MAX,
            asg@.len() == total_tests(old_cs),
            recs@.len() == results@.len(),
            forall|k: int| 0 <= k < asg@.len() && (#[trigger] asg@[k]) is Some ==> asg@[k]->0 < recs@.len(),
            p == total_tests(old_cs.subrange(0, i as int)),
            out@.len() == i,
            forall|x: int| 0 <= x < i ==> same_shape(#[trigger] out@[x], old_cs[x]),
            forall|x: int, j: int|
                0 <= x < i && 0 <= j < old_cs[x].tests@.len() ==> applied(
                    #[trigger] out@[x].tests@[j],
                    old_cs[x].tests@[j],
                    asg@[flat_index(old_cs, x, j)],
                    results@,
                ),
        decreases classes@.len() - i,
    {
        let c = &classes[i];
        proof {
            lemma_total_tests_prefix(old_cs, i + 1);
            assert(old_cs.subrange(0, i + 1).drop_last() =~= old_cs.subrange(0, i as int));
        }
        let mut tests: Vec<Test> = Vec::new();
        let mut j: usize = 0;
        while j < c.tests.len()
            invariant
                j <= c.tests@.len(),
                *c == old_cs[i as int],
                i < old_cs.len(),
                total_tests(old_cs) <= usize::MAX,
                asg@.len() == total_tests(old_cs),
                recs@.len() == results@.len(),
                forall|k: int| 0 <= k < asg@.len() && (#[trigger] asg@[k]) is Some ==> asg@[k]->0 < recs@.len(),
                p == total_tests(old_cs.subrange(0, i as int)) + j,
                total_tests(old_cs.subrange(0, i as int)) + c.tests@.len() <= total_tests(old_cs),
                tests@.len() == j,
                forall|y: int| 0 <= y < j ==> applied(
                    #[trigger] tests@[y],
                    old_cs[i as int].tests@[y],
                    asg@[flat_index(old_cs, i as int, y)],
                    results@,
                ),
            decreases c.tests@.len() - j,
        {
            let t = &c.tests[j];
            let nt = match asg[p] {
                Some(r) => updated(t, &results[r]),
                None => t.clone(),
            };
            tests.push(nt);
            p = p + 1;
            j = j + 1;
        }
        let ghost tv = tests@;
        let ghost prev = out@;
        out.push(TestClass { name: c.name.clone(), namespace: c.namespace.clone(), tests });
        assert(out@[i as int].tests@ == tv);
        assert forall|x: int, j: int|
            0 <= x < i + 1 && 0 <= j < old_cs[x].tests@.len() implies applied(
                #[trigger] out@[x].tests@[j],
                old_cs[x].tests@[j],
                asg@[flat_index(old_cs, x, j)],
                results@,
            ) by {
            if x < i {
                assert(out@[x] == prev[x]);
                assert(prev[x].tests@[j] == out@[x].tests@[j]);
            } else {
                assert(out@[x].tests@[j] == tv[j]);
            }
        }
        i = i + 1;
    }
    *classes = out;
}

/// Every test still running goes back to not run; other tests are unchanged.
pub fn reset_unmatched_running_tests(classes: &mut Vec<TestClass>)
    ensures
        final(classes)@.len() == old(classes)@.len(),
        forall|i: int| 0 <= i < old(classes)@.len() ==> same_shape(#[trigger] final(classes)@[i], old(classes)@[i]),
        forall|i: int, j: int|
            0 <= i < old(classes)@.len() && 0 <= j < old(classes)@[i].tests@.len() ==> {
                let o = old(classes)@[i].tests@[j];
                #[trigger] final(classes)@[i].tests@[j] == if o.status == TestStatus::Running {
                    Test { status: TestStatus::NotRun, ..o }
                } else {
                    o
                }
            },
{
    let ghost old_cs = classes@;
    let mut out: Vec<TestClass> = Vec::new();
    let mut i: usize = 0;
    while i < classes.len()
        invariant
            i <= classes@.len(),
            classes@ == old_cs,
            out@.len() == i,
            forall|x: int| 0 <= x < i ==> same_shape(#[trigger] out@[x], old_cs[x]),
            forall|x: int, j: int|
                0 <= x < i && 0 <= j < old_cs[x].tests@.len() ==> #[trigger] out@[x].tests@[j] == if old_cs[x].tests@[j].status == TestStatus::Running {
                    Test { status: TestStatus::NotRun, ..old_cs[x].tests@[j] }
                } else {
                    old_cs[x].tests@[j]
                },
        decreases classes@.len() - i,
    {
        let c = &classes[i];
        let mut tests: Vec<Test> = Vec::new();
        let mut j: usize = 0;
        while j < c.tests.len()
            invariant
                j <= c.tests@.len(),
                tests@.len() == j,
                forall|y: int| 0 <= y < j ==> #[trigger] tests@[y] == if c.tests@[y].status == TestStatus::Running {
                    Test { status: TestStatus::NotRun, ..c.tests@[y] }
                } else {
                    c.tests@[y]
                },
            decreases c.tests@.len() - j,
        {
            let mut t = c.tests[j].clone();
            if t.status == TestStatus::Running {
                t.status = TestStatus::NotRun;
            }
            tests.push(t);
            j = j + 1;
        }
        let ghost tv = tests@;
        let ghost prev = out@;
        out.push(TestClass { name: c.name.clone(), namespace: c.namespace.clone(), tests });
        assert(out@[i as int].tests@ == tv);
        assert forall|x: int, j: int|
            0 <= x < i + 1 && 0 <= j < old_cs[x].tests@.len() implies #[trigger] out@[x].tests@[j] == if old_cs[x].tests@[j].status == TestStatus::Running {
                Test { status: TestStatus::NotRun, ..old_cs[x].tests@[j] }
            } else {
                old_cs[x].tests@[j]
            } by {
            if x < i {
                assert(out@[x] == prev[x]);
            }
        }
        i = i + 1;
    }
    *classes = out;
}

/// Every assigned record exists and is consumed, and no two tests share one.
pub open spec fn match_inv(keys: Seq<TestKey>, recs: Seq<Seq<char>>, st: MatchState) -> bool {
    &&& st.0.len() == keys.len()
    &&& st.1.len() == recs.len()
    &&& forall|k: int|
        0 <= k < st.0.len() && (#[trigger] st.0[k]) is Some ==> st.0[k]->0 < recs.len() && st.1[st.0[k]->0 as int]
    &&& forall|a: int, b: int|
        0 <= a < b < st.0.len() && (#[trigger] st.0[a]) is Some && (#[trigger] st.0[b]) is Some ==> st.0[a] != st.0[b]
}

proof fn lemma_stage_step_inv(stage: int, keys: Seq<TestKey>, recs: Seq<Seq<char>>, st: MatchState, k: int)
    requires
        match_inv(keys, recs, st),
        0 <= k < keys.len(),
        recs.len() <= usize::MAX,
    ensures
        match_inv(keys, recs, stage_step(stage, keys, recs, st, k)),
{
    let t = keys[k];
    lemma_first_free_range(0, t, recs, st.1, 0);
    lemma_first_free_range(1, t, recs, st.1, 0);
    lemma_first_free_range(2, t, recs, st.1, 0);
    lemma_first_free_range(3, t, recs, st.1, 0);
    lemma_first_free_range(4, t, recs, st.1, 0);
    let n = stage_step(stage, keys, recs, st, k);
    let eligible = stage == 0 || (st.0[k] is None && keys[k].2 == TestStatus::Running);
    if eligible {
        match pick(stage, t, recs, st.1) {
            Some(r) => {
                assert(0 <= r < recs.len() && !st.1[r]);
                assert(n.0 == st.0.update(k, Some(r as usize)));
                assert(n.1 == st.1.update(r, true));
                assert((r as usize) as int == r);
                assert forall|a: int, b: int|
                    0 <= a < b < n.0.len() && (#[trigger] n.0[a]) is Some && (#[trigger] n.0[b]) is Some implies n.0[a] != n.0[b] by {
                    if a != k && b != k {
                        assert(n.0[a] == st.0[a] && n.0[b] == st.0[b]);
                    } else if a == k {
                        assert(st.0[b] is Some);
                        assert(st.1[st.0[b]->0 as int]);
                    } else {
                        assert(st.0[a] is Some);
                        assert(st.1[st.0[a]->0 as int]);
                    }
                }
                assert forall|j: int|
                    0 <= j < n.0.len() && (#[trigger] n.0[j]) is Some implies n.0[j]->0 < recs.len() && n.1[n.0[j]->0 as int] by {
                    if j != k {
                        assert(n.0[j] == st.0[j]);
                    }
                }
            },
            None => {},
        }
    }
}

proof fn lemma_run_stage_inv(stage: int, keys: Seq<TestKey>, recs: Seq<Seq<char>>, st: MatchState, k: int)
    requires
        match_inv(keys, recs, st),
        0 <= k,
        recs.len() <= usize::MAX,
    ensures
        match_inv(keys, recs, run_stage(stage, keys, recs, st, k)),
    decreases keys.len() - k,
{
    if k < keys.len() {
        lemma_stage_step_inv(stage, keys, recs, st, k);
        lemma_run_stage_inv(stage, keys, recs, stage_step(stage, keys, recs, st, k), k + 1);
    }
}

/// A report record is taken by at most one test: two different tests of the
/// tree are never assigned the same record.
pub proof fn lemma_record_taken_once(keys: Seq<TestKey>, recs: Seq<Seq<char>>, a: int, b: int)
    requires
        0 <= a < b < keys.len(),
        recs.len() <= usize::MAX,
        assignment(keys, recs)[a] is Some,
        assignment(keys, recs)[b] is Some,
    ensures
        assignment(keys, recs)[a] != assignment(keys, recs)[b],
        assignment(keys, recs)[a]->0 < recs.len(),
{
    let st0: MatchState = (Seq::new(keys.len(), |i: int| None), Seq::new(recs.len(), |i: int| false));
    assert(match_inv(keys, recs, st0));
    lemma_run_stage_inv(0, keys, recs, st0, 0);
    let st1 = run_stage(0, keys, recs, st0, 0);
    lemma_run_stage_inv(1, keys, recs, st1, 0);
    let st2 = run_stage(1, keys, recs, st1, 0);
    lemma_run_stage_inv(2, keys, recs, st2, 0);
    let st3 = run_stage(2, keys, recs, st2, 0);
    assert(st3.0 == assignment(keys, recs));
}

/// The state after the first `k` tests of stage 0 have seen a single record
/// `r` that only test `k0` names.
pub open spec fn single_record_state(n: nat, k0: int, k: int) -> MatchState {
    (Seq::new(n, |x: int| if x < k && x == k0 { Some(0usize) } else { None }), seq![k > k0])
}

proof fn lemma_single_record_stage0(keys: Seq<TestKey>, r: Seq<char>, k0: int, k: int)
    requires
        0 <= k0 < keys.len(),
        0 <= k <= keys.len(),
        keys[k0].0 == r,
        forall|x: int| 0 <= x < keys.len() && x != k0 ==> !criterion(0, #[trigger] keys[x], r) && !criterion(1, keys[x], r),
    ensures
        run_stage(0, keys, seq![r], single_record_state(keys.len(), k0, k), k) == single_record_state(keys.len(), k0, keys.len() as int),
    decreases keys.len() - k,
{
    let recs = seq![r];
    if k < keys.len() {
        let st = single_record_state(keys.len(), k0, k);
        let t = keys[k];
        assert(first_free(0, t, recs, st.1, 1) is None);
        assert(first_free(1, t, recs, st.1, 1) is None);
        let next = stage_step(0, keys, recs, st, k);
        if k == k0 {
            assert(criterion(0, t, recs[0]));
            assert(first_free(0, t, recs, st.1, 0) == Some(0int));
            assert(next.0 =~= single_record_state(keys.len(), k0, k + 1).0);
            assert(next.1 =~= single_record_state(keys.len(), k0, k + 1).1);
        } else {
            assert(first_free(0, t, recs, st.1, 0) is None);
            assert(first_free(1, t, recs, st.1, 0) is None);
            assert(next.0 =~= single_record_state(keys.len(), k0, k + 1).0);
            assert(next.1 =~= single_record_state(keys.len(), k0, k + 1).1);
        }
        lemma_single_record_stage0(keys, r, k0, k + 1);
    } else {
        assert(single_record_state(keys.len(), k0, k) == single_record_state(keys.len(), k0, keys.len() as int));
    }
}

proof fn lemma_consumed_stage(stage: int, keys: Seq<TestKey>, r: Seq<char>, st: MatchState, k: int)
    requires
        stage == 1 || stage == 2,
        0 <= k,
        st.1 == seq![true],
    ensures
        run_stage(stage, keys, seq![r], st, k) == st,
    decreases keys.len() - k,
{
    if k < keys.len() {
        let recs = seq![r];
        let t = keys[k];
        assert(first_free(2, t, recs, st.1, 1) is None);
        assert(first_free(3, t, recs, st.1, 1) is None);
        assert(first_free(4, t, recs, st.1, 1) is None);
        assert(first_free(2, t, recs, st.1, 0) is None);
        assert(first_free(3, t, recs, st.1, 0) is None);
        assert(first_free(4, t, recs, st.1, 0) is None);
        assert(stage_step(stage, keys, recs, st, k) == st);
        lemma_consumed_stage(stage, keys, r, st, k + 1);
    }
}

/// A single report record that names exactly one test of the tree, and that
/// no other test matches by name or dotted suffix, is taken by that test and
/// by no other.
pub proof fn lemma_single_record_single_test(keys: Seq<TestKey>, r: Seq<char>, k0: int)
    requires
        0 <= k0 < keys.len(),
        keys[k0].0 == r,
        forall|x: int| 0 <= x < keys.len() && x != k0 ==> !criterion(0, #[trigger] keys[x], r) && !criterion(1, keys[x], r),
    ensures
        assignment(keys, seq![r])[k0] == Some(0usize),
        forall|x: int| 0 <= x < keys.len() && x != k0 ==> #[trigger] assignment(keys, seq![r])[x] is None,
{
    let recs = seq![r];
    let st0: MatchState = (Seq::new(keys.len(), |i: int| None), Seq::new(recs.len(), |i: int| false));
    assert(st0.0 =~= single_record_state(keys.len(), k0, 0).0);
    assert(st0.1 =~= single_record_state(keys.len(), k0, 0).1);
    lemma_single_record_stage0(keys, r, k0, 0);
    let st1 = run_stage(0, keys, recs, st0, 0);
    let fin = single_record_state(keys.len(), k0, keys.len() as int);
    assert(st1 == fin);
    assert(fin.1 =~= seq![true]);
    lemma_consumed_stage(1, keys, r, st1, 0);
    lemma_consumed_stage(2, keys, r, st1, 0);
    assert(assignment(keys, recs) == fin.0);
}

} // verus!
