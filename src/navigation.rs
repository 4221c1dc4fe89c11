//! Front-end state logic of the test tree: aggregate class status, status
//! labels, moving through the navigation rows, collapsed and selected sets.

use vstd::prelude::*;
use crate::items::{TestListItem, collapse_key, collapse_key_spec, passes_filter};
use crate::model::{Test, TestClass, TestStatus};
use crate::text::{chars_of, has_prefix, lower_of, lowercase, has_infix, same, starts_with, push_all};

verus! {

/// Statuses of the tests of a class that pass the filter.
pub open spec fn shown_statuses(ts: Seq<Test>, filter: Seq<char>) -> Seq<TestStatus>
    decreases ts.len(),
{
    if ts.len() == 0 {
        Seq::empty()
    } else if passes_filter(ts.last().name@, filter) {
        shown_statuses(ts.drop_last(), filter).push(ts.last().status)
    } else {
        shown_statuses(ts.drop_last(), filter)
    }
}

/// Aggregate status: failed if any failed, else running if any runs, else not
/// run if all are, else passed if any passed, else skipped.
pub open spec fn aggregate(ss: Seq<TestStatus>) -> TestStatus {
    if ss.contains(TestStatus::Failed) {
        TestStatus::Failed
    } else if ss.contains(TestStatus::Running) {
        TestStatus::Running
    } else if forall|i: int| 0 <= i < ss.len() ==> ss[i] == TestStatus::NotRun {
        TestStatus::NotRun
    } else if ss.contains(TestStatus::Passed) {
        TestStatus::Passed
    } else {
        TestStatus::Skipped
    }
}

/// The aggregate status of a class over its tests that pass the filter.
pub fn class_status(class: &TestClass, filter: &str) -> (r: TestStatus)
    ensures
        r == aggregate(shown_statuses(class.tests@, filter@)),
{
    let lowered = chars_of(lowercase(filter).as_str());
    let mut ss: Vec<TestStatus> = Vec::new();
    let mut j: usize = 0;
    assert(class.tests@.subrange(0, 0) =~= Seq::<Test>::empty());
    while j < class.tests.len()
        invariant
            j <= class.tests@.len(),
            lowered@ == lower_of(filter@),
            ss@ == shown_statuses(class.tests@.subrange(0, j as int), filter@),
        decreases class.tests@.len() - j,
    {
        assert(class.tests@.subrange(0, j + 1).drop_last() =~= class.tests@.subrange(0, j as int));
        let t = &class.tests[j];
        let pass = if filter.is_empty() {
            true
        } else {
            let l = chars_of(lowercase(t.name.as_str()).as_str());
            has_infix(l.as_slice(), lowered.as_slice())
        };
        if pass {
            ss.push(t.status);
        }
        j = j + 1;
    }
    assert(class.tests@.subrange(0, j as int) =~= class.tests@);
    let mut has_failed = false;
    let mut has_running = false;
    let mut has_passed = false;
    let mut all_not_run = true;
    let mut k: usize = 0;
    while k < ss.len()
        invariant
            k <= ss@.len(),
            has_failed == ss@.subrange(0, k as int).contains(TestStatus::Failed),
            has_running == ss@.subrange(0, k as int).contains(TestStatus::Running),
            has_passed == ss@.subrange(0, k as int).contains(TestStatus::Passed),
            all_not_run == forall|i: int| 0 <= i < k ==> ss@[i] == TestStatus::NotRun,
        decreases ss@.len() - k,
    {
        let ghost a = ss@.subrange(0, k as int);
        let ghost b = ss@.subrange(0, k + 1);
        assert(b =~= a.push(ss@[k as int]));
        assert forall|x: TestStatus| b.contains(x) == (a.contains(x) || ss@[k as int] == x) by {
            if b.contains(x) {
                let w = choose|w: int| 0 <= w < b.len() && b[w] == x;
                if w < k {
                    assert(a[w] == x);
                }
            }
            if a.contains(x) {
                let w = choose|w: int| 0 <= w < a.len() && a[w] == x;
                assert(b[w] == x);
            }
            if ss@[k as int] == x {
                assert(b[k as int] == x);
            }
        }
        match ss[k] {
            TestStatus::Failed => {
                has_failed = true;
                all_not_run = false;
            },
            TestStatus::Running => {
                has_running = true;
                all_not_run = false;
            },
            TestStatus::Passed => {
                has_passed = true;
                all_not_run = false;
            },
            TestStatus::Skipped => {
                all_not_run = false;
            },
            TestStatus::NotRun => {},
        }
        k = k + 1;
    }
    assert(ss@.subrange(0, k as int) =~= ss@);
    if has_failed {
        TestStatus::Failed
    } else if has_running {
        TestStatus::Running
    } else if all_not_run {
        TestStatus::NotRun
    } else if has_passed {
        TestStatus::Passed
    } else {
        TestStatus::Skipped
    }
}

/// The one-character marker of a status in the test list.
pub fn status_symbol(status: TestStatus) -> (r: &'static str)
    ensures
        r@ == match status {
            TestStatus::NotRun => " "@,
            TestStatus::Running => "*"@,
            TestStatus::Passed => "+"@,
            TestStatus::Failed => "x"@,
            TestStatus::Skipped => "-"@,
        },
{
    match status {
        TestStatus::NotRun => " ",
        TestStatus::Running => "*",
        TestStatus::Passed => "+",
        TestStatus::Failed => "x",
        TestStatus::Skipped => "-",
    }
}

/// The word shown for a status in the result pane.
pub fn status_text(status: TestStatus) -> (r: &'static str)
    ensures
        r@ == match status {
            TestStatus::NotRun => "NOT RUN"@,
            TestStatus::Running => "RUNNING"@,
            TestStatus::Passed => "PASSED"@,
            TestStatus::Failed => "FAILED"@,
            TestStatus::Skipped => "SKIPPED"@,
        },
{
    match status {
        TestStatus::NotRun => "NOT RUN",
        TestStatus::Running => "RUNNING",
        TestStatus::Passed => "PASSED",
        TestStatus::Failed => "FAILED",
        TestStatus::Skipped => "SKIPPED",
    }
}

pub open spec fn is_class_row(i: TestListItem) -> bool {
    i is Class
}

/// The first class row after `current`, else the first class row of all.
pub fn next_group(items: &Vec<TestListItem>, current: usize) -> (r: Option<usize>)
    ensures
        match r {
            Some(k) => k < items@.len() && is_class_row(items@[k as int]) && (
                (k > current && forall|j: int| current < j < k ==> !is_class_row(#[trigger] items@[j]))
                || (forall|j: int| current < j < items@.len() ==> !is_class_row(#[trigger] items@[j]))
                    && forall|j: int| 0 <= j < k ==> !is_class_row(#[trigger] items@[j])),
            None => forall|j: int| 0 <= j < items@.len() ==> !is_class_row(#[trigger] items@[j]),
        },
{
    let mut i: usize = if current < items.len() { current + 1 } else { items.len() };
    while i < items.len()
        invariant
            i <= items@.len(),
            current < i || i == items@.len(),
            forall|j: int| current < j < i ==> !is_class_row(#[trigger] items@[j]),
        decreases items@.len() - i,
    {
        if let TestListItem::Class(_) = &items[i] {
            return Some(i);
        }
        i = i + 1;
    }
    let mut k: usize = 0;
    while k < items.len()
        invariant
            k <= items@.len(),
            forall|j: int| current < j < items@.len() ==> !is_class_row(#[trigger] items@[j]),
            forall|j: int| 0 <= j < k ==> !is_class_row(#[trigger] items@[j]),
        decreases items@.len() - k,
    {
        if let TestListItem::Class(_) = &items[k] {
            return Some(k);
        }
        k = k + 1;
    }
    None
}

/// The last class row before `current`, else the last class row of all.
pub fn prev_group(items: &Vec<TestListItem>, current: usize) -> (r: Option<usize>)
    ensures
        match r {
            Some(k) => k < items@.len() && is_class_row(items@[k as int]) && (
                (k < current && forall|j: int| k < j < current && j < items@.len() ==> !is_class_row(#[trigger] items@[j]))
                || (forall|j: int| 0 <= j < current && j < items@.len() ==> !is_class_row(#[trigger] items@[j]))
                    && forall|j: int| k < j < items@.len() ==> !is_class_row(#[trigger] items@[j])),
            None => forall|j: int| 0 <= j < items@.len() ==> !is_class_row(#[trigger] items@[j]),
        },
{
    let mut i: usize = if current < items.len() { current } else { items.len() };
    while i > 0
        invariant
            i <= items@.len(),
            i <= current,
            forall|j: int| i <= j < current && j < items@.len() ==> !is_class_row(#[trigger] items@[j]),
        decreases i,
    {
        if let TestListItem::Class(_) = &items[i - 1] {
            return Some(i - 1);
        }
        i = i - 1;
    }
    let mut k: usize = items.len();
    while k > 0
        invariant
            k <= items@.len(),
            forall|j: int| 0 <= j < current && j < items@.len() ==> !is_class_row(#[trigger] items@[j]),
            forall|j: int| k <= j < items@.len() ==> !is_class_row(#[trigger] items@[j]),
        decreases k,
    {
        if let TestListItem::Class(_) = &items[k - 1] {
            return Some(k - 1);
        }
        k = k - 1;
    }
    None
}

pub open spec fn strings_view(v: Seq<String>) -> Seq<Seq<char>> {
    v.map_values(|s: String| s@)
}

/// Position of `key` in `set`, if it is there.
fn position_of(set: &Vec<String>, key: &[char]) -> (r: Option<usize>)
    ensures
        match r {
            Some(i) => i < set@.len() && set@[i as int]@ == key@,
            None => !strings_view(set@).contains(key@),
        },
{
    let ghost sv = strings_view(set@);
    let mut i: usize = 0;
    while i < set.len()
        invariant
            i <= set@.len(),
            sv == strings_view(set@),
            forall|j: int| 0 <= j < i ==> sv[j] != key@,
        decreases set@.len() - i,
    {
        let s = chars_of(set[i].as_str());
        if same(s.as_slice(), key) {
            return Some(i);
        }
        i = i + 1;
    }
    None
}

/// `ss` without any copy of `k`.
pub open spec fn without(ss: Seq<Seq<char>>, k: Seq<char>) -> Seq<Seq<char>>
    decreases ss.len(),
{
    if ss.len() == 0 {
        Seq::empty()
    } else if ss.last() == k {
        without(ss.drop_last(), k)
    } else {
        without(ss.drop_last(), k).push(ss.last())
    }
}

/// `key` added to the set when it is not there; taken out when it is.
pub open spec fn toggled(ss: Seq<Seq<char>>, k: Seq<char>) -> Seq<Seq<char>> {
    if ss.contains(k) {
        without(ss, k)
    } else {
        ss.push(k)
    }
}

/// Every string of `set` but copies of `key`, in order.
fn remove_all(set: &Vec<String>, key: &[char]) -> (r: Vec<String>)
    ensures
        strings_view(r@) == without(strings_view(set@), key@),
{
    let ghost sv = strings_view(set@);
    let mut out: Vec<String> = Vec::new();
    let mut i: usize = 0;
    assert(sv.subrange(0, 0) =~= Seq::<Seq<char>>::empty());
    assert(strings_view(out@) =~= Seq::<Seq<char>>::empty());
    while i < set.len()
        invariant
            i <= set@.len(),
            sv == strings_view(set@),
            strings_view(out@) == without(sv.subrange(0, i as int), key@),
        decreases set@.len() - i,
    {
        let ghost pre = sv.subrange(0, i + 1);
        assert(pre.drop_last() =~= sv.subrange(0, i as int));
        assert(pre.last() == set@[i as int]@);
        let s = chars_of(set[i].as_str());
        if !same(s.as_slice(), key) {
            let ghost before = strings_view(out@);
            out.push(set[i].clone());
            assert(strings_view(out@) =~= before.push(set@[i as int]@));
        }
        i = i + 1;
    }
    assert(sv.subrange(0, i as int) =~= sv);
    out
}

/// Adds `key` to the set when it is not there, takes it out when it is.
pub fn toggle_key(set: &mut Vec<String>, key: String)
    ensures
        strings_view(final(set)@) == toggled(strings_view(old(set)@), key@),
{
    let kc = chars_of(key.as_str());
    match position_of(set, kc.as_slice()) {
        Some(i) => {
            assert(strings_view(set@)[i as int] == key@);
            let rest = remove_all(set, kc.as_slice());
            *set = rest;
        },
        None => {
            let ghost before = strings_view(set@);
            let ghost kv = key@;
            set.push(key);
            assert(strings_view(set@) =~= before.push(kv));
        },
    }
}

/// Whether any class of the project is collapsed.
pub open spec fn any_collapsed(collapsed: Seq<Seq<char>>, project: Seq<char>, classes: Seq<TestClass>) -> bool {
    exists|i: int| 0 <= i < classes.len() && collapsed.contains(collapse_key_spec(project, #[trigger] classes[i].full_name_spec()))
}

/// Keys that do not belong to the project.
pub open spec fn other_projects(ss: Seq<Seq<char>>, project: Seq<char>) -> Seq<Seq<char>>
    decreases ss.len(),
{
    if ss.len() == 0 {
        Seq::empty()
    } else if starts_with(ss.last(), project + "::"@) {
        other_projects(ss.drop_last(), project)
    } else {
        other_projects(ss.drop_last(), project).push(ss.last())
    }
}

/// When any class of the project is collapsed, expands them all (drops every
/// key of the project); otherwise collapses them all (adds each class's key).
pub fn toggle_expand_collapse_all(collapsed: &mut Vec<String>, project_name: &str, classes: &Vec<TestClass>)
    ensures
        any_collapsed(strings_view(old(collapsed)@), project_name@, classes@) ==> strings_view(final(collapsed)@)
            == other_projects(strings_view(old(collapsed)@), project_name@),
        !any_collapsed(strings_view(old(collapsed)@), project_name@, classes@) ==> strings_view(final(collapsed)@)
            == strings_view(old(collapsed)@) + Seq::new(
                classes@.len(),
                |i: int| collapse_key_spec(project_name@, classes@[i].full_name_spec()),
            ),
{
    let ghost cv = strings_view(collapsed@);
    let mut any = false;
    let mut i: usize = 0;
    while i < classes.len()
        invariant
            i <= classes@.len(),
            cv == strings_view(collapsed@),
            any == exists|j: int| 0 <= j < i && cv.contains(collapse_key_spec(project_name@, #[trigger] classes@[j].full_name_spec())),
        decreases classes@.len() - i,
    {
        let key = collapse_key(project_name, classes[i].full_name().as_str());
        let kc = chars_of(key.as_str());
        match position_of(collapsed, kc.as_slice()) {
            Some(p) => {
                assert(cv[p as int] == key@);
                any = true;
            },
            None => {},
        }
        i = i + 1;
    }
    if any {
        let mut prefix = chars_of(project_name);
        let sep = chars_of("::");
        push_all(&mut prefix, sep.as_slice());
        let mut out: Vec<String> = Vec::new();
        let mut k: usize = 0;
        assert(cv.subrange(0, 0) =~= Seq::<Seq<char>>::empty());
        assert(strings_view(out@) =~= Seq::<Seq<char>>::empty());
        while k < collapsed.len()
            invariant
                k <= collapsed@.len(),
                cv == strings_view(collapsed@),
                prefix@ == project_name@ + "::"@,
                strings_view(out@) == other_projects(cv.subrange(0, k as int), project_name@),
            decreases collapsed@.len() - k,
        {
            let ghost pre = cv.subrange(0, k + 1);
            assert(pre.drop_last() =~= cv.subrange(0, k as int));
            assert(pre.last() == collapsed@[k as int]@);
            let s = chars_of(collapsed[k].as_str());
            if !has_prefix(s.as_slice(), prefix.as_slice()) {
                let ghost before = strings_view(out@);
                out.push(collapsed[k].clone());
                assert(strings_view(out@) =~= before.push(collapsed@[k as int]@));
            }
            k = k + 1;
        }
        assert(cv.subrange(0, k as int) =~= cv);
        *collapsed = out;
    } else {
        let ghost keys = Seq::new(classes@.len(), |j: int| collapse_key_spec(project_name@, classes@[j].full_name_spec()));
        let mut k: usize = 0;
        while k < classes.len()
            invariant
                k <= classes@.len(),
                keys == Seq::new(classes@.len(), |j: int| collapse_key_spec(project_name@, classes@[j].full_name_spec())),
                strings_view(collapsed@) == cv + keys.subrange(0, k as int),
            decreases classes@.len() - k,
        {
            let ghost before = strings_view(collapsed@);
            let key = collapse_key(project_name, classes[k].full_name().as_str());
            collapsed.push(key);
            assert(strings_view(collapsed@) =~= before.push(keys[k as int]));
            assert(keys.subrange(0, k + 1) =~= keys.subrange(0, k as int).push(keys[k as int]));
            k = k + 1;
        }
        assert(keys.subrange(0, k as int) =~= keys);
    }
}

/// Position (class, test) of the test with this full name, first in tree order.
pub fn find_test(classes: &Vec<TestClass>, full_name: &str) -> (r: Option<(usize, usize)>)
    ensures
        match r {
            Some((i, j)) => i < classes@.len() && j < classes@[i as int].tests@.len()
                && classes@[i as int].tests@[j as int].full_name@ == full_name@,
            None => forall|i: int, j: int| 0 <= i < classes@.len() && 0 <= j < classes@[i].tests@.len()
                ==> (#[trigger] classes@[i].tests@[j]).full_name@ != full_name@,
        },
{
    let f = chars_of(full_name);
    let mut i: usize = 0;
    while i < classes.len()
        invariant
            i <= classes@.len(),
            f@ == full_name@,
            forall|x: int, j: int| 0 <= x < i && 0 <= j < classes@[x].tests@.len()
                ==> (#[trigger] classes@[x].tests@[j]).full_name@ != full_name@,
        decreases classes@.len() - i,
    {
        let mut j: usize = 0;
        while j < classes[i].tests.len()
            invariant
                i < classes@.len(),
                j <= classes@[i as int].tests@.len(),
                f@ == full_name@,
                forall|y: int| 0 <= y < j ==> (#[trigger] classes@[i as int].tests@[y]).full_name@ != full_name@,
            decreases classes@[i as int].tests@.len() - j,
        {
            let t = chars_of(classes[i].tests[j].full_name.as_str());
            if same(t.as_slice(), f.as_slice()) {
                return Some((i, j));
            }
            j = j + 1;
        }
        i = i + 1;
    }
    None
}

/// Full names of the tests of the first class with this full name, when it
/// has any.
pub fn class_test_names(classes: &Vec<TestClass>, class_full_name: &str) -> (r: Option<Vec<String>>)
    ensures
        match r {
            Some(v) => v@.len() > 0 && exists|i: int| 0 <= i < classes@.len()
                && (#[trigger] classes@[i]).full_name_spec() == class_full_name@
                && strings_view(v@) == classes@[i].tests@.map_values(|t: Test| t.full_name@),
            None => forall|i: int| 0 <= i < classes@.len() && (#[trigger] classes@[i]).full_name_spec() == class_full_name@
                ==> classes@[i].tests@.len() == 0,
        },
{
    let f = chars_of(class_full_name);
    let mut i: usize = 0;
    while i < classes.len()
        invariant
            i <= classes@.len(),
            f@ == class_full_name@,
            forall|x: int| 0 <= x < i && (#[trigger] classes@[x]).full_name_spec() == class_full_name@
                ==> classes@[x].tests@.len() == 0,
        decreases classes@.len() - i,
    {
        let c = &classes[i];
        let cf = chars_of(c.full_name().as_str());
        if same(cf.as_slice(), f.as_slice()) && c.tests.len() > 0 {
            let mut out: Vec<String> = Vec::new();
            let mut j: usize = 0;
            while j < c.tests.len()
                invariant
                    j <= c.tests@.len(),
                    strings_view(out@) == c.tests@.subrange(0, j as int).map_values(|t: Test| t.full_name@),
                decreases c.tests@.len() - j,
            {
                let ghost before = strings_view(out@);
                out.push(c.tests[j].full_name.clone());
                assert(strings_view(out@) =~= before.push(c.tests@[j as int].full_name@));
                assert(c.tests@.subrange(0, j + 1) =~= c.tests@.subrange(0, j as int).push(c.tests@[j as int]));
                j = j + 1;
            }
            assert(c.tests@.subrange(0, j as int) =~= c.tests@);
            return Some(out);
        }
        i = i + 1;
    }
    None
}

} // verus!
