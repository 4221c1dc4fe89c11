//! The flattened navigation list of the test tree: class headers and the
//! tests under them, filtered and in case-insensitive order.

use vstd::prelude::*;
use crate::model::{Test, TestClass};
use crate::order::order_by_lower;
use crate::resolve::order_lower;
use crate::text::{chars_of, contains, has_infix, lower_of, lowercase, push_all, same, string_of};

verus! {

/// Which pane has the focus.
#[derive(Clone, Copy, Debug, PartialEq, Eq, Structural)]
pub enum Pane {
    Projects,
    Tests,
    Output,
    TestResult,
}

/// One row of the navigation list: a class header by full name, or a test by
/// full name.
#[derive(Clone, Debug)]
pub enum TestListItem {
    Class(String),
    Test(String),
}

/// A row as plain values: whether it is a class header, and its name.
pub type ItemView = (bool, Seq<char>);

pub open spec fn item_view(i: TestListItem) -> ItemView {
    match i {
        TestListItem::Class(n) => (true, n@),
        TestListItem::Test(n) => (false, n@),
    }
}

/// Whether a test name passes the filter: an empty filter passes everything,
/// otherwise the lowercase name must contain the lowercase filter.
pub open spec fn passes_filter(name: Seq<char>, filter: Seq<char>) -> bool {
    filter.len() == 0 || contains(lower_of(name), lower_of(filter))
}

/// The tests of a class that pass the filter, in their order.
pub open spec fn shown_tests(ts: Seq<Test>, filter: Seq<char>) -> Seq<Test>
    decreases ts.len(),
{
    if ts.len() == 0 {
        Seq::empty()
    } else if passes_filter(ts.last().name@, filter) {
        shown_tests(ts.drop_last(), filter).push(ts.last())
    } else {
        shown_tests(ts.drop_last(), filter)
    }
}

/// The key under which a class's collapsed state is kept.
pub open spec fn collapse_key_spec(project: Seq<char>, class: Seq<char>) -> Seq<char> {
    project + "::"@ + class
}

/// The rows of one class: nothing when a filter is set and no test passes it;
/// otherwise its header, then, unless collapsed, its passing tests in
/// case-insensitive name order.
pub open spec fn class_rows(c: TestClass, collapsed: Seq<Seq<char>>, filter: Seq<char>, project: Seq<char>) -> Seq<ItemView> {
    let full = c.full_name_spec();
    let shown = shown_tests(c.tests@, filter);
    let ord = order_by_lower(shown.map_values(|t: Test| t.name@));
    if filter.len() > 0 && shown.len() == 0 {
        Seq::empty()
    } else if collapsed.contains(collapse_key_spec(project, full)) {
        seq![(true, full)]
    } else {
        seq![(true, full)] + Seq::new(shown.len(), |k: int| (false, shown[ord[k] as int].full_name@))
    }
}

pub open spec fn flatten_rows(s: Seq<Seq<ItemView>>) -> Seq<ItemView>
    decreases s.len(),
{
    if s.len() == 0 {
        Seq::empty()
    } else {
        flatten_rows(s.drop_last()) + s.last()
    }
}

/// The navigation rows of a class list: classes in case-insensitive order of
/// full name, each with its rows.
pub open spec fn list_rows(classes: Seq<TestClass>, collapsed: Seq<Seq<char>>, filter: Seq<char>, project: Seq<char>) -> Seq<ItemView> {
    let ord = order_by_lower(classes.map_values(|c: TestClass| c.full_name_spec()));
    flatten_rows(Seq::new(classes.len(), |i: int| class_rows(classes[ord[i] as int], collapsed, filter, project)))
}

pub fn collapse_key(project_name: &str, class_name: &str) -> (r: String)
    ensures
        r@ == collapse_key_spec(project_name@, class_name@),
{
    let mut v = chars_of(project_name);
    let sep = chars_of("::");
    push_all(&mut v, sep.as_slice());
    let c = chars_of(class_name);
    push_all(&mut v, c.as_slice());
    string_of(v.as_slice())
}

fn listed(set: &Vec<String>, key: &[char]) -> (r: bool)
    ensures
        r == set@.map_values(|s: String| s@).contains(key@),
{
    let ghost sv = set@.map_values(|s: String| s@);
    let mut i: usize = 0;
    while i < set.len()
        invariant
            i <= set@.len(),
            sv == set@.map_values(|s: String| s@),
            forall|j: int| 0 <= j < i ==> sv[j] != key@,
        decreases set@.len() - i,
    {
        let s = chars_of(set[i].as_str());
        if same(s.as_slice(), key) {
            assert(sv[i as int] == key@);
            return true;
        }
        i = i + 1;
    }
    false
}

pub open spec fn rows_view(v: Seq<TestListItem>) -> Seq<ItemView> {
    v.map_values(|i: TestListItem| item_view(i))
}

/// Whether `name` passes the filter whose lowercase form is `lowered`.
fn passes(name: &String, filter: &str, lowered: &Vec<char>) -> (r: bool)
    requires
        lowered@ == lower_of(filter@),
    ensures
        r == passes_filter(name@, filter@),
{
    if filter.is_empty() {
        return true;
    }
    let l = lowercase(name.as_str());
    let lc = chars_of(l.as_str());
    has_infix(lc.as_slice(), lowered.as_slice())
}

/// The rows of the navigation list: classes in case-insensitive order of full
/// name; a class with no test passing a non-empty filter is left out; a class
/// whose key `project::class` is in `collapsed` shows its header alone;
/// otherwise its passing tests follow in case-insensitive name order.
pub fn build_test_items(classes: &Vec<TestClass>, collapsed: &Vec<String>, filter: &str, project_name: &str) -> (r: Vec<TestListItem>)
    ensures
        rows_view(r@) == list_rows(
            classes@,
            collapsed@.map_values(|s: String| s@),
            filter@,
            project_name@,
        ),
{
    let ghost cv = collapsed@.map_values(|s: String| s@);
    let lowered = chars_of(lowercase(filter).as_str());
    let mut keys: Vec<Vec<char>> = Vec::new();
    let mut i: usize = 0;
    while i < classes.len()
        invariant
            i <= classes@.len(),
            keys@.len() == i,
            forall|j: int| 0 <= j < i ==> (#[trigger] keys@[j])@ == classes@[j].full_name_spec(),
        decreases classes@.len() - i,
    {
        keys.push(chars_of(classes[i].full_name().as_str()));
        i = i + 1;
    }
    let ord = order_lower(&keys);
    assert(keys@.map_values(|k: Vec<char>| k@) =~= classes@.map_values(|c: TestClass| c.full_name_spec()));
    let ghost all = Seq::new(
        classes@.len(),
        |x: int| class_rows(classes@[ord@[x] as int], cv, filter@, project_name@),
    );
    let mut items: Vec<TestListItem> = Vec::new();
    let mut i: usize = 0;
    assert(all.subrange(0, 0) =~= Seq::<Seq<ItemView>>::empty());
    assert(rows_view(items@) =~= Seq::<ItemView>::empty());
    while i < ord.len()
        invariant
            i <= ord@.len(),
            ord@.len() == classes@.len(),
            forall|x: int| 0 <= x < ord@.len() ==> (#[trigger] ord@[x]) < classes@.len(),
            all == Seq::new(classes@.len(), |x: int| class_rows(classes@[ord@[x] as int], cv, filter@, project_name@)),
            cv == collapsed@.map_values(|s: String| s@),
            lowered@ == lower_of(filter@),
            rows_view(items@) == flatten_rows(all.subrange(0, i as int)),
        decreases ord@.len() - i,
    {
        let c = &classes[ord[i]];
        let full = c.full_name();
        let mut shown: Vec<Test> = Vec::new();
        let mut j: usize = 0;
        assert(c.tests@.subrange(0, 0) =~= Seq::<Test>::empty());
        while j < c.tests.len()
            invariant
                j <= c.tests@.len(),
                lowered@ == lower_of(filter@),
                shown@ == shown_tests(c.tests@.subrange(0, j as int), filter@),
            decreases c.tests@.len() - j,
        {
            assert(c.tests@.subrange(0, j + 1).drop_last() =~= c.tests@.subrange(0, j as int));
            if passes(&c.tests[j].name, filter, &lowered) {
                shown.push(c.tests[j].clone());
            }
            j = j + 1;
        }
        assert(c.tests@.subrange(0, j as int) =~= c.tests@);
        let ghost rows = class_rows(*c, cv, filter@, project_name@);
        let ghost before = rows_view(items@);
        assert(all.subrange(0, i + 1).drop_last() =~= all.subrange(0, i as int));
        assert(all[i as int] == rows);
        if !filter.is_empty() && shown.len() == 0 {
            assert(rows =~= Seq::<ItemView>::empty());
            assert(before + rows =~= before);
        } else {
            let key = collapse_key(project_name, full.as_str());
            let kc = chars_of(key.as_str());
            let is_collapsed = listed(collapsed, kc.as_slice());
            items.push(TestListItem::Class(full));
            if !is_collapsed {
                let mut names: Vec<Vec<char>> = Vec::new();
                let mut k: usize = 0;
                while k < shown.len()
                    invariant
                        k <= shown@.len(),
                        names@.len() == k,
                        forall|y: int| 0 <= y < k ==> (#[trigger] names@[y])@ == shown@[y].name@,
                    decreases shown@.len() - k,
                {
                    names.push(chars_of(shown[k].name.as_str()));
                    k = k + 1;
                }
                let tord = order_lower(&names);
                assert(names@.map_values(|k: Vec<char>| k@) =~= shown@.map_values(|t: Test| t.name@));
                let ghost tail = Seq::new(shown@.len(), |k: int| (false, shown@[tord@[k] as int].full_name@));
                let ghost head = rows_view(items@);
                let mut t: usize = 0;
                while t < tord.len()
                    invariant
                        t <= tord@.len(),
                        tord@.len() == shown@.len(),
                        forall|y: int| 0 <= y < tord@.len() ==> (#[trigger] tord@[y]) < shown@.len(),
                        tail == Seq::new(shown@.len(), |k: int| (false, shown@[tord@[k] as int].full_name@)),
                        rows_view(items@) == head + tail.subrange(0, t as int),
                    decreases tord@.len() - t,
                {
                    let ghost prev = rows_view(items@);
                    items.push(TestListItem::Test(shown[tord[t]].full_name.clone()));
                    assert(rows_view(items@) =~= prev.push(tail[t as int]));
                    assert(tail.subrange(0, t + 1) =~= tail.subrange(0, t as int).push(tail[t as int]));
                    t = t + 1;
                }
                assert(tail.subrange(0, t as int) =~= tail);
                assert(rows =~= seq![(true, full@)] + tail);
                assert(rows_view(items@) =~= before + rows);
            } else {
                assert(rows =~= seq![(true, full@)]);
                assert(rows_view(items@) =~= before + rows);
            }
        }
        i = i + 1;
    }
    assert(all.subrange(0, i as int) =~= all);
    items
}

} // verus!
