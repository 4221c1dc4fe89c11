//! Identity resolution: turning enumerated test names into a grouped tree of
//! classes and tests.

use vstd::prelude::*;
use crate::model::{Test, TestClass, TestMethodInfo, class_full_name, is_fresh_test};
use crate::order::{order_by_lower, order_of, isort, insert_sorted, keyed};
use crate::text::{
    after_last, before_first, lemma_index_of, lemma_last_index_of, chars_of, count_char, count_of, dot_join, find_char, last_index_of,
    lemma_index_of_bounds, lemma_last_index_of_bounds, lower_of, lowercase, push_all, rfind_char,
    same, slice, string_of,
};

verus! {

/// One key of the source index and the declarations filed under it.
pub type IndexEntry = (Seq<char>, Seq<TestMethodInfo>);

/// One resolved test: class key, display name, full name.
pub type Entry = (Seq<char>, Seq<char>, Seq<char>);

/// One class key and its tests (display name, full name) in encounter order.
pub type Group = (Seq<char>, Seq<(Seq<char>, Seq<char>)>);

/// Multimap from a method name to every declaration of it found in source.
pub struct NameMap {
    entries: Vec<(Vec<char>, Vec<TestMethodInfo>)>,
}

impl View for NameMap {
    type V = Seq<IndexEntry>;

    closed spec fn view(&self) -> Seq<IndexEntry> {
        self.entries@.map_values(|e: (Vec<char>, Vec<TestMethodInfo>)| (e.0@, e.1@))
    }
}

/// Keys are distinct and each key holds at least one declaration.
pub open spec fn index_wf(m: Seq<IndexEntry>) -> bool {
    &&& forall|i: int, j: int| 0 <= i < j < m.len() ==> m[i].0 != m[j].0
    &&& forall|i: int| 0 <= i < m.len() ==> #[trigger] m[i].1.len() > 0
}

/// Position of key `k` in the index, or `-1`.
pub open spec fn key_index(m: Seq<IndexEntry>, k: Seq<char>) -> int
    decreases m.len(),
{
    if m.len() == 0 {
        -1
    } else if m.last().0 == k {
        m.len() - 1
    } else {
        key_index(m.drop_last(), k)
    }
}

/// The index after filing `info` under `k`.
pub open spec fn index_insert(m: Seq<IndexEntry>, k: Seq<char>, info: TestMethodInfo) -> Seq<IndexEntry> {
    let j = key_index(m, k);
    if j >= 0 {
        m.update(j, (k, m[j].1.push(info)))
    } else {
        m.push((k, seq![info]))
    }
}

/// The index of a list of declarations, each filed under its method name.
pub open spec fn index_of_methods(ms: Seq<TestMethodInfo>) -> Seq<IndexEntry>
    decreases ms.len(),
{
    if ms.len() == 0 {
        Seq::empty()
    } else {
        index_insert(index_of_methods(ms.drop_last()), ms.last().method_name@, ms.last())
    }
}

pub proof fn lemma_key_index(m: Seq<IndexEntry>, k: Seq<char>)
    ensures
        -1 <= key_index(m, k) < m.len(),
        key_index(m, k) >= 0 ==> m[key_index(m, k)].0 == k,
        key_index(m, k) == -1 ==> forall|i: int| 0 <= i < m.len() ==> m[i].0 != k,
    decreases m.len(),
{
    if m.len() > 0 && m.last().0 != k {
        lemma_key_index(m.drop_last(), k);
        assert forall|i: int| 0 <= i < m.len() && key_index(m, k) == -1 implies m[i].0 != k by {
            if i < m.len() - 1 {
                assert(m[i] == m.drop_last()[i]);
            }
        }
    }
}

proof fn lemma_index_insert_wf(m: Seq<IndexEntry>, k: Seq<char>, info: TestMethodInfo)
    requires
        index_wf(m),
    ensures
        index_wf(index_insert(m, k, info)),
{
    lemma_key_index(m, k);
    let r = index_insert(m, k, info);
    let j = key_index(m, k);
    if j >= 0 {
        assert forall|a: int, b: int| 0 <= a < b < r.len() implies r[a].0 != r[b].0 by {
            assert(r[a].0 == m[a].0 && r[b].0 == m[b].0);
        }
        assert forall|a: int| 0 <= a < r.len() implies #[trigger] r[a].1.len() > 0 by {
            if a != j {
                assert(r[a] == m[a]);
            }
        }
    } else {
        assert forall|a: int, b: int| 0 <= a < b < r.len() implies r[a].0 != r[b].0 by {
            if b < m.len() {
                assert(r[a] == m[a] && r[b] == m[b]);
            } else {
                assert(r[a] == m[a]);
            }
        }
        assert forall|a: int| 0 <= a < r.len() implies #[trigger] r[a].1.len() > 0 by {
            if a < m.len() {
                assert(r[a] == m[a]);
            }
        }
    }
}

impl NameMap {
    pub open spec fn wf(&self) -> bool {
        index_wf(self@)
    }

    pub fn new() -> (r: Self)
        ensures
            r@ == Seq::<IndexEntry>::empty(),
            r.wf(),
    {
        let r = NameMap { entries: Vec::new() };
        assert(r@ =~= Seq::<IndexEntry>::empty());
        r
    }

    /// Position of `k` among the keys.
    fn find(&self, k: &[char]) -> (r: Option<usize>)
        ensures
            r is Some ==> r->0 == key_index(self@, k@),
            r is None ==> key_index(self@, k@) == -1,
    {
        let mut i: usize = self.entries.len();
        assert(self@.subrange(0, i as int) =~= self@);
        while i > 0
            invariant
                i <= self.entries@.len(),
                key_index(self@, k@) == key_index(self@.subrange(0, i as int), k@),
            decreases i,
        {
            let ghost pre = self@.subrange(0, i as int);
            assert(pre.last() == self@[i - 1]);
            assert(self@[i - 1].0 == self.entries@[i - 1].0@);
            if same(self.entries[i - 1].0.as_slice(), k) {
                return Some(i - 1);
            }
            assert(pre.drop_last() =~= self@.subrange(0, i - 1));
            i = i - 1;
        }
        None
    }

    /// Files `info` under the key `key`.
    pub fn insert(&mut self, key: String, info: TestMethodInfo)
        requires
            old(self).wf(),
        ensures
            final(self).wf(),
            final(self)@ == index_insert(old(self)@, key@, info),
    {
        let k = chars_of(key.as_str());
        proof {
            lemma_index_insert_wf(self@, k@, info);
            lemma_key_index(self@, k@);
        }
        let ghost before = self@;
        match self.find(k.as_slice()) {
            Some(j) => {
                let mut e = self.entries.remove(j);
                e.1.push(info);
                let ghost ev = (e.0@, e.1@);
                self.entries.insert(j, e);
                assert(self@ =~= before.update(j as int, ev));
            },
            None => {
                let mut infos: Vec<TestMethodInfo> = Vec::new();
                infos.push(info);
                self.entries.push((k, infos));
                assert(self@ =~= before.push((key@, seq![info])));
            },
        }
    }
}

/// Builds the source index from declarations, filing each under its method name.
pub fn build_test_name_map(methods: Vec<TestMethodInfo>) -> (r: NameMap)
    ensures
        r.wf(),
        r@ == index_of_methods(methods@),
{
    let mut m = NameMap::new();
    let mut i: usize = 0;
    while i < methods.len()
        invariant
            i <= methods@.len(),
            m.wf(),
            m@ == index_of_methods(methods@.subrange(0, i as int)),
        decreases methods@.len() - i,
    {
        let info = methods[i].clone();
        assert(methods@.subrange(0, i + 1).drop_last() =~= methods@.subrange(0, i as int));
        m.insert(info.method_name.clone(), info);
        i = i + 1;
    }
    assert(methods@.subrange(0, i as int) =~= methods@);
    m
}


/// The parameter-free part of a name: everything before its first `(`.
pub open spec fn base_name(s: Seq<char>) -> Seq<char> {
    before_first(s, '(')
}

/// A name whose parameter-free part holds two or more dots counts as fully qualified.
pub open spec fn is_qualified(s: Seq<char>) -> bool {
    count_of(base_name(s), '.') >= 2
}

pub open spec fn qualified_count(names: Seq<Seq<char>>) -> nat
    decreases names.len(),
{
    if names.len() == 0 {
        0
    } else {
        qualified_count(names.drop_last()) + if is_qualified(names.last()) {
            1nat
        } else {
            0nat
        }
    }
}

/// A batch is fully qualified when a strict majority of its names is.
pub open spec fn are_fqn(names: Seq<Seq<char>>) -> bool {
    names.len() > 0 && qualified_count(names) > names.len() / 2
}

/// (method, class, namespace) of a fully qualified name, split at the last two
/// dots of its parameter-free part.
pub open spec fn fqn_parts(s: Seq<char>) -> (Seq<char>, Seq<char>, Seq<char>) {
    let base = base_name(s);
    let d1 = last_index_of(base, '.');
    if d1 < 0 {
        (s, Seq::empty(), Seq::empty())
    } else {
        let rest = base.subrange(0, d1);
        let method = base.subrange(d1 + 1, base.len() as int);
        let d2 = last_index_of(rest, '.');
        if d2 < 0 {
            (method, rest, Seq::empty())
        } else {
            (method, rest.subrange(d2 + 1, rest.len() as int), rest.subrange(0, d2))
        }
    }
}

/// The resolved entry of a fully qualified name.
pub open spec fn fqn_entry(s: Seq<char>) -> Entry {
    let (m, c, ns) = fqn_parts(s);
    let full = if ns.len() == 0 {
        if c.len() == 0 {
            m
        } else {
            dot_join(c, m)
        }
    } else {
        dot_join(dot_join(ns, c), m)
    };
    let display = if c.len() == 0 {
        m
    } else {
        dot_join(c, m)
    };
    (class_full_name(ns, c), display, full)
}

/// Which index key a name resolves to: the name itself, then the name without
/// parameters, then the bare method name; `-1` when none is in the index.
pub open spec fn resolve_index(m: Seq<IndexEntry>, name: Seq<char>) -> int {
    let base = base_name(name);
    let bare = after_last(base, '.');
    if key_index(m, name) >= 0 {
        key_index(m, name)
    } else if base.len() < name.len() && key_index(m, base) >= 0 {
        key_index(m, base)
    } else if last_index_of(base, '.') >= 0 && key_index(m, bare) >= 0 {
        key_index(m, bare)
    } else {
        -1
    }
}

/// How many of the first `i` names resolve to index key `e`.
pub open spec fn uses_before(m: Seq<IndexEntry>, names: Seq<Seq<char>>, i: int, e: int) -> nat
    decreases i,
{
    if i <= 0 {
        0
    } else {
        uses_before(m, names, i - 1, e) + if resolve_index(m, names[i - 1]) == e {
            1nat
        } else {
            0nat
        }
    }
}

/// The resolved entry of the `i`-th bare name: the owners of its key are taken
/// in turn, one per occurrence; an unresolved name goes to the unnamed class.
pub open spec fn bare_entry(m: Seq<IndexEntry>, names: Seq<Seq<char>>, i: int) -> Entry {
    let e = resolve_index(m, names[i]);
    if e >= 0 {
        let infos = m[e].1;
        let info = infos[(uses_before(m, names, i, e) % infos.len()) as int];
        (info.class_key(), names[i], info.full_name_spec())
    } else {
        (Seq::empty(), names[i], names[i])
    }
}

/// The resolved entries of a batch of enumerated names.
pub open spec fn entries_of(m: Seq<IndexEntry>, names: Seq<Seq<char>>) -> Seq<Entry> {
    if are_fqn(names) {
        Seq::new(names.len(), |i: int| fqn_entry(names[i]))
    } else {
        Seq::new(names.len(), |i: int| bare_entry(m, names, i))
    }
}

/// Position of the group with key `k`, or `-1`.
pub open spec fn group_index(gs: Seq<Group>, k: Seq<char>) -> int
    decreases gs.len(),
{
    if gs.len() == 0 {
        -1
    } else if gs.last().0 == k {
        gs.len() - 1
    } else {
        group_index(gs.drop_last(), k)
    }
}

pub open spec fn group_add(gs: Seq<Group>, e: Entry) -> Seq<Group> {
    let j = group_index(gs, e.0);
    if j >= 0 {
        gs.update(j, (e.0, gs[j].1.push((e.1, e.2))))
    } else {
        gs.push((e.0, seq![(e.1, e.2)]))
    }
}

/// Entries bucketed by class key, buckets in order of first appearance.
pub open spec fn group_entries(es: Seq<Entry>) -> Seq<Group>
    decreases es.len(),
{
    if es.len() == 0 {
        Seq::empty()
    } else {
        group_add(group_entries(es.drop_last()), es.last())
    }
}

/// (name, namespace) of a class key, split at its last dot.
pub open spec fn class_parts(key: Seq<char>) -> (Seq<char>, Seq<char>) {
    let d = last_index_of(key, '.');
    if d >= 0 {
        (key.subrange(d + 1, key.len() as int), key.subrange(0, d))
    } else {
        (key, Seq::empty())
    }
}

/// `c` is the class of group `g`, its tests in case-insensitive name order.
pub open spec fn class_matches(c: TestClass, g: Group) -> bool {
    let ord = order_by_lower(g.1.map_values(|t: (Seq<char>, Seq<char>)| t.0));
    &&& c.name@ == class_parts(g.0).0
    &&& c.namespace@ == class_parts(g.0).1
    &&& c.tests@.len() == g.1.len()
    &&& forall|k: int|
        0 <= k < g.1.len() ==> is_fresh_test(
            #[trigger] c.tests@[k],
            g.1[ord[k] as int].0,
            g.1[ord[k] as int].1,
        )
}

/// `out` holds one class per group, in case-insensitive order of class keys.
pub open spec fn classes_of(out: Seq<TestClass>, gs: Seq<Group>) -> bool {
    let ord = order_by_lower(gs.map_values(|g: Group| g.0));
    &&& out.len() == gs.len()
    &&& forall|i: int| 0 <= i < gs.len() ==> class_matches(#[trigger] out[i], gs[ord[i] as int])
}

pub open spec fn names_view(v: Seq<String>) -> Seq<Seq<char>> {
    v.map_values(|s: String| s@)
}

pub open spec fn entry_view(v: Seq<(Vec<char>, String, String)>) -> Seq<Entry> {
    v.map_values(|e: (Vec<char>, String, String)| (e.0@, e.1@, e.2@))
}

pub open spec fn group_view(v: Seq<(Vec<char>, Vec<(String, String)>)>) -> Seq<Group> {
    v.map_values(
        |g: (Vec<char>, Vec<(String, String)>)|
            (g.0@, g.1@.map_values(|t: (String, String)| (t.0@, t.1@))),
    )
}

proof fn lemma_insert_sorted_len_bound(s: Seq<(Seq<char>, usize)>, x: (Seq<char>, usize), n: usize)
    requires
        forall|i: int| 0 <= i < s.len() ==> (#[trigger] s[i]).1 < n,
        x.1 < n,
    ensures
        insert_sorted(s, x).len() == s.len() + 1,
        forall|i: int| 0 <= i < insert_sorted(s, x).len() ==> (#[trigger] insert_sorted(s, x)[i]).1 < n,
    decreases s.len(),
{
    if s.len() > 0 && !crate::order::seq_lt(x.0, s[0].0) {
        assert forall|i: int| 0 <= i < s.drop_first().len() implies (#[trigger] s.drop_first()[i]).1 < n by {
            assert(s.drop_first()[i] == s[i + 1]);
        }
        lemma_insert_sorted_len_bound(s.drop_first(), x, n);
    }
}

proof fn lemma_isort_len_bound(s: Seq<(Seq<char>, usize)>, n: usize)
    requires
        forall|i: int| 0 <= i < s.len() ==> (#[trigger] s[i]).1 < n,
    ensures
        isort(s).len() == s.len(),
        forall|i: int| 0 <= i < isort(s).len() ==> (#[trigger] isort(s)[i]).1 < n,
    decreases s.len(),
{
    if s.len() > 0 {
        assert forall|i: int| 0 <= i < s.drop_last().len() implies (#[trigger] s.drop_last()[i]).1 < n by {
            assert(s.drop_last()[i] == s[i]);
        }
        lemma_isort_len_bound(s.drop_last(), n);
        lemma_insert_sorted_len_bound(isort(s.drop_last()), s.last(), n);
    }
}

/// The order of `keys` by lowercase form is a list of positions of `keys`.
pub proof fn lemma_order_bounds(keys: Seq<Seq<char>>)
    requires
        keys.len() <= usize::MAX,
    ensures
        order_by_lower(keys).len() == keys.len(),
        forall|i: int| 0 <= i < keys.len() ==> (#[trigger] order_by_lower(keys)[i]) < keys.len(),
{
    let s = keyed(keys);
    assert forall|i: int| 0 <= i < s.len() implies (#[trigger] s[i]).1 < keys.len() by {}
    if keys.len() > 0 {
        lemma_isort_len_bound(s, keys.len() as usize);
    }
    assert(isort(s).len() == s.len()) by {
        if keys.len() == 0 {
            assert(s.len() == 0);
        }
    }
}

/// Lowercase forms of the given keys, in order.
fn lowered_all(keys: &Vec<Vec<char>>) -> (r: Vec<Vec<char>>)
    ensures
        r@.len() == keys@.len(),
        forall|i: int| 0 <= i < keys@.len() ==> (#[trigger] r@[i])@ == lower_of(keys@[i]@),
{
    let mut r: Vec<Vec<char>> = Vec::new();
    let mut i: usize = 0;
    while i < keys.len()
        invariant
            i <= keys@.len(),
            r@.len() == i,
            forall|j: int| 0 <= j < i ==> (#[trigger] r@[j])@ == lower_of(keys@[j]@),
        decreases keys@.len() - i,
    {
        let s = string_of(keys[i].as_slice());
        let l = lowercase(s.as_str());
        r.push(chars_of(l.as_str()));
        i = i + 1;
    }
    r
}

/// Positions of `keys` in case-insensitive order.
pub fn order_lower(keys: &Vec<Vec<char>>) -> (r: Vec<usize>)
    ensures
        r@ == order_by_lower(keys@.map_values(|k: Vec<char>| k@)),
        r@.len() == keys@.len(),
        forall|i: int| 0 <= i < keys@.len() ==> (#[trigger] r@[i]) < keys@.len(),
{
    let _n = keys.len();
    let lowered = lowered_all(keys);
    let r = order_of(&lowered);
    let ghost kv = keys@.map_values(|k: Vec<char>| k@);
    assert(Seq::new(lowered@.len(), |i: int| (lowered@[i]@, i as usize)) =~= keyed(kv));
    proof {
        lemma_order_bounds(kv);
    }
    r
}

/// Class name and namespace of a class key.
fn split_class_key(key: &[char]) -> (r: (String, String))
    ensures
        (r.0@, r.1@) == class_parts(key@),
{
    let n = key.len();
    match rfind_char(key, '.') {
        Some(d) => {
            proof {
                lemma_last_index_of_bounds(key@, '.');
            }
            let name = slice(key, d + 1, n);
            let ns = slice(key, 0, d);
            (string_of(name.as_slice()), string_of(ns.as_slice()))
        },
        None => (string_of(key), string_of(&[])),
    }
}

proof fn lemma_group_index(gs: Seq<Group>, k: Seq<char>)
    ensures
        -1 <= group_index(gs, k) < gs.len(),
        group_index(gs, k) >= 0 ==> gs[group_index(gs, k)].0 == k,
    decreases gs.len(),
{
    if gs.len() > 0 && gs.last().0 != k {
        lemma_group_index(gs.drop_last(), k);
    }
}

/// Position of the group with key `k`.
fn find_group(gs: &Vec<(Vec<char>, Vec<(String, String)>)>, k: &[char]) -> (r: Option<usize>)
    ensures
        r is Some ==> r->0 == group_index(group_view(gs@), k@) && r->0 < gs@.len(),
        r is None ==> group_index(group_view(gs@), k@) == -1,
{
    let ghost gv = group_view(gs@);
    let mut i: usize = gs.len();
    assert(gv.subrange(0, i as int) =~= gv);
    while i > 0
        invariant
            i <= gs@.len(),
            gv == group_view(gs@),
            group_index(gv, k@) == group_index(gv.subrange(0, i as int), k@),
        decreases i,
    {
        let ghost pre = gv.subrange(0, i as int);
        assert(pre.last() == gv[i - 1]);
        assert(gv[i - 1].0 == gs@[i - 1].0@);
        if same(gs[i - 1].0.as_slice(), k) {
            return Some(i - 1);
        }
        assert(pre.drop_last() =~= gv.subrange(0, i - 1));
        i = i - 1;
    }
    None
}

/// Buckets the entries by class key.
pub fn group_all(entries: Vec<(Vec<char>, String, String)>) -> (r: Vec<(Vec<char>, Vec<(String, String)>)>)
    ensures
        group_view(r@) == group_entries(entry_view(entries@)),
{
    let ghost ev = entry_view(entries@);
    let mut gs: Vec<(Vec<char>, Vec<(String, String)>)> = Vec::new();
    let mut entries = entries;
    let mut i: usize = 0;
    let n = entries.len();
    assert(group_view(gs@) =~= group_entries(ev.subrange(0, 0)));
    while entries.len() > 0
        invariant
            i + entries@.len() == n,
            n == ev.len(),
            entry_view(entries@) == ev.subrange(i as int, n as int),
            group_view(gs@) == group_entries(ev.subrange(0, i as int)),
        decreases entries@.len(),
    {
        let ghost eold = entry_view(entries@);
        assert(eold[0] == ev[i as int]);
        let e = entries.remove(0);
        let ghost e_v = (e.0@, e.1@, e.2@);
        assert(e_v == eold[0]);
        let ghost before = group_view(gs@);
        assert(ev.subrange(0, i + 1).drop_last() =~= ev.subrange(0, i as int));
        assert(ev.subrange(0, i + 1).last() == e_v);
        proof {
            lemma_group_index(before, e_v.0);
        }
        match find_group(&gs, e.0.as_slice()) {
            Some(j) => {
                let ghost gs0 = gs@;
                let mut g = gs.remove(j);
                assert(g == gs0[j as int]);
                let ghost gold = (g.0@, g.1@.map_values(|t: (String, String)| (t.0@, t.1@)));
                assert(gold == before[j as int]);
                g.1.push((e.1, e.2));
                let ghost gnew = (g.0@, g.1@.map_values(|t: (String, String)| (t.0@, t.1@)));
                assert(gnew.1 =~= gold.1.push((e_v.1, e_v.2)));
                gs.insert(j, g);
                assert(gs@ =~= gs0.update(j as int, g));
                assert(group_view(gs@) =~= before.update(j as int, (e_v.0, before[j as int].1.push((e_v.1, e_v.2)))));
            },
            None => {
                let mut ts: Vec<(String, String)> = Vec::new();
                ts.push((e.1, e.2));
                assert(ts@.map_values(|t: (String, String)| (t.0@, t.1@)) =~= seq![(e_v.1, e_v.2)]);
                gs.push((e.0, ts));
                assert(group_view(gs@) =~= before.push((e_v.0, seq![(e_v.1, e_v.2)])));
            },
        }
        i = i + 1;
        assert(entry_view(entries@) =~= eold.drop_first());
        assert(entry_view(entries@) =~= ev.subrange(i as int, n as int));
    }
    assert(ev.subrange(0, i as int) =~= ev);
    gs
}

/// Builds the class list from resolved entries: bucketed by class key, classes
/// and their tests in case-insensitive name order.
pub fn build_test_classes(entries: Vec<(Vec<char>, String, String)>) -> (r: Vec<TestClass>)
    ensures
        classes_of(r@, group_entries(entry_view(entries@))),
{
    let gs = group_all(entries);
    let ghost gv = group_view(gs@);
    let mut keys: Vec<Vec<char>> = Vec::new();
    let mut i: usize = 0;
    while i < gs.len()
        invariant
            i <= gs@.len(),
            keys@.len() == i,
            forall|j: int| 0 <= j < i ==> (#[trigger] keys@[j])@ == gs@[j].0@,
        decreases gs@.len() - i,
    {
        let k = slice(gs[i].0.as_slice(), 0, gs[i].0.len());
        assert(gs@[i as int].0@.subrange(0, gs@[i as int].0@.len() as int) =~= gs@[i as int].0@);
        keys.push(k);
        i = i + 1;
    }
    let ord = order_lower(&keys);
    assert(keys@.map_values(|k: Vec<char>| k@) =~= gv.map_values(|g: Group| g.0));
    let mut out: Vec<TestClass> = Vec::new();
    let mut c: usize = 0;
    while c < ord.len()
        invariant
            c <= ord@.len(),
            ord@.len() == gs@.len(),
            gv == group_view(gs@),
            ord@ == order_by_lower(gv.map_values(|g: Group| g.0)),
            forall|i: int| 0 <= i < ord@.len() ==> (#[trigger] ord@[i]) < gs@.len(),
            out@.len() == c,
            forall|i: int| 0 <= i < c ==> class_matches(#[trigger] out@[i], gv[ord@[i] as int]),
        decreases ord@.len() - c,
    {
        let g = &gs[ord[c]];
        let ghost gg = gv[ord@[c as int] as int];
        let (name, namespace) = split_class_key(g.0.as_slice());
        let mut names: Vec<Vec<char>> = Vec::new();
        let mut k: usize = 0;
        while k < g.1.len()
            invariant
                k <= g.1@.len(),
                names@.len() == k,
                forall|j: int| 0 <= j < k ==> (#[trigger] names@[j])@ == g.1@[j].0@,
            decreases g.1@.len() - k,
        {
            names.push(chars_of(g.1[k].0.as_str()));
            k = k + 1;
        }
        let tord = order_lower(&names);
        assert(names@.map_values(|k: Vec<char>| k@) =~= gg.1.map_values(|t: (Seq<char>, Seq<char>)| t.0));
        let mut tests: Vec<Test> = Vec::new();
        let mut t: usize = 0;
        while t < tord.len()
            invariant
                t <= tord@.len(),
                tord@.len() == g.1@.len(),
                gg == (g.0@, g.1@.map_values(|x: (String, String)| (x.0@, x.1@))),
                forall|i: int| 0 <= i < tord@.len() ==> (#[trigger] tord@[i]) < g.1@.len(),
                tests@.len() == t,
                forall|j: int| 0 <= j < t ==> is_fresh_test(#[trigger] tests@[j], gg.1[tord@[j] as int].0, gg.1[tord@[j] as int].1),
            decreases tord@.len() - t,
        {
            let pair = &g.1[tord[t]];
            tests.push(Test::new(pair.0.clone(), pair.1.clone()));
            t = t + 1;
        }
        let class = TestClass { name, namespace, tests };
        assert(class_matches(class, gg));
        out.push(class);
        c = c + 1;
    }
    out
}

/// The characters of `a.b`.
fn dot_chars(a: &[char], b: &[char]) -> (r: Vec<char>)
    ensures
        r@ == dot_join(a@, b@),
{
    let mut v = slice(a, 0, a.len());
    assert(a@.subrange(0, a@.len() as int) =~= a@);
    v.push('.');
    push_all(&mut v, b);
    v
}

/// The parameter-free part of a name.
fn base_of(name: &[char]) -> (r: Vec<char>)
    ensures
        r@ == base_name(name@),
{
    proof {
        lemma_index_of_bounds(name@, '(');
    }
    let p = find_char(name, '(');
    slice(name, 0, p)
}

/// Whether most names of the batch are fully qualified.
pub fn are_fqn_names(test_names: &Vec<String>) -> (r: bool)
    ensures
        r == are_fqn(names_view(test_names@)),
{
    let ghost nv = names_view(test_names@);
    let mut count: usize = 0;
    let mut i: usize = 0;
    while i < test_names.len()
        invariant
            i <= test_names@.len(),
            nv == names_view(test_names@),
            count == qualified_count(nv.subrange(0, i as int)),
            count <= i,
        decreases test_names@.len() - i,
    {
        assert(nv.subrange(0, i + 1).drop_last() =~= nv.subrange(0, i as int));
        let cs = chars_of(test_names[i].as_str());
        let base = base_of(cs.as_slice());
        if count_char(base.as_slice(), '.') >= 2 {
            count = count + 1;
        }
        i = i + 1;
    }
    assert(nv.subrange(0, i as int) =~= nv);
    test_names.len() > 0 && count > test_names.len() / 2
}

/// Splits a fully qualified name into (method, class, namespace).
pub fn parse_fqn(fqn: &str) -> (r: (String, String, String))
    ensures
        (r.0@, r.1@, r.2@) == fqn_parts(fqn@),
{
    let cs = chars_of(fqn);
    let base = base_of(cs.as_slice());
    let n = base.len();
    proof {
        lemma_last_index_of_bounds(base@, '.');
    }
    match rfind_char(base.as_slice(), '.') {
        None => (string_of(cs.as_slice()), string_of(&[]), string_of(&[])),
        Some(d1) => {
            let rest = slice(base.as_slice(), 0, d1);
            let method = slice(base.as_slice(), d1 + 1, n);
            let rn = rest.len();
            proof {
                lemma_last_index_of_bounds(rest@, '.');
            }
            match rfind_char(rest.as_slice(), '.') {
                None => (string_of(method.as_slice()), string_of(rest.as_slice()), string_of(&[])),
                Some(d2) => {
                    let class = slice(rest.as_slice(), d2 + 1, rn);
                    let ns = slice(rest.as_slice(), 0, d2);
                    (string_of(method.as_slice()), string_of(class.as_slice()), string_of(ns.as_slice()))
                },
            }
        },
    }
}

/// The resolved entry of one fully qualified name.
fn fqn_entry_of(fqn: &String) -> (r: (Vec<char>, String, String))
    ensures
        (r.0@, r.1@, r.2@) == fqn_entry(fqn@),
{
    let (m, c, ns) = parse_fqn(fqn.as_str());
    let mc = chars_of(m.as_str());
    let cc = chars_of(c.as_str());
    let nc = chars_of(ns.as_str());
    let cm = dot_chars(cc.as_slice(), mc.as_slice());
    let full = if nc.len() == 0 {
        if cc.len() == 0 {
            slice(mc.as_slice(), 0, mc.len())
        } else {
            slice(cm.as_slice(), 0, cm.len())
        }
    } else {
        let nsc = dot_chars(nc.as_slice(), cc.as_slice());
        dot_chars(nsc.as_slice(), mc.as_slice())
    };
    let display = if cc.len() == 0 {
        slice(mc.as_slice(), 0, mc.len())
    } else {
        cm
    };
    let key = if nc.len() == 0 {
        cc
    } else {
        dot_chars(nc.as_slice(), cc.as_slice())
    };
    assert(mc@.subrange(0, mc@.len() as int) =~= mc@);
    assert(cm@.subrange(0, cm@.len() as int) =~= cm@);
    (key, string_of(display.as_slice()), string_of(full.as_slice()))
}

/// Groups fully qualified names by the class that each names.
pub fn group_tests_by_fqn(test_names: Vec<String>) -> (r: Vec<TestClass>)
    ensures
        classes_of(
            r@,
            group_entries(
                Seq::new(test_names@.len(), |i: int| fqn_entry(names_view(test_names@)[i])),
            ),
        ),
{
    let ghost nv = names_view(test_names@);
    let mut entries: Vec<(Vec<char>, String, String)> = Vec::new();
    let mut i: usize = 0;
    while i < test_names.len()
        invariant
            i <= test_names@.len(),
            nv == names_view(test_names@),
            entry_view(entries@) == Seq::new(i as nat, |j: int| fqn_entry(nv[j])),
        decreases test_names@.len() - i,
    {
        let e = fqn_entry_of(&test_names[i]);
        let ghost before = entry_view(entries@);
        assert(nv[i as int] == test_names@[i as int]@);
        let ghost ev = (e.0@, e.1@, e.2@);
        entries.push(e);
        assert(entry_view(entries@) =~= before.push(ev));
        i = i + 1;
        assert(entry_view(entries@) =~= Seq::new(i as nat, |j: int| fqn_entry(nv[j])));
    }
    build_test_classes(entries)
}

/// The index key that a name resolves to, trying the name, then the name
/// without parameters, then the bare method name.
fn resolve_test_in_map(name: &[char], name_map: &NameMap) -> (r: Option<usize>)
    ensures
        r is Some ==> r->0 == resolve_index(name_map@, name@),
        r is None ==> resolve_index(name_map@, name@) == -1,
{
    proof {
        lemma_key_index(name_map@, name@);
    }
    if let Some(e) = name_map.find(name) {
        return Some(e);
    }
    let base = base_of(name);
    proof {
        lemma_index_of_bounds(name@, '(');
    }
    if base.len() < name.len() {
        if let Some(e) = name_map.find(base.as_slice()) {
            return Some(e);
        }
    }
    let bn = base.len();
    proof {
        lemma_last_index_of_bounds(base@, '.');
    }
    match rfind_char(base.as_slice(), '.') {
        Some(pos) => {
            let bare = slice(base.as_slice(), pos + 1, bn);
            name_map.find(bare.as_slice())
        },
        None => None,
    }
}

proof fn lemma_uses_before_bound(m: Seq<IndexEntry>, names: Seq<Seq<char>>, i: int, e: int)
    requires
        0 <= i,
    ensures
        uses_before(m, names, i, e) <= i,
    decreases i,
{
    if i > 0 {
        lemma_uses_before_bound(m, names, i - 1, e);
    }
}

/// Class key of a declaration.
fn class_key_of(info: &TestMethodInfo) -> (r: Vec<char>)
    ensures
        r@ == info.class_key(),
{
    let cc = chars_of(info.class_name.as_str());
    if info.namespace.as_str().is_empty() {
        cc
    } else {
        let nc = chars_of(info.namespace.as_str());
        dot_chars(nc.as_slice(), cc.as_slice())
    }
}

/// Resolves each bare name through the source index, taking the owners of a
/// repeated key in turn.
fn bare_entries(test_names: &Vec<String>, name_map: &NameMap) -> (r: Vec<(Vec<char>, String, String)>)
    requires
        name_map.wf(),
    ensures
        entry_view(r@) == Seq::new(
            test_names@.len(),
            |i: int| bare_entry(name_map@, names_view(test_names@), i),
        ),
{
    let ghost nv = names_view(test_names@);
    let ghost m = name_map@;
    let mut used: Vec<usize> = Vec::new();
    let mut e: usize = 0;
    while e < name_map.entries.len()
        invariant
            e <= name_map.entries@.len(),
            used@.len() == e,
            forall|j: int| 0 <= j < e ==> used@[j] == 0,
        decreases name_map.entries@.len() - e,
    {
        used.push(0);
        e = e + 1;
    }
    let mut entries: Vec<(Vec<char>, String, String)> = Vec::new();
    let mut i: usize = 0;
    while i < test_names.len()
        invariant
            i <= test_names@.len(),
            nv == names_view(test_names@),
            m == name_map@,
            index_wf(m),
            used@.len() == m.len(),
            forall|j: int| 0 <= j < m.len() ==> #[trigger] used@[j] == uses_before(m, nv, i as int, j),
            entry_view(entries@) == Seq::new(i as nat, |j: int| bare_entry(m, nv, j)),
        decreases test_names@.len() - i,
    {
        let cs = chars_of(test_names[i].as_str());
        let ghost bi = bare_entry(m, nv, i as int);
        let ghost before = entry_view(entries@);
        assert(nv[i as int] == test_names@[i as int]@);
        match resolve_test_in_map(cs.as_slice(), name_map) {
            Some(e) => {
                proof {
                    lemma_key_index(m, base_name(nv[i as int]));
                    lemma_key_index(m, nv[i as int]);
                    lemma_key_index(m, after_last(base_name(nv[i as int]), '.'));
                    lemma_uses_before_bound(m, nv, i as int, e as int);
                }
                assert(e < m.len());
                let c = used[e];
                let infos = &name_map.entries[e].1;
                assert(m[e as int].1 == infos@);
                let info = &infos[c % infos.len()];
                let key = class_key_of(info);
                let full = info.full_name();
                assert((key@, test_names@[i as int]@, full@) == bi);
                entries.push((key, test_names[i].clone(), full));
                assert(entry_view(entries@) =~= before.push(bi));
                used[e] = c + 1;
            },
            None => {
                let empty: Vec<char> = Vec::new();
                assert((empty@, test_names@[i as int]@, test_names@[i as int]@) == bi);
                entries.push((empty, test_names[i].clone(), test_names[i].clone()));
                assert(entry_view(entries@) =~= before.push(bi));
            },
        }
        assert forall|j: int| 0 <= j < m.len() implies #[trigger] used@[j] == uses_before(m, nv, i + 1, j) by {}
        i = i + 1;
        assert(entry_view(entries@) =~= Seq::new(i as nat, |j: int| bare_entry(m, nv, j)));
    }
    entries
}

/// Groups enumerated names into classes. A fully qualified batch is split
/// directly; otherwise each name is resolved through the source index, and a
/// name that resolves nowhere goes to the unnamed class.
pub fn group_tests_by_class(test_names: Vec<String>, name_map: &NameMap) -> (r: Vec<TestClass>)
    requires
        name_map.wf(),
    ensures
        classes_of(r@, group_entries(entries_of(name_map@, names_view(test_names@)))),
{
    if are_fqn_names(&test_names) {
        let r = group_tests_by_fqn(test_names);
        return r;
    }
    let entries = bare_entries(&test_names, name_map);
    build_test_classes(entries)
}

proof fn lemma_count_none(s: Seq<char>, c: char)
    requires
        forall|i: int| 0 <= i < s.len() ==> s[i] != c,
    ensures
        count_of(s, c) == 0,
    decreases s.len(),
{
    if s.len() > 0 {
        lemma_count_none(s.drop_last(), c);
    }
}

proof fn lemma_unqualified_count(names: Seq<Seq<char>>)
    requires
        forall|i: int| 0 <= i < names.len() ==> !is_qualified(#[trigger] names[i]),
    ensures
        qualified_count(names) == 0,
    decreases names.len(),
{
    if names.len() > 0 {
        assert(!is_qualified(names[names.len() - 1]));
        lemma_unqualified_count(names.drop_last());
    }
}

proof fn lemma_uses_before_all(m: Seq<IndexEntry>, names: Seq<Seq<char>>, i: int, e: int)
    requires
        0 <= i <= names.len(),
        forall|j: int| 0 <= j < names.len() ==> resolve_index(m, #[trigger] names[j]) == e,
    ensures
        uses_before(m, names, i, e) == i,
    decreases i,
{
    if i > 0 {
        lemma_uses_before_all(m, names, i - 1, e);
    }
}

/// Groups of entries whose class keys are pairwise distinct: one group per
/// entry, in entry order.
proof fn lemma_group_distinct(es: Seq<Entry>)
    requires
        forall|i: int, j: int| 0 <= i < j < es.len() ==> es[i].0 != es[j].0,
    ensures
        group_entries(es) == Seq::new(es.len(), |i: int| (es[i].0, seq![(es[i].1, es[i].2)])),
    decreases es.len(),
{
    if es.len() > 0 {
        let pre = es.drop_last();
        lemma_group_distinct(pre);
        let gs = group_entries(pre);
        lemma_group_index(gs, es.last().0);
        if group_index(gs, es.last().0) >= 0 {
            let k = group_index(gs, es.last().0);
            assert(gs[k].0 == pre[k].0);
            assert(pre[k] == es[k]);
        }
        assert(group_entries(es) =~= Seq::new(es.len(), |i: int| (es[i].0, seq![(es[i].1, es[i].2)])));
    }
}

/// Class `c` holds exactly the test of declaration `info`, and is its class.
pub open spec fn holds_only(c: TestClass, info: TestMethodInfo) -> bool {
    &&& c.name@ == class_parts(info.class_key()).0
    &&& c.namespace@ == class_parts(info.class_key()).1
    &&& c.tests@.len() == 1
    &&& c.tests@[0].full_name@ == info.full_name_spec()
}

/// A bare method name enumerated `n` times, once per declaring class, where
/// the source index files `n` owners under it: the `i`-th occurrence is
/// resolved to the `i`-th owner. When the owners' classes differ, the result
/// holds exactly `n` classes with one test each, and each owner has a class
/// of its own holding its test.
pub proof fn lemma_duplicates_round_robin(m: Seq<IndexEntry>, name: Seq<char>, n: nat, out: Seq<TestClass>)
    requires
        index_wf(m),
        key_index(m, name) >= 0,
        m[key_index(m, name)].1.len() == n,
        n <= usize::MAX,
        forall|i: int| 0 <= i < name.len() ==> name[i] != '.',
    ensures
        ({
            let names = Seq::new(n, |i: int| name);
            let infos = m[key_index(m, name)].1;
            let es = entries_of(m, names);
            &&& forall|i: int| 0 <= i < n ==> #[trigger] es[i] == (infos[i].class_key(), name, infos[i].full_name_spec())
            &&& (forall|i: int, j: int| 0 <= i < j < n ==> infos[i].class_key() != infos[j].class_key())
                ==> (classes_of(out, group_entries(es)) ==> out.len() == n && (forall|c: int|
                0 <= c < n ==> (#[trigger] out[c]).tests@.len() == 1) && forall|j: int|
                0 <= j < n ==> exists|c: int| 0 <= c < n && holds_only(out[c], #[trigger] infos[j]))
        }),
{
    let names = Seq::new(n, |i: int| name);
    let e = key_index(m, name);
    let infos = m[e].1;
    let base = base_name(name);
    lemma_index_of_bounds(name, '(');
    assert forall|i: int| 0 <= i < base.len() implies base[i] != '.' by {
        assert(base[i] == name[i]);
    }
    lemma_count_none(base, '.');
    assert forall|i: int| 0 <= i < names.len() implies !is_qualified(#[trigger] names[i]) by {}
    lemma_unqualified_count(names);
    assert(!are_fqn(names));
    assert forall|j: int| 0 <= j < names.len() implies resolve_index(m, #[trigger] names[j]) == e by {}
    let es = entries_of(m, names);
    assert forall|i: int| 0 <= i < n implies #[trigger] es[i] == (infos[i].class_key(), name, infos[i].full_name_spec()) by {
        lemma_uses_before_all(m, names, i, e);
        assert(uses_before(m, names, i, e) % (infos.len() as nat) == i) by {
            vstd::arithmetic::div_mod::lemma_small_mod(i as nat, n);
        }
    }
    if forall|i: int, j: int| 0 <= i < j < n ==> infos[i].class_key() != infos[j].class_key() {
        assert forall|i: int, j: int| 0 <= i < j < es.len() implies es[i].0 != es[j].0 by {
            assert(es[i].0 == infos[i].class_key());
            assert(es[j].0 == infos[j].class_key());
        }
        lemma_group_distinct(es);
        let gs = group_entries(es);
        if classes_of(out, gs) {
            lemma_order_bounds(gs.map_values(|g: Group| g.0));
            let ks = gs.map_values(|g: Group| g.0);
            let ord = order_by_lower(ks);
            assert forall|c: int| 0 <= c < n implies (#[trigger] out[c]).tests@.len() == 1 by {
                assert(class_matches(out[c], gs[ord[c] as int]));
            }
            assert forall|j: int| 0 <= j < n implies exists|c: int| 0 <= c < n && holds_only(out[c], #[trigger] infos[j]) by {
                lemma_order_onto(ks, j);
                let c = choose|c: int| 0 <= c < ks.len() && ord[c] == j;
                assert(class_matches(out[c], gs[j]));
                assert(gs[j] == (es[j].0, seq![(es[j].1, es[j].2)]));
                let tord = order_by_lower(gs[j].1.map_values(|t: (Seq<char>, Seq<char>)| t.0));
                lemma_order_bounds(gs[j].1.map_values(|t: (Seq<char>, Seq<char>)| t.0));
                assert(tord[0] == 0);
                assert(holds_only(out[c], infos[j]));
            }
        }
    }
}

/// Class key and full name of each entry.
pub open spec fn key_full(es: Seq<Entry>) -> Seq<(Seq<char>, Seq<char>)> {
    es.map_values(|e: Entry| (e.0, e.2))
}

/// Class key of each group and the full names of its tests.
pub open spec fn group_members(gs: Seq<Group>) -> Seq<(Seq<char>, Seq<Seq<char>>)> {
    gs.map_values(|g: Group| (g.0, full_names(g.1)))
}

/// The full names of a group's tests, in order.
pub open spec fn full_names(ts: Seq<(Seq<char>, Seq<char>)>) -> Seq<Seq<char>> {
    ts.map_values(|t: (Seq<char>, Seq<char>)| t.1)
}

proof fn lemma_count_concat(a: Seq<char>, b: Seq<char>, c: char)
    ensures
        count_of(a + b, c) == count_of(a, c) + count_of(b, c),
    decreases b.len(),
{
    if b.len() == 0 {
        assert(a + b =~= a);
    } else {
        lemma_count_concat(a, b.drop_last(), c);
        assert((a + b).drop_last() =~= a + b.drop_last());
    }
}

proof fn lemma_group_index_same(g1: Seq<Group>, g2: Seq<Group>, k: Seq<char>)
    requires
        g1.len() == g2.len(),
        forall|i: int| 0 <= i < g1.len() ==> g1[i].0 == g2[i].0,
    ensures
        group_index(g1, k) == group_index(g2, k),
    decreases g1.len(),
{
    if g1.len() > 0 {
        lemma_group_index_same(g1.drop_last(), g2.drop_last(), k);
    }
}

/// Grouping depends on class keys and full names only as far as the members
/// go: entries that agree on them give groups with the same keys and the same
/// full names in the same order.
proof fn lemma_group_members(es1: Seq<Entry>, es2: Seq<Entry>)
    requires
        key_full(es1) == key_full(es2),
    ensures
        group_members(group_entries(es1)) == group_members(group_entries(es2)),
    decreases es1.len(),
{
    assert(es1.len() == key_full(es1).len() && es2.len() == key_full(es2).len());
    if es1.len() > 0 {
        assert(key_full(es1.drop_last()) =~= key_full(es1).drop_last());
        assert(key_full(es2.drop_last()) =~= key_full(es2).drop_last());
        lemma_group_members(es1.drop_last(), es2.drop_last());
        let g1 = group_entries(es1.drop_last());
        let g2 = group_entries(es2.drop_last());
        let e1 = es1.last();
        let e2 = es2.last();
        assert(key_full(es1)[es1.len() - 1] == key_full(es2)[es2.len() - 1]);
        assert(e1.0 == e2.0 && e1.2 == e2.2);
        assert(g1.len() == group_members(g1).len() && g2.len() == group_members(g2).len());
        assert forall|i: int| 0 <= i < g1.len() implies g1[i].0 == g2[i].0 by {
            assert(group_members(g1)[i] == group_members(g2)[i]);
        }
        lemma_group_index_same(g1, g2, e1.0);
        let j = group_index(g1, e1.0);
        lemma_group_index(g1, e1.0);
        assert(group_entries(es1) == group_add(g1, e1));
        assert(group_entries(es2) == group_add(g2, e2));
        let m1 = group_members(group_entries(es1));
        let m2 = group_members(group_entries(es2));
        if j >= 0 {
            let t1 = g1[j].1.push((e1.1, e1.2));
            let t2 = g2[j].1.push((e2.1, e2.2));
            assert(group_members(g1)[j] == group_members(g2)[j]);
            assert(full_names(t1) =~= full_names(g1[j].1).push(e1.2));
            assert(full_names(t2) =~= full_names(g2[j].1).push(e2.2));
            assert forall|i: int| 0 <= i < m1.len() implies m1[i] == m2[i] by {
                if i != j {
                    assert(group_members(g1)[i] == group_members(g2)[i]);
                }
            }
            assert(m1 =~= m2);
        } else {
            assert forall|i: int| 0 <= i < m1.len() implies m1[i] == m2[i] by {
                if i < g1.len() {
                    assert(group_members(g1)[i] == group_members(g2)[i]);
                } else {
                    assert(full_names(seq![(e1.1, e1.2)]) =~= seq![e1.2]);
                    assert(full_names(seq![(e2.1, e2.2)]) =~= seq![e2.2]);
                }
            }
            assert(m1 =~= m2);
        }
    }
}

proof fn lemma_group_len(es: Seq<Entry>)
    ensures
        group_entries(es).len() <= es.len(),
    decreases es.len(),
{
    if es.len() > 0 {
        lemma_group_len(es.drop_last());
        lemma_group_index(group_entries(es.drop_last()), es.last().0);
        assert(group_entries(es) == group_add(group_entries(es.drop_last()), es.last()));
    }
}

/// No group holds more tests than there are entries.
proof fn lemma_group_size(es: Seq<Entry>, o: int)
    requires
        0 <= o < group_entries(es).len(),
    ensures
        group_entries(es)[o].1.len() <= es.len(),
    decreases es.len(),
{
    if es.len() > 0 {
        let p = es.drop_last();
        let gs = group_entries(p);
        lemma_group_index(gs, es.last().0);
        lemma_group_len(p);
        assert(group_entries(es) == group_add(gs, es.last()));
        if o < gs.len() {
            lemma_group_size(p, o);
        }
    }
}

/// A name with two dots in it is fully qualified.
proof fn lemma_two_dots(ns: Seq<char>, c: Seq<char>, m: Seq<char>)
    ensures
        count_of(dot_join(dot_join(ns, c), m), '.') >= 2,
{
    let dot = seq!['.'];
    assert(dot.drop_last() =~= Seq::<char>::empty());
    assert(dot.last() == '.');
    assert(count_of(Seq::<char>::empty(), '.') == 0);
    assert(count_of(dot, '.') == 1);
    lemma_count_concat(ns + dot, c + dot + m, '.');
    lemma_count_concat(ns, dot, '.');
    lemma_count_concat(c + dot, m, '.');
    lemma_count_concat(c, dot, '.');
    assert(dot_join(dot_join(ns, c), m) =~= (ns + dot) + ((c + dot) + m));
}

/// The fully qualified name of a declaration splits back into its parts.
#[verifier::rlimit(40)]
proof fn lemma_fqn_of_info(info: TestMethodInfo)
    requires
        info.namespace@.len() > 0,
        forall|i: int| 0 <= i < info.namespace@.len() ==> info.namespace@[i] != '(',
        forall|i: int| 0 <= i < info.class_name@.len() ==> info.class_name@[i] != '.' && info.class_name@[i] != '(',
        forall|i: int| 0 <= i < info.method_name@.len() ==> info.method_name@[i] != '.' && info.method_name@[i] != '(',
    ensures
        fqn_entry(info.full_name_spec()).0 == info.class_key(),
        fqn_entry(info.full_name_spec()).2 == info.full_name_spec(),
        is_qualified(info.full_name_spec()),
{
    let ns = info.namespace@;
    let c = info.class_name@;
    let m = info.method_name@;
    let rest = dot_join(ns, c);
    let f = dot_join(rest, m);
    assert(info.full_name_spec() == f);
    assert forall|i: int| 0 <= i < f.len() implies f[i] != '(' by {
        if i < ns.len() {
            assert(f[i] == ns[i]);
        } else if i == ns.len() {
        } else if i < rest.len() {
            assert(f[i] == c[i - ns.len() - 1]);
        } else if i == rest.len() {
        } else {
            assert(f[i] == m[i - rest.len() - 1]);
        }
    }
    lemma_index_of(f, '(', f.len() as int);
    assert(base_name(f) =~= f);
    assert forall|i: int| rest.len() < i < f.len() implies f[i] != '.' by {
        assert(f[i] == m[i - rest.len() - 1]);
    }
    lemma_last_index_of(f, '.', rest.len() as int);
    assert(f.subrange(0, rest.len() as int) =~= rest);
    assert(f.subrange(rest.len() as int + 1, f.len() as int) =~= m);
    assert forall|i: int| ns.len() < i < rest.len() implies rest[i] != '.' by {
        assert(rest[i] == c[i - ns.len() - 1]);
    }
    lemma_last_index_of(rest, '.', ns.len() as int);
    assert(rest.subrange(ns.len() as int + 1, rest.len() as int) =~= c);
    assert(rest.subrange(0, ns.len() as int) =~= ns);
    assert(fqn_parts(f) == (m, c, ns));
    lemma_two_dots(ns, c, m);
}

proof fn lemma_all_qualified_count(names: Seq<Seq<char>>)
    requires
        forall|i: int| 0 <= i < names.len() ==> is_qualified(#[trigger] names[i]),
    ensures
        qualified_count(names) == names.len(),
    decreases names.len(),
{
    if names.len() > 0 {
        assert(is_qualified(names[names.len() - 1]));
        lemma_all_qualified_count(names.drop_last());
    }
}

/// The single declaration that a bare, unambiguous name resolves to.
pub open spec fn sole_owner(m: Seq<IndexEntry>, name: Seq<char>) -> TestMethodInfo {
    m[key_index(m, name)].1[0]
}

proof fn lemma_insert_sorted_contains(s: Seq<(Seq<char>, usize)>, x: (Seq<char>, usize))
    ensures
        insert_sorted(s, x).contains(x),
        forall|y: (Seq<char>, usize)| s.contains(y) ==> insert_sorted(s, x).contains(y),
    decreases s.len(),
{
    if s.len() == 0 {
        assert(insert_sorted(s, x)[0] == x);
    } else if crate::order::seq_lt(x.0, s[0].0) {
        let r = insert_sorted(s, x);
        assert(r[0] == x);
        assert forall|y: (Seq<char>, usize)| s.contains(y) implies r.contains(y) by {
            let w = choose|w: int| 0 <= w < s.len() && s[w] == y;
            assert(r[w + 1] == y);
        }
    } else {
        let t = s.drop_first();
        lemma_insert_sorted_contains(t, x);
        let r = insert_sorted(s, x);
        let rt = insert_sorted(t, x);
        assert(r == seq![s[0]] + rt);
        let w0 = choose|w: int| 0 <= w < rt.len() && rt[w] == x;
        assert(r[w0 + 1] == x);
        assert forall|y: (Seq<char>, usize)| s.contains(y) implies r.contains(y) by {
            let w = choose|w: int| 0 <= w < s.len() && s[w] == y;
            if w == 0 {
                assert(r[0] == y);
            } else {
                assert(t[w - 1] == y);
                assert(t.contains(y));
                let v = choose|v: int| 0 <= v < rt.len() && rt[v] == y;
                assert(r[v + 1] == y);
            }
        }
    }
}

proof fn lemma_isort_contains(s: Seq<(Seq<char>, usize)>)
    ensures
        forall|y: (Seq<char>, usize)| s.contains(y) ==> isort(s).contains(y),
    decreases s.len(),
{
    if s.len() > 0 {
        let p = s.drop_last();
        lemma_isort_contains(p);
        lemma_insert_sorted_contains(isort(p), s.last());
        assert forall|y: (Seq<char>, usize)| s.contains(y) implies isort(s).contains(y) by {
            let w = choose|w: int| 0 <= w < s.len() && s[w] == y;
            if w < s.len() - 1 {
                assert(p[w] == y);
                assert(p.contains(y));
            }
        }
    }
}

/// Every position of `keys` appears in their case-insensitive order.
pub proof fn lemma_order_onto(keys: Seq<Seq<char>>, j: int)
    requires
        keys.len() <= usize::MAX,
        0 <= j < keys.len(),
    ensures
        exists|k: int| 0 <= k < keys.len() && order_by_lower(keys)[k] == j,
{
    let s = keyed(keys);
    lemma_order_bounds(keys);
    assert(s[j] == (lower_of(keys[j]), j as usize));
    assert(s.contains(s[j]));
    lemma_isort_contains(s);
    let k = choose|k: int| 0 <= k < isort(s).len() && isort(s)[k] == s[j];
    assert(order_by_lower(keys)[k] == isort(s)[k].1);
}

/// Every full name of one class's tests is also a full name of the other's,
/// both ways.
pub open spec fn same_full_names(a: TestClass, b: TestClass) -> bool {
    &&& forall|j: int| #![trigger a.tests@[j]] 0 <= j < a.tests@.len() ==> exists|k: int| #![trigger b.tests@[k]]
        0 <= k < b.tests@.len() && b.tests@[k].full_name@ == a.tests@[j].full_name@
    &&& forall|j: int| #![trigger b.tests@[j]] 0 <= j < b.tests@.len() ==> exists|k: int| #![trigger a.tests@[k]]
        0 <= k < a.tests@.len() && a.tests@[k].full_name@ == b.tests@[j].full_name@
}

/// Two classes made from groups with the same full names hold the same full
/// names, whatever order their display names give them.
proof fn lemma_same_members(cb: TestClass, cf: TestClass, gb: Group, gf: Group)
    requires
        class_matches(cb, gb),
        class_matches(cf, gf),
        full_names(gb.1) == full_names(gf.1),
        gb.1.len() <= usize::MAX,
    ensures
        same_full_names(cb, cf),
{
    let f1 = full_names(gb.1);
    let f2 = full_names(gf.1);
    assert(gb.1.len() == f1.len() && gf.1.len() == f2.len());
    let d1 = gb.1.map_values(|t: (Seq<char>, Seq<char>)| t.0);
    let d2 = gf.1.map_values(|t: (Seq<char>, Seq<char>)| t.0);
    lemma_order_bounds(d1);
    lemma_order_bounds(d2);
    assert forall|j: int| #![trigger cb.tests@[j]] 0 <= j < cb.tests@.len() implies exists|k: int| #![trigger cf.tests@[k]]
        0 <= k < cf.tests@.len() && cf.tests@[k].full_name@ == cb.tests@[j].full_name@ by {
        let m = order_by_lower(d1)[j] as int;
        assert(cb.tests@[j].full_name@ == gb.1[m].1);
        assert(f1[m] == f2[m]);
        lemma_order_onto(d2, m);
        let k = choose|k: int| 0 <= k < d2.len() && order_by_lower(d2)[k] == m;
        assert(cf.tests@[k].full_name@ == gf.1[m].1);
    }
    assert forall|j: int| #![trigger cf.tests@[j]] 0 <= j < cf.tests@.len() implies exists|k: int| #![trigger cb.tests@[k]]
        0 <= k < cb.tests@.len() && cb.tests@[k].full_name@ == cf.tests@[j].full_name@ by {
        let m = order_by_lower(d2)[j] as int;
        assert(cf.tests@[j].full_name@ == gf.1[m].1);
        assert(f1[m] == f2[m]);
        lemma_order_onto(d1, m);
        let k = choose|k: int| 0 <= k < d1.len() && order_by_lower(d1)[k] == m;
        assert(cb.tests@[k].full_name@ == gb.1[m].1);
    }
}

/// Bare, unambiguous method names resolved through the source index group
/// exactly as the fully qualified names of the same tests do when parsed
/// directly: before ordering, the same class keys in the same order, and in
/// each class the same full names in the same order. The resulting class
/// lists name the same classes in the same order, each with the same number
/// of tests and the same full names. Display names differ (a bare name
/// against `Class.Method`), and tests are ordered by display name, so the
/// order of tests within a class may differ.
#[verifier::rlimit(80)]
pub proof fn lemma_cascade_convergence(
    m: Seq<IndexEntry>,
    names: Seq<Seq<char>>,
    fqns: Seq<Seq<char>>,
    any_index: Seq<IndexEntry>,
    out_bare: Seq<TestClass>,
    out_fqn: Seq<TestClass>,
)
    requires
        index_wf(m),
        names.len() == fqns.len(),
        fqns.len() <= usize::MAX,
        forall|i: int| #![trigger names[i]]
            0 <= i < names.len() ==> {
                &&& forall|j: int| 0 <= j < names[i].len() ==> names[i][j] != '.' && names[i][j] != '('
                &&& key_index(m, names[i]) >= 0
                &&& m[key_index(m, names[i])].1.len() == 1
            },
        forall|i: int| #![trigger fqns[i]]
            0 <= i < names.len() ==> {
                let info = sole_owner(m, names[i]);
                &&& fqns[i] == info.full_name_spec()
                &&& info.namespace@.len() > 0
                &&& forall|j: int| 0 <= j < info.namespace@.len() ==> info.namespace@[j] != '('
                &&& forall|j: int| 0 <= j < info.class_name@.len() ==> info.class_name@[j] != '.' && info.class_name@[j] != '('
                &&& forall|j: int| 0 <= j < info.method_name@.len() ==> info.method_name@[j] != '.' && info.method_name@[j] != '('
            },
    ensures
        group_members(group_entries(entries_of(m, names))) == group_members(group_entries(entries_of(any_index, fqns))),
        classes_of(out_bare, group_entries(entries_of(m, names))) && classes_of(out_fqn, group_entries(entries_of(any_index, fqns)))
            ==> out_bare.len() == out_fqn.len() && forall|i: int| 0 <= i < out_bare.len() ==> {
                &&& (#[trigger] out_bare[i]).name@ == out_fqn[i].name@
                &&& out_bare[i].namespace@ == out_fqn[i].namespace@
                &&& out_bare[i].tests@.len() == out_fqn[i].tests@.len()
                &&& same_full_names(out_bare[i], out_fqn[i])
            },
{
    let n = names.len();
    let es1 = entries_of(m, names);
    let es2 = entries_of(any_index, fqns);
    assert forall|i: int| 0 <= i < n implies !is_qualified(#[trigger] names[i]) by {
        lemma_index_of(names[i], '(', names[i].len() as int);
        assert(base_name(names[i]) =~= names[i]);
        lemma_count_none(names[i], '.');
    }
    lemma_unqualified_count(names);
    assert forall|i: int| 0 <= i < n implies is_qualified(#[trigger] fqns[i]) by {
        assert(fqns[i] == sole_owner(m, names[i]).full_name_spec());
        lemma_fqn_of_info(sole_owner(m, names[i]));
    }
    lemma_all_qualified_count(fqns);
    assert(key_full(es1) =~= key_full(es2)) by {
        assert forall|i: int| 0 <= i < n implies key_full(es1)[i] == key_full(es2)[i] by {
            let info = sole_owner(m, names[i]);
            assert(fqns[i] == info.full_name_spec());
            lemma_fqn_of_info(info);
            assert(resolve_index(m, names[i]) == key_index(m, names[i]));
            assert((uses_before(m, names, i, key_index(m, names[i])) % 1) == 0);
            assert(es1[i] == bare_entry(m, names, i));
            assert(es2[i] == fqn_entry(fqns[i]));
        }
    }
    lemma_group_members(es1, es2);
    let g1 = group_entries(es1);
    let g2 = group_entries(es2);
    assert(g1.len() == group_members(g1).len() && g2.len() == group_members(g2).len());
    let k1 = g1.map_values(|g: Group| g.0);
    let k2 = g2.map_values(|g: Group| g.0);
    assert(k1 =~= k2) by {
        assert forall|i: int| 0 <= i < k1.len() implies k1[i] == k2[i] by {
            assert(group_members(g1)[i] == group_members(g2)[i]);
        }
    }
    if classes_of(out_bare, g1) && classes_of(out_fqn, g2) {
        lemma_group_len(es1);
        lemma_order_bounds(k1);
        assert forall|i: int| 0 <= i < out_bare.len() implies {
            &&& (#[trigger] out_bare[i]).name@ == out_fqn[i].name@
            &&& out_bare[i].namespace@ == out_fqn[i].namespace@
            &&& out_bare[i].tests@.len() == out_fqn[i].tests@.len()
            &&& same_full_names(out_bare[i], out_fqn[i])
        } by {
            let o = order_by_lower(k1)[i] as int;
            assert(class_matches(out_bare[i], g1[o]));
            assert(class_matches(out_fqn[i], g2[o]));
            assert(group_members(g1)[o] == group_members(g2)[o]);
            assert(g1[o].1.len() == full_names(g1[o].1).len());
            assert(g2[o].1.len() == full_names(g2[o].1).len());
            lemma_group_size(es1, o);
            lemma_same_members(out_bare[i], out_fqn[i], g1[o], g2[o]);
        }
    }
}

proof fn lemma_index_of_methods_wf(ms: Seq<TestMethodInfo>)
    ensures
        index_wf(index_of_methods(ms)),
    decreases ms.len(),
{
    if ms.len() > 0 {
        lemma_index_of_methods_wf(ms.drop_last());
        lemma_index_insert_wf(index_of_methods(ms.drop_last()), ms.last().method_name@, ms.last());
    }
}

/// In a well-formed index the entry filed under a key is the one whose key it is.
proof fn lemma_key_index_at(m: Seq<IndexEntry>, p: int)
    requires
        index_wf(m),
        0 <= p < m.len(),
    ensures
        key_index(m, m[p].0) == p,
{
    lemma_key_index(m, m[p].0);
}

/// The source index is a multimap of the declarations: each one is filed
/// under its method name, and every filed declaration is one of them, under
/// its own method name.
pub proof fn lemma_index_holds_all(ms: Seq<TestMethodInfo>)
    ensures
        forall|i: int| #![trigger ms[i]] 0 <= i < ms.len() ==> {
            let idx = index_of_methods(ms);
            let p = key_index(idx, ms[i].method_name@);
            p >= 0 && idx[p].1.contains(ms[i])
        },
        forall|e: int, x: TestMethodInfo| 0 <= e < index_of_methods(ms).len() && #[trigger] index_of_methods(ms)[e].1.contains(x)
            ==> ms.contains(x) && x.method_name@ == index_of_methods(ms)[e].0,
    decreases ms.len(),
{
    if ms.len() > 0 {
        let pre = ms.drop_last();
        let info = ms.last();
        let k = info.method_name@;
        lemma_index_holds_all(pre);
        lemma_index_of_methods_wf(pre);
        lemma_index_of_methods_wf(ms);
        let old_idx = index_of_methods(pre);
        let idx = index_of_methods(ms);
        assert(idx == index_insert(old_idx, k, info));
        lemma_key_index(old_idx, k);
        let j = key_index(old_idx, k);
        assert forall|i: int| #![trigger ms[i]] 0 <= i < ms.len() implies {
            let p = key_index(idx, ms[i].method_name@);
            p >= 0 && idx[p].1.contains(ms[i])
        } by {
            if i == ms.len() - 1 {
                let p = if j >= 0 { j } else { old_idx.len() as int };
                assert(idx[p].0 == k);
                lemma_key_index_at(idx, p);
                if j >= 0 {
                    assert(idx[p].1 == old_idx[j].1.push(info));
                    assert(idx[p].1[old_idx[j].1.len() as int] == info);
                } else {
                    assert(idx[p].1[0] == info);
                }
            } else {
                assert(ms[i] == pre[i]);
                let q = key_index(old_idx, pre[i].method_name@);
                assert(q >= 0 && old_idx[q].1.contains(pre[i]));
                lemma_key_index(old_idx, pre[i].method_name@);
                assert(idx[q].0 == old_idx[q].0);
                lemma_key_index_at(idx, q);
                let w = choose|w: int| 0 <= w < old_idx[q].1.len() && old_idx[q].1[w] == pre[i];
                if q == j {
                    assert(idx[q].1 == old_idx[j].1.push(info));
                    assert(idx[q].1[w] == pre[i]);
                } else {
                    assert(idx[q] == old_idx[q]);
                }
            }
        }
        assert forall|e: int, x: TestMethodInfo| 0 <= e < idx.len() && #[trigger] idx[e].1.contains(x)
            implies ms.contains(x) && x.method_name@ == idx[e].0 by {
            let w = choose|w: int| 0 <= w < idx[e].1.len() && idx[e].1[w] == x;
            let grown = j >= 0 && e == j;
            let added = j < 0 && e == old_idx.len();
            if grown {
                if w < old_idx[j].1.len() {
                    assert(idx[e].1[w] == old_idx[j].1[w]);
                    assert(old_idx[j].1.contains(x));
                    assert(pre.contains(x));
                    let v = choose|v: int| 0 <= v < pre.len() && pre[v] == x;
                    assert(ms[v] == x);
                } else {
                    assert(x == info);
                    assert(ms[ms.len() - 1] == x);
                }
            } else if added {
                assert(x == info);
                assert(ms[ms.len() - 1] == x);
            } else {
                assert(idx[e] == old_idx[e]);
                assert(old_idx[e].1.contains(x));
                let v = choose|v: int| 0 <= v < pre.len() && pre[v] == x;
                assert(ms[v] == x);
            }
        }
    }
}

} // verus!
