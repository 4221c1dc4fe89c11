//! Changed tests of a pull request: reading a unified diff for test methods
//! that were added or changed.

use vstd::prelude::*;
use crate::error::{TestamentError, other_io_error};
use crate::enumerate::slashes;
use crate::text::{
    chars_of, contains, has_infix_str, has_prefix_str, lines_of, lower_of, lowercase, parse_u64,
    parse_u64_spec, push_all, same, slice, starts_with, string_of, trim, trimmed, split_lines,
    split_char, split_on, join, dot_join, ends_with, has_suffix_str, find_char, lemma_index_of_bounds,
};

verus! {

/// Name for the result of compiling `pattern` with `regex::Regex::new` and
/// testing `text` with `Regex::is_match` (false when the pattern does not compile).
pub uninterp spec fn regex_match(pattern: Seq<char>, text: Seq<char>) -> bool;

/// Name for the groups of the first match of `pattern` in `text`, as
/// `regex::Regex::captures` gives them (none when the pattern does not
/// compile or does not match).
pub uninterp spec fn regex_groups(pattern: Seq<char>, text: Seq<char>) -> Option<Seq<Option<Seq<char>>>>;

/// Name for the file stem of a path, as `std::path::Path::file_stem` gives it.
pub uninterp spec fn file_stem_of(path: Seq<char>) -> Option<Seq<char>>;

pub open spec fn opt_view(o: Option<String>) -> Option<Seq<char>> {
    match o {
        Some(s) => Some(s@),
        None => None,
    }
}

/// Relies on `regex::Regex::new` and `Regex::is_match`.
#[verifier::external_body]
fn is_match(pattern: &str, text: &str) -> (r: bool)
    ensures
        r == regex_match(pattern@, text@),
{
    regex::Regex::new(pattern).map(|re| re.is_match(text)).unwrap_or(false)
}

/// Relies on `regex::Regex::new` and `Regex::captures`: each group of the
/// first match, in order, group 0 being the whole match.
#[verifier::external_body]
fn captures(pattern: &str, text: &str) -> (r: Option<Vec<Option<String>>>)
    ensures
        match r {
            Some(v) => regex_groups(pattern@, text@) == Some(v@.map_values(|o: Option<String>| opt_view(o))),
            None => regex_groups(pattern@, text@) is None,
        },
{
    let re = regex::Regex::new(pattern).ok()?;
    let caps = re.captures(text)?;
    Some(caps.iter().map(|m| m.map(|m| m.as_str().to_string())).collect())
}

/// Relies on `std::path::Path::file_stem`: the final component's name
/// without its extension.
#[verifier::external_body]
fn file_stem(path: &str) -> (r: Option<String>)
    ensures
        opt_view(r) == file_stem_of(path@),
{
    std::path::Path::new(path).file_stem().and_then(|s| s.to_str()).map(|s| s.to_string())
}

/// Group `i` of the first match of `pattern` in `text`.
pub open spec fn group(pattern: Seq<char>, text: Seq<char>, i: int) -> Option<Seq<char>> {
    match regex_groups(pattern, text) {
        Some(gs) => if 0 <= i < gs.len() {
            gs[i]
        } else {
            None
        },
        None => None,
    }
}

fn group_at(pattern: &str, text: &str, i: usize) -> (r: Option<String>)
    ensures
        opt_view(r) == group(pattern@, text@, i as int),
{
    match captures(pattern, text) {
        Some(v) => {
            if i < v.len() {
                let ghost gv = v@.map_values(|o: Option<String>| opt_view(o));
                assert(gv[i as int] == opt_view(v@[i as int]));
                match &v[i] {
                    Some(s) => Some(s.clone()),
                    None => None,
                }
            } else {
                None
            }
        },
        None => None,
    }
}

/// Owner, repository and number of a pull request.
#[derive(Debug, Clone)]
pub struct PrInfo {
    pub owner: String,
    pub repo: String,
    pub number: u64,
}

/// The pattern of a pull request's web address.
pub open spec fn pr_pattern() -> Seq<char> {
    "https?://github\\.com/([^/]+)/([^/]+)/pull/(\\d+)"@
}

/// Owner, repository and number that a pull request address gives.
pub open spec fn pr_url_parts(url: Seq<char>) -> Option<(Seq<char>, Seq<char>, u64)> {
    let g1 = group(pr_pattern(), url, 1);
    let g2 = group(pr_pattern(), url, 2);
    let g3 = group(pr_pattern(), url, 3);
    if g1 is Some && g2 is Some && g3 is Some && parse_u64_spec(g3->0) is Some {
        Some((g1->0, g2->0, parse_u64_spec(g3->0)->0))
    } else {
        None
    }
}

/// Reads `https://github.com/<owner>/<repo>/pull/<number>`.
pub fn parse_pr_url(url: &str) -> (r: Result<PrInfo, TestamentError>)
    ensures
        match pr_url_parts(url@) {
            Some(p) => r is Ok && r->Ok_0.owner@ == p.0 && r->Ok_0.repo@ == p.1 && r->Ok_0.number == p.2,
            None => r is Err && r->Err_0 is Io,
        },
{
    let pattern = "https?://github\\.com/([^/]+)/([^/]+)/pull/(\\d+)";
    proof {
        assert(pattern@ == pr_pattern());
    }
    let owner = group_at(pattern, url, 1);
    let repo = group_at(pattern, url, 2);
    let number = group_at(pattern, url, 3);
    match (owner, repo, number) {
        (Some(owner), Some(repo), Some(number)) => {
            let digits = chars_of(number.as_str());
            match parse_u64(digits.as_slice()) {
                Some(n) => Ok(PrInfo { owner, repo, number: n }),
                None => Err(TestamentError::Io(other_io_error(string_of(chars_of("Invalid PR number").as_slice())))),
            }
        },
        _ => {
            let mut msg = chars_of("Invalid PR URL format: ");
            let u = chars_of(url);
            push_all(&mut msg, u.as_slice());
            Err(TestamentError::Io(other_io_error(string_of(msg.as_slice()))))
        },
    }
}

/// Whether a path looks like it holds tests: its lowercase form contains
/// `test` or `spec`.
pub open spec fn is_test_path(path: Seq<char>) -> bool {
    contains(lower_of(path), "test"@) || contains(lower_of(path), "spec"@)
}

pub fn is_test_file(path: &str) -> (r: bool)
    ensures
        r == is_test_path(path@),
{
    let l = chars_of(lowercase(path).as_str());
    has_infix_str(l.as_slice(), "test") || has_infix_str(l.as_slice(), "spec")
}

/// Namespace parts of a path's directories: those that are not empty and hold no dot.
pub open spec fn namespace_dirs(ps: Seq<Seq<char>>) -> Seq<Seq<char>>
    decreases ps.len(),
{
    if ps.len() == 0 {
        Seq::empty()
    } else if ps.last().len() > 0 && !ps.last().contains('.') {
        namespace_dirs(ps.drop_last()).push(ps.last())
    } else {
        namespace_dirs(ps.drop_last())
    }
}

/// (namespace, class) guessed from a source path: the class is the file's
/// stem; the namespace joins the directories, when the path has two or more.
pub open spec fn namespace_class_of(path: Seq<char>) -> (Seq<char>, Seq<char>) {
    let parts = split_on(slashes(path), '/');
    let class = match file_stem_of(path) {
        Some(s) => s,
        None => "Unknown"@,
    };
    let ns = if parts.len() > 2 {
        join(namespace_dirs(parts.drop_last()), "."@)
    } else {
        Seq::empty()
    };
    (ns, class)
}

fn has_dot(s: &[char]) -> (r: bool)
    ensures
        r == s@.contains('.'),
{
    let p = find_char(s, '.');
    proof {
        lemma_index_of_bounds(s@, '.');
    }
    p < s.len()
}

/// Namespace and class name guessed from a source file's path.
pub fn extract_namespace_class_from_path(path: &str) -> (r: (String, String))
    ensures
        (r.0@, r.1@) == namespace_class_of(path@),
{
    let class = match file_stem(path) {
        Some(s) => s,
        None => string_of(chars_of("Unknown").as_slice()),
    };
    let pc = chars_of(path);
    let norm = crate::enumerate::with_slashes(pc.as_slice());
    let parts = split_char(norm.as_slice(), '/');
    let ghost pv = parts@.map_values(|l: Vec<char>| l@);
    if parts.len() <= 2 {
        return (string_of(&[]), class);
    }
    let ghost dirs = pv.drop_last();
    let dot = chars_of(".");
    let mut out: Vec<char> = Vec::new();
    let mut count: usize = 0;
    let mut i: usize = 0;
    assert(dirs.subrange(0, 0) =~= Seq::<Seq<char>>::empty());
    while i + 1 < parts.len()
        invariant
            i + 1 <= parts@.len(),
            pv == parts@.map_values(|l: Vec<char>| l@),
            dirs == pv.drop_last(),
            dot@ == "."@,
            out@ == join(namespace_dirs(dirs.subrange(0, i as int)), "."@),
            count == namespace_dirs(dirs.subrange(0, i as int)).len(),
            count <= i,
        decreases parts@.len() - i,
    {
        let ghost pre = dirs.subrange(0, i + 1);
        assert(pre.drop_last() =~= dirs.subrange(0, i as int));
        assert(pre.last() == parts@[i as int]@);
        let part = parts[i].as_slice();
        if part.len() > 0 && !has_dot(part) {
            let ghost k = namespace_dirs(dirs.subrange(0, i as int));
            let ghost k2 = k.push(parts@[i as int]@);
            assert(k2.drop_last() =~= k);
            if count > 0 {
                push_all(&mut out, dot.as_slice());
            } else {
                assert(join(k2, "."@) == k2[0]);
            }
            push_all(&mut out, part);
            count = count + 1;
        }
        i = i + 1;
    }
    assert(dirs.subrange(0, i as int) =~= dirs);
    (string_of(out.as_slice()), class)
}

/// A test method found in a pull request's diff.
#[derive(Debug, Clone)]
pub struct ChangedTest {
    pub file_path: String,
    pub class_name: String,
    pub method_name: String,
    pub full_name: String,
}

/// A changed test as plain values: file, class, method, full name.
pub type ChangedView = (Seq<char>, Seq<char>, Seq<char>, Seq<char>);

pub open spec fn changed_view(c: ChangedTest) -> ChangedView {
    (c.file_path@, c.class_name@, c.method_name@, c.full_name@)
}

pub open spec fn changed_views(v: Seq<ChangedTest>) -> Seq<ChangedView> {
    v.map_values(|c: ChangedTest| changed_view(c))
}

/// A test-framework attribute such as `[Fact]` or `[TestCase(...)]`.
pub open spec fn attr_pattern() -> Seq<char> {
    "(?i)\\[(Fact|Theory|Test|TestMethod|TestCase)\\b[^\\]]*\\\x5d"@
}

/// A method declaration returning `void` or `Task`; group 1 is its name.
pub open spec fn method_pattern() -> Seq<char> {
    "(?:public\\s+)?(?:async\\s+)?(?:Task|void)\\s+(\\w+)\\s*\\\x28"@
}

/// Method names that look like tests.
pub open spec fn test_name_pattern() -> Seq<char> {
    "^(Test\\w*|\\w+Test|\\w+Tests|\\w+Should\\w*|Should\\w+)$"@
}

/// The method declared on a line, when the declaration pattern matches it.
pub open spec fn method_in(line: Seq<char>) -> Option<Option<Seq<char>>> {
    match regex_groups(method_pattern(), line) {
        Some(gs) => Some(if 1 < gs.len() { gs[1] } else { None }),
        None => None,
    }
}

/// The name declared on the first of (trimmed) lines `j..end` that holds a declaration.
pub open spec fn first_method(ls: Seq<Seq<char>>, j: int, end: int) -> Option<Seq<char>>
    decreases end - j,
{
    if j < 0 || j >= end || j >= ls.len() {
        None
    } else {
        match method_in(ls[j]) {
            Some(m) => m,
            None => first_method(ls, j + 1, end),
        }
    }
}

pub open spec fn add_unique(found: Seq<Seq<char>>, m: Seq<char>) -> Seq<Seq<char>> {
    if found.contains(m) {
        found
    } else {
        found.push(m)
    }
}

/// What line `i` adds to the methods found: the method declared within the
/// four lines after a test attribute, and a method declared on the line whose
/// name looks like a test.
pub open spec fn found_in_line(ls: Seq<Seq<char>>, i: int, found: Seq<Seq<char>>) -> Seq<Seq<char>> {
    let t = ls[i];
    let end = if i + 5 < ls.len() { i + 5 } else { ls.len() as int };
    let f1 = if regex_match(attr_pattern(), t) {
        match first_method(ls, i + 1, end) {
            Some(m) => add_unique(found, m),
            None => found,
        }
    } else {
        found
    };
    match method_in(t) {
        Some(Some(m)) => if regex_match(test_name_pattern(), m) {
            add_unique(f1, m)
        } else {
            f1
        },
        _ => f1,
    }
}

/// Methods found in the first `n` (trimmed) lines, each once, in order of discovery.
pub open spec fn found_methods(ls: Seq<Seq<char>>, n: int) -> Seq<Seq<char>>
    decreases n,
{
    if n <= 0 {
        Seq::empty()
    } else {
        found_in_line(ls, n - 1, found_methods(ls, n - 1))
    }
}

/// The changed test for method `m` of the file at `path`.
pub open spec fn changed_for(path: Seq<char>, m: Seq<char>) -> ChangedView {
    let (ns, class) = namespace_class_of(path);
    let full = if ns.len() == 0 {
        dot_join(class, m)
    } else {
        dot_join(dot_join(ns, class), m)
    };
    (path, class, m, full)
}

/// Changed tests found in the added lines of one file.
pub open spec fn tests_in_added(path: Seq<char>, added: Seq<char>) -> Seq<ChangedView> {
    let ls = lines_of(added).map_values(|l: Seq<char>| trim(l));
    let found = found_methods(ls, ls.len() as int);
    Seq::new(found.len(), |k: int| changed_for(path, found[k]))
}

fn method_on(line: &[char]) -> (r: Option<Option<String>>)
    ensures
        match method_in(line@) {
            Some(m) => r is Some && opt_view(r->0) == m,
            None => r is None,
        },
{
    let text = string_of(line);
    match captures("(?:public\\s+)?(?:async\\s+)?(?:Task|void)\\s+(\\w+)\\s*\\\x28", text.as_str()) {
        Some(v) => {
            if 1 < v.len() {
                let ghost gv = v@.map_values(|o: Option<String>| opt_view(o));
                assert(gv[1] == opt_view(v@[1]));
                match &v[1] {
                    Some(s) => Some(Some(s.clone())),
                    None => Some(None),
                }
            } else {
                Some(None)
            }
        },
        None => None,
    }
}

fn contains_name(found: &Vec<String>, m: &String) -> (r: bool)
    ensures
        r == found@.map_values(|s: String| s@).contains(m@),
{
    let ghost fv = found@.map_values(|s: String| s@);
    let mc = chars_of(m.as_str());
    let mut i: usize = 0;
    while i < found.len()
        invariant
            i <= found@.len(),
            fv == found@.map_values(|s: String| s@),
            mc@ == m@,
            forall|j: int| 0 <= j < i ==> fv[j] != m@,
        decreases found@.len() - i,
    {
        let f = chars_of(found[i].as_str());
        if same(f.as_slice(), mc.as_slice()) {
            assert(fv[i as int] == m@);
            return true;
        }
        i = i + 1;
    }
    false
}

fn add_name(found: &mut Vec<String>, m: String)
    ensures
        final(found)@.map_values(|s: String| s@) == add_unique(old(found)@.map_values(|s: String| s@), m@),
{
    let ghost before = found@.map_values(|s: String| s@);
    if !contains_name(found, &m) {
        let ghost mv = m@;
        found.push(m);
        assert(found@.map_values(|s: String| s@) =~= before.push(mv));
    }
}

fn first_method_in(ts: &Vec<Vec<char>>, from: usize, end: usize) -> (r: Option<String>)
    requires
        end <= ts@.len(),
    ensures
        opt_view(r) == first_method(ts@.map_values(|l: Vec<char>| l@), from as int, end as int),
{
    let ghost tv = ts@.map_values(|l: Vec<char>| l@);
    let mut j: usize = from;
    while j < end
        invariant
            from <= j,
            end <= ts@.len(),
            tv == ts@.map_values(|l: Vec<char>| l@),
            first_method(tv, from as int, end as int) == first_method(tv, j as int, end as int),
        decreases end - j,
    {
        assert(tv[j as int] == ts@[j as int]@);
        match method_on(ts[j].as_slice()) {
            Some(m) => {
                return m;
            },
            None => {},
        }
        j = j + 1;
    }
    None
}

/// Changed test methods in the lines added to one file: found as
/// `found_methods` says, each named after the file's guessed namespace and class.
pub fn extract_tests_from_added_lines(file_path: &str, added_content: &str) -> (r: Vec<ChangedTest>)
    ensures
        changed_views(r@) == tests_in_added(file_path@, added_content@),
{
    let cs = chars_of(added_content);
    let lines = split_lines(cs.as_slice());
    let ghost lv = lines@.map_values(|l: Vec<char>| l@);
    let ghost ts = lv.map_values(|l: Seq<char>| trim(l));
    let mut trims: Vec<Vec<char>> = Vec::new();
    let mut i: usize = 0;
    while i < lines.len()
        invariant
            i <= lines@.len(),
            lv == lines@.map_values(|l: Vec<char>| l@),
            ts == lv.map_values(|l: Seq<char>| trim(l)),
            trims@.map_values(|l: Vec<char>| l@) == ts.subrange(0, i as int),
        decreases lines@.len() - i,
    {
        let ghost prev = trims@.map_values(|l: Vec<char>| l@);
        let t = trimmed(lines[i].as_slice());
        trims.push(t);
        assert(trims@.map_values(|l: Vec<char>| l@) =~= prev.push(ts[i as int]));
        assert(ts.subrange(0, i + 1) =~= ts.subrange(0, i as int).push(ts[i as int]));
        i = i + 1;
    }
    assert(ts.subrange(0, i as int) =~= ts);
    let n = trims.len();
    let mut found: Vec<String> = Vec::new();
    let mut i: usize = 0;
    assert(found@.map_values(|s: String| s@) =~= Seq::<Seq<char>>::empty());
    while i < n
        invariant
            i <= n,
            n == ts.len(),
            trims@.map_values(|l: Vec<char>| l@) == ts,
            found@.map_values(|s: String| s@) == found_methods(ts, i as int),
        decreases n - i,
    {
        let t = trims[i].as_slice();
        assert(ts[i as int] == trims@[i as int]@);
        let text = string_of(t);
        let end = if n - i > 5 { i + 5 } else { n };
        if is_match("(?i)\\[(Fact|Theory|Test|TestMethod|TestCase)\\b[^\\]]*\\\x5d", text.as_str()) {
            match first_method_in(&trims, i + 1, end) {
                Some(m) => add_name(&mut found, m),
                None => {},
            }
        }
        match method_on(t) {
            Some(Some(m)) => {
                if is_match("^(Test\\w*|\\w+Test|\\w+Tests|\\w+Should\\w*|Should\\w+)$", m.as_str()) {
                    add_name(&mut found, m);
                }
            },
            _ => {},
        }
        i = i + 1;
    }
    let (ns, class) = extract_namespace_class_from_path(file_path);
    let nsc = chars_of(ns.as_str());
    let cc = chars_of(class.as_str());
    let ghost fv = found@.map_values(|s: String| s@);
    let mut out: Vec<ChangedTest> = Vec::new();
    let mut k: usize = 0;
    while k < found.len()
        invariant
            k <= found@.len(),
            fv == found@.map_values(|s: String| s@),
            (ns@, class@) == namespace_class_of(file_path@),
            nsc@ == ns@,
            cc@ == class@,
            changed_views(out@) == Seq::new(k as nat, |x: int| changed_for(file_path@, fv[x])),
        decreases found@.len() - k,
    {
        let mc = chars_of(found[k].as_str());
        let mut full: Vec<char> = Vec::new();
        if nsc.len() > 0 {
            push_all(&mut full, nsc.as_slice());
            full.push('.');
        }
        push_all(&mut full, cc.as_slice());
        full.push('.');
        push_all(&mut full, mc.as_slice());
        let ghost prev = changed_views(out@);
        let c = ChangedTest {
            file_path: string_of(chars_of(file_path).as_slice()),
            class_name: class.clone(),
            method_name: found[k].clone(),
            full_name: string_of(full.as_slice()),
        };
        assert(fv[k as int] == found@[k as int]@);
        proof {
            if ns@.len() == 0 {
                assert(full@ =~= dot_join(class@, fv[k as int]));
            } else {
                assert(full@ =~= dot_join(dot_join(ns@, class@), fv[k as int]));
            }
        }
        let ghost cv = changed_view(c);
        assert(cv == changed_for(file_path@, fv[k as int]));
        out.push(c);
        assert(changed_views(out@) =~= prev.push(cv));
        k = k + 1;
        assert(changed_views(out@) =~= Seq::new(k as nat, |x: int| changed_for(file_path@, fv[x])));
    }
    out
}

/// Reading state of a diff: current file, its added text, whether a hunk has
/// started, and the changed tests found so far.
pub type DiffState = (Option<Seq<char>>, Seq<char>, bool, Seq<ChangedView>);

/// The tests found so far, with those of the current file when it is a C#
/// test file.
pub open spec fn flush(st: DiffState) -> Seq<ChangedView> {
    match st.0 {
        Some(f) => if ends_with(f, ".cs"@) && is_test_path(f) {
            st.3 + tests_in_added(f, st.1)
        } else {
            st.3
        },
        None => st.3,
    }
}

pub open spec fn diff_step(st: DiffState, line: Seq<char>) -> DiffState {
    if starts_with(line, "+++ b/"@) {
        (Some(line.subrange(6, line.len() as int)), Seq::empty(), false, flush(st))
    } else if starts_with(line, "@@"@) {
        (st.0, st.1, true, st.3)
    } else if st.2 && starts_with(line, "+"@) && !starts_with(line, "+++"@) {
        (st.0, st.1 + line.subrange(1, line.len() as int) + seq!['\n'], st.2, st.3)
    } else {
        st
    }
}

pub open spec fn diff_fold(ls: Seq<Seq<char>>) -> DiffState
    decreases ls.len(),
{
    if ls.len() == 0 {
        (None, Seq::empty(), false, Seq::empty())
    } else {
        diff_step(diff_fold(ls.drop_last()), ls.last())
    }
}

/// Changed tests of a unified diff: test methods in the lines added to each
/// C# test file, file by file.
pub open spec fn changed_tests_of(diff: Seq<char>) -> Seq<ChangedView> {
    flush(diff_fold(lines_of(diff)))
}

fn flush_file(file: &Option<Vec<char>>, added: &Vec<char>, tests: &mut Vec<ChangedTest>)
    ensures
        changed_views(final(tests)@) == flush((
            match *file {
                Some(f) => Some(f@),
                None => None,
            },
            added@,
            false,
            changed_views(old(tests)@),
        )),
{
    match file {
        Some(f) => {
            let fs = string_of(f.as_slice());
            if has_suffix_str(f.as_slice(), ".cs") && is_test_file(fs.as_str()) {
                let mut more = extract_tests_from_added_lines(fs.as_str(), string_of(added.as_slice()).as_str());
                let ghost before = tests@;
                let ghost m = more@;
                tests.append(&mut more);
                assert(changed_views(tests@) =~= changed_views(before) + changed_views(m));
            }
        },
        None => {},
    }
}

/// Changed test methods of a unified diff.
pub fn extract_changed_tests(diff: &str) -> (r: Vec<ChangedTest>)
    ensures
        changed_views(r@) == changed_tests_of(diff@),
{
    let cs = chars_of(diff);
    let lines = split_lines(cs.as_slice());
    let ghost lv = lines@.map_values(|l: Vec<char>| l@);
    let mut current: Option<Vec<char>> = None;
    let mut added: Vec<char> = Vec::new();
    let mut in_hunk = false;
    let mut tests: Vec<ChangedTest> = Vec::new();
    let mut i: usize = 0;
    assert(lv.subrange(0, 0) =~= Seq::<Seq<char>>::empty());
    assert(changed_views(tests@) =~= Seq::<ChangedView>::empty());
    assert(added@ =~= Seq::<char>::empty());
    while i < lines.len()
        invariant
            i <= lines@.len(),
            lv == lines@.map_values(|l: Vec<char>| l@),
            diff_fold(lv.subrange(0, i as int)) == (
                match current {
                    Some(f) => Some(f@),
                    None => None,
                },
                added@,
                in_hunk,
                changed_views(tests@),
            ),
        decreases lines@.len() - i,
    {
        let ghost pre = lv.subrange(0, i + 1);
        assert(pre.drop_last() =~= lv.subrange(0, i as int));
        assert(pre.last() == lines@[i as int]@);
        let line = lines[i].as_slice();
        proof {
            reveal_strlit("+++ b/");
            reveal_strlit("+");
        }
        if has_prefix_str(line, "+++ b/") {
            flush_file(&current, &added, &mut tests);
            current = Some(slice(line, 6, line.len()));
            added = Vec::new();
            in_hunk = false;
            assert(added@ =~= Seq::<char>::empty());
        } else if has_prefix_str(line, "@@") {
            in_hunk = true;
        } else if in_hunk && has_prefix_str(line, "+") && !has_prefix_str(line, "+++") {
            let rest = slice(line, 1, line.len());
            push_all(&mut added, rest.as_slice());
            added.push('\n');
        }
        i = i + 1;
    }
    assert(lv.subrange(0, i as int) =~= lv);
    flush_file(&current, &added, &mut tests);
    tests
}

} // verus!
