//! Reading what the external test tool prints: test lists, build noise,
//! progress lines, solution descriptors, and the filter expression for runs.

use vstd::prelude::*;
use crate::cache::{dec_text, decimal};
use crate::resolve::base_name;
use crate::text::{
    chars_of, contains, ends_with, has_infix_str, has_prefix_str, has_suffix_str, join, lines_of,
    matches_at, occurs_at, push_all, slice, split_char, split_lines, split_on, starts_with, string_of, trim, trimmed, find_char, lemma_index_of_bounds,
};

verus! {

/// Whether a project's name marks it as a test project.
pub open spec fn is_test_project(name: Seq<char>) -> bool {
    ends_with(name, "Tests"@) || ends_with(name, "Test"@)
}

/// Whether a project's name marks it as a test project: it ends in `Test` or `Tests`.
pub fn is_test_project_name(name: &str) -> (r: bool)
    ensures
        r == is_test_project(name@),
{
    let n = chars_of(name);
    has_suffix_str(n.as_slice(), "Tests") || has_suffix_str(n.as_slice(), "Test")
}

/// Restore and build chatter that says nothing about a failure.
pub open spec fn is_build_noise(line: Seq<char>) -> bool {
    let t = trim(line);
    t.len() == 0 || starts_with(t, "Determining projects"@) || starts_with(t, "All projects are up-to-date"@)
        || starts_with(t, "Restored "@) || contains(t, "-> "@) || starts_with(t, "Build started"@)
        || starts_with(t, "Build succeeded"@)
}

pub fn build_noise(line: &[char]) -> (r: bool)
    ensures
        r == is_build_noise(line@),
{
    let t = trimmed(line);
    let t = t.as_slice();
    t.len() == 0 || has_prefix_str(t, "Determining projects") || has_prefix_str(t, "All projects are up-to-date")
        || has_prefix_str(t, "Restored ") || has_infix_str(t, "-> ") || has_prefix_str(t, "Build started")
        || has_prefix_str(t, "Build succeeded")
}

/// The lines that are not build noise, trimmed, in order.
pub open spec fn kept_lines(ls: Seq<Seq<char>>) -> Seq<Seq<char>>
    decreases ls.len(),
{
    if ls.len() == 0 {
        Seq::empty()
    } else if is_build_noise(ls.last()) {
        kept_lines(ls.drop_last())
    } else {
        kept_lines(ls.drop_last()).push(trim(ls.last()))
    }
}

/// `s` without its build-noise lines, the rest trimmed and joined with line feeds.
pub fn filter_build_noise(s: &str) -> (r: String)
    ensures
        r@ == join(kept_lines(lines_of(s@)), "\n"@),
{
    let cs = chars_of(s);
    let lines = split_lines(cs.as_slice());
    let ghost lv = lines@.map_values(|l: Vec<char>| l@);
    let nl = chars_of("\n");
    let mut out: Vec<char> = Vec::new();
    let mut count: usize = 0;
    let mut i: usize = 0;
    assert(lv.subrange(0, 0) =~= Seq::<Seq<char>>::empty());
    while i < lines.len()
        invariant
            i <= lines@.len(),
            lv == lines@.map_values(|l: Vec<char>| l@),
            nl@ == "\n"@,
            out@ == join(kept_lines(lv.subrange(0, i as int)), "\n"@),
            count == kept_lines(lv.subrange(0, i as int)).len(),
            count <= i,
        decreases lines@.len() - i,
    {
        let ghost pre = lv.subrange(0, i + 1);
        assert(pre.drop_last() =~= lv.subrange(0, i as int));
        assert(pre.last() == lines@[i as int]@);
        if !build_noise(lines[i].as_slice()) {
            let t = trimmed(lines[i].as_slice());
            let ghost k = kept_lines(lv.subrange(0, i as int));
            let ghost k2 = k.push(t@);
            assert(k2.drop_last() =~= k);
            if count > 0 {
                push_all(&mut out, nl.as_slice());
            } else {
                assert(k.len() == 0);
                assert(join(k2, "\n"@) == k2[0]);
            }
            push_all(&mut out, t.as_slice());
            count = count + 1;
        }
        i = i + 1;
    }
    assert(lv.subrange(0, i as int) =~= lv);
    string_of(out.as_slice())
}

/// Output of the test tool that is noise while tests run: build and restore
/// chatter, tool banners, per-assertion detail and stack-trace fragments.
pub open spec fn is_run_noise(t: Seq<char>) -> bool {
    contains(t, "Build started"@)
        || contains(t, "Build succeeded"@)
        || contains(t, "Determining projects to restore"@)
        || contains(t, "Restored "@)
        || contains(t, "Nothing to do"@)
        || contains(t, "Time Elapsed"@)
        || contains(t, "Microsoft (R) Test Execution Command Line Tool"@)
        || contains(t, "Copyright (C) Microsoft"@)
        || contains(t, "Starting test execution"@)
        || contains(t, "A total of "@)
        || contains(t, "Results File:"@)
        || contains(t, "All projects are up-to-date"@)
        || contains(t, "up-to-date for restore"@)
        || contains(t, "NuGet.targets"@)
        || contains(t, "Test run for "@)
        || contains(t, "VSTest"@)
        || contains(t, "Attachments:"@)
        || contains(t, "[xUnit.net "@)
        || contains(t, "Error Message:"@)
        || contains(t, "Stack Trace:"@)
        || contains(t, "Expected:"@)
        || contains(t, "Actual:"@)
        || contains(t, "Assert."@)
}

/// Whether a line of the test tool's output is worth showing.
pub open spec fn shows_line(line: Seq<char>) -> bool {
    let t = trim(line);
    &&& t.len() > 0
    &&& !is_run_noise(t)
    &&& !ends_with(t, ".csproj"@) && !ends_with(t, ".sln"@)
    &&& !(contains(t, " -> "@) && ends_with(t, ".dll"@))
    &&& !starts_with(t, "at "@) && !starts_with(t, "--- "@)
    &&& !contains(t, ":line "@)
    &&& !starts_with(t, "Skipped "@)
}

fn run_noise(t: &[char]) -> (r: bool)
    ensures
        r == is_run_noise(t@),
{
    has_infix_str(t, "Build started")
        || has_infix_str(t, "Build succeeded")
        || has_infix_str(t, "Determining projects to restore")
        || has_infix_str(t, "Restored ")
        || has_infix_str(t, "Nothing to do")
        || has_infix_str(t, "Time Elapsed")
        || has_infix_str(t, "Microsoft (R) Test Execution Command Line Tool")
        || has_infix_str(t, "Copyright (C) Microsoft")
        || has_infix_str(t, "Starting test execution")
        || has_infix_str(t, "A total of ")
        || has_infix_str(t, "Results File:")
        || has_infix_str(t, "All projects are up-to-date")
        || has_infix_str(t, "up-to-date for restore")
        || has_infix_str(t, "NuGet.targets")
        || has_infix_str(t, "Test run for ")
        || has_infix_str(t, "VSTest")
        || has_infix_str(t, "Attachments:")
        || has_infix_str(t, "[xUnit.net ")
        || has_infix_str(t, "Error Message:")
        || has_infix_str(t, "Stack Trace:")
        || has_infix_str(t, "Expected:")
        || has_infix_str(t, "Actual:")
        || has_infix_str(t, "Assert.")
}

/// Whether a line of the test tool's output is worth showing.
pub fn should_show_line(line: &str) -> (r: bool)
    ensures
        r == shows_line(line@),
{
    let lc = chars_of(line);
    let tv = trimmed(lc.as_slice());
    let t = tv.as_slice();
    t.len() > 0 && !run_noise(t) && !has_suffix_str(t, ".csproj") && !has_suffix_str(t, ".sln")
        && !(has_infix_str(t, " -> ") && has_suffix_str(t, ".dll")) && !has_prefix_str(t, "at ")
        && !has_prefix_str(t, "--- ") && !has_infix_str(t, ":line ") && !has_prefix_str(t, "Skipped ")
}

/// Last position at or before `i` where `p` occurs in `s`, or `-1`.
pub open spec fn last_occ_from(s: Seq<char>, p: Seq<char>, i: int) -> int
    decreases i + 1,
{
    if i < 0 {
        -1
    } else if occurs_at(s, p, i) {
        i
    } else {
        last_occ_from(s, p, i - 1)
    }
}

/// The artifact path named by a `Test run for <path> (<framework>)` line.
pub open spec fn run_for_path(t: Seq<char>) -> Option<Seq<char>> {
    let q = last_occ_from(t, " ("@, t.len() as int);
    if starts_with(t, "Test run for "@) && q >= 13 {
        Some(t.subrange(13, q))
    } else {
        None
    }
}

/// Test names listed after the tool's list header, each trimmed, and whether
/// the header has been seen.
pub open spec fn listed_tests(ls: Seq<Seq<char>>) -> (Seq<Seq<char>>, bool)
    decreases ls.len(),
{
    if ls.len() == 0 {
        (Seq::empty(), false)
    } else {
        let prev = listed_tests(ls.drop_last());
        let t = trim(ls.last());
        if t == "The following Tests are available:"@ {
            (prev.0, true)
        } else if prev.1 && t.len() > 0 {
            (prev.0.push(t), prev.1)
        } else {
            prev
        }
    }
}

/// Artifact paths named by the listing, in order.
pub open spec fn listed_artifacts(ls: Seq<Seq<char>>) -> Seq<Seq<char>>
    decreases ls.len(),
{
    if ls.len() == 0 {
        Seq::empty()
    } else {
        match run_for_path(trim(ls.last())) {
            Some(p) => listed_artifacts(ls.drop_last()).push(p),
            None => listed_artifacts(ls.drop_last()),
        }
    }
}

pub open spec fn strings_view(v: Seq<String>) -> Seq<Seq<char>> {
    v.map_values(|s: String| s@)
}

fn last_occurrence(s: &[char], p: &str) -> (r: Option<usize>)
    ensures
        r is Some ==> r->0 == last_occ_from(s@, p@, s@.len() as int),
        r is None ==> last_occ_from(s@, p@, s@.len() as int) == -1,
{
    let pc = chars_of(p);
    let mut k: usize = s.len();
    loop
        invariant
            k <= s@.len(),
            pc@ == p@,
            last_occ_from(s@, p@, s@.len() as int) == last_occ_from(s@, p@, k as int),
        decreases k,
    {
        if matches_at(s, pc.as_slice(), k) {
            return Some(k);
        }
        if k == 0 {
            assert(last_occ_from(s@, p@, -1) == -1);
            return None;
        }
        k = k - 1;
    }
}

fn artifact_of(t: &[char]) -> (r: Option<Vec<char>>)
    ensures
        match run_for_path(t@) {
            Some(p) => r is Some && r->0@ == p,
            None => r is None,
        },
{
    if !has_prefix_str(t, "Test run for ") {
        return None;
    }
    proof {
        lemma_last_occ(t@, " ("@, t@.len() as int);
    }
    match last_occurrence(t, " (") {
        Some(q) => {
            if q >= 13 {
                Some(slice(t, 13, q))
            } else {
                None
            }
        },
        None => None,
    }
}

proof fn lemma_last_occ(s: Seq<char>, p: Seq<char>, i: int)
    ensures
        last_occ_from(s, p, i) >= 0 ==> occurs_at(s, p, last_occ_from(s, p, i)) && last_occ_from(s, p, i) <= i,
    decreases i + 1,
{
    if i >= 0 && !occurs_at(s, p, i) {
        lemma_last_occ(s, p, i - 1);
    }
}

/// Reads the tool's test listing: the names after its list header, and the
/// artifact paths that its `Test run for` lines name.
pub fn parse_test_list(stdout: &str) -> (r: (Vec<String>, Vec<String>))
    ensures
        strings_view(r.0@) == listed_tests(lines_of(stdout@)).0,
        strings_view(r.1@) == listed_artifacts(lines_of(stdout@)),
{
    let cs = chars_of(stdout);
    let lines = split_lines(cs.as_slice());
    let ghost lv = lines@.map_values(|l: Vec<char>| l@);
    let mut tests: Vec<String> = Vec::new();
    let mut artifacts: Vec<String> = Vec::new();
    let mut in_list = false;
    let mut i: usize = 0;
    assert(lv.subrange(0, 0) =~= Seq::<Seq<char>>::empty());
    assert(strings_view(tests@) =~= Seq::<Seq<char>>::empty());
    assert(strings_view(artifacts@) =~= Seq::<Seq<char>>::empty());
    while i < lines.len()
        invariant
            i <= lines@.len(),
            lv == lines@.map_values(|l: Vec<char>| l@),
            (strings_view(tests@), in_list) == listed_tests(lv.subrange(0, i as int)),
            strings_view(artifacts@) == listed_artifacts(lv.subrange(0, i as int)),
        decreases lines@.len() - i,
    {
        let ghost pre = lv.subrange(0, i + 1);
        assert(pre.drop_last() =~= lv.subrange(0, i as int));
        assert(pre.last() == lines@[i as int]@);
        let t = trimmed(lines[i].as_slice());
        let ghost before = strings_view(artifacts@);
        match artifact_of(t.as_slice()) {
            Some(p) => {
                artifacts.push(string_of(p.as_slice()));
                assert(strings_view(artifacts@) =~= before.push(p@));
            },
            None => {},
        }
        let ghost before = strings_view(tests@);
        if crate::text::is_str(t.as_slice(), "The following Tests are available:") {
            in_list = true;
        } else if in_list && t.len() > 0 {
            tests.push(string_of(t.as_slice()));
            assert(strings_view(tests@) =~= before.push(t@));
        }
        i = i + 1;
    }
    assert(lv.subrange(0, i as int) =~= lv);
    (tests, artifacts)
}

/// `s` with each backslash turned into a slash.
pub open spec fn slashes(s: Seq<char>) -> Seq<char> {
    s.map_values(|c: char| if c == '\\' { '/' } else { c })
}

/// The test project that one line of a solution descriptor declares, if any:
/// a `Project(` line whose fourth quoted field is a test project's name and
/// whose sixth is a `.csproj` path.
pub open spec fn solution_entry(line: Seq<char>) -> Option<Seq<char>> {
    let parts = split_on(line, '"');
    if starts_with(line, "Project("@) && parts.len() >= 6 && is_test_project(parts[3]) && ends_with(
        parts[5],
        ".csproj"@,
    ) {
        Some(slashes(parts[5]))
    } else {
        None
    }
}

pub open spec fn solution_entries(ls: Seq<Seq<char>>) -> Seq<Seq<char>>
    decreases ls.len(),
{
    if ls.len() == 0 {
        Seq::empty()
    } else {
        match solution_entry(ls.last()) {
            Some(p) => solution_entries(ls.drop_last()).push(p),
            None => solution_entries(ls.drop_last()),
        }
    }
}

pub fn with_slashes(s: &[char]) -> (r: Vec<char>)
    ensures
        r@ == slashes(s@),
{
    let mut v: Vec<char> = Vec::new();
    let mut i: usize = 0;
    while i < s.len()
        invariant
            i <= s@.len(),
            v@ == slashes(s@.subrange(0, i as int)),
        decreases s@.len() - i,
    {
        v.push(if s[i] == '\\' { '/' } else { s[i] });
        i = i + 1;
        assert(v@ =~= slashes(s@.subrange(0, i as int)));
    }
    assert(s@.subrange(0, i as int) =~= s@);
    v
}

/// Relative paths, with forward slashes, of the test projects that a
/// solution descriptor declares, in order.
pub fn parse_solution_content(content: &str) -> (r: Vec<String>)
    ensures
        strings_view(r@) == solution_entries(lines_of(content@)),
{
    let cs = chars_of(content);
    let lines = split_lines(cs.as_slice());
    let ghost lv = lines@.map_values(|l: Vec<char>| l@);
    let mut out: Vec<String> = Vec::new();
    let mut i: usize = 0;
    assert(lv.subrange(0, 0) =~= Seq::<Seq<char>>::empty());
    assert(strings_view(out@) =~= Seq::<Seq<char>>::empty());
    while i < lines.len()
        invariant
            i <= lines@.len(),
            lv == lines@.map_values(|l: Vec<char>| l@),
            strings_view(out@) == solution_entries(lv.subrange(0, i as int)),
        decreases lines@.len() - i,
    {
        let ghost pre = lv.subrange(0, i + 1);
        assert(pre.drop_last() =~= lv.subrange(0, i as int));
        assert(pre.last() == lines@[i as int]@);
        let line = lines[i].as_slice();
        let parts = split_char(line, '"');
        let ghost pv = parts@.map_values(|l: Vec<char>| l@);
        if has_prefix_str(line, "Project(") && parts.len() >= 6 {
            assert(pv[3] == parts@[3]@ && pv[5] == parts@[5]@);
            let name = string_of(parts[3].as_slice());
            if is_test_project_name(name.as_str()) && has_suffix_str(parts[5].as_slice(), ".csproj") {
                let ghost before = strings_view(out@);
                let p = with_slashes(parts[5].as_slice());
                out.push(string_of(p.as_slice()));
                assert(strings_view(out@) =~= before.push(p@));
            }
        }
        i = i + 1;
    }
    assert(lv.subrange(0, i as int) =~= lv);
    out
}

/// One filter clause per test, for its name without parameters.
pub open spec fn filter_clauses(names: Seq<Seq<char>>) -> Seq<Seq<char>> {
    Seq::new(names.len(), |i: int| "FullyQualifiedName~"@ + base_name(names[i]))
}

/// The test tool's filter for these tests: one `FullyQualifiedName~` clause
/// per test, parameters stripped, joined with `|`.
pub fn build_filter_expression(tests: &Vec<String>) -> (r: String)
    ensures
        r@ == join(filter_clauses(strings_view(tests@)), "|"@),
{
    let ghost nv = strings_view(tests@);
    let bar = chars_of("|");
    let mut out: Vec<char> = Vec::new();
    let mut i: usize = 0;
    assert(filter_clauses(nv).subrange(0, 0) =~= Seq::<Seq<char>>::empty());
    while i < tests.len()
        invariant
            i <= tests@.len(),
            nv == strings_view(tests@),
            bar@ == "|"@,
            out@ == join(filter_clauses(nv).subrange(0, i as int), "|"@),
        decreases tests@.len() - i,
    {
        let ghost k = filter_clauses(nv).subrange(0, i as int);
        let ghost k2 = filter_clauses(nv).subrange(0, i + 1);
        assert(k2.drop_last() =~= k);
        if i > 0 {
            push_all(&mut out, bar.as_slice());
        }
        let name = chars_of(tests[i].as_str());
        let p = find_char(name.as_slice(), '(');
        proof {
            lemma_index_of_bounds(name@, '(');
        }
        let base = slice(name.as_slice(), 0, p);
        let head = chars_of("FullyQualifiedName~");
        push_all(&mut out, head.as_slice());
        push_all(&mut out, base.as_slice());
        assert(k2.last() == "FullyQualifiedName~"@ + base@);
        i = i + 1;
    }
    assert(filter_clauses(nv).subrange(0, i as int) =~= filter_clauses(nv));
    string_of(out.as_slice())
}

/// A path without the extended-length prefix `\\?\`, which the test tool
/// does not take.
pub fn strip_unc_prefix(path: &str) -> (r: String)
    ensures
        r@ == if starts_with(path@, "\\\\?\\"@) {
            path@.subrange(4, path@.len() as int)
        } else {
            path@
        },
{
    let cs = chars_of(path);
    proof {
        reveal_strlit("\\\\?\\");
    }
    if has_prefix_str(cs.as_slice(), "\\\\?\\") {
        let rest = slice(cs.as_slice(), 4, cs.len());
        string_of(rest.as_slice())
    } else {
        string_of(cs.as_slice())
    }
}

/// Decimal text of a signed number.
pub open spec fn int_text(n: int) -> Seq<char> {
    if n < 0 {
        seq!['-'] + dec_text((-n) as nat)
    } else {
        dec_text(n as nat)
    }
}

/// How an exit code reads: the number, or `unknown` when the process gave none.
pub open spec fn exit_code_text(code: Option<i32>) -> Seq<char> {
    match code {
        Some(c) => int_text(c as int),
        None => "unknown"@,
    }
}

/// What an enumeration failure reports: the tool's error output without build
/// noise; else its standard output without build noise; else its exit code.
pub open spec fn error_detail(stdout: Seq<char>, stderr: Seq<char>, code: Option<i32>) -> Seq<char> {
    let e = join(kept_lines(lines_of(stderr)), "\n"@);
    let o = join(kept_lines(lines_of(stdout)), "\n"@);
    if e.len() > 0 {
        e
    } else if o.len() > 0 {
        o
    } else {
        "Exit code: "@ + exit_code_text(code)
    }
}

/// The detail of a failed enumeration.
pub fn enumeration_error_detail(stdout: &str, stderr: &str, exit_code: Option<i32>) -> (r: String)
    ensures
        r@ == error_detail(stdout@, stderr@, exit_code),
{
    let e = filter_build_noise(stderr);
    if e.as_str().is_empty() {
    } else {
        return e;
    }
    let o = filter_build_noise(stdout);
    if o.as_str().is_empty() {
    } else {
        return o;
    }
    let mut v = chars_of("Exit code: ");
    match exit_code {
        Some(c) => {
            if c < 0 {
                v.push('-');
                let d = decimal((-(c as i64)) as u64);
                push_all(&mut v, d.as_slice());
            } else {
                let d = decimal(c as u64);
                push_all(&mut v, d.as_slice());
            }
            proof {
                if c < 0 {
                    assert(v@ =~= "Exit code: "@ + (seq!['-'] + dec_text((-c) as nat)));
                } else {
                    assert(v@ =~= "Exit code: "@ + dec_text(c as nat));
                }
            }
        },
        None => {
            let none = chars_of("unknown");
            push_all(&mut v, none.as_slice());
        },
    }
    string_of(v.as_slice())
}

/// The fully qualified names of a listing file: its non-empty lines; none
/// when it has no such line.
pub open spec fn nonempty_lines(ls: Seq<Seq<char>>) -> Seq<Seq<char>>
    decreases ls.len(),
{
    if ls.len() == 0 {
        Seq::empty()
    } else if ls.last().len() == 0 {
        nonempty_lines(ls.drop_last())
    } else {
        nonempty_lines(ls.drop_last()).push(ls.last())
    }
}

/// Reads a fully qualified test listing: its non-empty lines, or nothing when
/// there are none.
pub fn parse_fqn_listing(content: &str) -> (r: Option<Vec<String>>)
    ensures
        match r {
            Some(v) => strings_view(v@) == nonempty_lines(lines_of(content@)) && v@.len() > 0,
            None => nonempty_lines(lines_of(content@)).len() == 0,
        },
{
    let cs = chars_of(content);
    let lines = split_lines(cs.as_slice());
    let ghost lv = lines@.map_values(|l: Vec<char>| l@);
    let mut out: Vec<String> = Vec::new();
    let mut i: usize = 0;
    assert(lv.subrange(0, 0) =~= Seq::<Seq<char>>::empty());
    assert(strings_view(out@) =~= Seq::<Seq<char>>::empty());
    while i < lines.len()
        invariant
            i <= lines@.len(),
            lv == lines@.map_values(|l: Vec<char>| l@),
            strings_view(out@) == nonempty_lines(lv.subrange(0, i as int)),
        decreases lines@.len() - i,
    {
        let ghost pre = lv.subrange(0, i + 1);
        assert(pre.drop_last() =~= lv.subrange(0, i as int));
        assert(pre.last() == lines@[i as int]@);
        if lines[i].len() > 0 {
            let ghost before = strings_view(out@);
            out.push(string_of(lines[i].as_slice()));
            assert(strings_view(out@) =~= before.push(lines@[i as int]@));
        }
        i = i + 1;
    }
    assert(lv.subrange(0, i as int) =~= lv);
    if out.len() == 0 {
        None
    } else {
        Some(out)
    }
}

/// The names a discovery keeps: the fully qualified listing when there is one
/// of the same length as the plain listing, else the plain listing.
pub fn choose_listing(plain: Vec<String>, qualified: Option<Vec<String>>) -> (r: Vec<String>)
    ensures
        r@ == match qualified {
            Some(q) => if q@.len() == plain@.len() { q@ } else { plain@ },
            None => plain@,
        },
{
    match qualified {
        Some(q) => {
            if q.len() == plain.len() {
                q
            } else {
                plain
            }
        },
        None => plain,
    }
}

} // verus!
