//! Enumeration cache entries: a fingerprint line followed by one test name per
//! line. Reading and writing the entry's file is left to the caller.

use vstd::prelude::*;
use crate::text::{
    all_digits, chars_of, dec_value, digit_value, digits_part, is_digit, lines_of,
    parse_u64, parse_u64_spec, push_all, split_lines, string_of, lemma_index_of,
};

verus! {

/// The fingerprint of a project: the newest of its descriptor's and its build
/// artifacts' modification times, in milliseconds.
pub fn fingerprint_of(descriptor_ms: u64, newest_artifact_ms: Option<u64>) -> (r: u64)
    ensures
        r == match newest_artifact_ms {
            Some(a) => if a > descriptor_ms { a } else { descriptor_ms },
            None => descriptor_ms,
        },
{
    match newest_artifact_ms {
        Some(a) => if a > descriptor_ms {
            a
        } else {
            descriptor_ms
        },
        None => descriptor_ms,
    }
}

/// Decimal digits of `v`, without leading zeros.
pub open spec fn dec_text(v: nat) -> Seq<char>
    decreases v,
{
    if v < 10 {
        seq![digit_char_spec(v)]
    } else {
        dec_text(v / 10).push(digit_char_spec(v % 10))
    }
}

pub open spec fn digit_char_spec(d: nat) -> char {
    if d == 0 { '0' } else if d == 1 { '1' } else if d == 2 { '2' } else if d == 3 { '3' } else if d == 4 { '4' }
    else if d == 5 { '5' } else if d == 6 { '6' } else if d == 7 { '7' } else if d == 8 { '8' } else { '9' }
}

/// `parts` joined with line feeds.
pub open spec fn join_lines(parts: Seq<Seq<char>>) -> Seq<char>
    decreases parts.len(),
{
    if parts.len() == 0 {
        Seq::empty()
    } else if parts.len() == 1 {
        parts[0]
    } else {
        parts[0] + seq!['\n'] + join_lines(parts.drop_first())
    }
}

/// Text of a cache entry.
pub open spec fn cache_text(fingerprint: u64, names: Seq<Seq<char>>) -> Seq<char> {
    join_lines(seq![dec_text(fingerprint as nat)] + names)
}

/// What a cache entry gives for the current fingerprint: its names when the
/// stored fingerprint is the current one, nothing otherwise.
pub open spec fn cache_names(content: Seq<char>, fingerprint: u64) -> Option<Seq<Seq<char>>> {
    let ls = lines_of(content);
    if ls.len() > 0 && parse_u64_spec(ls[0]) == Some(fingerprint) {
        Some(ls.drop_first())
    } else {
        None
    }
}

fn digit_char(d: u64) -> (c: char)
    requires
        d < 10,
    ensures
        c == digit_char_spec(d as nat),
{
    if d == 0 { '0' } else if d == 1 { '1' } else if d == 2 { '2' } else if d == 3 { '3' } else if d == 4 { '4' }
    else if d == 5 { '5' } else if d == 6 { '6' } else if d == 7 { '7' } else if d == 8 { '8' } else { '9' }
}

pub fn decimal(v: u64) -> (r: Vec<char>)
    ensures
        r@ == dec_text(v as nat),
    decreases v,
{
    if v < 10 {
        let mut r: Vec<char> = Vec::new();
        r.push(digit_char(v));
        assert(r@ =~= seq![digit_char_spec(v as nat)]);
        r
    } else {
        let mut r = decimal(v / 10);
        r.push(digit_char(v % 10));
        r
    }
}

/// The text of a cache entry: the fingerprint, then each name on a line of its own.
pub fn cache_content(fingerprint: u64, names: &Vec<String>) -> (r: String)
    ensures
        r@ == cache_text(fingerprint, names@.map_values(|s: String| s@)),
{
    let ghost nv = names@.map_values(|s: String| s@);
    let mut parts: Vec<Vec<char>> = Vec::new();
    parts.push(decimal(fingerprint));
    let mut i: usize = 0;
    while i < names.len()
        invariant
            i <= names@.len(),
            nv == names@.map_values(|s: String| s@),
            parts@.map_values(|p: Vec<char>| p@) == seq![dec_text(fingerprint as nat)] + nv.subrange(0, i as int),
        decreases names@.len() - i,
    {
        let ghost prev = parts@.map_values(|p: Vec<char>| p@);
        parts.push(chars_of(names[i].as_str()));
        assert(parts@.map_values(|p: Vec<char>| p@) =~= prev.push(nv[i as int]));
        assert(seq![dec_text(fingerprint as nat)] + nv.subrange(0, i + 1) =~= (seq![dec_text(fingerprint as nat)] + nv.subrange(0, i as int)).push(nv[i as int]));
        i = i + 1;
    }
    assert(nv.subrange(0, i as int) =~= nv);
    let text = joined(&parts);
    string_of(text.as_slice())
}

/// The parts joined with line feeds.
fn joined(parts: &Vec<Vec<char>>) -> (r: Vec<char>)
    ensures
        r@ == join_lines(parts@.map_values(|p: Vec<char>| p@)),
{
    let ghost pv = parts@.map_values(|p: Vec<char>| p@);
    let mut out: Vec<char> = Vec::new();
    if parts.len() == 0 {
        return out;
    }
    let mut i: usize = parts.len();
    let last = &parts[i - 1];
    push_all(&mut out, last.as_slice());
    assert(pv.subrange(i - 1, pv.len() as int) =~= seq![pv[i - 1]]);
    while i > 1
        invariant
            1 <= i <= parts@.len(),
            pv == parts@.map_values(|p: Vec<char>| p@),
            out@ == join_lines(pv.subrange(i - 1, pv.len() as int)),
        decreases i,
    {
        let mut next: Vec<char> = Vec::new();
        push_all(&mut next, parts[i - 2].as_slice());
        next.push('\n');
        push_all(&mut next, out.as_slice());
        let ghost tail = pv.subrange(i - 1, pv.len() as int);
        let ghost whole = pv.subrange(i - 2, pv.len() as int);
        assert(whole.drop_first() =~= tail);
        assert(whole[0] == parts@[i - 2]@);
        assert(next@ =~= whole[0] + seq!['\n'] + join_lines(tail));
        out = next;
        i = i - 1;
    }
    assert(pv.subrange(0, pv.len() as int) =~= pv);
    out
}

/// The names of a cache entry when its fingerprint is the current one.
pub fn cached_names(content: &str, fingerprint: u64) -> (r: Option<Vec<String>>)
    ensures
        match cache_names(content@, fingerprint) {
            Some(ns) => r is Some && r->0@.map_values(|s: String| s@) == ns,
            None => r is None,
        },
{
    let cs = chars_of(content);
    let lines = split_lines(cs.as_slice());
    let ghost lv = lines@.map_values(|l: Vec<char>| l@);
    if lines.len() == 0 {
        return None;
    }
    assert(lv[0] == lines@[0]@);
    match parse_u64(lines[0].as_slice()) {
        Some(v) => {
            if v != fingerprint {
                return None;
            }
        },
        None => {
            return None;
        },
    }
    let mut out: Vec<String> = Vec::new();
    let mut i: usize = 1;
    while i < lines.len()
        invariant
            1 <= i <= lines@.len(),
            lv == lines@.map_values(|l: Vec<char>| l@),
            out@.map_values(|s: String| s@) == lv.subrange(1, i as int),
        decreases lines@.len() - i,
    {
        let ghost prev = out@.map_values(|s: String| s@);
        out.push(string_of(lines[i].as_slice()));
        assert(out@.map_values(|s: String| s@) =~= prev.push(lv[i as int]));
        assert(lv.subrange(1, i + 1) =~= lv.subrange(1, i as int).push(lv[i as int]));
        i = i + 1;
    }
    assert(lv.subrange(1, i as int) =~= lv.drop_first());
    Some(out)
}

proof fn lemma_digit_char(d: nat)
    requires
        d < 10,
    ensures
        digit_value(digit_char_spec(d)) == d,
        is_digit(digit_char_spec(d)),
{
    assert('0' as u32 == 48 && '1' as u32 == 49 && '2' as u32 == 50 && '3' as u32 == 51 && '4' as u32 == 52);
    assert('5' as u32 == 53 && '6' as u32 == 54 && '7' as u32 == 55 && '8' as u32 == 56 && '9' as u32 == 57);
}

proof fn lemma_dec_text(v: nat)
    ensures
        dec_text(v).len() > 0,
        all_digits(dec_text(v)),
        dec_value(dec_text(v)) == v,
        dec_text(v)[0] != '+',
    decreases v,
{
    if v >= 10 {
        lemma_dec_text(v / 10);
        lemma_digit_char(v % 10);
        let t = dec_text(v);
        assert(t.drop_last() =~= dec_text(v / 10));
        assert(t.last() == digit_char_spec(v % 10));
        assert(dec_value(t) == (v / 10) * 10 + v % 10);
        assert((v / 10) * 10 + v % 10 == v) by (nonlinear_arith);
        assert forall|i: int| 0 <= i < t.len() implies is_digit(#[trigger] t[i]) by {
            if i < t.len() - 1 {
                assert(t[i] == dec_text(v / 10)[i]);
            }
        }
    } else {
        lemma_digit_char(v);
        let t = dec_text(v);
        assert(t.drop_last() =~= Seq::<char>::empty());
        assert(dec_value(t.drop_last()) == 0);
        assert(dec_value(t) == dec_value(t.drop_last()) * 10 + digit_value(t.last()));
    }
}

/// Lines that `str::lines` gives back unchanged: no line feed inside, no
/// carriage return at the end.
pub open spec fn plain_line(s: Seq<char>) -> bool {
    (forall|i: int| 0 <= i < s.len() ==> s[i] != '\n') && (s.len() == 0 || s.last() != '\r')
}

proof fn lemma_lines_of_join(parts: Seq<Seq<char>>)
    requires
        parts.len() > 0,
        forall|i: int| 0 <= i < parts.len() ==> plain_line(#[trigger] parts[i]),
        parts.last().len() > 0,
    ensures
        lines_of(join_lines(parts)) == parts,
    decreases parts.len(),
{
    let x = parts[0];
    assert(plain_line(x));
    if parts.len() == 1 {
        let s = join_lines(parts);
        assert(s == x);
        lemma_index_of(s, '\n', s.len() as int);
        assert(s.subrange(0, s.len() as int) =~= s);
        assert(lines_of(s) =~= parts);
    } else {
        let rest = parts.drop_first();
        assert forall|i: int| 0 <= i < rest.len() implies plain_line(#[trigger] rest[i]) by {
            assert(rest[i] == parts[i + 1]);
        }
        lemma_lines_of_join(rest);
        let s = join_lines(parts);
        assert(s == x + seq!['\n'] + join_lines(rest));
        lemma_index_of(s, '\n', x.len() as int);
        assert(s.subrange(0, x.len() as int) =~= x);
        assert(s.subrange(x.len() as int + 1, s.len() as int) =~= join_lines(rest));
        assert(lines_of(s) =~= seq![x] + rest);
        assert(seq![x] + rest =~= parts);
    }
}

/// An entry saved and loaded again with the same fingerprint gives back the
/// saved names; loaded with any other fingerprint it gives nothing. Names are
/// single lines, and the last one is not empty.
pub proof fn lemma_cache_round_trip(fingerprint: u64, other: u64, names: Seq<Seq<char>>)
    requires
        forall|i: int| 0 <= i < names.len() ==> plain_line(#[trigger] names[i]),
        names.len() == 0 || names.last().len() > 0,
        other != fingerprint,
    ensures
        cache_names(cache_text(fingerprint, names), fingerprint) == Some(names),
        cache_names(cache_text(fingerprint, names), other) is None,
{
    let d = dec_text(fingerprint as nat);
    lemma_dec_text(fingerprint as nat);
    let parts = seq![d] + names;
    assert forall|i: int| 0 <= i < parts.len() implies plain_line(#[trigger] parts[i]) by {
        if i == 0 {
            assert forall|j: int| 0 <= j < d.len() implies d[j] != '\n' by {
                assert(is_digit(d[j]));
            }
            assert(is_digit(d.last()));
        } else {
            assert(parts[i] == names[i - 1]);
        }
    }
    if names.len() > 0 {
        assert(parts.last() == names.last());
    }
    lemma_lines_of_join(parts);
    assert(parts.drop_first() =~= names);
    assert(digits_part(d) == d);
}

} // verus!
