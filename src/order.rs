//! Case-insensitive presentation order: a stable insertion sort on keys
//! compared character by character.

use vstd::prelude::*;

verus! {

/// Strict lexicographic order on character sequences, by code point.
pub open spec fn seq_lt(a: Seq<char>, b: Seq<char>) -> bool
    decreases a.len(),
{
    if b.len() == 0 {
        false
    } else if a.len() == 0 {
        true
    } else if a[0] != b[0] {
        (a[0] as u32) < (b[0] as u32)
    } else {
        seq_lt(a.drop_first(), b.drop_first())
    }
}

/// `x` placed after every element whose key is not greater than its own.
pub open spec fn insert_sorted(s: Seq<(Seq<char>, usize)>, x: (Seq<char>, usize)) -> Seq<(Seq<char>, usize)>
    decreases s.len(),
{
    if s.len() == 0 {
        seq![x]
    } else if seq_lt(x.0, s[0].0) {
        seq![x] + s
    } else {
        seq![s[0]] + insert_sorted(s.drop_first(), x)
    }
}

/// Stable insertion sort by key.
pub open spec fn isort(s: Seq<(Seq<char>, usize)>) -> Seq<(Seq<char>, usize)>
    decreases s.len(),
{
    if s.len() == 0 {
        s
    } else {
        insert_sorted(isort(s.drop_last()), s.last())
    }
}

/// The positions of `keys` in ascending order of their lowercase forms;
/// positions of equal lowercase keys keep their relative order.
pub open spec fn order_by_lower(keys: Seq<Seq<char>>) -> Seq<usize> {
    isort(keyed(keys)).map_values(|p: (Seq<char>, usize)| p.1)
}

pub open spec fn keyed(keys: Seq<Seq<char>>) -> Seq<(Seq<char>, usize)> {
    Seq::new(keys.len(), |i: int| (crate::text::lower_of(keys[i]), i as usize))
}

pub open spec fn pair_view(s: Seq<(Vec<char>, usize)>) -> Seq<(Seq<char>, usize)> {
    s.map_values(|p: (Vec<char>, usize)| (p.0@, p.1))
}

proof fn lemma_seq_lt_skip(a: Seq<char>, b: Seq<char>, i: int)
    requires
        0 <= i <= a.len(),
        i <= b.len(),
        a.subrange(0, i) == b.subrange(0, i),
    ensures
        seq_lt(a, b) == seq_lt(a.subrange(i, a.len() as int), b.subrange(i, b.len() as int)),
    decreases i,
{
    if i > 0 {
        assert(a[0] == a.subrange(0, i)[0]);
        assert(b[0] == b.subrange(0, i)[0]);
        assert(a.drop_first().subrange(0, i - 1) =~= a.subrange(0, i).drop_first());
        assert(b.drop_first().subrange(0, i - 1) =~= b.subrange(0, i).drop_first());
        lemma_seq_lt_skip(a.drop_first(), b.drop_first(), i - 1);
        assert(a.drop_first().subrange(i - 1, a.len() - 1) =~= a.subrange(i, a.len() as int));
        assert(b.drop_first().subrange(i - 1, b.len() - 1) =~= b.subrange(i, b.len() as int));
    } else {
        assert(a.subrange(0, a.len() as int) =~= a);
        assert(b.subrange(0, b.len() as int) =~= b);
    }
}

/// Whether `a` comes strictly before `b`.
pub fn less(a: &[char], b: &[char]) -> (r: bool)
    ensures
        r == seq_lt(a@, b@),
{
    let mut i: usize = 0;
    while i < a.len() && i < b.len() && a[i] == b[i]
        invariant
            i <= a.len(),
            i <= b.len(),
            a@.subrange(0, i as int) == b@.subrange(0, i as int),
        decreases a.len() - i,
    {
        assert(a@.subrange(0, i + 1) =~= a@.subrange(0, i as int).push(a@[i as int]));
        assert(b@.subrange(0, i + 1) =~= b@.subrange(0, i as int).push(b@[i as int]));
        i = i + 1;
    }
    proof {
        lemma_seq_lt_skip(a@, b@, i as int);
    }
    let ghost ra = a@.subrange(i as int, a@.len() as int);
    let ghost rb = b@.subrange(i as int, b@.len() as int);
    if i >= b.len() {
        assert(rb.len() == 0);
        false
    } else if i >= a.len() {
        assert(ra.len() == 0);
        true
    } else {
        assert(ra[0] == a@[i as int]);
        assert(rb[0] == b@[i as int]);
        (a[i] as u32) < (b[i] as u32)
    }
}

proof fn lemma_insert_sorted(s: Seq<(Seq<char>, usize)>, x: (Seq<char>, usize), j: int)
    requires
        0 <= j <= s.len(),
        forall|i: int| 0 <= i < j ==> !seq_lt(x.0, #[trigger] s[i].0),
        j == s.len() || seq_lt(x.0, s[j].0),
    ensures
        insert_sorted(s, x) == s.insert(j, x),
    decreases j,
{
    if s.len() == 0 {
        assert(s.insert(j, x) =~= seq![x]);
    } else if j == 0 {
        assert(s.insert(j, x) =~= seq![x] + s);
    } else {
        assert(!seq_lt(x.0, s[0].0));
        assert forall|i: int| 0 <= i < j - 1 implies !seq_lt(x.0, #[trigger] s.drop_first()[i].0) by {
            assert(s.drop_first()[i] == s[i + 1]);
        }
        lemma_insert_sorted(s.drop_first(), x, j - 1);
        assert(seq![s[0]] + s.drop_first().insert(j - 1, x) =~= s.insert(j, x));
    }
}

/// Sorts the pairs by key with a stable insertion sort.
pub fn sort_by_key(v: Vec<(Vec<char>, usize)>) -> (r: Vec<(Vec<char>, usize)>)
    ensures
        pair_view(r@) == isort(pair_view(v@)),
{
    let ghost v0 = pair_view(v@);
    let mut v = v;
    let mut out: Vec<(Vec<char>, usize)> = Vec::new();
    let ghost mut k: int = 0;
    assert(v0.subrange(0, 0) =~= Seq::<(Seq<char>, usize)>::empty());
    assert(pair_view(out@) =~= Seq::<(Seq<char>, usize)>::empty());
    while v.len() > 0
        invariant
            0 <= k <= v0.len(),
            pair_view(v@) == v0.subrange(k, v0.len() as int),
            pair_view(out@) == isort(v0.subrange(0, k)),
        decreases v@.len(),
    {
        let ghost vold = pair_view(v@);
        assert(vold.len() == v@.len());
        assert(vold.len() == v0.len() - k);
        assert(vold[0] == v0.subrange(k, v0.len() as int)[0]);
        assert(vold[0] == v0[k]);
        let x = v.remove(0);
        let ghost xv = (x.0@, x.1);
        assert(xv == vold[0]);
        let mut j: usize = 0;
        while j < out.len() && !less(x.0.as_slice(), out[j].0.as_slice())
            invariant
                j <= out@.len(),
                xv == (x.0@, x.1),
                forall|i: int| 0 <= i < j ==> !seq_lt(xv.0, #[trigger] pair_view(out@)[i].0),
            decreases out@.len() - j,
        {
            assert(pair_view(out@)[j as int].0 == out@[j as int].0@);
            j = j + 1;
        }
        let ghost before = pair_view(out@);
        proof {
            lemma_insert_sorted(before, xv, j as int);
            assert(k < v0.len());
            assert(v0.subrange(0, k + 1).drop_last() =~= v0.subrange(0, k));
            assert(v0.subrange(0, k + 1).last() == xv);
        }
        out.insert(j, x);
        assert(pair_view(out@) =~= before.insert(j as int, xv));
        proof {
            k = k + 1;
        }
        assert(pair_view(v@) =~= vold.drop_first());
        assert(pair_view(v@) =~= v0.subrange(k, v0.len() as int));
    }
    assert(v0.subrange(0, k) =~= v0);
    out
}

/// The positions of `keys` in ascending order of their lowercase forms.
pub fn order_of(lowered: &Vec<Vec<char>>) -> (r: Vec<usize>)
    ensures
        r@ == isort(Seq::new(lowered@.len(), |i: int| (lowered@[i]@, i as usize))).map_values(
            |p: (Seq<char>, usize)| p.1,
        ),
{
    let mut pairs: Vec<(Vec<char>, usize)> = Vec::new();
    let mut i: usize = 0;
    while i < lowered.len()
        invariant
            i <= lowered@.len(),
            pair_view(pairs@) == Seq::new(i as nat, |j: int| (lowered@[j]@, j as usize)),
        decreases lowered@.len() - i,
    {
        let ghost before = pair_view(pairs@);
        let key = crate::text::slice(lowered[i].as_slice(), 0, lowered[i].len());
        assert(lowered@[i as int]@.subrange(0, lowered@[i as int]@.len() as int) =~= lowered@[i as int]@);
        pairs.push((key, i));
        assert(pair_view(pairs@) =~= before.push((lowered@[i as int]@, i)));
        i = i + 1;
        assert(pair_view(pairs@) =~= Seq::new(i as nat, |j: int| (lowered@[j]@, j as usize)));
    }
    let sorted = sort_by_key(pairs);
    let mut r: Vec<usize> = Vec::new();
    let mut j: usize = 0;
    while j < sorted.len()
        invariant
            j <= sorted@.len(),
            r@ == pair_view(sorted@).subrange(0, j as int).map_values(|p: (Seq<char>, usize)| p.1),
        decreases sorted@.len() - j,
    {
        r.push(sorted[j].1);
        j = j + 1;
        assert(r@ =~= pair_view(sorted@).subrange(0, j as int).map_values(|p: (Seq<char>, usize)| p.1));
    }
    assert(pair_view(sorted@).subrange(0, j as int) =~= pair_view(sorted@));
    r
}

} // verus!
