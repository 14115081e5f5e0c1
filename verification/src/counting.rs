//! Counting over sequences: occurrences, first-occurrence deduplication and
//! frequency tables.
use vstd::prelude::*;

verus! {

/// How many times `x` occurs in `s`.
pub open spec fn occurrences<T>(s: Seq<T>, x: T) -> nat
    decreases s.len(),
{
    if s.len() == 0 {
        0
    } else {
        occurrences(s.drop_last(), x) + if s.last() == x {
            1nat
        } else {
            0nat
        }
    }
}

/// The elements of `s` without repetition, in the order of their first occurrence.
pub open spec fn distinct<T>(s: Seq<T>) -> Seq<T>
    decreases s.len(),
{
    if s.len() == 0 {
        seq![]
    } else {
        let d = distinct(s.drop_last());
        if s.drop_last().contains(s.last()) {
            d
        } else {
            d.push(s.last())
        }
    }
}

/// `keys` and `counts` tabulate `s`: each distinct element once, in the order
/// of first occurrence, with the number of times it occurs.
pub open spec fn is_frequency_table<T>(keys: Seq<T>, counts: Seq<usize>, s: Seq<T>) -> bool {
    &&& keys == distinct(s)
    &&& counts.len() == keys.len()
    &&& forall|i: int| 0 <= i < keys.len() ==> counts[i] == occurrences(s, #[trigger] keys[i])
}

/// Occurrence counts are bounded by the length and are positive exactly for members.
pub proof fn lemma_occurrences<T>(s: Seq<T>, x: T)
    ensures
        occurrences(s, x) <= s.len(),
        occurrences(s, x) > 0 <==> s.contains(x),
    decreases s.len(),
{
    if s.len() > 0 {
        lemma_occurrences(s.drop_last(), x);
        if s.drop_last().contains(x) {
            let k = choose|k: int| 0 <= k < s.drop_last().len() && s.drop_last()[k] == x;
            assert(s[k] == x);
        }
        if s.contains(x) && s.last() != x {
            let k = choose|k: int| 0 <= k < s.len() && s[k] == x;
            assert(k != s.len() - 1);
            assert(s.drop_last()[k] == x);
        }
        if s.last() == x {
            assert(s[s.len() - 1] == x);
        }
    }
}

/// Deduplication keeps exactly the members, each once, and never grows.
pub proof fn lemma_distinct<T>(s: Seq<T>)
    ensures
        distinct(s).no_duplicates(),
        distinct(s).len() <= s.len(),
        forall|x: T| distinct(s).contains(x) <==> s.contains(x),
    decreases s.len(),
{
    if s.len() > 0 {
        let p = s.drop_last();
        let d = distinct(p);
        lemma_distinct(p);
        assert forall|x: T| s.contains(x) <==> (p.contains(x) || x == s.last()) by {
            if s.contains(x) && x != s.last() {
                let k = choose|k: int| 0 <= k < s.len() && s[k] == x;
                assert(p[k] == x);
            }
            if p.contains(x) {
                let k = choose|k: int| 0 <= k < p.len() && p[k] == x;
                assert(s[k] == x);
            }
            if x == s.last() {
                assert(s[s.len() - 1] == x);
            }
        }
        if !p.contains(s.last()) {
            let e = d.push(s.last());
            assert forall|x: T| e.contains(x) <==> (d.contains(x) || x == s.last()) by {
                if e.contains(x) && x != s.last() {
                    let k = choose|k: int| 0 <= k < e.len() && e[k] == x;
                    assert(d[k] == x);
                }
                if d.contains(x) {
                    let k = choose|k: int| 0 <= k < d.len() && d[k] == x;
                    assert(e[k] == x);
                }
                if x == s.last() {
                    assert(e[e.len() - 1] == x);
                }
            }
        }
    }
}

/// The counts of each of `unique` in `s`.
pub open spec fn count_vector<T>(s: Seq<T>, unique: Seq<T>) -> Seq<int> {
    Seq::new(unique.len(), |i: int| occurrences(s, unique[i]) as int)
}

/// The dot product of two vectors (over the length of the first).
pub open spec fn dot(a: Seq<int>, b: Seq<int>) -> int
    decreases a.len(),
{
    if a.len() == 0 {
        0
    } else {
        dot(a.drop_last(), b.drop_last()) + a.last() * b.last()
    }
}

/// The number of pairs of equal elements, one taken from `s` and one from `t`.
pub open spec fn equal_pairs<T>(s: Seq<T>, t: Seq<T>) -> int
    decreases s.len(),
{
    if s.len() == 0 {
        0
    } else {
        equal_pairs(s.drop_last(), t) + occurrences(t, s.last())
    }
}

/// The vector with a one where `unique` holds `x` and zeros elsewhere.
pub open spec fn indicator<T>(x: T, unique: Seq<T>) -> Seq<int> {
    Seq::new(unique.len(), |i: int| if unique[i] == x { 1int } else { 0int })
}

/// The pointwise sum of two vectors of the same length.
pub open spec fn add_vectors(a: Seq<int>, b: Seq<int>) -> Seq<int> {
    Seq::new(a.len(), |i: int| a[i] + b[i])
}

proof fn lemma_dot_add(a: Seq<int>, b: Seq<int>, c: Seq<int>)
    requires
        a.len() == b.len(),
        a.len() == c.len(),
    ensures
        dot(add_vectors(a, b), c) == dot(a, c) + dot(b, c),
    decreases a.len(),
{
    if a.len() > 0 {
        let s = add_vectors(a, b);
        assert(s.drop_last() =~= add_vectors(a.drop_last(), b.drop_last()));
        lemma_dot_add(a.drop_last(), b.drop_last(), c.drop_last());
        let (x, y, z) = (a.last(), b.last(), c.last());
        assert((x + y) * z == x * z + y * z) by (nonlinear_arith);
    }
}

proof fn lemma_dot_indicator<T>(x: T, unique: Seq<T>, c: Seq<int>)
    requires
        unique.no_duplicates(),
        c.len() == unique.len(),
    ensures
        forall|k: int| 0 <= k < unique.len() && unique[k] == x ==> dot(indicator(x, unique), c) == c[k],
        !unique.contains(x) ==> dot(indicator(x, unique), c) == 0,
    decreases unique.len(),
{
    if unique.len() > 0 {
        let n = unique.len() - 1;
        let u = unique.drop_last();
        let cd = c.drop_last();
        let ind = indicator(x, unique);
        assert(ind.drop_last() =~= indicator(x, u));
        lemma_dot_indicator(x, u, cd);
        let d = dot(indicator(x, u), cd);
        assert(dot(ind, c) == d + ind.last() * c.last());
        if unique[n] == x {
            assert(ind.last() == 1);
            assert(!u.contains(x)) by {
                if u.contains(x) {
                    let k = choose|k: int| 0 <= k < u.len() && u[k] == x;
                    assert(unique[k] == unique[n]);
                }
            }
            assert(d == 0);
            assert forall|k: int| 0 <= k < unique.len() && unique[k] == x implies dot(ind, c)
                == c[k] by {
                assert(k == n);
            }
        } else {
            assert(ind.last() == 0);
            assert(dot(ind, c) == d);
            assert forall|k: int| 0 <= k < unique.len() && unique[k] == x implies dot(ind, c)
                == c[k] by {
                assert(k < n);
                assert(u[k] == x);
                assert(cd[k] == c[k]);
            }
            if !unique.contains(x) {
                assert(!u.contains(x)) by {
                    if u.contains(x) {
                        let k = choose|k: int| 0 <= k < u.len() && u[k] == x;
                        assert(unique[k] == x);
                    }
                }
            }
        }
    } else {
        assert(!unique.contains(x));
    }
}

/// Over a vocabulary that lists each element of `s` exactly once, the dot
/// product of the count vectors of `s` and `t` is the number of equal pairs
/// between them, whatever the order of the vocabulary.
pub proof fn lemma_dot_counts<T>(s: Seq<T>, t: Seq<T>, unique: Seq<T>)
    requires
        unique.no_duplicates(),
        forall|x: T| s.contains(x) ==> unique.contains(x),
    ensures
        dot(count_vector(s, unique), count_vector(t, unique)) == equal_pairs(s, t),
    decreases s.len(),
{
    let ct = count_vector(t, unique);
    if s.len() == 0 {
        lemma_dot_zero(count_vector(s, unique), ct);
    } else {
        let p = s.drop_last();
        let x = s.last();
        assert forall|y: T| p.contains(y) implies unique.contains(y) by {
            let k = choose|k: int| 0 <= k < p.len() && p[k] == y;
            assert(s[k] == p[k]);
            assert(s.contains(y));
        }
        lemma_dot_counts(p, t, unique);
        assert(count_vector(s, unique) =~= add_vectors(count_vector(p, unique), indicator(x, unique)));
        lemma_dot_add(count_vector(p, unique), indicator(x, unique), ct);
        assert(s[s.len() - 1] == x);
        assert(unique.contains(x));
        let k = choose|k: int| 0 <= k < unique.len() && unique[k] == x;
        lemma_dot_indicator(x, unique, ct);
        assert(dot(indicator(x, unique), ct) == ct[k]);
    }
}

proof fn lemma_dot_zero(a: Seq<int>, b: Seq<int>)
    requires
        forall|i: int| 0 <= i < a.len() ==> a[i] == 0,
    ensures
        dot(a, b) == 0,
    decreases a.len(),
{
    if a.len() > 0 {
        lemma_dot_zero(a.drop_last(), b.drop_last());
    }
}

proof fn lemma_equal_pairs_push<T>(s: Seq<T>, t: Seq<T>, y: T)
    ensures
        equal_pairs(s, t.push(y)) == equal_pairs(s, t) + occurrences(s, y),
    decreases s.len(),
{
    if s.len() > 0 {
        lemma_equal_pairs_push(s.drop_last(), t, y);
        assert(t.push(y).drop_last() =~= t);
    }
}

/// Counting equal pairs does not depend on which side each sequence is on.
pub proof fn lemma_equal_pairs_symmetric<T>(s: Seq<T>, t: Seq<T>)
    ensures
        equal_pairs(s, t) == equal_pairs(t, s),
    decreases t.len(),
{
    if t.len() == 0 {
        lemma_equal_pairs_empty(s, t);
    } else {
        let q = t.drop_last();
        lemma_equal_pairs_symmetric(s, q);
        lemma_equal_pairs_push(s, q, t.last());
        assert(q.push(t.last()) =~= t);
    }
}

proof fn lemma_equal_pairs_empty<T>(s: Seq<T>, t: Seq<T>)
    requires
        t.len() == 0,
    ensures
        equal_pairs(s, t) == 0,
    decreases s.len(),
{
    if s.len() > 0 {
        lemma_equal_pairs_empty(s.drop_last(), t);
    }
}

/// The sum of the entries.
pub open spec fn total(counts: Seq<int>) -> int
    decreases counts.len(),
{
    if counts.len() == 0 {
        0
    } else {
        total(counts.drop_last()) + counts.last()
    }
}

proof fn lemma_occurrences_once<T>(u: Seq<T>, x: T)
    requires
        u.no_duplicates(),
        u.contains(x),
    ensures
        occurrences(u, x) == 1,
    decreases u.len(),
{
    let p = u.drop_last();
    if u.last() == x {
        assert(!p.contains(x)) by {
            if p.contains(x) {
                let k = choose|k: int| 0 <= k < p.len() && p[k] == x;
                assert(u[k] == u[u.len() - 1]);
            }
        }
        lemma_occurrences(p, x);
    } else {
        let k = choose|k: int| 0 <= k < u.len() && u[k] == x;
        assert(k != u.len() - 1);
        assert(p[k] == x);
        lemma_occurrences_once(p, x);
    }
}

proof fn lemma_total_dot(v: Seq<int>)
    ensures
        total(v) == dot(v, Seq::new(v.len(), |i: int| 1int)),
    decreases v.len(),
{
    if v.len() > 0 {
        lemma_total_dot(v.drop_last());
        assert(Seq::new(v.len(), |i: int| 1int).drop_last() =~= Seq::new(
            v.drop_last().len(),
            |i: int| 1int,
        ));
    }
}

proof fn lemma_equal_pairs_once<T>(s: Seq<T>, u: Seq<T>)
    requires
        u.no_duplicates(),
        forall|x: T| s.contains(x) ==> u.contains(x),
    ensures
        equal_pairs(s, u) == s.len(),
    decreases s.len(),
{
    if s.len() > 0 {
        let p = s.drop_last();
        assert forall|x: T| p.contains(x) implies u.contains(x) by {
            let k = choose|k: int| 0 <= k < p.len() && p[k] == x;
            assert(s[k] == p[k]);
            assert(s.contains(x));
        }
        lemma_equal_pairs_once(p, u);
        assert(s[s.len() - 1] == s.last());
        assert(s.contains(s.last()));
        lemma_occurrences_once(u, s.last());
    }
}

/// The counts of a frequency table add up to the number of elements counted.
pub proof fn lemma_counts_total<T>(s: Seq<T>)
    ensures
        total(count_vector(s, distinct(s))) == s.len(),
{
    lemma_distinct(s);
    lemma_counts_total_over(s, distinct(s));
}

/// Over any vocabulary that lists each element of `s` exactly once, the
/// counts of `s` add up to its length: every element is counted, once.
pub proof fn lemma_counts_total_over<T>(s: Seq<T>, u: Seq<T>)
    requires
        u.no_duplicates(),
        forall|x: T| s.contains(x) ==> u.contains(x),
    ensures
        total(count_vector(s, u)) == s.len(),
{
    lemma_dot_counts(s, u, u);
    assert forall|i: int| 0 <= i < u.len() implies count_vector(u, u)[i] == 1 by {
        assert(u.contains(u[i]));
        lemma_occurrences_once(u, u[i]);
    }
    assert(count_vector(u, u) =~= Seq::new(count_vector(s, u).len(), |i: int| 1int));
    lemma_total_dot(count_vector(s, u));
    lemma_equal_pairs_once(s, u);
}

/// Filtering keeps every occurrence of an element that passes the predicate.
pub proof fn lemma_occurrences_filter<T>(s: Seq<T>, pred: spec_fn(T) -> bool, x: T)
    requires
        pred(x),
    ensures
        occurrences(s.filter(pred), x) == occurrences(s, x),
    decreases s.len(),
{
    reveal(Seq::filter);
    if s.len() > 0 {
        let p = s.drop_last();
        lemma_occurrences_filter(p, pred, x);
        if pred(s.last()) {
            assert(p.filter(pred).push(s.last()).drop_last() =~= p.filter(pred));
        }
    }
}

/// The elements a filter keeps satisfy the predicate and come from the sequence.
pub proof fn lemma_filter_members<T>(s: Seq<T>, pred: spec_fn(T) -> bool)
    ensures
        forall|i: int|
            0 <= i < s.filter(pred).len() ==> pred(#[trigger] s.filter(pred)[i]) && s.contains(
                s.filter(pred)[i],
            ),
    decreases s.len(),
{
    reveal(Seq::filter);
    if s.len() > 0 {
        let p = s.drop_last();
        lemma_filter_members(p, pred);
        let f = s.filter(pred);
        assert forall|i: int| 0 <= i < f.len() implies pred(#[trigger] f[i]) && s.contains(f[i]) by {
            if i < p.filter(pred).len() {
                assert(f[i] == p.filter(pred)[i]);
                let k = choose|k: int| 0 <= k < p.len() && p[k] == f[i];
                assert(s[k] == p[k]);
            } else {
                assert(f[i] == s.last());
                assert(s[s.len() - 1] == s.last());
            }
        }
    }
}


/// Filtering the empty prefix gives nothing.
pub proof fn lemma_filter_take_empty<T>(s: Seq<T>, pred: spec_fn(T) -> bool)
    ensures
        s.take(0).filter(pred) == Seq::<T>::empty(),
{
    reveal(Seq::filter);
    assert(s.take(0) =~= Seq::<T>::empty());
}

/// Filtering one more element of a prefix adds it exactly when it passes.
pub proof fn lemma_filter_take_step<T>(s: Seq<T>, i: int, pred: spec_fn(T) -> bool)
    requires
        0 <= i < s.len(),
    ensures
        s.take(i + 1).filter(pred) == if pred(s[i]) {
            s.take(i).filter(pred).push(s[i])
        } else {
            s.take(i).filter(pred)
        },
{
    reveal(Seq::filter);
    assert(s.take(i + 1).drop_last() =~= s.take(i));
    assert(s.take(i + 1).last() == s[i]);
}

} // verus!
