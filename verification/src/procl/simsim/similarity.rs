//! Word-frequency vectors of two texts: the integer part of their cosine
//! similarity, and the facts that make it independent of word order.
use vstd::prelude::*;
use crate::counting::{
    count_vector, distinct, dot, equal_pairs, is_frequency_table, lemma_counts_total_over,
    lemma_distinct, lemma_dot_counts, lemma_equal_pairs_symmetric, lemma_occurrences, occurrences,
    total,
};
use crate::text::{chars_equal, chars_of, copy_chars, lowercase, split_whitespace, to_lowercase, views, words};

verus! {

/// How often each distinct word occurs, in the order of first occurrence.
pub struct WordFrequency {
    pub words: Vec<Vec<char>>,
    pub counts: Vec<usize>,
}

impl WordFrequency {
    /// Each word is listed once, with one count.
    pub open spec fn wf(&self) -> bool {
        &&& views(self.words@).no_duplicates()
        &&& self.counts@.len() == self.words@.len()
    }
}

fn find_word(keys: &Vec<Vec<char>>, w: &Vec<char>) -> (r: Option<usize>)
    ensures
        match r {
            Some(j) => j < keys@.len() && keys@[j as int]@ == w@,
            None => forall|k: int| 0 <= k < keys@.len() ==> keys@[k]@ != w@,
        },
{
    let mut j: usize = 0;
    while j < keys.len()
        invariant
            j <= keys@.len(),
            forall|k: int| 0 <= k < j ==> keys@[k]@ != w@,
        decreases keys@.len() - j,
    {
        if chars_equal(&keys[j], w) {
            return Some(j);
        }
        j += 1;
    }
    None
}

/// Counts the words: each distinct word once, in the order of first
/// occurrence, with the number of times it occurs.
pub fn word_frequency(words: &Vec<Vec<char>>) -> (f: WordFrequency)
    ensures
        is_frequency_table(views(f.words@), f.counts@, views(words@)),
        f.wf(),
{
    let mut keys: Vec<Vec<char>> = Vec::new();
    let mut counts: Vec<usize> = Vec::new();
    let mut i: usize = 0;
    assert(views(words@).take(0) =~= Seq::<Seq<char>>::empty());
    assert(views(keys@) =~= Seq::<Seq<char>>::empty());
    while i < words.len()
        invariant
            i <= words@.len(),
            is_frequency_table(views(keys@), counts@, views(words@).take(i as int)),
        decreases words@.len() - i,
    {
        let ghost s = views(words@).take(i as int);
        let ghost s1 = views(words@).take(i + 1);
        let ghost old_keys = views(keys@);
        let ghost old_counts = counts@;
        assert(s1.drop_last() =~= s);
        assert(s1.last() == words@[i as int]@);
        proof {
            lemma_distinct(s);
        }
        let w = &words[i];
        match find_word(&keys, w) {
            Some(j) => {
                assert(old_keys[j as int] == w@);
                assert(old_keys.contains(w@));
                assert(s.contains(w@));
                proof {
                    lemma_occurrences(s, w@);
                }
                counts.set(j, counts[j] + 1);
                assert forall|k: int| 0 <= k < old_keys.len() implies counts@[k] == occurrences(
                    s1,
                    #[trigger] old_keys[k],
                ) by {
                    if k != j {
                        assert(old_keys[k] != old_keys[j as int]);
                    }
                }
            },
            None => {
                assert(!old_keys.contains(w@));
                assert(!s.contains(w@));
                proof {
                    lemma_occurrences(s, w@);
                }
                keys.push(copy_chars(w));
                counts.push(1);
                assert(views(keys@) =~= old_keys.push(w@));
                assert forall|k: int| 0 <= k < views(keys@).len() implies counts@[k] == occurrences(
                    s1,
                    #[trigger] views(keys@)[k],
                ) by {
                    if k < old_keys.len() {
                        assert(views(keys@)[k] == old_keys[k]);
                    }
                }
            },
        }
        i += 1;
    }
    assert(views(words@).take(words@.len() as int) =~= views(words@));
    proof {
        lemma_distinct(views(words@));
    }
    WordFrequency { words: keys, counts }
}

/// Each distinct word once, in the order of first occurrence.
pub fn distinct_words(ws: &Vec<Vec<char>>) -> (u: Vec<Vec<char>>)
    ensures
        views(u@) == distinct(views(ws@)),
        views(u@).no_duplicates(),
{
    let mut u: Vec<Vec<char>> = Vec::new();
    let mut i: usize = 0;
    assert(views(ws@).take(0) =~= Seq::<Seq<char>>::empty());
    assert(views(u@) =~= Seq::<Seq<char>>::empty());
    while i < ws.len()
        invariant
            i <= ws@.len(),
            views(u@) == distinct(views(ws@).take(i as int)),
        decreases ws@.len() - i,
    {
        let ghost s = views(ws@).take(i as int);
        let ghost prev = views(u@);
        assert(views(ws@).take(i + 1).drop_last() =~= s);
        assert(views(ws@).take(i + 1).last() == ws@[i as int]@);
        proof {
            lemma_distinct(s);
        }
        match find_word(&u, &ws[i]) {
            Some(j) => {
                assert(prev[j as int] == ws@[i as int]@);
                assert(prev.contains(ws@[i as int]@));
            },
            None => {
                assert(!prev.contains(ws@[i as int]@));
                u.push(copy_chars(&ws[i]));
                assert(views(u@) =~= prev.push(ws@[i as int]@));
            },
        }
        i += 1;
    }
    assert(views(ws@).take(ws@.len() as int) =~= views(ws@));
    proof {
        lemma_distinct(views(ws@));
    }
    u
}

/// The count of each of `unique` in the table `freq`, zero for a word it
/// does not list.
pub fn create_vector(unique: &Vec<Vec<char>>, freq: &WordFrequency) -> (v: Vec<usize>)
    requires
        freq.wf(),
    ensures
        v@.len() == unique@.len(),
        forall|i: int, k: int|
            0 <= i < unique@.len() && 0 <= k < freq.words@.len() && freq.words@[k]@
                == unique@[i]@ ==> v@[i] == freq.counts@[k],
        forall|i: int|
            0 <= i < unique@.len() && !views(freq.words@).contains(unique@[i]@) ==> v@[i] == 0,
{
    let mut v: Vec<usize> = Vec::new();
    let mut i: usize = 0;
    while i < unique.len()
        invariant
            freq.wf(),
            i <= unique@.len(),
            v@.len() == i,
            forall|a: int, k: int|
                0 <= a < i && 0 <= k < freq.words@.len() && freq.words@[k]@ == unique@[a]@
                    ==> v@[a] == freq.counts@[k],
            forall|a: int|
                0 <= a < i && !views(freq.words@).contains(unique@[a]@) ==> v@[a] == 0,
        decreases unique@.len() - i,
    {
        match find_word(&freq.words, &unique[i]) {
            Some(j) => {
                assert forall|k: int|
                    0 <= k < freq.words@.len() && freq.words@[k]@ == unique@[i as int]@ implies k
                    == j by {
                    assert(views(freq.words@)[k] == views(freq.words@)[j as int]);
                }
                assert(views(freq.words@)[j as int] == unique@[i as int]@);
                v.push(freq.counts[j]);
            },
            None => {
                assert forall|k: int| 0 <= k < views(freq.words@).len() implies views(
                    freq.words@,
                )[k] != unique@[i as int]@ by {
                    assert(views(freq.words@)[k] == freq.words@[k]@);
                }
                v.push(0);
            },
        }
        i += 1;
    }
    v
}

/// The word counts that the cosine similarity of two texts is computed from:
/// for each distinct word of either lowercased text (in the order of first
/// occurrence, the first text's words before the second's), how often it
/// occurs in the first text and in the second.
pub struct WordVectors {
    pub first: Vec<usize>,
    pub second: Vec<usize>,
}

/// The counts of a vector as integers.
pub open spec fn as_ints(v: Seq<usize>) -> Seq<int> {
    v.map_values(|x: usize| x as int)
}

impl View for WordVectors {
    type V = (Seq<int>, Seq<int>);

    open spec fn view(&self) -> (Seq<int>, Seq<int>) {
        (as_ints(self.first@), as_ints(self.second@))
    }
}

/// The words of a text as the similarity reads them: those of its lowercase form.
pub open spec fn lower_words(s: Seq<char>) -> Seq<Seq<char>> {
    words(lowercase(s))
}

/// The two count vectors of `a` and `b` over their common vocabulary.
pub open spec fn similarity_vectors(a: Seq<char>, b: Seq<char>) -> (Seq<int>, Seq<int>) {
    let u = distinct(lower_words(a) + lower_words(b));
    (count_vector(lower_words(a), u), count_vector(lower_words(b), u))
}

fn concat_words(a: &Vec<Vec<char>>, b: &Vec<Vec<char>>) -> (r: Vec<Vec<char>>)
    ensures
        views(r@) == views(a@) + views(b@),
{
    let mut r: Vec<Vec<char>> = Vec::new();
    let mut i: usize = 0;
    assert(views(r@) =~= views(a@).take(0));
    while i < a.len()
        invariant
            i <= a@.len(),
            views(r@) == views(a@).take(i as int),
        decreases a@.len() - i,
    {
        let ghost prev = views(r@);
        r.push(copy_chars(&a[i]));
        assert(views(r@) =~= prev.push(a@[i as int]@));
        assert(views(a@).take(i + 1) =~= views(a@).take(i as int).push(a@[i as int]@));
        i += 1;
    }
    assert(views(a@).take(a@.len() as int) =~= views(a@));
    let mut j: usize = 0;
    assert(views(r@) =~= views(a@) + views(b@).take(0));
    while j < b.len()
        invariant
            j <= b@.len(),
            views(r@) == views(a@) + views(b@).take(j as int),
        decreases b@.len() - j,
    {
        let ghost prev = views(r@);
        r.push(copy_chars(&b[j]));
        assert(views(r@) =~= prev.push(b@[j as int]@));
        assert(views(b@).take(j + 1) =~= views(b@).take(j as int).push(b@[j as int]@));
        assert(views(a@) + views(b@).take(j + 1) =~= (views(a@) + views(b@).take(j as int)).push(
            b@[j as int]@,
        ));
        j += 1;
    }
    assert(views(b@).take(b@.len() as int) =~= views(b@));
    r
}

proof fn lemma_vector_counts(
    v: Seq<usize>,
    f: WordFrequency,
    ws: Seq<Seq<char>>,
    unique: Seq<Seq<char>>,
)
    requires
        is_frequency_table(views(f.words@), f.counts@, ws),
        f.wf(),
        v.len() == unique.len(),
        forall|i: int, k: int|
            0 <= i < unique.len() && 0 <= k < f.words@.len() && f.words@[k]@ == unique[i] ==> v[i]
                == f.counts@[k],
        forall|i: int| 0 <= i < unique.len() && !views(f.words@).contains(unique[i]) ==> v[i] == 0,
    ensures
        as_ints(v) == count_vector(ws, unique),
{
    lemma_distinct(ws);
    assert forall|i: int| 0 <= i < unique.len() implies as_ints(v)[i] == count_vector(ws, unique)[i] by {
        lemma_occurrences(ws, unique[i]);
        if views(f.words@).contains(unique[i]) {
            let k = choose|k: int| 0 <= k < views(f.words@).len() && views(f.words@)[k] == unique[i];
            assert(f.words@[k]@ == unique[i]);
            assert(v[i] == f.counts@[k]);
        }
    }
    assert(as_ints(v) =~= count_vector(ws, unique));
}

proof fn lemma_vocabulary_covers(a: Seq<Seq<char>>, b: Seq<Seq<char>>)
    ensures
        distinct(a + b).no_duplicates(),
        forall|x: Seq<char>| a.contains(x) ==> distinct(a + b).contains(x),
        forall|x: Seq<char>| b.contains(x) ==> distinct(a + b).contains(x),
{
    lemma_distinct(a + b);
    assert forall|x: Seq<char>| a.contains(x) implies distinct(a + b).contains(x) by {
        let k = choose|k: int| 0 <= k < a.len() && a[k] == x;
        assert((a + b)[k] == x);
        assert((a + b).contains(x));
    }
    assert forall|x: Seq<char>| b.contains(x) implies distinct(a + b).contains(x) by {
        let k = choose|k: int| 0 <= k < b.len() && b[k] == x;
        assert((a + b)[a.len() + k] == x);
        assert((a + b).contains(x));
    }
}

/// The numbers the cosine similarity of two texts is computed from are counts
/// of equal word pairs: the dot product of the count vectors counts the pairs
/// of equal words between the texts, and each squared norm the pairs within
/// one text. So they do not depend on the order of the vocabulary, and
/// swapping the texts keeps the dot product and swaps the norms: the
/// similarity is symmetric.
pub proof fn lemma_similarity_symmetric(a: Seq<char>, b: Seq<char>)
    ensures
        dot(similarity_vectors(a, b).0, similarity_vectors(a, b).1) == equal_pairs(
            lower_words(a),
            lower_words(b),
        ),
        dot(similarity_vectors(a, b).0, similarity_vectors(a, b).0) == equal_pairs(
            lower_words(a),
            lower_words(a),
        ),
        dot(similarity_vectors(a, b).1, similarity_vectors(a, b).1) == equal_pairs(
            lower_words(b),
            lower_words(b),
        ),
        dot(similarity_vectors(b, a).0, similarity_vectors(b, a).1) == dot(
            similarity_vectors(a, b).0,
            similarity_vectors(a, b).1,
        ),
        dot(similarity_vectors(b, a).0, similarity_vectors(b, a).0) == dot(
            similarity_vectors(a, b).1,
            similarity_vectors(a, b).1,
        ),
        dot(similarity_vectors(b, a).1, similarity_vectors(b, a).1) == dot(
            similarity_vectors(a, b).0,
            similarity_vectors(a, b).0,
        ),
{
    let wa = lower_words(a);
    let wb = lower_words(b);
    lemma_vocabulary_covers(wa, wb);
    lemma_vocabulary_covers(wb, wa);
    let u = distinct(wa + wb);
    let v = distinct(wb + wa);
    lemma_dot_counts(wa, wb, u);
    lemma_dot_counts(wa, wa, u);
    lemma_dot_counts(wb, wb, u);
    lemma_dot_counts(wb, wa, v);
    lemma_dot_counts(wb, wb, v);
    lemma_dot_counts(wa, wa, v);
    lemma_equal_pairs_symmetric(wa, wb);
}

/// The words counted are exactly the whitespace-separated words of each
/// lowercased text, none left out and none added: the counts of the first
/// text add up to its number of words, and those of the second to its; the
/// vocabulary lists each word of either text once, and the entry of a word
/// holds how often it occurs in each text, whatever characters it is made of.
pub proof fn lemma_vectors_count_words(a: Seq<char>, b: Seq<char>)
    ensures
        ({
            let wa = words(lowercase(a));
            let wb = words(lowercase(b));
            let u = distinct(wa + wb);
            let (va, vb) = similarity_vectors(a, b);
            &&& total(va) == wa.len()
            &&& total(vb) == wb.len()
            &&& va.len() == u.len() && vb.len() == u.len()
            &&& u.no_duplicates()
            &&& forall|w: Seq<char>|
                wa.contains(w) || wb.contains(w) ==> exists|k: int|
                    0 <= k < u.len() && #[trigger] u[k] == w && va[k] == occurrences(wa, w) && vb[k]
                        == occurrences(wb, w)
        }),
{
    let wa = lower_words(a);
    let wb = lower_words(b);
    let u = distinct(wa + wb);
    lemma_vocabulary_covers(wa, wb);
    lemma_counts_total_over(wa, u);
    lemma_counts_total_over(wb, u);
    let (va, vb) = similarity_vectors(a, b);
    assert forall|w: Seq<char>| wa.contains(w) || wb.contains(w) implies exists|k: int|
        0 <= k < u.len() && #[trigger] u[k] == w && va[k] == occurrences(wa, w) && vb[k]
            == occurrences(wb, w) by {
        let k = choose|k: int| 0 <= k < u.len() && u[k] == w;
        assert(va[k] == occurrences(wa, u[k]));
        assert(vb[k] == occurrences(wb, u[k]));
    }
}

/// A text compared with itself gets two equal count vectors.
pub proof fn lemma_similarity_self(a: Seq<char>)
    ensures
        similarity_vectors(a, a).0 == similarity_vectors(a, a).1,
{
}

/// The integer part of the cosine similarity of two texts: the count vectors
/// of their lowercased words over their common vocabulary.
pub fn word_vectors(s1: &str, s2: &str) -> (v: WordVectors)
    ensures
        v@ == similarity_vectors(s1@, s2@),
        total(v@.0) == words(lowercase(s1@)).len(),
        total(v@.1) == words(lowercase(s2@)).len(),
{
    let l1 = to_lowercase(s1);
    let l2 = to_lowercase(s2);
    let words1 = split_whitespace(&chars_of(l1.as_str()));
    let words2 = split_whitespace(&chars_of(l2.as_str()));
    let all = concat_words(&words1, &words2);
    let unique = distinct_words(&all);
    let freq1 = word_frequency(&words1);
    let freq2 = word_frequency(&words2);
    let first = create_vector(&unique, &freq1);
    let second = create_vector(&unique, &freq2);
    proof {
        lemma_vector_counts(first@, freq1, views(words1@), views(unique@));
        lemma_vector_counts(second@, freq2, views(words2@), views(unique@));
        lemma_vectors_count_words(s1@, s2@);
    }
    WordVectors { first, second }
}

} // verus!
