//! Detecting and removing the separators that split a word into pieces.
use vstd::prelude::*;
use vstd::string::*;
use crate::counting::{
    count_vector, distinct, is_frequency_table, lemma_counts_total, lemma_distinct,
    lemma_filter_members, lemma_filter_take_empty, lemma_filter_take_step, lemma_occurrences,
    lemma_occurrences_filter, occurrences, total,
};
use crate::pattern::{
    escape, escaped, find_all, is_valid_regex, regex_matches, regex_replace_all, regex_split,
    regex_valid, replace_all, split, string_views,
};
use crate::text::{
    alphanumeric, chars_of, has_substring, is_alphanumeric, matches_at, occurs_at,
    split_whitespace, string_from_chars, views, words,
};
use super::similarity::as_ints;

verus! {

/// The characters of `s` that are not alphanumeric, in order.
pub open spec fn non_alphanumeric(s: Seq<char>) -> Seq<char> {
    s.filter(|c: char| !alphanumeric(c))
}

/// How often each distinct non-alphanumeric character occurs.
pub struct CharFrequency {
    pub chars: Vec<char>,
    pub counts: Vec<usize>,
}

impl CharFrequency {
    /// Each character is listed once, with one count.
    pub open spec fn wf(&self) -> bool {
        &&& self.chars@.no_duplicates()
        &&& self.counts@.len() == self.chars@.len()
    }
}

fn find_char(keys: &Vec<char>, c: char) -> (r: Option<usize>)
    ensures
        match r {
            Some(j) => j < keys@.len() && keys@[j as int] == c,
            None => !keys@.contains(c),
        },
{
    let mut j: usize = 0;
    while j < keys.len()
        invariant
            j <= keys@.len(),
            forall|k: int| 0 <= k < j ==> keys@[k] != c,
        decreases keys@.len() - j,
    {
        if keys[j] == c {
            return Some(j);
        }
        j += 1;
    }
    None
}

/// Counts the characters of `text` that are not alphanumeric: each distinct
/// one once, in the order of first occurrence, with the number of times it
/// occurs.
pub fn count_non_alphanumeric_chars(text: &str) -> (f: CharFrequency)
    ensures
        is_frequency_table(f.chars@, f.counts@, non_alphanumeric(text@)),
        f.wf(),
{
    let cs = chars_of(text);
    let ghost pred = |c: char| !alphanumeric(c);
    let mut keys: Vec<char> = Vec::new();
    let mut counts: Vec<usize> = Vec::new();
    let mut i: usize = 0;
    proof {
        lemma_filter_take_empty(cs@, pred);
    }
    while i < cs.len()
        invariant
            i <= cs@.len(),
            cs@ == text@,
            is_frequency_table(keys@, counts@, cs@.take(i as int).filter(pred)),
            cs@.take(i as int).filter(pred).len() <= i,
            pred == (|c: char| !alphanumeric(c)),
        decreases cs@.len() - i,
    {
        let c = cs[i];
        let ghost s = cs@.take(i as int).filter(pred);
        proof {
            lemma_filter_take_step(cs@, i as int, pred);
        }
        if !is_alphanumeric(c) {
            let ghost old_keys = keys@;
            proof {
                lemma_distinct(s);
                assert(s.push(c).drop_last() =~= s);
                assert(s.push(c).last() == c);
            }
            match find_char(&keys, c) {
                Some(j) => {
                    assert(old_keys.contains(c));
                    proof {
                        lemma_occurrences(s, c);
                    }
                    counts.set(j, counts[j] + 1);
                    assert forall|k: int| 0 <= k < keys@.len() implies counts@[k] == occurrences(
                        s.push(c),
                        #[trigger] keys@[k],
                    ) by {
                        if k != j {
                            assert(keys@[k] != keys@[j as int]);
                        }
                    }
                },
                None => {
                    proof {
                        lemma_occurrences(s, c);
                    }
                    keys.push(c);
                    counts.push(1);
                    assert forall|k: int| 0 <= k < keys@.len() implies counts@[k] == occurrences(
                        s.push(c),
                        #[trigger] keys@[k],
                    ) by {
                        if k < old_keys.len() {
                            assert(keys@[k] == old_keys[k]);
                        }
                    }
                },
            }
        }
        i += 1;
    }
    assert(cs@.take(cs@.len() as int) =~= cs@);
    proof {
        lemma_distinct(cs@.filter(pred));
    }
    CharFrequency { chars: keys, counts }
}

/// The least count a character needs to be taken for a separator: a
/// twentieth of the total, and at least one.
pub open spec fn frequency_threshold(total: int) -> int {
    if total / 20 >= 1 {
        total / 20
    } else {
        1
    }
}

/// The characters whose count reaches `threshold`, in table order.
pub open spec fn frequent_chars(chars: Seq<char>, counts: Seq<int>, threshold: int) -> Seq<char>
    decreases chars.len(),
{
    if chars.len() == 0 {
        seq![]
    } else {
        let rest = frequent_chars(chars.drop_last(), counts, threshold);
        if counts[chars.len() - 1] >= threshold {
            rest.push(chars.last())
        } else {
            rest
        }
    }
}

/// The characters frequent enough to be separators: those whose count is at
/// least a twentieth of all counted characters, and at least one.
pub fn identify_frequent_chars(freq: &CharFrequency) -> (r: Vec<char>)
    requires
        freq.wf(),
    ensures
        r@ == frequent_chars(
            freq.chars@,
            as_ints(freq.counts@),
            frequency_threshold(total(as_ints(freq.counts@))),
        ),
        r@.no_duplicates(),
{
    proof {
        lemma_frequent_chars(
            freq.chars@,
            as_ints(freq.counts@),
            frequency_threshold(total(as_ints(freq.counts@))),
        );
    }
    let n = freq.counts.len();
    let mut sum: u128 = 0;
    let mut i: usize = 0;
    while i < n
        invariant
            n == freq.counts@.len(),
            i <= n,
            sum == total(as_ints(freq.counts@).take(i as int)),
            sum <= i * 0xFFFF_FFFF_FFFF_FFFFu128,
        decreases n - i,
    {
        assert(as_ints(freq.counts@).take(i + 1).drop_last() =~= as_ints(freq.counts@).take(i as int));
        sum = sum + freq.counts[i] as u128;
        i += 1;
    }
    assert(as_ints(freq.counts@).take(n as int) =~= as_ints(freq.counts@));
    let threshold: u128 = if sum / 20 >= 1 {
        sum / 20
    } else {
        1
    };
    let mut r: Vec<char> = Vec::new();
    let mut j: usize = 0;
    assert(freq.chars@.take(0) =~= Seq::<char>::empty());
    while j < freq.chars.len()
        invariant
            freq.wf(),
            j <= freq.chars@.len(),
            threshold == frequency_threshold(total(as_ints(freq.counts@))),
            r@ == frequent_chars(freq.chars@.take(j as int), as_ints(freq.counts@), threshold as int),
        decreases freq.chars@.len() - j,
    {
        assert(freq.chars@.take(j + 1).drop_last() =~= freq.chars@.take(j as int));
        if freq.counts[j] as u128 >= threshold {
            r.push(freq.chars[j]);
        }
        j += 1;
    }
    assert(freq.chars@.take(freq.chars@.len() as int) =~= freq.chars@);
    r
}

/// The view of an optional string.
pub open spec fn opt_view(o: Option<String>) -> Option<Seq<char>> {
    match o {
        Some(s) => Some(s@),
        None => None,
    }
}

/// The verbose-mode regex text before the escaped separators: a run of ASCII
/// letters and digits, then the start of a separator class.
pub open spec fn token_head() -> Seq<char> {
    "(?x)\n        (?:\n            [a-zA-Z0-9]+\n            (?:["@
}

/// The verbose-mode regex text after the escaped separators: the rest of an
/// alternation of words joined by separators, or any run of non-whitespace.
pub open spec fn token_tail() -> Seq<char> {
    "]+[a-zA-Z0-9]+)+\n        )\n        |\n        (?:\n            \\S+\n        )"@
}

/// The regex that tokenizes a text whose separators are `seps`.
pub open spec fn token_pattern(seps: Seq<char>) -> Seq<char> {
    token_head() + escaped(seps) + token_tail()
}

/// The tokenizing regex that is used: whitespace runs when there are no
/// separators, else `token_pattern`, or non-whitespace runs where that is not
/// a valid regex.
pub open spec fn separator_regex(seps: Seq<char>) -> Seq<char> {
    if seps.len() == 0 {
        "\\s+"@
    } else if regex_valid(token_pattern(seps)) {
        token_pattern(seps)
    } else {
        "\\S+"@
    }
}

/// The regex text that splits a text into tokens, given its separator characters.
pub fn create_regex_pattern(separators: &Vec<char>) -> (r: String)
    ensures
        r@ == separator_regex(separators@),
        regex_valid(r@),
{
    if separators.len() == 0 {
        if is_valid_regex("\\s+") {
            return String::from_str("\\s+");
        } else {
            return String::from_str("");
        }
    }
    let seps = string_from_chars(separators.as_slice());
    let sep_pattern = escape(seps.as_str());
    let mut pattern = String::from_str("(?x)\n        (?:\n            [a-zA-Z0-9]+\n            (?:[");
    pattern.append(sep_pattern.as_str());
    pattern.append("]+[a-zA-Z0-9]+)+\n        )\n        |\n        (?:\n            \\S+\n        )");
    if is_valid_regex(pattern.as_str()) {
        pattern
    } else {
        let fallback = String::from_str("\\S+");
        let valid = is_valid_regex(fallback.as_str());
        assert(valid);
        fallback
    }
}

/// The texts of the matches of `regex` in `text`.
pub fn split_with_regex(text: &str, regex: &str) -> (r: Vec<String>)
    requires
        regex_valid(regex@),
    ensures
        string_views(r@) == regex_matches(regex@, text@),
        forall|i: int| 0 <= i < r@.len() ==> has_substring(text@, #[trigger] r@[i]@),
{
    find_all(regex, text)
}

/// No character of `w` is alphanumeric.
pub open spec fn no_alphanumeric(w: Seq<char>) -> bool {
    forall|i: int| 0 <= i < w.len() ==> !alphanumeric(#[trigger] w[i])
}

fn has_alphanumeric(w: &str) -> (r: bool)
    ensures
        r == !no_alphanumeric(w@),
{
    let cs = chars_of(w);
    let mut i: usize = 0;
    while i < cs.len()
        invariant
            i <= cs@.len(),
            cs@ == w@,
            forall|k: int| 0 <= k < i ==> !alphanumeric(#[trigger] cs@[k]),
        decreases cs@.len() - i,
    {
        if is_alphanumeric(cs[i]) {
            return true;
        }
        i += 1;
    }
    false
}

/// The tokens made of separators only: those without an alphanumeric character.
pub fn extract_separator_patterns(words_and_seps: &Vec<String>) -> (r: Vec<String>)
    ensures
        string_views(r@) == string_views(words_and_seps@).filter(|w: Seq<char>| no_alphanumeric(w)),
{
    let ghost pred = |w: Seq<char>| no_alphanumeric(w);
    let ghost all = string_views(words_and_seps@);
    let mut r: Vec<String> = Vec::new();
    let mut i: usize = 0;
    proof {
        lemma_filter_take_empty(all, pred);
    }
    assert(string_views(r@) =~= Seq::<Seq<char>>::empty());
    while i < words_and_seps.len()
        invariant
            i <= words_and_seps@.len(),
            all == string_views(words_and_seps@),
            pred == (|w: Seq<char>| no_alphanumeric(w)),
            string_views(r@) == all.take(i as int).filter(pred),
        decreases words_and_seps@.len() - i,
    {
        let w = &words_and_seps[i];
        proof {
            lemma_filter_take_step(all, i as int, pred);
        }
        if !has_alphanumeric(w.as_str()) {
            let ghost prev = string_views(r@);
            r.push(w.clone());
            assert(string_views(r@) =~= prev.push(w@));
        }
        i += 1;
    }
    assert(all.take(all.len() as int) =~= all);
    r
}

/// Index `k` holds a most frequent element of `ps`, and no later element is
/// as frequent (so the last of the most frequent ones).
pub open spec fn is_best_at(ps: Seq<Seq<char>>, k: int) -> bool {
    &&& 0 <= k < ps.len()
    &&& forall|j: int| 0 <= j < ps.len() ==> occurrences(ps, #[trigger] ps[j]) <= occurrences(ps, ps[k])
    &&& forall|j: int| k < j < ps.len() ==> occurrences(ps, #[trigger] ps[j]) < occurrences(ps, ps[k])
}

/// The last of the most frequent elements of `ps`, if it has any.
pub open spec fn best_pattern(ps: Seq<Seq<char>>) -> Option<Seq<char>> {
    if ps.len() == 0 {
        None
    } else {
        Some(ps[choose|k: int| is_best_at(ps, k)])
    }
}

/// At most one index is the last most frequent one.
pub proof fn lemma_best_unique(ps: Seq<Seq<char>>, k1: int, k2: int)
    requires
        is_best_at(ps, k1),
        is_best_at(ps, k2),
    ensures
        k1 == k2,
{
    if k1 < k2 {
        assert(occurrences(ps, ps[k2]) < occurrences(ps, ps[k1]));
        assert(occurrences(ps, ps[k1]) <= occurrences(ps, ps[k2]));
    } else if k2 < k1 {
        assert(occurrences(ps, ps[k1]) < occurrences(ps, ps[k2]));
        assert(occurrences(ps, ps[k2]) <= occurrences(ps, ps[k1]));
    }
}

fn count_equal(ps: &Vec<String>, x: &String) -> (n: usize)
    ensures
        n == occurrences(string_views(ps@), x@),
{
    let ghost all = string_views(ps@);
    let mut n: usize = 0;
    let mut i: usize = 0;
    assert(all.take(0) =~= Seq::<Seq<char>>::empty());
    while i < ps.len()
        invariant
            i <= ps@.len(),
            all == string_views(ps@),
            n == occurrences(all.take(i as int), x@),
            n <= i,
        decreases ps@.len() - i,
    {
        assert(all.take(i + 1).drop_last() =~= all.take(i as int));
        assert(all.take(i + 1).last() == ps@[i as int]@);
        if ps[i] == *x {
            n += 1;
        }
        i += 1;
    }
    assert(all.take(ps@.len() as int) =~= all);
    n
}

/// The separator token that occurs most often; of equally frequent ones, the
/// last. None for no tokens.
pub fn identify_best_pattern(patterns: &Vec<String>) -> (r: Option<String>)
    ensures
        opt_view(r) == best_pattern(string_views(patterns@)),
{
    let ghost ps = string_views(patterns@);
    if patterns.len() == 0 {
        return None;
    }
    let mut best: usize = 0;
    let mut best_count: usize = count_equal(patterns, &patterns[0]);
    let mut i: usize = 1;
    while i < patterns.len()
        invariant
            ps == string_views(patterns@),
            1 <= i <= patterns@.len(),
            best < i,
            best_count == occurrences(ps, ps[best as int]),
            forall|j: int| 0 <= j < i ==> occurrences(ps, #[trigger] ps[j]) <= best_count,
            forall|j: int| best < j < i ==> occurrences(ps, #[trigger] ps[j]) < best_count,
        decreases patterns@.len() - i,
    {
        let c = count_equal(patterns, &patterns[i]);
        assert(ps[i as int] == patterns@[i as int]@);
        if c >= best_count {
            best = i;
            best_count = c;
        }
        i += 1;
    }
    assert(is_best_at(ps, best as int));
    proof {
        let k = choose|k: int| is_best_at(ps, k);
        lemma_best_unique(ps, k, best as int);
    }
    Some(patterns[best].clone())
}

/// The regex that matches runs of the characters of `sep`.
pub open spec fn class_pattern(sep: Seq<char>) -> Seq<char> {
    "["@ + escaped(sep) + "]+"@
}

/// The regex used to remove separators: `class_pattern`, or the empty regex
/// where that is not valid.
pub open spec fn removal_regex(sep: Seq<char>) -> Seq<char> {
    if regex_valid(class_pattern(sep)) {
        class_pattern(sep)
    } else {
        ""@
    }
}

/// `text` without the characters of `separator_pattern`: what replacing every
/// run of them (the matches of `class_pattern`) by nothing leaves. With an
/// empty pattern, or where the class is not a valid regex and the empty regex
/// takes its place, the text stays as it is.
pub open spec fn removed_separators(text: Seq<char>, separator_pattern: Seq<char>) -> Seq<char> {
    if separator_pattern.len() > 0 && regex_valid(class_pattern(separator_pattern)) {
        text.filter(|c: char| !separator_pattern.contains(c))
    } else {
        text
    }
}

/// Removing separators takes out exactly the characters that occur in the
/// pattern, each of them wherever it stands, and keeps every other character
/// in order: a character outside the pattern is never removed.
pub proof fn lemma_removed_separators_exact(text: Seq<char>, p: Seq<char>)
    requires
        p.len() > 0,
        regex_valid("["@ + escaped(p) + "]+"@),
    ensures
        removed_separators(text, p) == text.filter(|c: char| !p.contains(c)),
        forall|c: char| #[trigger] removed_separators(text, p).contains(c) <==> (text.contains(c) && !p.contains(c)),
{
    let keep = |c: char| !p.contains(c);
    lemma_filter_members(text, keep);
    assert forall|c: char| text.contains(c) && !p.contains(c) implies #[trigger] text.filter(keep).contains(c) by {
        let k = choose|k: int| 0 <= k < text.len() && text[k] == c;
        text.lemma_filter_contains(keep, k);
    }
    assert forall|c: char| #[trigger] text.filter(keep).contains(c) implies text.contains(c) && !p.contains(c) by {
        let k = choose|k: int| 0 <= k < text.filter(keep).len() && text.filter(keep)[k] == c;
        assert(keep(text.filter(keep)[k]));
    }
}

/// Removes from `text` every character that occurs in `separator_pattern`,
/// by replacing runs of them with nothing; an empty pattern leaves `text` as it is.
pub fn removesep(text: &str, separator_pattern: &str) -> (r: String)
    ensures
        r@ == removed_separators(text@, separator_pattern@),
        separator_pattern@.len() > 0 && regex_valid(class_pattern(separator_pattern@)) ==> r@
            == text@.filter(|c: char| !separator_pattern@.contains(c)),
        separator_pattern@.len() == 0 ==> r@ == text@,
{
    if separator_pattern.is_empty() {
        return String::from_str(text);
    }
    let sep_pattern = escape(separator_pattern);
    let mut class = String::from_str("[");
    class.append(sep_pattern.as_str());
    class.append("]+");
    proof {
        reveal_strlit("");
    }
    if is_valid_regex(class.as_str()) {
        assert(class@ == class_pattern(separator_pattern@));
        replace_all(class.as_str(), text, "")
    } else {
        let empty = String::from_str("");
        let valid = is_valid_regex(empty.as_str());
        assert(valid);
        assert(empty@ == removal_regex(separator_pattern@));
        replace_all(empty.as_str(), text, "")
    }
}

/// What `str::replace(pat, "")` makes of `s`: the occurrences of `pat`,
/// found from the left without overlap, removed.
pub open spec fn without(s: Seq<char>, pat: Seq<char>) -> Seq<char>
    decreases s.len(),
{
    if pat.len() == 0 || s.len() < pat.len() {
        s
    } else if s.take(pat.len() as int) == pat {
        without(s.skip(pat.len() as int), pat)
    } else {
        seq![s[0]] + without(s.drop_first(), pat)
    }
}

/// Removing a pattern that does not occur leaves the text as it is.
pub proof fn lemma_without_absent(s: Seq<char>, pat: Seq<char>)
    requires
        !has_substring(s, pat),
    ensures
        without(s, pat) == s,
    decreases s.len(),
{
    if pat.len() == 0 || s.len() < pat.len() {
    } else {
        assert(s.subrange(0, pat.len() as int) =~= s.take(pat.len() as int));
        assert(!occurs_at(s, pat, 0));
        let t = s.drop_first();
        assert(!has_substring(t, pat)) by {
            if has_substring(t, pat) {
                let i = choose|i: int| occurs_at(t, pat, i);
                assert(s.subrange(i + 1, i + 1 + pat.len()) =~= t.subrange(i, i + pat.len()));
                assert(occurs_at(s, pat, i + 1));
            }
        }
        lemma_without_absent(t, pat);
        assert(seq![s[0]] + t =~= s);
    }
}

/// `str::replace(pat, "")`.
pub fn remove_all(s: &str, pat: &str) -> (r: String)
    ensures
        r@ == without(s@, pat@),
{
    let cs = chars_of(s);
    let ps = chars_of(pat);
    if ps.len() == 0 {
        return String::from_str(s);
    }
    let m = ps.len();
    let mut out: Vec<char> = Vec::new();
    let mut i: usize = 0;
    assert(cs@.skip(0) =~= cs@);
    while i < cs.len()
        invariant
            cs@ == s@,
            ps@ == pat@,
            m == ps@.len(),
            m > 0,
            i <= cs@.len(),
            without(cs@, ps@) == out@ + without(cs@.skip(i as int), ps@),
        decreases cs@.len() - i,
    {
        let ghost rest = cs@.skip(i as int);
        if m <= cs.len() - i && matches_at(&cs, &ps, i) {
            assert(rest.take(m as int) =~= cs@.subrange(i as int, i + m));
            assert(rest.skip(m as int) =~= cs@.skip(i + m));
            i += m;
        } else {
            assert(rest.drop_first() =~= cs@.skip(i + 1));
            if m <= cs.len() - i {
                assert(rest.take(m as int) =~= cs@.subrange(i as int, i + m));
            } else {
                assert(rest.drop_first().len() < m);
                assert(rest =~= seq![rest[0]] + rest.drop_first());
            }
            let ghost prev = out@;
            out.push(cs[i]);
            assert(out@ + without(cs@.skip(i + 1), ps@) =~= prev + (seq![rest[0]] + without(
                rest.drop_first(),
                ps@,
            )));
            i += 1;
        }
    }
    assert(cs@.skip(cs@.len() as int) =~= Seq::<char>::empty());
    assert(out@ + Seq::<char>::empty() =~= out@);
    string_from_chars(out.as_slice())
}

/// The regex that splits a text at separators (given escaped), at whitespace,
/// or at separators next to whitespace.
pub open spec fn word_split_pattern(esc: Seq<char>) -> Seq<char> {
    "(?:["@ + esc + "]|["@ + esc + "]+\\s+["@ + esc + "]+|\\s+["@ + esc + "]+|["@ + esc
        + "]+\\s+|\\s+)"@
}

/// The pieces cleaned of `esc` (removed as `str::replace` does), the empty
/// ones dropped.
pub open spec fn cleaned_pieces(pieces: Seq<Seq<char>>, esc: Seq<char>) -> Seq<Seq<char>>
    decreases pieces.len(),
{
    if pieces.len() == 0 {
        seq![]
    } else {
        let rest = cleaned_pieces(pieces.drop_last(), esc);
        let w = without(pieces.last(), esc);
        if w.len() > 0 {
            rest.push(w)
        } else {
            rest
        }
    }
}

/// The words of `text` between separators: with no separator pattern its
/// whitespace-separated words, else the non-empty pieces of the split at
/// `word_split_pattern`, each with the escaped pattern text removed.
pub open spec fn separated_words(text: Seq<char>, separator_pattern: Seq<char>) -> Seq<Seq<char>> {
    if separator_pattern.len() == 0 {
        words(text)
    } else {
        let esc = escaped(separator_pattern);
        cleaned_pieces(regex_split(word_split_pattern(esc), text), esc)
    }
}

/// The regex texts the word split needs are valid.
pub open spec fn split_regex_ok(separator_pattern: Seq<char>) -> bool {
    separator_pattern.len() == 0 || regex_valid(word_split_pattern(escaped(separator_pattern)))
}

fn word_split_regex(esc: &str) -> (r: String)
    ensures
        r@ == word_split_pattern(esc@),
{
    let mut p = String::from_str("(?:[");
    p.append(esc);
    p.append("]|[");
    p.append(esc);
    p.append("]+\\s+[");
    p.append(esc);
    p.append("]+|\\s+[");
    p.append(esc);
    p.append("]+|[");
    p.append(esc);
    p.append("]+\\s+|\\s+)");
    p
}

fn strings_from_words(ws: &Vec<Vec<char>>) -> (r: Vec<String>)
    ensures
        string_views(r@) == views(ws@),
{
    let mut r: Vec<String> = Vec::new();
    let mut i: usize = 0;
    while i < ws.len()
        invariant
            i <= ws@.len(),
            string_views(r@) == views(ws@).take(i as int),
        decreases ws@.len() - i,
    {
        let ghost prev = string_views(r@);
        r.push(string_from_chars(ws[i].as_slice()));
        assert(string_views(r@) =~= prev.push(ws@[i as int]@));
        assert(views(ws@).take(i + 1) =~= views(ws@).take(i as int).push(ws@[i as int]@));
        i += 1;
    }
    assert(views(ws@).take(ws@.len() as int) =~= views(ws@));
    r
}

/// The words of `text` between the separators of `separator_pattern`.
pub fn extract_words(text: &str, separator_pattern: &str) -> (r: Vec<String>)
    requires
        split_regex_ok(separator_pattern@),
    ensures
        string_views(r@) == separated_words(text@, separator_pattern@),
{
    if separator_pattern.is_empty() {
        let ws = split_whitespace(&chars_of(text));
        return strings_from_words(&ws);
    }
    let sep_pattern = escape(separator_pattern);
    let regex = word_split_regex(sep_pattern.as_str());
    let pieces = split(regex.as_str(), text);
    let ghost ps = string_views(pieces@);
    let mut r: Vec<String> = Vec::new();
    let mut i: usize = 0;
    assert(ps.take(0) =~= Seq::<Seq<char>>::empty());
    assert(string_views(r@) =~= Seq::<Seq<char>>::empty());
    while i < pieces.len()
        invariant
            i <= pieces@.len(),
            ps == string_views(pieces@),
            string_views(r@) == cleaned_pieces(ps.take(i as int), sep_pattern@),
        decreases pieces@.len() - i,
    {
        assert(ps.take(i + 1).drop_last() =~= ps.take(i as int));
        assert(ps.take(i + 1).last() == pieces@[i as int]@);
        let w = remove_all(pieces[i].as_str(), sep_pattern.as_str());
        if !w.as_str().is_empty() {
            let ghost prev = string_views(r@);
            r.push(w);
            assert(string_views(r@) =~= prev.push(w@));
        }
        i += 1;
    }
    assert(ps.take(ps.len() as int) =~= ps);
    r
}

/// Whether `text` splits at `pattern` into more than one word, none of them empty.
pub fn validate_pattern(pattern: &str, text: &str) -> (r: bool)
    requires
        split_regex_ok(pattern@),
    ensures
        r == (separated_words(text@, pattern@).len() > 1 && forall|i: int|
            0 <= i < separated_words(text@, pattern@).len() ==> #[trigger] separated_words(
                text@,
                pattern@,
            )[i].len() > 0),
{
    let ws = extract_words(text, pattern);
    let ghost sw = separated_words(text@, pattern@);
    assert(sw.len() == ws@.len());
    if ws.len() <= 1 {
        return false;
    }
    let mut i: usize = 0;
    while i < ws.len()
        invariant
            i <= ws@.len(),
            sw == string_views(ws@),
            sw == separated_words(text@, pattern@),
            ws@.len() > 1,
            forall|k: int| 0 <= k < i ==> #[trigger] sw[k].len() > 0,
        decreases ws@.len() - i,
    {
        assert(sw[i as int] == ws@[i as int]@);
        if ws[i].as_str().is_empty() {
            assert(sw[i as int].len() == 0);
            return false;
        }
        i += 1;
    }
    true
}

/// The counts of the distinct elements of `s`, in the order of first occurrence.
pub open spec fn char_counts(s: Seq<char>) -> Seq<int> {
    count_vector(s, distinct(s))
}

/// The separator characters of `text`: its non-alphanumeric characters
/// frequent enough to reach the threshold.
pub open spec fn separator_chars(text: Seq<char>) -> Seq<char> {
    let na = non_alphanumeric(text);
    frequent_chars(distinct(na), char_counts(na), frequency_threshold(total(char_counts(na))))
}

/// The tokens of `text` made of separators only.
pub open spec fn separator_tokens(text: Seq<char>) -> Seq<Seq<char>> {
    regex_matches(separator_regex(separator_chars(text)), text).filter(
        |w: Seq<char>| no_alphanumeric(w),
    )
}

/// The separator pattern of `text`: its most frequent separator-only token.
pub open spec fn detected_pattern(text: Seq<char>) -> Option<Seq<char>> {
    best_pattern(separator_tokens(text))
}

proof fn lemma_frequent_chars(chars: Seq<char>, counts: Seq<int>, threshold: int)
    ensures
        forall|c: char| frequent_chars(chars, counts, threshold).contains(c) ==> chars.contains(c),
        chars.no_duplicates() ==> frequent_chars(chars, counts, threshold).no_duplicates(),
    decreases chars.len(),
{
    if chars.len() > 0 {
        let p = chars.drop_last();
        lemma_frequent_chars(p, counts, threshold);
        let rest = frequent_chars(p, counts, threshold);
        assert forall|c: char| frequent_chars(chars, counts, threshold).contains(c) implies chars.contains(c) by {
            if rest.contains(c) {
                assert(p.contains(c));
                let k = choose|k: int| 0 <= k < p.len() && p[k] == c;
                assert(chars[k] == p[k]);
                assert(chars.contains(c));
            } else {
                assert(c == chars.last());
                assert(chars[chars.len() - 1] == c);
            }
        }
        if chars.no_duplicates() {
            assert(p.no_duplicates()) by {
                assert forall|i: int, j: int| 0 <= i < p.len() && 0 <= j < p.len() && i != j implies p[i] != p[j] by {
                    assert(chars[i] == p[i] && chars[j] == p[j]);
                }
            }
            if counts[chars.len() - 1] >= threshold {
                assert(!rest.contains(chars.last())) by {
                    if rest.contains(chars.last()) {
                        assert(p.contains(chars.last()));
                        let k = choose|k: int| 0 <= k < p.len() && p[k] == chars.last();
                        assert(chars[k] == p[k]);
                        assert(chars[k] == chars[chars.len() - 1]);
                    }
                }
                let e = rest.push(chars.last());
                assert forall|i: int, j: int| 0 <= i < e.len() && 0 <= j < e.len() && i != j implies e[i] != e[j] by {
                    if i < rest.len() && j < rest.len() {
                        assert(e[i] == rest[i] && e[j] == rest[j]);
                    } else if i < rest.len() {
                        assert(rest.contains(e[i]));
                    } else {
                        assert(rest.contains(e[j]));
                    }
                }
            }
        }
    }
}

/// The separators of a text are non-alphanumeric characters that occur in
/// it, each listed once, and the least count that makes a separator is a
/// twentieth of the number of non-alphanumeric characters, and at least one.
pub proof fn lemma_separator_chars(text: Seq<char>)
    ensures
        separator_chars(text) == frequent_chars(
            distinct(non_alphanumeric(text)),
            char_counts(non_alphanumeric(text)),
            frequency_threshold(non_alphanumeric(text).len() as int),
        ),
        separator_chars(text).no_duplicates(),
        forall|c: char|
            separator_chars(text).contains(c) ==> !alphanumeric(c) && text.contains(c),
{
    let na = non_alphanumeric(text);
    lemma_counts_total(na);
    lemma_distinct(na);
    lemma_frequent_chars(
        distinct(na),
        char_counts(na),
        frequency_threshold(total(char_counts(na))),
    );
    let pred = |c: char| !alphanumeric(c);
    lemma_filter_members(text, pred);
    assert forall|c: char| separator_chars(text).contains(c) implies !alphanumeric(c) && text.contains(c) by {
        assert(distinct(na).contains(c));
        assert(na.contains(c));
        let k = choose|k: int| 0 <= k < na.len() && na[k] == c;
        assert(pred(na[k]));
    }
}

proof fn lemma_frequent_chars_member(chars: Seq<char>, counts: Seq<int>, threshold: int, c: char)
    ensures
        frequent_chars(chars, counts, threshold).contains(c) <==> exists|k: int|
            0 <= k < chars.len() && #[trigger] chars[k] == c && counts[k] >= threshold,
    decreases chars.len(),
{
    if chars.len() > 0 {
        let n = chars.len() - 1;
        let p = chars.drop_last();
        lemma_frequent_chars_member(p, counts, threshold, c);
        let rest = frequent_chars(p, counts, threshold);
        if exists|k: int| 0 <= k < p.len() && #[trigger] p[k] == c && counts[k] >= threshold {
            let k = choose|k: int| 0 <= k < p.len() && #[trigger] p[k] == c && counts[k] >= threshold;
            assert(chars[k] == c);
        }
        if exists|k: int| 0 <= k < chars.len() && #[trigger] chars[k] == c && counts[k] >= threshold {
            let k = choose|k: int|
                0 <= k < chars.len() && #[trigger] chars[k] == c && counts[k] >= threshold;
            if k < n {
                assert(p[k] == c);
            } else {
                assert(chars.last() == c);
                assert(rest.push(chars.last())[rest.len() as int] == c);
            }
        }
        if counts[n] >= threshold {
            let e = rest.push(chars.last());
            if e.contains(c) {
                let j = choose|j: int| 0 <= j < e.len() && e[j] == c;
                if j < rest.len() {
                    assert(rest[j] == c);
                    assert(rest.contains(c));
                } else {
                    assert(chars[n] == c);
                }
            }
            if rest.contains(c) {
                let j = choose|j: int| 0 <= j < rest.len() && rest[j] == c;
                assert(e[j] == c);
            }
        }
    }
}

/// A character is taken for a separator exactly when it is not
/// alphanumeric and occurs in the text at least a twentieth as often as all
/// the non-alphanumeric characters of the text together, and at least once.
pub proof fn lemma_separator_chars_exact(text: Seq<char>, c: char)
    ensures
        ({
            let m = text.filter(|x: char| !alphanumeric(x)).len();
            let threshold = if m / 20 >= 1 {
                m / 20
            } else {
                1
            };
            separator_chars(text).contains(c) <==> (!alphanumeric(c) && occurrences(text, c)
                >= threshold)
        }),
{
    let na = non_alphanumeric(text);
    let pred = |x: char| !alphanumeric(x);
    let th = frequency_threshold(na.len() as int);
    lemma_separator_chars(text);
    lemma_distinct(na);
    let u = distinct(na);
    lemma_frequent_chars_member(u, char_counts(na), th, c);
    if !alphanumeric(c) {
        lemma_occurrences_filter(text, pred, c);
        lemma_occurrences(na, c);
        if occurrences(text, c) >= th {
            assert(na.contains(c));
            let k = choose|k: int| 0 <= k < u.len() && u[k] == c;
            assert(char_counts(na)[k] == occurrences(na, u[k]));
        }
        if separator_chars(text).contains(c) {
            let k = choose|k: int| 0 <= k < u.len() && #[trigger] u[k] == c && char_counts(na)[k] >= th;
            assert(char_counts(na)[k] == occurrences(na, u[k]));
        }
    } else {
        if separator_chars(text).contains(c) {
            let k = choose|k: int| 0 <= k < u.len() && #[trigger] u[k] == c && char_counts(na)[k] >= th;
            assert(u.contains(c));
            assert(na.contains(c));
            lemma_filter_members(text, pred);
            let j = choose|j: int| 0 <= j < na.len() && na[j] == c;
            assert(pred(na[j]));
        }
    }
}

/// Index of the last most frequent element among the first `n` of `ps`.
pub open spec fn best_upto(ps: Seq<Seq<char>>, n: int) -> int
    decreases n,
{
    if n <= 1 {
        0
    } else {
        let b = best_upto(ps, n - 1);
        if occurrences(ps, ps[n - 1]) >= occurrences(ps, ps[b]) {
            n - 1
        } else {
            b
        }
    }
}

proof fn lemma_best_upto(ps: Seq<Seq<char>>, n: int)
    requires
        1 <= n <= ps.len(),
    ensures
        0 <= best_upto(ps, n) < n,
        forall|j: int| 0 <= j < n ==> occurrences(ps, #[trigger] ps[j]) <= occurrences(ps, ps[best_upto(ps, n)]),
        forall|j: int| best_upto(ps, n) < j < n ==> occurrences(ps, #[trigger] ps[j]) < occurrences(ps, ps[best_upto(ps, n)]),
    decreases n,
{
    if n > 1 {
        lemma_best_upto(ps, n - 1);
    }
}

/// A non-empty sequence has a last most frequent element; it is the one
/// `best_pattern` picks, and no element occurs more often.
pub proof fn lemma_best_pattern(ps: Seq<Seq<char>>)
    ensures
        ps.len() > 0 ==> is_best_at(ps, best_upto(ps, ps.len() as int)),
        best_pattern(ps) matches Some(p) ==> ps.contains(p) && forall|j: int|
            0 <= j < ps.len() ==> occurrences(ps, #[trigger] ps[j]) <= occurrences(ps, p),
{
    if ps.len() > 0 {
        lemma_best_upto(ps, ps.len() as int);
        let b = best_upto(ps, ps.len() as int);
        assert(is_best_at(ps, b));
        let k = choose|k: int| is_best_at(ps, k);
        lemma_best_unique(ps, k, b);
        assert(ps[b] == best_pattern(ps).unwrap());
    }
}

/// A detected separator pattern is one of the separator-only tokens of the
/// text, so it holds no alphanumeric character, and no token occurs more often.
pub proof fn lemma_detected_pattern(text: Seq<char>)
    ensures
        detected_pattern(text) matches Some(p) ==> {
            &&& separator_tokens(text).contains(p)
            &&& no_alphanumeric(p)
            &&& forall|j: int|
                0 <= j < separator_tokens(text).len() ==> occurrences(
                    separator_tokens(text),
                    #[trigger] separator_tokens(text)[j],
                ) <= occurrences(separator_tokens(text), p)
        },
{
    let ts = separator_tokens(text);
    lemma_best_pattern(ts);
    let pred = |w: Seq<char>| no_alphanumeric(w);
    lemma_filter_members(regex_matches(separator_regex(separator_chars(text)), text), pred);
    if detected_pattern(text) is Some {
        let p = detected_pattern(text).unwrap();
        let k = choose|k: int| 0 <= k < ts.len() && ts[k] == p;
        assert(pred(ts[k]));
    }
}

/// Detects how words are separated in `text`: the separator-only token that
/// occurs most often, None if there is none.
pub fn detect_septor_pattern(text: &str) -> (r: Option<String>)
    ensures
        opt_view(r) == detected_pattern(text@),
        r matches Some(p) ==> has_substring(text@, p@) && no_alphanumeric(p@),
{
    let char_freq = count_non_alphanumeric_chars(text);
    let ghost na = non_alphanumeric(text@);
    assert(as_ints(char_freq.counts@) =~= char_counts(na));
    let potential_separators = identify_frequent_chars(&char_freq);
    let regex_pattern = create_regex_pattern(&potential_separators);
    let potential_words_and_seps = split_with_regex(text, regex_pattern.as_str());
    let separator_patterns = extract_separator_patterns(&potential_words_and_seps);
    let best_pattern = match identify_best_pattern(&separator_patterns) {
        Some(p) => p,
        None => {
            return None;
        },
    };
    proof {
        let parts = string_views(potential_words_and_seps@);
        let pred = |w: Seq<char>| no_alphanumeric(w);
        let tokens = parts.filter(pred);
        lemma_best_pattern(tokens);
        lemma_filter_members(parts, pred);
        let k = choose|k: int| 0 <= k < tokens.len() && tokens[k] == best_pattern@;
        assert(pred(tokens[k]));
        let m = choose|m: int| 0 <= m < parts.len() && parts[m] == tokens[k];
        assert(parts[m] == potential_words_and_seps@[m]@);
    }
    let check = if best_pattern.as_str().is_empty() {
        true
    } else {
        let esc = escape(best_pattern.as_str());
        let regex = word_split_regex(esc.as_str());
        is_valid_regex(regex.as_str())
    };
    if check {
        // Whether or not the pattern splits the text into several words, it
        // is the pattern detected.
        if validate_pattern(best_pattern.as_str(), text) {
            Some(best_pattern)
        } else {
            Some(best_pattern)
        }
    } else {
        Some(best_pattern)
    }
}

} // verus!
