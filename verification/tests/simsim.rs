use pregate::procl::simsim::{
    checkit, comors, compseps, count_non_alphanumeric_chars, create_regex_pattern, create_vector,
    detect_septor_pattern, distinct_words, extract_separator_patterns, extract_words,
    identify_best_pattern, identify_frequent_chars, is_space_delimited, remove_all,
    remove_separators, removesep, split_with_regex, validate_pattern, word_frequency,
    word_vectors, CharFrequency, WordVectors,
};
use pregate::text::{chars_of, contains, split_whitespace};

fn w(s: &str) -> Vec<char> {
    s.chars().collect()
}

fn strings(v: &[&str]) -> Vec<String> {
    v.iter().map(|s| s.to_string()).collect()
}

fn below_half(v: &WordVectors) -> bool {
    let dot: f64 = v.first.iter().zip(v.second.iter()).map(|(a, b)| (*a as f64) * (*b as f64)).sum();
    let n1: f64 = v.first.iter().map(|a| (*a as f64) * (*a as f64)).sum();
    let n2: f64 = v.second.iter().map(|b| (*b as f64) * (*b as f64)).sum();
    dot / (n1.sqrt() * n2.sqrt()) < 0.5
}

#[test]
fn contains_finds_substrings() {
    assert!(contains("hello world", "lo w"));
    assert!(contains("abc", ""));
    assert!(!contains("ab", "abc"));
    assert!(!contains("abc", "ac"));
    assert!(contains("héllo", "él"));
}

#[test]
fn chars_of_keeps_order() {
    assert_eq!(chars_of("aé c"), vec!['a', 'é', ' ', 'c']);
}

#[test]
fn split_whitespace_yields_runs() {
    let ws = split_whitespace(&w("  a bc\td\n "));
    assert_eq!(ws, vec![w("a"), w("bc"), w("d")]);
    assert!(split_whitespace(&w("   ")).is_empty());
}

#[test]
fn word_frequency_counts_in_first_occurrence_order() {
    let f = word_frequency(&vec![w("a"), w("b"), w("a"), w("c"), w("a")]);
    assert_eq!(f.words, vec![w("a"), w("b"), w("c")]);
    assert_eq!(f.counts, vec![3, 1, 1]);
}

#[test]
fn distinct_words_keep_first_occurrences() {
    assert_eq!(distinct_words(&vec![w("b"), w("a"), w("b")]), vec![w("b"), w("a")]);
}

#[test]
fn create_vector_looks_up_counts() {
    let f = word_frequency(&vec![w("x"), w("y"), w("x")]);
    assert_eq!(create_vector(&vec![w("y"), w("z"), w("x")], &f), vec![1, 0, 2]);
}

#[test]
fn word_vectors_count_lowercased_words() {
    let v = word_vectors("A b a", "a C");
    assert_eq!(v.first, vec![2, 1, 0]);
    assert_eq!(v.second, vec![1, 0, 1]);
}

#[test]
fn word_vectors_are_symmetric_in_their_numbers() {
    let ab = word_vectors("one two two three", "two three three four");
    let ba = word_vectors("two three three four", "one two two three");
    let dot = |x: &Vec<usize>, y: &Vec<usize>| x.iter().zip(y).map(|(a, b)| a * b).sum::<usize>();
    assert_eq!(dot(&ab.first, &ab.second), dot(&ba.first, &ba.second));
    assert_eq!(dot(&ab.first, &ab.first), dot(&ba.second, &ba.second));
    // pairs of equal words: two(2*1) + three(1*2) = 4
    assert_eq!(dot(&ab.first, &ab.second), 4);
}

#[test]
fn count_non_alphanumeric_chars_counts_separators() {
    let f = count_non_alphanumeric_chars("a-b-c.d");
    assert_eq!(f.chars, vec!['-', '.']);
    assert_eq!(f.counts, vec![2, 1]);
    let empty = count_non_alphanumeric_chars("abc");
    assert!(empty.chars.is_empty());
}

#[test]
fn frequent_chars_use_a_twentieth_of_the_total() {
    let f = CharFrequency { chars: vec!['-', '.'], counts: vec![39, 1] };
    assert_eq!(identify_frequent_chars(&f), vec!['-']);
    let g = CharFrequency { chars: vec!['-', '.'], counts: vec![38, 2] };
    assert_eq!(identify_frequent_chars(&g), vec!['-', '.']);
    let h = CharFrequency { chars: vec!['-', '.'], counts: vec![3, 1] };
    assert_eq!(identify_frequent_chars(&h), vec!['-', '.']);
}

#[test]
fn regex_pattern_for_no_separators_is_whitespace() {
    assert_eq!(create_regex_pattern(&vec![]), "\\s+");
}

#[test]
fn regex_pattern_escapes_separators() {
    let p = create_regex_pattern(&vec!['-', '.']);
    let expected = "(?x)\n        (?:\n            [a-zA-Z0-9]+\n            (?:[\\-\\.]+[a-zA-Z0-9]+)+\n        )\n        |\n        (?:\n            \\S+\n        )";
    assert_eq!(p, expected);
}

#[test]
fn split_with_regex_returns_matches() {
    let p = create_regex_pattern(&vec!['-', '.']);
    assert_eq!(split_with_regex("h-e-l-l-o .", &p), strings(&["h-e-l-l-o", "."]));
    assert_eq!(split_with_regex("a  b", "\\s+"), strings(&["  "]));
}

#[test]
fn separator_patterns_have_no_alphanumerics() {
    let parts = strings(&["ab", "--", "a-b", ".", "é"]);
    assert_eq!(extract_separator_patterns(&parts), strings(&["--", "."]));
}

#[test]
fn best_pattern_is_last_most_frequent() {
    assert_eq!(identify_best_pattern(&strings(&["-", ".", "-", "."])), Some(".".to_string()));
    assert_eq!(identify_best_pattern(&strings(&["-", "-", "."])), Some("-".to_string()));
    assert_eq!(identify_best_pattern(&vec![]), None);
}

#[test]
fn detect_finds_separator_tokens() {
    assert_eq!(detect_septor_pattern("h-e-l-l-o ."), Some(".".to_string()));
    assert_eq!(detect_septor_pattern("a-b c-d -- ."), Some(".".to_string()));
    assert_eq!(detect_septor_pattern("a -- b -- c ."), Some("--".to_string()));
    assert_eq!(detect_septor_pattern("hello"), None);
}

#[test]
fn removesep_removes_pattern_characters() {
    assert_eq!(removesep("a-b-c", "-"), "abc");
    assert_eq!(removesep("a.b..c", "."), "abc");
    assert_eq!(removesep("a-b.c", ".-"), "abc");
    assert_eq!(removesep("a b", ""), "a b");
}

#[test]
fn remove_all_drops_occurrences_from_the_left() {
    assert_eq!(remove_all("a--b-", "--"), "ab-");
    assert_eq!(remove_all("aaa", "aa"), "a");
    assert_eq!(remove_all("abc", ""), "abc");
}

#[test]
fn extract_words_splits_at_separators() {
    assert_eq!(extract_words("a-b c", "-"), strings(&["a", "b", "c"]));
    assert_eq!(extract_words("a b", ""), strings(&["a", "b"]));
    assert!(validate_pattern("-", "a-b c"));
    assert!(!validate_pattern("-", "abc"));
}

#[test]
fn remove_separators_keeps_word_characters() {
    assert_eq!(remove_separators("h-e l.l_o!"), "he llo");
}

#[test]
fn compseps_prefers_first_when_contained() {
    assert_eq!(compseps("Hello .", "hel-lo world"), "Hello .");
    assert_eq!(compseps("bye", "hello"), "hello");
}

#[test]
fn space_delimited_needs_single_ascii_characters() {
    assert!(is_space_delimited("a b c"));
    assert!(!is_space_delimited("ab c"));
    assert!(!is_space_delimited("é x"));
    assert!(is_space_delimited(""));
}

#[test]
fn comors_joins_spelled_out_text() {
    assert_eq!(comors("abc", "a b c"), "abc");
    assert_eq!(compseps("abc", "a b c"), "a b c");
    assert_eq!(comors("éx", "é x"), "é x");
}

#[test]
fn checkit_matches_separated_spelling() {
    assert_eq!(checkit("hello", "h-e-l-l-o", below_half), "match");
    assert_eq!(checkit("hello world", "HELLO world", below_half), "match");
}

#[test]
fn checkit_passes_unrelated_text() {
    assert_eq!(checkit("hello", "goodbye", below_half), "pass");
    assert_eq!(checkit("x", "y", below_half), "pass");
}

#[test]
fn checkit_asks_the_verdict_for_each_similarity() {
    let counter = std::cell::Cell::new(0usize);
    let answer = checkit("hello", "goodbye", |_v: &WordVectors| {
        counter.set(counter.get() + 1);
        false
    });
    assert_eq!(answer, "match");
    assert_eq!(counter.get(), 2);
}

#[test]
fn separator_counts_add_up_to_the_separators() {
    let text = "a--b..c d-e! ?";
    let f = count_non_alphanumeric_chars(text);
    let counted: usize = f.counts.iter().sum();
    assert_eq!(counted, text.chars().filter(|c| !c.is_alphanumeric()).count());
    assert_eq!(f.chars, vec!['-', '.', ' ', '!', '?']);
    assert_eq!(f.counts, vec![3, 2, 2, 1, 1]);
}

#[test]
fn detected_patterns_hold_no_alphanumerics() {
    for text in ["a_b_c .", "x ~~ y ~~ z .", "plain words here .", "a1-b2-c3 ."] {
        if let Some(p) = detect_septor_pattern(text) {
            assert!(!p.chars().any(|c| c.is_alphanumeric()), "{:?} -> {:?}", text, p);
        }
    }
}

#[test]
fn similarity_of_a_text_with_itself_has_equal_vectors() {
    let v = word_vectors("Same words same", "Same words same");
    assert_eq!(v.first, v.second);
    assert!(!below_half(&v));
}

#[test]
fn checkit_ignores_ascii_case() {
    for (t1, t2) in [("hello", "h-e-l-l-o"), ("hello", "goodbye"), ("secret plan", "s e c r e t plan")] {
        let base = checkit(t1, t2, below_half);
        assert_eq!(checkit(&t1.to_ascii_uppercase(), t2, below_half), base);
        assert_eq!(checkit(&t1.to_ascii_uppercase(), &t2.to_ascii_lowercase(), below_half), base);
        assert_eq!(checkit(t1, &t2.to_ascii_uppercase(), below_half), base);
    }
}
