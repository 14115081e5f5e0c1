//! Whether a request text matches a rule text once separators, case and
//! letter-by-letter spelling are undone.
pub mod separators;
pub mod similarity;

use vstd::prelude::*;
use vstd::string::*;
use vstd::utf8::encode_utf8;
use vstd::utf8::{is_ascii_chars, is_ascii_chars_encode_utf8};
use crate::counting::{lemma_filter_take_empty, lemma_filter_take_step};
use crate::text::{
    alphanumeric, ascii_lower, ascii_lower_char, chars_of, contains, has_substring, occurs_at,
    is_alphanumeric, is_whitespace, lemma_ascii_lower_ascii, lemma_ascii_lower_char,
    lemma_ascii_lower_concat, lemma_filter_ascii_lower, lemma_same_up_to_case_lowercase,
    is_word, lemma_words_ascii_lower, lemma_words_nonempty_without_whitespace, lowercase, same_up_to_case,
    split_whitespace, string_from_chars,
    to_lowercase, views, whitespace, words,
};
pub use self::separators::{
    count_non_alphanumeric_chars, create_regex_pattern, detect_septor_pattern,
    extract_separator_patterns, extract_words, identify_best_pattern, identify_frequent_chars,
    remove_all, removesep, split_with_regex, validate_pattern, CharFrequency,
};
pub use self::similarity::{
    create_vector, distinct_words, word_frequency, word_vectors, WordFrequency, WordVectors,
};
use self::separators::{detected_pattern, removed_separators};
use self::similarity::similarity_vectors;

verus! {

/// The characters of `s` that are alphanumeric or whitespace, in order.
pub open spec fn word_chars(s: Seq<char>) -> Seq<char> {
    s.filter(|c: char| alphanumeric(c) || whitespace(c))
}

/// Drops every character that is neither alphanumeric nor whitespace.
pub fn remove_separators(s: &str) -> (r: String)
    ensures
        r@ == word_chars(s@),
{
    let cs = chars_of(s);
    let ghost pred = |c: char| alphanumeric(c) || whitespace(c);
    let mut out: Vec<char> = Vec::new();
    let mut i: usize = 0;
    proof {
        lemma_filter_take_empty(cs@, pred);
    }
    while i < cs.len()
        invariant
            i <= cs@.len(),
            cs@ == s@,
            pred == (|c: char| alphanumeric(c) || whitespace(c)),
            out@ == cs@.take(i as int).filter(pred),
        decreases cs@.len() - i,
    {
        let c = cs[i];
        proof {
            lemma_filter_take_step(cs@, i as int, pred);
        }
        if is_alphanumeric(c) || is_whitespace(c) {
            out.push(c);
        }
        i += 1;
    }
    assert(cs@.take(cs@.len() as int) =~= cs@);
    string_from_chars(out.as_slice())
}

/// `first` if the lowercased word characters of `second` contain those of
/// `first`, else `second`.
pub open spec fn compared(first: Seq<char>, second: Seq<char>) -> Seq<char> {
    if has_substring(lowercase(word_chars(second)), lowercase(word_chars(first))) {
        first
    } else {
        second
    }
}

/// Compares ignoring separators and case: `first` when `second` contains it,
/// else `second`.
pub fn compseps(first: &str, second: &str) -> (r: String)
    ensures
        r@ == compared(first@, second@),
{
    let first_clean = remove_separators(first);
    let second_clean = remove_separators(second);
    let first_lower = to_lowercase(first_clean.as_str());
    let second_lower = to_lowercase(second_clean.as_str());
    if contains(second_lower.as_str(), first_lower.as_str()) {
        String::from_str(first)
    } else {
        String::from_str(second)
    }
}

/// Every whitespace-separated word of `s` is one byte long in UTF-8 (so a
/// single ASCII character).
pub open spec fn single_byte_words(s: Seq<char>) -> bool {
    forall|i: int| 0 <= i < words(s).len() ==> encode_utf8(#[trigger] words(s)[i]).len() == 1
}

/// A character sequence takes at least one UTF-8 byte per character, and a
/// single character takes one byte exactly when it is ASCII.
pub proof fn lemma_encoded_length(w: Seq<char>)
    ensures
        encode_utf8(w).len() >= w.len(),
        w.len() == 1 ==> (encode_utf8(w).len() == 1 <==> (w[0] as u32) <= 0x7F),
    decreases w.len(),
{
    if w.len() > 0 {
        lemma_encoded_length(w.drop_first());
        assert(encode_utf8(w.drop_first()).len() >= w.drop_first().len());
        if w.len() == 1 {
            assert(w.drop_first().len() == 0);
            assert(encode_utf8(w.drop_first()) =~= Seq::<u8>::empty());
        }
    }
}

/// Whether `s` is spelled out with spaces between single-byte characters.
pub fn is_space_delimited(s: &str) -> (r: bool)
    ensures
        r == single_byte_words(s@),
        r <==> (forall|i: int|
            0 <= i < words(s@).len() ==> #[trigger] words(s@)[i].len() == 1 && (words(s@)[i][0]
                as u32) <= 0x7F),
{
    proof {
        lemma_single_byte_words_exact(s@);
    }
    let ws = split_whitespace(&chars_of(s));
    let mut i: usize = 0;
    while i < ws.len()
        invariant
            i <= ws@.len(),
            views(ws@) == words(s@),
            forall|k: int| 0 <= k < i ==> encode_utf8(#[trigger] words(s@)[k]).len() == 1,
        decreases ws@.len() - i,
    {
        assert(words(s@)[i as int] == ws@[i as int]@);
        proof {
            lemma_encoded_length(ws@[i as int]@);
        }
        let single = ws[i].len() == 1 && (ws[i][0] as u32) < 0x80;
        if !single {
            return false;
        }
        i += 1;
    }
    true
}

/// `s` without its ASCII spaces.
pub open spec fn without_spaces(s: Seq<char>) -> Seq<char> {
    s.filter(|c: char| c != ' ')
}

fn remove_spaces(s: &str) -> (r: String)
    ensures
        r@ == without_spaces(s@),
{
    let cs = chars_of(s);
    let ghost pred = |c: char| c != ' ';
    let mut out: Vec<char> = Vec::new();
    let mut i: usize = 0;
    proof {
        lemma_filter_take_empty(cs@, pred);
    }
    while i < cs.len()
        invariant
            i <= cs@.len(),
            cs@ == s@,
            pred == (|c: char| c != ' '),
            out@ == cs@.take(i as int).filter(pred),
        decreases cs@.len() - i,
    {
        let c = cs[i];
        proof {
            lemma_filter_take_step(cs@, i as int, pred);
        }
        if c != ' ' {
            out.push(c);
        }
        i += 1;
    }
    assert(cs@.take(cs@.len() as int) =~= cs@);
    string_from_chars(out.as_slice())
}

/// The word characters of `s`, with the spaces dropped when it is spelled
/// out letter by letter.
pub open spec fn joined_word_chars(s: Seq<char>) -> Seq<char> {
    if single_byte_words(word_chars(s)) {
        without_spaces(word_chars(s))
    } else {
        word_chars(s)
    }
}

/// `first` if the lowercased, joined word characters of `second` contain the
/// lowercased word characters of `first`, else `second`.
pub open spec fn compared_joined(first: Seq<char>, second: Seq<char>) -> Seq<char> {
    if has_substring(lowercase(joined_word_chars(second)), lowercase(word_chars(first))) {
        first
    } else {
        second
    }
}

/// Like `compseps`, but when `second` is spelled out with single characters
/// between spaces, the spaces are dropped before comparing.
pub fn comors(first: &str, second: &str) -> (r: String)
    ensures
        r@ == compared_joined(first@, second@),
{
    let first_clean = remove_separators(first);
    let mut second_clean = remove_separators(second);
    if is_space_delimited(second_clean.as_str()) {
        second_clean = remove_spaces(second_clean.as_str());
    }
    let first_lower = to_lowercase(first_clean.as_str());
    let second_lower = to_lowercase(second_clean.as_str());
    if contains(second_lower.as_str(), first_lower.as_str()) {
        String::from_str(first)
    } else {
        String::from_str(second)
    }
}

/// A text with the `" ."` that `checkit` appends.
pub open spec fn with_dot(t: Seq<char>) -> Seq<char> {
    t + " ."@
}

/// The count vectors of the first similarity that `checkit` asks about.
pub open spec fn first_query(text1: Seq<char>, text2: Seq<char>) -> (Seq<int>, Seq<int>) {
    let use1 = with_dot(text1);
    let use2 = with_dot(text2);
    match detected_pattern(use2) {
        Some(p) => similarity_vectors(use1, compared(use1, removed_separators(use2, p))),
        None => similarity_vectors(use1, compared(use1, text2)),
    }
}

/// The count vectors of the second similarity that `checkit` asks about:
/// there is one only when a separator pattern was detected.
pub open spec fn second_query(text1: Seq<char>, text2: Seq<char>) -> Option<
    (Seq<int>, Seq<int>),
> {
    let use1 = with_dot(text1);
    let use2 = with_dot(text2);
    match detected_pattern(use2) {
        Some(p) => Some(similarity_vectors(use1, compared_joined(use1, removed_separators(use2, p)))),
        None => None,
    }
}

/// What `checkit` asks about: both texts get a space and a full stop
/// appended; with a separator pattern detected in the request text so
/// extended, the rule text is compared with the request cleaned of that
/// pattern's characters, once as `compseps` and once as `comors` compares;
/// with none, only as `compseps` compares, with the request as it came.
pub proof fn lemma_checkit_asks(text1: Seq<char>, text2: Seq<char>)
    ensures
        first_query(text1, text2) == (match detected_pattern(text2 + " ."@) {
            Some(p) => similarity_vectors(
                text1 + " ."@,
                compared(text1 + " ."@, removed_separators(text2 + " ."@, p)),
            ),
            None => similarity_vectors(text1 + " ."@, compared(text1 + " ."@, text2)),
        }),
        second_query(text1, text2) == (match detected_pattern(text2 + " ."@) {
            Some(p) => Some(
                similarity_vectors(
                    text1 + " ."@,
                    compared_joined(text1 + " ."@, removed_separators(text2 + " ."@, p)),
                ),
            ),
            None => None,
        }),
{
}

/// What `checkit` answers given whether each similarity was below one half.
pub open spec fn checkit_answer(text1: Seq<char>, text2: Seq<char>, below1: bool, below2: bool) -> Seq<
    char,
> {
    if below1 || (second_query(text1, text2) is Some && below2) {
        "pass"@
    } else {
        "match"@
    }
}

/// `checkit` answers "pass" or "match" and nothing else, and "match" exactly
/// when none of the similarities it asked about was below one half.
pub proof fn lemma_checkit_answers(text1: Seq<char>, text2: Seq<char>, below1: bool, below2: bool)
    ensures
        checkit_answer(text1, text2, below1, below2) == "pass"@ || checkit_answer(
            text1,
            text2,
            below1,
            below2,
        ) == "match"@,
        checkit_answer(text1, text2, below1, below2) == "match"@ <==> (!below1 && (second_query(
            text1,
            text2,
        ) is Some ==> !below2)),
{
    reveal_strlit("pass");
    reveal_strlit("match");
    assert("pass"@[0] != "match"@[0]);
}

/// Where the text is not spelled out letter by letter, `comors` decides as
/// `compseps` does; either way the answer is one of the two texts.
pub proof fn lemma_comors_refines_compseps(first: Seq<char>, second: Seq<char>)
    ensures
        !single_byte_words(word_chars(second)) ==> compared_joined(first, second) == compared(
            first,
            second,
        ),
        compared(first, second) == first || compared(first, second) == second,
        compared_joined(first, second) == first || compared_joined(first, second) == second,
{
}

/// `compseps` finds the rule text anywhere in the request: with the
/// characters that are neither alphanumeric nor whitespace dropped from both
/// texts and both lowercased, `first` comes back when its cleaned form occurs
/// in that of `second` at some position, at the start or further on, and
/// `second` comes back when it occurs at none.
pub proof fn lemma_compared_anywhere(first: Seq<char>, second: Seq<char>)
    ensures
        ({
            let n = lowercase(first.filter(|c: char| alphanumeric(c) || whitespace(c)));
            let h = lowercase(second.filter(|c: char| alphanumeric(c) || whitespace(c)));
            &&& (exists|i: int|
                0 <= i && i + n.len() <= h.len() && #[trigger] h.subrange(i, i + n.len()) == n)
                ==> compared(first, second) == first
            &&& (forall|i: int|
                0 <= i && i + n.len() <= h.len() ==> #[trigger] h.subrange(i, i + n.len()) != n)
                ==> compared(first, second) == second
        }),
{
    let n = lowercase(word_chars(first));
    let h = lowercase(word_chars(second));
    if exists|i: int| 0 <= i && i + n.len() <= h.len() && #[trigger] h.subrange(i, i + n.len()) == n {
        let i = choose|i: int|
            0 <= i && i + n.len() <= h.len() && #[trigger] h.subrange(i, i + n.len()) == n;
        assert(occurs_at(h, n, i));
    }
}

/// `comors` finds the rule text anywhere in the request too. With the
/// characters that are neither alphanumeric nor whitespace dropped from both
/// texts and both lowercased: when every word of the cleaned `second` is a
/// single ASCII character, `first` comes back exactly when its cleaned form
/// occurs at some position of the cleaned `second` taken without its spaces;
/// when some word is not, exactly when it occurs at some position of the
/// cleaned `second` as it is; `second` comes back otherwise. Where a word of
/// the cleaned `second` is longer than one character, it decides as `compseps`.
pub proof fn lemma_compared_joined_anywhere(first: Seq<char>, second: Seq<char>)
    ensures
        ({
            let w = second.filter(|c: char| alphanumeric(c) || whitespace(c));
            let n = lowercase(first.filter(|c: char| alphanumeric(c) || whitespace(c)));
            let joined = lowercase(w.filter(|c: char| c != ' '));
            let h = lowercase(w);
            &&& (forall|i: int|
                0 <= i < words(w).len() ==> #[trigger] words(w)[i].len() == 1 && (words(w)[i][0]
                    as u32) <= 0x7F) ==> {
                &&& (exists|i: int|
                    0 <= i && i + n.len() <= joined.len() && #[trigger] joined.subrange(
                        i,
                        i + n.len(),
                    ) == n) ==> compared_joined(first, second) == first
                &&& (forall|i: int|
                    0 <= i && i + n.len() <= joined.len() ==> #[trigger] joined.subrange(
                        i,
                        i + n.len(),
                    ) != n) ==> compared_joined(first, second) == second
            }
            &&& (exists|i: int|
                0 <= i < words(w).len() && !(#[trigger] words(w)[i].len() == 1 && (words(
                    w,
                )[i][0] as u32) <= 0x7F)) ==> {
                &&& (exists|i: int|
                    0 <= i && i + n.len() <= h.len() && #[trigger] h.subrange(i, i + n.len()) == n)
                    ==> compared_joined(first, second) == first
                &&& (forall|i: int|
                    0 <= i && i + n.len() <= h.len() ==> #[trigger] h.subrange(i, i + n.len()) != n)
                    ==> compared_joined(first, second) == second
            }
            &&& (exists|i: int| 0 <= i < words(w).len() && #[trigger] words(w)[i].len() >= 2)
                ==> compared_joined(first, second) == compared(first, second)
        }),
{
    let w = word_chars(second);
    lemma_single_byte_words_exact(w);
    let n = lowercase(word_chars(first));
    let h = lowercase(joined_word_chars(second));
    if exists|i: int| 0 <= i && i + n.len() <= h.len() && #[trigger] h.subrange(i, i + n.len()) == n {
        let i = choose|i: int|
            0 <= i && i + n.len() <= h.len() && #[trigger] h.subrange(i, i + n.len()) == n;
        assert(occurs_at(h, n, i));
    }
}

/// A text counts as spelled out letter by letter exactly when every one of
/// its words, the first, the last and all between, is a single ASCII
/// character; so a text with a word of two or more characters anywhere does
/// not count.
pub proof fn lemma_single_byte_words_exact(s: Seq<char>)
    ensures
        single_byte_words(s) <==> (forall|i: int|
            0 <= i < words(s).len() ==> #[trigger] words(s)[i].len() == 1 && (words(s)[i][0]
                as u32) <= 0x7F),
        (exists|i: int| 0 <= i < words(s).len() && #[trigger] words(s)[i].len() >= 2)
            ==> !single_byte_words(s),
{
    let ws = words(s);
    lemma_words_nonempty_without_whitespace(s);
    assert forall|i: int| 0 <= i < ws.len() implies (encode_utf8(#[trigger] ws[i]).len() == 1) == (
    ws[i].len() == 1 && (ws[i][0] as u32) <= 0x7F) by {
        assert(is_word(ws[i]));
        lemma_encoded_length(ws[i]);
    }
    if exists|i: int| 0 <= i < ws.len() && #[trigger] ws[i].len() >= 2 {
        let i = choose|i: int| 0 <= i < ws.len() && #[trigger] ws[i].len() >= 2;
        assert(encode_utf8(ws[i]).len() != 1);
    }
}

/// `below_half` answered `b` for count vectors `q`.
pub open spec fn answered_by<F: Fn(&WordVectors) -> bool>(
    below_half: F,
    q: (Seq<int>, Seq<int>),
    b: bool,
) -> bool {
    exists|v: WordVectors| v@ == q && below_half.ensures((&v,), b)
}

/// With a verdict that depends on the count vectors alone, what `checkit`
/// promises pins its answer down: it is `checkit_answer` of the verdicts on
/// the queried vectors.
pub proof fn lemma_checkit_determined<F: Fn(&WordVectors) -> bool>(
    below_half: F,
    verdict: spec_fn((Seq<int>, Seq<int>)) -> bool,
    text1: Seq<char>,
    text2: Seq<char>,
    answer: Seq<char>,
)
    requires
        forall|v: &WordVectors, b: bool| below_half.ensures((v,), b) ==> b == verdict(v@),
        exists|b1: bool, b2: bool|
            {
                &&& answered_by(below_half, first_query(text1, text2), b1)
                &&& (second_query(text1, text2) matches Some(q) ==> answered_by(below_half, q, b2))
                &&& answer == checkit_answer(text1, text2, b1, b2)
            },
    ensures
        answer == checkit_answer(
            text1,
            text2,
            verdict(first_query(text1, text2)),
            match second_query(text1, text2) {
                Some(q) => verdict(q),
                None => false,
            },
        ),
{
    let (b1, b2) = choose|b1: bool, b2: bool|
        {
            &&& answered_by(below_half, first_query(text1, text2), b1)
            &&& (second_query(text1, text2) matches Some(q) ==> answered_by(below_half, q, b2))
            &&& answer == checkit_answer(text1, text2, b1, b2)
        };
    let v1 = choose|v: WordVectors| v@ == first_query(text1, text2) && below_half.ensures((&v,), b1);
    assert(b1 == verdict(v1@));
    if let Some(q) = second_query(text1, text2) {
        let v2 = choose|v: WordVectors| v@ == q && below_half.ensures((&v,), b2);
        assert(b2 == verdict(v2@));
    }
}

/// With a verdict that depends on the count vectors alone, two calls of
/// `checkit` on the same texts give the same answer: the order in which words
/// and separators are tabulated plays no part.
pub proof fn lemma_checkit_repeatable<F: Fn(&WordVectors) -> bool>(
    below_half: F,
    verdict: spec_fn((Seq<int>, Seq<int>)) -> bool,
    text1: Seq<char>,
    text2: Seq<char>,
    answer1: Seq<char>,
    answer2: Seq<char>,
)
    requires
        forall|v: &WordVectors, b: bool| below_half.ensures((v,), b) ==> b == verdict(v@),
        exists|b1: bool, b2: bool|
            {
                &&& answered_by(below_half, first_query(text1, text2), b1)
                &&& (second_query(text1, text2) matches Some(q) ==> answered_by(below_half, q, b2))
                &&& answer1 == checkit_answer(text1, text2, b1, b2)
            },
        exists|b1: bool, b2: bool|
            {
                &&& answered_by(below_half, first_query(text1, text2), b1)
                &&& (second_query(text1, text2) matches Some(q) ==> answered_by(below_half, q, b2))
                &&& answer2 == checkit_answer(text1, text2, b1, b2)
            },
    ensures
        answer1 == answer2,
{
    lemma_checkit_determined(below_half, verdict, text1, text2, answer1);
    lemma_checkit_determined(below_half, verdict, text1, text2, answer2);
}

/// Whether `text2` matches the rule text `text1` once separators, case and
/// spelling-out are undone: "match" when the cosine similarity of the word
/// counts stays at one half or above, else "pass". `below_half` tells,
/// from the two count vectors, whether their cosine similarity is below one half.
pub fn checkit<F: Fn(&WordVectors) -> bool>(text1: &str, text2: &str, below_half: F) -> (r: String)
    requires
        forall|v: &WordVectors| below_half.requires((v,)),
    ensures
        exists|b1: bool, b2: bool|
            {
                &&& answered_by(below_half, first_query(text1@, text2@), b1)
                &&& (second_query(text1@, text2@) matches Some(q) ==> answered_by(below_half, q, b2))
                &&& r@ == checkit_answer(text1@, text2@, b1, b2)
            },
{
    let use1 = String::from_str(text1).concat(" .");
    let use2 = String::from_str(text2).concat(" .");
    match detect_septor_pattern(use2.as_str()) {
        Some(pattern2) => {
            let cleaned_text2 = removesep(use2.as_str(), pattern2.as_str());
            let result2 = compseps(use1.as_str(), cleaned_text2.as_str());
            let result3 = comors(use1.as_str(), cleaned_text2.as_str());
            let vectors1 = word_vectors(use1.as_str(), result2.as_str());
            let vectors2 = word_vectors(use1.as_str(), result3.as_str());
            let below1 = below_half(&vectors1);
            let below2 = below_half(&vectors2);
            assert(answered_by(below_half, first_query(text1@, text2@), below1));
            assert(second_query(text1@, text2@) == Some(vectors2@));
            assert(answered_by(below_half, vectors2@, below2));
            let r = if below1 {
                String::from_str("pass")
            } else if below2 {
                String::from_str("pass")
            } else {
                String::from_str("match")
            };
            assert(r@ == checkit_answer(text1@, text2@, below1, below2));
            r
        },
        None => {
            let result4 = compseps(use1.as_str(), text2);
            let vectors3 = word_vectors(use1.as_str(), result4.as_str());
            let below3 = below_half(&vectors3);
            assert(answered_by(below_half, first_query(text1@, text2@), below3));
            let r = if below3 {
                String::from_str("pass")
            } else {
                String::from_str("match")
            };
            assert(r@ == checkit_answer(text1@, text2@, below3, false));
            r
        },
    }
}


/// `a` and `b` look the same to the comparisons of `compseps` and `comors`
/// and to the similarity: their lowercase forms agree, before and after
/// separators and spelling-out spaces are dropped.
pub open spec fn compares_alike(a: Seq<char>, b: Seq<char>) -> bool {
    &&& lowercase(a) == lowercase(b)
    &&& lowercase(word_chars(a)) == lowercase(word_chars(b))
    &&& lowercase(joined_word_chars(a)) == lowercase(joined_word_chars(b))
}

proof fn lemma_single_byte_words_case(s: Seq<char>)
    requires
        is_ascii_chars(s),
    ensures
        single_byte_words(ascii_lower(s)) == single_byte_words(s),
{
    lemma_words_ascii_lower(s);
    let ws = words(s);
    lemma_words_nonempty_without_whitespace(s);
    assert forall|i: int| 0 <= i < ws.len() implies (encode_utf8(#[trigger] ws[i]).len() == 1)
        == (encode_utf8(words(ascii_lower(s))[i]).len() == 1) by {
        let w = ws[i];
        assert(is_ascii_chars(w));
        lemma_ascii_lower_ascii(w);
        assert(words(ascii_lower(s))[i] == ascii_lower(w));
        is_ascii_chars_encode_utf8(w);
        is_ascii_chars_encode_utf8(ascii_lower(w));
    }
    assert(words(ascii_lower(s)).len() == ws.len());
    if single_byte_words(s) {
        assert forall|i: int| 0 <= i < words(ascii_lower(s)).len() implies encode_utf8(
            #[trigger] words(ascii_lower(s))[i],
        ).len() == 1 by {
            assert(encode_utf8(ws[i]).len() == 1);
        }
    }
    if single_byte_words(ascii_lower(s)) {
        assert forall|i: int| 0 <= i < ws.len() implies encode_utf8(#[trigger] ws[i]).len()
            == 1 by {
            assert(encode_utf8(words(ascii_lower(s))[i]).len() == 1);
        }
    }
}

/// Texts that differ only in the case of ASCII letters look the same to the
/// comparisons and to the similarity.
pub proof fn lemma_case_compares_alike(a: Seq<char>, b: Seq<char>)
    requires
        same_up_to_case(a, b),
    ensures
        compares_alike(a, b),
{
    lemma_same_up_to_case_lowercase(a, b);
    let keep = |c: char| alphanumeric(c) || whitespace(c);
    let nospace = |c: char| c != ' ';
    assert forall|c: char| c <= '\u{7f}' implies #[trigger] keep(ascii_lower_char(c)) == keep(c) by {
        lemma_ascii_lower_char(c);
    }
    assert forall|c: char| c <= '\u{7f}' implies #[trigger] nospace(ascii_lower_char(c)) == nospace(
        c,
    ) by {
        lemma_ascii_lower_char(c);
    }
    lemma_filter_ascii_lower(a, keep);
    lemma_filter_ascii_lower(b, keep);
    let wa = word_chars(a);
    let wb = word_chars(b);
    assert(wa == a.filter(keep));
    assert(wb == b.filter(keep));
    assert(same_up_to_case(wa, wb));
    lemma_same_up_to_case_lowercase(wa, wb);
    lemma_single_byte_words_case(wa);
    lemma_single_byte_words_case(wb);
    lemma_filter_ascii_lower(wa, nospace);
    lemma_filter_ascii_lower(wb, nospace);
    assert(without_spaces(wa) == wa.filter(nospace));
    assert(without_spaces(wb) == wb.filter(nospace));
    assert(same_up_to_case(without_spaces(wa), without_spaces(wb)));
    lemma_same_up_to_case_lowercase(without_spaces(wa), without_spaces(wb));
}

/// Appending `" ."` keeps two texts the same up to ASCII case.
proof fn lemma_with_dot_case(a: Seq<char>, b: Seq<char>)
    requires
        same_up_to_case(a, b),
    ensures
        same_up_to_case(with_dot(a), with_dot(b)),
{
    reveal_strlit(" .");
    lemma_ascii_lower_concat(a, " ."@);
    lemma_ascii_lower_concat(b, " ."@);
    assert forall|i: int| 0 <= i < with_dot(a).len() implies '\0' <= #[trigger] with_dot(a)[i]
        <= '\u{7f}' by {
        if i < a.len() {
            assert(with_dot(a)[i] == a[i]);
        }
    }
    assert forall|i: int| 0 <= i < with_dot(b).len() implies '\0' <= #[trigger] with_dot(b)[i]
        <= '\u{7f}' by {
        if i < b.len() {
            assert(with_dot(b)[i] == b[i]);
        }
    }
}

/// The comparisons give texts that look alike when given texts that look alike.
proof fn lemma_compared_alike(f1: Seq<char>, f2: Seq<char>, x1: Seq<char>, x2: Seq<char>)
    requires
        compares_alike(f1, f2),
        compares_alike(x1, x2),
    ensures
        compares_alike(compared(f1, x1), compared(f2, x2)),
        compares_alike(compared_joined(f1, x1), compared_joined(f2, x2)),
{
}

/// What `checkit` asks about is the same for texts that look alike, once
/// the separator pattern and the text cleaned of it look alike too.
proof fn lemma_queries_alike(t1: Seq<char>, t1b: Seq<char>, t2: Seq<char>, t2b: Seq<char>)
    requires
        compares_alike(with_dot(t1), with_dot(t1b)),
        compares_alike(t2, t2b),
        detected_pattern(with_dot(t2b)) == detected_pattern(with_dot(t2)),
        detected_pattern(with_dot(t2)) matches Some(p) ==> compares_alike(
            removed_separators(with_dot(t2), p),
            removed_separators(with_dot(t2b), p),
        ),
    ensures
        first_query(t1b, t2b) == first_query(t1, t2),
        second_query(t1b, t2b) == second_query(t1, t2),
{
    let (u1, u1b) = (with_dot(t1), with_dot(t1b));
    match detected_pattern(with_dot(t2)) {
        Some(p) => {
            let (x, xb) = (removed_separators(with_dot(t2), p), removed_separators(with_dot(t2b), p));
            lemma_compared_alike(u1, u1b, x, xb);
        },
        None => {
            lemma_compared_alike(u1, u1b, t2, t2b);
        },
    }
}

/// The case of ASCII letters in the rule text does not change what
/// `checkit` asks about, so it does not change its answer.
pub proof fn lemma_checkit_rule_case(text1: Seq<char>, text1b: Seq<char>, text2: Seq<char>)
    requires
        same_up_to_case(text1, text1b),
    ensures
        first_query(text1b, text2) == first_query(text1, text2),
        second_query(text1b, text2) == second_query(text1, text2),
        forall|b1: bool, b2: bool|
            #[trigger] checkit_answer(text1b, text2, b1, b2) == checkit_answer(text1, text2, b1, b2),
{
    lemma_with_dot_case(text1, text1b);
    lemma_case_compares_alike(with_dot(text1), with_dot(text1b));
    lemma_queries_alike(text1, text1b, text2, text2);
}

/// Changing the case of ASCII letters in both texts does not change what
/// `checkit` asks about, and so not its answer, provided the regex work on
/// the request text (the detected separator pattern, and the text with the
/// separators removed) does not see the case either.
pub proof fn lemma_checkit_ignores_case(
    text1: Seq<char>,
    text1b: Seq<char>,
    text2: Seq<char>,
    text2b: Seq<char>,
)
    requires
        same_up_to_case(text1, text1b),
        same_up_to_case(text2, text2b),
        detected_pattern(with_dot(text2b)) == detected_pattern(with_dot(text2)),
        detected_pattern(with_dot(text2)) matches Some(p) ==> same_up_to_case(
            removed_separators(with_dot(text2), p),
            removed_separators(with_dot(text2b), p),
        ),
    ensures
        first_query(text1b, text2b) == first_query(text1, text2),
        second_query(text1b, text2b) == second_query(text1, text2),
        forall|b1: bool, b2: bool|
            #[trigger] checkit_answer(text1b, text2b, b1, b2) == checkit_answer(
                text1,
                text2,
                b1,
                b2,
            ),
{
    lemma_with_dot_case(text1, text1b);
    lemma_case_compares_alike(with_dot(text1), with_dot(text1b));
    lemma_case_compares_alike(text2, text2b);
    if let Some(p) = detected_pattern(with_dot(text2)) {
        lemma_case_compares_alike(
            removed_separators(with_dot(text2), p),
            removed_separators(with_dot(text2b), p),
        );
    }
    lemma_queries_alike(text1, text1b, text2, text2b);
}

} // verus!
