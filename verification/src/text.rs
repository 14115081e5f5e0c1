//! Character and string primitives over `Seq<char>` views.
use vstd::prelude::*;
use vstd::utf8::is_ascii_chars;

verus! {

/// What `str::to_lowercase` returns for a string that is not all ASCII.
pub uninterp spec fn unicode_lowercase(s: Seq<char>) -> Seq<char>;

/// Whether `char::is_alphanumeric` holds of a character outside ASCII.
pub uninterp spec fn unicode_alphanumeric(c: char) -> bool;

/// Whether `char::is_whitespace` holds of a character outside ASCII.
pub uninterp spec fn unicode_whitespace(c: char) -> bool;

/// The ASCII lowercase of a character: `A` to `Z` become `a` to `z`, every
/// other character stays.
pub open spec fn ascii_lower_char(c: char) -> char {
    if 'A' <= c && c <= 'Z' {
        ((c as u32) + 32) as char
    } else {
        c
    }
}

/// The ASCII lowercase of each character of `s`.
pub open spec fn ascii_lower(s: Seq<char>) -> Seq<char> {
    s.map_values(|c: char| ascii_lower_char(c))
}

/// The string that `str::to_lowercase` returns: for an all-ASCII string its
/// ASCII lowercase, otherwise the Unicode mapping `unicode_lowercase`.
pub open spec fn lowercase(s: Seq<char>) -> Seq<char> {
    if is_ascii_chars(s) {
        ascii_lower(s)
    } else {
        unicode_lowercase(s)
    }
}

/// Whether `char::is_alphanumeric` holds: among ASCII characters exactly the
/// letters and digits, otherwise `unicode_alphanumeric`.
pub open spec fn alphanumeric(c: char) -> bool {
    if c <= '\u{7f}' {
        ('a' <= c && c <= 'z') || ('A' <= c && c <= 'Z') || ('0' <= c && c <= '9')
    } else {
        unicode_alphanumeric(c)
    }
}

/// Whether `char::is_whitespace` holds: among ASCII characters exactly the
/// space and tab to carriage return, otherwise `unicode_whitespace`.
pub open spec fn whitespace(c: char) -> bool {
    if c <= '\u{7f}' {
        c == ' ' || ('\t' <= c && c <= '\r')
    } else {
        unicode_whitespace(c)
    }
}

/// Calls `str::to_lowercase`. On an all-ASCII string the result is its ASCII
/// lowercase (Unicode lowercases no ASCII character but `A` to `Z`); on other
/// strings it is the Unicode lowercase mapping, named `unicode_lowercase`.
#[verifier::external_body]
pub(crate) fn to_lowercase(s: &str) -> (r: String)
    ensures
        r@ == lowercase(s@),
        !is_ascii_chars(s@) ==> r@ == unicode_lowercase(s@),
{
    s.to_lowercase()
}

/// Calls `char::is_alphanumeric` (Unicode Alphabetic or Numeric): among ASCII
/// characters these are the letters and digits; for other characters the
/// answer is named `unicode_alphanumeric`.
#[verifier::external_body]
pub(crate) fn is_alphanumeric(c: char) -> (b: bool)
    ensures
        b == alphanumeric(c),
        c > '\u{7f}' ==> b == unicode_alphanumeric(c),
{
    c.is_alphanumeric()
}

/// Calls `char::is_whitespace` (Unicode White_Space): among ASCII characters
/// these are the space and tab, line feed, vertical tab, form feed and
/// carriage return; for other characters the answer is named `unicode_whitespace`.
#[verifier::external_body]
pub(crate) fn is_whitespace(c: char) -> (b: bool)
    ensures
        b == whitespace(c),
        c > '\u{7f}' ==> b == unicode_whitespace(c),
{
    c.is_whitespace()
}

/// Collects characters into a `String` (`FromIterator<char>` for `String`):
/// the string holds exactly those characters, in order.
#[verifier::external_body]
pub(crate) fn string_from_chars(cs: &[char]) -> (s: String)
    ensures
        s@ == cs@,
{
    cs.iter().collect()
}

/// The characters of a string slice, in order.
pub fn chars_of(s: &str) -> (v: Vec<char>)
    ensures
        v@ == s@,
{
    let mut v: Vec<char> = Vec::new();
    for c in it: s.chars()
        invariant
            v@ == it.seq().take(it.index() as int),
    {
        v.push(c);
    }
    v
}

/// `needle` occurs in `hay` at position `i`.
pub open spec fn occurs_at(hay: Seq<char>, needle: Seq<char>, i: int) -> bool {
    &&& 0 <= i
    &&& i + needle.len() <= hay.len()
    &&& hay.subrange(i, i + needle.len()) == needle
}

/// `needle` occurs somewhere in `hay`; this is what `str::contains` tests for
/// a string pattern (the empty pattern occurs in every string).
pub open spec fn has_substring(hay: Seq<char>, needle: Seq<char>) -> bool {
    exists|i: int| occurs_at(hay, needle, i)
}

/// Two character vectors hold the same characters.
pub fn chars_equal(a: &Vec<char>, b: &Vec<char>) -> (r: bool)
    ensures
        r == (a@ == b@),
{
    if a.len() != b.len() {
        return false;
    }
    let mut i: usize = 0;
    while i < a.len()
        invariant
            a@.len() == b@.len(),
            i <= a@.len(),
            forall|k: int| 0 <= k < i ==> a@[k] == b@[k],
        decreases a@.len() - i,
    {
        if a[i] != b[i] {
            return false;
        }
        i += 1;
    }
    assert(a@ =~= b@);
    true
}

pub(crate) fn matches_at(hay: &Vec<char>, needle: &Vec<char>, i: usize) -> (r: bool)
    requires
        i + needle@.len() <= hay@.len(),
    ensures
        r == occurs_at(hay@, needle@, i as int),
{
    let mut j: usize = 0;
    while j < needle.len()
        invariant
            j <= needle@.len(),
            i + needle@.len() <= hay.len(),
            forall|k: int| 0 <= k < j ==> hay@[i + k] == needle@[k],
        decreases needle@.len() - j,
    {
        if hay[i + j] != needle[j] {
            assert(hay@.subrange(i as int, i + needle@.len())[j as int] != needle@[j as int]);
            return false;
        }
        j += 1;
    }
    assert(hay@.subrange(i as int, i + needle@.len()) =~= needle@);
    true
}

/// Substring search over character vectors.
pub fn contains_chars(hay: &Vec<char>, needle: &Vec<char>) -> (r: bool)
    ensures
        r == has_substring(hay@, needle@),
{
    if needle.len() > hay.len() {
        return false;
    }
    let last = hay.len() - needle.len();
    let mut i: usize = 0;
    loop
        invariant
            last + needle@.len() == hay@.len(),
            i <= last,
            forall|k: int| 0 <= k < i ==> !occurs_at(hay@, needle@, k),
        decreases last - i,
    {
        if matches_at(hay, needle, i) {
            return true;
        }
        if i == last {
            assert forall|k: int| !occurs_at(hay@, needle@, k) by {
                if 0 <= k && k + needle@.len() <= hay@.len() {
                    assert(k <= i);
                }
            }
            return false;
        }
        i += 1;
    }
}

/// `str::contains` with a string pattern.
pub fn contains(hay: &str, needle: &str) -> (r: bool)
    ensures
        r == has_substring(hay@, needle@),
{
    let h = chars_of(hay);
    let n = chars_of(needle);
    contains_chars(&h, &n)
}

/// The character views of a sequence of character vectors.
pub open spec fn views(v: Seq<Vec<char>>) -> Seq<Seq<char>> {
    v.map_values(|w: Vec<char>| w@)
}

/// A copy of a character vector.
pub fn copy_chars(v: &Vec<char>) -> (r: Vec<char>)
    ensures
        r@ == v@,
{
    let mut r: Vec<char> = Vec::new();
    let mut i: usize = 0;
    while i < v.len()
        invariant
            i <= v@.len(),
            r@ == v@.take(i as int),
        decreases v@.len() - i,
    {
        r.push(v[i]);
        i += 1;
        assert(r@ =~= v@.take(i as int));
    }
    assert(v@.take(v@.len() as int) =~= v@);
    r
}

/// Scanning `s` from the left: the words completed so far and the word
/// still being read.
pub open spec fn scan_words(s: Seq<char>) -> (Seq<Seq<char>>, Seq<char>)
    decreases s.len(),
{
    if s.len() == 0 {
        (seq![], seq![])
    } else {
        let (done, cur) = scan_words(s.drop_last());
        let c = s.last();
        if whitespace(c) {
            if cur.len() > 0 {
                (done.push(cur), seq![])
            } else {
                (done, seq![])
            }
        } else {
            (done, cur.push(c))
        }
    }
}

/// The words of `s`, as `str::split_whitespace` yields them: the maximal
/// non-empty runs of characters that are not whitespace, in order.
pub open spec fn words(s: Seq<char>) -> Seq<Seq<char>> {
    let (done, cur) = scan_words(s);
    if cur.len() > 0 {
        done.push(cur)
    } else {
        done
    }
}

/// A word: non-empty and free of whitespace.
pub open spec fn is_word(w: Seq<char>) -> bool {
    w.len() > 0 && forall|j: int| 0 <= j < w.len() ==> !whitespace(#[trigger] w[j])
}

proof fn lemma_scan_words(s: Seq<char>)
    ensures
        forall|i: int| 0 <= i < scan_words(s).0.len() ==> is_word(#[trigger] scan_words(s).0[i]),
        forall|j: int| 0 <= j < scan_words(s).1.len() ==> !whitespace(#[trigger] scan_words(s).1[j]),
    decreases s.len(),
{
    if s.len() > 0 {
        lemma_scan_words(s.drop_last());
        let (done, cur) = scan_words(s.drop_last());
        if !whitespace(s.last()) {
            assert forall|j: int| 0 <= j < cur.push(s.last()).len() implies !whitespace(
                #[trigger] cur.push(s.last())[j],
            ) by {
                if j < cur.len() {
                    assert(cur.push(s.last())[j] == cur[j]);
                }
            }
        } else if cur.len() > 0 {
            assert(is_word(cur));
            assert forall|i: int| 0 <= i < done.push(cur).len() implies is_word(
                #[trigger] done.push(cur)[i],
            ) by {
                if i < done.len() {
                    assert(done.push(cur)[i] == done[i]);
                }
            }
        }
    }
}

/// Every word that `split_whitespace` yields is non-empty and holds no whitespace.
pub proof fn lemma_words_nonempty_without_whitespace(s: Seq<char>)
    ensures
        forall|i: int| 0 <= i < words(s).len() ==> is_word(#[trigger] words(s)[i]),
{
    lemma_scan_words(s);
    let (done, cur) = scan_words(s);
    if cur.len() > 0 {
        assert(is_word(cur));
        assert forall|i: int| 0 <= i < done.push(cur).len() implies is_word(
            #[trigger] done.push(cur)[i],
        ) by {
            if i < done.len() {
                assert(done.push(cur)[i] == done[i]);
            }
        }
    }
}

/// `str::split_whitespace` over a character vector.
pub fn split_whitespace(s: &Vec<char>) -> (ws: Vec<Vec<char>>)
    ensures
        views(ws@) == words(s@),
{
    let mut done: Vec<Vec<char>> = Vec::new();
    let mut cur: Vec<char> = Vec::new();
    let mut i: usize = 0;
    assert(s@.take(0) =~= Seq::<char>::empty());
    while i < s.len()
        invariant
            i <= s@.len(),
            (views(done@), cur@) == scan_words(s@.take(i as int)),
        decreases s@.len() - i,
    {
        let c = s[i];
        assert(s@.take(i + 1).drop_last() =~= s@.take(i as int));
        let ghost prev = done@;
        if is_whitespace(c) {
            if cur.len() > 0 {
                let w = cur;
                done.push(w);
                cur = Vec::new();
                assert(views(done@) =~= views(prev).push(w@));
            }
        } else {
            cur.push(c);
        }
        i += 1;
    }
    assert(s@.take(s@.len() as int) =~= s@);
    if cur.len() > 0 {
        let ghost prev = done@;
        let w = cur;
        done.push(w);
        assert(views(done@) =~= views(prev).push(w@));
    }
    done
}

/// Calls `std::str::from_utf8`: it succeeds exactly on valid UTF-8, and then
/// the string holds the decoded characters.
#[verifier::external_body]
pub(crate) fn utf8_string(bytes: &[u8]) -> (r: Option<String>)
    ensures
        r is Some <==> vstd::utf8::valid_utf8(bytes@),
        r matches Some(s) ==> s@ == vstd::utf8::decode_utf8(bytes@),
{
    std::str::from_utf8(bytes).ok().map(|s| s.to_string())
}


/// `a` and `b` are all ASCII and differ at most in the case of letters.
pub open spec fn same_up_to_case(a: Seq<char>, b: Seq<char>) -> bool {
    &&& is_ascii_chars(a)
    &&& is_ascii_chars(b)
    &&& ascii_lower(a) == ascii_lower(b)
}

/// Lowercasing an ASCII character keeps it ASCII, keeps whether it is
/// alphanumeric or whitespace, and changes no space.
pub proof fn lemma_ascii_lower_char(c: char)
    requires
        c <= '\u{7f}',
    ensures
        ascii_lower_char(c) <= '\u{7f}',
        alphanumeric(ascii_lower_char(c)) == alphanumeric(c),
        whitespace(ascii_lower_char(c)) == whitespace(c),
        (ascii_lower_char(c) == ' ') == (c == ' '),
{
}

/// Strings equal up to ASCII case have the same lowercase.
pub proof fn lemma_same_up_to_case_lowercase(a: Seq<char>, b: Seq<char>)
    requires
        same_up_to_case(a, b),
    ensures
        lowercase(a) == lowercase(b),
{
}

/// ASCII lowercasing commutes with a filter whose predicate does not see the
/// case of ASCII characters, and filtering keeps a string ASCII.
pub proof fn lemma_filter_ascii_lower(s: Seq<char>, pred: spec_fn(char) -> bool)
    requires
        is_ascii_chars(s),
        forall|c: char| c <= '\u{7f}' ==> #[trigger] pred(ascii_lower_char(c)) == pred(c),
    ensures
        ascii_lower(s.filter(pred)) == ascii_lower(s).filter(pred),
        is_ascii_chars(s.filter(pred)),
    decreases s.len(),
{
    reveal(Seq::filter);
    if s.len() == 0 {
        assert(ascii_lower(s) =~= s);
    } else {
        let p = s.drop_last();
        assert(is_ascii_chars(p)) by {
            assert forall|i: int| 0 <= i < p.len() implies '\0' <= #[trigger] p[i] <= '\u{7f}' by {
                assert(p[i] == s[i]);
            }
        }
        lemma_filter_ascii_lower(p, pred);
        assert(ascii_lower(s).drop_last() =~= ascii_lower(p));
        let c = s.last();
        assert(c == s[s.len() - 1]);
        assert(ascii_lower(s).last() == ascii_lower_char(c));
        let f = p.filter(pred);
        if pred(c) {
            assert(ascii_lower(f.push(c)) =~= ascii_lower(f).push(ascii_lower_char(c)));
            assert forall|i: int| 0 <= i < f.push(c).len() implies '\0' <= #[trigger] f.push(c)[i]
                <= '\u{7f}' by {
                if i < f.len() {
                    assert(f.push(c)[i] == f[i]);
                }
            }
        }
    }
}

/// ASCII lowercasing distributes over concatenation.
pub proof fn lemma_ascii_lower_concat(a: Seq<char>, b: Seq<char>)
    ensures
        ascii_lower(a + b) == ascii_lower(a) + ascii_lower(b),
{
    assert(ascii_lower(a + b) =~= ascii_lower(a) + ascii_lower(b));
}

/// The ASCII lowercase of each word.
pub open spec fn lower_each(ws: Seq<Seq<char>>) -> Seq<Seq<char>> {
    ws.map_values(|w: Seq<char>| ascii_lower(w))
}

/// All words in `ws` are ASCII.
pub open spec fn all_ascii(ws: Seq<Seq<char>>) -> bool {
    forall|i: int| 0 <= i < ws.len() ==> is_ascii_chars(#[trigger] ws[i])
}

proof fn lemma_scan_words_ascii_lower(s: Seq<char>)
    requires
        is_ascii_chars(s),
    ensures
        scan_words(ascii_lower(s)).0 == lower_each(scan_words(s).0),
        scan_words(ascii_lower(s)).1 == ascii_lower(scan_words(s).1),
        all_ascii(scan_words(s).0),
        is_ascii_chars(scan_words(s).1),
    decreases s.len(),
{
    if s.len() == 0 {
        assert(ascii_lower(s) =~= s);
        assert(lower_each(Seq::<Seq<char>>::empty()) =~= Seq::<Seq<char>>::empty());
        assert(ascii_lower(Seq::<char>::empty()) =~= Seq::<char>::empty());
    } else {
        let p = s.drop_last();
        assert(is_ascii_chars(p)) by {
            assert forall|i: int| 0 <= i < p.len() implies '\0' <= #[trigger] p[i] <= '\u{7f}' by {
                assert(p[i] == s[i]);
            }
        }
        lemma_scan_words_ascii_lower(p);
        assert(ascii_lower(s).drop_last() =~= ascii_lower(p));
        let c = s.last();
        assert(c == s[s.len() - 1]);
        lemma_ascii_lower_char(c);
        let (done, cur) = scan_words(p);
        if whitespace(c) {
            if cur.len() > 0 {
                assert(lower_each(done.push(cur)) =~= lower_each(done).push(ascii_lower(cur)));
                assert forall|i: int| 0 <= i < done.push(cur).len() implies is_ascii_chars(
                    #[trigger] done.push(cur)[i],
                ) by {
                    if i < done.len() {
                        assert(done.push(cur)[i] == done[i]);
                    }
                }
            }
            assert(ascii_lower(Seq::<char>::empty()) =~= Seq::<char>::empty());
        } else {
            assert(ascii_lower(cur.push(c)) =~= ascii_lower(cur).push(ascii_lower_char(c)));
            assert forall|i: int| 0 <= i < cur.push(c).len() implies '\0' <= #[trigger] cur.push(
                c,
            )[i] <= '\u{7f}' by {
                if i < cur.len() {
                    assert(cur.push(c)[i] == cur[i]);
                }
            }
        }
    }
}

/// The words of the ASCII lowercase of an ASCII string are the lowercased
/// words of the string, and they are ASCII.
pub proof fn lemma_words_ascii_lower(s: Seq<char>)
    requires
        is_ascii_chars(s),
    ensures
        words(ascii_lower(s)) == lower_each(words(s)),
        all_ascii(words(s)),
{
    lemma_scan_words_ascii_lower(s);
    let (done, cur) = scan_words(s);
    if cur.len() > 0 {
        assert(lower_each(done.push(cur)) =~= lower_each(done).push(ascii_lower(cur)));
        assert forall|i: int| 0 <= i < done.push(cur).len() implies is_ascii_chars(
            #[trigger] done.push(cur)[i],
        ) by {
            if i < done.len() {
                assert(done.push(cur)[i] == done[i]);
            }
        }
    }
}


/// The ASCII lowercase of an ASCII string is ASCII and as long.
pub proof fn lemma_ascii_lower_ascii(s: Seq<char>)
    requires
        is_ascii_chars(s),
    ensures
        is_ascii_chars(ascii_lower(s)),
        ascii_lower(s).len() == s.len(),
{
    assert forall|i: int| 0 <= i < ascii_lower(s).len() implies '\0' <= #[trigger] ascii_lower(
        s,
    )[i] <= '\u{7f}' by {
        assert(s[i] <= '\u{7f}');
        lemma_ascii_lower_char(s[i]);
    }
}

} // verus!
